//! Identifiers: 128-bit values, written as 8-4-4-4-12 lower-case
//! hexadecimal digits.

use vstd::prelude::*;

verus! {

#[verifier::external_type_specification]
#[verifier::external_body]
pub struct ExUuidError(uuid::Error);

/// The lower-case hexadecimal digit for a value below sixteen.
pub open spec fn hex_digit(v: u8) -> char {
    if v < 10 {
        ((48 + v) as u8) as char
    } else {
        ((87 + v) as u8) as char
    }
}

/// The `k`-th of the 32 hexadecimal digits of an identifier, from the left.
pub open spec fn id_nibble(id: u128, k: int) -> u8 {
    ((id >> ((4 * (31 - k)) as u128)) & 0xf) as u8
}

/// How many hyphens stand before position `i` of the canonical form.
pub open spec fn hyphens_before(i: int) -> int {
    if i < 8 {
        0
    } else if i < 13 {
        1
    } else if i < 18 {
        2
    } else if i < 23 {
        3
    } else {
        4
    }
}

/// The canonical text of an identifier: 36 characters, hyphens at
/// positions 8, 13, 18 and 23, hexadecimal digits elsewhere.
pub open spec fn canonical_text(id: u128) -> Seq<char> {
    Seq::new(
        36,
        |i: int|
            if i == 8 || i == 13 || i == 18 || i == 23 {
                '-'
            } else {
                hex_digit(id_nibble(id, i - hyphens_before(i)))
            },
    )
}

/// The identifier that a text denotes, if it denotes one. Besides the
/// canonical form the parser accepts the forms without hyphens, in braces
/// and with a `urn:uuid:` prefix.
pub uninterp spec fn parsed_id(text: Seq<char>) -> Option<u128>;

/// Trusted: `uuid::Uuid::new_v4` draws a random identifier and marks it as
/// version 4, variant 1. Nothing else holds of every outcome.
#[verifier::external_body]
pub(crate) fn fresh_id() -> (r: u128)
    ensures
        r & 0x0000_0000_0000_f000_c000_0000_0000_0000 == 0x0000_0000_0000_4000_8000_0000_0000_0000,
{
    uuid::Uuid::new_v4().as_u128()
}

/// Trusted: `uuid::Uuid::parse_str` is a function of the text alone; the
/// value of its result is the big-endian reading of the sixteen bytes. It
/// reads the canonical text of an identifier back as that identifier.
#[verifier::external_body]
pub(crate) fn parse_id(s: &str) -> (r: Result<u128, uuid::Error>)
    ensures
        r.is_ok() == parsed_id(s@).is_some(),
        r matches Ok(v) ==> parsed_id(s@) == Some(v),
        forall|id: u128| s@ == canonical_text(id) ==> r.is_ok() && r->Ok_0 == id,
{
    match uuid::Uuid::parse_str(s) {
        Ok(u) => Ok(u.as_u128()),
        Err(e) => Err(e),
    }
}

/// Trusted: the `Display` text of a `uuid::Error`. Nothing is claimed of it.
#[verifier::external_body]
pub(crate) fn parse_failure_text(e: &uuid::Error) -> (r: String) {
    e.to_string()
}

/// Trusted: the `Display` text of a `uuid::Uuid` is its hyphenated
/// lower-case form.
#[verifier::external_body]
pub(crate) fn id_text(id: u128) -> (r: String)
    ensures
        r@ == canonical_text(id),
{
    uuid::Uuid::from_u128(id).to_string()
}

} // verus!

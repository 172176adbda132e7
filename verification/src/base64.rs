//! Standard base64 with `=` padding, the text form of binary sync payloads.

use vstd::prelude::*;
use vstd::utf8::encode_utf8;
use vstd::utf8::is_ascii_chars;
use vstd::utf8::is_ascii_chars_encode_utf8;
use crate::text::{trim, trimmed, trim_start, trim_end, is_white_space, push_char, owned};

verus! {

/// The character that stands for the six-bit value `v`.
pub open spec fn sextet_char(v: u8) -> char {
    if v < 26 {
        ((65 + v) as u8) as char
    } else if v < 52 {
        ((71 + v) as u8) as char
    } else if v < 62 {
        ((v - 4) as u8) as char
    } else if v == 62 {
        '+'
    } else {
        '/'
    }
}

/// The four characters that encode three bytes.
pub open spec fn quad_of(b0: u8, b1: u8, b2: u8) -> Seq<char> {
    seq![
        sextet_char(b0 >> 2),
        sextet_char(((b0 & 0x03) << 4) | (b1 >> 4)),
        sextet_char(((b1 & 0x0f) << 2) | (b2 >> 6)),
        sextet_char(b2 & 0x3f),
    ]
}

/// The base64 text of a byte sequence: one quad for every three bytes, the
/// last group padded with `=`.
pub open spec fn base64_text(data: Seq<u8>) -> Seq<char>
    decreases data.len(),
{
    if data.len() == 0 {
        Seq::empty()
    } else if data.len() == 1 {
        quad_of(data[0], 0, 0).subrange(0, 2) + seq!['=', '=']
    } else if data.len() == 2 {
        quad_of(data[0], data[1], 0).subrange(0, 3) + seq!['=']
    } else {
        quad_of(data[0], data[1], data[2]) + base64_text(data.skip(3))
    }
}

/// The six-bit value of a base64 symbol; padding counts as zero.
pub open spec fn symbol_value(c: u8) -> Option<u8> {
    if c == 61 {
        Some(0u8)
    } else if 65 <= c <= 90 {
        Some((c - 65) as u8)
    } else if 97 <= c <= 122 {
        Some((c - 71) as u8)
    } else if 48 <= c <= 57 {
        Some((c + 4) as u8)
    } else if c == 43 {
        Some(62u8)
    } else if c == 47 {
        Some(63u8)
    } else {
        None
    }
}

/// `s` without line feeds and carriage returns.
pub open spec fn without_line_breaks(s: Seq<u8>) -> Seq<u8>
    decreases s.len(),
{
    if s.len() == 0 {
        Seq::empty()
    } else {
        let rest = without_line_breaks(s.drop_last());
        if s.last() == 10 || s.last() == 13 {
            rest
        } else {
            rest.push(s.last())
        }
    }
}

/// The index of the first byte that is no base64 symbol.
pub open spec fn first_bad_symbol(s: Seq<u8>) -> Option<int>
    decreases s.len(),
{
    if s.len() == 0 {
        None
    } else {
        match first_bad_symbol(s.drop_last()) {
            Some(i) => Some(i),
            None => if symbol_value(s.last()) is None {
                Some(s.len() - 1)
            } else {
                None
            },
        }
    }
}

/// The bytes that one quad of symbols stands for: a padding sign in the third
/// or fourth place drops that place's byte.
pub open spec fn quad_bytes(c0: u8, c1: u8, c2: u8, c3: u8) -> Seq<u8> {
    let v0 = symbol_value(c0).unwrap();
    let v1 = symbol_value(c1).unwrap();
    let v2 = symbol_value(c2).unwrap();
    let v3 = symbol_value(c3).unwrap();
    let first = seq![(v0 << 2) | (v1 >> 4)];
    let second = if c2 != 61 { seq![(v1 << 4) | (v2 >> 2)] } else { Seq::empty() };
    let third = if c3 != 61 { seq![(v2 << 6) | v3] } else { Seq::empty() };
    first + second + third
}

/// The bytes that a run of whole quads stands for.
pub open spec fn decode_quads(s: Seq<u8>) -> Seq<u8>
    decreases s.len(),
{
    if s.len() < 4 {
        Seq::empty()
    } else {
        quad_bytes(s[0], s[1], s[2], s[3]) + decode_quads(s.skip(4))
    }
}

/// What decoding a text yields: the bytes, or the reason for refusing it.
///
/// White space around the text and line breaks inside it are ignored. The
/// rest must be a whole number of quads made of base64 symbols.
pub open spec fn base64_decoded(text: Seq<char>) -> Result<Seq<u8>, Seq<char>> {
    let t = trimmed(text);
    if t.len() == 0 {
        Ok(Seq::empty())
    } else {
        let bytes = without_line_breaks(encode_utf8(t));
        if bytes.len() % 4 != 0 {
            Err("Invalid base64 length"@)
        } else {
            symbols_decoded(bytes)
        }
    }
}

fn encode_sextet(v: u8) -> (c: char)
    requires
        v < 64,
    ensures
        c == sextet_char(v),
{
    if v < 26 {
        (65 + v) as char
    } else if v < 52 {
        (71 + v) as char
    } else if v < 62 {
        (v - 4) as char
    } else if v == 62 {
        '+'
    } else {
        '/'
    }
}

proof fn lemma_sextets_in_range(b0: u8, b1: u8, b2: u8)
    ensures
        (b0 >> 2) < 64,
        (((b0 & 0x03) << 4) | (b1 >> 4)) < 64,
        (((b1 & 0x0f) << 2) | (b2 >> 6)) < 64,
        (b2 & 0x3f) < 64,
{
    assert((b0 >> 2) < 64) by (bit_vector);
    assert((((b0 & 0x03) << 4) | (b1 >> 4)) < 64) by (bit_vector);
    assert((((b1 & 0x0f) << 2) | (b2 >> 6)) < 64) by (bit_vector);
    assert((b2 & 0x3f) < 64) by (bit_vector);
}

/// Encodes bytes as base64 text.
pub fn base64_encode(data: &[u8]) -> (r: String)
    ensures
        r@ == base64_text(data@),
{
    let mut result = String::new();
    let n = data.len();
    let mut i: usize = 0;
    proof {
        assert(data@.skip(0) == data@);
        assert(result@ + base64_text(data@) == base64_text(data@));
    }
    while n - i >= 3
        invariant
            i <= n,
            n == data@.len(),
            result@ + base64_text(data@.skip(i as int)) == base64_text(data@),
        decreases n - i,
    {
        let b0 = data[i];
        let b1 = data[i + 1];
        let b2 = data[i + 2];
        proof {
            lemma_sextets_in_range(b0, b1, b2);
            let rest = data@.skip(i as int);
            assert(rest.skip(3) == data@.skip(i + 3));
        }
        let ghost before = result@;
        push_char(&mut result, encode_sextet(b0 >> 2));
        push_char(&mut result, encode_sextet(((b0 & 0x03) << 4) | (b1 >> 4)));
        push_char(&mut result, encode_sextet(((b1 & 0x0f) << 2) | (b2 >> 6)));
        push_char(&mut result, encode_sextet(b2 & 0x3f));
        proof {
            assert(result@ == before + quad_of(b0, b1, b2));
        }
        i = i + 3;
    }
    let ghost before = result@;
    let ghost rest = data@.skip(i as int);
    if n - i == 1 {
        let b0 = data[i];
        proof {
            lemma_sextets_in_range(b0, 0, 0);
        }
        push_char(&mut result, encode_sextet(b0 >> 2));
        push_char(&mut result, encode_sextet(((b0 & 0x03) << 4) | (0u8 >> 4)));
        push_char(&mut result, '=');
        push_char(&mut result, '=');
        proof {
            assert(result@ == before + base64_text(rest));
        }
    } else if n - i == 2 {
        let b0 = data[i];
        let b1 = data[i + 1];
        proof {
            lemma_sextets_in_range(b0, b1, 0);
        }
        push_char(&mut result, encode_sextet(b0 >> 2));
        push_char(&mut result, encode_sextet(((b0 & 0x03) << 4) | (b1 >> 4)));
        push_char(&mut result, encode_sextet(((b1 & 0x0f) << 2) | (0u8 >> 6)));
        push_char(&mut result, '=');
        proof {
            assert(result@ == before + base64_text(rest));
        }
    } else {
        proof {
            assert(base64_text(rest) == Seq::<char>::empty());
            assert(result@ + Seq::<char>::empty() == result@);
        }
    }
    result
}

fn decode_symbol(c: u8) -> (r: Option<u8>)
    ensures
        r == symbol_value(c),
{
    if c == 61 {
        Some(0u8)
    } else if 65 <= c && c <= 90 {
        Some(c - 65)
    } else if 97 <= c && c <= 122 {
        Some(c - 71)
    } else if 48 <= c && c <= 57 {
        Some(c + 4)
    } else if c == 43 {
        Some(62u8)
    } else if c == 47 {
        Some(63u8)
    } else {
        None
    }
}

fn bad_symbol_message(c: u8) -> (r: String)
    ensures
        r@ == "Invalid base64 character: "@.push(c as char),
{
    let mut message = owned("Invalid base64 character: ");
    push_char(&mut message, c as char);
    message
}

proof fn lemma_first_bad_found(s: Seq<u8>, m: int, j: int)
    requires
        0 <= m < j <= s.len(),
        first_bad_symbol(s.take(m)) is None,
        symbol_value(s[m]) is None,
    ensures
        first_bad_symbol(s.take(j)) == Some(m),
    decreases j,
{
    if j == m + 1 {
        assert(s.take(j).drop_last() == s.take(m));
    } else {
        lemma_first_bad_found(s, m, j - 1);
        assert(s.take(j).drop_last() == s.take(j - 1));
    }
}

proof fn lemma_first_bad_none_extends(s: Seq<u8>, m: int)
    requires
        0 <= m < s.len(),
        first_bad_symbol(s.take(m)) is None,
        symbol_value(s[m]) is Some,
    ensures
        first_bad_symbol(s.take(m + 1)) is None,
{
    assert(s.take(m + 1).drop_last() == s.take(m));
}

/// What a run of whole quads decodes to: its bytes, or the refusal that
/// names the first byte that is no symbol.
pub open spec fn symbols_decoded(bytes: Seq<u8>) -> Result<Seq<u8>, Seq<char>> {
    match first_bad_symbol(bytes) {
        Some(i) => Err("Invalid base64 character: "@.push(bytes[i] as char)),
        None => Ok(decode_quads(bytes)),
    }
}

fn strip_line_breaks(raw: &[u8]) -> (bytes: Vec<u8>)
    ensures
        bytes@ == without_line_breaks(raw@),
{
    let mut bytes: Vec<u8> = Vec::new();
    let mut i: usize = 0;
    proof {
        assert(raw@.take(0) == Seq::<u8>::empty());
    }
    while i < raw.len()
        invariant
            i <= raw@.len(),
            bytes@ == without_line_breaks(raw@.take(i as int)),
        decreases raw@.len() - i,
    {
        let b = raw[i];
        proof {
            assert(raw@.take(i + 1).drop_last() == raw@.take(i as int));
        }
        if b != 10 && b != 13 {
            bytes.push(b);
        }
        i = i + 1;
    }
    proof {
        assert(raw@.take(i as int) == raw@);
    }
    bytes
}

fn check_symbol(bytes: &Vec<u8>, m: usize) -> (r: Result<u8, String>)
    requires
        m < bytes@.len(),
        first_bad_symbol(bytes@.take(m as int)) is None,
    ensures
        match r {
            Ok(v) => symbol_value(bytes@[m as int]) == Some(v) && first_bad_symbol(
                bytes@.take(m + 1),
            ) is None,
            Err(e) => symbols_decoded(bytes@) == Err::<Seq<u8>, Seq<char>>(e@),
        },
{
    let c = bytes[m];
    match decode_symbol(c) {
        Some(v) => {
            proof {
                lemma_first_bad_none_extends(bytes@, m as int);
            }
            Ok(v)
        },
        None => {
            proof {
                lemma_first_bad_found(bytes@, m as int, bytes@.len() as int);
                assert(bytes@.take(bytes@.len() as int) == bytes@);
            }
            Err(bad_symbol_message(c))
        },
    }
}

fn decode_symbols(bytes: &Vec<u8>) -> (r: Result<Vec<u8>, String>)
    requires
        bytes@.len() % 4 == 0,
    ensures
        match r {
            Ok(v) => symbols_decoded(bytes@) == Ok::<Seq<u8>, Seq<char>>(v@),
            Err(e) => symbols_decoded(bytes@) == Err::<Seq<u8>, Seq<char>>(e@),
        },
{
    let n = bytes.len();
    let mut result: Vec<u8> = Vec::new();
    let mut k: usize = 0;
    proof {
        assert(bytes@.skip(0) == bytes@);
        assert(bytes@.take(0) == Seq::<u8>::empty());
        assert(result@ + decode_quads(bytes@) == decode_quads(bytes@));
    }
    while k < n
        invariant
            n == bytes@.len(),
            n % 4 == 0,
            k % 4 == 0,
            k <= n,
            first_bad_symbol(bytes@.take(k as int)) is None,
            result@ + decode_quads(bytes@.skip(k as int)) == decode_quads(bytes@),
        decreases n - k,
    {
        let v0 = check_symbol(bytes, k)?;
        let v1 = check_symbol(bytes, k + 1)?;
        let v2 = check_symbol(bytes, k + 2)?;
        let v3 = check_symbol(bytes, k + 3)?;
        let ghost before = result@;
        let ghost rest = bytes@.skip(k as int);
        result.push((v0 << 2) | (v1 >> 4));
        if bytes[k + 2] != 61 {
            result.push((v1 << 4) | (v2 >> 2));
        }
        if bytes[k + 3] != 61 {
            result.push((v2 << 6) | v3);
        }
        proof {
            assert(rest.skip(4) == bytes@.skip(k + 4));
            assert(result@ == before + quad_bytes(rest[0], rest[1], rest[2], rest[3]));
        }
        k = k + 4;
    }
    proof {
        assert(bytes@.take(k as int) == bytes@);
        assert(decode_quads(bytes@.skip(k as int)) == Seq::<u8>::empty());
        assert(result@ + Seq::<u8>::empty() == result@);
    }
    Ok(result)
}

/// Decodes base64 text into bytes.
///
/// Succeeds exactly on the texts that, once trimmed and freed of line
/// breaks, are whole quads of base64 symbols; the error says which of the
/// two demands the text fails, and names the first offending byte.
pub fn base64_decode(data: &str) -> (r: Result<Vec<u8>, String>)
    ensures
        match r {
            Ok(v) => base64_decoded(data@) == Ok::<Seq<u8>, Seq<char>>(v@),
            Err(e) => base64_decoded(data@) == Err::<Seq<u8>, Seq<char>>(e@),
        },
{
    let t = trim(data);
    if t.is_empty() {
        return Ok(Vec::new());
    }
    let bytes = strip_line_breaks(t.as_bytes());
    if bytes.len() % 4 != 0 {
        return Err(owned("Invalid base64 length"));
    }
    decode_symbols(&bytes)
}

/// The byte values of the characters of a text.
pub open spec fn codes(t: Seq<char>) -> Seq<u8> {
    Seq::new(t.len(), |i: int| t[i] as u8)
}

/// A character that the encoder can emit: an ASCII base64 symbol.
pub open spec fn is_symbol_char(c: char) -> bool {
    &&& '\0' <= c <= '\u{7f}'
    &&& symbol_value(c as u8) is Some
    &&& c as u8 != 10
    &&& c as u8 != 13
    &&& !is_white_space(c)
}

proof fn lemma_sextet_symbol(v: u8)
    requires
        v < 64,
    ensures
        is_symbol_char(sextet_char(v)),
        symbol_value(sextet_char(v) as u8) == Some(v),
        sextet_char(v) as u8 != 61,
{
}

proof fn lemma_quad_bits(b0: u8, b1: u8, b2: u8)
    ensures
        (((b0 >> 2) << 2) | ((((b0 & 0x03) << 4) | (b1 >> 4)) >> 4)) == b0,
        (((((b0 & 0x03) << 4) | (b1 >> 4)) << 4) | ((((b1 & 0x0f) << 2) | (b2 >> 6)) >> 2)) == b1,
        (((((b1 & 0x0f) << 2) | (b2 >> 6)) << 6) | (b2 & 0x3f)) == b2,
{
    assert((((b0 >> 2) << 2) | ((((b0 & 0x03) << 4) | (b1 >> 4)) >> 4)) == b0) by (bit_vector);
    assert((((((b0 & 0x03) << 4) | (b1 >> 4)) << 4) | ((((b1 & 0x0f) << 2) | (b2 >> 6)) >> 2))
        == b1) by (bit_vector);
    assert((((((b1 & 0x0f) << 2) | (b2 >> 6)) << 6) | (b2 & 0x3f)) == b2) by (bit_vector);
}

proof fn lemma_quad_round_trip(b0: u8, b1: u8, b2: u8)
    ensures
        forall|i: int| 0 <= i < 4 ==> is_symbol_char(#[trigger] quad_of(b0, b1, b2)[i]),
        forall|i: int| 0 <= i < 4 ==> #[trigger] quad_of(b0, b1, b2)[i] as u8 != 61,
        ({
            let c = codes(quad_of(b0, b1, b2));
            &&& quad_bytes(c[0], c[1], c[2], c[3]) == seq![b0, b1, b2]
            &&& quad_bytes(c[0], c[1], c[2], 61) == seq![b0, b1]
            &&& quad_bytes(c[0], c[1], 61, 61) == seq![b0]
        }),
{
    lemma_sextets_in_range(b0, b1, b2);
    lemma_quad_bits(b0, b1, b2);
    lemma_sextet_symbol(b0 >> 2);
    lemma_sextet_symbol(((b0 & 0x03) << 4) | (b1 >> 4));
    lemma_sextet_symbol(((b1 & 0x0f) << 2) | (b2 >> 6));
    lemma_sextet_symbol(b2 & 0x3f);
    let c = codes(quad_of(b0, b1, b2));
    assert(quad_bytes(c[0], c[1], c[2], c[3]) =~= seq![b0, b1, b2]);
    assert(quad_bytes(c[0], c[1], c[2], 61) =~= seq![b0, b1]);
    assert(quad_bytes(c[0], c[1], 61, 61) =~= seq![b0]);
}

proof fn lemma_encoded_text(data: Seq<u8>)
    ensures
        base64_text(data).len() % 4 == 0,
        (base64_text(data).len() == 0) == (data.len() == 0),
        forall|i: int|
            0 <= i < base64_text(data).len() ==> is_symbol_char(#[trigger] base64_text(data)[i]),
        decode_quads(codes(base64_text(data))) == data,
    decreases data.len(),
{
    let t = base64_text(data);
    let c = codes(t);
    if data.len() == 0 {
        assert(decode_quads(c) =~= data);
    } else if data.len() == 1 {
        let b0 = data[0];
        lemma_quad_round_trip(b0, 0, 0);
        lemma_sextets_in_range(b0, 0, 0);
        let q = quad_of(b0, 0, 0);
        assert(t =~= seq![q[0], q[1], '=', '=']);
        assert(c.skip(4) =~= Seq::<u8>::empty());
        assert(c[0] == codes(q)[0] && c[1] == codes(q)[1]);
        assert(c[2] == 61 && c[3] == 61);
        assert(decode_quads(c.skip(4)) =~= Seq::<u8>::empty());
        assert(decode_quads(c) =~= quad_bytes(c[0], c[1], 61, 61));
        assert(decode_quads(c) =~= data);
    } else if data.len() == 2 {
        let b0 = data[0];
        let b1 = data[1];
        lemma_quad_round_trip(b0, b1, 0);
        let q = quad_of(b0, b1, 0);
        assert(t =~= seq![q[0], q[1], q[2], '=']);
        assert(c.skip(4) =~= Seq::<u8>::empty());
        assert(c[0] == codes(q)[0] && c[1] == codes(q)[1] && c[2] == codes(q)[2]);
        assert(c[3] == 61);
        assert(decode_quads(c.skip(4)) =~= Seq::<u8>::empty());
        assert(decode_quads(c) =~= quad_bytes(c[0], c[1], c[2], 61));
        assert(decode_quads(c) =~= data);
    } else {
        let b0 = data[0];
        let b1 = data[1];
        let b2 = data[2];
        let rest = data.skip(3);
        lemma_quad_round_trip(b0, b1, b2);
        lemma_encoded_text(rest);
        let q = quad_of(b0, b1, b2);
        let tr = base64_text(rest);
        assert(t == q + tr);
        assert(c.skip(4) =~= codes(tr));
        assert(c[0] == codes(q)[0] && c[1] == codes(q)[1] && c[2] == codes(q)[2] && c[3] == codes(
            q,
        )[3]);
        assert forall|i: int| 0 <= i < t.len() implies is_symbol_char(#[trigger] t[i]) by {
            if i < 4 {
                assert(t[i] == q[i]);
            } else {
                assert(t[i] == tr[i - 4]);
            }
        }
        assert(decode_quads(c) =~= seq![b0, b1, b2] + rest);
        assert(seq![b0, b1, b2] + rest =~= data);
    }
}

proof fn lemma_no_line_breaks(s: Seq<u8>)
    requires
        forall|i: int| 0 <= i < s.len() ==> s[i] != 10 && s[i] != 13,
    ensures
        without_line_breaks(s) == s,
    decreases s.len(),
{
    if s.len() > 0 {
        lemma_no_line_breaks(s.drop_last());
        assert(s.drop_last().push(s.last()) =~= s);
    } else {
        assert(s =~= Seq::<u8>::empty());
    }
}

proof fn lemma_all_symbols(s: Seq<u8>)
    requires
        forall|i: int| 0 <= i < s.len() ==> symbol_value(#[trigger] s[i]) is Some,
    ensures
        first_bad_symbol(s) is None,
    decreases s.len(),
{
    if s.len() > 0 {
        lemma_all_symbols(s.drop_last());
    }
}

/// Law: decoding what the encoder wrote gives the bytes back, whatever
/// they are.
pub proof fn lemma_base64_round_trip(data: Seq<u8>)
    ensures
        base64_decoded(base64_text(data)) == Ok::<Seq<u8>, Seq<char>>(data),
{
    lemma_encoded_text(data);
    let t = base64_text(data);
    if data.len() == 0 {
        assert(data =~= Seq::<u8>::empty());
    } else {
        assert(is_symbol_char(t[0]));
        assert(is_symbol_char(t[t.len() - 1]));
        assert(trim_start(t) == t);
        assert(trim_end(t) == t);
        assert(is_ascii_chars(t)) by {
            assert forall|i: int| 0 <= i < t.len() implies '\0' <= #[trigger] t[i] <= '\u{7f}' by {
                assert(is_symbol_char(t[i]));
            }
        }
        is_ascii_chars_encode_utf8(t);
        let c = codes(t);
        assert(encode_utf8(t) =~= c);
        assert forall|i: int| 0 <= i < c.len() implies c[i] != 10 && c[i] != 13
            && symbol_value(#[trigger] c[i]) is Some by {
            assert(is_symbol_char(t[i]));
        }
        lemma_no_line_breaks(c);
        lemma_all_symbols(c);
    }
}

} // verus!

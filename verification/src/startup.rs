//! What the server decides before it starts: where its database file is,
//! and what to make of the operator's answer when that file is missing.

use vstd::prelude::*;
use crate::text::{
    concat,
    ends_with,
    eq_ignore_ascii_case,
    first_index_of,
    has_suffix,
    same_ignoring_ascii_case,
    split_once,
    starts_with,
    strip_prefix,
    text_eq,
    trim,
    trimmed,
};

verus! {

/// The text behind an optional prefix.
pub open spec fn without_prefix(s: Seq<char>, prefix: Seq<char>) -> Seq<char> {
    if starts_with(s, prefix) {
        s.subrange(prefix.len() as int, s.len() as int)
    } else {
        s
    }
}

/// The text before the first question mark, or all of it.
pub open spec fn before_query(s: Seq<char>) -> Seq<char> {
    if s.contains('?') {
        s.subrange(0, first_index_of(s, '?'))
    } else {
        s
    }
}

/// The file that a database address names: what stands behind `sqlite:`
/// and an optional `//`, up to the query. Other addresses name none, nor
/// does the address of the database in memory.
pub open spec fn sqlite_path(url: Seq<char>) -> Option<Seq<char>> {
    if !starts_with(url, "sqlite:"@) {
        None
    } else {
        let path = before_query(
            without_prefix(url.subrange("sqlite:"@.len() as int, url.len() as int), "//"@),
        );
        if path == ":memory:"@ || path.len() == 0 {
            None
        } else {
            Some(path)
        }
    }
}

/// The file that a database address names, if it names one.
pub fn extract_sqlite_path(url: &str) -> (r: Option<&str>)
    ensures
        crate::opencode::slice_text(r) == sqlite_path(url@),
{
    let rest = match strip_prefix(url, "sqlite:") {
        Some(rest) => rest,
        None => {
            return None;
        },
    };
    let rest = match strip_prefix(rest, "//") {
        Some(inner) => inner,
        None => rest,
    };
    let path = match split_once(rest, '?') {
        Some(parts) => parts.0,
        None => rest,
    };
    if text_eq(path, ":memory:") || path.is_empty() {
        None
    } else {
        Some(path)
    }
}

/// The address of the database file at a path, to be created where it is
/// missing.
pub open spec fn address_of(path: Seq<char>) -> Seq<char> {
    "sqlite:"@ + path + "?mode=rwc"@
}

/// What the operator's answer to the question about a missing database
/// file comes to: the address to use, or `None` to quit.
///
/// An empty answer takes the default path. `q` and `quit`, in any case,
/// quit. Any other answer is a path, which gets the ending `.db` unless it
/// ends in `.db` or `.sqlite` already.
pub open spec fn answered_address(default_path: Seq<char>, input: Seq<char>) -> Option<Seq<char>> {
    let answer = trimmed(input);
    if answer.len() == 0 {
        Some(address_of(default_path))
    } else if same_ignoring_ascii_case(answer, "q"@) || same_ignoring_ascii_case(
        answer,
        "quit"@,
    ) {
        None
    } else if ends_with(answer, ".db"@) || ends_with(answer, ".sqlite"@) {
        Some(address_of(answer))
    } else {
        Some(address_of(answer + ".db"@))
    }
}

fn address(path: &str) -> (r: String)
    ensures
        r@ == address_of(path@),
{
    let head = concat("sqlite:", path);
    concat(head.as_str(), "?mode=rwc")
}

/// Reads the operator's answer to the question about a missing database
/// file.
pub fn database_choice(default_path: &str, input: &str) -> (r: Option<String>)
    ensures
        crate::opencode::text_of(r) == answered_address(default_path@, input@),
{
    let answer = trim(input);
    if answer.is_empty() {
        Some(address(default_path))
    } else if eq_ignore_ascii_case(answer, "q") || eq_ignore_ascii_case(answer, "quit") {
        None
    } else if has_suffix(answer, ".db") || has_suffix(answer, ".sqlite") {
        Some(address(answer))
    } else {
        let path = concat(answer, ".db");
        Some(address(path.as_str()))
    }
}

/// The address to listen on: host, colon, port.
pub fn bind_address(host: &str, port: u16) -> (r: String)
    ensures
        r@ == host@ + ":"@ + decimal(port as nat),
{
    let head = concat(host, ":");
    let digits = decimal_text(port);
    concat(head.as_str(), digits.as_str())
}

/// The decimal digits of a number.
pub open spec fn decimal(n: nat) -> Seq<char>
    decreases n,
{
    if n < 10 {
        seq![(48 + n) as u8 as char]
    } else {
        decimal(n / 10).push((48 + n % 10) as u8 as char)
    }
}

fn decimal_text(n: u16) -> (r: String)
    ensures
        r@ == decimal(n as nat),
    decreases n,
{
    if n < 10 {
        let mut out = String::new();
        crate::text::push_char(&mut out, (48 + n as u8) as char);
        proof {
            assert(out@ =~= seq![(48 + n as nat) as u8 as char]);
        }
        out
    } else {
        let mut out = decimal_text(n / 10);
        crate::text::push_char(&mut out, (48 + (n % 10) as u8) as char);
        out
    }
}

} // verus!

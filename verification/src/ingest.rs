//! Decoding of raw datagram payloads into update events.
//!
//! A payload is UTF-8 text; surrounding whitespace is trimmed and the
//! rest is split on tab characters into an ordered sequence of fields.
//! A payload that is not valid UTF-8 decodes to nothing and the datagram
//! is discarded by the caller.  Receiving the datagram itself is the
//! embedding program's task; this module only computes on the bytes it
//! was handed.

use vstd::prelude::*;

verus! {

/// Whether a byte sequence is valid UTF-8.
pub uninterp spec fn utf8_ok(bytes: Seq<u8>) -> bool;

/// The characters a valid UTF-8 byte sequence decodes to.
pub uninterp spec fn utf8_chars(bytes: Seq<u8>) -> Seq<char>;

/// The characters left after removing leading and trailing whitespace.
pub uninterp spec fn trim_of(s: Seq<char>) -> Seq<char>;

/// The pieces a character sequence falls into at tab characters; always
/// at least one piece, the whole sequence where no tab occurs.
pub uninterp spec fn split_tab_of(s: Seq<char>) -> Seq<Seq<char>>;

/// The fields of a payload: its text trimmed, then split on tabs.
pub open spec fn payload_fields(bytes: Seq<u8>) -> Seq<Seq<char>> {
    split_tab_of(trim_of(utf8_chars(bytes)))
}

/// Relies on String::from_utf8: it succeeds exactly on valid UTF-8, and
/// the characters of the string it returns depend on the bytes alone.
#[verifier::external_body]
fn utf8_decode(bytes: Vec<u8>) -> (r: Option<String>)
    ensures
        r is Some <==> utf8_ok(bytes@),
        r is Some ==> r->0@ == utf8_chars(bytes@),
{
    match String::from_utf8(bytes) {
        Ok(s) => Some(s),
        Err(_) => None,
    }
}

/// Relies on str::trim: it removes exactly the leading and trailing
/// whitespace, and the result depends on the characters alone.
#[verifier::external_body]
fn trim_str(s: &str) -> (r: &str)
    ensures
        r@ == trim_of(s@),
{
    s.trim()
}

/// Relies on str::split with a tab separator: the pieces depend on the
/// characters alone, and there is at least one, the whole input where no
/// tab occurs.
#[verifier::external_body]
fn split_tab(s: &str) -> (r: Vec<String>)
    ensures
        r@.map_values(|t: String| t@) == split_tab_of(s@),
        r@.len() >= 1,
{
    s.split('\t').map(|p: &str| p.to_owned()).collect()
}

/// Decodes one datagram payload into its ordered fields: nothing for
/// bytes that are not valid UTF-8, and otherwise the text trimmed of
/// surrounding whitespace and split on tabs.
pub fn decode_payload(buf: Vec<u8>) -> (r: Option<Vec<String>>)
    ensures
        r is Some <==> utf8_ok(buf@),
        r is Some ==> r->0@.map_values(|t: String| t@) == payload_fields(buf@),
        r is Some ==> r->0@.len() >= 1,
{
    match utf8_decode(buf) {
        None => None,
        Some(s) => Some(split_tab(trim_str(s.as_str()))),
    }
}

} // verus!

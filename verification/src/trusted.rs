//! The calls this library makes into code it does not verify: the `regex`
//! crate, and the few `std` functions that vstd gives no specification. Each
//! item's contract is believed, not proved.

use vstd::prelude::*;
use vstd::utf8::{decode_utf8, valid_utf8};

verus! {

/// `String::push`: the string gains `c` at its end.
#[verifier::external_body]
pub(crate) fn push_char(s: &mut String, c: char)
    ensures
        final(s)@ == old(s)@.push(c),
{
    s.push(c);
}

/// What `String::from_utf8_lossy` makes of `bytes`: the UTF-8 decoding, with
/// each invalid sequence replaced by U+FFFD.
pub uninterp spec fn utf8_lossy(bytes: Seq<u8>) -> Seq<char>;

/// `String::from_utf8_lossy`, owned. The result is `utf8_lossy` of the bytes,
/// and, as its documentation says, exactly their decoding when they are valid
/// UTF-8. What it makes of invalid input is left to the name.
#[verifier::external_body]
pub(crate) fn lossy_string(bytes: &[u8]) -> (s: String)
    ensures
        s@ == utf8_lossy(bytes@),
        valid_utf8(bytes@) ==> s@ == decode_utf8(bytes@),
{
    String::from_utf8_lossy(bytes).into_owned()
}

/// What `regex::Regex::replace_all(text, "")` returns for the regex that
/// `regex::Regex::new(pattern)` compiles: `text` with every leftmost-first,
/// non-overlapping match removed; `None` when the pattern does not compile.
pub uninterp spec fn regex_erase(pattern: Seq<char>, text: Seq<char>) -> Option<Seq<char>>;

/// `regex::Regex::new(pattern)` then `replace_all(text, "")`. The contract only
/// ties the result to the name [`regex_erase`]; what the regex matches is not
/// stated.
#[verifier::external_body]
pub(crate) fn erase_matches(pattern: &str, text: &str) -> (r: Option<String>)
    ensures
        match r {
            Some(s) => regex_erase(pattern@, text@) == Some(s@),
            None => regex_erase(pattern@, text@) is None,
        },
{
    match regex::Regex::new(pattern) {
        Ok(re) => Some(re.replace_all(text, "").into_owned()),
        Err(_) => None,
    }
}

/// What `regex::bytes::Regex::replace_all(haystack, b"")` returns for the regex
/// that `regex::bytes::Regex::new(pattern)` compiles: `haystack` with every
/// leftmost-first, non-overlapping match removed; `None` when the pattern does
/// not compile.
pub uninterp spec fn regex_erase_bytes(pattern: Seq<char>, haystack: Seq<u8>) -> Option<Seq<u8>>;

/// `regex::bytes::Regex::new(pattern)` then `replace_all(haystack, b"")`. The
/// contract only ties the result to the name [`regex_erase_bytes`]; what the
/// regex matches is not stated.
#[verifier::external_body]
pub(crate) fn erase_byte_matches(pattern: &str, haystack: &[u8]) -> (r: Option<Vec<u8>>)
    ensures
        match r {
            Some(v) => regex_erase_bytes(pattern@, haystack@) == Some(v@),
            None => regex_erase_bytes(pattern@, haystack@) is None,
        },
{
    match regex::bytes::Regex::new(pattern) {
        Ok(re) => Some(re.replace_all(haystack, &b""[..]).into_owned()),
        Err(_) => None,
    }
}

} // verus!

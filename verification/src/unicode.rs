//! Unicode letter case, and the decoding of bytes to text. Both are left to the
//! standard library: the functions here call it, and say in their contracts what
//! the rest of the crate takes from it on trust.
use vstd::prelude::*;
use vstd::utf8::{decode_utf8, is_ascii_chars, valid_utf8};

use crate::text::{ascii_lowered, ascii_uppered};

verus! {

/// What `str::to_uppercase` makes of a text: every character by the Unicode
/// upper case mapping, which may turn one character into several.
pub uninterp spec fn uppercase(s: Seq<char>) -> Seq<char>;

/// What `str::to_lowercase` makes of a text: the text by the Unicode lower case
/// mapping, which may turn one character into several, and which takes a capital
/// sigma by its place in the word.
pub uninterp spec fn lowercase(s: Seq<char>) -> Seq<char>;

/// What `String::from_utf8_lossy` makes of bytes: their UTF-8 text, with the
/// replacement character wherever they are no UTF-8.
pub uninterp spec fn lossy_text(bytes: Seq<u8>) -> Seq<char>;

/// Calls `str::to_uppercase`. The result depends on the text alone, and of a
/// text in ASCII it is the text in ASCII upper case.
#[verifier::external_body]
pub(crate) fn to_uppercase(s: &str) -> (r: String)
    ensures
        r@ == uppercase(s@),
        is_ascii_chars(s@) ==> r@ == ascii_uppered(s@),
{
    s.to_uppercase()
}

/// Calls `str::to_lowercase`. The result depends on the text alone, and of a
/// text in ASCII it is the text in ASCII lower case.
#[verifier::external_body]
pub(crate) fn to_lowercase(s: &str) -> (r: String)
    ensures
        r@ == lowercase(s@),
        is_ascii_chars(s@) ==> r@ == ascii_lowered(s@),
{
    s.to_lowercase()
}

/// Calls `String::from_utf8_lossy`. The result depends on the bytes alone, and
/// where the bytes are valid UTF-8 it is the text that they encode.
#[verifier::external_body]
pub(crate) fn from_utf8_lossy(bytes: &[u8]) -> (r: String)
    ensures
        r@ == lossy_text(bytes@),
        valid_utf8(bytes@) ==> r@ == decode_utf8(bytes@),
{
    String::from_utf8_lossy(bytes).into_owned()
}

} // verus!

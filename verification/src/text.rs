//! Text and the bytes that spell it.

use vstd::prelude::*;
use vstd::utf8::{encode_utf8, valid_utf8};

verus! {

/// Turns bytes into the text they spell, if they are UTF-8.
///
/// Trusted: `String::from_utf8` of std. It succeeds exactly on valid UTF-8
/// and keeps the bytes it was given as the string's own.
#[verifier::external_body]
pub(crate) fn string_from_utf8(bytes: Vec<u8>) -> (text: Option<String>)
    ensures
        text is Some <==> valid_utf8(bytes@),
        text matches Some(t) ==> encode_utf8(t@) == bytes@,
{
    String::from_utf8(bytes).ok()
}

} // verus!

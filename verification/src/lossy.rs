//! Bytes to text, for input that may not be UTF-8.

use aoko::no_std::functions::ext::Utf8Ext;
use vstd::prelude::*;
use vstd::utf8::*;

verus! {

/// The text that lossy decoding makes of `bytes`: the characters that the
/// bytes encode, with U+FFFD in place of each part that is not UTF-8.
pub uninterp spec fn lossy_text(bytes: Seq<u8>) -> Seq<char>;

/// `Utf8Ext::to_str_lossy` of aoko, which is `String::from_utf8_lossy`.
/// Not proved: that the result depends on the bytes alone, and that bytes
/// which are UTF-8 come back as the text they encode.
#[verifier::external_body]
pub(crate) fn to_str_lossy(bytes: &[u8]) -> (text: String)
    ensures
        text@ == lossy_text(bytes@),
        valid_utf8(bytes@) ==> text@ == decode_utf8(bytes@),
{
    bytes.to_str_lossy().into_owned()
}

} // verus!

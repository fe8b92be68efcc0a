//! Fields as text: bytes decoded as UTF-8, with a replacement character
//! wherever the bytes are no UTF-8.

use vstd::prelude::*;

verus! {

/// The text that the standard library's lossy UTF-8 decoding makes of
/// `bytes`. It is a function of the bytes alone; what it is for bytes that
/// are not ASCII is not spelled out here.
pub uninterp spec fn lossy_text(bytes: Seq<u8>) -> Seq<char>;

/// Every byte is below `0x80`.
pub open spec fn is_ascii_text(bytes: Seq<u8>) -> bool {
    forall|i: int| 0 <= i < bytes.len() ==> #[trigger] bytes[i] < 0x80
}

/// ASCII bytes as characters: each byte is the character of the same code.
pub open spec fn ascii_text(bytes: Seq<u8>) -> Seq<char> {
    bytes.map_values(|b: u8| b as char)
}

/// Calls `String::from_utf8_lossy` and takes the text as an owned `String`.
///
/// Not proved, but taken from the standard library's documentation: the text
/// depends on the bytes alone, and bytes that are valid UTF-8 come back
/// unchanged, so ASCII bytes give one character each, of the same code.
/// Nothing is claimed of how bytes that are no UTF-8 are replaced.
#[verifier::external_body]
pub(crate) fn utf8_lossy(bytes: &[u8]) -> (text: String)
    ensures
        text@ == lossy_text(bytes@),
        is_ascii_text(bytes@) ==> text@ == ascii_text(bytes@),
{
    String::from_utf8_lossy(bytes).into_owned()
}

} // verus!

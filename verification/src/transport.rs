//! The text transport: members travel to and from the key-value store in the
//! single-byte code page Windows-1252, so that members written long ago still
//! read back.
//!
//! The code page itself is the work of the `encoding` crate. Its results carry
//! the names `windows_1252_bytes` and `windows_1252_text` here; all that is
//! said of them is that a character stands for a byte and that the ASCII range
//! stands for itself.

use encoding::all::WINDOWS_1252;
use encoding::{DecoderTrap, EncoderTrap, Encoding};
use vstd::prelude::*;

verus! {

/// The bytes that the `encoding` crate's Windows-1252 encoder writes for `text`
/// when it replaces what the code page lacks.
pub uninterp spec fn windows_1252_bytes(text: Seq<char>) -> Seq<u8>;

/// The text that the `encoding` crate's Windows-1252 decoder reads from `bytes`
/// when it replaces what the code page lacks.
pub uninterp spec fn windows_1252_text(bytes: Seq<u8>) -> Seq<char>;

/// Every byte is below 0x80.
pub open spec fn is_ascii_bytes(bytes: Seq<u8>) -> bool {
    forall|i: int| 0 <= i < bytes.len() ==> bytes[i] <= 0x7f
}

/// Every character is below U+0080.
pub open spec fn is_ascii_text(text: Seq<char>) -> bool {
    forall|i: int| 0 <= i < text.len() ==> text[i] <= '\u{7f}'
}

/// An ASCII text, byte by byte.
pub open spec fn ascii_bytes(text: Seq<char>) -> Seq<u8> {
    Seq::new(text.len(), |i: int| text[i] as u8)
}

/// ASCII bytes, character by character.
pub open spec fn ascii_text(bytes: Seq<u8>) -> Seq<char> {
    Seq::new(bytes.len(), |i: int| bytes[i] as char)
}

/// Calls `Encoding::encode` of the `encoding` crate on `WINDOWS_1252`, with
/// `EncoderTrap::Replace`. Taken on trust: the result is a function of the text
/// alone, holds one byte for each character, and holds each character up to
/// U+007F as the byte of the same number. With that trap the encoder cannot
/// fail: it writes `?` for a character that the code page lacks.
#[verifier::external_body]
pub(crate) fn to_redis(string: &str) -> (bytes: Vec<u8>)
    ensures
        bytes@ == windows_1252_bytes(string@),
        bytes@.len() == string@.len(),
        forall|i: int|
            0 <= i < string@.len() && string@[i] <= '\u{7f}' ==> bytes@[i] == string@[i] as u8,
{
    WINDOWS_1252.encode(string, EncoderTrap::Replace).unwrap()
}

/// Calls `Encoding::decode` of the `encoding` crate on `WINDOWS_1252`, with
/// `DecoderTrap::Replace`. Taken on trust: the result is a function of the
/// bytes alone, holds one character for each byte, and holds each byte up to
/// 0x7F as the character of the same number. With that trap the decoder cannot
/// fail: it writes U+FFFD for a byte that the code page leaves open.
#[verifier::external_body]
pub(crate) fn from_redis(bytes: &Vec<u8>) -> (text: String)
    ensures
        text@ == windows_1252_text(bytes@),
        text@.len() == bytes@.len(),
        forall|i: int| 0 <= i < bytes@.len() && bytes@[i] <= 0x7f ==> text@[i] == bytes@[i] as char,
{
    WINDOWS_1252.decode(bytes.as_slice(), DecoderTrap::Replace).unwrap()
}

} // verus!

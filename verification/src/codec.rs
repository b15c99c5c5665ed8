//! The calls into the byte-order and zlib crates and into std's string
//! functions, each with the contract that the rest of the library relies on.

use byteorder::ByteOrder;
use vstd::prelude::*;
use vstd::utf8::*;

verus! {

/// The unsigned 32-bit integer that the first four bytes of `bytes` spell,
/// least significant byte first.
pub open spec fn le_u32_value(bytes: Seq<u8>) -> u32
    recommends
        bytes.len() >= 4,
{
    (bytes[0] as int + 256 * (bytes[1] as int) + 65536 * (bytes[2] as int) + 16777216 * (
    bytes[3] as int)) as u32
}

/// What inflating a zlib stream gives: the decompressed bytes, or `None`
/// where the stream is malformed.
pub uninterp spec fn zlib_inflated(data: Seq<u8>) -> Option<Seq<u8>>;

/// The zlib stream that compressing `data` at the default level gives.
pub uninterp spec fn zlib_deflated(data: Seq<u8>) -> Seq<u8>;

/// The text that is left of `text` once leading and trailing white space is
/// removed.
pub uninterp spec fn trimmed_text(text: Seq<char>) -> Seq<char>;

/// `part` is a run of consecutive items of `whole`.
pub open spec fn is_part_of(part: Seq<char>, whole: Seq<char>) -> bool {
    exists|from: int, to: int|
        0 <= from <= to <= whole.len() && part == #[trigger] whole.subrange(from, to)
}

/// `byteorder::LittleEndian::read_u32`: reads the first four bytes of the
/// slice as a little-endian integer. It panics on a shorter slice, which the
/// precondition leaves out.
#[verifier::external_body]
pub(crate) fn le_u32(bytes: &[u8]) -> (value: u32)
    requires
        bytes@.len() >= 4,
    ensures
        value == le_u32_value(bytes@),
{
    byteorder::LittleEndian::read_u32(bytes)
}

/// `inflate::inflate_bytes_zlib`: the decompressed bytes of a zlib stream, or
/// `None` where it reports an error. The result is named, not described.
#[verifier::external_body]
pub(crate) fn inflate_zlib(data: &[u8]) -> (inflated: Option<Vec<u8>>)
    ensures
        inflated is Some <==> zlib_inflated(data@) is Some,
        inflated is Some ==> inflated.unwrap()@ == zlib_inflated(data@).unwrap(),
{
    match inflate::inflate_bytes_zlib(data) {
        Ok(bytes) => Some(bytes),
        Err(_) => None,
    }
}

/// `deflate::deflate_bytes_zlib`: the zlib stream for the given bytes. The
/// result is named, not described.
#[verifier::external_body]
pub(crate) fn deflate_zlib(data: &[u8]) -> (deflated: Vec<u8>)
    ensures
        deflated@ == zlib_deflated(data@),
{
    deflate::deflate_bytes_zlib(data)
}

/// `std::str::from_utf8`: the text that the bytes encode, exactly when they
/// are valid UTF-8.
#[verifier::external_body]
pub(crate) fn utf8_text(bytes: &[u8]) -> (text: Option<&str>)
    ensures
        text is Some <==> valid_utf8(bytes@),
        text is Some ==> text.unwrap()@ == decode_utf8(bytes@),
{
    match std::str::from_utf8(bytes) {
        Ok(text) => Some(text),
        Err(_) => None,
    }
}

/// `str::trim`: the text without leading and trailing white space. The
/// result is named; of what it holds the contract says only that it is a
/// part of the text, not which characters count as white space.
#[verifier::external_body]
pub(crate) fn trimmed(text: &str) -> (inner: &str)
    ensures
        inner@ == trimmed_text(text@),
        is_part_of(inner@, text@),
{
    text.trim()
}

} // verus!

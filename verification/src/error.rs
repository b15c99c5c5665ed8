use vstd::prelude::*;

verus! {

/// Why an archive could not be parsed.
#[derive(Clone, Copy, Debug, PartialEq, Eq, Structural)]
pub enum S3dError {
    /// A structural read demanded more bytes than remained.
    UnexpectedEof,
    /// The magic number is wrong, a chunk overshoots its payload's declared
    /// size, a name record lacks its terminator, or internal counts disagree.
    InvalidFormat,
    /// The header is valid but the descriptor table holds no descriptor.
    EmptyArchive,
    /// A chunk of the directory payload is not a valid zlib stream.
    DecompressionFailed,
    /// The bytes of a name are not valid UTF-8.
    NameDecodingFailed,
}

} // verus!

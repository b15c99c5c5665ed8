use vstd::prelude::*;

verus! {

/// The magic number of an archive: the bytes `PFS ` read as a little-endian
/// 32-bit integer.
pub const HEADER_MAGIC_NUMBER: u32 = 0x20534650;

/// The version number that archives are observed to carry.
pub const HEADER_VERSION_NUMBER: u32 = 0x20000;

/// The archive header: where the descriptor table starts, the magic number
/// and the version of the format.
#[derive(Debug, Clone, Copy)]
pub struct Header {
    /// Bytes from the start of the archive to the descriptor count.
    pub offset: u32,
    /// Equals `HEADER_MAGIC_NUMBER` in every header that was decoded.
    pub magic_number: u32,
    /// Recorded, never validated.
    pub version_number: u32,
}

} // verus!

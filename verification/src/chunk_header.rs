use vstd::prelude::*;

verus! {

/// The two sizes that precede each compressed chunk of a payload.
#[derive(Clone, Debug, Copy)]
pub struct ChunkHeader {
    /// Bytes of compressed data that follow this header.
    pub compressed_size: u32,
    /// Bytes that the chunk holds once inflated.
    pub decompressed_size: u32,
}

} // verus!

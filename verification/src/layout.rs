//! The on-disk layout as mathematics: what a byte sequence holds at a
//! position, read as a header, a descriptor table or a chunked payload.

use crate::chunk_header::ChunkHeader;
use crate::cursor::u32_at;
use crate::descriptor_block::DescriptorModel;
use crate::error::S3dError;
use crate::header::{Header, HEADER_MAGIC_NUMBER};
use vstd::prelude::*;

verus! {

/// One chunk of a payload: its header and its compressed bytes.
pub type Chunk = (ChunkHeader, Seq<u8>);

/// The header at the start of `data`: three integers, the second of which
/// must be the magic number.
pub open spec fn header_of(data: Seq<u8>) -> Result<Header, S3dError> {
    if data.len() < 12 {
        Err(S3dError::UnexpectedEof)
    } else if u32_at(data, 4) != HEADER_MAGIC_NUMBER {
        Err(S3dError::InvalidFormat)
    } else {
        Ok(
            Header {
                offset: u32_at(data, 0),
                magic_number: u32_at(data, 4),
                version_number: u32_at(data, 8),
            },
        )
    }
}

/// The descriptor that the twelve bytes at `pos` spell, without name or
/// chunks.
pub open spec fn descriptor_at(data: Seq<u8>, pos: int) -> DescriptorModel {
    DescriptorModel {
        crc: u32_at(data, pos),
        offset: u32_at(data, pos + 4),
        decompressed_size: u32_at(data, pos + 8),
        file_name: Seq::empty(),
        data: Seq::empty(),
    }
}

/// The chunk header that the eight bytes at `pos` spell.
pub open spec fn chunk_header_at(data: Seq<u8>, pos: int) -> ChunkHeader {
    ChunkHeader { compressed_size: u32_at(data, pos), decompressed_size: u32_at(data, pos + 4) }
}

/// The descriptor table at `offset`: a count, then that many descriptors in
/// the order in which they are stored.
pub open spec fn descriptor_table(data: Seq<u8>, offset: int) -> Result<
    Seq<DescriptorModel>,
    S3dError,
> {
    if offset + 4 > data.len() {
        Err(S3dError::UnexpectedEof)
    } else {
        let count = u32_at(data, offset) as int;
        if offset + 4 + 12 * count > data.len() {
            Err(S3dError::UnexpectedEof)
        } else {
            Ok(Seq::new(count as nat, |i: int| descriptor_at(data, offset + 4 + 12 * i)))
        }
    }
}

/// How many of `descriptors` descriptors name a file: all but the directory.
pub open spec fn named_count(descriptors: int) -> int {
    if descriptors <= 0 {
        0
    } else {
        descriptors - 1
    }
}

/// `done` followed by `rest`, where there is a rest.
pub open spec fn prepend<T>(done: Seq<T>, rest: Result<Seq<T>, S3dError>) -> Result<
    Seq<T>,
    S3dError,
> {
    match rest {
        Ok(items) => Ok(done + items),
        Err(error) => Err(error),
    }
}

/// The chunks met from `pos` on until their declared decompressed sizes add
/// up to `remaining`. A chunk that cannot be read whole is an unexpected end;
/// one that declares more than is still owed is a format error.
pub open spec fn chunk_walk(data: Seq<u8>, pos: int, remaining: int) -> Result<
    Seq<Chunk>,
    S3dError,
>
    decreases data.len() - pos,
{
    if remaining <= 0 {
        Ok(Seq::empty())
    } else if pos < 0 || pos + 8 > data.len() {
        Err(S3dError::UnexpectedEof)
    } else {
        let header = chunk_header_at(data, pos);
        let end = pos + 8 + header.compressed_size;
        if end > data.len() {
            Err(S3dError::UnexpectedEof)
        } else if header.decompressed_size > remaining {
            Err(S3dError::InvalidFormat)
        } else {
            prepend(
                seq![(header, data.subrange(pos + 8, end))],
                chunk_walk(data, end, remaining - header.decompressed_size),
            )
        }
    }
}

/// The compressed bytes of each chunk, headers dropped.
pub open spec fn chunk_blocks(chunks: Seq<Chunk>) -> Seq<Seq<u8>> {
    chunks.map_values(|c: Chunk| c.1)
}

/// The sum of the decompressed sizes that the chunks' headers declare.
pub open spec fn declared_total(chunks: Seq<Chunk>) -> int
    decreases chunks.len(),
{
    if chunks.len() == 0 {
        0
    } else {
        chunks.first().0.decompressed_size + declared_total(chunks.drop_first())
    }
}

/// The chunks of a payload declare, in sum, exactly the decompressed size
/// that the walk was asked for.
pub proof fn chunk_sizes_add_up(data: Seq<u8>, pos: int, remaining: nat)
    requires
        chunk_walk(data, pos, remaining as int) is Ok,
    ensures
        declared_total(chunk_walk(data, pos, remaining as int).unwrap()) == remaining,
    decreases data.len() - pos,
{
    if remaining > 0 {
        let header = chunk_header_at(data, pos);
        let end = pos + 8 + header.compressed_size;
        let left = (remaining - header.decompressed_size) as nat;
        chunk_sizes_add_up(data, end, left);
        let rest = chunk_walk(data, end, left as int).unwrap();
        let all = chunk_walk(data, pos, remaining as int).unwrap();
        assert(all.drop_first() =~= rest);
    }
}

} // verus!

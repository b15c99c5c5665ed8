//! One inner file held in memory, compressed, decompressed or both.

use crate::codec::{deflate_zlib, inflate_zlib, zlib_deflated, zlib_inflated};
use crate::descriptor_block::blocks_view;
use vstd::prelude::*;
use vstd::slice::slice_subrange;

verus! {

/// The size of the pieces in which compressed data is inflated.
pub const MAX_BUFFER_SIZE: usize = 8192;

/// The zlib streams of the chunks, joined in order.
pub open spec fn deflate_each(chunks: Seq<Seq<u8>>) -> Seq<u8>
    decreases chunks.len(),
{
    if chunks.len() == 0 {
        Seq::empty()
    } else {
        deflate_each(chunks.drop_last()) + zlib_deflated(chunks.last())
    }
}

/// Into how many pieces `len` bytes fall.
pub open spec fn piece_count(len: int) -> int {
    (len + MAX_BUFFER_SIZE - 1) / (MAX_BUFFER_SIZE as int)
}

/// The piece of `data` at `index`: `MAX_BUFFER_SIZE` bytes, or what is left.
pub open spec fn piece(data: Seq<u8>, index: int) -> Seq<u8> {
    data.subrange(
        index * MAX_BUFFER_SIZE,
        if (index + 1) * MAX_BUFFER_SIZE <= data.len() {
            (index + 1) * MAX_BUFFER_SIZE
        } else {
            data.len() as int
        },
    )
}

/// The first `upto` pieces of `data`, each inflated; `None` where one of
/// them is no zlib stream.
pub open spec fn inflated_pieces(data: Seq<u8>, upto: nat) -> Option<Seq<Seq<u8>>>
    decreases upto,
{
    if upto == 0 {
        Some(Seq::empty())
    } else {
        match inflated_pieces(data, (upto - 1) as nat) {
            None => None,
            Some(front) => match zlib_inflated(piece(data, upto - 1)) {
                None => None,
                Some(bytes) => Some(front.push(bytes)),
            },
        }
    }
}

/// Every piece of `data`, inflated.
pub open spec fn decompressed_chunks(data: Seq<u8>) -> Option<Seq<Seq<u8>>> {
    inflated_pieces(data, piece_count(data.len() as int) as nat)
}

/// The number of bytes in all the chunks together.
pub open spec fn total_len(chunks: Seq<Seq<u8>>) -> int
    decreases chunks.len(),
{
    if chunks.len() == 0 {
        0
    } else {
        total_len(chunks.drop_last()) + chunks.last().len()
    }
}

/// The `count` bytes of `chunk` from `start` on; nothing where `count` is
/// zero.
pub open spec fn copied(chunk: Seq<u8>, start: int, count: int) -> Seq<u8> {
    if count <= 0 {
        Seq::empty()
    } else {
        chunk.subrange(start, start + count)
    }
}

/// Once a piece fails to inflate, so does every longer run of pieces.
proof fn failed_piece_fails_all(data: Seq<u8>, upto: nat, all: nat)
    requires
        upto <= all,
        inflated_pieces(data, upto) is None,
    ensures
        inflated_pieces(data, all) is None,
    decreases all - upto,
{
    if upto < all {
        failed_piece_fails_all(data, upto + 1, all);
    }
}

/// The total length of a front part is at most that of the whole.
proof fn total_len_grows(chunks: Seq<Seq<u8>>, upto: int)
    requires
        0 <= upto <= chunks.len(),
    ensures
        0 <= total_len(chunks.subrange(0, upto)) <= total_len(chunks),
    decreases chunks.len() - upto,
{
    if upto < chunks.len() {
        assert(chunks.subrange(0, upto + 1).drop_last() =~= chunks.subrange(0, upto));
        total_len_grows(chunks, upto + 1);
        nonnegative_total(chunks.subrange(0, upto));
    } else {
        assert(chunks.subrange(0, upto) =~= chunks);
        nonnegative_total(chunks);
    }
}

/// A total length is never negative.
proof fn nonnegative_total(chunks: Seq<Seq<u8>>)
    ensures
        total_len(chunks) >= 0,
    decreases chunks.len(),
{
    if chunks.len() > 0 {
        nonnegative_total(chunks.drop_last());
    }
}

/// The contents of one inner file, with positions for reading and writing.
#[derive(Clone, Debug)]
pub struct FileData {
    /// The name of the file.
    pub file_name: String,
    /// The zlib streams of the chunks, joined; made on demand.
    pub compressed_data: Option<Vec<u8>>,
    /// The chunks, inflated; made on demand.
    pub decompressed_data: Option<Vec<Vec<u8>>>,
    /// The chunk that the next read draws on.
    pub read_chunk_index: usize,
    /// The byte in that chunk at which the next read starts.
    pub read_byte_index: usize,
    /// The chunk that the next write goes to.
    pub write_chunk_index: usize,
    /// The byte in that chunk at which the next write starts.
    pub write_byte_index: usize,
}

impl FileData {
    /// A file with no name and no data, all positions at the start.
    pub fn new() -> (file: FileData)
        ensures
            file.file_name@.len() == 0,
            file.compressed_data is None,
            file.decompressed_data is None,
            file.read_chunk_index == 0,
            file.read_byte_index == 0,
            file.write_chunk_index == 0,
            file.write_byte_index == 0,
    {
        FileData {
            file_name: String::new(),
            compressed_data: None,
            decompressed_data: None,
            read_chunk_index: 0,
            read_byte_index: 0,
            write_chunk_index: 0,
            write_byte_index: 0,
        }
    }

    /// The file holds neither compressed nor decompressed data.
    pub fn is_empty(&self) -> (empty: bool)
        ensures
            empty <==> self.compressed_data is None && self.decompressed_data is None,
    {
        self.compressed_data.is_none() && self.decompressed_data.is_none()
    }

    /// Everything but the data is the same in both.
    pub open spec fn same_frame(&self, other: &FileData) -> bool {
        &&& self.file_name == other.file_name
        &&& self.read_chunk_index == other.read_chunk_index
        &&& self.read_byte_index == other.read_byte_index
        &&& self.write_chunk_index == other.write_chunk_index
        &&& self.write_byte_index == other.write_byte_index
    }

    /// The decompressed data can be measured, or made from the compressed
    /// data: its total length fits the machine, or every piece of the
    /// compressed data inflates.
    pub open spec fn measurable(&self) -> bool {
        match self.decompressed_data {
            Some(chunks) => total_len(blocks_view(chunks@)) <= usize::MAX,
            None => match self.compressed_data {
                Some(compressed) => decompressed_chunks(compressed@) is Some,
                None => true,
            },
        }
    }

    /// The length of the compressed data that this call made. Where the file
    /// already holds compressed data, or no data at all, nothing is made and
    /// the length is zero; otherwise the decompressed chunks are compressed,
    /// kept, and their joint length returned.
    pub fn compressed_len(&mut self) -> (len: usize)
        ensures
            final(self).same_frame(old(self)),
            final(self).decompressed_data == old(self).decompressed_data,
            match (old(self).compressed_data, old(self).decompressed_data) {
                (None, Some(chunks)) => {
                    &&& final(self).compressed_data matches Some(compressed)
                    &&& compressed@ == deflate_each(blocks_view(chunks@))
                    &&& len == compressed@.len()
                },
                _ => len == 0 && final(self).compressed_data == old(self).compressed_data,
            },
    {
        if self.compressed_data.is_some() {
            return 0;
        }
        let just_compressed_data = match &self.decompressed_data {
            Some(data) => Self::compress(data),
            None => {
                return 0;
            },
        };
        let len: usize = just_compressed_data.len();
        self.compressed_data = Some(just_compressed_data);
        len
    }

    /// The length of the decompressed data. Where the file holds
    /// decompressed chunks, the number of their bytes; where it holds only
    /// compressed data, that is inflated piece by piece, kept, and the number
    /// of pieces returned; zero for an empty file.
    pub fn decompressed_len(&mut self) -> (len: usize)
        requires
            old(self).measurable(),
        ensures
            final(self).same_frame(old(self)),
            final(self).compressed_data == old(self).compressed_data,
            match (old(self).decompressed_data, old(self).compressed_data) {
                (Some(chunks), _) => {
                    &&& len == total_len(blocks_view(chunks@))
                    &&& final(self).decompressed_data == old(self).decompressed_data
                },
                (None, Some(compressed)) => {
                    &&& final(self).decompressed_data matches Some(chunks)
                    &&& blocks_view(chunks@) == decompressed_chunks(compressed@).unwrap()
                    &&& len == chunks@.len()
                },
                (None, None) => len == 0 && final(self).decompressed_data is None,
            },
    {
        if let Some(decompressed_data) = &self.decompressed_data {
            let mut len: usize = 0;
            let mut index: usize = 0;
            let ghost all = blocks_view(decompressed_data@);
            while index < decompressed_data.len()
                invariant
                    index <= decompressed_data@.len(),
                    all == blocks_view(decompressed_data@),
                    total_len(all) <= usize::MAX,
                    len == total_len(all.subrange(0, index as int)),
                decreases decompressed_data@.len() - index,
            {
                proof {
                    assert(all.subrange(0, index + 1).drop_last() =~= all.subrange(
                        0,
                        index as int,
                    ));
                    total_len_grows(all, index + 1);
                }
                len = len + decompressed_data[index].len();
                index = index + 1;
            }
            proof {
                assert(all.subrange(0, index as int) =~= all);
            }
            return len;
        }
        let decompressed_data = match &self.compressed_data {
            Some(compressed_data) => Self::decompress(compressed_data),
            None => {
                return 0;
            },
        };
        let len: usize = decompressed_data.len();
        self.decompressed_data = Some(decompressed_data);
        len
    }

    /// As `decompressed_len`, for any file whose decompressed data, if it has
    /// any, fits the machine: `None`, and the file unchanged, where a piece
    /// of the compressed data does not inflate.
    pub fn try_decompressed_len(&mut self) -> (len: Option<usize>)
        requires
            old(self).decompressed_data matches Some(chunks) ==> total_len(blocks_view(chunks@))
                <= usize::MAX,
        ensures
            len is Some <==> old(self).measurable(),
            len is None ==> *final(self) == *old(self),
            len is Some ==> final(self).same_frame(old(self)) && final(self).compressed_data == old(
                self,
            ).compressed_data && match (old(self).decompressed_data, old(self).compressed_data) {
                (Some(chunks), _) => {
                    &&& len.unwrap() == total_len(blocks_view(chunks@))
                    &&& final(self).decompressed_data == old(self).decompressed_data
                },
                (None, Some(compressed)) => {
                    &&& final(self).decompressed_data matches Some(chunks)
                    &&& blocks_view(chunks@) == decompressed_chunks(compressed@).unwrap()
                    &&& len.unwrap() == chunks@.len()
                },
                (None, None) => len.unwrap() == 0 && final(self).decompressed_data is None,
            },
    {
        let ready: bool = match (&self.decompressed_data, &self.compressed_data) {
            (None, Some(compressed_data)) => Self::inflates(compressed_data),
            _ => true,
        };
        if ready {
            Some(self.decompressed_len())
        } else {
            None
        }
    }

    /// Compresses each chunk and joins the results in order.
    pub fn compress(chunks: &Vec<Vec<u8>>) -> (compressed: Vec<u8>)
        ensures
            compressed@ == deflate_each(blocks_view(chunks@)),
    {
        let mut compressed_data: Vec<u8> = Vec::new();
        let ghost all = blocks_view(chunks@);
        let mut index: usize = 0;
        while index < chunks.len()
            invariant
                index <= chunks@.len(),
                all == blocks_view(chunks@),
                compressed_data@ == deflate_each(all.subrange(0, index as int)),
            decreases chunks@.len() - index,
        {
            proof {
                assert(all.subrange(0, index + 1).drop_last() =~= all.subrange(0, index as int));
                assert(all.subrange(0, index + 1).last() == chunks@[index as int]@);
            }
            let deflated = deflate_zlib(chunks[index].as_slice());
            compressed_data.extend_from_slice(deflated.as_slice());
            index = index + 1;
        }
        proof {
            assert(all.subrange(0, index as int) =~= all);
        }
        compressed_data
    }

    /// Whether every piece of the compressed data inflates.
    pub fn inflates(compressed_data: &Vec<u8>) -> (all: bool)
        ensures
            all <==> decompressed_chunks(compressed_data@) is Some,
    {
        let data = compressed_data.as_slice();
        let length: usize = data.len();
        let mut start: usize = 0;
        let ghost mut pieces: nat = 0;
        while start < length
            invariant
                data@ == compressed_data@,
                length == data@.len(),
                start <= length,
                pieces == piece_count(start as int),
                start < length ==> start == pieces * MAX_BUFFER_SIZE,
                inflated_pieces(data@, pieces) is Some,
            decreases length - start,
        {
            let end: usize = if length - start > MAX_BUFFER_SIZE {
                start + MAX_BUFFER_SIZE
            } else {
                length
            };
            let chunk = slice_subrange(data, start, end);
            assert(chunk@ == piece(data@, pieces as int));
            if inflate_zlib(chunk).is_none() {
                proof {
                    failed_piece_fails_all(
                        data@,
                        pieces + 1,
                        piece_count(length as int) as nat,
                    );
                }
                return false;
            }
            proof {
                pieces = pieces + 1;
            }
            start = end;
        }
        true
    }

    /// Inflates the compressed data piece by piece.
    pub fn decompress(compressed_data: &Vec<u8>) -> (chunks: Vec<Vec<u8>>)
        requires
            decompressed_chunks(compressed_data@) is Some,
        ensures
            blocks_view(chunks@) == decompressed_chunks(compressed_data@).unwrap(),
    {
        let data = compressed_data.as_slice();
        let length: usize = data.len();
        let mut decompressed_data: Vec<Vec<u8>> = Vec::new();
        let mut start: usize = 0;
        let ghost mut pieces: nat = 0;
        proof {
            assert(blocks_view(decompressed_data@) =~= Seq::empty());
        }
        while start < length
            invariant
                data@ == compressed_data@,
                length == data@.len(),
                decompressed_chunks(data@) is Some,
                start <= length,
                pieces == piece_count(start as int),
                start < length ==> start == pieces * MAX_BUFFER_SIZE,
                inflated_pieces(data@, pieces) == Some(blocks_view(decompressed_data@)),
            decreases length - start,
        {
            let end: usize = if length - start > MAX_BUFFER_SIZE {
                start + MAX_BUFFER_SIZE
            } else {
                length
            };
            let chunk = slice_subrange(data, start, end);
            assert(chunk@ == piece(data@, pieces as int));
            proof {
                if zlib_inflated(chunk@) is None {
                    failed_piece_fails_all(data@, pieces + 1, piece_count(length as int) as nat);
                }
            }
            let decompressed_chunk = inflate_zlib(chunk).unwrap();
            proof {
                assert(blocks_view(decompressed_data@.push(decompressed_chunk)) =~= blocks_view(
                    decompressed_data@,
                ).push(decompressed_chunk@));
            }
            decompressed_data.push(decompressed_chunk);
            proof {
                pieces = pieces + 1;
            }
            start = end;
        }
        decompressed_data
    }

    /// Inflates the compressed data piece by piece; `None` where a piece is
    /// no zlib stream.
    pub fn try_decompress(compressed_data: &Vec<u8>) -> (chunks: Option<Vec<Vec<u8>>>)
        ensures
            match decompressed_chunks(compressed_data@) {
                Some(expected) => chunks matches Some(made) && blocks_view(made@) == expected,
                None => chunks is None,
            },
    {
        if Self::inflates(compressed_data) {
            Some(Self::decompress(compressed_data))
        } else {
            None
        }
    }

    /// The chunks that a read draws on: the decompressed chunks, or what the
    /// compressed data inflates to; `None` where there is neither.
    pub open spec fn chunks_to_read(&self) -> Option<Seq<Seq<u8>>> {
        match self.decompressed_data {
            Some(chunks) => Some(blocks_view(chunks@)),
            None => match self.compressed_data {
                Some(compressed) => decompressed_chunks(compressed@),
                None => None,
            },
        }
    }

    /// The chunk that the next read draws on: the current one, or the one
    /// behind it once the current one is used up.
    pub open spec fn read_chunk(&self, chunks: Seq<Seq<u8>>) -> int {
        if self.read_byte_index == chunks[self.read_chunk_index as int].len() {
            self.read_chunk_index + 1
        } else {
            self.read_chunk_index as int
        }
    }

    /// Where in that chunk the next read starts.
    pub open spec fn read_start(&self, chunks: Seq<Seq<u8>>) -> int {
        if self.read_byte_index == chunks[self.read_chunk_index as int].len() {
            0
        } else {
            self.read_byte_index as int
        }
    }

    /// How many bytes the next read copies into a buffer with `room` bytes.
    pub open spec fn read_count(&self, chunks: Seq<Seq<u8>>, room: int) -> int {
        let left = chunks[self.read_chunk(chunks)].len() - self.read_start(chunks);
        if left <= 0 {
            0
        } else if room < left {
            room
        } else {
            left
        }
    }

    /// The file is empty, or the chunk that the next read draws on exists.
    pub open spec fn readable(&self) -> bool {
        ||| self.compressed_data is None && self.decompressed_data is None
        ||| self.chunks_to_read() matches Some(chunks) && self.read_chunk_index < chunks.len()
            && self.read_chunk(chunks) < chunks.len()
    }

    /// What a read leaves behind and returns, given the file and the buffer
    /// before it.
    pub open spec fn read_result(
        &self,
        before: &FileData,
        buffer_before: Seq<u8>,
        buffer: Seq<u8>,
        count: int,
    ) -> bool {
        &&& self.file_name == before.file_name
        &&& self.compressed_data == before.compressed_data
        &&& self.write_chunk_index == 0
        &&& self.write_byte_index == 0
        &&& match before.chunks_to_read() {
            None => {
                &&& count == 0
                &&& buffer == buffer_before
                &&& self.decompressed_data == before.decompressed_data
                &&& self.read_chunk_index == before.read_chunk_index
                &&& self.read_byte_index == before.read_byte_index
            },
            Some(chunks) => {
                let start = before.read_start(chunks);
                &&& self.decompressed_data matches Some(made)
                &&& blocks_view(made@) == chunks
                &&& count == before.read_count(chunks, buffer_before.len() as int)
                &&& self.read_chunk_index == before.read_chunk(chunks)
                &&& self.read_byte_index == if count == 0 {
                    start
                } else {
                    start + count - 1
                }
                &&& buffer == copied(chunks[before.read_chunk(chunks)], start, count)
                    + buffer_before.subrange(count, buffer_before.len() as int)
            },
        }
    }

    /// Starts the read positions anew, takes no byte and returns zero.
    pub fn write(&mut self, _data: &[u8]) -> (written: usize)
        ensures
            written == 0,
            final(self).read_byte_index == 0,
            final(self).read_chunk_index == 0,
            final(self).file_name == old(self).file_name,
            final(self).compressed_data == old(self).compressed_data,
            final(self).decompressed_data == old(self).decompressed_data,
            final(self).write_chunk_index == old(self).write_chunk_index,
            final(self).write_byte_index == old(self).write_byte_index,
    {
        self.read_byte_index = 0;
        self.read_chunk_index = 0;
        0
    }

    /// Copies bytes of the current chunk into `buf`, as many as fit and are
    /// left in the chunk, and returns their number. The write positions start
    /// anew; compressed data is inflated first where no chunks are held; the
    /// byte position stays on the last byte that was copied.
    #[verifier::loop_isolation(false)]
    pub fn read(&mut self, buf: &mut [u8]) -> (count: usize)
        requires
            old(self).readable(),
        ensures
            final(buf)@.len() == old(buf)@.len(),
            final(self).read_result(old(self), old(buf)@, final(buf)@, count as int),
    {
        self.write_byte_index = 0;
        self.write_chunk_index = 0;
        if self.decompressed_data.is_none() && self.compressed_data.is_none() {
            return 0;
        }
        if self.decompressed_data.is_none() {
            let made = match &self.compressed_data {
                Some(compressed_data) => Self::decompress(compressed_data),
                None => Vec::new(),
            };
            self.decompressed_data = Some(made);
        }
        let ghost all = old(self).chunks_to_read().unwrap();
        let chunks = match &self.decompressed_data {
            Some(chunks) => chunks,
            None => {
                return 0;
            },
        };
        proof {
            assert(blocks_view(chunks@) == all);
            assert(blocks_view(chunks@).len() == chunks.len());
            assert(blocks_view(chunks@)[self.read_chunk_index as int]
                == chunks@[self.read_chunk_index as int]@);
        }
        let chunk_length: usize = chunks[self.read_chunk_index].len();
        if self.read_byte_index == chunk_length {
            self.read_byte_index = 0;
            self.read_chunk_index = self.read_chunk_index + 1;
        }
        let current_chunk = &chunks[self.read_chunk_index];
        let chunk_length: usize = current_chunk.len();
        let first: usize = self.read_byte_index;
        let ghost start = first as int;
        let mut current_length: usize = 0;
        let mut index: usize = first;
        let mut last: usize = first;
        proof {
            assert(buf@ =~= copied(current_chunk@, start, 0) + old(buf)@.subrange(
                0,
                old(buf)@.len() as int,
            ));
        }
        while index < chunk_length && current_length < buf.len()
            invariant
                buf@.len() == old(buf)@.len(),
                chunk_length == current_chunk@.len(),
                start + current_length == index,
                index <= chunk_length || current_length == 0,
                current_length <= buf@.len(),
                last == if current_length == 0 {
                    start
                } else {
                    index - 1
                },
                buf@ == copied(current_chunk@, start, current_length as int) + old(buf)@.subrange(
                    current_length as int,
                    old(buf)@.len() as int,
                ),
            decreases chunk_length - index,
        {
            last = index;
            buf[current_length] = current_chunk[index];
            proof {
                assert(buf@ =~= copied(current_chunk@, start, current_length + 1) + old(
                    buf,
                )@.subrange(current_length + 1, old(buf)@.len() as int));
            }
            current_length = current_length + 1;
            index = index + 1;
        }
        self.read_byte_index = last;
        proof {
            assert(blocks_view(chunks@)[self.read_chunk_index as int] == current_chunk@);
        }
        current_length
    }

    /// As `read`, for any file: `None`, and nothing copied, where the
    /// compressed data does not inflate or the read positions point at no
    /// chunk. Compressed data that inflates is kept inflated either way.
    pub fn try_read(&mut self, buf: &mut [u8]) -> (count: Option<usize>)
        ensures
            final(buf)@.len() == old(buf)@.len(),
            count is Some <==> old(self).readable(),
            count matches Some(copied) ==> final(self).read_result(
                old(self),
                old(buf)@,
                final(buf)@,
                copied as int,
            ),
            count is None ==> {
                &&& final(buf)@ == old(buf)@
                &&& final(self).same_frame(old(self))
                &&& final(self).compressed_data == old(self).compressed_data
                &&& old(self).decompressed_data is Some ==> final(self).decompressed_data == old(
                    self,
                ).decompressed_data
                &&& old(self).decompressed_data is None ==> match old(self).chunks_to_read() {
                    Some(chunks) => final(self).decompressed_data matches Some(made)
                        && blocks_view(made@) == chunks,
                    None => final(self).decompressed_data is None,
                }
            },
    {
        if self.decompressed_data.is_none() {
            let made = match &self.compressed_data {
                None => {
                    return Some(self.read(buf));
                },
                Some(compressed_data) => {
                    if !Self::inflates(compressed_data) {
                        return None;
                    }
                    Self::decompress(compressed_data)
                },
            };
            self.decompressed_data = Some(made);
        }
        let in_reach: bool = match &self.decompressed_data {
            Some(chunks) => {
                proof {
                    assert(blocks_view(chunks@).len() == chunks.len());
                    if self.read_chunk_index < chunks.len() {
                        assert(blocks_view(chunks@)[self.read_chunk_index as int]
                            == chunks@[self.read_chunk_index as int]@);
                    }
                }
                self.read_chunk_index < chunks.len() && (self.read_byte_index
                    != chunks[self.read_chunk_index].len() || self.read_chunk_index + 1
                    < chunks.len())
            },
            None => false,
        };
        if in_reach {
            Some(self.read(buf))
        } else {
            None
        }
    }
}

} // verus!

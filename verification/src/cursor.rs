use crate::codec::{le_u32, le_u32_value};
use crate::error::S3dError;
use vstd::prelude::*;
use vstd::slice::{slice_subrange, slice_to_vec};

verus! {

/// The little-endian 32-bit integer that `data` holds at `pos`.
pub open spec fn u32_at(data: Seq<u8>, pos: int) -> u32
    recommends
        0 <= pos,
        pos + 4 <= data.len(),
{
    le_u32_value(data.subrange(pos, pos + 4))
}

/// A position in an immutable byte buffer. The position may lie past the
/// end; a read from there fails.
pub struct ByteCursor<'a> {
    /// The buffer that is read.
    pub data: &'a [u8],
    /// Bytes from the start of the buffer to the next read.
    pub position: usize,
}

impl<'a> ByteCursor<'a> {
    /// A cursor at the start of `data`.
    pub fn new(data: &'a [u8]) -> (cursor: Self)
        ensures
            cursor.data == data,
            cursor.position == 0,
    {
        ByteCursor { data, position: 0 }
    }

    /// Moves to the absolute position `position`.
    pub fn set_position(&mut self, position: usize)
        ensures
            final(self).data == old(self).data,
            final(self).position == position,
    {
        self.position = position;
    }

    /// Reads a little-endian 32-bit integer and moves four bytes on. With
    /// fewer than four bytes left it fails and does not move.
    pub fn read_u32_le(&mut self) -> (read: Result<u32, S3dError>)
        ensures
            final(self).data == old(self).data,
            match read {
                Ok(value) => {
                    &&& old(self).position as int + 4 <= old(self).data@.len()
                    &&& value == u32_at(old(self).data@, old(self).position as int)
                    &&& final(self).position as int == old(self).position as int + 4
                },
                Err(error) => {
                    &&& old(self).position as int + 4 > old(self).data@.len()
                    &&& error == S3dError::UnexpectedEof
                    &&& final(self).position == old(self).position
                },
            },
    {
        let start: usize = self.position;
        let length: usize = self.data.len();
        if start > length || length - start < 4 {
            return Err(S3dError::UnexpectedEof);
        }
        let value: u32 = le_u32(slice_subrange(self.data, start, start + 4));
        self.position = start + 4;
        Ok(value)
    }

    /// Reads exactly `count` bytes and moves past them. With fewer bytes left
    /// it fails and does not move.
    pub fn read_exact(&mut self, count: usize) -> (read: Result<Vec<u8>, S3dError>)
        ensures
            final(self).data == old(self).data,
            match read {
                Ok(bytes) => {
                    &&& old(self).position as int + count as int <= old(self).data@.len()
                    &&& bytes@ == old(self).data@.subrange(
                        old(self).position as int,
                        old(self).position as int + count as int,
                    )
                    &&& final(self).position as int == old(self).position as int + count as int
                },
                Err(error) => {
                    &&& old(self).position as int + count as int > old(self).data@.len()
                    &&& error == S3dError::UnexpectedEof
                    &&& final(self).position == old(self).position
                },
            },
    {
        let start: usize = self.position;
        let length: usize = self.data.len();
        if start > length || length - start < count {
            return Err(S3dError::UnexpectedEof);
        }
        let bytes: Vec<u8> = slice_to_vec(slice_subrange(self.data, start, start + count));
        self.position = start + count;
        Ok(bytes)
    }
}

} // verus!

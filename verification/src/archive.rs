use crate::chunk_header::ChunkHeader;
use crate::cursor::ByteCursor;
use crate::descriptor_block::{blocks_view, descriptors_view, DescriptorBlock, DescriptorModel};
use crate::error::S3dError;
use crate::header::{Header, HEADER_MAGIC_NUMBER, HEADER_VERSION_NUMBER};
use crate::layout::{
    chunk_blocks, chunk_header_at, chunk_walk, descriptor_at, descriptor_table, header_of,
    named_count, prepend, Chunk,
};
use crate::names::{directory_names, read_file_names, strings_view};
use crate::laws::entries_ascend_by_offset;
use crate::sorting::{
    ascending, sort_by_offset, sorted_by_offset, sorted_by_offset_is_ordered_permutation,
};
use vstd::prelude::*;

verus! {

/// The first `upto` of the descriptors, each with the chunks of its payload
/// attached; the error of the first payload that cannot be walked.
pub open spec fn with_payloads(data: Seq<u8>, sorted: Seq<DescriptorModel>, upto: nat) -> Result<
    Seq<DescriptorModel>,
    S3dError,
>
    decreases upto,
{
    if upto == 0 || upto > sorted.len() {
        Ok(Seq::empty())
    } else {
        match with_payloads(data, sorted, (upto - 1) as nat) {
            Err(error) => Err(error),
            Ok(front) => {
                let block = sorted[upto - 1];
                match chunk_walk(data, block.offset as int, block.decompressed_size as int) {
                    Err(error) => Err(error),
                    Ok(chunks) => Ok(
                        front.push(DescriptorModel { data: chunk_blocks(chunks), ..block }),
                    ),
                }
            },
        }
    }
}

/// The entries with the names bound in order: the entry at `i` takes the
/// name at `i`; entries beyond the names stay as they are.
pub open spec fn bind_names(entries: Seq<DescriptorModel>, names: Seq<Seq<char>>) -> Seq<
    DescriptorModel,
> {
    Seq::new(
        entries.len(),
        |i: int|
            if i < names.len() {
                DescriptorModel { file_name: names[i], ..entries[i] }
            } else {
                entries[i]
            },
    )
}

/// The archive that a byte sequence holds: its header and its descriptors,
/// ordered by offset, each with its chunks, all but the last with the name
/// that the last one's payload gives it.
pub open spec fn archive_of(data: Seq<u8>) -> Result<(Header, Seq<DescriptorModel>), S3dError> {
    match header_of(data) {
        Err(error) => Err(error),
        Ok(header) => match descriptor_table(data, header.offset as int) {
            Err(error) => Err(error),
            Ok(table) => if table.len() == 0 {
                Err(S3dError::EmptyArchive)
            } else {
                let sorted = sorted_by_offset(table);
                match with_payloads(data, sorted, sorted.len()) {
                    Err(error) => Err(error),
                    Ok(entries) => match directory_names(entries.last().data) {
                        Err(error) => Err(error),
                        Ok(names) => if names.len() != entries.len() - 1 {
                            Err(S3dError::InvalidFormat)
                        } else {
                            Ok((header, bind_names(entries, names)))
                        },
                    },
                }
            },
        },
    }
}

/// A payload that fails keeps the whole list from being attached.
pub proof fn payload_error_persists(data: Seq<u8>, sorted: Seq<DescriptorModel>, upto: nat)
    requires
        upto <= sorted.len(),
        with_payloads(data, sorted, upto) is Err,
    ensures
        with_payloads(data, sorted, sorted.len()) == with_payloads(data, sorted, upto),
    decreases sorted.len() - upto,
{
    if upto < sorted.len() {
        payload_error_persists(data, sorted, upto + 1);
    }
}

/// `entry` is `block` with the chunks of its payload in `data` attached.
pub open spec fn payload_attached(data: Seq<u8>, block: DescriptorModel, entry: DescriptorModel) -> bool {
    let walk = chunk_walk(data, block.offset as int, block.decompressed_size as int);
    &&& walk is Ok
    &&& entry == DescriptorModel { data: chunk_blocks(walk.unwrap()), ..block }
}

/// Attaching payloads keeps the number of descriptors and, of each, all but
/// its chunks, which are those of the walk from its offset.
pub proof fn payloads_keep_descriptors(data: Seq<u8>, sorted: Seq<DescriptorModel>, upto: nat)
    requires
        upto <= sorted.len(),
        with_payloads(data, sorted, upto) is Ok,
    ensures
        with_payloads(data, sorted, upto).unwrap().len() == upto,
        forall|i: int|
            0 <= i < upto ==> payload_attached(
                data,
                sorted[i],
                #[trigger] with_payloads(data, sorted, upto).unwrap()[i],
            ),
    decreases upto,
{
    if upto > 0 {
        payloads_keep_descriptors(data, sorted, (upto - 1) as nat);
        let front = with_payloads(data, sorted, (upto - 1) as nat).unwrap();
        let whole = with_payloads(data, sorted, upto).unwrap();
        assert forall|i: int| 0 <= i < upto implies payload_attached(
            data,
            sorted[i],
            #[trigger] whole[i],
        ) by {
            if i < upto - 1 {
                assert(whole[i] == front[i]);
            }
        }
    }
}

/// A parsed archive: its header and its descriptors, ordered by offset, the
/// directory last.
#[derive(Debug)]
pub struct S3d {
    /// Where the descriptor table is, the magic number and the version.
    pub header: Header,
    /// The descriptors of the inner files, then that of the directory.
    pub file_descriptors: Vec<DescriptorBlock>,
}

impl S3d {
    /// The header carries the magic number and the descriptors ascend by
    /// offset.
    pub open spec fn well_formed(&self) -> bool {
        &&& self.header.magic_number == HEADER_MAGIC_NUMBER
        &&& ascending(descriptors_view(self.file_descriptors@))
    }

    /// An archive with no files and no descriptors.
    pub fn new() -> (archive: S3d)
        ensures
            archive.well_formed(),
            archive.header.offset == 0,
            archive.header.magic_number == HEADER_MAGIC_NUMBER,
            archive.header.version_number == HEADER_VERSION_NUMBER,
            archive.file_descriptors@.len() == 0,
    {
        S3d {
            header: Header {
                offset: 0,
                magic_number: HEADER_MAGIC_NUMBER,
                version_number: HEADER_VERSION_NUMBER,
            },
            file_descriptors: Vec::new(),
        }
    }

    /// The number of named files: every descriptor but the directory.
    pub open spec fn spec_file_count(&self) -> int {
        named_count(self.file_descriptors@.len() as int)
    }

    /// The number of files stored in the archive.
    pub fn file_count(&self) -> (count: usize)
        ensures
            count as int == self.spec_file_count(),
    {
        let descriptor_count: usize = self.file_descriptors.len();
        if descriptor_count == 0 {
            0
        } else {
            descriptor_count - 1
        }
    }

    /// Reads the header from the start of the buffer.
    pub fn read_header(cursor: &mut ByteCursor) -> (read: Result<Header, S3dError>)
        ensures
            final(cursor).data == old(cursor).data,
            read == header_of(old(cursor).data@),
            read is Ok ==> final(cursor).position == 12,
    {
        cursor.set_position(0);
        let offset: u32 = cursor.read_u32_le()?;
        let magic_number: u32 = cursor.read_u32_le()?;
        let version_number: u32 = cursor.read_u32_le()?;
        if magic_number != HEADER_MAGIC_NUMBER {
            return Err(S3dError::InvalidFormat);
        }
        Ok(Header { offset, magic_number, version_number })
    }

    /// Reads one descriptor at the cursor: twelve bytes, no name, no chunks.
    pub fn read_descriptor(cursor: &mut ByteCursor) -> (read: Result<DescriptorBlock, S3dError>)
        ensures
            final(cursor).data == old(cursor).data,
            match read {
                Ok(block) => {
                    &&& old(cursor).position as int + 12 <= old(cursor).data@.len()
                    &&& block@ == descriptor_at(old(cursor).data@, old(cursor).position as int)
                    &&& final(cursor).position as int == old(cursor).position as int + 12
                },
                Err(error) => {
                    &&& old(cursor).position as int + 12 > old(cursor).data@.len()
                    &&& error == S3dError::UnexpectedEof
                },
            },
    {
        let crc: u32 = cursor.read_u32_le()?;
        let offset: u32 = cursor.read_u32_le()?;
        let decompressed_size: u32 = cursor.read_u32_le()?;
        let block = DescriptorBlock {
            crc,
            offset,
            decompressed_size,
            file_name: String::new(),
            data: Vec::new(),
        };
        proof {
            assert(block@.data =~= Seq::empty());
            assert(block@.file_name =~= Seq::empty());
        }
        Ok(block)
    }

    /// Reads one chunk header at the cursor: eight bytes.
    pub fn read_chunk_header(cursor: &mut ByteCursor) -> (read: Result<ChunkHeader, S3dError>)
        ensures
            final(cursor).data == old(cursor).data,
            match read {
                Ok(header) => {
                    &&& old(cursor).position as int + 8 <= old(cursor).data@.len()
                    &&& header == chunk_header_at(old(cursor).data@, old(cursor).position as int)
                    &&& final(cursor).position as int == old(cursor).position as int + 8
                },
                Err(error) => {
                    &&& old(cursor).position as int + 8 > old(cursor).data@.len()
                    &&& error == S3dError::UnexpectedEof
                },
            },
    {
        let compressed_size: u32 = cursor.read_u32_le()?;
        let decompressed_size: u32 = cursor.read_u32_le()?;
        Ok(ChunkHeader { compressed_size, decompressed_size })
    }

    /// Reads the descriptor table that starts at `offset`: a count, then that
    /// many descriptors, in the order in which they are stored.
    pub fn read_all_descriptors(cursor: &mut ByteCursor, offset: u32) -> (read: Result<
        Vec<DescriptorBlock>,
        S3dError,
    >)
        ensures
            final(cursor).data == old(cursor).data,
            match descriptor_table(old(cursor).data@, offset as int) {
                Ok(table) => read matches Ok(blocks) && descriptors_view(blocks@) == table,
                Err(error) => read matches Err(e) && e == error,
            },
    {
        cursor.set_position(offset as usize);
        let file_count: u32 = cursor.read_u32_le()?;
        let mut descriptor_blocks: Vec<DescriptorBlock> = Vec::new();
        let mut block_index: u32 = 0;
        while block_index < file_count
            invariant
                cursor.data == old(cursor).data,
                offset as int + 4 <= cursor.data@.len(),
                file_count == crate::cursor::u32_at(cursor.data@, offset as int),
                block_index <= file_count,
                cursor.position as int == offset as int + 4 + 12 * (block_index as int),
                cursor.position as int <= cursor.data@.len(),
                descriptor_blocks@.len() == block_index as int,
                forall|i: int|
                    0 <= i < block_index as int ==> (#[trigger] descriptor_blocks@[i])@
                        == descriptor_at(cursor.data@, offset as int + 4 + 12 * i),
            decreases file_count - block_index,
        {
            let descriptor_block = Self::read_descriptor(cursor)?;
            descriptor_blocks.push(descriptor_block);
            block_index = block_index + 1;
        }
        proof {
            assert(descriptors_view(descriptor_blocks@) =~= descriptor_table(
                cursor.data@,
                offset as int,
            ).unwrap());
        }
        Ok(descriptor_blocks)
    }

    /// Collects the chunks of the payload that starts at `offset`, still
    /// compressed, until their declared sizes add up to `decompressed_size`.
    pub fn read_data(cursor: &mut ByteCursor, offset: u32, decompressed_size: u32) -> (read:
        Result<Vec<Vec<u8>>, S3dError>)
        ensures
            final(cursor).data == old(cursor).data,
            match chunk_walk(old(cursor).data@, offset as int, decompressed_size as int) {
                Ok(chunks) => read matches Ok(blocks) && blocks_view(blocks@) == chunk_blocks(
                    chunks,
                ),
                Err(error) => read matches Err(e) && e == error,
            },
    {
        cursor.set_position(offset as usize);
        let mut result: Vec<Vec<u8>> = Vec::new();
        let mut bytes_read: u32 = 0;
        let ghost mut walked: Seq<Chunk> = Seq::empty();
        proof {
            let rest = chunk_walk(cursor.data@, offset as int, decompressed_size as int);
            if rest is Ok {
                assert(walked + rest.unwrap() =~= rest.unwrap());
            }
            assert(blocks_view(result@) =~= chunk_blocks(walked));
        }
        while bytes_read < decompressed_size
            invariant
                cursor.data == old(cursor).data,
                bytes_read <= decompressed_size,
                blocks_view(result@) == chunk_blocks(walked),
                chunk_walk(cursor.data@, offset as int, decompressed_size as int) == prepend(
                    walked,
                    chunk_walk(
                        cursor.data@,
                        cursor.position as int,
                        decompressed_size as int - bytes_read as int,
                    ),
                ),
            decreases cursor.data@.len() - cursor.position as int,
        {
            let ghost start = cursor.position as int;
            let chunk_header = Self::read_chunk_header(cursor)?;
            let chunk_data = cursor.read_exact(chunk_header.compressed_size as usize)?;
            if chunk_header.decompressed_size > decompressed_size - bytes_read {
                return Err(S3dError::InvalidFormat);
            }
            proof {
                let chunk: Chunk = (chunk_header, chunk_data@);
                let left = decompressed_size as int - bytes_read as int
                    - chunk_header.decompressed_size as int;
                let rest = chunk_walk(cursor.data@, cursor.position as int, left);
                if rest is Ok {
                    assert(walked + (seq![chunk] + rest.unwrap()) =~= walked.push(chunk)
                        + rest.unwrap());
                }
                assert(blocks_view(result@).len() == chunk_blocks(walked).len());
                assert forall|i: int| 0 <= i <= walked.len() implies blocks_view(
                    result@.push(chunk_data),
                )[i] == chunk_blocks(walked.push(chunk))[i] by {
                    if i < walked.len() {
                        assert(blocks_view(result@)[i] == chunk_blocks(walked)[i]);
                    }
                }
                assert(blocks_view(result@.push(chunk_data)) =~= chunk_blocks(
                    walked.push(chunk),
                ));
                walked = walked.push(chunk);
            }
            result.push(chunk_data);
            bytes_read = bytes_read + chunk_header.decompressed_size;
        }
        proof {
            assert(walked + Seq::<Chunk>::empty() =~= walked);
        }
        Ok(result)
    }

    /// Attaches to each descriptor, in order, the chunks of its payload.
    pub fn attach_payloads(cursor: &mut ByteCursor, sorted: Vec<DescriptorBlock>) -> (attached:
        Result<Vec<DescriptorBlock>, S3dError>)
        ensures
            final(cursor).data == old(cursor).data,
            match with_payloads(
                old(cursor).data@,
                descriptors_view(sorted@),
                sorted@.len(),
            ) {
                Ok(entries) => attached matches Ok(blocks) && descriptors_view(blocks@)
                    == entries,
                Err(error) => attached matches Err(e) && e == error,
            },
    {
        let mut blocks = sorted;
        let ghost models = descriptors_view(sorted@);
        let mut index: usize = 0;
        proof {
            assert(descriptors_view(blocks@).subrange(0, 0) =~= Seq::empty());
        }
        while index < blocks.len()
            invariant
                cursor.data == old(cursor).data,
                models == descriptors_view(sorted@),
                blocks@.len() == sorted@.len(),
                index <= blocks@.len(),
                forall|k: int| index <= k < blocks@.len() ==> (#[trigger] blocks@[k])@ == models[k],
                with_payloads(cursor.data@, models, index as nat) == Ok::<
                    Seq<DescriptorModel>,
                    S3dError,
                >(descriptors_view(blocks@).subrange(0, index as int)),
            decreases blocks@.len() - index,
        {
            let ghost before = descriptors_view(blocks@);
            let offset: u32 = blocks[index].offset;
            let decompressed_size: u32 = blocks[index].decompressed_size;
            let data = match Self::read_data(cursor, offset, decompressed_size) {
                Ok(data) => data,
                Err(error) => {
                    proof {
                        payload_error_persists(cursor.data@, models, (index + 1) as nat);
                    }
                    return Err(error);
                },
            };
            blocks[index].data = data;
            proof {
                let after = descriptors_view(blocks@);
                assert(after.subrange(0, index + 1) =~= before.subrange(0, index as int).push(
                    after[index as int],
                ));
            }
            index = index + 1;
        }
        proof {
            assert(descriptors_view(blocks@).subrange(0, index as int) =~= descriptors_view(
                blocks@,
            ));
        }
        Ok(blocks)
    }

    /// Gives the entry at `i` the name at `i`, for every name.
    pub fn assign_names(entries: Vec<DescriptorBlock>, names: &Vec<String>) -> (named: Vec<
        DescriptorBlock,
    >)
        requires
            names@.len() <= entries@.len(),
        ensures
            descriptors_view(named@) == bind_names(
                descriptors_view(entries@),
                strings_view(names@),
            ),
    {
        let mut blocks = entries;
        let ghost models = descriptors_view(entries@);
        let mut index: usize = 0;
        while index < names.len()
            invariant
                names@.len() <= entries@.len(),
                models == descriptors_view(entries@),
                blocks@.len() == entries@.len(),
                index <= names@.len(),
                forall|k: int| index <= k < blocks@.len() ==> (#[trigger] blocks@[k])@ == models[k],
                forall|k: int|
                    0 <= k < index ==> (#[trigger] blocks@[k])@ == (DescriptorModel {
                        file_name: names@[k]@,
                        ..models[k]
                    }),
            decreases names@.len() - index,
        {
            let name = names[index].clone();
            blocks[index].file_name = name;
            index = index + 1;
        }
        proof {
            assert(descriptors_view(blocks@) =~= bind_names(models, strings_view(names@)));
        }
        blocks
    }

    /// Parses an archive from its bytes: the header, the descriptor table
    /// ordered by offset, the chunks of every payload, and the names that
    /// the last payload holds, bound to the descriptors before it.
    pub fn read(data: &[u8]) -> (read: Result<S3d, S3dError>)
        ensures
            match archive_of(data@) {
                Ok(model) => read matches Ok(archive) && archive.header == model.0
                    && descriptors_view(archive.file_descriptors@) == model.1
                    && archive.well_formed(),
                Err(error) => read matches Err(e) && e == error,
            },
    {
        let mut cursor = ByteCursor::new(data);
        let header = Self::read_header(&mut cursor)?;
        let table = Self::read_all_descriptors(&mut cursor, header.offset)?;
        if table.len() == 0 {
            return Err(S3dError::EmptyArchive);
        }
        proof {
            sorted_by_offset_is_ordered_permutation(descriptors_view(table@));
        }
        let sorted = sort_by_offset(table);
        let ghost models = descriptors_view(sorted@);
        let entries = Self::attach_payloads(&mut cursor, sorted)?;
        proof {
            payloads_keep_descriptors(data@, models, models.len());
        }
        let directory_entry = &entries[entries.len() - 1];
        let file_names = read_file_names(&directory_entry.data)?;
        if file_names.len() != entries.len() - 1 {
            return Err(S3dError::InvalidFormat);
        }
        let file_descriptors = Self::assign_names(entries, &file_names);
        proof {
            entries_ascend_by_offset(data@);
        }
        Ok(S3d { header, file_descriptors })
    }
}

} // verus!

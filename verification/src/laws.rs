//! What holds of every archive that parses.

use crate::archive::{
    archive_of, bind_names, payload_attached, payloads_keep_descriptors, with_payloads,
};
use crate::codec::le_u32_value;
use crate::cursor::u32_at;
use crate::descriptor_block::DescriptorModel;
use crate::error::S3dError;
use crate::header::HEADER_MAGIC_NUMBER;
use crate::layout::{
    chunk_blocks, chunk_sizes_add_up, chunk_walk, declared_total, descriptor_table, header_of,
    named_count,
};
use crate::names::{directory_names, inflate_all, names_match_declared_count};
use crate::sorting::{ascending, sorted_by_offset, sorted_by_offset_is_ordered_permutation};
use vstd::prelude::*;

verus! {

/// The descriptor table of an archive whose header can be read.
pub open spec fn table_of(data: Seq<u8>) -> Seq<DescriptorModel>
    recommends
        archive_of(data) is Ok,
{
    descriptor_table(data, header_of(data).unwrap().offset as int).unwrap()
}

/// The entries of an archive that parses.
pub open spec fn entries_of(data: Seq<u8>) -> Seq<DescriptorModel>
    recommends
        archive_of(data) is Ok,
{
    archive_of(data).unwrap().1
}

/// The steps that lead to the entries of an archive that parses.
proof fn resolution_steps(data: Seq<u8>)
    requires
        archive_of(data) is Ok,
    ensures
        header_of(data) is Ok,
        descriptor_table(data, header_of(data).unwrap().offset as int) is Ok,
        table_of(data).len() > 0,
        entries_of(data).len() == table_of(data).len(),
        with_payloads(data, sorted_by_offset(table_of(data)), table_of(data).len()) is Ok,
        directory_names(entries_of(data).last().data) is Ok,
        directory_names(entries_of(data).last().data).unwrap().len() == entries_of(data).len()
            - 1,
        forall|i: int|
            0 <= i < entries_of(data).len() ==> payload_attached(
                data,
                sorted_by_offset(table_of(data))[i],
                DescriptorModel {
                    file_name: sorted_by_offset(table_of(data))[i].file_name,
                    ..(#[trigger] entries_of(data)[i])
                },
            ),
{
    let table = table_of(data);
    sorted_by_offset_is_ordered_permutation(table);
    let sorted = sorted_by_offset(table);
    payloads_keep_descriptors(data, sorted, sorted.len());
    let attached = with_payloads(data, sorted, sorted.len()).unwrap();
    let names = directory_names(attached.last().data).unwrap();
    let entries = bind_names(attached, names);
    assert(entries == entries_of(data));
    assert(entries.last() == attached.last());
    assert forall|i: int| 0 <= i < entries.len() implies payload_attached(
        data,
        sorted[i],
        DescriptorModel { file_name: sorted[i].file_name, ..(#[trigger] entries[i]) },
    ) by {
        assert(payload_attached(data, sorted[i], attached[i]));
    }
}

/// An archive that parses names every descriptor of its table but one: the
/// file count is the number of descriptors less one.
pub proof fn file_count_is_descriptors_less_one(data: Seq<u8>)
    requires
        archive_of(data) is Ok,
    ensures
        entries_of(data).len() == table_of(data).len(),
        named_count(entries_of(data).len() as int) == table_of(data).len() - 1,
{
    resolution_steps(data);
}

/// The entries of an archive that parses ascend by offset, so the last one,
/// the directory, has the greatest offset of the table.
pub proof fn entries_ascend_by_offset(data: Seq<u8>)
    requires
        archive_of(data) is Ok,
    ensures
        ascending(entries_of(data)),
        forall|i: int|
            0 <= i < table_of(data).len() ==> (#[trigger] table_of(data)[i]).offset
                <= entries_of(data).last().offset,
{
    resolution_steps(data);
    let table = table_of(data);
    let sorted = sorted_by_offset(table);
    let entries = entries_of(data);
    sorted_by_offset_is_ordered_permutation(table);
    assert forall|i: int| 0 <= i < entries.len() implies (#[trigger] entries[i]).offset
        == sorted[i].offset by {
        assert(payload_attached(
            data,
            sorted[i],
            DescriptorModel { file_name: sorted[i].file_name, ..entries[i] },
        ));
    }
    assert forall|i: int, j: int| 0 <= i <= j < entries.len() implies entries[i].offset
        <= entries[j].offset by {
        assert(sorted[i].offset <= sorted[j].offset);
    }
    assert(entries.last().offset == sorted.last().offset);
}

/// A descriptor without its name and its chunks, as the table stores it.
pub open spec fn skeleton(block: DescriptorModel) -> DescriptorModel {
    DescriptorModel { file_name: Seq::empty(), data: Seq::empty(), ..block }
}

/// The entries of an archive that parses are the descriptors of its table,
/// each as often as the table lists it, in another order.
pub proof fn entries_are_the_table_reordered(data: Seq<u8>)
    requires
        archive_of(data) is Ok,
    ensures
        entries_of(data).map_values(|block: DescriptorModel| skeleton(block)).to_multiset()
            == table_of(data).to_multiset(),
{
    broadcast use vstd::seq_lib::group_to_multiset_ensures;

    resolution_steps(data);
    let table = table_of(data);
    let sorted = sorted_by_offset(table);
    let entries = entries_of(data);
    sorted_by_offset_is_ordered_permutation(table);
    assert forall|i: int| 0 <= i < sorted.len() implies skeleton(#[trigger] entries[i])
        == sorted[i] by {
        assert(sorted.contains(sorted[i]));
        assert(sorted.to_multiset().count(sorted[i]) > 0);
        assert(table.contains(sorted[i]));
        let k = choose|k: int| 0 <= k < table.len() && table[k] == sorted[i];
        assert(table[k].file_name == Seq::<char>::empty());
        assert(payload_attached(
            data,
            sorted[i],
            DescriptorModel { file_name: sorted[i].file_name, ..entries[i] },
        ));
    }
    assert(entries.map_values(|block: DescriptorModel| skeleton(block)) =~= sorted);
}

/// Of every entry of an archive that parses, the chunks are those met from
/// its offset on, and the sizes that their headers declare add up to the
/// entry's decompressed size.
pub proof fn payload_sizes_add_up(data: Seq<u8>, i: int)
    requires
        archive_of(data) is Ok,
        0 <= i < entries_of(data).len(),
    ensures
        ({
            let entry = entries_of(data)[i];
            let walk = chunk_walk(data, entry.offset as int, entry.decompressed_size as int);
            &&& walk is Ok
            &&& entry.data == chunk_blocks(walk.unwrap())
            &&& declared_total(walk.unwrap()) == entry.decompressed_size
        }),
{
    resolution_steps(data);
    let sorted = sorted_by_offset(table_of(data));
    let entry = entries_of(data)[i];
    assert(payload_attached(
        data,
        sorted[i],
        DescriptorModel { file_name: sorted[i].file_name, ..entry },
    ));
    chunk_sizes_add_up(data, entry.offset as int, entry.decompressed_size as nat);
}

/// The payload of the last entry of an archive that parses inflates to a
/// name table whose leading count is the number of descriptors less one.
pub proof fn directory_declares_named_count(data: Seq<u8>)
    requires
        archive_of(data) is Ok,
    ensures
        inflate_all(entries_of(data).last().data) is Ok,
        inflate_all(entries_of(data).last().data).unwrap().len() >= 4,
        u32_at(inflate_all(entries_of(data).last().data).unwrap(), 0) == table_of(data).len()
            - 1,
{
    resolution_steps(data);
    let table = inflate_all(entries_of(data).last().data).unwrap();
    names_match_declared_count(table, 4, u32_at(table, 0) as nat);
}

/// Four bytes spell the magic number only if they are `PFS `.
pub proof fn magic_bytes(bytes: Seq<u8>)
    requires
        bytes.len() == 4,
        le_u32_value(bytes) == HEADER_MAGIC_NUMBER,
    ensures
        bytes == seq![0x50u8, 0x46u8, 0x53u8, 0x20u8],
{
    assert(bytes =~= seq![0x50u8, 0x46u8, 0x53u8, 0x20u8]);
}

/// Bytes that hold a whole header whose bytes 4 to 8 are not `PFS ` are
/// rejected as not in the format.
pub proof fn wrong_magic_is_rejected(data: Seq<u8>)
    requires
        data.len() >= 12,
        data.subrange(4, 8) != seq![0x50u8, 0x46u8, 0x53u8, 0x20u8],
    ensures
        archive_of(data) == Err::<(crate::header::Header, Seq<DescriptorModel>), S3dError>(
            S3dError::InvalidFormat,
        ),
{
    if u32_at(data, 4) == HEADER_MAGIC_NUMBER {
        magic_bytes(data.subrange(4, 8));
    }
}

} // verus!

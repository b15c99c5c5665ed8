//! Ordering descriptors by offset: a stable insertion sort, as a function on
//! sequences and as code on vectors.

use crate::descriptor_block::{descriptors_view, DescriptorBlock, DescriptorModel};
use vstd::prelude::*;

verus! {

/// The offsets never fall from one item to the next.
pub open spec fn ascending(items: Seq<DescriptorModel>) -> bool {
    forall|i: int, j: int| 0 <= i <= j < items.len() ==> items[i].offset <= items[j].offset
}

/// Where `item` goes into `items`: behind the last item whose offset is not
/// greater than its own.
pub open spec fn insert_point(items: Seq<DescriptorModel>, item: DescriptorModel) -> int
    decreases items.len(),
{
    if items.len() == 0 {
        0
    } else if items.last().offset <= item.offset {
        items.len() as int
    } else {
        insert_point(items.drop_last(), item)
    }
}

/// `items` ordered by offset; items of equal offset keep their order.
pub open spec fn sorted_by_offset(items: Seq<DescriptorModel>) -> Seq<DescriptorModel>
    decreases items.len(),
{
    if items.len() == 0 {
        items
    } else {
        let before = sorted_by_offset(items.drop_last());
        before.insert(insert_point(before, items.last()), items.last())
    }
}

/// The insertion point lies behind an item that is not greater, and before
/// items that are all greater.
pub proof fn insert_point_bounds(items: Seq<DescriptorModel>, item: DescriptorModel)
    ensures
        0 <= insert_point(items, item) <= items.len(),
        insert_point(items, item) > 0 ==> items[insert_point(items, item) - 1].offset
            <= item.offset,
        forall|k: int|
            insert_point(items, item) <= k < items.len() ==> (#[trigger] items[k]).offset
                > item.offset,
    decreases items.len(),
{
    if items.len() > 0 && items.last().offset > item.offset {
        let front = items.drop_last();
        insert_point_bounds(front, item);
        assert forall|k: int| insert_point(items, item) <= k < items.len() implies (
        #[trigger] items[k]).offset > item.offset by {
            if k < front.len() {
                assert(front[k] == items[k]);
            }
        }
    }
}

/// Sorting keeps every descriptor, each as often as it occurred, and leaves
/// the offsets ascending: the greatest offset comes last.
pub proof fn sorted_by_offset_is_ordered_permutation(items: Seq<DescriptorModel>)
    ensures
        sorted_by_offset(items).len() == items.len(),
        sorted_by_offset(items).to_multiset() == items.to_multiset(),
        ascending(sorted_by_offset(items)),
        forall|i: int|
            0 <= i < items.len() ==> (#[trigger] items[i]).offset <= sorted_by_offset(
                items,
            ).last().offset,
    decreases items.len(),
{
    broadcast use vstd::seq_lib::group_to_multiset_ensures;

    if items.len() > 0 {
        let front = items.drop_last();
        let item = items.last();
        sorted_by_offset_is_ordered_permutation(front);
        let before = sorted_by_offset(front);
        let at = insert_point(before, item);
        insert_point_bounds(before, item);
        let after = before.insert(at, item);
        assert(items =~= front.push(item));
        assert(after.to_multiset() == before.to_multiset().insert(item));
        assert(front.push(item).to_multiset() == front.to_multiset().insert(item));
        assert forall|i: int, j: int| 0 <= i <= j < after.len() implies after[i].offset
            <= after[j].offset by {
            if i < at && j > at {
                assert(before[i].offset <= before[j - 1].offset);
            } else if i < at && j == at {
                assert(before[i].offset <= before[at - 1].offset);
            } else if i == at && j > at {
                assert(before[j - 1].offset > item.offset);
            } else if i > at {
                assert(before[i - 1].offset <= before[j - 1].offset);
            } else if j < at {
                assert(before[i].offset <= before[j].offset);
            }
        }
        assert forall|i: int| 0 <= i < items.len() implies (#[trigger] items[i]).offset
            <= after.last().offset by {
            assert(items.to_multiset().count(items[i]) > 0);
            assert(after.to_multiset().count(items[i]) > 0);
            assert(after.contains(items[i]));
            let k = choose|k: int| 0 <= k < after.len() && after[k] == items[i];
            assert(after[k].offset <= after[after.len() - 1].offset);
        }
    }
}

/// Orders the descriptors by offset.
pub fn sort_by_offset(blocks: Vec<DescriptorBlock>) -> (sorted: Vec<DescriptorBlock>)
    ensures
        descriptors_view(sorted@) == sorted_by_offset(descriptors_view(blocks@)),
{
    let mut sorted: Vec<DescriptorBlock> = Vec::new();
    let ghost all = descriptors_view(blocks@);
    proof {
        assert(descriptors_view(sorted@) =~= sorted_by_offset(all.subrange(0, 0)));
    }
    for block in items: blocks
        invariant
            items.seq() == blocks@,
            all == descriptors_view(blocks@),
            descriptors_view(sorted@) == sorted_by_offset(all.subrange(0, items.index() as int)),
    {
        let ghost before = descriptors_view(sorted@);
        let ghost done = items.index() as int;
        let mut at: usize = sorted.len();
        while at > 0 && sorted[at - 1].offset > block.offset
            invariant
                at <= sorted.len(),
                before == descriptors_view(sorted@),
                forall|k: int|
                    at <= k < sorted.len() ==> (#[trigger] before[k]).offset > block.offset,
            decreases at,
        {
            at = at - 1;
        }
        proof {
            insert_point_bounds(before, block@);
            assert(at > 0 ==> before[at - 1].offset <= block.offset);
            assert(at as int == insert_point(before, block@));
            assert(all.subrange(0, done + 1).drop_last() =~= all.subrange(0, done));
            assert(all.subrange(0, done + 1).last() == block@);
            assert(descriptors_view(sorted@.insert(at as int, block)) =~= before.insert(
                at as int,
                block@,
            ));
        }
        sorted.insert(at, block);
    }
    proof {
        assert(all.subrange(0, all.len() as int) =~= all);
    }
    sorted
}

} // verus!

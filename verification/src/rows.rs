//! Which rows a prepared plan reads, and that preparing and ordering a plan keeps
//! them.

use crate::access_plan::{
    law_split_reads_the_selection, lemma_scanned, reads_row, scanned, split_mask, AccessModel,
};
use crate::metadata::{
    lemma_row_offset_bound, lemma_row_offset_step, row_offset, total_rows, RowGroupMetaData,
};
use crate::prepared::{
    all_covered, law_reorder_reads_the_same_row_groups, lemma_reversed_mask_len,
    lemma_rows_at_first, lemma_rows_at_step, lemma_seen_rows, miscovered, prepared_model,
    reversed_mask, rows_at, seen_mask, PreparedModel,
};
use crate::soundness::lemma_all_read;
use vstd::prelude::*;

verus! {

/// Whether a decoder with a prepared plan reads the row at `row` of the row group
/// that stands at `place` in the plan.
pub open spec fn reads_at(
    plan: PreparedModel,
    groups: Seq<RowGroupMetaData>,
    place: int,
    row: int,
) -> bool {
    match plan.mask {
        Some(mask) => mask[rows_at(plan.indexes.take(place), groups) + row],
        None => true,
    }
}

/// Whether a decoder with a prepared plan reads the row at `row` of the row group at
/// `index` of the file.
pub open spec fn plan_reads(
    plan: PreparedModel,
    groups: Seq<RowGroupMetaData>,
    index: int,
    row: int,
) -> bool {
    exists|place: int|
        {
            &&& 0 <= place < plan.indexes.len()
            &&& #[trigger] plan.indexes[place] == index
            &&& reads_at(plan, groups, place, row)
        }
}

/// Whether a prepared plan reads exactly the rows that `accesses` say.
pub open spec fn reads_as_planned(
    accesses: Seq<AccessModel>,
    groups: Seq<RowGroupMetaData>,
    plan: PreparedModel,
) -> bool {
    forall|index: int, row: int|
        0 <= index < groups.len() && 0 <= row < groups[index].num_rows ==> #[trigger] plan_reads(
            plan,
            groups,
            index,
            row,
        ) == reads_row(accesses[index], row)
}

/// Whether two prepared plans read the same rows.
pub open spec fn reads_alike(
    plan: PreparedModel,
    other: PreparedModel,
    groups: Seq<RowGroupMetaData>,
) -> bool {
    forall|index: int, row: int|
        0 <= index < groups.len() && 0 <= row < groups[index].num_rows ==> #[trigger] plan_reads(
            other,
            groups,
            index,
            row,
        ) == plan_reads(plan, groups, index, row)
}

/// The flag of a row lies behind those of the row groups that are read before its
/// own.
proof fn lemma_seen_at(
    accesses: Seq<AccessModel>,
    groups: Seq<RowGroupMetaData>,
    place: int,
    row: int,
)
    requires
        accesses.len() <= groups.len() <= usize::MAX,
        all_covered(accesses, groups),
        0 <= place < scanned(accesses).len(),
        0 <= row < groups[scanned(accesses)[place] as int].num_rows,
    ensures
        rows_at(scanned(accesses).take(place), groups) + row < seen_mask(accesses, groups).len(),
        seen_mask(accesses, groups)[rows_at(scanned(accesses).take(place), groups) + row]
            == reads_row(accesses[scanned(accesses)[place] as int], row),
    decreases accesses.len(),
{
    let front = accesses.drop_last();
    let last = accesses.len() - 1;
    let earlier = scanned(front);
    assert(!miscovered(accesses, groups, last));
    assert forall|i: int| 0 <= i < front.len() implies !#[trigger] miscovered(front, groups, i) by {
        assert(!miscovered(accesses, groups, i));
    }
    lemma_scanned(front);
    if place < earlier.len() {
        assert(scanned(accesses)[place] == earlier[place]);
        assert(earlier[place] < front.len());
        assert(scanned(accesses).take(place) =~= earlier.take(place));
        lemma_seen_at(front, groups, place, row);
    } else {
        assert(scanned(accesses).take(place) =~= earlier);
        lemma_seen_rows(front, groups);
    }
}

/// A plan that is prepared for a decoder reads exactly the rows that it says.
pub proof fn law_prepared_plans_read_as_planned(
    accesses: Seq<AccessModel>,
    groups: Seq<RowGroupMetaData>,
)
    requires
        accesses.len() == groups.len(),
        groups.len() <= usize::MAX,
        all_covered(accesses, groups),
    ensures
        reads_as_planned(accesses, groups, prepared_model(accesses, groups)),
{
    let plan = prepared_model(accesses, groups);
    let indexes = plan.indexes;
    lemma_scanned(accesses);
    assert forall|index: int, row: int|
        0 <= index < groups.len() && 0 <= row < groups[index].num_rows implies #[trigger] plan_reads(
        plan,
        groups,
        index,
        row,
    ) == reads_row(accesses[index], row) by {
        if plan_reads(plan, groups, index, row) {
            let place = choose|place: int|
                {
                    &&& 0 <= place < indexes.len()
                    &&& #[trigger] indexes[place] == index
                    &&& reads_at(plan, groups, place, row)
                };
            lemma_seen_at(accesses, groups, place, row);
            if plan.mask is None {
                assert(!(accesses[index] is Selection));
            }
        }
        if reads_row(accesses[index], row) {
            assert(!(accesses[index] is Skip));
            assert(indexes.contains(index as usize));
            let place = choose|place: int| 0 <= place < indexes.len() && indexes[place] == index;
            lemma_seen_at(accesses, groups, place, row);
            assert(indexes[place] == index && reads_at(plan, groups, place, row));
        }
    }
}

/// A selection of rows of a file that is split by row group and prepared for a decoder
/// reads exactly its rows.
pub proof fn law_a_selection_reads_its_rows(
    mask: Seq<bool>,
    groups: Seq<RowGroupMetaData>,
    index: int,
    row: int,
)
    requires
        mask.len() == total_rows(groups),
        groups.len() <= usize::MAX,
        0 <= index < groups.len(),
        0 <= row < groups[index].num_rows,
    ensures
        all_covered(split_mask(mask, groups), groups),
        plan_reads(prepared_model(split_mask(mask, groups), groups), groups, index, row)
            == mask[row_offset(groups, index) + row],
{
    let accesses = split_mask(mask, groups);
    assert forall|i: int| 0 <= i < accesses.len() implies !#[trigger] miscovered(
        accesses,
        groups,
        i,
    ) by {
        lemma_row_offset_step(groups, i);
        lemma_row_offset_bound(groups, i, i + 1);
    }
    law_prepared_plans_read_as_planned(accesses, groups);
    law_split_reads_the_selection(mask, groups, index, row);
}

/// The flags of a row group follow it when the plan is reversed.
proof fn lemma_reversed_at(
    mask: Seq<bool>,
    indexes: Seq<usize>,
    groups: Seq<RowGroupMetaData>,
    place: int,
    row: int,
)
    requires
        mask.len() == rows_at(indexes, groups),
        0 <= place < indexes.len(),
        0 <= row < groups[indexes[place] as int].num_rows,
    ensures
        rows_at(indexes.take(place), groups) + row < mask.len(),
        rows_at(indexes.reverse().take(indexes.len() - 1 - place), groups) + row < mask.len(),
        reversed_mask(mask, indexes, groups)[rows_at(
            indexes.reverse().take(indexes.len() - 1 - place),
            groups,
        ) + row] == mask[rows_at(indexes.take(place), groups) + row],
    decreases indexes.len(),
{
    let front = indexes.drop_last();
    let last = indexes.last();
    let rows = groups[last as int].num_rows;
    let before = mask.len() - rows;
    lemma_rows_at_step(indexes, groups, place);
    if place == indexes.len() - 1 {
        assert(indexes.take(place) =~= front);
        assert(indexes.reverse().take(0) =~= Seq::<usize>::empty());
        assert(rows_at(indexes.reverse().take(0), groups) == 0);
        assert(mask.skip(before)[row] == mask[before + row]);
    } else {
        let rest = front.reverse().take(front.len() - 1 - place);
        lemma_reversed_at(mask.take(before), front, groups, place, row);
        lemma_reversed_mask_len(mask.take(before), front, groups);
        lemma_rows_at_first(last, rest, groups);
        assert(front.take(place) =~= indexes.take(place));
        assert(indexes.reverse().take(indexes.len() - 1 - place) =~= seq![last] + rest);
    }
}

/// The row groups of a plan stand in it once each, so a row is read or not by what
/// its only place says.
proof fn lemma_only_place(
    plan: PreparedModel,
    groups: Seq<RowGroupMetaData>,
    place: int,
    row: int,
)
    requires
        plan.indexes.no_duplicates(),
        0 <= place < plan.indexes.len(),
    ensures
        plan_reads(plan, groups, plan.indexes[place] as int, row) == reads_at(
            plan,
            groups,
            place,
            row,
        ),
{
    let index = plan.indexes[place] as int;
    if plan_reads(plan, groups, index, row) {
        let other = choose|other: int|
            {
                &&& 0 <= other < plan.indexes.len()
                &&& #[trigger] plan.indexes[other] == index
                &&& reads_at(plan, groups, other, row)
            };
        assert(other == place);
    }
}

/// Reading row groups from the last to the first reads the same rows.
pub proof fn law_reverse_reads_the_same_rows(plan: PreparedModel, groups: Seq<RowGroupMetaData>)
    requires
        plan.wf(groups),
    ensures
        reads_alike(plan, plan.reversed(groups), groups),
{
    let reversed = plan.reversed(groups);
    let len = plan.indexes.len() as int;
    assert forall|j: int, k: int|
        0 <= j < len && 0 <= k < len && j != k implies reversed.indexes[j]
        != reversed.indexes[k] by {}
    assert forall|index: int, row: int|
        0 <= index < groups.len() && 0 <= row < groups[index].num_rows implies #[trigger] plan_reads(
        reversed,
        groups,
        index,
        row,
    ) == plan_reads(plan, groups, index, row) by {
        if exists|place: int| 0 <= place < len && plan.indexes[place] == index {
            let place = choose|place: int| 0 <= place < len && plan.indexes[place] == index;
            assert(reversed.indexes[len - 1 - place] == index);
            lemma_only_place(plan, groups, place, row);
            lemma_only_place(reversed, groups, len - 1 - place, row);
            match plan.mask {
                Some(mask) => lemma_reversed_at(mask, plan.indexes, groups, place, row),
                None => {},
            }
        } else {
            assert forall|place: int| 0 <= place < len implies #[trigger] reversed.indexes[place]
                != index by {
                assert(plan.indexes[len - 1 - place] != index);
            }
        }
    }
}

/// Whatever the order of the row groups, the same rows are read.
pub proof fn law_reorder_reads_the_same_rows(
    plan: PreparedModel,
    order: Seq<usize>,
    groups: Seq<RowGroupMetaData>,
)
    requires
        order.len() == plan.indexes.len(),
        order.no_duplicates(),
        forall|k: int| 0 <= k < order.len() ==> (#[trigger] order[k]) < plan.indexes.len(),
    ensures
        reads_alike(plan, plan.reordered(Some(order)), groups),
{
    let reordered = plan.reordered(Some(order));
    if !(plan.mask is Some || plan.indexes.len() <= 1) {
        law_reorder_reads_the_same_row_groups(plan, order);
        assert forall|index: int, row: int|
            0 <= index < groups.len() && 0 <= row
                < groups[index].num_rows implies #[trigger] plan_reads(
            reordered,
            groups,
            index,
            row,
        ) == plan_reads(plan, groups, index, row) by {
            vstd::seq_lib::to_multiset_contains(plan.indexes, index as usize);
            vstd::seq_lib::to_multiset_contains(reordered.indexes, index as usize);
            if plan_reads(plan, groups, index, row) {
                let place = choose|place: int|
                    0 <= place < plan.indexes.len() && #[trigger] plan.indexes[place] == index;
                assert(plan.indexes.contains(index as usize));
                assert(reordered.indexes.contains(index as usize));
                let place = reordered.indexes.index_of(index as usize);
                assert(reordered.indexes[place] == index);
            }
            if plan_reads(reordered, groups, index, row) {
                let place = choose|place: int|
                    0 <= place < reordered.indexes.len() && #[trigger] reordered.indexes[place]
                        == index;
                assert(reordered.indexes.contains(index as usize));
                assert(plan.indexes.contains(index as usize));
                let place = plan.indexes.index_of(index as usize);
                assert(plan.indexes[place] == index);
            }
        }
    }
}

/// A plan that is prepared for a decoder reads the row groups in file order, those and only
/// those of which something is read, and has a selection only where a row group is read in
/// part.
pub proof fn law_prepared_plans_keep_the_file_order(
    accesses: Seq<AccessModel>,
    groups: Seq<RowGroupMetaData>,
)
    requires
        accesses.len() <= usize::MAX,
    ensures
        ({
            let plan = prepared_model(accesses, groups);
            &&& forall|j: int, k: int|
                0 <= j < k < plan.indexes.len() ==> (#[trigger] plan.indexes[j]) < (
                #[trigger] plan.indexes[k])
            &&& forall|index: usize|
                plan.indexes.contains(index) <==> index < accesses.len() && !(
                #[trigger] accesses[index as int] is Skip)
            &&& plan.mask is None <==> forall|i: int|
                0 <= i < accesses.len() ==> !(#[trigger] accesses[i] is Selection)
        }),
{
    lemma_scanned(accesses);
    let plan = prepared_model(accesses, groups);
    assert forall|index: usize|
        plan.indexes.contains(index) implies index < accesses.len() && !(#[trigger] accesses[index as int] is Skip) by {
        let k = choose|k: int| 0 <= k < plan.indexes.len() && plan.indexes[k] == index;
    }
}

/// Reversing a plan reads its row groups from the last to the first.
pub proof fn law_reverse_reads_from_the_last(plan: PreparedModel, groups: Seq<RowGroupMetaData>)
    ensures
        plan.reversed(groups).indexes.len() == plan.indexes.len(),
        forall|k: int|
            0 <= k < plan.indexes.len() ==> #[trigger] plan.reversed(groups).indexes[k]
                == plan.indexes[plan.indexes.len() - 1 - k],
        plan.reversed(groups).mask is Some == plan.mask is Some,
{
}

/// Reordering a plan reads its row groups in the order that is given, by their places. One
/// with a selection keeps its order, which the selection follows, and so does every plan
/// without an order.
pub proof fn law_reorder_reads_in_the_given_order(plan: PreparedModel, order: Seq<usize>)
    requires
        order.len() == plan.indexes.len(),
    ensures
        plan.mask is None && plan.indexes.len() > 1 ==> {
            let reordered = plan.reordered(Some(order));
            &&& reordered.mask is None
            &&& reordered.indexes.len() == plan.indexes.len()
            &&& forall|k: int|
                0 <= k < order.len() ==> #[trigger] reordered.indexes[k]
                    == plan.indexes[order[k] as int]
        },
        plan.mask is Some ==> plan.reordered(Some(order)) == plan,
        plan.indexes.len() <= 1 ==> plan.reordered(Some(order)) == plan,
        plan.reordered(None) == plan,
{
}

/// A file-level selection skips the row groups of which it selects no row and reads those
/// in full of which it selects every row. The others are read by its stretch over them.
pub proof fn law_a_selection_reads_row_groups_in_part_only_where_it_must(
    mask: Seq<bool>,
    groups: Seq<RowGroupMetaData>,
    index: int,
)
    requires
        mask.len() == total_rows(groups),
        0 <= index < groups.len(),
    ensures
        ({
            let start = row_offset(groups, index) as int;
            let rows = groups[index].num_rows as int;
            let access = split_mask(mask, groups)[index];
            &&& split_mask(mask, groups).len() == groups.len()
            &&& (forall|row: int| 0 <= row < rows ==> !#[trigger] mask[start + row])
                ==> access is Skip
            &&& rows > 0 && (forall|row: int| 0 <= row < rows ==> #[trigger] mask[start + row])
                ==> access is Scan
            &&& (exists|row: int| 0 <= row < rows && #[trigger] mask[start + row]) && (exists|
                row: int,
            |
                0 <= row < rows && !#[trigger] mask[start + row]) ==> access
                == AccessModel::Selection(mask.subrange(start, start + rows))
        }),
{
    let start = row_offset(groups, index) as int;
    let rows = groups[index].num_rows as int;
    lemma_row_offset_step(groups, index);
    lemma_row_offset_bound(groups, index, index + 1);
    let stretch = mask.subrange(start, start + rows);
    if forall|row: int| 0 <= row < rows ==> !#[trigger] mask[start + row] {
        assert forall|i: int| 0 <= i < stretch.len() implies #[trigger] stretch[i] == false by {
            assert(!mask[start + i]);
        }
        lemma_all_read(stretch, false);
    }
    if forall|row: int| 0 <= row < rows ==> #[trigger] mask[start + row] {
        assert forall|i: int| 0 <= i < stretch.len() implies #[trigger] stretch[i] == true by {
            assert(mask[start + i]);
        }
        lemma_all_read(stretch, true);
    }
    if exists|row: int| 0 <= row < rows && #[trigger] mask[start + row] {
        let row = choose|row: int| 0 <= row < rows && #[trigger] mask[start + row];
        law_split_reads_the_selection(mask, groups, index, row);
    }
    if exists|row: int| 0 <= row < rows && !#[trigger] mask[start + row] {
        let row = choose|row: int| 0 <= row < rows && !#[trigger] mask[start + row];
        law_split_reads_the_selection(mask, groups, index, row);
    }
}

} // verus!

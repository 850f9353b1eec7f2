//! Reading the next row group ahead.

use crate::metadata::{ColumnChunkMetaData, RowGroupMetaData};
use parquet::arrow::ProjectionMask;
use std::ops::Range;
use vstd::prelude::*;

verus! {

/// The Parquet reader's choice of leaf columns.
#[verifier::external_type_specification]
#[verifier::external_body]
pub struct ExProjectionMask(ProjectionMask);

/// A flag for each leaf column of the file, `true` where it is read. `None`
/// where all of them are.
pub uninterp spec fn projection_leaves(projection: ProjectionMask) -> Option<Seq<bool>>;

/// Whether `projection` is for a file with at least `leaves` leaf columns.
pub open spec fn projection_covers(projection: ProjectionMask, leaves: nat) -> bool {
    projection_leaves(projection) matches Some(flags) ==> leaves <= flags.len()
}

/// Whether the leaf column at `leaf` is read.
pub open spec fn reads_leaf(projection: ProjectionMask, leaf: int) -> bool {
    match projection_leaves(projection) {
        Some(flags) => flags[leaf],
        None => true,
    }
}

/// `ProjectionMask::leaf_included`. It panics on a leaf column that the
/// projection has no flag for; the precondition rules that out.
#[verifier::external_body]
fn leaf_included(projection: &ProjectionMask, leaf: usize) -> (included: bool)
    requires
        projection_covers(*projection, leaf as nat + 1),
    ensures
        included == match projection_leaves(*projection) {
            Some(flags) => flags[leaf as int],
            None => true,
        },
{
    projection.leaf_included(leaf)
}

/// Whether a column chunk lies at a place in the file that there is.
pub open spec fn chunk_valid(column: ColumnChunkMetaData) -> bool {
    column.first_page_offset() >= 0 && column.compressed_size >= 0
}

/// Whether the column chunks that `projection` reads lie at places in the file that
/// there are.
pub open spec fn read_chunks_valid(
    columns: Seq<ColumnChunkMetaData>,
    projection: ProjectionMask,
) -> bool {
    forall|i: int|
        0 <= i < columns.len() && reads_leaf(projection, i) ==> chunk_valid(#[trigger] columns[i])
}

/// Whether `projection` is for a file with the leaf columns of a row group.
pub open spec fn projection_fits(group: RowGroupMetaData, projection: ProjectionMask) -> bool {
    projection_covers(projection, group.columns@.len())
}

/// The bytes of a column chunk.
pub open spec fn chunk_range(column: ColumnChunkMetaData) -> Range<u64> {
    Range {
        start: column.first_page_offset() as u64,
        end: (column.first_page_offset() + column.compressed_size) as u64,
    }
}

/// The bytes of the column chunks that `projection` reads, in column order.
pub open spec fn projected_ranges(
    columns: Seq<ColumnChunkMetaData>,
    projection: ProjectionMask,
) -> Seq<Range<u64>>
    decreases columns.len(),
{
    if columns.len() == 0 {
        Seq::empty()
    } else {
        let rest = projected_ranges(columns.drop_last(), projection);
        if reads_leaf(projection, columns.len() - 1) {
            rest.push(chunk_range(columns.last()))
        } else {
            rest
        }
    }
}

/// The number of bytes in the column chunks that `projection` reads.
pub open spec fn projected_bytes(
    columns: Seq<ColumnChunkMetaData>,
    projection: ProjectionMask,
) -> nat
    decreases columns.len(),
{
    if columns.len() == 0 {
        0
    } else {
        projected_bytes(columns.drop_last(), projection) + if reads_leaf(
            projection,
            columns.len() - 1,
        ) {
            columns.last().compressed_size as nat
        } else {
            0
        }
    }
}

/// The bytes of a row group that are to be read ahead.
#[derive(Debug)]
pub struct PrefetchPlan {
    /// The row group.
    pub row_group: usize,
    /// The ranges to read.
    pub ranges: Vec<Range<u64>>,
    /// The number of bytes in the ranges.
    pub bytes: usize,
}

/// Whether a row group is read ahead.
#[derive(Debug)]
pub enum PrefetchDecision {
    /// A column chunk lies at a place in the file that there cannot be.
    Misplaced,
    /// Its bytes are too many to be counted.
    Unplanned,
    /// There is nothing to read, or more than may be read ahead.
    OverBudget,
    /// Its bytes are read ahead once memory is reserved for them.
    Fetch(PrefetchPlan),
}

/// A row group that is being read ahead. `T` is the running read, which holds the
/// memory reservation until it is done.
pub struct PrefetchedRowGroup<T> {
    /// The row group.
    pub row_group: usize,
    /// The ranges that are read.
    pub ranges: Vec<Range<u64>>,
    /// The running read.
    pub task: T,
}

/// Whether `decision` is what is decided about reading the row group at
/// `row_group` ahead with a budget of `max_bytes`.
pub open spec fn prefetch_decided(
    row_group: usize,
    group: RowGroupMetaData,
    projection: ProjectionMask,
    max_bytes: usize,
    decision: PrefetchDecision,
) -> bool {
    let bytes = projected_bytes(group.columns@, projection);
    &&& decision is Misplaced <==> !read_chunks_valid(group.columns@, projection)
    &&& match decision {
        PrefetchDecision::Misplaced => true,
        PrefetchDecision::Unplanned => bytes > usize::MAX,
        PrefetchDecision::OverBudget => bytes <= usize::MAX && (bytes == 0 || bytes > max_bytes),
        PrefetchDecision::Fetch(plan) => {
            &&& 0 < bytes <= max_bytes
            &&& plan.row_group == row_group
            &&& plan.ranges@ == projected_ranges(group.columns@, projection)
            &&& plan.bytes == bytes
        },
    }
}

/// Decides whether the row group at `row_group` is read ahead: all column chunks
/// that `projection` reads, where they are together at most `max_bytes` long.
///
/// Nothing is decided of a row group of which a column chunk that is read starts before
/// the file or is less than empty.
pub fn plan_prefetch(
    row_group: usize,
    group: &RowGroupMetaData,
    projection: &ProjectionMask,
    max_bytes: usize,
) -> (decision: PrefetchDecision)
    requires
        projection_fits(*group, *projection),
    ensures
        prefetch_decided(row_group, *group, *projection, max_bytes, decision),
{
    let ghost columns = group.columns@;
    let mut ranges: Vec<Range<u64>> = Vec::new();
    let mut bytes: Option<usize> = Some(0);
    let mut i: usize = 0;
    proof {
        assert(columns.take(0) =~= Seq::<ColumnChunkMetaData>::empty());
    }
    while i < group.columns.len()
        invariant
            columns == group.columns@,
            i <= columns.len(),
            projection_fits(*group, *projection),
            read_chunks_valid(columns.take(i as int), *projection),
            ranges@ == projected_ranges(columns.take(i as int), *projection),
            match bytes {
                Some(bytes) => bytes == projected_bytes(columns.take(i as int), *projection),
                None => projected_bytes(columns.take(i as int), *projection) > usize::MAX,
            },
        decreases columns.len() - i,
    {
        proof {
            assert(columns.take(i + 1).drop_last() =~= columns.take(i as int));
        }
        if leaf_included(projection, i) {
            if group.columns[i].first_page_offset() < 0 || group.columns[i].compressed_size < 0 {
                assert(reads_leaf(*projection, i as int) && !chunk_valid(columns[i as int]));
                return PrefetchDecision::Misplaced;
            }
            let (start, len) = group.columns[i].byte_range();
            ranges.push(Range { start, end: start + len });
            bytes = match bytes {
                Some(bytes) => if len <= (usize::MAX - bytes) as u64 {
                    Some(bytes + len as usize)
                } else {
                    None
                },
                None => None,
            };
        }
        i += 1;
    }
    proof {
        assert(columns.take(i as int) =~= columns);
    }
    match bytes {
        None => PrefetchDecision::Unplanned,
        Some(bytes) => if bytes == 0 || bytes > max_bytes {
            PrefetchDecision::OverBudget
        } else {
            PrefetchDecision::Fetch(PrefetchPlan { row_group, ranges, bytes })
        },
    }
}

/// The number of bytes in `ranges`.
pub open spec fn total_len(ranges: Seq<Range<u64>>) -> int
    decreases ranges.len(),
{
    if ranges.len() == 0 {
        0
    } else {
        total_len(ranges.drop_last()) + (ranges.last().end - ranges.last().start)
    }
}

/// What is read ahead never exceeds the budget, and without a budget nothing is.
pub proof fn law_prefetch_stays_within_budget(
    row_group: usize,
    group: RowGroupMetaData,
    projection: ProjectionMask,
    max_bytes: usize,
    decision: PrefetchDecision,
)
    requires
        prefetch_decided(row_group, group, projection, max_bytes, decision),
    ensures
        max_bytes == 0 ==> !(decision is Fetch),
        decision matches PrefetchDecision::Fetch(plan) ==> 0 < total_len(plan.ranges@)
            <= max_bytes,
        decision matches PrefetchDecision::Fetch(plan) ==> plan.bytes == total_len(plan.ranges@),
{
    if decision is Fetch {
        lemma_projected_len(group.columns@, projection);
    }
}

/// The ranges that are read have as many bytes as their column chunks.
proof fn lemma_projected_len(columns: Seq<ColumnChunkMetaData>, projection: ProjectionMask)
    requires
        read_chunks_valid(columns, projection),
    ensures
        total_len(projected_ranges(columns, projection)) == projected_bytes(columns, projection),
    decreases columns.len(),
{
    if columns.len() > 0 {
        let front = columns.drop_last();
        assert forall|i: int| 0 <= i < front.len() && reads_leaf(projection, i) implies chunk_valid(
            #[trigger] front[i],
        ) by {
            assert(chunk_valid(columns[i]));
        }
        lemma_projected_len(front, projection);
        if reads_leaf(projection, columns.len() - 1) {
            assert(chunk_valid(columns[columns.len() - 1]));
            let ranges = projected_ranges(columns, projection);
            assert(ranges.drop_last() =~= projected_ranges(front, projection));
        }
    }
}

/// What is read ahead of a row group are the column chunks that the projection reads, each
/// from its first page on for as long as it is, the dictionary first where there is one.
pub proof fn law_what_is_read_ahead_are_the_chunks_that_are_read(
    columns: Seq<ColumnChunkMetaData>,
    projection: ProjectionMask,
    i: int,
) -> (k: int)
    requires
        read_chunks_valid(columns, projection),
        0 <= i < columns.len(),
        match projection_leaves(projection) {
            Some(flags) => flags[i],
            None => true,
        },
    ensures
        0 <= k < projected_ranges(columns, projection).len(),
        projected_ranges(columns, projection)[k].start == match columns[i].dictionary_page_offset {
            Some(dictionary) => dictionary,
            None => columns[i].data_page_offset,
        },
        projected_ranges(columns, projection)[k].end - projected_ranges(columns, projection)[k].start
            == columns[i].compressed_size,
    decreases columns.len(),
{
    let front = columns.drop_last();
    assert(chunk_valid(columns[i]));
    if i < front.len() {
        assert forall|j: int| 0 <= j < front.len() && reads_leaf(projection, j) implies chunk_valid(
            #[trigger] front[j],
        ) by {
            assert(chunk_valid(columns[j]));
        }
        law_what_is_read_ahead_are_the_chunks_that_are_read(front, projection, i)
    } else {
        projected_ranges(columns, projection).len() - 1
    }
}

/// Nothing is read ahead of a row group but the column chunks that the projection reads:
/// each range is that of the column at `i`.
pub proof fn law_nothing_else_is_read_ahead(
    columns: Seq<ColumnChunkMetaData>,
    projection: ProjectionMask,
    k: int,
) -> (i: int)
    requires
        read_chunks_valid(columns, projection),
        0 <= k < projected_ranges(columns, projection).len(),
    ensures
        0 <= i < columns.len(),
        match projection_leaves(projection) {
            Some(flags) => flags[i],
            None => true,
        },
        projected_ranges(columns, projection)[k].start == match columns[i].dictionary_page_offset {
            Some(dictionary) => dictionary,
            None => columns[i].data_page_offset,
        },
        projected_ranges(columns, projection)[k].end - projected_ranges(columns, projection)[k].start
            == columns[i].compressed_size,
    decreases columns.len(),
{
    let front = columns.drop_last();
    let last = columns.len() - 1;
    if k < projected_ranges(front, projection).len() {
        assert forall|j: int| 0 <= j < front.len() && reads_leaf(projection, j) implies chunk_valid(
            #[trigger] front[j],
        ) by {
            assert(chunk_valid(columns[j]));
        }
        law_nothing_else_is_read_ahead(front, projection, k)
    } else {
        assert(chunk_valid(columns[last]));
        last
    }
}

/// A row group is read ahead exactly where there is something to read of it and that is no
/// more than the budget, and nothing is decided of it exactly where a chunk that is read
/// cannot be there.
pub proof fn law_a_row_group_within_the_budget_is_read_ahead(
    row_group: usize,
    group: RowGroupMetaData,
    projection: ProjectionMask,
    max_bytes: usize,
    decision: PrefetchDecision,
)
    requires
        prefetch_decided(row_group, group, projection, max_bytes, decision),
    ensures
        decision is Misplaced <==> exists|i: int|
            {
                &&& 0 <= i < group.columns@.len()
                &&& match projection_leaves(projection) {
                    Some(flags) => flags[i],
                    None => true,
                }
                &&& {
                    let chunk = #[trigger] group.columns@[i];
                    ||| chunk.compressed_size < 0
                    ||| chunk.dictionary_page_offset is None && chunk.data_page_offset < 0
                    ||| chunk.dictionary_page_offset is Some && chunk.dictionary_page_offset->0 < 0
                }
            },
        !(decision is Misplaced) ==> {
            let bytes = total_len(projected_ranges(group.columns@, projection));
            &&& decision is Fetch <==> 0 < bytes <= max_bytes
            &&& decision is Unplanned <==> bytes > usize::MAX
            &&& decision is OverBudget <==> bytes == 0 || max_bytes < bytes <= usize::MAX
        },
        decision matches PrefetchDecision::Fetch(plan) ==> plan.row_group == row_group
            && plan.ranges@ == projected_ranges(group.columns@, projection) && plan.bytes
            == total_len(plan.ranges@),
{
    let columns = group.columns@;
    if decision is Misplaced {
        let i = choose|i: int|
            0 <= i < columns.len() && reads_leaf(projection, i) && !chunk_valid(
                #[trigger] columns[i],
            );
        assert(!chunk_valid(columns[i]));
    } else {
        lemma_projected_len(columns, projection);
        assert forall|i: int| 0 <= i < columns.len() && reads_leaf(projection, i) implies chunk_valid(
            #[trigger] columns[i],
        ) by {}
    }
}

/// The column chunks that are read ahead stand in the order of the columns, each once:
/// `places` are the columns that the projection reads.
pub proof fn law_what_is_read_ahead_keeps_the_column_order(
    columns: Seq<ColumnChunkMetaData>,
    projection: ProjectionMask,
) -> (places: Seq<int>)
    requires
        read_chunks_valid(columns, projection),
    ensures
        ({
            let ranges = projected_ranges(columns, projection);
            &&& places.len() == ranges.len()
            &&& forall|j: int, k: int|
                0 <= j < k < places.len() ==> #[trigger] places[j] < #[trigger] places[k]
            &&& forall|k: int|
                0 <= k < places.len() ==> {
                    &&& 0 <= #[trigger] places[k] < columns.len()
                    &&& ranges[k].start == match columns[places[k]].dictionary_page_offset {
                        Some(dictionary) => dictionary,
                        None => columns[places[k]].data_page_offset,
                    }
                    &&& ranges[k].end == ranges[k].start + columns[places[k]].compressed_size
                }
            &&& forall|i: int|
                0 <= i < columns.len() ==> (#[trigger] places.contains(i) <==> match projection_leaves(
                    projection,
                ) {
                    Some(flags) => flags[i],
                    None => true,
                })
        }),
    decreases columns.len(),
{
    if columns.len() == 0 {
        Seq::empty()
    } else {
        let front = columns.drop_last();
        let last = columns.len() - 1;
        assert forall|j: int| 0 <= j < front.len() && reads_leaf(projection, j) implies chunk_valid(
            #[trigger] front[j],
        ) by {
            assert(chunk_valid(columns[j]));
        }
        let earlier = law_what_is_read_ahead_keeps_the_column_order(front, projection);
        let read = reads_leaf(projection, last);
        let places = if read {
            earlier.push(last)
        } else {
            earlier
        };
        assert forall|k: int| 0 <= k < places.len() implies {
            let ranges = projected_ranges(columns, projection);
            &&& 0 <= #[trigger] places[k] < columns.len()
            &&& ranges[k].start == match columns[places[k]].dictionary_page_offset {
                Some(dictionary) => dictionary,
                None => columns[places[k]].data_page_offset,
            }
            &&& ranges[k].end == ranges[k].start + columns[places[k]].compressed_size
        } by {
            if k < earlier.len() {
                assert(0 <= earlier[k] < front.len());
                assert(front[earlier[k]] == columns[places[k]]);
            } else {
                assert(chunk_valid(columns[last]));
            }
        }
        assert forall|i: int| 0 <= i < columns.len() implies (#[trigger] places.contains(
            i,
        ) <==> reads_leaf(
            projection,
            i,
        )) by {
            if i < last {
                if earlier.contains(i) {
                    let k = choose|k: int| 0 <= k < earlier.len() && earlier[k] == i;
                    assert(places[k] == i);
                }
                if places.contains(i) {
                    let k = choose|k: int| 0 <= k < places.len() && places[k] == i;
                    assert(earlier[k] == i);
                }
            } else if read {
                assert(places[places.len() - 1] == i);
            } else if places.contains(i) {
                let k = choose|k: int| 0 <= k < places.len() && places[k] == i;
                assert(earlier[k] < front.len());
            }
        }
        places
    }
}

} // verus!

//! Access plans in the form in which a decoder takes them.

use crate::access_plan::{lemma_scanned, scanned, AccessModel, ParquetAccessPlan, RowGroupAccess};
use crate::cursor::RunCursor;
use crate::error::PlanError;
use crate::metadata::RowGroupMetaData;
use crate::selection::{
    covered_rows, flags, lemma_runs_mask_add, lemma_runs_mask_push, runs_mask, selection_from_runs,
    selection_mask, selection_runs,
};
use parquet::arrow::arrow_reader::RowSelection;
use vstd::prelude::*;

verus! {

/// The row groups that a decoder reads, and the rows of them.
#[derive(Debug)]
pub struct PreparedAccessPlan {
    /// The row groups, in reading order.
    pub row_group_indexes: Vec<usize>,
    /// The rows that are read of these row groups, laid end to end. `None` where
    /// all are.
    pub row_selection: Option<RowSelection>,
}

/// The row groups that a decoder reads, with the selection given by its mask.
#[verifier::ext_equal]
pub struct PreparedModel {
    /// The row groups, in reading order.
    pub indexes: Seq<usize>,
    /// A flag for each row of these row groups, laid end to end.
    pub mask: Option<Seq<bool>>,
}

impl View for PreparedAccessPlan {
    type V = PreparedModel;

    open spec fn view(&self) -> PreparedModel {
        PreparedModel {
            indexes: self.row_group_indexes@,
            mask: match self.row_selection {
                Some(selection) => Some(selection_mask(selection)),
                None => None,
            },
        }
    }
}

/// The number of rows in the row groups at `indexes`.
pub open spec fn rows_at(indexes: Seq<usize>, groups: Seq<RowGroupMetaData>) -> nat
    decreases indexes.len(),
{
    if indexes.len() == 0 {
        0
    } else {
        rows_at(indexes.drop_last(), groups) + groups[indexes.last() as int].num_rows as nat
    }
}

/// A mask over the row groups at `indexes`, taken row group by row group from the
/// last to the first.
pub open spec fn reversed_mask(
    mask: Seq<bool>,
    indexes: Seq<usize>,
    groups: Seq<RowGroupMetaData>,
) -> Seq<bool>
    decreases indexes.len(),
{
    if indexes.len() == 0 {
        Seq::empty()
    } else {
        let before = mask.len() - groups[indexes.last() as int].num_rows;
        mask.skip(before) + reversed_mask(mask.take(before), indexes.drop_last(), groups)
    }
}

impl PreparedModel {
    /// The row groups are row groups of the file, each at most once, and a
    /// selection covers their rows.
    pub open spec fn wf(self, groups: Seq<RowGroupMetaData>) -> bool {
        &&& self.indexes.no_duplicates()
        &&& forall|k: int|
            0 <= k < self.indexes.len() ==> (#[trigger] self.indexes[k]) < groups.len()
        &&& self.mask matches Some(mask) ==> mask.len() == rows_at(self.indexes, groups)
    }

    /// The plan that reads the row groups from the last to the first.
    pub open spec fn reversed(self, groups: Seq<RowGroupMetaData>) -> PreparedModel {
        PreparedModel {
            indexes: self.indexes.reverse(),
            mask: match self.mask {
                Some(mask) => Some(reversed_mask(mask, self.indexes, groups)),
                None => None,
            },
        }
    }

    /// The plan that reads the row groups in the given order of their places. One
    /// with a selection, or of at most one row group, stays as it is.
    pub open spec fn reordered(self, order: Option<Seq<usize>>) -> PreparedModel {
        match order {
            Some(order) => if self.mask is Some || self.indexes.len() <= 1 {
                self
            } else {
                PreparedModel {
                    indexes: Seq::new(
                        self.indexes.len(),
                        |k: int| self.indexes[order[k] as int],
                    ),
                    mask: None,
                }
            },
            None => self,
        }
    }
}

/// The flags of the rows that a decoder sees of a row group.
pub open spec fn seen_rows(access: AccessModel, num_rows: nat) -> Seq<bool> {
    match access {
        AccessModel::Skip => Seq::empty(),
        AccessModel::Scan => flags(num_rows, true),
        AccessModel::Selection(mask) => mask,
    }
}

/// The flags of the rows that a decoder sees of all row groups.
pub open spec fn seen_mask(
    accesses: Seq<AccessModel>,
    groups: Seq<RowGroupMetaData>,
) -> Seq<bool>
    decreases accesses.len(),
{
    if accesses.len() == 0 {
        Seq::empty()
    } else {
        let last = accesses.len() - 1;
        seen_mask(accesses.drop_last(), groups) + seen_rows(
            accesses[last],
            groups[last].num_rows as nat,
        )
    }
}

/// Whether the row group at `i` has a selection that does not cover its rows.
pub open spec fn miscovered(
    accesses: Seq<AccessModel>,
    groups: Seq<RowGroupMetaData>,
    i: int,
) -> bool {
    accesses[i] matches AccessModel::Selection(mask) && mask.len() != groups[i].num_rows
}

/// Whether any row group has a selection.
pub open spec fn any_selection(accesses: Seq<AccessModel>) -> bool {
    exists|i: int| 0 <= i < accesses.len() && (#[trigger] accesses[i]) is Selection
}

/// Whether every selection covers exactly the rows of its row group.
pub open spec fn all_covered(accesses: Seq<AccessModel>, groups: Seq<RowGroupMetaData>) -> bool {
    forall|i: int| 0 <= i < accesses.len() ==> !#[trigger] miscovered(accesses, groups, i)
}

/// A plan in the form in which a decoder takes it: without any selection no mask is
/// needed.
pub open spec fn prepared_model(
    accesses: Seq<AccessModel>,
    groups: Seq<RowGroupMetaData>,
) -> PreparedModel {
    PreparedModel {
        indexes: scanned(accesses),
        mask: if any_selection(accesses) {
            Some(seen_mask(accesses, groups))
        } else {
            None
        },
    }
}

/// Whether `error` says that the first selection that does not cover the rows of
/// its row group does not.
pub open spec fn prepare_fails(
    accesses: Seq<AccessModel>,
    groups: Seq<RowGroupMetaData>,
    error: PlanError,
) -> bool {
    exists|i: int|
        {
            &&& 0 <= i < accesses.len()
            &&& #[trigger] miscovered(accesses, groups, i)
            &&& forall|j: int| 0 <= j < i ==> !#[trigger] miscovered(accesses, groups, j)
            &&& error == PlanError::RowGroupSelectionLength {
                row_group: i as usize,
                row_group_rows: groups[i].num_rows,
                selection_rows: accesses[i]->Selection_0.len() as u128,
            }
        }
}

/// Whether any of `accesses` is a selection.
fn has_selection(accesses: &Vec<RowGroupAccess>) -> (found: bool)
    ensures
        found == any_selection(accesses@.map_values(|access: RowGroupAccess| access@)),
{
    let ghost models = accesses@.map_values(|access: RowGroupAccess| access@);
    let mut i: usize = 0;
    while i < accesses.len()
        invariant
            i <= accesses.len(),
            models == accesses@.map_values(|access: RowGroupAccess| access@),
            forall|j: int| 0 <= j < i ==> !((#[trigger] models[j]) is Selection),
        decreases accesses.len() - i,
    {
        match &accesses[i] {
            RowGroupAccess::Selection(_) => {
                assert(models[i as int] is Selection);
                return true;
            },
            _ => {},
        }
        i += 1;
    }
    false
}

impl ParquetAccessPlan {
    /// Brings the plan into the form in which a decoder takes it.
    ///
    /// Fails where the selection of a row group does not cover exactly its rows.
    pub fn prepare(self, groups: &Vec<RowGroupMetaData>) -> (prepared: Result<
        PreparedAccessPlan,
        PlanError,
    >)
        requires
            groups@.len() == self@.groups.len(),
            any_selection(self@.groups) ==> rows_at(scanned(self@.groups), groups@) <= usize::MAX,
        ensures
            match prepared {
                Ok(plan) => {
                    &&& all_covered(self@.groups, groups@)
                    &&& plan@.wf(groups@)
                    &&& plan@ == prepared_model(self@.groups, groups@)
                },
                Err(error) => prepare_fails(self@.groups, groups@, error),
            },
    {
        proof {
            use_type_invariant(&self);
        }
        let ghost accesses = self@.groups;
        let row_group_indexes = self.row_group_indexes();
        proof {
            lemma_scanned(accesses);
        }
        if !has_selection(self.inner()) {
            assert forall|i: int| 0 <= i < groups@.len() implies !#[trigger] miscovered(
                accesses,
                groups@,
                i,
            ) by {
                assert(!(accesses[i] is Selection));
            }
            return Ok(PreparedAccessPlan { row_group_indexes, row_selection: None });
        }
        let mut runs: Vec<(usize, bool)> = Vec::new();
        let mut i: usize = 0;
        proof {
            assert(accesses.take(0) =~= Seq::<AccessModel>::empty());
        }
        while i < groups.len()
            invariant
                i <= groups@.len(),
                accesses == self@.groups,
                groups@.len() == accesses.len(),
                forall|j: int| 0 <= j < i ==> !#[trigger] miscovered(accesses, groups@, j),
                runs_mask(runs@) == seen_mask(accesses.take(i as int), groups@),
            decreases groups@.len() - i,
        {
            let accesses_now = self.inner();
            let ghost earlier = runs@;
            proof {
                assert(accesses[i as int] == accesses_now@[i as int]@);
                assert(accesses.take(i + 1).drop_last() =~= accesses.take(i as int));
            }
            match &accesses_now[i] {
                RowGroupAccess::Skip => {
                    proof {
                        assert(seen_mask(accesses.take(i + 1), groups@) =~= seen_mask(
                            accesses.take(i as int),
                            groups@,
                        ));
                    }
                },
                RowGroupAccess::Scan => {
                    runs.push((groups[i].num_rows, false));
                    proof {
                        lemma_runs_mask_push(earlier, (groups@[i as int].num_rows, false));
                    }
                },
                RowGroupAccess::Selection(selection) => {
                    let selection_rows = covered_rows(selection);
                    if selection_rows != groups[i].num_rows as u128 {
                        assert(miscovered(accesses, groups@, i as int));
                        return Err(
                            PlanError::RowGroupSelectionLength {
                                row_group: i,
                                row_group_rows: groups[i].num_rows,
                                selection_rows,
                            },
                        );
                    }
                    let mut more = selection_runs(selection);
                    proof {
                        lemma_runs_mask_add(earlier, more@);
                    }
                    runs.append(&mut more);
                },
            }
            i += 1;
        }
        proof {
            assert(accesses.take(i as int) =~= accesses);
            lemma_seen_rows(accesses, groups@);
        }
        Ok(PreparedAccessPlan { row_group_indexes, row_selection: Some(selection_from_runs(runs)) })
    }
}

/// A decoder sees the rows of the row groups that are read.
pub proof fn lemma_seen_rows(accesses: Seq<AccessModel>, groups: Seq<RowGroupMetaData>)
    requires
        accesses.len() <= groups.len(),
        groups.len() <= usize::MAX,
        forall|i: int| 0 <= i < accesses.len() ==> !#[trigger] miscovered(accesses, groups, i),
    ensures
        seen_mask(accesses, groups).len() == rows_at(scanned(accesses), groups),
    decreases accesses.len(),
{
    if accesses.len() > 0 {
        let front = accesses.drop_last();
        let last = accesses.len() - 1;
        assert(!miscovered(accesses, groups, last));
        assert forall|i: int| 0 <= i < front.len() implies !#[trigger] miscovered(
            front,
            groups,
            i,
        ) by {
            assert(!miscovered(accesses, groups, i));
        }
        lemma_seen_rows(front, groups);
        if !(accesses[last] is Skip) {
            assert(scanned(accesses).drop_last() =~= scanned(front));
        }
    }
}

impl PreparedAccessPlan {
    /// Reads the row groups in the order `order` of their places, such as by their
    /// least values. Without an order the plan stays as it is, and so does one with
    /// a selection, which would not fit the new order, or of at most one row group.
    pub fn reorder(self, order: &Option<Vec<usize>>, groups: &Vec<RowGroupMetaData>) -> (reordered:
        Self)
        requires
            self@.wf(groups@),
            order matches Some(order) ==> {
                &&& order@.len() == self@.indexes.len()
                &&& order@.no_duplicates()
                &&& forall|k: int|
                    0 <= k < order@.len() ==> (#[trigger] order@[k]) < self@.indexes.len()
            },
        ensures
            reordered@.wf(groups@),
            reordered@ == self@.reordered(
                match *order {
                    Some(order) => Some(order@),
                    None => None,
                },
            ),
    {
        if self.row_selection.is_some() || self.row_group_indexes.len() <= 1 {
            return self;
        }
        match order {
            None => self,
            Some(order) => {
                let mut row_group_indexes: Vec<usize> = Vec::new();
                let mut k: usize = 0;
                while k < order.len()
                    invariant
                        k <= order@.len(),
                        row_group_indexes@.len() == k,
                        order@.len() == self@.indexes.len(),
                        forall|j: int|
                            0 <= j < order@.len() ==> (#[trigger] order@[j]) < self@.indexes.len(),
                        forall|j: int|
                            0 <= j < k ==> (#[trigger] row_group_indexes@[j])
                                == self@.indexes[order@[j] as int],
                    decreases order@.len() - k,
                {
                    row_group_indexes.push(self.row_group_indexes[order[k]]);
                    k += 1;
                }
                let reordered = PreparedAccessPlan { row_group_indexes, row_selection: None };
                assert(reordered@ =~= self@.reordered(Some(order@)));
                assert forall|k: int| 0 <= k < reordered@.indexes.len() implies (
                #[trigger] reordered@.indexes[k]) < groups@.len() by {
                    assert(self@.indexes[order@[k] as int] < groups@.len());
                }
                reordered
            },
        }
    }

    /// Reads the row groups from the last to the first. A selection follows them.
    pub fn reverse(self, groups: &Vec<RowGroupMetaData>) -> (reversed: Self)
        requires
            self@.wf(groups@),
            self@.mask is Some ==> rows_at(self@.indexes, groups@) <= usize::MAX,
        ensures
            reversed@.wf(groups@),
            reversed@ == self@.reversed(groups@),
    {
        let ghost indexes = self@.indexes;
        let mut row_group_indexes: Vec<usize> = Vec::new();
        let mut k: usize = self.row_group_indexes.len();
        while k > 0
            invariant
                k <= self.row_group_indexes@.len(),
                row_group_indexes@.len() == self.row_group_indexes@.len() - k,
                forall|j: int|
                    0 <= j < row_group_indexes@.len() ==> (#[trigger] row_group_indexes@[j])
                        == self.row_group_indexes@.reverse()[j],
            decreases k,
        {
            k -= 1;
            row_group_indexes.push(self.row_group_indexes[k]);
        }
        proof {
            assert(row_group_indexes@ =~= indexes.reverse());
            lemma_reversed_indexes(indexes, groups@);
            match self@.mask {
                Some(mask) => lemma_reversed_mask_len(mask, indexes, groups@),
                None => {},
            }
        }
        match &self.row_selection {
            None => PreparedAccessPlan { row_group_indexes, row_selection: None },
            Some(selection) => {
                let ghost mask = selection_mask(*selection);
                let mut cursor = RunCursor::new(selection_runs(selection));
                let mut runs: Vec<(usize, bool)> = Vec::new();
                let ghost mut seen: int = 0;
                let mut i: usize = 0;
                proof {
                    assert(indexes.take(0) =~= Seq::<usize>::empty());
                    assert(mask.skip(0) =~= mask);
                }
                while i < self.row_group_indexes.len()
                    invariant
                        i <= indexes.len(),
                        indexes == self.row_group_indexes@,
                        forall|k: int|
                            0 <= k < indexes.len() ==> (#[trigger] indexes[k]) < groups@.len(),
                        mask.len() == rows_at(indexes, groups@),
                        seen == rows_at(indexes.take(i as int), groups@),
                        0 <= seen <= mask.len(),
                        cursor.wf(),
                        cursor.rest() == mask.skip(seen),
                        runs_mask(runs@) == reversed_mask(
                            mask.take(seen),
                            indexes.take(i as int),
                            groups@,
                        ),
                    decreases indexes.len() - i,
                {
                    let rows = groups[self.row_group_indexes[i]].num_rows;
                    proof {
                        lemma_rows_at_step(indexes, groups@, i as int);
                        assert(cursor.rest().take(rows as int) =~= mask.take(seen + rows).skip(
                            seen,
                        ));
                        assert(cursor.rest().skip(rows as int) =~= mask.skip(seen + rows));
                        assert(mask.take(seen + rows).take(seen) =~= mask.take(seen));
                        assert(indexes.take(i + 1).drop_last() =~= indexes.take(i as int));
                    }
                    let (mut fragments, _) = cursor.take(rows);
                    proof {
                        lemma_runs_mask_add(fragments@, runs@);
                        seen = seen + rows;
                    }
                    fragments.append(&mut runs);
                    runs = fragments;
                    i += 1;
                }
                proof {
                    assert(indexes.take(i as int) =~= indexes);
                    assert(mask.take(seen) =~= mask);
                }
                PreparedAccessPlan {
                    row_group_indexes,
                    row_selection: Some(selection_from_runs(runs)),
                }
            },
        }
    }
}

/// The rows of the first row groups and of the next one.
pub proof fn lemma_rows_at_step(indexes: Seq<usize>, groups: Seq<RowGroupMetaData>, at: int)
    requires
        0 <= at < indexes.len(),
    ensures
        rows_at(indexes.take(at + 1), groups) == rows_at(indexes.take(at), groups)
            + groups[indexes[at] as int].num_rows,
        rows_at(indexes.take(at + 1), groups) <= rows_at(indexes, groups),
    decreases indexes.len(),
{
    assert(indexes.take(at + 1).drop_last() =~= indexes.take(at));
    if at + 1 < indexes.len() {
        lemma_rows_at_step(indexes.drop_last(), groups, at);
        assert(indexes.drop_last().take(at + 1) =~= indexes.take(at + 1));
        assert(indexes.drop_last().take(at) =~= indexes.take(at));
    } else {
        assert(indexes.take(at + 1) =~= indexes);
    }
}

/// The rows of row groups in another place.
pub proof fn lemma_rows_at_first(first: usize, rest: Seq<usize>, groups: Seq<RowGroupMetaData>)
    ensures
        rows_at(seq![first] + rest, groups) == groups[first as int].num_rows + rows_at(
            rest,
            groups,
        ),
    decreases rest.len(),
{
    let whole = seq![first] + rest;
    if rest.len() > 0 {
        lemma_rows_at_first(first, rest.drop_last(), groups);
        assert(whole.drop_last() =~= seq![first] + rest.drop_last());
    } else {
        assert(whole.drop_last() =~= Seq::<usize>::empty());
        assert(rows_at(whole.drop_last(), groups) == 0);
    }
}

/// Reading row groups from the last to the first reads the same ones.
proof fn lemma_reversed_indexes(indexes: Seq<usize>, groups: Seq<RowGroupMetaData>)
    requires
        forall|k: int| 0 <= k < indexes.len() ==> (#[trigger] indexes[k]) < groups.len(),
    ensures
        rows_at(indexes.reverse(), groups) == rows_at(indexes, groups),
        indexes.no_duplicates() ==> indexes.reverse().no_duplicates(),
        forall|k: int|
            0 <= k < indexes.len() ==> (#[trigger] indexes.reverse()[k]) < groups.len(),
    decreases indexes.len(),
{
    if indexes.len() > 0 {
        lemma_reversed_indexes(indexes.drop_last(), groups);
        lemma_rows_at_first(indexes.last(), indexes.drop_last().reverse(), groups);
        assert(indexes.reverse() =~= seq![indexes.last()] + indexes.drop_last().reverse());
    } else {
        assert(indexes.reverse() =~= indexes);
    }
}

/// A mask covers as many rows when its row groups are reversed.
pub proof fn lemma_reversed_mask_len(
    mask: Seq<bool>,
    indexes: Seq<usize>,
    groups: Seq<RowGroupMetaData>,
)
    requires
        mask.len() == rows_at(indexes, groups),
    ensures
        reversed_mask(mask, indexes, groups).len() == mask.len(),
    decreases indexes.len(),
{
    if indexes.len() > 0 {
        let before = mask.len() - groups[indexes.last() as int].num_rows;
        lemma_reversed_mask_len(mask.take(before), indexes.drop_last(), groups);
    }
}

/// The stretch of the first row group comes last.
proof fn lemma_reversed_mask_first(
    head: Seq<bool>,
    tail: Seq<bool>,
    first: usize,
    rest: Seq<usize>,
    groups: Seq<RowGroupMetaData>,
)
    requires
        head.len() == groups[first as int].num_rows,
        tail.len() == rows_at(rest, groups),
    ensures
        reversed_mask(head + tail, seq![first] + rest, groups) == reversed_mask(
            tail,
            rest,
            groups,
        ) + head,
    decreases rest.len(),
{
    let mask = head + tail;
    let indexes = seq![first] + rest;
    if rest.len() == 0 {
        assert(indexes.drop_last() =~= Seq::<usize>::empty());
        assert(mask.skip(0) =~= head);
        assert(reversed_mask(mask.take(0), indexes.drop_last(), groups) =~= Seq::<bool>::empty());
        assert(reversed_mask(mask, indexes, groups) =~= head);
        assert(reversed_mask(tail, rest, groups) + head =~= head);
    } else {
        let rows = groups[rest.last() as int].num_rows;
        let before = tail.len() - rows;
        lemma_reversed_mask_first(head, tail.take(before), first, rest.drop_last(), groups);
        assert(indexes.drop_last() =~= seq![first] + rest.drop_last());
        assert(mask.take(mask.len() - rows) =~= head + tail.take(before));
        assert(mask.skip(mask.len() - rows) =~= tail.skip(before));
        assert(reversed_mask(mask, indexes, groups) =~= reversed_mask(tail, rest, groups) + head);
    }
}

/// Reversing a mask twice gives it back.
proof fn lemma_reversed_mask_twice(
    mask: Seq<bool>,
    indexes: Seq<usize>,
    groups: Seq<RowGroupMetaData>,
)
    requires
        mask.len() == rows_at(indexes, groups),
        forall|k: int| 0 <= k < indexes.len() ==> (#[trigger] indexes[k]) < groups.len(),
    ensures
        reversed_mask(reversed_mask(mask, indexes, groups), indexes.reverse(), groups) == mask,
    decreases indexes.len(),
{
    if indexes.len() == 0 {
        assert(mask =~= Seq::<bool>::empty());
    } else {
        let front = indexes.drop_last();
        let before = mask.len() - groups[indexes.last() as int].num_rows;
        lemma_reversed_mask_twice(mask.take(before), front, groups);
        lemma_reversed_mask_len(mask.take(before), front, groups);
        lemma_reversed_indexes(front, groups);
        lemma_reversed_mask_first(
            mask.skip(before),
            reversed_mask(mask.take(before), front, groups),
            indexes.last(),
            front.reverse(),
            groups,
        );
        assert(indexes.reverse() =~= seq![indexes.last()] + front.reverse());
        assert(mask.take(before) + mask.skip(before) =~= mask);
    }
}

/// A plan that is reversed twice is as it was.
pub proof fn law_reverse_is_an_involution(plan: PreparedModel, groups: Seq<RowGroupMetaData>)
    requires
        plan.wf(groups),
    ensures
        plan.reversed(groups).wf(groups),
        plan.reversed(groups).reversed(groups) == plan,
{
    lemma_reversed_indexes(plan.indexes, groups);
    assert(plan.indexes.reverse().reverse() =~= plan.indexes);
    match plan.mask {
        Some(mask) => {
            lemma_reversed_mask_len(mask, plan.indexes, groups);
            lemma_reversed_mask_twice(mask, plan.indexes, groups);
        },
        None => {},
    }
}

/// Whatever the order, the same row groups are read.
pub proof fn law_reorder_reads_the_same_row_groups(plan: PreparedModel, order: Seq<usize>)
    requires
        order.len() == plan.indexes.len(),
        order.no_duplicates(),
        forall|k: int| 0 <= k < order.len() ==> (#[trigger] order[k]) < plan.indexes.len(),
    ensures
        plan.reordered(Some(order)).indexes.to_multiset() == plan.indexes.to_multiset(),
{
    let reordered = plan.reordered(Some(order));
    if !(plan.mask is Some || plan.indexes.len() <= 1) {
        lemma_places(plan.indexes, order);
    }
}

/// The values at all places, in any order, are all the values.
proof fn lemma_places(values: Seq<usize>, order: Seq<usize>)
    requires
        order.len() == values.len(),
        order.no_duplicates(),
        forall|k: int| 0 <= k < order.len() ==> (#[trigger] order[k]) < values.len(),
    ensures
        Seq::new(values.len(), |k: int| values[order[k] as int]).to_multiset()
            == values.to_multiset(),
    decreases values.len(),
{
    let placed = Seq::new(values.len(), |k: int| values[order[k] as int]);
    if values.len() == 0 {
        assert(placed =~= values);
    } else {
        lemma_hits_last(order);
        let at = choose|at: int| 0 <= at < order.len() && order[at] == order.len() - 1;
        let front = values.drop_last();
        let rest = order.remove(at);
        assert forall|j: int, k: int| 0 <= j < k < rest.len() implies rest[j] != rest[k] by {}
        assert forall|k: int| 0 <= k < rest.len() implies (#[trigger] rest[k]) < front.len() by {
            let back = if k < at {
                k
            } else {
                k + 1
            };
            assert(rest[k] == order[back]);
            assert(order[back] < values.len());
        }
        lemma_places(front, rest);
        let fewer = Seq::new(front.len(), |k: int| front[rest[k] as int]);
        assert(placed.remove(at) =~= fewer);
        vstd::seq_lib::to_multiset_remove(placed, at);
        vstd::seq_lib::to_multiset_build(front, values.last());
        assert(front.push(values.last()) =~= values);
        assert(placed[at] == values.last());
        vstd::seq_lib::to_multiset_contains(placed, placed[at]);
        assert(placed.to_multiset() =~= values.to_multiset());
    }
}

/// As many different places as there are hit the last one.
proof fn lemma_hits_last(order: Seq<usize>)
    requires
        order.len() > 0,
        order.no_duplicates(),
        forall|k: int| 0 <= k < order.len() ==> (#[trigger] order[k]) < order.len(),
    ensures
        exists|at: int| 0 <= at < order.len() && order[at] == order.len() - 1,
{
    let last = order.len() - 1;
    if forall|at: int| 0 <= at < order.len() ==> order[at] != last {
        let places = order.to_set();
        order.unique_seq_to_set();
        let smaller = vstd::set_lib::set_int_range(0, last);
        let as_int = places.map(|place: usize| place as int);
        vstd::set_lib::lemma_int_range(0, last);
        vstd::set_lib::lemma_map_size(places, as_int, |place: usize| place as int);
        assert(as_int.subset_of(smaller));
        vstd::set_lib::lemma_len_subset(as_int, smaller);
    }
}

/// Row groups of a list that are counted once each have no more rows than all of it.
pub proof fn lemma_rows_at_within(
    indexes: Seq<usize>,
    whole: Seq<usize>,
    groups: Seq<RowGroupMetaData>,
)
    requires
        indexes.no_duplicates(),
        forall|k: int| 0 <= k < indexes.len() ==> whole.contains(#[trigger] indexes[k]),
    ensures
        rows_at(indexes, groups) <= rows_at(whole, groups),
    decreases whole.len(),
{
    if whole.len() == 0 {
        if indexes.len() > 0 {
            assert(whole.contains(indexes[0]));
        }
    } else {
        let fewer = whole.drop_last();
        if exists|at: int| 0 <= at < indexes.len() && indexes[at] == whole.last() {
            let at = choose|at: int| 0 <= at < indexes.len() && indexes[at] == whole.last();
            let rest = indexes.remove(at);
            lemma_rows_at_remove(indexes, groups, at);
            assert forall|k: int| 0 <= k < rest.len() implies fewer.contains(#[trigger] rest[k]) by {
                let back = if k < at {
                    k
                } else {
                    k + 1
                };
                assert(rest[k] == indexes[back]);
                lemma_not_last(whole, indexes[back]);
            }
            assert forall|j: int, k: int| 0 <= j < k < rest.len() implies rest[j] != rest[k] by {}
            lemma_rows_at_within(rest, fewer, groups);
        } else {
            assert forall|k: int| 0 <= k < indexes.len() implies fewer.contains(
                #[trigger] indexes[k],
            ) by {
                lemma_not_last(whole, indexes[k]);
            }
            lemma_rows_at_within(indexes, fewer, groups);
        }
    }
}

/// What a list holds and is not the last is in it before the last.
proof fn lemma_not_last(whole: Seq<usize>, index: usize)
    requires
        whole.contains(index),
        index != whole.last(),
    ensures
        whole.drop_last().contains(index),
{
    let at = choose|at: int| 0 <= at < whole.len() && whole[at] == index;
    assert(whole.drop_last()[at] == index);
}

/// The rows of row groups and of one that is left out of them.
proof fn lemma_rows_at_remove(indexes: Seq<usize>, groups: Seq<RowGroupMetaData>, at: int)
    requires
        0 <= at < indexes.len(),
    ensures
        rows_at(indexes, groups) == rows_at(indexes.remove(at), groups)
            + groups[indexes[at] as int].num_rows,
    decreases indexes.len(),
{
    if at == indexes.len() - 1 {
        assert(indexes.remove(at) =~= indexes.drop_last());
    } else {
        lemma_rows_at_remove(indexes.drop_last(), groups, at);
        assert(indexes.remove(at).drop_last() =~= indexes.drop_last().remove(at));
        assert(indexes.remove(at).last() == indexes.last());
    }
}

/// A plan cannot be prepared exactly where a selection does not cover the rows of its row
/// group, and then the first such row group is named, with its rows and those that the
/// selection covers.
pub proof fn law_a_plan_fails_at_the_first_selection_that_does_not_fit(
    accesses: Seq<AccessModel>,
    groups: Seq<RowGroupMetaData>,
    error: PlanError,
)
    requires
        accesses.len() == groups.len(),
        groups.len() <= usize::MAX,
        prepare_fails(accesses, groups, error),
    ensures
        !all_covered(accesses, groups),
        error matches PlanError::RowGroupSelectionLength {
            row_group,
            row_group_rows,
            selection_rows,
        } && {
            &&& row_group < groups.len()
            &&& row_group_rows == groups[row_group as int].num_rows
            &&& accesses[row_group as int] matches AccessModel::Selection(mask) && {
                &&& mask.len() != row_group_rows
                &&& mask.len() <= u128::MAX ==> selection_rows == mask.len()
            }
            &&& forall|i: int|
                0 <= i < row_group && (#[trigger] accesses[i]) is Selection
                    ==> accesses[i]->Selection_0.len() == groups[i].num_rows
        },
{
    let i = choose|i: int|
        {
            &&& 0 <= i < accesses.len()
            &&& #[trigger] miscovered(accesses, groups, i)
            &&& forall|j: int| 0 <= j < i ==> !#[trigger] miscovered(accesses, groups, j)
            &&& error == PlanError::RowGroupSelectionLength {
                row_group: i as usize,
                row_group_rows: groups[i].num_rows,
                selection_rows: accesses[i]->Selection_0.len() as u128,
            }
        };
    assert(miscovered(accesses, groups, i));
    assert forall|j: int| 0 <= j < i && (#[trigger] accesses[j]) is Selection implies accesses[j]->Selection_0.len()
        == groups[j].num_rows by {
        assert(!miscovered(accesses, groups, j));
    }
}

} // verus!

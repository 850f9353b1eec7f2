//! Which row groups of a file are read, and which rows of them.

use crate::cursor::RunCursor;
use crate::error::PlanError;
use crate::metadata::{
    lemma_row_offset_bound, lemma_row_offset_step, row_offset, total_rows, RowGroupMetaData,
};
use crate::selection::{
    clone_selection, covered_by_runs, flags, selected_count, selection_from_runs, selection_mask,
    selection_runs,
};
use parquet::arrow::arrow_reader::RowSelection;
use vstd::prelude::*;

verus! {

/// How a row group is read.
#[derive(Debug)]
pub enum RowGroupAccess {
    /// The row group is not read.
    Skip,
    /// All rows of the row group are read.
    Scan,
    /// Some rows of the row group are read.
    Selection(RowSelection),
}

/// How a row group is read, with a selection given by its mask.
#[verifier::ext_equal]
pub enum AccessModel {
    /// The row group is not read.
    Skip,
    /// All rows of the row group are read.
    Scan,
    /// The flagged rows of the row group are read.
    Selection(Seq<bool>),
}

impl View for RowGroupAccess {
    type V = AccessModel;

    open spec fn view(&self) -> AccessModel {
        match *self {
            RowGroupAccess::Skip => AccessModel::Skip,
            RowGroupAccess::Scan => AccessModel::Scan,
            RowGroupAccess::Selection(selection) => AccessModel::Selection(
                selection_mask(selection),
            ),
        }
    }
}

impl Clone for RowGroupAccess {
    fn clone(&self) -> (copy: Self)
        ensures
            copy@ == self@,
    {
        match self {
            RowGroupAccess::Skip => RowGroupAccess::Skip,
            RowGroupAccess::Scan => RowGroupAccess::Scan,
            RowGroupAccess::Selection(selection) => RowGroupAccess::Selection(
                clone_selection(selection),
            ),
        }
    }
}

impl RowGroupAccess {
    /// Whether any of the row group is read.
    pub fn should_scan(&self) -> (scanned: bool)
        ensures
            scanned == !(self@ is Skip),
    {
        match self {
            RowGroupAccess::Skip => false,
            RowGroupAccess::Scan => true,
            RowGroupAccess::Selection(_) => true,
        }
    }
}

/// The access that reads the flagged rows of a row group: none is a skip and
/// all is a scan.
pub open spec fn access_for(mask: Seq<bool>) -> AccessModel {
    if selected_count(mask) == 0 {
        AccessModel::Skip
    } else if selected_count(mask) == mask.len() {
        AccessModel::Scan
    } else {
        AccessModel::Selection(mask)
    }
}

/// The indexes of the row groups that are read, in file order.
pub open spec fn scanned(groups: Seq<AccessModel>) -> Seq<usize>
    decreases groups.len(),
{
    if groups.len() == 0 {
        Seq::empty()
    } else {
        let rest = scanned(groups.drop_last());
        if groups.last() is Skip {
            rest
        } else {
            rest.push((groups.len() - 1) as usize)
        }
    }
}

/// The indexes of the row groups that are read rise strictly, and are those of
/// the row groups that are not skipped.
pub proof fn lemma_scanned(groups: Seq<AccessModel>)
    requires
        groups.len() <= usize::MAX,
    ensures
        forall|k: int|
            0 <= k < scanned(groups).len() ==> (#[trigger] scanned(groups)[k]) < groups.len()
                && !(groups[scanned(groups)[k] as int] is Skip),
        forall|j: int, k: int|
            0 <= j < k < scanned(groups).len() ==> (#[trigger] scanned(groups)[j]) < (
            #[trigger] scanned(groups)[k]),
        forall|i: int|
            0 <= i < groups.len() && !(#[trigger] groups[i] is Skip) ==> scanned(groups).contains(
                i as usize,
            ),
        scanned(groups).len() <= groups.len(),
    decreases groups.len(),
{
    if groups.len() > 0 {
        let front = groups.drop_last();
        lemma_scanned(front);
        assert forall|i: int| 0 <= i < groups.len() && !(#[trigger] groups[i] is Skip) implies scanned(
            groups,
        ).contains(i as usize) by {
            if i < front.len() {
                assert(!(front[i] is Skip));
                let k = choose|k: int|
                    0 <= k < scanned(front).len() && scanned(front)[k] == i as usize;
                assert(scanned(groups)[k] == i as usize);
            } else {
                assert(scanned(groups).last() == i as usize);
            }
        }
    }
}

/// What an access plan says of a file.
#[verifier::ext_equal]
pub struct PlanModel {
    /// How each row group is read.
    pub groups: Seq<AccessModel>,
    /// Whether all rows of each row group are known to match the predicate.
    pub fully_matched: Seq<bool>,
}

impl PlanModel {
    /// Both lists are for the same row groups, and a fully matched row group is
    /// read.
    pub open spec fn wf(self) -> bool {
        &&& self.groups.len() == self.fully_matched.len()
        &&& self.groups.len() <= usize::MAX
        &&& forall|i: int|
            0 <= i < self.groups.len() && #[trigger] self.fully_matched[i] ==> !(
            self.groups[i] is Skip)
    }

    /// A plan of `groups` of which none is known to match.
    pub open spec fn unmatched(groups: Seq<AccessModel>) -> PlanModel {
        PlanModel { groups, fully_matched: flags(groups.len(), false) }
    }

    /// The plan with the access of one row group replaced. A skipped row group
    /// is no longer fully matched.
    pub open spec fn with_access(self, index: int, access: AccessModel) -> PlanModel {
        PlanModel {
            groups: self.groups.update(index, access),
            fully_matched: if access is Skip {
                self.fully_matched.update(index, false)
            } else {
                self.fully_matched
            },
        }
    }

    /// The plan with one row group marked as fully matched, where it is read.
    pub open spec fn with_match(self, index: int) -> PlanModel {
        PlanModel {
            groups: self.groups,
            fully_matched: if self.groups[index] is Skip {
                self.fully_matched
            } else {
                self.fully_matched.update(index, true)
            },
        }
    }
}

/// A selection of the rows and row groups of a file to decode.
#[derive(Debug)]
pub struct ParquetAccessPlan {
    /// How each row group is read.
    row_groups: Vec<RowGroupAccess>,
    /// Whether all rows of each row group are known to match the predicate.
    fully_matched: Vec<bool>,
}

impl View for ParquetAccessPlan {
    type V = PlanModel;

    closed spec fn view(&self) -> PlanModel {
        PlanModel {
            groups: self.row_groups@.map_values(|access: RowGroupAccess| access@),
            fully_matched: self.fully_matched@,
        }
    }
}

impl Clone for ParquetAccessPlan {
    fn clone(&self) -> (copy: Self)
        ensures
            copy@ == self@,
    {
        let mut row_groups: Vec<RowGroupAccess> = Vec::new();
        let mut i: usize = 0;
        while i < self.row_groups.len()
            invariant
                i <= self.row_groups.len(),
                row_groups.len() == i,
                forall|j: int| 0 <= j < i ==> (#[trigger] row_groups@[j])@ == self.row_groups@[j]@,
            decreases self.row_groups.len() - i,
        {
            row_groups.push(self.row_groups[i].clone());
            i += 1;
        }
        let fully_matched = self.fully_matched.clone();
        proof {
            use_type_invariant(self);
            let copied = PlanModel {
                groups: row_groups@.map_values(|access: RowGroupAccess| access@),
                fully_matched: fully_matched@,
            };
            assert(copied =~= self@);
        }
        ParquetAccessPlan { row_groups, fully_matched }
    }
}

impl ParquetAccessPlan {
    /// The plan is consistent, whatever was done to it.
    #[verifier::type_invariant]
    pub open spec fn wf(&self) -> bool {
        self@.wf()
    }

    /// A plan that reads every row group.
    pub fn new_all(row_group_count: usize) -> (plan: Self)
        ensures
            plan.wf(),
            plan@ == PlanModel::unmatched(
                Seq::new(row_group_count as nat, |i: int| AccessModel::Scan),
            ),
    {
        let mut row_groups: Vec<RowGroupAccess> = Vec::new();
        let mut i: usize = 0;
        while i < row_group_count
            invariant
                i <= row_group_count,
                row_groups.len() == i,
                forall|j: int| 0 <= j < i ==> (#[trigger] row_groups@[j])@ == AccessModel::Scan,
            decreases row_group_count - i,
        {
            row_groups.push(RowGroupAccess::Scan);
            i += 1;
        }
        let plan = Self::new(row_groups);
        assert(plan@.groups =~= Seq::new(row_group_count as nat, |i: int| AccessModel::Scan));
        plan
    }

    /// A plan that reads no row group.
    pub fn new_none(row_group_count: usize) -> (plan: Self)
        ensures
            plan.wf(),
            plan@ == PlanModel::unmatched(
                Seq::new(row_group_count as nat, |i: int| AccessModel::Skip),
            ),
    {
        let mut row_groups: Vec<RowGroupAccess> = Vec::new();
        let mut i: usize = 0;
        while i < row_group_count
            invariant
                i <= row_group_count,
                row_groups.len() == i,
                forall|j: int| 0 <= j < i ==> (#[trigger] row_groups@[j])@ == AccessModel::Skip,
            decreases row_group_count - i,
        {
            row_groups.push(RowGroupAccess::Skip);
            i += 1;
        }
        let plan = Self::new(row_groups);
        assert(plan@.groups =~= Seq::new(row_group_count as nat, |i: int| AccessModel::Skip));
        plan
    }

    /// A plan with the given access for each row group.
    pub fn new(row_groups: Vec<RowGroupAccess>) -> (plan: Self)
        ensures
            plan.wf(),
            plan@ == PlanModel::unmatched(
                row_groups@.map_values(|access: RowGroupAccess| access@),
            ),
    {
        let mut fully_matched: Vec<bool> = Vec::new();
        let mut i: usize = 0;
        while i < row_groups.len()
            invariant
                i <= row_groups.len(),
                fully_matched@ =~= flags(i as nat, false),
            decreases row_groups.len() - i,
        {
            fully_matched.push(false);
            i += 1;
        }
        ParquetAccessPlan { row_groups, fully_matched }
    }

    /// The number of row groups in the plan, read or not.
    pub fn len(&self) -> (len: usize)
        ensures
            len == self@.groups.len(),
    {
        self.row_groups.len()
    }

    /// Whether the plan has no row groups at all.
    pub fn is_empty(&self) -> (empty: bool)
        ensures
            empty == (self@.groups.len() == 0),
    {
        self.row_groups.len() == 0
    }

    /// The access of each row group.
    pub fn inner(&self) -> (accesses: &Vec<RowGroupAccess>)
        ensures
            accesses@.map_values(|access: RowGroupAccess| access@) == self@.groups,
    {
        &self.row_groups
    }

    /// The access of each row group.
    pub fn into_inner(self) -> (accesses: Vec<RowGroupAccess>)
        ensures
            accesses@.map_values(|access: RowGroupAccess| access@) == self@.groups,
    {
        self.row_groups
    }

    /// Takes the lists out of the plan, which is left without row groups.
    fn take(&mut self) -> (lists: (Vec<RowGroupAccess>, Vec<bool>))
        ensures
            lists.0@.map_values(|access: RowGroupAccess| access@) == old(self)@.groups,
            lists.1@ == old(self)@.fully_matched,
            final(self).wf(),
    {
        let mut taken = Self::new(Vec::new());
        std::mem::swap(self, &mut taken);
        (taken.row_groups, taken.fully_matched)
    }

    /// Sets how the row group at `idx` is read.
    pub fn set(&mut self, idx: usize, access: RowGroupAccess)
        requires
            idx < old(self)@.groups.len(),
        ensures
            final(self).wf(),
            final(self)@ == old(self)@.with_access(idx as int, access@),
    {
        proof {
            use_type_invariant(&*self);
        }
        let should_scan = access.should_scan();
        let (mut row_groups, mut fully_matched) = self.take();
        row_groups.set(idx, access);
        if !should_scan {
            fully_matched.set(idx, false);
        }
        let ghost changed = PlanModel {
            groups: row_groups@.map_values(|access: RowGroupAccess| access@),
            fully_matched: fully_matched@,
        };
        assert(changed =~= old(self)@.with_access(idx as int, access@));
        *self = ParquetAccessPlan { row_groups, fully_matched };
    }

    /// Stops reading the row group at `idx`.
    pub fn skip(&mut self, idx: usize)
        requires
            idx < old(self)@.groups.len(),
        ensures
            final(self).wf(),
            final(self)@ == old(self)@.with_access(idx as int, AccessModel::Skip),
    {
        self.set(idx, RowGroupAccess::Skip);
    }

    /// Whether any of the row group at `idx` is read.
    pub fn should_scan(&self, idx: usize) -> (scanned: bool)
        requires
            idx < self@.groups.len(),
        ensures
            scanned == !(self@.groups[idx as int] is Skip),
    {
        self.row_groups[idx].should_scan()
    }

    /// Marks the row group at `idx` as fully matched, where it is read.
    pub fn mark_fully_matched(&mut self, idx: usize)
        requires
            idx < old(self)@.groups.len(),
        ensures
            final(self).wf(),
            final(self)@ == old(self)@.with_match(idx as int),
    {
        proof {
            use_type_invariant(&*self);
        }
        if self.should_scan(idx) {
            let (row_groups, mut fully_matched) = self.take();
            fully_matched.set(idx, true);
            let ghost changed = PlanModel {
                groups: row_groups@.map_values(|access: RowGroupAccess| access@),
                fully_matched: fully_matched@,
            };
            assert(changed =~= old(self)@.with_match(idx as int));
            *self = ParquetAccessPlan { row_groups, fully_matched };
        }
    }

    /// Whether the row group at `idx` is read and fully matched.
    pub fn is_fully_matched(&self, idx: usize) -> (matched: bool)
        requires
            idx < self@.groups.len(),
        ensures
            matched == self@.fully_matched[idx as int],
    {
        proof {
            use_type_invariant(self);
        }
        self.should_scan(idx) && self.fully_matched[idx]
    }

    /// Whether each row group is fully matched.
    pub fn fully_matched(&self) -> (matched: &Vec<bool>)
        ensures
            matched@ == self@.fully_matched,
    {
        &self.fully_matched
    }

    /// The indexes of the row groups that are read, in file order.
    pub fn row_group_indexes(&self) -> (indexes: Vec<usize>)
        ensures
            indexes@ == scanned(self@.groups),
    {
        let mut indexes: Vec<usize> = Vec::new();
        let mut i: usize = 0;
        proof {
            assert(self@.groups.take(0) =~= Seq::<AccessModel>::empty());
        }
        while i < self.row_groups.len()
            invariant
                i <= self.row_groups.len(),
                indexes@ == scanned(self@.groups.take(i as int)),
            decreases self.row_groups.len() - i,
        {
            proof {
                assert(self@.groups.take(i + 1).drop_last() =~= self@.groups.take(i as int));
            }
            if self.row_groups[i].should_scan() {
                indexes.push(i);
            }
            i += 1;
        }
        proof {
            assert(self@.groups.take(i as int) =~= self@.groups);
        }
        indexes
    }
}

/// How each row group is read under a file-level mask: the row group at `i`
/// under its own stretch of the mask.
pub open spec fn split_mask(mask: Seq<bool>, groups: Seq<RowGroupMetaData>) -> Seq<AccessModel> {
    Seq::new(
        groups.len(),
        |i: int|
            access_for(
                mask.subrange(row_offset(groups, i) as int, row_offset(groups, i + 1) as int),
            ),
    )
}

/// The number of rows in all of `groups`.
pub fn count_rows(groups: &Vec<RowGroupMetaData>) -> (rows: u128)
    ensures
        rows == total_rows(groups@),
{
    let mut rows: u128 = 0;
    let mut i: usize = 0;
    proof {
        assert(groups@.take(0) =~= Seq::<RowGroupMetaData>::empty());
    }
    while i < groups.len()
        invariant
            i <= groups.len(),
            rows == row_offset(groups@, i as int),
            rows <= i * usize::MAX,
        decreases groups.len() - i,
    {
        proof {
            lemma_row_offset_step(groups@, i as int);
            assert((i + 1) * usize::MAX == i * usize::MAX + usize::MAX) by (nonlinear_arith);
            assert((i + 1) * usize::MAX <= u128::MAX) by (nonlinear_arith)
                requires
                    i + 1 <= usize::MAX,
                    usize::MAX <= 0xffff_ffff_ffff_ffff,
            ;
        }
        rows = rows + groups[i].num_rows as u128;
        i += 1;
    }
    proof {
        assert(groups@.take(i as int) =~= groups@);
    }
    rows
}

impl ParquetAccessPlan {
    /// A plan that reads the rows of a file-level selection. A row group of
    /// which no row is selected is skipped, one of which all are is scanned.
    ///
    /// Fails where the selection does not cover exactly the rows of the file.
    pub fn try_new_from_overall_row_selection(
        selection: &RowSelection,
        groups: &Vec<RowGroupMetaData>,
    ) -> (plan: Result<Self, PlanError>)
        ensures
            match plan {
                Ok(plan) => {
                    &&& selection_mask(*selection).len() == total_rows(groups@)
                    &&& plan.wf()
                    &&& plan@ == PlanModel::unmatched(
                        split_mask(selection_mask(*selection), groups@),
                    )
                },
                Err(error) => {
                    &&& selection_mask(*selection).len() != total_rows(groups@)
                    &&& error == PlanError::RowSelectionLength {
                        file_rows: total_rows(groups@) as u128,
                        selection_rows: selection_mask(*selection).len() as u128,
                    }
                },
            },
    {
        let runs = selection_runs(selection);
        let file_rows = count_rows(groups);
        let selection_rows = covered_by_runs(&runs);
        if selection_rows != file_rows {
            return Err(PlanError::RowSelectionLength { file_rows, selection_rows });
        }
        let ghost mask = selection_mask(*selection);
        let mut cursor = RunCursor::new(runs);
        let mut row_groups: Vec<RowGroupAccess> = Vec::new();
        let mut i: usize = 0;
        proof {
            assert(groups@.take(0) =~= Seq::<RowGroupMetaData>::empty());
            assert(mask.skip(0) =~= mask);
        }
        while i < groups.len()
            invariant
                i <= groups.len(),
                row_groups.len() == i,
                mask.len() == total_rows(groups@),
                cursor.wf(),
                cursor.rest() == mask.skip(row_offset(groups@, i as int) as int),
                row_offset(groups@, i as int) <= mask.len(),
                forall|j: int|
                    0 <= j < i ==> (#[trigger] row_groups@[j])@ == split_mask(mask, groups@)[j],
            decreases groups.len() - i,
        {
            let rows = groups[i].num_rows;
            let ghost offset = row_offset(groups@, i as int) as int;
            let ghost stretch = mask.subrange(offset, offset + rows);
            proof {
                lemma_row_offset_step(groups@, i as int);
                lemma_row_offset_bound(groups@, i as int, i + 1);
                assert(cursor.rest().take(rows as int) =~= stretch);
                assert(cursor.rest().skip(rows as int) =~= mask.skip(offset + rows));
            }
            let (fragments, selected) = cursor.take(rows);
            let access = if selected == 0 {
                RowGroupAccess::Skip
            } else if selected == rows {
                RowGroupAccess::Scan
            } else {
                RowGroupAccess::Selection(selection_from_runs(fragments))
            };
            assert(access@ == access_for(stretch));
            row_groups.push(access);
            i += 1;
        }
        assert(row_groups@.map_values(|access: RowGroupAccess| access@) =~= split_mask(
            mask,
            groups@,
        ));
        Ok(Self::new(row_groups))
    }
}

/// Whether the row at `row` of a row group is read.
pub open spec fn reads_row(access: AccessModel, row: int) -> bool {
    match access {
        AccessModel::Skip => false,
        AccessModel::Scan => true,
        AccessModel::Selection(mask) => mask[row],
    }
}

/// Of each row group exactly the rows are read that a file-level selection selects
/// there.
pub proof fn law_split_reads_the_selection(
    mask: Seq<bool>,
    groups: Seq<RowGroupMetaData>,
    index: int,
    row: int,
)
    requires
        mask.len() == total_rows(groups),
        0 <= index < groups.len(),
        0 <= row < groups[index].num_rows,
    ensures
        row_offset(groups, index) + row < mask.len(),
        reads_row(split_mask(mask, groups)[index], row) == mask[row_offset(groups, index) + row],
{
    lemma_row_offset_step(groups, index);
    lemma_row_offset_bound(groups, index, index + 1);
    let stretch = mask.subrange(
        row_offset(groups, index) as int,
        row_offset(groups, index + 1) as int,
    );
    lemma_selected_count_at(stretch, row);
}

/// A mask that selects no row or every row has no other flag anywhere.
proof fn lemma_selected_count_at(mask: Seq<bool>, at: int)
    requires
        0 <= at < mask.len(),
    ensures
        selected_count(mask) <= mask.len(),
        selected_count(mask) == 0 ==> !mask[at],
        selected_count(mask) == mask.len() ==> mask[at],
    decreases mask.len(),
{
    let front = mask.drop_last();
    if at < front.len() {
        lemma_selected_count_at(front, at);
    } else if front.len() > 0 {
        lemma_selected_count_at(front, 0);
    }
}

/// Setting how one row group is read, or marking it, changes no other, and a row group that
/// is not read is never marked. A fresh plan has none marked.
pub proof fn law_changes_stay_with_their_row_group(
    plan: PlanModel,
    index: int,
    access: AccessModel,
    other: int,
)
    requires
        plan.wf(),
        0 <= index < plan.groups.len(),
        0 <= other < plan.groups.len(),
    ensures
        plan.with_access(index, access).groups.len() == plan.groups.len(),
        plan.with_access(index, access).groups[index] == access,
        access is Skip ==> !plan.with_access(index, access).fully_matched[index],
        !(access is Skip) ==> plan.with_access(index, access).fully_matched[index]
            == plan.fully_matched[index],
        other != index ==> plan.with_access(index, access).groups[other] == plan.groups[other]
            && plan.with_access(index, access).fully_matched[other] == plan.fully_matched[other],
        plan.with_match(index).groups == plan.groups,
        plan.with_match(index).fully_matched[index] == !(plan.groups[index] is Skip),
        other != index ==> plan.with_match(index).fully_matched[other] == plan.fully_matched[other],
        plan.with_access(index, access).wf(),
        plan.with_match(index).wf(),
        PlanModel::unmatched(plan.groups).groups == plan.groups,
        PlanModel::unmatched(plan.groups).fully_matched.len() == plan.groups.len(),
        !PlanModel::unmatched(plan.groups).fully_matched[other],
{
}

/// The row groups that are read are listed in file order, each once, and no other.
pub proof fn law_what_is_read_is_listed_in_file_order(groups: Seq<AccessModel>, index: usize)
    requires
        groups.len() <= usize::MAX,
    ensures
        scanned(groups).contains(index) <==> index < groups.len() && !(groups[index as int] is Skip),
        forall|j: int, k: int|
            0 <= j < k < scanned(groups).len() ==> (#[trigger] scanned(groups)[j]) < (
            #[trigger] scanned(groups)[k]),
{
    lemma_scanned(groups);
    if scanned(groups).contains(index) {
        let k = choose|k: int| 0 <= k < scanned(groups).len() && scanned(groups)[k] == index;
    }
    if index < groups.len() && !(groups[index as int] is Skip) {
        assert(scanned(groups).contains(index as int as usize));
    }
}

} // verus!

//! Narrowing an access plan by what is known of the row groups.

use crate::access_plan::{
    lemma_scanned, scanned, AccessModel, ParquetAccessPlan, PlanModel, RowGroupAccess,
};
use crate::bloom::{all_filled, bloom_judged, judge_bloom_filters};
use crate::inversion::{
    column_models, columns_known, invert, is_inverse, InvertedPredicate, PredicateColumn,
};
use crate::metadata::{FileRange, RowGroupMetaData};
use crate::selection::{selected_count, selected_rows};
use datafusion_datasource_parquet::BloomFilterStatistics;
use vstd::prelude::*;

verus! {

/// Reduces a [`ParquetAccessPlan`] by what is known of the row groups.
#[derive(Debug)]
pub struct RowGroupAccessPlanFilter {
    /// Which row groups are read.
    access_plan: ParquetAccessPlan,
}

impl View for RowGroupAccessPlanFilter {
    type V = PlanModel;

    closed spec fn view(&self) -> PlanModel {
        self.access_plan@
    }
}

/// The number of rows that an access reads of a row group of `num_rows` rows.
pub open spec fn rows_of(access: AccessModel, num_rows: nat) -> nat {
    match access {
        AccessModel::Skip => 0,
        AccessModel::Scan => num_rows,
        AccessModel::Selection(mask) => selected_count(mask),
    }
}

/// The indexes of the set flags, in order.
pub open spec fn flagged(flags: Seq<bool>) -> Seq<usize>
    decreases flags.len(),
{
    if flags.len() == 0 {
        Seq::empty()
    } else {
        let rest = flagged(flags.drop_last());
        if flags.last() {
            rest.push((flags.len() - 1) as usize)
        } else {
            rest
        }
    }
}

/// The rows that a plan reads of the row groups at `indexes`.
pub open spec fn rows_in(
    plan: PlanModel,
    groups: Seq<RowGroupMetaData>,
    indexes: Seq<usize>,
) -> nat
    decreases indexes.len(),
{
    if indexes.len() == 0 {
        0
    } else {
        let last = indexes.last() as int;
        rows_in(plan, groups, indexes.drop_last()) + rows_of(
            plan.groups[last],
            groups[last].num_rows as nat,
        )
    }
}

/// The shortest non-empty prefix of `indexes` of which the plan reads at least
/// `limit` rows, or all of `indexes` where no prefix has that many.
pub open spec fn limit_prefix(
    plan: PlanModel,
    groups: Seq<RowGroupMetaData>,
    indexes: Seq<usize>,
    limit: nat,
) -> Seq<usize>
    decreases indexes.len(),
{
    if indexes.len() > 1 && rows_in(plan, groups, indexes.drop_last()) >= limit {
        limit_prefix(plan, groups, indexes.drop_last(), limit)
    } else {
        indexes
    }
}

/// The fully matched row groups that a scan of `limit` rows needs.
pub open spec fn limit_kept(
    plan: PlanModel,
    groups: Seq<RowGroupMetaData>,
    limit: nat,
) -> Seq<usize> {
    limit_prefix(plan, groups, flagged(plan.fully_matched), limit)
}

/// Whether the fully matched row groups hold `limit` rows.
pub open spec fn limit_satisfied(
    plan: PlanModel,
    groups: Seq<RowGroupMetaData>,
    limit: nat,
) -> bool {
    rows_in(plan, groups, limit_kept(plan, groups, limit)) >= limit
}

/// The plan for `len` row groups that reads those at `kept` as `plan` does, all
/// of them fully matched, and no other.
pub open spec fn restricted(plan: PlanModel, len: nat, kept: Seq<usize>) -> PlanModel {
    PlanModel {
        groups: Seq::new(
            len,
            |i: int|
                if kept.contains(i as usize) {
                    plan.groups[i]
                } else {
                    AccessModel::Skip
                },
        ),
        fully_matched: Seq::new(len, |i: int| kept.contains(i as usize)),
    }
}

/// The indexes of the set flags rise strictly and are those of the set flags.
pub proof fn lemma_flagged(flags: Seq<bool>)
    requires
        flags.len() <= usize::MAX,
    ensures
        forall|k: int|
            0 <= k < flagged(flags).len() ==> (#[trigger] flagged(flags)[k]) < flags.len()
                && flags[flagged(flags)[k] as int],
        forall|j: int, k: int|
            0 <= j < k < flagged(flags).len() ==> (#[trigger] flagged(flags)[j]) < (
            #[trigger] flagged(flags)[k]),
        forall|i: int|
            0 <= i < flags.len() && #[trigger] flags[i] ==> flagged(flags).contains(i as usize),
        flagged(flags).len() <= flags.len(),
    decreases flags.len(),
{
    if flags.len() > 0 {
        let front = flags.drop_last();
        lemma_flagged(front);
        assert forall|i: int| 0 <= i < flags.len() && #[trigger] flags[i] implies flagged(
            flags,
        ).contains(i as usize) by {
            if i < front.len() {
                assert(front[i]);
                let k = choose|k: int|
                    0 <= k < flagged(front).len() && flagged(front)[k] == i as usize;
                assert(flagged(flags)[k] == i as usize);
            } else {
                assert(flagged(flags).last() == i as usize);
            }
        }
    }
}

/// The set flags of a prefix are a prefix of the set flags.
proof fn lemma_flagged_prefix(flags: Seq<bool>, len: int)
    requires
        0 <= len <= flags.len(),
    ensures
        flagged(flags.take(len)).is_prefix_of(flagged(flags)),
    decreases flags.len(),
{
    if len == flags.len() {
        assert(flags.take(len) =~= flags);
    } else {
        lemma_flagged_prefix(flags.drop_last(), len);
        assert(flags.drop_last().take(len) =~= flags.take(len));
    }
}

/// More row groups hold at least as many rows.
pub proof fn lemma_rows_in_prefix(
    plan: PlanModel,
    groups: Seq<RowGroupMetaData>,
    prefix: Seq<usize>,
    indexes: Seq<usize>,
)
    requires
        prefix.is_prefix_of(indexes),
    ensures
        rows_in(plan, groups, prefix) <= rows_in(plan, groups, indexes),
    decreases indexes.len(),
{
    if prefix.len() < indexes.len() {
        assert(prefix.is_prefix_of(indexes.drop_last()));
        lemma_rows_in_prefix(plan, groups, prefix, indexes.drop_last());
    } else {
        assert(prefix =~= indexes);
    }
}

/// A prefix that reaches the limit, and does so only with its last row group,
/// is the one that the limit needs.
proof fn lemma_limit_prefix(
    plan: PlanModel,
    groups: Seq<RowGroupMetaData>,
    prefix: Seq<usize>,
    indexes: Seq<usize>,
    limit: nat,
)
    requires
        prefix.is_prefix_of(indexes),
        prefix.len() > 0,
        rows_in(plan, groups, prefix) >= limit,
        prefix.len() > 1 ==> rows_in(plan, groups, prefix.drop_last()) < limit,
    ensures
        limit_prefix(plan, groups, indexes, limit) == prefix,
    decreases indexes.len(),
{
    if prefix.len() < indexes.len() {
        assert(prefix.is_prefix_of(indexes.drop_last()));
        lemma_rows_in_prefix(plan, groups, prefix, indexes.drop_last());
        lemma_limit_prefix(plan, groups, prefix, indexes.drop_last(), limit);
    } else {
        assert(prefix =~= indexes);
    }
}

impl RowGroupAccessPlanFilter {
    /// The plan is consistent, whatever was done to it.
    #[verifier::type_invariant]
    pub open spec fn wf(&self) -> bool {
        self@.wf()
    }

    /// Takes the plan out, and leaves one without row groups.
    fn take(&mut self) -> (plan: ParquetAccessPlan)
        ensures
            plan@ == old(self)@,
            plan.wf(),
            final(self).wf(),
    {
        proof {
            use_type_invariant(&*self);
        }
        let mut taken = RowGroupAccessPlanFilter::new(ParquetAccessPlan::new(Vec::new()));
        std::mem::swap(self, &mut taken);
        taken.access_plan
    }

    /// Starts to narrow `access_plan`.
    pub fn new(access_plan: ParquetAccessPlan) -> (filter: Self)
        ensures
            filter@ == access_plan@,
    {
        proof {
            use_type_invariant(&access_plan);
        }
        RowGroupAccessPlanFilter { access_plan }
    }

    /// Whether there are no row groups.
    pub fn is_empty(&self) -> (empty: bool)
        ensures
            empty == (self@.groups.len() == 0),
    {
        self.access_plan.is_empty()
    }

    /// The number of row groups that are still to be read.
    pub fn remaining_row_group_count(&self) -> (count: usize)
        ensures
            count == scanned(self@.groups).len(),
    {
        self.access_plan.row_group_indexes().len()
    }

    /// The indexes of the row groups that are still to be read, in file order.
    pub fn row_group_indexes(&self) -> (indexes: Vec<usize>)
        ensures
            indexes@ == scanned(self@.groups),
    {
        self.access_plan.row_group_indexes()
    }

    /// The plan as it was narrowed.
    pub fn build(self) -> (access_plan: ParquetAccessPlan)
        ensures
            access_plan@ == self@,
            access_plan.wf(),
    {
        proof {
            use_type_invariant(&self);
        }
        self.access_plan
    }

    /// Whether each row group is known to match the predicate in all its rows.
    pub fn is_fully_matched(&self) -> (matched: &Vec<bool>)
        ensures
            matched@ == self@.fully_matched,
    {
        self.access_plan.fully_matched()
    }

    /// Keeps only as many fully matched row groups as `limit` rows need, where
    /// the fully matched row groups hold that many. Returns how many row groups
    /// are no longer read.
    ///
    /// Every row of a fully matched row group is a result row, so these row
    /// groups answer a query with that limit, and the others need not be read.
    /// Where they hold too few rows the plan stays as it is.
    pub fn prune_by_limit(&mut self, limit: usize, rg_metadata: &[RowGroupMetaData]) -> (pruned:
        usize)
        requires
            old(self)@.groups.len() <= rg_metadata@.len(),
        ensures
            final(self).wf(),
            limit_satisfied(old(self)@, rg_metadata@, limit as nat) ==> {
                let kept = limit_kept(old(self)@, rg_metadata@, limit as nat);
                &&& final(self)@ == restricted(old(self)@, rg_metadata@.len(), kept)
                &&& pruned == scanned(old(self)@.groups).len() - kept.len()
            },
            !limit_satisfied(old(self)@, rg_metadata@, limit as nat) ==> {
                &&& final(self)@ == old(self)@
                &&& pruned == 0
            },
    {
        proof {
            use_type_invariant(&*self);
        }
        let ghost plan = self@;
        let ghost groups = rg_metadata@;
        let ghost all = flagged(plan.fully_matched);
        let mut kept: Vec<usize> = Vec::new();
        let mut rows: usize = 0;
        let mut i: usize = 0;
        let mut reached: bool = false;
        proof {
            assert(plan.fully_matched.take(0) =~= Seq::<bool>::empty());
            lemma_flagged(plan.fully_matched);
        }
        while i < self.access_plan.len() && !reached
            invariant
                self@ == plan,
                plan.wf(),
                groups == rg_metadata@,
                plan.groups.len() <= groups.len(),
                i <= plan.groups.len(),
                kept@ == flagged(plan.fully_matched.take(i as int)),
                rows == if rows_in(plan, groups, kept@) <= usize::MAX {
                    rows_in(plan, groups, kept@) as int
                } else {
                    usize::MAX as int
                },
                reached ==> {
                    &&& kept@.len() > 0
                    &&& rows >= limit
                    &&& kept@.len() > 1 ==> rows_in(plan, groups, kept@.drop_last()) < limit
                },
                !reached && kept@.len() > 0 ==> rows < limit,
            decreases plan.groups.len() - i,
        {
            let ghost before = kept@;
            proof {
                assert(plan.fully_matched.take(i + 1).drop_last() =~= plan.fully_matched.take(
                    i as int,
                ));
            }
            if self.access_plan.is_fully_matched(i) {
                let group_rows = match &self.access_plan.inner()[i] {
                    RowGroupAccess::Skip => 0,
                    RowGroupAccess::Scan => rg_metadata[i].num_rows,
                    RowGroupAccess::Selection(selection) => selected_rows(selection),
                };
                proof {
                    assert(plan.groups[i as int] == self.access_plan@.groups[i as int]);
                }
                kept.push(i);
                proof {
                    assert(kept@.drop_last() =~= before);
                }
                rows = rows.saturating_add(group_rows);
                if rows >= limit {
                    reached = true;
                }
            }
            i += 1;
        }
        if rows < limit {
            proof {
                assert(plan.fully_matched.take(i as int) =~= plan.fully_matched);
                lemma_limit_unreached(plan, groups, all, limit as nat);
            }
            return 0;
        }
        proof {
            lemma_flagged_prefix(plan.fully_matched, i as int);
            if reached {
                lemma_limit_prefix(plan, groups, kept@, all, limit as nat);
            } else {
                assert(plan.fully_matched.take(i as int) =~= plan.fully_matched);
            }
            assert(kept@ == limit_kept(plan, groups, limit as nat));
            assert forall|k: int| 0 <= k < kept@.len() implies kept@[k] == all[k] by {}
            lemma_scanned(plan.groups);
        }
        let before = self.access_plan.row_group_indexes().len();
        proof {
            lemma_sorted_subset(kept@, scanned(plan.groups));
        }
        let pruned = before.saturating_sub(kept.len());
        let mut narrowed = ParquetAccessPlan::new_none(rg_metadata.len());
        let mut k: usize = 0;
        proof {
            assert(narrowed@ =~= restricted(plan, groups.len(), kept@.take(0)));
        }
        while k < kept.len()
            invariant
                self@ == plan,
                plan.wf(),
                groups == rg_metadata@,
                plan.groups.len() <= groups.len() <= usize::MAX,
                k <= kept.len(),
                narrowed.wf(),
                narrowed@ == restricted(plan, groups.len(), kept@.take(k as int)),
                forall|j: int|
                    0 <= j < kept@.len() ==> (#[trigger] kept@[j]) < plan.groups.len()
                        && plan.fully_matched[kept@[j] as int],
            decreases kept.len() - k,
        {
            let idx = kept[k];
            let access = self.access_plan.inner()[idx].clone();
            proof {
                assert(plan.groups[idx as int] == access@);
                assert(kept@.take(k + 1) =~= kept@.take(k as int).push(idx));
                assert forall|i: int| 0 <= i < groups.len() implies #[trigger] kept@.take(
                    k + 1,
                ).contains(i as usize) == (kept@.take(k as int).contains(i as usize) || i == idx) by {
                    lemma_push_contains(kept@.take(k as int), idx, i as usize);
                }
            }
            narrowed.set(idx, access);
            narrowed.mark_fully_matched(idx);
            assert(narrowed@ =~= restricted(plan, groups.len(), kept@.take(k + 1)));
            k += 1;
        }
        assert(kept@.take(k as int) =~= kept@);
        self.access_plan = narrowed;
        pruned
    }
}

/// What a list holds after a value was added.
proof fn lemma_push_contains(list: Seq<usize>, added: usize, value: usize)
    ensures
        list.push(added).contains(value) == (list.contains(value) || value == added),
{
    assert(list.push(added).last() == added);
    if list.contains(value) {
        let j = choose|j: int| 0 <= j < list.len() && list[j] == value;
        assert(list.push(added)[j] == value);
    }
}

/// Where all row groups together hold too few rows, so does every prefix.
proof fn lemma_limit_unreached(
    plan: PlanModel,
    groups: Seq<RowGroupMetaData>,
    indexes: Seq<usize>,
    limit: nat,
)
    requires
        rows_in(plan, groups, indexes) < limit,
    ensures
        limit_prefix(plan, groups, indexes, limit) == indexes,
{
    if indexes.len() > 1 {
        assert(indexes.drop_last().is_prefix_of(indexes));
        lemma_rows_in_prefix(plan, groups, indexes.drop_last(), indexes);
    }
}

/// A strictly rising list of which another holds every value is no longer than
/// that.
proof fn lemma_sorted_subset(part: Seq<usize>, whole: Seq<usize>)
    requires
        forall|j: int, k: int| 0 <= j < k < part.len() ==> part[j] < part[k],
        forall|j: int, k: int| 0 <= j < k < whole.len() ==> whole[j] < whole[k],
        forall|k: int| 0 <= k < part.len() ==> whole.contains(#[trigger] part[k]),
    ensures
        part.len() <= whole.len(),
    decreases part.len(),
{
    if part.len() > 0 {
        let last = part.last();
        let at = choose|at: int| 0 <= at < whole.len() && whole[at] == last;
        let front = part.drop_last();
        let rest = whole.take(at);
        assert forall|k: int| 0 <= k < front.len() implies rest.contains(#[trigger] front[k]) by {
            assert(whole.contains(part[k]));
            let m = choose|m: int| 0 <= m < whole.len() && whole[m] == part[k];
            assert(rest[m] == part[k]);
        }
        lemma_sorted_subset(front, rest);
    }
}

/// What a null count that is missing from statistics stands for.
///
/// Old files leave it out where it is zero. To rule out a row group it may be taken so:
/// a null never matches. To find that every row matches it must not be, since it may
/// hide a row that does not.
#[derive(Debug, Clone, Copy, PartialEq, Eq, Structural)]
pub enum MissingNullCount {
    /// There are no nulls.
    Zero,
    /// There may be nulls.
    Unknown,
}

/// What pruning by statistics did to the row groups.
#[derive(Debug, Clone, Copy, PartialEq, Eq, Structural)]
pub struct StatisticsMetrics {
    /// Row groups that are no longer read.
    pub pruned: usize,
    /// Row groups that may hold matching rows.
    pub matched: usize,
    /// Row groups of which all rows match.
    pub fully_matched: usize,
    /// Predicates that could not be evaluated.
    pub evaluation_errors: usize,
}

/// Whether the row group at `index` is among `indexes` with a verdict that no
/// row of it can match.
pub open spec fn ruled_out(indexes: Seq<usize>, verdicts: Seq<bool>, index: int) -> bool {
    exists|k: int| 0 <= k < indexes.len() && #[trigger] indexes[k] == index && !verdicts[k]
}

/// The plan without the row groups that are ruled out.
pub open spec fn without_ruled_out(
    plan: PlanModel,
    indexes: Seq<usize>,
    verdicts: Seq<bool>,
) -> PlanModel {
    PlanModel {
        groups: Seq::new(
            plan.groups.len(),
            |i: int|
                if ruled_out(indexes, verdicts, i) {
                    AccessModel::Skip
                } else {
                    plan.groups[i]
                },
        ),
        fully_matched: Seq::new(
            plan.groups.len(),
            |i: int| plan.fully_matched[i] && !ruled_out(indexes, verdicts, i),
        ),
    }
}

/// The plan with the row groups that the inverse of the predicate rules out
/// marked as fully matched, where they are read.
pub open spec fn with_full_matches(
    plan: PlanModel,
    indexes: Seq<usize>,
    verdicts: Seq<bool>,
) -> PlanModel {
    PlanModel {
        groups: plan.groups,
        fully_matched: Seq::new(
            plan.groups.len(),
            |i: int|
                plan.fully_matched[i] || (!(plan.groups[i] is Skip) && ruled_out(
                    indexes,
                    verdicts,
                    i,
                )),
        ),
    }
}

/// The values of `indexes` whose verdict is to keep them, in order.
pub open spec fn kept_by(indexes: Seq<usize>, verdicts: Seq<bool>) -> Seq<usize>
    decreases indexes.len(),
{
    if indexes.len() == 0 {
        Seq::empty()
    } else {
        let rest = kept_by(indexes.drop_last(), verdicts);
        if verdicts[indexes.len() - 1] {
            rest.push(indexes.last())
        } else {
            rest
        }
    }
}

/// What is kept of `indexes` are values of `indexes`, and nothing without a verdict.
pub proof fn lemma_kept_by(indexes: Seq<usize>, verdicts: Seq<bool>)
    ensures
        kept_by(indexes, verdicts).len() > 0 && indexes.len() <= verdicts.len()
            ==> verdicts.contains(true),
        kept_by(indexes, verdicts).len() <= indexes.len(),
        forall|k: int|
            0 <= k < kept_by(indexes, verdicts).len() ==> indexes.contains(
                #[trigger] kept_by(indexes, verdicts)[k],
            ),
    decreases indexes.len(),
{
    if indexes.len() > 0 {
        let front = indexes.drop_last();
        lemma_kept_by(front, verdicts);
        if verdicts[indexes.len() - 1] && indexes.len() <= verdicts.len() {
            assert(verdicts[indexes.len() - 1] == true);
        }
        assert forall|k: int| 0 <= k < kept_by(indexes, verdicts).len() implies indexes.contains(
            #[trigger] kept_by(indexes, verdicts)[k],
        ) by {
            let value = kept_by(indexes, verdicts)[k];
            if k < kept_by(front, verdicts).len() {
                assert(front.contains(kept_by(front, verdicts)[k]));
                let j = choose|j: int| 0 <= j < front.len() && front[j] == value;
                assert(indexes[j] == value);
            } else {
                assert(indexes[indexes.len() - 1] == value);
            }
        }
    }
}

/// One more verdict rules out at most one more row group.
proof fn lemma_ruled_out_step(indexes: Seq<usize>, verdicts: Seq<bool>, len: int, index: int)
    requires
        0 <= len < indexes.len(),
    ensures
        ruled_out(indexes.take(len + 1), verdicts, index) == (ruled_out(
            indexes.take(len),
            verdicts,
            index,
        ) || (indexes[len] == index && !verdicts[len])),
{
    let shorter = indexes.take(len);
    let longer = indexes.take(len + 1);
    if ruled_out(shorter, verdicts, index) {
        let k = choose|k: int|
            0 <= k < shorter.len() && #[trigger] shorter[k] == index && !verdicts[k];
        assert(longer[k] == index);
    }
    if indexes[len] == index && !verdicts[len] {
        assert(longer[len] == index);
    }
    if ruled_out(longer, verdicts, index) {
        let k = choose|k: int|
            0 <= k < longer.len() && #[trigger] longer[k] == index && !verdicts[k];
        if k < len {
            assert(shorter[k] == index);
        }
    }
}

impl RowGroupAccessPlanFilter {
    /// Keeps only the row groups whose first page lies within `range`.
    ///
    /// Where a file is read in parts, each row group so falls to one part.
    pub fn prune_by_range(&mut self, groups: &[RowGroupMetaData], range: &FileRange)
        requires
            groups@.len() == old(self)@.groups.len(),
            forall|i: int|
                0 <= i < groups@.len() && !(old(self)@.groups[i] is Skip) ==> (
                #[trigger] groups@[i]).columns.len() > 0,
        ensures
            final(self).wf(),
            final(self)@ == in_range(old(self)@, groups@, *range),
    {
        proof {
            use_type_invariant(&*self);
        }
        let ghost plan = self@;
        let mut narrowed = self.take();
        let mut i: usize = 0;
        proof {
            assert(narrowed@ =~= in_range_before(plan, groups@, *range, 0));
        }
        while i < groups.len()
            invariant
                i <= groups@.len(),
                plan.wf(),
                groups@.len() == plan.groups.len(),
                forall|i: int|
                    0 <= i < groups@.len() && !(plan.groups[i] is Skip) ==> (
                    #[trigger] groups@[i]).columns.len() > 0,
                narrowed.wf(),
                narrowed@ == in_range_before(plan, groups@, *range, i as int),
            decreases groups.len() - i,
        {
            if narrowed.should_scan(i) {
                let column = &groups[i].columns[0];
                if !range.contains(column.first_page_offset()) {
                    narrowed.skip(i);
                }
            }
            assert(narrowed@ =~= in_range_before(plan, groups@, *range, i + 1));
            i += 1;
        }
        assert(narrowed@ =~= in_range(plan, groups@, *range));
        self.access_plan = narrowed;
    }

    /// Applies the verdicts on the row groups that are still to be read: those
    /// of which no row can match are skipped. Returns the row groups that are
    /// left, and what was done.
    pub fn apply_statistics(&mut self, verdicts: &Vec<bool>) -> (applied: (
        Vec<usize>,
        StatisticsMetrics,
    ))
        requires
            verdicts@.len() == scanned(old(self)@.groups).len(),
        ensures
            final(self).wf(),
            final(self)@ == without_ruled_out(
                old(self)@,
                scanned(old(self)@.groups),
                verdicts@,
            ),
            applied.0@ == kept_by(scanned(old(self)@.groups), verdicts@),
            applied.1 == (StatisticsMetrics {
                pruned: (scanned(old(self)@.groups).len() - applied.0@.len()) as usize,
                matched: applied.0@.len() as usize,
                fully_matched: 0,
                evaluation_errors: 0,
            }),
    {
        proof {
            use_type_invariant(&*self);
        }
        let ghost plan = self@;
        let indexes = self.access_plan.row_group_indexes();
        let mut narrowed = self.take();
        let mut candidates: Vec<usize> = Vec::new();
        let mut pruned: usize = 0;
        let mut k: usize = 0;
        proof {
            lemma_scanned(plan.groups);
            assert(indexes@.take(0) =~= Seq::<usize>::empty());
            assert(narrowed@ =~= without_ruled_out(plan, indexes@.take(0), verdicts@));
        }
        while k < indexes.len()
            invariant
                k <= indexes.len(),
                plan.wf(),
                narrowed.wf(),
                indexes@ == scanned(plan.groups),
                verdicts@.len() == indexes@.len(),
                forall|k: int|
                    0 <= k < indexes@.len() ==> (#[trigger] indexes@[k]) < plan.groups.len(),
                narrowed@ == without_ruled_out(plan, indexes@.take(k as int), verdicts@),
                candidates@ == kept_by(indexes@.take(k as int), verdicts@),
                pruned + candidates@.len() == k,
            decreases indexes.len() - k,
        {
            let idx = indexes[k];
            proof {
                assert(indexes@.take(k + 1).drop_last() =~= indexes@.take(k as int));
                assert forall|i: int| 0 <= i < plan.groups.len() implies #[trigger] ruled_out(
                    indexes@.take(k + 1),
                    verdicts@,
                    i,
                ) == (ruled_out(indexes@.take(k as int), verdicts@, i) || (idx == i
                    && !verdicts@[k as int])) by {
                    lemma_ruled_out_step(indexes@, verdicts@, k as int, i);
                }
            }
            if !verdicts[k] {
                narrowed.skip(idx);
                pruned += 1;
            } else {
                candidates.push(idx);
            }
            assert(narrowed@ =~= without_ruled_out(plan, indexes@.take(k + 1), verdicts@));
            k += 1;
        }
        assert(indexes@.take(k as int) =~= indexes@);
        self.access_plan = narrowed;
        let matched = candidates.len();
        (
            candidates,
            StatisticsMetrics { pruned, matched, fully_matched: 0, evaluation_errors: 0 },
        )
    }

    /// Applies the verdicts of the inverse of the predicate on `candidates`: the
    /// row groups that it rules out match the predicate in all their rows.
    /// Returns how many those are.
    pub fn apply_inverse(&mut self, candidates: &Vec<usize>, verdicts: &Vec<bool>) -> (matched:
        usize)
        requires
            verdicts@.len() == candidates@.len(),
            forall|k: int|
                0 <= k < candidates@.len() ==> (#[trigger] candidates@[k]) < old(
                    self,
                )@.groups.len(),
        ensures
            final(self).wf(),
            final(self)@ == with_full_matches(old(self)@, candidates@, verdicts@),
            matched == candidates@.len() - kept_by(candidates@, verdicts@).len(),
    {
        proof {
            use_type_invariant(&*self);
        }
        let ghost plan = self@;
        let mut marked = self.take();
        let mut matched: usize = 0;
        let mut k: usize = 0;
        proof {
            assert(candidates@.take(0) =~= Seq::<usize>::empty());
            assert(marked@ =~= with_full_matches(plan, candidates@.take(0), verdicts@));
        }
        while k < candidates.len()
            invariant
                k <= candidates.len(),
                plan.wf(),
                marked.wf(),
                verdicts@.len() == candidates@.len(),
                forall|k: int|
                    0 <= k < candidates@.len() ==> (#[trigger] candidates@[k]) < plan.groups.len(),
                marked@ == with_full_matches(plan, candidates@.take(k as int), verdicts@),
                matched + kept_by(candidates@.take(k as int), verdicts@).len() == k,
            decreases candidates.len() - k,
        {
            let idx = candidates[k];
            proof {
                assert(candidates@.take(k + 1).drop_last() =~= candidates@.take(k as int));
                assert forall|i: int| 0 <= i < plan.groups.len() implies #[trigger] ruled_out(
                    candidates@.take(k + 1),
                    verdicts@,
                    i,
                ) == (ruled_out(candidates@.take(k as int), verdicts@, i) || (idx == i
                    && !verdicts@[k as int])) by {
                    lemma_ruled_out_step(candidates@, verdicts@, k as int, i);
                }
            }
            if !verdicts[k] {
                marked.mark_fully_matched(idx);
                matched += 1;
            }
            assert(marked@ =~= with_full_matches(plan, candidates@.take(k + 1), verdicts@));
            k += 1;
        }
        assert(candidates@.take(k as int) =~= candidates@);
        self.access_plan = marked;
        matched
    }
}

/// Whether a predicate may be found to keep a row group.
pub open spec fn may_keep<F>(evaluate: F) -> bool where
    F: FnOnce(&Vec<usize>, MissingNullCount) -> Option<Vec<bool>>,
 {
    exists|indexes: &Vec<usize>, verdicts: Vec<bool>|
        {
            &&& #[trigger] call_ensures(
                evaluate,
                (indexes, MissingNullCount::Zero),
                Some(verdicts),
            )
            &&& verdicts@.contains(true)
        }
}

/// What became of a plan when the inverse of the predicate was held against
/// `candidates`: nothing where there were none or where the inverse could not be
/// evaluated, and else full matches.
pub open spec fn inverse_applied(
    before: PlanModel,
    candidates: Seq<usize>,
    verdicts: Option<Seq<bool>>,
    after: PlanModel,
    matched: int,
) -> bool {
    match verdicts {
        None => after == before && matched == 0,
        Some(verdicts) => {
            &&& after == with_full_matches(before, candidates, verdicts)
            &&& matched == candidates.len() - kept_by(candidates, verdicts).len()
        },
    }
}

impl RowGroupAccessPlanFilter {
    /// Marks those of `candidates` as fully matched of which statistics show
    /// that every row matches the predicate. Returns how many those are.
    ///
    /// `columns` are the columns of the predicate, and `nullable` says of each
    /// column of the file schema whether it can be null. `evaluate` holds the
    /// inverse of the predicate against the statistics of some row groups: it
    /// gives a verdict for each, `false` where no row can match the inverse, or
    /// `None` where it could not be evaluated. It is told what a null count that is
    /// missing stands for there.
    pub fn identify_fully_matched_row_groups<G>(
        &mut self,
        candidates: &Vec<usize>,
        columns: &Vec<PredicateColumn>,
        nullable: &[bool],
        evaluate: G,
    ) -> (matched: usize) where G: FnOnce(&InvertedPredicate, &Vec<usize>, MissingNullCount) -> Option<Vec<bool>>
        requires
            forall|k: int|
                0 <= k < candidates@.len() ==> (#[trigger] candidates@[k]) < old(
                    self,
                )@.groups.len(),
            candidates@.len() > 0 ==> columns_known(columns@, nullable@),
            forall|inverse: &InvertedPredicate|
                is_inverse(column_models(columns@), nullable@, inverse.model())
                    ==> #[trigger] call_requires(evaluate, (inverse, candidates, MissingNullCount::Unknown)),
            forall|inverse: &InvertedPredicate, verdicts: Vec<bool>|
                #[trigger] call_ensures(evaluate, (inverse, candidates, MissingNullCount::Unknown), Some(verdicts))
                    ==> verdicts@.len() == candidates@.len(),
        ensures
            final(self).wf(),
            candidates@.len() == 0 ==> final(self)@ == old(self)@ && matched == 0,
            candidates@.len() > 0 ==> exists|
                inverse: &InvertedPredicate,
                verdicts: Option<Vec<bool>>,
            |
                {
                    &&& is_inverse(column_models(columns@), nullable@, inverse.model())
                    &&& #[trigger] call_ensures(evaluate, (inverse, candidates, MissingNullCount::Unknown), verdicts)
                    &&& inverse_applied(
                        old(self)@,
                        candidates@,
                        verdict_views(verdicts),
                        final(self)@,
                        matched as int,
                    )
                },
    {
        proof {
            use_type_invariant(&*self);
        }
        if candidates.len() == 0 {
            return 0;
        }
        let inverse = invert(columns, nullable);
        match evaluate(&inverse, candidates, MissingNullCount::Unknown) {
            Some(verdicts) => self.apply_inverse(candidates, &verdicts),
            None => 0,
        }
    }
}

/// Verdicts as a sequence.
pub open spec fn verdict_views(verdicts: Option<Vec<bool>>) -> Option<Seq<bool>> {
    match verdicts {
        Some(verdicts) => Some(verdicts@),
        None => None,
    }
}

impl RowGroupAccessPlanFilter {
    /// Stops reading the row groups of which statistics show that no row matches
    /// the predicate, and marks those of which they show that every row does.
    ///
    /// `evaluate` holds the predicate against the statistics of some row groups:
    /// it gives a verdict for each, `false` where no row can match, or `None`
    /// where the predicate could not be evaluated. It is told what a null count that
    /// is missing stands for. The other arguments are those
    /// of [`Self::identify_fully_matched_row_groups`].
    pub fn prune_by_statistics<F, G>(
        &mut self,
        columns: &Vec<PredicateColumn>,
        nullable: &[bool],
        evaluate: F,
        evaluate_inverse: G,
    ) -> (metrics: StatisticsMetrics) where
        F: FnOnce(&Vec<usize>, MissingNullCount) -> Option<Vec<bool>>,
        G: FnOnce(&InvertedPredicate, &Vec<usize>, MissingNullCount) -> Option<Vec<bool>>,

        requires
            may_keep(evaluate) ==> columns_known(columns@, nullable@),
            forall|indexes: &Vec<usize>|
                indexes@ == scanned(old(self)@.groups) ==> #[trigger] call_requires(
                    evaluate,
                    (indexes, MissingNullCount::Zero),
                ),
            forall|indexes: &Vec<usize>, verdicts: Vec<bool>|
                #[trigger] call_ensures(evaluate, (indexes, MissingNullCount::Zero), Some(verdicts))
                    ==> verdicts@.len() == indexes@.len(),
            forall|inverse: &InvertedPredicate, indexes: &Vec<usize>|
                is_inverse(column_models(columns@), nullable@, inverse.model()) && (forall|k: int|
                    0 <= k < indexes@.len() ==> (#[trigger] indexes@[k]) < old(self)@.groups.len())
                    ==> #[trigger] call_requires(evaluate_inverse, (inverse, indexes, MissingNullCount::Unknown)),
            forall|inverse: &InvertedPredicate, indexes: &Vec<usize>, verdicts: Vec<bool>|
                #[trigger] call_ensures(evaluate_inverse, (inverse, indexes, MissingNullCount::Unknown), Some(verdicts))
                    ==> verdicts@.len() == indexes@.len(),
        ensures
            final(self).wf(),
            statistics_evaluated(
                columns@,
                nullable@,
                evaluate,
                evaluate_inverse,
                old(self)@,
                final(self)@,
                metrics,
            ),
    {
        proof {
            use_type_invariant(&*self);
        }
        let indexes = self.access_plan.row_group_indexes();
        match evaluate(&indexes, MissingNullCount::Zero) {
            Some(verdicts) => {
                let (candidates, applied) = self.apply_statistics(&verdicts);
                proof {
                    lemma_scanned(old(self)@.groups);
                    lemma_kept_by(indexes@, verdicts@);
                    assert forall|k: int| 0 <= k < candidates@.len() implies (
                    #[trigger] candidates@[k]) < self@.groups.len() by {
                        assert(indexes@.contains(candidates@[k]));
                    }
                }
                let fully_matched = self.identify_fully_matched_row_groups(
                    &candidates,
                    columns,
                    nullable,
                    evaluate_inverse,
                );
                StatisticsMetrics {
                    pruned: applied.pruned,
                    matched: applied.matched,
                    fully_matched,
                    evaluation_errors: 0,
                }
            },
            None => StatisticsMetrics {
                pruned: 0,
                matched: 0,
                fully_matched: 0,
                evaluation_errors: 1,
            },
        }
    }
}

/// Whether `after` and `metrics` are what comes of `before` when a predicate over
/// `columns` is evaluated on the statistics of the row groups that are read.
pub open spec fn statistics_evaluated<F, G>(
    columns: Seq<PredicateColumn>,
    nullable: Seq<bool>,
    evaluate: F,
    evaluate_inverse: G,
    before: PlanModel,
    after: PlanModel,
    metrics: StatisticsMetrics,
) -> bool where
    F: FnOnce(&Vec<usize>, MissingNullCount) -> Option<Vec<bool>>,
    G: FnOnce(&InvertedPredicate, &Vec<usize>, MissingNullCount) -> Option<Vec<bool>>,
 {
    exists|indexes: &Vec<usize>, verdicts: Option<Vec<bool>>|
        {
            &&& indexes@ == scanned(before.groups)
            &&& #[trigger] call_ensures(evaluate, (indexes, MissingNullCount::Zero), verdicts)
            &&& match verdicts {
                None => after == before && metrics == (StatisticsMetrics {
                    pruned: 0,
                    matched: 0,
                    fully_matched: 0,
                    evaluation_errors: 1,
                }),
                Some(verdicts) => {
                    let narrowed = without_ruled_out(before, indexes@, verdicts@);
                    let left = kept_by(indexes@, verdicts@);
                    &&& metrics.pruned == indexes@.len() - left.len()
                    &&& metrics.matched == left.len()
                    &&& metrics.evaluation_errors == 0
                    &&& left.len() == 0 ==> after == narrowed && metrics.fully_matched == 0
                    &&& left.len() > 0 ==> inverse_evaluated(
                        columns,
                        nullable,
                        evaluate_inverse,
                        left,
                        narrowed,
                        after,
                        metrics.fully_matched as int,
                    )
                },
            }
        }
}

/// Whether `after` and `matched` are what comes of `before` when the inverse of
/// a predicate over `columns` is evaluated on the row groups at `left`.
pub open spec fn inverse_evaluated<G>(
    columns: Seq<PredicateColumn>,
    nullable: Seq<bool>,
    evaluate: G,
    left: Seq<usize>,
    before: PlanModel,
    after: PlanModel,
    matched: int,
) -> bool where G: FnOnce(&InvertedPredicate, &Vec<usize>, MissingNullCount) -> Option<Vec<bool>> {
    exists|inverse: &InvertedPredicate, candidates: &Vec<usize>, verdicts: Option<Vec<bool>>|
        {
            &&& is_inverse(column_models(columns), nullable, inverse.model())
            &&& candidates@ == left
            &&& #[trigger] call_ensures(evaluate, (inverse, candidates, MissingNullCount::Unknown), verdicts)
            &&& inverse_applied(before, left, verdict_views(verdicts), after, matched)
        }
}

/// What pruning by bloom filters did to the row groups.
#[derive(Debug, Clone, Copy, PartialEq, Eq, Structural)]
pub struct BloomMetrics {
    /// Row groups that are no longer read.
    pub pruned: usize,
    /// Row groups that are still read.
    pub matched: usize,
    /// Row groups whose bloom filters could not be evaluated.
    pub evaluation_errors: usize,
}

/// The plan without the row groups of which the verdict is that no row can
/// match.
pub open spec fn without_bloom_misses(plan: PlanModel, verdicts: Seq<Option<bool>>) -> PlanModel {
    PlanModel {
        groups: Seq::new(
            plan.groups.len(),
            |i: int|
                if i < verdicts.len() && verdicts[i] == Some(false) {
                    AccessModel::Skip
                } else {
                    plan.groups[i]
                },
        ),
        fully_matched: Seq::new(
            plan.groups.len(),
            |i: int|
                plan.fully_matched[i] && !(i < verdicts.len() && verdicts[i] == Some(false)),
        ),
    }
}

/// The number of row groups that are read and have no verdict.
pub open spec fn unknown_count(groups: Seq<AccessModel>, verdicts: Seq<Option<bool>>) -> nat
    decreases verdicts.len(),
{
    if verdicts.len() == 0 {
        0
    } else {
        unknown_count(groups, verdicts.drop_last()) + if !(groups[verdicts.len() - 1] is Skip)
            && verdicts.last() is None {
            1nat
        } else {
            0nat
        }
    }
}

impl RowGroupAccessPlanFilter {
    /// Applies the verdict of the bloom filters on the row group at `idx`: it is
    /// skipped where no row of it can match. Without a verdict it stays.
    /// Returns whether it was skipped.
    pub fn apply_bloom_verdict(&mut self, idx: usize, verdict: Option<bool>) -> (pruned: bool)
        requires
            idx < old(self)@.groups.len(),
        ensures
            final(self).wf(),
            pruned == (verdict == Some(false)),
            final(self)@ == if pruned {
                old(self)@.with_access(idx as int, AccessModel::Skip)
            } else {
                old(self)@
            },
    {
        match verdict {
            Some(false) => {
                let mut narrowed = self.take();
                narrowed.skip(idx);
                self.access_plan = narrowed;
                true
            },
            _ => {
                proof {
                    use_type_invariant(&*self);
                }
                false
            },
        }
    }

    /// Stops reading the row groups of which the bloom filters show that no row
    /// matches the predicate. `row_group_bloom_filters` holds the filters of each row
    /// group. `evaluate` holds the predicate against the filters of one, and gives a
    /// flag, `false` where no row can match, or `None` where they could not be
    /// evaluated. It is asked only of row groups that are still to be read.
    pub fn prune_by_bloom_filters<F>(
        &mut self,
        row_group_bloom_filters: &[BloomFilterStatistics],
        evaluate: &F,
    ) -> (metrics: BloomMetrics) where F: Fn(&BloomFilterStatistics) -> Option<Vec<bool>>
        requires
            row_group_bloom_filters@.len() == old(self)@.groups.len(),
            forall|i: int|
                0 <= i < row_group_bloom_filters@.len() && !(old(self)@.groups[i] is Skip)
                    ==> all_filled(#[trigger] row_group_bloom_filters@[i]),
            evaluates_filters(*evaluate),
        ensures
            final(self).wf(),
            exists|verdicts: Seq<Option<bool>>| #[trigger]
                bloom_evaluated(*evaluate, old(self)@, row_group_bloom_filters@, verdicts)
                    && bloom_applied(old(self)@, verdicts, final(self)@, metrics),
    {
        proof {
            use_type_invariant(&*self);
        }
        let ghost plan = self@;
        let ghost filters = row_group_bloom_filters@;
        let ghost mut verdicts: Seq<Option<bool>> = Seq::empty();
        let mut pruned: usize = 0;
        let mut matched: usize = 0;
        let mut evaluation_errors: usize = 0;
        let mut i: usize = 0;
        proof {
            assert(self@ =~= without_bloom_misses(plan, verdicts));
            assert(plan.groups.take(0) =~= Seq::<AccessModel>::empty());
            assert(self@.groups.take(0) =~= Seq::<AccessModel>::empty());
        }
        while i < row_group_bloom_filters.len()
            invariant
                i <= filters.len(),
                plan.wf(),
                self.wf(),
                filters == row_group_bloom_filters@,
                filters.len() == plan.groups.len(),
                forall|i: int|
                    0 <= i < filters.len() && !(plan.groups[i] is Skip) ==> all_filled(
                        #[trigger] filters[i],
                    ),
                evaluates_filters(*evaluate),
                verdicts.len() == i,
                forall|j: int|
                    0 <= j < i && !(plan.groups[j] is Skip) ==> bloom_judged(
                        *evaluate,
                        filters[j],
                        #[trigger] verdicts[j],
                    ),
                self@ == without_bloom_misses(plan, verdicts),
                pruned + matched == scanned(plan.groups.take(i as int)).len(),
                matched == scanned(self@.groups.take(i as int)).len(),
                evaluation_errors == unknown_count(plan.groups, verdicts),
                evaluation_errors <= i,
                pruned + matched <= i,
            decreases filters.len() - i,
        {
            let ghost before = self@;
            let ghost earlier = verdicts;
            proof {
                assert(plan.groups.take(i + 1).drop_last() =~= plan.groups.take(i as int));
                assert(before.groups[i as int] == plan.groups[i as int]);
            }
            if self.access_plan.should_scan(i) {
                assert(all_filled(filters[i as int]));
                let containers = evaluate(&row_group_bloom_filters[i]);
                let verdict = judge_bloom_filters(&containers);
                proof {
                    assert(bloom_judged(*evaluate, filters[i as int], verdict));
                    verdicts = earlier.push(verdict);
                }
                if verdict.is_none() {
                    evaluation_errors += 1;
                }
                if self.apply_bloom_verdict(i, verdict) {
                    pruned += 1;
                } else {
                    matched += 1;
                }
            } else {
                proof {
                    verdicts = earlier.push(Some(true));
                }
            }
            proof {
                assert(verdicts.drop_last() =~= earlier);
                assert(self@.groups.take(i + 1).drop_last() =~= before.groups.take(i as int));
                assert(self@ =~= without_bloom_misses(plan, verdicts));
            }
            i += 1;
        }
        let metrics = BloomMetrics { pruned, matched, evaluation_errors };
        proof {
            assert(plan.groups.take(i as int) =~= plan.groups);
            assert(self@.groups.take(i as int) =~= self@.groups);
            assert(bloom_evaluated(*evaluate, plan, filters, verdicts));
            assert(bloom_applied(plan, verdicts, self@, metrics));
        }
        metrics
    }
}

/// Whether `evaluate` can be asked of any bloom filters that have blocks, and gives a
/// flag where it does not fail.
pub open spec fn evaluates_filters<F>(evaluate: F) -> bool where
    F: Fn(&BloomFilterStatistics) -> Option<Vec<bool>>,
 {
    &&& forall|filters: &BloomFilterStatistics|
        all_filled(*filters) ==> #[trigger] call_requires(evaluate, (filters,))
    &&& forall|filters: &BloomFilterStatistics, containers: Vec<bool>| #[trigger]
        call_ensures(evaluate, (filters,), Some(containers)) ==> containers@.len() > 0
}

/// Whether `verdicts` are those of `evaluate` on the bloom filters of the row groups
/// that are read.
pub open spec fn bloom_evaluated<F>(
    evaluate: F,
    plan: PlanModel,
    filters: Seq<BloomFilterStatistics>,
    verdicts: Seq<Option<bool>>,
) -> bool where F: Fn(&BloomFilterStatistics) -> Option<Vec<bool>> {
    &&& verdicts.len() == filters.len()
    &&& forall|i: int|
        0 <= i < verdicts.len() && !(plan.groups[i] is Skip) ==> bloom_judged(
            evaluate,
            filters[i],
            #[trigger] verdicts[i],
        )
}

/// Whether `after` and `metrics` are what comes of `before` by the verdicts of bloom
/// filters.
pub open spec fn bloom_applied(
    before: PlanModel,
    verdicts: Seq<Option<bool>>,
    after: PlanModel,
    metrics: BloomMetrics,
) -> bool {
    &&& after == without_bloom_misses(before, verdicts)
    &&& metrics.matched == scanned(after.groups).len()
    &&& metrics.pruned == scanned(before.groups).len() - scanned(after.groups).len()
    &&& metrics.evaluation_errors == unknown_count(before.groups, verdicts)
}

/// The plan without the row groups that start outside `range`.
pub open spec fn in_range(
    plan: PlanModel,
    groups: Seq<RowGroupMetaData>,
    range: FileRange,
) -> PlanModel {
    in_range_before(plan, groups, range, plan.groups.len() as int)
}

/// The plan without those of the first `len` row groups that start outside
/// `range`.
pub open spec fn in_range_before(
    plan: PlanModel,
    groups: Seq<RowGroupMetaData>,
    range: FileRange,
    len: int,
) -> PlanModel {
    PlanModel {
        groups: Seq::new(
            plan.groups.len(),
            |i: int|
                if i < len && !range.contains(groups[i].columns[0].first_page_offset()) {
                    AccessModel::Skip
                } else {
                    plan.groups[i]
                },
        ),
        fully_matched: Seq::new(
            plan.groups.len(),
            |i: int|
                plan.fully_matched[i] && !(i < len && !range.contains(
                    groups[i].columns[0].first_page_offset(),
                )),
        ),
    }
}

/// Whether `after` reads no row group otherwise than `before` did, unless it does
/// not read it at all.
pub open spec fn narrows(before: PlanModel, after: PlanModel) -> bool {
    &&& after.groups.len() == before.groups.len()
    &&& forall|i: int|
        0 <= i < before.groups.len() ==> (#[trigger] after.groups[i]) is Skip || after.groups[i]
            == before.groups[i]
}

/// Pruning by statistics only ever takes row groups away, whatever the verdicts
/// are.
pub proof fn law_statistics_only_narrow<F, G>(
    columns: Seq<PredicateColumn>,
    nullable: Seq<bool>,
    evaluate: F,
    evaluate_inverse: G,
    before: PlanModel,
    after: PlanModel,
    metrics: StatisticsMetrics,
) where
    F: FnOnce(&Vec<usize>, MissingNullCount) -> Option<Vec<bool>>,
    G: FnOnce(&InvertedPredicate, &Vec<usize>, MissingNullCount) -> Option<Vec<bool>>,

    requires
        statistics_evaluated(
            columns,
            nullable,
            evaluate,
            evaluate_inverse,
            before,
            after,
            metrics,
        ),
    ensures
        narrows(before, after),
{
}

/// Whether the predicate was found to rule out the row group at `index`.
pub open spec fn rules_out<F>(evaluate: F, index: int) -> bool where
    F: FnOnce(&Vec<usize>, MissingNullCount) -> Option<Vec<bool>>,
 {
    exists|indexes: &Vec<usize>, verdicts: Vec<bool>|
        {
            &&& #[trigger] call_ensures(evaluate, (indexes, MissingNullCount::Zero), Some(verdicts))
            &&& ruled_out(indexes@, verdicts@, index)
        }
}

/// Whether the inverse of the predicate was found to rule out the row group at
/// `index`.
pub open spec fn inverse_rules_out<G>(
    columns: Seq<PredicateColumn>,
    nullable: Seq<bool>,
    evaluate: G,
    index: int,
) -> bool where G: FnOnce(&InvertedPredicate, &Vec<usize>, MissingNullCount) -> Option<Vec<bool>> {
    exists|inverse: &InvertedPredicate, indexes: &Vec<usize>, verdicts: Vec<bool>|
        {
            &&& is_inverse(column_models(columns), nullable, inverse.model())
            &&& #[trigger] call_ensures(evaluate, (inverse, indexes, MissingNullCount::Unknown), Some(verdicts))
            &&& ruled_out(indexes@, verdicts@, index)
        }
}

/// Statistics take a row group away only where the predicate is found to rule it out,
/// and let it count as fully matched only where the inverse of the predicate is.
pub proof fn law_statistics_go_by_verdicts<F, G>(
    columns: Seq<PredicateColumn>,
    nullable: Seq<bool>,
    evaluate: F,
    evaluate_inverse: G,
    before: PlanModel,
    after: PlanModel,
    metrics: StatisticsMetrics,
    index: int,
) where
    F: FnOnce(&Vec<usize>, MissingNullCount) -> Option<Vec<bool>>,
    G: FnOnce(&InvertedPredicate, &Vec<usize>, MissingNullCount) -> Option<Vec<bool>>,

    requires
        before.wf(),
        0 <= index < before.groups.len(),
        statistics_evaluated(
            columns,
            nullable,
            evaluate,
            evaluate_inverse,
            before,
            after,
            metrics,
        ),
    ensures
        after.groups[index] != before.groups[index] ==> rules_out(evaluate, index),
        after.fully_matched[index] && !before.fully_matched[index] ==> inverse_rules_out(
            columns,
            nullable,
            evaluate_inverse,
            index,
        ),
{
}

/// Pruning by bloom filters only ever takes row groups away, and none without a
/// verdict.
pub proof fn law_bloom_filters_only_narrow(plan: PlanModel, verdicts: Seq<Option<bool>>)
    ensures
        narrows(plan, without_bloom_misses(plan, verdicts)),
        forall|i: int|
            0 <= i < plan.groups.len() && i < verdicts.len() && verdicts[i] is None ==> (
            #[trigger] without_bloom_misses(plan, verdicts).groups[i]) == plan.groups[i],
{
}

/// Where a file is read in parts that lie end to end, each row group that starts
/// in any of two neighbours is read by exactly one of them, as it would be read by
/// both together.
pub proof fn law_neighbouring_ranges_share_nothing(
    plan: PlanModel,
    groups: Seq<RowGroupMetaData>,
    start: i64,
    middle: i64,
    end: i64,
)
    requires
        start <= middle <= end,
        groups.len() == plan.groups.len(),
    ensures
        ({
            let left = in_range(plan, groups, FileRange { start, end: middle });
            let right = in_range(plan, groups, FileRange { start: middle, end });
            let both = in_range(plan, groups, FileRange { start, end });
            &&& narrows(plan, left)
            &&& narrows(plan, right)
            &&& forall|i: int|
                0 <= i < plan.groups.len() ==> {
                    ||| (#[trigger] left.groups[i]) is Skip && right.groups[i] == both.groups[i]
                    ||| left.groups[i] == both.groups[i] && right.groups[i] is Skip
                }
        }),
{
}

/// A limit that the fully matched row groups can meet leaves only such row groups,
/// read as before, and they hold at least that many rows.
pub proof fn law_limit_keeps_enough_rows(
    plan: PlanModel,
    groups: Seq<RowGroupMetaData>,
    limit: nat,
)
    requires
        plan.wf(),
        groups.len() == plan.groups.len(),
        limit_satisfied(plan, groups, limit),
    ensures
        ({
            let kept = limit_kept(plan, groups, limit);
            let after = restricted(plan, groups.len(), kept);
            &&& narrows(plan, after)
            &&& scanned(after.groups) == kept
            &&& forall|i: int|
                0 <= i < plan.groups.len() && !((#[trigger] after.groups[i]) is Skip)
                    ==> plan.fully_matched[i]
            &&& rows_in(after, groups, scanned(after.groups)) >= limit
        }),
{
    let all = flagged(plan.fully_matched);
    let kept = limit_kept(plan, groups, limit);
    let after = restricted(plan, groups.len(), kept);
    lemma_flagged(plan.fully_matched);
    lemma_limit_prefix_of(plan, groups, all, limit);
    lemma_scanned(after.groups);
    assert forall|k: int| 0 <= k < kept.len() implies kept[k] == all[k] by {}
    assert forall|k: int| 0 <= k < kept.len() implies scanned(after.groups).contains(
        #[trigger] kept[k],
    ) by {
        let i = all[k] as int;
        assert(plan.fully_matched[i]);
        assert(kept.contains(i as usize));
        assert(!(after.groups[i] is Skip));
    }
    lemma_sorted_equal(scanned(after.groups), kept);
    lemma_rows_in_same(plan, after, groups, kept);
    assert forall|i: int|
        0 <= i < plan.groups.len() && !((#[trigger] after.groups[i]) is Skip) implies
        plan.fully_matched[i] by {
        assert(kept.contains(i as usize));
        let k = choose|k: int| 0 <= k < kept.len() && kept[k] == i as usize;
        assert(all[k] == i as usize);
    }
}

/// What a limit needs is a prefix.
pub proof fn lemma_limit_prefix_of(
    plan: PlanModel,
    groups: Seq<RowGroupMetaData>,
    indexes: Seq<usize>,
    limit: nat,
)
    ensures
        limit_prefix(plan, groups, indexes, limit).is_prefix_of(indexes),
    decreases indexes.len(),
{
    if indexes.len() > 1 && rows_in(plan, groups, indexes.drop_last()) >= limit {
        lemma_limit_prefix_of(plan, groups, indexes.drop_last(), limit);
    }
}

/// Two plans read as many rows of row groups that they read alike.
proof fn lemma_rows_in_same(
    plan: PlanModel,
    other: PlanModel,
    groups: Seq<RowGroupMetaData>,
    indexes: Seq<usize>,
)
    requires
        forall|k: int|
            0 <= k < indexes.len() ==> other.groups[(#[trigger] indexes[k]) as int]
                == plan.groups[indexes[k] as int],
    ensures
        rows_in(other, groups, indexes) == rows_in(plan, groups, indexes),
    decreases indexes.len(),
{
    if indexes.len() > 0 {
        lemma_rows_in_same(plan, other, groups, indexes.drop_last());
        assert(other.groups[indexes[indexes.len() - 1] as int]
            == plan.groups[indexes[indexes.len() - 1] as int]);
    }
}

/// Strictly rising lists of the same values are equal.
pub proof fn lemma_sorted_equal(a: Seq<usize>, b: Seq<usize>)
    requires
        forall|j: int, k: int| 0 <= j < k < a.len() ==> a[j] < a[k],
        forall|j: int, k: int| 0 <= j < k < b.len() ==> b[j] < b[k],
        forall|k: int| 0 <= k < a.len() ==> b.contains(#[trigger] a[k]),
        forall|k: int| 0 <= k < b.len() ==> a.contains(#[trigger] b[k]),
    ensures
        a == b,
    decreases a.len(),
{
    lemma_sorted_subset(a, b);
    lemma_sorted_subset(b, a);
    if a.len() > 0 {
        let front = a.drop_last();
        let other = b.drop_last();
        assert(b.contains(a[a.len() - 1]));
        assert(a.contains(b[b.len() - 1]));
        assert forall|k: int| 0 <= k < front.len() implies other.contains(#[trigger] front[k]) by {
            assert(b.contains(a[k]));
            let m = choose|m: int| 0 <= m < b.len() && b[m] == a[k];
            assert(other[m] == front[k]);
        }
        assert forall|k: int| 0 <= k < other.len() implies front.contains(#[trigger] other[k]) by {
            assert(a.contains(b[k]));
            let m = choose|m: int| 0 <= m < a.len() && a[m] == b[k];
            assert(front[m] == other[k]);
        }
        lemma_sorted_equal(front, other);
        assert(a =~= front.push(a.last()));
        assert(b =~= other.push(b.last()));
        let m = choose|m: int| 0 <= m < b.len() && b[m] == a.last();
        let n = choose|n: int| 0 <= n < a.len() && a[n] == b.last();
        assert(a.last() == b.last());
    }
    assert(a =~= b);
}

} // verus!

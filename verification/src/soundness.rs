//! That what a plan leaves out holds no row that is asked for.
//!
//! What the predicate comes to on each row of the file stands here for the file itself:
//! `outcome` gives it for a row group and a row of it, `None` for `NULL`.

use crate::access_plan::{lemma_scanned, reads_row, scanned, AccessModel, PlanModel};
use crate::bloom::bloom_judged;
use crate::inversion::{
    column_models, is_inverse, keeps_row, law_the_inverse_keeps_what_the_predicate_does_not,
    ColumnModel, InvertedPredicate, PredicateColumn,
};
use crate::metadata::{FileRange, RowGroupMetaData};
use crate::row_group_filter::{
    bloom_applied, bloom_evaluated, flagged, in_range, inverse_applied, inverse_evaluated,
    inverse_rules_out, kept_by, law_limit_keeps_enough_rows, law_statistics_go_by_verdicts,
    lemma_flagged, lemma_kept_by, lemma_limit_prefix_of, lemma_rows_in_prefix, lemma_sorted_equal,
    limit_kept, limit_prefix, limit_satisfied, restricted, rows_in, rows_of, ruled_out, rules_out,
    statistics_evaluated, unknown_count, verdict_views, with_full_matches, without_ruled_out,
    BloomMetrics, MissingNullCount, StatisticsMetrics,
};
use crate::selection::selected_count;
use datafusion_datasource_parquet::BloomFilterStatistics;
use vstd::prelude::*;

verus! {

/// Whether no row of a row group that a predicate is found to rule out matches it.
pub open spec fn rules_out_rightly<F>(
    evaluate: F,
    groups: Seq<RowGroupMetaData>,
    outcome: spec_fn(int, int) -> Option<bool>,
) -> bool where F: FnOnce(&Vec<usize>, MissingNullCount) -> Option<Vec<bool>> {
    forall|indexes: &Vec<usize>, verdicts: Vec<bool>| #[trigger]
        call_ensures(evaluate, (indexes, MissingNullCount::Zero), Some(verdicts)) ==> forall|
            k: int,
            row: int,
        |
            0 <= k < indexes@.len() && !verdicts@[k] && 0 <= row
                < groups[indexes@[k] as int].num_rows ==> #[trigger] outcome(
                indexes@[k] as int,
                row,
            ) != Some(true)
}

/// Whether no row of a row group that an inverse is found to rule out is kept by it,
/// where nulls are not taken to be absent for want of a count of them.
pub open spec fn inverse_rules_out_rightly<G>(
    evaluate: G,
    groups: Seq<RowGroupMetaData>,
    outcome: spec_fn(int, int) -> Option<bool>,
    is_null: spec_fn(int, int, ColumnModel) -> bool,
) -> bool where G: FnOnce(&InvertedPredicate, &Vec<usize>, MissingNullCount) -> Option<Vec<bool>> {
    forall|inverse: &InvertedPredicate, indexes: &Vec<usize>, verdicts: Vec<bool>| #[trigger]
        call_ensures(evaluate, (inverse, indexes, MissingNullCount::Unknown), Some(verdicts))
            ==> forall|k: int, row: int|
            0 <= k < indexes@.len() && !verdicts@[k] && 0 <= row
                < groups[indexes@[k] as int].num_rows ==> !keeps_row(
                inverse.model(),
                #[trigger] outcome(indexes@[k] as int, row),
                |column: ColumnModel| is_null(indexes@[k] as int, row, column),
            )
}

/// Whether the predicate is `NULL` only of rows in which one of its columns is null, and
/// only columns that can be null are.
pub open spec fn nulls_come_from_columns(
    columns: Seq<ColumnModel>,
    nullable: Seq<bool>,
    outcome: Option<bool>,
    is_null: spec_fn(ColumnModel) -> bool,
) -> bool {
    &&& outcome is None ==> exists|i: int| 0 <= i < columns.len() && is_null(#[trigger] columns[i])
    &&& forall|i: int|
        0 <= i < columns.len() && is_null(#[trigger] columns[i])
            ==> nullable[columns[i].index as int]
}

/// Pruning by statistics loses no row that matches, and finds a row group to be fully
/// matched only where every row of it matches, those with nulls too.
pub proof fn law_statistics_lose_no_matching_row<F, G>(
    columns: Seq<PredicateColumn>,
    nullable: Seq<bool>,
    evaluate: F,
    evaluate_inverse: G,
    before: PlanModel,
    after: PlanModel,
    metrics: StatisticsMetrics,
    groups: Seq<RowGroupMetaData>,
    outcome: spec_fn(int, int) -> Option<bool>,
    is_null: spec_fn(int, int, ColumnModel) -> bool,
    index: int,
    row: int,
) where
    F: FnOnce(&Vec<usize>, MissingNullCount) -> Option<Vec<bool>>,
    G: FnOnce(&InvertedPredicate, &Vec<usize>, MissingNullCount) -> Option<Vec<bool>>,

    requires
        before.wf(),
        groups.len() == before.groups.len(),
        statistics_evaluated(
            columns,
            nullable,
            evaluate,
            evaluate_inverse,
            before,
            after,
            metrics,
        ),
        rules_out_rightly(evaluate, groups, outcome),
        inverse_rules_out_rightly(evaluate_inverse, groups, outcome, is_null),
        0 <= index < groups.len(),
        0 <= row < groups[index].num_rows,
        nulls_come_from_columns(
            column_models(columns),
            nullable,
            outcome(index, row),
            |column: ColumnModel| is_null(index, row, column),
        ),
    ensures
        outcome(index, row) == Some(true) && reads_row(before.groups[index], row) ==> reads_row(
            after.groups[index],
            row,
        ),
        reads_row(after.groups[index], row) ==> reads_row(before.groups[index], row),
        after.fully_matched[index] && !before.fully_matched[index] ==> outcome(index, row) == Some(
            true,
        ),
{
    law_statistics_go_by_verdicts(
        columns,
        nullable,
        evaluate,
        evaluate_inverse,
        before,
        after,
        metrics,
        index,
    );
    if rules_out(evaluate, index) {
        let (indexes, verdicts) = choose|indexes: &Vec<usize>, verdicts: Vec<bool>|
            {
                &&& #[trigger] call_ensures(
                    evaluate,
                    (indexes, MissingNullCount::Zero),
                    Some(verdicts),
                )
                &&& ruled_out(indexes@, verdicts@, index)
            };
        let k = choose|k: int|
            0 <= k < indexes@.len() && #[trigger] indexes@[k] == index && !verdicts@[k];
        assert(outcome(indexes@[k] as int, row) != Some(true));
    }
    if inverse_rules_out(columns, nullable, evaluate_inverse, index) {
        let (inverse, indexes, verdicts) = choose|
            inverse: &InvertedPredicate,
            indexes: &Vec<usize>,
            verdicts: Vec<bool>,
        |
            {
                &&& is_inverse(column_models(columns), nullable, inverse.model())
                &&& #[trigger] call_ensures(
                    evaluate_inverse,
                    (inverse, indexes, MissingNullCount::Unknown),
                    Some(verdicts),
                )
                &&& ruled_out(indexes@, verdicts@, index)
            };
        let k = choose|k: int|
            0 <= k < indexes@.len() && #[trigger] indexes@[k] == index && !verdicts@[k];
        let here = |column: ColumnModel| is_null(index, row, column);
        assert(!keeps_row(
            inverse.model(),
            outcome(indexes@[k] as int, row),
            |column: ColumnModel| is_null(indexes@[k] as int, row, column),
        ));
        law_the_inverse_keeps_what_the_predicate_does_not(
            column_models(columns),
            nullable,
            inverse.model(),
            outcome(index, row),
            here,
        );
    }
}

/// What is kept of a rising list rises.
proof fn lemma_kept_rises(indexes: Seq<usize>, verdicts: Seq<bool>)
    requires
        forall|j: int, k: int| 0 <= j < k < indexes.len() ==> indexes[j] < indexes[k],
    ensures
        forall|j: int, k: int|
            0 <= j < k < kept_by(indexes, verdicts).len() ==> (#[trigger] kept_by(
                indexes,
                verdicts,
            )[j]) < (#[trigger] kept_by(indexes, verdicts)[k]),
        forall|k: int|
            0 <= k < indexes.len() ==> kept_by(indexes, verdicts).contains(#[trigger] indexes[k])
                == verdicts[k],
    decreases indexes.len(),
{
    if indexes.len() > 0 {
        let front = indexes.drop_last();
        let last = indexes.len() - 1;
        lemma_kept_rises(front, verdicts);
        lemma_kept_by(front, verdicts);
        let kept = kept_by(indexes, verdicts);
        let earlier = kept_by(front, verdicts);
        assert forall|k: int| 0 <= k < earlier.len() implies (#[trigger] earlier[k])
            < indexes[last] by {
            assert(front.contains(earlier[k]));
            let j = choose|j: int| 0 <= j < front.len() && front[j] == earlier[k];
            assert(indexes[j] < indexes[last]);
        }
        assert forall|j: int, k: int| 0 <= j < k < kept.len() implies (#[trigger] kept[j]) < (
        #[trigger] kept[k]) by {
            assert(kept[j] == earlier[j]);
            if k < earlier.len() {
                assert(kept[k] == earlier[k]);
            }
        }
        assert forall|k: int| 0 <= k < indexes.len() implies kept.contains(#[trigger] indexes[k])
            == verdicts[k] by {
            if k < last {
                assert(earlier.contains(front[k]) == verdicts[k]);
                if kept.contains(indexes[k]) {
                    let m = choose|m: int| 0 <= m < kept.len() && kept[m] == indexes[k];
                    assert(indexes[k] < indexes[last]);
                    assert(earlier[m] == front[k]);
                }
                if earlier.contains(front[k]) {
                    let m = choose|m: int| 0 <= m < earlier.len() && earlier[m] == front[k];
                    assert(kept[m] == indexes[k]);
                }
            } else {
                if verdicts[k] {
                    assert(kept[kept.len() - 1] == indexes[k]);
                } else if kept.contains(indexes[k]) {
                    let m = choose|m: int| 0 <= m < kept.len() && kept[m] == indexes[k];
                    assert(earlier[m] < indexes[last]);
                }
            }
        }
    }
}

/// Pruning by statistics takes every row group away that the predicate rules out, however
/// it was asked, and where it could not be evaluated it takes none away. Each row group
/// that was to be read is counted once, and those that still are as matched.
pub proof fn law_statistics_take_what_is_ruled_out<F, G>(
    columns: Seq<PredicateColumn>,
    nullable: Seq<bool>,
    evaluate: F,
    evaluate_inverse: G,
    before: PlanModel,
    after: PlanModel,
    metrics: StatisticsMetrics,
    index: int,
) where
    F: FnOnce(&Vec<usize>, MissingNullCount) -> Option<Vec<bool>>,
    G: FnOnce(&InvertedPredicate, &Vec<usize>, MissingNullCount) -> Option<Vec<bool>>,

    requires
        before.wf(),
        0 <= index < before.groups.len(),
        statistics_evaluated(
            columns,
            nullable,
            evaluate,
            evaluate_inverse,
            before,
            after,
            metrics,
        ),
    ensures
        (forall|indexes: &Vec<usize>, verdicts: Option<Vec<bool>>| #[trigger]
            call_ensures(evaluate, (indexes, MissingNullCount::Zero), verdicts) ==> verdicts
                is None) ==> after == before && metrics.evaluation_errors == 1,
        (forall|indexes: &Vec<usize>, verdicts: Option<Vec<bool>>| #[trigger]
            call_ensures(evaluate, (indexes, MissingNullCount::Zero), verdicts) ==> {
            &&& verdicts is Some
            &&& forall|k: int|
                0 <= k < indexes@.len() && #[trigger] indexes@[k] == index ==> !verdicts->0@[k]
        }) ==> after.groups[index] is Skip && !after.fully_matched[index],
        metrics.evaluation_errors == 0 ==> {
            &&& metrics.pruned + metrics.matched == scanned(before.groups).len()
            &&& metrics.matched == scanned(after.groups).len()
        },
        metrics.evaluation_errors != 0 ==> {
            &&& after == before
            &&& metrics.evaluation_errors == 1
            &&& metrics.pruned == 0
            &&& metrics.matched == 0
            &&& metrics.fully_matched == 0
        },
        before.fully_matched[index] && !(after.groups[index] is Skip) ==> after.fully_matched[index],
{
    let (indexes, verdicts) = choose|indexes: &Vec<usize>, verdicts: Option<Vec<bool>>|
        {
            &&& indexes@ == scanned(before.groups)
            &&& #[trigger] call_ensures(evaluate, (indexes, MissingNullCount::Zero), verdicts)
            &&& match verdicts {
                None => after == before && metrics == (StatisticsMetrics {
                    pruned: 0,
                    matched: 0,
                    fully_matched: 0,
                    evaluation_errors: 1,
                }),
                Some(verdicts) => {
                    let narrowed = without_ruled_out(before, indexes@, verdicts@);
                    let left = kept_by(indexes@, verdicts@);
                    &&& metrics.pruned == indexes@.len() - left.len()
                    &&& metrics.matched == left.len()
                    &&& metrics.evaluation_errors == 0
                    &&& left.len() == 0 ==> after == narrowed && metrics.fully_matched == 0
                    &&& left.len() > 0 ==> inverse_evaluated(
                        columns,
                        nullable,
                        evaluate_inverse,
                        left,
                        narrowed,
                        after,
                        metrics.fully_matched as int,
                    )
                },
            }
        };
    lemma_scanned(before.groups);
    match verdicts {
        None => {},
        Some(verdicts) => {
            let left = kept_by(indexes@, verdicts@);
            let narrowed = without_ruled_out(before, indexes@, verdicts@);
            assert(after.groups == narrowed.groups);
            lemma_scanned(after.groups);
            lemma_kept_by(indexes@, verdicts@);
            lemma_kept_rises(indexes@, verdicts@);
            assert forall|k: int| 0 <= k < left.len() implies scanned(after.groups).contains(
                #[trigger] left[k],
            ) by {
                assert(indexes@.contains(left[k]));
                let m = choose|m: int| 0 <= m < indexes@.len() && indexes@[m] == left[k];
                assert(left.contains(indexes@[m]));
                if ruled_out(indexes@, verdicts@, left[k] as int) {
                    let n = choose|n: int|
                        0 <= n < indexes@.len() && #[trigger] indexes@[n] == left[k]
                            && !verdicts@[n];
                    assert(n == m);
                }
                assert(!(after.groups[left[k] as int] is Skip));
            }
            assert forall|k: int| 0 <= k < scanned(after.groups).len() implies left.contains(
                #[trigger] scanned(after.groups)[k],
            ) by {
                let i = scanned(after.groups)[k] as int;
                assert(!(after.groups[i] is Skip));
                assert(!(before.groups[i] is Skip));
                assert(indexes@.contains(i as usize));
                let m = choose|m: int| 0 <= m < indexes@.len() && indexes@[m] == i as usize;
                assert(indexes@[m] == i);
                assert(verdicts@[m]);
                assert(left.contains(indexes@[m]));
            }
            lemma_sorted_equal(scanned(after.groups), left);
            if !(before.groups[index] is Skip) {
                assert(indexes@.contains(index as usize));
                let m = choose|m: int| 0 <= m < indexes@.len() && indexes@[m] == index as usize;
                assert(indexes@[m] == index);
            }
        },
    }
}

/// A row group that is read and that the inverse of the predicate rules out, however it
/// was asked, is found to be fully matched.
pub proof fn law_full_matches_are_found<F, G>(
    columns: Seq<PredicateColumn>,
    nullable: Seq<bool>,
    evaluate: F,
    evaluate_inverse: G,
    before: PlanModel,
    after: PlanModel,
    metrics: StatisticsMetrics,
    index: int,
) where
    F: FnOnce(&Vec<usize>, MissingNullCount) -> Option<Vec<bool>>,
    G: FnOnce(&InvertedPredicate, &Vec<usize>, MissingNullCount) -> Option<Vec<bool>>,

    requires
        before.wf(),
        0 <= index < before.groups.len(),
        !(before.groups[index] is Skip),
        statistics_evaluated(
            columns,
            nullable,
            evaluate,
            evaluate_inverse,
            before,
            after,
            metrics,
        ),
        forall|indexes: &Vec<usize>, verdicts: Option<Vec<bool>>| #[trigger]
            call_ensures(evaluate, (indexes, MissingNullCount::Zero), verdicts) ==> {
                &&& verdicts is Some
                &&& forall|k: int|
                    0 <= k < indexes@.len() && #[trigger] indexes@[k] == index ==> verdicts->0@[k]
            },
        forall|inverse: &InvertedPredicate, indexes: &Vec<usize>, verdicts: Option<Vec<bool>>|
         #[trigger]
            call_ensures(evaluate_inverse, (inverse, indexes, MissingNullCount::Unknown), verdicts)
                ==> {
                &&& verdicts is Some
                &&& forall|k: int|
                    0 <= k < indexes@.len() && #[trigger] indexes@[k] == index ==> !verdicts->0@[k]
            },
    ensures
        after.fully_matched[index],
        after.groups[index] == before.groups[index],
{
    let (indexes, verdicts) = choose|indexes: &Vec<usize>, verdicts: Option<Vec<bool>>|
        {
            &&& indexes@ == scanned(before.groups)
            &&& #[trigger] call_ensures(evaluate, (indexes, MissingNullCount::Zero), verdicts)
            &&& match verdicts {
                None => after == before && metrics == (StatisticsMetrics {
                    pruned: 0,
                    matched: 0,
                    fully_matched: 0,
                    evaluation_errors: 1,
                }),
                Some(verdicts) => {
                    let narrowed = without_ruled_out(before, indexes@, verdicts@);
                    let left = kept_by(indexes@, verdicts@);
                    &&& metrics.pruned == indexes@.len() - left.len()
                    &&& metrics.matched == left.len()
                    &&& metrics.evaluation_errors == 0
                    &&& left.len() == 0 ==> after == narrowed && metrics.fully_matched == 0
                    &&& left.len() > 0 ==> inverse_evaluated(
                        columns,
                        nullable,
                        evaluate_inverse,
                        left,
                        narrowed,
                        after,
                        metrics.fully_matched as int,
                    )
                },
            }
        };
    lemma_scanned(before.groups);
    assert(indexes@.contains(index as usize));
    let m = choose|m: int| 0 <= m < indexes@.len() && indexes@[m] == index as usize;
    assert(indexes@[m] == index);
    let verdicts = verdicts->0;
    let left = kept_by(indexes@, verdicts@);
    lemma_kept_rises(indexes@, verdicts@);
    assert(left.contains(indexes@[m]));
    let n = choose|n: int| 0 <= n < left.len() && left[n] == indexes@[m];
    assert(left[n] == index);
    if ruled_out(indexes@, verdicts@, index) {
        let k = choose|k: int|
            0 <= k < indexes@.len() && #[trigger] indexes@[k] == index && !verdicts@[k];
        assert(verdicts@[k]);
    }
}

/// Pruning by bloom filters loses no row that matches. It takes every row group away that
/// they rule out, and none of which they could not be evaluated.
pub proof fn law_bloom_filters_lose_no_matching_row<F>(
    evaluate: F,
    before: PlanModel,
    filters: Seq<BloomFilterStatistics>,
    verdicts: Seq<Option<bool>>,
    after: PlanModel,
    metrics: BloomMetrics,
    groups: Seq<RowGroupMetaData>,
    outcome: spec_fn(int, int) -> Option<bool>,
    index: int,
    row: int,
) where F: Fn(&BloomFilterStatistics) -> Option<Vec<bool>>
    requires
        before.wf(),
        filters.len() == before.groups.len(),
        bloom_evaluated(evaluate, before, filters, verdicts),
        bloom_applied(before, verdicts, after, metrics),
        0 <= index < before.groups.len(),
        forall|containers: Vec<bool>| #[trigger]
            call_ensures(evaluate, (&filters[index],), Some(containers)) && !containers@[0]
                ==> outcome(index, row) != Some(true),
    ensures
        outcome(index, row) == Some(true) && reads_row(before.groups[index], row) ==> reads_row(
            after.groups[index],
            row,
        ),
        reads_row(after.groups[index], row) ==> reads_row(before.groups[index], row),
        (forall|containers: Option<Vec<bool>>| #[trigger]
            call_ensures(evaluate, (&filters[index],), containers) ==> containers is None)
            ==> after.groups[index] == before.groups[index] && after.fully_matched[index]
            == before.fully_matched[index],
        !(before.groups[index] is Skip) && (forall|containers: Option<Vec<bool>>| #[trigger]
            call_ensures(evaluate, (&filters[index],), containers) ==> containers is Some
                && !containers->0@[0]) ==> after.groups[index] is Skip,
        metrics.pruned + metrics.matched == scanned(before.groups).len(),
        metrics.matched == scanned(after.groups).len(),
{
    if !(before.groups[index] is Skip) {
        assert(bloom_judged(evaluate, filters[index], verdicts[index]));
    }
}

/// Within a range of the file exactly the row groups are read that were, and whose first
/// page, of the dictionary where there is one, lies in the range: from its start on, and
/// before its end.
pub proof fn law_a_range_reads_what_starts_in_it(
    plan: PlanModel,
    groups: Seq<RowGroupMetaData>,
    range: FileRange,
    index: int,
)
    requires
        plan.wf(),
        groups.len() == plan.groups.len(),
        0 <= index < groups.len(),
    ensures
        ({
            let first = groups[index].columns@[0];
            let offset = match first.dictionary_page_offset {
                Some(dictionary) => dictionary,
                None => first.data_page_offset,
            };
            let after = in_range(plan, groups, range);
            &&& after.groups.len() == plan.groups.len()
            &&& if range.start <= offset && offset < range.end {
                after.groups[index] == plan.groups[index] && after.fully_matched[index]
                    == plan.fully_matched[index]
            } else {
                after.groups[index] is Skip && !after.fully_matched[index]
            }
        }),
{
}

/// The number of rows that a mask selects is the number of flags in it that are set.
pub proof fn law_selected_rows_are_the_set_flags(mask: Seq<bool>)
    ensures
        selected_count(mask) == mask.filter(|flag: bool| flag).len(),
    decreases mask.len(),
{
    reveal(Seq::filter);
    if mask.len() > 0 {
        law_selected_rows_are_the_set_flags(mask.drop_last());
    }
}

/// What is counted of a row group are the rows of it that are read.
pub proof fn law_rows_are_counted_as_read(access: AccessModel, num_rows: nat)
    requires
        access matches AccessModel::Selection(mask) ==> mask.len() == num_rows,
    ensures
        rows_of(access, num_rows) == Seq::new(num_rows, |row: int| reads_row(access, row)).filter(
            |read: bool| read,
        ).len(),
{
    let read = Seq::new(num_rows, |row: int| reads_row(access, row));
    law_selected_rows_are_the_set_flags(read);
    match access {
        AccessModel::Selection(mask) => {
            assert(read =~= mask);
        },
        AccessModel::Scan => lemma_all_read(read, true),
        AccessModel::Skip => lemma_all_read(read, false),
    }
}

/// Of equal flags all are set or none.
pub proof fn lemma_all_read(read: Seq<bool>, flag: bool)
    requires
        forall|i: int| 0 <= i < read.len() ==> #[trigger] read[i] == flag,
    ensures
        selected_count(read) == if flag {
            read.len()
        } else {
            0
        },
    decreases read.len(),
{
    if read.len() > 0 {
        lemma_all_read(read.drop_last(), flag);
    }
}

/// A limit is met by fully matched row groups exactly where all of these together hold
/// that many rows. As few are kept as will do, the first in the file: without the last of
/// them the limit would not be met.
pub proof fn law_a_limit_keeps_just_enough(
    plan: PlanModel,
    groups: Seq<RowGroupMetaData>,
    limit: nat,
)
    requires
        plan.wf(),
        groups.len() == plan.groups.len(),
    ensures
        limit_satisfied(plan, groups, limit) <==> rows_in(
            plan,
            groups,
            flagged(plan.fully_matched),
        ) >= limit,
        limit_satisfied(plan, groups, limit) ==> {
            let after = restricted(plan, groups.len(), limit_kept(plan, groups, limit));
            let left = scanned(after.groups);
            &&& rows_in(plan, groups, left) >= limit
            &&& left.len() > 1 ==> rows_in(plan, groups, left.drop_last()) < limit
            &&& forall|i: int, j: int|
                0 <= i < j < plan.groups.len() && plan.fully_matched[i] && !(
                #[trigger] after.groups[j] is Skip) ==> !(#[trigger] after.groups[i] is Skip)
            &&& forall|i: int|
                0 <= i < plan.groups.len() && !(#[trigger] after.groups[i] is Skip)
                    ==> plan.fully_matched[i] && after.fully_matched[i] && after.groups[i]
                    == plan.groups[i]
        },
{
    let all = flagged(plan.fully_matched);
    let kept = limit_kept(plan, groups, limit);
    lemma_flagged(plan.fully_matched);
    lemma_limit_prefix_of(plan, groups, all, limit);
    lemma_rows_in_prefix(plan, groups, kept, all);
    lemma_limit_minimal(plan, groups, all, limit);
    if limit_satisfied(plan, groups, limit) {
        law_limit_keeps_enough_rows(plan, groups, limit);
        let after = restricted(plan, groups.len(), kept);
        assert forall|k: int| 0 <= k < kept.len() implies kept[k] == all[k] by {}
        assert forall|i: int, j: int|
            0 <= i < j < plan.groups.len() && plan.fully_matched[i] && !(#[trigger] after.groups[j] is Skip) implies !(
        #[trigger] after.groups[i] is Skip) by {
            assert(kept.contains(j as usize));
            let b = choose|b: int| 0 <= b < kept.len() && kept[b] == j as usize;
            assert(all.contains(i as usize));
            let a = choose|a: int| 0 <= a < all.len() && all[a] == i as usize;
            if a >= b {
                assert(all[b] == j as usize);
                if a > b {
                    assert(all[b] < all[a]);
                }
            }
            assert(kept[a] == i as usize);
            assert(kept.contains(i as usize));
        }
        assert forall|i: int|
            0 <= i < plan.groups.len() && !(#[trigger] after.groups[i] is Skip) implies
            plan.fully_matched[i] && after.fully_matched[i] && after.groups[i]
            == plan.groups[i] by {
            assert(kept.contains(i as usize));
        }
    }
}

/// The prefix that a limit needs has no shorter one that will do, and holds the limit where
/// the whole does.
proof fn lemma_limit_minimal(
    plan: PlanModel,
    groups: Seq<RowGroupMetaData>,
    indexes: Seq<usize>,
    limit: nat,
)
    ensures
        ({
            let prefix = limit_prefix(plan, groups, indexes, limit);
            &&& rows_in(plan, groups, indexes) >= limit ==> rows_in(plan, groups, prefix) >= limit
            &&& prefix.len() > 1 && rows_in(plan, groups, prefix) >= limit ==> rows_in(
                plan,
                groups,
                prefix.drop_last(),
            ) < limit
        }),
    decreases indexes.len(),
{
    if indexes.len() > 1 && rows_in(plan, groups, indexes.drop_last()) >= limit {
        lemma_limit_minimal(plan, groups, indexes.drop_last(), limit);
    }
}

/// Row groups that are found to be fully matched are counted, each once.
pub proof fn law_full_matches_are_counted<F, G>(
    columns: Seq<PredicateColumn>,
    nullable: Seq<bool>,
    evaluate: F,
    evaluate_inverse: G,
    before: PlanModel,
    after: PlanModel,
    metrics: StatisticsMetrics,
) where
    F: FnOnce(&Vec<usize>, MissingNullCount) -> Option<Vec<bool>>,
    G: FnOnce(&InvertedPredicate, &Vec<usize>, MissingNullCount) -> Option<Vec<bool>>,

    requires
        before.wf(),
        before.groups.len() <= usize::MAX,
        forall|i: int| 0 <= i < before.groups.len() ==> !#[trigger] before.fully_matched[i],
        statistics_evaluated(
            columns,
            nullable,
            evaluate,
            evaluate_inverse,
            before,
            after,
            metrics,
        ),
    ensures
        metrics.fully_matched == after.fully_matched.filter(|matched: bool| matched).len(),
{
    law_selected_rows_are_the_set_flags(after.fully_matched);
    let (indexes, verdicts) = choose|indexes: &Vec<usize>, verdicts: Option<Vec<bool>>|
        {
            &&& indexes@ == scanned(before.groups)
            &&& #[trigger] call_ensures(evaluate, (indexes, MissingNullCount::Zero), verdicts)
            &&& match verdicts {
                None => after == before && metrics == (StatisticsMetrics {
                    pruned: 0,
                    matched: 0,
                    fully_matched: 0,
                    evaluation_errors: 1,
                }),
                Some(verdicts) => {
                    let narrowed = without_ruled_out(before, indexes@, verdicts@);
                    let left = kept_by(indexes@, verdicts@);
                    &&& metrics.pruned == indexes@.len() - left.len()
                    &&& metrics.matched == left.len()
                    &&& metrics.evaluation_errors == 0
                    &&& left.len() == 0 ==> after == narrowed && metrics.fully_matched == 0
                    &&& left.len() > 0 ==> inverse_evaluated(
                        columns,
                        nullable,
                        evaluate_inverse,
                        left,
                        narrowed,
                        after,
                        metrics.fully_matched as int,
                    )
                },
            }
        };
    lemma_scanned(before.groups);
    if verdicts is None || kept_by(indexes@, verdicts->0@).len() == 0 {
        lemma_all_read(after.fully_matched, false);
    } else {
        let verdicts = verdicts->0;
        let narrowed = without_ruled_out(before, indexes@, verdicts@);
        let left = kept_by(indexes@, verdicts@);
        lemma_kept_by(indexes@, verdicts@);
        lemma_kept_rises(indexes@, verdicts@);
        let (inverse, candidates, inverse_verdicts) = choose|
            inverse: &InvertedPredicate,
            candidates: &Vec<usize>,
            verdicts: Option<Vec<bool>>,
        |
            {
                &&& is_inverse(column_models(columns), nullable, inverse.model())
                &&& candidates@ == left
                &&& #[trigger] call_ensures(
                    evaluate_inverse,
                    (inverse, candidates, MissingNullCount::Unknown),
                    verdicts,
                )
                &&& inverse_applied(
                    narrowed,
                    left,
                    verdict_views(verdicts),
                    after,
                    metrics.fully_matched as int,
                )
            };
        match inverse_verdicts {
            None => lemma_all_read(after.fully_matched, false),
            Some(flags) => {
                assert forall|k: int| 0 <= k < left.len() implies (#[trigger] left[k])
                    < narrowed.groups.len() && !(narrowed.groups[left[k] as int] is Skip) by {
                    assert(indexes@.contains(left[k]));
                    let m = choose|m: int| 0 <= m < indexes@.len() && indexes@[m] == left[k];
                    assert(left.contains(indexes@[m]));
                    if ruled_out(indexes@, verdicts@, left[k] as int) {
                        let n = choose|n: int|
                            0 <= n < indexes@.len() && #[trigger] indexes@[n] == left[k]
                                && !verdicts@[n];
                        assert(n == m);
                    }
                }
                lemma_marked(narrowed, left, flags@);
            },
        }
    }
}

/// Where no row group was fully matched, those that are marked are as many as the inverse
/// rules out.
proof fn lemma_marked(plan: PlanModel, left: Seq<usize>, flags: Seq<bool>)
    requires
        plan.wf(),
        plan.groups.len() <= usize::MAX,
        forall|i: int| 0 <= i < plan.groups.len() ==> !#[trigger] plan.fully_matched[i],
        forall|j: int, k: int| 0 <= j < k < left.len() ==> left[j] < left[k],
        forall|k: int|
            0 <= k < left.len() ==> (#[trigger] left[k]) < plan.groups.len() && !(
            plan.groups[left[k] as int] is Skip),
    ensures
        selected_count(with_full_matches(plan, left, flags).fully_matched) + kept_by(
            left,
            flags,
        ).len() == left.len(),
    decreases left.len(),
{
    let marked = with_full_matches(plan, left, flags).fully_matched;
    if left.len() == 0 {
        assert forall|i: int| 0 <= i < marked.len() implies #[trigger] marked[i] == false by {
            assert(!ruled_out(left, flags, i));
        }
        lemma_all_read(marked, false);
    } else {
        let front = left.drop_last();
        let last = left.last() as int;
        let earlier = with_full_matches(plan, front, flags).fully_matched;
        lemma_marked(plan, front, flags);
        assert forall|i: int| 0 <= i < marked.len() implies #[trigger] marked[i] == (earlier[i] || (i
            == last && !flags[left.len() - 1])) by {
            if ruled_out(front, flags, i) {
                let k = choose|k: int|
                    0 <= k < front.len() && #[trigger] front[k] == i && !flags[k];
                assert(left[k] == i);
            }
            if ruled_out(left, flags, i) {
                let k = choose|k: int| 0 <= k < left.len() && #[trigger] left[k] == i && !flags[k];
                if k < front.len() {
                    assert(front[k] == i);
                }
            }
            if i == last && !flags[left.len() - 1] {
                assert(left[left.len() - 1] == i);
            }
        }
        if ruled_out(front, flags, last) {
            let k = choose|k: int|
                0 <= k < front.len() && #[trigger] front[k] == last && !flags[k];
            assert(left[k] < left[left.len() - 1]);
        }
        assert(!earlier[last]);
        if flags[left.len() - 1] {
            assert(marked =~= earlier);
        } else {
            assert(marked =~= earlier.update(last, true));
            lemma_one_more(earlier, last);
        }
    }
}

/// Setting a flag counts one more.
proof fn lemma_one_more(flags: Seq<bool>, place: int)
    requires
        0 <= place < flags.len(),
        !flags[place],
    ensures
        selected_count(flags.update(place, true)) == selected_count(flags) + 1,
    decreases flags.len(),
{
    if place == flags.len() - 1 {
        assert(flags.update(place, true).drop_last() =~= flags.drop_last());
    } else {
        assert(flags.update(place, true).drop_last() =~= flags.drop_last().update(place, true));
        lemma_one_more(flags.drop_last(), place);
    }
}

/// Row groups that are read and whose bloom filters could not be evaluated are counted,
/// each once.
pub proof fn law_unknown_verdicts_are_counted(
    groups: Seq<AccessModel>,
    verdicts: Seq<Option<bool>>,
)
    ensures
        unknown_count(groups, verdicts) == Seq::new(
            verdicts.len(),
            |i: int| !(groups[i] is Skip) && verdicts[i] is None,
        ).filter(|unknown: bool| unknown).len(),
    decreases verdicts.len(),
{
    let unknown = Seq::new(verdicts.len(), |i: int| !(groups[i] is Skip) && verdicts[i] is None);
    law_selected_rows_are_the_set_flags(unknown);
    if verdicts.len() > 0 {
        let front = verdicts.drop_last();
        law_unknown_verdicts_are_counted(groups, front);
        let earlier = Seq::new(front.len(), |i: int| !(groups[i] is Skip) && front[i] is None);
        law_selected_rows_are_the_set_flags(earlier);
        assert(unknown.drop_last() =~= earlier);
    }
}

} // verus!

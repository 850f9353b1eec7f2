//! What the calls that change a plan or a running scan come to, whatever they are made
//! with.
//!
//! `before` and `after` are what a call was made on and what it left: a call of `function`
//! may leave `after` where `call_ensures` holds of a reference from `before` to `after`.

use crate::access_plan::{
    law_changes_stay_with_their_row_group, reads_row, scanned, AccessModel, ParquetAccessPlan,
    RowGroupAccess,
};
use crate::decoder::{decoder_at_boundary, decoder_finished, decoder_frontier, decoder_settings};
use crate::decoder_config::BuilderSettings;
use crate::error::PlanError;
use crate::inversion::{column_models, ColumnModel, InvertedPredicate, PredicateColumn};
use crate::metadata::{FileRange, RowGroupMetaData};
use crate::opener::{prune_bloom_filters, PruningOptions};
use crate::pruner::{
    law_a_pruner_goes_by_the_predicate_as_it_stands,
    law_row_groups_are_skipped_only_where_all_are_ruled_out, PruneOutcome, RowGroupPruner,
};
use crate::push_decoder::{
    from_target, law_pruning_while_running_drops_nothing_that_is_needed,
    law_the_plan_is_brought_to_the_first_place_of_its_target, BoundaryReport,
    PushDecoderStreamState, ScanError, ScanStage,
};
use crate::row_group_filter::{
    bloom_applied, bloom_evaluated, flagged, rows_in, BloomMetrics, MissingNullCount,
    RowGroupAccessPlanFilter, StatisticsMetrics,
};
use crate::soundness::{
    inverse_rules_out_rightly, law_a_limit_keeps_just_enough, law_a_range_reads_what_starts_in_it,
    law_bloom_filters_lose_no_matching_row, law_statistics_lose_no_matching_row,
    nulls_come_from_columns, rules_out_rightly,
};
use datafusion_datasource_parquet::BloomFilterStatistics;
use vstd::prelude::*;

verus! {

/// Setting how a row group is read sets just that, and what is not read is not fully
/// matched.
pub proof fn law_setting_an_access_sets_just_that(
    before: ParquetAccessPlan,
    after: ParquetAccessPlan,
    idx: usize,
    access: RowGroupAccess,
    other: int,
)
    requires
        before@.wf(),
        idx < before@.groups.len(),
        0 <= other < before@.groups.len(),
        exists|plan: &mut ParquetAccessPlan|
            *plan == before && *final(plan) == after && #[trigger] call_ensures(
                ParquetAccessPlan::set,
                (plan, idx, access),
                (),
            ),
    ensures
        after@.groups.len() == before@.groups.len(),
        after@.groups[idx as int] == access@,
        access is Skip ==> !after@.fully_matched[idx as int],
        !(access is Skip) ==> after@.fully_matched[idx as int]
            == before@.fully_matched[idx as int],
        other != idx ==> after@.groups[other] == before@.groups[other]
            && after@.fully_matched[other] == before@.fully_matched[other],
{
    law_changes_stay_with_their_row_group(before@, idx as int, access@, other);
}

/// Skipping a row group skips just that one.
pub proof fn law_skipping_a_row_group_skips_just_that(
    before: ParquetAccessPlan,
    after: ParquetAccessPlan,
    idx: usize,
    other: int,
)
    requires
        before@.wf(),
        idx < before@.groups.len(),
        0 <= other < before@.groups.len(),
        exists|plan: &mut ParquetAccessPlan|
            *plan == before && *final(plan) == after && #[trigger] call_ensures(
                ParquetAccessPlan::skip,
                (plan, idx),
                (),
            ),
    ensures
        after@.groups[idx as int] is Skip,
        !after@.fully_matched[idx as int],
        other != idx ==> after@.groups[other] == before@.groups[other]
            && after@.fully_matched[other] == before@.fully_matched[other],
{
    law_changes_stay_with_their_row_group(before@, idx as int, AccessModel::Skip, other);
}

/// Marking a row group as fully matched marks just that one, and only where it is read. It
/// changes nothing of what is read.
pub proof fn law_marking_a_row_group_marks_just_that(
    before: ParquetAccessPlan,
    after: ParquetAccessPlan,
    idx: usize,
    other: int,
)
    requires
        before@.wf(),
        idx < before@.groups.len(),
        0 <= other < before@.groups.len(),
        exists|plan: &mut ParquetAccessPlan|
            *plan == before && *final(plan) == after && #[trigger] call_ensures(
                ParquetAccessPlan::mark_fully_matched,
                (plan, idx),
                (),
            ),
    ensures
        after@.groups == before@.groups,
        after@.fully_matched[idx as int] == !(before@.groups[idx as int] is Skip),
        other != idx ==> after@.fully_matched[other] == before@.fully_matched[other],
{
    law_changes_stay_with_their_row_group(before@, idx as int, AccessModel::Skip, other);
}

/// Pruning by a range keeps exactly the row groups whose first page lies in it.
pub proof fn law_pruning_by_a_range_keeps_what_starts_in_it(
    before: RowGroupAccessPlanFilter,
    after: RowGroupAccessPlanFilter,
    groups: &[RowGroupMetaData],
    range: FileRange,
    index: int,
)
    requires
        before@.wf(),
        before@.groups.len() == groups@.len(),
        0 <= index < groups@.len(),
        exists|filter: &mut RowGroupAccessPlanFilter|
            *filter == before && *final(filter) == after && #[trigger] call_ensures(
                RowGroupAccessPlanFilter::prune_by_range,
                (filter, groups, &range),
                (),
            ),
    ensures
        ({
            let first = groups@[index].columns@[0];
            let offset = match first.dictionary_page_offset {
                Some(dictionary) => dictionary,
                None => first.data_page_offset,
            };
            if range.start <= offset && offset < range.end {
                after@.groups[index] == before@.groups[index] && after@.fully_matched[index]
                    == before@.fully_matched[index]
            } else {
                after@.groups[index] is Skip && !after@.fully_matched[index]
            }
        }),
{
    law_a_range_reads_what_starts_in_it(before@, groups@, range, index);
}

/// Pruning by a limit changes nothing where the fully matched row groups hold fewer rows
/// than are asked for. Where they hold enough it keeps just enough of them, as they were
/// read, and counts the others.
pub proof fn law_pruning_by_a_limit_keeps_enough(
    before: RowGroupAccessPlanFilter,
    after: RowGroupAccessPlanFilter,
    limit: usize,
    groups: &[RowGroupMetaData],
    pruned: usize,
)
    requires
        before@.wf(),
        before@.groups.len() == groups@.len(),
        exists|filter: &mut RowGroupAccessPlanFilter|
            *filter == before && *final(filter) == after && #[trigger] call_ensures(
                RowGroupAccessPlanFilter::prune_by_limit,
                (filter, limit, groups),
                pruned,
            ),
    ensures
        rows_in(before@, groups@, flagged(before@.fully_matched)) < limit ==> after@ == before@
            && pruned == 0,
        rows_in(before@, groups@, flagged(before@.fully_matched)) >= limit ==> {
            let left = scanned(after@.groups);
            &&& rows_in(before@, groups@, left) >= limit
            &&& left.len() > 1 ==> rows_in(before@, groups@, left.drop_last()) < limit
            &&& forall|i: int|
                0 <= i < before@.groups.len() && !(#[trigger] after@.groups[i] is Skip)
                    ==> before@.fully_matched[i] && after@.groups[i] == before@.groups[i]
        },
{
    law_a_limit_keeps_just_enough(before@, groups@, limit as nat);
}

/// Pruning by statistics loses no row that matches, takes none in, and marks a row group as
/// fully matched only where every row of it matches.
pub proof fn law_pruning_by_statistics_loses_no_matching_row<F, G>(
    before: RowGroupAccessPlanFilter,
    after: RowGroupAccessPlanFilter,
    columns: Vec<PredicateColumn>,
    nullable: &[bool],
    evaluate: F,
    evaluate_inverse: G,
    metrics: StatisticsMetrics,
    groups: Seq<RowGroupMetaData>,
    outcome: spec_fn(int, int) -> Option<bool>,
    is_null: spec_fn(int, int, ColumnModel) -> bool,
    index: int,
    row: int,
) where
    F: FnOnce(&Vec<usize>, MissingNullCount) -> Option<Vec<bool>>,
    G: FnOnce(&InvertedPredicate, &Vec<usize>, MissingNullCount) -> Option<Vec<bool>>,

    requires
        before@.wf(),
        groups.len() == before@.groups.len(),
        exists|filter: &mut RowGroupAccessPlanFilter|
            *filter == before && *final(filter) == after && #[trigger] call_ensures(
                RowGroupAccessPlanFilter::prune_by_statistics::<F, G>,
                (filter, &columns, nullable, evaluate, evaluate_inverse),
                metrics,
            ),
        rules_out_rightly(evaluate, groups, outcome),
        inverse_rules_out_rightly(evaluate_inverse, groups, outcome, is_null),
        0 <= index < groups.len(),
        0 <= row < groups[index].num_rows,
        nulls_come_from_columns(
            column_models(columns@),
            nullable@,
            outcome(index, row),
            |column: ColumnModel| is_null(index, row, column),
        ),
    ensures
        outcome(index, row) == Some(true) && reads_row(before@.groups[index], row) ==> reads_row(
            after@.groups[index],
            row,
        ),
        reads_row(after@.groups[index], row) ==> reads_row(before@.groups[index], row),
        after@.fully_matched[index] && !before@.fully_matched[index] ==> outcome(index, row)
            == Some(true),
{
    law_statistics_lose_no_matching_row(
        columns@,
        nullable@,
        evaluate,
        evaluate_inverse,
        before@,
        after@,
        metrics,
        groups,
        outcome,
        is_null,
        index,
        row,
    );
}

/// Pruning by bloom filters loses no row that matches and takes none in. Without a
/// predicate, or where they are not enabled, it changes nothing.
pub proof fn law_pruning_by_bloom_filters_loses_no_matching_row<F>(
    before: RowGroupAccessPlanFilter,
    after: RowGroupAccessPlanFilter,
    has_predicate: bool,
    options: PruningOptions,
    filters: &[BloomFilterStatistics],
    evaluate: F,
    metrics: BloomMetrics,
    groups: Seq<RowGroupMetaData>,
    outcome: spec_fn(int, int) -> Option<bool>,
    index: int,
    row: int,
) where F: Fn(&BloomFilterStatistics) -> Option<Vec<bool>>
    requires
        before@.wf(),
        filters@.len() == before@.groups.len(),
        exists|filter: &mut RowGroupAccessPlanFilter|
            *filter == before && *final(filter) == after && #[trigger] call_ensures(
                prune_bloom_filters::<F>,
                (filter, has_predicate, options, filters, &evaluate),
                metrics,
            ),
        0 <= index < before@.groups.len(),
        forall|containers: Vec<bool>| #[trigger]
            call_ensures(evaluate, (&filters@[index],), Some(containers)) && !containers@[0]
                ==> outcome(index, row) != Some(true),
    ensures
        outcome(index, row) == Some(true) && reads_row(before@.groups[index], row) ==> reads_row(
            after@.groups[index],
            row,
        ),
        reads_row(after@.groups[index], row) ==> reads_row(before@.groups[index], row),
        !has_predicate || !options.enable_bloom_filter ==> {
            &&& after@ == before@
            &&& metrics.pruned == 0
            &&& metrics.matched == 0
            &&& metrics.evaluation_errors == 0
        },
        has_predicate && options.enable_bloom_filter && !(before@.groups[index] is Skip) && (forall|
            containers: Option<Vec<bool>>,
        | #[trigger]
            call_ensures(evaluate, (&filters@[index],), containers) ==> containers is Some
                && !containers->0@[0]) ==> after@.groups[index] is Skip,
{
    if has_predicate && options.enable_bloom_filter {
        let verdicts = choose|verdicts: Seq<Option<bool>>| #[trigger]
            bloom_evaluated(evaluate, before@, filters@, verdicts) && bloom_applied(
                before@,
                verdicts,
                after@,
                metrics,
            );
        law_bloom_filters_lose_no_matching_row(
            evaluate,
            before@,
            filters@,
            verdicts,
            after@,
            metrics,
            groups,
            outcome,
            index,
            row,
        );
    }
}

/// A pruner skips row groups only where the predicate, as it stands, rules every one of
/// them out.
pub proof fn law_a_pruner_skips_only_what_is_ruled_out<P, C, B, E>(
    before: RowGroupPruner<P>,
    after: RowGroupPruner<P>,
    indexes: &[usize],
    changed: C,
    build: B,
    evaluate: E,
    outcome: PruneOutcome,
) where
    C: Fn() -> bool,
    B: Fn() -> Option<P>,
    E: Fn(&P, &[usize], MissingNullCount) -> Option<Vec<bool>>,

    requires
        exists|pruner: &mut RowGroupPruner<P>|
            *pruner == before && *final(pruner) == after && #[trigger] call_ensures(
                RowGroupPruner::<P>::should_prune::<C, B, E>,
                (pruner, indexes, &changed, &build, &evaluate),
                outcome,
            ),
    ensures
        outcome.prune ==> {
            &&& indexes@.len() > 0
            &&& after.pruning_predicate is Some
            &&& exists|list: &[usize], verdicts: Vec<bool>|
                {
                    &&& list@ == indexes@
                    &&& #[trigger] call_ensures(
                        evaluate,
                        (&after.pruning_predicate->0, list, MissingNullCount::Zero),
                        Some(verdicts),
                    )
                    &&& forall|i: int| 0 <= i < verdicts@.len() ==> !#[trigger] verdicts@[i]
                }
        },
        indexes@.len() == 0 ==> after == before && !outcome.prune,
        indexes@.len() > 0 && before.needs_initial_build ==> call_ensures(
            build,
            (),
            after.pruning_predicate,
        ),
        indexes@.len() > 0 && !call_ensures(changed, (), false) ==> call_ensures(
            build,
            (),
            after.pruning_predicate,
        ),
{
    law_row_groups_are_skipped_only_where_all_are_ruled_out(
        before,
        indexes@,
        changed,
        build,
        evaluate,
        outcome,
        after,
    );
    if indexes@.len() > 0 {
        law_a_pruner_goes_by_the_predicate_as_it_stands(
            before,
            indexes@,
            changed,
            build,
            evaluate,
            outcome,
            after,
        );
    }
}

/// Pruning between two row groups drops no row group that is still to come and needed,
/// where what the predicate rules out is not. `target` is the row group that the decoder
/// reads next, `place` where it stands in the plan first, and `needed` says which are. The
/// scan ends only where none is left, and the decoder is rebuilt only where some are
/// dropped, for those that are left and with nothing else changed.
pub proof fn law_pruning_between_row_groups_drops_nothing_that_is_needed<P, R, T, M, C, B, E>(
    before: PushDecoderStreamState<P, R, T, M>,
    after: PushDecoderStreamState<P, R, T, M>,
    changed: C,
    build: B,
    evaluate: E,
    report: BoundaryReport,
    target: usize,
    place: int,
    needed: spec_fn(usize) -> bool,
    later: int,
) where
    C: Fn() -> bool,
    B: Fn() -> Option<P>,
    E: Fn(&P, &[usize], MissingNullCount) -> Option<Vec<bool>>,

    requires
        exists|state: &mut PushDecoderStreamState<P, R, T, M>|
            *state == before && *final(state) == after && #[trigger] call_ensures(
                PushDecoderStreamState::<P, R, T, M>::prune_at_boundary::<C, B, E>,
                (state, &changed, &build, &evaluate),
                report,
            ),
        decoder_frontier(before.decoder->0) == Some(Some(target)),
        0 <= place <= later < before.plan().len(),
        before.plan()[place] == target,
        forall|i: int| 0 <= i < place ==> #[trigger] before.plan()[i] != target,
        forall|predicate: &P, list: &[usize], verdicts: Vec<bool>| #[trigger]
            call_ensures(evaluate, (predicate, list, MissingNullCount::Zero), Some(verdicts))
                && list@.len() == 1 && (forall|i: int|
                0 <= i < verdicts@.len() ==> !#[trigger] verdicts@[i]) ==> !needed(list@[0]),
    ensures
        needed(before.plan()[later]) ==> after.plan().contains(before.plan()[later]),
        report.outcome is Finished ==> report.pruned > 0 && after.plan().len() == 0,
        before.row_group_pruner is None || !decoder_at_boundary(before.decoder->0) ==> {
            &&& after.plan() == before.plan()
            &&& after.decoder->0 == before.decoder->0
            &&& report.outcome is Continue
        },
        report.pruned == 0 ==> after.decoder->0 == before.decoder->0,
        report.pruned > 0 && report.outcome is Continue ==> {
            let one = decoder_settings(before.decoder->0);
            let other = decoder_settings(after.decoder->0);
            &&& other.row_groups == Some(after.plan())
            &&& other == (BuilderSettings { row_groups: other.row_groups, ..one })
            &&& !decoder_finished(after.decoder->0)
        },
        after.pending_prefetch == before.pending_prefetch,
        after.prefetch_reservation == before.prefetch_reservation,
{
    let plan = before.plan();
    if before.row_group_pruner is Some && decoder_at_boundary(before.decoder->0) {
        law_the_plan_is_brought_to_the_first_place_of_its_target(plan, target);
        let rest = from_target(plan, target);
        let dropped = plan.len() - rest.len();
        assert(dropped == place) by {
            if dropped < place {
                assert(rest.len() > 0 ==> rest[0] == plan[dropped]);
            } else if dropped > place {
                assert(plan[place] != target);
            }
        }
        assert(rest[later - place] == plan[later]);
        law_pruning_while_running_drops_nothing_that_is_needed(
            before.row_group_pruner->0,
            rest,
            changed,
            build,
            evaluate,
            after.row_group_pruner->0,
            after.plan(),
            report.pruned as int,
            report.evaluation_errors as int,
            needed,
            plan[later],
        );
        assert(rest.contains(plan[later]));
    }
}

/// Bringing the plan of a scan to the decoder drops only what comes before the row group
/// that it reads next, and fails exactly where that is not planned.
pub proof fn law_a_plan_follows_its_decoder<P, R, T, M>(
    before: PushDecoderStreamState<P, R, T, M>,
    after: PushDecoderStreamState<P, R, T, M>,
    synchronised: Result<(), ScanError>,
    target: usize,
)
    requires
        exists|state: &mut PushDecoderStreamState<P, R, T, M>|
            *state == before && *final(state) == after && #[trigger] call_ensures(
                PushDecoderStreamState::<P, R, T, M>::sync_rg_plan_to_decoder_frontier,
                (state,),
                synchronised,
            ),
        decoder_frontier(before.decoder->0) == Some(Some(target)),
    ensures
        synchronised is Ok <==> before.plan().contains(target),
        synchronised is Err ==> synchronised->Err_0 == ScanError::Plan(
            PlanError::Diverged { target },
        ),
        ({
            let dropped = before.plan().len() - after.plan().len();
            &&& dropped >= 0
            &&& after.plan() == before.plan().skip(dropped)
            &&& forall|i: int| 0 <= i < dropped ==> #[trigger] before.plan()[i] != target
        }),
        after.decoder == before.decoder,
{
    law_the_plan_is_brought_to_the_first_place_of_its_target(before.plan(), target);
}

/// Batches are handed out as the reader gives them. The reader stays for as long as it
/// gives any, and then the scan goes on to the next row group.
pub proof fn law_batches_are_handed_out_as_they_are_read<P, R, T, M, A, E, N>(
    before: PushDecoderStreamState<P, R, T, M>,
    after: PushDecoderStreamState<P, R, T, M>,
    next: N,
    batch: Option<Result<A, E>>,
) where N: FnOnce(R) -> (R, Option<Result<A, E>>)
    requires
        exists|state: &mut PushDecoderStreamState<P, R, T, M>|
            *state == before && *final(state) == after && #[trigger] call_ensures(
                PushDecoderStreamState::<P, R, T, M>::next_batch::<A, E, N>,
                (state, next),
                batch,
            ),
    ensures
        exists|reader: R| #[trigger]
            call_ensures(next, (before.active_reader->0,), (reader, batch)) && (batch is Some
                ==> after.active_reader == Some(reader)),
        batch is None ==> after.active_reader is None && after.stage == ScanStage::Boundary,
        batch is Some ==> after.stage == ScanStage::Decoding,
        after.plan() == before.plan(),
        after.decoder == before.decoder,
        after.pending_prefetch == before.pending_prefetch,
{
}

} // verus!

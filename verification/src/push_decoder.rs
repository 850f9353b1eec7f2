//! Driving the push decoder through the row groups of a file.
//!
//! [`PushDecoderStreamState`] decides what a scan does next. It prunes the row
//! groups that are still to come, reads the next one ahead, and asks for the
//! bytes that the decoder needs. What it decides is carried out by its caller,
//! which tells it how that went.

use crate::decoder::{
    build_decoder, clear_all_ranges, decoder_at_boundary, decoder_finished, decoder_frontier,
    decoder_group_count, decoder_queue, decoder_settings, decoder_valid, into_builder,
    is_at_row_group_boundary, peek_next_row_group, push_ranges, ranges_match, rows_countable,
    with_bytes,
};
use crate::decoder_config::{footer_group_rows, footer_of, with_row_groups, BuilderSettings};
use crate::error::PlanError;
use crate::metadata::RowGroupMetaData;
use crate::prefetch::{
    plan_prefetch, prefetch_decided, projected_bytes, projected_ranges, projection_fits,
    PrefetchDecision, PrefetchPlan, PrefetchedRowGroup,
};
use crate::pruner::{
    law_row_groups_are_skipped_only_where_all_are_ruled_out, pruner_step, PruneOutcome,
    RowGroupPruner,
};
use crate::row_group_filter::MissingNullCount;
use crate::soundness::law_selected_rows_are_the_set_flags;
use bytes::Bytes;
use parquet::arrow::push_decoder::ParquetPushDecoder;
use parquet::arrow::ProjectionMask;
use parquet::errors::ParquetError;
use std::collections::VecDeque;
use std::ops::Range;
use vstd::prelude::*;

verus! {

/// A row group that is still to be read.
#[derive(Debug, Clone, Copy, PartialEq, Eq, Structural)]
pub struct RgPlanEntry {
    /// The row group.
    pub rg_index: usize,
}

/// The row groups of a plan, in reading order.
pub open spec fn plan_indexes(plan: Seq<RgPlanEntry>) -> Seq<usize> {
    plan.map_values(|entry: RgPlanEntry| entry.rg_index)
}

/// What is left of `plan` from the first `target` on.
pub open spec fn from_target(plan: Seq<usize>, target: usize) -> Seq<usize>
    decreases plan.len(),
{
    if plan.len() == 0 || plan[0] == target {
        plan
    } else {
        from_target(plan.drop_first(), target)
    }
}

/// What is left of `plan` without the row groups that were pruned.
pub open spec fn unpruned(plan: Seq<usize>, outcomes: Seq<PruneOutcome>) -> Seq<usize>
    decreases plan.len(),
{
    if plan.len() == 0 {
        Seq::empty()
    } else {
        let rest = unpruned(plan.drop_last(), outcomes);
        if outcomes[plan.len() - 1].prune {
            rest
        } else {
            rest.push(plan.last())
        }
    }
}

/// The number of evaluations that failed.
pub open spec fn failures(outcomes: Seq<PruneOutcome>) -> nat
    decreases outcomes.len(),
{
    if outcomes.len() == 0 {
        0
    } else {
        failures(outcomes.drop_last()) + outcomes.last().evaluation_errors as nat
    }
}

/// Whether `outcomes` are what a pruner may say of the row groups of `plan`, one
/// after another, where it is `pruners[i]` when it is asked about the row group
/// at `i`.
pub open spec fn asked<P, C, B, E>(
    plan: Seq<usize>,
    changed: C,
    build: B,
    evaluate: E,
    pruners: Seq<RowGroupPruner<P>>,
    outcomes: Seq<PruneOutcome>,
) -> bool where
    C: Fn() -> bool,
    B: Fn() -> Option<P>,
    E: Fn(&P, &[usize], MissingNullCount) -> Option<Vec<bool>>,
 {
    &&& pruners.len() == plan.len() + 1
    &&& outcomes.len() == plan.len()
    &&& forall|i: int|
        0 <= i < plan.len() ==> pruner_step(
            pruners[i],
            seq![plan[i]],
            changed,
            build,
            evaluate,
            #[trigger] outcomes[i],
            pruners[i + 1],
        )
}

/// Where the target is in the plan, what is left starts with it.
pub proof fn lemma_from_target(plan: Seq<usize>, target: usize)
    ensures
        from_target(plan, target).len() <= plan.len(),
        from_target(plan, target) == plan.skip(plan.len() - from_target(plan, target).len()),
        plan.contains(target) <==> from_target(plan, target).len() > 0,
        plan.contains(target) ==> from_target(plan, target)[0] == target,
    decreases plan.len(),
{
    if plan.len() == 0 {
    } else if plan[0] == target {
        assert(plan.skip(0) =~= plan);
    } else {
        let rest = plan.drop_first();
        lemma_from_target(rest, target);
        let left = from_target(plan, target);
        assert(rest.skip(rest.len() - left.len()) =~= plan.skip(plan.len() - left.len()));
        if plan.contains(target) {
            let k = choose|k: int| 0 <= k < plan.len() && plan[k] == target;
            assert(rest[k - 1] == target);
        }
        if rest.contains(target) {
            let k = choose|k: int| 0 <= k < rest.len() && rest[k] == target;
            assert(plan[k + 1] == target);
        }
    }
}

/// What is left unpruned are row groups of the plan, no more than there were.
pub proof fn lemma_unpruned(plan: Seq<usize>, outcomes: Seq<PruneOutcome>)
    ensures
        unpruned(plan, outcomes).len() <= plan.len(),
        forall|k: int|
            0 <= k < unpruned(plan, outcomes).len() ==> plan.contains(
                #[trigger] unpruned(plan, outcomes)[k],
            ),
    decreases plan.len(),
{
    if plan.len() > 0 {
        let front = plan.drop_last();
        lemma_unpruned(front, outcomes);
        assert forall|k: int| 0 <= k < unpruned(plan, outcomes).len() implies plan.contains(
            #[trigger] unpruned(plan, outcomes)[k],
        ) by {
            let value = unpruned(plan, outcomes)[k];
            if k < unpruned(front, outcomes).len() {
                assert(front.contains(unpruned(front, outcomes)[k]));
                let j = choose|j: int| 0 <= j < front.len() && front[j] == value;
                assert(plan[j] == value);
            } else {
                assert(plan[plan.len() - 1] == value);
            }
        }
    }
}

/// Pops entries off `rg_plan` until its front is `target`, the row group that
/// the decoder reads next.
///
/// Fails where `target` is not in the plan: then the decoder and the plan have
/// diverged, and going on would lose rows.
pub fn advance_rg_plan_to(rg_plan: &mut VecDeque<RgPlanEntry>, target: usize) -> (advanced: Result<
    (),
    PlanError,
>)
    ensures
        plan_indexes(final(rg_plan)@) == from_target(plan_indexes(old(rg_plan)@), target),
        match advanced {
            Ok(_) => plan_indexes(old(rg_plan)@).contains(target),
            Err(error) => {
                &&& !plan_indexes(old(rg_plan)@).contains(target)
                &&& error == PlanError::Diverged { target }
            },
        },
{
    let ghost whole = plan_indexes(rg_plan@);
    proof {
        lemma_from_target(whole, target);
    }
    while rg_plan.len() > 0
        invariant
            from_target(plan_indexes(rg_plan@), target) == from_target(whole, target),
            whole == plan_indexes(old(rg_plan)@),
            whole.contains(target) <==> from_target(whole, target).len() > 0,
        decreases rg_plan@.len(),
    {
        let ghost before = rg_plan@;
        if rg_plan[0].rg_index == target {
            assert(plan_indexes(before)[0] == target);
            return Ok(());
        }
        rg_plan.pop_front();
        proof {
            assert(plan_indexes(rg_plan@) =~= plan_indexes(before).drop_first());
        }
    }
    assert(plan_indexes(rg_plan@) =~= from_target(whole, target));
    Err(PlanError::Diverged { target })
}

/// Drops the row groups that `pruner` proves cannot contribute from `rg_plan`.
/// Returns how many those were and how many evaluations failed.
fn prune_rg_plan<P, C, B, E>(
    rg_plan: &mut VecDeque<RgPlanEntry>,
    pruner: &mut RowGroupPruner<P>,
    changed: &C,
    build: &B,
    evaluate: &E,
) -> (counts: (usize, usize)) where
    C: Fn() -> bool,
    B: Fn() -> Option<P>,
    E: Fn(&P, &[usize], MissingNullCount) -> Option<Vec<bool>>,

    requires
        call_requires(*changed, ()),
        call_requires(*build, ()),
        forall|predicate: &P, indexes: &[usize]|
            indexes@.len() == 1 && plan_indexes(old(rg_plan)@).contains(indexes@[0])
                ==> #[trigger] call_requires(*evaluate, (predicate, indexes, MissingNullCount::Zero)),
    ensures
        prunes(
            *old(pruner),
            plan_indexes(old(rg_plan)@),
            *changed,
            *build,
            *evaluate,
            *final(pruner),
            plan_indexes(final(rg_plan)@),
            counts.0 as int,
            counts.1 as int,
        ),
{
    let ghost whole = plan_indexes(rg_plan@);
    let ghost mut pruners: Seq<RowGroupPruner<P>> = seq![*pruner];
    let ghost mut outcomes: Seq<PruneOutcome> = Seq::empty();
    let mut kept: VecDeque<RgPlanEntry> = VecDeque::new();
    let mut pruned: usize = 0;
    let mut errors: usize = 0;
    let count = rg_plan.len();
    let mut i: usize = 0;
    proof {
        assert(plan_indexes(kept@) =~= unpruned(whole.take(0), outcomes));
        assert(whole.take(0) =~= Seq::<usize>::empty());
    }
    while i < count
        invariant
            i <= count,
            count == rg_plan@.len(),
            rg_plan@ == old(rg_plan)@,
            whole == plan_indexes(rg_plan@),
            whole.len() == count,
            call_requires(*changed, ()),
            call_requires(*build, ()),
            forall|predicate: &P, indexes: &[usize]|
                indexes@.len() == 1 && whole.contains(indexes@[0]) ==> #[trigger] call_requires(
                    *evaluate,
                    (predicate, indexes, MissingNullCount::Zero),
                ),
            asked(whole.take(i as int), *changed, *build, *evaluate, pruners, outcomes),
            pruners[0] == *old(pruner),
            pruners.last() == *pruner,
            plan_indexes(kept@) == unpruned(whole.take(i as int), outcomes),
            pruned + kept@.len() == i,
            errors == failures(outcomes),
            errors <= i,
        decreases count - i,
    {
        let entry = rg_plan[i];
        let ghost earlier = outcomes;
        let ghost before = *pruner;
        let ghost kept_before = kept@;
        let mut indexes: Vec<usize> = Vec::new();
        indexes.push(entry.rg_index);
        assert(whole[i as int] == entry.rg_index);
        let outcome = pruner.should_prune(indexes.as_slice(), changed, build, evaluate);
        proof {
            assert(indexes@ =~= seq![whole[i as int]]);
            lemma_pruner_step_errors(
                before,
                indexes@,
                *changed,
                *build,
                *evaluate,
                outcome,
                *pruner,
            );
            pruners = pruners.push(*pruner);
            outcomes = outcomes.push(outcome);
            assert(outcomes.drop_last() =~= earlier);
            assert(whole.take(i + 1).drop_last() =~= whole.take(i as int));
            lemma_unpruned_extra(whole.take(i as int), earlier, outcome);
            assert(asked(
                whole.take(i + 1),
                *changed,
                *build,
                *evaluate,
                pruners,
                outcomes,
            ));
        }
        if outcome.prune {
            pruned += 1;
        } else {
            kept.push_back(entry);
            proof {
                assert(plan_indexes(kept@) =~= plan_indexes(kept_before).push(entry.rg_index));
            }
        }
        errors += outcome.evaluation_errors;
        i += 1;
    }
    proof {
        assert(whole.take(i as int) =~= whole);
    }
    *rg_plan = kept;
    (pruned, errors)
}

/// Whether asking a pruner about each row group of `plan` may leave it as `after`
/// and the plan as `kept`, with `pruned` row groups dropped and `errors` failed
/// evaluations.
pub open spec fn prunes<P, C, B, E>(
    before: RowGroupPruner<P>,
    plan: Seq<usize>,
    changed: C,
    build: B,
    evaluate: E,
    after: RowGroupPruner<P>,
    kept: Seq<usize>,
    pruned: int,
    errors: int,
) -> bool where
    C: Fn() -> bool,
    B: Fn() -> Option<P>,
    E: Fn(&P, &[usize], MissingNullCount) -> Option<Vec<bool>>,
 {
    exists|pruners: Seq<RowGroupPruner<P>>, outcomes: Seq<PruneOutcome>|
        {
            &&& #[trigger] asked(plan, changed, build, evaluate, pruners, outcomes)
            &&& pruners[0] == before
            &&& pruners.last() == after
            &&& kept == unpruned(plan, outcomes)
            &&& pruned == plan.len() - kept.len()
            &&& errors == failures(outcomes)
        }
}

/// An outcome after the last one that counts changes nothing.
proof fn lemma_unpruned_extra(
    plan: Seq<usize>,
    outcomes: Seq<PruneOutcome>,
    extra: PruneOutcome,
)
    requires
        outcomes.len() >= plan.len(),
    ensures
        unpruned(plan, outcomes.push(extra)) == unpruned(plan, outcomes),
    decreases plan.len(),
{
    if plan.len() > 0 {
        lemma_unpruned_extra(plan.drop_last(), outcomes, extra);
    }
}

/// A pruner that is asked once fails at most once.
proof fn lemma_pruner_step_errors<P, C, B, E>(
    before: RowGroupPruner<P>,
    indexes: Seq<usize>,
    changed: C,
    build: B,
    evaluate: E,
    outcome: PruneOutcome,
    after: RowGroupPruner<P>,
) where
    C: Fn() -> bool,
    B: Fn() -> Option<P>,
    E: Fn(&P, &[usize], MissingNullCount) -> Option<Vec<bool>>,

    requires
        pruner_step(before, indexes, changed, build, evaluate, outcome, after),
    ensures
        outcome.evaluation_errors <= 1,
{
}

/// Whether `rest` is what remains of `whole` after some of its first values.
pub open spec fn is_suffix(rest: Seq<usize>, whole: Seq<usize>) -> bool {
    rest.len() <= whole.len() && rest == whole.skip(whole.len() - rest.len())
}

/// The row groups that a decoder may still start: those in its queue, between two
/// row groups from the one on that it reads next.
pub open spec fn upcoming(decoder: ParquetPushDecoder) -> Seq<usize> {
    if decoder_at_boundary(decoder) {
        match decoder_frontier(decoder) {
            Some(Some(next)) => from_target(decoder_queue(decoder), next),
            Some(None) => Seq::empty(),
            None => decoder_queue(decoder),
        }
    } else {
        decoder_queue(decoder)
    }
}

/// What a decoder has for the next row group. `R` reads the batches of a row
/// group.
pub enum Polled<R> {
    /// It needs the bytes of these ranges first.
    NeedsData(Vec<Range<u64>>),
    /// The reader of the row group.
    Data(R),
    /// There is no further row group.
    Finished,
    /// It failed.
    Failed(ParquetError),
}

/// Whether the settings `one` are those of `other` but for what decoding uses up: row
/// groups, the selection, the limit and bytes. A filter may keep count of what it has
/// seen, and is let go where it has no predicates.
pub open spec fn same_options(one: BuilderSettings, other: BuilderSettings) -> bool {
    &&& one.filter is Some ==> other.filter is Some
    &&& one == (BuilderSettings {
        row_groups: one.row_groups,
        selection: one.selection,
        limit: one.limit,
        filter: one.filter,
        buffers: one.buffers,
        ..other
    })
}

/// How asking a decoder for the next reader may change it.
///
/// Row groups are started in the order of the queue. Between two row groups the
/// one that the decoder reads next is started before there is a reader or bytes
/// are needed. With a reader the decoder lies between two row groups again.
pub open spec fn poll_allowed<R>(
    before: ParquetPushDecoder,
    after: ParquetPushDecoder,
    polled: Polled<R>,
) -> bool {
    &&& is_suffix(decoder_queue(after), decoder_queue(before))
    &&& match polled {
        Polled::NeedsData(_) => {
            &&& !decoder_finished(after)
            &&& !decoder_at_boundary(after)
        },
        Polled::Data(_) => {
            &&& !decoder_finished(after)
            &&& decoder_at_boundary(after)
        },
        _ => decoder_finished(after),
    }
    &&& !decoder_finished(after) ==> {
        &&& !decoder_finished(before)
        &&& same_options(decoder_settings(after), decoder_settings(before))
        &&& decoder_at_boundary(before) ==> {
            &&& decoder_frontier(before) matches Some(Some(next))
            &&& decoder_queue(before).contains(next)
            &&& is_suffix(decoder_queue(after), upcoming(before).drop_first())
        }
    }
}

/// Where a scan stands.
#[derive(Debug, Clone, Copy, PartialEq, Eq, Structural)]
pub enum ScanStage {
    /// The batches of a row group are read.
    Decoding,
    /// The row groups that are still to come may be pruned.
    Boundary,
    /// The next row group is chosen, and what was read ahead is next.
    Chosen,
    /// The scan waits for what is read ahead.
    Adopting,
    /// The decoder is to be asked for the next reader.
    Polling,
    /// The scan waits for bytes that the decoder needs.
    Fetching,
    /// The scan is over.
    Finished,
}

/// Why a scan failed.
pub enum ScanError {
    /// The decoder failed.
    Decoder(ParquetError),
    /// The decoder and the plan do not agree.
    Plan(PlanError),
}

/// The state of a stream that decodes one file.
///
/// `P` is a predicate that is evaluated on statistics, `R` reads the batches of
/// a row group, `T` is a read that runs in the background and `M` a reservation
/// of memory.
pub struct PushDecoderStreamState<P, R, T, M> {
    /// The decoder. It is away only while it is rebuilt.
    pub decoder: Option<ParquetPushDecoder>,
    /// The reader of the row group that is being decoded.
    pub active_reader: Option<R>,
    /// The row groups that are still to be read.
    pub rg_plan: VecDeque<RgPlanEntry>,
    /// The file's row groups.
    pub row_groups: Vec<RowGroupMetaData>,
    /// The leaf columns that are read.
    pub projection: ProjectionMask,
    /// The number of bytes that may be read ahead, where any may.
    pub row_group_prefetch: Option<usize>,
    /// The row group that is being read ahead.
    pub pending_prefetch: Option<PrefetchedRowGroup<T>>,
    /// The memory of what was read ahead and given to the decoder.
    pub prefetch_reservation: Option<M>,
    /// Prunes the row groups that are still to come, where the predicate may
    /// still change.
    pub row_group_pruner: Option<RowGroupPruner<P>>,
    /// Where the scan stands.
    pub stage: ScanStage,
}

impl<P, R, T, M> PushDecoderStreamState<P, R, T, M> {
    /// The plan covers what the decoder may still start, in the same order: the
    /// decoder has at most gone ahead of it.
    pub open spec fn in_step(&self) -> bool {
        let decoder = self.decoder->0;
        &&& is_suffix(upcoming(decoder), self.plan())
        &&& !decoder_at_boundary(decoder) ==> upcoming(decoder).len() < self.plan().len()
    }

    /// Whether `ranges` are the bytes of the row group at `row_group` that are read
    /// ahead, and no more than may be.
    pub open spec fn within_budget(&self, row_group: usize, ranges: Seq<Range<u64>>) -> bool {
        &&& row_group < self.row_groups@.len()
        &&& self.row_group_prefetch matches Some(max_bytes) && {
            let columns = self.row_groups@[row_group as int].columns@;
            &&& ranges == projected_ranges(columns, self.projection)
            &&& 0 < projected_bytes(columns, self.projection) <= max_bytes
        }
    }

    /// What holds between any two steps of a scan.
    pub open spec fn wf(&self) -> bool {
        let decoder = self.decoder->0;
        &&& self.decoder is Some
        &&& decoder_valid(decoder)
        &&& decoder_finished(decoder) || decoder_group_count(decoder) == self.row_groups@.len()
        &&& forall|i: int|
            0 <= i < self.rg_plan@.len() ==> (#[trigger] self.rg_plan@[i]).rg_index
                < self.row_groups@.len()
        &&& self.row_group_prefetch is Some ==> forall|i: int|
            0 <= i < self.rg_plan@.len() ==> projection_fits(
                self.row_groups@[(#[trigger] self.rg_plan@[i]).rg_index as int],
                self.projection,
            )
        &&& decoder_finished(decoder) || self.stage == ScanStage::Finished || self.in_step()
        &&& self.stage == ScanStage::Decoding <==> self.active_reader is Some
        &&& self.pending_prefetch matches Some(prefetch) ==> {
            &&& self.within_budget(prefetch.row_group, prefetch.ranges@)
            &&& self.stage == ScanStage::Decoding || self.stage == ScanStage::Boundary
                ==> decoder_frontier(decoder) == Some(Some(prefetch.row_group))
            &&& self.prefetch_reservation is None
            &&& self.stage == ScanStage::Decoding || self.stage == ScanStage::Boundary
                || self.stage == ScanStage::Chosen || self.stage == ScanStage::Finished
        }
        &&& self.stage == ScanStage::Decoding || self.stage == ScanStage::Adopting
            ==> self.prefetch_reservation is None
        &&& self.stage == ScanStage::Adopting || self.stage == ScanStage::Fetching
            ==> !decoder_finished(decoder)
    }

    /// Everything but the decoder, the plan, the pruner and the stage is as in
    /// `other`.
    pub open spec fn keeps_prefetch(&self, other: &Self) -> bool {
        &&& self.pending_prefetch == other.pending_prefetch
        &&& self.prefetch_reservation == other.prefetch_reservation
    }

    /// The file and the settings of the scan are as in `other`.
    pub open spec fn same_file(&self, other: &Self) -> bool {
        &&& self.row_groups == other.row_groups
        &&& self.projection == other.projection
        &&& self.row_group_prefetch == other.row_group_prefetch
    }

    /// The row groups that are still to be read.
    pub open spec fn plan(&self) -> Seq<usize> {
        plan_indexes(self.rg_plan@)
    }
}

/// What is left of `plan` when the decoder reads the row group `frontier` next,
/// or has none left to read.
pub open spec fn synced(plan: Seq<usize>, frontier: Option<usize>) -> Seq<usize> {
    match frontier {
        Some(target) => from_target(plan, target),
        None => Seq::empty(),
    }
}

impl<P, R, T, M> PushDecoderStreamState<P, R, T, M> {
    /// The state of a scan that reads the row groups of `rg_plan` with `decoder`.
    pub fn new(
        decoder: ParquetPushDecoder,
        rg_plan: VecDeque<RgPlanEntry>,
        row_groups: Vec<RowGroupMetaData>,
        projection: ProjectionMask,
        row_group_prefetch: Option<usize>,
        row_group_pruner: Option<RowGroupPruner<P>>,
    ) -> (state: Self)
        requires
            decoder_at_boundary(decoder),
            decoder_queue(decoder) == plan_indexes(rg_plan@),
            decoder_group_count(decoder) == row_groups@.len(),
            forall|i: int|
                0 <= i < rg_plan@.len() ==> (#[trigger] rg_plan@[i]).rg_index < row_groups@.len(),
            row_group_prefetch is Some ==> forall|i: int|
                0 <= i < rg_plan@.len() ==> projection_fits(
                    row_groups@[(#[trigger] rg_plan@[i]).rg_index as int],
                    projection,
                ),
        ensures
            state.wf(),
            state.stage == ScanStage::Boundary,
            state.decoder == Some(decoder),
            state.rg_plan == rg_plan,
            state.row_groups == row_groups,
            state.projection == projection,
            state.row_group_prefetch == row_group_prefetch,
            state.row_group_pruner == row_group_pruner,
            state.pending_prefetch is None,
            state.prefetch_reservation is None,
    {
        proof {
            lemma_upcoming(decoder);
            assert forall|i: int| 0 <= i < decoder_queue(decoder).len() implies (
            #[trigger] decoder_queue(decoder)[i]) < decoder_group_count(decoder) by {
                assert(rg_plan@[i].rg_index < row_groups@.len());
            }
        }
        PushDecoderStreamState {
            decoder: Some(decoder),
            active_reader: None,
            rg_plan,
            row_groups,
            projection,
            row_group_prefetch,
            pending_prefetch: None,
            prefetch_reservation: None,
            row_group_pruner,
            stage: ScanStage::Boundary,
        }
    }

    /// Takes the next batch from the active reader by `next`, which gives the
    /// reader back. Without a further batch the reader is let go, and the scan is
    /// at a boundary. After an error the reader stays active.
    pub fn next_batch<B, E, N>(&mut self, next: N) -> (batch: Option<Result<B, E>>) where
        N: FnOnce(R) -> (R, Option<Result<B, E>>),

        requires
            old(self).wf(),
            old(self).stage == ScanStage::Decoding,
            forall|reader: R| #[trigger] call_requires(next, (reader,)),
        ensures
            final(self).wf(),
            exists|reader: R|
                {
                    &&& #[trigger] call_ensures(next, (old(self).active_reader->0,), (reader, batch))
                    &&& final(self).active_reader == if batch is Some {
                        Some(reader)
                    } else {
                        None
                    }
                },
            final(self).stage == if batch is Some {
                ScanStage::Decoding
            } else {
                ScanStage::Boundary
            },
            final(self).decoder == old(self).decoder,
            final(self).rg_plan == old(self).rg_plan,
            final(self).row_group_pruner == old(self).row_group_pruner,
            final(self).keeps_prefetch(old(self)),
            final(self).same_file(old(self)),
    {
        match self.active_reader.take() {
            Some(reader) => {
                let (reader, batch) = next(reader);
                if batch.is_some() {
                    self.active_reader = Some(reader);
                } else {
                    self.stage = ScanStage::Boundary;
                }
                batch
            },
            None => None,
        }
    }

    /// Brings the front of the plan to the row group that the decoder reads next.
    /// The decoder passes over row groups of which no row is left, and the plan
    /// would otherwise trail behind it. Where the decoder has none left to read,
    /// nothing is left of the plan.
    pub fn sync_rg_plan_to_decoder_frontier(&mut self) -> (synchronised: Result<(), ScanError>)
        requires
            old(self).decoder is Some,
            decoder_valid(old(self).decoder->0),
        ensures
            *final(self) == (Self { rg_plan: final(self).rg_plan, ..*old(self) }),
            match decoder_frontier(old(self).decoder->0) {
                None => {
                    &&& synchronised matches Err(ScanError::Decoder(_))
                    &&& !rows_countable(old(self).decoder->0)
                    &&& final(self).rg_plan == old(self).rg_plan
                },
                Some(frontier) => {
                    &&& final(self).plan() == synced(old(self).plan(), frontier)
                    &&& frontier matches Some(target) ==> decoder_queue(
                        old(self).decoder->0,
                    ).contains(target)
                    &&& match frontier {
                        Some(target) => if old(self).plan().contains(target) {
                            synchronised is Ok
                        } else {
                            synchronised == Err::<(), ScanError>(
                                ScanError::Plan(PlanError::Diverged { target }),
                            )
                        },
                        None => synchronised is Ok,
                    }
                },
            },
    {
        let next = match &self.decoder {
            Some(decoder) => peek_next_row_group(decoder),
            None => Ok(None),
        };
        match next {
            Ok(Some(actual)) => match advance_rg_plan_to(&mut self.rg_plan, actual) {
                Ok(_) => Ok(()),
                Err(error) => Err(ScanError::Plan(error)),
            },
            Ok(None) => {
                self.rg_plan.clear();
                assert(self.plan() =~= Seq::<usize>::empty());
                Ok(())
            },
            Err(error) => Err(ScanError::Decoder(error)),
        }
    }
}

/// What a decoder may still start is in its queue, and the last of it.
proof fn lemma_upcoming(decoder: ParquetPushDecoder)
    ensures
        is_suffix(upcoming(decoder), decoder_queue(decoder)),
{
    let queue = decoder_queue(decoder);
    assert(queue.skip(0) =~= queue);
    assert(queue.skip(queue.len() as int) =~= Seq::<usize>::empty());
    match decoder_frontier(decoder) {
        Some(Some(next)) => lemma_from_target(queue, next),
        _ => {},
    }
}

/// Where the plan covers what the decoder may still start, it holds the row group
/// that the decoder reads next, and from there on it still covers it.
proof fn lemma_synced(decoder: ParquetPushDecoder, plan: Seq<usize>, target: usize)
    requires
        decoder_at_boundary(decoder),
        decoder_frontier(decoder) == Some(Some(target)),
        decoder_queue(decoder).contains(target),
        is_suffix(upcoming(decoder), plan),
    ensures
        plan.contains(target),
        is_suffix(upcoming(decoder), from_target(plan, target)),
        forall|i: int|
            0 <= i < from_target(plan, target).len() ==> plan.contains(
                #[trigger] from_target(plan, target)[i],
            ),
{
    let ahead = upcoming(decoder);
    let left = from_target(plan, target);
    lemma_from_target(decoder_queue(decoder), target);
    assert(plan[plan.len() - ahead.len()] == target);
    lemma_from_target(plan, target);
    lemma_from_target_first(plan, target, plan.len() - ahead.len());
    assert(ahead =~= left.skip(left.len() - ahead.len()));
    assert forall|i: int| 0 <= i < left.len() implies plan.contains(#[trigger] left[i]) by {
        assert(left[i] == plan[plan.len() - left.len() + i]);
    }
}

/// What is left from the first target on reaches back at least to every target.
proof fn lemma_from_target_first(plan: Seq<usize>, target: usize, at: int)
    requires
        0 <= at < plan.len(),
        plan[at] == target,
    ensures
        from_target(plan, target).len() >= plan.len() - at,
    decreases plan.len(),
{
    if plan[0] != target {
        lemma_from_target_first(plan.drop_first(), target, at - 1);
    }
}

/// Pruning leaves row groups of the plan, and all of them where it drops none.
proof fn lemma_prunes<P, C, B, E>(
    before: RowGroupPruner<P>,
    plan: Seq<usize>,
    changed: C,
    build: B,
    evaluate: E,
    after: RowGroupPruner<P>,
    kept: Seq<usize>,
    pruned: int,
    errors: int,
) where
    C: Fn() -> bool,
    B: Fn() -> Option<P>,
    E: Fn(&P, &[usize], MissingNullCount) -> Option<Vec<bool>>,

    requires
        prunes(before, plan, changed, build, evaluate, after, kept, pruned, errors),
    ensures
        forall|k: int| 0 <= k < kept.len() ==> plan.contains(#[trigger] kept[k]),
        pruned == 0 ==> kept == plan,
{
    let (pruners, outcomes) = choose|
        pruners: Seq<RowGroupPruner<P>>,
        outcomes: Seq<PruneOutcome>,
    |
        {
            &&& #[trigger] asked(plan, changed, build, evaluate, pruners, outcomes)
            &&& pruners[0] == before
            &&& pruners.last() == after
            &&& kept == unpruned(plan, outcomes)
            &&& pruned == plan.len() - kept.len()
            &&& errors == failures(outcomes)
        };
    lemma_unpruned(plan, outcomes);
    lemma_unpruned_all(plan, outcomes);
}

/// A plan of which as many row groups are left as there were is left as it is.
proof fn lemma_unpruned_all(plan: Seq<usize>, outcomes: Seq<PruneOutcome>)
    ensures
        unpruned(plan, outcomes).len() == plan.len() ==> unpruned(plan, outcomes) == plan,
    decreases plan.len(),
{
    if plan.len() > 0 {
        lemma_unpruned(plan.drop_last(), outcomes);
        lemma_unpruned_all(plan.drop_last(), outcomes);
        if unpruned(plan, outcomes).len() == plan.len() {
            assert(unpruned(plan, outcomes) =~= plan);
        }
    }
}

/// Whether `after` is `before` with the bytes of `ranges`.
pub open spec fn given_bytes(
    before: ParquetPushDecoder,
    ranges: Seq<Range<u64>>,
    data: Seq<Bytes>,
    after: ParquetPushDecoder,
) -> bool {
    &&& decoder_settings(after) == with_bytes(decoder_settings(before), ranges, data)
    &&& decoder_at_boundary(after) == decoder_at_boundary(before)
    &&& decoder_frontier(after) == decoder_frontier(before)
    &&& decoder_finished(after) == decoder_finished(before)
}

/// Whether `after` is `before` without the bytes that it held.
pub open spec fn let_go(before: ParquetPushDecoder, after: ParquetPushDecoder) -> bool {
    &&& decoder_settings(after) == (BuilderSettings {
        buffers: Seq::empty(),
        ..decoder_settings(before)
    })
    &&& decoder_at_boundary(after) == decoder_at_boundary(before)
    &&& decoder_frontier(after) == decoder_frontier(before)
    &&& decoder_finished(after) == decoder_finished(before)
}

/// What became of a scan at a boundary.
pub enum BoundaryOutcome {
    /// The scan goes on.
    Continue,
    /// No row group is left.
    Finished,
    /// The scan failed.
    Failed(ScanError),
}

/// What was done at a boundary.
pub struct BoundaryReport {
    /// What became of the scan.
    pub outcome: BoundaryOutcome,
    /// Row groups that were pruned.
    pub pruned: usize,
    /// Evaluations that failed.
    pub evaluation_errors: usize,
}

/// Whether a decoder that lies between two row groups was left as it is, or
/// rebuilt for the row groups of `plan` where some were pruned.
pub open spec fn rebuilt(
    before: ParquetPushDecoder,
    plan: Seq<usize>,
    pruned: int,
    after: ParquetPushDecoder,
) -> bool {
    if pruned == 0 {
        after == before
    } else {
        &&& decoder_settings(after) == (BuilderSettings {
            row_groups: Some(plan),
            ..decoder_settings(before)
        })
        &&& decoder_at_boundary(after)
        &&& !decoder_finished(after)
    }
}

/// The row groups of a plan as a list.
fn plan_to_vec(rg_plan: &VecDeque<RgPlanEntry>) -> (indexes: Vec<usize>)
    ensures
        indexes@ == plan_indexes(rg_plan@),
{
    let mut indexes: Vec<usize> = Vec::new();
    let mut i: usize = 0;
    while i < rg_plan.len()
        invariant
            i <= rg_plan@.len(),
            indexes@ =~= plan_indexes(rg_plan@).take(i as int),
        decreases rg_plan@.len() - i,
    {
        indexes.push(rg_plan[i].rg_index);
        i += 1;
    }
    indexes
}

impl<P, R, T, M> PushDecoderStreamState<P, R, T, M> {
    /// Prunes the row groups that are still to come, where the decoder lies
    /// between two row groups and there is a pruner: wherever they stand in the
    /// plan, those that it proves cannot contribute are dropped. The decoder is
    /// rebuilt for the others, once, and only where any was dropped. Where none
    /// is left the scan is over.
    ///
    /// `changed`, `build` and `evaluate` are those of
    /// [`RowGroupPruner::should_prune`].
    pub fn prune_at_boundary<C, B, E>(&mut self, changed: &C, build: &B, evaluate: &E) -> (report:
        BoundaryReport) where
        C: Fn() -> bool,
        B: Fn() -> Option<P>,
        E: Fn(&P, &[usize], MissingNullCount) -> Option<Vec<bool>>,

        requires
            old(self).wf(),
            old(self).stage == ScanStage::Boundary,
            call_requires(*changed, ()),
            call_requires(*build, ()),
            forall|predicate: &P, indexes: &[usize]|
                indexes@.len() == 1 && indexes@[0] < old(self).row_groups@.len()
                    ==> #[trigger] call_requires(*evaluate, (predicate, indexes, MissingNullCount::Zero)),
        ensures
            final(self).wf(),
            final(self).active_reader is None,
            final(self).keeps_prefetch(old(self)),
            final(self).same_file(old(self)),
            ({
                let before = old(self).decoder->0;
                let after = final(self).decoder->0;
                if !decoder_at_boundary(before) || old(self).row_group_pruner is None {
                    &&& report.outcome is Continue
                    &&& report.pruned == 0
                    &&& report.evaluation_errors == 0
                    &&& final(self).stage == ScanStage::Chosen
                    &&& after == before
                    &&& final(self).rg_plan == old(self).rg_plan
                    &&& final(self).row_group_pruner == old(self).row_group_pruner
                } else {
                    match decoder_frontier(before) {
                        None => {
                            &&& report.outcome matches BoundaryOutcome::Failed(
                                ScanError::Decoder(_),
                            )
                            &&& !rows_countable(before)
                            &&& report.pruned == 0
                            &&& report.evaluation_errors == 0
                            &&& final(self).stage == ScanStage::Boundary
                            &&& after == before
                            &&& final(self).rg_plan == old(self).rg_plan
                            &&& final(self).row_group_pruner == old(self).row_group_pruner
                        },
                        Some(frontier) => {
                            &&& final(self).row_group_pruner is Some
                            &&& prunes(
                                old(self).row_group_pruner->0,
                                synced(old(self).plan(), frontier),
                                *changed,
                                *build,
                                *evaluate,
                                final(self).row_group_pruner->0,
                                final(self).plan(),
                                report.pruned as int,
                                report.evaluation_errors as int,
                            )
                            &&& if report.pruned > 0 && final(self).plan().len() == 0 {
                                &&& report.outcome is Finished
                                &&& final(self).stage == ScanStage::Finished
                                &&& after == before
                            } else {
                                &&& report.outcome is Continue
                                &&& final(self).stage == ScanStage::Chosen
                                &&& rebuilt(
                                    before,
                                    final(self).plan(),
                                    report.pruned as int,
                                    after,
                                )
                            }
                        },
                    }
                }
            }),
    {
        let at_boundary = match &self.decoder {
            Some(decoder) => is_at_row_group_boundary(decoder),
            None => false,
        };
        let mut pruned: usize = 0;
        let mut evaluation_errors: usize = 0;
        if at_boundary && self.row_group_pruner.is_some() {
            let ghost decoder = self.decoder->0;
            let ghost plan = self.plan();
            let synchronised = self.sync_rg_plan_to_decoder_frontier();
            proof {
                match decoder_frontier(decoder) {
                    Some(Some(target)) => lemma_synced(decoder, plan, target),
                    _ => {},
                }
            }
            match synchronised {
                Ok(_) => {},
                Err(error) => {
                    return BoundaryReport {
                        outcome: BoundaryOutcome::Failed(error),
                        pruned: 0,
                        evaluation_errors: 0,
                    };
                },
            }
            let ghost brought = self.plan();
            proof {
                assert(brought.skip(brought.len() as int) =~= Seq::<usize>::empty());
                assert(is_suffix(upcoming(decoder), brought));
            }
            match self.row_group_pruner.take() {
                Some(mut pruner) => {
                    let ghost asked_first = pruner;
                    let (dropped, failed) = prune_rg_plan(
                        &mut self.rg_plan,
                        &mut pruner,
                        changed,
                        build,
                        evaluate,
                    );
                    pruned = dropped;
                    evaluation_errors = failed;
                    self.row_group_pruner = Some(pruner);
                    proof {
                        lemma_prunes(
                            asked_first,
                            brought,
                            *changed,
                            *build,
                            *evaluate,
                            pruner,
                            self.plan(),
                            dropped as int,
                            failed as int,
                        );
                        assert forall|i: int| 0 <= i < self.rg_plan@.len() implies (
                        #[trigger] self.rg_plan@[i]).rg_index < self.row_groups@.len() by {
                            assert(brought.contains(self.plan()[i]));
                        }
                        assert forall|i: int|
                            0 <= i < self.rg_plan@.len() && self.row_group_prefetch is Some implies
                            projection_fits(
                            self.row_groups@[(#[trigger] self.rg_plan@[i]).rg_index as int],
                            self.projection,
                        ) by {
                            let index = self.plan()[i];
                            assert(brought.contains(index));
                            assert(brought[brought.index_of(index)] == index);
                            assert(plan.contains(index));
                            assert(old(self).rg_plan@[plan.index_of(index)].rg_index == index);
                        }
                    }
                },
                None => {},
            }
            if pruned > 0 {
                if self.rg_plan.len() == 0 {
                    self.stage = ScanStage::Finished;
                    return BoundaryReport {
                        outcome: BoundaryOutcome::Finished,
                        pruned,
                        evaluation_errors,
                    };
                }
                let indexes = plan_to_vec(&self.rg_plan);
                match self.decoder.take() {
                    Some(decoder) => match into_builder(decoder) {
                        Ok(builder) => match build_decoder(with_row_groups(builder, indexes)) {
                            Ok(decoder) => {
                                proof {
                                    lemma_upcoming(decoder);
                                    assert forall|i: int|
                                        0 <= i < decoder_queue(decoder).len() implies (
                                    #[trigger] decoder_queue(decoder)[i])
                                        < decoder_group_count(decoder) by {
                                        assert(self.rg_plan@[i].rg_index < self.row_groups@.len());
                                    }
                                }
                                self.decoder = Some(decoder);
                            },
                            Err(error) => {
                                return BoundaryReport {
                                    outcome: BoundaryOutcome::Failed(ScanError::Decoder(error)),
                                    pruned,
                                    evaluation_errors,
                                };
                            },
                        },
                        Err(error) => {
                            return BoundaryReport {
                                outcome: BoundaryOutcome::Failed(ScanError::Decoder(error)),
                                pruned,
                                evaluation_errors,
                            };
                        },
                    },
                    None => {},
                }
            }
        }
        self.stage = ScanStage::Chosen;
        BoundaryReport { outcome: BoundaryOutcome::Continue, pruned, evaluation_errors }
    }
}

/// What becomes of a row group that was read ahead.
pub enum SettledPrefetch<T> {
    /// Nothing is waited for: no row group was read ahead, or it is not the next
    /// one and the read was let go.
    Proceed,
    /// The scan waits for the read.
    Await(PrefetchedRowGroup<T>),
    /// The decoder failed.
    Failed(ParquetError),
}

/// How a read that ran in the background ended.
pub enum PrefetchResult<M> {
    /// It has the bytes, and a reservation of memory for them.
    Read(Vec<Bytes>, M),
    /// The bytes could not be read.
    Failed,
    /// The read itself was lost.
    Lost,
}

/// What came of a read that ran in the background.
pub enum Adoption {
    /// The scan goes on.
    Proceed,
    /// The decoder failed.
    Failed(ParquetError),
    /// The read was lost.
    Lost,
}

/// What a scan does after it has asked the decoder for the next reader.
pub enum PollStep {
    /// It reads these ranges of the file.
    Fetch(Vec<Range<u64>>),
    /// It reads batches, and the next row group ahead as was decided.
    Decode(Option<PrefetchDecision>),
    /// The scan is over.
    Finished,
    /// The decoder failed.
    Failed(ParquetError),
}

/// Whether `decision` is what is decided about reading ahead when the decoder
/// reads `frontier` next.
pub open spec fn ahead_decided(
    frontier: Option<usize>,
    row_groups: Seq<RowGroupMetaData>,
    projection: ProjectionMask,
    max_bytes: Option<usize>,
    decision: Option<PrefetchDecision>,
) -> bool {
    match (max_bytes, frontier) {
        (Some(max_bytes), Some(next)) => {
            &&& next < row_groups.len()
            &&& decision matches Some(decision) && prefetch_decided(
                next,
                row_groups[next as int],
                projection,
                max_bytes,
                decision,
            )
        },
        _ => decision is None,
    }
}

impl<P, R, T, M> PushDecoderStreamState<P, R, T, M> {
    /// Whether settling what was read ahead makes this of the state `before`.
    pub open spec fn settled_from(&self, before: &Self, settled: SettledPrefetch<T>) -> bool {
        &&& *self == (Self {
            pending_prefetch: None,
            stage: self.stage,
            ..*before
        })
        &&& match before.pending_prefetch {
            None => settled is Proceed && self.stage == ScanStage::Polling,
            Some(prefetch) => match decoder_frontier(before.decoder->0) {
                None => {
                    &&& settled is Failed
                    &&& !rows_countable(before.decoder->0)
                    &&& self.stage == ScanStage::Boundary
                },
                Some(next) => if next == Some(prefetch.row_group) {
                    settled == SettledPrefetch::Await(prefetch) && self.stage
                        == ScanStage::Adopting
                } else {
                    settled is Proceed && self.stage == ScanStage::Polling
                },
            },
        }
    }

    /// Whether adopting `ranges` makes this of the state `before`.
    pub open spec fn adopted_from(
        &self,
        before: &Self,
        ranges: Seq<Range<u64>>,
        result: PrefetchResult<M>,
        adoption: Adoption,
    ) -> bool {
        &&& *self == (Self {
            decoder: self.decoder,
            prefetch_reservation: self.prefetch_reservation,
            stage: self.stage,
            ..*before
        })
        &&& match result {
            PrefetchResult::Read(data, reservation) => {
                &&& adoption is Proceed
                &&& given_bytes(
                    before.decoder->0,
                    ranges,
                    data@,
                    self.decoder->0,
                )
                &&& self.prefetch_reservation == Some(reservation)
                &&& self.stage == ScanStage::Polling
            },
            PrefetchResult::Failed => {
                &&& adoption is Proceed
                &&& self.decoder == before.decoder
                &&& self.prefetch_reservation is None
                &&& self.stage == ScanStage::Polling
            },
            PrefetchResult::Lost => {
                &&& adoption is Lost
                &&& self.decoder == before.decoder
                &&& self.prefetch_reservation is None
                &&& self.stage == ScanStage::Boundary
            },
        }
    }

    /// Whether asking the decoder for the next reader by `poll` makes this of the state
    /// `before`.
    pub open spec fn polled_from<F>(&self, before: &Self, poll: F, step: PollStep) -> bool where
        F: FnOnce(ParquetPushDecoder) -> (ParquetPushDecoder, Polled<R>),
     {
        &&& self.same_file(before)
        &&& self.row_group_pruner == before.row_group_pruner
        &&& decoder_finished(self.decoder->0) || {
            &&& !decoder_finished(before.decoder->0)
            &&& same_options(
                decoder_settings(self.decoder->0),
                decoder_settings(before.decoder->0),
            )
        }
        &&& is_suffix(decoder_queue(self.decoder->0), decoder_queue(before.decoder->0))
        &&& self.pending_prefetch is None
        &&& exists|polled_decoder: ParquetPushDecoder, polled: Polled<R>|
            {
                &&& #[trigger] call_ensures(
                    poll,
                    (before.decoder->0,),
                    (polled_decoder, polled),
                )
                &&& match polled {
                    Polled::NeedsData(ranges) => {
                        &&& step == PollStep::Fetch(ranges)
                        &&& self.stage == ScanStage::Fetching
                        &&& self.decoder == Some(polled_decoder)
                        &&& self.rg_plan == before.rg_plan
                        &&& self.prefetch_reservation
                            == before.prefetch_reservation
                    },
                    Polled::Data(reader) => {
                        let decoder = self.decoder->0;
                        &&& self.stage == ScanStage::Decoding
                        &&& self.active_reader == Some(reader)
                        &&& match before.prefetch_reservation {
                            Some(_) => let_go(polled_decoder, decoder),
                            None => decoder == polled_decoder,
                        }
                        &&& self.plan() == before.plan().drop_first()
                        &&& self.prefetch_reservation is None
                        &&& match (before.row_group_prefetch, decoder_frontier(decoder)) {
                            (Some(_), None) => step is Failed && !rows_countable(
                                before.decoder->0,
                            ),
                            (max_bytes, frontier) => step matches PollStep::Decode(decision)
                                && ahead_decided(
                                if max_bytes is Some {
                                    frontier->0
                                } else {
                                    None
                                },
                                before.row_groups@,
                                before.projection,
                                max_bytes,
                                decision,
                            ),
                        }
                    },
                    Polled::Finished => {
                        &&& step is Finished
                        &&& self.stage == ScanStage::Finished
                        &&& self.decoder == Some(polled_decoder)
                        &&& self.rg_plan == before.rg_plan
                        &&& self.prefetch_reservation
                            == before.prefetch_reservation
                    },
                    Polled::Failed(error) => {
                        &&& step == PollStep::Failed(error)
                        &&& self.stage == ScanStage::Boundary
                        &&& self.decoder == Some(polled_decoder)
                        &&& self.rg_plan == before.rg_plan
                        &&& self.prefetch_reservation
                            == before.prefetch_reservation
                    },
                }
            }
    }

    /// Whether a read ahead that was started makes this of the state `before`.
    pub open spec fn started_from(&self, before: &Self, plan: PrefetchPlan, task: T) -> bool {
        *self == (Self {
            pending_prefetch: Some(
                PrefetchedRowGroup { row_group: plan.row_group, ranges: plan.ranges, task },
            ),
            ..*before
        })
    }

    /// Whether supplying the bytes of `ranges` makes this of the state `before`.
    pub open spec fn supplied_from(
        &self,
        before: &Self,
        ranges: Seq<Range<u64>>,
        data: Option<Vec<Bytes>>,
    ) -> bool {
        &&& *self == (Self {
            decoder: self.decoder,
            stage: ScanStage::Boundary,
            ..*before
        })
        &&& match data {
            Some(data) => given_bytes(
                before.decoder->0,
                ranges,
                data@,
                self.decoder->0,
            ),
            None => self.decoder == before.decoder,
        }
    }
}

impl<P, R, T, M> PushDecoderStreamState<P, R, T, M> {
    /// Settles what was read ahead, once the next row group is chosen: where it is
    /// the one that was read ahead, the read is waited for, and let go otherwise.
    pub fn settle_prefetch(&mut self) -> (settled: SettledPrefetch<T>)
        requires
            old(self).wf(),
            old(self).stage == ScanStage::Chosen,
        ensures
            final(self).wf(),
            final(self).settled_from(old(self), settled),
            settled matches SettledPrefetch::Await(prefetch) ==> final(self).plan().contains(
                prefetch.row_group,
            ),
    {
        match self.pending_prefetch.take() {
            None => {
                self.stage = ScanStage::Polling;
                SettledPrefetch::Proceed
            },
            Some(prefetch) => {
                let next = match &self.decoder {
                    Some(decoder) => peek_next_row_group(decoder),
                    None => Ok(None),
                };
                match next {
                    Err(error) => {
                        self.stage = ScanStage::Boundary;
                        SettledPrefetch::Failed(error)
                    },
                    Ok(Some(next)) => if next == prefetch.row_group {
                        proof {
                            let decoder = self.decoder->0;
                            lemma_from_target(decoder_queue(decoder), next);
                            let queue = decoder_queue(decoder);
                            let at = choose|at: int| 0 <= at < queue.len() && queue[at] == next;
                            assert(upcoming(decoder).contains(next)) by {
                                if decoder_at_boundary(decoder) {
                                    assert(upcoming(decoder)[0] == next);
                                } else {
                                    assert(upcoming(decoder)[at] == next);
                                }
                            }
                            law_only_planned_row_groups_are_read(*old(self), next);
                        }
                        self.stage = ScanStage::Adopting;
                        SettledPrefetch::Await(prefetch)
                    } else {
                        self.stage = ScanStage::Polling;
                        SettledPrefetch::Proceed
                    },
                    Ok(None) => {
                        self.stage = ScanStage::Polling;
                        SettledPrefetch::Proceed
                    },
                }
            },
        }
    }

    /// Gives the decoder the bytes of `ranges` that were read ahead, and keeps
    /// their reservation. Where they could not be read the decoder will ask for
    /// them like for any others: a read that may not even be needed fails no scan.
    pub fn adopt_prefetch(&mut self, ranges: Vec<Range<u64>>, result: PrefetchResult<M>) -> (
        adoption: Adoption)
        requires
            old(self).wf(),
            old(self).stage == ScanStage::Adopting,
            result matches PrefetchResult::Read(data, _) ==> ranges_match(ranges@, data@),
        ensures
            final(self).wf(),
            final(self).adopted_from(old(self), ranges@, result, adoption),
    {
        match result {
            PrefetchResult::Read(data, reservation) => {
                match self.decoder.take() {
                    Some(mut decoder) => {
                        let pushed = push_ranges(&mut decoder, ranges, data);
                        self.decoder = Some(decoder);
                        match pushed {
                            Ok(_) => {},
                            Err(error) => {
                                self.stage = ScanStage::Boundary;
                                return Adoption::Failed(error);
                            },
                        }
                    },
                    None => {},
                }
                self.prefetch_reservation = Some(reservation);
                self.stage = ScanStage::Polling;
                Adoption::Proceed
            },
            PrefetchResult::Failed => {
                self.stage = ScanStage::Polling;
                Adoption::Proceed
            },
            PrefetchResult::Lost => {
                self.stage = ScanStage::Boundary;
                Adoption::Lost
            },
        }
    }

    /// Asks the decoder for the next reader by `poll`, which gives the decoder
    /// back, and decides what the scan does next.
    ///
    /// With a reader the row group leaves the plan. What the decoder still holds
    /// of bytes that were read ahead is let go then, and so is their reservation:
    /// the reader has what it needs. After that the next row group may be read
    /// ahead.
    pub fn poll_decoder<F>(&mut self, poll: F) -> (step: PollStep) where
        F: FnOnce(ParquetPushDecoder) -> (ParquetPushDecoder, Polled<R>),

        requires
            old(self).wf(),
            old(self).stage == ScanStage::Polling,
            forall|decoder: ParquetPushDecoder|
                decoder_valid(decoder) ==> #[trigger] call_requires(poll, (decoder,)),
            forall|before: ParquetPushDecoder, after: ParquetPushDecoder, polled: Polled<R>|
                #[trigger] call_ensures(poll, (before,), (after, polled)) ==> poll_allowed(
                    before,
                    after,
                    polled,
                ),
        ensures
            final(self).wf(),
            final(self).polled_from(old(self), poll, step),
    {
        let ghost before = self.decoder->0;
        let ghost plan = self.plan();
        match self.decoder.take() {
            None => PollStep::Finished,
            Some(decoder) => {
                let (mut decoder, polled) = poll(decoder);
                proof {
                    lemma_polled(before, decoder, polled, plan);
                    lemma_countable(before, decoder);
                }
                match polled {
                    Polled::NeedsData(ranges) => {
                        self.decoder = Some(decoder);
                        self.stage = ScanStage::Fetching;
                        PollStep::Fetch(ranges)
                    },
                    Polled::Data(reader) => {
                        self.rg_plan.pop_front();
                        assert(self.plan() =~= plan.drop_first());
                        self.active_reader = Some(reader);
                        self.stage = ScanStage::Decoding;
                        match self.prefetch_reservation.take() {
                            Some(_) => clear_all_ranges(&mut decoder),
                            None => {},
                        }
                        let step = match self.row_group_prefetch {
                            Some(max_bytes) => match peek_next_row_group(&decoder) {
                                Ok(Some(next)) => {
                                    proof {
                                        let left = self.plan();
                                        let ahead = upcoming(decoder);
                                        lemma_from_target(decoder_queue(decoder), next);
                                        let at = left.len() - ahead.len();
                                        assert(left[at] == next);
                                        assert(old(self).rg_plan@[at + 1].rg_index == next);
                                    }
                                    PollStep::Decode(
                                        Some(
                                            plan_prefetch(
                                                next,
                                                &self.row_groups[next],
                                                &self.projection,
                                                max_bytes,
                                            ),
                                        ),
                                    )
                                },
                                Ok(None) => PollStep::Decode(None),
                                Err(error) => PollStep::Failed(error),
                            },
                            None => PollStep::Decode(None),
                        };
                        self.decoder = Some(decoder);
                        step
                    },
                    Polled::Finished => {
                        self.decoder = Some(decoder);
                        self.stage = ScanStage::Finished;
                        PollStep::Finished
                    },
                    Polled::Failed(error) => {
                        self.decoder = Some(decoder);
                        self.stage = ScanStage::Boundary;
                        PollStep::Failed(error)
                    },
                }
            },
        }
    }

    /// Notes that the row group of `plan` is being read ahead by `task`.
    pub fn prefetch_started(&mut self, plan: PrefetchPlan, task: T)
        requires
            old(self).wf(),
            old(self).stage == ScanStage::Decoding,
            old(self).pending_prefetch is None,
            decoder_frontier(old(self).decoder->0) == Some(Some(plan.row_group)),
            old(self).within_budget(plan.row_group, plan.ranges@),
        ensures
            final(self).wf(),
            final(self).started_from(old(self), plan, task),
    {
        self.pending_prefetch = Some(
            PrefetchedRowGroup { row_group: plan.row_group, ranges: plan.ranges, task },
        );
    }

    /// Gives the decoder the bytes of `ranges` that it asked for. Without them, as
    /// when they could not be read, it is left as it is.
    pub fn supply(&mut self, ranges: Vec<Range<u64>>, data: Option<Vec<Bytes>>) -> (supplied: Result<
        (),
        ParquetError,
    >)
        requires
            old(self).wf(),
            old(self).stage == ScanStage::Fetching,
            data matches Some(data) ==> ranges_match(ranges@, data@),
        ensures
            final(self).wf(),
            supplied is Ok,
            final(self).supplied_from(old(self), ranges@, data),
    {
        self.stage = ScanStage::Boundary;
        match data {
            None => Ok(()),
            Some(data) => match self.decoder.take() {
                Some(mut decoder) => {
                    let pushed = push_ranges(&mut decoder, ranges, data);
                    self.decoder = Some(decoder);
                    pushed
                },
                None => Ok(()),
            },
        }
    }
}

/// After the decoder was asked for the next reader the plan still covers what it
/// may start, with a reader also without its first row group.
proof fn lemma_polled<R>(
    before: ParquetPushDecoder,
    after: ParquetPushDecoder,
    polled: Polled<R>,
    plan: Seq<usize>,
)
    requires
        poll_allowed(before, after, polled),
        decoder_valid(before),
        decoder_finished(before) || {
            &&& is_suffix(upcoming(before), plan)
            &&& !decoder_at_boundary(before) ==> upcoming(before).len() < plan.len()
        },
    ensures
        decoder_valid(after),
        !decoder_finished(after) ==> {
            &&& plan.len() > 0
            &&& is_suffix(upcoming(after), plan)
            &&& is_suffix(upcoming(after), plan.drop_first())
            &&& upcoming(after).len() < plan.len()
        },
{
    lemma_suffix_valid(before, after);
    if !decoder_finished(after) {
        lemma_upcoming(after);
        let ahead = upcoming(before);
        if decoder_at_boundary(before) {
            match decoder_frontier(before) {
                Some(Some(next)) => lemma_from_target(decoder_queue(before), next),
                _ => {},
            }
            lemma_suffix_transitive(upcoming(after), decoder_queue(after), ahead.drop_first());
            assert(ahead.drop_first() =~= ahead.skip(1));
            lemma_suffix_skip(ahead, plan);
            lemma_suffix_transitive(upcoming(after), ahead.drop_first(), plan);
        } else {
            lemma_suffix_transitive(upcoming(after), decoder_queue(after), ahead);
            lemma_suffix_transitive(upcoming(after), ahead, plan);
        }
        let last = upcoming(after);
        assert(plan.drop_first().skip(plan.len() - 1 - last.len()) =~= plan.skip(
            plan.len() - last.len(),
        ));
    }
}

/// What remains of what remains is what remains.
proof fn lemma_suffix_transitive(a: Seq<usize>, b: Seq<usize>, c: Seq<usize>)
    requires
        is_suffix(a, b),
        is_suffix(b, c),
    ensures
        is_suffix(a, c),
{
    assert(a =~= c.skip(c.len() - a.len()));
}

/// One value less remains of a suffix.
proof fn lemma_suffix_skip(rest: Seq<usize>, whole: Seq<usize>)
    requires
        is_suffix(rest, whole),
        rest.len() > 0,
    ensures
        is_suffix(rest.skip(1), whole),
{
    assert(rest.skip(1) =~= whole.skip(whole.len() - (rest.len() - 1)));
}

/// A decoder that has only started row groups since has none that is not in the
/// file.
proof fn lemma_suffix_valid(before: ParquetPushDecoder, after: ParquetPushDecoder)
    requires
        decoder_valid(before),
        is_suffix(decoder_queue(after), decoder_queue(before)),
        !decoder_finished(after) ==> !decoder_finished(before) && decoder_group_count(after)
            == decoder_group_count(before),
    ensures
        decoder_valid(after),
{
    let rest = decoder_queue(after);
    let whole = decoder_queue(before);
    if !decoder_finished(after) {
        assert forall|i: int| 0 <= i < rest.len() implies (#[trigger] rest[i])
            < decoder_group_count(after) by {
            assert(rest[i] == whole[whole.len() - rest.len() + i]);
        }
    }
}

/// A decoder that has only started row groups since still has none whose rows cannot be
/// counted.
pub proof fn lemma_countable(before: ParquetPushDecoder, after: ParquetPushDecoder)
    requires
        is_suffix(decoder_queue(after), decoder_queue(before)),
        !decoder_finished(after) ==> !decoder_finished(before) && decoder_settings(after).file
            == decoder_settings(before).file,
    ensures
        rows_countable(before) ==> rows_countable(after),
{
    let rest = decoder_queue(after);
    let whole = decoder_queue(before);
    if rows_countable(before) && !decoder_finished(after) {
        assert forall|i: int| 0 <= i < rest.len() implies 0 <= footer_group_rows(
            footer_of(decoder_settings(after).file),
            #[trigger] rest[i],
        ) <= usize::MAX by {
            assert(rest[i] == whole[whole.len() - rest.len() + i]);
        }
    }
}

/// Pruning keeps the row groups that were not pruned, all of them and in their
/// order: `places` are their places in the plan.
pub proof fn law_pruning_keeps_the_order(plan: Seq<usize>, outcomes: Seq<PruneOutcome>) -> (places:
    Seq<int>)
    requires
        outcomes.len() == plan.len(),
    ensures
        places.len() == unpruned(plan, outcomes).len(),
        forall|k: int|
            0 <= k < places.len() ==> {
                &&& 0 <= (#[trigger] places[k]) < plan.len()
                &&& unpruned(plan, outcomes)[k] == plan[places[k]]
                &&& !outcomes[places[k]].prune
            },
        forall|j: int, k: int| 0 <= j < k < places.len() ==> places[j] < places[k],
        forall|i: int|
            0 <= i < plan.len() && !(#[trigger] outcomes[i]).prune ==> places.contains(i),
    decreases plan.len(),
{
    if plan.len() == 0 {
        Seq::empty()
    } else {
        let last = plan.len() - 1;
        let front = plan.drop_last();
        let before = outcomes.drop_last();
        lemma_unpruned_extra(front, before, outcomes[last]);
        assert(before.push(outcomes[last]) =~= outcomes);
        let earlier = law_pruning_keeps_the_order(front, before);
        let places = if outcomes[last].prune {
            earlier
        } else {
            earlier.push(last)
        };
        assert forall|i: int| 0 <= i < plan.len() && !(#[trigger] outcomes[i]).prune implies
            places.contains(i) by {
            if i < last {
                assert(!before[i].prune);
                let k = choose|k: int| 0 <= k < earlier.len() && earlier[k] == i;
                assert(places[k] == i);
            } else {
                assert(places[places.len() - 1] == last);
            }
        }
        places
    }
}

/// Whatever the decoder may still start is planned: a row group that was pruned is
/// never read, and the decoder and the plan cannot diverge.
pub proof fn law_only_planned_row_groups_are_read<P, R, T, M>(
    state: PushDecoderStreamState<P, R, T, M>,
    row_group: usize,
)
    requires
        state.wf(),
        state.stage != ScanStage::Finished,
        !decoder_finished(state.decoder->0),
        upcoming(state.decoder->0).contains(row_group),
    ensures
        state.plan().contains(row_group),
{
    let ahead = upcoming(state.decoder->0);
    let plan = state.plan();
    let k = choose|k: int| 0 <= k < ahead.len() && ahead[k] == row_group;
    assert(plan[plan.len() - ahead.len() + k] == row_group);
}

/// Bringing the plan to a row group drops exactly what comes before its first place there,
/// and everything where it has none.
pub proof fn law_the_plan_is_brought_to_the_first_place_of_its_target(
    plan: Seq<usize>,
    target: usize,
)
    ensures
        ({
            let left = from_target(plan, target);
            let dropped = plan.len() - left.len();
            &&& dropped >= 0
            &&& left == plan.skip(dropped)
            &&& forall|i: int| 0 <= i < dropped ==> #[trigger] plan[i] != target
            &&& left.len() > 0 ==> left[0] == target
        }),
        synced(plan, Some(target)) == from_target(plan, target),
        synced(plan, None).len() == 0,
    decreases plan.len(),
{
    lemma_from_target(plan, target);
    if plan.len() > 0 && plan[0] != target {
        let rest = plan.drop_first();
        law_the_plan_is_brought_to_the_first_place_of_its_target(rest, target);
        let dropped = plan.len() - from_target(plan, target).len();
        assert forall|i: int| 0 <= i < dropped implies #[trigger] plan[i] != target by {
            if i > 0 {
                assert(rest[i - 1] != target);
            }
        }
    }
}

/// Pruning while a scan runs drops no row group that is still needed, where what the
/// predicate rules out is not: `needed` says which are. Every row group that is left was
/// planned, and the others are counted.
pub proof fn law_pruning_while_running_drops_nothing_that_is_needed<P, C, B, E>(
    before: RowGroupPruner<P>,
    plan: Seq<usize>,
    changed: C,
    build: B,
    evaluate: E,
    after: RowGroupPruner<P>,
    kept: Seq<usize>,
    pruned: int,
    errors: int,
    needed: spec_fn(usize) -> bool,
    index: usize,
) where
    C: Fn() -> bool,
    B: Fn() -> Option<P>,
    E: Fn(&P, &[usize], MissingNullCount) -> Option<Vec<bool>>,

    requires
        prunes(before, plan, changed, build, evaluate, after, kept, pruned, errors),
        forall|predicate: &P, list: &[usize], verdicts: Vec<bool>| #[trigger]
            call_ensures(evaluate, (predicate, list, MissingNullCount::Zero), Some(verdicts))
                && list@.len() == 1 && (forall|i: int|
                0 <= i < verdicts@.len() ==> !#[trigger] verdicts@[i]) ==> !needed(list@[0]),
    ensures
        plan.contains(index) && needed(index) ==> kept.contains(index),
        kept.contains(index) ==> plan.contains(index),
        pruned + kept.len() == plan.len(),
        pruned >= 0,
        pruned == 0 ==> kept == plan,
{
    lemma_prunes(before, plan, changed, build, evaluate, after, kept, pruned, errors);
    let (pruners, outcomes) = choose|
        pruners: Seq<RowGroupPruner<P>>,
        outcomes: Seq<PruneOutcome>,
    |
        {
            &&& #[trigger] asked(plan, changed, build, evaluate, pruners, outcomes)
            &&& pruners[0] == before
            &&& pruners.last() == after
            &&& kept == unpruned(plan, outcomes)
            &&& pruned == plan.len() - kept.len()
            &&& errors == failures(outcomes)
        };
    lemma_unpruned(plan, outcomes);
    let places = law_pruning_keeps_the_order(plan, outcomes);
    if plan.contains(index) && needed(index) {
        let i = choose|i: int| 0 <= i < plan.len() && plan[i] == index;
        assert(pruner_step(
            pruners[i],
            seq![plan[i]],
            changed,
            build,
            evaluate,
            outcomes[i],
            pruners[i + 1],
        ));
        if outcomes[i].prune {
            law_row_groups_are_skipped_only_where_all_are_ruled_out(
                pruners[i],
                seq![plan[i]],
                changed,
                build,
                evaluate,
                outcomes[i],
                pruners[i + 1],
            );
            let (list, verdicts) = choose|list: &[usize], verdicts: Vec<bool>|
                {
                    &&& list@ == seq![plan[i]]
                    &&& #[trigger] call_ensures(
                        evaluate,
                        (&pruners[i + 1].pruning_predicate->0, list, MissingNullCount::Zero),
                        Some(verdicts),
                    )
                    &&& forall|i: int| 0 <= i < verdicts@.len() ==> !#[trigger] verdicts@[i]
                };
            assert(list@[0] == index);
        }
        assert(places.contains(i));
        let k = choose|k: int| 0 <= k < places.len() && places[k] == i;
        assert(kept[k] == index);
    }
    if kept.contains(index) {
        let k = choose|k: int| 0 <= k < kept.len() && kept[k] == index;
        assert(plan.contains(kept[k]));
    }
}

/// A read ahead is waited for exactly where it is of the row group that the decoder reads
/// next, and let go otherwise: what was pruned meanwhile is not adopted. Without one the
/// scan goes straight on.
pub proof fn law_only_the_next_row_group_is_waited_for<P, R, T, M>(
    before: PushDecoderStreamState<P, R, T, M>,
    after: PushDecoderStreamState<P, R, T, M>,
    settled: SettledPrefetch<T>,
)
    requires
        after.settled_from(&before, settled),
    ensures
        after.pending_prefetch is None,
        after.decoder == before.decoder,
        after.plan() == before.plan(),
        after.prefetch_reservation == before.prefetch_reservation,
        settled is Failed <==> before.pending_prefetch is Some && decoder_frontier(
            before.decoder->0,
        ) is None,
        settled matches SettledPrefetch::Await(prefetch) ==> {
            &&& before.pending_prefetch == Some(prefetch)
            &&& decoder_frontier(before.decoder->0) == Some(Some(prefetch.row_group))
        },
        before.pending_prefetch is None ==> settled is Proceed && after.stage == ScanStage::Polling,
        before.pending_prefetch is Some && decoder_frontier(before.decoder->0) == Some(
            Some((before.pending_prefetch->0).row_group),
        ) ==> settled is Await && after.stage == ScanStage::Adopting,
        before.pending_prefetch is Some && decoder_frontier(before.decoder->0) is Some
            && decoder_frontier(before.decoder->0) != Some(
            Some((before.pending_prefetch->0).row_group),
        ) ==> settled is Proceed && after.stage == ScanStage::Polling,
{
}

/// Bytes that were read ahead, or on demand, are given to the decoder, each stretch for its
/// own range and after what it holds already. The memory of what was read ahead is kept
/// until then. Where they could not be read the decoder stays as it is; only a read that
/// is lost ends the scan.
pub proof fn law_bytes_are_given_to_the_decoder<P, R, T, M>(
    before: PushDecoderStreamState<P, R, T, M>,
    adopted: PushDecoderStreamState<P, R, T, M>,
    supplied: PushDecoderStreamState<P, R, T, M>,
    ranges: Seq<Range<u64>>,
    result: PrefetchResult<M>,
    adoption: Adoption,
    data: Option<Vec<Bytes>>,
    i: int,
)
    requires
        adopted.adopted_from(&before, ranges, result, adoption),
        supplied.supplied_from(&before, ranges, data),
        0 <= i < ranges.len(),
    ensures
        result matches PrefetchResult::Read(bytes, reservation) ==> {
            let held = decoder_settings(before.decoder->0).buffers;
            let now = decoder_settings(adopted.decoder->0).buffers;
            &&& adoption is Proceed
            &&& adopted.prefetch_reservation == Some(reservation)
            &&& bytes@.len() == ranges.len() ==> {
                &&& now.len() == held.len() + ranges.len()
                &&& now[held.len() + i] == (ranges[i], bytes@[i])
                &&& forall|j: int| 0 <= j < held.len() ==> #[trigger] now[j] == held[j]
            }
        },
        !(result is Read) ==> adopted.decoder == before.decoder && adopted.prefetch_reservation
            is None,
        adoption is Lost <==> result is Lost,
        adopted.stage == if result is Lost {
            ScanStage::Boundary
        } else {
            ScanStage::Polling
        },
        adopted.pending_prefetch == before.pending_prefetch,
        adopted.row_group_pruner == before.row_group_pruner,
        decoder_frontier(adopted.decoder->0) == decoder_frontier(before.decoder->0),
        decoder_frontier(supplied.decoder->0) == decoder_frontier(before.decoder->0),
        data matches Some(bytes) ==> {
            let held = decoder_settings(before.decoder->0).buffers;
            let now = decoder_settings(supplied.decoder->0).buffers;
            bytes@.len() == ranges.len() ==> {
                &&& now.len() == held.len() + ranges.len()
                &&& now[held.len() + i] == (ranges[i], bytes@[i])
                &&& forall|j: int| 0 <= j < held.len() ==> #[trigger] now[j] == held[j]
            }
        },
        data is None ==> supplied.decoder == before.decoder,
        adopted.plan() == before.plan(),
        supplied.plan() == before.plan(),
        supplied.stage == ScanStage::Boundary,
{
}

/// What the decoder answers decides what the scan does: it reads the ranges that the decoder
/// needs, it decodes with the reader that it hands out, whose row group leaves the plan, it
/// ends, or it fails. `answer` is what the decoder answers.
pub proof fn law_a_scan_does_what_the_decoder_answers<P, R, T, M, F>(
    before: PushDecoderStreamState<P, R, T, M>,
    after: PushDecoderStreamState<P, R, T, M>,
    poll: F,
    step: PollStep,
    answer: Polled<R>,
) where F: FnOnce(ParquetPushDecoder) -> (ParquetPushDecoder, Polled<R>)
    requires
        after.polled_from(&before, poll, step),
        forall|decoder: ParquetPushDecoder, polled: Polled<R>| #[trigger]
            call_ensures(poll, (before.decoder->0,), (decoder, polled)) ==> polled == answer,
    ensures
        answer matches Polled::NeedsData(ranges) ==> {
            &&& step == PollStep::Fetch(ranges)
            &&& after.stage == ScanStage::Fetching
            &&& after.plan() == before.plan()
            &&& after.prefetch_reservation == before.prefetch_reservation
        },
        answer matches Polled::Data(reader) ==> {
            &&& after.active_reader == Some(reader)
            &&& after.stage == ScanStage::Decoding
            &&& before.plan().len() > 0 ==> before.plan() == seq![before.plan()[0]] + after.plan()
            &&& after.prefetch_reservation is None
            &&& before.row_group_prefetch is None ==> step is Decode && step->Decode_0 is None
            &&& before.row_group_prefetch is Some && decoder_frontier(after.decoder->0) is None
                ==> step is Failed
            &&& before.row_group_prefetch is Some && decoder_frontier(after.decoder->0) == Some(
                None::<usize>,
            ) ==> step is Decode && step->Decode_0 is None
            &&& before.row_group_prefetch is Some && decoder_frontier(after.decoder->0) is Some
                && decoder_frontier(after.decoder->0)->0 is Some ==> {
                &&& step matches PollStep::Decode(Some(decision))
                &&& decision matches PrefetchDecision::Fetch(ahead) ==> ahead.row_group
                    == decoder_frontier(after.decoder->0)->0->0 && 0 < ahead.bytes
                    <= before.row_group_prefetch->0
            }
        },
        answer is Finished ==> step is Finished && after.stage == ScanStage::Finished,
        answer matches Polled::Failed(error) ==> step == PollStep::Failed(error) && after.plan()
            == before.plan() && after.stage == ScanStage::Boundary,
        !(answer is Data) ==> after.plan() == before.plan(),
        after.row_group_pruner == before.row_group_pruner,
{
    if answer is Data && before.plan().len() > 0 {
        assert(seq![before.plan()[0]] + before.plan().drop_first() =~= before.plan());
    }
}

/// A read that is noted as started is that of the plan.
pub proof fn law_a_started_read_is_that_of_its_plan<P, R, T, M>(
    before: PushDecoderStreamState<P, R, T, M>,
    after: PushDecoderStreamState<P, R, T, M>,
    plan: PrefetchPlan,
    task: T,
)
    requires
        after.started_from(&before, plan, task),
    ensures
        after.pending_prefetch is Some,
        after.pending_prefetch->0.row_group == plan.row_group,
        after.pending_prefetch->0.ranges == plan.ranges,
        after.pending_prefetch->0.task == task,
        after.decoder == before.decoder,
        after.plan() == before.plan(),
        after.active_reader == before.active_reader,
{
}

/// Evaluations that failed while a scan runs are counted, each once.
pub proof fn law_failed_evaluations_are_counted(outcomes: Seq<PruneOutcome>)
    requires
        forall|i: int| 0 <= i < outcomes.len() ==> (#[trigger] outcomes[i]).evaluation_errors <= 1,
    ensures
        failures(outcomes) == Seq::new(
            outcomes.len(),
            |i: int| outcomes[i].evaluation_errors == 1,
        ).filter(|failed: bool| failed).len(),
    decreases outcomes.len(),
{
    let failed = Seq::new(outcomes.len(), |i: int| outcomes[i].evaluation_errors == 1);
    law_selected_rows_are_the_set_flags(failed);
    if outcomes.len() > 0 {
        let front = outcomes.drop_last();
        law_failed_evaluations_are_counted(front);
        let earlier = Seq::new(front.len(), |i: int| front[i].evaluation_errors == 1);
        law_selected_rows_are_the_set_flags(earlier);
        assert(failed.drop_last() =~= earlier);
        assert(outcomes[outcomes.len() - 1] == outcomes.last());
    }
}

/// A decoder is rebuilt only where row groups were pruned, and then reads those that are
/// left: in everything else it is set up as it was, and it keeps the bytes that it holds.
pub proof fn law_a_rebuilt_decoder_is_set_up_as_before(
    before: ParquetPushDecoder,
    plan: Seq<usize>,
    pruned: int,
    after: ParquetPushDecoder,
)
    requires
        rebuilt(before, plan, pruned, after),
    ensures
        pruned == 0 ==> after == before,
        pruned != 0 ==> {
            let one = decoder_settings(before);
            let other = decoder_settings(after);
            &&& other.row_groups == Some(plan)
            &&& other.file == one.file
            &&& other.leaves == one.leaves
            &&& other.batch_size == one.batch_size
            &&& other.selection == one.selection
            &&& other.policy == one.policy
            &&& other.limit == one.limit
            &&& other.filter == one.filter
            &&& other.predicate_cache_size == one.predicate_cache_size
            &&& other.metrics == one.metrics
            &&& other.buffers == one.buffers
            &&& decoder_at_boundary(after)
            &&& !decoder_finished(after)
        },
{
}

} // verus!

//! That reading ahead changes nothing of what a scan gives.

use crate::decoder::{decoder_frontier, decoder_queue, decoder_settings, rows_countable};
use crate::decoder_config::BuilderSettings;
use crate::prefetch::{projected_bytes, projected_ranges, PrefetchPlan};
use crate::push_decoder::{
    given_bytes, lemma_countable, let_go, Adoption, PollStep, Polled, PrefetchResult, PushDecoderStreamState,
    ScanStage, SettledPrefetch,
};
use bytes::Bytes;
use parquet::arrow::push_decoder::ParquetPushDecoder;
use std::ops::Range;
use vstd::prelude::*;

verus! {

/// Whether the bytes of all `ranges` are those of the file, as `held` says of each.
pub open spec fn all_held(
    held: spec_fn(Range<u64>, Bytes) -> bool,
    ranges: Seq<Range<u64>>,
    data: Seq<Bytes>,
) -> bool {
    forall|i: int| 0 <= i < ranges.len() ==> held(#[trigger] ranges[i], data[i])
}

/// Whether a decoder decodes the file: what it has yet to decode, `core`, does not hang
/// on the bytes that it holds, and `next` gives from it what the next reader reads, as
/// `rows` has it, and what is left then. `poll` asks the decoder for the next reader.
pub open spec fn decodes_the_file<R, F, C, S>(
    poll: F,
    held: spec_fn(Range<u64>, Bytes) -> bool,
    core: spec_fn(ParquetPushDecoder) -> C,
    rows: spec_fn(R) -> S,
    next: spec_fn(C) -> Option<(S, C)>,
) -> bool where F: FnOnce(ParquetPushDecoder) -> (ParquetPushDecoder, Polled<R>) {
    &&& forall|
        before: ParquetPushDecoder,
        ranges: Seq<Range<u64>>,
        data: Seq<Bytes>,
        after: ParquetPushDecoder,
    | #[trigger]
        given_bytes(before, ranges, data, after) && all_held(held, ranges, data) ==> core(after)
            == core(before)
    &&& forall|before: ParquetPushDecoder, after: ParquetPushDecoder| #[trigger]
        let_go(before, after) ==> core(after) == core(before)
    &&& forall|before: ParquetPushDecoder, after: ParquetPushDecoder, polled: Polled<R>| #[trigger]
        call_ensures(poll, (before,), (after, polled)) ==> match polled {
            Polled::NeedsData(_) => core(after) == core(before),
            Polled::Data(reader) => next(core(before)) == Some((rows(reader), core(after))),
            _ => true,
        }
}

/// Whether a scan may come from `before` to `after` in one step that hands out the
/// reader `handed`, or none: it settles or adopts what was read ahead, is supplied with
/// bytes, asks the decoder for the next reader, starts to read ahead, or does something
/// that leaves the decoder alone, like decoding a batch or coming to a boundary where
/// nothing is pruned. All bytes are those of the file, and the decoder has neither
/// finished nor failed.
pub open spec fn scan_step<P, R, T, M, F>(
    before: PushDecoderStreamState<P, R, T, M>,
    after: PushDecoderStreamState<P, R, T, M>,
    poll: F,
    held: spec_fn(Range<u64>, Bytes) -> bool,
    handed: Option<R>,
) -> bool where F: FnOnce(ParquetPushDecoder) -> (ParquetPushDecoder, Polled<R>) {
    ||| {
        &&& handed is None
        &&& exists|settled: SettledPrefetch<T>| #[trigger] after.settled_from(&before, settled)
    }
    ||| {
        &&& handed is None
        &&& exists|ranges: Seq<Range<u64>>, result: PrefetchResult<M>, adoption: Adoption|
            {
                &&& #[trigger] after.adopted_from(&before, ranges, result, adoption)
                &&& result matches PrefetchResult::Read(data, _) ==> all_held(held, ranges, data@)
            }
    }
    ||| {
        &&& handed is None
        &&& exists|ranges: Seq<Range<u64>>, data: Option<Vec<Bytes>>|
            {
                &&& #[trigger] after.supplied_from(&before, ranges, data)
                &&& data matches Some(data) ==> all_held(held, ranges, data@)
            }
    }
    ||| {
        &&& after.stage == ScanStage::Fetching || after.stage == ScanStage::Decoding
        &&& handed == if after.stage == ScanStage::Decoding {
            after.active_reader
        } else {
            None
        }
        &&& exists|step: PollStep| #[trigger] after.polled_from(&before, poll, step)
    }
    ||| {
        &&& handed is None
        &&& exists|plan: PrefetchPlan, task: T| #[trigger] after.started_from(&before, plan, task)
    }
    ||| {
        &&& handed is None
        &&& after.decoder == before.decoder
    }
}

/// What the readers read that were handed out, in order.
pub open spec fn handed_out<R, S>(handed: Seq<Option<R>>, rows: spec_fn(R) -> S) -> Seq<S>
    decreases handed.len(),
{
    if handed.len() == 0 {
        Seq::empty()
    } else {
        let earlier = handed_out(handed.drop_last(), rows);
        match handed.last() {
            Some(reader) => earlier.push(rows(reader)),
            None => earlier,
        }
    }
}

/// What the first `count` readers read from `core` on.
pub open spec fn first_rows<C, S>(
    next: spec_fn(C) -> Option<(S, C)>,
    core: C,
    count: nat,
) -> Seq<S>
    decreases count,
{
    if count == 0 {
        Seq::empty()
    } else {
        let earlier = first_rows(next, core, (count - 1) as nat);
        match next(left_after(next, core, (count - 1) as nat)) {
            Some((rows, _)) => earlier.push(rows),
            None => earlier,
        }
    }
}

/// What is left to decode after the first `count` readers.
pub open spec fn left_after<C, S>(next: spec_fn(C) -> Option<(S, C)>, core: C, count: nat) -> C
    decreases count,
{
    if count == 0 {
        core
    } else {
        let earlier = left_after(next, core, (count - 1) as nat);
        match next(earlier) {
            Some((_, left)) => left,
            None => earlier,
        }
    }
}

/// Whether `states` are those of a scan, in order, that handed out `handed` on the way.
pub open spec fn is_scan<P, R, T, M, F>(
    states: Seq<PushDecoderStreamState<P, R, T, M>>,
    poll: F,
    held: spec_fn(Range<u64>, Bytes) -> bool,
    handed: Seq<Option<R>>,
) -> bool where F: FnOnce(ParquetPushDecoder) -> (ParquetPushDecoder, Polled<R>) {
    &&& states.len() == handed.len() + 1
    &&& forall|i: int|
        0 <= i < handed.len() ==> scan_step(
            #[trigger] states[i],
            states[i + 1],
            poll,
            held,
            handed[i],
        )
}

/// However a scan comes by its bytes, read ahead or on demand, what it hands out is what
/// the decoder has to decode, in that order.
pub proof fn law_a_scan_hands_out_what_is_to_decode<P, R, T, M, F, C, S>(
    states: Seq<PushDecoderStreamState<P, R, T, M>>,
    poll: F,
    held: spec_fn(Range<u64>, Bytes) -> bool,
    handed: Seq<Option<R>>,
    core: spec_fn(ParquetPushDecoder) -> C,
    rows: spec_fn(R) -> S,
    next: spec_fn(C) -> Option<(S, C)>,
) where F: FnOnce(ParquetPushDecoder) -> (ParquetPushDecoder, Polled<R>)
    requires
        is_scan(states, poll, held, handed),
        decodes_the_file(poll, held, core, rows, next),
    ensures
        ({
            let first = core(states[0].decoder->0);
            let out = handed_out(handed, rows);
            &&& out == first_rows(next, first, out.len())
            &&& core(states.last().decoder->0) == left_after(next, first, out.len())
        }),
    decreases handed.len(),
{
    if handed.len() > 0 {
        let last = handed.len() - 1;
        let fewer = states.drop_last();
        assert forall|i: int| 0 <= i < handed.drop_last().len() implies scan_step(
            #[trigger] fewer[i],
            fewer[i + 1],
            poll,
            held,
            handed.drop_last()[i],
        ) by {
            assert(scan_step(states[i], states[i + 1], poll, held, handed[i]));
        }
        law_a_scan_hands_out_what_is_to_decode(
            fewer,
            poll,
            held,
            handed.drop_last(),
            core,
            rows,
            next,
        );
        assert(fewer.last() == states[last]);
        assert(scan_step(states[last], states[last + 1], poll, held, handed[last]));
        lemma_step(states[last], states[last + 1], poll, held, handed[last], core, rows, next);
    }
}

/// A step that hands out no reader leaves to decode what there was, and one that does
/// hands out the next.
proof fn lemma_step<P, R, T, M, F, C, S>(
    before: PushDecoderStreamState<P, R, T, M>,
    after: PushDecoderStreamState<P, R, T, M>,
    poll: F,
    held: spec_fn(Range<u64>, Bytes) -> bool,
    handed: Option<R>,
    core: spec_fn(ParquetPushDecoder) -> C,
    rows: spec_fn(R) -> S,
    next: spec_fn(C) -> Option<(S, C)>,
) where F: FnOnce(ParquetPushDecoder) -> (ParquetPushDecoder, Polled<R>)
    requires
        scan_step(before, after, poll, held, handed),
        decodes_the_file(poll, held, core, rows, next),
    ensures
        match handed {
            None => core(after.decoder->0) == core(before.decoder->0),
            Some(reader) => next(core(before.decoder->0)) == Some(
                (rows(reader), core(after.decoder->0)),
            ),
        },
{
}

/// Two scans that have the same to decode hand out the same in the same order, whether
/// they read ahead or not, and however much: none hands out anything that the other does
/// not come to, and where both have nothing left they have handed out the same.
pub proof fn law_reading_ahead_changes_no_output<P, R, T, M, F, C, S>(
    ahead: Seq<PushDecoderStreamState<P, R, T, M>>,
    ahead_handed: Seq<Option<R>>,
    demand: Seq<PushDecoderStreamState<P, R, T, M>>,
    demand_handed: Seq<Option<R>>,
    poll: F,
    held: spec_fn(Range<u64>, Bytes) -> bool,
    core: spec_fn(ParquetPushDecoder) -> C,
    rows: spec_fn(R) -> S,
    next: spec_fn(C) -> Option<(S, C)>,
) where F: FnOnce(ParquetPushDecoder) -> (ParquetPushDecoder, Polled<R>)
    requires
        is_scan(ahead, poll, held, ahead_handed),
        is_scan(demand, poll, held, demand_handed),
        core(ahead[0].decoder->0) == core(demand[0].decoder->0),
        decodes_the_file(poll, held, core, rows, next),
    ensures
        ({
            let one = handed_out(ahead_handed, rows);
            let other = handed_out(demand_handed, rows);
            &&& one.is_prefix_of(other) || other.is_prefix_of(one)
            &&& next(core(ahead.last().decoder->0)) is None && next(
                core(demand.last().decoder->0),
            ) is None ==> one == other
        }),
{
    let first = core(ahead[0].decoder->0);
    let one = handed_out(ahead_handed, rows);
    let other = handed_out(demand_handed, rows);
    law_a_scan_hands_out_what_is_to_decode(ahead, poll, held, ahead_handed, core, rows, next);
    law_a_scan_hands_out_what_is_to_decode(demand, poll, held, demand_handed, core, rows, next);
    if one.len() <= other.len() {
        lemma_first_rows(next, first, one.len(), other.len());
    } else {
        lemma_first_rows(next, first, other.len(), one.len());
    }
}

/// What fewer readers read is what the first of more readers read, and where nothing is
/// left after fewer, more read no more.
proof fn lemma_first_rows<C, S>(
    next: spec_fn(C) -> Option<(S, C)>,
    core: C,
    fewer: nat,
    more: nat,
)
    requires
        fewer <= more,
    ensures
        first_rows(next, core, fewer).is_prefix_of(first_rows(next, core, more)),
        next(left_after(next, core, fewer)) is None ==> first_rows(next, core, more) == first_rows(
            next,
            core,
            fewer,
        ) && left_after(next, core, more) == left_after(next, core, fewer),
    decreases more,
{
    if fewer < more {
        lemma_first_rows(next, core, fewer, (more - 1) as nat);
    }
}

/// Settling and adopting what was read ahead changes nothing of what the decoder is set
/// to but the bytes that it holds, and a read that failed changes nothing of it and fails
/// no scan.
pub proof fn law_adopting_adds_only_bytes<P, R, T, M>(
    chosen: PushDecoderStreamState<P, R, T, M>,
    settled_state: PushDecoderStreamState<P, R, T, M>,
    settled: SettledPrefetch<T>,
    after: PushDecoderStreamState<P, R, T, M>,
    ranges: Seq<Range<u64>>,
    result: PrefetchResult<M>,
    adoption: Adoption,
)
    requires
        settled_state.settled_from(&chosen, settled),
        after.adopted_from(&settled_state, ranges, result, adoption),
    ensures
        settled_state.decoder == chosen.decoder,
        decoder_settings(after.decoder->0) == (BuilderSettings {
            buffers: decoder_settings(after.decoder->0).buffers,
            ..decoder_settings(chosen.decoder->0)
        }),
        after.plan() == chosen.plan(),
        result is Failed ==> adoption is Proceed && after.decoder == chosen.decoder && after.stage
            == ScanStage::Polling,
{
}

/// Reading ahead fails no scan whose rows can be counted: as long as no read is lost,
/// settling and adopting what was read ahead let the scan go on, and with a reader it
/// decodes.
pub proof fn law_reading_ahead_fails_no_scan<P, R, T, M, F>(
    states: Seq<PushDecoderStreamState<P, R, T, M>>,
    poll: F,
    held: spec_fn(Range<u64>, Bytes) -> bool,
    handed: Seq<Option<R>>,
    at: int,
) where F: FnOnce(ParquetPushDecoder) -> (ParquetPushDecoder, Polled<R>)
    requires
        is_scan(states, poll, held, handed),
        rows_countable(states[0].decoder->0),
        0 <= at < handed.len(),
    ensures
        rows_countable(states[at + 1].decoder->0),
        forall|settled: SettledPrefetch<T>| #[trigger]
            states[at + 1].settled_from(&states[at], settled) ==> !(settled is Failed),
        forall|ranges: Seq<Range<u64>>, result: PrefetchResult<M>, adoption: Adoption| #[trigger]
            states[at + 1].adopted_from(&states[at], ranges, result, adoption) && !(result is Lost)
                ==> adoption is Proceed,
        forall|step: PollStep| #[trigger]
            states[at + 1].polled_from(&states[at], poll, step) && states[at + 1].stage
                == ScanStage::Decoding ==> step is Decode,
    decreases at,
{
    if at > 0 {
        law_reading_ahead_fails_no_scan(states, poll, held, handed, at - 1);
    }
    let before = states[at].decoder->0;
    let after = states[at + 1].decoder->0;
    assert(scan_step(states[at], states[at + 1], poll, held, handed[at]));
    if decoder_queue(after) == decoder_queue(before) {
        assert(decoder_queue(before).skip(0) =~= decoder_queue(before));
    }
    lemma_countable(before, after);
}

/// Once the next reader is handed out, nothing is held any more of what was read ahead:
/// neither the memory that was reserved for it nor its bytes in the decoder.
pub proof fn law_a_reader_releases_what_was_read_ahead<P, R, T, M, F>(
    before: PushDecoderStreamState<P, R, T, M>,
    after: PushDecoderStreamState<P, R, T, M>,
    poll: F,
    step: PollStep,
) where F: FnOnce(ParquetPushDecoder) -> (ParquetPushDecoder, Polled<R>)
    requires
        after.polled_from(&before, poll, step),
        after.stage == ScanStage::Decoding,
    ensures
        after.prefetch_reservation is None,
        after.pending_prefetch is None,
        before.prefetch_reservation is Some ==> decoder_settings(after.decoder->0).buffers.len()
            == 0,
{
}

/// Between any two steps at most one row group is being read ahead or is held after it
/// was: while a row group is decoded it is the one that the decoder reads next, its
/// column chunks are no more bytes than the budget, and what was held before is let go.
pub proof fn law_at_most_one_row_group_is_read_ahead<P, R, T, M>(
    state: PushDecoderStreamState<P, R, T, M>,
)
    requires
        state.wf(),
    ensures
        state.pending_prefetch is None || state.prefetch_reservation is None,
        state.stage == ScanStage::Decoding ==> state.prefetch_reservation is None,
        state.pending_prefetch matches Some(prefetch) ==> {
            let columns = state.row_groups@[prefetch.row_group as int].columns@;
            &&& state.row_group_prefetch matches Some(max_bytes) && 0 < projected_bytes(
                columns,
                state.projection,
            ) <= max_bytes
            &&& prefetch.ranges@ == projected_ranges(columns, state.projection)
            &&& state.stage == ScanStage::Decoding ==> decoder_frontier(
                state.decoder->0,
            ) == Some(Some(prefetch.row_group))
        },
{
}

} // verus!

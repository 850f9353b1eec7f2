//! Pruning row groups while the scan runs.

use crate::row_group_filter::MissingNullCount;
use vstd::prelude::*;

verus! {

/// Prunes row groups by a predicate that may change while the scan runs, such as
/// the threshold that a top-k operator pushes down.
///
/// `P` is the predicate in the form that is evaluated on statistics. It is built
/// when it is first needed, and again when the predicate has changed.
pub struct RowGroupPruner<P> {
    /// Whether the predicate was never built.
    pub needs_initial_build: bool,
    /// The predicate as it was last built. `None` where it cannot be evaluated on
    /// statistics: then nothing is pruned.
    pub pruning_predicate: Option<P>,
}

/// What a pruner says of some row groups.
#[derive(Debug, Clone, Copy, PartialEq, Eq, Structural)]
pub struct PruneOutcome {
    /// Whether all of the row groups can be skipped.
    pub prune: bool,
    /// Evaluations that failed.
    pub evaluation_errors: usize,
}

/// Whether no verdict is that a row may match.
pub open spec fn all_ruled_out(verdicts: Seq<bool>) -> bool {
    forall|i: int| 0 <= i < verdicts.len() ==> !#[trigger] verdicts[i]
}

/// What the verdicts on some row groups say: all of them can be skipped where no
/// row of any of them can match. Without verdicts the evaluation failed.
pub open spec fn outcome_of(verdicts: Option<Seq<bool>>) -> PruneOutcome {
    match verdicts {
        Some(verdicts) => PruneOutcome {
            prune: all_ruled_out(verdicts),
            evaluation_errors: 0,
        },
        None => PruneOutcome { prune: false, evaluation_errors: 1 },
    }
}

/// Whether no verdict is that a row may match.
fn rules_out_all(verdicts: &Vec<bool>) -> (all: bool)
    ensures
        all == all_ruled_out(verdicts@),
{
    let mut i: usize = 0;
    while i < verdicts.len()
        invariant
            i <= verdicts.len(),
            forall|j: int| 0 <= j < i ==> !#[trigger] verdicts@[j],
        decreases verdicts.len() - i,
    {
        if verdicts[i] {
            assert(verdicts@[i as int]);
            return false;
        }
        i += 1;
    }
    true
}

/// What the verdicts on some row groups say.
pub fn judge(verdicts: &Option<Vec<bool>>) -> (outcome: PruneOutcome)
    ensures
        outcome == outcome_of(
            match *verdicts {
                Some(verdicts) => Some(verdicts@),
                None => None,
            },
        ),
{
    match verdicts {
        Some(verdicts) => PruneOutcome { prune: rules_out_all(verdicts), evaluation_errors: 0 },
        None => PruneOutcome { prune: false, evaluation_errors: 1 },
    }
}

/// Whether `after` is what the pruner `before` is once it was refreshed: the
/// predicate was built anew where it never was before or has changed.
pub open spec fn refreshed<P, C, B>(
    before: RowGroupPruner<P>,
    changed: C,
    build: B,
    after: RowGroupPruner<P>,
) -> bool where C: Fn() -> bool, B: Fn() -> Option<P> {
    exists|dynamic_changed: bool|
        {
            &&& #[trigger] call_ensures(changed, (), dynamic_changed)
            &&& !after.needs_initial_build
            &&& if before.needs_initial_build || dynamic_changed {
                call_ensures(build, (), after.pruning_predicate)
            } else {
                after.pruning_predicate == before.pruning_predicate
            }
        }
}

/// Whether `outcome` is what `predicate` says of the row groups at `indexes`.
pub open spec fn evaluated<P, E>(
    predicate: Option<P>,
    evaluate: E,
    indexes: Seq<usize>,
    outcome: PruneOutcome,
) -> bool where E: Fn(&P, &[usize], MissingNullCount) -> Option<Vec<bool>> {
    match predicate {
        None => outcome == (PruneOutcome { prune: false, evaluation_errors: 0 }),
        Some(predicate) => exists|list: &[usize], verdicts: Option<Vec<bool>>|
            {
                &&& list@ == indexes
                &&& #[trigger] call_ensures(evaluate, (&predicate, list, MissingNullCount::Zero), verdicts)
                &&& outcome == outcome_of(
                    match verdicts {
                        Some(verdicts) => Some(verdicts@),
                        None => None,
                    },
                )
            },
    }
}

/// Whether a pruner that was asked about the row groups at `indexes` may answer
/// with `outcome` and be `after`.
pub open spec fn pruner_step<P, C, B, E>(
    before: RowGroupPruner<P>,
    indexes: Seq<usize>,
    changed: C,
    build: B,
    evaluate: E,
    outcome: PruneOutcome,
    after: RowGroupPruner<P>,
) -> bool where
    C: Fn() -> bool,
    B: Fn() -> Option<P>,
    E: Fn(&P, &[usize], MissingNullCount) -> Option<Vec<bool>>,
 {
    if indexes.len() == 0 {
        after == before && outcome == (PruneOutcome { prune: false, evaluation_errors: 0 })
    } else {
        refreshed(before, changed, build, after) && evaluated(
            after.pruning_predicate,
            evaluate,
            indexes,
            outcome,
        )
    }
}

impl<P> RowGroupPruner<P> {
    /// A pruner that has not built its predicate yet.
    pub fn new() -> (pruner: Self)
        ensures
            pruner.needs_initial_build,
            pruner.pruning_predicate is None,
    {
        RowGroupPruner { needs_initial_build: true, pruning_predicate: None }
    }

    /// Whether all row groups at `row_group_indices` can be skipped as the
    /// predicate now stands.
    ///
    /// `changed` says whether the predicate has changed since it was last asked,
    /// `build` builds it for statistics where that can be done, and `evaluate`
    /// gives a verdict for each row group, `false` where no row of it can match,
    /// or `None` where it fails; it is told what a null count that is missing stands
    /// for. Whatever fails, nothing is skipped on that
    /// account.
    pub fn should_prune<C, B, E>(
        &mut self,
        row_group_indices: &[usize],
        changed: &C,
        build: &B,
        evaluate: &E,
    ) -> (outcome: PruneOutcome) where
        C: Fn() -> bool,
        B: Fn() -> Option<P>,
        E: Fn(&P, &[usize], MissingNullCount) -> Option<Vec<bool>>,

        requires
            call_requires(*changed, ()),
            call_requires(*build, ()),
            forall|predicate: &P| #[trigger]
                call_requires(*evaluate, (predicate, row_group_indices, MissingNullCount::Zero)),
        ensures
            pruner_step(
                *old(self),
                row_group_indices@,
                *changed,
                *build,
                *evaluate,
                outcome,
                *final(self),
            ),
    {
        if row_group_indices.len() == 0 {
            return PruneOutcome { prune: false, evaluation_errors: 0 };
        }
        let dynamic_changed = changed();
        if self.needs_initial_build || dynamic_changed {
            self.pruning_predicate = build();
            self.needs_initial_build = false;
        }
        match &self.pruning_predicate {
            None => PruneOutcome { prune: false, evaluation_errors: 0 },
            Some(predicate) => {
                let verdicts = evaluate(predicate, row_group_indices, MissingNullCount::Zero);
                judge(&verdicts)
            },
        }
    }
}

/// Row groups are ruled out together exactly where each part of them is.
pub proof fn law_ruled_out_by_parts(a: Seq<bool>, b: Seq<bool>)
    ensures
        all_ruled_out(a + b) == (all_ruled_out(a) && all_ruled_out(b)),
{
    if all_ruled_out(a + b) {
        assert forall|i: int| 0 <= i < a.len() implies !#[trigger] a[i] by {
            assert(!(a + b)[i]);
        }
        assert forall|i: int| 0 <= i < b.len() implies !#[trigger] b[i] by {
            assert(!(a + b)[a.len() + i]);
        }
    }
}

/// Whether row groups are ruled out together does not hang on their order.
pub proof fn law_ruled_out_in_any_order(a: Seq<bool>, b: Seq<bool>)
    requires
        a.to_multiset() == b.to_multiset(),
    ensures
        all_ruled_out(a) == all_ruled_out(b),
{
    vstd::seq_lib::to_multiset_contains(a, true);
    vstd::seq_lib::to_multiset_contains(b, true);
    assert(all_ruled_out(a) == !a.contains(true));
    assert(all_ruled_out(b) == !b.contains(true));
}

/// Whether evaluating a predicate never fails and goes by each row group alone: `keeps`
/// says whether a row of it may match.
pub open spec fn evaluates_each<P, E>(evaluate: E, keeps: spec_fn(P, usize) -> bool) -> bool where
    E: Fn(&P, &[usize], MissingNullCount) -> Option<Vec<bool>>,
 {
    forall|predicate: &P, list: &[usize], verdicts: Option<Vec<bool>>| #[trigger]
        call_ensures(evaluate, (predicate, list, MissingNullCount::Zero), verdicts) ==> {
            &&& verdicts matches Some(verdicts) && verdicts@ == verdicts_on(
                *predicate,
                list@,
                keeps,
            )
        }
}

/// The verdicts on row groups that are judged one by one.
pub open spec fn verdicts_on<P>(
    predicate: P,
    indexes: Seq<usize>,
    keeps: spec_fn(P, usize) -> bool,
) -> Seq<bool> {
    indexes.map_values(|index: usize| keeps(predicate, index))
}

/// While the predicate does not change, a pruner that is asked about one list of row
/// groups, about another and about both skips both exactly where it skips each.
pub proof fn law_a_list_is_skipped_by_parts<P, C, B, E>(
    first: RowGroupPruner<P>,
    a: Seq<usize>,
    a_outcome: PruneOutcome,
    second: RowGroupPruner<P>,
    b: Seq<usize>,
    b_outcome: PruneOutcome,
    third: RowGroupPruner<P>,
    both_outcome: PruneOutcome,
    fourth: RowGroupPruner<P>,
    changed: C,
    build: B,
    evaluate: E,
    keeps: spec_fn(P, usize) -> bool,
) where
    C: Fn() -> bool,
    B: Fn() -> Option<P>,
    E: Fn(&P, &[usize], MissingNullCount) -> Option<Vec<bool>>,

    requires
        a.len() > 0,
        b.len() > 0,
        !call_ensures(changed, (), true),
        evaluates_each(evaluate, keeps),
        pruner_step(first, a, changed, build, evaluate, a_outcome, second),
        pruner_step(second, b, changed, build, evaluate, b_outcome, third),
        pruner_step(third, a + b, changed, build, evaluate, both_outcome, fourth),
    ensures
        both_outcome.prune == (a_outcome.prune && b_outcome.prune),
        fourth == second,
{
    match second.pruning_predicate {
        Some(predicate) => {
            law_ruled_out_by_parts(
                verdicts_on(predicate, a, keeps),
                verdicts_on(predicate, b, keeps),
            );
            assert(verdicts_on(predicate, a + b, keeps) =~= verdicts_on(predicate, a, keeps)
                + verdicts_on(predicate, b, keeps));
        },
        None => {},
    }
}

/// While the predicate does not change, a pruner that is asked about the same row groups
/// again, in whatever order, gives the same answer.
pub proof fn law_a_list_is_skipped_in_any_order<P, C, B, E>(
    first: RowGroupPruner<P>,
    a: Seq<usize>,
    a_outcome: PruneOutcome,
    second: RowGroupPruner<P>,
    b: Seq<usize>,
    b_outcome: PruneOutcome,
    third: RowGroupPruner<P>,
    changed: C,
    build: B,
    evaluate: E,
    keeps: spec_fn(P, usize) -> bool,
) where
    C: Fn() -> bool,
    B: Fn() -> Option<P>,
    E: Fn(&P, &[usize], MissingNullCount) -> Option<Vec<bool>>,

    requires
        a.to_multiset() == b.to_multiset(),
        !call_ensures(changed, (), true),
        evaluates_each(evaluate, keeps),
        pruner_step(first, a, changed, build, evaluate, a_outcome, second),
        pruner_step(second, b, changed, build, evaluate, b_outcome, third),
    ensures
        b_outcome.prune == a_outcome.prune,
        third == second,
{
    vstd::seq_lib::to_multiset_len(a);
    vstd::seq_lib::to_multiset_len(b);
    match second.pruning_predicate {
        Some(predicate) => {
            if all_ruled_out(verdicts_on(predicate, a, keeps)) {
                lemma_ruled_out_as_listed(predicate, a, b, keeps);
            }
            if all_ruled_out(verdicts_on(predicate, b, keeps)) {
                lemma_ruled_out_as_listed(predicate, b, a, keeps);
            }
        },
        None => {},
    }
}

/// Row groups are ruled out where a list that holds them all is.
proof fn lemma_ruled_out_as_listed<P>(
    predicate: P,
    a: Seq<usize>,
    b: Seq<usize>,
    keeps: spec_fn(P, usize) -> bool,
)
    requires
        a.to_multiset() == b.to_multiset(),
        all_ruled_out(verdicts_on(predicate, a, keeps)),
    ensures
        all_ruled_out(verdicts_on(predicate, b, keeps)),
{
    assert forall|i: int| 0 <= i < b.len() implies !#[trigger] verdicts_on(predicate, b, keeps)[i] by {
        vstd::seq_lib::to_multiset_contains(b, b[i]);
        vstd::seq_lib::to_multiset_contains(a, b[i]);
        assert(b.contains(b[i]));
        let k = choose|k: int| 0 <= k < a.len() && a[k] == b[i];
        assert(!verdicts_on(predicate, a, keeps)[k]);
    }
}

/// A pruner whose predicate cannot be built or evaluated skips nothing.
pub proof fn law_failures_prune_nothing<P, C, B, E>(
    before: RowGroupPruner<P>,
    indexes: Seq<usize>,
    changed: C,
    build: B,
    evaluate: E,
    outcome: PruneOutcome,
    after: RowGroupPruner<P>,
) where
    C: Fn() -> bool,
    B: Fn() -> Option<P>,
    E: Fn(&P, &[usize], MissingNullCount) -> Option<Vec<bool>>,

    requires
        pruner_step(before, indexes, changed, build, evaluate, outcome, after),
    ensures
        indexes.len() == 0 ==> !outcome.prune,
        after.pruning_predicate is None ==> !outcome.prune,
        outcome.evaluation_errors > 0 ==> !outcome.prune,
{
}

/// A pruner goes by the predicate as it stands: it builds it when it is first asked, and
/// again whenever it is told that it has changed, and else keeps what it has.
pub proof fn law_a_pruner_goes_by_the_predicate_as_it_stands<P, C, B, E>(
    before: RowGroupPruner<P>,
    indexes: Seq<usize>,
    changed: C,
    build: B,
    evaluate: E,
    outcome: PruneOutcome,
    after: RowGroupPruner<P>,
) where
    C: Fn() -> bool,
    B: Fn() -> Option<P>,
    E: Fn(&P, &[usize], MissingNullCount) -> Option<Vec<bool>>,

    requires
        pruner_step(before, indexes, changed, build, evaluate, outcome, after),
        indexes.len() > 0,
    ensures
        !after.needs_initial_build,
        before.needs_initial_build ==> call_ensures(build, (), after.pruning_predicate),
        !call_ensures(changed, (), false) ==> call_ensures(build, (), after.pruning_predicate),
        !before.needs_initial_build && !call_ensures(changed, (), true) ==> after.pruning_predicate
            == before.pruning_predicate,
{
}

/// A pruner lets row groups be skipped exactly where the predicate could be evaluated on
/// them, and on all of them together, and rules every one of them out. It counts an error
/// exactly where it could not be evaluated.
pub proof fn law_row_groups_are_skipped_only_where_all_are_ruled_out<P, C, B, E>(
    before: RowGroupPruner<P>,
    indexes: Seq<usize>,
    changed: C,
    build: B,
    evaluate: E,
    outcome: PruneOutcome,
    after: RowGroupPruner<P>,
) where
    C: Fn() -> bool,
    B: Fn() -> Option<P>,
    E: Fn(&P, &[usize], MissingNullCount) -> Option<Vec<bool>>,

    requires
        pruner_step(before, indexes, changed, build, evaluate, outcome, after),
    ensures
        outcome.prune ==> {
            &&& indexes.len() > 0
            &&& after.pruning_predicate is Some
            &&& exists|list: &[usize], verdicts: Vec<bool>|
                {
                    &&& list@ == indexes
                    &&& #[trigger] call_ensures(
                        evaluate,
                        (&after.pruning_predicate->0, list, MissingNullCount::Zero),
                        Some(verdicts),
                    )
                    &&& forall|i: int| 0 <= i < verdicts@.len() ==> !#[trigger] verdicts@[i]
                }
        },
        indexes.len() > 0 && after.pruning_predicate is Some && (forall|
            list: &[usize],
            verdicts: Option<Vec<bool>>,
        | #[trigger]
            call_ensures(
                evaluate,
                (&after.pruning_predicate->0, list, MissingNullCount::Zero),
                verdicts,
            ) ==> verdicts is Some && forall|i: int|
                0 <= i < verdicts->0@.len() ==> !#[trigger] verdicts->0@[i]) ==> outcome.prune
            && outcome.evaluation_errors == 0,
        indexes.len() > 0 && after.pruning_predicate is Some && (forall|
            list: &[usize],
            verdicts: Option<Vec<bool>>,
        | #[trigger]
            call_ensures(
                evaluate,
                (&after.pruning_predicate->0, list, MissingNullCount::Zero),
                verdicts,
            ) ==> verdicts is None) ==> !outcome.prune && outcome.evaluation_errors == 1,
        after.pruning_predicate is None ==> outcome.evaluation_errors == 0,
        indexes.len() == 0 ==> after == before && !outcome.prune && outcome.evaluation_errors == 0,
{
}

} // verus!

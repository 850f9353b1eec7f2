//! Row selections: which rows of a run of rows are read.
//!
//! The selections themselves are the Parquet reader's [`RowSelection`]. What
//! the planner knows of one is its mask, a flag for each row that it covers.

use parquet::arrow::arrow_reader::{RowSelection, RowSelector};
use vstd::prelude::*;

verus! {

/// The Parquet reader's row selection.
#[verifier::external_type_specification]
#[verifier::external_body]
pub struct ExRowSelection(RowSelection);

/// One flag for each row that `selection` covers, in row order: `true` where
/// the row is read, `false` where it is skipped.
pub uninterp spec fn selection_mask(selection: RowSelection) -> Seq<bool>;

/// `count` equal flags.
pub open spec fn flags(count: nat, flag: bool) -> Seq<bool> {
    Seq::new(count, |i: int| flag)
}

/// The mask that a list of runs describes. A run is a row count and whether
/// those rows are skipped.
pub open spec fn runs_mask(runs: Seq<(usize, bool)>) -> Seq<bool>
    decreases runs.len(),
{
    if runs.len() == 0 {
        Seq::empty()
    } else {
        flags(runs[0].0 as nat, !runs[0].1) + runs_mask(runs.drop_first())
    }
}

/// The number of rows that a mask reads.
pub open spec fn selected_count(mask: Seq<bool>) -> nat
    decreases mask.len(),
{
    if mask.len() == 0 {
        0
    } else {
        selected_count(mask.drop_last()) + if mask.last() {
            1nat
        } else {
            0nat
        }
    }
}

/// The runs of a selection, by `RowSelection::iter`: laid end to end they give
/// the selection's mask.
#[verifier::external_body]
pub(crate) fn selection_runs(selection: &RowSelection) -> (runs: Vec<(usize, bool)>)
    ensures
        runs_mask(runs@) == selection_mask(*selection),
{
    selection.iter().map(|run| (run.row_count, run.skip)).collect()
}

/// The selection that a list of runs describes, by
/// `RowSelection::from(Vec<RowSelector>)`. Adjacent runs of one kind are merged
/// there, which panics where their rows together exceed `usize::MAX`; the
/// precondition rules that out.
#[verifier::external_body]
pub(crate) fn selection_from_runs(runs: Vec<(usize, bool)>) -> (selection: RowSelection)
    requires
        runs_mask(runs@).len() <= usize::MAX,
    ensures
        selection_mask(selection) == runs_mask(runs@),
{
    let selectors: Vec<RowSelector> = runs
        .into_iter()
        .map(|run| RowSelector { row_count: run.0, skip: run.1 })
        .collect();
    RowSelection::from(selectors)
}

/// A copy of a selection, by `RowSelection::clone`: it covers the same rows and
/// reads the same ones.
#[verifier::external_body]
pub(crate) fn clone_selection(selection: &RowSelection) -> (copy: RowSelection)
    ensures
        selection_mask(copy) == selection_mask(*selection),
{
    selection.clone()
}

/// The number of rows that `selection` reads, or `usize::MAX` where there are
/// more than that.
pub fn selected_rows(selection: &RowSelection) -> (rows: usize)
    ensures
        rows == if selected_count(selection_mask(*selection)) <= usize::MAX {
            selected_count(selection_mask(*selection)) as int
        } else {
            usize::MAX as int
        },
{
    let runs = selection_runs(selection);
    let mut rows: usize = 0;
    let mut i: usize = 0;
    proof {
        assert(runs@.take(0) =~= Seq::<(usize, bool)>::empty());
    }
    while i < runs.len()
        invariant
            i <= runs.len(),
            rows == if selected_count(runs_mask(runs@.take(i as int))) <= usize::MAX {
                selected_count(runs_mask(runs@.take(i as int))) as int
            } else {
                usize::MAX as int
            },
        decreases runs.len() - i,
    {
        proof {
            let before = runs@.take(i as int);
            assert(runs@.take(i + 1) =~= before.push(runs@[i as int]));
            lemma_runs_mask_push(before, runs@[i as int]);
            lemma_selected_count_add(
                runs_mask(before),
                flags(runs@[i as int].0 as nat, !runs@[i as int].1),
            );
            lemma_selected_count_flags(runs@[i as int].0 as nat, !runs@[i as int].1);
        }
        if !runs[i].1 {
            rows = rows.saturating_add(runs[i].0);
        }
        i += 1;
    }
    proof {
        assert(runs@.take(i as int) =~= runs@);
    }
    rows
}

/// The number of rows that `selection` covers, read or skipped.
pub fn covered_rows(selection: &RowSelection) -> (rows: u128)
    ensures
        rows == selection_mask(*selection).len(),
{
    let runs = selection_runs(selection);
    covered_by_runs(&runs)
}

/// The number of rows that `runs` cover.
pub(crate) fn covered_by_runs(runs: &Vec<(usize, bool)>) -> (rows: u128)
    ensures
        rows == runs_mask(runs@).len(),
{
    let mut rows: u128 = 0;
    let mut i: usize = 0;
    proof {
        assert(runs@.take(0) =~= Seq::<(usize, bool)>::empty());
    }
    while i < runs.len()
        invariant
            i <= runs.len(),
            rows == runs_mask(runs@.take(i as int)).len(),
            rows <= i * usize::MAX,
        decreases runs.len() - i,
    {
        proof {
            let before = runs@.take(i as int);
            assert(runs@.take(i + 1) =~= before.push(runs@[i as int]));
            lemma_runs_mask_push(before, runs@[i as int]);
            assert((i + 1) * usize::MAX == i * usize::MAX + usize::MAX) by (nonlinear_arith);
            assert((i + 1) * usize::MAX <= u128::MAX) by (nonlinear_arith)
                requires
                    i + 1 <= usize::MAX,
                    usize::MAX <= 0xffff_ffff_ffff_ffff,
            ;
        }
        rows = rows + runs[i].0 as u128;
        i += 1;
    }
    proof {
        assert(runs@.take(i as int) =~= runs@);
    }
    rows
}

/// Laying one list of runs after another lays their masks end to end.
pub proof fn lemma_runs_mask_add(a: Seq<(usize, bool)>, b: Seq<(usize, bool)>)
    ensures
        runs_mask(a + b) == runs_mask(a) + runs_mask(b),
    decreases a.len(),
{
    if a.len() == 0 {
        assert(a + b =~= b);
    } else {
        lemma_runs_mask_add(a.drop_first(), b);
        assert((a + b).drop_first() =~= a.drop_first() + b);
    }
    assert(runs_mask(a + b) =~= runs_mask(a) + runs_mask(b));
}

/// Adding a run at the end adds its rows at the end of the mask.
pub proof fn lemma_runs_mask_push(runs: Seq<(usize, bool)>, run: (usize, bool))
    ensures
        runs_mask(runs.push(run)) == runs_mask(runs) + flags(run.0 as nat, !run.1),
{
    lemma_runs_mask_add(runs, seq![run]);
    assert(runs.push(run) =~= runs + seq![run]);
    reveal_with_fuel(runs_mask, 2);
    assert(seq![run].drop_first() =~= Seq::<(usize, bool)>::empty());
    assert(runs_mask(seq![run]) =~= flags(run.0 as nat, !run.1));
}

/// The rows read of two masks laid end to end are those read of each.
pub proof fn lemma_selected_count_add(a: Seq<bool>, b: Seq<bool>)
    ensures
        selected_count(a + b) == selected_count(a) + selected_count(b),
    decreases b.len(),
{
    if b.len() == 0 {
        assert(a + b =~= a);
    } else {
        assert((a + b).drop_last() =~= a + b.drop_last());
        lemma_selected_count_add(a, b.drop_last());
    }
}

/// Equal flags read all their rows or none.
pub proof fn lemma_selected_count_flags(count: nat, flag: bool)
    ensures
        selected_count(flags(count, flag)) == if flag {
            count
        } else {
            0
        },
    decreases count,
{
    if count > 0 {
        assert(flags(count, flag).drop_last() =~= flags((count - 1) as nat, flag));
        lemma_selected_count_flags((count - 1) as nat, flag);
    }
}

} // verus!

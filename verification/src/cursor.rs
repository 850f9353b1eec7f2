//! Walking through the runs of a selection.

use crate::selection::{
    flags, lemma_runs_mask_push, lemma_selected_count_add, lemma_selected_count_flags, runs_mask,
    selected_count,
};
use vstd::prelude::*;

verus! {

/// A position in a list of runs.
pub struct RunCursor {
    /// The runs.
    pub runs: Vec<(usize, bool)>,
    /// The run that the position lies in.
    pub next: usize,
    /// Rows of that run after the position.
    pub left: usize,
}

impl RunCursor {
    /// The position lies within its run.
    pub open spec fn wf(&self) -> bool {
        &&& self.next <= self.runs.len()
        &&& self.next < self.runs.len() ==> self.left <= self.runs@[self.next as int].0
    }

    /// The mask of the rows after the position.
    pub open spec fn rest(&self) -> Seq<bool> {
        if self.next < self.runs.len() {
            flags(self.left as nat, !self.runs@[self.next as int].1) + runs_mask(
                self.runs@.skip(self.next + 1),
            )
        } else {
            Seq::empty()
        }
    }

    /// The position before all `runs`.
    pub fn new(runs: Vec<(usize, bool)>) -> (cursor: Self)
        ensures
            cursor.wf(),
            cursor.rest() == runs_mask(runs@),
    {
        let left = if runs.len() > 0 {
            runs[0].0
        } else {
            0
        };
        proof {
            if runs.len() > 0 {
                assert(runs@.skip(1) =~= runs@.drop_first());
            }
        }
        RunCursor { runs, next: 0, left }
    }

    /// Takes the next `rows` rows: their runs and how many of them are read.
    pub fn take(&mut self, rows: usize) -> (taken: (Vec<(usize, bool)>, usize))
        requires
            old(self).wf(),
            rows <= old(self).rest().len(),
        ensures
            final(self).wf(),
            runs_mask(taken.0@) == old(self).rest().take(rows as int),
            taken.1 == selected_count(old(self).rest().take(rows as int)),
            final(self).rest() == old(self).rest().skip(rows as int),
    {
        let mut fragments: Vec<(usize, bool)> = Vec::new();
        let mut selected: usize = 0;
        let mut needed: usize = rows;
        proof {
            assert(self.rest() =~= old(self).rest().skip(0));
            assert(runs_mask(fragments@) =~= old(self).rest().take(0));
        }
        while needed > 0
            invariant
                self.wf(),
                needed <= rows <= old(self).rest().len(),
                runs_mask(fragments@) == old(self).rest().take(rows - needed),
                selected == selected_count(old(self).rest().take(rows - needed)),
                selected <= rows - needed,
                self.rest() == old(self).rest().skip(rows - needed),
            decreases needed, self.runs.len() - self.next,
        {
            let ghost whole = old(self).rest();
            let ghost before = self.rest();
            let ghost done = (rows - needed) as int;
            let ghost earlier = fragments@;
            proof {
                assert(before.len() == whole.len() - done);
                assert(self.next < self.runs.len());
            }
            let skip = self.runs[self.next].1;
            let count = if self.left < needed {
                self.left
            } else {
                needed
            };
            if count < self.left {
                self.left = self.left - count;
            } else {
                self.next = self.next + 1;
                self.left = if self.next < self.runs.len() {
                    self.runs[self.next].0
                } else {
                    0
                };
            }
            fragments.push((count, skip));
            if !skip {
                selected = selected + count;
            }
            needed = needed - count;
            proof {
                let piece = flags(count as nat, !skip);
                assert(whole.take(done + count) =~= whole.take(done) + piece) by {
                    assert forall|k: int| done <= k < done + count implies whole[k] == !skip by {
                        assert(before[k - done] == !skip);
                    }
                }
                lemma_runs_mask_push(earlier, (count, skip));
                lemma_selected_count_add(whole.take(done), piece);
                lemma_selected_count_flags(count as nat, !skip);
                assert(self.rest() =~= before.skip(count as int)) by {
                    if self.next < self.runs.len() {
                        let tail = self.runs@.skip(self.next as int);
                        assert(tail.drop_first() =~= self.runs@.skip(self.next + 1));
                    }
                }
                assert(before.skip(count as int) =~= whole.skip(done + count));
            }
        }
        (fragments, selected)
    }
}

} // verus!

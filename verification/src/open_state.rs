//! The steps of opening a file.
//!
//! ```text
//!      Start
//!        |
//! [LoadEncryption]
//!        |
//!    PruneFile -----------> Done
//!        |
//!   LoadMetadata
//!        |
//!  PrepareFilters
//!        |
//! PruneWithStatistics
//!        |
//!  [LoadPageIndex]
//!        |
//!  LoadBloomFilters
//!        |
//! PruneWithBloomFilters
//!        |
//!   BuildStream
//!        |
//!      Ready
//! ```
//!
//! The steps in brackets are left out where they are not needed. Those that begin
//! with `Load` wait for I/O, the others only compute.

use vstd::prelude::*;

verus! {

/// A step of opening a file.
#[derive(Debug, Clone, Copy, PartialEq, Eq, Structural)]
pub enum ParquetOpenState {
    /// Nothing was done yet.
    Start,
    /// The keys of an encrypted file are loaded.
    LoadEncryption,
    /// The file may be pruned by what is known of it as a whole.
    PruneFile,
    /// The footer is loaded.
    LoadMetadata,
    /// Filters are fitted to the schema of the file.
    PrepareFilters,
    /// Row groups are pruned by the footer.
    PruneWithStatistics,
    /// The page index is loaded.
    LoadPageIndex,
    /// Bloom filters are loaded.
    LoadBloomFilters,
    /// Row groups are pruned by their bloom filters.
    PruneWithBloomFilters,
    /// The stream of batches is built.
    BuildStream,
    /// The stream of batches is ready.
    Ready,
    /// There is nothing more to do.
    Done,
}

/// What a step that computes found out.
#[derive(Debug, Clone, Copy)]
pub struct StepFindings {
    /// Whether files may be encrypted.
    pub encryption: bool,
    /// Whether the whole file is pruned.
    pub file_pruned: bool,
    /// Whether loading the page index may let the scan skip pages.
    pub page_index_useful: bool,
}

/// What is to be done next to open a file.
#[derive(Debug, Clone, Copy, PartialEq, Eq, Structural)]
pub enum OpenPlan {
    /// The file is not read, or was read.
    Nothing,
    /// The I/O of this step is run, and then the other step is next.
    Io(ParquetOpenState, ParquetOpenState),
    /// The step is next, without any I/O.
    Cpu(ParquetOpenState),
    /// The stream of batches is handed out.
    Stream,
}

impl ParquetOpenState {
    /// Whether the step waits for I/O.
    pub open spec fn waits(self) -> bool {
        self == ParquetOpenState::LoadEncryption || self == ParquetOpenState::LoadMetadata
            || self == ParquetOpenState::LoadPageIndex || self
            == ParquetOpenState::LoadBloomFilters
    }

    /// The step after one that computes. One that waits for I/O stays.
    pub open spec fn after_cpu(self, findings: StepFindings) -> ParquetOpenState {
        match self {
            ParquetOpenState::Start => if findings.encryption {
                ParquetOpenState::LoadEncryption
            } else {
                ParquetOpenState::PruneFile
            },
            ParquetOpenState::PruneFile => if findings.file_pruned {
                ParquetOpenState::Done
            } else {
                ParquetOpenState::LoadMetadata
            },
            ParquetOpenState::PrepareFilters => ParquetOpenState::PruneWithStatistics,
            ParquetOpenState::PruneWithStatistics => if findings.page_index_useful {
                ParquetOpenState::LoadPageIndex
            } else {
                ParquetOpenState::LoadBloomFilters
            },
            ParquetOpenState::PruneWithBloomFilters => ParquetOpenState::BuildStream,
            ParquetOpenState::BuildStream => ParquetOpenState::Ready,
            other => other,
        }
    }

    /// The step after the I/O of a step.
    pub open spec fn after_io(self) -> ParquetOpenState {
        match self {
            ParquetOpenState::LoadEncryption => ParquetOpenState::PruneFile,
            ParquetOpenState::LoadMetadata => ParquetOpenState::PrepareFilters,
            ParquetOpenState::LoadPageIndex => ParquetOpenState::LoadBloomFilters,
            ParquetOpenState::LoadBloomFilters => ParquetOpenState::PruneWithBloomFilters,
            other => other,
        }
    }

    /// The place of the step in the order of the steps.
    pub open spec fn place(self) -> int {
        match self {
            ParquetOpenState::Start => 0,
            ParquetOpenState::LoadEncryption => 1,
            ParquetOpenState::PruneFile => 2,
            ParquetOpenState::LoadMetadata => 3,
            ParquetOpenState::PrepareFilters => 4,
            ParquetOpenState::PruneWithStatistics => 5,
            ParquetOpenState::LoadPageIndex => 6,
            ParquetOpenState::LoadBloomFilters => 7,
            ParquetOpenState::PruneWithBloomFilters => 8,
            ParquetOpenState::BuildStream => 9,
            ParquetOpenState::Ready => 10,
            ParquetOpenState::Done => 11,
        }
    }

    /// Takes one step that computes, by what it found out. A step that waits for
    /// I/O stays as it is, and so does a stream that is ready.
    pub fn transition(self, findings: StepFindings) -> (next: Self)
        requires
            self != ParquetOpenState::Done,
        ensures
            next == self.after_cpu(findings),
    {
        match self {
            ParquetOpenState::Start => if findings.encryption {
                ParquetOpenState::LoadEncryption
            } else {
                ParquetOpenState::PruneFile
            },
            ParquetOpenState::PruneFile => if findings.file_pruned {
                ParquetOpenState::Done
            } else {
                ParquetOpenState::LoadMetadata
            },
            ParquetOpenState::PrepareFilters => ParquetOpenState::PruneWithStatistics,
            ParquetOpenState::PruneWithStatistics => if findings.page_index_useful {
                ParquetOpenState::LoadPageIndex
            } else {
                ParquetOpenState::LoadBloomFilters
            },
            ParquetOpenState::PruneWithBloomFilters => ParquetOpenState::BuildStream,
            ParquetOpenState::BuildStream => ParquetOpenState::Ready,
            other => other,
        }
    }

    /// What is done after one step that computes.
    pub open spec fn planned(self, findings: StepFindings) -> OpenPlan {
        let next = self.after_cpu(findings);
        if next.waits() {
            OpenPlan::Io(next, next.after_io())
        } else if next == ParquetOpenState::Ready {
            OpenPlan::Stream
        } else if next == ParquetOpenState::Done {
            OpenPlan::Nothing
        } else {
            OpenPlan::Cpu(next)
        }
    }

    /// Plans what is done after one step that computes.
    pub fn plan(self, findings: StepFindings) -> (plan: OpenPlan)
        ensures
            plan == self.planned(findings),
    {
        match self {
            ParquetOpenState::Done => OpenPlan::Nothing,
            state => match state.transition(findings) {
                ParquetOpenState::LoadEncryption => OpenPlan::Io(
                    ParquetOpenState::LoadEncryption,
                    ParquetOpenState::PruneFile,
                ),
                ParquetOpenState::LoadMetadata => OpenPlan::Io(
                    ParquetOpenState::LoadMetadata,
                    ParquetOpenState::PrepareFilters,
                ),
                ParquetOpenState::LoadPageIndex => OpenPlan::Io(
                    ParquetOpenState::LoadPageIndex,
                    ParquetOpenState::LoadBloomFilters,
                ),
                ParquetOpenState::LoadBloomFilters => OpenPlan::Io(
                    ParquetOpenState::LoadBloomFilters,
                    ParquetOpenState::PruneWithBloomFilters,
                ),
                ParquetOpenState::Ready => OpenPlan::Stream,
                ParquetOpenState::Done => OpenPlan::Nothing,
                next => OpenPlan::Cpu(next),
            },
        }
    }
}

/// The step that a plan goes on with, where there is one.
pub open spec fn plan_next(plan: OpenPlan) -> Option<ParquetOpenState> {
    match plan {
        OpenPlan::Io(_, next) => Some(next),
        OpenPlan::Cpu(next) => Some(next),
        _ => None,
    }
}

/// Each step comes after the one before in the order of the steps, whatever they
/// find out, until the stream is ready or there is nothing more to do. A step that
/// waits for I/O is left only when that has run. So a file is open, or known not to
/// be read, after at most as many plans as there are steps.
pub proof fn law_steps_are_taken_in_order(state: ParquetOpenState, findings: StepFindings)
    ensures
        !state.waits() && state != ParquetOpenState::Ready && state != ParquetOpenState::Done
            ==> state.after_cpu(findings).place() > state.place(),
        state.waits() ==> state.after_cpu(findings) == state && state.after_io().place()
            > state.place(),
        plan_next(state.planned(findings)) matches Some(next) ==> next.place() > state.place(),
{
}

/// Before the stream is built the footer was loaded, filters were prepared and both
/// kinds of pruning came: no step but those in brackets is left out.
pub proof fn law_no_step_is_left_out(state: ParquetOpenState, findings: StepFindings)
    ensures
        state.after_cpu(findings) == ParquetOpenState::Ready ==> state
            == ParquetOpenState::BuildStream || state == ParquetOpenState::Ready,
        state.after_cpu(findings) == ParquetOpenState::BuildStream ==> state
            == ParquetOpenState::PruneWithBloomFilters,
        state.waits() && state.after_io() == ParquetOpenState::PruneWithBloomFilters
            ==> state == ParquetOpenState::LoadBloomFilters,
        state.after_cpu(findings) == ParquetOpenState::PruneWithStatistics ==> state
            == ParquetOpenState::PrepareFilters,
        state.waits() && state.after_io() == ParquetOpenState::PrepareFilters ==> state
            == ParquetOpenState::LoadMetadata,
        state.after_cpu(findings) == ParquetOpenState::LoadMetadata ==> state
            == ParquetOpenState::PruneFile || state == ParquetOpenState::LoadMetadata,
{
}

/// Each finding has its effect: keys are loaded exactly where files may be encrypted, the
/// rest is left out exactly where the whole file is pruned, and the page index is loaded
/// exactly where that may help.
pub proof fn law_findings_are_heeded(findings: StepFindings)
    ensures
        ParquetOpenState::Start.after_cpu(findings) == ParquetOpenState::LoadEncryption
            <==> findings.encryption,
        !findings.encryption ==> ParquetOpenState::Start.after_cpu(findings)
            == ParquetOpenState::PruneFile,
        ParquetOpenState::PruneFile.after_cpu(findings) == ParquetOpenState::Done
            <==> findings.file_pruned,
        !findings.file_pruned ==> ParquetOpenState::PruneFile.after_cpu(findings)
            == ParquetOpenState::LoadMetadata,
        ParquetOpenState::PruneWithStatistics.after_cpu(findings) == ParquetOpenState::LoadPageIndex
            <==> findings.page_index_useful,
        !findings.page_index_useful ==> ParquetOpenState::PruneWithStatistics.after_cpu(findings)
            == ParquetOpenState::LoadBloomFilters,
{
}

/// I/O is planned only for the steps that load something, each of them for itself, and what
/// comes then is the next step that computes, or the bloom filters after the page index. A
/// stream is handed out only once it was built, and nothing is planned for a file only
/// where it is pruned.
pub proof fn law_plans_do_what_the_step_says(state: ParquetOpenState, findings: StepFindings)
    requires
        state != ParquetOpenState::Done,
    ensures
        state.planned(findings) matches OpenPlan::Io(step, next) ==> {
            ||| step == ParquetOpenState::LoadEncryption && next == ParquetOpenState::PruneFile
            ||| step == ParquetOpenState::LoadMetadata && next == ParquetOpenState::PrepareFilters
            ||| step == ParquetOpenState::LoadPageIndex && next
                == ParquetOpenState::LoadBloomFilters
            ||| step == ParquetOpenState::LoadBloomFilters && next
                == ParquetOpenState::PruneWithBloomFilters
        },
        state.planned(findings) matches OpenPlan::Cpu(next) ==> next
            != ParquetOpenState::LoadEncryption && next != ParquetOpenState::LoadMetadata && next
            != ParquetOpenState::LoadPageIndex && next != ParquetOpenState::LoadBloomFilters && next
            != ParquetOpenState::Ready && next != ParquetOpenState::Done,
        state.planned(findings) == OpenPlan::Stream <==> state == ParquetOpenState::BuildStream
            || state == ParquetOpenState::Ready,
        state.planned(findings) == OpenPlan::Nothing <==> state == ParquetOpenState::PruneFile
            && findings.file_pruned,
        state == ParquetOpenState::LoadBloomFilters ==> state.planned(findings) == OpenPlan::Io(
            ParquetOpenState::LoadBloomFilters,
            ParquetOpenState::PruneWithBloomFilters,
        ),
{
}

} // verus!

//! The life of a run: it starts in progress and is finished once.

use crate::assertion::AssertionResult;
use crate::model::{Run, RunStatus};
use crate::patterns::{current_timestamp, new_id};
use vstd::prelude::*;

verus! {

/// The only step that a run can take: it ends finished, wherever it was.
pub open spec fn finished(status: RunStatus) -> RunStatus {
    RunStatus::Finished
}

/// The status after `steps` steps.
pub open spec fn status_after(status: RunStatus, steps: nat) -> RunStatus
    decreases steps,
{
    if steps == 0 {
        status
    } else {
        finished(status_after(status, (steps - 1) as nat))
    }
}

impl RunStatus {
    /// Whether no step changes this status any more.
    pub fn is_terminal(&self) -> (r: bool)
        ensures
            r == (*self == RunStatus::Finished),
            r == (finished(*self) == *self),
    {
        match self {
            RunStatus::InProgress => false,
            RunStatus::Finished => true,
        }
    }
}

impl Run {
    /// A run that has just begun: in progress, without an end and without
    /// results.
    pub fn start(customer_id: String, test_case_id: String, id: String, started_at: u64) -> (r:
        Run)
        ensures
            r.customer_id == customer_id,
            r.test_case_id == test_case_id,
            r.id == id,
            r.status == RunStatus::InProgress,
            r.started_at == started_at,
            r.finished_at is None,
            r.assertion_results is None,
            r.created_at is None,
            r.updated_at is None,
    {
        Run {
            customer_id,
            test_case_id,
            id,
            status: RunStatus::InProgress,
            started_at,
            finished_at: None,
            assertion_results: None,
            created_at: None,
            updated_at: None,
        }
    }

    /// A run that begins now, under a fresh identifier. Which identifier and
    /// which time it gets is not known beforehand; the rest is as in `start`.
    pub fn begin(customer_id: String, test_case_id: String) -> (r: Run)
        ensures
            r.customer_id == customer_id,
            r.test_case_id == test_case_id,
            r.status == RunStatus::InProgress,
            r.finished_at is None,
            r.assertion_results is None,
            r.created_at is None,
            r.updated_at is None,
    {
        Run::start(customer_id, test_case_id, new_id(), current_timestamp())
    }

    /// Finishes the run now: `finish` at the present time.
    pub fn finish_now(&mut self, results: Vec<AssertionResult>) -> (changed: bool)
        ensures
            final(self).status == finished(old(self).status),
            changed == (old(self).status == RunStatus::InProgress),
            changed ==> final(self).assertion_results == Some(results),
            changed ==> final(self).finished_at is Some,
            !changed ==> *final(self) == *old(self),
            final(self).customer_id == old(self).customer_id,
            final(self).test_case_id == old(self).test_case_id,
            final(self).id == old(self).id,
            final(self).started_at == old(self).started_at,
    {
        self.finish(results, current_timestamp())
    }

    /// Finishes the run with the results of its assertions. A run in progress
    /// takes the results and the time; a finished run stays as it is. The answer
    /// says whether the run changed.
    pub fn finish(&mut self, results: Vec<AssertionResult>, finished_at: u64) -> (changed: bool)
        ensures
            final(self).status == finished(old(self).status),
            changed == (old(self).status == RunStatus::InProgress),
            changed ==> final(self).assertion_results == Some(results) && final(self).finished_at
                == Some(finished_at),
            !changed ==> *final(self) == *old(self),
            final(self).customer_id == old(self).customer_id,
            final(self).test_case_id == old(self).test_case_id,
            final(self).id == old(self).id,
            final(self).started_at == old(self).started_at,
    {
        match self.status {
            RunStatus::Finished => false,
            RunStatus::InProgress => {
                self.status = RunStatus::Finished;
                self.finished_at = Some(finished_at);
                self.assertion_results = Some(results);
                true
            },
        }
    }
}

/// A run goes from in progress to finished with its first step, and no number
/// of further steps takes it anywhere else.
pub proof fn lemma_finished_once(status: RunStatus, steps: nat)
    ensures
        steps > 0 ==> status_after(status, steps) == RunStatus::Finished,
        status_after(RunStatus::InProgress, 0) == RunStatus::InProgress,
        status_after(RunStatus::Finished, steps) == RunStatus::Finished,
    decreases steps,
{
    if steps > 0 {
        lemma_finished_once(status, (steps - 1) as nat);
    }
}

} // verus!

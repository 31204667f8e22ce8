//! The outcome categories of a test execution and the rule that assigns them.

use vstd::prelude::*;

verus! {

/// The outcome of one completed test execution.
///
/// Every execution falls into exactly one of the six categories.
#[derive(Debug, Clone, Copy, PartialEq, Eq, Structural)]
pub enum StatusType {
    /// The execution completed without incident.
    Normal,
    /// The execution exceeded its time budget.
    Timeout,
    /// The execution was terminated by a fault signal.
    Crash,
    /// The result was produced while importing a seed, not while fuzzing.
    Import,
    /// The execution was not run.
    Skip,
    /// The execution could not be evaluated because the infrastructure failed.
    Error,
}

/// What the executor observed of one test execution.
#[derive(Debug, Clone, Copy, PartialEq, Eq, Structural)]
pub struct ExecResult {
    /// The input was filtered out before the target was started.
    pub filtered: bool,
    /// The infrastructure failed, so that the run yields no verdict.
    pub failed: bool,
    /// The run belongs to a seed-import pass.
    pub import: bool,
    /// The signal that terminated the target, if one did.
    pub signal: Option<i32>,
    /// The time the run took.
    pub elapsed: u64,
    /// The time the run was allowed to take.
    pub budget: u64,
}

impl ExecResult {
    /// The category of this execution result.
    ///
    /// The conditions are tried in a fixed order, so that every result has
    /// one category and only one: a filtered input was never run; a failed
    /// infrastructure yields no verdict; a run of an import pass is no
    /// finding; a run over its budget has timed out, whatever signal ended
    /// it (the executor kills such a run itself); a run ended by a signal
    /// has crashed; all that remains is normal.
    pub open spec fn classification(self) -> StatusType {
        if self.filtered {
            StatusType::Skip
        } else if self.failed {
            StatusType::Error
        } else if self.import {
            StatusType::Import
        } else if self.elapsed > self.budget {
            StatusType::Timeout
        } else if self.signal is Some {
            StatusType::Crash
        } else {
            StatusType::Normal
        }
    }

    /// The execution shows none of the incidents that the other five
    /// categories stand for.
    pub open spec fn without_incident(self) -> bool {
        &&& !self.filtered
        &&& !self.failed
        &&& !self.import
        &&& self.elapsed <= self.budget
        &&& self.signal is None
    }

    /// Classifies the execution result. Every result is classified: there is
    /// no input on which the classifier fails.
    pub fn classify(&self) -> (status: StatusType)
        ensures
            status == self.classification(),
            status == StatusType::Normal <==> self.without_incident(),
            status == StatusType::Skip <==> self.filtered,
            status == StatusType::Error ==> self.failed,
            status == StatusType::Import ==> self.import,
            status == StatusType::Timeout ==> self.elapsed > self.budget,
            status == StatusType::Crash ==> self.signal is Some,
    {
        if self.filtered {
            StatusType::Skip
        } else if self.failed {
            StatusType::Error
        } else if self.import {
            StatusType::Import
        } else if self.elapsed > self.budget {
            StatusType::Timeout
        } else if self.signal.is_some() {
            StatusType::Crash
        } else {
            StatusType::Normal
        }
    }
}

} // verus!

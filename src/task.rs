//! Tasks, their priority classes and the errors they report.

use vstd::prelude::*;

verus! {

/// Longest declared duration, in seconds, that a `SimpleTask` agrees to run.
pub const MAX_DURATION_SECS: u64 = 5;

/// Priority class of a queued task; `High` is drained before `Medium`,
/// `Medium` before `Low`.
#[derive(Clone, Copy, Debug, PartialEq, Eq, Structural)]
pub enum Priority {
    High,
    Medium,
    Low,
}

/// Rank of a priority class: the smaller the rank, the more urgent the class.
pub open spec fn rank(p: Priority) -> nat {
    match p {
        Priority::High => 0,
        Priority::Medium => 1,
        Priority::Low => 2,
    }
}

impl Priority {
    /// Executable form of `rank`.
    pub fn rank(&self) -> (r: u8)
        ensures
            r == rank(*self),
    {
        match self {
            Priority::High => 0,
            Priority::Medium => 1,
            Priority::Low => 2,
        }
    }
}

/// Why a task did not complete.
#[derive(Debug, PartialEq, Eq)]
pub enum TaskError {
    /// The task's action failed, or the task refused to run it.
    ExecutionError(String),
    /// The task exceeded a time budget imposed on it.
    TimeOut,
    /// A task or resource that was referred to does not exist.
    NotFound,
}

/// A unit of work that the scheduler can run.
pub trait Executable {
    /// Performs the work, blocking until it is done.
    fn execute(&self) -> Result<(), TaskError>;

    /// Returns the task's name.
    fn get_name(&self) -> String;
}

/// A task with a name and a declared duration in seconds.
pub struct SimpleTask {
    pub name: String,
    pub duration_secs: u64,
}

impl SimpleTask {
    pub fn new(name: String, duration_secs: u64) -> (r: SimpleTask)
        ensures
            r.name@ == name@,
            r.duration_secs == duration_secs,
    {
        SimpleTask { name, duration_secs }
    }

    /// Returns a copy of the task's name.
    pub fn get_name(&self) -> (r: String)
        ensures
            r@ == self.name@,
    {
        self.name.clone()
    }

    /// The policy that runs before any work: a declared duration above
    /// `MAX_DURATION_SECS` is refused with an `ExecutionError`, any other
    /// duration is admitted.
    pub fn check_duration(&self) -> (r: Result<(), TaskError>)
        ensures
            r is Ok <==> self.duration_secs <= MAX_DURATION_SECS,
            r is Err ==> r->Err_0 is ExecutionError,
    {
        if self.duration_secs > MAX_DURATION_SECS {
            return Err(TaskError::ExecutionError("declared duration is too long, task refused".to_string()));
        }
        Ok(())
    }
}

} // verus!

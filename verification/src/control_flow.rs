//! Control-flow values: what a task's closure asks of the scheduler, and
//! what the instance does between ticks.

use vstd::prelude::*;
use crate::identify::CrateName;

verus! {

/// An error a task run ended with: either the plugin returned it, or the
/// closure panicked and the run controller synthesized it.
#[derive(Debug)]
pub struct TaskError {
    pub is_panic: bool,
    pub message: String,
}

impl Clone for TaskError {
    fn clone(&self) -> (r: Self)
        ensures
            r.is_panic == self.is_panic,
            r.message@ == self.message@,
    {
        Self { is_panic: self.is_panic, message: self.message.clone() }
    }
}

/// What a task's closure returned: carry on, stop itself, stop everything,
/// or ask for a reload.
#[derive(Debug)]
pub enum TaskControlFlow {
    Continue,
    Failed(TaskError),
    FullReload,
    PartialReload(Vec<CrateName>),
    StopAll,
    StopThis,
}

impl TaskControlFlow {
    /// Did the run end in a panic-synthesized error?
    pub open spec fn is_panic_err(self) -> bool {
        match self {
            TaskControlFlow::Failed(e) => e.is_panic,
            _ => false,
        }
    }
}

/// What the instance does once the current tick's fulfillers have ceased.
#[derive(Debug)]
pub enum InstanceControlFlow {
    Continue,
    FullReload,
    PartialReload(Vec<CrateName>),
    RecreateThreadpool,
    Stop,
}

} // verus!

//! Error values of the library: parse, validation, load and run errors.
//! Each is plain data; rendering them for people is left to the embedding
//! program.

use vstd::prelude::*;
use crate::identify::{CrateName, FullDatachunkName, FullTaskName};

verus! {

/// The crate dependency graph of a composition description cycles.
#[derive(Debug)]
pub struct CustardCompositionCycleError {
    pub offending_crate: Option<CrateName>,
}

/// A composition description did not parse.
#[derive(Debug)]
pub struct CustardRonCompositionParseError {
    pub error: String,
    pub relevant_ron: String,
}

/// Two unsynchronized tasks of different crates both want exclusive access
/// to one datachunk.
#[derive(Debug)]
pub struct CustardDatachunkAccessError {
    pub task_a: FullTaskName,
    pub task_b: FullTaskName,
    pub datachunk: FullDatachunkName,
}

/// The task belongs to no cycle of the dependency graph.
#[derive(Debug)]
pub struct CustardNotInCycleError {
    pub offending_task: FullTaskName,
}

/// None of the task's ancestors is an entrypoint.
#[derive(Debug)]
pub struct CustardUnreachableTaskError {
    pub offending_task: FullTaskName,
}

/// A crate of the composition came without its core plugin.
#[derive(Debug)]
pub struct CustardCompositionRequiresCoreCrateError {
    pub offending_crate: CrateName,
}

/// A datachunk could not be materialized by its plugin.
#[derive(Debug)]
pub struct CustardLoadDatachunkError {
    pub crate_name: CrateName,
    pub kind_name: String,
    pub wrapped_error: String,
}

/// A task could not be materialized by its plugin.
#[derive(Debug)]
pub struct CustardLoadTaskError {
    pub crate_name: CrateName,
    pub kind_name: String,
    pub wrapped_error: String,
}

/// A compiled-in lookup table misses the requested key.
#[derive(Debug)]
pub struct CustardUnloadedStaticArrayDoesNotContainElementError<T> {
    pub offending_key: T,
}

/// A task's closure panicked while running.
#[derive(Debug)]
pub struct CustardTaskPanicError {
    pub offending_task: FullTaskName,
    pub error: String,
}

/// Per-task errors gathered over a run.
pub struct TasksResult {
    pub errors: Vec<(FullTaskName, String)>,
}

} // verus!

//! A task and what is decided about it before and after its command runs.

use vstd::prelude::*;
use crate::completion::TaskCompleted;
use crate::config::{SudoContext, TaskConfig, VerbosityLevel};

verus! {

/// How a process was launched.
#[derive(Debug)]
pub struct ProcessLaunchInfo {
    /// Whether the process does not start by itself.
    pub auto_start_off: bool,
    /// Whether the process has a readiness probe that must be awaited.
    pub requires_ready_wait: bool,
    /// The name that the process manager knows the process by.
    pub process_name: String,
}

/// Where a task is in its life.
#[derive(Debug)]
pub enum TaskStatus {
    /// The task waits for its turn, or runs.
    Pending,
    /// The task came to its end.
    Completed(TaskCompleted),
}

/// A task of the graph.
pub struct TaskState {
    pub task: TaskConfig,
    pub status: TaskStatus,
    pub verbosity: VerbosityLevel,
    pub sudo_context: Option<SudoContext>,
}

impl TaskState {
    /// A task that waits for its turn.
    pub fn new(
        task: TaskConfig,
        verbosity: VerbosityLevel,
        sudo_context: Option<SudoContext>,
    ) -> (r: Self)
        ensures
            r == (TaskState { task, status: TaskStatus::Pending, verbosity, sudo_context }),
    {
        TaskState { task, status: TaskStatus::Pending, verbosity, sudo_context }
    }
}

} // verus!

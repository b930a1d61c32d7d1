//! The course of one task run.
//!
//! A run is a machine: it is told what happened, and answers with what to do
//! next. The program around it performs that and reports back, until the run
//! finishes or is given up.
//!
//! The lock of a cached task spans lookup, execution, validation and commit,
//! so a run that waited for it always checks the completed entry again before
//! it can execute.

use serde_json::Value;
use std::time::{Duration, Instant};
use vstd::prelude::*;
use crate::completion::{is_cwd_error, is_run_output, is_status_output};
use crate::completion::{run_warnings, status_warnings};
use crate::config::CachePath;
use crate::completion::{Skipped, StatusRun, TaskCompleted, TaskFailure};
use crate::environment::{env_error, layered_env};
use crate::error::TaskError;
use crate::outputs::{Output, Outputs};
use crate::shell::Shell;
use crate::strmap::{texts, StrMap};
use crate::task_cache::{contract_breach, contract_error, is_entry_for, missing, outputs_untouched};
use crate::task_cache::{CachedRun, PathSnapshot};
use crate::task_state::TaskState;
use crate::text::{str_equal, text_views};

verus! {

/// What stays the same during a run.
pub struct RunContext<'a> {
    pub task: &'a TaskState,
    /// The outputs of the dependencies.
    pub outputs: &'a Outputs,
    pub shell_env: &'a StrMap<String>,
    /// The kind of shell that exported values are quoted for.
    pub shell: Shell,
    /// Whether to run the task whatever the cache holds.
    pub refresh_task_cache: bool,
}

/// What the run of a cached task starts from.
#[derive(Debug)]
pub struct Baseline {
    /// The hash of the definition of the task.
    pub definition: String,
    /// What its inputs were before it ran.
    pub inputs: PathSnapshot,
}

/// What came of executing the command.
#[derive(Debug)]
pub struct ExecutionResult {
    pub success: bool,
    pub stdout_lines: Vec<(Instant, String)>,
    pub stderr_lines: Vec<(Instant, String)>,
    pub error: Option<String>,
}

/// What a run waits for.
#[allow(inconsistent_fields)]
#[derive(Debug)]
pub enum RunState {
    Start,
    AwaitLock,
    AwaitDefinition,
    AwaitInputs { definition: String },
    AwaitEntry { baseline: Baseline },
    AwaitCachedOutputs { baseline: Baseline, entry: CachedRun },
    AwaitStoredOutput,
    AwaitStatusCwd { baseline: Option<Baseline>, cached_output: Option<Value> },
    AwaitStatus { baseline: Option<Baseline>, cached_output: Option<Value> },
    AwaitCwd { baseline: Option<Baseline> },
    AwaitExecution { baseline: Option<Baseline> },
    AwaitFiles {
        baseline: Option<Baseline>,
        stdout: Vec<(Instant, String)>,
        stderr: Vec<(Instant, String)>,
    },
    AwaitInputsAfter {
        baseline: Baseline,
        output: Output,
        stdout: Vec<(Instant, String)>,
        stderr: Vec<(Instant, String)>,
    },
    AwaitOutputsAfter {
        baseline: Baseline,
        inputs_after: PathSnapshot,
        output: Output,
        stdout: Vec<(Instant, String)>,
        stderr: Vec<(Instant, String)>,
    },
    AwaitCommit { output: Output },
    Done,
}

/// What happened.
#[derive(Debug)]
pub enum RunEvent {
    Begin,
    /// The lock of the task is held, or why not.
    Lock(Result<(), String>),
    /// The hash of the definition, or why there is none.
    Definition(Result<String, String>),
    /// What was found for declared paths, or why that is unknown.
    Snapshot(Result<PathSnapshot, String>),
    /// The cache entry of the task, if it has one, or why that is unknown.
    Entry(Result<Option<CachedRun>, String>),
    /// The output that a task without a cache had last.
    StoredOutput(Result<Option<Value>, String>),
    /// What stands at the working directory of the task.
    Cwd { exists: bool, is_dir: bool },
    /// What came of the status command, or why it could not be set up.
    Status(Result<StatusRun, String>),
    /// What came of the command, or why it could not be set up.
    Executed(Result<ExecutionResult, String>),
    /// What the output file and the exports file hold, where they could be
    /// read.
    Files { output_data: Option<Vec<u8>>, export_data: Option<Vec<u8>> },
    /// The entry was committed, or why not.
    Committed(Result<(), String>),
}

/// How the end of a run is reported.
#[derive(Clone, Copy, Debug, PartialEq, Eq, Structural)]
pub enum Mark {
    /// The task succeeded.
    Succeeded,
    /// The task need not run, because it ran before.
    Cached,
    /// The task has nothing to run.
    Skipped,
    /// The task was cancelled.
    Cancelled,
    /// The task failed.
    Failed,
    /// The status command could not be run.
    StatusFailed,
}

/// What to do next.
#[allow(inconsistent_fields)]
#[derive(Debug)]
pub enum RunAction<'a> {
    /// Acquire the lock of the task.
    AcquireLock { task_name: &'a String },
    /// Hash the definition of the task.
    Define,
    /// See what is found for the inputs.
    SnapshotInputs { declarations: &'a Vec<CachePath>, cwd: &'a Option<String> },
    /// See what is found for the outputs.
    SnapshotOutputs { declarations: &'a Vec<CachePath>, cwd: &'a Option<String> },
    /// Read the cache entry of the task.
    LookUp { task_name: &'a String },
    /// Read the output that the task had last.
    ReadStoredOutput { task_name: &'a String },
    /// See what stands at the working directory of the task.
    InspectCwd { cwd: &'a String },
    /// Run the status command.
    CheckStatus {
        command: &'a String,
        cwd: &'a Option<String>,
        env: StrMap<String>,
        use_sudo: bool,
    },
    /// Run the command.
    Execute {
        command: &'a String,
        cwd: &'a Option<String>,
        env: StrMap<String>,
        use_sudo: bool,
    },
    /// Read the output file and the exports file.
    ReadFiles,
    /// Publish the cache entry.
    Commit { task_name: &'a String, entry: CachedRun },
    /// The run is over.
    Finish { completed: TaskCompleted, mark: Mark },
    /// The run is given up.
    Abort(TaskError),
}

/// What follows an event.
#[derive(Debug)]
pub struct Step<'a> {
    pub state: RunState,
    pub action: RunAction<'a>,
    /// What is to be said about exports that were skipped or dropped.
    pub warnings: Vec<String>,
}

/// The run is given up.
pub open spec fn aborts(to: RunState, action: RunAction, error: TaskError) -> bool {
    to is Done && action == RunAction::Abort(error)
}

/// The run is over.
pub open spec fn finishes(
    to: RunState,
    action: RunAction,
    completed: TaskCompleted,
    mark: Mark,
) -> bool {
    to is Done && action == (RunAction::Finish { completed, mark })
}

/// The working directory of the task is looked at.
pub open spec fn inspects_cwd(ctx: RunContext, action: RunAction) -> bool {
    action matches RunAction::InspectCwd { cwd } && ctx.task.task.cwd == Some(*cwd)
}

/// What is found for the inputs of the task is looked at.
pub open spec fn snapshots_inputs(ctx: RunContext, action: RunAction) -> bool {
    action matches RunAction::SnapshotInputs { declarations, cwd } && ctx.task.task.cache is Some
        && *declarations == ctx.task.task.cache->0.inputs && *cwd == ctx.task.task.cwd
}

/// What is found for the outputs of the task is looked at.
pub open spec fn snapshots_outputs(ctx: RunContext, action: RunAction) -> bool {
    action matches RunAction::SnapshotOutputs { declarations, cwd } && ctx.task.task.cache is Some
        && *declarations == ctx.task.task.cache->0.outputs && *cwd == ctx.task.task.cwd
}

/// The command is run, in the environment of the task.
pub open spec fn executes(
    ctx: RunContext,
    baseline: Option<Baseline>,
    to: RunState,
    action: RunAction,
) -> bool {
    match env_error(*ctx.task, *ctx.outputs) {
        Some(e) => aborts(to, action, TaskError::TaskEnv(e)),
        None => {
            &&& to == (RunState::AwaitExecution { baseline })
            &&& action matches RunAction::Execute { command, cwd, env, use_sudo }
            &&& ctx.task.task.command == Some(*command)
            &&& *cwd == ctx.task.task.cwd
            &&& use_sudo == (ctx.task.sudo_context is Some)
            &&& texts(env@) == layered_env(*ctx.task, *ctx.outputs, ctx.shell_env@, ctx.shell)
        },
    }
}

/// It is the turn of the command, if there is one.
pub open spec fn starts_command(
    ctx: RunContext,
    baseline: Option<Baseline>,
    to: RunState,
    action: RunAction,
) -> bool {
    if ctx.task.task.command is None {
        finishes(to, action, TaskCompleted::Skipped(Skipped::NoCommand), Mark::Skipped)
    } else if ctx.task.task.cwd is Some {
        to == (RunState::AwaitCwd { baseline }) && inspects_cwd(ctx, action)
    } else {
        executes(ctx, baseline, to, action)
    }
}

/// The status command is run, in the environment of the task.
pub open spec fn runs_status(
    ctx: RunContext,
    baseline: Option<Baseline>,
    cached_output: Option<Value>,
    to: RunState,
    action: RunAction,
) -> bool {
    match env_error(*ctx.task, *ctx.outputs) {
        Some(e) => aborts(to, action, TaskError::StatusEnv(e)),
        None => {
            &&& to == (RunState::AwaitStatus { baseline, cached_output })
            &&& action matches RunAction::CheckStatus { command, cwd, env, use_sudo }
            &&& ctx.task.task.status == Some(*command)
            &&& *cwd == ctx.task.task.cwd
            &&& use_sudo == (ctx.task.sudo_context is Some)
            &&& texts(env@) == layered_env(*ctx.task, *ctx.outputs, ctx.shell_env@, ctx.shell)
        },
    }
}

/// It is the turn of the status command.
pub open spec fn starts_status(
    ctx: RunContext,
    baseline: Option<Baseline>,
    cached_output: Option<Value>,
    to: RunState,
    action: RunAction,
) -> bool {
    if ctx.task.task.cwd is Some {
        to == (RunState::AwaitStatusCwd { baseline, cached_output }) && inspects_cwd(ctx, action)
    } else {
        runs_status(ctx, baseline, cached_output, to, action)
    }
}

/// The command was cancelled.
pub open spec fn was_cancelled(result: ExecutionResult) -> bool {
    result.error is Some && result.error->0@ == "Task cancelled"@
}

/// The command ran to its end and succeeded.
pub open spec fn has_succeeded(result: ExecutionResult) -> bool {
    result.success && !was_cancelled(result)
}

/// `failure` tells why the command failed.
pub open spec fn is_failure_of(result: ExecutionResult, failure: TaskFailure) -> bool {
    &&& failure.stdout == result.stdout_lines
    &&& failure.stderr == result.stderr_lines
    &&& failure.error@ == match result.error {
        Some(error) => error@,
        None => "Unknown error"@,
    }
}

/// The event is of the kind that the state waits for.
pub open spec fn expects(state: RunState, event: RunEvent) -> bool {
    match state {
        RunState::Start => event is Begin,
        RunState::AwaitLock => event is Lock,
        RunState::AwaitDefinition => event is Definition,
        RunState::AwaitInputs { .. } => event is Snapshot,
        RunState::AwaitEntry { .. } => event is Entry,
        RunState::AwaitCachedOutputs { .. } => event is Snapshot,
        RunState::AwaitStoredOutput => event is StoredOutput,
        RunState::AwaitStatusCwd { .. } => event is Cwd,
        RunState::AwaitStatus { .. } => event is Status,
        RunState::AwaitCwd { .. } => event is Cwd,
        RunState::AwaitExecution { .. } => event is Executed,
        RunState::AwaitFiles { .. } => event is Files,
        RunState::AwaitInputsAfter { .. } => event is Snapshot,
        RunState::AwaitOutputsAfter { .. } => event is Snapshot,
        RunState::AwaitCommit { .. } => event is Committed,
        RunState::Done => false,
    }
}

/// What follows when an event happens in a state: the next state, and what to
/// do.
pub open spec fn steps(
    ctx: RunContext,
    from: RunState,
    event: RunEvent,
    elapsed: Duration,
    to: RunState,
    action: RunAction,
) -> bool {
    let config = ctx.task.task;
    match (from, event) {
        (RunState::Start, RunEvent::Begin) => if config.cache is Some {
            to is AwaitLock && action == (RunAction::AcquireLock { task_name: &config.name })
        } else if !ctx.refresh_task_cache && config.status is Some {
            to is AwaitStoredOutput && action == (RunAction::ReadStoredOutput {
                task_name: &config.name,
            })
        } else {
            starts_command(ctx, None, to, action)
        },
        (RunState::AwaitLock, RunEvent::Lock(lock)) => match lock {
            Ok(_) => to is AwaitDefinition && action is Define,
            Err(cause) => aborts(to, action, TaskError::Lock { task: config.name, cause }),
        },
        (RunState::AwaitDefinition, RunEvent::Definition(found)) => match found {
            Ok(definition) => to == (RunState::AwaitInputs { definition }) && snapshots_inputs(
                ctx,
                action,
            ),
            Err(error) => aborts(to, action, TaskError::Reported(error)),
        },
        (RunState::AwaitInputs { definition }, RunEvent::Snapshot(found)) => match found {
            Ok(inputs) => {
                let baseline = Baseline { definition, inputs };
                if !ctx.refresh_task_cache && missing(inputs@).len() == 0 {
                    to == (RunState::AwaitEntry { baseline }) && action == (RunAction::LookUp {
                        task_name: &config.name,
                    })
                } else {
                    starts_command(ctx, Some(baseline), to, action)
                }
            },
            Err(error) => aborts(to, action, TaskError::Reported(error)),
        },
        (RunState::AwaitEntry { baseline }, RunEvent::Entry(found)) => match found {
            Ok(Some(entry)) => if is_entry_for(entry, baseline.definition@, baseline.inputs@) {
                to == (RunState::AwaitCachedOutputs { baseline, entry }) && snapshots_outputs(
                    ctx,
                    action,
                )
            } else {
                starts_command(ctx, Some(baseline), to, action)
            },
            _ => starts_command(ctx, Some(baseline), to, action),
        },
        (
            RunState::AwaitCachedOutputs { baseline, entry },
            RunEvent::Snapshot(found),
        ) => match found {
            Ok(outputs) => if outputs_untouched(entry, outputs@) {
                if config.status is None {
                    finishes(
                        to,
                        action,
                        TaskCompleted::Skipped(Skipped::Cached(Output(entry.output))),
                        Mark::Cached,
                    )
                } else {
                    starts_status(ctx, Some(baseline), entry.output, to, action)
                }
            } else {
                starts_command(ctx, Some(baseline), to, action)
            },
            Err(_) => starts_command(ctx, Some(baseline), to, action),
        },
        (RunState::AwaitStoredOutput, RunEvent::StoredOutput(found)) => {
            let cached_output = match found {
                Ok(output) => output,
                Err(_) => None,
            };
            starts_status(ctx, None, cached_output, to, action)
        },
        (
            RunState::AwaitStatusCwd { baseline, cached_output },
            RunEvent::Cwd { exists, is_dir },
        ) => if config.cwd is None || (exists && is_dir) {
            runs_status(ctx, baseline, cached_output, to, action)
        } else {
            to is Done && (action matches RunAction::Abort(e) && is_cwd_error(
                *ctx.task,
                exists,
                is_dir,
                e,
            ))
        },
        (RunState::AwaitStatus { baseline, cached_output }, RunEvent::Status(run)) => match run {
            Err(error) => aborts(to, action, TaskError::Reported(error)),
            Ok(StatusRun::Failed) => starts_command(ctx, baseline, to, action),
            Ok(StatusRun::Succeeded(exports)) => {
                &&& to is Done
                &&& action matches RunAction::Finish {
                    completed: TaskCompleted::Skipped(Skipped::Cached(Output(Some(output)))),
                    mark: Mark::Cached,
                } && is_status_output(exports, cached_output, output)
            },
            Ok(StatusRun::NotStarted(error)) => {
                &&& to is Done
                &&& action matches RunAction::Finish {
                    completed: TaskCompleted::Failed(after, failure),
                    mark: Mark::StatusFailed,
                } && after == elapsed && failure.stdout@.len() == 0 && failure.stderr@.len() == 0
                    && failure.error == error
            },
        },
        (RunState::AwaitCwd { baseline }, RunEvent::Cwd { exists, is_dir }) => if config.cwd is None
            || (exists && is_dir) {
            executes(ctx, baseline, to, action)
        } else {
            to is Done && (action matches RunAction::Abort(e) && is_cwd_error(
                *ctx.task,
                exists,
                is_dir,
                e,
            ))
        },
        (RunState::AwaitExecution { baseline }, RunEvent::Executed(executed)) => match executed {
            Err(error) => aborts(to, action, TaskError::Reported(error)),
            Ok(result) => if was_cancelled(result) {
                finishes(to, action, TaskCompleted::Cancelled(Some(elapsed)), Mark::Cancelled)
            } else if !result.success {
                &&& to is Done
                &&& action matches RunAction::Finish {
                    completed: TaskCompleted::Failed(after, failure),
                    mark: Mark::Failed,
                } && after == elapsed && is_failure_of(result, failure)
            } else {
                &&& to == (RunState::AwaitFiles {
                    baseline,
                    stdout: result.stdout_lines,
                    stderr: result.stderr_lines,
                })
                &&& action is ReadFiles
            },
        },
        (
            RunState::AwaitFiles { baseline, stdout, stderr },
            RunEvent::Files { output_data, export_data },
        ) => match baseline {
            None => {
                &&& to is Done
                &&& action matches RunAction::Finish {
                    completed: TaskCompleted::Success(after, output),
                    mark: Mark::Succeeded,
                } && after == elapsed && is_run_output(output_data, export_data, stdout@, output.0)
            },
            Some(baseline) => {
                &&& to matches RunState::AwaitInputsAfter {
                    baseline: kept,
                    output,
                    stdout: out,
                    stderr: err,
                } && kept == baseline && out == stdout && err == stderr && is_run_output(
                    output_data,
                    export_data,
                    stdout@,
                    output.0,
                )
                &&& snapshots_inputs(ctx, action)
            },
        },
        (
            RunState::AwaitInputsAfter { baseline, output, stdout, stderr },
            RunEvent::Snapshot(found),
        ) => match found {
            Ok(inputs_after) => {
                &&& to == (RunState::AwaitOutputsAfter {
                    baseline,
                    inputs_after,
                    output,
                    stdout,
                    stderr,
                })
                &&& snapshots_outputs(ctx, action)
            },
            Err(error) => aborts(to, action, TaskError::Reported(error)),
        },
        (
            RunState::AwaitOutputsAfter { baseline, inputs_after, output, stdout, stderr },
            RunEvent::Snapshot(found),
        ) => match found {
            Ok(outputs_after) => match contract_breach(
                baseline.inputs@,
                inputs_after@,
                outputs_after@,
            ) {
                Some(error) => {
                    &&& to is Done
                    &&& action matches RunAction::Finish {
                        completed: TaskCompleted::Failed(after, failure),
                        mark: Mark::Failed,
                    } && after == elapsed && failure.stdout == stdout && failure.stderr == stderr
                        && failure.error@ == error
                },
                None => {
                    &&& to == (RunState::AwaitCommit { output })
                    &&& action == (RunAction::Commit {
                        task_name: &config.name,
                        entry: CachedRun {
                            definition_hash: baseline.definition,
                            input_snapshot: inputs_after,
                            output_snapshot: outputs_after,
                            output: output.0,
                        },
                    })
                },
            },
            Err(error) => aborts(to, action, TaskError::Reported(error)),
        },
        (RunState::AwaitCommit { output }, RunEvent::Committed(_)) => finishes(
            to,
            action,
            TaskCompleted::Success(elapsed, output),
            Mark::Succeeded,
        ),
        _ => false,
    }
}

/// A state that a run of the task can be in: one that waits for something of a
/// cache, of a status command, of a command or of a directory is of a task
/// that has one.
pub open spec fn fits(ctx: RunContext, state: RunState) -> bool {
    let config = ctx.task.task;
    match state {
        RunState::Start => true,
        RunState::AwaitLock => config.cache is Some,
        RunState::AwaitDefinition => config.cache is Some,
        RunState::AwaitInputs { .. } => config.cache is Some,
        RunState::AwaitEntry { .. } => config.cache is Some,
        RunState::AwaitCachedOutputs { .. } => config.cache is Some,
        RunState::AwaitStoredOutput => config.status is Some,
        RunState::AwaitStatusCwd { baseline, .. } => config.status is Some && config.cwd is Some
            && (baseline is Some ==> config.cache is Some),
        RunState::AwaitStatus { baseline, .. } => config.status is Some && (baseline is Some
            ==> config.cache is Some),
        RunState::AwaitCwd { baseline } => config.command is Some && config.cwd is Some && (baseline
            is Some ==> config.cache is Some),
        RunState::AwaitExecution { baseline } => config.command is Some && (baseline is Some
            ==> config.cache is Some),
        RunState::AwaitFiles { baseline, .. } => baseline is Some ==> config.cache is Some,
        RunState::AwaitInputsAfter { .. } => config.cache is Some,
        RunState::AwaitOutputsAfter { .. } => config.cache is Some,
        RunState::AwaitCommit { .. } => config.cache is Some,
        RunState::Done => true,
    }
}

/// What is to be said about exports when an event happens in a state.
pub open spec fn step_warnings(state: RunState, event: RunEvent) -> Seq<Seq<char>> {
    match (state, event) {
        (RunState::AwaitStatus { .. }, RunEvent::Status(Ok(run))) => status_warnings(run),
        (
            RunState::AwaitFiles { stdout, .. },
            RunEvent::Files { output_data, export_data },
        ) => run_warnings(output_data, export_data, stdout@),
        _ => Seq::empty(),
    }
}

impl<'a> RunContext<'a> {
    /// Runs the command, in the environment of the task.
    fn execute(&self, baseline: Option<Baseline>) -> (r: (RunState, RunAction<'a>))
        requires
            self.task.task.command is Some,
        ensures
            executes(*self, baseline, r.0, r.1),
    {
        let command = self.task.task.command.as_ref().unwrap();
        match self.task.prepare_env(self.outputs, self.shell_env, self.shell) {
            Ok(env) => {
                let cwd = &self.task.task.cwd;
                let use_sudo = self.task.sudo_context.is_some();
                (
                    RunState::AwaitExecution { baseline },
                    RunAction::Execute { command, cwd, env, use_sudo },
                )
            },
            Err(e) => (RunState::Done, RunAction::Abort(TaskError::TaskEnv(e))),
        }
    }

    /// Turns to the command, if there is one.
    fn start_command(&self, baseline: Option<Baseline>) -> (r: (RunState, RunAction<'a>))
        ensures
            starts_command(*self, baseline, r.0, r.1),
    {
        if self.task.task.command.is_none() {
            let completed = TaskCompleted::Skipped(Skipped::NoCommand);
            (RunState::Done, RunAction::Finish { completed, mark: Mark::Skipped })
        } else if let Some(cwd) = &self.task.task.cwd {
            (RunState::AwaitCwd { baseline }, RunAction::InspectCwd { cwd })
        } else {
            self.execute(baseline)
        }
    }

    /// Runs the status command, in the environment of the task.
    fn run_status(&self, baseline: Option<Baseline>, cached_output: Option<Value>) -> (r: (
        RunState,
        RunAction<'a>,
    ))
        requires
            self.task.task.status is Some,
        ensures
            runs_status(*self, baseline, cached_output, r.0, r.1),
    {
        let command = self.task.task.status.as_ref().unwrap();
        match self.task.prepare_env(self.outputs, self.shell_env, self.shell) {
            Ok(env) => {
                let cwd = &self.task.task.cwd;
                let use_sudo = self.task.sudo_context.is_some();
                (
                    RunState::AwaitStatus { baseline, cached_output },
                    RunAction::CheckStatus { command, cwd, env, use_sudo },
                )
            },
            Err(e) => (RunState::Done, RunAction::Abort(TaskError::StatusEnv(e))),
        }
    }

    /// Turns to the status command.
    fn start_status(&self, baseline: Option<Baseline>, cached_output: Option<Value>) -> (r: (
        RunState,
        RunAction<'a>,
    ))
        requires
            self.task.task.status is Some,
        ensures
            starts_status(*self, baseline, cached_output, r.0, r.1),
    {
        if let Some(cwd) = &self.task.task.cwd {
            (RunState::AwaitStatusCwd { baseline, cached_output }, RunAction::InspectCwd { cwd })
        } else {
            self.run_status(baseline, cached_output)
        }
    }

    /// Looks at what is found for the inputs.
    fn snapshot_inputs(&self) -> (r: RunAction<'a>)
        requires
            self.task.task.cache is Some,
        ensures
            snapshots_inputs(*self, r),
    {
        let config = self.task.task.cache.as_ref().unwrap();
        RunAction::SnapshotInputs { declarations: &config.inputs, cwd: &self.task.task.cwd }
    }

    /// Looks at what is found for the outputs.
    fn snapshot_outputs(&self) -> (r: RunAction<'a>)
        requires
            self.task.task.cache is Some,
        ensures
            snapshots_outputs(*self, r),
    {
        let config = self.task.task.cache.as_ref().unwrap();
        RunAction::SnapshotOutputs { declarations: &config.outputs, cwd: &self.task.task.cwd }
    }

    /// What came of a command that was executed.
    fn on_executed(
        &self,
        baseline: Option<Baseline>,
        result: ExecutionResult,
        elapsed: Duration,
    ) -> (r: (RunState, RunAction<'a>))
        ensures
            steps(
                *self,
                RunState::AwaitExecution { baseline },
                RunEvent::Executed(Ok(result)),
                elapsed,
                r.0,
                r.1,
            ),
    {
        let cancelled = match &result.error {
            Some(error) => str_equal(error.as_str(), "Task cancelled"),
            None => false,
        };
        if cancelled {
            let completed = TaskCompleted::Cancelled(Some(elapsed));
            return (RunState::Done, RunAction::Finish { completed, mark: Mark::Cancelled });
        }
        let ExecutionResult { success, stdout_lines, stderr_lines, error } = result;
        if success {
            return (
                RunState::AwaitFiles { baseline, stdout: stdout_lines, stderr: stderr_lines },
                RunAction::ReadFiles,
            );
        }
        let error = match error {
            Some(error) => error,
            None => "Unknown error".to_string(),
        };
        let failure = TaskFailure { stdout: stdout_lines, stderr: stderr_lines, error };
        let completed = TaskCompleted::Failed(elapsed, failure);
        (RunState::Done, RunAction::Finish { completed, mark: Mark::Failed })
    }

    /// What follows when all is known of a cached task that succeeded.
    fn conclude(
        &self,
        baseline: Baseline,
        inputs_after: PathSnapshot,
        outputs_after: PathSnapshot,
        output: Output,
        stdout: Vec<(Instant, String)>,
        stderr: Vec<(Instant, String)>,
        elapsed: Duration,
    ) -> (r: (RunState, RunAction<'a>))
        ensures
            steps(
                *self,
                RunState::AwaitOutputsAfter { baseline, inputs_after, output, stdout, stderr },
                RunEvent::Snapshot(Ok(outputs_after)),
                elapsed,
                r.0,
                r.1,
            ),
    {
        match contract_error(&baseline.inputs, &inputs_after, &outputs_after) {
            Some(error) => {
                let failure = TaskFailure { stdout, stderr, error };
                let completed = TaskCompleted::Failed(elapsed, failure);
                (RunState::Done, RunAction::Finish { completed, mark: Mark::Failed })
            },
            None => {
                let kept = match &output.0 {
                    Some(value) => Some(value.clone()),
                    None => None,
                };
                let entry = CachedRun {
                    definition_hash: baseline.definition,
                    input_snapshot: inputs_after,
                    output_snapshot: outputs_after,
                    output: kept,
                };
                let task_name = &self.task.task.name;
                (RunState::AwaitCommit { output }, RunAction::Commit { task_name, entry })
            },
        }
    }

    /// Whether a run of the task can be in the state, and waits for such an
    /// event in it.
    pub fn awaits(&self, state: &RunState, event: &RunEvent) -> (r: bool)
        ensures
            r == (fits(*self, *state) && expects(*state, *event)),
    {
        let config = &self.task.task;
        let cached = config.cache.is_some();
        match (state, event) {
            (RunState::Start, RunEvent::Begin) => true,
            (RunState::AwaitLock, RunEvent::Lock(_)) => cached,
            (RunState::AwaitDefinition, RunEvent::Definition(_)) => cached,
            (RunState::AwaitInputs { .. }, RunEvent::Snapshot(_)) => cached,
            (RunState::AwaitEntry { .. }, RunEvent::Entry(_)) => cached,
            (RunState::AwaitCachedOutputs { .. }, RunEvent::Snapshot(_)) => cached,
            (RunState::AwaitStoredOutput, RunEvent::StoredOutput(_)) => config.status.is_some(),
            (RunState::AwaitStatusCwd { baseline, .. }, RunEvent::Cwd { .. }) => {
                config.status.is_some() && config.cwd.is_some() && (baseline.is_none() || cached)
            },
            (RunState::AwaitStatus { baseline, .. }, RunEvent::Status(_)) => {
                config.status.is_some() && (baseline.is_none() || cached)
            },
            (RunState::AwaitCwd { baseline }, RunEvent::Cwd { .. }) => {
                config.command.is_some() && config.cwd.is_some() && (baseline.is_none() || cached)
            },
            (RunState::AwaitExecution { baseline }, RunEvent::Executed(_)) => {
                config.command.is_some() && (baseline.is_none() || cached)
            },
            (RunState::AwaitFiles { baseline, .. }, RunEvent::Files { .. }) => baseline.is_none()
                || cached,
            (RunState::AwaitInputsAfter { .. }, RunEvent::Snapshot(_)) => cached,
            (RunState::AwaitOutputsAfter { .. }, RunEvent::Snapshot(_)) => cached,
            (RunState::AwaitCommit { .. }, RunEvent::Committed(_)) => cached,
            _ => false,
        }
    }

    /// What follows when an event happens: the next state, what to do, and what
    /// to say.
    pub fn step(&self, state: RunState, event: RunEvent, elapsed: Duration) -> (r: Step<'a>)
        requires
            fits(*self, state),
            expects(state, event),
        ensures
            steps(*self, state, event, elapsed, r.state, r.action),
            fits(*self, r.state),
            text_views(r.warnings@) == step_warnings(state, event),
    {
        let mut warnings: Vec<String> = Vec::new();
        assert(text_views(warnings@) =~= Seq::empty());
        let task_name = &self.task.task.name;
        let (state, action) = match (state, event) {
            (RunState::Start, RunEvent::Begin) => {
                if self.task.task.cache.is_some() {
                    (RunState::AwaitLock, RunAction::AcquireLock { task_name })
                } else if !self.refresh_task_cache && self.task.task.status.is_some() {
                    (RunState::AwaitStoredOutput, RunAction::ReadStoredOutput { task_name })
                } else {
                    self.start_command(None)
                }
            },
            (RunState::AwaitLock, RunEvent::Lock(lock)) => match lock {
                Ok(_) => (RunState::AwaitDefinition, RunAction::Define),
                Err(cause) => {
                    let task = self.task.task.name.clone();
                    (RunState::Done, RunAction::Abort(TaskError::Lock { task, cause }))
                },
            },
            (RunState::AwaitDefinition, RunEvent::Definition(found)) => match found {
                Ok(definition) => (
                    RunState::AwaitInputs { definition },
                    self.snapshot_inputs(),
                ),
                Err(error) => (RunState::Done, RunAction::Abort(TaskError::Reported(error))),
            },
            (RunState::AwaitInputs { definition }, RunEvent::Snapshot(found)) => match found {
                Ok(inputs) => {
                    let complete = inputs.is_complete();
                    let baseline = Baseline { definition, inputs };
                    if !self.refresh_task_cache && complete {
                        (RunState::AwaitEntry { baseline }, RunAction::LookUp { task_name })
                    } else {
                        self.start_command(Some(baseline))
                    }
                },
                Err(error) => (RunState::Done, RunAction::Abort(TaskError::Reported(error))),
            },
            (RunState::AwaitEntry { baseline }, RunEvent::Entry(found)) => match found {
                Ok(Some(entry)) => {
                    if entry.matches(&baseline.definition, &baseline.inputs) {
                        (
                            RunState::AwaitCachedOutputs { baseline, entry },
                            self.snapshot_outputs(),
                        )
                    } else {
                        self.start_command(Some(baseline))
                    }
                },
                _ => self.start_command(Some(baseline)),
            },
            (
                RunState::AwaitCachedOutputs { baseline, entry },
                RunEvent::Snapshot(found),
            ) => match found {
                Ok(outputs) => {
                    if !entry.outputs_hold(&outputs) {
                        self.start_command(Some(baseline))
                    } else if self.task.task.status.is_none() {
                        let completed = TaskCompleted::Skipped(
                            Skipped::Cached(Output(entry.output)),
                        );
                        (RunState::Done, RunAction::Finish { completed, mark: Mark::Cached })
                    } else {
                        self.start_status(Some(baseline), entry.output)
                    }
                },
                Err(_) => self.start_command(Some(baseline)),
            },
            (RunState::AwaitStoredOutput, RunEvent::StoredOutput(found)) => {
                let cached_output = match found {
                    Ok(output) => output,
                    Err(_) => None,
                };
                self.start_status(None, cached_output)
            },
            (
                RunState::AwaitStatusCwd { baseline, cached_output },
                RunEvent::Cwd { exists, is_dir },
            ) => match self.task.validate_cwd(exists, is_dir) {
                Ok(_) => self.run_status(baseline, cached_output),
                Err(e) => (RunState::Done, RunAction::Abort(e)),
            },
            (RunState::AwaitStatus { baseline, cached_output }, RunEvent::Status(run)) => match run {
                Err(error) => (RunState::Done, RunAction::Abort(TaskError::Reported(error))),
                Ok(run) => {
                    let mark = match &run {
                        StatusRun::NotStarted(_) => Mark::StatusFailed,
                        _ => Mark::Cached,
                    };
                    let (ended, said) = TaskState::check_status(run, cached_output, elapsed);
                    warnings = said;
                    match ended {
                        Some(completed) => (RunState::Done, RunAction::Finish { completed, mark }),
                        None => self.start_command(baseline),
                    }
                },
            },
            (RunState::AwaitCwd { baseline }, RunEvent::Cwd { exists, is_dir }) => {
                match self.task.validate_cwd(exists, is_dir) {
                    Ok(_) => self.execute(baseline),
                    Err(e) => (RunState::Done, RunAction::Abort(e)),
                }
            },
            (RunState::AwaitExecution { baseline }, RunEvent::Executed(executed)) => {
                match executed {
                    Err(error) => (RunState::Done, RunAction::Abort(TaskError::Reported(error))),
                    Ok(result) => self.on_executed(baseline, result, elapsed),
                }
            },
            (
                RunState::AwaitFiles { baseline, stdout, stderr },
                RunEvent::Files { output_data, export_data },
            ) => {
                let (output, said) = TaskState::get_outputs(
                    &output_data,
                    &export_data,
                    stdout.as_slice(),
                );
                warnings = said;
                match baseline {
                    None => {
                        let completed = TaskCompleted::Success(elapsed, output);
                        (RunState::Done, RunAction::Finish { completed, mark: Mark::Succeeded })
                    },
                    Some(baseline) => (
                        RunState::AwaitInputsAfter { baseline, output, stdout, stderr },
                        self.snapshot_inputs(),
                    ),
                }
            },
            (
                RunState::AwaitInputsAfter { baseline, output, stdout, stderr },
                RunEvent::Snapshot(found),
            ) => match found {
                Ok(inputs_after) => (
                    RunState::AwaitOutputsAfter { baseline, inputs_after, output, stdout, stderr },
                    self.snapshot_outputs(),
                ),
                Err(error) => (RunState::Done, RunAction::Abort(TaskError::Reported(error))),
            },
            (
                RunState::AwaitOutputsAfter { baseline, inputs_after, output, stdout, stderr },
                RunEvent::Snapshot(found),
            ) => match found {
                Ok(outputs_after) => self.conclude(
                    baseline,
                    inputs_after,
                    outputs_after,
                    output,
                    stdout,
                    stderr,
                    elapsed,
                ),
                Err(error) => (RunState::Done, RunAction::Abort(TaskError::Reported(error))),
            },
            (RunState::AwaitCommit { output }, RunEvent::Committed(_)) => {
                let completed = TaskCompleted::Success(elapsed, output);
                (RunState::Done, RunAction::Finish { completed, mark: Mark::Succeeded })
            },
            _ => vstd::pervasive::unreached(),
        };
        Step { state, action, warnings }
    }
}

} // verus!

//! What a run does about each thing that happens, told by its events and its
//! actions alone.

use serde_json::Value;
use vstd::prelude::*;
use crate::cache_laws::{all_found, equal_snapshots};
use crate::cache_laws::{law_contract_of_a_run, law_entries_are_for_equal_inputs};
use crate::cache_laws::{law_snapshot_views_tell_all, law_untouched_outputs_are_equal};
use crate::cache_laws::law_required_paths_without_matches_are_missing;
use crate::completion::{is_run_output, is_status_output, run_warnings};
use crate::completion::{Skipped, StatusRun, TaskCompleted};
use crate::environment::{env_error, layered_env};
use crate::error::TaskError;
use crate::exports::file_warnings;
use crate::history::{has_hit, is_run, law_commit_tells_a_complete_run, lemma_is_told};
use crate::history::{law_skip_rests_on_a_hit, History};
use crate::outputs::Output;
use crate::run::{expects, fits, step_warnings, Baseline, Mark, RunAction, RunContext, RunEvent};
use crate::run::RunState;
use crate::strmap::texts;
use crate::task_cache::{contract_breach, CachedRun, PathSnapshot};

verus! {

/// Whatever a run does, it does for its own task: it locks, looks up and
/// commits under its name, looks at its inputs and outputs as its cache
/// declares them, from its directory, and runs its command and its status
/// command in its directory, with its environment and its sudo setting.
pub proof fn law_actions_carry_the_task(ctx: RunContext, h: History, i: int)
    requires
        is_run(ctx, h),
        0 <= i < h.events.len(),
    ensures
        match h.actions[i] {
            RunAction::AcquireLock { task_name } => *task_name == ctx.task.task.name,
            RunAction::LookUp { task_name } => *task_name == ctx.task.task.name,
            RunAction::ReadStoredOutput { task_name } => *task_name == ctx.task.task.name,
            RunAction::Commit { task_name, .. } => *task_name == ctx.task.task.name,
            RunAction::SnapshotInputs { declarations, cwd } => ctx.task.task.cache is Some
                && *declarations == ctx.task.task.cache->0.inputs && *cwd == ctx.task.task.cwd,
            RunAction::SnapshotOutputs { declarations, cwd } => ctx.task.task.cache is Some
                && *declarations == ctx.task.task.cache->0.outputs && *cwd == ctx.task.task.cwd,
            RunAction::InspectCwd { cwd } => ctx.task.task.cwd == Some(*cwd),
            RunAction::CheckStatus { command, cwd, env, use_sudo } => {
                &&& ctx.task.task.status == Some(*command)
                &&& *cwd == ctx.task.task.cwd
                &&& use_sudo == (ctx.task.sudo_context is Some)
                &&& texts(env@) == layered_env(*ctx.task, *ctx.outputs, ctx.shell_env@, ctx.shell)
            },
            RunAction::Execute { command, cwd, env, use_sudo } => {
                &&& ctx.task.task.command == Some(*command)
                &&& *cwd == ctx.task.task.cwd
                &&& use_sudo == (ctx.task.sudo_context is Some)
                &&& texts(env@) == layered_env(*ctx.task, *ctx.outputs, ctx.shell_env@, ctx.shell)
            },
            _ => true,
        },
{
    assert(expects(h.states[i], h.events[i]));
}

/// A cached task is skipped only where nothing asked for a fresh run, the entry
/// that was looked up has the hash of the definition of the run, and every
/// declared input and output, optional ones too, is in it with exactly the
/// matches that were found in the run, and none that is required is missing.
pub proof fn law_skipped_task_is_unchanged(
    ctx: RunContext,
    h: History,
    i: int,
    output: Output,
    mark: Mark,
)
    requires
        is_run(ctx, h),
        0 <= i < h.events.len(),
        ctx.task.task.cache is Some,
        h.actions[i] == (RunAction::Finish {
            completed: TaskCompleted::Skipped(Skipped::Cached(output)),
            mark,
        }),
    ensures
        !ctx.refresh_task_cache,
        i >= 5,
        h.events[2] matches RunEvent::Definition(Ok(definition))
            && h.events[4] matches RunEvent::Entry(Ok(Some(entry)))
            && entry.definition_hash@ == definition@,
        h.events[3] matches RunEvent::Snapshot(Ok(inputs))
            && h.events[4] matches RunEvent::Entry(Ok(Some(entry))) && {
            let then = entry.input_snapshot.declarations@;
            let now = inputs.declarations@;
            &&& then.len() == now.len()
            &&& forall|k: int|
                0 <= k < now.len() ==> {
                    &&& then[k].declaration.path@ == (#[trigger] now[k]).declaration.path@
                    &&& then[k].declaration.optional == now[k].declaration.optional
                    &&& then[k].matches@.len() == now[k].matches@.len()
                    &&& now[k].declaration.optional || now[k].matches@.len() > 0
                }
            &&& forall|k: int, m: int|
                0 <= k < now.len() && 0 <= m < now[k].matches@.len() ==> {
                    &&& then[k].matches@[m].path@ == (#[trigger] now[k].matches@[m]).path@
                    &&& then[k].matches@[m].kind@ == now[k].matches@[m].kind@
                    &&& then[k].matches@[m].content_hash@ == now[k].matches@[m].content_hash@
                }
        },
        h.events[5] matches RunEvent::Snapshot(Ok(outputs))
            && h.events[4] matches RunEvent::Entry(Ok(Some(entry))) && {
            let then = entry.output_snapshot.declarations@;
            let now = outputs.declarations@;
            &&& then.len() == now.len()
            &&& forall|k: int|
                0 <= k < now.len() ==> {
                    &&& then[k].declaration.path@ == (#[trigger] now[k]).declaration.path@
                    &&& then[k].declaration.optional == now[k].declaration.optional
                    &&& then[k].matches@.len() == now[k].matches@.len()
                    &&& now[k].declaration.optional || now[k].matches@.len() > 0
                }
            &&& forall|k: int, m: int|
                0 <= k < now.len() && 0 <= m < now[k].matches@.len() ==> {
                    &&& then[k].matches@[m].path@ == (#[trigger] now[k].matches@[m]).path@
                    &&& then[k].matches@[m].kind@ == now[k].matches@[m].kind@
                    &&& then[k].matches@[m].content_hash@ == now[k].matches@[m].content_hash@
                }
        },
        ctx.task.task.status is None ==> (h.events[4] matches RunEvent::Entry(Ok(Some(entry)))
            && output.0 == entry.output),
{
    law_skip_rests_on_a_hit(ctx, h, i, output, mark);
    let (baseline, entry, outputs) = choose|
        baseline: Baseline,
        entry: CachedRun,
        outputs: PathSnapshot,
    | #[trigger]
        has_hit(ctx, h.events, baseline, entry, outputs) && if ctx.task.task.status is None {
            output.0 == entry.output
        } else {
            h.events[i] matches RunEvent::Status(Ok(StatusRun::Succeeded(exports)))
                && output.0 is Some && is_status_output(exports, entry.output, output.0->0)
        };
    lemma_is_told(ctx, h, i);
    assert(expects(h.states[i], h.events[i]));
    law_entries_are_for_equal_inputs(entry, baseline.definition@, baseline.inputs);
    law_untouched_outputs_are_equal(entry, outputs);
    law_required_paths_without_matches_are_missing(baseline.inputs);
    lemma_spelled(entry.input_snapshot, baseline.inputs);
    law_snapshot_views_tell_all(entry.output_snapshot, outputs);
    lemma_spelled(entry.output_snapshot, outputs);
}

proof fn lemma_spelled(a: PathSnapshot, b: PathSnapshot)
    requires
        equal_snapshots(a, b),
    ensures
        ({
            let then = a.declarations@;
            let now = b.declarations@;
            &&& then.len() == now.len()
            &&& forall|k: int|
                0 <= k < now.len() ==> {
                    &&& then[k].declaration.path@ == (#[trigger] now[k]).declaration.path@
                    &&& then[k].declaration.optional == now[k].declaration.optional
                    &&& then[k].matches@.len() == now[k].matches@.len()
                }
            &&& forall|k: int, m: int|
                0 <= k < now.len() && 0 <= m < now[k].matches@.len() ==> {
                    &&& then[k].matches@[m].path@ == (#[trigger] now[k].matches@[m]).path@
                    &&& then[k].matches@[m].kind@ == now[k].matches@[m].kind@
                    &&& then[k].matches@[m].content_hash@ == now[k].matches@[m].content_hash@
                }
        }),
{
    let then = a.declarations@;
    let now = b.declarations@;
    assert forall|k: int| 0 <= k < now.len() implies {
        &&& then[k].declaration.path@ == (#[trigger] now[k]).declaration.path@
        &&& then[k].declaration.optional == now[k].declaration.optional
        &&& then[k].matches@.len() == now[k].matches@.len()
    } by {
        assert(crate::cache_laws::equal_declared(then[k], now[k]));
    }
    assert forall|k: int, m: int| 0 <= k < now.len() && 0 <= m < now[k].matches@.len() implies {
        &&& then[k].matches@[m].path@ == (#[trigger] now[k].matches@[m]).path@
        &&& then[k].matches@[m].kind@ == now[k].matches@[m].kind@
        &&& then[k].matches@[m].content_hash@ == now[k].matches@[m].content_hash@
    } by {
        assert(crate::cache_laws::equal_declared(then[k], now[k]));
        assert(crate::cache_laws::equal_states(then[k].matches@[m], now[k].matches@[m]));
    }
}

/// In every committed entry each declared input and output is optional or was
/// found, and the inputs are exactly those from before the run, match by match.
pub proof fn law_committed_entries_are_complete(
    ctx: RunContext,
    h: History,
    i: int,
    task_name: &String,
    entry: CachedRun,
)
    requires
        is_run(ctx, h),
        0 <= i < h.events.len(),
        h.actions[i] == (RunAction::Commit { task_name, entry }),
    ensures
        forall|k: int|
            0 <= k < entry.input_snapshot.declarations@.len() ==> (
            #[trigger] entry.input_snapshot.declarations@[k]).declaration.optional
                || entry.input_snapshot.declarations@[k].matches@.len() > 0,
        forall|k: int|
            0 <= k < entry.output_snapshot.declarations@.len() ==> (
            #[trigger] entry.output_snapshot.declarations@[k]).declaration.optional
                || entry.output_snapshot.declarations@[k].matches@.len() > 0,
        h.events[2] matches RunEvent::Definition(Ok(definition)) && definition
            == entry.definition_hash,
        h.events[i - 1] == RunEvent::Snapshot(Ok(entry.input_snapshot)),
        h.events[i] == RunEvent::Snapshot(Ok(entry.output_snapshot)),
        h.events[3] matches RunEvent::Snapshot(Ok(before)) && {
            let then = before.declarations@;
            let now = entry.input_snapshot.declarations@;
            &&& then.len() == now.len()
            &&& forall|k: int|
                0 <= k < now.len() ==> {
                    &&& then[k].declaration.path@ == (#[trigger] now[k]).declaration.path@
                    &&& then[k].declaration.optional == now[k].declaration.optional
                    &&& then[k].matches@.len() == now[k].matches@.len()
                }
            &&& forall|k: int, m: int|
                0 <= k < now.len() && 0 <= m < now[k].matches@.len() ==> {
                    &&& then[k].matches@[m].path@ == (#[trigger] now[k].matches@[m]).path@
                    &&& then[k].matches@[m].kind@ == now[k].matches@[m].kind@
                    &&& then[k].matches@[m].content_hash@ == now[k].matches@[m].content_hash@
                }
        },
        h.events[i - 3] matches RunEvent::Executed(Ok(result)) && result.success,
{
    law_commit_tells_a_complete_run(ctx, h, i, entry);
    law_required_paths_without_matches_are_missing(entry.input_snapshot);
    law_required_paths_without_matches_are_missing(entry.output_snapshot);
    if let RunEvent::Snapshot(Ok(before)) = h.events[3] {
        law_snapshot_views_tell_all(before, entry.input_snapshot);
        lemma_spelled(before, entry.input_snapshot);
    }
}

/// It is the turn of the command: a task without one is over; one with a
/// directory has it looked at; any other is executed, or given up where its
/// environment cannot be made.
pub open spec fn is_command_turn(ctx: RunContext, action: RunAction) -> bool {
    if ctx.task.task.command is None {
        action == (RunAction::Finish {
            completed: TaskCompleted::Skipped(Skipped::NoCommand),
            mark: Mark::Skipped,
        })
    } else if ctx.task.task.cwd is Some {
        action is InspectCwd
    } else {
        is_execution(ctx, action)
    }
}

/// The command is executed, or given up where its environment cannot be made.
pub open spec fn is_execution(ctx: RunContext, action: RunAction) -> bool {
    match env_error(*ctx.task, *ctx.outputs) {
        Some(error) => action == RunAction::Abort(TaskError::TaskEnv(error)),
        None => action is Execute,
    }
}

/// It is the turn of the status command.
pub open spec fn is_status_turn(ctx: RunContext, action: RunAction) -> bool {
    if ctx.task.task.cwd is Some {
        action is InspectCwd
    } else {
        is_status_check(ctx, action)
    }
}

/// The status command is run, or given up where its environment cannot be made.
pub open spec fn is_status_check(ctx: RunContext, action: RunAction) -> bool {
    match env_error(*ctx.task, *ctx.outputs) {
        Some(error) => action == RunAction::Abort(TaskError::StatusEnv(error)),
        None => action is CheckStatus,
    }
}

/// How a run starts: with the lock for a cached task, with the last output for
/// one that has only a status command, unless a fresh run was asked for, and
/// with the command for any other.
pub proof fn law_start(ctx: RunContext, h: History)
    requires
        is_run(ctx, h),
        h.events.len() > 0,
    ensures
        h.events[0] is Begin,
        if ctx.task.task.cache is Some {
            h.actions[0] is AcquireLock
        } else if ctx.task.task.status is Some && !ctx.refresh_task_cache {
            h.actions[0] is ReadStoredOutput
        } else {
            is_command_turn(ctx, h.actions[0])
        },
{
    assert(expects(h.states[0], h.events[0]));
}

/// What a run does once it has its lock, and once it has its definition. A
/// refusal of either is the error of the run.
pub proof fn law_lock_and_definition(ctx: RunContext, h: History, i: int)
    requires
        is_run(ctx, h),
        1 <= i < h.events.len(),
    ensures
        h.actions[i - 1] is AcquireLock ==> match h.events[i] {
            RunEvent::Lock(Ok(_)) => h.actions[i] is Define,
            RunEvent::Lock(Err(cause)) => h.actions[i] == RunAction::Abort(
                TaskError::Lock { task: ctx.task.task.name, cause },
            ),
            _ => false,
        },
        h.actions[i - 1] is Define ==> match h.events[i] {
            RunEvent::Definition(Ok(_)) => h.actions[i] is SnapshotInputs,
            RunEvent::Definition(Err(error)) => h.actions[i] == RunAction::Abort(
                TaskError::Reported(error),
            ),
            _ => false,
        },
{
    assert(expects(h.states[i - 1], h.events[i - 1]));
    assert(expects(h.states[i], h.events[i]));
}

/// The cache of a task is looked up exactly where no fresh run was asked for
/// and every required input is there; else it is the turn of the command.
pub proof fn law_lookup_needs_complete_inputs(ctx: RunContext, h: History)
    requires
        is_run(ctx, h),
        h.events.len() > 3,
        ctx.task.task.cache is Some,
    ensures
        match h.events[3] {
            RunEvent::Snapshot(Ok(inputs)) => if !ctx.refresh_task_cache && (forall|k: int|
                0 <= k < inputs.declarations@.len() ==> (
                #[trigger] inputs.declarations@[k]).declaration.optional
                    || inputs.declarations@[k].matches@.len() > 0) {
                h.actions[3] is LookUp
            } else {
                is_command_turn(ctx, h.actions[3])
            },
            RunEvent::Snapshot(Err(error)) => h.actions[3] == RunAction::Abort(
                TaskError::Reported(error),
            ),
            _ => false,
        },
{
    assert(expects(h.states[0], h.events[0]));
    assert(expects(h.states[1], h.events[1]));
    assert(expects(h.states[2], h.events[2]));
    assert(expects(h.states[3], h.events[3]));
    if let RunEvent::Snapshot(Ok(inputs)) = h.events[3] {
        law_required_paths_without_matches_are_missing(inputs);
    }
}

/// An entry is followed up exactly where it has the hash of the definition and
/// the very inputs of the run. Where there is none, or it cannot be read, or
/// anything differs, it is the turn of the command.
pub proof fn law_entry_is_followed_up(ctx: RunContext, h: History)
    requires
        is_run(ctx, h),
        h.events.len() > 4,
        h.actions[3] is LookUp,
    ensures
        h.events[4] is Entry,
        h.events[2] matches RunEvent::Definition(Ok(definition))
            && h.events[3] matches RunEvent::Snapshot(Ok(inputs)) && (
        if h.events[4] matches RunEvent::Entry(Ok(Some(entry))) && entry.definition_hash@
            == definition@ && equal_snapshots(entry.input_snapshot, inputs) {
            h.actions[4] is SnapshotOutputs
        } else {
            is_command_turn(ctx, h.actions[4])
        }),
{
    assert(expects(h.states[3], h.events[3]));
    assert(expects(h.states[4], h.events[4]));
    lemma_is_told(ctx, h, 4);
    if let RunState::AwaitEntry { baseline } = h.states[4] {
        assert(h.events.take(4)[2] == h.events[2] && h.events.take(4)[3] == h.events[3]);
        if let RunEvent::Entry(Ok(Some(entry))) = h.events[4] {
            law_entries_are_for_equal_inputs(entry, baseline.definition@, baseline.inputs);
        }
    }
}

/// A task whose entry was followed up is skipped, or its status command has its
/// turn, exactly where all its outputs are there and are the very ones of the
/// entry. Else it is the turn of the command.
pub proof fn law_outputs_decide_on_the_entry(ctx: RunContext, h: History)
    requires
        is_run(ctx, h),
        h.events.len() > 5,
        h.actions[3] is LookUp,
        h.actions[4] is SnapshotOutputs,
    ensures
        h.events[5] is Snapshot,
        h.events[4] matches RunEvent::Entry(Ok(Some(entry))) && (
        if h.events[5] matches RunEvent::Snapshot(Ok(outputs)) && all_found(outputs)
            && equal_snapshots(outputs, entry.output_snapshot) {
            if ctx.task.task.status is Some {
                is_status_turn(ctx, h.actions[5])
            } else {
                h.actions[5] == (RunAction::Finish {
                    completed: TaskCompleted::Skipped(Skipped::Cached(Output(entry.output))),
                    mark: Mark::Cached,
                })
            }
        } else {
            is_command_turn(ctx, h.actions[5])
        }),
{
    assert(expects(h.states[3], h.events[3]));
    assert(expects(h.states[4], h.events[4]));
    assert(expects(h.states[5], h.events[5]));
    if let RunState::AwaitCachedOutputs { entry, .. } = h.states[5] {
        if let RunEvent::Snapshot(Ok(outputs)) = h.events[5] {
            law_untouched_outputs_are_equal(entry, outputs);
        }
    }
}

/// Whatever the last output of a task with only a status command is, the status
/// command has its turn.
pub proof fn law_stored_output_leads_to_the_status(ctx: RunContext, h: History, i: int)
    requires
        is_run(ctx, h),
        1 <= i < h.events.len(),
        h.actions[i - 1] is ReadStoredOutput,
    ensures
        h.events[i] is StoredOutput,
        is_status_turn(ctx, h.actions[i]),
{
    assert(expects(h.states[i - 1], h.events[i - 1]));
    assert(expects(h.states[i], h.events[i]));
}

/// A directory that is not there, or is none, is the error of the run. Else the
/// command whose turn it is runs: the status command where no status was
/// checked yet and the task may be skipped, and the command of the task in any
/// other case.
pub proof fn law_directory_has_to_be_there(ctx: RunContext, h: History, i: int)
    requires
        is_run(ctx, h),
        1 <= i < h.events.len(),
        h.actions[i - 1] is InspectCwd,
    ensures
        h.events[i] matches RunEvent::Cwd { exists, is_dir } && (if !exists {
            h.actions[i] matches RunAction::Abort(TaskError::CwdMissing { task, cwd }) && task
                == ctx.task.task.name && ctx.task.task.cwd == Some(cwd)
        } else if !is_dir {
            h.actions[i] matches RunAction::Abort(TaskError::CwdNotDirectory { task, cwd })
                && task == ctx.task.task.name && ctx.task.task.cwd == Some(cwd)
        } else {
            ||| h.states[i] is AwaitStatusCwd && is_status_check(ctx, h.actions[i])
            ||| h.states[i] is AwaitCwd && is_execution(ctx, h.actions[i])
        }),
        h.states[i] is AwaitStatusCwd ==> ctx.task.task.status is Some && !ctx.refresh_task_cache,
        h.states[i] is AwaitStatusCwd ==> h.events[i - 1] is StoredOutput || i == 6,
{
    assert(expects(h.states[i - 1], h.events[i - 1]));
    assert(expects(h.states[i], h.events[i]));
    lemma_is_told(ctx, h, i);
    lemma_is_told(ctx, h, i - 1);
}

/// The earlier output that a status command is asked about: that of the entry
/// of a cached task, and the last one of any other, where it could be read.
pub open spec fn is_earlier_output(ctx: RunContext, h: History, output: Option<Value>) -> bool {
    if ctx.task.task.cache is Some {
        h.events[4] matches RunEvent::Entry(Ok(Some(entry))) && output == entry.output
    } else {
        h.events[1] matches RunEvent::StoredOutput(found) && output == match found {
            Ok(stored) => stored,
            Err(_) => None,
        }
    }
}

/// The state of a run that waits for its status command keeps the earlier
/// output.
proof fn lemma_earlier_output(ctx: RunContext, h: History, n: int)
    requires
        is_run(ctx, h),
        0 <= n < h.states.len(),
    ensures
        match h.states[n] {
            RunState::AwaitStatusCwd { cached_output, .. } => is_earlier_output(
                ctx,
                h,
                cached_output,
            ),
            RunState::AwaitStatus { cached_output, .. } => is_earlier_output(
                ctx,
                h,
                cached_output,
            ),
            _ => true,
        },
    decreases n,
{
    lemma_is_told(ctx, h, n);
    if n > 0 {
        assert(expects(h.states[n - 1], h.events[n - 1]));
        lemma_is_told(ctx, h, n - 1);
        lemma_earlier_output(ctx, h, n - 1);
        if let RunState::AwaitCachedOutputs { entry, .. } = h.states[n - 1] {
            assert(h.events.take(n - 1)[4] == h.events[4]);
        }
    }
}

/// What a status command decides: where it succeeds, the task is skipped with
/// its earlier output and what the status command exports; where it fails, it
/// is the turn of the command; where it cannot be started, the task failed.
pub proof fn law_status_decides(ctx: RunContext, h: History, i: int)
    requires
        is_run(ctx, h),
        1 <= i < h.events.len(),
        h.actions[i - 1] is CheckStatus,
    ensures
        match h.events[i] {
            RunEvent::Status(Err(error)) => h.actions[i] == RunAction::Abort(
                TaskError::Reported(error),
            ),
            RunEvent::Status(Ok(StatusRun::Failed)) => is_command_turn(ctx, h.actions[i]),
            RunEvent::Status(Ok(StatusRun::Succeeded(exports))) => {
                h.actions[i] matches RunAction::Finish {
                    completed: TaskCompleted::Skipped(Skipped::Cached(Output(Some(output)))),
                    mark: Mark::Cached,
                } && exists|earlier: Option<Value>| #[trigger]
                    is_earlier_output(ctx, h, earlier) && is_status_output(
                        exports,
                        earlier,
                        output,
                    )
            },
            RunEvent::Status(Ok(StatusRun::NotStarted(error))) => {
                h.actions[i] matches RunAction::Finish {
                    completed: TaskCompleted::Failed(after, failure),
                    mark: Mark::StatusFailed,
                } && after == h.times[i] && failure.stdout@.len() == 0 && failure.stderr@.len()
                    == 0 && failure.error == error
            },
            _ => false,
        },
{
    assert(expects(h.states[i - 1], h.events[i - 1]));
    assert(expects(h.states[i], h.events[i]));
    lemma_earlier_output(ctx, h, i);
}

/// How an executed command ends the run: it was cancelled where it says so, it
/// failed where it did not succeed, with its lines and its error, and else its
/// files are read.
pub proof fn law_execution_decides(ctx: RunContext, h: History, i: int)
    requires
        is_run(ctx, h),
        1 <= i < h.events.len(),
        h.actions[i - 1] is Execute,
    ensures
        match h.events[i] {
            RunEvent::Executed(Err(error)) => h.actions[i] == RunAction::Abort(
                TaskError::Reported(error),
            ),
            RunEvent::Executed(Ok(result)) => if result.error is Some && result.error->0@
                == "Task cancelled"@ {
                h.actions[i] == (RunAction::Finish {
                    completed: TaskCompleted::Cancelled(Some(h.times[i])),
                    mark: Mark::Cancelled,
                })
            } else if result.success {
                h.actions[i] is ReadFiles
            } else {
                h.actions[i] matches RunAction::Finish {
                    completed: TaskCompleted::Failed(after, failure),
                    mark: Mark::Failed,
                } && after == h.times[i] && failure.stdout == result.stdout_lines
                    && failure.stderr == result.stderr_lines && (if result.error is Some {
                    failure.error@ == result.error->0@
                } else {
                    failure.error@ == "Unknown error"@
                })
            },
            _ => false,
        },
{
    assert(expects(h.states[i - 1], h.events[i - 1]));
    assert(expects(h.states[i], h.events[i]));
}

/// What follows a command that succeeded: its output is what it printed and left
/// in its files; a task without a cache is done with it, and of any other the
/// inputs and then the outputs are looked at again.
pub proof fn law_files_are_read_after_success(ctx: RunContext, h: History, i: int)
    requires
        is_run(ctx, h),
        2 <= i < h.events.len(),
        h.actions[i - 1] is ReadFiles,
    ensures
        h.events[i] matches RunEvent::Files { output_data, export_data }
            && h.events[i - 1] matches RunEvent::Executed(Ok(result)) && (
        if ctx.task.task.cache is None {
            h.actions[i] matches RunAction::Finish {
                completed: TaskCompleted::Success(after, output),
                mark: Mark::Succeeded,
            } && after == h.times[i] && is_run_output(
                output_data,
                export_data,
                result.stdout_lines@,
                output.0,
            )
        } else {
            h.actions[i] is SnapshotInputs
        }),
        i + 1 < h.events.len() ==> match h.events[i + 1] {
            RunEvent::Snapshot(Ok(_)) => h.actions[i + 1] is SnapshotOutputs,
            RunEvent::Snapshot(Err(error)) => h.actions[i + 1] == RunAction::Abort(
                TaskError::Reported(error),
            ),
            _ => false,
        },
{
    assert(expects(h.states[i - 1], h.events[i - 1]));
    assert(expects(h.states[i], h.events[i]));
    lemma_is_told(ctx, h, i);
    lemma_is_told(ctx, h, i - 1);
    if i + 1 < h.events.len() {
        assert(expects(h.states[i + 1], h.events[i + 1]));
    }
}

/// A cached task that succeeded is committed, with what was found and with its
/// output, exactly where every required input and output is there and its
/// inputs are the very ones from before. Else it failed, with its lines and
/// with the reason.
pub proof fn law_contract_decides_on_the_commit(ctx: RunContext, h: History, i: int)
    requires
        is_run(ctx, h),
        1 <= i,
        i + 2 < h.events.len(),
        h.actions[i - 1] is ReadFiles,
        ctx.task.task.cache is Some,
    ensures
        h.events[i + 2] is Snapshot,
        h.events[3] matches RunEvent::Snapshot(Ok(before))
            && h.events[i - 1] matches RunEvent::Executed(Ok(result))
            && h.events[i + 1] matches RunEvent::Snapshot(Ok(inputs)) && match h.events[i + 2] {
            RunEvent::Snapshot(Ok(outputs)) => if all_found(inputs) && all_found(outputs)
                && equal_snapshots(before, inputs) {
                &&& h.actions[i + 2] matches RunAction::Commit { entry, .. }
                &&& h.events[2] == RunEvent::Definition(Ok(entry.definition_hash))
                &&& entry.input_snapshot == inputs
                &&& entry.output_snapshot == outputs
                &&& h.events[i] matches RunEvent::Files { output_data, export_data }
                &&& is_run_output(output_data, export_data, result.stdout_lines@, entry.output)
            } else {
                &&& h.actions[i + 2] matches RunAction::Finish {
                    completed: TaskCompleted::Failed(after, failure),
                    mark: Mark::Failed,
                }
                &&& after == h.times[i + 2]
                &&& failure.stdout == result.stdout_lines
                &&& failure.stderr == result.stderr_lines
                &&& contract_breach(before@, inputs@, outputs@) == Some(failure.error@)
            },
            RunEvent::Snapshot(Err(error)) => h.actions[i + 2] == RunAction::Abort(
                TaskError::Reported(error),
            ),
            _ => false,
        },
{
    assert(expects(h.states[i - 1], h.events[i - 1]));
    assert(expects(h.states[i], h.events[i]));
    assert(expects(h.states[i + 1], h.events[i + 1]));
    assert(expects(h.states[i + 2], h.events[i + 2]));
    lemma_is_told(ctx, h, i - 1);
    lemma_is_told(ctx, h, i);
    lemma_is_told(ctx, h, i + 2);
    if let RunState::AwaitOutputsAfter { baseline, inputs_after, .. } = h.states[i + 2] {
        assert(h.events.take(i + 2)[2] == h.events[2] && h.events.take(i + 2)[3] == h.events[3]);
        if let RunEvent::Snapshot(Ok(outputs)) = h.events[i + 2] {
            law_contract_of_a_run(baseline.inputs, inputs_after, outputs);
        }
    }
}

/// Nothing happens in a run after it finished or was given up.
pub proof fn law_ends_are_final(ctx: RunContext, h: History, i: int)
    requires
        is_run(ctx, h),
        0 <= i < h.events.len(),
        h.actions[i] is Finish || h.actions[i] is Abort,
    ensures
        i == h.events.len() - 1,
{
    assert(expects(h.states[i], h.events[i]));
    if i + 1 < h.events.len() {
        assert(expects(h.states[i + 1], h.events[i + 1]));
    }
}

/// Every state of a run is one that a run of the task can be in.
proof fn lemma_fits(ctx: RunContext, h: History, n: int)
    requires
        is_run(ctx, h),
        0 <= n < h.states.len(),
    ensures
        fits(ctx, h.states[n]),
    decreases n,
{
    if n > 0 {
        assert(expects(h.states[n - 1], h.events[n - 1]));
        lemma_fits(ctx, h, n - 1);
    }
}

/// A run waits for the answer to what it asked for last, for any such answer and
/// for nothing else; at first it waits for its begin, and at its end for
/// nothing. No state of it is out of its reach.
pub proof fn law_each_action_is_answered(ctx: RunContext, h: History, event: RunEvent)
    requires
        is_run(ctx, h),
    ensures
        fits(ctx, h.states.last()),
        h.events.len() == 0 ==> (expects(h.states.last(), event) <==> event is Begin),
        h.events.len() > 0 ==> (expects(h.states.last(), event) <==> match h.actions.last() {
            RunAction::AcquireLock { .. } => event is Lock,
            RunAction::Define => event is Definition,
            RunAction::SnapshotInputs { .. } => event is Snapshot,
            RunAction::SnapshotOutputs { .. } => event is Snapshot,
            RunAction::LookUp { .. } => event is Entry,
            RunAction::ReadStoredOutput { .. } => event is StoredOutput,
            RunAction::InspectCwd { .. } => event is Cwd,
            RunAction::CheckStatus { .. } => event is Status,
            RunAction::Execute { .. } => event is Executed,
            RunAction::ReadFiles => event is Files,
            RunAction::Commit { .. } => event is Committed,
            RunAction::Finish { .. } => false,
            RunAction::Abort(_) => false,
        }),
{
    let n = h.events.len() as int;
    lemma_fits(ctx, h, n);
    if n > 0 {
        assert(expects(h.states[n - 1], h.events[n - 1]));
    }
}

/// What a step says: about what a status command that succeeded exports in its
/// file, and about what a command that succeeded exports. No other step says
/// anything.
pub proof fn law_warnings_of_a_step(state: RunState, event: RunEvent)
    ensures
        match (state, event) {
            (
                RunState::AwaitStatus { .. },
                RunEvent::Status(Ok(StatusRun::Succeeded(Some(data)))),
            ) => step_warnings(state, event) == file_warnings(data@),
            (
                RunState::AwaitFiles { stdout, .. },
                RunEvent::Files { output_data, export_data },
            ) => step_warnings(state, event) == run_warnings(output_data, export_data, stdout@),
            _ => step_warnings(state, event) == Seq::<Seq<char>>::empty(),
        },
{
}

} // verus!

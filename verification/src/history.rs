//! What holds of every run, from its beginning to its end.

use serde_json::Value;
use std::time::{Duration, Instant};
use vstd::prelude::*;
use crate::completion::{is_run_output, is_status_output, Skipped, StatusRun, TaskCompleted};
use crate::error::TaskError;
use crate::outputs::Output;
use crate::run::{expects, has_succeeded, steps};
use crate::run::{Baseline, Mark, RunAction, RunContext, RunEvent, RunState};
use crate::task_cache::{is_entry_for, missing, outputs_untouched};
use crate::task_cache::{CachedRun, PathSnapshot};

verus! {

/// A run so far: the states that it was in, what happened in each but the
/// last, when, and what was done about it.
pub struct History<'a> {
    pub states: Seq<RunState>,
    pub events: Seq<RunEvent>,
    pub times: Seq<Duration>,
    pub actions: Seq<RunAction<'a>>,
}

/// A run that began at the beginning and took every step as it must.
pub open spec fn is_run(ctx: RunContext, h: History) -> bool {
    &&& h.states.len() == h.events.len() + 1
    &&& h.times.len() == h.events.len()
    &&& h.actions.len() == h.events.len()
    &&& h.states[0] is Start
    &&& forall|i: int|
        0 <= i < h.events.len() ==> #[trigger] expects(h.states[i], h.events[i]) && steps(
            ctx,
            h.states[i],
            h.events[i],
            h.times[i],
            h.states[i + 1],
            h.actions[i],
        )
}

/// A run of a cached task has its lock, its definition and its inputs, from
/// the first events on.
pub open spec fn starts_from(events: Seq<RunEvent>, baseline: Baseline) -> bool {
    &&& events.len() >= 4
    &&& events[0] is Begin
    &&& events[1] matches RunEvent::Lock(Ok(_))
    &&& events[2] == RunEvent::Definition(Ok(baseline.definition))
    &&& events[3] == RunEvent::Snapshot(Ok(baseline.inputs))
}

/// What a run starts from is what its task asks for.
pub open spec fn is_based(
    ctx: RunContext,
    events: Seq<RunEvent>,
    baseline: Option<Baseline>,
) -> bool {
    match baseline {
        Some(baseline) => ctx.task.task.cache is Some && starts_from(events, baseline),
        None => ctx.task.task.cache is None,
    }
}

/// The cache of the task was looked up and the entry found there holds: it is
/// of the same definition, the inputs are complete and the same, and the
/// outputs are there, unchanged.
pub open spec fn has_hit(
    ctx: RunContext,
    events: Seq<RunEvent>,
    baseline: Baseline,
    entry: CachedRun,
    outputs: PathSnapshot,
) -> bool {
    &&& events.len() >= 6
    &&& starts_from(events, baseline)
    &&& !ctx.refresh_task_cache
    &&& missing(baseline.inputs@).len() == 0
    &&& events[4] == RunEvent::Entry(Ok(Some(entry)))
    &&& is_entry_for(entry, baseline.definition@, baseline.inputs@)
    &&& events[5] == RunEvent::Snapshot(Ok(outputs))
    &&& outputs_untouched(entry, outputs@)
}

/// The status command runs only where nothing asked for a fresh run, and for
/// a cached task only where its entry holds.
pub open spec fn may_check_status(
    ctx: RunContext,
    events: Seq<RunEvent>,
    baseline: Option<Baseline>,
    cached_output: Option<Value>,
) -> bool {
    &&& !ctx.refresh_task_cache
    &&& ctx.task.task.status is Some
    &&& is_based(ctx, events, baseline)
    &&& baseline is Some ==> exists|entry: CachedRun, outputs: PathSnapshot|
        entry.output == cached_output && #[trigger] has_hit(
            ctx,
            events,
            baseline->0,
            entry,
            outputs,
        )
}

/// The command of a cached task has its turn only where a fresh run was asked
/// for, required inputs are missing, or the cache was looked up before.
pub open spec fn may_execute(
    ctx: RunContext,
    events: Seq<RunEvent>,
    baseline: Option<Baseline>,
) -> bool {
    &&& is_based(ctx, events, baseline)
    &&& baseline is Some ==> {
        ||| ctx.refresh_task_cache
        ||| missing(baseline->0.inputs@).len() > 0
        ||| events.len() >= 5 && events[4] is Entry
    }
}

/// The command was executed and succeeded, as the event at `at` tells.
pub open spec fn succeeded_at(
    events: Seq<RunEvent>,
    at: int,
    stdout: Vec<(Instant, String)>,
) -> bool {
    &&& 0 <= at < events.len()
    &&& events[at] matches RunEvent::Executed(Ok(result)) && has_succeeded(result)
        && result.stdout_lines == stdout
}

/// `output` is what the command printed and left in its files, as the events
/// at `at` and after it tell.
pub open spec fn output_at(events: Seq<RunEvent>, at: int, output: Output) -> bool {
    exists|stdout: Vec<(Instant, String)>|
        {
            &&& #[trigger] succeeded_at(events, at, stdout)
            &&& at + 1 < events.len()
            &&& events[at + 1] matches RunEvent::Files { output_data, export_data }
                && is_run_output(output_data, export_data, stdout@, output.0)
        }
}

/// The entry is published.
pub open spec fn commits(action: RunAction, entry: CachedRun) -> bool {
    action matches RunAction::Commit { entry: published, .. } && published == entry
}

/// What a state tells of the events that led to it.
pub open spec fn is_told(ctx: RunContext, h: History, n: int) -> bool {
    let events = h.events.take(n);
    let cached = ctx.task.task.cache is Some;
    match h.states[n] {
        RunState::Start => n == 0,
        RunState::AwaitLock => n == 1 && cached && events[0] is Begin,
        RunState::AwaitDefinition => {
            &&& n == 2
            &&& cached
            &&& events[0] is Begin
            &&& events[1] matches RunEvent::Lock(Ok(_))
        },
        RunState::AwaitInputs { definition } => {
            &&& n == 3
            &&& cached
            &&& events[0] is Begin
            &&& events[1] matches RunEvent::Lock(Ok(_))
            &&& events[2] == RunEvent::Definition(Ok(definition))
        },
        RunState::AwaitEntry { baseline } => {
            &&& n == 4
            &&& cached
            &&& starts_from(events, baseline)
            &&& !ctx.refresh_task_cache
            &&& missing(baseline.inputs@).len() == 0
        },
        RunState::AwaitCachedOutputs { baseline, entry } => {
            &&& n == 5
            &&& cached
            &&& starts_from(events, baseline)
            &&& !ctx.refresh_task_cache
            &&& missing(baseline.inputs@).len() == 0
            &&& events[4] == RunEvent::Entry(Ok(Some(entry)))
            &&& is_entry_for(entry, baseline.definition@, baseline.inputs@)
        },
        RunState::AwaitStoredOutput => {
            &&& n == 1
            &&& !cached
            &&& !ctx.refresh_task_cache
            &&& ctx.task.task.status is Some
        },
        RunState::AwaitStatusCwd { baseline, cached_output } => may_check_status(
            ctx,
            events,
            baseline,
            cached_output,
        ),
        RunState::AwaitStatus { baseline, cached_output } => may_check_status(
            ctx,
            events,
            baseline,
            cached_output,
        ),
        RunState::AwaitCwd { baseline } => may_execute(ctx, events, baseline),
        RunState::AwaitExecution { baseline } => may_execute(ctx, events, baseline),
        RunState::AwaitFiles { baseline, stdout, .. } => {
            is_based(ctx, events, baseline) && succeeded_at(events, n - 1, stdout)
        },
        RunState::AwaitInputsAfter { baseline, output, .. } => {
            &&& is_based(ctx, events, Some(baseline))
            &&& output_at(events, n - 2, output)
        },
        RunState::AwaitOutputsAfter { baseline, inputs_after, output, .. } => {
            &&& is_based(ctx, events, Some(baseline))
            &&& output_at(events, n - 3, output)
            &&& events[n - 1] == RunEvent::Snapshot(Ok(inputs_after))
        },
        RunState::AwaitCommit { output } => {
            &&& n >= 1
            &&& h.actions[n - 1] matches RunAction::Commit { entry, .. }
            &&& entry.output == output.0
        },
        RunState::Done => true,
    }
}

/// More events leave what the earlier ones told.
proof fn lemma_more_events(ctx: RunContext, before: Seq<RunEvent>, events: Seq<RunEvent>)
    requires
        before.len() <= events.len(),
        forall|i: int| 0 <= i < before.len() ==> #[trigger] events[i] == before[i],
    ensures
        forall|baseline: Option<Baseline>|
            is_based(ctx, before, baseline) ==> #[trigger] is_based(ctx, events, baseline),
        forall|baseline: Option<Baseline>, output: Option<Value>|
            may_check_status(ctx, before, baseline, output) ==> #[trigger] may_check_status(
                ctx,
                events,
                baseline,
                output,
            ),
        forall|baseline: Option<Baseline>|
            may_execute(ctx, before, baseline) ==> #[trigger] may_execute(ctx, events, baseline),
        forall|at: int, output: Output|
            output_at(before, at, output) ==> #[trigger] output_at(events, at, output),
{
    assert forall|baseline: Option<Baseline>, output: Option<Value>|
        may_check_status(ctx, before, baseline, output) implies #[trigger] may_check_status(
        ctx,
        events,
        baseline,
        output,
    ) by {
        if baseline is Some {
            let (entry, outputs) = choose|entry: CachedRun, outputs: PathSnapshot|
                entry.output == output && #[trigger] has_hit(
                    ctx,
                    before,
                    baseline->0,
                    entry,
                    outputs,
                );
            assert(has_hit(ctx, events, baseline->0, entry, outputs));
        }
    }
    assert forall|at: int, output: Output| output_at(before, at, output) implies
        #[trigger] output_at(events, at, output) by {
        let stdout = choose|stdout: Vec<(Instant, String)>|
            {
                &&& #[trigger] succeeded_at(before, at, stdout)
                &&& at + 1 < before.len()
                &&& before[at + 1] matches RunEvent::Files { output_data, export_data }
                    && is_run_output(output_data, export_data, stdout@, output.0)
            };
        assert(succeeded_at(events, at, stdout));
        assert(events[at + 1] == before[at + 1]);
    }
}

/// Every state tells of the events that led to it.
pub proof fn lemma_is_told(ctx: RunContext, h: History, n: int)
    requires
        is_run(ctx, h),
        0 <= n < h.states.len(),
    ensures
        is_told(ctx, h, n),
    decreases n,
{
    if n > 0 {
        lemma_is_told(ctx, h, n - 1);
        let before = h.events.take(n - 1);
        let events = h.events.take(n);
        let event = h.events[n - 1];
        assert(events =~= before.push(event));
        assert(expects(h.states[n - 1], event));
        lemma_more_events(ctx, before, events);
        match h.states[n - 1] {
            RunState::AwaitInputs { definition } => {
                if let RunEvent::Snapshot(Ok(inputs)) = event {
                    assert(starts_from(events, Baseline { definition, inputs }));
                }
            },
            RunState::AwaitEntry { baseline } => {
                assert(is_based(ctx, before, Some(baseline)));
                assert(is_based(ctx, events, Some(baseline)));
            },
            RunState::AwaitCachedOutputs { baseline, entry } => {
                assert(is_based(ctx, before, Some(baseline)));
                assert(is_based(ctx, events, Some(baseline)));
                if let RunEvent::Snapshot(Ok(outputs)) = event {
                    if outputs_untouched(entry, outputs@) {
                        assert(has_hit(ctx, events, baseline, entry, outputs));
                    }
                }
            },
            RunState::AwaitStatusCwd { baseline, cached_output } => {
                assert(may_check_status(ctx, events, baseline, cached_output));
            },
            RunState::AwaitStatus { baseline, cached_output } => {
                assert(may_check_status(ctx, events, baseline, cached_output));
                if baseline is Some {
                    let (entry, outputs) = choose|entry: CachedRun, outputs: PathSnapshot|
                        entry.output == cached_output && #[trigger] has_hit(
                            ctx,
                            events,
                            baseline->0,
                            entry,
                            outputs,
                        );
                    assert(has_hit(ctx, events, baseline->0, entry, outputs));
                }
                assert(may_execute(ctx, events, baseline));
            },
            RunState::AwaitCwd { baseline } => {
                assert(may_execute(ctx, events, baseline));
            },
            RunState::AwaitExecution { baseline } => {
                assert(may_execute(ctx, events, baseline));
            },
            RunState::AwaitFiles { baseline, stdout, .. } => {
                assert(is_based(ctx, events, baseline));
                assert(succeeded_at(events, n - 2, stdout));
            },
            _ => {},
        }
    }
}

/// Only a complete successful run is published: its lock was held, its
/// command succeeded, its required inputs and outputs are all there, and its
/// inputs are what they were before it ran. The entry tells exactly that.
pub proof fn law_commit_tells_a_complete_run(
    ctx: RunContext,
    h: History,
    i: int,
    entry: CachedRun,
)
    requires
        is_run(ctx, h),
        0 <= i < h.events.len(),
        commits(h.actions[i], entry),
    ensures
        ctx.task.task.cache is Some,
        i >= 7,
        h.events[1] matches RunEvent::Lock(Ok(_)),
        h.events[2] == RunEvent::Definition(Ok(entry.definition_hash)),
        h.events[3] matches RunEvent::Snapshot(Ok(before)) && before@ == entry.input_snapshot@,
        output_at(h.events, i - 3, Output(entry.output)),
        h.events[i - 1] == RunEvent::Snapshot(Ok(entry.input_snapshot)),
        h.events[i] == RunEvent::Snapshot(Ok(entry.output_snapshot)),
        missing(entry.input_snapshot@).len() == 0,
        missing(entry.output_snapshot@).len() == 0,
{
    lemma_is_told(ctx, h, i);
    assert(expects(h.states[i], h.events[i]));
    let events = h.events.take(i);
    lemma_more_events(ctx, events, h.events);
    if let RunState::AwaitOutputsAfter { baseline, inputs_after, output, .. } = h.states[i] {
        assert(is_based(ctx, events, Some(baseline)));
        assert(output_at(events, i - 3, output));
        let stdout = choose|stdout: Vec<(Instant, String)>|
            #[trigger] succeeded_at(events, i - 3, stdout);
        assert(succeeded_at(events, i - 3, stdout));
        assert(output =~= Output(entry.output));
    }
}

/// A cached task is skipped only where its entry holds: nothing asked for a
/// fresh run, the definition is the same, the inputs are complete and the
/// same, and the outputs are there, unchanged. Its output is then that of the
/// entry; where it has a status command, that command succeeded, and its
/// exports are added.
pub proof fn law_skip_rests_on_a_hit(
    ctx: RunContext,
    h: History,
    i: int,
    output: Output,
    mark: Mark,
)
    requires
        is_run(ctx, h),
        0 <= i < h.events.len(),
        ctx.task.task.cache is Some,
        h.actions[i] == (RunAction::Finish {
            completed: TaskCompleted::Skipped(Skipped::Cached(output)),
            mark,
        }),
    ensures
        exists|baseline: Baseline, entry: CachedRun, outputs: PathSnapshot|
            #[trigger] has_hit(ctx, h.events, baseline, entry, outputs)
                && if ctx.task.task.status is None {
                output.0 == entry.output
            } else {
                h.events[i] matches RunEvent::Status(Ok(StatusRun::Succeeded(exports)))
                    && output.0 is Some && is_status_output(exports, entry.output, output.0->0)
            },
{
    lemma_is_told(ctx, h, i);
    assert(expects(h.states[i], h.events[i]));
    let events = h.events.take(i);
    match h.states[i] {
        RunState::AwaitCachedOutputs { baseline, entry } => {
            if let RunEvent::Snapshot(Ok(outputs)) = h.events[i] {
                assert(has_hit(ctx, h.events, baseline, entry, outputs));
                assert(output.0 == entry.output);
            }
        },
        RunState::AwaitStatus { baseline, cached_output } => {
            let (entry, outputs) = choose|entry: CachedRun, outputs: PathSnapshot|
                entry.output == cached_output && #[trigger] has_hit(
                    ctx,
                    events,
                    baseline->0,
                    entry,
                    outputs,
                );
            assert(has_hit(ctx, h.events, baseline->0, entry, outputs));
        },
        _ => {},
    }
}

/// A run that was asked to be fresh looks nothing up, checks no status and
/// never ends with what an earlier run left.
pub proof fn law_refresh_ignores_the_cache(ctx: RunContext, h: History, i: int)
    requires
        is_run(ctx, h),
        0 <= i < h.events.len(),
        ctx.refresh_task_cache,
    ensures
        !(h.actions[i] is LookUp),
        !(h.actions[i] is ReadStoredOutput),
        !(h.actions[i] is CheckStatus),
        !(h.actions[i] matches RunAction::Finish {
            completed: TaskCompleted::Skipped(Skipped::Cached(_)),
            ..
        }),
{
    lemma_is_told(ctx, h, i);
    assert(expects(h.states[i], h.events[i]));
}

/// The lock of a cached task is held for all that the run does, but for
/// asking for it and for giving up.
pub proof fn law_lock_comes_first(ctx: RunContext, h: History, i: int)
    requires
        is_run(ctx, h),
        0 <= i < h.events.len(),
        ctx.task.task.cache is Some,
        !(h.actions[i] is AcquireLock),
        !(h.actions[i] is Abort),
    ensures
        i >= 1,
        h.events[1] matches RunEvent::Lock(Ok(_)),
{
    lemma_is_told(ctx, h, i);
    assert(expects(h.states[i], h.events[i]));
    lemma_more_events(ctx, h.events.take(i), h.events);
    if let RunState::AwaitCommit { .. } = h.states[i] {
        if let RunAction::Commit { entry, .. } = h.actions[i - 1] {
            law_commit_tells_a_complete_run(ctx, h, i - 1, entry);
        }
    }
}

/// The lock of a task is asked for once, at the start, and for cached tasks
/// alone.
pub proof fn law_lock_is_asked_for_once(ctx: RunContext, h: History, i: int)
    requires
        is_run(ctx, h),
        0 <= i < h.events.len(),
    ensures
        h.actions[i] is AcquireLock <==> i == 0 && ctx.task.task.cache is Some,
        h.events[i] is Lock ==> i == 1,
{
    lemma_is_told(ctx, h, i);
    assert(expects(h.states[i], h.events[i]));
    assert(expects(h.states[0], h.events[0]));
}

/// When the steps of a run were taken: each after the one before it.
pub open spec fn are_moments(h: History, at: Seq<int>) -> bool {
    &&& at.len() == h.events.len()
    &&& forall|i: int, j: int| 0 <= i < j < at.len() ==> #[trigger] at[i] < #[trigger] at[j]
}

/// The run got its lock.
pub open spec fn got_lock(h: History) -> bool {
    h.events.len() >= 2 && (h.events[1] matches RunEvent::Lock(Ok(_)))
}

/// The lock was held by one run at a time: one got it only after the last step
/// of the other.
pub open spec fn held_in_turn(at: Seq<int>, other: Seq<int>) -> bool {
    at.last() < other[1] || other.last() < at[1]
}

/// A step that only a run with the lock takes.
pub open spec fn is_locked_step(h: History, i: int) -> bool {
    0 <= i < h.events.len() && !(h.actions[i] is AcquireLock) && !(h.actions[i] is Abort)
}

/// Where the lock is held by one run at a time, runs of a cached task do not
/// overlap: all that one looks up, executes and commits comes before all that
/// the other does. So the later one looks the entry up after the earlier one
/// committed it.
pub proof fn law_runs_do_not_overlap(
    ctx: RunContext,
    h: History,
    at: Seq<int>,
    other_ctx: RunContext,
    other: History,
    other_at: Seq<int>,
)
    requires
        is_run(ctx, h),
        is_run(other_ctx, other),
        ctx.task.task.cache is Some,
        other_ctx.task.task.cache is Some,
        are_moments(h, at),
        are_moments(other, other_at),
        got_lock(h) && got_lock(other) ==> held_in_turn(at, other_at),
    ensures
        ({
            ||| forall|i: int, j: int| #[trigger]
                is_locked_step(h, i) && #[trigger] is_locked_step(other, j) ==> at[i] < other_at[j]
            ||| forall|i: int, j: int| #[trigger]
                is_locked_step(h, i) && #[trigger] is_locked_step(other, j) ==> other_at[j] < at[i]
        }),
{
    assert forall|i: int| #[trigger] is_locked_step(h, i) implies got_lock(h) && at[1]
        <= at[i] <= at.last() by {
        law_lock_comes_first(ctx, h, i);
    }
    assert forall|j: int| #[trigger] is_locked_step(other, j) implies got_lock(other)
        && other_at[1] <= other_at[j] <= other_at.last() by {
        law_lock_comes_first(other_ctx, other, j);
    }
}

/// A task whose required inputs are missing is never looked up in the cache.
pub proof fn law_missing_inputs_are_no_hit(ctx: RunContext, h: History, i: int)
    requires
        is_run(ctx, h),
        0 <= i < h.events.len(),
        h.actions[i] is LookUp,
    ensures
        i == 3,
        h.events[3] matches RunEvent::Snapshot(Ok(inputs)) && missing(inputs@).len() == 0,
{
    lemma_is_told(ctx, h, i);
    assert(expects(h.states[i], h.events[i]));
}

/// A task succeeds only if its command was executed and succeeded. The output
/// is what the command printed and left in its files.
pub proof fn law_success_rests_on_the_command(
    ctx: RunContext,
    h: History,
    i: int,
    elapsed: Duration,
    output: Output,
    mark: Mark,
)
    requires
        is_run(ctx, h),
        0 <= i < h.events.len(),
        h.actions[i] == (RunAction::Finish {
            completed: TaskCompleted::Success(elapsed, output),
            mark,
        }),
    ensures
        elapsed == h.times[i],
        ctx.task.task.cache is None ==> output_at(h.events, i - 1, output),
        ctx.task.task.cache is Some ==> output_at(h.events, i - 4, output)
            && h.actions[i - 1] is Commit,
{
    lemma_is_told(ctx, h, i);
    assert(expects(h.states[i], h.events[i]));
    let events = h.events.take(i);
    match h.states[i] {
        RunState::AwaitFiles { stdout, .. } => {
            assert(succeeded_at(h.events, i - 1, stdout));
        },
        RunState::AwaitCommit { output: kept } => {
            if let RunAction::Commit { entry, .. } = h.actions[i - 1] {
                law_commit_tells_a_complete_run(ctx, h, i - 1, entry);
                assert(output =~= Output(entry.output));
            }
        },
        _ => {},
    }
}

/// Whether its entry could be committed or not, a task that got that far
/// succeeds.
pub proof fn law_commit_decides_nothing(ctx: RunContext, h: History, i: int, entry: CachedRun)
    requires
        is_run(ctx, h),
        0 <= i < h.events.len() - 1,
        commits(h.actions[i], entry),
    ensures
        h.actions[i + 1] == (RunAction::Finish {
            completed: TaskCompleted::Success(h.times[i + 1], Output(entry.output)),
            mark: Mark::Succeeded,
        }),
{
    assert(expects(h.states[i], h.events[i]));
    assert(expects(h.states[i + 1], h.events[i + 1]));
    if let RunState::AwaitCommit { output } = h.states[i + 1] {
        assert(output =~= Output(entry.output));
    }
}

/// How many steps a state is from the end, at most.
pub open spec fn remaining(state: RunState) -> nat {
    match state {
        RunState::Start => 14,
        RunState::AwaitLock => 13,
        RunState::AwaitDefinition => 12,
        RunState::AwaitInputs { .. } => 11,
        RunState::AwaitEntry { .. } => 10,
        RunState::AwaitCachedOutputs { .. } => 9,
        RunState::AwaitStoredOutput => 9,
        RunState::AwaitStatusCwd { .. } => 8,
        RunState::AwaitStatus { .. } => 7,
        RunState::AwaitCwd { .. } => 6,
        RunState::AwaitExecution { .. } => 5,
        RunState::AwaitFiles { .. } => 4,
        RunState::AwaitInputsAfter { .. } => 3,
        RunState::AwaitOutputsAfter { .. } => 2,
        RunState::AwaitCommit { .. } => 1,
        RunState::Done => 0,
    }
}

proof fn lemma_remaining_falls(ctx: RunContext, h: History, i: int, j: int)
    requires
        is_run(ctx, h),
        0 <= i <= j < h.states.len(),
    ensures
        remaining(h.states[j]) + (j - i) <= remaining(h.states[i]),
    decreases j - i,
{
    if i < j {
        lemma_remaining_falls(ctx, h, i, j - 1);
        assert(expects(h.states[j - 1], h.events[j - 1]));
    }
}

/// Every run ends, after no more than so many steps.
pub proof fn law_runs_end(ctx: RunContext, h: History)
    requires
        is_run(ctx, h),
    ensures
        h.events.len() <= 14,
{
    lemma_remaining_falls(ctx, h, 0, h.states.len() - 1);
}

/// The command is executed at most once in a run.
pub proof fn law_command_runs_once(ctx: RunContext, h: History, i: int, j: int)
    requires
        is_run(ctx, h),
        0 <= i < h.events.len(),
        0 <= j < h.events.len(),
        h.actions[i] is Execute,
        h.actions[j] is Execute,
    ensures
        i == j,
{
    assert(expects(h.states[i], h.events[i]));
    assert(expects(h.states[j], h.events[j]));
    if i < j {
        lemma_remaining_falls(ctx, h, i + 1, j + 1);
    } else if j < i {
        lemma_remaining_falls(ctx, h, j + 1, i + 1);
    }
}

/// A run that ends in any other way than in success publishes nothing.
pub proof fn law_other_ends_publish_nothing(ctx: RunContext, h: History, i: int, j: int)
    requires
        is_run(ctx, h),
        0 <= i < h.events.len(),
        0 <= j < h.events.len(),
        match h.actions[i] {
            RunAction::Finish { completed, .. } => !(completed is Success),
            RunAction::Abort(_) => true,
            _ => false,
        },
    ensures
        !(h.actions[j] is Commit),
{
    assert(expects(h.states[i], h.events[i]));
    assert(expects(h.states[j], h.events[j]));
    if h.actions[j] is Commit {
        if i < j {
            lemma_remaining_falls(ctx, h, i + 1, j + 1);
        } else if j < i {
            lemma_remaining_falls(ctx, h, j + 1, i);
            assert(expects(h.states[j + 1], h.events[j + 1]));
        }
    }
}

/// A task without a command executes nothing.
pub proof fn law_no_command_no_execution(ctx: RunContext, h: History, i: int)
    requires
        is_run(ctx, h),
        0 <= i < h.events.len(),
        ctx.task.task.command is None,
    ensures
        !(h.actions[i] is Execute),
        !(h.actions[i] is Commit),
        !(h.actions[i] matches RunAction::Finish { completed: TaskCompleted::Success(..), .. }),
{
    lemma_no_execution(ctx, h, i);
    assert(expects(h.states[i], h.events[i]));
}

proof fn lemma_no_execution(ctx: RunContext, h: History, n: int)
    requires
        is_run(ctx, h),
        0 <= n < h.states.len(),
        ctx.task.task.command is None,
    ensures
        remaining(h.states[n]) > 6 || h.states[n] is Done,
    decreases n,
{
    if n > 0 {
        lemma_no_execution(ctx, h, n - 1);
        assert(expects(h.states[n - 1], h.events[n - 1]));
    }
}

/// A task that ran and whose definition, inputs and outputs are still what
/// its entry tells is not run again: the next run ends at once, with the same
/// output.
pub proof fn law_unchanged_task_is_skipped(
    first: RunContext,
    h: History,
    i: int,
    entry: CachedRun,
    ctx: RunContext,
    next: History,
    definition: String,
    inputs: PathSnapshot,
    outputs: PathSnapshot,
)
    requires
        is_run(first, h),
        0 <= i < h.events.len(),
        commits(h.actions[i], entry),
        is_run(ctx, next),
        ctx.task.task.cache is Some,
        ctx.task.task.status is None,
        !ctx.refresh_task_cache,
        next.events.len() >= 6,
        next.events[1] matches RunEvent::Lock(Ok(_)),
        next.events[2] == RunEvent::Definition(Ok(definition)),
        next.events[3] == RunEvent::Snapshot(Ok(inputs)),
        next.events[4] == RunEvent::Entry(Ok(Some(entry))),
        next.events[5] == RunEvent::Snapshot(Ok(outputs)),
        definition@ == entry.definition_hash@,
        inputs@ == entry.input_snapshot@,
        outputs@ == entry.output_snapshot@,
    ensures
        next.events.len() == 6,
        next.actions[5] == (RunAction::Finish {
            completed: TaskCompleted::Skipped(Skipped::Cached(Output(entry.output))),
            mark: Mark::Cached,
        }),
{
    law_commit_tells_a_complete_run(first, h, i, entry);
    assert(expects(next.states[0], next.events[0]));
    assert(expects(next.states[1], next.events[1]));
    assert(expects(next.states[2], next.events[2]));
    assert(expects(next.states[3], next.events[3]));
    assert(expects(next.states[4], next.events[4]));
    assert(expects(next.states[5], next.events[5]));
    if next.events.len() > 6 {
        assert(expects(next.states[6], next.events[6]));
    }
}

/// A cached task is executed only under its lock, and only after its entry was
/// looked up under that lock, unless a fresh run was asked for or required
/// inputs are missing. So a run that waited for the lock sees what the run
/// before it committed before it can execute.
pub proof fn law_execution_follows_a_lookup(ctx: RunContext, h: History, i: int)
    requires
        is_run(ctx, h),
        0 <= i < h.events.len(),
        ctx.task.task.cache is Some,
        h.actions[i] is Execute,
    ensures
        i >= 3,
        h.events[1] matches RunEvent::Lock(Ok(_)),
        h.events[3] matches RunEvent::Snapshot(Ok(inputs)) && {
            ||| ctx.refresh_task_cache
            ||| missing(inputs@).len() > 0
            ||| i >= 4 && h.events[4] is Entry && h.actions[3] is LookUp
        },
{
    lemma_is_told(ctx, h, i + 1);
    assert(expects(h.states[i], h.events[i]));
    lemma_more_events(ctx, h.events.take(i + 1), h.events);
    if i >= 4 {
        assert(expects(h.states[3], h.events[3]));
        assert(expects(h.states[4], h.events[4]));
        lemma_is_told(ctx, h, 4);
    }
}

/// The status command of a cached task runs only where its entry holds.
pub proof fn law_status_follows_a_hit(ctx: RunContext, h: History, i: int)
    requires
        is_run(ctx, h),
        0 <= i < h.events.len(),
        ctx.task.task.cache is Some,
        h.actions[i] is CheckStatus,
    ensures
        exists|baseline: Baseline, entry: CachedRun, outputs: PathSnapshot| #[trigger]
            has_hit(ctx, h.events, baseline, entry, outputs),
{
    lemma_is_told(ctx, h, i + 1);
    assert(expects(h.states[i], h.events[i]));
    let events = h.events.take(i + 1);
    if let RunState::AwaitStatus { baseline, cached_output } = h.states[i + 1] {
        let (entry, outputs) = choose|entry: CachedRun, outputs: PathSnapshot|
            entry.output == cached_output && #[trigger] has_hit(
                ctx,
                events,
                baseline->0,
                entry,
                outputs,
            );
        assert(has_hit(ctx, h.events, baseline->0, entry, outputs));
    }
}

/// A cached task without a status command whose entry holds is not executed:
/// its run ends with the output of the entry.
pub proof fn law_hit_ends_the_run(
    ctx: RunContext,
    h: History,
    baseline: Baseline,
    entry: CachedRun,
    outputs: PathSnapshot,
)
    requires
        is_run(ctx, h),
        ctx.task.task.cache is Some,
        ctx.task.task.status is None,
        has_hit(ctx, h.events, baseline, entry, outputs),
    ensures
        h.events.len() == 6,
        h.actions[5] == (RunAction::Finish {
            completed: TaskCompleted::Skipped(Skipped::Cached(Output(entry.output))),
            mark: Mark::Cached,
        }),
{
    assert(expects(h.states[0], h.events[0]));
    assert(expects(h.states[1], h.events[1]));
    assert(expects(h.states[2], h.events[2]));
    assert(expects(h.states[3], h.events[3]));
    assert(expects(h.states[4], h.events[4]));
    assert(expects(h.states[5], h.events[5]));
    if h.events.len() > 6 {
        assert(expects(h.states[6], h.events[6]));
    }
}

/// A run whose lock was refused ends with that error and does nothing else.
pub proof fn law_refused_lock_ends_the_run(ctx: RunContext, h: History, cause: String)
    requires
        is_run(ctx, h),
        h.events.len() >= 2,
        h.events[1] == RunEvent::Lock(Err(cause)),
    ensures
        h.events.len() == 2,
        h.actions[0] == (RunAction::AcquireLock { task_name: &ctx.task.task.name }),
        h.actions[1] == RunAction::Abort(TaskError::Lock { task: ctx.task.task.name, cause }),
{
    assert(expects(h.states[0], h.events[0]));
    assert(expects(h.states[1], h.events[1]));
    if h.events.len() > 2 {
        assert(expects(h.states[2], h.events[2]));
    }
}

} // verus!

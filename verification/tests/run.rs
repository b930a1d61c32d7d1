use devenv_tasks::{
    CachePath, CachedRun, DeclaredPathSnapshot, ExecutionResult, Mark, Outputs, PathSnapshot,
    PathState, RunAction, RunContext, RunEvent, RunState, Shell, Skipped, StatusRun, StrMap,
    TaskCacheConfig, TaskCompleted, TaskConfig, TaskError, TaskState, VerbosityLevel,
};
use serde_json::Value;
use std::time::{Duration, Instant};

fn paths(hash: &str) -> PathSnapshot {
    let matches = if hash.is_empty() {
        Vec::new()
    } else {
        vec![PathState {
            path: "/p".to_string(),
            kind: "file".to_string(),
            content_hash: hash.to_string(),
        }]
    };
    PathSnapshot {
        declarations: vec![DeclaredPathSnapshot {
            declaration: CachePath { path: "p".to_string(), optional: false },
            matches,
        }],
    }
}

fn config(command: bool, cached: bool, status: bool) -> TaskConfig {
    TaskConfig {
        name: "my:task".to_string(),
        command: command.then_some("run".to_string()),
        status: status.then_some("check".to_string()),
        cache: cached.then_some(TaskCacheConfig {
            inputs: vec![CachePath { path: "in".to_string(), optional: false }],
            outputs: vec![CachePath { path: "out".to_string(), optional: false }],
            env: Vec::new(),
        }),
        ..Default::default()
    }
}

fn result(success: bool, error: Option<&str>) -> RunEvent {
    RunEvent::Executed(Ok(ExecutionResult {
        success,
        stdout_lines: vec![(Instant::now(), "out".to_string())],
        stderr_lines: vec![(Instant::now(), "err".to_string())],
        error: error.map(str::to_string),
    }))
}

fn files(output: &str) -> RunEvent {
    RunEvent::Files { output_data: Some(output.as_bytes().to_vec()), export_data: None }
}

fn found(hash: &str) -> RunEvent {
    RunEvent::Snapshot(Ok(paths(hash)))
}

fn entry(definition: &str, inputs: &str, outputs: &str, output: &str) -> RunEvent {
    RunEvent::Entry(Ok(Some(CachedRun {
        definition_hash: definition.to_string(),
        input_snapshot: paths(inputs),
        output_snapshot: paths(outputs),
        output: Some(json_of(output)),
    })))
}

fn json_of(text: &str) -> Value {
    serde_json::from_str(text).unwrap()
}

/// What a run comes to in the end.
#[derive(Debug)]
enum Last {
    Run(StrMap<String>),
    Commit(CachedRun),
    Finish(TaskCompleted, Mark),
    Abort(TaskError),
    Other,
}

/// What a run did: the names of its actions, its warnings, and how it came out.
struct Played {
    names: Vec<&'static str>,
    warnings: Vec<String>,
    last: Last,
}

fn play_all(config: TaskConfig, refresh: bool, events: Vec<RunEvent>) -> Played {
    let task = TaskState::new(config, VerbosityLevel::Normal, None);
    let outputs = Outputs(StrMap::new());
    let shell_env = StrMap::new();
    let ctx = RunContext {
        task: &task,
        outputs: &outputs,
        shell_env: &shell_env,
        shell: Shell::Unix,
        refresh_task_cache: refresh,
    };
    let mut names = Vec::new();
    let mut warnings = Vec::new();
    let mut state = RunState::Start;
    let mut last = Last::Other;
    for event in events {
        assert!(ctx.awaits(&state, &event));
        let step = ctx.step(state, event, Duration::from_secs(5));
        warnings.extend(step.warnings);
        state = step.state;
        let (name, now) = match step.action {
            RunAction::AcquireLock { task_name } => {
                assert_eq!(task_name, "my:task");
                ("lock", Last::Other)
            }
            RunAction::Define => ("define", Last::Other),
            RunAction::SnapshotInputs { declarations, .. } => {
                assert_eq!(declarations[0].path, "in");
                ("inputs", Last::Other)
            }
            RunAction::SnapshotOutputs { declarations, .. } => {
                assert_eq!(declarations[0].path, "out");
                ("outputs", Last::Other)
            }
            RunAction::LookUp { task_name } => {
                assert_eq!(task_name, "my:task");
                ("look up", Last::Other)
            }
            RunAction::ReadStoredOutput { task_name } => {
                assert_eq!(task_name, "my:task");
                ("stored", Last::Other)
            }
            RunAction::InspectCwd { cwd } => {
                assert_eq!(cwd, "/work");
                ("cwd", Last::Other)
            }
            RunAction::CheckStatus { command, env, use_sudo, .. } => {
                assert_eq!(command, "check");
                assert!(!use_sudo);
                ("status", Last::Run(env))
            }
            RunAction::Execute { command, env, use_sudo, .. } => {
                assert_eq!(command, "run");
                assert!(!use_sudo);
                ("execute", Last::Run(env))
            }
            RunAction::ReadFiles => ("files", Last::Other),
            RunAction::Commit { task_name, entry } => {
                assert_eq!(task_name, "my:task");
                ("commit", Last::Commit(entry))
            }
            RunAction::Finish { completed, mark } => ("finish", Last::Finish(completed, mark)),
            RunAction::Abort(error) => ("abort", Last::Abort(error)),
        };
        names.push(name);
        last = now;
    }
    Played { names, warnings, last }
}

fn play(config: TaskConfig, refresh: bool, events: Vec<RunEvent>) -> (Vec<&'static str>, Last) {
    let played = play_all(config, refresh, events);
    (played.names, played.last)
}

fn locked() -> RunEvent {
    RunEvent::Lock(Ok(()))
}

fn defined() -> RunEvent {
    RunEvent::Definition(Ok("d".to_string()))
}

#[test]
fn plain_task_runs_its_command() {
    let (names, last) = play(
        config(true, false, false),
        false,
        vec![RunEvent::Begin, result(true, None), files(r#"{"a":1}"#)],
    );
    assert_eq!(names, vec!["execute", "files", "finish"]);
    match last {
        Last::Finish(TaskCompleted::Success(after, output), mark) => {
            assert_eq!(after, Duration::from_secs(5));
            assert_eq!(output.0, Some(json_of(r#"{"a":1}"#)));
            assert_eq!(mark, Mark::Succeeded);
        }
        other => panic!("{other:?}"),
    }
}

#[test]
fn task_without_command_is_skipped() {
    let (names, last) = play(config(false, false, false), false, vec![RunEvent::Begin]);
    assert_eq!(names, vec!["finish"]);
    assert!(matches!(
        last,
        Last::Finish(TaskCompleted::Skipped(Skipped::NoCommand), Mark::Skipped)
    ));
}

#[test]
fn failures_and_cancellations_are_told_apart() {
    let (_, last) = play(
        config(true, false, false),
        false,
        vec![RunEvent::Begin, result(false, None)],
    );
    match last {
        Last::Finish(TaskCompleted::Failed(_, failure), mark) => {
            assert_eq!(failure.error, "Unknown error");
            assert_eq!(failure.stdout[0].1, "out");
            assert_eq!(failure.stderr[0].1, "err");
            assert_eq!(mark, Mark::Failed);
        }
        other => panic!("{other:?}"),
    }
    let (_, last) = play(
        config(true, false, false),
        false,
        vec![RunEvent::Begin, result(false, Some("exit code 2"))],
    );
    match last {
        Last::Finish(TaskCompleted::Failed(_, failure), _) => {
            assert_eq!(failure.error, "exit code 2");
        }
        other => panic!("{other:?}"),
    }
    let (_, last) = play(
        config(true, false, false),
        false,
        vec![RunEvent::Begin, result(false, Some("Task cancelled"))],
    );
    match last {
        Last::Finish(TaskCompleted::Cancelled(after), mark) => {
            assert_eq!(after, Some(Duration::from_secs(5)));
            assert_eq!(mark, Mark::Cancelled);
        }
        other => panic!("{other:?}"),
    }
}

#[test]
fn cached_task_commits_a_complete_run() {
    let (names, last) = play(
        config(true, true, false),
        false,
        vec![
            RunEvent::Begin,
            locked(),
            defined(),
            found("1"),
            RunEvent::Entry(Ok(None)),
            result(true, None),
            files(r#"{"a":1}"#),
            found("1"),
            found("2"),
        ],
    );
    assert_eq!(
        names,
        vec!["lock", "define", "inputs", "look up", "execute", "files", "inputs", "outputs", "commit"]
    );
    match last {
        Last::Commit(entry) => {
            assert_eq!(entry.definition_hash, "d");
            assert_eq!(entry.input_snapshot, paths("1"));
            assert_eq!(entry.output_snapshot, paths("2"));
            assert_eq!(entry.output, Some(json_of(r#"{"a":1}"#)));
        }
        other => panic!("{other:?}"),
    }
}

#[test]
fn commit_that_fails_leaves_the_task_successful() {
    for committed in [Ok(()), Err("disk full".to_string())] {
        let (_, last) = play(
            config(true, true, false),
            true,
            vec![
                RunEvent::Begin,
                locked(),
                defined(),
                found("1"),
                result(true, None),
                files("7"),
                found("1"),
                found("2"),
                RunEvent::Committed(committed),
            ],
        );
        match last {
            Last::Finish(TaskCompleted::Success(_, output), mark) => {
                assert_eq!(output.0, Some(json_of("7")));
                assert_eq!(mark, Mark::Succeeded);
            }
            other => panic!("{other:?}"),
        }
    }
}

fn hit() -> Vec<RunEvent> {
    vec![
        RunEvent::Begin,
        locked(),
        defined(),
        found("1"),
        entry("d", "1", "2", r#"{"kept":true}"#),
        found("2"),
    ]
}

#[test]
fn unchanged_task_is_not_run_again() {
    let (names, last) = play(config(true, true, false), false, hit());
    assert_eq!(names, vec!["lock", "define", "inputs", "look up", "outputs", "finish"]);
    match last {
        Last::Finish(TaskCompleted::Skipped(Skipped::Cached(output)), mark) => {
            assert_eq!(output.0, Some(json_of(r#"{"kept":true}"#)));
            assert_eq!(mark, Mark::Cached);
        }
        other => panic!("{other:?}"),
    }
}

#[test]
fn status_command_has_the_last_word_on_a_hit() {
    let mut events = hit();
    events.push(RunEvent::Status(Ok(StatusRun::Succeeded(Some(b"A\0MQ==\0".to_vec())))));
    let (names, last) = play(config(true, true, true), false, events);
    assert_eq!(names[5..], ["status", "finish"]);
    match last {
        Last::Finish(TaskCompleted::Skipped(Skipped::Cached(output)), mark) => {
            assert_eq!(output.0, Some(json_of(r#"{"kept":true,"devenv":{"env":{"A":"1"}}}"#)));
            assert_eq!(mark, Mark::Cached);
        }
        other => panic!("{other:?}"),
    }
    let mut events = hit();
    events.push(RunEvent::Status(Ok(StatusRun::Failed)));
    let (names, _) = play(config(true, true, true), false, events);
    assert_eq!(names[5..], ["status", "execute"]);
}

#[test]
fn anything_changed_runs_the_task() {
    let first = || vec![RunEvent::Begin, locked(), defined(), found("1")];
    for looked_up in [
        RunEvent::Entry(Ok(None)),
        RunEvent::Entry(Err("locked".to_string())),
        entry("other", "1", "2", "{}"),
        entry("d", "changed", "2", "{}"),
    ] {
        let mut events = first();
        events.push(looked_up);
        let (names, _) = play(config(true, true, false), false, events);
        assert_eq!(names, vec!["lock", "define", "inputs", "look up", "execute"]);
    }
    for outputs in [found("changed"), found(""), RunEvent::Snapshot(Err("denied".to_string()))] {
        let mut events = first();
        events.push(entry("d", "1", "2", "{}"));
        events.push(outputs);
        let (names, _) = play(config(true, true, false), false, events);
        assert_eq!(names, vec!["lock", "define", "inputs", "look up", "outputs", "execute"]);
    }
}

#[test]
fn missing_inputs_and_refresh_look_nothing_up() {
    let (names, _) = play(
        config(true, true, true),
        false,
        vec![RunEvent::Begin, locked(), defined(), found("")],
    );
    assert_eq!(names, vec!["lock", "define", "inputs", "execute"]);
    let (names, _) = play(
        config(true, true, true),
        true,
        vec![RunEvent::Begin, locked(), defined(), found("1")],
    );
    assert_eq!(names, vec!["lock", "define", "inputs", "execute"]);
    let (names, _) = play(config(true, false, true), true, vec![RunEvent::Begin]);
    assert_eq!(names, vec!["execute"]);
}

#[test]
fn run_that_breaks_its_contract_fails() {
    for (inputs, outputs, error) in [
        ("", "2", "required cache inputs are missing after task success: p"),
        ("1", "", "required cache outputs are missing after task success: p"),
        ("9", "2", "cache inputs changed while the task was running"),
    ] {
        let (names, last) = play(
            config(true, true, false),
            true,
            vec![
                RunEvent::Begin,
                locked(),
                defined(),
                found("1"),
                result(true, None),
                files("{}"),
                found(inputs),
                found(outputs),
            ],
        );
        assert_eq!(names.last(), Some(&"finish"));
        match last {
            Last::Finish(TaskCompleted::Failed(_, failure), mark) => {
                assert_eq!(failure.error, error);
                assert_eq!(failure.stdout[0].1, "out");
                assert_eq!(mark, Mark::Failed);
            }
            other => panic!("{other:?}"),
        }
    }
}

#[test]
fn status_task_starts_from_its_last_output() {
    for (stored, expected) in [
        (Ok(Some(json_of(r#"{"last":1}"#))), r#"{"last":1}"#),
        (Ok(None), "{}"),
        (Err("denied".to_string()), "{}"),
    ] {
        let (names, last) = play(
            config(true, false, true),
            false,
            vec![
                RunEvent::Begin,
                RunEvent::StoredOutput(stored),
                RunEvent::Status(Ok(StatusRun::Succeeded(None))),
            ],
        );
        assert_eq!(names, vec!["stored", "status", "finish"]);
        match last {
            Last::Finish(TaskCompleted::Skipped(Skipped::Cached(output)), _) => {
                assert_eq!(output.0, Some(json_of(expected)));
            }
            other => panic!("{other:?}"),
        }
    }
}

#[test]
fn status_that_cannot_start_fails_the_task() {
    let (_, last) = play(
        config(true, false, true),
        false,
        vec![
            RunEvent::Begin,
            RunEvent::StoredOutput(Ok(None)),
            RunEvent::Status(Ok(StatusRun::NotStarted("no such file".to_string()))),
        ],
    );
    match last {
        Last::Finish(TaskCompleted::Failed(_, failure), mark) => {
            assert_eq!(failure.error, "no such file");
            assert_eq!(mark, Mark::StatusFailed);
        }
        other => panic!("{other:?}"),
    }
}

fn abort_message(config: TaskConfig, events: Vec<RunEvent>) -> (String, Option<String>) {
    match play(config, false, events).1 {
        Last::Abort(error) => (error.message(), error.cause()),
        other => panic!("{other:?}"),
    }
}

#[test]
fn runs_are_given_up_with_a_reason() {
    let refused = "failed to lock x: busy".to_string();
    assert_eq!(
        abort_message(
            config(true, true, false),
            vec![RunEvent::Begin, RunEvent::Lock(Err(refused.clone()))]
        ),
        ("Failed to acquire cache lock for task 'my:task'".to_string(), Some(refused))
    );
    let oops = || "oops".to_string();
    for events in [
        vec![RunEvent::Begin, locked(), RunEvent::Definition(Err(oops()))],
        vec![RunEvent::Begin, locked(), defined(), RunEvent::Snapshot(Err(oops()))],
        vec![
            RunEvent::Begin,
            locked(),
            defined(),
            found(""),
            result(true, None),
            files("{}"),
            RunEvent::Snapshot(Err(oops())),
        ],
        vec![
            RunEvent::Begin,
            locked(),
            defined(),
            found(""),
            result(true, None),
            files("{}"),
            found("1"),
            RunEvent::Snapshot(Err(oops())),
        ],
        vec![RunEvent::Begin, locked(), defined(), found(""), RunEvent::Executed(Err(oops()))],
    ] {
        assert_eq!(abort_message(config(true, true, false), events), (oops(), None));
    }
    assert_eq!(
        abort_message(
            config(true, false, true),
            vec![
                RunEvent::Begin,
                RunEvent::StoredOutput(Ok(None)),
                RunEvent::Status(Err(oops()))
            ]
        ),
        (oops(), None)
    );
}

#[test]
fn directory_is_inspected_before_each_command() {
    let with_cwd = |status: bool| TaskConfig {
        cwd: Some("/work".to_string()),
        ..config(true, false, status)
    };
    let (names, _) = play(
        with_cwd(true),
        false,
        vec![
            RunEvent::Begin,
            RunEvent::StoredOutput(Ok(None)),
            RunEvent::Cwd { exists: true, is_dir: true },
            RunEvent::Status(Ok(StatusRun::Failed)),
            RunEvent::Cwd { exists: true, is_dir: true },
        ],
    );
    assert_eq!(names, vec!["stored", "cwd", "status", "cwd", "execute"]);
    assert_eq!(
        abort_message(
            with_cwd(false),
            vec![RunEvent::Begin, RunEvent::Cwd { exists: false, is_dir: false }]
        )
        .0,
        "Working directory for task 'my:task' does not exist: /work"
    );
    assert_eq!(
        abort_message(
            with_cwd(true),
            vec![
                RunEvent::Begin,
                RunEvent::StoredOutput(Ok(None)),
                RunEvent::Cwd { exists: true, is_dir: false }
            ]
        )
        .0,
        "Working directory for task 'my:task' is not a directory: /work"
    );
}

#[test]
fn commands_get_the_environment_of_the_task() {
    let mut with_env = config(true, false, false);
    with_env.env = StrMap::new().insert("A".to_string(), "task".to_string());
    match play(with_env, false, vec![RunEvent::Begin]).1 {
        Last::Run(env) => {
            assert_eq!(env.get("A").map(String::as_str), Some("task"));
            assert_eq!(env.get("DEVENV_TASKS_OUTPUTS").map(String::as_str), Some("{}"));
        }
        other => panic!("{other:?}"),
    }
}

#[test]
fn warnings_are_handed_on() {
    let played = play_all(
        config(true, false, false),
        false,
        vec![
            RunEvent::Begin,
            result(true, None),
            RunEvent::Files {
                output_data: Some(b"7".to_vec()),
                export_data: Some(b"A\0MQ==\0B\0!\0".to_vec()),
            },
        ],
    );
    assert_eq!(played.warnings.len(), 2);
    assert!(played.warnings[0].starts_with("Skipping B with invalid base64: "));
    assert_eq!(played.warnings[1], "Task output is not a JSON object, 1 export(s) dropped");
    let played = play_all(
        config(true, false, true),
        false,
        vec![
            RunEvent::Begin,
            RunEvent::StoredOutput(Ok(None)),
            RunEvent::Status(Ok(StatusRun::Succeeded(Some(b"B\0!\0".to_vec())))),
        ],
    );
    assert_eq!(played.warnings.len(), 1);
}

#[test]
fn events_have_to_be_awaited() {
    let task = TaskState::new(config(true, false, false), VerbosityLevel::Normal, None);
    let outputs = Outputs(StrMap::new());
    let shell_env = StrMap::new();
    let ctx = RunContext {
        task: &task,
        outputs: &outputs,
        shell_env: &shell_env,
        shell: Shell::Unix,
        refresh_task_cache: false,
    };
    assert!(ctx.awaits(&RunState::Start, &RunEvent::Begin));
    assert!(!ctx.awaits(&RunState::Start, &locked()));
    assert!(!ctx.awaits(&RunState::Done, &RunEvent::Begin));
    // There is no cache to wait for.
    assert!(!ctx.awaits(&RunState::AwaitLock, &locked()));
}

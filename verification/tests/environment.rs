use devenv_tasks::definition::Surroundings;
use devenv_tasks::{
    CachePath, EnvError, Outputs, PathState, Shell, StrMap, TaskCacheConfig, TaskConfig,
    TaskError, TaskState, VerbosityLevel,
};
use serde_json::Value;

fn value(text: &str) -> Value {
    serde_json::from_str(text).unwrap()
}

fn variables(items: &[(&str, &str)]) -> StrMap<String> {
    StrMap::from_entries(items.iter().map(|(k, v)| (k.to_string(), v.to_string())).collect())
}

fn task(config: TaskConfig) -> TaskState {
    TaskState::new(config, VerbosityLevel::Quiet, None)
}

fn upstream() -> Outputs {
    Outputs(StrMap::new().insert(
        "dep".to_string(),
        value(r#"{"devenv":{"env":{"B":"up b","C":"up"}}}"#),
    ))
}

#[test]
fn env_is_layered() {
    let ts = task(TaskConfig {
        input: Some(value(r#"{"n": 1}"#)),
        env: variables(&[("C", "task"), ("DEVENV_TASKS_OUTPUTS", "mine")]),
        ..Default::default()
    });
    let env = ts
        .prepare_env(
            &upstream(),
            &variables(&[("A", "shell"), ("B", "shell"), ("C", "shell")]),
            Shell::Unix,
        )
        .unwrap();
    assert_eq!(
        env.into_entries(),
        vec![
            ("A".to_string(), "shell".to_string()),
            ("B".to_string(), "up b".to_string()),
            ("C".to_string(), "task".to_string()),
            ("DEVENV_TASKS_OUTPUTS".to_string(),
                r#"{"dep":{"devenv":{"env":{"B":"up b","C":"up"}}}}"#.to_string()),
            ("DEVENV_TASK_ENV".to_string(), "export B='up b'\nexport C=up\n".to_string()),
            ("DEVENV_TASK_INPUT".to_string(), r#"{"n":1}"#.to_string()),
        ]
    );
}

#[test]
fn env_without_input_has_no_input_variable() {
    let env = task(TaskConfig::default())
        .prepare_env(&Outputs(StrMap::new()), &StrMap::new(), Shell::Unix)
        .unwrap();
    assert_eq!(env.get("DEVENV_TASK_INPUT"), None);
    assert_eq!(env.get("DEVENV_TASK_ENV").map(String::as_str), Some(""));
    assert_eq!(env.get("DEVENV_TASKS_OUTPUTS").map(String::as_str), Some("{}"));
}

#[test]
fn env_errors_have_messages() {
    assert_eq!(EnvError::Input.message(), "Failed to serialize task input to JSON");
    assert_eq!(EnvError::Outputs.message(), "Failed to serialize task outputs to JSON");
    let error = TaskError::TaskEnv(EnvError::Input);
    assert_eq!(error.message(), "Failed to prepare task environment");
    assert_eq!(error.cause().as_deref(), Some("Failed to serialize task input to JSON"));
    let error = TaskError::StatusEnv(EnvError::Outputs);
    assert_eq!(error.message(), "Failed to prepare status command");
    assert_eq!(error.cause().as_deref(), Some("Failed to serialize task outputs to JSON"));
    let error = TaskError::Reported("disk full".to_string());
    assert_eq!(error.message(), "disk full");
}

#[test]
fn cwd_has_to_be_a_directory() {
    let ts = task(TaskConfig {
        name: "my:task".to_string(),
        cwd: Some("/work".to_string()),
        ..Default::default()
    });
    assert!(ts.validate_cwd(true, true).is_ok());
    assert_eq!(
        ts.validate_cwd(false, false).unwrap_err().message(),
        "Working directory for task 'my:task' does not exist: /work"
    );
    assert_eq!(
        ts.validate_cwd(true, false).unwrap_err().message(),
        "Working directory for task 'my:task' is not a directory: /work"
    );
    assert!(task(TaskConfig::default()).validate_cwd(false, false).is_ok());
}

fn cached_task() -> TaskState {
    task(TaskConfig {
        command: Some("/bin/run".to_string()),
        env: variables(&[("T", "1")]),
        cache: Some(TaskCacheConfig {
            inputs: vec![CachePath { path: "in".to_string(), optional: false }],
            outputs: Vec::new(),
            env: vec!["LANG".to_string(), "UNSET".to_string()],
        }),
        ..Default::default()
    })
}

fn state_at(path: &str) -> PathState {
    PathState {
        path: path.to_string(),
        kind: "file".to_string(),
        content_hash: "h".to_string(),
    }
}

fn surroundings(current_dir: Option<&str>) -> Surroundings {
    Surroundings {
        current_dir: current_dir.map(str::to_string),
        command_snapshot: Some(state_at("/bin/run")),
        status_snapshot: Some(state_at("/bin/status")),
    }
}

#[test]
fn definition_holds_what_the_result_depends_on() {
    let ts = cached_task();
    let outputs = upstream();
    let shell = variables(&[("LANG", "C"), ("DEVENV_ROOT", "/r"), ("OTHER", "x")]);
    let d = ts.cache_definition(&outputs, &shell, surroundings(Some("/here"))).unwrap();
    assert_eq!(d.schema, 2);
    assert_eq!(d.command.as_deref(), Some("/bin/run"));
    assert_eq!(d.command_snapshot, Some(state_at("/bin/run")));
    // There is no status command, so nothing stands at its path.
    assert_eq!(d.status, &None);
    assert_eq!(d.status_snapshot, None);
    assert_eq!(d.cwd, "/here");
    assert_eq!(d.task_env.get("T").map(String::as_str), Some("1"));
    assert_eq!(d.cache.inputs[0].path, "in");
    assert_eq!(
        d.inherited_env.into_entries(),
        vec![("LANG".to_string(), Some("C".to_string())), ("UNSET".to_string(), None)]
    );
    assert_eq!(
        d.shell_identity.into_entries(),
        vec![
            ("DEVENV_DOTFILE".to_string(), None),
            ("DEVENV_PROFILE".to_string(), None),
            ("DEVENV_ROOT".to_string(), Some("/r".to_string())),
        ]
    );
    assert_eq!(d.dependency_outputs.0.len(), 1);
}

#[test]
fn definition_needs_a_directory() {
    let mut ts = cached_task();
    let outputs = upstream();
    let error = ts
        .cache_definition(&outputs, &StrMap::new(), surroundings(None))
        .unwrap_err();
    assert_eq!(error.message(), "Failed to resolve task working directory");
    ts.task.cwd = Some("/own".to_string());
    let d = ts.cache_definition(&outputs, &StrMap::new(), surroundings(None)).unwrap();
    assert_eq!(d.cwd, "/own");
}

#[test]
fn other_variables_do_not_change_the_definition() {
    let ts = cached_task();
    let outputs = upstream();
    let one = variables(&[("LANG", "C"), ("OTHER", "x")]);
    let two = variables(&[("LANG", "C"), ("OTHER", "y")]);
    let three = variables(&[("LANG", "de"), ("OTHER", "x")]);
    let entries = |shell: &StrMap<String>| {
        ts.cache_definition(&outputs, shell, surroundings(Some("/")))
            .unwrap()
            .inherited_env
            .into_entries()
    };
    assert_eq!(entries(&one), entries(&two));
    assert_ne!(entries(&one), entries(&three));
}

use devenv_tasks::process::process_name;
use devenv_tasks::{ProcessConfig, StrMap, TaskConfig, TaskState, TaskType, VerbosityLevel};

fn process_task_state() -> TaskState {
    TaskState::new(
        TaskConfig {
            name: "devenv:processes:demo".to_string(),
            task_type: TaskType::Process,
            command: Some("sleep infinity".to_string()),
            ..Default::default()
        },
        VerbosityLevel::Normal,
        None,
    )
}

fn vars(pairs: &[(&str, &str)]) -> StrMap<String> {
    StrMap::from_entries(pairs.iter().map(|(k, v)| (k.to_string(), v.to_string())).collect())
}

#[test]
fn build_process_config_uses_resolved_bash() {
    let ts = process_task_state();
    let config = ts
        .build_process_config(&StrMap::new(), "/nix/store/bash/bin/bash")
        .unwrap();
    assert_eq!(config.bash, "/nix/store/bash/bin/bash");
}

/// An empty bash path must not overwrite the default: exec probes spawn the
/// program named by this field, and an empty program name fails on every
/// attempt, stalling `@ready` dependencies forever.
#[test]
fn build_process_config_keeps_default_bash_when_unresolved() {
    let ts = process_task_state();
    let config = ts.build_process_config(&StrMap::new(), "").unwrap();
    assert_eq!(config.bash, "bash");
}

#[test]
fn process_env_takes_precedence() {
    let mut ts = process_task_state();
    ts.task.env = vars(&[("B", "task"), ("C", "task")]);
    ts.task.cwd = Some("/work".to_string());
    ts.task.process = Some(ProcessConfig {
        env: vars(&[("C", "process")]),
        bash: "/own/bash".to_string(),
        readiness_probe: true,
        start_enabled: false,
        ..Default::default()
    });
    let config = ts
        .build_process_config(&vars(&[("A", "shell"), ("B", "shell"), ("C", "shell")]), "")
        .unwrap();
    assert_eq!(config.name, "demo");
    assert_eq!(config.exec_command, "sleep infinity");
    assert_eq!(config.cwd, Some(std::path::PathBuf::from("/work")));
    assert_eq!(config.env.get("A").map(String::as_str), Some("shell"));
    assert_eq!(config.env.get("B").map(String::as_str), Some("task"));
    assert_eq!(config.env.get("C").map(String::as_str), Some("process"));
    assert_eq!(config.bash, "/own/bash");
    assert!(config.has_readiness_probe());
    assert!(!config.start_enabled);

    let waiting = TaskState::launch_info(&config, false);
    assert!(waiting.auto_start_off);
    assert!(waiting.requires_ready_wait);
    assert_eq!(waiting.process_name, "demo");
    assert!(!TaskState::launch_info(&config, true).auto_start_off);
}

#[test]
fn process_without_command_is_refused() {
    let mut ts = process_task_state();
    ts.task.command = None;
    let error = ts.build_process_config(&StrMap::new(), "").unwrap_err();
    assert_eq!(error.message(), "Process task devenv:processes:demo has no command");
    assert_eq!(error.cause(), None);
}

#[test]
fn process_names_lose_their_prefix() {
    assert_eq!(process_name("devenv:processes:web"), "web");
    assert_eq!(process_name("other:web"), "other:web");
}

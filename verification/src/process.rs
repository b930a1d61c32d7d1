//! Process tasks.

use vstd::prelude::*;
use crate::config::ProcessConfig;
use crate::error::TaskError;
use crate::paths::{path_from, path_of};
use crate::strmap::StrMap;
use crate::task_state::{ProcessLaunchInfo, TaskState};
use crate::text::{strip_prefix, stripped};

verus! {

/// The name of a process: that of its task without `devenv:processes:`.
pub open spec fn process_name_of(task_name: Seq<char>) -> Seq<char> {
    match stripped(task_name, "devenv:processes:"@) {
        Some(rest) => rest,
        None => task_name,
    }
}

/// The name of a process: that of its task without `devenv:processes:`.
pub fn process_name(task_name: &str) -> (r: &str)
    ensures
        r@ == process_name_of(task_name@),
{
    match strip_prefix(task_name, "devenv:processes:") {
        Some(rest) => rest,
        None => task_name,
    }
}

/// The variables that the process itself is configured with.
pub open spec fn process_env(process: Option<ProcessConfig>) -> Map<Seq<char>, String> {
    match process {
        Some(base) => base.env@,
        None => Map::empty(),
    }
}

/// The shell that a process runs with where none was resolved.
pub open spec fn process_bash(process: Option<ProcessConfig>) -> Seq<char> {
    match process {
        Some(base) => base.bash@,
        None => "bash"@,
    }
}

/// `config` is the configuration of the process behind a task with a command.
pub open spec fn is_process_config(
    task: TaskState,
    env: Map<Seq<char>, String>,
    bash: Seq<char>,
    config: ProcessConfig,
) -> bool {
    let process = task.task.process;
    &&& config.name@ == process_name_of(task.task.name@)
    &&& task.task.command == Some(config.exec_command)
    &&& config.cwd == match task.task.cwd {
        Some(cwd) => Some(path_of(cwd@)),
        None => None,
    }
    &&& config.env@ == env.union_prefer_right(task.task.env@).union_prefer_right(
        process_env(process),
    )
    &&& config.bash@ == if bash.len() > 0 {
        bash
    } else {
        process_bash(process)
    }
    &&& config.readiness_probe == (process is Some && process->0.readiness_probe)
    &&& config.start_enabled == (process is None || process->0.start_enabled)
}

/// `info` tells how the process of `config` was launched.
pub open spec fn is_launch_info(
    config: ProcessConfig,
    started: bool,
    info: ProcessLaunchInfo,
) -> bool {
    &&& info.auto_start_off == !started
    &&& info.requires_ready_wait == config.readiness_probe
    &&& info.process_name == config.name
}

impl TaskState {
    /// The configuration of the process behind the task.
    ///
    /// Of the variables, those of the task take precedence over `env`, and
    /// those of the process over both. An empty `bash` keeps the shell that is
    /// configured.
    pub fn build_process_config(&self, env: &StrMap<String>, bash: &str) -> (r: Result<
        ProcessConfig,
        TaskError,
    >)
        ensures
            match r {
                Ok(config) => is_process_config(*self, env@, bash@, config),
                Err(_) => self.task.command is None,
            },
            match r {
                Ok(config) => {
                    let process = self.task.process;
                    &&& self.task.command is Some
                    &&& config.name@ == process_name_of(self.task.name@)
                    &&& config.exec_command == self.task.command->0
                    &&& config.cwd == match self.task.cwd {
                        Some(cwd) => Some(path_of(cwd@)),
                        None => None,
                    }
                    &&& config.env@ == env@.union_prefer_right(
                        self.task.env@,
                    ).union_prefer_right(process_env(process))
                    &&& config.bash@ == if bash@.len() > 0 {
                        bash@
                    } else {
                        process_bash(process)
                    }
                    &&& config.readiness_probe == (process is Some && process->0.readiness_probe)
                    &&& config.start_enabled == (process is None || process->0.start_enabled)
                },
                Err(error) => self.task.command is None && (error matches TaskError::NoCommand {
                    task,
                } && task@ == self.task.name@),
            },
    {
        let command = match &self.task.command {
            Some(command) => command,
            None => {
                return Err(TaskError::NoCommand { task: self.task.name.clone() });
            },
        };
        let merged = env.copy().extend(&self.task.env);
        let cwd = match &self.task.cwd {
            Some(cwd) => Some(path_from(cwd.as_str())),
            None => None,
        };
        let name = process_name(self.task.name.as_str()).to_string();
        let defaults = ProcessConfig::default();
        let base = match &self.task.process {
            Some(base) => base,
            None => &defaults,
        };
        let bash = if bash.is_empty() {
            base.bash.clone()
        } else {
            bash.to_string()
        };
        Ok(
            ProcessConfig {
                name,
                exec_command: command.clone(),
                cwd,
                env: merged.extend(&base.env),
                bash,
                readiness_probe: base.readiness_probe,
                start_enabled: base.start_enabled,
            },
        )
    }

    /// How the process of `config` was launched. The manager says whether it
    /// started it.
    pub fn launch_info(config: &ProcessConfig, started: bool) -> (r: ProcessLaunchInfo)
        ensures
            is_launch_info(*config, started, r),
            r.auto_start_off == !started,
            r.requires_ready_wait == config.readiness_probe,
            r.process_name == config.name,
    {
        ProcessLaunchInfo {
            auto_start_off: !started,
            requires_ready_wait: config.has_readiness_probe(),
            process_name: config.name.clone(),
        }
    }
}

} // verus!

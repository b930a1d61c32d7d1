//! What a task is configured with.

use serde_json::Value;
use std::path::PathBuf;
use vstd::prelude::*;
use crate::strmap::StrMap;
use crate::text::text_views;

verus! {

/// A path that a cached task declares as an input or an output. It may hold
/// glob characters.
#[derive(Debug, PartialEq, Eq)]
pub struct CachePath {
    pub path: String,
    /// Whether the path may be missing.
    pub optional: bool,
}

/// What a [`CachePath`] declares.
pub struct CachePathView {
    pub path: Seq<char>,
    pub optional: bool,
}

impl View for CachePath {
    type V = CachePathView;

    open spec fn view(&self) -> CachePathView {
        CachePathView { path: self.path@, optional: self.optional }
    }
}

impl Clone for CachePath {
    fn clone(&self) -> (r: Self)
        ensures
            r == *self,
    {
        CachePath { path: self.path.clone(), optional: self.optional }
    }
}

/// What the cache of a task depends on.
#[derive(Debug)]
pub struct TaskCacheConfig {
    pub inputs: Vec<CachePath>,
    pub outputs: Vec<CachePath>,
    /// The variables of the shell that the result depends on.
    pub env: Vec<String>,
}

/// What a [`TaskCacheConfig`] declares.
pub struct TaskCacheConfigView {
    pub inputs: Seq<CachePathView>,
    pub outputs: Seq<CachePathView>,
    pub env: Seq<Seq<char>>,
}

impl View for TaskCacheConfig {
    type V = TaskCacheConfigView;

    open spec fn view(&self) -> TaskCacheConfigView {
        TaskCacheConfigView {
            inputs: self.inputs@.map_values(|path: CachePath| path@),
            outputs: self.outputs@.map_values(|path: CachePath| path@),
            env: text_views(self.env@),
        }
    }
}

/// Whether a task runs to its end or keeps running.
#[derive(Clone, Copy, Debug, PartialEq, Eq, Structural)]
pub enum TaskType {
    Oneshot,
    Process,
}

/// How much a task run reports.
#[derive(Clone, Copy, Debug, PartialEq, Eq, Structural)]
pub enum VerbosityLevel {
    Quiet,
    Normal,
    Verbose,
}

/// The user that commands are run as where the runner itself runs as root.
#[derive(Clone, Copy, Debug, PartialEq, Eq, Structural)]
pub struct SudoContext {
    pub uid: u32,
    pub gid: u32,
}

/// How a process is run.
#[derive(Debug)]
pub struct ProcessConfig {
    pub name: String,
    pub exec_command: String,
    pub cwd: Option<PathBuf>,
    pub env: StrMap<String>,
    /// The shell that runs the process and its probes.
    pub bash: String,
    /// Whether readiness has to be probed for.
    pub readiness_probe: bool,
    /// Whether the process starts by itself.
    pub start_enabled: bool,
}

impl Default for ProcessConfig {
    fn default() -> (r: Self)
        ensures
            r.name@ == ""@,
            r.exec_command@ == ""@,
            r.cwd is None,
            r.env@ == Map::<Seq<char>, String>::empty(),
            r.bash@ == "bash"@,
            !r.readiness_probe,
            r.start_enabled,
    {
        ProcessConfig {
            name: "".to_string(),
            exec_command: "".to_string(),
            cwd: None,
            env: StrMap::new(),
            bash: "bash".to_string(),
            readiness_probe: false,
            start_enabled: true,
        }
    }
}

impl ProcessConfig {
    /// Whether readiness has to be probed for.
    pub fn has_readiness_probe(&self) -> (r: bool)
        ensures
            r == self.readiness_probe,
    {
        self.readiness_probe
    }
}

/// The configuration of a task.
#[derive(Debug)]
pub struct TaskConfig {
    pub name: String,
    pub task_type: TaskType,
    pub command: Option<String>,
    /// A command whose success says that the task need not run.
    pub status: Option<String>,
    pub input: Option<Value>,
    pub env: StrMap<String>,
    pub cwd: Option<String>,
    pub cache: Option<TaskCacheConfig>,
    pub process: Option<ProcessConfig>,
}

impl Default for TaskConfig {
    fn default() -> (r: Self)
        ensures
            r.name@ == ""@,
            r.task_type == TaskType::Oneshot,
            r.command is None,
            r.status is None,
            r.input is None,
            r.env@ == Map::<Seq<char>, String>::empty(),
            r.cwd is None,
            r.cache is None,
            r.process is None,
    {
        TaskConfig {
            name: "".to_string(),
            task_type: TaskType::Oneshot,
            command: None,
            status: None,
            input: None,
            env: StrMap::new(),
            cwd: None,
            cache: None,
            process: None,
        }
    }
}

} // verus!

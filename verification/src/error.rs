//! What can go wrong.

use vstd::prelude::*;

verus! {

/// Why something of the cache failed.
#[derive(Debug)]
pub enum CacheError {
    /// The cache could not be set up.
    Initialization(String),
    /// Something that the program around the library reported.
    Reported(String),
}

impl CacheError {
    /// The message.
    pub open spec fn text(self) -> Seq<char> {
        match self {
            CacheError::Initialization(message) => message@,
            CacheError::Reported(message) => message@,
        }
    }

    /// The message.
    pub fn message(&self) -> (r: String)
        ensures
            r@ == self.text(),
    {
        match self {
            CacheError::Initialization(message) => message.clone(),
            CacheError::Reported(message) => message.clone(),
        }
    }
}

/// Why the environment of a command cannot be prepared.
#[derive(Clone, Copy, Debug, PartialEq, Eq, Structural)]
pub enum EnvError {
    /// The input of the task has no JSON text.
    Input,
    /// The outputs of the dependencies have no JSON text.
    Outputs,
}

impl EnvError {
    /// The message.
    pub open spec fn text(self) -> Seq<char> {
        match self {
            EnvError::Input => "Failed to serialize task input to JSON"@,
            EnvError::Outputs => "Failed to serialize task outputs to JSON"@,
        }
    }

    /// The message.
    pub fn message(&self) -> (r: String)
        ensures
            r@ == self.text(),
    {
        match self {
            EnvError::Input => "Failed to serialize task input to JSON".to_string(),
            EnvError::Outputs => "Failed to serialize task outputs to JSON".to_string(),
        }
    }
}

/// Why a task could not be run at all.
#[derive(Debug)]
pub enum TaskError {
    /// The working directory of the task is not there.
    CwdMissing { task: String, cwd: String },
    /// The working directory of the task is no directory.
    CwdNotDirectory { task: String, cwd: String },
    /// The task has no working directory and the current one is unknown.
    NoCurrentDir,
    /// A process has no command.
    NoCommand { task: String },
    /// The environment of the command could not be prepared.
    TaskEnv(EnvError),
    /// The environment of the status command could not be prepared.
    StatusEnv(EnvError),
    /// The cache lock of the task could not be had.
    Lock { task: String, cause: String },
    /// Something that the program around the library reported.
    Reported(String),
}

impl TaskError {
    /// The message.
    pub open spec fn text(self) -> Seq<char> {
        match self {
            TaskError::CwdMissing { task, cwd } => "Working directory for task '"@ + task@
                + "' does not exist: "@ + cwd@,
            TaskError::CwdNotDirectory { task, cwd } => "Working directory for task '"@ + task@
                + "' is not a directory: "@ + cwd@,
            TaskError::NoCurrentDir => "Failed to resolve task working directory"@,
            TaskError::NoCommand { task } => "Process task "@ + task@ + " has no command"@,
            TaskError::TaskEnv(_) => "Failed to prepare task environment"@,
            TaskError::StatusEnv(_) => "Failed to prepare status command"@,
            TaskError::Lock { task, cause: _ } => "Failed to acquire cache lock for task '"@ + task@
                + "'"@,
            TaskError::Reported(message) => message@,
        }
    }

    /// The message.
    pub fn message(&self) -> (r: String)
        ensures
            r@ == self.text(),
    {
        match self {
            TaskError::CwdMissing { task, cwd } => concat4(
                "Working directory for task '",
                task.as_str(),
                "' does not exist: ",
                cwd.as_str(),
            ),
            TaskError::CwdNotDirectory { task, cwd } => concat4(
                "Working directory for task '",
                task.as_str(),
                "' is not a directory: ",
                cwd.as_str(),
            ),
            TaskError::NoCurrentDir => "Failed to resolve task working directory".to_string(),
            TaskError::NoCommand { task } => concat3(
                "Process task ",
                task.as_str(),
                " has no command",
            ),
            TaskError::TaskEnv(_) => "Failed to prepare task environment".to_string(),
            TaskError::StatusEnv(_) => "Failed to prepare status command".to_string(),
            TaskError::Lock { task, cause: _ } => concat3(
                "Failed to acquire cache lock for task '",
                task.as_str(),
                "'",
            ),
            TaskError::Reported(message) => message.clone(),
        }
    }

    /// What caused the error, where it only says what was being done.
    pub open spec fn cause_text(self) -> Option<Seq<char>> {
        match self {
            TaskError::TaskEnv(cause) => Some(cause.text()),
            TaskError::StatusEnv(cause) => Some(cause.text()),
            TaskError::Lock { task: _, cause } => Some(cause@),
            _ => None,
        }
    }

    /// What caused the error, where it only says what was being done.
    pub fn cause(&self) -> (r: Option<String>)
        ensures
            match r {
                Some(cause) => self.cause_text() == Some(cause@),
                None => self.cause_text() is None,
            },
    {
        match self {
            TaskError::TaskEnv(cause) => Some(cause.message()),
            TaskError::StatusEnv(cause) => Some(cause.message()),
            TaskError::Lock { task: _, cause } => Some(cause.clone()),
            _ => None,
        }
    }
}

/// Three texts one after the other.
pub fn concat3(a: &str, b: &str, c: &str) -> (r: String)
    ensures
        r@ == a@ + b@ + c@,
{
    let mut r = a.to_string();
    r.append(b);
    r.append(c);
    r
}

/// Four texts one after the other.
pub fn concat4(a: &str, b: &str, c: &str, d: &str) -> (r: String)
    ensures
        r@ == a@ + b@ + c@ + d@,
{
    let mut r = concat3(a, b, c);
    r.append(d);
    r
}

} // verus!

//! Tasks with a correctness-first cache.
//!
//! The library holds the decisions of the task runner: which cache entry is
//! still current, what a task exports, which environment it gets, and when a
//! result may be committed. Files, processes and the database are touched by
//! the program around it, which hands over what it read and performs what it
//! is told.
//!
//! The modules whose names end in `_laws` state what holds of these decisions
//! as a whole, in terms of what goes in and what comes out.
//!
//! Paths are those of the system that the library is built for.

pub mod cache_laws;
pub mod completion;
pub mod config;
pub mod definition;
pub mod environment;
pub mod error;
pub mod export_laws;
pub mod exports;
pub mod history;
pub mod json;
pub mod listing;
pub mod output_laws;
pub mod outputs;
pub mod path_laws;
pub mod paths;
pub mod process;
pub mod run;
pub mod run_laws;
pub mod shell;
pub mod snapshot;
pub mod strmap;
pub mod task_cache;
pub mod task_state;
pub mod text;
pub mod text_laws;
pub mod tree_laws;

pub use completion::{Skipped, StatusRun, TaskCompleted, TaskFailure};
pub use config::{CachePath, ProcessConfig, SudoContext, TaskCacheConfig, TaskConfig, TaskType};
pub use config::VerbosityLevel;
pub use error::{CacheError, EnvError, TaskError};
pub use outputs::{Output, Outputs};
pub use run::{ExecutionResult, Mark, RunAction, RunContext, RunEvent, RunState, Step};
pub use shell::Shell;
pub use strmap::StrMap;
pub use task_cache::{CachedRun, DeclaredPathSnapshot, PathSnapshot, PathState};
pub use task_cache::{snapshot_executable, ExecutableLookup};
pub use task_state::{ProcessLaunchInfo, TaskState, TaskStatus};

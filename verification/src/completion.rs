//! How tasks end, and what they hand on.

use serde_json::Value;
use std::time::{Duration, Instant};
use vstd::prelude::*;
use crate::error::{concat3, TaskError};
use crate::exports::{export_views, file_exports, file_warnings, line_texts, optional};
use crate::exports::{stdout_exports, stdout_warnings, ExportView};
use crate::json::{json_object, json_parsed, object, parse_json};
use crate::outputs::{carried, carries, env_of, insert_exports, last_export};
use crate::outputs::{law_exports_are_carried, law_later_exports_win, Output};
use crate::strmap::StrMap;
use crate::task_state::TaskState;
use crate::text::{decimal, decimal_text, text_views};

verus! {

/// Why a task need not run.
#[derive(Debug)]
pub enum Skipped {
    /// It ran before, with this output.
    Cached(Output),
    /// It has no command.
    NoCommand,
}

/// What is known of a failed task.
#[derive(Debug)]
pub struct TaskFailure {
    pub stdout: Vec<(Instant, String)>,
    pub stderr: Vec<(Instant, String)>,
    pub error: String,
}

/// How a task ended.
#[derive(Debug)]
pub enum TaskCompleted {
    Success(Duration, Output),
    Skipped(Skipped),
    Failed(Duration, TaskFailure),
    Cancelled(Option<Duration>),
}

/// What came of running the status command.
#[derive(Debug)]
pub enum StatusRun {
    /// It succeeded. Its exports file holds these bytes, if it could be read.
    Succeeded(Option<Vec<u8>>),
    /// It ran and did not succeed.
    Failed,
    /// It could not be run.
    NotStarted(String),
}

/// The JSON value that a file holds, if it was read and holds one.
pub open spec fn file_json(data: Option<Vec<u8>>) -> Option<Value> {
    match data {
        Some(data) => json_parsed(data@),
        None => None,
    }
}

/// What a file exports, if it was read.
pub open spec fn exports_read(data: Option<Vec<u8>>) -> Seq<ExportView> {
    match data {
        Some(data) => file_exports(data@),
        None => Seq::empty(),
    }
}

/// A value, or the empty object in place of none.
pub open spec fn or_empty(v: Option<Value>) -> Value {
    match v {
        Some(v) => v,
        None => json_object(Map::empty()),
    }
}

/// Everything that a run exports. What the file exports comes last.
pub open spec fn run_exports(
    export_data: Option<Vec<u8>>,
    stdout_lines: Seq<(Instant, String)>,
) -> Seq<ExportView> {
    stdout_exports(line_texts(stdout_lines)) + exports_read(export_data)
}

/// `output` is what a run left behind: the JSON value of the output file, with
/// all that the run exports written into it. Without exports it stays as it
/// is, and an output that has no place for them stays as it is too.
pub open spec fn is_run_output(
    output_data: Option<Vec<u8>>,
    export_data: Option<Vec<u8>>,
    stdout_lines: Seq<(Instant, String)>,
    output: Option<Value>,
) -> bool {
    let exports = run_exports(export_data, stdout_lines);
    if exports.len() == 0 {
        output == file_json(output_data)
    } else {
        &&& output is Some
        &&& carries(or_empty(file_json(output_data)), exports, output->0)
        &&& file_json(output_data) is None ==> env_of(or_empty(None)) is Some
    }
}

/// What is to be said about exports that have no place in an output.
pub open spec fn dropped_warning(output: Option<Value>, exports: Seq<ExportView>) -> Option<
    Seq<char>,
> {
    if exports.len() > 0 && env_of(or_empty(output)) is None {
        Some(
            "Task output is not a JSON object, "@ + decimal(exports.len())
                + " export(s) dropped"@,
        )
    } else {
        None
    }
}

/// What is to be said about a file that was read for its exports.
pub open spec fn warnings_read(data: Option<Vec<u8>>) -> Seq<Seq<char>> {
    match data {
        Some(data) => file_warnings(data@),
        None => Seq::empty(),
    }
}

/// What is to be said about what a run exports: about its lines, about its
/// exports file, and about exports that were dropped.
pub open spec fn run_warnings(
    output_data: Option<Vec<u8>>,
    export_data: Option<Vec<u8>>,
    stdout_lines: Seq<(Instant, String)>,
) -> Seq<Seq<char>> {
    stdout_warnings(line_texts(stdout_lines)) + warnings_read(export_data) + optional(
        dropped_warning(file_json(output_data), run_exports(export_data, stdout_lines)),
    )
}

/// `output` is what a task whose status command succeeded is taken to have
/// output: the earlier output, with what the status command exports written
/// into it.
pub open spec fn is_status_output(
    exports: Option<Vec<u8>>,
    cached: Option<Value>,
    output: Value,
) -> bool {
    match exports {
        Some(data) => carries(or_empty(cached), file_exports(data@), output),
        None => output == or_empty(cached),
    }
}

/// What is to be said about what a status command exports.
pub open spec fn status_warnings(run: StatusRun) -> Seq<Seq<char>> {
    match run {
        StatusRun::Succeeded(exports) => warnings_read(exports),
        _ => Seq::empty(),
    }
}

/// A value, or the empty object in place of none.
fn value_or_empty(v: Option<Value>) -> (r: Value)
    ensures
        r == or_empty(v),
        v is None ==> env_of(r) is Some,
{
    match v {
        Some(v) => v,
        None => object(StrMap::new()),
    }
}

/// The error about the working directory of a task.
pub open spec fn is_cwd_error(task: TaskState, exists: bool, is_dir: bool, e: TaskError) -> bool {
    task.task.cwd is Some && if !exists {
        e matches TaskError::CwdMissing { task: name, cwd } && name == task.task.name && cwd
            == task.task.cwd->0
    } else {
        !is_dir && (e matches TaskError::CwdNotDirectory { task: name, cwd } && name
            == task.task.name && cwd == task.task.cwd->0)
    }
}

impl TaskState {
    /// Whether the task can run in its working directory, of which `exists`
    /// and `is_dir` were found out.
    pub fn validate_cwd(&self, exists: bool, is_dir: bool) -> (r: Result<(), TaskError>)
        ensures
            match r {
                Ok(()) => self.task.cwd is None || (exists && is_dir),
                Err(e) => is_cwd_error(*self, exists, is_dir, e),
            },
    {
        if let Some(cwd) = &self.task.cwd {
            if !exists {
                return Err(
                    TaskError::CwdMissing { task: self.task.name.clone(), cwd: cwd.clone() },
                );
            }
            if !is_dir {
                return Err(
                    TaskError::CwdNotDirectory { task: self.task.name.clone(), cwd: cwd.clone() },
                );
            }
        }
        Ok(())
    }

    /// The output of a run, from what its output file and its exports file
    /// hold, where they could be read, and from the lines that it printed;
    /// and what is to be said about exports that are not in it.
    pub fn get_outputs(
        output_data: &Option<Vec<u8>>,
        export_data: &Option<Vec<u8>>,
        stdout_lines: &[(Instant, String)],
    ) -> (r: (Output, Vec<String>))
        ensures
            is_run_output(*output_data, *export_data, stdout_lines@, r.0.0),
            text_views(r.1@) == run_warnings(*output_data, *export_data, stdout_lines@),
    {
        let output = match output_data {
            Some(data) => parse_json(data.as_slice()),
            None => None,
        };
        let (mut exports, mut warnings) = Self::read_stdout_exports(stdout_lines);
        let ghost printed = exports@;
        let ghost said = warnings@;
        let (mut from_file, mut about_file) = match export_data {
            Some(data) => Self::read_exports(data.as_slice()),
            None => (Vec::new(), Vec::new()),
        };
        let ghost filed = from_file@;
        let ghost more = about_file@;
        exports.append(&mut from_file);
        warnings.append(&mut about_file);
        assert(export_views(exports@) =~= export_views(printed) + export_views(filed));
        assert(export_views(filed) =~= exports_read(*export_data));
        assert(text_views(more) =~= warnings_read(*export_data));
        assert(text_views(warnings@) =~= text_views(said) + text_views(more));
        let ghost all = run_exports(*export_data, stdout_lines@);
        let ghost known = text_views(warnings@);
        if exports.len() == 0 {
            assert(known =~= known + optional(dropped_warning(output, all)));
            return (Output(output), warnings);
        }
        let (after, placed) = insert_exports(value_or_empty(output), &exports);
        if !placed {
            warnings.push(
                concat3(
                    "Task output is not a JSON object, ",
                    decimal_text(exports.len() as u64).as_str(),
                    " export(s) dropped",
                ),
            );
        }
        assert(text_views(warnings@) =~= known + optional(dropped_warning(output, all)));
        (Output(Some(after)), warnings)
    }

    /// How the task ends where its status command came out as `run`, and
    /// `None` where the task has to run; and what is to be said about exports
    /// of the status command that are skipped.
    pub fn check_status(
        run: StatusRun,
        cached_output: Option<Value>,
        elapsed: Duration,
    ) -> (r: (Option<TaskCompleted>, Vec<String>))
        ensures
            match run {
                StatusRun::Succeeded(exports) => r.0 matches Some(
                    TaskCompleted::Skipped(Skipped::Cached(Output(Some(output)))),
                ) && is_status_output(exports, cached_output, output),
                StatusRun::Failed => r.0 is None,
                StatusRun::NotStarted(error) => r.0 matches Some(
                    TaskCompleted::Failed(after, failure),
                ) && after == elapsed && failure.stdout@.len() == 0 && failure.stderr@.len() == 0
                    && failure.error == error,
            },
            text_views(r.1@) == status_warnings(run),
    {
        let none: Vec<String> = Vec::new();
        assert(text_views(none@) =~= Seq::empty());
        match run {
            StatusRun::Succeeded(exports) => {
                let output = value_or_empty(cached_output);
                let (output, warnings) = match exports {
                    Some(data) => {
                        let (exports, warnings) = Self::read_exports(data.as_slice());
                        (insert_exports(output, &exports).0, warnings)
                    },
                    None => (output, none),
                };
                let completed = TaskCompleted::Skipped(Skipped::Cached(Output(Some(output))));
                (Some(completed), warnings)
            },
            StatusRun::Failed => (None, none),
            StatusRun::NotStarted(error) => {
                let failure = TaskFailure { stdout: Vec::new(), stderr: Vec::new(), error };
                (Some(TaskCompleted::Failed(elapsed, failure)), none)
            },
        }
    }
}

/// What a command exports in its file takes precedence over what it exports
/// in its printed lines, name by name, and both reach the tasks that depend on
/// it.
pub proof fn law_file_exports_win(
    output_data: Option<Vec<u8>>,
    export_data: Option<Vec<u8>>,
    stdout_lines: Seq<(Instant, String)>,
    output: Option<Value>,
    name: Seq<char>,
)
    requires
        is_run_output(output_data, export_data, stdout_lines, output),
        file_json(output_data) is Some ==> env_of(file_json(output_data)->0) is Some,
    ensures
        match last_export(exports_read(export_data), name) {
            Some(text) => output is Some && carried(output->0).contains_key(name) && carried(
                output->0,
            )[name] == text,
            None => match last_export(stdout_exports(line_texts(stdout_lines)), name) {
                Some(text) => output is Some && carried(output->0).contains_key(name) && carried(
                    output->0,
                )[name] == text,
                None => true,
            },
        },
{
    let printed = stdout_exports(line_texts(stdout_lines));
    let filed = exports_read(export_data);
    law_later_exports_win(printed, filed, name);
    if (printed + filed).len() > 0 {
        law_exports_are_carried(
            or_empty(file_json(output_data)),
            printed + filed,
            output->0,
            name,
        );
    }
}

} // verus!

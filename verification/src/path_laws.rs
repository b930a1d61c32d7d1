//! What paths, locks and processes are called, told by the texts they are made
//! of.

use std::path::PathBuf;
use vstd::prelude::*;
use crate::config::ProcessConfig;
use crate::error::CacheError;
use crate::paths::{anchored, base_dir, dir_of, first_special, glob_selects, has_special};
use crate::paths::{is_ordered_selection, is_special, law_matches_are_in_order, lock_message};
use crate::paths::{path_below, path_is_absolute, path_join, path_of, path_parent, path_same};
use crate::paths::{glob_refusal, is_expansion, is_glob_result, is_plain_result};
use crate::paths::{path_text, resolved, same_as, selection, Expansion, LockOutcome, Lookup};
use crate::paths::{Walk, WalkEntry};
use crate::process::{is_launch_info, is_process_config};
use crate::process::{process_bash, process_env, process_name_of};
use crate::task_state::{ProcessLaunchInfo, TaskState};
use crate::text::stripped;

verus! {

/// A character out of `*`, `?`, `[` and `{`.
pub open spec fn is_glob_char(c: char) -> bool {
    c == '*' || c == '?' || c == '[' || c == '{'
}

/// A text without the characters of globs.
pub open spec fn is_plain_path(text: Seq<char>) -> bool {
    forall|i: int| 0 <= i < text.len() ==> !is_glob_char(#[trigger] text[i])
}

/// A path is a glob exactly where one of `*`, `?`, `[` and `{` is in it.
pub proof fn law_globs_are_told_by_characters(path: Seq<char>)
    ensures
        has_special(path) <==> path.contains('*') || path.contains('?') || path.contains('[')
            || path.contains('{'),
        has_special(path) <==> !is_plain_path(path),
{
    if has_special(path) {
        let i = choose|i: int| 0 <= i < path.len() && is_special(#[trigger] path[i]);
        assert(path.contains(path[i]));
    }
    if !is_plain_path(path) {
        let i = choose|i: int| 0 <= i < path.len() && is_glob_char(#[trigger] path[i]);
        assert(is_special(path[i]));
    }
    if path.contains('*') || path.contains('?') || path.contains('[') || path.contains('{') {
        let i = choose|i: int| 0 <= i < path.len() && is_glob_char(#[trigger] path[i]);
        assert(is_special(path[i]));
    }
}

proof fn lemma_first_special(prefix: Seq<char>, rest: Seq<char>)
    requires
        is_plain_path(prefix),
        rest.len() > 0 ==> is_glob_char(rest[0]),
    ensures
        first_special(prefix + rest) == prefix.len(),
    decreases prefix.len(),
{
    let all = prefix + rest;
    if prefix.len() == 0 {
        assert(all =~= rest);
    } else {
        assert(all[0] == prefix[0]);
        assert(!is_glob_char(prefix[0]));
        assert(all.drop_first() =~= prefix.drop_first() + rest);
        assert(is_plain_path(prefix.drop_first())) by {
            assert(forall|i: int|
                0 <= i < prefix.len() - 1 ==> #[trigger] prefix.drop_first()[i] == prefix[i + 1]);
        }
        lemma_first_special(prefix.drop_first(), rest);
    }
}

/// A glob is looked for in the directory of the part of it that stands before
/// its first glob character, which is the current one where it has none.
pub proof fn law_globs_are_looked_for_below(pattern: PathBuf, prefix: Seq<char>, rest: Seq<char>)
    requires
        path_text(pattern) == prefix + rest,
        is_plain_path(prefix),
        rest.len() > 0 ==> is_glob_char(rest[0]),
    ensures
        base_dir(pattern) == match path_parent(path_of(prefix)) {
            Some(parent) => parent,
            None => path_of("."@),
        },
{
    lemma_first_special(prefix, rest);
    assert((prefix + rest).take(prefix.len() as int) =~= prefix);
}

/// A glob is matched by its text from the directory on. Where that has no
/// slash, it gets one at its front.
pub proof fn law_globs_are_relative(pattern: PathBuf, base: PathBuf)
    ensures
        ({
            let text = match path_below(pattern, base) {
                Some(rest) => path_text(rest),
                None => path_text(pattern),
            };
            &&& text.contains('/') ==> anchored(pattern, base) == text
            &&& !text.contains('/') ==> anchored(pattern, base) == seq!['/'] + text
        }),
{
    reveal_strlit("/");
    assert("/"@ =~= seq!['/']);
    let text = match path_below(pattern, base) {
        Some(rest) => path_text(rest),
        None => path_text(pattern),
    };
    assert(text == path_text(
        match path_below(pattern, base) {
            Some(rest) => rest,
            None => pattern,
        },
    ));
}

/// An absolute path stands for itself, any other one for itself from the
/// working directory on.
pub proof fn law_paths_are_resolved(declaration: Seq<char>, cwd: PathBuf)
    ensures
        path_is_absolute(declaration) ==> resolved(declaration, cwd) == path_of(declaration),
        !path_is_absolute(declaration) ==> resolved(declaration, cwd) == path_join(
            cwd,
            declaration,
        ),
{
}

/// Nothing is selected from nothing, and each further entry is selected
/// exactly where the glob selects it.
pub proof fn law_selection(
    base: PathBuf,
    pattern: Seq<char>,
    entries: Seq<WalkEntry>,
    entry: WalkEntry,
)
    ensures
        selection(base, pattern, Seq::<WalkEntry>::empty()) == Seq::<PathBuf>::empty(),
        glob_selects(base, pattern, entry.path, entry.is_dir) ==> selection(
            base,
            pattern,
            entries.push(entry),
        ) == selection(base, pattern, entries).push(entry.path),
        !glob_selects(base, pattern, entry.path, entry.is_dir) ==> selection(
            base,
            pattern,
            entries.push(entry),
        ) == selection(base, pattern, entries),
{
    assert(entries.push(entry).drop_last() =~= entries);
}

proof fn lemma_same_as_first(paths: Seq<PathBuf>, path: PathBuf)
    ensures
        forall|k: int|
            0 <= k < paths.len() && path_same(path, #[trigger] paths[k]) ==> same_as(
                paths,
                path,
            ).len() > 0,
        same_as(paths, path).len() > 0 ==> exists|k: int|
            #![trigger paths[k]]
            0 <= k < paths.len() && path_same(path, paths[k]) && paths[k] == same_as(paths, path)[0]
                && forall|m: int| 0 <= m < k ==> !path_same(path, #[trigger] paths[m]),
    decreases paths.len(),
{
    if paths.len() > 0 {
        let init = paths.drop_last();
        let n = paths.len() - 1;
        lemma_same_as_first(init, path);
        assert(forall|k: int| 0 <= k < n ==> #[trigger] init[k] == paths[k]);
        if same_as(init, path).len() > 0 {
            let k = choose|k: int|
                #![trigger init[k]]
                0 <= k < init.len() && path_same(path, init[k]) && init[k] == same_as(
                    init,
                    path,
                )[0] && forall|m: int| 0 <= m < k ==> !path_same(path, #[trigger] init[m]);
            assert(paths[k] == same_as(paths, path)[0]);
            assert forall|m: int| 0 <= m < k implies !path_same(path, #[trigger] paths[m]) by {
                assert(init[m] == paths[m]);
            }
        } else {
            assert forall|m: int| 0 <= m < n implies !path_same(path, #[trigger] paths[m]) by {
                assert(init[m] == paths[m]);
            }
            if path_same(path, paths[n]) {
                assert(same_as(paths, path)[0] == paths[n]);
            }
        }
        assert forall|k: int| 0 <= k < paths.len() && path_same(path, #[trigger] paths[k]) implies
            same_as(paths, path).len() > 0 by {
            if k < n {
                assert(init[k] == paths[k]);
            }
        }
    }
}

/// Each match is the first one found of those with its components.
pub proof fn law_first_found_stays(paths: Seq<PathBuf>, r: Seq<PathBuf>, i: int)
    requires
        is_ordered_selection(paths, r),
        0 <= i < r.len(),
    ensures
        exists|k: int|
            #![trigger paths[k]]
            0 <= k < paths.len() && paths[k] == r[i] && forall|m: int|
                0 <= m < k ==> !path_same(r[i], #[trigger] paths[m]),
{
    assert(same_as(paths, r[i]).len() > 0 && same_as(paths, r[i])[0] == r[i]) by {
        law_matches_are_in_order(paths, r);
    }
    lemma_same_as_first(paths, r[i]);
}

/// The directory of a file is its parent, and the current one without one.
pub proof fn law_dir_of_a_file(path: PathBuf)
    ensures
        path_parent(path) is Some ==> dir_of(path) == path_parent(path)->0,
        path_parent(path) is None ==> dir_of(path) == path_of("."@),
{
}

/// What is said about a lock that could not be had, and nothing about one that
/// could.
pub proof fn law_lock_messages(lock: Seq<char>, error: String)
    ensures
        lock_message(lock, LockOutcome::Acquired) is None,
        lock_message(lock, LockOutcome::Refused(error)) == Some(
            "failed to lock "@ + lock + ": "@ + error@,
        ),
        lock_message(lock, LockOutcome::WorkerStopped(error)) == Some(
            "task lock worker stopped before locking "@ + lock + ": "@ + error@,
        ),
{
}

/// What follows a prefix is what is put behind it, and only a text that begins
/// with the prefix has anything behind it.
pub proof fn law_prefixes_are_stripped(text: Seq<char>, prefix: Seq<char>, rest: Seq<char>)
    ensures
        stripped(prefix + rest, prefix) == Some(rest),
        stripped(text, prefix) is Some ==> text == prefix + stripped(text, prefix)->0,
{
    assert((prefix + rest).skip(prefix.len() as int) =~= rest);
    assert(prefix.is_prefix_of(prefix + rest)) by {
        assert((prefix + rest).take(prefix.len() as int) =~= prefix);
    }
    if stripped(text, prefix) is Some {
        assert(text =~= prefix + text.skip(prefix.len() as int));
    }
}

/// A process is called as its task is without `devenv:processes:` at the front
/// of it, and as its task is where it does not begin so.
pub proof fn law_process_names(name: Seq<char>, rest: Seq<char>)
    ensures
        process_name_of("devenv:processes:"@ + rest) == rest,
        (forall|end: Seq<char>| name != #[trigger] ("devenv:processes:"@ + end))
            ==> process_name_of(name) == name,
{
    law_prefixes_are_stripped(name, "devenv:processes:"@, rest);
    if stripped(name, "devenv:processes:"@) is Some {
        let end = stripped(name, "devenv:processes:"@)->0;
        assert(name == "devenv:processes:"@ + end);
    }
}

/// A process has the variables and the shell of its configuration; without
/// one it has no variables of its own, and `bash`.
pub proof fn law_process_defaults(config: ProcessConfig)
    ensures
        process_env(Some(config)) == config.env@,
        process_env(None) == Map::<Seq<char>, String>::empty(),
        process_bash(Some(config)) == config.bash@,
        process_bash(None) == "bash"@,
{
}

/// A declared path is looked for as a glob exactly where it has a glob
/// character, and else as it is. The glob goes below the directory of its plain
/// part, and the path is the declared one or, where that is relative, the one
/// from the working directory on.
pub proof fn law_declared_paths_are_looked_for(declaration: Seq<char>, cwd: PathBuf, r: Expansion)
    requires
        is_expansion(declaration, cwd, r),
    ensures
        r is Plain <==> is_plain_path(declaration),
        match r {
            Expansion::Plain { path } => path == if path_is_absolute(declaration) {
                path_of(declaration)
            } else {
                path_join(cwd, declaration)
            },
            Expansion::Glob { base, pattern } => {
                let path = if path_is_absolute(declaration) {
                    path_of(declaration)
                } else {
                    path_join(cwd, declaration)
                };
                &&& base == base_dir(path)
                &&& pattern@ == anchored(path, base)
            },
        },
{
    law_globs_are_told_by_characters(declaration);
}

/// A path that is there is its own only match, and one that is not has none.
/// What cannot be told is an error.
pub proof fn law_plain_paths_are_found(
    path: PathBuf,
    found: Lookup,
    r: Result<Vec<PathBuf>, CacheError>,
)
    requires
        is_plain_result(path, found, r),
    ensures
        r is Ok <==> !(found is Failed),
        found is Found ==> r->Ok_0@.len() == 1 && r->Ok_0@[0] == path,
        found is NotFound ==> r->Ok_0@.len() == 0,
        found matches Lookup::Failed(error) ==> r == Err::<Vec<PathBuf>, CacheError>(
            CacheError::Reported(error),
        ),
{
}

/// A glob whose directory is not there has no matches. Else it is an error
/// where the glob cannot be built, or where the walk failed, and its matches
/// are the entries that it selects.
pub proof fn law_globs_are_found(
    base: PathBuf,
    pattern: Seq<char>,
    walk: Walk,
    r: Result<Vec<PathBuf>, CacheError>,
)
    requires
        is_glob_result(base, pattern, walk, r),
    ensures
        r is Ok <==> walk is Missing || (walk is Entries && glob_refusal(pattern) is None),
        walk is Missing ==> r->Ok_0@.len() == 0,
        walk matches Walk::Entries(entries) ==> r is Ok ==> r->Ok_0@ == selection(
            base,
            pattern,
            entries@,
        ),
        r matches Err(e) ==> e matches CacheError::Initialization(message) && match glob_refusal(
            pattern,
        ) {
            Some(refusal) => message@ == refusal,
            None => walk matches Walk::Failed(error) && message@ == error@,
        },
{
}

/// What a process is configured with: the command, the directory and the name
/// of its task, and of the variables those of the process before those of the
/// task before those given.
pub proof fn law_process_config(
    task: TaskState,
    env: Map<Seq<char>, String>,
    bash: Seq<char>,
    config: ProcessConfig,
    name: Seq<char>,
)
    requires
        is_process_config(task, env, bash, config),
    ensures
        task.task.command == Some(config.exec_command),
        config.name@ == process_name_of(task.task.name@),
        task.task.cwd is None ==> config.cwd is None,
        task.task.cwd is Some ==> config.cwd == Some(path_of(task.task.cwd->0@)),
        ({
            let own = task.task.process;
            if own is Some && own->0.env@.contains_key(name) {
                config.env@.contains_key(name) && config.env@[name] == own->0.env@[name]
            } else if task.task.env@.contains_key(name) {
                config.env@.contains_key(name) && config.env@[name] == task.task.env@[name]
            } else if env.contains_key(name) {
                config.env@.contains_key(name) && config.env@[name] == env[name]
            } else {
                !config.env@.contains_key(name)
            }
        }),
        bash.len() > 0 ==> config.bash@ == bash,
        bash.len() == 0 && task.task.process is Some ==> config.bash@
            == task.task.process->0.bash@,
        bash.len() == 0 && task.task.process is None ==> config.bash@ == "bash"@,
        config.readiness_probe <==> task.task.process is Some
            && task.task.process->0.readiness_probe,
        !config.start_enabled <==> task.task.process is Some
            && !task.task.process->0.start_enabled,
{
}

/// A process that was not started is off, one with a probe has to be waited
/// for, and both go by the name of their configuration.
pub proof fn law_launch_info(config: ProcessConfig, started: bool, info: ProcessLaunchInfo)
    requires
        is_launch_info(config, started, info),
    ensures
        started != info.auto_start_off,
        config.readiness_probe == info.requires_ready_wait,
        info.process_name@ == config.name@,
{
}

} // verus!

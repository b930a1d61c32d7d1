//! What outputs hold and what commands get of them, told by the members of the
//! JSON values.

use serde_json::Value;
use std::time::Instant;
use vstd::prelude::*;
use crate::completion::{dropped_warning, is_cwd_error, is_run_output, is_status_output};
use crate::completion::{or_empty, run_warnings, status_warnings, StatusRun};
use crate::environment::{env_error, layered_env};
use crate::error::{EnvError, TaskError};
use crate::exports::{file_exports, file_warnings, line_texts, stdout_exports, stdout_warnings};
use crate::exports::ExportView;
use crate::json::{json_members, json_object, json_parsed, json_printed, json_string, json_text};
use crate::outputs::{carried, carries, collected, env_of, last_export, overlaid, Outputs};
use crate::shell::{is_plain, quoted_char, quoted_chars, script_lines, shell_quoted, unix_quoted};
use crate::shell::{windows_quoted, Shell};
use crate::strmap::sorted_items;
use crate::task_state::TaskState;
use crate::text::decimal;

verus! {

/// The members of a JSON object.
pub open spec fn members(v: Value) -> Map<Seq<char>, Value> {
    json_members(v)->0
}

/// The output is an object with the object `devenv`, which has the object
/// `env` with these members.
pub open spec fn is_env(v: Value, env: Map<Seq<char>, Value>) -> bool {
    &&& json_members(v) is Some
    &&& members(v).contains_key("devenv"@)
    &&& json_members(members(v)["devenv"@]) is Some
    &&& members(members(v)["devenv"@]).contains_key("env"@)
    &&& json_members(members(members(v)["devenv"@])["env"@]) == Some(env)
}

/// The output is an object, and so are its `devenv` and the `env` in that,
/// where they are there.
pub open spec fn has_place(v: Value) -> bool {
    &&& json_members(v) is Some
    &&& members(v).contains_key("devenv"@) ==> {
        &&& json_members(members(v)["devenv"@]) is Some
        &&& members(members(v)["devenv"@]).contains_key("env"@) ==> json_members(
            members(members(v)["devenv"@])["env"@],
        ) is Some
    }
}

/// The members of the `devenv` of an output, none where it has none.
pub open spec fn devenv_members(v: Value) -> Map<Seq<char>, Value> {
    if members(v).contains_key("devenv"@) {
        members(members(v)["devenv"@])
    } else {
        Map::empty()
    }
}

/// The members of the `devenv.env` of an output, none where it has none.
pub open spec fn env_members(v: Value) -> Map<Seq<char>, Value> {
    if devenv_members(v).contains_key("env"@) {
        members(devenv_members(v)["env"@])
    } else {
        Map::empty()
    }
}

/// No export behind place `i` has its name.
pub open spec fn is_last(exports: Seq<ExportView>, i: int) -> bool {
    &&& 0 <= i < exports.len()
    &&& forall|j: int| i < j < exports.len() ==> (#[trigger] exports[j]).0 != exports[i].0
}

/// No export has the name.
pub open spec fn is_unnamed(exports: Seq<ExportView>, name: Seq<char>) -> bool {
    forall|i: int| 0 <= i < exports.len() ==> (#[trigger] exports[i]).0 != name
}

/// The two maps hold the same under a name.
pub open spec fn same_at(
    one: Map<Seq<char>, Value>,
    other: Map<Seq<char>, Value>,
    name: Seq<char>,
) -> bool {
    &&& one.contains_key(name) == other.contains_key(name)
    &&& one.contains_key(name) ==> one[name] == other[name]
}

/// `after` is `before` with the exports in its `devenv.env`, where that has a
/// place, and `before` itself where it has none.
pub open spec fn is_inserted(before: Value, exports: Seq<ExportView>, after: Value) -> bool {
    if has_place(before) {
        &&& is_env(after, env_members(after))
        &&& forall|key: Seq<char>|
            key != "devenv"@ ==> #[trigger] same_at(members(after), members(before), key)
        &&& forall|key: Seq<char>|
            key != "env"@ ==> #[trigger] same_at(devenv_members(after), devenv_members(before), key)
        &&& forall|i: int|
            #![trigger exports[i]]
            is_last(exports, i) ==> {
                &&& env_members(after).contains_key(exports[i].0)
                &&& env_members(after)[exports[i].0] == json_text(exports[i].1)
                &&& json_string(env_members(after)[exports[i].0]) == Some(exports[i].1)
            }
        &&& forall|name: Seq<char>|
            is_unnamed(exports, name) ==> #[trigger] same_at(
                env_members(after),
                env_members(before),
                name,
            )
    } else {
        after == before
    }
}

/// The last export of a name decides.
pub proof fn law_last_export_counts(exports: Seq<ExportView>, name: Seq<char>)
    ensures
        forall|i: int|
            #![trigger exports[i]]
            is_last(exports, i) && exports[i].0 == name ==> last_export(exports, name) == Some(
                exports[i].1,
            ),
        is_unnamed(exports, name) ==> last_export(exports, name) is None,
    decreases exports.len(),
{
    if exports.len() > 0 {
        let init = exports.drop_last();
        let n = exports.len() - 1;
        law_last_export_counts(init, name);
        assert(forall|j: int| 0 <= j < n ==> #[trigger] init[j] == exports[j]);
        assert forall|i: int|
            #![trigger exports[i]]
            is_last(exports, i) && exports[i].0 == name implies last_export(exports, name) == Some(
            exports[i].1,
        ) by {
            if i < n {
                assert(exports[n].0 != exports[i].0);
                assert(is_last(init, i));
                assert(init[i] == exports[i]);
            }
        }
        if is_unnamed(exports, name) {
            assert(exports[n].0 != name);
            assert(is_unnamed(init, name));
        }
    }
}

/// An output has a place for exports where it, its `devenv` and its
/// `devenv.env` are objects as far as they are there.
pub proof fn law_place_for_exports(v: Value)
    ensures
        env_of(v) is Some <==> has_place(v),
        env_of(v) is Some ==> env_of(v)->0 == env_members(v),
{
}

/// Exports are written over the `devenv.env` of an output as strings, the last
/// one of each name. All else in the output stays, and all of an output
/// without a place for them.
pub proof fn law_exports_are_inserted(before: Value, exports: Seq<ExportView>, after: Value)
    requires
        carries(before, exports, after),
    ensures
        is_inserted(before, exports, after),
{
    law_place_for_exports(before);
    law_place_for_exports(after);
    if has_place(before) {
        let env = env_of(before)->0;
        let new = env_of(after)->0;
        assert(overlaid(env, exports, new));
        assert forall|key: Seq<char>| key != "devenv"@ implies #[trigger] same_at(
            members(after),
            members(before),
            key,
        ) by {
            let rest = members(before).remove("devenv"@);
            assert(members(after).remove("devenv"@) == rest);
            assert(members(after).remove("devenv"@).contains_key(key) == rest.contains_key(key));
            assert(rest.contains_key(key) ==> members(after).remove("devenv"@)[key] == rest[key]);
        }
        assert forall|key: Seq<char>| key != "env"@ implies #[trigger] same_at(
            devenv_members(after),
            devenv_members(before),
            key,
        ) by {
            let rest = devenv_members(before).remove("env"@);
            let now = devenv_members(after).remove("env"@);
            assert(now == rest);
            assert(now.contains_key(key) == rest.contains_key(key));
            assert(rest.contains_key(key) ==> now[key] == rest[key]);
        }
        assert forall|i: int| #![trigger exports[i]] is_last(exports, i) implies {
            &&& env_members(after).contains_key(exports[i].0)
            &&& env_members(after)[exports[i].0] == json_text(exports[i].1)
            &&& json_string(env_members(after)[exports[i].0]) == Some(exports[i].1)
        } by {
            let name = exports[i].0;
            law_last_export_counts(exports, name);
            assert(last_export(exports, name) == Some(exports[i].1));
            assert(new.contains_key(name));
            assert(env_members(after) == new);
        }
        assert forall|name: Seq<char>| is_unnamed(exports, name) implies #[trigger] same_at(
            env_members(after),
            env_members(before),
            name,
        ) by {
            law_last_export_counts(exports, name);
            assert(new.contains_key(name) || !new.contains_key(name));
        }
    }
}

/// What an output carries are the strings in its `devenv.env`, and nothing
/// else.
pub proof fn law_outputs_carry_strings(v: Value, env: Map<Seq<char>, Value>, name: Seq<char>)
    ensures
        is_env(v, env) ==> {
            &&& carried(v).contains_key(name) == (env.contains_key(name) && json_string(env[name])
                is Some)
            &&& carried(v).contains_key(name) ==> Some(carried(v)[name]) == json_string(env[name])
        },
        carried(v).contains_key(name) ==> is_env(v, env_members(v)),
{
}

/// What outputs carry together is what at least one of them carries, and of
/// those that carry a name the last one gives its value.
pub proof fn law_outputs_are_collected(items: Seq<(Seq<char>, Value)>, name: Seq<char>)
    ensures
        collected(items).contains_key(name) <==> exists|i: int|
            0 <= i < items.len() && #[trigger] carried(items[i].1).contains_key(name),
        collected(items).contains_key(name) ==> exists|i: int|
            0 <= i < items.len() && #[trigger] carried(items[i].1).contains_key(name) && collected(
                items,
            )[name] == carried(items[i].1)[name] && forall|j: int|
                i < j < items.len() ==> !#[trigger] carried(items[j].1).contains_key(name),
    decreases items.len(),
{
    if items.len() > 0 {
        let init = items.drop_last();
        let n = items.len() - 1;
        law_outputs_are_collected(init, name);
        assert(forall|j: int| 0 <= j < n ==> #[trigger] init[j] == items[j]);
        if carried(items[n].1).contains_key(name) {
        } else if collected(init).contains_key(name) {
            let i = choose|i: int|
                0 <= i < init.len() && #[trigger] carried(init[i].1).contains_key(name)
                    && collected(init)[name] == carried(init[i].1)[name] && forall|j: int|
                    i < j < init.len() ==> !#[trigger] carried(init[j].1).contains_key(name);
            assert(carried(items[i].1).contains_key(name));
            assert forall|j: int| i < j < items.len() implies !#[trigger] carried(
                items[j].1,
            ).contains_key(name) by {
                if j < n {
                    assert(!carried(init[j].1).contains_key(name));
                }
            }
        } else {
            assert forall|i: int| 0 <= i < items.len() implies !#[trigger] carried(
                items[i].1,
            ).contains_key(name) by {
                if i < n {
                    assert(!carried(init[i].1).contains_key(name));
                }
            }
        }
    }
}

/// What a run leaves behind. Without exports it is the JSON value of its
/// output file, and nothing where that was not read or holds none. With
/// exports it is that value, or an empty object in place of nothing, with what
/// the run printed and then what its exports file holds written into it.
pub proof fn law_run_output(
    output_data: Option<Vec<u8>>,
    export_data: Option<Vec<u8>>,
    lines: Seq<(Instant, String)>,
    output: Option<Value>,
)
    requires
        is_run_output(output_data, export_data, lines, output),
    ensures
        ({
            let found = match output_data {
                Some(data) => json_parsed(data@),
                None => None,
            };
            let filed = match export_data {
                Some(data) => file_exports(data@),
                None => Seq::empty(),
            };
            let exports = stdout_exports(line_texts(lines)) + filed;
            if exports.len() == 0 {
                output == found
            } else {
                output is Some && match found {
                    Some(v) => is_inserted(v, exports, output->0),
                    None => is_inserted(json_object(Map::empty()), exports, output->0) && has_place(
                        json_object(Map::empty()),
                    ),
                }
            }
        }),
{
    let filed = match export_data {
        Some(data) => file_exports(data@),
        None => Seq::empty(),
    };
    let exports = stdout_exports(line_texts(lines)) + filed;
    let found = match output_data {
        Some(data) => json_parsed(data@),
        None => None,
    };
    if exports.len() > 0 {
        law_exports_are_inserted(or_empty(found), exports, output->0);
        law_place_for_exports(json_object(Map::empty()));
    }
}

/// What is told about the exports of a run: first about its lines, then about
/// its exports file, and last how many exports were dropped because the output
/// has no place for them.
pub proof fn law_run_warnings(
    output_data: Option<Vec<u8>>,
    export_data: Option<Vec<u8>>,
    lines: Seq<(Instant, String)>,
)
    ensures
        ({
            let found = match output_data {
                Some(data) => json_parsed(data@),
                None => None,
            };
            let base = match found {
                Some(v) => v,
                None => json_object(Map::empty()),
            };
            let (filed, about_file) = match export_data {
                Some(data) => (file_exports(data@), file_warnings(data@)),
                None => (Seq::empty(), Seq::empty()),
            };
            let exports = stdout_exports(line_texts(lines)) + filed;
            let told = stdout_warnings(line_texts(lines)) + about_file;
            if exports.len() > 0 && !has_place(base) {
                run_warnings(output_data, export_data, lines) == told.push(
                    "Task output is not a JSON object, "@ + decimal(exports.len())
                        + " export(s) dropped"@,
                )
            } else {
                run_warnings(output_data, export_data, lines) == told
            }
        }),
{
    let found = match output_data {
        Some(data) => json_parsed(data@),
        None => None,
    };
    let base = match found {
        Some(v) => v,
        None => json_object(Map::empty()),
    };
    law_place_for_exports(base);
    let (filed, about_file) = match export_data {
        Some(data) => (file_exports(data@), file_warnings(data@)),
        None => (Seq::empty(), Seq::empty()),
    };
    let exports = stdout_exports(line_texts(lines)) + filed;
    let told = stdout_warnings(line_texts(lines)) + about_file;
    let all = run_warnings(output_data, export_data, lines);
    if exports.len() > 0 && !has_place(base) {
        assert(dropped_warning(found, exports) is Some);
        assert(all =~= told.push(dropped_warning(found, exports)->0));
    } else {
        assert(dropped_warning(found, exports) is None);
        assert(all =~= told);
    }
}

/// A task whose status command succeeded is taken to have output what it
/// output before, or an empty object, with what the status command exports
/// written into it.
pub proof fn law_status_output(data: Option<Vec<u8>>, cached: Option<Value>, output: Value)
    requires
        is_status_output(data, cached, output),
    ensures
        ({
            let base = match cached {
                Some(v) => v,
                None => json_object(Map::empty()),
            };
            match data {
                Some(data) => is_inserted(base, file_exports(data@), output),
                None => output == base,
            }
        }),
        match data {
            Some(bytes) => status_warnings(StatusRun::Succeeded(data)) == file_warnings(bytes@),
            None => status_warnings(StatusRun::Succeeded(data)) == Seq::<Seq<char>>::empty(),
        },
        status_warnings(StatusRun::Failed) == Seq::<Seq<char>>::empty(),
{
    if let Some(data) = data {
        law_exports_are_inserted(or_empty(cached), file_exports(data@), output);
    }
}

/// Nothing is told about a status command that did not succeed.
pub proof fn law_failed_status_says_nothing(error: String)
    ensures
        status_warnings(StatusRun::NotStarted(error)) == Seq::<Seq<char>>::empty(),
{
}

/// An error about a working directory is about the one of the task: that it is
/// not there, or else that it is no directory.
pub proof fn law_cwd_errors(task: TaskState, exists: bool, is_dir: bool, e: TaskError)
    ensures
        is_cwd_error(task, exists, is_dir, e) <==> {
            &&& task.task.cwd is Some
            &&& !(exists && is_dir)
            &&& match e {
                TaskError::CwdMissing { task: name, cwd } => !exists && name == task.task.name
                    && cwd == task.task.cwd->0,
                TaskError::CwdNotDirectory { task: name, cwd } => exists && !is_dir && name
                    == task.task.name && cwd == task.task.cwd->0,
                _ => false,
            }
        },
{
}

/// What each variable of a command holds.
pub proof fn law_env_is_layered(
    task: TaskState,
    outputs: Outputs,
    shell_env: Map<Seq<char>, String>,
    shell: Shell,
    name: Seq<char>,
)
    ensures
        ({
            let env = layered_env(task, outputs, shell_env, shell);
            let exported = collected(sorted_items(outputs.0@));
            if name == "DEVENV_TASKS_OUTPUTS"@ {
                &&& env.contains_key(name)
                &&& env[name] == json_printed(json_object(outputs.0@))->0
            } else if task.task.env@.contains_key(name) {
                env.contains_key(name) && env[name] == task.task.env@[name]@
            } else if name == "DEVENV_TASK_ENV"@ {
                env.contains_key(name) && env[name] == script_lines(shell, sorted_items(exported))
            } else if exported.contains_key(name) {
                env.contains_key(name) && env[name] == exported[name]
            } else if name == "DEVENV_TASK_INPUT"@ && task.task.input is Some {
                env.contains_key(name) && env[name] == json_printed(task.task.input->0)->0
            } else if shell_env.contains_key(name) {
                env.contains_key(name) && env[name] == shell_env[name]@
            } else {
                !env.contains_key(name)
            }
        }),
{
    crate::environment::law_env_precedence(task, outputs, shell_env, shell, name);
}

/// An environment cannot be prepared where the input has no JSON text, and
/// else where the outputs have none. It can in all other cases.
pub proof fn law_env_errors(task: TaskState, outputs: Outputs)
    ensures
        env_error(task, outputs) == if task.task.input is Some && json_printed(task.task.input->0)
            is None {
            Some(EnvError::Input)
        } else if json_printed(json_object(outputs.0@)) is None {
            Some(EnvError::Outputs)
        } else {
            None
        },
{
}

/// The script of no variables is empty, and each further variable adds a line
/// that exports it, with its value as one word of the shell.
pub proof fn law_script_has_a_line_each(
    items: Seq<(Seq<char>, Seq<char>)>,
    name: Seq<char>,
    value: Seq<char>,
)
    ensures
        script_lines(Shell::Unix, Seq::empty()) == Seq::<char>::empty(),
        script_lines(Shell::Windows, Seq::empty()) == Seq::<char>::empty(),
        script_lines(Shell::Unix, items.push((name, value))) == script_lines(Shell::Unix, items)
            + "export "@ + name + "="@ + unix_quoted(value) + "\n"@,
        script_lines(Shell::Windows, items.push((name, value))) == script_lines(
            Shell::Windows,
            items,
        ) + "export "@ + name + "="@ + windows_quoted(value) + "\n"@,
        shell_quoted(Shell::Unix, value) == unix_quoted(value),
        shell_quoted(Shell::Windows, value) == windows_quoted(value),
{
    let more = items.push((name, value));
    assert(more.drop_last() =~= items);
    assert(script_lines(Shell::Unix, more) =~= script_lines(Shell::Unix, items) + "export "@ + name
        + "="@ + unix_quoted(value) + "\n"@);
    assert(script_lines(Shell::Windows, more) =~= script_lines(Shell::Windows, items) + "export "@
        + name + "="@ + windows_quoted(value) + "\n"@);
}

/// What a Unix shell makes of a word: single quotes come in pairs and keep what
/// is between them as it is, and outside of them a backslash keeps the
/// character behind it.
pub open spec fn read_word(word: Seq<char>, quoted: bool) -> Seq<char>
    decreases word.len(),
{
    if word.len() == 0 {
        Seq::empty()
    } else if word[0] == '\'' {
        read_word(word.skip(1), !quoted)
    } else if !quoted && word[0] == '\\' && word.len() > 1 {
        seq![word[1]] + read_word(word.skip(2), quoted)
    } else {
        seq![word[0]] + read_word(word.skip(1), quoted)
    }
}

proof fn lemma_read_char(c: char, rest: Seq<char>)
    ensures
        read_word(quoted_char(c) + rest, true) == seq![c] + read_word(rest, true),
{
    let word = quoted_char(c) + rest;
    if c == '\'' || c == '!' {
        assert(word.skip(1)[0] == '\\' && word.skip(1)[1] == c);
        assert(word.skip(1).skip(2) =~= seq!['\''] + rest);
        assert((seq!['\''] + rest).skip(1) =~= rest);
        assert((seq!['\''] + rest)[0] == '\'');
        assert(read_word(seq!['\''] + rest, false) == read_word(rest, true));
        assert(word[0] == '\'');
        assert(read_word(word, true) == read_word(word.skip(1), false));
        assert(read_word(word.skip(1), false) == seq![c] + read_word(seq!['\''] + rest, false));
    } else {
        assert(word.skip(1) =~= rest);
    }
}

proof fn lemma_read_chars(text: Seq<char>, rest: Seq<char>)
    ensures
        read_word(quoted_chars(text) + rest, true) == text + read_word(rest, true),
    decreases text.len(),
{
    if text.len() == 0 {
        assert(quoted_chars(text) + rest =~= rest);
        assert(text + read_word(rest, true) =~= read_word(rest, true));
    } else {
        let init = text.drop_last();
        let c = text.last();
        assert(quoted_chars(text) + rest =~= quoted_chars(init) + (quoted_char(c) + rest));
        lemma_read_chars(init, quoted_char(c) + rest);
        lemma_read_char(c, rest);
        assert(init + (seq![c] + read_word(rest, true)) =~= text + read_word(rest, true));
    }
}

proof fn lemma_read_plain(text: Seq<char>)
    requires
        forall|i: int| 0 <= i < text.len() ==> is_plain(#[trigger] text[i]),
    ensures
        read_word(text, false) == text,
    decreases text.len(),
{
    if text.len() > 0 {
        assert(is_plain(text[0]));
        assert forall|i: int| 0 <= i < text.skip(1).len() implies is_plain(
            #[trigger] text.skip(1)[i],
        ) by {
            assert(is_plain(text[i + 1]));
        }
        lemma_read_plain(text.skip(1));
        assert(seq![text[0]] + text.skip(1) =~= text);
    } else {
        assert(read_word(text, false) =~= text);
    }
}

/// A Unix shell reads every exported value back from its quoted word.
pub proof fn law_quoted_words_read_back(text: Seq<char>)
    ensures
        read_word(shell_quoted(Shell::Unix, text), false) == text,
{
    let word = shell_quoted(Shell::Unix, text);
    if text.len() > 0 && (forall|i: int| 0 <= i < text.len() ==> is_plain(#[trigger] text[i])) {
        lemma_read_plain(text);
    } else {
        let inner = quoted_chars(text) + seq!['\''];
        assert(word =~= seq!['\''] + inner);
        assert(word.skip(1) =~= inner);
        lemma_read_chars(text, seq!['\'']);
        assert(seq!['\''].skip(1) =~= Seq::empty());
        assert(read_word(Seq::<char>::empty(), false) =~= Seq::empty());
        assert(read_word(seq!['\''], true) =~= read_word(seq!['\''].skip(1), false));
        assert(text + Seq::<char>::empty() =~= text);
    }
}

} // verus!

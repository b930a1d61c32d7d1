//! What a cache entry depends on besides the declared paths.

use serde_json::Value;
use vstd::prelude::*;
use crate::config::{TaskCacheConfig, TaskCacheConfigView};
use crate::error::TaskError;
use crate::outputs::Outputs;
use crate::strmap::{texts, StrMap};
use crate::task_cache::{PathState, PathStateView};
use crate::task_state::TaskState;
use crate::text::text_views;

verus! {

/// Everything besides the declared paths that the result of a cached task
/// depends on. Its hash tells cache entries apart.
#[derive(Debug)]
pub struct Definition<'a> {
    pub schema: u8,
    pub command: &'a Option<String>,
    pub command_snapshot: Option<PathState>,
    pub status: &'a Option<String>,
    pub status_snapshot: Option<PathState>,
    pub input: &'a Option<Value>,
    pub task_env: &'a StrMap<String>,
    pub cwd: String,
    pub cache: &'a TaskCacheConfig,
    pub inherited_env: StrMap<Option<String>>,
    pub shell_identity: StrMap<Option<String>>,
    pub dependency_outputs: &'a Outputs,
}

/// What was found out about the surroundings of a task.
#[derive(Debug)]
pub struct Surroundings {
    /// The current directory, where it is known.
    pub current_dir: Option<String>,
    /// What stands at the path that the command names.
    pub command_snapshot: Option<PathState>,
    /// What stands at the path that the status command names.
    pub status_snapshot: Option<PathState>,
}

/// `name` is one of `names`.
pub open spec fn names_contain(names: Seq<String>, name: Seq<char>) -> bool {
    exists|i: int| 0 <= i < names.len() && #[trigger] names[i]@ == name
}

/// The value of a variable, if it is set.
pub open spec fn lookup(env: Map<Seq<char>, String>, name: Seq<char>) -> Option<String> {
    if env.contains_key(name) {
        Some(env[name])
    } else {
        None
    }
}

/// The named variables, each with its value if it is set.
pub open spec fn selected(names: Seq<String>, env: Map<Seq<char>, String>) -> Map<
    Seq<char>,
    Option<String>,
> {
    Map::new(|name: Seq<char>| names_contain(names, name), |name: Seq<char>| lookup(env, name))
}

/// A variable that tells shells apart.
pub open spec fn is_identity_name(name: Seq<char>) -> bool {
    name == "DEVENV_ROOT"@ || name == "DEVENV_DOTFILE"@ || name == "DEVENV_PROFILE"@
}

/// The variables that tell shells apart.
pub open spec fn shell_identity(env: Map<Seq<char>, String>) -> Map<Seq<char>, Option<String>> {
    Map::new(|name: Seq<char>| is_identity_name(name), |name: Seq<char>| lookup(env, name))
}

/// The named variables, each with its value if it is set.
fn select(names: &Vec<String>, env: &StrMap<String>) -> (r: StrMap<Option<String>>)
    ensures
        r@ == selected(names@, env@),
{
    let mut r: StrMap<Option<String>> = StrMap::new();
    let mut i: usize = 0;
    assert(r@ =~= selected(names@.take(0), env@));
    while i < names.len()
        invariant
            i <= names@.len(),
            r@ == selected(names@.take(i as int), env@),
        decreases names@.len() - i,
    {
        let ghost before = names@.take(i as int);
        let ghost after = names@.take(i + 1);
        let value = match env.get(names[i].as_str()) {
            Some(value) => Some(value.clone()),
            None => None,
        };
        let ghost known = r@;
        r = r.insert(names[i].clone(), value);
        assert forall|name: Seq<char>| names_contain(after, name) <==> (names_contain(before, name)
            || name == names@[i as int]@) by {
            if names_contain(before, name) {
                let j = choose|j: int| 0 <= j < before.len() && #[trigger] before[j]@ == name;
                assert(after[j]@ == name);
            }
            if name == names@[i as int]@ {
                assert(after[i as int]@ == name);
            }
            if names_contain(after, name) {
                let j = choose|j: int| 0 <= j < after.len() && #[trigger] after[j]@ == name;
                if j < i {
                    assert(before[j]@ == name);
                }
            }
        }
        assert(r@ =~= selected(after, env@));
        i += 1;
    }
    assert(names@.take(names@.len() as int) =~= names@);
    r
}

/// The variables that tell shells apart.
fn select_identity(env: &StrMap<String>) -> (r: StrMap<Option<String>>)
    ensures
        r@ == shell_identity(env@),
{
    let names: Vec<String> = vec![
        "DEVENV_ROOT".to_string(),
        "DEVENV_DOTFILE".to_string(),
        "DEVENV_PROFILE".to_string(),
    ];
    let r = select(&names, env);
    assert forall|name: Seq<char>| names_contain(names@, name) <==> is_identity_name(name) by {
        assert(names@[0]@ == "DEVENV_ROOT"@);
        assert(names@[1]@ == "DEVENV_DOTFILE"@);
        assert(names@[2]@ == "DEVENV_PROFILE"@);
    }
    assert(r@ =~= shell_identity(env@));
    r
}

/// The directory that a task runs in: its own, else the current one.
pub open spec fn working_dir(task: TaskState, current_dir: Option<String>) -> Option<Seq<char>> {
    match (task.task.cwd, current_dir) {
        (Some(cwd), _) => Some(cwd@),
        (None, Some(current)) => Some(current@),
        (None, None) => None,
    }
}

/// A text, if there is one.
pub open spec fn optional_text(text: Option<String>) -> Option<Seq<char>> {
    match text {
        Some(text) => Some(text@),
        None => None,
    }
}

/// The variables with their values as texts.
pub open spec fn optional_texts(m: Map<Seq<char>, Option<String>>) -> Map<
    Seq<char>,
    Option<Seq<char>>,
> {
    m.map_values(|text: Option<String>| optional_text(text))
}

/// The contents of a state, if there is one.
pub open spec fn optional_state(state: Option<PathState>) -> Option<PathStateView> {
    match state {
        Some(state) => Some(state@),
        None => None,
    }
}

/// What stands at a path that a command names, where there is a command.
pub open spec fn executable_view(
    command: Option<String>,
    found: Option<PathState>,
) -> Option<PathStateView> {
    match command {
        Some(_) => optional_state(found),
        None => None,
    }
}

/// The contents of a [`Definition`].
pub struct DefinitionView {
    pub schema: u8,
    pub command: Option<Seq<char>>,
    pub command_snapshot: Option<PathStateView>,
    pub status: Option<Seq<char>>,
    pub status_snapshot: Option<PathStateView>,
    pub input: Option<Value>,
    pub task_env: Map<Seq<char>, Seq<char>>,
    pub cwd: Seq<char>,
    pub cache: TaskCacheConfigView,
    pub inherited_env: Map<Seq<char>, Option<Seq<char>>>,
    pub shell_identity: Map<Seq<char>, Option<Seq<char>>>,
    pub dependency_outputs: Map<Seq<char>, Value>,
}

impl<'a> View for Definition<'a> {
    type V = DefinitionView;

    open spec fn view(&self) -> DefinitionView {
        DefinitionView {
            schema: self.schema,
            command: optional_text(*self.command),
            command_snapshot: optional_state(self.command_snapshot),
            status: optional_text(*self.status),
            status_snapshot: optional_state(self.status_snapshot),
            input: *self.input,
            task_env: texts(self.task_env@),
            cwd: self.cwd@,
            cache: self.cache@,
            inherited_env: optional_texts(self.inherited_env@),
            shell_identity: optional_texts(self.shell_identity@),
            dependency_outputs: self.dependency_outputs.0@,
        }
    }
}

/// The definition of a cached task in its surroundings, where its directory is
/// known.
pub open spec fn definition_of(
    task: TaskState,
    outputs: Outputs,
    shell_env: Map<Seq<char>, String>,
    found: Surroundings,
) -> Option<DefinitionView> {
    let config = task.task;
    match (config.cache, working_dir(task, found.current_dir)) {
        (Some(cache), Some(cwd)) => Some(
            DefinitionView {
                schema: 2,
                command: optional_text(config.command),
                command_snapshot: executable_view(config.command, found.command_snapshot),
                status: optional_text(config.status),
                status_snapshot: executable_view(config.status, found.status_snapshot),
                input: config.input,
                task_env: texts(config.env@),
                cwd,
                cache: cache@,
                inherited_env: optional_texts(selected(cache.env@, shell_env)),
                shell_identity: optional_texts(shell_identity(shell_env)),
                dependency_outputs: outputs.0@,
            },
        ),
        _ => None,
    }
}

impl TaskState {
    /// What the cache entry of the task depends on.
    pub fn cache_definition<'a>(
        &'a self,
        dependency_outputs: &'a Outputs,
        shell_env: &StrMap<String>,
        found: Surroundings,
    ) -> (r: Result<Definition<'a>, TaskError>)
        requires
            self.task.cache is Some,
        ensures
            match r {
                Ok(d) => {
                    &&& working_dir(*self, found.current_dir) == Some(d.cwd@)
                    &&& d.schema == 2
                    &&& *d.command == self.task.command
                    &&& d.command_snapshot == if self.task.command is Some {
                        found.command_snapshot
                    } else {
                        None
                    }
                    &&& *d.status == self.task.status
                    &&& d.status_snapshot == if self.task.status is Some {
                        found.status_snapshot
                    } else {
                        None
                    }
                    &&& *d.input == self.task.input
                    &&& *d.task_env == self.task.env
                    &&& *d.cache == self.task.cache->0
                    &&& d.inherited_env@ == selected(self.task.cache->0.env@, shell_env@)
                    &&& d.shell_identity@ == shell_identity(shell_env@)
                    &&& *d.dependency_outputs == *dependency_outputs
                    &&& definition_of(*self, *dependency_outputs, shell_env@, found) == Some(d@)
                },
                Err(error) => working_dir(*self, found.current_dir) is None && error
                    == TaskError::NoCurrentDir,
            },
    {
        let cache = self.task.cache.as_ref().unwrap();
        let cwd = match (&self.task.cwd, found.current_dir) {
            (Some(cwd), _) => cwd.clone(),
            (None, Some(current)) => current,
            (None, None) => {
                return Err(TaskError::NoCurrentDir);
            },
        };
        Ok(
            Definition {
                schema: 2,
                command: &self.task.command,
                command_snapshot: if self.task.command.is_some() {
                    found.command_snapshot
                } else {
                    None
                },
                status: &self.task.status,
                status_snapshot: if self.task.status.is_some() {
                    found.status_snapshot
                } else {
                    None
                },
                input: &self.task.input,
                task_env: &self.task.env,
                cwd,
                cache,
                inherited_env: select(&cache.env, shell_env),
                shell_identity: select_identity(shell_env),
                dependency_outputs,
            },
        )
    }
}

/// A variable that the definition of a task depends on: one that its cache
/// names, or one that tells shells apart.
pub open spec fn is_watched(cache: TaskCacheConfigView, name: Seq<char>) -> bool {
    is_identity_name(name) || cache.env.contains(name)
}

/// A cached task and its surroundings agree with another one, in everything
/// that the result of the task depends on besides the declared paths.
pub open spec fn agree(
    task: TaskState,
    outputs: Outputs,
    shell_env: Map<Seq<char>, String>,
    found: Surroundings,
    other_task: TaskState,
    other_outputs: Outputs,
    other_env: Map<Seq<char>, String>,
    other_found: Surroundings,
) -> bool {
    let a = task.task;
    let b = other_task.task;
    &&& optional_text(a.command) == optional_text(b.command)
    &&& executable_view(a.command, found.command_snapshot) == executable_view(
        b.command,
        other_found.command_snapshot,
    )
    &&& optional_text(a.status) == optional_text(b.status)
    &&& executable_view(a.status, found.status_snapshot) == executable_view(
        b.status,
        other_found.status_snapshot,
    )
    &&& a.input == b.input
    &&& texts(a.env@) == texts(b.env@)
    &&& working_dir(task, found.current_dir) == working_dir(other_task, other_found.current_dir)
    &&& a.cache->0@ == b.cache->0@
    &&& outputs.0@ == other_outputs.0@
    &&& forall|name: Seq<char>| #[trigger]
        is_watched(a.cache->0@, name) ==> optional_text(lookup(shell_env, name)) == optional_text(
            lookup(other_env, name),
        )
}

/// The names that a list of strings holds are the texts that it holds.
proof fn lemma_names(names: Seq<String>, name: Seq<char>)
    ensures
        names_contain(names, name) <==> text_views(names).contains(name),
{
    if names_contain(names, name) {
        let i = choose|i: int| 0 <= i < names.len() && #[trigger] names[i]@ == name;
        assert(text_views(names)[i] == name);
    }
    if text_views(names).contains(name) {
        let i = choose|i: int| 0 <= i < names.len() && text_views(names)[i] == name;
        assert(names[i]@ == name);
    }
}

/// The definition of a task is the same exactly where everything agrees that it
/// depends on: the command and the status command and what stands at their
/// paths, the input, the variables and the directory of the task, what its
/// cache declares, the outputs of its dependencies, and of the shell the
/// variables that the cache names or that tell shells apart. No other variable
/// of the shell matters.
pub proof fn law_definition_tells_what_matters(
    task: TaskState,
    outputs: Outputs,
    shell_env: Map<Seq<char>, String>,
    found: Surroundings,
    other_task: TaskState,
    other_outputs: Outputs,
    other_env: Map<Seq<char>, String>,
    other_found: Surroundings,
)
    requires
        definition_of(task, outputs, shell_env, found) is Some,
        definition_of(other_task, other_outputs, other_env, other_found) is Some,
    ensures
        definition_of(task, outputs, shell_env, found) == definition_of(
            other_task,
            other_outputs,
            other_env,
            other_found,
        ) <==> agree(
            task,
            outputs,
            shell_env,
            found,
            other_task,
            other_outputs,
            other_env,
            other_found,
        ),
{
    let one = definition_of(task, outputs, shell_env, found)->0;
    let other = definition_of(other_task, other_outputs, other_env, other_found)->0;
    let cache = task.task.cache->0;
    let other_cache = other_task.task.cache->0;
    assert forall|name: Seq<char>| #[trigger] one.inherited_env.contains_key(name)
        <==> cache@.env.contains(name) by {
        lemma_names(cache.env@, name);
    }
    assert forall|name: Seq<char>| #[trigger] other.inherited_env.contains_key(name)
        <==> other_cache@.env.contains(name) by {
        lemma_names(other_cache.env@, name);
    }
    if agree(
        task,
        outputs,
        shell_env,
        found,
        other_task,
        other_outputs,
        other_env,
        other_found,
    ) {
        assert forall|name: Seq<char>| #[trigger]
            one.inherited_env.contains_key(name) implies one.inherited_env[name]
            == other.inherited_env[name] by {
            assert(is_watched(cache@, name));
            assert(other.inherited_env.contains_key(name));
        }
        assert(one.inherited_env =~= other.inherited_env);
        assert forall|name: Seq<char>| #[trigger]
            one.shell_identity.contains_key(name) implies one.shell_identity[name]
            == other.shell_identity[name] by {
            assert(is_watched(cache@, name));
        }
        assert(one.shell_identity =~= other.shell_identity);
    }
    if one == other {
        assert forall|name: Seq<char>| #[trigger] is_watched(cache@, name) implies optional_text(
            lookup(shell_env, name),
        ) == optional_text(lookup(other_env, name)) by {
            if is_identity_name(name) {
                assert(one.shell_identity.contains_key(name));
                assert(one.shell_identity[name] == optional_text(lookup(shell_env, name)));
                assert(other.shell_identity[name] == optional_text(lookup(other_env, name)));
            } else {
                assert(one.inherited_env.contains_key(name));
                assert(other.inherited_env.contains_key(name));
                assert(one.inherited_env[name] == optional_text(lookup(shell_env, name)));
                assert(other.inherited_env[name] == optional_text(lookup(other_env, name)));
            }
        }
    }
}

/// The definition holds, for each of the three variables that tell shells apart
/// and for each variable that the cache names, the value that the shell itself
/// has for it, and nothing exactly where the shell has none. It holds no other
/// variable of the shell.
pub proof fn law_definition_holds_the_shell(
    task: TaskState,
    outputs: Outputs,
    shell_env: Map<Seq<char>, String>,
    found: Surroundings,
    d: DefinitionView,
)
    requires
        definition_of(task, outputs, shell_env, found) == Some(d),
    ensures
        d.shell_identity.contains_key("DEVENV_ROOT"@),
        d.shell_identity["DEVENV_ROOT"@] == if shell_env.contains_key("DEVENV_ROOT"@) {
            Some(shell_env["DEVENV_ROOT"@]@)
        } else {
            None
        },
        d.shell_identity.contains_key("DEVENV_DOTFILE"@),
        d.shell_identity["DEVENV_DOTFILE"@] == if shell_env.contains_key("DEVENV_DOTFILE"@) {
            Some(shell_env["DEVENV_DOTFILE"@]@)
        } else {
            None
        },
        d.shell_identity.contains_key("DEVENV_PROFILE"@),
        d.shell_identity["DEVENV_PROFILE"@] == if shell_env.contains_key("DEVENV_PROFILE"@) {
            Some(shell_env["DEVENV_PROFILE"@]@)
        } else {
            None
        },
        forall|name: Seq<char>| #[trigger]
            d.shell_identity.contains_key(name) ==> name == "DEVENV_ROOT"@ || name
                == "DEVENV_DOTFILE"@ || name == "DEVENV_PROFILE"@,
        task.task.cache is Some,
        forall|k: int|
            0 <= k < task.task.cache->0.env@.len() ==> {
                let name = (#[trigger] task.task.cache->0.env@[k])@;
                &&& d.inherited_env.contains_key(name)
                &&& d.inherited_env[name] == if shell_env.contains_key(name) {
                    Some(shell_env[name]@)
                } else {
                    None
                }
            },
        forall|name: Seq<char>| #[trigger]
            d.inherited_env.contains_key(name) ==> exists|k: int|
                0 <= k < task.task.cache->0.env@.len() && (
                #[trigger] task.task.cache->0.env@[k])@ == name,
{
    let names = task.task.cache->0.env@;
    assert forall|k: int| 0 <= k < names.len() implies {
        let name = (#[trigger] names[k])@;
        &&& d.inherited_env.contains_key(name)
        &&& d.inherited_env[name] == if shell_env.contains_key(name) {
            Some(shell_env[name]@)
        } else {
            None
        }
    } by {
        assert(names_contain(names, names[k]@));
    }
}

/// Shells that differ in a variable that tells shells apart or that the cache
/// names, be it in its value or in having it at all, give the task different
/// definitions.
pub proof fn law_other_shell_other_definition(
    task: TaskState,
    outputs: Outputs,
    shell_env: Map<Seq<char>, String>,
    other_env: Map<Seq<char>, String>,
    found: Surroundings,
    name: Seq<char>,
)
    requires
        definition_of(task, outputs, shell_env, found) is Some,
        name == "DEVENV_ROOT"@ || name == "DEVENV_DOTFILE"@ || name == "DEVENV_PROFILE"@ || (
        exists|k: int|
            0 <= k < task.task.cache->0.env@.len() && (#[trigger] task.task.cache->0.env@[k])@
                == name),
        shell_env.contains_key(name) != other_env.contains_key(name) || (shell_env.contains_key(
            name,
        ) && shell_env[name]@ != other_env[name]@),
    ensures
        definition_of(task, outputs, shell_env, found) != definition_of(
            task,
            outputs,
            other_env,
            found,
        ),
{
    let one = definition_of(task, outputs, shell_env, found)->0;
    let other = definition_of(task, outputs, other_env, found)->0;
    law_definition_holds_the_shell(task, outputs, shell_env, found, one);
    law_definition_holds_the_shell(task, outputs, other_env, found, other);
}

/// The definition holds the command and the status command of the task, what
/// stands at the paths that they name, its input, its variables, its directory,
/// what its cache declares, and the outputs of its dependencies. It is known
/// exactly where the task is cached and its directory is known.
pub proof fn law_definition_holds_the_task(
    task: TaskState,
    outputs: Outputs,
    shell_env: Map<Seq<char>, String>,
    found: Surroundings,
)
    ensures
        definition_of(task, outputs, shell_env, found) is Some <==> task.task.cache is Some && (
        task.task.cwd is Some || found.current_dir is Some),
        definition_of(task, outputs, shell_env, found) matches Some(d) ==> {
            &&& d.schema == 2
            &&& d.command is Some == task.task.command is Some
            &&& task.task.command is Some ==> d.command->0 == task.task.command->0@
            &&& d.command_snapshot is Some == (task.task.command is Some
                && found.command_snapshot is Some)
            &&& d.command_snapshot is Some ==> {
                &&& d.command_snapshot->0.path == found.command_snapshot->0.path@
                &&& d.command_snapshot->0.kind == found.command_snapshot->0.kind@
                &&& d.command_snapshot->0.content_hash == found.command_snapshot->0.content_hash@
            }
            &&& d.status is Some == task.task.status is Some
            &&& task.task.status is Some ==> d.status->0 == task.task.status->0@
            &&& d.status_snapshot is Some == (task.task.status is Some
                && found.status_snapshot is Some)
            &&& d.status_snapshot is Some ==> {
                &&& d.status_snapshot->0.path == found.status_snapshot->0.path@
                &&& d.status_snapshot->0.kind == found.status_snapshot->0.kind@
                &&& d.status_snapshot->0.content_hash == found.status_snapshot->0.content_hash@
            }
            &&& d.input == task.task.input
            &&& d.cwd == if task.task.cwd is Some {
                task.task.cwd->0@
            } else {
                found.current_dir->0@
            }
            &&& d.dependency_outputs == outputs.0@
            &&& forall|name: Seq<char>| #[trigger]
                d.task_env.contains_key(name) == task.task.env@.contains_key(name) && (
                task.task.env@.contains_key(name) ==> d.task_env[name] == task.task.env@[name]@)
        },
{
}

/// The definition holds every input and output that the cache declares, in
/// their order, and every variable that it names.
pub proof fn law_definition_holds_the_cache(
    task: TaskState,
    outputs: Outputs,
    shell_env: Map<Seq<char>, String>,
    found: Surroundings,
    d: DefinitionView,
)
    requires
        definition_of(task, outputs, shell_env, found) == Some(d),
    ensures
        d.cache.inputs.len() == task.task.cache->0.inputs@.len(),
        forall|k: int|
            0 <= k < d.cache.inputs.len() ==> (#[trigger] d.cache.inputs[k]).path
                == task.task.cache->0.inputs@[k].path@ && d.cache.inputs[k].optional
                == task.task.cache->0.inputs@[k].optional,
        d.cache.outputs.len() == task.task.cache->0.outputs@.len(),
        forall|k: int|
            0 <= k < d.cache.outputs.len() ==> (#[trigger] d.cache.outputs[k]).path
                == task.task.cache->0.outputs@[k].path@ && d.cache.outputs[k].optional
                == task.task.cache->0.outputs@[k].optional,
        d.cache.env.len() == task.task.cache->0.env@.len(),
        forall|k: int|
            0 <= k < d.cache.env.len() ==> #[trigger] d.cache.env[k]
                == task.task.cache->0.env@[k]@,
{
}

/// The view of a definition shows each of its variables.
pub proof fn law_definition_view_shows_the_variables(d: Definition)
    ensures
        forall|name: Seq<char>| #[trigger]
            d@.shell_identity.contains_key(name) == d.shell_identity@.contains_key(name) && (
            d.shell_identity@.contains_key(name) ==> match d.shell_identity@[name] {
                Some(value) => d@.shell_identity[name] == Some(value@),
                None => d@.shell_identity[name] is None,
            }),
        forall|name: Seq<char>| #[trigger]
            d@.inherited_env.contains_key(name) == d.inherited_env@.contains_key(name) && (
            d.inherited_env@.contains_key(name) ==> match d.inherited_env@[name] {
                Some(value) => d@.inherited_env[name] == Some(value@),
                None => d@.inherited_env[name] is None,
            }),
{
}

} // verus!

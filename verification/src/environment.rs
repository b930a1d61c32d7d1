//! The environment that the commands of a task get.

use serde_json::Value;
use vstd::prelude::*;
use crate::error::EnvError;
use crate::json::{json_object, json_printed, object, print_json};
use crate::outputs::{collected, Outputs};
use crate::shell::{export_script, script_lines, Shell};
use crate::strmap::{sorted_items, texts, StrMap};
use crate::task_state::TaskState;

verus! {

/// The text of the input of a task, where it has one.
pub open spec fn input_text(input: Option<Value>) -> Option<Seq<char>> {
    match input {
        Some(v) => json_printed(v),
        None => None,
    }
}

/// The text of the outputs of the dependencies.
pub open spec fn outputs_text(outputs: Outputs) -> Option<Seq<char>> {
    json_printed(json_object(outputs.0@))
}

/// The variables that the outputs of the dependencies export.
pub open spec fn upstream(outputs: Outputs) -> Map<Seq<char>, Seq<char>> {
    collected(sorted_items(outputs.0@))
}

/// The environment, from the lowest layer to the highest: the shell, the
/// input, what the dependencies export, the variables of the task, and the
/// outputs of the dependencies.
pub open spec fn layered_env(
    task: TaskState,
    outputs: Outputs,
    shell_env: Map<Seq<char>, String>,
    shell: Shell,
) -> Map<Seq<char>, Seq<char>> {
    let base = texts(shell_env);
    let with_input = if task.task.input is Some {
        base.insert("DEVENV_TASK_INPUT"@, input_text(task.task.input)->0)
    } else {
        base
    };
    with_input.union_prefer_right(upstream(outputs)).insert(
        "DEVENV_TASK_ENV"@,
        script_lines(shell, sorted_items(upstream(outputs))),
    ).union_prefer_right(texts(task.task.env@)).insert(
        "DEVENV_TASKS_OUTPUTS"@,
        outputs_text(outputs)->0,
    )
}

/// Why the environment cannot be prepared.
pub open spec fn env_error(task: TaskState, outputs: Outputs) -> Option<EnvError> {
    if task.task.input is Some && input_text(task.task.input) is None {
        Some(EnvError::Input)
    } else if outputs_text(outputs) is None {
        Some(EnvError::Outputs)
    } else {
        None
    }
}

proof fn lemma_texts_insert(m: Map<Seq<char>, String>, key: Seq<char>, text: String)
    ensures
        texts(m.insert(key, text)) == texts(m).insert(key, text@),
{
    assert(texts(m.insert(key, text)) =~= texts(m).insert(key, text@));
}

proof fn lemma_texts_union(a: Map<Seq<char>, String>, b: Map<Seq<char>, String>)
    ensures
        texts(a.union_prefer_right(b)) == texts(a).union_prefer_right(texts(b)),
{
    assert(texts(a.union_prefer_right(b)) =~= texts(a).union_prefer_right(texts(b)));
}

impl Outputs {
    /// The outputs as one JSON text.
    pub fn to_json(&self) -> (r: Option<String>)
        ensures
            match r {
                Some(text) => outputs_text(*self) == Some(text@),
                None => outputs_text(*self) is None,
            },
    {
        let mut members: StrMap<Value> = StrMap::new();
        let ghost items = sorted_items(self.0@);
        let n = self.0.len();
        let mut i: usize = 0;
        proof {
            crate::strmap::lemma_no_items::<Value>(items.take(0));
        }
        while i < n
            invariant
                i <= n,
                n == items.len(),
                items == sorted_items(self.0@),
                crate::strmap::strictly_sorted(items),
                members@ == crate::strmap::items_map(items.take(i as int)),
            decreases n - i,
        {
            members = members.insert(self.0.key(i).clone(), self.0.value(i).clone());
            proof {
                crate::strmap::lemma_take_map(items, i as int);
            }
            i += 1;
        }
        assert(items.take(items.len() as int) =~= items);
        print_json(&object(members))
    }
}

impl TaskState {
    /// The environment for a command of the task.
    pub fn prepare_env(
        &self,
        outputs: &Outputs,
        shell_env: &StrMap<String>,
        shell: Shell,
    ) -> (r: Result<StrMap<String>, EnvError>)
        ensures
            match r {
                Ok(env) => env_error(*self, *outputs) is None && texts(env@) == layered_env(
                    *self,
                    *outputs,
                    shell_env@,
                    shell,
                ),
                Err(error) => env_error(*self, *outputs) == Some(error),
            },
    {
        let mut env = shell_env.copy();
        if let Some(input) = &self.task.input {
            match print_json(input) {
                None => {
                    return Err(EnvError::Input);
                },
                Some(text) => {
                    proof {
                        lemma_texts_insert(env@, "DEVENV_TASK_INPUT"@, text);
                    }
                    env = env.insert("DEVENV_TASK_INPUT".to_string(), text);
                },
            }
        }
        let exports = outputs.collect_env_exports();
        let script = export_script(shell, &exports);
        proof {
            lemma_texts_union(env@, exports@);
        }
        env = env.extend(&exports);
        proof {
            lemma_texts_insert(env@, "DEVENV_TASK_ENV"@, script);
        }
        env = env.insert("DEVENV_TASK_ENV".to_string(), script);
        proof {
            lemma_texts_union(env@, self.task.env@);
        }
        env = env.extend(&self.task.env);
        match outputs.to_json() {
            None => Err(EnvError::Outputs),
            Some(text) => {
                proof {
                    lemma_texts_insert(env@, "DEVENV_TASKS_OUTPUTS"@, text);
                }
                Ok(env.insert("DEVENV_TASKS_OUTPUTS".to_string(), text))
            },
        }
    }
}

/// Where the value of a variable of a command comes from. `DEVENV_TASKS_OUTPUTS`
/// holds the outputs of the dependencies. Of the other variables those of the
/// task come first, then the script in `DEVENV_TASK_ENV`, then what the
/// dependencies export, then the input in `DEVENV_TASK_INPUT`, then the
/// shell. Nothing else is set.
pub proof fn law_env_precedence(
    task: TaskState,
    outputs: Outputs,
    shell_env: Map<Seq<char>, String>,
    shell: Shell,
    name: Seq<char>,
)
    ensures
        ({
            let env = layered_env(task, outputs, shell_env, shell);
            let own = task.task.env@;
            let exported = upstream(outputs);
            if name == "DEVENV_TASKS_OUTPUTS"@ {
                env.contains_key(name) && env[name] == outputs_text(outputs)->0
            } else if own.contains_key(name) {
                env.contains_key(name) && env[name] == own[name]@
            } else if name == "DEVENV_TASK_ENV"@ {
                env.contains_key(name) && env[name] == script_lines(shell, sorted_items(exported))
            } else if exported.contains_key(name) {
                env.contains_key(name) && env[name] == exported[name]
            } else if name == "DEVENV_TASK_INPUT"@ && task.task.input is Some {
                env.contains_key(name) && env[name] == input_text(task.task.input)->0
            } else {
                &&& env.contains_key(name) == shell_env.contains_key(name)
                &&& shell_env.contains_key(name) ==> env[name] == shell_env[name]@
            }
        }),
{
    reveal_strlit("DEVENV_TASKS_OUTPUTS");
    reveal_strlit("DEVENV_TASK_ENV");
    reveal_strlit("DEVENV_TASK_INPUT");
    assert("DEVENV_TASKS_OUTPUTS"@.len() != "DEVENV_TASK_ENV"@.len());
    assert("DEVENV_TASK_INPUT"@.len() != "DEVENV_TASK_ENV"@.len());
    assert("DEVENV_TASK_INPUT"@.len() != "DEVENV_TASKS_OUTPUTS"@.len());
}

} // verus!

//! What tasks output, and the variables that their outputs carry.
//!
//! An output is a JSON value. Its exports are the strings in the object
//! `devenv.env`.

use serde_json::Value;
use vstd::prelude::*;
use crate::exports::{export_views, ExportView};
use crate::json::{into_members, json_members, json_object, json_string, json_text};
use crate::json::{object, text_value, value_text};
use crate::strmap::{items_map, lemma_key, lemma_place, place, sorted_items, strictly_sorted};
use crate::strmap::{texts, StrMap};

verus! {

/// What a task wrote as its output.
#[derive(Debug)]
pub struct Output(pub Option<Value>);

/// The outputs of tasks by their names.
#[derive(Debug)]
pub struct Outputs(pub StrMap<Value>);

/// The members of the object under `key`. It counts as empty where it is
/// missing, and is nothing where another value stands there.
pub open spec fn object_at(members: Map<Seq<char>, Value>, key: Seq<char>) -> Option<
    Map<Seq<char>, Value>,
> {
    if members.contains_key(key) {
        json_members(members[key])
    } else {
        Some(Map::empty())
    }
}

/// The members of `devenv` in an output.
pub open spec fn devenv_of(v: Value) -> Option<Map<Seq<char>, Value>> {
    match json_members(v) {
        Some(members) => object_at(members, "devenv"@),
        None => None,
    }
}

/// The members of `devenv.env` in an output. Nothing where the output, its
/// `devenv` or its `devenv.env` is there and is no object.
pub open spec fn env_of(v: Value) -> Option<Map<Seq<char>, Value>> {
    match devenv_of(v) {
        Some(members) => object_at(members, "env"@),
        None => None,
    }
}

/// The value that the last export of `name` gives it.
pub open spec fn last_export(exports: Seq<ExportView>, name: Seq<char>) -> Option<Seq<char>>
    decreases exports.len(),
{
    if exports.len() == 0 {
        None
    } else if exports.last().0 == name {
        Some(exports.last().1)
    } else {
        last_export(exports.drop_last(), name)
    }
}

/// `after` is `before` with the exports written over it as strings.
pub open spec fn overlaid(
    before: Map<Seq<char>, Value>,
    exports: Seq<ExportView>,
    after: Map<Seq<char>, Value>,
) -> bool {
    forall|name: Seq<char>|
        match last_export(exports, name) {
            Some(text) => #[trigger] after.contains_key(name) && after[name] == json_text(text)
                && json_string(after[name]) == Some(text),
            None => after.contains_key(name) == before.contains_key(name) && (before.contains_key(
                name,
            ) ==> after[name] == before[name]),
        }
}

/// `after` is the output `before` with the exports written into its
/// `devenv.env`. Nothing else in it changes, and nothing at all where it has
/// no place for them.
pub open spec fn carries(before: Value, exports: Seq<ExportView>, after: Value) -> bool {
    match env_of(before) {
        None => after == before,
        Some(env) => {
            &&& json_members(after) is Some
            &&& json_members(after)->0.contains_key("devenv"@)
            &&& json_members(after)->0.remove("devenv"@) == json_members(before)->0.remove(
                "devenv"@,
            )
            &&& devenv_of(after) is Some
            &&& devenv_of(after)->0.contains_key("env"@)
            &&& devenv_of(after)->0.remove("env"@) == devenv_of(before)->0.remove("env"@)
            &&& env_of(after) is Some
            &&& overlaid(env, exports, env_of(after)->0)
            &&& after == json_object(json_members(after)->0)
            &&& json_members(after)->0["devenv"@] == json_object(devenv_of(after)->0)
            &&& devenv_of(after)->0["env"@] == json_object(env_of(after)->0)
        },
    }
}

/// The members of the object under `key` and the members beside it, or the
/// members as they are where another value stands there.
fn take_object(members: StrMap<Value>, key: &str) -> (r: Result<
    (StrMap<Value>, StrMap<Value>),
    StrMap<Value>,
>)
    ensures
        match r {
            Ok((inner, rest)) => object_at(members@, key@) == Some(inner@) && rest@
                == members@.remove(key@),
            Err(same) => object_at(members@, key@) is None && same@ == members@,
        },
{
    let ghost all = members@;
    let (found, rest) = members.take(key);
    match found {
        None => Ok((StrMap::new(), rest)),
        Some(v) => match into_members(v) {
            Ok(inner) => Ok((inner, rest)),
            Err(v) => {
                let same = rest.insert(key.to_string(), v);
                assert(same@ =~= all);
                Err(same)
            },
        },
    }
}

/// The members with the exports written over them.
fn overlay(members: StrMap<Value>, exports: &Vec<(String, String)>) -> (r: StrMap<Value>)
    ensures
        overlaid(members@, export_views(exports@), r@),
{
    let ghost before = members@;
    let ghost all = export_views(exports@);
    let mut after = members;
    let mut i: usize = 0;
    while i < exports.len()
        invariant
            i <= exports@.len(),
            all == export_views(exports@),
            overlaid(before, all.take(i as int), after@),
        decreases exports@.len() - i,
    {
        let ghost known = after@;
        after = after.insert(exports[i].0.clone(), text_value(exports[i].1.clone()));
        assert(all.take(i + 1).drop_last() =~= all.take(i as int));
        assert forall|name: Seq<char>|
            match last_export(all.take(i + 1), name) {
                Some(text) => #[trigger] after@.contains_key(name) && after@[name] == json_text(
                    text,
                ) && json_string(after@[name]) == Some(text),
                None => after@.contains_key(name) == before.contains_key(name) && (
                before.contains_key(name) ==> after@[name] == before[name]),
            } by {
            assert(known.contains_key(name) || !known.contains_key(name));
        }
        i += 1;
    }
    assert(all.take(all.len() as int) =~= all);
    after
}

/// Writes exports into the `devenv.env` of an output. The flag says whether
/// the output has a place for them.
pub fn insert_exports(output: Value, exports: &Vec<(String, String)>) -> (r: (Value, bool))
    ensures
        carries(output, export_views(exports@), r.0),
        r.1 == env_of(output) is Some,
{
    let unchanged = output.clone();
    let top = match into_members(output) {
        Ok(top) => top,
        Err(_) => {
            return (unchanged, false);
        },
    };
    let (devenv, beside_devenv) = match take_object(top, "devenv") {
        Ok(parts) => parts,
        Err(_) => {
            return (unchanged, false);
        },
    };
    let (env, beside_env) = match take_object(devenv, "env") {
        Ok(parts) => parts,
        Err(_) => {
            return (unchanged, false);
        },
    };
    let env_after = overlay(env, exports);
    let devenv_after = beside_env.insert("env".to_string(), object(env_after));
    let after = beside_devenv.insert("devenv".to_string(), object(devenv_after));
    proof {
        assert(devenv_after@.remove("env"@) =~= beside_env@);
        assert(after@.remove("devenv"@) =~= beside_devenv@);
    }
    (object(after), true)
}

/// The exports that one output carries: the strings of its `devenv.env`.
pub open spec fn carried(v: Value) -> Map<Seq<char>, Seq<char>> {
    Map::new(
        |name: Seq<char>|
            env_of(v) is Some && env_of(v)->0.contains_key(name) && json_string(env_of(v)->0[name])
                is Some,
        |name: Seq<char>| json_string(env_of(v)->0[name])->0,
    )
}

/// The exports that outputs carry together. Of two outputs that export the
/// same name the later one counts.
pub open spec fn collected(items: Seq<(Seq<char>, Value)>) -> Map<Seq<char>, Seq<char>>
    decreases items.len(),
{
    if items.len() == 0 {
        Map::empty()
    } else {
        collected(items.drop_last()).union_prefer_right(carried(items.last().1))
    }
}

/// The members of `devenv.env` in an output.
fn env_members(v: &Value) -> (r: Option<StrMap<Value>>)
    ensures
        match r {
            Some(members) => env_of(*v) == Some(members@),
            None => env_of(*v) is None,
        },
{
    let top = match into_members(v.clone()) {
        Ok(top) => top,
        Err(_) => {
            return None;
        },
    };
    let devenv = match take_object(top, "devenv") {
        Ok((devenv, _)) => devenv,
        Err(_) => {
            return None;
        },
    };
    match take_object(devenv, "env") {
        Ok((env, _)) => Some(env),
        Err(_) => None,
    }
}

/// `exports` with the exports that an output carries written over them.
fn add_carried(exports: StrMap<String>, v: &Value) -> (r: StrMap<String>)
    ensures
        texts(r@) == texts(exports@).union_prefer_right(carried(*v)),
{
    let ghost before = texts(exports@);
    let members = match env_members(v) {
        Some(members) => members,
        None => {
            assert(before.union_prefer_right(carried(*v)) =~= before);
            return exports;
        },
    };
    let ghost items = sorted_items(members@);
    let mut after = exports;
    let mut i: usize = 0;
    let n = members.len();
    assert(texts(after@) =~= before);
    while i < n
        invariant
            i <= n,
            n == items.len(),
            items == sorted_items(members@),
            env_of(*v) == Some(members@),
            strictly_sorted(items),
            items_map(items) == members@,
            forall|name: Seq<char>|
                {
                    let given = carried(*v).contains_key(name) && place(items, name) < i;
                    &&& #[trigger] texts(after@).contains_key(name) == (given
                        || before.contains_key(name))
                    &&& given ==> texts(after@)[name] == carried(*v)[name]
                    &&& !given && before.contains_key(name) ==> texts(after@)[name]
                        == before[name]
                },
        decreases n - i,
    {
        let ghost known = texts(after@);
        let ghost key = items[i as int].0;
        proof {
            lemma_place(items, i as int);
        }
        let name = members.key(i);
        assert(members@[key] == items[i as int].1);
        match value_text(members.value(i)) {
            Some(text) => {
                after = after.insert(name.clone(), text.to_string());
                assert(carried(*v).contains_key(key) && carried(*v)[key] == text@);
                assert(texts(after@) =~= known.insert(key, text@));
            },
            None => {
                assert(!carried(*v).contains_key(key));
                assert(texts(after@) =~= known);
            },
        }
        assert forall|name: Seq<char>|
            {
                let given = carried(*v).contains_key(name) && place(items, name) < i + 1;
                &&& #[trigger] texts(after@).contains_key(name) == (given || before.contains_key(
                    name,
                ))
                &&& given ==> texts(after@)[name] == carried(*v)[name]
                &&& !given && before.contains_key(name) ==> texts(after@)[name] == before[name]
            } by {
            assert(known.contains_key(name) || !known.contains_key(name));
            if carried(*v).contains_key(name) {
                lemma_key(items, name);
                if place(items, name) == i {
                    assert(name == key);
                }
            }
        }
        i += 1;
    }
    assert forall|name: Seq<char>| carried(*v).contains_key(name) implies place(items, name)
        < n by {
        lemma_key(items, name);
    }
    assert(texts(after@) =~= before.union_prefer_right(carried(*v)));
    after
}

impl Outputs {
    /// The variables that the outputs export together.
    pub fn collect_env_exports(&self) -> (r: StrMap<String>)
        ensures
            texts(r@) == collected(sorted_items(self.0@)),
    {
        let ghost items = sorted_items(self.0@);
        let mut exports: StrMap<String> = StrMap::new();
        let n = self.0.len();
        let mut i: usize = 0;
        assert(texts(exports@) =~= collected(items.take(0)));
        while i < n
            invariant
                i <= n,
                n == items.len(),
                items == sorted_items(self.0@),
                texts(exports@) == collected(items.take(i as int)),
            decreases n - i,
        {
            exports = add_carried(exports, self.0.value(i));
            assert(items.take(i + 1).drop_last() =~= items.take(i as int));
            i += 1;
        }
        assert(items.take(items.len() as int) =~= items);
        exports
    }
}

/// What a task exports reaches the tasks that depend on it: the last export of
/// a name is what its output carries, and names that were not exported keep
/// what they had.
pub proof fn law_exports_are_carried(
    before: Value,
    exports: Seq<ExportView>,
    after: Value,
    name: Seq<char>,
)
    requires
        carries(before, exports, after),
        env_of(before) is Some,
    ensures
        match last_export(exports, name) {
            Some(text) => carried(after).contains_key(name) && carried(after)[name] == text,
            None => carried(after).contains_key(name) == carried(before).contains_key(name) && (
            carried(before).contains_key(name) ==> carried(after)[name] == carried(before)[name]),
        },
{
    assert(env_of(after)->0.contains_key(name) || !env_of(after)->0.contains_key(name));
}

/// Of two lists of exports the later one takes precedence, name by name.
pub proof fn law_later_exports_win(first: Seq<ExportView>, then: Seq<ExportView>, name: Seq<char>)
    ensures
        last_export(first + then, name) == match last_export(then, name) {
            Some(text) => Some(text),
            None => last_export(first, name),
        },
    decreases then.len(),
{
    if then.len() == 0 {
        assert(first + then =~= first);
    } else {
        assert((first + then).drop_last() =~= first + then.drop_last());
        law_later_exports_win(first, then.drop_last(), name);
    }
}

/// Of the outputs that export a name, the last one in the order of the task
/// names gives it its value.
pub proof fn law_later_output_wins(items: Seq<(Seq<char>, Value)>, i: int, name: Seq<char>)
    requires
        0 <= i < items.len(),
        carried(items[i].1).contains_key(name),
        forall|j: int| i < j < items.len() ==> !#[trigger] carried(items[j].1).contains_key(name),
    ensures
        collected(items).contains_key(name),
        collected(items)[name] == carried(items[i].1)[name],
    decreases items.len(),
{
    let rest = items.drop_last();
    if i < rest.len() {
        assert(!carried(items[items.len() - 1].1).contains_key(name));
        assert forall|j: int| i < j < rest.len() implies !#[trigger] carried(
            rest[j].1,
        ).contains_key(name) by {
            assert(rest[j] == items[j]);
        }
        law_later_output_wins(rest, i, name);
    }
}

} // verus!

//! The cache entry of a task: what was declared, what was found, and when
//! an entry is still current.

use serde_json::Value;
use vstd::prelude::*;
use crate::config::{CachePath, CachePathView};
use crate::error::CacheError;
use crate::text::{join, joined};

verus! {

/// What was found at a path.
#[derive(Debug, PartialEq, Eq)]
pub struct PathState {
    pub path: String,
    pub kind: String,
    pub content_hash: String,
}

/// The contents of a [`PathState`].
pub struct PathStateView {
    pub path: Seq<char>,
    pub kind: Seq<char>,
    pub content_hash: Seq<char>,
}

impl View for PathState {
    type V = PathStateView;

    open spec fn view(&self) -> PathStateView {
        PathStateView {
            path: self.path@,
            kind: self.kind@,
            content_hash: self.content_hash@,
        }
    }
}

impl Clone for PathState {
    fn clone(&self) -> (r: Self)
        ensures
            r == *self,
    {
        PathState {
            path: self.path.clone(),
            kind: self.kind.clone(),
            content_hash: self.content_hash.clone(),
        }
    }
}

/// A declared path with everything that was found for it.
#[derive(Clone, Debug, PartialEq, Eq)]
pub struct DeclaredPathSnapshot {
    pub declaration: CachePath,
    pub matches: Vec<PathState>,
}

/// The contents of a [`DeclaredPathSnapshot`].
pub struct DeclaredView {
    pub declaration: CachePathView,
    pub matches: Seq<PathStateView>,
}

impl View for DeclaredPathSnapshot {
    type V = DeclaredView;

    open spec fn view(&self) -> DeclaredView {
        DeclaredView {
            declaration: self.declaration@,
            matches: self.matches@.map_values(|state: PathState| state@),
        }
    }
}

/// The declared paths of one side of a task, each with what was found.
#[derive(Clone, Debug, PartialEq, Eq)]
pub struct PathSnapshot {
    pub declarations: Vec<DeclaredPathSnapshot>,
}

impl View for PathSnapshot {
    type V = Seq<DeclaredView>;

    open spec fn view(&self) -> Seq<DeclaredView> {
        self.declarations@.map_values(|entry: DeclaredPathSnapshot| entry@)
    }
}

/// A declared path that has to be there and is not.
pub open spec fn is_missing(entry: DeclaredView) -> bool {
    !entry.declaration.optional && entry.matches.len() == 0
}

/// The declared paths that have to be there and are not, in their order.
pub open spec fn missing(snapshot: Seq<DeclaredView>) -> Seq<Seq<char>> {
    snapshot.filter(|entry: DeclaredView| is_missing(entry)).map_values(
        |entry: DeclaredView| entry.declaration.path,
    )
}

impl PathSnapshot {
    /// The declared paths that have to be there and are not.
    pub fn missing_required(&self) -> (paths: Vec<&str>)
        ensures
            paths@.map_values(|path: &str| path@) == missing(self@),
    {
        let mut paths: Vec<&str> = Vec::new();
        let mut i: usize = 0;
        let ghost wanted = |entry: DeclaredView| is_missing(entry);
        let ghost path_of = |entry: DeclaredView| entry.declaration.path;
        let ghost all = self@;
        assert(all.take(0).filter(wanted) =~= Seq::empty()) by {
            reveal(Seq::filter);
        }
        while i < self.declarations.len()
            invariant
                i <= self.declarations@.len(),
                all == self@,
                wanted == |entry: DeclaredView| is_missing(entry),
                path_of == |entry: DeclaredView| entry.declaration.path,
                paths@.map_values(|path: &str| path@) == all.take(i as int).filter(
                    wanted,
                ).map_values(path_of),
            decreases self.declarations@.len() - i,
        {
            let entry = &self.declarations[i];
            let ghost before = all.take(i as int);
            assert(all.take(i + 1) =~= before.push(entry@));
            assert(before.push(entry@).filter(wanted) == if wanted(entry@) {
                before.filter(wanted).push(entry@)
            } else {
                before.filter(wanted)
            }) by {
                reveal(Seq::filter);
                assert(before.push(entry@).drop_last() =~= before);
            }
            if !entry.declaration.optional && entry.matches.len() == 0 {
                let ghost kept = before.filter(wanted);
                let ghost known = paths@;
                paths.push(entry.declaration.path.as_str());
                assert(paths@.map_values(|path: &str| path@) =~= known.map_values(
                    |path: &str| path@,
                ).push(path_of(entry@)));
                assert(kept.push(entry@).map_values(path_of) =~= kept.map_values(path_of).push(
                    path_of(entry@),
                ));
            }
            i += 1;
        }
        assert(all.take(all.len() as int) =~= all);
        paths
    }

    /// Whether every required path is there.
    pub fn is_complete(&self) -> (r: bool)
        ensures
            r == (missing(self@).len() == 0),
    {
        let paths = self.missing_required();
        assert(paths@.map_values(|path: &str| path@).len() == paths@.len());
        paths.len() == 0
    }

    /// Whether two snapshots show the same.
    pub fn same(&self, other: &PathSnapshot) -> (r: bool)
        ensures
            r == (self@ == other@),
    {
        if self.declarations.len() != other.declarations.len() {
            assert(self@.len() != other@.len());
            return false;
        }
        let mut i: usize = 0;
        while i < self.declarations.len()
            invariant
                i <= self.declarations@.len(),
                self.declarations@.len() == other.declarations@.len(),
                forall|j: int| 0 <= j < i ==> #[trigger] self@[j] == other@[j],
            decreases self.declarations@.len() - i,
        {
            if !self.declarations[i].same(&other.declarations[i]) {
                assert(self@[i as int] != other@[i as int]);
                return false;
            }
            i += 1;
        }
        assert(self@ =~= other@);
        true
    }

    /// The declared paths, each with what was found for it.
    pub fn new(declarations: &Vec<CachePath>, matches: Vec<Vec<PathState>>) -> (r: Self)
        requires
            declarations@.len() == matches@.len(),
        ensures
            r.declarations@.len() == declarations@.len(),
            forall|i: int|
                0 <= i < declarations@.len() ==> (#[trigger] r.declarations@[i]).declaration
                    == declarations@[i] && r.declarations@[i].matches == matches@[i],
    {
        let ghost all = matches@;
        let mut rest = matches;
        let mut reversed: Vec<DeclaredPathSnapshot> = Vec::new();
        while rest.len() > 0
            invariant
                rest@ == all.take(rest@.len() as int),
                rest@.len() + reversed@.len() == all.len(),
                declarations@.len() == all.len(),
                forall|i: int|
                    0 <= i < reversed@.len() ==> (#[trigger] reversed@[i]).declaration
                        == declarations@[all.len() - 1 - i] && reversed@[i].matches == all[all.len()
                        - 1 - i],
            decreases rest@.len(),
        {
            let i = rest.len() - 1;
            if let Some(found) = rest.pop() {
                reversed.push(
                    DeclaredPathSnapshot { declaration: declarations[i].clone(), matches: found },
                );
            }
        }
        let ghost backwards = reversed@;
        let mut entries: Vec<DeclaredPathSnapshot> = Vec::new();
        while reversed.len() > 0
            invariant
                backwards.len() == all.len(),
                reversed@ == backwards.take(reversed@.len() as int),
                entries@.len() + reversed@.len() == all.len(),
                forall|i: int|
                    0 <= i < entries@.len() ==> #[trigger] entries@[i] == backwards[all.len() - 1
                        - i],
            decreases reversed@.len(),
        {
            if let Some(entry) = reversed.pop() {
                entries.push(entry);
            }
        }
        PathSnapshot { declarations: entries }
    }
}

impl PathState {
    /// Whether two states are the same.
    pub fn same(&self, other: &PathState) -> (r: bool)
        ensures
            r == (self@ == other@),
    {
        self.path == other.path && self.kind == other.kind && self.content_hash
            == other.content_hash
    }
}

impl DeclaredPathSnapshot {
    /// Whether the same was declared and the same was found.
    pub fn same(&self, other: &DeclaredPathSnapshot) -> (r: bool)
        ensures
            r == (self@ == other@),
    {
        if self.declaration.path != other.declaration.path || self.declaration.optional
            != other.declaration.optional || self.matches.len() != other.matches.len() {
            assert(self@.declaration != other@.declaration || self@.matches.len()
                != other@.matches.len());
            return false;
        }
        let mut i: usize = 0;
        while i < self.matches.len()
            invariant
                i <= self.matches@.len(),
                self.matches@.len() == other.matches@.len(),
                forall|j: int| 0 <= j < i ==> #[trigger] self@.matches[j] == other@.matches[j],
            decreases self.matches@.len() - i,
        {
            if !self.matches[i].same(&other.matches[i]) {
                assert(self@.matches[i as int] != other@.matches[i as int]);
                return false;
            }
            i += 1;
        }
        assert(self@.matches =~= other@.matches);
        true
    }
}

/// A complete cache entry: what a successful run started from and left
/// behind.
#[derive(Clone, Debug)]
pub struct CachedRun {
    pub definition_hash: String,
    pub input_snapshot: PathSnapshot,
    pub output_snapshot: PathSnapshot,
    pub output: Option<Value>,
}

/// An entry that was made for this definition and these inputs.
pub open spec fn is_entry_for(
    entry: CachedRun,
    definition_hash: Seq<char>,
    inputs: Seq<DeclaredView>,
) -> bool {
    entry.definition_hash@ == definition_hash && entry.input_snapshot@ == inputs
}

/// The outputs that an entry left behind are all still there, unchanged.
pub open spec fn outputs_untouched(entry: CachedRun, outputs: Seq<DeclaredView>) -> bool {
    missing(outputs).len() == 0 && outputs == entry.output_snapshot@
}

impl CachedRun {
    /// Whether the entry was made for this definition and these inputs.
    pub fn matches(&self, definition_hash: &String, inputs: &PathSnapshot) -> (r: bool)
        ensures
            r == is_entry_for(*self, definition_hash@, inputs@),
    {
        self.definition_hash == *definition_hash && self.input_snapshot.same(inputs)
    }

    /// Whether the outputs of the entry are all still there, unchanged.
    pub fn outputs_hold(&self, outputs: &PathSnapshot) -> (r: bool)
        ensures
            r == outputs_untouched(*self, outputs@),
    {
        outputs.is_complete() && outputs.same(&self.output_snapshot)
    }
}

/// Why a successful run may not be cached.
pub open spec fn contract_breach(
    before: Seq<DeclaredView>,
    inputs: Seq<DeclaredView>,
    outputs: Seq<DeclaredView>,
) -> Option<Seq<char>> {
    if missing(inputs).len() > 0 {
        Some(
            "required cache inputs are missing after task success: "@ + joined(
                missing(inputs),
                ", "@,
            ),
        )
    } else if missing(outputs).len() > 0 {
        Some(
            "required cache outputs are missing after task success: "@ + joined(
                missing(outputs),
                ", "@,
            ),
        )
    } else if before != inputs {
        Some("cache inputs changed while the task was running"@)
    } else {
        None
    }
}

/// Why a successful run may not be cached: a required path is missing, or
/// the inputs changed while it ran.
pub fn contract_error(
    before: &PathSnapshot,
    inputs: &PathSnapshot,
    outputs: &PathSnapshot,
) -> (r: Option<String>)
    ensures
        match r {
            Some(error) => contract_breach(before@, inputs@, outputs@) == Some(error@),
            None => contract_breach(before@, inputs@, outputs@) is None,
        },
{
    let missing_inputs = inputs.missing_required();
    let missing_outputs = outputs.missing_required();
    assert(missing(inputs@).len() == missing_inputs@.len());
    assert(missing(outputs@).len() == missing_outputs@.len());
    if missing_inputs.len() > 0 {
        let mut error = "required cache inputs are missing after task success: ".to_string();
        error.append(join(&missing_inputs, ", ").as_str());
        Some(error)
    } else if missing_outputs.len() > 0 {
        let mut error = "required cache outputs are missing after task success: ".to_string();
        error.append(join(&missing_outputs, ", ").as_str());
        Some(error)
    } else if !before.same(inputs) {
        Some("cache inputs changed while the task was running".to_string())
    } else {
        None
    }
}

/// What was found at the path that a command names.
#[derive(Debug)]
pub enum ExecutableLookup {
    Found(PathState),
    NotFound,
    Failed(String),
}

/// The state of a command that names a path. A command that names none has
/// no state.
pub fn snapshot_executable(found: ExecutableLookup) -> (r: Result<Option<PathState>, CacheError>)
    ensures
        r == match found {
            ExecutableLookup::Found(state) => Ok::<Option<PathState>, CacheError>(Some(state)),
            ExecutableLookup::NotFound => Ok(None),
            ExecutableLookup::Failed(error) => Err(CacheError::Reported(error)),
        },
{
    match found {
        ExecutableLookup::Found(state) => Ok(Some(state)),
        ExecutableLookup::NotFound => Ok(None),
        ExecutableLookup::Failed(error) => Err(CacheError::Reported(error)),
    }
}

} // verus!

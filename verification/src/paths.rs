//! Paths: the calls into `std::path` and `ignore`, where the cache keeps its
//! files, and what a declared path stands for.
//!
//! A path need not be a text. The names for what `std::path` returns speak of
//! the system that the library is built for.

use ignore::overrides::{Override, OverrideBuilder};
use ignore::Match;
use std::path::{Path, PathBuf};
use vstd::prelude::*;
use crate::error::{concat4, CacheError};
use crate::text::characters;

verus! {

/// A path of the system.
#[verifier::external_type_specification]
#[verifier::external_body]
pub struct ExPathBuf(std::path::PathBuf);

/// The globs that `ignore` matches paths against.
#[verifier::external_type_specification]
#[verifier::external_body]
pub struct ExOverride(ignore::overrides::Override);

/// The directory and the glob that an override was built from.
pub uninterp spec fn override_of(o: ignore::overrides::Override) -> (std::path::PathBuf, Seq<char>);

/// The path that a text names.
pub uninterp spec fn path_of(text: Seq<char>) -> std::path::PathBuf;

/// The text of a path, with a replacement for what is no text in it.
pub uninterp spec fn path_text(path: std::path::PathBuf) -> Seq<char>;

/// `rest` below `base`.
pub uninterp spec fn path_join(base: std::path::PathBuf, rest: Seq<char>) -> std::path::PathBuf;

/// A path without its last component, if it has one.
pub uninterp spec fn path_parent(path: std::path::PathBuf) -> Option<std::path::PathBuf>;

/// A text that names a path which does not depend on a current directory.
pub uninterp spec fn path_is_absolute(text: Seq<char>) -> bool;

/// What follows the components of `base` in `path`.
pub uninterp spec fn path_below(
    path: std::path::PathBuf,
    base: std::path::PathBuf,
) -> Option<std::path::PathBuf>;

/// `a` does not come after `b` in the order of paths.
pub uninterp spec fn path_le(a: std::path::PathBuf, b: std::path::PathBuf) -> bool;

/// `a` and `b` have the same components.
pub uninterp spec fn path_same(a: std::path::PathBuf, b: std::path::PathBuf) -> bool;

/// What `ignore` reports where it does not take a glob as an override.
pub uninterp spec fn glob_refusal(pattern: Seq<char>) -> Option<Seq<char>>;

/// Whether the override glob `pattern` of the directory `base` selects a path.
pub uninterp spec fn glob_selects(
    base: std::path::PathBuf,
    pattern: Seq<char>,
    path: std::path::PathBuf,
    is_dir: bool,
) -> bool;

/// `PathBuf::from` a string, as a name. The text of the path is the string.
#[verifier::external_body]
pub(crate) fn path_from(text: &str) -> (r: PathBuf)
    ensures
        r == path_of(text@),
        path_text(r) == text@,
{
    PathBuf::from(text)
}

/// `Path::to_string_lossy`, as a name.
#[verifier::external_body]
pub(crate) fn text_of(path: &PathBuf) -> (r: String)
    ensures
        r@ == path_text(*path),
{
    path.to_string_lossy().into_owned()
}

/// `PathBuf::clone` makes an equal path.
pub assume_specification [ <std::path::PathBuf as Clone>::clone ](
    path: &std::path::PathBuf,
) -> (r: std::path::PathBuf)
    ensures
        r == *path,
;

/// `Path::join`, as a name. An absolute path replaces what it is joined to.
#[verifier::external_body]
fn join_path(base: &PathBuf, rest: &str) -> (r: PathBuf)
    ensures
        r == path_join(*base, rest@),
        path_is_absolute(rest@) ==> r == path_of(rest@),
{
    base.join(rest)
}

/// `Path::parent`, as a name. The empty path has no parent.
#[verifier::external_body]
fn parent_path(path: &PathBuf) -> (r: Option<PathBuf>)
    ensures
        r == path_parent(*path),
        path_text(*path).len() == 0 ==> r is None,
{
    path.parent().map(|parent| parent.to_path_buf())
}

/// `Path::is_absolute`, as a name.
#[verifier::external_body]
fn is_absolute(text: &str) -> (r: bool)
    ensures
        r == path_is_absolute(text@),
{
    Path::new(text).is_absolute()
}

/// `Path::strip_prefix`, as a name.
#[verifier::external_body]
fn strip_base(path: &PathBuf, base: &PathBuf) -> (r: Option<PathBuf>)
    ensures
        r == path_below(*path, *base),
{
    path.strip_prefix(base).ok().map(|rest| rest.to_path_buf())
}

/// The order of paths is transitive, and paths that do not come after each
/// other are those with the same components.
pub open spec fn is_ordered(paths: Seq<PathBuf>) -> bool {
    &&& forall|i: int, j: int|
        0 <= i < paths.len() && 0 <= j < paths.len() ==> (path_same(
            #[trigger] paths[i],
            #[trigger] paths[j],
        ) <==> path_le(paths[i], paths[j]) && path_le(paths[j], paths[i]))
    &&& forall|i: int, j: int, k: int|
        0 <= i < paths.len() && 0 <= j < paths.len() && 0 <= k < paths.len() && path_le(
            #[trigger] paths[i],
            #[trigger] paths[j],
        ) && path_le(paths[j], #[trigger] paths[k]) ==> path_le(paths[i], paths[k])
}

/// The paths of a list with the same components as `path`, in their order.
pub open spec fn same_as(paths: Seq<PathBuf>, path: PathBuf) -> Seq<PathBuf>
    decreases paths.len(),
{
    if paths.len() == 0 {
        Seq::empty()
    } else {
        let before = same_as(paths.drop_last(), path);
        if path_same(path, paths.last()) {
            before.push(paths.last())
        } else {
            before
        }
    }
}

/// `<[PathBuf]>::sort`: the same paths in the order of `Path`, named
/// `path_le`. It is a total order that agrees with `==` of `Path`. The sort is
/// stable: paths with the same components keep their order.
#[verifier::external_body]
fn sort_paths(paths: Vec<PathBuf>) -> (r: Vec<PathBuf>)
    ensures
        r@.to_multiset() == paths@.to_multiset(),
        forall|i: int, j: int|
            0 <= i <= j < r@.len() ==> path_le(#[trigger] r@[i], #[trigger] r@[j]),
        is_ordered(r@),
        forall|path: PathBuf| #[trigger] same_as(r@, path) == same_as(paths@, path),
{
    let mut sorted = paths;
    sorted.sort();
    sorted
}

/// `==` of `Path`, as a name.
#[verifier::external_body]
fn is_same_path(a: &PathBuf, b: &PathBuf) -> (r: bool)
    ensures
        r == path_same(*a, *b),
{
    a == b
}

/// `OverrideBuilder::add` of one glob, and `build`, for whatever directory.
/// Whether they refuse the glob, and with what message, is `glob_refusal` of
/// it.
#[verifier::external_body]
fn build_override(base: &PathBuf, pattern: &str) -> (r: Result<Override, String>)
    ensures
        match r {
            Ok(o) => glob_refusal(pattern@) is None && override_of(o) == (*base, pattern@),
            Err(message) => glob_refusal(pattern@) == Some(message@),
        },
{
    let mut builder = OverrideBuilder::new(base);
    builder.add(pattern).map_err(|error| error.to_string())?;
    builder.build().map_err(|error| error.to_string())
}

/// Whether `Override::matched` finds a whitelisting glob for a path. It
/// depends on what the override was built from.
#[verifier::external_body]
fn override_selects(o: &Override, path: &PathBuf, is_dir: bool) -> (r: bool)
    ensures
        r == glob_selects(override_of(*o).0, override_of(*o).1, *path, is_dir),
{
    matches!(o.matched(path, is_dir), Match::Whitelist(_))
}

/// Paths none of which comes before an earlier one.
pub open spec fn in_path_order(paths: Seq<PathBuf>) -> bool {
    forall|i: int, j: int|
        0 <= i <= j < paths.len() ==> path_le(#[trigger] paths[i], #[trigger] paths[j])
}

// Where the cache keeps its files.

/// The files of a task cache.
#[derive(Debug)]
pub struct CacheLayout {
    /// The database.
    pub db_path: PathBuf,
    /// The directory of the locks.
    pub lock_dir: PathBuf,
}

/// The directory that holds a file, or the current one.
pub open spec fn dir_of(path: PathBuf) -> PathBuf {
    match path_parent(path) {
        Some(parent) => parent,
        None => path_of("."@),
    }
}

/// The directory that holds a file, or the current one.
fn containing_dir(path: &PathBuf) -> (r: PathBuf)
    ensures
        r == dir_of(*path),
{
    match parent_path(path) {
        Some(parent) => parent,
        None => path_from("."),
    }
}

impl CacheLayout {
    /// The cache in the directory `cache_dir`.
    pub fn new(cache_dir: &PathBuf) -> (r: Self)
        ensures
            r.db_path == path_join(*cache_dir, "tasks.db"@),
            r.lock_dir == path_join(dir_of(r.db_path), "task-locks"@),
    {
        Self::with_db_path(join_path(cache_dir, "tasks.db"))
    }

    /// The cache with its database at `db_path`. The locks are beside it.
    pub fn with_db_path(db_path: PathBuf) -> (r: Self)
        ensures
            r.db_path == db_path,
            r.lock_dir == path_join(dir_of(db_path), "task-locks"@),
    {
        let lock_dir = join_path(&containing_dir(&db_path), "task-locks");
        CacheLayout { db_path, lock_dir }
    }

    /// The lock that is held while the database is set up.
    pub fn init_lock(&self) -> (r: PathBuf)
        ensures
            r == path_join(self.lock_dir, "__task-cache-init.lock"@),
    {
        join_path(&self.lock_dir, "__task-cache-init.lock")
    }

    /// The lock of a task.
    pub fn task_lock(&self, task_name: &str) -> (r: PathBuf)
        ensures
            r == path_join(self.lock_dir, task_name@ + ".lock"@),
    {
        let mut name = task_name.to_string();
        name.append(".lock");
        join_path(&self.lock_dir, name.as_str())
    }
}

/// What came of asking for a lock.
#[derive(Debug)]
pub enum LockOutcome {
    Acquired,
    /// The lock was refused.
    Refused(String),
    /// The worker that asked for it stopped.
    WorkerStopped(String),
}

/// The message about a lock that could not be had.
pub open spec fn lock_message(lock_path: Seq<char>, outcome: LockOutcome) -> Option<Seq<char>> {
    match outcome {
        LockOutcome::Acquired => None,
        LockOutcome::Refused(error) => Some("failed to lock "@ + lock_path + ": "@ + error@),
        LockOutcome::WorkerStopped(error) => Some(
            "task lock worker stopped before locking "@ + lock_path + ": "@ + error@,
        ),
    }
}

/// Whether the lock at `lock_path` is held.
pub fn lock_result(lock_path: &PathBuf, outcome: LockOutcome) -> (r: Result<(), CacheError>)
    ensures
        match r {
            Ok(()) => outcome is Acquired,
            Err(e) => e is Initialization && lock_message(path_text(*lock_path), outcome) == Some(
                e.text(),
            ),
        },
{
    let shown = text_of(lock_path);
    match outcome {
        LockOutcome::Acquired => Ok(()),
        LockOutcome::Refused(error) => Err(
            CacheError::Initialization(
                concat4("failed to lock ", shown.as_str(), ": ", error.as_str()),
            ),
        ),
        LockOutcome::WorkerStopped(error) => Err(
            CacheError::Initialization(
                concat4(
                    "task lock worker stopped before locking ",
                    shown.as_str(),
                    ": ",
                    error.as_str(),
                ),
            ),
        ),
    }
}

// What a declared path stands for.

/// A character that makes a path a glob.
pub open spec fn is_special(c: char) -> bool {
    c == '*' || c == '?' || c == '[' || c == '{'
}

/// A path with a glob character.
pub open spec fn has_special(path: Seq<char>) -> bool {
    exists|i: int| 0 <= i < path.len() && is_special(#[trigger] path[i])
}

/// Where the first glob character stands, or the length without one.
pub open spec fn first_special(path: Seq<char>) -> int
    decreases path.len(),
{
    if path.len() == 0 {
        0
    } else if is_special(path[0]) {
        0
    } else {
        1 + first_special(path.drop_first())
    }
}

/// The first glob character of a text.
fn find_special(path: &str) -> (r: usize)
    ensures
        r == first_special(path@),
        r <= path@.len(),
        r < path@.len() <==> has_special(path@),
{
    let chars = characters(path);
    let mut i: usize = 0;
    assert(path@.skip(0) =~= path@);
    while i < chars.len()
        invariant
            chars@ == path@,
            i <= chars@.len(),
            forall|j: int| 0 <= j < i ==> !is_special(#[trigger] path@[j]),
            first_special(path@) == i + first_special(path@.skip(i as int)),
        decreases chars@.len() - i,
    {
        let c = chars[i];
        if c == '*' || c == '?' || c == '[' || c == '{' {
            assert(is_special(path@[i as int]));
            return i;
        }
        assert(path@.skip(i as int).drop_first() =~= path@.skip(i + 1));
        i += 1;
    }
    i
}

/// Whether a declared path is a glob.
pub fn is_glob(path: &str) -> (r: bool)
    ensures
        r == has_special(path@),
{
    let len = path.unicode_len();
    find_special(path) < len
}

/// The directory that every match of a glob is under: that of the part of its
/// text before the first glob character.
pub open spec fn base_dir(pattern: PathBuf) -> PathBuf {
    let text = path_text(pattern);
    dir_of(path_of(text.take(first_special(text))))
}

/// The directory that every match of a glob is under.
pub fn extract_base_dir(pattern: &PathBuf) -> (r: PathBuf)
    ensures
        r == base_dir(*pattern),
{
    let text = text_of(pattern);
    let end = find_special(text.as_str());
    let prefix = text.as_str().substring_char(0, end);
    assert(prefix@ =~= text@.take(end as int));
    containing_dir(&path_from(prefix))
}

/// The text of a glob relative to `base`. It always has a slash, so that it is
/// matched from `base` on and not against file names anywhere below it.
pub open spec fn anchored(pattern: PathBuf, base: PathBuf) -> Seq<char> {
    let relative = path_text(
        match path_below(pattern, base) {
            Some(rest) => rest,
            None => pattern,
        },
    );
    if relative.contains('/') {
        relative
    } else {
        "/"@ + relative
    }
}

/// Whether a text holds a slash.
fn has_slash(text: &str) -> (r: bool)
    ensures
        r == text@.contains('/'),
{
    let chars = characters(text);
    let mut i: usize = 0;
    while i < chars.len()
        invariant
            chars@ == text@,
            i <= chars@.len(),
            forall|j: int| 0 <= j < i ==> #[trigger] text@[j] != '/',
        decreases chars@.len() - i,
    {
        if chars[i] == '/' {
            assert(text@[i as int] == '/');
            return true;
        }
        i += 1;
    }
    false
}

/// The text of a glob relative to `base`.
pub fn normalize_pattern(pattern: &PathBuf, base: &PathBuf) -> (r: String)
    ensures
        r@ == anchored(*pattern, *base),
{
    let relative = match strip_base(pattern, base) {
        Some(rest) => text_of(&rest),
        None => text_of(pattern),
    };
    if has_slash(relative.as_str()) {
        relative
    } else {
        let mut r = "/".to_string();
        r.append(relative.as_str());
        r
    }
}

/// Every glob that is handed to `ignore` has a slash.
pub proof fn law_globs_are_anchored(pattern: PathBuf, base: PathBuf)
    ensures
        anchored(pattern, base).contains('/'),
{
    reveal_strlit("/");
    let r = anchored(pattern, base);
    let relative = path_text(
        match path_below(pattern, base) {
            Some(rest) => rest,
            None => pattern,
        },
    );
    if !relative.contains('/') {
        assert(r[0] == '/');
    }
}

/// How the matches of a declared path are found.
#[derive(Debug)]
pub enum Expansion {
    /// It is the path itself, if that is there.
    Plain { path: PathBuf },
    /// It is whatever matches `pattern` below `base`, if that is there.
    Glob { base: PathBuf, pattern: String },
}

/// A declared path as seen from `cwd`.
pub open spec fn resolved(declaration: Seq<char>, cwd: PathBuf) -> PathBuf {
    if path_is_absolute(declaration) {
        path_of(declaration)
    } else {
        path_join(cwd, declaration)
    }
}

/// How a declared path is to be looked for from `cwd`.
pub open spec fn is_expansion(declaration: Seq<char>, cwd: PathBuf, r: Expansion) -> bool {
    let whole = resolved(declaration, cwd);
    match r {
        Expansion::Plain { path } => !has_special(declaration) && path == whole,
        Expansion::Glob { base, pattern } => has_special(declaration) && base == base_dir(whole)
            && pattern@ == anchored(whole, base),
    }
}

/// How the matches of a declared path are found.
pub fn plan_expansion(declaration: &str, cwd: &PathBuf) -> (r: Expansion)
    ensures
        is_expansion(declaration@, *cwd, r),
        match r {
            Expansion::Plain { path } => !has_special(declaration@) && path == resolved(
                declaration@,
                *cwd,
            ),
            Expansion::Glob { base, pattern } => {
                let whole = resolved(declaration@, *cwd);
                &&& has_special(declaration@)
                &&& base == base_dir(whole)
                &&& pattern@ == anchored(whole, base)
            },
        },
{
    let path = if is_absolute(declaration) {
        path_from(declaration)
    } else {
        join_path(cwd, declaration)
    };
    if is_glob(declaration) {
        let base = extract_base_dir(&path);
        let pattern = normalize_pattern(&path, &base);
        Expansion::Glob { base, pattern }
    } else {
        Expansion::Plain { path }
    }
}

/// What was found at a path.
#[derive(Debug)]
pub enum Lookup {
    Found,
    NotFound,
    Failed(String),
}

/// What is found for a path without glob characters.
pub open spec fn is_plain_result(
    path: PathBuf,
    found: Lookup,
    r: Result<Vec<PathBuf>, CacheError>,
) -> bool {
    match found {
        Lookup::Found => r matches Ok(paths) && paths@ == seq![path],
        Lookup::NotFound => r matches Ok(paths) && paths@.len() == 0,
        Lookup::Failed(error) => r matches Err(e) && e == CacheError::Reported(error),
    }
}

/// The matches of a declared path without glob characters.
pub fn plain_matches(path: PathBuf, found: Lookup) -> (r: Result<Vec<PathBuf>, CacheError>)
    ensures
        is_plain_result(path, found, r),
        match found {
            Lookup::Found => r matches Ok(paths) && paths@ == seq![path],
            Lookup::NotFound => r matches Ok(paths) && paths@ == Seq::<PathBuf>::empty(),
            Lookup::Failed(error) => r == Err::<Vec<PathBuf>, CacheError>(
                CacheError::Reported(error),
            ),
        },
{
    match found {
        Lookup::Found => {
            let mut paths: Vec<PathBuf> = Vec::new();
            paths.push(path);
            assert(paths@ =~= seq![path]);
            Ok(paths)
        },
        Lookup::NotFound => Ok(Vec::new()),
        Lookup::Failed(error) => Err(CacheError::Reported(error)),
    }
}

/// A path below the directory of a glob.
#[derive(Debug)]
pub struct WalkEntry {
    pub path: PathBuf,
    pub is_dir: bool,
}

/// Whether a glob selects an entry.
pub open spec fn entry_selected(base: PathBuf, pattern: Seq<char>, entry: WalkEntry) -> bool {
    glob_selects(base, pattern, entry.path, entry.is_dir)
}

/// The paths of the entries that a glob selects, in their order.
pub open spec fn selection(
    base: PathBuf,
    pattern: Seq<char>,
    entries: Seq<WalkEntry>,
) -> Seq<PathBuf>
    decreases entries.len(),
{
    if entries.len() == 0 {
        Seq::empty()
    } else {
        let before = selection(base, pattern, entries.drop_last());
        if entry_selected(base, pattern, entries.last()) {
            before.push(entries.last().path)
        } else {
            before
        }
    }
}

/// What walking below the directory of a glob came to.
#[derive(Debug)]
pub enum Walk {
    /// The directory is not there.
    Missing,
    Entries(Vec<WalkEntry>),
    Failed(String),
}

/// What is found for a glob.
pub open spec fn is_glob_result(
    base: PathBuf,
    pattern: Seq<char>,
    walk: Walk,
    r: Result<Vec<PathBuf>, CacheError>,
) -> bool {
    match (walk, glob_refusal(pattern)) {
        (Walk::Missing, _) => r matches Ok(paths) && paths@.len() == 0,
        (_, Some(refusal)) => r matches Err(e) && e is Initialization && e.text() == refusal,
        (Walk::Failed(error), None) => r matches Err(e) && e is Initialization && e.text()
            == error@,
        (Walk::Entries(entries), None) => r matches Ok(paths) && paths@ == selection(
            base,
            pattern,
            entries@,
        ),
    }
}

/// The matches of the glob `pattern` of `base` among the paths below it.
pub fn glob_matches(base: &PathBuf, pattern: &str, walk: Walk) -> (r: Result<
    Vec<PathBuf>,
    CacheError,
>)
    ensures
        is_glob_result(*base, pattern@, walk, r),
        match walk {
            Walk::Missing => r matches Ok(paths) && paths@ == Seq::<PathBuf>::empty(),
            Walk::Entries(entries) => match r {
                Ok(paths) => glob_refusal(pattern@) is None && paths@ == selection(
                    *base,
                    pattern@,
                    entries@,
                ),
                Err(e) => e is Initialization && glob_refusal(pattern@) == Some(e.text()),
            },
            Walk::Failed(error) => r matches Err(e) && e is Initialization && e.text()
                == match glob_refusal(pattern@) {
                Some(refusal) => refusal,
                None => error@,
            },
        },
{
    if let Walk::Missing = walk {
        return Ok(Vec::new());
    }
    let globs = match build_override(base, pattern) {
        Ok(globs) => globs,
        Err(error) => {
            return Err(CacheError::Initialization(error));
        },
    };
    let entries = match walk {
        Walk::Entries(entries) => entries,
        Walk::Failed(error) => {
            return Err(CacheError::Initialization(error));
        },
        Walk::Missing => Vec::new(),
    };
    let mut paths: Vec<PathBuf> = Vec::new();
    let mut i: usize = 0;
    assert(paths@ =~= selection(*base, pattern@, entries@.take(0)));
    while i < entries.len()
        invariant
            i <= entries@.len(),
            override_of(globs) == (*base, pattern@),
            paths@ == selection(*base, pattern@, entries@.take(i as int)),
        decreases entries@.len() - i,
    {
        let ghost known = paths@;
        assert(entries@.take(i + 1).drop_last() =~= entries@.take(i as int));
        if override_selects(&globs, &entries[i].path, entries[i].is_dir) {
            paths.push(entries[i].path.clone());
            assert(paths@ =~= known.push(entries@[i as int].path));
        }
        i += 1;
    }
    assert(entries@.take(entries@.len() as int) =~= entries@);
    Ok(paths)
}

/// Paths without those that are the same as the one kept before them.
pub open spec fn deduped(paths: Seq<PathBuf>) -> Seq<PathBuf>
    decreases paths.len(),
{
    if paths.len() == 0 {
        Seq::empty()
    } else {
        let before = deduped(paths.drop_last());
        if before.len() > 0 && path_same(before.last(), paths.last()) {
            before
        } else {
            before.push(paths.last())
        }
    }
}

/// `r` is what is left of the paths when they are put in order, those with the
/// same components in the order in which they came, and repeated neighbours
/// are dropped.
pub open spec fn is_ordered_selection(paths: Seq<PathBuf>, r: Seq<PathBuf>) -> bool {
    exists|sorted: Seq<PathBuf>|
        {
            &&& sorted.to_multiset() == paths.to_multiset()
            &&& in_path_order(sorted)
            &&& is_ordered(sorted)
            &&& forall|path: PathBuf| #[trigger] same_as(sorted, path) == same_as(paths, path)
            &&& r == #[trigger] deduped(sorted)
        }
}

/// The paths in order, without repeated neighbours.
pub fn order_matches(paths: Vec<PathBuf>) -> (r: Vec<PathBuf>)
    ensures
        is_ordered_selection(paths@, r@),
{
    let sorted = sort_paths(paths);
    let ghost all = sorted@;
    assert(in_path_order(all)) by {
        assert forall|i: int, j: int| 0 <= i <= j < all.len() implies path_le(
            #[trigger] all[i],
            #[trigger] all[j],
        ) by {
            assert(path_le(sorted@[i], sorted@[j]));
        }
    }
    let mut r: Vec<PathBuf> = Vec::new();
    let mut i: usize = 0;
    assert(r@ =~= deduped(all.take(0)));
    while i < sorted.len()
        invariant
            i <= sorted@.len(),
            all == sorted@,
            r@ == deduped(all.take(i as int)),
        decreases sorted@.len() - i,
    {
        let ghost known = r@;
        assert(all.take(i + 1).drop_last() =~= all.take(i as int));
        let n = r.len();
        assert(n > 0 ==> r@.last() == r@[n - 1]);
        if n == 0 || !is_same_path(&r[n - 1], &sorted[i]) {
            r.push(sorted[i].clone());
            assert(r@ =~= known.push(all[i as int]));
        }
        i += 1;
    }
    assert(all.take(all.len() as int) =~= all);
    r
}

/// What is left of a list in order is in order, has no two neighbours that are
/// the same, and holds nothing new.
proof fn lemma_deduped(sorted: Seq<PathBuf>)
    requires
        in_path_order(sorted),
    ensures
        in_path_order(deduped(sorted)),
        forall|i: int|
            0 <= i < deduped(sorted).len() - 1 ==> !path_same(
                #[trigger] deduped(sorted)[i],
                deduped(sorted)[i + 1],
            ),
        forall|i: int|
            0 <= i < deduped(sorted).len() ==> sorted.contains(#[trigger] deduped(sorted)[i]),
        sorted.len() > 0 ==> deduped(sorted).len() > 0 && (deduped(sorted).last()
            == sorted.last() || path_same(deduped(sorted).last(), sorted.last())),
    decreases sorted.len(),
{
    if sorted.len() > 0 {
        let init = sorted.drop_last();
        let before = deduped(init);
        let r = deduped(sorted);
        assert forall|i: int, j: int| 0 <= i <= j < init.len() implies path_le(
            #[trigger] init[i],
            #[trigger] init[j],
        ) by {
            assert(path_le(sorted[i], sorted[j]));
        }
        lemma_deduped(init);
        assert forall|i: int| 0 <= i < r.len() implies sorted.contains(#[trigger] r[i]) by {
            if i < before.len() {
                assert(init.contains(before[i]));
                let k = choose|k: int| 0 <= k < init.len() && init[k] == before[i];
                assert(sorted[k] == r[i]);
            } else {
                assert(sorted[sorted.len() - 1] == r[i]);
            }
        }
        assert forall|i: int, j: int| 0 <= i <= j < r.len() implies path_le(
            #[trigger] r[i],
            #[trigger] r[j],
        ) by {
            if j < before.len() {
                assert(path_le(before[i], before[j]));
            } else {
                assert(sorted.contains(r[i]));
                let k = choose|k: int| 0 <= k < sorted.len() && sorted[k] == r[i];
                assert(path_le(sorted[k], sorted[sorted.len() - 1]));
            }
        }
        assert forall|i: int| 0 <= i < r.len() - 1 implies !path_same(
            #[trigger] r[i],
            r[i + 1],
        ) by {
            if i + 1 < before.len() {
                assert(!path_same(before[i], before[i + 1]));
            }
        }
    }
}

/// The matches of a declared path are in order, no two are the same, each was
/// found, and what was found is among them. Of paths with the same components
/// the one that was found first stays.
pub proof fn law_matches_are_in_order(paths: Seq<PathBuf>, r: Seq<PathBuf>)
    requires
        is_ordered_selection(paths, r),
    ensures
        in_path_order(r),
        forall|i: int, j: int|
            0 <= i < j < r.len() ==> !path_same(#[trigger] r[i], #[trigger] r[j]),
        forall|i: int| 0 <= i < r.len() ==> paths.contains(#[trigger] r[i]),
        forall|k: int|
            0 <= k < paths.len() ==> exists|i: int|
                0 <= i < r.len() && path_same(#[trigger] r[i], #[trigger] paths[k]),
        forall|i: int|
            0 <= i < r.len() ==> same_as(paths, #[trigger] r[i]).len() > 0 && same_as(
                paths,
                r[i],
            )[0] == r[i],
{
    broadcast use vstd::seq_lib::group_to_multiset_ensures;

    let sorted = choose|sorted: Seq<PathBuf>|
        {
            &&& sorted.to_multiset() == paths.to_multiset()
            &&& in_path_order(sorted)
            &&& is_ordered(sorted)
            &&& forall|path: PathBuf| #[trigger] same_as(sorted, path) == same_as(paths, path)
            &&& r == #[trigger] deduped(sorted)
        };
    lemma_deduped(sorted);
    assert forall|i: int| 0 <= i < r.len() implies same_as(paths, #[trigger] r[i]).len() > 0
        && same_as(paths, r[i])[0] == r[i] by {
        lemma_first_stays(sorted, i);
        assert(same_as(sorted, r[i]) == same_as(paths, r[i]));
    }
    assert forall|i: int| 0 <= i < r.len() implies paths.contains(#[trigger] r[i]) by {
        assert(sorted.contains(r[i]));
        assert(sorted.to_multiset().count(r[i]) > 0);
        assert(paths.to_multiset().count(r[i]) > 0);
    }
    assert forall|i: int, j: int| 0 <= i < j < r.len() implies !path_same(
        #[trigger] r[i],
        #[trigger] r[j],
    ) by {
        assert(sorted.contains(r[i]) && sorted.contains(r[i + 1]) && sorted.contains(r[j]));
        let a = choose|a: int| 0 <= a < sorted.len() && sorted[a] == r[i];
        let b = choose|b: int| 0 <= b < sorted.len() && sorted[b] == r[i + 1];
        let c = choose|c: int| 0 <= c < sorted.len() && sorted[c] == r[j];
        assert(path_le(r[i], r[i + 1]) && path_le(r[i + 1], r[j]));
        assert(!path_same(r[i], r[i + 1]));
        if path_same(r[i], r[j]) {
            assert(path_le(sorted[c], sorted[a]));
            assert(path_le(sorted[b], sorted[a]));
        }
    }
    assert forall|k: int| 0 <= k < paths.len() implies exists|i: int|
        0 <= i < r.len() && path_same(#[trigger] r[i], #[trigger] paths[k]) by {
        assert(paths.contains(paths[k]));
        assert(paths.to_multiset().count(paths[k]) > 0);
        assert(sorted.to_multiset().count(paths[k]) > 0);
        let m = choose|m: int| 0 <= m < sorted.len() && sorted[m] == paths[k];
        lemma_kept(sorted, m);
    }
}

/// A list in which nothing is the same as `path` has none of it.
proof fn lemma_none_same(paths: Seq<PathBuf>, path: PathBuf)
    requires
        forall|k: int| 0 <= k < paths.len() ==> !path_same(path, #[trigger] paths[k]),
    ensures
        same_as(paths, path).len() == 0,
    decreases paths.len(),
{
    if paths.len() > 0 {
        let init = paths.drop_last();
        assert(forall|k: int| 0 <= k < init.len() ==> #[trigger] init[k] == paths[k]);
        assert(!path_same(path, paths[paths.len() - 1]));
        lemma_none_same(init, path);
    }
}

/// What is kept is the first of those that are the same.
proof fn lemma_first_stays(sorted: Seq<PathBuf>, i: int)
    requires
        in_path_order(sorted),
        is_ordered(sorted),
        0 <= i < deduped(sorted).len(),
    ensures
        same_as(sorted, deduped(sorted)[i]).len() > 0,
        same_as(sorted, deduped(sorted)[i])[0] == deduped(sorted)[i],
    decreases sorted.len(),
{
    let r = deduped(sorted);
    let init = sorted.drop_last();
    let before = deduped(init);
    let last = sorted.last();
    let n = sorted.len() - 1;
    assert(last == sorted[n]);
    assert(forall|k: int| 0 <= k < init.len() ==> #[trigger] init[k] == sorted[k]);
    assert forall|j: int, k: int| 0 <= j <= k < init.len() implies path_le(
        #[trigger] init[j],
        #[trigger] init[k],
    ) by {
        assert(path_le(sorted[j], sorted[k]));
    }
    assert(is_ordered(init));
    if i < before.len() {
        lemma_first_stays(init, i);
    } else {
        lemma_deduped(init);
        assert(path_le(sorted[n], sorted[n]) && path_same(sorted[n], sorted[n]));
        assert forall|k: int| 0 <= k < init.len() implies !path_same(last, #[trigger] init[k]) by {
            if path_same(sorted[n], sorted[k]) {
                let m = n - 1;
                assert(path_le(sorted[k], sorted[m]) && path_le(sorted[m], sorted[n]));
                assert(path_le(sorted[n], sorted[k]));
                assert(path_le(sorted[n], sorted[m]));
                assert(before.len() > 0);
                assert(init.contains(before[before.len() - 1]));
                let b = choose|b: int| 0 <= b < init.len() && init[b] == before.last();
                assert(path_le(sorted[b], sorted[m]));
                assert(init.last() == sorted[m]);
                assert(path_le(sorted[m], sorted[m]));
                assert(path_same(sorted[b], sorted[m]));
                assert(path_le(sorted[m], sorted[b]));
                assert(path_le(sorted[n], sorted[b]) && path_le(sorted[b], sorted[n]));
                assert(path_same(sorted[b], sorted[n]));
            }
        }
        lemma_none_same(init, last);
        assert(r[i] == last);
    }
}

/// Of every path in order one that is the same is kept.
proof fn lemma_kept(sorted: Seq<PathBuf>, m: int)
    requires
        in_path_order(sorted),
        is_ordered(sorted),
        0 <= m < sorted.len(),
    ensures
        exists|i: int|
            0 <= i < deduped(sorted).len() && path_same(#[trigger] deduped(sorted)[i], sorted[m]),
    decreases sorted.len(),
{
    let r = deduped(sorted);
    let init = sorted.drop_last();
    let before = deduped(init);
    if m == sorted.len() - 1 {
        assert(path_le(sorted[m], sorted[m]));
        assert(path_same(sorted[m], sorted[m]));
        assert(path_same(r[r.len() - 1], sorted[m]));
    } else {
        assert forall|i: int, j: int| 0 <= i <= j < init.len() implies path_le(
            #[trigger] init[i],
            #[trigger] init[j],
        ) by {
            assert(path_le(sorted[i], sorted[j]));
        }
        assert(is_ordered(init)) by {
            assert(forall|i: int| 0 <= i < init.len() ==> #[trigger] init[i] == sorted[i]);
        }
        lemma_kept(init, m);
        let i = choose|i: int| 0 <= i < before.len() && path_same(#[trigger] before[i], init[m]);
        assert(r[i] == before[i]);
    }
}

} // verus!

use devenv_tasks::paths::{
    extract_base_dir, glob_matches, is_glob, lock_result, normalize_pattern, order_matches,
    plain_matches, plan_expansion, CacheLayout, Expansion, LockOutcome, Lookup, Walk, WalkEntry,
};
use devenv_tasks::CacheError;
use std::path::PathBuf;

fn paths(items: &[&str]) -> Vec<PathBuf> {
    items.iter().map(|item| path(item)).collect()
}

fn path(text: &str) -> PathBuf {
    PathBuf::from(text)
}

fn entries(items: &[(&str, bool)]) -> Walk {
    Walk::Entries(
        items
            .iter()
            .map(|(text, is_dir)| WalkEntry { path: path(text), is_dir: *is_dir })
            .collect(),
    )
}

#[test]
fn cache_keeps_its_files_together() {
    let layout = CacheLayout::new(&path("/home/.devenv"));
    assert_eq!(layout.db_path, path("/home/.devenv/tasks.db"));
    assert_eq!(layout.lock_dir, path("/home/.devenv/task-locks"));
    assert_eq!(layout.init_lock(), path("/home/.devenv/task-locks/__task-cache-init.lock"));
    assert_eq!(layout.task_lock("my:task"), path("/home/.devenv/task-locks/my:task.lock"));
    assert_eq!(CacheLayout::with_db_path(path("/")).lock_dir, path("./task-locks"));
    assert_eq!(CacheLayout::with_db_path(path("tasks.db")).lock_dir, path("task-locks"));
}

#[test]
fn lock_failures_have_messages() {
    assert!(lock_result(&path("/l"), LockOutcome::Acquired).is_ok());
    let refused = lock_result(&path("/l"), LockOutcome::Refused("busy".to_string())).unwrap_err();
    assert_eq!(refused.message(), "failed to lock /l: busy");
    assert!(matches!(refused, CacheError::Initialization(_)));
    let stopped = lock_result(&path("/l"), LockOutcome::WorkerStopped("gone".to_string())).unwrap_err();
    assert_eq!(stopped.message(), "task lock worker stopped before locking /l: gone");
}

#[test]
fn globs_are_told_by_their_characters() {
    for glob in ["*", "a?b", "a[b", "x{y"] {
        assert!(is_glob(glob));
    }
    for plain in ["", "a/b.c", "a]b}"] {
        assert!(!is_glob(plain));
    }
}

#[test]
fn base_of_a_glob_is_the_directory_before_it() {
    assert_eq!(extract_base_dir(&path("/a/b/*.rs")), path("/a"));
    assert_eq!(extract_base_dir(&path("/a/b/c*.rs")), path("/a/b"));
    assert_eq!(extract_base_dir(&path("/a/b/x/**/*.rs")), path("/a/b"));
    assert_eq!(extract_base_dir(&path("c*")), path(""));
    assert_eq!(extract_base_dir(&path("*")), path("."));
    assert_eq!(extract_base_dir(&path("/*")), path("."));
    assert_eq!(extract_base_dir(&path("/a/b")), path("/a"));
}

#[test]
fn globs_are_anchored_at_their_base() {
    assert_eq!(normalize_pattern(&path("/a/b/*.rs"), &path("/a")), "b/*.rs");
    assert_eq!(normalize_pattern(&path("/a/b*.rs"), &path("/a")), "/b*.rs");
    assert_eq!(normalize_pattern(&path("*"), &path("/a")), "/*");
    assert_eq!(normalize_pattern(&path("/x/*"), &path("/a")), "/x/*");
}

#[test]
fn declarations_are_expanded_from_the_directory() {
    match plan_expansion("src/lib.rs", &path("/work")) {
        Expansion::Plain { path: found } => assert_eq!(found, path("/work/src/lib.rs")),
        other => panic!("{other:?}"),
    }
    match plan_expansion("/etc/hosts", &path("/work")) {
        Expansion::Plain { path: found } => assert_eq!(found, path("/etc/hosts")),
        other => panic!("{other:?}"),
    }
    match plan_expansion("src/*.rs", &path("/work")) {
        Expansion::Glob { base, pattern } => {
            assert_eq!(base, path("/work"));
            assert_eq!(pattern, "src/*.rs");
        }
        other => panic!("{other:?}"),
    }
    // Only the declaration makes a glob, not the directory.
    assert!(matches!(plan_expansion("a", &path("/w*")), Expansion::Plain { .. }));
}

#[test]
fn plain_path_matches_itself() {
    assert_eq!(plain_matches(path("/a"), Lookup::Found).unwrap(), paths(&["/a"]));
    assert_eq!(plain_matches(path("/a"), Lookup::NotFound).unwrap(), paths(&[]));
    let error = plain_matches(path("/a"), Lookup::Failed("denied".to_string())).unwrap_err();
    assert_eq!(error.message(), "denied");
    assert!(matches!(error, CacheError::Reported(_)));
}

#[test]
fn glob_matches_from_its_base_on() {
    let walked = entries(&[
        ("/w", true),
        ("/w/src", true),
        ("/w/src/a.rs", false),
        ("/w/src/b.txt", false),
        ("/w/deep", true),
        ("/w/deep/src", true),
        ("/w/deep/src/c.rs", false),
    ]);
    assert_eq!(
        glob_matches(&path("/w"), "src/*.rs", walked).unwrap(),
        paths(&["/w/src/a.rs"])
    );
    let walked = entries(&[("/w/a", false), ("/w/d", true), ("/w/d/a", false)]);
    assert_eq!(glob_matches(&path("/w"), "/a*", walked).unwrap(), paths(&["/w/a"]));
    let walked = entries(&[("/w/x/d", true), ("/w/x/f", false)]);
    assert_eq!(glob_matches(&path("/w"), "x/*/", walked).unwrap(), paths(&["/w/x/d"]));
}

#[test]
fn glob_below_a_missing_base_matches_nothing() {
    assert_eq!(glob_matches(&path("/w"), "/a*", Walk::Missing).unwrap(), paths(&[]));
    // Nothing is asked of the glob then.
    assert_eq!(glob_matches(&path("/w"), "/a[", Walk::Missing).unwrap(), paths(&[]));
}

#[test]
fn broken_globs_and_walks_are_errors() {
    let broken = glob_matches(&path("/w"), "/a[", entries(&[])).unwrap_err();
    assert!(matches!(broken, CacheError::Initialization(_)));
    assert!(broken.message().contains("a["));
    let failed = glob_matches(&path("/w"), "/a*", Walk::Failed("denied".to_string())).unwrap_err();
    assert!(matches!(failed, CacheError::Initialization(_)));
    assert_eq!(failed.message(), "denied");
    // The glob is looked at first.
    let both = glob_matches(&path("/w"), "/a[", Walk::Failed("denied".to_string())).unwrap_err();
    assert_eq!(both.message(), broken.message());
}

#[test]
fn matches_are_in_order_and_once() {
    assert_eq!(
        order_matches(paths(&["/b", "/a/z", "/a", "/b", "/a-b", "/a"])),
        paths(&["/a", "/a/z", "/a-b", "/b"])
    );
    // The same components are the same path; the first spelling stays.
    let same = order_matches(paths(&["/a/b", "/a//b"]));
    assert_eq!(same.len(), 1);
    assert_eq!(same[0].to_str(), Some("/a/b"));
    let same = order_matches(paths(&["/c", "/a//b", "/a/b", "/a/./b"]));
    assert_eq!(same.len(), 2);
    assert_eq!(same[0].to_str(), Some("/a//b"));
    assert_eq!(order_matches(Vec::new()), paths(&[]));
}

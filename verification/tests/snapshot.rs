use devenv_tasks::snapshot::{snapshot_path, snapshot_text, Child, FsNode};
use std::path::PathBuf;

fn symlink(target: &str) -> FsNode {
    FsNode::Symlink { target: target.to_string() }
}

fn file(mode: u32, hash: &str) -> FsNode {
    FsNode::File { mode, content_hash: hash.to_string() }
}

fn directory(mode: u32, children: Vec<(&[u8], FsNode)>) -> FsNode {
    FsNode::Directory {
        mode,
        children: children
            .into_iter()
            .map(|(name, node)| Child {
                file_name: name.to_vec(),
                text: String::from_utf8_lossy(name).into_owned(),
                node,
            })
            .collect(),
    }
}

#[test]
fn snapshot_detects_content_and_symlink_target_changes() {
    let first = symlink("/tmp/first");
    let second = symlink("/tmp/second");
    let before = snapshot_path(&PathBuf::from("/tmp/input"), &first, snapshot_text("/", &first));
    let after = snapshot_path(&PathBuf::from("/tmp/input"), &second, snapshot_text("/", &second));

    assert_ne!(before, after);
    assert_eq!(after.kind, "symlink");
}

#[test]
fn texts_of_single_nodes() {
    assert_eq!(snapshot_text("/", &symlink("../x")), "../x");
    assert_eq!(snapshot_text("/", &file(33188, "abc")), "33188:abc");
    assert_eq!(snapshot_text("/", &FsNode::Other { mode: 8630, len: 12 }), "8630:12");
    assert_eq!(snapshot_text("/", &directory(16877, Vec::new())), "");
}

#[test]
fn kinds_of_nodes() {
    let state = snapshot_path(&PathBuf::from("/f"), &file(1, "c"), "hash".to_string());
    assert_eq!((state.path.as_str(), state.kind.as_str(), state.content_hash.as_str()), ("/f", "file", "hash"));
    assert_eq!(snapshot_path(&PathBuf::from("/d"), &directory(0, Vec::new()), String::new()).kind, "directory");
    assert_eq!(snapshot_path(&PathBuf::from("/o"), &FsNode::Other { mode: 0, len: 0 }, String::new()).kind, "other");
}

#[test]
fn directory_lists_everything_below_it() {
    let tree = directory(
        16877,
        vec![
            (b"z", file(33188, "zz")),
            (b"b", directory(16832, vec![(b"y", symlink("t")), (b"x", file(1, "xx"))])),
            (b"b.c", FsNode::Other { mode: 4480, len: 0 }),
            (b"A", file(2, "aa")),
        ],
    );
    assert_eq!(
        snapshot_text("/", &tree),
        "file:A:2:aa\n\
         directory:b:16832\n\
         file:b/x:1:xx\n\
         symlink:b/y:t\n\
         other:b.c:4480:0\n\
         file:z:33188:zz"
    );
}

#[test]
fn paths_are_written_as_the_system_writes_them() {
    let tree = directory(0, vec![(b"a", directory(1, vec![(b"b", symlink("t"))]))]);
    assert_eq!(snapshot_text("\\", &tree), "directory:a:1\nsymlink:a\\b:t");
}

#[test]
fn reading_order_does_not_change_the_listing() {
    let one = directory(0, vec![(b"a", file(1, "x")), (b"b", file(2, "y")), (b"c", symlink("z"))]);
    let other = directory(0, vec![(b"c", symlink("z")), (b"a", file(1, "x")), (b"b", file(2, "y"))]);
    assert_eq!(snapshot_text("/", &one), snapshot_text("/", &other));
    let deep = |children| directory(0, vec![(b"d" as &[u8], directory(0, children))]);
    assert_eq!(
        snapshot_text("/", &deep(vec![(b"a", symlink("x")), (b"b", symlink("y"))])),
        snapshot_text("/", &deep(vec![(b"b", symlink("y")), (b"a", symlink("x"))]))
    );
}

#[test]
fn changes_below_a_directory_are_seen() {
    let tree = |name: &'static [u8], node| directory(0, vec![(b"d" as &[u8], directory(1, vec![(name, node)]))]);
    let base = snapshot_text("/", &tree(b"f", file(2, "h")));
    for other in [
        tree(b"g", file(2, "h")),
        tree(b"f", file(3, "h")),
        tree(b"f", file(2, "i")),
        tree(b"f", symlink("2:h")),
        tree(b"f", FsNode::Other { mode: 2, len: 0 }),
        directory(0, vec![(b"d", directory(9, vec![(b"f", file(2, "h"))]))]),
        directory(0, vec![(b"d", directory(1, Vec::new()))]),
    ] {
        assert_ne!(snapshot_text("/", &other), base);
    }
}

#[test]
fn names_are_ordered_by_their_bytes() {
    // A name that is no UTF-8 comes where its bytes put it, and shows a
    // replacement.
    let tree = directory(0, vec![(b"\xff", symlink("1")), (b"\xc3\xa9", symlink("2")), (b"z", symlink("3"))]);
    assert_eq!(snapshot_text("/", &tree), "symlink:z:3\nsymlink:\u{e9}:2\nsymlink:\u{fffd}:1");
}

#[test]
fn changes_of_mode_or_content_are_seen() {
    assert_ne!(snapshot_text("/", &file(33188, "a")), snapshot_text("/", &file(33261, "a")));
    assert_ne!(snapshot_text("/", &file(33188, "a")), snapshot_text("/", &file(33188, "b")));
    assert_ne!(
        snapshot_text("/", &FsNode::Other { mode: 1, len: 23 }),
        snapshot_text("/", &FsNode::Other { mode: 12, len: 3 })
    );
}

//! What stands at a path, as a text that is hashed.

use std::path::PathBuf;
use vstd::prelude::*;
use crate::error::{concat3, concat4};
use crate::paths::{path_text, text_of};
use crate::task_cache::PathState;
use crate::text::{bytes_before, bytes_precede, decimal, decimal_text, join_texts, joined};
use crate::text::text_views;

verus! {

/// What stands at a path.
#[derive(Debug)]
pub enum FsNode {
    Symlink { target: String },
    /// A directory with what it holds, in whatever order.
    Directory { mode: u32, children: Vec<Child> },
    File { mode: u32, content_hash: String },
    Other { mode: u32, len: u64 },
}

/// Something in a directory.
#[derive(Debug)]
pub struct Child {
    /// The name, as the bytes that names are ordered by.
    pub file_name: Vec<u8>,
    /// The name as a text, with a replacement for what is no text in it.
    pub text: String,
    pub node: FsNode,
}

/// The kind of a node.
pub open spec fn kind_of(node: FsNode) -> Seq<char> {
    match node {
        FsNode::Symlink { .. } => "symlink"@,
        FsNode::Directory { .. } => "directory"@,
        FsNode::File { .. } => "file"@,
        FsNode::Other { .. } => "other"@,
    }
}

/// What the listing of a directory tells of something below it.
pub enum EntryKind {
    Symlink { target: Seq<char> },
    Directory { mode: nat },
    File { mode: nat, content_hash: Seq<char> },
    Other { mode: nat, len: nat },
}

/// Something below a directory, with its path from there.
pub struct Entry {
    pub path: Seq<char>,
    pub kind: EntryKind,
}

/// The word for the kind of an entry.
pub open spec fn entry_word(kind: EntryKind) -> Seq<char> {
    match kind {
        EntryKind::Symlink { .. } => "symlink"@,
        EntryKind::Directory { .. } => "directory"@,
        EntryKind::File { .. } => "file"@,
        EntryKind::Other { .. } => "other"@,
    }
}

/// What the line of an entry tells of it.
pub open spec fn entry_data(kind: EntryKind) -> Seq<char> {
    match kind {
        EntryKind::Symlink { target } => target,
        EntryKind::Directory { mode } => decimal(mode),
        EntryKind::File { mode, content_hash } => decimal(mode) + ":"@ + content_hash,
        EntryKind::Other { mode, len } => decimal(mode) + ":"@ + decimal(len),
    }
}

/// The line of an entry.
pub open spec fn entry_line(entry: Entry) -> Seq<char> {
    entry_word(entry.kind) + ":"@ + entry.path + ":"@ + entry_data(entry.kind)
}

/// The lines of entries.
pub open spec fn entry_lines(entries: Seq<Entry>) -> Seq<Seq<char>> {
    entries.map_values(|entry: Entry| entry_line(entry))
}

/// The entries for one thing in a directory, under its name.
pub type Block = (Seq<u8>, Seq<Entry>);

/// The entries for a node below a directory: one for itself, and those for
/// everything in it.
pub open spec fn node_entries(separator: Seq<char>, path: Seq<char>, node: FsNode) -> Seq<Entry>
    decreases node,
{
    match node {
        FsNode::Symlink { target } => seq![
            Entry { path, kind: EntryKind::Symlink { target: target@ } },
        ],
        FsNode::Directory { mode, children } => seq![
            Entry { path, kind: EntryKind::Directory { mode: mode as nat } },
        ] + flattened(sorted_blocks(blocks(separator, path + separator, children@))),
        FsNode::File { mode, content_hash } => seq![
            Entry {
                path,
                kind: EntryKind::File { mode: mode as nat, content_hash: content_hash@ },
            },
        ],
        FsNode::Other { mode, len } => seq![
            Entry { path, kind: EntryKind::Other { mode: mode as nat, len: len as nat } },
        ],
    }
}

/// The entries for each thing in a directory.
pub open spec fn blocks(
    separator: Seq<char>,
    prefix: Seq<char>,
    children: Seq<Child>,
) -> Seq<Block>
    decreases children,
{
    if children.len() == 0 {
        Seq::empty()
    } else {
        let last = children.last();
        blocks(separator, prefix, children.drop_last()).push(
            (last.file_name@, node_entries(separator, prefix + last.text@, last.node)),
        )
    }
}

/// A block put behind the ones whose names do not come after its own.
pub open spec fn with_block(sorted: Seq<Block>, block: Block) -> Seq<Block>
    decreases sorted.len(),
{
    if sorted.len() > 0 && bytes_precede(block.0, sorted.last().0) {
        with_block(sorted.drop_last(), block).push(sorted.last())
    } else {
        sorted.push(block)
    }
}

/// Blocks in the order of their names.
pub open spec fn sorted_blocks(s: Seq<Block>) -> Seq<Block>
    decreases s.len(),
{
    if s.len() == 0 {
        Seq::empty()
    } else {
        with_block(sorted_blocks(s.drop_last()), s.last())
    }
}

/// The entries of blocks one after the other.
pub open spec fn flattened(s: Seq<Block>) -> Seq<Entry>
    decreases s.len(),
{
    if s.len() == 0 {
        Seq::empty()
    } else {
        flattened(s.drop_last()) + s.last().1
    }
}

/// Everything below a directory: in the order of the names, and what a
/// directory holds right behind it.
pub open spec fn entries_below(separator: Seq<char>, children: Seq<Child>) -> Seq<Entry> {
    flattened(sorted_blocks(blocks(separator, ""@, children)))
}

/// The text whose hash is the content hash of a path. `separator` is what the
/// system puts between the components of a path.
pub open spec fn content_text(separator: Seq<char>, node: FsNode) -> Seq<char> {
    match node {
        FsNode::Symlink { target } => target@,
        FsNode::Directory { mode: _, children } => joined(
            entry_lines(entries_below(separator, children@)),
            "\n"@,
        ),
        FsNode::File { mode, content_hash } => decimal(mode as nat) + ":"@ + content_hash@,
        FsNode::Other { mode, len } => decimal(mode as nat) + ":"@ + decimal(len as nat),
    }
}

proof fn lemma_with_block(sorted: Seq<Block>, block: Block, at: int)
    requires
        0 <= at <= sorted.len(),
        forall|i: int| at <= i < sorted.len() ==> bytes_precede(block.0, #[trigger] sorted[i].0),
        at > 0 ==> !bytes_precede(block.0, sorted[at - 1].0),
    ensures
        with_block(sorted, block) == sorted.insert(at, block),
    decreases sorted.len(),
{
    if at == sorted.len() {
        assert(sorted.insert(at, block) =~= sorted.push(block));
    } else {
        assert(bytes_precede(block.0, sorted[sorted.len() - 1].0));
        lemma_with_block(sorted.drop_last(), block, at);
        assert(sorted.drop_last().insert(at, block).push(sorted.last()) =~= sorted.insert(
            at,
            block,
        ));
    }
}

/// The lines of the blocks, under the same names.
spec fn shows(shown: Seq<(&[u8], Vec<String>)>, s: Seq<Block>) -> bool {
    &&& shown.len() == s.len()
    &&& forall|i: int|
        0 <= i < s.len() ==> (#[trigger] shown[i]).0@ == s[i].0 && text_views(shown[i].1@)
            == entry_lines(s[i].1)
}

/// The place behind the ones whose names do not come after `name`.
fn find_place(sorted: &Vec<(&[u8], Vec<String>)>, name: &[u8]) -> (at: usize)
    ensures
        at <= sorted@.len(),
        forall|i: int| at <= i < sorted@.len() ==> bytes_precede(name@, #[trigger] sorted@[i].0@),
        at > 0 ==> !bytes_precede(name@, sorted@[at - 1].0@),
{
    let mut at = sorted.len();
    while at > 0 && bytes_before(name, sorted[at - 1].0)
        invariant
            at <= sorted@.len(),
            forall|i: int|
                at <= i < sorted@.len() ==> bytes_precede(name@, #[trigger] sorted@[i].0@),
        decreases at,
    {
        at -= 1;
    }
    at
}

/// The lines of blocks one after the other.
spec fn flat_lines(shown: Seq<(&[u8], Vec<String>)>) -> Seq<Seq<char>>
    decreases shown.len(),
{
    if shown.len() == 0 {
        Seq::empty()
    } else {
        flat_lines(shown.drop_last()) + text_views(shown.last().1@)
    }
}

proof fn lemma_flat_lines(shown: Seq<(&[u8], Vec<String>)>, s: Seq<Block>)
    requires
        shows(shown, s),
    ensures
        flat_lines(shown) == entry_lines(flattened(s)),
    decreases s.len(),
{
    if s.len() == 0 {
        assert(flat_lines(shown) =~= entry_lines(flattened(s)));
    } else {
        assert(forall|i: int| 0 <= i < s.len() - 1 ==> shown.drop_last()[i] == #[trigger] shown[i]);
        lemma_flat_lines(shown.drop_last(), s.drop_last());
        assert(shown[s.len() - 1].0@ == s[s.len() - 1].0);
        assert(entry_lines(flattened(s)) =~= entry_lines(flattened(s.drop_last())) + entry_lines(
            s.last().1,
        ));
    }
}

/// The lines of blocks one after the other.
fn flatten(shown: Vec<(&[u8], Vec<String>)>) -> (lines: Vec<String>)
    ensures
        text_views(lines@) == flat_lines(shown@),
{
    let mut lines: Vec<String> = Vec::new();
    let mut i: usize = 0;
    assert(text_views(lines@) =~= flat_lines(shown@.take(0)));
    while i < shown.len()
        invariant
            i <= shown@.len(),
            text_views(lines@) == flat_lines(shown@.take(i as int)),
        decreases shown@.len() - i,
    {
        assert(shown@.take(i + 1).drop_last() =~= shown@.take(i as int));
        let block = &shown[i].1;
        let ghost known = text_views(lines@);
        let mut j: usize = 0;
        assert(text_views(lines@) =~= known + text_views(block@).take(0));
        while j < block.len()
            invariant
                j <= block@.len(),
                text_views(lines@) == known + text_views(block@).take(j as int),
            decreases block@.len() - j,
        {
            let ghost so_far = text_views(lines@);
            lines.push(block[j].clone());
            assert(text_views(lines@) =~= so_far.push(block@[j as int]@));
            assert(text_views(lines@) =~= known + text_views(block@).take(j + 1));
            j += 1;
        }
        assert(text_views(block@).take(block@.len() as int) =~= text_views(block@));
        i += 1;
    }
    assert(shown@.take(shown@.len() as int) =~= shown@);
    lines
}

/// The line for a word, a path and what is told of it.
fn one_line(word: &str, path: &str, data: &str) -> (r: Vec<String>)
    ensures
        text_views(r@) == seq![word@ + ":"@ + path@ + ":"@ + data@],
{
    let mut line = concat4(word, ":", path, ":");
    line.append(data);
    let ghost shown = line@;
    let mut r: Vec<String> = Vec::new();
    r.push(line);
    assert(text_views(r@) =~= seq![shown]);
    r
}

/// The lines for a node below a directory.
fn lines_of(separator: &str, path: &str, node: &FsNode) -> (lines: Vec<String>)
    ensures
        text_views(lines@) == entry_lines(node_entries(separator@, path@, *node)),
    decreases *node,
{
    match node {
        FsNode::Symlink { target } => {
            let lines = one_line("symlink", path, target.as_str());
            assert(text_views(lines@) =~= entry_lines(node_entries(separator@, path@, *node)));
            lines
        },
        FsNode::Directory { mode, children } => {
            let mut lines = one_line("directory", path, decimal_text(*mode as u64).as_str());
            let ghost own = lines@;
            let prefix = concat3(path, separator, "");
            proof {
                reveal_strlit("");
                assert(prefix@ =~= path@ + separator@);
            }
            let mut below = lines_below(separator, prefix.as_str(), children);
            let ghost inner = below@;
            lines.append(&mut below);
            assert(text_views(lines@) =~= text_views(own) + text_views(inner));
            assert(text_views(lines@) =~= entry_lines(node_entries(separator@, path@, *node)));
            lines
        },
        FsNode::File { mode, content_hash } => {
            let data = concat3(decimal_text(*mode as u64).as_str(), ":", content_hash.as_str());
            let lines = one_line("file", path, data.as_str());
            assert(text_views(lines@) =~= entry_lines(node_entries(separator@, path@, *node)));
            lines
        },
        FsNode::Other { mode, len } => {
            let data = concat3(
                decimal_text(*mode as u64).as_str(),
                ":",
                decimal_text(*len).as_str(),
            );
            let lines = one_line("other", path, data.as_str());
            assert(text_views(lines@) =~= entry_lines(node_entries(separator@, path@, *node)));
            lines
        },
    }
}

/// The lines for everything in a directory.
fn lines_below(separator: &str, prefix: &str, children: &Vec<Child>) -> (lines: Vec<String>)
    ensures
        text_views(lines@) == entry_lines(
            flattened(sorted_blocks(blocks(separator@, prefix@, children@))),
        ),
    decreases *children,
{
    let mut shown: Vec<(&[u8], Vec<String>)> = Vec::new();
    let mut i: usize = 0;
    assert(shows(shown@, sorted_blocks(blocks(separator@, prefix@, children@.take(0)))));
    while i < children.len()
        invariant
            i <= children@.len(),
            shows(shown@, sorted_blocks(blocks(separator@, prefix@, children@.take(i as int)))),
        decreases children@.len() - i,
    {
        let name = children[i].file_name.as_slice();
        let path = concat3(prefix, children[i].text.as_str(), "");
        proof {
            reveal_strlit("");
            assert(path@ =~= prefix@ + children@[i as int].text@);
        }
        assert(decreases_to!(*children => children@[i as int].node));
        let lines = lines_of(separator, path.as_str(), &children[i].node);
        let ghost before = blocks(separator@, prefix@, children@.take(i as int));
        let ghost block = (name@, node_entries(separator@, path@, children@[i as int].node));
        let ghost s = sorted_blocks(before);
        let at = find_place(&shown, name);
        proof {
            assert(children@.take(i + 1).drop_last() =~= children@.take(i as int));
            assert(before.push(block).drop_last() =~= before);
            assert forall|j: int| at <= j < s.len() implies bytes_precede(
                block.0,
                #[trigger] s[j].0,
            ) by {
                assert(shown@[j].0@ == s[j].0);
            }
            if at > 0 {
                assert(shown@[at - 1].0@ == s[at - 1].0);
            }
            lemma_with_block(s, block, at as int);
        }
        let ghost known = shown@;
        shown.insert(at, (name, lines));
        proof {
            let after = s.insert(at as int, block);
            assert forall|j: int| 0 <= j < after.len() implies (#[trigger] shown@[j]).0@
                == after[j].0 && text_views(shown@[j].1@) == entry_lines(after[j].1) by {
                if j < at {
                    assert(shown@[j] == known[j]);
                } else if j > at {
                    assert(shown@[j] == known[j - 1]);
                }
            }
        }
        i += 1;
    }
    assert(children@.take(children@.len() as int) =~= children@);
    proof {
        lemma_flat_lines(shown@, sorted_blocks(blocks(separator@, prefix@, children@)));
    }
    flatten(shown)
}

/// The text whose hash is the content hash of a path. `separator` is what the
/// system puts between the components of a path.
pub fn snapshot_text(separator: &str, node: &FsNode) -> (r: String)
    ensures
        r@ == content_text(separator@, *node),
{
    match node {
        FsNode::Symlink { target } => target.clone(),
        FsNode::Directory { mode: _, children } => {
            let lines = lines_below(separator, "", children);
            join_texts(&lines, "\n")
        },
        FsNode::File { mode, content_hash } => concat3(
            decimal_text(*mode as u64).as_str(),
            ":",
            content_hash.as_str(),
        ),
        FsNode::Other { mode, len } => concat3(
            decimal_text(*mode as u64).as_str(),
            ":",
            decimal_text(*len).as_str(),
        ),
    }
}

/// What was found at `path`: a node, of whose text `content_hash` is the hash.
pub fn snapshot_path(path: &PathBuf, node: &FsNode, content_hash: String) -> (r: PathState)
    ensures
        r.path@ == path_text(*path),
        r.kind@ == kind_of(*node),
        r.content_hash == content_hash,
{
    let kind = match node {
        FsNode::Symlink { .. } => "symlink",
        FsNode::Directory { .. } => "directory",
        FsNode::File { .. } => "file",
        FsNode::Other { .. } => "other",
    };
    PathState { path: text_of(path), kind: kind.to_string(), content_hash }
}

} // verus!

//! The listing of a directory tells the whole tree below it.

use vstd::prelude::*;
use vstd::utf8::{decode_utf8, encode_utf8};
use crate::listing::{are_plain_children, block_of, distinct_names, is_plain, same_children};
use crate::listing::{law_blocks_are_in_order, law_changes_below_are_seen, same_name, same_node};
use crate::listing::strictly_sorted;
use crate::snapshot::{blocks, content_text, entries_below, entry_line, entry_lines, flattened};
use crate::snapshot::{kind_of, node_entries};
use crate::snapshot::{sorted_blocks, with_block, Block, Child, Entry, EntryKind, FsNode};
use crate::text::{bytes_precede, decimal, joined, lemma_bytes_precede_irreflexive};
use crate::text::lemma_bytes_precede_transitive;

verus! {

/// What a node is, with its mode, its target, its content hash or its length.
pub open spec fn seen(node: FsNode) -> EntryKind {
    match node {
        FsNode::Symlink { target } => EntryKind::Symlink { target: target@ },
        FsNode::Directory { mode, children: _ } => EntryKind::Directory { mode: mode as nat },
        FsNode::File { mode, content_hash } => EntryKind::File {
            mode: mode as nat,
            content_hash: content_hash@,
        },
        FsNode::Other { mode, len } => EntryKind::Other { mode: mode as nat, len: len as nat },
    }
}

/// What a node holds.
pub open spec fn held(node: FsNode) -> Seq<Child> {
    match node {
        FsNode::Directory { mode: _, children } => children@,
        _ => Seq::empty(),
    }
}

/// A way down from a directory: a place in it, then one in what stands there,
/// and so on.
pub open spec fn is_chain(children: Seq<Child>, chain: Seq<int>) -> bool
    decreases chain.len(),
{
    &&& chain.len() > 0
    &&& 0 <= chain[0] < children.len()
    &&& chain.len() > 1 ==> is_chain(held(children[chain[0]].node), chain.drop_first())
}

/// The node at the end of a way down.
pub open spec fn node_at(children: Seq<Child>, chain: Seq<int>) -> FsNode
    decreases chain.len(),
{
    if chain.len() <= 1 {
        children[chain[0]].node
    } else {
        node_at(held(children[chain[0]].node), chain.drop_first())
    }
}

/// The names on a way down, with the separator between them.
pub open spec fn path_at(separator: Seq<char>, children: Seq<Child>, chain: Seq<int>) -> Seq<char>
    decreases chain.len(),
{
    if chain.len() <= 1 {
        children[chain[0]].text@
    } else {
        children[chain[0]].text@ + separator + path_at(
            separator,
            held(children[chain[0]].node),
            chain.drop_first(),
        )
    }
}

proof fn lemma_blocks(separator: Seq<char>, prefix: Seq<char>, children: Seq<Child>)
    ensures
        blocks(separator, prefix, children).len() == children.len(),
        forall|k: int|
            0 <= k < children.len() ==> #[trigger] blocks(separator, prefix, children)[k]
                == block_of(separator, prefix, children[k]),
    decreases children.len(),
{
    if children.len() > 0 {
        lemma_blocks(separator, prefix, children.drop_last());
    }
}

proof fn lemma_with_contains(sorted: Seq<Block>, block: Block, b: Block)
    requires
        sorted.contains(b) || b == block,
    ensures
        with_block(sorted, block).contains(b),
    decreases sorted.len(),
{
    let r = with_block(sorted, block);
    if sorted.len() > 0 && bytes_precede(block.0, sorted.last().0) {
        let init = sorted.drop_last();
        let w = with_block(init, block);
        if b == block {
            lemma_with_contains(init, block, b);
            let k = choose|k: int| 0 <= k < w.len() && w[k] == b;
            assert(r[k] == b);
        } else {
            let k = choose|k: int| 0 <= k < sorted.len() && sorted[k] == b;
            if k < init.len() {
                assert(init[k] == b);
                lemma_with_contains(init, block, b);
                let m = choose|m: int| 0 <= m < w.len() && w[m] == b;
                assert(r[m] == b);
            } else {
                assert(r[r.len() - 1] == b);
            }
        }
    } else if b == block {
        assert(r[r.len() - 1] == b);
    } else {
        let k = choose|k: int| 0 <= k < sorted.len() && sorted[k] == b;
        assert(r[k] == b);
    }
}

proof fn lemma_sorted_contains(s: Seq<Block>, k: int)
    requires
        0 <= k < s.len(),
    ensures
        sorted_blocks(s).contains(s[k]),
    decreases s.len(),
{
    let init = s.drop_last();
    if k < init.len() {
        lemma_sorted_contains(init, k);
        assert(init[k] == s[k]);
    }
    lemma_with_contains(sorted_blocks(init), s.last(), s[k]);
}

proof fn lemma_flattened_contains(r: Seq<Block>, b: Block, entry: Entry)
    requires
        r.contains(b),
        b.1.contains(entry),
    ensures
        flattened(r).contains(entry),
    decreases r.len(),
{
    let k = choose|k: int| 0 <= k < r.len() && r[k] == b;
    let init = r.drop_last();
    if k < init.len() {
        assert(init[k] == b);
        lemma_flattened_contains(init, b, entry);
        let m = choose|m: int| 0 <= m < flattened(init).len() && flattened(init)[m] == entry;
        assert(flattened(r)[m] == entry);
    } else {
        let m = choose|m: int| 0 <= m < b.1.len() && b.1[m] == entry;
        assert(flattened(r)[flattened(init).len() + m] == entry);
    }
}

proof fn lemma_chain(
    separator: Seq<char>,
    prefix: Seq<char>,
    children: Seq<Child>,
    chain: Seq<int>,
)
    requires
        is_chain(children, chain),
    ensures
        flattened(sorted_blocks(blocks(separator, prefix, children))).contains(
            Entry {
                path: prefix + path_at(separator, children, chain),
                kind: seen(node_at(children, chain)),
            },
        ),
    decreases chain.len(),
{
    let k = chain[0];
    let child = children[k];
    let s = blocks(separator, prefix, children);
    let entry = Entry {
        path: prefix + path_at(separator, children, chain),
        kind: seen(node_at(children, chain)),
    };
    lemma_blocks(separator, prefix, children);
    lemma_sorted_contains(s, k);
    let b = block_of(separator, prefix, child);
    let path = prefix + child.text@;
    if chain.len() == 1 {
        assert(b.1[0] == entry);
    } else {
        let rest = chain.drop_first();
        let below = flattened(sorted_blocks(blocks(separator, path + separator, held(child.node))));
        lemma_chain(separator, path + separator, held(child.node), rest);
        assert(prefix + path_at(separator, children, chain) =~= path + separator + path_at(
            separator,
            held(child.node),
            rest,
        ));
        assert(below.contains(entry));
        let m = choose|m: int| 0 <= m < below.len() && below[m] == entry;
        assert(child.node is Directory);
        assert(b.1[m + 1] == entry);
    }
    assert(b.1.contains(entry));
    lemma_flattened_contains(sorted_blocks(s), b, entry);
}

/// Every node of a tree, at every depth, is in the listing of the directory:
/// under its path from there, which is the names on the way down with the
/// separator between them, and with its kind, its mode, its target, its content
/// hash or its length.
pub proof fn law_every_node_is_listed(
    separator: Seq<char>,
    children: Seq<Child>,
    chain: Seq<int>,
)
    requires
        is_chain(children, chain),
    ensures
        entries_below(separator, children).contains(
            Entry {
                path: path_at(separator, children, chain),
                kind: seen(node_at(children, chain)),
            },
        ),
{
    reveal_strlit("");
    lemma_chain(separator, ""@, children, chain);
    assert(""@ + path_at(separator, children, chain) =~= path_at(separator, children, chain));
}

/// How many nodes a node makes: itself and all below it.
pub open spec fn node_count(node: FsNode) -> nat
    decreases node,
{
    match node {
        FsNode::Directory { mode: _, children } => 1 + tree_count(children@),
        _ => 1,
    }
}

/// How many nodes a directory holds, at every depth.
pub open spec fn tree_count(children: Seq<Child>) -> nat
    decreases children,
{
    if children.len() == 0 {
        0
    } else {
        tree_count(children.drop_last()) + node_count(children.last().node)
    }
}

spec fn total(s: Seq<Block>) -> nat
    decreases s.len(),
{
    if s.len() == 0 {
        0
    } else {
        total(s.drop_last()) + s.last().1.len()
    }
}

proof fn lemma_with_total(sorted: Seq<Block>, block: Block)
    ensures
        total(with_block(sorted, block)) == total(sorted) + block.1.len(),
    decreases sorted.len(),
{
    let r = with_block(sorted, block);
    if sorted.len() > 0 && bytes_precede(block.0, sorted.last().0) {
        lemma_with_total(sorted.drop_last(), block);
        assert(r.drop_last() =~= with_block(sorted.drop_last(), block));
    } else {
        assert(r.drop_last() =~= sorted);
    }
}

proof fn lemma_sorted_total(s: Seq<Block>)
    ensures
        total(sorted_blocks(s)) == total(s),
        flattened(s).len() == total(s),
    decreases s.len(),
{
    if s.len() > 0 {
        lemma_sorted_total(s.drop_last());
        lemma_with_total(sorted_blocks(s.drop_last()), s.last());
    }
}

proof fn lemma_node_count(separator: Seq<char>, path: Seq<char>, node: FsNode)
    ensures
        node_entries(separator, path, node).len() == node_count(node),
    decreases node,
{
    if let FsNode::Directory { children, .. } = node {
        let s = blocks(separator, path + separator, children@);
        lemma_tree_count(separator, path + separator, children@);
        lemma_sorted_total(s);
        lemma_sorted_total(sorted_blocks(s));
    }
}

proof fn lemma_tree_count(separator: Seq<char>, prefix: Seq<char>, children: Seq<Child>)
    ensures
        total(blocks(separator, prefix, children)) == tree_count(children),
    decreases children,
{
    if children.len() > 0 {
        let last = children.last();
        lemma_tree_count(separator, prefix, children.drop_last());
        lemma_node_count(separator, prefix + last.text@, last.node);
        assert(blocks(separator, prefix, children).drop_last() =~= blocks(
            separator,
            prefix,
            children.drop_last(),
        ));
    }
}

/// The listing of a directory has one entry for each node below it, and no
/// more.
pub proof fn law_one_entry_for_each_node(separator: Seq<char>, children: Seq<Child>)
    ensures
        entries_below(separator, children).len() == tree_count(children),
{
    let s = blocks(separator, ""@, children);
    lemma_tree_count(separator, ""@, children);
    lemma_sorted_total(s);
    lemma_sorted_total(sorted_blocks(s));
}

/// The line of an entry: its kind, its path, and what else is known of it, with
/// colons between them.
pub proof fn law_lines_tell_entries(path: Seq<char>, text: Seq<char>, m: nat, n: nat)
    ensures
        entry_line(Entry { path, kind: EntryKind::Symlink { target: text } }) == "symlink"@ + ":"@
            + path + ":"@ + text,
        entry_line(Entry { path, kind: EntryKind::Directory { mode: m } }) == "directory"@ + ":"@
            + path + ":"@ + decimal(m),
        entry_line(Entry { path, kind: EntryKind::File { mode: m, content_hash: text } })
            == "file"@ + ":"@ + path + ":"@ + (decimal(m) + ":"@ + text),
        entry_line(Entry { path, kind: EntryKind::Other { mode: m, len: n } }) == "other"@ + ":"@
            + path + ":"@ + (decimal(m) + ":"@ + decimal(n)),
{
}

/// A text without the character.
pub open spec fn lacks(text: Seq<char>, c: char) -> bool {
    forall|i: int| 0 <= i < text.len() ==> #[trigger] text[i] != c
}

/// A tree of names that are texts: no name has the separator in it, and no
/// directory has a name twice.
pub open spec fn is_tree(separator: char, children: Seq<Child>) -> bool
    decreases children,
{
    &&& distinct_names(children)
    &&& forall|i: int|
        0 <= i < children.len() ==> (#[trigger] children[i]).file_name@ == encode_utf8(
            children[i].text@,
        ) && lacks(children[i].text@, separator) && is_tree_node(separator, children[i].node)
}

/// A node that holds a tree, if it holds anything.
pub open spec fn is_tree_node(separator: char, node: FsNode) -> bool
    decreases node,
{
    match node {
        FsNode::Directory { mode: _, children } => is_tree(separator, children@),
        _ => true,
    }
}

/// The path of an entry has the name at a place, up to its end or to a
/// separator.
spec fn named(entry: Entry, at: int, name: Seq<char>, separator: char) -> bool {
    &&& entry.path.len() >= at + name.len()
    &&& entry.path.subrange(at, at + name.len()) == name
    &&& entry.path.len() == at + name.len() || entry.path[at + name.len()] == separator
}

proof fn lemma_one_name(entry: Entry, at: int, a: Seq<char>, b: Seq<char>, separator: char)
    requires
        0 <= at,
        named(entry, at, a, separator),
        named(entry, at, b, separator),
        lacks(a, separator),
        lacks(b, separator),
    ensures
        a == b,
{
    let path = entry.path;
    if a.len() < b.len() {
        assert(path.subrange(at, at + b.len())[a.len() as int] == path[at + a.len()]);
        assert(b[a.len() as int] == separator);
    } else if b.len() < a.len() {
        assert(path.subrange(at, at + a.len())[b.len() as int] == path[at + b.len()]);
        assert(a[b.len() as int] == separator);
    }
}

/// The path of an entry starts with a text.
spec fn starts(entry: Entry, prefix: Seq<char>) -> bool {
    entry.path.len() >= prefix.len() && entry.path.take(prefix.len() as int) == prefix
}

/// The path of an entry is a path, or goes on below it.
spec fn is_at(entry: Entry, path: Seq<char>, separator: char) -> bool {
    &&& starts(entry, path)
    &&& entry.path.len() == path.len() || entry.path[path.len() as int] == separator
}

spec fn all_start(entries: Seq<Entry>, prefix: Seq<char>) -> bool {
    forall|i: int| 0 <= i < entries.len() ==> starts(#[trigger] entries[i], prefix)
}

spec fn all_at(entries: Seq<Entry>, path: Seq<char>, separator: char) -> bool {
    forall|i: int| 0 <= i < entries.len() ==> is_at(#[trigger] entries[i], path, separator)
}

spec fn blocks_start(s: Seq<Block>, prefix: Seq<char>) -> bool {
    forall|i: int| 0 <= i < s.len() ==> all_start((#[trigger] s[i]).1, prefix)
}

proof fn lemma_with_start(sorted: Seq<Block>, block: Block, prefix: Seq<char>)
    requires
        blocks_start(sorted, prefix),
        all_start(block.1, prefix),
    ensures
        blocks_start(with_block(sorted, block), prefix),
    decreases sorted.len(),
{
    if sorted.len() > 0 && bytes_precede(block.0, sorted.last().0) {
        let init = sorted.drop_last();
        assert(blocks_start(init, prefix)) by {
            assert(forall|i: int| 0 <= i < init.len() ==> #[trigger] init[i] == sorted[i]);
        }
        lemma_with_start(init, block, prefix);
        assert(all_start(sorted[sorted.len() - 1].1, prefix));
    }
}

proof fn lemma_sorted_start(s: Seq<Block>, prefix: Seq<char>)
    requires
        blocks_start(s, prefix),
    ensures
        blocks_start(sorted_blocks(s), prefix),
    decreases s.len(),
{
    if s.len() > 0 {
        let init = s.drop_last();
        assert(blocks_start(init, prefix)) by {
            assert(forall|i: int| 0 <= i < init.len() ==> #[trigger] init[i] == s[i]);
        }
        lemma_sorted_start(init, prefix);
        assert(all_start(s[s.len() - 1].1, prefix));
        lemma_with_start(sorted_blocks(init), s.last(), prefix);
    }
}

proof fn lemma_flattened_start(s: Seq<Block>, prefix: Seq<char>)
    requires
        blocks_start(s, prefix),
    ensures
        all_start(flattened(s), prefix),
    decreases s.len(),
{
    if s.len() > 0 {
        let init = s.drop_last();
        assert(blocks_start(init, prefix)) by {
            assert(forall|i: int| 0 <= i < init.len() ==> #[trigger] init[i] == s[i]);
        }
        lemma_flattened_start(init, prefix);
        assert(all_start(s[s.len() - 1].1, prefix));
    }
}

/// All that is listed for a node is at its path or below it.
proof fn lemma_node_at(separator: char, path: Seq<char>, node: FsNode)
    ensures
        all_at(node_entries(seq![separator], path, node), path, separator),
    decreases node,
{
    let entries = node_entries(seq![separator], path, node);
    assert(is_at(Entry { path, kind: seen(node) }, path, separator)) by {
        assert(path.take(path.len() as int) =~= path);
    }
    if let FsNode::Directory { children, .. } = node {
        let prefix = path + seq![separator];
        let s = blocks(seq![separator], prefix, children@);
        lemma_blocks_at(separator, prefix, children@);
        lemma_sorted_start(s, prefix);
        lemma_flattened_start(sorted_blocks(s), prefix);
        let below = flattened(sorted_blocks(s));
        assert forall|i: int| 0 <= i < entries.len() implies is_at(
            #[trigger] entries[i],
            path,
            separator,
        ) by {
            if i > 0 {
                let entry = below[i - 1];
                assert(entries[i] == entry);
                assert(starts(entry, prefix));
                assert(entry.path.take(path.len() as int) =~= entry.path.take(
                    prefix.len() as int,
                ).take(path.len() as int));
                assert(prefix.take(path.len() as int) =~= path);
                assert(entry.path.take(prefix.len() as int)[path.len() as int] == separator);
            }
        }
    }
}

proof fn lemma_blocks_at(separator: char, prefix: Seq<char>, children: Seq<Child>)
    ensures
        blocks_start(blocks(seq![separator], prefix, children), prefix),
    decreases children,
{
    if children.len() > 0 {
        let last = children.last();
        let path = prefix + last.text@;
        lemma_blocks_at(separator, prefix, children.drop_last());
        lemma_node_at(separator, path, last.node);
        let entries = node_entries(seq![separator], path, last.node);
        assert forall|i: int| 0 <= i < entries.len() implies starts(
            #[trigger] entries[i],
            prefix,
        ) by {
            assert(is_at(entries[i], path, separator));
            assert(entries[i].path.take(prefix.len() as int) =~= entries[i].path.take(
                path.len() as int,
            ).take(prefix.len() as int));
            assert(path.take(prefix.len() as int) =~= prefix);
        }
    }
}

/// The entries with the name at a place, in their order.
spec fn kept(entries: Seq<Entry>, at: int, name: Seq<char>, separator: char) -> Seq<Entry>
    decreases entries.len(),
{
    if entries.len() == 0 {
        Seq::empty()
    } else {
        let before = kept(entries.drop_last(), at, name, separator);
        if named(entries.last(), at, name, separator) {
            before.push(entries.last())
        } else {
            before
        }
    }
}

proof fn lemma_kept_concat(a: Seq<Entry>, b: Seq<Entry>, at: int, name: Seq<char>, separator: char)
    ensures
        kept(a + b, at, name, separator) == kept(a, at, name, separator) + kept(
            b,
            at,
            name,
            separator,
        ),
    decreases b.len(),
{
    if b.len() == 0 {
        assert(a + b =~= a);
        assert(kept(a, at, name, separator) + kept(b, at, name, separator) =~= kept(
            a,
            at,
            name,
            separator,
        ));
    } else {
        assert((a + b).drop_last() =~= a + b.drop_last());
        lemma_kept_concat(a, b.drop_last(), at, name, separator);
        assert(kept(a + b, at, name, separator) =~= kept(a, at, name, separator) + kept(
            b,
            at,
            name,
            separator,
        ));
    }
}

proof fn lemma_kept_all(entries: Seq<Entry>, at: int, name: Seq<char>, separator: char)
    requires
        forall|i: int|
            0 <= i < entries.len() ==> named(#[trigger] entries[i], at, name, separator),
    ensures
        kept(entries, at, name, separator) == entries,
    decreases entries.len(),
{
    if entries.len() > 0 {
        let init = entries.drop_last();
        assert(forall|i: int| 0 <= i < init.len() ==> #[trigger] init[i] == entries[i]);
        lemma_kept_all(init, at, name, separator);
        assert(named(entries[entries.len() - 1], at, name, separator));
        assert(init.push(entries.last()) =~= entries);
    } else {
        assert(kept(entries, at, name, separator) =~= entries);
    }
}

proof fn lemma_kept_none(entries: Seq<Entry>, at: int, name: Seq<char>, separator: char)
    requires
        forall|i: int|
            0 <= i < entries.len() ==> !named(#[trigger] entries[i], at, name, separator),
    ensures
        kept(entries, at, name, separator) == Seq::<Entry>::empty(),
    decreases entries.len(),
{
    if entries.len() > 0 {
        let init = entries.drop_last();
        assert(forall|i: int| 0 <= i < init.len() ==> #[trigger] init[i] == entries[i]);
        lemma_kept_none(init, at, name, separator);
        assert(!named(entries[entries.len() - 1], at, name, separator));
    }
}

/// All entries of a block have its name at a place.
spec fn is_named_block(b: Block, at: int, separator: char) -> bool {
    &&& b.0 == encode_utf8(decode_utf8(b.0))
    &&& lacks(decode_utf8(b.0), separator)
    &&& forall|i: int|
        0 <= i < b.1.len() ==> named(#[trigger] b.1[i], at, decode_utf8(b.0), separator)
}

spec fn are_named_blocks(r: Seq<Block>, at: int, separator: char) -> bool {
    forall|j: int| 0 <= j < r.len() ==> is_named_block(#[trigger] r[j], at, separator)
}

/// What is listed under a name is the block of that name, and nothing under a
/// name that is not there.
proof fn lemma_kept_blocks(r: Seq<Block>, at: int, name: Seq<char>, separator: char)
    requires
        0 <= at,
        strictly_sorted(r),
        are_named_blocks(r, at, separator),
        lacks(name, separator),
    ensures
        forall|j: int|
            0 <= j < r.len() && decode_utf8((#[trigger] r[j]).0) == name ==> kept(
                flattened(r),
                at,
                name,
                separator,
            ) == r[j].1,
        (forall|j: int| 0 <= j < r.len() ==> decode_utf8((#[trigger] r[j]).0) != name) ==> kept(
            flattened(r),
            at,
            name,
            separator,
        ) == Seq::<Entry>::empty(),
    decreases r.len(),
{
    if r.len() > 0 {
        let init = r.drop_last();
        let last = r.last();
        let n = r.len() - 1;
        assert(last == r[n]);
        assert(forall|j: int| 0 <= j < n ==> #[trigger] init[j] == r[j]);
        assert(strictly_sorted(init)) by {
            assert forall|i: int, j: int| 0 <= i < j < init.len() implies bytes_precede(
                #[trigger] init[i].0,
                #[trigger] init[j].0,
            ) by {
                assert(bytes_precede(r[i].0, r[j].0));
            }
        }
        assert(are_named_blocks(init, at, separator));
        lemma_kept_blocks(init, at, name, separator);
        lemma_kept_concat(flattened(init), last.1, at, name, separator);
        assert(is_named_block(last, at, separator));
        let before = kept(flattened(init), at, name, separator);
        if decode_utf8(last.0) == name {
            lemma_kept_all(last.1, at, name, separator);
            assert forall|j: int| 0 <= j < n implies decode_utf8((#[trigger] init[j]).0)
                != name by {
                assert(bytes_precede(r[j].0, r[n].0));
                assert(is_named_block(r[j], at, separator));
                if decode_utf8(r[j].0) == name {
                    assert(r[j].0 == r[n].0);
                    lemma_bytes_precede_irreflexive(r[n].0);
                }
            }
            assert(before =~= Seq::empty());
            assert(before + last.1 =~= last.1);
            assert forall|j: int|
                0 <= j < r.len() && decode_utf8((#[trigger] r[j]).0) == name implies kept(
                flattened(r),
                at,
                name,
                separator,
            ) == r[j].1 by {
                if j < n {
                    assert(decode_utf8(init[j].0) != name);
                }
            }
        } else {
            assert forall|i: int| 0 <= i < last.1.len() implies !named(
                #[trigger] last.1[i],
                at,
                name,
                separator,
            ) by {
                if named(last.1[i], at, name, separator) {
                    lemma_one_name(last.1[i], at, name, decode_utf8(last.0), separator);
                }
            }
            lemma_kept_none(last.1, at, name, separator);
            assert(before + Seq::<Entry>::empty() =~= before);
            assert forall|j: int|
                0 <= j < r.len() && decode_utf8((#[trigger] r[j]).0) == name implies kept(
                flattened(r),
                at,
                name,
                separator,
            ) == r[j].1 by {
                assert(init[j] == r[j]);
            }
        }
    } else {
        assert(kept(flattened(r), at, name, separator) =~= Seq::empty());
    }
}

/// The sorted blocks of a tree are named, one for each child.
proof fn lemma_tree_blocks(separator: char, prefix: Seq<char>, children: Seq<Child>)
    requires
        is_tree(separator, children),
    ensures
        ({
            let r = sorted_blocks(blocks(seq![separator], prefix, children));
            &&& strictly_sorted(r)
            &&& are_named_blocks(r, prefix.len() as int, separator)
            &&& forall|j: int|
                0 <= j < r.len() ==> exists|k: int|
                    0 <= k < children.len() && #[trigger] r[j] == block_of(
                        seq![separator],
                        prefix,
                        #[trigger] children[k],
                    ) && decode_utf8(r[j].0) == children[k].text@
            &&& forall|k: int|
                0 <= k < children.len() ==> r.contains(
                    block_of(seq![separator], prefix, #[trigger] children[k]),
                )
        }),
{
    broadcast use vstd::utf8::encode_utf8_decode_utf8;

    let r = sorted_blocks(blocks(seq![separator], prefix, children));
    law_blocks_are_in_order(seq![separator], prefix, children);
    assert forall|j: int| 0 <= j < r.len() implies exists|k: int|
        0 <= k < children.len() && #[trigger] r[j] == block_of(
            seq![separator],
            prefix,
            #[trigger] children[k],
        ) && decode_utf8(r[j].0) == children[k].text@ by {
        assert(r.contains(r[j]));
        let k = choose|k: int|
            0 <= k < children.len() && r[j] == block_of(
                seq![separator],
                prefix,
                #[trigger] children[k],
            );
        assert(children[k].file_name@ == encode_utf8(children[k].text@));
    }
    assert forall|j: int| 0 <= j < r.len() implies is_named_block(
        #[trigger] r[j],
        prefix.len() as int,
        separator,
    ) by {
        let k = choose|k: int|
            0 <= k < children.len() && r[j] == block_of(
                seq![separator],
                prefix,
                #[trigger] children[k],
            ) && decode_utf8(r[j].0) == children[k].text@;
        let child = children[k];
        let path = prefix + child.text@;
        assert(child.file_name@ == encode_utf8(child.text@) && lacks(child.text@, separator));
        lemma_node_at(separator, path, child.node);
        assert forall|i: int| 0 <= i < r[j].1.len() implies named(
            #[trigger] r[j].1[i],
            prefix.len() as int,
            child.text@,
            separator,
        ) by {
            let entry = r[j].1[i];
            assert(is_at(entry, path, separator));
            assert(entry.path.subrange(prefix.len() as int, path.len() as int)
                =~= entry.path.take(path.len() as int).skip(prefix.len() as int));
            assert(path.skip(prefix.len() as int) =~= child.text@);
        }
    }
}

/// What one tree lists under a name, another tree with the same listing lists
/// under that name too.
proof fn lemma_match(
    separator: char,
    prefix: Seq<char>,
    one: Seq<Child>,
    other: Seq<Child>,
    i: int,
) -> (j: int)
    requires
        is_tree(separator, one),
        is_tree(separator, other),
        flattened(sorted_blocks(blocks(seq![separator], prefix, one))) == flattened(
            sorted_blocks(blocks(seq![separator], prefix, other)),
        ),
        0 <= i < one.len(),
    ensures
        0 <= j < other.len(),
        one[i].text@ == other[j].text@,
        one[i].file_name@ == other[j].file_name@,
        node_entries(seq![separator], prefix + one[i].text@, one[i].node) == node_entries(
            seq![separator],
            prefix + other[j].text@,
            other[j].node,
        ),
{
    broadcast use vstd::utf8::encode_utf8_decode_utf8;

    let a = sorted_blocks(blocks(seq![separator], prefix, one));
    let b = sorted_blocks(blocks(seq![separator], prefix, other));
    let name = one[i].text@;
    let at = prefix.len() as int;
    lemma_tree_blocks(separator, prefix, one);
    lemma_tree_blocks(separator, prefix, other);
    let block = block_of(seq![separator], prefix, one[i]);
    assert(a.contains(block));
    let x = choose|x: int| 0 <= x < a.len() && a[x] == block;
    assert(one[i].file_name@ == encode_utf8(name) && lacks(name, separator));
    assert(decode_utf8(a[x].0) == name);
    lemma_kept_blocks(a, at, name, separator);
    lemma_kept_blocks(b, at, name, separator);
    assert(kept(flattened(a), at, name, separator) == block.1);
    assert(block.1.len() > 0);
    if forall|y: int| 0 <= y < b.len() ==> decode_utf8((#[trigger] b[y]).0) != name {
        assert(false);
    }
    let y = choose|y: int| 0 <= y < b.len() && decode_utf8((#[trigger] b[y]).0) == name;
    let j = choose|j: int|
        0 <= j < other.len() && b[y] == block_of(seq![separator], prefix, #[trigger] other[j])
            && decode_utf8(b[y].0) == other[j].text@;
    assert(other[j].file_name@ == encode_utf8(other[j].text@));
    j
}

/// Nodes with the same entries are the same.
proof fn lemma_node_is_told(separator: char, path: Seq<char>, one: FsNode, other: FsNode)
    requires
        is_tree_node(separator, one),
        is_tree_node(separator, other),
        node_entries(seq![separator], path, one) == node_entries(seq![separator], path, other),
    ensures
        same_node(one, other),
    decreases one, 1int,
{
    let a = node_entries(seq![separator], path, one);
    let b = node_entries(seq![separator], path, other);
    assert(a[0].kind == seen(one) && b[0].kind == seen(other));
    if let (FsNode::Directory { children: x, .. }, FsNode::Directory { children: y, .. }) = (
        one,
        other,
    ) {
        let prefix = path + seq![separator];
        let below = flattened(sorted_blocks(blocks(seq![separator], prefix, x@)));
        let others = flattened(sorted_blocks(blocks(seq![separator], prefix, y@)));
        assert(a.drop_first() =~= below);
        assert(b.drop_first() =~= others);
        lemma_tree_is_told(separator, prefix, x@, y@);
    }
}

/// Trees with the same listing are the same.
proof fn lemma_tree_is_told(
    separator: char,
    prefix: Seq<char>,
    one: Seq<Child>,
    other: Seq<Child>,
)
    requires
        is_tree(separator, one),
        is_tree(separator, other),
        flattened(sorted_blocks(blocks(seq![separator], prefix, one))) == flattened(
            sorted_blocks(blocks(seq![separator], prefix, other)),
        ),
    ensures
        same_children(one, other),
    decreases one, 0int,
{
    assert forall|i: int| 0 <= i < one.len() implies exists|j: int|
        0 <= j < other.len() && same_name(#[trigger] one[i], #[trigger] other[j]) && same_node(
            one[i].node,
            other[j].node,
        ) by {
        let j = lemma_match(separator, prefix, one, other, i);
        assert(is_tree_node(separator, one[i].node) && is_tree_node(separator, other[j].node));
        assert(decreases_to!(one => one[i].node));
        lemma_node_is_told(separator, prefix + one[i].text@, one[i].node, other[j].node);
        assert(same_name(one[i], other[j]));
    }
    assert forall|j: int| 0 <= j < other.len() implies exists|i: int|
        0 <= i < one.len() && same_name(#[trigger] one[i], #[trigger] other[j]) && same_node(
            one[i].node,
            other[j].node,
        ) by {
        let i = lemma_match(separator, prefix, other, one, j);
        assert(is_tree_node(separator, one[i].node) && is_tree_node(separator, other[j].node));
        assert(decreases_to!(one => one[i].node));
        lemma_node_is_told(separator, prefix + one[i].text@, one[i].node, other[j].node);
        assert(same_name(one[i], other[j]));
    }
}

/// Directories with the same text hold the same tree, at every depth, up to the
/// order in which they were read: the same names, and under each the same kind
/// of thing with the same mode, target, content hash or length. That holds of
/// names that are texts without the separator, colons and line feeds, and of
/// targets and hashes without line feeds.
pub proof fn law_text_tells_the_tree(
    separator: char,
    m: u32,
    one: Vec<Child>,
    n: u32,
    other: Vec<Child>,
)
    requires
        separator != ':',
        separator != '\n',
        is_tree(separator, one@),
        is_tree(separator, other@),
        are_plain_children(one@),
        are_plain_children(other@),
        content_text(seq![separator], FsNode::Directory { mode: m, children: one })
            == content_text(seq![separator], FsNode::Directory { mode: n, children: other }),
    ensures
        same_children(one@, other@),
{
    assert(is_plain(seq![separator]));
    law_changes_below_are_seen(seq![separator], m, one, n, other);
    lemma_tree_is_told(separator, ""@, one@, other@);
}

/// The children are in the strict order of their names, in every directory.
pub open spec fn in_order(children: Seq<Child>) -> bool
    decreases children,
{
    &&& forall|i: int, j: int|
        0 <= i < j < children.len() ==> bytes_precede(
            (#[trigger] children[i]).file_name@,
            (#[trigger] children[j]).file_name@,
        )
    &&& forall|i: int| 0 <= i < children.len() ==> is_ordered_node((#[trigger] children[i]).node)
}

/// What is in the node is in order, if there is anything.
pub open spec fn is_ordered_node(node: FsNode) -> bool
    decreases node,
{
    match node {
        FsNode::Directory { mode: _, children } => in_order(children@),
        _ => true,
    }
}

/// A node and then all that is below it.
pub open spec fn walked(separator: Seq<char>, path: Seq<char>, node: FsNode) -> Seq<Entry>
    decreases node,
{
    let own = seq![Entry { path, kind: seen(node) }];
    match node {
        FsNode::Directory { mode: _, children } => own + walked_all(
            separator,
            path + separator,
            children@,
        ),
        _ => own,
    }
}

/// Each child, one after the other, with all that is below it.
pub open spec fn walked_all(
    separator: Seq<char>,
    prefix: Seq<char>,
    children: Seq<Child>,
) -> Seq<Entry>
    decreases children,
{
    if children.len() == 0 {
        Seq::empty()
    } else {
        walked_all(separator, prefix, children.drop_last()) + walked(
            separator,
            prefix + children.last().text@,
            children.last().node,
        )
    }
}

proof fn lemma_walked(separator: Seq<char>, path: Seq<char>, node: FsNode)
    requires
        is_ordered_node(node),
    ensures
        node_entries(separator, path, node) == walked(separator, path, node),
    decreases node,
{
    if let FsNode::Directory { children, .. } = node {
        lemma_walked_all(separator, path + separator, children@);
    }
}

proof fn lemma_walked_all(separator: Seq<char>, prefix: Seq<char>, children: Seq<Child>)
    requires
        in_order(children),
    ensures
        sorted_blocks(blocks(separator, prefix, children)) == blocks(separator, prefix, children),
        flattened(blocks(separator, prefix, children)) == walked_all(separator, prefix, children),
        blocks(separator, prefix, children).len() == children.len(),
        children.len() > 0 ==> blocks(separator, prefix, children).last().0
            == children.last().file_name@,
    decreases children,
{
    if children.len() > 0 {
        let init = children.drop_last();
        let last = children.last();
        let n = children.len() - 1;
        assert(last == children[n]);
        assert(in_order(init)) by {
            assert(forall|i: int| 0 <= i < init.len() ==> #[trigger] init[i] == children[i]);
        }
        lemma_walked_all(separator, prefix, init);
        lemma_walked(separator, prefix + last.text@, last.node);
        let before = blocks(separator, prefix, init);
        let all = blocks(separator, prefix, children);
        assert(all.drop_last() =~= before);
        if init.len() > 0 {
            assert(bytes_precede(children[n - 1].file_name@, children[n].file_name@));
            if bytes_precede(last.file_name@, before.last().0) {
                lemma_bytes_precede_transitive(
                    last.file_name@,
                    before.last().0,
                    last.file_name@,
                );
                lemma_bytes_precede_irreflexive(last.file_name@);
            }
        }
    }
}

/// What is below a directory is listed in the order of the names, and what a
/// directory holds right behind it.
pub proof fn law_listing_is_a_walk(separator: Seq<char>, children: Seq<Child>)
    requires
        in_order(children),
    ensures
        entries_below(separator, children) == walked_all(separator, ""@, children),
{
    lemma_walked_all(separator, ""@, children);
}

/// What the hash of a path is taken of: the target of a link, the mode of
/// anything else with the hash of a file or the length, and the lines of all
/// that is below a directory.
pub proof fn law_content_of_a_path(
    separator: Seq<char>,
    text: String,
    m: u32,
    n: u64,
    children: Vec<Child>,
)
    ensures
        content_text(separator, FsNode::Symlink { target: text }) == text@,
        content_text(separator, FsNode::File { mode: m, content_hash: text }) == decimal(m as nat)
            + ":"@ + text@,
        content_text(separator, FsNode::Other { mode: m, len: n }) == decimal(m as nat) + ":"@
            + decimal(n as nat),
        content_text(separator, FsNode::Directory { mode: m, children }) == joined(
            Seq::new(
                entries_below(separator, children@).len(),
                |i: int| entry_line(entries_below(separator, children@)[i]),
            ),
            "\n"@,
        ),
        kind_of(FsNode::Symlink { target: text }) == "symlink"@,
        kind_of(FsNode::File { mode: m, content_hash: text }) == "file"@,
        kind_of(FsNode::Other { mode: m, len: n }) == "other"@,
        kind_of(FsNode::Directory { mode: m, children }) == "directory"@,
{
    let entries = entries_below(separator, children@);
    assert(entry_lines(entries) =~= Seq::new(entries.len(), |i: int| entry_line(entries[i])));
}

} // verus!

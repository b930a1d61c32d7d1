//! What the listing of a directory tells.

use vstd::prelude::*;
use crate::snapshot::{blocks, content_text, entries_below, entry_data, entry_line, entry_lines};
use crate::snapshot::{entry_word, flattened, kind_of, node_entries, sorted_blocks, with_block};
use crate::snapshot::{Block, Child, Entry, EntryKind, FsNode};
use crate::task_cache::PathState;
use crate::text::{bytes_precede, decimal, joined};
use crate::text::{law_decimal_is_unique, lemma_bytes_precede_irreflexive};
use crate::text::{lemma_bytes_precede_total, lemma_bytes_precede_transitive};
use crate::text::lemma_decimal_digits;

verus! {

/// No name stands for two things.
pub open spec fn distinct_names(children: Seq<Child>) -> bool {
    forall|i: int, j: int|
        0 <= i < j < children.len() ==> #[trigger] children[i].file_name@
            != #[trigger] children[j].file_name@
}

/// Blocks in the strict order of their names.
pub open spec fn strictly_sorted(s: Seq<Block>) -> bool {
    forall|i: int, j: int|
        0 <= i < j < s.len() ==> bytes_precede(#[trigger] s[i].0, #[trigger] s[j].0)
}

/// A block with a new name keeps the order strict.
proof fn lemma_with_block_sorted(sorted: Seq<Block>, block: Block)
    requires
        strictly_sorted(sorted),
        forall|i: int| 0 <= i < sorted.len() ==> #[trigger] sorted[i].0 != block.0,
    ensures
        strictly_sorted(with_block(sorted, block)),
        with_block(sorted, block).len() == sorted.len() + 1,
        forall|b: Block|
            #[trigger] with_block(sorted, block).contains(b) <==> sorted.contains(b) || b == block,
    decreases sorted.len(),
{
    let r = with_block(sorted, block);
    if sorted.len() > 0 && bytes_precede(block.0, sorted.last().0) {
        let init = sorted.drop_last();
        let last = sorted.last();
        assert forall|i: int, j: int| 0 <= i < j < init.len() implies bytes_precede(
            #[trigger] init[i].0,
            #[trigger] init[j].0,
        ) by {
            assert(bytes_precede(sorted[i].0, sorted[j].0));
        }
        lemma_with_block_sorted(init, block);
        let w = with_block(init, block);
        assert forall|i: int| 0 <= i < w.len() implies bytes_precede(#[trigger] w[i].0, last.0) by {
            assert(w.contains(w[i]));
            if w[i] != block {
                let k = choose|k: int| 0 <= k < init.len() && init[k] == w[i];
                assert(bytes_precede(sorted[k].0, sorted[sorted.len() - 1].0));
            }
        }
        assert(r == w.push(last));
        assert forall|i: int, j: int| 0 <= i < j < r.len() implies bytes_precede(
            #[trigger] r[i].0,
            #[trigger] r[j].0,
        ) by {
            if j < w.len() {
                assert(bytes_precede(w[i].0, w[j].0));
            } else {
                assert(bytes_precede(w[i].0, last.0));
            }
        }
        assert forall|b: Block| #[trigger] r.contains(b) <==> sorted.contains(b) || b == block by {
            if r.contains(b) {
                let k = choose|k: int| 0 <= k < r.len() && r[k] == b;
                if k < w.len() {
                    assert(w.contains(b));
                    if b != block {
                        let m = choose|m: int| 0 <= m < init.len() && init[m] == b;
                        assert(sorted[m] == b);
                    }
                } else {
                    assert(sorted[sorted.len() - 1] == b);
                }
            }
            if sorted.contains(b) || b == block {
                if b == last {
                    assert(r[r.len() - 1] == b);
                } else {
                    if b != block {
                        let k = choose|k: int| 0 <= k < sorted.len() && sorted[k] == b;
                        assert(init[k] == b);
                    }
                    assert(w.contains(b));
                    let k = choose|k: int| 0 <= k < w.len() && w[k] == b;
                    assert(r[k] == b);
                }
            }
        }
    } else {
        assert forall|i: int| 0 <= i < sorted.len() implies bytes_precede(
            #[trigger] sorted[i].0,
            block.0,
        ) by {
            let last = sorted.last();
            assert(sorted[sorted.len() - 1].0 != block.0);
            lemma_bytes_precede_total(last.0, block.0);
            if i < sorted.len() - 1 {
                assert(bytes_precede(sorted[i].0, sorted[sorted.len() - 1].0));
                lemma_bytes_precede_transitive(sorted[i].0, last.0, block.0);
            }
        }
        assert forall|i: int, j: int| 0 <= i < j < r.len() implies bytes_precede(
            #[trigger] r[i].0,
            #[trigger] r[j].0,
        ) by {
            if j < sorted.len() {
                assert(bytes_precede(sorted[i].0, sorted[j].0));
            } else {
                assert(bytes_precede(sorted[i].0, block.0));
            }
        }
        assert forall|b: Block| #[trigger] r.contains(b) <==> sorted.contains(b) || b == block by {
            if r.contains(b) {
                let k = choose|k: int| 0 <= k < r.len() && r[k] == b;
                if k < sorted.len() {
                    assert(sorted[k] == b);
                }
            }
            if sorted.contains(b) {
                let k = choose|k: int| 0 <= k < sorted.len() && sorted[k] == b;
                assert(r[k] == b);
            }
            if b == block {
                assert(r[r.len() - 1] == b);
            }
        }
    }
}

/// The block of a child.
pub open spec fn block_of(separator: Seq<char>, prefix: Seq<char>, child: Child) -> Block {
    (child.file_name@, node_entries(separator, prefix + child.text@, child.node))
}

/// A directory is listed in the strict order of the names in it, with one block
/// for each thing that it holds.
pub proof fn law_blocks_are_in_order(separator: Seq<char>, prefix: Seq<char>, children: Seq<Child>)
    requires
        distinct_names(children),
    ensures
        ({
            let r = sorted_blocks(blocks(separator, prefix, children));
            &&& strictly_sorted(r)
            &&& r.len() == children.len()
            &&& forall|b: Block| #[trigger]
                r.contains(b) <==> exists|k: int|
                    0 <= k < children.len() && b == block_of(
                        separator,
                        prefix,
                        #[trigger] children[k],
                    )
        }),
    decreases children.len(),
{
    let r = sorted_blocks(blocks(separator, prefix, children));
    if children.len() > 0 {
        let init = children.drop_last();
        let last = children.last();
        assert(distinct_names(init)) by {
            assert forall|i: int, j: int| 0 <= i < j < init.len() implies
                #[trigger] init[i].file_name@ != #[trigger] init[j].file_name@ by {
                assert(children[i].file_name@ != children[j].file_name@);
            }
        }
        law_blocks_are_in_order(separator, prefix, init);
        let before = sorted_blocks(blocks(separator, prefix, init));
        assert(blocks(separator, prefix, children).drop_last() =~= blocks(separator, prefix, init));
        let block = block_of(separator, prefix, last);
        assert forall|i: int| 0 <= i < before.len() implies #[trigger] before[i].0 != block.0 by {
            assert(before.contains(before[i]));
            let k = choose|k: int|
                0 <= k < init.len() && before[i] == block_of(separator, prefix, #[trigger] init[k]);
            assert(children[k].file_name@ != children[children.len() - 1].file_name@);
        }
        lemma_with_block_sorted(before, block);
        assert(r == with_block(before, block));
        assert forall|b: Block| #[trigger]
            r.contains(b) <==> exists|k: int|
                0 <= k < children.len() && b == block_of(
                        separator,
                        prefix,
                        #[trigger] children[k],
                    ) by {
            if r.contains(b) {
                if b == block {
                    assert(b == block_of(separator, prefix, children[children.len() - 1]));
                } else {
                    assert(before.contains(b));
                    let k = choose|k: int|
                        0 <= k < init.len() && b == block_of(separator, prefix, #[trigger] init[k]);
                    assert(b == block_of(separator, prefix, children[k]));
                }
            }
            if exists|k: int|
                0 <= k < children.len() && b == block_of(
                        separator,
                        prefix,
                        #[trigger] children[k],
                    ) {
                let k = choose|k: int|
                    0 <= k < children.len() && b == block_of(
                        separator,
                        prefix,
                        #[trigger] children[k],
                    );
                if k < init.len() {
                    assert(b == block_of(separator, prefix, init[k]));
                    assert(before.contains(b));
                }
            }
        }
    }
}

/// Two lists in strict order that hold the same blocks are the same.
proof fn lemma_same_blocks(a: Seq<Block>, b: Seq<Block>)
    requires
        strictly_sorted(a),
        strictly_sorted(b),
        forall|block: Block| a.contains(block) <==> #[trigger] b.contains(block),
    ensures
        a == b,
    decreases a.len(),
{
    if a.len() == 0 {
        if b.len() > 0 {
            assert(b.contains(b[0]));
            assert(a.contains(b[0]));
        }
        assert(a =~= b);
    } else {
        assert(a.contains(a.last()));
        assert(b.contains(a.last()));
        let i = choose|i: int| 0 <= i < b.len() && b[i] == a.last();
        assert(b.contains(b.last()));
        assert(a.contains(b.last()));
        let j = choose|j: int| 0 <= j < a.len() && a[j] == b.last();
        if i < b.len() - 1 {
            assert(bytes_precede(b[i].0, b[b.len() - 1].0));
            if j < a.len() - 1 {
                assert(bytes_precede(a[j].0, a[a.len() - 1].0));
                lemma_bytes_precede_transitive(a[j].0, a.last().0, a[j].0);
            }
            lemma_bytes_precede_irreflexive(a[j].0);
        }
        let x = a.drop_last();
        let y = b.drop_last();
        assert(a.last() == b.last());
        assert forall|block: Block| x.contains(block) <==> #[trigger] y.contains(block) by {
            if x.contains(block) {
                let k = choose|k: int| 0 <= k < x.len() && x[k] == block;
                assert(a[k] == block);
                assert(bytes_precede(a[k].0, a[a.len() - 1].0));
                lemma_bytes_precede_irreflexive(a.last().0);
                assert(a.contains(block));
                assert(b.contains(block));
                let m = choose|m: int| 0 <= m < b.len() && b[m] == block;
                assert(y[m] == block);
            }
            if y.contains(block) {
                let k = choose|k: int| 0 <= k < y.len() && y[k] == block;
                assert(b[k] == block);
                assert(bytes_precede(b[k].0, b[b.len() - 1].0));
                lemma_bytes_precede_irreflexive(b.last().0);
                assert(b.contains(block));
                assert(a.contains(block));
                let m = choose|m: int| 0 <= m < a.len() && a[m] == block;
                assert(x[m] == block);
            }
        }
        assert forall|k: int, m: int| 0 <= k < m < x.len() implies bytes_precede(
            #[trigger] x[k].0,
            #[trigger] x[m].0,
        ) by {
            assert(bytes_precede(a[k].0, a[m].0));
        }
        assert forall|k: int, m: int| 0 <= k < m < y.len() implies bytes_precede(
            #[trigger] y[k].0,
            #[trigger] y[m].0,
        ) by {
            assert(bytes_precede(b[k].0, b[m].0));
        }
        lemma_same_blocks(x, y);
        assert(a =~= x.push(a.last()));
        assert(b =~= y.push(b.last()));
    }
}

/// The same thing stands at both, but for the order in which directories were
/// read, at every depth.
pub open spec fn same_node(one: FsNode, other: FsNode) -> bool
    decreases one,
{
    match (one, other) {
        (FsNode::Symlink { target: a }, FsNode::Symlink { target: b }) => a@ == b@,
        (
            FsNode::Directory { mode: m, children: a },
            FsNode::Directory { mode: n, children: b },
        ) => m == n && same_children(a@, b@),
        (
            FsNode::File { mode: m, content_hash: a },
            FsNode::File { mode: n, content_hash: b },
        ) => m == n && a@ == b@,
        (FsNode::Other { mode: m, len: a }, FsNode::Other { mode: n, len: b }) => m == n && a == b,
        _ => false,
    }
}

/// The same things, each under one name, in whatever order.
pub open spec fn same_children(one: Seq<Child>, other: Seq<Child>) -> bool
    decreases one,
{
    &&& distinct_names(one)
    &&& distinct_names(other)
    &&& forall|i: int|
        0 <= i < one.len() ==> exists|j: int|
            0 <= j < other.len() && same_name(#[trigger] one[i], #[trigger] other[j]) && same_node(
                one[i].node,
                other[j].node,
            )
    &&& forall|j: int|
        0 <= j < other.len() ==> exists|i: int|
            0 <= i < one.len() && same_name(#[trigger] one[i], #[trigger] other[j]) && same_node(
                one[i].node,
                other[j].node,
            )
}

/// Two things of the same name.
pub open spec fn same_name(one: Child, other: Child) -> bool {
    one.file_name@ == other.file_name@ && one.text@ == other.text@
}

proof fn lemma_same_node(separator: Seq<char>, path: Seq<char>, one: FsNode, other: FsNode)
    requires
        same_node(one, other),
    ensures
        node_entries(separator, path, one) == node_entries(separator, path, other),
    decreases one, 1int,
{
    if let (FsNode::Directory { children: a, .. }, FsNode::Directory { children: b, .. }) = (
        one,
        other,
    ) {
        lemma_same_children(separator, path + separator, a@, b@);
    }
}

proof fn lemma_same_children(
    separator: Seq<char>,
    prefix: Seq<char>,
    one: Seq<Child>,
    other: Seq<Child>,
)
    requires
        same_children(one, other),
    ensures
        sorted_blocks(blocks(separator, prefix, one)) == sorted_blocks(
            blocks(separator, prefix, other),
        ),
    decreases one, 1int,
{
    law_blocks_are_in_order(separator, prefix, one);
    law_blocks_are_in_order(separator, prefix, other);
    let a = sorted_blocks(blocks(separator, prefix, one));
    let b = sorted_blocks(blocks(separator, prefix, other));
    assert forall|block: Block| a.contains(block) <==> #[trigger] b.contains(block) by {
        if a.contains(block) {
            let i = choose|i: int|
                0 <= i < one.len() && block == block_of(separator, prefix, #[trigger] one[i]);
            lemma_block_of_first(separator, prefix, one, other, i);
        }
        if b.contains(block) {
            let j = choose|j: int|
                0 <= j < other.len() && block == block_of(separator, prefix, #[trigger] other[j]);
            lemma_block_of_second(separator, prefix, one, other, j);
        }
    }
    lemma_same_blocks(a, b);
}

/// What the first holds, the second holds too.
proof fn lemma_block_of_first(
    separator: Seq<char>,
    prefix: Seq<char>,
    one: Seq<Child>,
    other: Seq<Child>,
    i: int,
)
    requires
        same_children(one, other),
        0 <= i < one.len(),
    ensures
        exists|j: int|
            0 <= j < other.len() && block_of(separator, prefix, one[i]) == block_of(
                separator,
                prefix,
                #[trigger] other[j],
            ),
    decreases one, 0int,
{
    let j = choose|j: int|
        0 <= j < other.len() && same_name(one[i], #[trigger] other[j]) && same_node(
            one[i].node,
            other[j].node,
        );
    assert(decreases_to!(one => one[i].node));
    lemma_same_node(separator, prefix + one[i].text@, one[i].node, other[j].node);
    assert(block_of(separator, prefix, one[i]) == block_of(separator, prefix, other[j]));
}

/// What the second holds, the first holds too.
proof fn lemma_block_of_second(
    separator: Seq<char>,
    prefix: Seq<char>,
    one: Seq<Child>,
    other: Seq<Child>,
    j: int,
)
    requires
        same_children(one, other),
        0 <= j < other.len(),
    ensures
        exists|i: int|
            0 <= i < one.len() && block_of(separator, prefix, other[j]) == block_of(
                separator,
                prefix,
                #[trigger] one[i],
            ),
    decreases one, 0int,
{
    let i = choose|i: int|
        0 <= i < one.len() && same_name(#[trigger] one[i], other[j]) && same_node(
            one[i].node,
            other[j].node,
        );
    assert(decreases_to!(one => one[i].node));
    lemma_same_node(separator, prefix + one[i].text@, one[i].node, other[j].node);
    assert(block_of(separator, prefix, other[j]) == block_of(separator, prefix, one[i]));
}

/// The order in which directories were read, at whatever depth, changes neither
/// the kind nor the text of what stands at a path.
pub proof fn law_reading_order_does_not_matter(separator: Seq<char>, one: FsNode, other: FsNode)
    requires
        same_node(one, other),
    ensures
        kind_of(one) == kind_of(other),
        content_text(separator, one) == content_text(separator, other),
{
    if let (FsNode::Directory { children: a, .. }, FsNode::Directory { children: b, .. }) = (
        one,
        other,
    ) {
        lemma_same_children(separator, ""@, a@, b@);
    }
}

/// Texts that are the same up to and after their first colon are the same.
proof fn lemma_first_colon(a: Seq<char>, x: Seq<char>, b: Seq<char>, y: Seq<char>)
    requires
        forall|i: int| 0 <= i < a.len() ==> #[trigger] a[i] != ':',
        forall|i: int| 0 <= i < b.len() ==> #[trigger] b[i] != ':',
        a + ":"@ + x == b + ":"@ + y,
    ensures
        a == b,
        x == y,
{
    reveal_strlit(":");
    let one = a + ":"@ + x;
    let other = b + ":"@ + y;
    assert(one[a.len() as int] == ':');
    assert(other[b.len() as int] == ':');
    if a.len() < b.len() {
        assert(other[a.len() as int] == b[a.len() as int]);
    } else if b.len() < a.len() {
        assert(one[b.len() as int] == a[b.len() as int]);
    }
    assert(one.take(a.len() as int) =~= a);
    assert(other.take(a.len() as int) =~= b);
    assert(one.skip(a.len() as int + 1) =~= x);
    assert(other.skip(a.len() as int + 1) =~= y);
}

/// Whatever changes about a symlink, a file or another thing that is no
/// directory changes its kind or its text: the target of a symlink, the mode
/// or the content of a file, the mode or the length of another thing.
pub proof fn law_changes_are_seen(separator: Seq<char>, one: FsNode, other: FsNode)
    requires
        kind_of(one) == kind_of(other),
        content_text(separator, one) == content_text(separator, other),
        !(one is Directory),
    ensures
        same_node(one, other),
{
    reveal_strlit("symlink");
    reveal_strlit("directory");
    reveal_strlit("file");
    reveal_strlit("other");
    assert("symlink"@.len() == 7 && "directory"@.len() == 9 && "file"@.len() == 4 && "other"@.len()
        == 5);
    match (one, other) {
        (
            FsNode::File { mode: m, content_hash: a },
            FsNode::File { mode: n, content_hash: b },
        ) => {
            lemma_decimal_digits(m as nat);
            lemma_decimal_digits(n as nat);
            lemma_first_colon(decimal(m as nat), a@, decimal(n as nat), b@);
            law_decimal_is_unique(m as nat, n as nat);
        },
        (FsNode::Other { mode: m, len: a }, FsNode::Other { mode: n, len: b }) => {
            lemma_decimal_digits(m as nat);
            lemma_decimal_digits(n as nat);
            lemma_first_colon(
                decimal(m as nat),
                decimal(a as nat),
                decimal(n as nat),
                decimal(b as nat),
            );
            law_decimal_is_unique(m as nat, n as nat);
            law_decimal_is_unique(a as nat, b as nat);
        },
        _ => {},
    }
}

/// A text on one line.
pub open spec fn is_one_line(text: Seq<char>) -> bool {
    forall|i: int| 0 <= i < text.len() ==> #[trigger] text[i] != '\n'
}

/// A text on one line without a colon.
pub open spec fn is_plain(text: Seq<char>) -> bool {
    forall|i: int| 0 <= i < text.len() ==> #[trigger] text[i] != '\n' && text[i] != ':'
}

/// A tree in which no name has a colon or a line feed, and no target and no
/// hash has a line feed.
pub open spec fn is_plain_node(node: FsNode) -> bool
    decreases node,
{
    match node {
        FsNode::Symlink { target } => is_one_line(target@),
        FsNode::Directory { mode: _, children } => are_plain_children(children@),
        FsNode::File { mode: _, content_hash } => is_one_line(content_hash@),
        FsNode::Other { .. } => true,
    }
}

/// Things with plain names, and plain all the way down.
pub open spec fn are_plain_children(children: Seq<Child>) -> bool
    decreases children,
{
    forall|i: int|
        0 <= i < children.len() ==> is_plain((#[trigger] children[i]).text@) && is_plain_node(
            children[i].node,
        )
}

/// An entry whose line can be read back.
spec fn is_plain_entry(entry: Entry) -> bool {
    is_plain(entry.path) && match entry.kind {
        EntryKind::Symlink { target } => is_one_line(target),
        EntryKind::File { mode: _, content_hash } => is_one_line(content_hash),
        _ => true,
    }
}

spec fn are_plain_entries(entries: Seq<Entry>) -> bool {
    forall|i: int| 0 <= i < entries.len() ==> is_plain_entry(#[trigger] entries[i])
}

spec fn are_plain_blocks(s: Seq<Block>) -> bool {
    forall|i: int| 0 <= i < s.len() ==> are_plain_entries((#[trigger] s[i]).1)
}

proof fn lemma_plain_node(separator: Seq<char>, path: Seq<char>, node: FsNode)
    requires
        is_plain(separator),
        is_plain(path),
        is_plain_node(node),
    ensures
        are_plain_entries(node_entries(separator, path, node)),
    decreases node, 1int,
{
    if let FsNode::Directory { children, .. } = node {
        lemma_plain_blocks(separator, path + separator, children@);
        let s = blocks(separator, path + separator, children@);
        lemma_plain_sorted(s);
        lemma_plain_flattened(sorted_blocks(s));
    }
}

proof fn lemma_plain_blocks(separator: Seq<char>, prefix: Seq<char>, children: Seq<Child>)
    requires
        is_plain(separator),
        is_plain(prefix),
        are_plain_children(children),
    ensures
        are_plain_blocks(blocks(separator, prefix, children)),
    decreases children, 0int,
{
    if children.len() > 0 {
        let init = children.drop_last();
        let last = children.last();
        assert(last == children[children.len() - 1]);
        assert(are_plain_children(init)) by {
            assert(forall|i: int| 0 <= i < init.len() ==> #[trigger] init[i] == children[i]);
        }
        lemma_plain_blocks(separator, prefix, init);
        assert(is_plain(prefix + last.text@));
        lemma_plain_node(separator, prefix + last.text@, last.node);
    }
}

proof fn lemma_plain_with(sorted: Seq<Block>, block: Block)
    requires
        are_plain_blocks(sorted),
        are_plain_entries(block.1),
    ensures
        are_plain_blocks(with_block(sorted, block)),
    decreases sorted.len(),
{
    if sorted.len() > 0 && bytes_precede(block.0, sorted.last().0) {
        let init = sorted.drop_last();
        assert(are_plain_blocks(init)) by {
            assert(forall|i: int| 0 <= i < init.len() ==> #[trigger] init[i] == sorted[i]);
        }
        lemma_plain_with(init, block);
        assert(are_plain_entries(sorted[sorted.len() - 1].1));
    }
}

proof fn lemma_plain_sorted(s: Seq<Block>)
    requires
        are_plain_blocks(s),
    ensures
        are_plain_blocks(sorted_blocks(s)),
    decreases s.len(),
{
    if s.len() > 0 {
        let init = s.drop_last();
        assert(are_plain_blocks(init)) by {
            assert(forall|i: int| 0 <= i < init.len() ==> #[trigger] init[i] == s[i]);
        }
        lemma_plain_sorted(init);
        assert(are_plain_entries(s[s.len() - 1].1));
        lemma_plain_with(sorted_blocks(init), s.last());
    }
}

proof fn lemma_plain_flattened(s: Seq<Block>)
    requires
        are_plain_blocks(s),
    ensures
        are_plain_entries(flattened(s)),
    decreases s.len(),
{
    if s.len() > 0 {
        let init = s.drop_last();
        assert(are_plain_blocks(init)) by {
            assert(forall|i: int| 0 <= i < init.len() ==> #[trigger] init[i] == s[i]);
        }
        lemma_plain_flattened(init);
        assert(are_plain_entries(s[s.len() - 1].1));
    }
}

/// The words for the kinds have no colon and no line feed, and tell the kinds
/// apart.
proof fn lemma_words(one: EntryKind, other: EntryKind)
    ensures
        is_plain(entry_word(one)),
        entry_word(one).len() > 0,
        entry_word(one) == entry_word(other) ==> match (one, other) {
            (EntryKind::Symlink { .. }, EntryKind::Symlink { .. }) => true,
            (EntryKind::Directory { .. }, EntryKind::Directory { .. }) => true,
            (EntryKind::File { .. }, EntryKind::File { .. }) => true,
            (EntryKind::Other { .. }, EntryKind::Other { .. }) => true,
            _ => false,
        },
{
    reveal_strlit("symlink");
    reveal_strlit("directory");
    reveal_strlit("file");
    reveal_strlit("other");
    assert("symlink"@.len() == 7 && "directory"@.len() == 9 && "file"@.len() == 4 && "other"@.len()
        == 5);
}

/// The line of a plain entry is one line that is not empty.
proof fn lemma_entry_line(entry: Entry)
    requires
        is_plain_entry(entry),
    ensures
        is_one_line(entry_line(entry)),
        entry_line(entry).len() > 0,
{
    reveal_strlit(":");
    lemma_words(entry.kind, entry.kind);
    match entry.kind {
        EntryKind::Symlink { .. } => {},
        EntryKind::Directory { mode } => {
            lemma_decimal_digits(mode);
        },
        EntryKind::File { mode, .. } => {
            lemma_decimal_digits(mode);
        },
        EntryKind::Other { mode, len } => {
            lemma_decimal_digits(mode);
            lemma_decimal_digits(len);
        },
    }
    assert(is_one_line(entry_data(entry.kind)));
}

/// Plain entries with the same line are the same.
proof fn lemma_line_is_unique(one: Entry, other: Entry)
    requires
        is_plain_entry(one),
        is_plain_entry(other),
        entry_line(one) == entry_line(other),
    ensures
        one == other,
{
    let x = entry_data(one.kind);
    let y = entry_data(other.kind);
    lemma_words(one.kind, other.kind);
    lemma_words(other.kind, one.kind);
    assert(entry_line(one) =~= entry_word(one.kind) + ":"@ + (one.path + ":"@ + x));
    assert(entry_line(other) =~= entry_word(other.kind) + ":"@ + (other.path + ":"@ + y));
    lemma_first_colon(
        entry_word(one.kind),
        one.path + ":"@ + x,
        entry_word(other.kind),
        other.path + ":"@ + y,
    );
    lemma_first_colon(one.path, x, other.path, y);
    match (one.kind, other.kind) {
        (EntryKind::Directory { mode: m }, EntryKind::Directory { mode: n }) => {
            law_decimal_is_unique(m, n);
        },
        (
            EntryKind::File { mode: m, content_hash: a },
            EntryKind::File { mode: n, content_hash: b },
        ) => {
            lemma_decimal_digits(m);
            lemma_decimal_digits(n);
            lemma_first_colon(decimal(m), a, decimal(n), b);
            law_decimal_is_unique(m, n);
        },
        (EntryKind::Other { mode: m, len: a }, EntryKind::Other { mode: n, len: b }) => {
            lemma_decimal_digits(m);
            lemma_decimal_digits(n);
            lemma_first_colon(decimal(m), decimal(a), decimal(n), decimal(b));
            law_decimal_is_unique(m, n);
            law_decimal_is_unique(a, b);
        },
        _ => {},
    }
}

/// Lines that are not empty.
spec fn are_lines(lines: Seq<Seq<char>>) -> bool {
    forall|i: int|
        0 <= i < lines.len() ==> is_one_line(#[trigger] lines[i]) && lines[i].len() > 0
}

/// Lines joined by line feeds can be told apart again.
proof fn lemma_joined_is_unique(one: Seq<Seq<char>>, other: Seq<Seq<char>>)
    requires
        are_lines(one),
        are_lines(other),
        joined(one, "\n"@) == joined(other, "\n"@),
    ensures
        one == other,
    decreases one.len(),
{
    reveal_strlit("\n");
    let text = joined(one, "\n"@);
    if one.len() == 0 || other.len() == 0 {
        lemma_joined_len(one);
        lemma_joined_len(other);
        assert(one =~= other);
    } else {
        lemma_last_line(one);
        lemma_last_line(other);
        let a = one.last().len() as int;
        let b = other.last().len() as int;
        let n = text.len() as int;
        assert(one[one.len() - 1] == one.last() && other[other.len() - 1] == other.last());
        if a < b {
            assert(text[n - 1 - a] == '\n') by {
                assert(one.len() > 1);
            }
            assert(text[n - 1 - a] == other.last()[b - 1 - a]);
        } else if b < a {
            assert(text[n - 1 - b] == '\n') by {
                assert(other.len() > 1);
            }
            assert(text[n - 1 - b] == one.last()[a - 1 - b]);
        }
        assert(one.last() =~= text.skip(n - a));
        assert(other.last() =~= text.skip(n - a));
        let x = one.drop_last();
        let y = other.drop_last();
        if one.len() == 1 {
            assert(other.len() == 1);
            assert(one =~= other);
        } else {
            assert(other.len() > 1);
            assert(joined(x, "\n"@) =~= text.take(n - a - 1));
            assert(joined(y, "\n"@) =~= text.take(n - a - 1));
            assert(are_lines(x)) by {
                assert(forall|i: int| 0 <= i < x.len() ==> #[trigger] x[i] == one[i]);
            }
            assert(are_lines(y)) by {
                assert(forall|i: int| 0 <= i < y.len() ==> #[trigger] y[i] == other[i]);
            }
            lemma_joined_is_unique(x, y);
            assert(one =~= x.push(one.last()));
            assert(other =~= y.push(other.last()));
        }
    }
}

/// Lines make a text that is not empty.
proof fn lemma_joined_len(lines: Seq<Seq<char>>)
    requires
        are_lines(lines),
    ensures
        joined(lines, "\n"@).len() == 0 <==> lines.len() == 0,
{
    if lines.len() > 0 {
        assert(lines[lines.len() - 1].len() > 0);
    }
}

/// The last line ends the text, behind a line feed where there is another one.
proof fn lemma_last_line(lines: Seq<Seq<char>>)
    requires
        are_lines(lines),
        lines.len() > 0,
    ensures
        ({
            let text = joined(lines, "\n"@);
            let n = text.len() as int;
            let a = lines.last().len() as int;
            &&& a <= n
            &&& text.skip(n - a) == lines.last()
            &&& lines.len() == 1 <==> a == n
            &&& lines.len() > 1 ==> text[n - 1 - a] == '\n' && text.take(n - a - 1) == joined(
                lines.drop_last(),
                "\n"@,
            )
        }),
{
    reveal_strlit("\n");
    let text = joined(lines, "\n"@);
    let n = text.len() as int;
    let a = lines.last().len() as int;
    assert(text.skip(n - a) =~= lines.last());
    if lines.len() > 1 {
        assert(text.take(n - a - 1) =~= joined(lines.drop_last(), "\n"@));
    }
}

/// Whatever changes below a directory changes its text: a path, what stands
/// there, its mode, the target of a symlink, the content of a file. That holds
/// of names without colons and line feeds, and of targets and hashes without
/// line feeds.
pub proof fn law_changes_below_are_seen(
    separator: Seq<char>,
    m: u32,
    one: Vec<Child>,
    n: u32,
    other: Vec<Child>,
)
    requires
        is_plain(separator),
        are_plain_children(one@),
        are_plain_children(other@),
        content_text(separator, FsNode::Directory { mode: m, children: one }) == content_text(
            separator,
            FsNode::Directory { mode: n, children: other },
        ),
    ensures
        entries_below(separator, one@) == entries_below(separator, other@),
{
    reveal_strlit("");
    let a = entries_below(separator, one@);
    let b = entries_below(separator, other@);
    lemma_plain_blocks(separator, ""@, one@);
    lemma_plain_sorted(blocks(separator, ""@, one@));
    lemma_plain_flattened(sorted_blocks(blocks(separator, ""@, one@)));
    lemma_plain_blocks(separator, ""@, other@);
    lemma_plain_sorted(blocks(separator, ""@, other@));
    lemma_plain_flattened(sorted_blocks(blocks(separator, ""@, other@)));
    assert forall|i: int| 0 <= i < a.len() implies is_one_line(#[trigger] entry_lines(a)[i])
        && entry_lines(a)[i].len() > 0 by {
        assert(is_plain_entry(a[i]));
        lemma_entry_line(a[i]);
    }
    assert forall|i: int| 0 <= i < b.len() implies is_one_line(#[trigger] entry_lines(b)[i])
        && entry_lines(b)[i].len() > 0 by {
        assert(is_plain_entry(b[i]));
        lemma_entry_line(b[i]);
    }
    lemma_joined_is_unique(entry_lines(a), entry_lines(b));
    assert(entry_lines(a).len() == a.len() && entry_lines(b).len() == b.len());
    assert forall|i: int| 0 <= i < a.len() implies a[i] == b[i] by {
        assert(is_plain_entry(a[i]) && is_plain_entry(b[i]));
        assert(entry_lines(a)[i] == entry_line(a[i]) && entry_lines(b)[i] == entry_line(b[i]));
        lemma_line_is_unique(a[i], b[i]);
    }
    assert(a =~= b);
}

/// Where the hash tells their texts apart, a snapshot tells whether a symlink,
/// a file or another thing that is no directory changed: another target,
/// another mode, another content or another length is another snapshot.
pub proof fn law_snapshots_tell_changes(
    separator: Seq<char>,
    hash: spec_fn(Seq<char>) -> Seq<char>,
    one: FsNode,
    other: FsNode,
    before: PathState,
    after: PathState,
)
    requires
        content_text(separator, one) != content_text(separator, other) ==> hash(
            content_text(separator, one),
        ) != hash(content_text(separator, other)),
        !(one is Directory),
        before.kind@ == kind_of(one),
        before.content_hash@ == hash(content_text(separator, one)),
        after.kind@ == kind_of(other),
        after.content_hash@ == hash(content_text(separator, other)),
        !same_node(one, other),
    ensures
        before@ != after@,
{
    if before@ == after@ {
        law_changes_are_seen(separator, one, other);
    }
}

} // verus!

//! A map from strings to values, kept in the order of its keys.

use vstd::prelude::*;
use crate::text::{lemma_precedes_irreflexive, lemma_precedes_total, lemma_precedes_transitive};
use crate::text::{precedes, str_equal, str_precedes};

verus! {

/// A map from strings to values that is walked in the order of its keys.
#[derive(Debug)]
pub struct StrMap<V> {
    entries: Vec<(String, V)>,
}

/// The keys of a list of entries strictly increase.
pub open spec fn strictly_sorted<V>(items: Seq<(Seq<char>, V)>) -> bool {
    forall|i: int, j: int|
        0 <= i < j < items.len() ==> precedes(#[trigger] items[i].0, #[trigger] items[j].0)
}

/// `k` is the key of an entry.
pub open spec fn has_key<V>(items: Seq<(Seq<char>, V)>, k: Seq<char>) -> bool {
    exists|i: int| 0 <= i < items.len() && #[trigger] items[i].0 == k
}

/// The place of an entry with the key `k`.
pub open spec fn place<V>(items: Seq<(Seq<char>, V)>, k: Seq<char>) -> int {
    choose|i: int| 0 <= i < items.len() && #[trigger] items[i].0 == k
}

/// The map that a list of entries with different keys makes.
pub open spec fn items_map<V>(items: Seq<(Seq<char>, V)>) -> Map<Seq<char>, V> {
    Map::new(|k: Seq<char>| has_key(items, k), |k: Seq<char>| items[place(items, k)].1)
}

/// The entries of a map in the order of its keys.
pub open spec fn sorted_items<V>(m: Map<Seq<char>, V>) -> Seq<(Seq<char>, V)> {
    choose|items: Seq<(Seq<char>, V)>| strictly_sorted(items) && #[trigger] items_map(items) == m
}

/// The map that results from inserting entries one after the other.
pub open spec fn inserted<V>(entries: Seq<(String, V)>) -> Map<Seq<char>, V>
    decreases entries.len(),
{
    if entries.len() == 0 {
        Map::empty()
    } else {
        inserted(entries.drop_last()).insert(entries.last().0@, entries.last().1)
    }
}

/// The texts of a map of strings.
pub open spec fn texts(m: Map<Seq<char>, String>) -> Map<Seq<char>, Seq<char>> {
    m.map_values(|text: String| text@)
}

/// In a sorted list a key has one place.
pub proof fn lemma_place<V>(items: Seq<(Seq<char>, V)>, i: int)
    requires
        strictly_sorted(items),
        0 <= i < items.len(),
    ensures
        has_key(items, items[i].0),
        place(items, items[i].0) == i,
        items_map(items).contains_key(items[i].0),
        items_map(items)[items[i].0] == items[i].1,
{
    let k = items[i].0;
    assert(items[i].0 == k);
    let j = place(items, k);
    lemma_precedes_irreflexive(k);
    if j < i {
        assert(precedes(items[j].0, items[i].0));
    } else if i < j {
        assert(precedes(items[i].0, items[j].0));
    }
}

/// A key of the map has a place in the list.
pub proof fn lemma_key<V>(items: Seq<(Seq<char>, V)>, k: Seq<char>)
    requires
        items_map(items).contains_key(k),
    ensures
        0 <= place(items, k) < items.len(),
        items[place(items, k)].0 == k,
{
    assert(has_key(items, k));
}

/// Two sorted lists that make the same map are the same list.
proof fn lemma_sorted_unique<V>(a: Seq<(Seq<char>, V)>, b: Seq<(Seq<char>, V)>)
    requires
        strictly_sorted(a),
        strictly_sorted(b),
        items_map(a) == items_map(b),
    ensures
        a == b,
    decreases a.len(),
{
    if a.len() == 0 {
        if b.len() > 0 {
            lemma_place(b, 0);
            lemma_key(a, b[0].0);
        }
        assert(a =~= b);
    } else {
        lemma_place(a, 0);
        lemma_key(b, a[0].0);
        lemma_place(b, 0);
        lemma_key(a, b[0].0);
        let i = place(b, a[0].0);
        let j = place(a, b[0].0);
        if i > 0 && j > 0 {
            assert(precedes(a[0].0, a[j].0));
            assert(precedes(b[0].0, b[i].0));
            lemma_precedes_transitive(a[0].0, b[0].0, a[0].0);
            lemma_precedes_irreflexive(a[0].0);
        }
        assert(i == 0 || j == 0);
        assert(a[0].0 == b[0].0);
        assert(a[0].1 == b[0].1);
        assert(a[0] == b[0]);
        let ta = a.drop_first();
        let tb = b.drop_first();
        assert(strictly_sorted(ta)) by {
            assert forall|x: int, y: int| 0 <= x < y < ta.len() implies precedes(
                #[trigger] ta[x].0,
                #[trigger] ta[y].0,
            ) by {
                assert(precedes(a[x + 1].0, a[y + 1].0));
            }
        }
        assert(strictly_sorted(tb)) by {
            assert forall|x: int, y: int| 0 <= x < y < tb.len() implies precedes(
                #[trigger] tb[x].0,
                #[trigger] tb[y].0,
            ) by {
                assert(precedes(b[x + 1].0, b[y + 1].0));
            }
        }
        lemma_tail_map(a);
        lemma_tail_map(b);
        lemma_sorted_unique(ta, tb);
        assert(a =~= seq![a[0]] + ta);
        assert(b =~= seq![b[0]] + tb);
    }
}

proof fn lemma_tail_map<V>(items: Seq<(Seq<char>, V)>)
    requires
        strictly_sorted(items),
        items.len() > 0,
        strictly_sorted(items.drop_first()),
    ensures
        items_map(items.drop_first()) == items_map(items).remove(items[0].0),
{
    let tail = items.drop_first();
    let whole = items_map(items).remove(items[0].0);
    assert forall|k: Seq<char>| items_map(tail).contains_key(k) <==> whole.contains_key(k) by {
        if items_map(tail).contains_key(k) {
            lemma_key(tail, k);
            let i = place(tail, k);
            lemma_place(items, i + 1);
            assert(precedes(items[0].0, items[i + 1].0));
            lemma_precedes_irreflexive(items[0].0);
        }
        if whole.contains_key(k) {
            lemma_key(items, k);
            let i = place(items, k);
            lemma_place(tail, i - 1);
        }
    }
    assert forall|k: Seq<char>| items_map(tail).contains_key(k) implies items_map(tail)[k]
        == whole[k] by {
        lemma_key(tail, k);
        let i = place(tail, k);
        lemma_place(tail, i);
        lemma_place(items, i + 1);
        lemma_place(items, 0);
    }
    assert(items_map(tail) =~= whole);
}

/// The sorted entries of the map that a sorted list makes are that list.
pub proof fn lemma_sorted_items<V>(items: Seq<(Seq<char>, V)>)
    requires
        strictly_sorted(items),
    ensures
        sorted_items(items_map(items)) == items,
{
    let m = items_map(items);
    let found = sorted_items(m);
    assert(strictly_sorted(found) && items_map(found) == m);
    lemma_sorted_unique(found, items);
}

/// Everything before `at` precedes `k`, and nothing from `at` on does.
spec fn is_slot<V>(items: Seq<(Seq<char>, V)>, at: int, k: Seq<char>) -> bool {
    &&& 0 <= at <= items.len()
    &&& forall|i: int| 0 <= i < at ==> precedes(#[trigger] items[i].0, k)
    &&& at < items.len() ==> !precedes(items[at].0, k)
}

/// Where the slot of `k` holds another key, `k` is in no entry.
proof fn lemma_absent<V>(items: Seq<(Seq<char>, V)>, at: int, k: Seq<char>)
    requires
        strictly_sorted(items),
        is_slot(items, at, k),
        at < items.len() ==> items[at].0 != k,
    ensures
        !has_key(items, k),
        forall|i: int| at <= i < items.len() ==> precedes(k, #[trigger] items[i].0),
{
    assert forall|i: int| at <= i < items.len() implies precedes(k, #[trigger] items[i].0) by {
        lemma_precedes_total(items[at].0, k);
        if at < i {
            assert(precedes(items[at].0, items[i].0));
            lemma_precedes_transitive(k, items[at].0, items[i].0);
        }
    }
    lemma_precedes_irreflexive(k);
}

proof fn lemma_insert<V>(items: Seq<(Seq<char>, V)>, at: int, k: Seq<char>, v: V)
    requires
        strictly_sorted(items),
        is_slot(items, at, k),
        at < items.len() ==> items[at].0 != k,
    ensures
        strictly_sorted(items.insert(at, (k, v))),
        items_map(items.insert(at, (k, v))) == items_map(items).insert(k, v),
{
    lemma_absent(items, at, k);
    let after = items.insert(at, (k, v));
    assert forall|i: int, j: int| 0 <= i < j < after.len() implies precedes(
        #[trigger] after[i].0,
        #[trigger] after[j].0,
    ) by {
        if i < at && j < at {
            assert(precedes(items[i].0, items[j].0));
        } else if i < at && j == at {
            assert(precedes(items[i].0, k));
        } else if i < at && j > at {
            assert(precedes(items[i].0, items[j - 1].0));
        } else if i == at {
            assert(precedes(k, items[j - 1].0));
        } else {
            assert(precedes(items[i - 1].0, items[j - 1].0));
        }
    }
    let want = items_map(items).insert(k, v);
    assert forall|key: Seq<char>| items_map(after).contains_key(key) <==> want.contains_key(
        key,
    ) by {
        if items_map(after).contains_key(key) {
            lemma_key(after, key);
            let i = place(after, key);
            if i < at {
                lemma_place(items, i);
            } else if i > at {
                lemma_place(items, i - 1);
            }
        }
        if want.contains_key(key) {
            if key == k {
                lemma_place(after, at);
            } else {
                lemma_key(items, key);
                let i = place(items, key);
                if i < at {
                    lemma_place(after, i);
                } else {
                    lemma_place(after, i + 1);
                }
            }
        }
    }
    assert forall|key: Seq<char>| items_map(after).contains_key(key) implies items_map(after)[key]
        == want[key] by {
        lemma_key(after, key);
        let i = place(after, key);
        lemma_place(after, i);
        if i < at {
            lemma_place(items, i);
        } else if i > at {
            lemma_place(items, i - 1);
        }
    }
    assert(items_map(after) =~= want);
}

/// The place where a key belongs in a sorted list.
proof fn lemma_slot<V>(items: Seq<(Seq<char>, V)>, k: Seq<char>) -> (at: int)
    requires
        strictly_sorted(items),
    ensures
        is_slot(items, at, k),
    decreases items.len(),
{
    if items.len() == 0 {
        0
    } else {
        let init = items.drop_last();
        assert forall|i: int, j: int| 0 <= i < j < init.len() implies precedes(
            #[trigger] init[i].0,
            #[trigger] init[j].0,
        ) by {
            assert(precedes(items[i].0, items[j].0));
        }
        let before = lemma_slot(init, k);
        assert(forall|i: int| 0 <= i < init.len() ==> #[trigger] init[i] == items[i]);
        let at = if before == init.len() && precedes(items.last().0, k) {
            items.len() as int
        } else {
            before
        };
        assert forall|i: int| 0 <= i < at implies precedes(#[trigger] items[i].0, k) by {
            if i < init.len() {
                assert(precedes(init[i].0, k));
            }
        }
        if at < init.len() {
            assert(!precedes(init[at].0, k));
        }
        at
    }
}

/// The entries of a finite map are listed in the strict order of their keys,
/// and are all of it.
pub proof fn law_finite_maps_are_listed<V>(m: Map<Seq<char>, V>)
    requires
        m.dom().finite(),
    ensures
        strictly_sorted(sorted_items(m)),
        items_map(sorted_items(m)) == m,
    decreases m.dom().len(),
{
    if m.dom().len() == 0 {
        let none = Seq::<(Seq<char>, V)>::empty();
        assert(items_map(none) =~= m);
        assert(strictly_sorted(none));
    } else {
        let k = m.dom().choose();
        let less = m.remove(k);
        assert(m.dom().contains(k));
        assert(less.dom() =~= m.dom().remove(k));
        law_finite_maps_are_listed(less);
        let items = sorted_items(less);
        let at = lemma_slot(items, k);
        if at < items.len() && items[at].0 == k {
            lemma_place(items, at);
        }
        lemma_insert(items, at, k, m[k]);
        assert(less.insert(k, m[k]) =~= m);
        assert(strictly_sorted(items.insert(at, (k, m[k]))));
    }
}

proof fn lemma_replace<V>(items: Seq<(Seq<char>, V)>, at: int, v: V)
    requires
        strictly_sorted(items),
        0 <= at < items.len(),
    ensures
        strictly_sorted(items.update(at, (items[at].0, v))),
        items_map(items.update(at, (items[at].0, v))) == items_map(items).insert(items[at].0, v),
{
    let k = items[at].0;
    let after = items.update(at, (k, v));
    assert forall|i: int| 0 <= i < items.len() implies #[trigger] after[i].0 == items[i].0 by {}
    assert(strictly_sorted(after)) by {
        assert forall|i: int, j: int| 0 <= i < j < after.len() implies precedes(
            #[trigger] after[i].0,
            #[trigger] after[j].0,
        ) by {
            assert(precedes(items[i].0, items[j].0));
        }
    }
    let want = items_map(items).insert(k, v);
    assert forall|key: Seq<char>| items_map(after).contains_key(key) <==> want.contains_key(
        key,
    ) by {
        if items_map(after).contains_key(key) {
            lemma_key(after, key);
            lemma_place(items, place(after, key));
        }
        if want.contains_key(key) {
            if key == k {
                lemma_place(after, at);
            } else {
                lemma_key(items, key);
                lemma_place(after, place(items, key));
            }
        }
    }
    assert forall|key: Seq<char>| items_map(after).contains_key(key) implies items_map(after)[key]
        == want[key] by {
        lemma_key(after, key);
        let i = place(after, key);
        lemma_place(after, i);
        lemma_place(items, i);
        lemma_place(items, at);
    }
    assert(items_map(after) =~= want);
}

proof fn lemma_remove<V>(items: Seq<(Seq<char>, V)>, at: int)
    requires
        strictly_sorted(items),
        0 <= at < items.len(),
    ensures
        strictly_sorted(items.remove(at)),
        items_map(items.remove(at)) == items_map(items).remove(items[at].0),
{
    let k = items[at].0;
    let after = items.remove(at);
    assert(strictly_sorted(after)) by {
        assert forall|i: int, j: int| 0 <= i < j < after.len() implies precedes(
            #[trigger] after[i].0,
            #[trigger] after[j].0,
        ) by {
            let x = if i < at { i } else { i + 1 };
            let y = if j < at { j } else { j + 1 };
            assert(precedes(items[x].0, items[y].0));
        }
    }
    let want = items_map(items).remove(k);
    assert forall|key: Seq<char>| items_map(after).contains_key(key) <==> want.contains_key(
        key,
    ) by {
        if items_map(after).contains_key(key) {
            lemma_key(after, key);
            let i = place(after, key);
            let x = if i < at { i } else { i + 1 };
            lemma_place(items, x);
            lemma_place(items, at);
        }
        if want.contains_key(key) {
            lemma_key(items, key);
            let i = place(items, key);
            lemma_place(after, if i < at { i } else { i - 1 });
        }
    }
    assert forall|key: Seq<char>| items_map(after).contains_key(key) implies items_map(after)[key]
        == want[key] by {
        lemma_key(after, key);
        let i = place(after, key);
        lemma_place(after, i);
        lemma_place(items, if i < at { i } else { i + 1 });
        lemma_place(items, at);
    }
    assert(items_map(after) =~= want);
}

/// Inserting the entries of a sorted list makes its map.
proof fn lemma_inserted<V>(entries: Seq<(String, V)>, items: Seq<(Seq<char>, V)>)
    requires
        strictly_sorted(items),
        items.len() == entries.len(),
        forall|i: int|
            0 <= i < items.len() ==> #[trigger] items[i] == (entries[i].0@, entries[i].1),
    ensures
        inserted(entries) == items_map(items),
    decreases entries.len(),
{
    if entries.len() == 0 {
        assert(items_map(items) =~= Map::empty());
    } else {
        let last = items.len() - 1;
        let init = items.drop_last();
        assert forall|i: int, j: int| 0 <= i < j < init.len() implies precedes(
            #[trigger] init[i].0,
            #[trigger] init[j].0,
        ) by {
            assert(precedes(items[i].0, items[j].0));
        }
        lemma_inserted(entries.drop_last(), init);
        assert forall|i: int| 0 <= i < last implies precedes(
            #[trigger] init[i].0,
            items[last].0,
        ) by {
            assert(precedes(items[i].0, items[last].0));
        }
        lemma_insert(init, last, items[last].0, items[last].1);
        assert(init.insert(last, items[last]) =~= items);
        assert(items[last] == (entries[last].0@, entries[last].1));
    }
}

impl<V> View for StrMap<V> {
    type V = Map<Seq<char>, V>;

    closed spec fn view(&self) -> Map<Seq<char>, V> {
        items_map(self.items())
    }
}

impl<V> StrMap<V> {
    closed spec fn items(&self) -> Seq<(Seq<char>, V)> {
        Seq::new(self.entries@.len(), |i: int| (self.entries@[i].0@, self.entries@[i].1))
    }

    #[verifier::type_invariant]
    spec fn well_formed(self) -> bool {
        strictly_sorted(self.items())
    }

    /// The map without entries.
    pub fn new() -> (m: Self)
        ensures
            m@ == Map::<Seq<char>, V>::empty(),
    {
        let m = StrMap { entries: Vec::new() };
        proof {
            assert(m@ =~= Map::<Seq<char>, V>::empty());
        }
        m
    }

    /// The slot of `key`.
    fn slot(&self, key: &str) -> (at: usize)
        ensures
            is_slot(self.items(), at as int, key@),
    {
        let mut at: usize = 0;
        while at < self.entries.len() && str_precedes(self.entries[at].0.as_str(), key)
            invariant
                at <= self.entries@.len(),
                forall|i: int| 0 <= i < at ==> precedes(#[trigger] self.items()[i].0, key@),
            decreases self.entries@.len() - at,
        {
            at += 1;
        }
        at
    }

    /// The value under `key`.
    pub fn get(&self, key: &str) -> (r: Option<&V>)
        ensures
            r == if self@.contains_key(key@) {
                Some(&self@[key@])
            } else {
                None
            },
    {
        proof {
            use_type_invariant(self);
        }
        let at = self.slot(key);
        if at < self.entries.len() && str_equal(self.entries[at].0.as_str(), key) {
            proof {
                lemma_place(self.items(), at as int);
            }
            Some(&self.entries[at].1)
        } else {
            proof {
                lemma_absent(self.items(), at as int, key@);
            }
            None
        }
    }

    /// The map with `value` under `key`, in place of what was there.
    pub fn insert(self, key: String, value: V) -> (m: Self)
        ensures
            m@ == self@.insert(key@, value),
    {
        proof {
            use_type_invariant(&self);
        }
        let ghost items = self.items();
        let at = self.slot(key.as_str());
        let mut entries = self.entries;
        if at < entries.len() && str_equal(entries[at].0.as_str(), key.as_str()) {
            proof {
                lemma_replace(items, at as int, value);
            }
            let ghost want = items.update(at as int, (items[at as int].0, value));
            entries.set(at, (key, value));
            assert(Seq::new(entries@.len(), |i: int| (entries@[i].0@, entries@[i].1)) =~= want);
            StrMap { entries }
        } else {
            proof {
                lemma_insert(items, at as int, key@, value);
            }
            let ghost want = items.insert(at as int, (key@, value));
            entries.insert(at, (key, value));
            assert(Seq::new(entries@.len(), |i: int| (entries@[i].0@, entries@[i].1)) =~= want);
            StrMap { entries }
        }
    }

    /// The value under `key`, and the map without it.
    pub fn take(self, key: &str) -> (r: (Option<V>, Self))
        ensures
            r.1@ == self@.remove(key@),
            r.0 == if self@.contains_key(key@) {
                Some(self@[key@])
            } else {
                None
            },
    {
        proof {
            use_type_invariant(&self);
        }
        let ghost items = self.items();
        let at = self.slot(key);
        if at < self.entries.len() && str_equal(self.entries[at].0.as_str(), key) {
            proof {
                lemma_place(items, at as int);
                lemma_remove(items, at as int);
            }
            let mut entries = self.entries;
            let ghost want = items.remove(at as int);
            let (_, value) = entries.remove(at);
            assert(Seq::new(entries@.len(), |i: int| (entries@[i].0@, entries@[i].1)) =~= want);
            (Some(value), StrMap { entries })
        } else {
            proof {
                lemma_absent(items, at as int, key@);
                assert(self@ =~= self@.remove(key@));
            }
            (None, self)
        }
    }

    /// How many entries there are.
    pub fn len(&self) -> (n: usize)
        ensures
            n == sorted_items(self@).len(),
            strictly_sorted(sorted_items(self@)),
            items_map(sorted_items(self@)) == self@,
    {
        proof {
            use_type_invariant(self);
            lemma_sorted_items(self.items());
        }
        self.entries.len()
    }

    /// The `i`th key in order.
    pub fn key(&self, i: usize) -> (k: &String)
        requires
            i < sorted_items(self@).len(),
        ensures
            k@ == sorted_items(self@)[i as int].0,
    {
        proof {
            use_type_invariant(self);
            lemma_sorted_items(self.items());
        }
        &self.entries[i].0
    }

    /// The value of the `i`th key in order.
    pub fn value(&self, i: usize) -> (v: &V)
        requires
            i < sorted_items(self@).len(),
        ensures
            *v == sorted_items(self@)[i as int].1,
    {
        proof {
            use_type_invariant(self);
            lemma_sorted_items(self.items());
        }
        &self.entries[i].1
    }

    /// The map that results from inserting `entries` one after the other.
    pub fn from_entries(entries: Vec<(String, V)>) -> (m: Self)
        ensures
            m@ == inserted(entries@),
    {
        let ghost all = entries@;
        let mut rest = entries;
        let mut reversed: Vec<(String, V)> = Vec::new();
        while rest.len() > 0
            invariant
                rest@.len() + reversed@.len() == all.len(),
                rest@ == all.take(rest@.len() as int),
                forall|i: int|
                    0 <= i < reversed@.len() ==> #[trigger] reversed@[i] == all[all.len() - 1 - i],
            decreases rest@.len(),
        {
            if let Some(entry) = rest.pop() {
                reversed.push(entry);
            }
        }
        let mut m = Self::new();
        while reversed.len() > 0
            invariant
                reversed@.len() <= all.len(),
                forall|i: int|
                    0 <= i < reversed@.len() ==> #[trigger] reversed@[i] == all[all.len() - 1 - i],
                m@ == inserted(all.take(all.len() - reversed@.len())),
            decreases reversed@.len(),
        {
            let ghost done = all.len() - reversed@.len();
            if let Some((key, value)) = reversed.pop() {
                assert(all.take(done + 1).drop_last() =~= all.take(done));
                m = m.insert(key, value);
            }
        }
        assert(all.take(all.len() as int) =~= all);
        m
    }

    /// The entries in the order of their keys.
    pub fn into_entries(self) -> (entries: Vec<(String, V)>)
        ensures
            inserted(entries@) == self@,
            entries@.len() == sorted_items(self@).len(),
            forall|i: int|
                0 <= i < entries@.len() ==> #[trigger] entries@[i].0@ == sorted_items(self@)[i].0
                    && entries@[i].1 == sorted_items(self@)[i].1,
    {
        proof {
            use_type_invariant(&self);
            lemma_sorted_items(self.items());
            lemma_inserted(self.entries@, self.items());
        }
        self.entries
    }
}

/// No entries make the empty map.
pub proof fn lemma_no_items<V>(items: Seq<(Seq<char>, V)>)
    requires
        items.len() == 0,
    ensures
        items_map(items) == Map::<Seq<char>, V>::empty(),
{
    assert(items_map(items) =~= Map::<Seq<char>, V>::empty());
}

/// One entry more adds its value to the map.
pub proof fn lemma_take_map<V>(items: Seq<(Seq<char>, V)>, i: int)
    requires
        strictly_sorted(items),
        0 <= i < items.len(),
    ensures
        items_map(items.take(i + 1)) == items_map(items.take(i)).insert(items[i].0, items[i].1),
{
    let init = items.take(i);
    assert forall|x: int, y: int| 0 <= x < y < init.len() implies precedes(
        #[trigger] init[x].0,
        #[trigger] init[y].0,
    ) by {
        assert(precedes(items[x].0, items[y].0));
    }
    assert forall|x: int| 0 <= x < i implies precedes(#[trigger] init[x].0, items[i].0) by {
        assert(precedes(items[x].0, items[i].0));
    }
    lemma_insert(init, i, items[i].0, items[i].1);
    assert(init.insert(i, items[i]) =~= items.take(i + 1));
}

/// The sorted texts of a map of strings are the texts of its sorted entries.
pub proof fn lemma_sorted_texts(m: Map<Seq<char>, String>)
    requires
        strictly_sorted(sorted_items(m)),
        items_map(sorted_items(m)) == m,
    ensures
        sorted_items(texts(m)) == sorted_items(m).map_values(
            |item: (Seq<char>, String)| (item.0, item.1@),
        ),
{
    let items = sorted_items(m);
    let mapped = items.map_values(|item: (Seq<char>, String)| (item.0, item.1@));
    assert forall|i: int, j: int| 0 <= i < j < mapped.len() implies precedes(
        #[trigger] mapped[i].0,
        #[trigger] mapped[j].0,
    ) by {
        assert(precedes(items[i].0, items[j].0));
    }
    assert forall|key: Seq<char>| items_map(mapped).contains_key(key) <==> texts(m).contains_key(
        key,
    ) by {
        if items_map(mapped).contains_key(key) {
            lemma_key(mapped, key);
            lemma_place(items, place(mapped, key));
        }
        if texts(m).contains_key(key) {
            lemma_key(items, key);
            lemma_place(mapped, place(items, key));
        }
    }
    assert forall|key: Seq<char>| items_map(mapped).contains_key(key) implies items_map(mapped)[key]
        == texts(m)[key] by {
        lemma_key(mapped, key);
        let i = place(mapped, key);
        lemma_place(mapped, i);
        lemma_place(items, i);
    }
    assert(items_map(mapped) =~= texts(m));
    lemma_sorted_items(mapped);
}

impl StrMap<String> {
    /// The map with the entries of `other` written over it.
    pub fn extend(self, other: &StrMap<String>) -> (m: Self)
        ensures
            m@ == self@.union_prefer_right(other@),
    {
        let ghost before = self@;
        let ghost items = sorted_items(other@);
        let n = other.len();
        let mut m = self;
        let mut i: usize = 0;
        assert(items_map(items.take(0)) =~= Map::empty());
        assert(m@ =~= before.union_prefer_right(items_map(items.take(0))));
        while i < n
            invariant
                i <= n,
                n == items.len(),
                items == sorted_items(other@),
                strictly_sorted(items),
                m@ == before.union_prefer_right(items_map(items.take(i as int))),
            decreases n - i,
        {
            m = m.insert(other.key(i).clone(), other.value(i).clone());
            proof {
                lemma_take_map(items, i as int);
                assert(m@ =~= before.union_prefer_right(items_map(items.take(i + 1))));
            }
            i += 1;
        }
        assert(items.take(items.len() as int) =~= items);
        m
    }

    /// An equal map.
    pub fn copy(&self) -> (m: Self)
        ensures
            m@ == self@,
    {
        let m = StrMap::new().extend(self);
        assert(m@ =~= self@);
        m
    }
}

} // verus!

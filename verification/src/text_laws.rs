//! The order of texts, numbers in decimal, maps and messages, told by their
//! characters and entries.

use vstd::prelude::*;
use vstd::utf8::encode_utf8;
use crate::error::{CacheError, EnvError, TaskError};
use crate::strmap::{inserted, items_map, law_finite_maps_are_listed, lemma_key, lemma_place};
use crate::strmap::{place, sorted_items, texts};
use crate::text::{bytes_precede, decimal, joined, lemma_decimal_digits, precedes};

verus! {

/// The two byte strings differ first at `k`, and the first one has the smaller
/// byte there or ends there.
pub open spec fn comes_first_at(a: Seq<u8>, b: Seq<u8>, k: int) -> bool {
    &&& 0 <= k <= a.len()
    &&& k < b.len()
    &&& a.take(k) == b.take(k)
    &&& k == a.len() || a[k] < b[k]
}

/// One byte string comes before another where it ends, or has the smaller byte,
/// at the first place at which they differ.
pub proof fn law_bytes_are_ordered(a: Seq<u8>, b: Seq<u8>)
    ensures
        bytes_precede(a, b) <==> exists|k: int| #[trigger] comes_first_at(a, b, k),
    decreases a.len(),
{
    if b.len() > 0 && a.len() > 0 && a[0] == b[0] {
        let x = a.drop_first();
        let y = b.drop_first();
        law_bytes_are_ordered(x, y);
        if bytes_precede(x, y) {
            let k = choose|k: int| #[trigger] comes_first_at(x, y, k);
            assert forall|i: int| 0 <= i < k + 1 implies a[i] == b[i] by {
                if i > 0 {
                    assert(x.take(k)[i - 1] == y.take(k)[i - 1]);
                }
            }
            assert(a.take(k + 1) =~= b.take(k + 1));
            assert(comes_first_at(a, b, k + 1));
        }
        if exists|k: int| #[trigger] comes_first_at(a, b, k) {
            let k = choose|k: int| #[trigger] comes_first_at(a, b, k);
            assert forall|i: int| 0 <= i < k - 1 implies x[i] == y[i] by {
                assert(a.take(k)[i + 1] == b.take(k)[i + 1]);
            }
            assert(k > 0);
            assert(x.take(k - 1) =~= y.take(k - 1));
            assert(comes_first_at(x, y, k - 1));
        }
    } else if b.len() > 0 {
        if bytes_precede(a, b) {
            assert(a.take(0) =~= b.take(0));
            assert(comes_first_at(a, b, 0));
        }
        if exists|k: int| #[trigger] comes_first_at(a, b, k) {
            let k = choose|k: int| #[trigger] comes_first_at(a, b, k);
            if k > 0 {
                assert(a.take(k)[0] == b.take(k)[0]);
            }
        }
    }
}

/// The UTF-8 bytes of a text come before those of another.
pub open spec fn comes_first(a: Seq<char>, b: Seq<char>) -> bool {
    exists|k: int| #[trigger] comes_first_at(encode_utf8(a), encode_utf8(b), k)
}

/// Texts are ordered as their UTF-8 bytes are.
pub proof fn law_texts_are_ordered(a: Seq<char>, b: Seq<char>)
    ensures
        precedes(a, b) <==> comes_first(a, b),
{
    law_bytes_are_ordered(encode_utf8(a), encode_utf8(b));
}

/// The number that digits stand for.
pub open spec fn number(digits: Seq<char>) -> int
    decreases digits.len(),
{
    if digits.len() == 0 {
        0
    } else {
        10 * number(digits.drop_last()) + (digits.last() as int - '0' as int)
    }
}

/// A number in decimal stands for that number, in digits and without a leading
/// zero.
pub proof fn law_decimals_stand_for_numbers(n: nat)
    ensures
        number(decimal(n)) == n,
        decimal(n).len() > 0,
        decimal(n)[0] == '0' ==> n == 0 && decimal(n).len() == 1,
        forall|i: int| 0 <= i < decimal(n).len() ==> '0' <= #[trigger] decimal(n)[i] <= '9',
    decreases n,
{
    lemma_decimal_digits(n);
    if n < 10 {
        assert(decimal(n).drop_last() =~= Seq::empty());
        assert(number(Seq::<char>::empty()) == 0);
        assert(decimal(n).last() as int == n + 48);
    } else {
        law_decimals_stand_for_numbers(n / 10);
        assert(decimal(n).drop_last() =~= decimal(n / 10));
        assert(decimal(n).last() as int == n % 10 + 48);
        assert(decimal(n)[0] == decimal(n / 10)[0]);
    }
}

/// Joined texts: nothing for none, a single one as it is, and a further one
/// behind what is put between them.
pub proof fn law_texts_are_joined(
    parts: Seq<Seq<char>>,
    part: Seq<char>,
    between: Seq<char>,
)
    ensures
        joined(Seq::empty(), between) == Seq::<char>::empty(),
        joined(seq![part], between) == part,
        parts.len() > 0 ==> joined(parts.push(part), between) == joined(parts, between) + between
            + part,
{
    assert(parts.push(part).drop_last() =~= parts);
}

/// A finite map is listed in the order of the UTF-8 bytes of its keys. Each of
/// its keys is in the list with its value, and nothing else.
pub proof fn law_maps_are_listed_in_order<V>(m: Map<Seq<char>, V>)
    requires
        m.dom().finite(),
    ensures
        forall|i: int, j: int|
            0 <= i < j < sorted_items(m).len() ==> comes_first(
                #[trigger] sorted_items(m)[i].0,
                #[trigger] sorted_items(m)[j].0,
            ),
        forall|i: int|
            0 <= i < sorted_items(m).len() ==> m.contains_key(#[trigger] sorted_items(m)[i].0)
                && m[sorted_items(m)[i].0] == sorted_items(m)[i].1,
        forall|key: Seq<char>| #[trigger]
            m.contains_key(key) ==> exists|i: int|
                0 <= i < sorted_items(m).len() && #[trigger] sorted_items(m)[i] == (key, m[key]),
{
    law_finite_maps_are_listed(m);
    let items = sorted_items(m);
    assert forall|i: int, j: int| 0 <= i < j < items.len() implies comes_first(
        #[trigger] items[i].0,
        #[trigger] items[j].0,
    ) by {
        assert(precedes(items[i].0, items[j].0));
        law_texts_are_ordered(items[i].0, items[j].0);
    }
    assert forall|i: int| 0 <= i < items.len() implies m.contains_key(#[trigger] items[i].0)
        && m[items[i].0] == items[i].1 by {
        lemma_place(items, i);
    }
    assert forall|key: Seq<char>| #[trigger] m.contains_key(key) implies exists|i: int|
        0 <= i < items.len() && #[trigger] items[i] == (key, m[key]) by {
        assert(items_map(items).contains_key(key));
        lemma_key(items, key);
        lemma_place(items, place(items, key));
        assert(items[place(items, key)] == (key, m[key]));
    }
}

/// Of entries that are inserted one after the other the last one under a key
/// stays, and no key without an entry is there.
pub proof fn law_last_entry_stays<V>(entries: Seq<(String, V)>, key: Seq<char>)
    ensures
        forall|i: int|
            0 <= i < entries.len() && (#[trigger] entries[i]).0@ == key && (forall|j: int|
                i < j < entries.len() ==> (#[trigger] entries[j]).0@ != key) ==> inserted(
                entries,
            ).contains_key(key) && inserted(entries)[key] == entries[i].1,
        (forall|i: int| 0 <= i < entries.len() ==> (#[trigger] entries[i]).0@ != key)
            ==> !inserted(entries).contains_key(key),
    decreases entries.len(),
{
    if entries.len() > 0 {
        let init = entries.drop_last();
        let n = entries.len() - 1;
        law_last_entry_stays(init, key);
        assert(forall|j: int| 0 <= j < n ==> #[trigger] init[j] == entries[j]);
        assert forall|i: int|
            0 <= i < entries.len() && (#[trigger] entries[i]).0@ == key && (forall|j: int|
                i < j < entries.len() ==> (#[trigger] entries[j]).0@ != key) implies inserted(
            entries,
        ).contains_key(key) && inserted(entries)[key] == entries[i].1 by {
            if i < n {
                assert(entries[n].0@ != key);
                assert(init[i] == entries[i]);
                assert forall|j: int| i < j < init.len() implies (#[trigger] init[j]).0@ != key by {
                    assert(init[j] == entries[j]);
                }
            }
        }
        if forall|i: int| 0 <= i < entries.len() ==> (#[trigger] entries[i]).0@ != key {
            assert(entries[n].0@ != key);
            assert forall|i: int| 0 <= i < init.len() implies (#[trigger] init[i]).0@ != key by {
                assert(init[i] == entries[i]);
            }
        }
    }
}

/// The texts of a map of strings are under the same keys.
pub proof fn law_texts_of_a_map(m: Map<Seq<char>, String>, key: Seq<char>)
    ensures
        texts(m).contains_key(key) == m.contains_key(key),
        m.contains_key(key) ==> texts(m)[key] == m[key]@,
{
}

/// What errors say.
pub proof fn law_messages(cache: CacheError, env: EnvError, error: TaskError)
    ensures
        match cache {
            CacheError::Initialization(message) => cache.text() == message@,
            CacheError::Reported(message) => cache.text() == message@,
        },
        match env {
            EnvError::Input => env.text() == "Failed to serialize task input to JSON"@,
            EnvError::Outputs => env.text() == "Failed to serialize task outputs to JSON"@,
        },
        match error {
            TaskError::CwdMissing { task, cwd } => error.text() == "Working directory for task '"@
                + task@ + "' does not exist: "@ + cwd@,
            TaskError::CwdNotDirectory { task, cwd } => error.text()
                == "Working directory for task '"@ + task@ + "' is not a directory: "@ + cwd@,
            TaskError::NoCurrentDir => error.text() == "Failed to resolve task working directory"@,
            TaskError::NoCommand { task } => error.text() == "Process task "@ + task@
                + " has no command"@,
            TaskError::TaskEnv(_) => error.text() == "Failed to prepare task environment"@,
            TaskError::StatusEnv(_) => error.text() == "Failed to prepare status command"@,
            TaskError::Lock { task, .. } => error.text()
                == "Failed to acquire cache lock for task '"@ + task@ + "'"@,
            TaskError::Reported(message) => error.text() == message@,
        },
{
}

/// What errors name as their cause: the environment or the lock that failed,
/// where they only say what was being done.
pub proof fn law_causes(error: TaskError)
    ensures
        match error {
            TaskError::TaskEnv(env) => error.cause_text() == Some(env.text()),
            TaskError::StatusEnv(env) => error.cause_text() == Some(env.text()),
            TaskError::Lock { cause, .. } => error.cause_text() == Some(cause@),
            TaskError::CwdMissing { .. } => error.cause_text() is None,
            TaskError::CwdNotDirectory { .. } => error.cause_text() is None,
            TaskError::NoCurrentDir => error.cause_text() is None,
            TaskError::NoCommand { .. } => error.cause_text() is None,
            TaskError::Reported(_) => error.cause_text() is None,
        },
{
}

} // verus!

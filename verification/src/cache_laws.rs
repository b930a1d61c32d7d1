//! What snapshots, entries and the contract of a cached task come down to, field
//! by field.

use vstd::prelude::*;
use crate::task_cache::{contract_breach, is_entry_for, is_missing, missing, outputs_untouched};
use crate::task_cache::{CachedRun, DeclaredPathSnapshot, DeclaredView, PathSnapshot, PathState};
use crate::text::joined;

verus! {

/// Every declared path may be missing or was found.
pub open spec fn all_found(s: PathSnapshot) -> bool {
    forall|k: int|
        0 <= k < s.declarations@.len() ==> (#[trigger] s.declarations@[k]).declaration.optional
            || s.declarations@[k].matches@.len() > 0
}

/// The same path with the same kind and the same content.
pub open spec fn equal_states(a: PathState, b: PathState) -> bool {
    a.path@ == b.path@ && a.kind@ == b.kind@ && a.content_hash@ == b.content_hash@
}

/// The same was declared, and the same was found for it, match by match.
pub open spec fn equal_declared(a: DeclaredPathSnapshot, b: DeclaredPathSnapshot) -> bool {
    &&& a.declaration.path@ == b.declaration.path@
    &&& a.declaration.optional == b.declaration.optional
    &&& a.matches@.len() == b.matches@.len()
    &&& forall|m: int|
        0 <= m < a.matches@.len() ==> equal_states(#[trigger] a.matches@[m], b.matches@[m])
}

/// The same was declared and found, declaration by declaration.
pub open spec fn equal_snapshots(a: PathSnapshot, b: PathSnapshot) -> bool {
    &&& a.declarations@.len() == b.declarations@.len()
    &&& forall|k: int|
        0 <= k < a.declarations@.len() ==> equal_declared(
            #[trigger] a.declarations@[k],
            b.declarations@[k],
        )
}

/// Snapshots have the same view exactly where they have the same declarations,
/// optional ones too, with the same matches.
pub proof fn law_snapshot_views_tell_all(a: PathSnapshot, b: PathSnapshot)
    ensures
        a@ == b@ <==> equal_snapshots(a, b),
{
    if a@ == b@ {
        assert(a@.len() == b@.len());
        assert forall|k: int| 0 <= k < a.declarations@.len() implies equal_declared(
            #[trigger] a.declarations@[k],
            b.declarations@[k],
        ) by {
            assert(a@[k] == b@[k]);
            let x = a.declarations@[k];
            let y = b.declarations@[k];
            assert(x@ == y@);
            assert(x@.matches.len() == y@.matches.len());
            assert forall|m: int| 0 <= m < x.matches@.len() implies equal_states(
                #[trigger] x.matches@[m],
                y.matches@[m],
            ) by {
                assert(x@.matches[m] == y@.matches[m]);
            }
        }
    }
    if equal_snapshots(a, b) {
        assert forall|k: int| 0 <= k < a@.len() implies a@[k] == b@[k] by {
            let x = a.declarations@[k];
            let y = b.declarations@[k];
            assert(equal_declared(x, y));
            assert forall|m: int| 0 <= m < x.matches@.len() implies x@.matches[m]
                == y@.matches[m] by {
                assert(equal_states(x.matches@[m], y.matches@[m]));
            }
            assert(x@.matches =~= y@.matches);
        }
        assert(a@ =~= b@);
    }
}

/// What declarations show.
spec fn shown(declarations: Seq<DeclaredPathSnapshot>) -> Seq<DeclaredView> {
    declarations.map_values(|entry: DeclaredPathSnapshot| entry@)
}

proof fn lemma_missing_push(declarations: Seq<DeclaredPathSnapshot>, more: DeclaredPathSnapshot)
    ensures
        missing(shown(declarations.push(more))) == if !more.declaration.optional
            && more.matches@.len() == 0 {
            missing(shown(declarations)).push(more.declaration.path@)
        } else {
            missing(shown(declarations))
        },
{
    let wanted = |entry: DeclaredView| is_missing(entry);
    let path_of = |entry: DeclaredView| entry.declaration.path;
    let all = shown(declarations);
    assert(shown(declarations.push(more)) =~= all.push(more@));
    assert(more@.matches.len() == more.matches@.len());
    assert(all.push(more@).filter(wanted) == if wanted(more@) {
        all.filter(wanted).push(more@)
    } else {
        all.filter(wanted)
    }) by {
        reveal(Seq::filter);
        assert(all.push(more@).drop_last() =~= all);
    }
    assert(all.filter(wanted).push(more@).map_values(path_of) =~= all.filter(wanted).map_values(
        path_of,
    ).push(more.declaration.path@));
}

/// A required path without matches.
spec fn is_absent(entry: DeclaredPathSnapshot, path: Seq<char>) -> bool {
    entry.declaration.path@ == path && !entry.declaration.optional && entry.matches@.len() == 0
}

proof fn lemma_missing(declarations: Seq<DeclaredPathSnapshot>)
    ensures
        forall|path: Seq<char>| #[trigger]
            missing(shown(declarations)).contains(path) <==> exists|k: int|
                0 <= k < declarations.len() && is_absent(#[trigger] declarations[k], path),
    decreases declarations.len(),
{
    let n = declarations.len() as int;
    let now = missing(shown(declarations));
    if n == 0 {
        reveal(Seq::filter);
        assert(shown(declarations) =~= Seq::empty());
        assert(now =~= Seq::empty());
    } else {
        let less = declarations.drop_last();
        let more = declarations.last();
        lemma_missing(less);
        lemma_missing_push(less, more);
        assert(less.push(more) =~= declarations);
        let before = missing(shown(less));
        assert(forall|k: int| 0 <= k < n - 1 ==> #[trigger] declarations[k] == less[k]);
        assert(declarations[n - 1] == more);
        assert forall|path: Seq<char>| #[trigger] now.contains(path) <==> exists|k: int|
            0 <= k < n && is_absent(#[trigger] declarations[k], path) by {
            if now.contains(path) {
                let j = choose|j: int| 0 <= j < now.len() && now[j] == path;
                if j < before.len() {
                    assert(before[j] == path);
                    assert(before.contains(path));
                    let k = choose|k: int| 0 <= k < n - 1 && is_absent(#[trigger] less[k], path);
                    assert(is_absent(declarations[k], path));
                } else {
                    assert(is_absent(declarations[n - 1], path));
                }
            }
            if exists|k: int| 0 <= k < n && is_absent(#[trigger] declarations[k], path) {
                let k = choose|k: int| 0 <= k < n && is_absent(#[trigger] declarations[k], path);
                if k < n - 1 {
                    assert(is_absent(less[k], path));
                    assert(before.contains(path));
                    let j = choose|j: int| 0 <= j < before.len() && before[j] == path;
                    assert(now[j] == path);
                } else {
                    assert(now[now.len() - 1] == path);
                }
            }
        }
    }
}

/// One more declaration is one more missing path, told last, exactly where it
/// is not optional and nothing was found for it.
pub proof fn law_missing_is_told_in_order(
    s: PathSnapshot,
    more: DeclaredPathSnapshot,
    t: PathSnapshot,
)
    requires
        t.declarations@ == s.declarations@.push(more),
    ensures
        missing(t@) == if !more.declaration.optional && more.matches@.len() == 0 {
            missing(s@).push(more.declaration.path@)
        } else {
            missing(s@)
        },
{
    assert(t@ =~= shown(t.declarations@));
    assert(s@ =~= shown(s.declarations@));
    lemma_missing_push(s.declarations@, more);
}

/// A path is told to be missing exactly where some declaration of it is not
/// optional and nothing was found for it, whatever the path looks like.
pub proof fn law_required_paths_without_matches_are_missing(s: PathSnapshot)
    ensures
        forall|k: int|
            0 <= k < s.declarations@.len() && !(
            #[trigger] s.declarations@[k]).declaration.optional && s.declarations@[k].matches@.len()
                == 0 ==> missing(s@).contains(s.declarations@[k].declaration.path@),
        forall|path: Seq<char>| #[trigger]
            missing(s@).contains(path) ==> exists|k: int|
                0 <= k < s.declarations@.len() && (
                #[trigger] s.declarations@[k]).declaration.path@ == path
                    && !s.declarations@[k].declaration.optional
                    && s.declarations@[k].matches@.len() == 0,
        missing(s@).len() == 0 <==> (forall|k: int|
            0 <= k < s.declarations@.len() ==> (#[trigger] s.declarations@[k]).declaration.optional
                || s.declarations@[k].matches@.len() > 0),
{
    let now = missing(s@);
    assert(s@ =~= shown(s.declarations@));
    lemma_missing(s.declarations@);
    assert forall|k: int|
        0 <= k < s.declarations@.len() && !(#[trigger] s.declarations@[k]).declaration.optional
            && s.declarations@[k].matches@.len() == 0 implies now.contains(
        s.declarations@[k].declaration.path@,
    ) by {
        assert(is_absent(s.declarations@[k], s.declarations@[k].declaration.path@));
    }
    assert forall|path: Seq<char>| #[trigger] now.contains(path) implies exists|k: int|
        0 <= k < s.declarations@.len() && (#[trigger] s.declarations@[k]).declaration.path@ == path
            && !s.declarations@[k].declaration.optional && s.declarations@[k].matches@.len()
            == 0 by {
        let k = choose|k: int|
            0 <= k < s.declarations@.len() && is_absent(#[trigger] s.declarations@[k], path);
        assert(s.declarations@[k].declaration.path@ == path);
    }
    if now.len() > 0 {
        assert(now.contains(now[0]));
    }
}

/// An entry is for a definition and for inputs exactly where the hash is the
/// same and every declaration, optional ones too, is the same with the same
/// matches.
pub proof fn law_entries_are_for_equal_inputs(
    entry: CachedRun,
    definition: Seq<char>,
    inputs: PathSnapshot,
)
    ensures
        is_entry_for(entry, definition, inputs@) <==> entry.definition_hash@ == definition
            && equal_snapshots(entry.input_snapshot, inputs),
{
    law_snapshot_views_tell_all(entry.input_snapshot, inputs);
}

/// The outputs of an entry are untouched exactly where every required one is
/// there and every declaration is the same with the same matches.
pub proof fn law_untouched_outputs_are_equal(entry: CachedRun, outputs: PathSnapshot)
    ensures
        outputs_untouched(entry, outputs@) <==> all_found(outputs) && equal_snapshots(
            outputs,
            entry.output_snapshot,
        ),
{
    law_snapshot_views_tell_all(outputs, entry.output_snapshot);
    law_required_paths_without_matches_are_missing(outputs);
}

/// A run may be cached exactly where every required input and output is there
/// and the inputs are what they were. Else it is told first which inputs are
/// missing, then which outputs are, then that the inputs changed.
pub proof fn law_contract_of_a_run(
    before: PathSnapshot,
    inputs: PathSnapshot,
    outputs: PathSnapshot,
)
    ensures
        contract_breach(before@, inputs@, outputs@) is None <==> all_found(inputs) && all_found(
            outputs,
        ) && equal_snapshots(before, inputs),
        !all_found(inputs) ==> contract_breach(before@, inputs@, outputs@) == Some(
            "required cache inputs are missing after task success: "@ + joined(
                missing(inputs@),
                ", "@,
            ),
        ),
        all_found(inputs) && !all_found(outputs) ==> contract_breach(before@, inputs@, outputs@)
            == Some(
            "required cache outputs are missing after task success: "@ + joined(
                missing(outputs@),
                ", "@,
            ),
        ),
        all_found(inputs) && all_found(outputs) && !equal_snapshots(before, inputs)
            ==> contract_breach(before@, inputs@, outputs@) == Some(
            "cache inputs changed while the task was running"@,
        ),
{
    law_snapshot_views_tell_all(before, inputs);
    law_required_paths_without_matches_are_missing(inputs);
    law_required_paths_without_matches_are_missing(outputs);
}

} // verus!

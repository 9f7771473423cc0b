//! The two halves of a keyed diff: target entries that the source no longer
//! has, and source entries that the target does not have yet.

use crate::lookup::{contains_key, key_set, lemma_key_set_push, unique_keys, Identified, Keyed};
use crate::model::Deletion;
use vstd::prelude::*;

verus! {

/// A target entry is deleted when the source has no entry with its key and
/// the target has given it an id; an entry without an id is skipped.
pub open spec fn deletable<T: Keyed + Identified>(e: T, source: Set<Seq<char>>) -> bool {
    e.id_of() is Some && !source.contains(e.key_of())
}

/// The keys of the target entries that a diff against `source` deletes.
pub open spec fn deletion_keys<T: Keyed + Identified>(
    target: Seq<T>,
    source: Set<Seq<char>>,
) -> Set<Seq<char>> {
    Set::new(
        |k: Seq<char>|
            exists|i: int| 0 <= i < target.len() && #[trigger] target[i].key_of() == k && deletable(target[i], source),
    )
}

/// `d` names a target entry by its key and carries that entry's id.
pub open spec fn deletion_from<T: Keyed + Identified>(target: Seq<T>, d: Deletion) -> bool {
    exists|i: int|
        0 <= i < target.len() && #[trigger] target[i].key_of() == d.key@ && target[i].id_of() == Some(d.id)
}

/// The deletions that bring `target` in line with `source`: one for each
/// target entry with an id whose key the source lacks, carrying that id.
pub fn to_delete<T: Keyed + Identified, S: Keyed>(target: &Vec<T>, source: &Vec<S>) -> (r: Vec<Deletion>)
    requires
        unique_keys(target@),
    ensures
        unique_keys(r@),
        key_set(r@) == deletion_keys(target@, key_set(source@)),
        forall|j: int| 0 <= j < r@.len() ==> deletion_from(target@, #[trigger] r@[j]),
{
    let ghost src = key_set(source@);
    let mut out: Vec<Deletion> = Vec::new();
    let mut i: usize = 0;
    while i < target.len()
        invariant
            i <= target@.len(),
            unique_keys(target@),
            src == key_set(source@),
            unique_keys(out@),
            key_set(out@) == Set::new(
                |k: Seq<char>|
                    exists|m: int| 0 <= m < i && #[trigger] target@[m].key_of() == k && deletable(target@[m], src),
            ),
            forall|j: int| 0 <= j < out@.len() ==> deletion_from(target@, #[trigger] out@[j]),
        decreases target@.len() - i,
    {
        let e = &target[i];
        let key = e.key();
        let in_source = contains_key(source, key);
        let ghost pre = out@;
        let ghost done = Set::new(
            |k: Seq<char>|
                exists|m: int| 0 <= m < i && #[trigger] target@[m].key_of() == k && deletable(target@[m], src),
        );
        let ghost next = Set::new(
            |k: Seq<char>|
                exists|m: int| 0 <= m < i + 1 && #[trigger] target@[m].key_of() == k && deletable(target@[m], src),
        );
        match e.id() {
            Some(id) => {
                if !in_source {
                    let d = Deletion { key: key.clone(), id: id.clone() };
                    proof {
                        assert forall|j: int| 0 <= j < pre.len() implies #[trigger] pre[j].key_of()
                            != d.key_of() by {
                            assert(key_set(pre).contains(pre[j].key_of()));
                            let m = choose|m: int| 0 <= m < i && #[trigger] target@[m].key_of() == pre[j].key_of() && deletable(target@[m], src);
                            assert(m != i);
                        }
                    }
                    out.push(d);
                    proof {
                        lemma_key_set_push(pre, d);
                        assert(next =~= done.insert(d.key_of()));
                        assert(unique_keys(out@)) by {
                            assert forall|a: int, b: int| 0 <= a < out@.len() && 0 <= b < out@.len() && a != b
                                implies #[trigger] out@[a].key_of() != #[trigger] out@[b].key_of() by {
                                if a < pre.len() && b < pre.len() {
                                    assert(out@[a] == pre[a] && out@[b] == pre[b]);
                                } else if a < pre.len() {
                                    assert(out@[a] == pre[a]);
                                } else {
                                    assert(out@[b] == pre[b]);
                                }
                            }
                        }
                        assert forall|j: int| 0 <= j < out@.len() implies deletion_from(
                            target@,
                            #[trigger] out@[j],
                        ) by {
                            if j < pre.len() {
                                assert(out@[j] == pre[j]);
                            } else {
                                assert(target@[i as int].key_of() == out@[j].key@);
                            }
                        }
                    }
                } else {
                    assert(next =~= done);
                }
            },
            None => {
                assert(next =~= done);
            },
        }
        i = i + 1;
    }
    proof {
        assert(key_set(out@) =~= deletion_keys(target@, key_set(source@)));
    }
    out
}

/// The positions, in increasing order, of the source entries whose key the
/// target lacks.
pub fn to_create<S: Keyed, T: Keyed>(source: &Vec<S>, target: &Vec<T>) -> (r: Vec<usize>)
    ensures
        forall|j: int|
            0 <= j < r@.len() ==> #[trigger] r@[j] < source@.len() && !key_set(target@).contains(
                source@[r@[j] as int].key_of(),
            ),
        forall|a: int, b: int| 0 <= a < b < r@.len() ==> #[trigger] r@[a] < #[trigger] r@[b],
        forall|i: int|
            0 <= i < source@.len() && !key_set(target@).contains(#[trigger] source@[i].key_of())
                ==> exists|j: int| 0 <= j < r@.len() && r@[j] == i,
{
    let mut out: Vec<usize> = Vec::new();
    let mut i: usize = 0;
    while i < source.len()
        invariant
            i <= source@.len(),
            forall|j: int|
                0 <= j < out@.len() ==> #[trigger] out@[j] < i && !key_set(target@).contains(
                    source@[out@[j] as int].key_of(),
                ),
            forall|a: int, b: int| 0 <= a < b < out@.len() ==> #[trigger] out@[a] < #[trigger] out@[b],
            forall|m: int|
                0 <= m < i && !key_set(target@).contains(#[trigger] source@[m].key_of())
                    ==> exists|j: int| 0 <= j < out@.len() && out@[j] == m,
        decreases source@.len() - i,
    {
        if !contains_key(target, source[i].key()) {
            let ghost pre = out@;
            out.push(i);
            assert forall|m: int|
                0 <= m < i + 1 && !key_set(target@).contains(#[trigger] source@[m].key_of())
                    implies exists|j: int| 0 <= j < out@.len() && out@[j] == m by {
                if m < i {
                    let j = choose|j: int| 0 <= j < pre.len() && pre[j] == m;
                    assert(out@[j] == m);
                } else {
                    assert(out@[pre.len() as int] == m);
                }
            }
        }
        i = i + 1;
    }
    out
}

/// The target entries that a diff against `source` keeps.
pub open spec fn kept<T: Keyed + Identified>(target: Seq<T>, source: Set<Seq<char>>) -> Seq<T> {
    target.filter(|e: T| !deletable(e, source))
}

/// A diff run leaves nothing for a second run: once the deletable entries of
/// `target` are gone and entries with the keys that the target lacked have
/// been created, no entry is deletable and no source key is missing.
pub proof fn lemma_diff_second_run_empty<T: Keyed + Identified>(
    target: Seq<T>,
    source: Set<Seq<char>>,
    created: Seq<T>,
)
    requires
        key_set(created) == source.difference(key_set(target)),
    ensures
        deletion_keys(kept(target, source) + created, source) == Set::<Seq<char>>::empty(),
        source.difference(key_set(kept(target, source) + created)) == Set::<Seq<char>>::empty(),
{
    broadcast use vstd::seq_lib::group_filter_ensures;

    let pred = |e: T| !deletable(e, source);
    let k = target.filter(pred);
    assert(kept(target, source) == k);
    let after = k + created;
    assert forall|key: Seq<char>| !deletion_keys(after, source).contains(key) by {
        if deletion_keys(after, source).contains(key) {
            let i = choose|i: int|
                0 <= i < after.len() && #[trigger] after[i].key_of() == key && deletable(after[i], source);
            if i < k.len() {
                assert(after[i] == k[i]);
                assert(pred(k[i]));
            } else {
                assert(after[i] == created[i - k.len()]);
                assert(key_set(created).contains(created[i - k.len()].key_of()));
            }
        }
    }
    assert forall|key: Seq<char>| source.contains(key) implies key_set(after).contains(key) by {
        if key_set(target).contains(key) {
            let i = choose|i: int| 0 <= i < target.len() && #[trigger] target[i].key_of() == key;
            assert(pred(target[i]));
            assert(k.contains(target[i]));
            let j = choose|j: int| 0 <= j < k.len() && k[j] == target[i];
            assert(after[j] == k[j]);
        } else {
            assert(key_set(created).contains(key));
            let j = choose|j: int| 0 <= j < created.len() && #[trigger] created[j].key_of() == key;
            assert(after[k.len() + j] == created[j]);
        }
    }
    assert(deletion_keys(after, source) =~= Set::<Seq<char>>::empty());
    assert(source.difference(key_set(after)) =~= Set::<Seq<char>>::empty());
}

/// Idempotence across a rebuild: the second run builds its lookup table
/// from a listing of what the first run left (its entries come from that
/// listing and its keys are the listing's, as `SyncOp::new` ensures), and
/// that table still has nothing to delete and no source key missing.
pub proof fn lemma_rebuilt_second_run_empty<T: Keyed + Identified>(
    target: Seq<T>,
    source: Set<Seq<char>>,
    created: Seq<T>,
    rebuilt: Seq<T>,
)
    requires
        key_set(created) == source.difference(key_set(target)),
        key_set(rebuilt) == key_set(kept(target, source) + created),
        forall|e: T| #[trigger] rebuilt.contains(e) ==> (kept(target, source) + created).contains(e),
    ensures
        deletion_keys(rebuilt, source) == Set::<Seq<char>>::empty(),
        source.difference(key_set(rebuilt)) == Set::<Seq<char>>::empty(),
{
    let after = kept(target, source) + created;
    lemma_diff_second_run_empty(target, source, created);
    assert forall|k: Seq<char>| !deletion_keys(rebuilt, source).contains(k) by {
        if deletion_keys(rebuilt, source).contains(k) {
            let i = choose|i: int|
                0 <= i < rebuilt.len() && #[trigger] rebuilt[i].key_of() == k && deletable(rebuilt[i], source);
            assert(rebuilt.contains(rebuilt[i]));
            let j = choose|j: int| 0 <= j < after.len() && after[j] == rebuilt[i];
            assert(after[j].key_of() == k);
            assert(deletion_keys(after, source).contains(k));
        }
    }
    assert(deletion_keys(rebuilt, source) =~= Set::<Seq<char>>::empty());
    assert(source.difference(key_set(rebuilt)) =~= Set::<Seq<char>>::empty()) by {
        assert(source.difference(key_set(after)) =~= Set::<Seq<char>>::empty());
        assert forall|k: Seq<char>| source.contains(k) implies key_set(rebuilt).contains(k) by {
            assert(!source.difference(key_set(after)).contains(k));
        }
    }
}

} // verus!

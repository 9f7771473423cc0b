//! Lookup tables: vectors of entities whose keys are unique, read and written
//! as maps from key to entity.

use vstd::prelude::*;

verus! {

/// An entity with a stable string key.
pub trait Keyed {
    spec fn key_of(&self) -> Seq<char>;

    fn key(&self) -> (r: &String)
        ensures
            r@ == self.key_of(),
    ;
}

/// An entity that may carry an id assigned by the target endpoint.
pub trait Identified {
    spec fn id_of(&self) -> Option<String>;

    fn id(&self) -> (r: &Option<String>)
        ensures
            *r == self.id_of(),
    ;
}

/// The keys that occur in `s`.
pub open spec fn key_set<T: Keyed>(s: Seq<T>) -> Set<Seq<char>> {
    Set::new(|k: Seq<char>| exists|i: int| 0 <= i < s.len() && #[trigger] s[i].key_of() == k)
}

/// No key occurs twice in `s`.
pub open spec fn unique_keys<T: Keyed>(s: Seq<T>) -> bool {
    forall|i: int, j: int|
        0 <= i < s.len() && 0 <= j < s.len() && i != j ==> #[trigger] s[i].key_of()
            != #[trigger] s[j].key_of()
}

/// The position of the entry keyed `k`, if there is one.
pub fn find_key<T: Keyed>(v: &Vec<T>, k: &String) -> (r: Option<usize>)
    ensures
        r matches Some(i) ==> i < v@.len() && v@[i as int].key_of() == k@,
        r is None <==> !key_set(v@).contains(k@),
{
    let mut i: usize = 0;
    while i < v.len()
        invariant
            i <= v@.len(),
            forall|j: int| 0 <= j < i ==> #[trigger] v@[j].key_of() != k@,
        decreases v@.len() - i,
    {
        let e: &T = &v[i];
        let ek: &String = e.key();
        if ek.eq(k) {
            return Some(i);
        }
        i = i + 1;
    }
    None
}

/// The keys of a sequence with one more entry.
pub proof fn lemma_key_set_push<T: Keyed>(s: Seq<T>, x: T)
    ensures
        key_set(s.push(x)) == key_set(s).insert(x.key_of()),
{
    assert forall|k: Seq<char>| key_set(s).insert(x.key_of()).contains(k) implies key_set(
        s.push(x),
    ).contains(k) by {
        if k != x.key_of() {
            let j = choose|j: int| 0 <= j < s.len() && #[trigger] s[j].key_of() == k;
            assert(s.push(x)[j].key_of() == k);
        } else {
            assert(s.push(x)[s.len() as int].key_of() == k);
        }
    }
    assert forall|k: Seq<char>| key_set(s.push(x)).contains(k) implies key_set(s).insert(
        x.key_of(),
    ).contains(k) by {
        let j = choose|j: int| 0 <= j < s.len() + 1 && #[trigger] s.push(x)[j].key_of() == k;
        if j < s.len() {
            assert(s[j].key_of() == k);
        }
    }
    assert(key_set(s.push(x)) =~= key_set(s).insert(x.key_of()));
}

/// A sequence has no keys exactly when it is empty.
pub proof fn lemma_key_set_empty<T: Keyed>(s: Seq<T>)
    ensures
        s.len() == 0 <==> key_set(s) == Set::<Seq<char>>::empty(),
{
    if s.len() > 0 {
        assert(key_set(s).contains(s[0].key_of()));
    } else {
        assert(key_set(s) =~= Set::<Seq<char>>::empty());
    }
}

/// Builds a lookup table from a listing; where a key occurs twice one of its
/// entries is kept.
pub fn lookup_of<T: Keyed>(items: Vec<T>) -> (r: Vec<T>)
    ensures
        unique_keys(r@),
        key_set(r@) == key_set(items@),
        forall|e: T| #[trigger] r@.contains(e) ==> items@.contains(e),
{
    let ghost all = items@;
    let mut rest = items;
    let mut out: Vec<T> = Vec::new();
    while rest.len() > 0
        invariant
            unique_keys(out@),
            key_set(out@).union(key_set(rest@)) == key_set(all),
            forall|e: T| #[trigger] out@.contains(e) ==> all.contains(e),
            forall|e: T| #[trigger] rest@.contains(e) ==> all.contains(e),
        decreases rest@.len(),
    {
        let ghost pre = rest@;
        let x = rest.pop().unwrap();
        assert(pre == rest@.push(x));
        proof {
            lemma_key_set_push(rest@, x);
            assert(pre.contains(x)) by {
                assert(pre[pre.len() - 1] == x);
            }
            assert forall|e: T| #[trigger] rest@.contains(e) implies all.contains(e) by {
                let j = choose|j: int| 0 <= j < rest@.len() && rest@[j] == e;
                assert(pre[j] == e);
                assert(pre.contains(e));
            }
        }
        if !contains_key(&out, x.key()) {
            let ghost pre_out = out@;
            out.push(x);
            proof {
                lemma_key_set_push(pre_out, x);
                assert forall|e: T| #[trigger] out@.contains(e) implies all.contains(e) by {
                    let j = choose|j: int| 0 <= j < out@.len() && out@[j] == e;
                    if j < pre_out.len() {
                        assert(pre_out[j] == e);
                        assert(pre_out.contains(e));
                    }
                }
            }
            assert(key_set(out@).union(key_set(rest@)) =~= key_set(all));
        } else {
            assert(key_set(out@).union(key_set(rest@)) =~= key_set(all));
        }
    }
    assert(key_set(rest@) =~= Set::empty());
    assert(key_set(out@) =~= key_set(all));
    out
}

/// Whether an entry is keyed `k`.
pub fn contains_key<T: Keyed>(v: &Vec<T>, k: &String) -> (r: bool)
    ensures
        r == key_set(v@).contains(k@),
{
    find_key(v, k).is_some()
}

/// Stores `x` under its key, in place of the entry that had that key.
pub fn insert_keyed<T: Keyed>(v: &mut Vec<T>, x: T)
    requires
        unique_keys(old(v)@),
    ensures
        unique_keys(final(v)@),
        key_set(final(v)@) == key_set(old(v)@).insert(x.key_of()),
        final(v)@.contains(x),
        forall|e: T| #[trigger] final(v)@.contains(e) ==> e == x || old(v)@.contains(e),
        forall|e: T|
            #[trigger] old(v)@.contains(e) && e.key_of() != x.key_of() ==> final(v)@.contains(e),
{
    let ghost k = x.key_of();
    let found = find_key(v, x.key());
    match found {
        Some(i) => {
            let ghost pre = v@;
            v.push(x);
            let _old_entry = v.swap_remove(i);
            assert(v@ == pre.update(i as int, x));
            assert(v@[i as int] == x);
            assert forall|e: T| #[trigger] v@.contains(e) implies e == x || pre.contains(e) by {
                let j = choose|j: int| 0 <= j < v@.len() && v@[j] == e;
                if j != i {
                    assert(pre[j] == e);
                }
            }
            assert forall|e: T| #[trigger] pre.contains(e) && e.key_of() != k implies v@.contains(
                e,
            ) by {
                let j = choose|j: int| 0 <= j < pre.len() && pre[j] == e;
                assert(v@[j] == e);
            }
            assert(key_set(v@) =~= key_set(pre).insert(k)) by {
                assert forall|kk: Seq<char>| key_set(pre).insert(k).contains(kk) implies key_set(
                    v@,
                ).contains(kk) by {
                    if kk != k {
                        let j = choose|j: int| 0 <= j < pre.len() && #[trigger] pre[j].key_of() == kk;
                        assert(v@[j].key_of() == kk);
                    } else {
                        assert(v@[i as int].key_of() == kk);
                    }
                }
                assert forall|kk: Seq<char>| key_set(v@).contains(kk) implies key_set(
                    pre,
                ).insert(k).contains(kk) by {
                    let j = choose|j: int| 0 <= j < v@.len() && #[trigger] v@[j].key_of() == kk;
                    if j != i {
                        assert(pre[j].key_of() == kk);
                    }
                }
            }
        },
        None => {
            let ghost pre = v@;
            v.push(x);
            assert(v@[pre.len() as int] == x);
            assert forall|e: T| #[trigger] v@.contains(e) implies e == x || pre.contains(e) by {
                let j = choose|j: int| 0 <= j < v@.len() && v@[j] == e;
                if j < pre.len() {
                    assert(pre[j] == e);
                }
            }
            assert forall|e: T| #[trigger] pre.contains(e) && e.key_of() != k implies v@.contains(
                e,
            ) by {
                let j = choose|j: int| 0 <= j < pre.len() && pre[j] == e;
                assert(v@[j] == e);
            }
            assert(key_set(v@) =~= key_set(pre).insert(k)) by {
                assert forall|kk: Seq<char>| key_set(pre).insert(k).contains(kk) implies key_set(
                    v@,
                ).contains(kk) by {
                    if kk != k {
                        let j = choose|j: int| 0 <= j < pre.len() && #[trigger] pre[j].key_of() == kk;
                        assert(v@[j].key_of() == kk);
                    } else {
                        assert(v@[pre.len() as int].key_of() == kk);
                    }
                }
                assert forall|kk: Seq<char>| key_set(v@).contains(kk) implies key_set(
                    pre,
                ).insert(k).contains(kk) by {
                    let j = choose|j: int| 0 <= j < v@.len() && #[trigger] v@[j].key_of() == kk;
                    if j < pre.len() {
                        assert(pre[j].key_of() == kk);
                    }
                }
            }
        },
    }
}

/// Removes the entry keyed `k`, if there is one.
pub fn remove_keyed<T: Keyed>(v: &mut Vec<T>, k: &String)
    requires
        unique_keys(old(v)@),
    ensures
        unique_keys(final(v)@),
        key_set(final(v)@) == key_set(old(v)@).remove(k@),
        forall|e: T| #[trigger] final(v)@.contains(e) ==> old(v)@.contains(e),
        forall|e: T| #[trigger] old(v)@.contains(e) && e.key_of() != k@ ==> final(v)@.contains(e),
{
    match find_key(v, k) {
        Some(i) => {
            let ghost pre = v@;
            let _entry = v.remove(i);
            assert(v@ == pre.remove(i as int));
            assert forall|e: T| #[trigger] v@.contains(e) implies pre.contains(e) by {
                let j = choose|j: int| 0 <= j < v@.len() && v@[j] == e;
                if j < i {
                    assert(pre[j] == e);
                } else {
                    assert(pre[j + 1] == e);
                }
            }
            assert forall|e: T| #[trigger] pre.contains(e) && e.key_of() != k@ implies v@.contains(
                e,
            ) by {
                let j = choose|j: int| 0 <= j < pre.len() && pre[j] == e;
                if j < i {
                    assert(v@[j] == e);
                } else {
                    assert(j != i);
                    assert(v@[j - 1] == e);
                }
            }
            assert(key_set(v@) =~= key_set(pre).remove(k@)) by {
                assert forall|kk: Seq<char>| key_set(pre).remove(k@).contains(kk) implies key_set(
                    v@,
                ).contains(kk) by {
                    let j = choose|j: int| 0 <= j < pre.len() && #[trigger] pre[j].key_of() == kk;
                    if j < i {
                        assert(v@[j].key_of() == kk);
                    } else {
                        assert(v@[j - 1].key_of() == kk);
                    }
                }
                assert forall|kk: Seq<char>| key_set(v@).contains(kk) implies key_set(
                    pre,
                ).remove(k@).contains(kk) by {
                    let j = choose|j: int| 0 <= j < v@.len() && #[trigger] v@[j].key_of() == kk;
                    if j < i {
                        assert(pre[j].key_of() == kk);
                    } else {
                        assert(pre[j + 1].key_of() == kk);
                    }
                }
            }
        },
        None => {
            assert(key_set(v@) =~= key_set(v@).remove(k@));
        },
    }
}

/// Some string of `v` reads `s`.
pub open spec fn strings_contain(v: Seq<String>, s: Seq<char>) -> bool {
    exists|j: int| 0 <= j < v.len() && #[trigger] v[j]@ == s
}

/// Whether some string of `v` equals `s`.
pub fn contains_string(v: &Vec<String>, s: &String) -> (r: bool)
    ensures
        r == strings_contain(v@, s@),
{
    let mut i: usize = 0;
    while i < v.len()
        invariant
            i <= v@.len(),
            forall|j: int| 0 <= j < i ==> #[trigger] v@[j]@ != s@,
        decreases v@.len() - i,
    {
        if v[i].eq(s) {
            return true;
        }
        i = i + 1;
    }
    false
}

} // verus!

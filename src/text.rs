//! Prefix tests and pattern replacement on strings, character by character.

use vstd::prelude::*;

verus! {

/// `p` is a prefix of `s`.
pub open spec fn is_prefix(p: Seq<char>, s: Seq<char>) -> bool {
    p.len() <= s.len() && s.subrange(0, p.len() as int) == p
}

/// Whether `s` begins with `p`.
pub fn starts_with(s: &str, p: &str) -> (r: bool)
    ensures
        r == is_prefix(p@, s@),
{
    let n = s.unicode_len();
    let m = p.unicode_len();
    if m > n {
        return false;
    }
    let mut i: usize = 0;
    while i < m
        invariant
            m == p@.len(),
            n == s@.len(),
            m <= n,
            i <= m,
            forall|j: int| 0 <= j < i ==> s@[j] == p@[j],
        decreases m - i,
    {
        if s.get_char(i) != p.get_char(i) {
            assert(s@.subrange(0, m as int)[i as int] != p@[i as int]);
            return false;
        }
        i = i + 1;
    }
    assert(s@.subrange(0, m as int) =~= p@);
    true
}

/// What follows the prefix `p` in `s`, if `s` begins with it.
pub fn strip_prefix<'a>(s: &'a str, p: &str) -> (r: Option<&'a str>)
    ensures
        r matches Some(rest) ==> is_prefix(p@, s@) && rest@ == s@.subrange(p@.len() as int, s@.len() as int),
        r is None ==> !is_prefix(p@, s@),
{
    if starts_with(s, p) {
        let n = s.unicode_len();
        let m = p.unicode_len();
        Some(s.substring_char(m, n))
    } else {
        None
    }
}

/// `s` with every match of `p` replaced by `w`, matches taken from the left
/// without overlapping.
pub open spec fn replaced(s: Seq<char>, p: Seq<char>, w: Seq<char>) -> Seq<char>
    decreases s.len(),
{
    if p.len() == 0 || s.len() < p.len() {
        s
    } else if s.subrange(0, p.len() as int) == p {
        w + replaced(s.subrange(p.len() as int, s.len() as int), p, w)
    } else {
        seq![s[0]] + replaced(s.subrange(1, s.len() as int), p, w)
    }
}

/// Replaces every match of the non-empty pattern `p` in `s` by `w`.
pub fn replace_all(s: &str, p: &str, w: &str) -> (r: String)
    requires
        p@.len() > 0,
    ensures
        r@ == replaced(s@, p@, w@),
{
    let n = s.unicode_len();
    let m = p.unicode_len();
    let mut out = String::new();
    let mut i: usize = 0;
    assert(s@.subrange(0, n as int) =~= s@);
    assert(out@ + replaced(s@, p@, w@) =~= replaced(s@, p@, w@));
    while i < n
        invariant
            n == s@.len(),
            m == p@.len(),
            m > 0,
            i <= n,
            out@ + replaced(s@.subrange(i as int, n as int), p@, w@) == replaced(s@, p@, w@),
        decreases n - i,
    {
        let ghost rest = s@.subrange(i as int, n as int);
        let tail = s.substring_char(i, n);
        if m <= n - i && starts_with(tail, p) {
            assert(rest.subrange(0, m as int) == p@);
            assert(rest.subrange(m as int, rest.len() as int) =~= s@.subrange(i + m, n as int));
            out.append(w);
            assert(out@ + replaced(s@.subrange(i + m, n as int), p@, w@) =~= replaced(s@, p@, w@));
            i = i + m;
        } else {
            let one = s.substring_char(i, i + 1);
            assert(rest.subrange(1, rest.len() as int) =~= s@.subrange(i + 1, n as int));
            proof {
                if rest.len() < m {
                    assert(replaced(s@.subrange(i + 1, n as int), p@, w@) == s@.subrange(i + 1, n as int));
                    assert(rest =~= seq![rest[0]] + s@.subrange(i + 1, n as int));
                }
            }
            out.append(one);
            assert(one@ =~= seq![rest[0]]);
            assert(out@ + replaced(s@.subrange(i + 1, n as int), p@, w@) =~= replaced(s@, p@, w@));
            i = i + 1;
        }
    }
    assert(s@.subrange(n as int, n as int) =~= Seq::<char>::empty());
    assert(out@ =~= replaced(s@, p@, w@));
    out
}

/// `s` without its leading `c` characters.
pub open spec fn trimmed_start(s: Seq<char>, c: char) -> Seq<char>
    decreases s.len(),
{
    if s.len() > 0 && s[0] == c {
        trimmed_start(s.subrange(1, s.len() as int), c)
    } else {
        s
    }
}

/// Drops the leading `c` characters of `s`.
pub fn trim_start_char(s: &str, c: char) -> (r: &str)
    ensures
        r@ == trimmed_start(s@, c),
{
    let n = s.unicode_len();
    let mut i: usize = 0;
    assert(s@.subrange(0, n as int) =~= s@);
    while i < n && s.get_char(i) == c
        invariant
            n == s@.len(),
            i <= n,
            trimmed_start(s@.subrange(i as int, n as int), c) == trimmed_start(s@, c),
        decreases n - i,
    {
        assert(s@.subrange(i as int, n as int).subrange(1, n - i) =~= s@.subrange(i + 1, n as int));
        i = i + 1;
    }
    s.substring_char(i, n)
}

} // verus!

//! Association tables keyed by strings.
//!
//! The resolution stages join their results by identifier. A table is a
//! vector of (key, value) pairs looked up by key; when a key occurs
//! twice, the first occurrence wins. Keys are compared by their
//! character content.

use vstd::prelude::*;

verus! {

/// First value bound to key `k` in `m`, comparing keys by content.
pub open spec fn lookup<V>(m: Seq<(String, V)>, k: Seq<char>) -> Option<V>
    decreases m.len(),
{
    if m.len() == 0 {
        None
    } else if m[0].0@ == k {
        Some(m[0].1)
    } else {
        lookup(m.drop_first(), k)
    }
}

/// First value bound to the composite key `(k0, k1)` in `m`.
pub open spec fn lookup_pair<V>(m: Seq<((String, String), V)>, k0: Seq<char>, k1: Seq<char>) -> Option<
    V,
>
    decreases m.len(),
{
    if m.len() == 0 {
        None
    } else if m[0].0.0@ == k0 && m[0].0.1@ == k1 {
        Some(m[0].1)
    } else {
        lookup_pair(m.drop_first(), k0, k1)
    }
}

/// A lookup passes over a prefix in which no key matches.
proof fn lemma_lookup_skip<V>(m: Seq<(String, V)>, k: Seq<char>, i: int)
    requires
        0 <= i <= m.len(),
        forall|j: int| 0 <= j < i ==> #[trigger] m[j].0@ != k,
    ensures
        lookup(m, k) == lookup(m.skip(i), k),
    decreases i,
{
    if i > 0 {
        lemma_lookup_skip(m, k, i - 1);
        assert(m.skip(i - 1)[0] == m[i - 1]);
        assert(m.skip(i - 1).drop_first() =~= m.skip(i));
    } else {
        assert(m.skip(0) =~= m);
    }
}

/// Same, for composite keys.
proof fn lemma_lookup_pair_skip<V>(
    m: Seq<((String, String), V)>,
    k0: Seq<char>,
    k1: Seq<char>,
    i: int,
)
    requires
        0 <= i <= m.len(),
        forall|j: int| 0 <= j < i ==> !(#[trigger] m[j].0.0@ == k0 && m[j].0.1@ == k1),
    ensures
        lookup_pair(m, k0, k1) == lookup_pair(m.skip(i), k0, k1),
    decreases i,
{
    if i > 0 {
        lemma_lookup_pair_skip(m, k0, k1, i - 1);
        assert(m.skip(i - 1)[0] == m[i - 1]);
        assert(m.skip(i - 1).drop_first() =~= m.skip(i));
    } else {
        assert(m.skip(0) =~= m);
    }
}

/// A lookup misses exactly when no key of the table has the content
/// looked for.
pub proof fn lemma_lookup_none<V>(m: Seq<(String, V)>, k: Seq<char>)
    ensures
        lookup(m, k) is None <==> (forall|j: int|
            0 <= j < m.len() ==> (#[trigger] m[j]).0@ != k),
    decreases m.len(),
{
    if m.len() > 0 {
        let tail = m.drop_first();
        lemma_lookup_none(tail, k);
        assert(forall|j: int| 0 <= j < tail.len() ==> #[trigger] tail[j] == m[j + 1]);
        if m[0].0@ == k {
        } else {
            if lookup(tail, k) is None {
                assert forall|j: int| 0 <= j < m.len() implies (#[trigger] m[j]).0@ != k by {
                    if j > 0 {
                        assert(tail[j - 1] == m[j]);
                    }
                }
            } else {
                let j0 = choose|j: int| 0 <= j < tail.len() && (#[trigger] tail[j]).0@ == k;
                assert(m[j0 + 1].0@ == k);
            }
        }
    }
}

/// Whether any string of `s` has the character content `k`.
pub open spec fn contains_str(s: Seq<String>, k: Seq<char>) -> bool {
    exists|j: int| 0 <= j < s.len() && (#[trigger] s[j])@ == k
}

/// No two strings of `s` share their character content.
pub open spec fn distinct_contents(s: Seq<String>) -> bool {
    forall|i: int, j: int| 0 <= i < j < s.len() ==> (#[trigger] s[i])@ != (#[trigger] s[j])@
}

/// The first occurrence of each content in `s`, in order of first
/// appearance.
pub open spec fn first_occurrences(s: Seq<String>) -> Seq<String>
    decreases s.len(),
{
    if s.len() == 0 {
        Seq::empty()
    } else if contains_str(s.drop_last(), s.last()@) {
        first_occurrences(s.drop_last())
    } else {
        first_occurrences(s.drop_last()).push(s.last())
    }
}

/// The first occurrences keep exactly the contents of `s`, each once.
pub proof fn lemma_first_occurrences(s: Seq<String>)
    ensures
        distinct_contents(first_occurrences(s)),
        forall|c: Seq<char>| contains_str(first_occurrences(s), c) <==> contains_str(s, c),
    decreases s.len(),
{
    if s.len() > 0 {
        let pre = s.drop_last();
        let fp = first_occurrences(pre);
        let fs = first_occurrences(s);
        lemma_first_occurrences(pre);
        assert(s[s.len() - 1] == s.last());
        if !contains_str(pre, s.last()@) {
            assert(forall|i: int| 0 <= i < fp.len() ==> (#[trigger] fp[i])@ != s.last()@);
            assert(distinct_contents(fp.push(s.last())));
        }
        assert forall|c: Seq<char>| contains_str(fs, c) <==> contains_str(s, c) by {
            assert(contains_str(fp, c) <==> contains_str(pre, c));
            if contains_str(fs, c) {
                let j = choose|j: int| 0 <= j < fs.len() && (#[trigger] fs[j])@ == c;
                if contains_str(pre, s.last()@) || j < fp.len() {
                    assert(fs[j] == fp[j]);
                    assert(contains_str(fp, c));
                    assert(contains_str(pre, c));
                    let t = choose|t: int| 0 <= t < pre.len() && (#[trigger] pre[t])@ == c;
                    assert(s[t] == pre[t]);
                    assert(contains_str(s, c));
                } else {
                    assert(fs[j] == s.last());
                    assert((#[trigger] s[s.len() - 1])@ == c);
                    assert(contains_str(s, c));
                }
            }
            if contains_str(s, c) {
                let j = choose|j: int| 0 <= j < s.len() && (#[trigger] s[j])@ == c;
                if j < s.len() - 1 {
                    assert(pre[j] == s[j]);
                    assert(contains_str(pre, c));
                }
                if contains_str(pre, c) {
                    assert(contains_str(fp, c));
                    let t = choose|t: int| 0 <= t < fp.len() && (#[trigger] fp[t])@ == c;
                    if !contains_str(pre, s.last()@) {
                        assert(fs[t] == fp[t]);
                    }
                    assert(contains_str(fs, c));
                } else {
                    assert(s.last()@ == c);
                    assert(contains_str(pre, s.last()@) == contains_str(pre, c));
                    assert(fs[fp.len() as int] == s.last());
                    assert(contains_str(fs, c));
                }
            }
        }
    }
}

/// Whether any string of `v` has the character content of `*k`.
pub fn has_str(v: &Vec<String>, k: &String) -> (r: bool)
    ensures
        r == contains_str(v@, k@),
{
    let mut i: usize = 0;
    while i < v.len()
        invariant
            0 <= i <= v@.len(),
            forall|j: int| 0 <= j < i ==> (#[trigger] v@[j])@ != k@,
        decreases v@.len() - i,
    {
        if v[i] == *k {
            return true;
        }
        i += 1;
    }
    false
}

/// Reference to the first value bound to `*k` in `m`, if any.
pub fn get<'a, V>(m: &'a Vec<(String, V)>, k: &String) -> (r: Option<&'a V>)
    ensures
        match r {
            Some(v) => lookup(m@, k@) == Some(*v),
            None => lookup(m@, k@) is None,
        },
{
    let mut i: usize = 0;
    while i < m.len()
        invariant
            0 <= i <= m@.len(),
            forall|j: int| 0 <= j < i ==> (#[trigger] m@[j]).0@ != k@,
        decreases m@.len() - i,
    {
        if m[i].0 == *k {
            proof {
                lemma_lookup_skip(m@, k@, i as int);
                assert(m@.skip(i as int)[0] == m@[i as int]);
            }
            return Some(&m[i].1);
        }
        i += 1;
    }
    proof {
        lemma_lookup_skip(m@, k@, m@.len() as int);
        assert(m@.skip(m@.len() as int) =~= Seq::<(String, V)>::empty());
    }
    None
}

/// Reference to the first value bound to the composite key `(*k0, *k1)`
/// in `m`, if any.
pub fn get_pair<'a, V>(m: &'a Vec<((String, String), V)>, k0: &String, k1: &String) -> (r: Option<
    &'a V,
>)
    ensures
        match r {
            Some(v) => lookup_pair(m@, k0@, k1@) == Some(*v),
            None => lookup_pair(m@, k0@, k1@) is None,
        },
{
    let mut i: usize = 0;
    while i < m.len()
        invariant
            0 <= i <= m@.len(),
            forall|j: int| 0 <= j < i ==> !((#[trigger] m@[j]).0.0@ == k0@ && m@[j].0.1@ == k1@),
        decreases m@.len() - i,
    {
        if m[i].0.0 == *k0 && m[i].0.1 == *k1 {
            proof {
                lemma_lookup_pair_skip(m@, k0@, k1@, i as int);
                assert(m@.skip(i as int)[0] == m@[i as int]);
            }
            return Some(&m[i].1);
        }
        i += 1;
    }
    proof {
        lemma_lookup_pair_skip(m@, k0@, k1@, m@.len() as int);
        assert(m@.skip(m@.len() as int) =~= Seq::<((String, String), V)>::empty());
    }
    None
}

} // verus!



//! Keyed tables held as logs of `(key, value)` entries, where the latest
//! entry for a key is its current value.
use vstd::prelude::*;

verus! {

/// The current value of `k` in the log `s`: the value of its latest entry.
pub open spec fn lookup<K, V>(s: Seq<(K, V)>, k: K) -> Option<V>
    decreases s.len(),
{
    if s.len() == 0 {
        None
    } else if s.last().0 == k {
        Some(s.last().1)
    } else {
        lookup(s.drop_last(), k)
    }
}

/// Appending an entry makes it the current value of its key and leaves the
/// other keys alone.
pub proof fn lemma_lookup_push<K, V>(s: Seq<(K, V)>, e: (K, V), k: K)
    ensures
        lookup(s.push(e), k) == (if e.0 == k { Some(e.1) } else { lookup(s, k) }),
{
    assert(s.push(e).drop_last() =~= s);
}

/// Appending a log whose keys are all different from `k` keeps the value of `k`.
pub proof fn lemma_lookup_append_other<K, V>(s: Seq<(K, V)>, t: Seq<(K, V)>, k: K)
    requires
        forall|i: int| 0 <= i < t.len() ==> t[i].0 != k,
    ensures
        lookup(s + t, k) == lookup(s, k),
    decreases t.len(),
{
    if t.len() == 0 {
        assert(s + t =~= s);
    } else {
        assert((s + t).drop_last() =~= s + t.drop_last());
        lemma_lookup_append_other(s, t.drop_last(), k);
    }
}

/// After appending a log whose last entry for `k` is at position `j`, that
/// entry is the current value of `k`.
pub proof fn lemma_lookup_append_at<K, V>(s: Seq<(K, V)>, t: Seq<(K, V)>, k: K, j: int)
    requires
        0 <= j < t.len(),
        t[j].0 == k,
        forall|m: int| j < m < t.len() ==> t[m].0 != k,
    ensures
        lookup(s + t, k) == Some(t[j].1),
    decreases t.len(),
{
    if j < t.len() - 1 {
        assert((s + t).drop_last() =~= s + t.drop_last());
        lemma_lookup_append_at(s, t.drop_last(), k, j);
    }
}

/// Dropping every entry for `k` (those that `keep` refuses) keeps the value
/// of every other key.
pub proof fn lemma_lookup_filter_other<K, V>(
    s: Seq<(K, V)>,
    keep: spec_fn((K, V)) -> bool,
    k: K,
    k2: K,
)
    requires
        k2 != k,
        forall|e: (K, V)| #[trigger] keep(e) == (e.0 != k),
    ensures
        lookup(s.filter(keep), k2) == lookup(s, k2),
    decreases s.len(),
{
    reveal(Seq::filter);
    if s.len() > 0 {
        lemma_lookup_filter_other(s.drop_last(), keep, k, k2);
        let f = s.drop_last().filter(keep);
        if s.last().0 != k {
            lemma_lookup_push(f, s.last(), k2);
        }
    }
}

/// Looking `k` up in a log that holds it yields one of its entries.
pub proof fn lemma_lookup_some<K, V>(s: Seq<(K, V)>, k: K)
    requires
        lookup(s, k) is Some,
    ensures
        exists|i: int| 0 <= i < s.len() && s[i] == (k, lookup(s, k)->0),
    decreases s.len(),
{
    if s.last().0 == k {
        assert(s[s.len() - 1] == (k, lookup(s, k)->0));
    } else {
        lemma_lookup_some(s.drop_last(), k);
        let i = choose|i: int|
            0 <= i < s.drop_last().len() && s.drop_last()[i] == (k, lookup(s.drop_last(), k)->0);
        assert(s[i] == (k, lookup(s, k)->0));
    }
}

/// A key that has an entry in the log has a current value.
pub proof fn lemma_lookup_present<K, V>(s: Seq<(K, V)>, k: K, i: int)
    requires
        0 <= i < s.len(),
        s[i].0 == k,
    ensures
        lookup(s, k) is Some,
    decreases s.len(),
{
    if s.last().0 != k {
        lemma_lookup_present(s.drop_last(), k, i);
    }
}

/// The position of the latest entry for `k` in `s`, if there is one.
pub fn find_latest<V>(s: &Vec<(u64, V)>, k: u64) -> (r: Option<usize>)
    ensures
        match r {
            Some(i) => i < s@.len() && s@[i as int].0 == k && lookup(s@, k) == Some(s@[i as int].1),
            None => lookup(s@, k) is None,
        },
{
    let mut i: usize = s.len();
    assert(s@.subrange(0, i as int) =~= s@);
    while i > 0
        invariant
            i <= s@.len(),
            lookup(s@, k) == lookup(s@.subrange(0, i as int), k),
        decreases i,
    {
        let ghost prefix = s@.subrange(0, i as int);
        assert(prefix.drop_last() =~= s@.subrange(0, i - 1));
        if s[i - 1].0 == k {
            return Some(i - 1);
        }
        i = i - 1;
    }
    assert(s@.subrange(0, 0).len() == 0);
    None
}

/// The position of the latest entry for the pair key `k` in `s`, if there is one.
pub fn find_latest_pair<V>(s: &Vec<((u64, u64), V)>, k: (u64, u64)) -> (r: Option<usize>)
    ensures
        match r {
            Some(i) => i < s@.len() && s@[i as int].0 == k && lookup(s@, k) == Some(s@[i as int].1),
            None => lookup(s@, k) is None,
        },
{
    let mut i: usize = s.len();
    assert(s@.subrange(0, i as int) =~= s@);
    while i > 0
        invariant
            i <= s@.len(),
            lookup(s@, k) == lookup(s@.subrange(0, i as int), k),
        decreases i,
    {
        let ghost prefix = s@.subrange(0, i as int);
        assert(prefix.drop_last() =~= s@.subrange(0, i - 1));
        let e = &s[i - 1];
        if e.0.0 == k.0 && e.0.1 == k.1 {
            return Some(i - 1);
        }
        i = i - 1;
    }
    assert(s@.subrange(0, 0).len() == 0);
    None
}

} // verus!

verus! {

/// Renaming keys one-to-one and mapping values commutes with lookup.
pub proof fn lemma_lookup_map<K, V, L, W>(
    s: Seq<(K, V)>,
    fk: spec_fn(K) -> L,
    fv: spec_fn(V) -> W,
    k: K,
)
    requires
        forall|a: K, b: K| #[trigger] fk(a) == #[trigger] fk(b) ==> a == b,
    ensures
        lookup(s.map_values(|e: (K, V)| (fk(e.0), fv(e.1))), fk(k)) == match lookup(s, k) {
            Some(v) => Some(fv(v)),
            None => None,
        },
    decreases s.len(),
{
    let m = s.map_values(|e: (K, V)| (fk(e.0), fv(e.1)));
    if s.len() > 0 {
        assert(m.drop_last() =~= s.drop_last().map_values(|e: (K, V)| (fk(e.0), fv(e.1))));
        lemma_lookup_map(s.drop_last(), fk, fv, k);
        if s.last().0 != k {
            assert(fk(s.last().0) != fk(k));
        }
    }
}

} // verus!

//! Association sequences: a `Seq<(u32, V)>` read as a finite map from
//! IPv4 addresses to values.
//!
//! Both the shared accumulator's per-endpoint deltas and the aggregator's
//! tracker table are vectors of key/value pairs whose keys are unique.
//! The spec functions here give such a vector its map reading, and the
//! lemmas relate that reading to the pushes and in-place updates the
//! executable code performs.

use vstd::prelude::*;

verus! {

/// First-match lookup of `k` in the association sequence `s`.
pub open spec fn al_get<V>(s: Seq<(u32, V)>, k: u32) -> Option<V>
    decreases s.len(),
{
    if s.len() == 0 {
        None
    } else if s[0].0 == k {
        Some(s[0].1)
    } else {
        al_get(s.drop_first(), k)
    }
}

/// Whether `k` is bound in `s`.
pub open spec fn al_has<V>(s: Seq<(u32, V)>, k: u32) -> bool {
    al_get(s, k) is Some
}

/// Index of the first binding of `k` in `s`; meaningful only when
/// `al_has(s, k)`.
pub open spec fn al_index<V>(s: Seq<(u32, V)>, k: u32) -> int
    decreases s.len(),
{
    if s.len() == 0 {
        0
    } else if s[0].0 == k {
        0
    } else {
        1 + al_index(s.drop_first(), k)
    }
}

/// No address is bound twice.
pub open spec fn al_unique<V>(s: Seq<(u32, V)>) -> bool {
    forall|i: int, j: int| 0 <= i < j < s.len() ==> s[i].0 != s[j].0
}

/// A key is bound exactly when some pair carries it.
pub proof fn lemma_al_get_exists<V>(s: Seq<(u32, V)>, k: u32)
    ensures
        al_has(s, k) <==> exists|i: int| 0 <= i < s.len() && s[i].0 == k,
    decreases s.len(),
{
    if s.len() > 0 && s[0].0 != k {
        lemma_al_get_exists(s.drop_first(), k);
        if al_has(s, k) {
            let i = choose|i: int| 0 <= i < s.drop_first().len() && s.drop_first()[i].0 == k;
            assert(s[i + 1].0 == k);
        }
        if exists|i: int| 0 <= i < s.len() && s[i].0 == k {
            let i = choose|i: int| 0 <= i < s.len() && s[i].0 == k;
            assert(s.drop_first()[i - 1].0 == k);
        }
    }
}

/// The first pair carrying `k` decides both the lookup and the index.
pub proof fn lemma_al_get_first_match<V>(s: Seq<(u32, V)>, k: u32, i: int)
    requires
        0 <= i < s.len(),
        s[i].0 == k,
        forall|j: int| 0 <= j < i ==> s[j].0 != k,
    ensures
        al_get(s, k) == Some(s[i].1),
        al_index(s, k) == i,
    decreases i,
{
    if i > 0 {
        assert(s.drop_first()[i - 1] == s[i]);
        assert forall|j: int| 0 <= j < i - 1 implies s.drop_first()[j].0 != k by {
            assert(s.drop_first()[j] == s[j + 1]);
        }
        lemma_al_get_first_match(s.drop_first(), k, i - 1);
    }
}

/// Under unique keys, any pair carrying `k` decides the lookup.
pub proof fn lemma_al_get_at<V>(s: Seq<(u32, V)>, k: u32, i: int)
    requires
        al_unique(s),
        0 <= i < s.len(),
        s[i].0 == k,
    ensures
        al_get(s, k) == Some(s[i].1),
        al_index(s, k) == i,
{
    assert forall|j: int| 0 <= j < i implies s[j].0 != k by {
        assert(s[j].0 != s[i].0);
    }
    lemma_al_get_first_match(s, k, i);
}

/// Pushing a fresh key binds it and leaves every other key alone.
pub proof fn lemma_al_push<V>(s: Seq<(u32, V)>, p: (u32, V))
    requires
        al_unique(s),
        !al_has(s, p.0),
    ensures
        al_unique(s.push(p)),
        al_get(s.push(p), p.0) == Some(p.1),
        forall|k: u32| k != p.0 ==> al_get(s.push(p), k) == al_get(s, k),
{
    let t = s.push(p);
    lemma_al_get_exists(s, p.0);
    assert forall|i: int, j: int| 0 <= i < j < t.len() implies t[i].0 != t[j].0 by {
        if j == s.len() {
            assert(t[i] == s[i]);
        }
    }
    lemma_al_get_at(t, p.0, s.len() as int);
    assert forall|k: u32| k != p.0 implies al_get(t, k) == al_get(s, k) by {
        lemma_al_get_exists(s, k);
        lemma_al_get_exists(t, k);
        if al_has(s, k) {
            let i = choose|i: int| 0 <= i < s.len() && s[i].0 == k;
            assert(t[i] == s[i]);
            lemma_al_get_at(s, k, i);
            lemma_al_get_at(t, k, i);
        } else {
            if al_has(t, k) {
                let i = choose|i: int| 0 <= i < t.len() && t[i].0 == k;
                assert(i == s.len());
            }
        }
    }
}

/// Rebinding the pair at `i` to the same key changes that key's value
/// and leaves every other key alone.
pub proof fn lemma_al_update<V>(s: Seq<(u32, V)>, i: int, p: (u32, V))
    requires
        al_unique(s),
        0 <= i < s.len(),
        s[i].0 == p.0,
    ensures
        al_unique(s.update(i, p)),
        al_get(s.update(i, p), p.0) == Some(p.1),
        forall|k: u32| k != p.0 ==> al_get(s.update(i, p), k) == al_get(s, k),
{
    let t = s.update(i, p);
    assert forall|a: int, b: int| 0 <= a < b < t.len() implies t[a].0 != t[b].0 by {
        assert(t[a].0 == s[a].0 && t[b].0 == s[b].0);
    }
    lemma_al_get_at(t, p.0, i);
    assert forall|k: u32| k != p.0 implies al_get(t, k) == al_get(s, k) by {
        lemma_al_get_exists(s, k);
        lemma_al_get_exists(t, k);
        if al_has(s, k) {
            let j = choose|j: int| 0 <= j < s.len() && s[j].0 == k;
            assert(t[j] == s[j]);
            lemma_al_get_at(s, k, j);
            lemma_al_get_at(t, k, j);
        } else {
            if al_has(t, k) {
                let j = choose|j: int| 0 <= j < t.len() && t[j].0 == k;
                assert(s[j].0 == k);
            }
        }
    }
}

} // verus!

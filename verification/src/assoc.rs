//! Association lists and the finite maps they denote.
//!
//! Every collection of the state machine is held as a vector of
//! `(key, value)` pairs with pairwise-distinct keys; contracts speak of the
//! `Map` such a vector denotes. This module defines that denotation and
//! proves how it evolves under `push`, in-place update, and filtering.

use vstd::prelude::*;

verus! {

/// The map denoted by an association list. A later entry with the same key
/// would override an earlier one; under [`unique_keys`] the question does
/// not arise.
pub open spec fn map_of<K, V>(s: Seq<(K, V)>) -> Map<K, V>
    decreases s.len(),
{
    if s.len() == 0 {
        Map::empty()
    } else {
        map_of(s.drop_last()).insert(s.last().0, s.last().1)
    }
}

/// No two entries of the list share a key.
pub open spec fn unique_keys<K, V>(s: Seq<(K, V)>) -> bool {
    forall|i: int, j: int| 0 <= i < j < s.len() ==> (#[trigger] s[i]).0 != (#[trigger] s[j]).0
}

/// A key is in the denoted map exactly when some entry carries it.
pub proof fn lemma_map_of_contains<K, V>(s: Seq<(K, V)>, k: K)
    ensures
        map_of(s).contains_key(k) <==> exists|i: int| 0 <= i < s.len() && (#[trigger] s[i]).0 == k,
    decreases s.len(),
{
    if s.len() == 0 {
    } else {
        let dl = s.drop_last();
        lemma_map_of_contains(dl, k);
        if s.last().0 == k {
            assert(s[s.len() - 1].0 == k);
        } else {
            if map_of(s).contains_key(k) {
                let i = choose|i: int| 0 <= i < dl.len() && (#[trigger] dl[i]).0 == k;
                assert(s[i].0 == k);
            }
            if exists|i: int| 0 <= i < s.len() && (#[trigger] s[i]).0 == k {
                let i = choose|i: int| 0 <= i < s.len() && (#[trigger] s[i]).0 == k;
                assert(i < s.len() - 1);
                assert(dl[i].0 == k);
            }
        }
    }
}

/// Under unique keys, each entry is reflected verbatim in the denoted map.
pub proof fn lemma_map_of_index<K, V>(s: Seq<(K, V)>, i: int)
    requires
        unique_keys(s),
        0 <= i < s.len(),
    ensures
        map_of(s).contains_key(s[i].0),
        map_of(s)[s[i].0] == s[i].1,
    decreases s.len(),
{
    if i == s.len() - 1 {
    } else {
        let dl = s.drop_last();
        assert(unique_keys(dl));
        assert(dl[i] == s[i]);
        lemma_map_of_index(dl, i);
        assert(s[i].0 != s.last().0);
    }
}

/// The denoted map has a finite domain, of one key per entry when keys are
/// unique.
pub proof fn lemma_map_of_len<K, V>(s: Seq<(K, V)>)
    requires
        unique_keys(s),
    ensures
        map_of(s).dom().finite(),
        map_of(s).dom().len() == s.len(),
    decreases s.len(),
{
    if s.len() == 0 {
    } else {
        let dl = s.drop_last();
        assert(unique_keys(dl));
        lemma_map_of_len(dl);
        lemma_map_of_contains(dl, s.last().0);
        assert(forall|i: int| 0 <= i < dl.len() ==> (#[trigger] dl[i]).0 != s.last().0);
        vstd::set::axiom_set_insert_len(map_of(dl).dom(), s.last().0);
    }
}

/// Appending an entry inserts its binding into the denoted map.
pub proof fn lemma_map_of_push<K, V>(s: Seq<(K, V)>, e: (K, V))
    ensures
        map_of(s.push(e)) == map_of(s).insert(e.0, e.1),
{
    assert(s.push(e).drop_last() =~= s);
    assert(s.push(e).last() == e);
}

/// Appending an entry with a fresh key preserves key uniqueness.
pub proof fn lemma_unique_push<K, V>(s: Seq<(K, V)>, e: (K, V))
    requires
        unique_keys(s),
        !map_of(s).contains_key(e.0),
    ensures
        unique_keys(s.push(e)),
{
    lemma_map_of_contains(s, e.0);
    let t = s.push(e);
    assert forall|i: int, j: int| 0 <= i < j < t.len() implies (#[trigger] t[i]).0 != (
    #[trigger] t[j]).0 by {
        if j < s.len() {
            assert(t[i] == s[i] && t[j] == s[j]);
        } else {
            assert(t[i] == s[i] && t[j] == e);
        }
    }
}

/// Overwriting an entry in place, key unchanged, inserts the new binding
/// into the denoted map and preserves key uniqueness.
pub proof fn lemma_map_of_update<K, V>(s: Seq<(K, V)>, i: int, e: (K, V))
    requires
        unique_keys(s),
        0 <= i < s.len(),
        s[i].0 == e.0,
    ensures
        unique_keys(s.update(i, e)),
        map_of(s.update(i, e)) == map_of(s).insert(e.0, e.1),
    decreases s.len(),
{
    let t = s.update(i, e);
    assert forall|p: int, q: int| 0 <= p < q < t.len() implies (#[trigger] t[p]).0 != (
    #[trigger] t[q]).0 by {
        assert(t[p].0 == s[p].0 && t[q].0 == s[q].0);
    }
    if i == s.len() - 1 {
        assert(t.drop_last() =~= s.drop_last());
        assert(t.last() == e);
        assert(map_of(t) == map_of(s.drop_last()).insert(e.0, e.1));
        assert(map_of(s).insert(e.0, e.1) =~= map_of(s.drop_last()).insert(e.0, e.1));
    } else {
        let dl = s.drop_last();
        assert(unique_keys(dl));
        assert(dl[i] == s[i]);
        lemma_map_of_update(dl, i, e);
        assert(t.drop_last() =~= dl.update(i, e));
        assert(t.last() == s.last());
        assert(map_of(t) == map_of(dl).insert(e.0, e.1).insert(s.last().0, s.last().1));
        assert(s[i].0 != s.last().0);
        assert(map_of(dl).insert(e.0, e.1).insert(s.last().0, s.last().1) =~= map_of(
            dl,
        ).insert(s.last().0, s.last().1).insert(e.0, e.1));
    }
}

/// Every element of a filtered sequence is an element of the original.
pub proof fn lemma_filter_subset<T>(s: Seq<T>, p: spec_fn(T) -> bool)
    ensures
        forall|i: int| 0 <= i < s.filter(p).len() ==> s.contains(#[trigger] s.filter(p)[i]),
    decreases s.len(),
{
    reveal(Seq::filter);
    if s.len() == 0 {
    } else {
        let dl = s.drop_last();
        lemma_filter_subset(dl, p);
        assert(forall|j: int| 0 <= j < dl.len() ==> dl[j] == s[j]);
        assert forall|i: int| 0 <= i < s.filter(p).len() implies s.contains(
            #[trigger] s.filter(p)[i],
        ) by {
            if p(s.last()) {
                assert(s.filter(p) == dl.filter(p).push(s.last()));
                if i < s.filter(p).len() - 1 {
                    assert(s.filter(p)[i] == dl.filter(p)[i]);
                    assert(dl.contains(dl.filter(p)[i]));
                    let j = choose|j: int| 0 <= j < dl.len() && dl[j] == dl.filter(p)[i];
                    assert(s[j] == s.filter(p)[i]);
                } else {
                    assert(s.filter(p)[i] == s.last());
                    assert(s[s.len() - 1] == s.last());
                }
            } else {
                assert(s.filter(p) == dl.filter(p));
                assert(dl.contains(dl.filter(p)[i]));
                let j = choose|j: int| 0 <= j < dl.len() && dl[j] == dl.filter(p)[i];
                assert(s[j] == s.filter(p)[i]);
            }
        }
    }
}

/// Filtering an association list restricts the denoted map to the entries
/// the predicate keeps, and preserves key uniqueness.
pub proof fn lemma_map_of_filter<K, V>(s: Seq<(K, V)>, p: spec_fn((K, V)) -> bool)
    requires
        unique_keys(s),
    ensures
        unique_keys(s.filter(p)),
        forall|k: K| #[trigger]
            map_of(s.filter(p)).contains_key(k) <==> map_of(s).contains_key(k) && p(
                (k, map_of(s)[k]),
            ),
        forall|k: K| #[trigger]
            map_of(s.filter(p)).contains_key(k) ==> map_of(s.filter(p))[k] == map_of(s)[k],
    decreases s.len(),
{
    reveal(Seq::filter);
    if s.len() == 0 {
        assert(s.filter(p) =~= s);
    } else {
        let dl = s.drop_last();
        let e = s.last();
        assert(unique_keys(dl));
        lemma_map_of_filter(dl, p);
        lemma_map_of_contains(dl, e.0);
        assert(forall|i: int| 0 <= i < dl.len() ==> (#[trigger] dl[i]).0 != e.0);
        assert(!map_of(dl).contains_key(e.0));
        if p(e) {
            assert(s.filter(p) == dl.filter(p).push(e));
            lemma_map_of_push(dl.filter(p), e);
            lemma_unique_push(dl.filter(p), e);
            assert forall|k: K| #[trigger]
                map_of(s.filter(p)).contains_key(k) implies map_of(s).contains_key(k) && p(
                (k, map_of(s)[k]),
            ) by {
                if k != e.0 {
                    assert(map_of(dl.filter(p)).contains_key(k));
                    assert(map_of(s)[k] == map_of(dl)[k]);
                }
            }
            assert forall|k: K|
                map_of(s).contains_key(k) && p(
                    (k, map_of(s)[k]),
                ) implies #[trigger] map_of(s.filter(p)).contains_key(k) by {
                if k != e.0 {
                    assert(map_of(dl).contains_key(k) && map_of(s)[k] == map_of(dl)[k]);
                }
            }
        } else {
            assert(s.filter(p) == dl.filter(p));
            assert forall|k: K| #[trigger]
                map_of(s.filter(p)).contains_key(k) implies map_of(s).contains_key(k) && p(
                (k, map_of(s)[k]),
            ) by {
                assert(map_of(dl.filter(p)).contains_key(k));
                assert(k != e.0);
                assert(map_of(s)[k] == map_of(dl)[k]);
            }
            assert forall|k: K|
                map_of(s).contains_key(k) && p(
                    (k, map_of(s)[k]),
                ) implies #[trigger] map_of(s.filter(p)).contains_key(k) by {
                assert(k != e.0);
                assert(map_of(dl).contains_key(k) && map_of(s)[k] == map_of(dl)[k]);
            }
        }
    }
}

} // verus!

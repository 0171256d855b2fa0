//! Verified lookup and insert-or-overwrite over the association vectors
//! that hold the state machine's collections, one family for vectors keyed
//! by a single account and one for vectors keyed by an ordered pair.

use vstd::prelude::*;

use crate::assoc::{
    lemma_map_of_contains, lemma_map_of_index, lemma_map_of_push, lemma_map_of_update,
    lemma_unique_push, map_of, unique_keys,
};

verus! {

/// Looks a key up in a vector keyed by a single identifier.
pub fn get_by_id<V: Copy>(v: &Vec<(u64, V)>, k: u64) -> (r: Option<V>)
    requires
        unique_keys(v@),
    ensures
        r == if map_of(v@).contains_key(k) {
            Some(map_of(v@)[k])
        } else {
            None::<V>
        },
{
    let mut i: usize = 0;
    while i < v.len()
        invariant
            unique_keys(v@),
            0 <= i <= v@.len(),
            forall|j: int| 0 <= j < i ==> (#[trigger] v@[j]).0 != k,
        decreases v@.len() - i,
    {
        if v[i].0 == k {
            proof {
                lemma_map_of_index(v@, i as int);
            }
            return Some(v[i].1);
        }
        i += 1;
    }
    proof {
        lemma_map_of_contains(v@, k);
    }
    None
}

/// Looks an ordered pair up in a vector keyed by pairs.
pub fn get_by_pair<V: Copy>(v: &Vec<((u64, u64), V)>, k0: u64, k1: u64) -> (r: Option<V>)
    requires
        unique_keys(v@),
    ensures
        r == if map_of(v@).contains_key((k0, k1)) {
            Some(map_of(v@)[(k0, k1)])
        } else {
            None::<V>
        },
{
    let mut i: usize = 0;
    while i < v.len()
        invariant
            unique_keys(v@),
            0 <= i <= v@.len(),
            forall|j: int| 0 <= j < i ==> (#[trigger] v@[j]).0 != (k0, k1),
        decreases v@.len() - i,
    {
        if v[i].0.0 == k0 && v[i].0.1 == k1 {
            proof {
                lemma_map_of_index(v@, i as int);
            }
            return Some(v[i].1);
        }
        i += 1;
    }
    proof {
        lemma_map_of_contains(v@, (k0, k1));
    }
    None
}

/// Inserts a binding or overwrites the one already carrying the key.
pub fn upsert_by_id<V: Copy>(v: &mut Vec<(u64, V)>, k: u64, val: V)
    requires
        unique_keys(old(v)@),
    ensures
        unique_keys(final(v)@),
        map_of(final(v)@) == map_of(old(v)@).insert(k, val),
        !map_of(old(v)@).contains_key(k) ==> final(v)@ == old(v)@.push((k, val)),
        map_of(old(v)@).contains_key(k) ==> exists|i: int|
            0 <= i < old(v)@.len() && (#[trigger] old(v)@[i]).0 == k && final(v)@ == old(
                v,
            )@.update(i, (k, val)),
{
    let mut i: usize = 0;
    while i < v.len()
        invariant
            v@ == old(v)@,
            unique_keys(v@),
            0 <= i <= v@.len(),
            forall|j: int| 0 <= j < i ==> (#[trigger] v@[j]).0 != k,
        decreases v@.len() - i,
    {
        if v[i].0 == k {
            proof {
                lemma_map_of_index(v@, i as int);
                lemma_map_of_update(v@, i as int, (k, val));
            }
            v[i] = (k, val);
            return ;
        }
        i += 1;
    }
    proof {
        lemma_map_of_contains(v@, k);
        lemma_map_of_push(v@, (k, val));
        lemma_unique_push(v@, (k, val));
    }
    v.push((k, val));
}

/// Inserts a binding keyed by an ordered pair or overwrites the one already
/// carrying it.
pub fn upsert_by_pair<V: Copy>(v: &mut Vec<((u64, u64), V)>, k0: u64, k1: u64, val: V)
    requires
        unique_keys(old(v)@),
    ensures
        unique_keys(final(v)@),
        map_of(final(v)@) == map_of(old(v)@).insert((k0, k1), val),
        !map_of(old(v)@).contains_key((k0, k1)) ==> final(v)@ == old(v)@.push(((k0, k1), val)),
        map_of(old(v)@).contains_key((k0, k1)) ==> exists|i: int|
            0 <= i < old(v)@.len() && (#[trigger] old(v)@[i]).0 == (k0, k1) && final(v)@ == old(
                v,
            )@.update(i, ((k0, k1), val)),
{
    let mut i: usize = 0;
    while i < v.len()
        invariant
            v@ == old(v)@,
            unique_keys(v@),
            0 <= i <= v@.len(),
            forall|j: int| 0 <= j < i ==> (#[trigger] v@[j]).0 != (k0, k1),
        decreases v@.len() - i,
    {
        if v[i].0.0 == k0 && v[i].0.1 == k1 {
            proof {
                lemma_map_of_index(v@, i as int);
                lemma_map_of_update(v@, i as int, ((k0, k1), val));
            }
            v[i] = ((k0, k1), val);
            return ;
        }
        i += 1;
    }
    proof {
        lemma_map_of_contains(v@, (k0, k1));
        lemma_map_of_push(v@, ((k0, k1), val));
        lemma_unique_push(v@, ((k0, k1), val));
    }
    v.push(((k0, k1), val));
}

} // verus!

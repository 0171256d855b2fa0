//! The mathematics of the aggregate rollups: how many attestations point at
//! an account, what their confidence values add up to, and what the votes
//! for a suspect sum to. The state machine's invariant ties the stored
//! counters to these functions; the lemmas here say how they move under
//! `push`, in-place update, and filtering.

use vstd::prelude::*;

use crate::types::{AccountId, AttestationEntry, VoteEntry};

verus! {

/// Number of attestations whose target is `t`.
pub open spec fn count_toward(s: Seq<AttestationEntry>, t: AccountId) -> nat
    decreases s.len(),
{
    if s.len() == 0 {
        0
    } else {
        count_toward(s.drop_last(), t) + (if s.last().0.0 == t {
            1nat
        } else {
            0nat
        })
    }
}

/// Sum of the confidence values of the attestations whose target is `t`.
pub open spec fn sum_toward(s: Seq<AttestationEntry>, t: AccountId) -> int
    decreases s.len(),
{
    if s.len() == 0 {
        0
    } else {
        sum_toward(s.drop_last(), t) + (if s.last().0.0 == t {
            s.last().1.confidence as int
        } else {
            0
        })
    }
}

/// Signed sum of the votes cast against suspect `x`.
pub open spec fn tally(s: Seq<VoteEntry>, x: AccountId) -> int
    decreases s.len(),
{
    if s.len() == 0 {
        0
    } else {
        tally(s.drop_last(), x) + (if s.last().0.0 == x {
            s.last().1 as int
        } else {
            0
        })
    }
}

/// No more attestations point at `t` than exist altogether.
pub proof fn lemma_count_le_len(s: Seq<AttestationEntry>, t: AccountId)
    ensures
        count_toward(s, t) <= s.len(),
    decreases s.len(),
{
    if s.len() > 0 {
        lemma_count_le_len(s.drop_last(), t);
    }
}

/// Appending an attestation raises the count and sum for its target alone.
pub proof fn lemma_aggregates_push(s: Seq<AttestationEntry>, e: AttestationEntry, t: AccountId)
    ensures
        count_toward(s.push(e), t) == count_toward(s, t) + (if e.0.0 == t {
            1nat
        } else {
            0nat
        }),
        sum_toward(s.push(e), t) == sum_toward(s, t) + (if e.0.0 == t {
            e.1.confidence as int
        } else {
            0
        }),
{
    assert(s.push(e).drop_last() =~= s);
    assert(s.push(e).last() == e);
}

/// Overwriting an attestation in place, pair unchanged, keeps every count
/// and moves the target's sum by the change in confidence.
pub proof fn lemma_aggregates_update(
    s: Seq<AttestationEntry>,
    i: int,
    e: AttestationEntry,
    t: AccountId,
)
    requires
        0 <= i < s.len(),
        s[i].0 == e.0,
    ensures
        count_toward(s.update(i, e), t) == count_toward(s, t),
        sum_toward(s.update(i, e), t) == sum_toward(s, t) + (if e.0.0 == t {
            e.1.confidence - s[i].1.confidence
        } else {
            0
        }),
    decreases s.len(),
{
    let u = s.update(i, e);
    if i == s.len() - 1 {
        assert(u.drop_last() =~= s.drop_last());
        assert(u.last() == e);
    } else {
        assert(u.drop_last() =~= s.drop_last().update(i, e));
        assert(u.last() == s.last());
        assert(s.drop_last()[i] == s[i]);
        lemma_aggregates_update(s.drop_last(), i, e, t);
    }
}

/// Sums of confidence values are never negative.
pub proof fn lemma_sum_nonneg(s: Seq<AttestationEntry>, t: AccountId)
    ensures
        sum_toward(s, t) >= 0,
    decreases s.len(),
{
    if s.len() > 0 {
        lemma_sum_nonneg(s.drop_last(), t);
    }
}

/// Each attestation's confidence is at most its target's sum.
pub proof fn lemma_entry_le_sum(s: Seq<AttestationEntry>, i: int)
    requires
        0 <= i < s.len(),
    ensures
        sum_toward(s, s[i].0.0) >= s[i].1.confidence as int,
    decreases s.len(),
{
    let t = s[i].0.0;
    if i == s.len() - 1 {
        lemma_sum_nonneg(s.drop_last(), t);
    } else {
        assert(s.drop_last()[i] == s[i]);
        lemma_entry_le_sum(s.drop_last(), i);
        if s.last().0.0 == t {
        }
    }
}

/// An account nothing points at has count zero and sum zero.
pub proof fn lemma_count_absent_sum_zero(s: Seq<AttestationEntry>, t: AccountId)
    requires
        forall|i: int| 0 <= i < s.len() ==> (#[trigger] s[i]).0.0 != t,
    ensures
        count_toward(s, t) == 0,
        sum_toward(s, t) == 0,
    decreases s.len(),
{
    if s.len() > 0 {
        assert(forall|i: int|
            0 <= i < s.drop_last().len() ==> (#[trigger] s.drop_last()[i]).0.0 != t);
        lemma_count_absent_sum_zero(s.drop_last(), t);
    }
}

/// A suspect nobody voted on tallies to zero.
pub proof fn lemma_tally_absent(s: Seq<VoteEntry>, x: AccountId)
    requires
        forall|i: int| 0 <= i < s.len() ==> (#[trigger] s[i]).0.0 != x,
    ensures
        tally(s, x) == 0,
    decreases s.len(),
{
    if s.len() > 0 {
        assert(forall|i: int|
            0 <= i < s.drop_last().len() ==> (#[trigger] s.drop_last()[i]).0.0 != x);
        lemma_tally_absent(s.drop_last(), x);
    }
}

/// Appending a vote moves the tally of its suspect alone.
pub proof fn lemma_tally_push(s: Seq<VoteEntry>, e: VoteEntry, x: AccountId)
    ensures
        tally(s.push(e), x) == tally(s, x) + (if e.0.0 == x {
            e.1 as int
        } else {
            0
        }),
{
    assert(s.push(e).drop_last() =~= s);
    assert(s.push(e).last() == e);
}

/// Overwriting a vote in place, pair unchanged, moves its suspect's tally
/// by the change in value.
pub proof fn lemma_tally_update(s: Seq<VoteEntry>, i: int, e: VoteEntry, x: AccountId)
    requires
        0 <= i < s.len(),
        s[i].0 == e.0,
    ensures
        tally(s.update(i, e), x) == tally(s, x) + (if e.0.0 == x {
            e.1 - s[i].1
        } else {
            0
        }),
    decreases s.len(),
{
    let u = s.update(i, e);
    if i == s.len() - 1 {
        assert(u.drop_last() =~= s.drop_last());
        assert(u.last() == e);
    } else {
        assert(u.drop_last() =~= s.drop_last().update(i, e));
        assert(u.last() == s.last());
        assert(s.drop_last()[i] == s[i]);
        lemma_tally_update(s.drop_last(), i, e, x);
    }
}

/// Dropping only votes of other suspects leaves a suspect's tally as it was.
pub proof fn lemma_tally_filter_keeps(s: Seq<VoteEntry>, p: spec_fn(VoteEntry) -> bool, x: AccountId)
    requires
        forall|e: VoteEntry| e.0.0 == x ==> #[trigger] p(e),
    ensures
        tally(s.filter(p), x) == tally(s, x),
    decreases s.len(),
{
    reveal(Seq::filter);
    if s.len() == 0 {
        assert(s.filter(p) =~= s);
    } else {
        let dl = s.drop_last();
        lemma_tally_filter_keeps(dl, p, x);
        if p(s.last()) {
            assert(s.filter(p) == dl.filter(p).push(s.last()));
            lemma_tally_push(dl.filter(p), s.last(), x);
        } else {
            assert(s.filter(p) == dl.filter(p));
            assert(s.last().0.0 != x);
        }
    }
}

/// Votes kept only for suspects other than `x` tally to zero for `x`.
pub proof fn lemma_tally_filter_drops(s: Seq<VoteEntry>, p: spec_fn(VoteEntry) -> bool, x: AccountId)
    requires
        forall|e: VoteEntry| #[trigger] p(e) ==> e.0.0 != x,
    ensures
        tally(s.filter(p), x) == 0,
    decreases s.len(),
{
    reveal(Seq::filter);
    if s.len() == 0 {
        assert(s.filter(p) =~= s);
    } else {
        let dl = s.drop_last();
        lemma_tally_filter_drops(dl, p, x);
        if p(s.last()) {
            assert(s.filter(p) == dl.filter(p).push(s.last()));
            lemma_tally_push(dl.filter(p), s.last(), x);
        } else {
            assert(s.filter(p) == dl.filter(p));
        }
    }
}

/// The set of attestation keys whose target is `t`.
pub open spec fn keys_toward(
    m: Map<(AccountId, AccountId), crate::types::Attestation>,
    t: AccountId,
) -> Set<(AccountId, AccountId)> {
    m.dom().filter(|k: (AccountId, AccountId)| k.0 == t)
}

/// Under unique pairs, the stored count for `t` is the cardinality of the
/// set of attestation entries whose target is `t`.
pub proof fn lemma_count_is_dom_filter_len(s: Seq<AttestationEntry>, t: AccountId)
    requires
        crate::assoc::unique_keys(s),
    ensures
        crate::assoc::map_of(s).dom().finite(),
        keys_toward(crate::assoc::map_of(s), t).len() == count_toward(s, t),
    decreases s.len(),
{
    crate::assoc::lemma_map_of_len(s);
    let pred = |k: (AccountId, AccountId)| k.0 == t;
    if s.len() == 0 {
        assert(crate::assoc::map_of(s).dom() =~= Set::<(AccountId, AccountId)>::empty());
        assert(keys_toward(crate::assoc::map_of(s), t) =~= Set::<(
            AccountId,
            AccountId,
        )>::empty());
    } else {
        let dl = s.drop_last();
        let e = s.last();
        assert(crate::assoc::unique_keys(dl));
        lemma_count_is_dom_filter_len(dl, t);
        crate::assoc::lemma_map_of_len(dl);
        let dom0 = crate::assoc::map_of(dl).dom();
        assert(crate::assoc::map_of(s).dom() =~= dom0.insert(e.0));
        crate::assoc::lemma_map_of_contains(dl, e.0);
        assert(forall|i: int| 0 <= i < dl.len() ==> (#[trigger] dl[i]).0 != e.0);
        assert(!dom0.contains(e.0));
        dom0.lemma_len_filter(pred);
        if e.0.0 == t {
            assert(dom0.insert(e.0).filter(pred) =~= dom0.filter(pred).insert(e.0));
            assert(!dom0.filter(pred).contains(e.0));
            vstd::set::axiom_set_insert_len(dom0.filter(pred), e.0);
        } else {
            assert(dom0.insert(e.0).filter(pred) =~= dom0.filter(pred));
        }
        assert(keys_toward(crate::assoc::map_of(s), t) =~= crate::assoc::map_of(s).dom().filter(
            pred,
        ));
        assert(keys_toward(crate::assoc::map_of(dl), t) =~= dom0.filter(pred));
    }
}

} // verus!

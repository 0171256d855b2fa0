//! The laws of the operation contracts, each proved from the open
//! specifications the operations promise in their `ensures`. Laws that need
//! the machine's internal invariant — aggregate consistency and the
//! grounding of tallies — stand beside it in [`crate::graph`].

use vstd::prelude::*;

use crate::graph::{
    attest_applied, attest_error, challenge_error, eligible, vote_error, GraphModel,
};
use crate::types::{AccountId, BlockNum, Error};

verus! {

/// Confidence bound: a confidence above 10 is rejected with
/// `ConfidenceOutOfBounds`, whatever the accounts and the state.
pub proof fn lemma_confidence_bound(m: GraphModel, attester: AccountId, target: AccountId, c: u8)
    requires
        c > 10,
    ensures
        attest_error(m, attester, target, c) == Some(Error::ConfidenceOutOfBounds),
{
}

/// No self-attestation: an account attesting to itself with an in-range
/// confidence is rejected with `SelfAttestationError`, whatever the state.
pub proof fn lemma_no_self_attestation(m: GraphModel, a: AccountId, c: u8)
    requires
        c <= 10,
    ensures
        attest_error(m, a, a, c) == Some(Error::SelfAttestationError),
{
}

/// Bootstrap: while the network holds no attestations at all, every
/// account passes the eligibility gate.
pub proof fn lemma_bootstrap_eligibility(m: GraphModel, a: AccountId)
    requires
        m.totals.total_attestations == 0,
    ensures
        eligible(m, a),
{
}

/// Update vs. new: re-attesting an existing `(target, attester)` pair moves
/// the target's confidence sum by exactly the difference between the new
/// and the old confidence, and changes neither the target's attestation
/// count nor the network totals.
pub proof fn lemma_update_vs_new(
    m: GraphModel,
    attester: AccountId,
    target: AccountId,
    c: u8,
    now: BlockNum,
)
    requires
        attester != target,
        m.attestations.contains_key((target, attester)),
        m.stats.contains_key(target),
        m.stats[target].confidence_sum >= m.attestations[(target, attester)].confidence,
        m.stats[target].confidence_sum - m.attestations[(target, attester)].confidence + c
            <= u32::MAX,
    ensures
        attest_applied(m, attester, target, c, now).totals == m.totals,
        attest_applied(m, attester, target, c, now).stats[target].attest_count
            == m.stats[target].attest_count,
        attest_applied(m, attester, target, c, now).stats[target].confidence_sum as int
            == m.stats[target].confidence_sum - m.attestations[(target, attester)].confidence + c,
{
}

/// Challenge uniqueness: while a suspect has an active challenge, opening
/// another is rejected with `ChallengeAlreadyExists` regardless of the
/// challenger.
pub proof fn lemma_challenge_uniqueness(m: GraphModel, challenger: AccountId, suspect: AccountId)
    requires
        m.challenges.contains_key(suspect),
    ensures
        challenge_error(m, challenger, suspect) == Some(Error::ChallengeAlreadyExists),
{
}

/// Capacity: with the active set full, a challenge against a fresh suspect
/// by an eligible challenger is rejected with `MaxChallengesReached`.
pub proof fn lemma_challenge_capacity(m: GraphModel, challenger: AccountId, suspect: AccountId)
    requires
        !m.challenges.contains_key(suspect),
        eligible(m, challenger),
        m.challenges.dom().len() >= m.config.max_challenges,
    ensures
        challenge_error(m, challenger, suspect) == Some(Error::MaxChallengesReached),
{
}

/// Vote bounds: with a challenge active, a vote outside `-10..=10` is
/// rejected with `VoteOutOfBounds`, whatever the voter.
pub proof fn lemma_vote_bounds(m: GraphModel, voter: AccountId, suspect: AccountId, value: i8)
    requires
        m.challenges.contains_key(suspect),
        value > 10 || value < -10,
    ensures
        vote_error(m, voter, suspect, value) == Some(Error::VoteOutOfBounds),
{
}

/// A vote requires an active challenge: voting for a suspect with none is
/// rejected with `ChallengeNotFound`, whatever the voter and the value.
pub proof fn lemma_vote_requires_challenge(
    m: GraphModel,
    voter: AccountId,
    suspect: AccountId,
    value: i8,
)
    requires
        !m.challenges.contains_key(suspect),
    ensures
        vote_error(m, voter, suspect, value) == Some(Error::ChallengeNotFound),
{
}

} // verus!

//! Plain data carried by the state machine: identifiers, per-account and
//! network-wide aggregates, attestations, challenges, configuration, and
//! the error taxonomy.

use vstd::prelude::*;

verus! {

/// An opaque account identifier, pre-resolved by the host.
pub type AccountId = u64;

/// A monotonically increasing block counter, supplied by the host per
/// operation.
pub type BlockNum = u64;

/// Per-account rollup: how many distinct attesters currently attest to the
/// account, the sum of their confidence values, and the block at which the
/// account first came into contact with the network.
#[derive(Clone, Copy, PartialEq, Eq, Structural, Debug)]
pub struct AccountStats {
    /// Number of distinct attesters holding an attestation toward the account.
    pub attest_count: u32,
    /// Sum of the confidence values of those attestations, as first recorded.
    pub confidence_sum: u32,
    /// Block of first contact; immutable after creation.
    pub birth_block: BlockNum,
}

/// Network-wide rollup, mutated exactly once per new (not updated)
/// attestation.
#[derive(Clone, Copy, PartialEq, Eq, Structural, Debug)]
pub struct NetworkTotals {
    /// Count of distinct `(target, attester)` attestation entries.
    pub total_attestations: u32,
    /// Sum of the confidence values as recorded when each attestation was new.
    pub total_confidence: u32,
}

/// The value of one attestation, keyed elsewhere by `(target, attester)`.
#[derive(Clone, Copy, PartialEq, Eq, Structural, Debug)]
pub struct Attestation {
    /// Stated trust in the target's personhood, `0..=10`.
    pub confidence: u8,
    /// Block at which the attestation was made or last updated.
    pub block: BlockNum,
}

/// The value of one active challenge, keyed elsewhere by the suspect.
#[derive(Clone, Copy, PartialEq, Eq, Structural, Debug)]
pub struct Challenge {
    /// The account that opened the challenge.
    pub challenger: AccountId,
    /// The block at which the challenge expires and is resolved.
    pub final_block: BlockNum,
}

/// Host-supplied configuration, fixed for the life of the state machine.
#[derive(Clone, Copy, PartialEq, Eq, Structural, Debug)]
pub struct Config {
    /// Number of blocks a challenge stays open.
    pub challenge_duration: u32,
    /// Capacity of the active-challenge set.
    pub max_challenges: u32,
}

/// One stored attestation: the ordered pair `(target, attester)` and the
/// attestation value. At most one entry exists per ordered pair.
pub type AttestationEntry = ((AccountId, AccountId), Attestation);

/// One stored vote: the ordered pair `(suspect, voter)` and the vote value.
/// At most one entry exists per ordered pair.
pub type VoteEntry = ((AccountId, AccountId), i8);

/// Every way an operation can be rejected. A rejection is a validation
/// failure: the operation applies no effect and the caller may resubmit.
#[derive(Clone, Copy, PartialEq, Eq, Structural, Debug)]
pub enum Error {
    /// The confidence value lies outside `0..=10`.
    ConfidenceOutOfBounds,
    /// An account may not attest to itself.
    SelfAttestationError,
    /// The attester does not meet the network's eligibility requirements.
    InvalidAttester,
    /// The challenger does not meet the network's eligibility requirements.
    InvalidChallenger,
    /// The voter does not meet the network's eligibility requirements.
    InvalidVoter,
    /// The vote value lies outside `-10..=10`.
    VoteOutOfBounds,
    /// The suspect already has an active challenge.
    ChallengeAlreadyExists,
    /// No active challenge exists for the suspect.
    ChallengeNotFound,
    /// The active-challenge set is at capacity.
    MaxChallengesReached,
    /// Applying the operation would overflow a 32-bit aggregate counter;
    /// the operation is rejected rather than allowed to wrap.
    CounterOverflow,
}

} // verus!

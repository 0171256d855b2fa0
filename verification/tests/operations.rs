//! The boundary operations: attestation, challenge creation, and voting,
//! with every validation rejection and its exact effect on the aggregates.

use social_graph::{Config, Error, SocialGraph};

fn machine() -> SocialGraph {
    SocialGraph::new(Config { challenge_duration: 10, max_challenges: 100 })
}

#[test]
fn attest_test() {
    let mut g = machine();
    // a chain of attestations works for every valid confidence value
    for i in 0..11u64 {
        let account = i;
        assert!(g.attest(account, account + 1, i as u8, 1).is_ok());
    }
    // invalid confidence
    assert_eq!(g.attest(2, 1, 11, 1), Err(Error::ConfidenceOutOfBounds));
    // invalid target
    assert_eq!(g.attest(2, 2, 1, 1), Err(Error::SelfAttestationError));
}

#[test]
fn challenge_and_vote_test() {
    let mut g = machine();
    assert!(g.challenge(1, 2, 1).is_ok());
    assert_eq!(g.challenge(1, 2, 1), Err(Error::ChallengeAlreadyExists));

    // voting extremes
    assert!(g.vote(1, 2, -10, 1).is_ok());
    assert!(g.vote(2, 2, 10, 1).is_ok());
    assert!(g.vote(3, 2, 0, 1).is_ok());
    // failed voting case
    assert_eq!(g.vote(3, 1, 0, 1), Err(Error::ChallengeNotFound));
}

#[test]
fn confidence_bound_leaves_state_unchanged() {
    let mut g = machine();
    assert!(g.attest(1, 2, 7, 5).is_ok());
    let totals_before = g.network_totals();
    let stats_before = g.stats(2);
    assert_eq!(g.attest(3, 2, 11, 6), Err(Error::ConfidenceOutOfBounds));
    assert_eq!(g.attest(3, 2, 255, 6), Err(Error::ConfidenceOutOfBounds));
    assert_eq!(g.network_totals(), totals_before);
    assert_eq!(g.stats(2), stats_before);
    assert_eq!(g.stats(3), None);
}

#[test]
fn self_attestation_always_fails() {
    let mut g = machine();
    assert_eq!(g.attest(1, 1, 0, 1), Err(Error::SelfAttestationError));
    assert_eq!(g.attest(7, 7, 10, 2), Err(Error::SelfAttestationError));
    assert_eq!(g.network_totals().total_attestations, 0);
}

#[test]
fn new_attestation_updates_all_aggregates() {
    let mut g = machine();
    assert!(g.attest(1, 2, 7, 5).is_ok());
    let totals = g.network_totals();
    assert_eq!(totals.total_attestations, 1);
    assert_eq!(totals.total_confidence, 7);
    let target = g.stats(2).unwrap();
    assert_eq!(target.attest_count, 1);
    assert_eq!(target.confidence_sum, 7);
    assert_eq!(target.birth_block, 5);
    // the attester was met in passing: a zero entry born at the same block
    let attester = g.stats(1).unwrap();
    assert_eq!(attester.attest_count, 0);
    assert_eq!(attester.confidence_sum, 0);
    assert_eq!(attester.birth_block, 5);
}

#[test]
fn update_vs_new() {
    let mut g = machine();
    assert!(g.attest(1, 2, 7, 5).is_ok());
    assert!(g.attest(2, 3, 6, 6).is_ok());
    let totals_before = g.network_totals();
    // re-attesting the same pair moves the target's sum by exactly the
    // delta and changes no count and no network total
    assert!(g.attest(2, 3, 2, 7).is_ok());
    let target = g.stats(3).unwrap();
    assert_eq!(target.confidence_sum, 2);
    assert_eq!(target.attest_count, 1);
    assert_eq!(g.network_totals(), totals_before);
    // raising it moves the sum up by the delta
    assert!(g.attest(2, 3, 9, 8).is_ok());
    assert_eq!(g.stats(3).unwrap().confidence_sum, 9);
    assert_eq!(g.stats(3).unwrap().attest_count, 1);
    assert_eq!(g.network_totals(), totals_before);
    // birth block is immutable after creation
    assert_eq!(g.stats(3).unwrap().birth_block, 6);
    // the attestation itself carries the new confidence and block
    let att = g.attestation_of(3, 2).unwrap();
    assert_eq!(att.confidence, 9);
    assert_eq!(att.block, 8);
    assert_eq!(g.attestation_of(2, 3), None);
}

#[test]
fn aggregate_consistency_over_a_sequence() {
    let mut g = machine();
    // three distinct pairs, one of them later overwritten
    assert!(g.attest(1, 2, 5, 1).is_ok());
    assert!(g.attest(2, 3, 5, 2).is_ok());
    assert!(g.attest(3, 2, 5, 3).is_ok());
    assert!(g.attest(2, 3, 1, 4).is_ok());
    // the network counter equals the number of distinct (target, attester)
    // entries, not the number of calls
    assert_eq!(g.network_totals().total_attestations, 3);
    // each account's count equals the number of entries targeting it
    assert_eq!(g.stats(2).unwrap().attest_count, 2);
    assert_eq!(g.stats(3).unwrap().attest_count, 1);
    assert_eq!(g.stats(1).unwrap().attest_count, 0);
}

#[test]
fn bootstrap_everyone_is_eligible() {
    let g = machine();
    assert_eq!(g.network_totals().total_attestations, 0);
    assert!(g.is_eligible(0));
    assert!(g.is_eligible(1));
    assert!(g.is_eligible(123456789));
}

#[test]
fn unattested_account_is_ineligible_after_bootstrap() {
    let mut g = machine();
    assert!(g.attest(1, 2, 7, 1).is_ok());
    // account 1 has nothing attested toward it
    assert!(!g.is_eligible(1));
    assert_eq!(g.attest(1, 3, 5, 2), Err(Error::InvalidAttester));
    assert_eq!(g.challenge(1, 5, 2), Err(Error::InvalidChallenger));
    assert!(g.challenge(2, 5, 2).is_ok());
    assert_eq!(g.vote(1, 5, 0, 3), Err(Error::InvalidVoter));
}

#[test]
fn eligibility_at_exactly_the_network_average() {
    let mut g = machine();
    assert!(g.attest(1, 2, 6, 1).is_ok());
    // account 2 sits exactly at the network average confidence 6/1 and is
    // eligible: the passing condition is "not less than"
    assert!(g.is_eligible(2));
    assert!(g.attest(2, 3, 2, 2).is_ok());
    // average confidence is now 8/2 = 4; account 3 averages 2 and fails
    assert!(!g.is_eligible(3));
    assert_eq!(g.attest(3, 4, 5, 3), Err(Error::InvalidAttester));
}

#[test]
fn eligibility_requires_average_attestation_count() {
    let mut g = machine();
    assert!(g.attest(1, 2, 10, 1).is_ok());
    assert!(g.attest(2, 1, 10, 1).is_ok());
    assert!(g.attest(1, 3, 10, 1).is_ok());
    assert!(g.attest(3, 1, 10, 1).is_ok());
    assert!(g.attest(2, 3, 10, 1).is_ok());
    assert!(g.attest(3, 2, 10, 1).is_ok());
    assert!(g.attest(1, 4, 10, 2).is_ok());
    assert!(g.attest(4, 1, 10, 2).is_ok());
    // eight attestations over four accounts: the average per account is 2;
    // account 4 matches the average confidence but is the target of only
    // one attestation, so the count criterion alone disqualifies it
    assert!(g.is_eligible(1));
    assert!(!g.is_eligible(4));
    assert_eq!(g.attest(4, 2, 10, 3), Err(Error::InvalidAttester));
}

#[test]
fn vote_bounds() {
    let mut g = machine();
    assert!(g.challenge(1, 2, 1).is_ok());
    assert_eq!(g.vote(3, 2, 11, 1), Err(Error::VoteOutOfBounds));
    assert_eq!(g.vote(3, 2, -11, 1), Err(Error::VoteOutOfBounds));
    assert_eq!(g.vote(3, 2, 127, 1), Err(Error::VoteOutOfBounds));
    assert_eq!(g.vote(3, 2, -128, 1), Err(Error::VoteOutOfBounds));
    assert_eq!(g.vote_of(2, 3), None);
}

#[test]
fn vote_requires_active_challenge() {
    let mut g = machine();
    assert_eq!(g.vote(1, 9, 0, 1), Err(Error::ChallengeNotFound));
    assert!(g.challenge(1, 9, 1).is_ok());
    assert!(g.vote(1, 9, 0, 1).is_ok());
    assert_eq!(g.vote(1, 8, 0, 1), Err(Error::ChallengeNotFound));
}

#[test]
fn revote_overwrites() {
    let mut g = machine();
    assert!(g.challenge(1, 9, 1).is_ok());
    assert!(g.vote(2, 9, -10, 2).is_ok());
    assert_eq!(g.vote_of(9, 2), Some(-10));
    assert!(g.vote(2, 9, 4, 3).is_ok());
    assert_eq!(g.vote_of(9, 2), Some(4));
}

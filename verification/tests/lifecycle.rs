//! The challenge lifecycle: capacity and uniqueness of the active set, the
//! per-block expiry sweep, tally-based judgement, and the permanence of a
//! ban.

use social_graph::{Config, Error, SocialGraph};

fn machine_with(duration: u32, max: u32) -> SocialGraph {
    SocialGraph::new(Config { challenge_duration: duration, max_challenges: max })
}

#[test]
fn challenge_uniqueness_regardless_of_challenger() {
    let mut g = machine_with(10, 100);
    assert!(g.challenge(1, 2, 1).is_ok());
    assert_eq!(g.challenge(1, 2, 1), Err(Error::ChallengeAlreadyExists));
    assert_eq!(g.challenge(3, 2, 1), Err(Error::ChallengeAlreadyExists));
    let c = g.active_challenge(2).unwrap();
    assert_eq!(c.challenger, 1);
    assert_eq!(c.final_block, 11);
}

#[test]
fn challenge_capacity() {
    let mut g = machine_with(10, 2);
    assert!(g.challenge(1, 2, 1).is_ok());
    assert!(g.challenge(1, 3, 1).is_ok());
    assert_eq!(g.challenge(1, 4, 1), Err(Error::MaxChallengesReached));
    // a slot frees up once a challenge resolves
    g.tick(11);
    assert!(g.challenge(1, 4, 11).is_ok());
}

#[test]
fn ban_scenario() {
    let mut g = machine_with(10, 100);
    // challenge opened at block 90 runs until final block 100
    assert!(g.challenge(1, 2, 90).is_ok());
    assert_eq!(g.active_challenge(2).unwrap().final_block, 100);
    assert!(g.vote(3, 2, -10, 91).is_ok());
    assert!(g.vote(4, 2, 3, 92).is_ok());
    g.tick(100);
    // tally -7 < 0: banned, challenge resolved, votes drained
    assert!(g.is_banned(2));
    assert_eq!(g.active_challenge(2), None);
    assert_eq!(g.vote_of(2, 3), None);
    assert_eq!(g.vote_of(2, 4), None);
}

#[test]
fn non_ban_scenario() {
    let mut g = machine_with(10, 100);
    assert!(g.challenge(1, 2, 90).is_ok());
    assert!(g.vote(3, 2, 5, 91).is_ok());
    assert!(g.vote(4, 2, -5, 92).is_ok());
    g.tick(100);
    // tally 0 does not ban, but the challenge still resolves
    assert!(!g.is_banned(2));
    assert_eq!(g.active_challenge(2), None);
    assert_eq!(g.vote_of(2, 3), None);
}

#[test]
fn tick_before_expiry_changes_nothing() {
    let mut g = machine_with(10, 100);
    assert!(g.challenge(1, 2, 90).is_ok());
    assert!(g.vote(3, 2, -10, 91).is_ok());
    g.tick(99);
    assert!(!g.is_banned(2));
    assert!(g.active_challenge(2).is_some());
    assert_eq!(g.vote_of(2, 3), Some(-10));
}

#[test]
fn expiry_is_independent_of_storage_order() {
    let mut g = machine_with(10, 100);
    // the earlier-expiring challenge is opened first, the later second;
    // the sweep must pick by final block, not by position
    assert!(g.challenge(1, 2, 0).is_ok());
    assert!(g.challenge(1, 3, 5).is_ok());
    g.tick(10);
    assert_eq!(g.active_challenge(2), None);
    assert!(g.active_challenge(3).is_some());
    g.tick(15);
    assert_eq!(g.active_challenge(3), None);
}

#[test]
fn both_challenges_resolve_in_one_tick() {
    let mut g = machine_with(10, 100);
    assert!(g.challenge(1, 2, 0).is_ok());
    assert!(g.challenge(1, 3, 2).is_ok());
    assert!(g.vote(4, 2, -1, 3).is_ok());
    assert!(g.vote(4, 3, 1, 3).is_ok());
    g.tick(20);
    assert_eq!(g.active_challenge(2), None);
    assert_eq!(g.active_challenge(3), None);
    assert!(g.is_banned(2));
    assert!(!g.is_banned(3));
}

#[test]
fn ban_disqualifies_but_keeps_records() {
    let mut g = machine_with(10, 100);
    assert!(g.attest(1, 2, 7, 1).is_ok());
    assert!(g.attest(2, 3, 7, 2).is_ok());
    assert!(g.is_eligible(2));
    // account 3 is eligible and challenges account 2
    assert!(g.challenge(3, 2, 10).is_ok());
    assert!(g.vote(3, 2, -10, 11).is_ok());
    g.tick(20);
    assert!(g.is_banned(2));
    // the ban alone flips eligibility; stats and attestations stay intact
    assert!(!g.is_eligible(2));
    assert!(g.is_eligible(3));
    assert_eq!(g.stats(2).unwrap().attest_count, 1);
    assert_eq!(g.stats(2).unwrap().confidence_sum, 7);
    assert_eq!(g.attest(2, 5, 7, 21), Err(Error::InvalidAttester));
    // and there is no unban path
    g.tick(1000);
    assert!(g.is_banned(2));
}

#[test]
fn banned_suspect_can_be_challenged_again() {
    let mut g = machine_with(10, 100);
    assert!(g.challenge(1, 2, 0).is_ok());
    assert!(g.vote(3, 2, -10, 1).is_ok());
    g.tick(10);
    assert!(g.is_banned(2));
    // the suspect's slot is free again; a fresh challenge may be opened
    assert!(g.challenge(1, 2, 10).is_ok());
    g.tick(20);
    assert!(g.is_banned(2));
}

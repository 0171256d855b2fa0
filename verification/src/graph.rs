//! The state machine itself: one owned value holding the attestation
//! ledger, the aggregate rollups, the active challenges, the votes, and the
//! ban records, together with the atomic operations the host drives it
//! with. Every operation either fully applies or returns one discriminated
//! error and leaves the state unchanged.

use vstd::prelude::*;

use crate::aggregates::{
    count_toward, keys_toward, lemma_aggregates_push, lemma_aggregates_update,
    lemma_count_absent_sum_zero, lemma_count_is_dom_filter_len, lemma_count_le_len,
    lemma_entry_le_sum, lemma_tally_absent, lemma_tally_filter_drops, lemma_tally_filter_keeps,
    lemma_tally_push, lemma_tally_update, sum_toward, tally,
};
use crate::assoc::{
    lemma_filter_subset, lemma_map_of_contains, lemma_map_of_filter, lemma_map_of_index,
    lemma_map_of_len, map_of, unique_keys,
};
use crate::store::{get_by_id, get_by_pair, upsert_by_id, upsert_by_pair};
use crate::types::{
    AccountId, AccountStats, Attestation, AttestationEntry, BlockNum, Challenge, Config, Error,
    NetworkTotals, VoteEntry,
};

verus! {

/// The mathematical content of the state: five finite maps, the
/// network-wide totals, and the fixed configuration.
#[verifier::ext_equal]
pub struct GraphModel {
    /// Attestations, keyed by the ordered pair `(target, attester)`.
    pub attestations: Map<(AccountId, AccountId), Attestation>,
    /// Per-account rollups, keyed by account.
    pub stats: Map<AccountId, AccountStats>,
    /// The network-wide rollup.
    pub totals: NetworkTotals,
    /// Active challenges, keyed by suspect.
    pub challenges: Map<AccountId, Challenge>,
    /// Votes on active challenges, keyed by `(suspect, voter)`.
    pub votes: Map<(AccountId, AccountId), i8>,
    /// Banned accounts with the block each ban was pronounced.
    pub banned: Map<AccountId, BlockNum>,
    /// Host-supplied configuration.
    pub config: Config,
}

/// The state every fresh machine starts from: empty collections, zero
/// totals.
pub open spec fn initial_model(config: Config) -> GraphModel {
    GraphModel {
        attestations: Map::empty(),
        stats: Map::empty(),
        totals: NetworkTotals { total_attestations: 0, total_confidence: 0 },
        challenges: Map::empty(),
        votes: Map::empty(),
        banned: Map::empty(),
        config,
    }
}

/// The stats recorded for `a`, or a fresh zero entry born at `birth` if the
/// account has none yet.
pub open spec fn stats_or_zero(
    stats: Map<AccountId, AccountStats>,
    a: AccountId,
    birth: BlockNum,
) -> AccountStats {
    if stats.contains_key(a) {
        stats[a]
    } else {
        AccountStats { attest_count: 0, confidence_sum: 0, birth_block: birth }
    }
}

/// The stats map after an operation has made first contact with `a` at
/// block `now`: an account met before keeps its entry, a new one is
/// recorded with zero counts and `birth_block = now`.
pub open spec fn touched(
    stats: Map<AccountId, AccountStats>,
    a: AccountId,
    now: BlockNum,
) -> Map<AccountId, AccountStats> {
    if stats.contains_key(a) {
        stats
    } else {
        stats.insert(a, AccountStats { attest_count: 0, confidence_sum: 0, birth_block: now })
    }
}

/// The eligibility gate: whether `a` may attest, challenge, or vote.
///
/// While the network has no attestations at all, everyone is eligible
/// (bootstrap). Afterwards `a` must have at least one attestation toward
/// it, an average received confidence no less than the network average, an
/// attestation count no less than the network average per account, and no
/// ban record. Averages use integer division.
pub open spec fn eligible(m: GraphModel, a: AccountId) -> bool {
    if m.totals.total_attestations == 0 {
        true
    } else {
        let st = stats_or_zero(m.stats, a, 0);
        &&& st.attest_count != 0
        &&& st.confidence_sum as int / st.attest_count as int >= m.totals.total_confidence as int
            / m.totals.total_attestations as int
        &&& st.attest_count as int >= m.totals.total_attestations as int
            / m.stats.dom().len() as int
        &&& !m.banned.contains_key(a)
    }
}

/// Whether `x` has an active challenge that has reached its final block.
pub open spec fn challenge_expired(m: GraphModel, x: AccountId, now: BlockNum) -> bool {
    m.challenges.contains_key(x) && m.challenges[x].final_block <= now
}

/// Whether applying `attest` would keep every 32-bit counter in range.
/// Overwriting an attestation adjusts only the target's confidence sum; a
/// new attestation also raises both network totals.
pub open spec fn attest_fits(m: GraphModel, attester: AccountId, target: AccountId, c: u8) -> bool {
    if m.attestations.contains_key((target, attester)) {
        stats_or_zero(m.stats, target, 0).confidence_sum - m.attestations[
            (target, attester)
        ].confidence + c <= u32::MAX
    } else {
        &&& m.totals.total_attestations < u32::MAX
        &&& m.totals.total_confidence + c <= u32::MAX
        &&& stats_or_zero(m.stats, target, 0).confidence_sum + c <= u32::MAX
    }
}

/// The rejection `attest` answers, if any, checked in this order:
/// confidence bound, self-attestation, attester eligibility, counter range.
pub open spec fn attest_error(
    m: GraphModel,
    attester: AccountId,
    target: AccountId,
    c: u8,
) -> Option<Error> {
    if c > 10 {
        Some(Error::ConfidenceOutOfBounds)
    } else if attester == target {
        Some(Error::SelfAttestationError)
    } else if !eligible(m, attester) {
        Some(Error::InvalidAttester)
    } else if !attest_fits(m, attester, target, c) {
        Some(Error::CounterOverflow)
    } else {
        None
    }
}

/// The state after a successful `attest`: the attester's stats entry is
/// created on first contact; overwriting an existing attestation moves the
/// target's confidence sum by the change and leaves every count and the
/// network totals alone; a new attestation raises the target's count and
/// sum and both network totals.
pub open spec fn attest_applied(
    m: GraphModel,
    attester: AccountId,
    target: AccountId,
    c: u8,
    now: BlockNum,
) -> GraphModel {
    let stats1 = touched(m.stats, attester, now);
    let st = stats_or_zero(stats1, target, now);
    if m.attestations.contains_key((target, attester)) {
        let old_c = m.attestations[(target, attester)].confidence;
        GraphModel {
            attestations: m.attestations.insert(
                (target, attester),
                Attestation { confidence: c, block: now },
            ),
            stats: stats1.insert(
                target,
                AccountStats {
                    attest_count: st.attest_count,
                    confidence_sum: (st.confidence_sum - old_c + c) as u32,
                    birth_block: st.birth_block,
                },
            ),
            totals: m.totals,
            challenges: m.challenges,
            votes: m.votes,
            banned: m.banned,
            config: m.config,
        }
    } else {
        GraphModel {
            attestations: m.attestations.insert(
                (target, attester),
                Attestation { confidence: c, block: now },
            ),
            stats: stats1.insert(
                target,
                AccountStats {
                    attest_count: (st.attest_count + 1) as u32,
                    confidence_sum: (st.confidence_sum + c) as u32,
                    birth_block: st.birth_block,
                },
            ),
            totals: NetworkTotals {
                total_attestations: (m.totals.total_attestations + 1) as u32,
                total_confidence: (m.totals.total_confidence + c) as u32,
            },
            challenges: m.challenges,
            votes: m.votes,
            banned: m.banned,
            config: m.config,
        }
    }
}

/// The rejection `open_challenge` answers, if any, checked in this order:
/// suspect uniqueness, challenger eligibility, capacity.
pub open spec fn challenge_error(
    m: GraphModel,
    challenger: AccountId,
    suspect: AccountId,
) -> Option<Error> {
    if m.challenges.contains_key(suspect) {
        Some(Error::ChallengeAlreadyExists)
    } else if !eligible(m, challenger) {
        Some(Error::InvalidChallenger)
    } else if m.challenges.dom().len() >= m.config.max_challenges {
        Some(Error::MaxChallengesReached)
    } else {
        None
    }
}

/// The state after a successfully opened challenge: the suspect enters the
/// active set with `final_block = now + challenge_duration`, and the
/// challenger's stats entry is created on first contact.
pub open spec fn challenge_applied(
    m: GraphModel,
    challenger: AccountId,
    suspect: AccountId,
    now: BlockNum,
) -> GraphModel {
    GraphModel {
        challenges: m.challenges.insert(
            suspect,
            Challenge { challenger, final_block: (now + m.config.challenge_duration) as u64 },
        ),
        stats: touched(m.stats, challenger, now),
        ..m
    }
}

/// The rejection `cast_vote` answers, if any, checked in this order: an
/// active challenge must exist, the value must lie in `-10..=10`, and the
/// voter must pass the eligibility gate.
pub open spec fn vote_error(
    m: GraphModel,
    voter: AccountId,
    suspect: AccountId,
    value: i8,
) -> Option<Error> {
    if !m.challenges.contains_key(suspect) {
        Some(Error::ChallengeNotFound)
    } else if value > 10 || value < -10 {
        Some(Error::VoteOutOfBounds)
    } else if !eligible(m, voter) {
        Some(Error::InvalidVoter)
    } else {
        None
    }
}

/// The state after a successfully cast vote: the voter's vote on the
/// suspect is inserted or overwritten, and the voter's stats entry is
/// created on first contact.
pub open spec fn vote_applied(
    m: GraphModel,
    voter: AccountId,
    suspect: AccountId,
    value: i8,
    now: BlockNum,
) -> GraphModel {
    GraphModel {
        votes: m.votes.insert((suspect, voter), value),
        stats: touched(m.stats, voter, now),
        ..m
    }
}

/// The reputation and Sybil-resistance state machine.
///
/// Each collection is an association vector with pairwise-distinct keys;
/// the view abstracts them to the finite maps of [`GraphModel`].
pub struct SocialGraph {
    config: Config,
    attestations: Vec<AttestationEntry>,
    accounts: Vec<(AccountId, AccountStats)>,
    totals: NetworkTotals,
    challenges: Vec<(AccountId, Challenge)>,
    votes: Vec<VoteEntry>,
    banned: Vec<(AccountId, BlockNum)>,
}

impl View for SocialGraph {
    type V = GraphModel;

    closed spec fn view(&self) -> GraphModel {
        GraphModel {
            attestations: map_of(self.attestations@),
            stats: map_of(self.accounts@),
            totals: self.totals,
            challenges: map_of(self.challenges@),
            votes: map_of(self.votes@),
            banned: map_of(self.banned@),
            config: self.config,
        }
    }
}

impl SocialGraph {
    /// Well-formedness: distinct keys throughout, attestation values within
    /// bounds, the stored rollups equal to what the ledger actually shows,
    /// every attestation target known to the stats table, the challenge set
    /// within capacity, and every vote within bounds and tied to an active
    /// challenge.
    pub closed spec fn inv(&self) -> bool {
        &&& unique_keys(self.attestations@)
        &&& unique_keys(self.accounts@)
        &&& unique_keys(self.challenges@)
        &&& unique_keys(self.votes@)
        &&& unique_keys(self.banned@)
        &&& forall|i: int|
            0 <= i < self.attestations@.len() ==> (#[trigger] self.attestations@[i]).1.confidence
                <= 10 && self.attestations@[i].0.0 != self.attestations@[i].0.1
        &&& self.totals.total_attestations == self.attestations@.len()
        &&& self.totals.total_confidence <= 10 * self.totals.total_attestations
        &&& forall|i: int|
            0 <= i < self.accounts@.len() ==> (#[trigger] self.accounts@[i]).1.attest_count
                == count_toward(self.attestations@, self.accounts@[i].0)
                && self.accounts@[i].1.confidence_sum as int == sum_toward(
                self.attestations@,
                self.accounts@[i].0,
            )
        &&& forall|i: int|
            0 <= i < self.attestations@.len() ==> map_of(self.accounts@).contains_key(
                (#[trigger] self.attestations@[i]).0.0,
            )
        &&& self.challenges@.len() <= self.config.max_challenges
        &&& forall|i: int|
            0 <= i < self.votes@.len() ==> -10 <= (#[trigger] self.votes@[i]).1
                <= 10 && map_of(self.challenges@).contains_key(self.votes@[i].0.0)
    }

    /// The signed sum of the votes currently recorded against suspect `x`.
    pub closed spec fn tally_of(&self, x: AccountId) -> int {
        tally(self.votes@, x)
    }

    /// Builds a fresh, empty state machine for the given configuration.
    pub fn new(config: Config) -> (g: SocialGraph)
        ensures
            g.inv(),
            g@ == initial_model(config),
            forall|x: AccountId| #[trigger] g.tally_of(x) == 0,
    {
        let g = SocialGraph {
            config,
            attestations: Vec::new(),
            accounts: Vec::new(),
            totals: NetworkTotals { total_attestations: 0, total_confidence: 0 },
            challenges: Vec::new(),
            votes: Vec::new(),
            banned: Vec::new(),
        };
        proof {
            assert(g@ =~= initial_model(config));
        }
        g
    }

    /// The configuration the machine was built with.
    pub fn config(&self) -> (c: Config)
        ensures
            c == self@.config,
    {
        self.config
    }

    /// The network-wide totals.
    pub fn network_totals(&self) -> (t: NetworkTotals)
        ensures
            t == self@.totals,
    {
        self.totals
    }

    /// The stats recorded for `account`, if the network has met it.
    pub fn stats(&self, account: AccountId) -> (r: Option<AccountStats>)
        requires
            self.inv(),
        ensures
            r == if self@.stats.contains_key(account) {
                Some(self@.stats[account])
            } else {
                None::<AccountStats>
            },
    {
        get_by_id(&self.accounts, account)
    }

    /// Whether a ban record exists for `account`.
    pub fn is_banned(&self, account: AccountId) -> (r: bool)
        requires
            self.inv(),
        ensures
            r == self@.banned.contains_key(account),
    {
        get_by_id(&self.banned, account).is_some()
    }

    /// The active challenge against `suspect`, if one exists.
    pub fn active_challenge(&self, suspect: AccountId) -> (r: Option<Challenge>)
        requires
            self.inv(),
        ensures
            r == if self@.challenges.contains_key(suspect) {
                Some(self@.challenges[suspect])
            } else {
                None::<Challenge>
            },
    {
        get_by_id(&self.challenges, suspect)
    }

    /// The attestation `attester` currently holds toward `target`, if any.
    pub fn attestation_of(&self, target: AccountId, attester: AccountId) -> (r: Option<
        Attestation,
    >)
        requires
            self.inv(),
        ensures
            r == if self@.attestations.contains_key((target, attester)) {
                Some(self@.attestations[(target, attester)])
            } else {
                None::<Attestation>
            },
    {
        get_by_pair(&self.attestations, target, attester)
    }

    /// The vote `voter` currently has recorded against `suspect`, if any.
    pub fn vote_of(&self, suspect: AccountId, voter: AccountId) -> (r: Option<i8>)
        requires
            self.inv(),
        ensures
            r == if self@.votes.contains_key((suspect, voter)) {
                Some(self@.votes[(suspect, voter)])
            } else {
                None::<i8>
            },
    {
        get_by_pair(&self.votes, suspect, voter)
    }

    /// Evaluates the eligibility gate for `account` against the current
    /// aggregates and ban records.
    pub fn is_eligible(&self, account: AccountId) -> (r: bool)
        requires
            self.inv(),
        ensures
            r == eligible(self@, account),
    {
        if self.totals.total_attestations == 0 {
            return true;
        }
        let st = match get_by_id(&self.accounts, account) {
            Some(st) => st,
            None => AccountStats { attest_count: 0, confidence_sum: 0, birth_block: 0 },
        };
        if st.attest_count == 0 {
            return false;
        }
        let avg_confidence = self.totals.total_confidence / self.totals.total_attestations;
        if st.confidence_sum / st.attest_count < avg_confidence {
            return false;
        }
        proof {
            // an attestation exists, its target has a stats entry, so the
            // divisor below is not zero
            lemma_map_of_len(self.accounts@);
            if self.accounts@.len() == 0 {
                assert(map_of(self.accounts@).contains_key(self.attestations@[0].0.0));
            }
        }
        let avg_attestations = (self.totals.total_attestations as u64) / (self.accounts.len()
            as u64);
        if (st.attest_count as u64) < avg_attestations {
            return false;
        }
        let banned = get_by_id(&self.banned, account).is_some();
        !banned
    }

    /// Records first contact with `a`: creates a zero stats entry born at
    /// `now` if the account has none, and otherwise changes nothing.
    fn touch(&mut self, a: AccountId, now: BlockNum)
        requires
            old(self).inv(),
        ensures
            final(self).inv(),
            final(self)@ == (GraphModel { stats: touched(old(self)@.stats, a, now), ..old(self)@ }),
            final(self).attestations@ == old(self).attestations@,
            final(self).challenges@ == old(self).challenges@,
            final(self).votes@ == old(self).votes@,
            final(self).banned@ == old(self).banned@,
            final(self).totals == old(self).totals,
            final(self).config == old(self).config,
    {
        let ghost accs0 = self.accounts@;
        let existing = get_by_id(&self.accounts, a);
        if existing.is_none() {
            proof {
                lemma_map_of_contains(accs0, a);
            }
            upsert_by_id(
                &mut self.accounts,
                a,
                AccountStats { attest_count: 0, confidence_sum: 0, birth_block: now },
            );
            proof {
                // the new account is the target of no attestation, so its
                // zero rollup is accurate
                assert forall|i: int|
                    0 <= i < self.attestations@.len() implies (
                #[trigger] self.attestations@[i]).0.0 != a by {
                    if self.attestations@[i].0.0 == a {
                        assert(map_of(accs0).contains_key(a));
                    }
                }
                lemma_count_absent_sum_zero(self.attestations@, a);
                assert(self.accounts@ == accs0.push(
                    (a, AccountStats { attest_count: 0, confidence_sum: 0, birth_block: now }),
                ));
                assert forall|q: int| 0 <= q < self.accounts@.len() implies (
                #[trigger] self.accounts@[q]).1.attest_count == count_toward(
                    self.attestations@,
                    self.accounts@[q].0,
                ) && self.accounts@[q].1.confidence_sum as int == sum_toward(
                    self.attestations@,
                    self.accounts@[q].0,
                ) by {
                    if q < accs0.len() {
                        assert(self.accounts@[q] == accs0[q]);
                    }
                }
                assert(self@ =~= (GraphModel {
                    stats: touched(old(self)@.stats, a, now),
                    ..old(self)@
                }));
            }
        } else {
            proof {
                assert(self@ =~= (GraphModel {
                    stats: touched(old(self)@.stats, a, now),
                    ..old(self)@
                }));
            }
        }
    }

    /// `attester` states confidence `confidence` in `target`'s validity at
    /// block `current_block`.
    ///
    /// Rejected, in this order and with no effect, when the confidence
    /// exceeds 10, the two accounts coincide, the attester fails the
    /// eligibility gate, or a 32-bit counter would overflow. On success the
    /// state moves to [`attest_applied`].
    pub fn attest(
        &mut self,
        attester: AccountId,
        target: AccountId,
        confidence: u8,
        current_block: BlockNum,
    ) -> (r: Result<(), Error>)
        requires
            old(self).inv(),
        ensures
            final(self).inv(),
            r is Ok ==> attest_error(old(self)@, attester, target, confidence) is None
                && final(self)@ == attest_applied(
                old(self)@,
                attester,
                target,
                confidence,
                current_block,
            ),
            r matches Err(e) ==> attest_error(old(self)@, attester, target, confidence) == Some(e)
                && *final(self) == *old(self),
            forall|x: AccountId| #[trigger] final(self).tally_of(x) == old(self).tally_of(x),
    {
        if confidence > 10 {
            return Err(Error::ConfidenceOutOfBounds);
        }
        if attester == target {
            return Err(Error::SelfAttestationError);
        }
        if !self.is_eligible(attester) {
            return Err(Error::InvalidAttester);
        }
        let ghost m0 = self@;
        let ghost atts0 = self.attestations@;
        let ghost accs0 = self.accounts@;
        let existing = get_by_pair(&self.attestations, target, attester);
        match existing {
            Some(old_att) => {
                proof {
                    lemma_map_of_contains(atts0, (target, attester));
                    let i = choose|i: int|
                        0 <= i < atts0.len() && (#[trigger] atts0[i]).0 == (target, attester);
                    assert(map_of(accs0).contains_key(atts0[i].0.0));
                    lemma_map_of_index(atts0, i);
                    lemma_entry_le_sum(atts0, i);
                    lemma_map_of_contains(accs0, target);
                    let j = choose|j: int|
                        0 <= j < accs0.len() && (#[trigger] accs0[j]).0 == target;
                    lemma_map_of_index(accs0, j);
                }
                let st = get_by_id(&self.accounts, target).unwrap();
                let new_sum: u32;
                if confidence >= old_att.confidence {
                    let add = (confidence - old_att.confidence) as u32;
                    if st.confidence_sum > u32::MAX - add {
                        return Err(Error::CounterOverflow);
                    }
                    new_sum = st.confidence_sum + add;
                } else {
                    new_sum = st.confidence_sum - ((old_att.confidence - confidence) as u32);
                }
                self.touch(attester, current_block);
                let ghost accs1 = self.accounts@;
                upsert_by_id(
                    &mut self.accounts,
                    target,
                    AccountStats {
                        attest_count: st.attest_count,
                        confidence_sum: new_sum,
                        birth_block: st.birth_block,
                    },
                );
                let ghost new_entry = (
                    (target, attester),
                    Attestation { confidence, block: current_block },
                );
                upsert_by_pair(
                    &mut self.attestations,
                    target,
                    attester,
                    Attestation { confidence, block: current_block },
                );
                proof {
                    let atts2 = self.attestations@;
                    let accs2 = self.accounts@;
                    let i = choose|i: int|
                        0 <= i < atts0.len() && (#[trigger] atts0[i]).0 == (target, attester)
                            && atts2 == atts0.update(i, new_entry);
                    lemma_map_of_index(atts0, i);
                    assert(atts0[i].1 == old_att);
                    // rollups stay accurate for every account
                    assert forall|q: int| 0 <= q < accs2.len() implies (
                    #[trigger] accs2[q]).1.attest_count == count_toward(atts2, accs2[q].0)
                        && accs2[q].1.confidence_sum as int == sum_toward(atts2, accs2[q].0) by {
                        lemma_aggregates_update(atts0, i, new_entry, accs2[q].0);
                        let target_stats = AccountStats {
                            attest_count: st.attest_count,
                            confidence_sum: new_sum,
                            birth_block: st.birth_block,
                        };
                        let j = choose|j: int|
                            0 <= j < accs1.len() && (#[trigger] accs1[j]).0 == target && accs2
                                == accs1.update(j, (target, target_stats));
                        if q != j {
                            assert(accs2[q] == accs1[q]);
                        }
                    }
                    // every target still has a stats entry
                    assert forall|p: int| 0 <= p < atts2.len() implies map_of(accs2).contains_key(
                        (#[trigger] atts2[p]).0.0,
                    ) by {
                        assert(atts2[p].0 == atts0[p].0);
                        assert(map_of(accs0).contains_key(atts0[p].0.0));
                    }
                    // attestation entries stay well formed
                    assert forall|p: int| 0 <= p < atts2.len() implies (
                    #[trigger] atts2[p]).1.confidence <= 10 && atts2[p].0.0 != atts2[p].0.1 by {
                        if p != i {
                            assert(atts2[p] == atts0[p]);
                        }
                    }
                    assert(self@ =~= attest_applied(m0, attester, target, confidence,
                    current_block));
                }
                Ok(())
            },
            None => {
                if self.totals.total_attestations == u32::MAX {
                    return Err(Error::CounterOverflow);
                }
                if self.totals.total_confidence > u32::MAX - (confidence as u32) {
                    return Err(Error::CounterOverflow);
                }
                let st_opt = get_by_id(&self.accounts, target);
                let new_stats: AccountStats;
                match st_opt {
                    Some(st) => {
                        if st.confidence_sum > u32::MAX - (confidence as u32) {
                            return Err(Error::CounterOverflow);
                        }
                        proof {
                            lemma_map_of_contains(accs0, target);
                            let j = choose|j: int|
                                0 <= j < accs0.len() && (#[trigger] accs0[j]).0 == target;
                            lemma_map_of_index(accs0, j);
                            lemma_count_le_len(atts0, target);
                        }
                        new_stats = AccountStats {
                            attest_count: st.attest_count + 1,
                            confidence_sum: st.confidence_sum + (confidence as u32),
                            birth_block: st.birth_block,
                        };
                    },
                    None => {
                        new_stats = AccountStats {
                            attest_count: 1,
                            confidence_sum: confidence as u32,
                            birth_block: current_block,
                        };
                    },
                }
                self.touch(attester, current_block);
                let ghost accs1 = self.accounts@;
                upsert_by_id(&mut self.accounts, target, new_stats);
                let ghost new_entry = (
                    (target, attester),
                    Attestation { confidence, block: current_block },
                );
                upsert_by_pair(
                    &mut self.attestations,
                    target,
                    attester,
                    Attestation { confidence, block: current_block },
                );
                self.totals = NetworkTotals {
                    total_attestations: self.totals.total_attestations + 1,
                    total_confidence: self.totals.total_confidence + (confidence as u32),
                };
                proof {
                    let atts2 = self.attestations@;
                    let accs2 = self.accounts@;
                    assert(atts2 == atts0.push(new_entry));
                    // rollups stay accurate for every account
                    assert forall|q: int| 0 <= q < accs2.len() implies (
                    #[trigger] accs2[q]).1.attest_count == count_toward(atts2, accs2[q].0)
                        && accs2[q].1.confidence_sum as int == sum_toward(atts2, accs2[q].0) by {
                        lemma_aggregates_push(atts0, new_entry, accs2[q].0);
                        if map_of(accs1).contains_key(target) {
                            let j = choose|j: int|
                                0 <= j < accs1.len() && (#[trigger] accs1[j]).0 == target && accs2
                                    == accs1.update(j, (target, new_stats));
                            if q != j {
                                assert(accs2[q] == accs1[q]);
                            }
                        } else {
                            assert(accs2 == accs1.push((target, new_stats)));
                            if q < accs1.len() {
                                assert(accs2[q] == accs1[q]);
                            } else {
                                lemma_map_of_contains(accs1, target);
                                lemma_count_absent_sum_zero(atts0, target);
                            }
                        }
                    }
                    // every target has a stats entry
                    assert forall|p: int| 0 <= p < atts2.len() implies map_of(accs2).contains_key(
                        (#[trigger] atts2[p]).0.0,
                    ) by {
                        if p < atts0.len() {
                            assert(atts2[p] == atts0[p]);
                            assert(map_of(accs0).contains_key(atts0[p].0.0));
                        } else {
                            assert(atts2[p] == new_entry);
                        }
                    }
                    // attestation entries stay well formed
                    assert forall|p: int| 0 <= p < atts2.len() implies (
                    #[trigger] atts2[p]).1.confidence <= 10 && atts2[p].0.0 != atts2[p].0.1 by {
                        if p < atts0.len() {
                            assert(atts2[p] == atts0[p]);
                        }
                    }
                    assert(self@ =~= attest_applied(m0, attester, target, confidence,
                    current_block));
                }
                Ok(())
            },
        }
    }

    /// `challenger` opens a challenge against `suspect` at block
    /// `current_block`, to be resolved `challenge_duration` blocks later.
    ///
    /// Rejected, in this order and with no effect, when the suspect already
    /// has an active challenge, the challenger fails the eligibility gate,
    /// or the active set is at capacity. On success the state moves to
    /// [`challenge_applied`].
    pub fn challenge(
        &mut self,
        challenger: AccountId,
        suspect: AccountId,
        current_block: BlockNum,
    ) -> (r: Result<(), Error>)
        requires
            old(self).inv(),
            current_block + old(self)@.config.challenge_duration <= u64::MAX,
        ensures
            final(self).inv(),
            r is Ok ==> challenge_error(old(self)@, challenger, suspect) is None
                && final(self)@ == challenge_applied(old(self)@, challenger, suspect,
            current_block),
            r matches Err(e) ==> challenge_error(old(self)@, challenger, suspect) == Some(e)
                && *final(self) == *old(self),
            forall|x: AccountId| #[trigger] final(self).tally_of(x) == old(self).tally_of(x),
    {
        let existing = get_by_id(&self.challenges, suspect);
        if existing.is_some() {
            return Err(Error::ChallengeAlreadyExists);
        }
        if !self.is_eligible(challenger) {
            return Err(Error::InvalidChallenger);
        }
        proof {
            lemma_map_of_len(self.challenges@);
        }
        if self.challenges.len() >= (self.config.max_challenges as usize) {
            return Err(Error::MaxChallengesReached);
        }
        let ghost m0 = self@;
        let ghost chals0 = self.challenges@;
        let final_block = current_block + (self.config.challenge_duration as u64);
        self.touch(challenger, current_block);
        upsert_by_id(&mut self.challenges, suspect, Challenge { challenger, final_block });
        proof {
            assert(self.challenges@ == chals0.push(
                (suspect, Challenge { challenger, final_block }),
            ));
            // every vote still points at an active challenge
            assert forall|i: int| 0 <= i < self.votes@.len() implies -10 <= (
            #[trigger] self.votes@[i]).1 <= 10 && map_of(self.challenges@).contains_key(
                self.votes@[i].0.0,
            ) by {
                assert(map_of(chals0).contains_key(self.votes@[i].0.0));
            }
            assert(self@ =~= challenge_applied(m0, challenger, suspect, current_block));
        }
        Ok(())
    }

    /// `voter` casts `value` on the active challenge against `suspect` at
    /// block `current_block`; voting again overwrites the previous vote.
    ///
    /// Rejected, in this order and with no effect, when no active challenge
    /// exists for the suspect, the value lies outside `-10..=10`, or the
    /// voter fails the eligibility gate. On success the state moves to
    /// [`vote_applied`], and the suspect's tally moves by the new value
    /// minus any value the voter had cast before.
    pub fn vote(
        &mut self,
        voter: AccountId,
        suspect: AccountId,
        value: i8,
        current_block: BlockNum,
    ) -> (r: Result<(), Error>)
        requires
            old(self).inv(),
        ensures
            final(self).inv(),
            r is Ok ==> vote_error(old(self)@, voter, suspect, value) is None
                && final(self)@ == vote_applied(old(self)@, voter, suspect, value, current_block),
            r is Ok ==> final(self).tally_of(suspect) == old(self).tally_of(suspect) + value - (
            if old(self)@.votes.contains_key((suspect, voter)) {
                old(self)@.votes[(suspect, voter)] as int
            } else {
                0
            }),
            r is Ok ==> forall|x: AccountId|
                x != suspect ==> #[trigger] final(self).tally_of(x) == old(self).tally_of(x),
            r matches Err(e) ==> vote_error(old(self)@, voter, suspect, value) == Some(e)
                && *final(self) == *old(self),
    {
        let existing = get_by_id(&self.challenges, suspect);
        if existing.is_none() {
            return Err(Error::ChallengeNotFound);
        }
        if value > 10 || value < -10 {
            return Err(Error::VoteOutOfBounds);
        }
        if !self.is_eligible(voter) {
            return Err(Error::InvalidVoter);
        }
        let ghost m0 = self@;
        let ghost votes0 = self.votes@;
        self.touch(voter, current_block);
        upsert_by_pair(&mut self.votes, suspect, voter, value);
        proof {
            let votes2 = self.votes@;
            let new_entry = ((suspect, voter), value);
            if map_of(votes0).contains_key((suspect, voter)) {
                let i = choose|i: int|
                    0 <= i < votes0.len() && (#[trigger] votes0[i]).0 == (suspect, voter) && votes2
                        == votes0.update(i, new_entry);
                lemma_map_of_index(votes0, i);
                assert forall|x: AccountId| #[trigger]
                    tally(votes2, x) == tally(votes0, x) + (if x == suspect {
                        value - votes0[i].1
                    } else {
                        0
                    }) by {
                    lemma_tally_update(votes0, i, new_entry, x);
                }
                assert forall|p: int| 0 <= p < votes2.len() implies -10 <= (
                #[trigger] votes2[p]).1 <= 10 && map_of(self.challenges@).contains_key(
                    votes2[p].0.0,
                ) by {
                    if p != i {
                        assert(votes2[p] == votes0[p]);
                    }
                }
            } else {
                assert(votes2 == votes0.push(new_entry));
                assert forall|x: AccountId| #[trigger]
                    tally(votes2, x) == tally(votes0, x) + (if x == suspect {
                        value as int
                    } else {
                        0
                    }) by {
                    lemma_tally_push(votes0, new_entry, x);
                }
                assert forall|p: int| 0 <= p < votes2.len() implies -10 <= (
                #[trigger] votes2[p]).1 <= 10 && map_of(self.challenges@).contains_key(
                    votes2[p].0.0,
                ) by {
                    if p < votes0.len() {
                        assert(votes2[p] == votes0[p]);
                    }
                }
            }
            assert(self@ =~= vote_applied(m0, voter, suspect, value, current_block));
        }
        Ok(())
    }

    /// Sums the votes currently recorded against `x`.
    fn tally_votes(&self, x: AccountId) -> (t: i128)
        requires
            forall|i: int| 0 <= i < self.votes@.len() ==> -10 <= (#[trigger] self.votes@[i]).1
                <= 10,
        ensures
            t == tally(self.votes@, x),
    {
        let mut acc: i128 = 0;
        let mut i: usize = 0;
        while i < self.votes.len()
            invariant
                0 <= i <= self.votes@.len(),
                forall|j: int| 0 <= j < self.votes@.len() ==> -10 <= (#[trigger] self.votes@[j]).1
                    <= 10,
                acc == tally(self.votes@.take(i as int), x),
                -10 * (i as int) <= acc <= 10 * (i as int),
            decreases self.votes@.len() - i,
        {
            let e = self.votes[i];
            proof {
                assert(self.votes@.take(i as int + 1).drop_last() =~= self.votes@.take(i as int));
                assert(self.votes@.take(i as int + 1).last() == self.votes@[i as int]);
            }
            if e.0.0 == x {
                acc = acc + (e.1 as i128);
            }
            i += 1;
        }
        proof {
            assert(self.votes@.take(self.votes@.len() as int) =~= self.votes@);
        }
        acc
    }

    /// Resolves every challenge that has reached its final block, once per
    /// block boundary.
    ///
    /// Expiry is decided by a full scan — `final_block <= current_block` —
    /// independent of the order the challenges were stored in. For each
    /// resolved challenge the votes against its suspect are tallied; a
    /// strictly negative tally bans the suspect at `current_block` (a tally
    /// of zero does not ban). All votes for resolved suspects are removed,
    /// as are the resolved challenges themselves; challenges still running
    /// stay untouched, and the ledger, rollups, and totals never change.
    pub fn tick(&mut self, current_block: BlockNum)
        requires
            old(self).inv(),
        ensures
            final(self).inv(),
            final(self)@.attestations == old(self)@.attestations,
            final(self)@.stats == old(self)@.stats,
            final(self)@.totals == old(self)@.totals,
            final(self)@.config == old(self)@.config,
            forall|x: AccountId| #[trigger]
                final(self)@.challenges.contains_key(x) <==> old(self)@.challenges.contains_key(x)
                    && old(self)@.challenges[x].final_block > current_block,
            forall|x: AccountId| #[trigger]
                final(self)@.challenges.contains_key(x) ==> final(self)@.challenges[x]
                    == old(self)@.challenges[x],
            forall|k: (AccountId, AccountId)| #[trigger]
                final(self)@.votes.contains_key(k) <==> old(self)@.votes.contains_key(k)
                    && !challenge_expired(old(self)@, k.0, current_block),
            forall|k: (AccountId, AccountId)| #[trigger]
                final(self)@.votes.contains_key(k) ==> final(self)@.votes[k]
                    == old(self)@.votes[k],
            forall|x: AccountId|
                challenge_expired(old(self)@, x, current_block) && old(self).tally_of(x) < 0
                    ==> #[trigger] final(self)@.banned.contains_key(x) && final(self)@.banned[x]
                    == current_block,
            forall|x: AccountId|
                !(challenge_expired(old(self)@, x, current_block) && old(self).tally_of(x) < 0)
                    ==> (#[trigger] final(self)@.banned.contains_key(x)
                    == old(self)@.banned.contains_key(x)) && (final(self)@.banned.contains_key(x)
                    ==> final(self)@.banned[x] == old(self)@.banned[x]),
            forall|x: AccountId| #[trigger]
                final(self).tally_of(x) == (if challenge_expired(old(self)@, x, current_block) {
                    0int
                } else {
                    old(self).tally_of(x)
                }),
    {
        let ghost m0 = self@;
        let ghost chals0 = self.challenges@;
        let ghost votes0 = self.votes@;
        let ghost banned0 = self.banned@;
        let ghost keep = |e: (AccountId, Challenge)| e.1.final_block > current_block;
        let ghost expi = |e: (AccountId, Challenge)| !(e.1.final_block > current_block);
        // Split the active set by expiry, independent of storage order.
        let mut remaining: Vec<(AccountId, Challenge)> = Vec::new();
        let mut expired: Vec<(AccountId, Challenge)> = Vec::new();
        let mut i: usize = 0;
        #[verifier::loop_isolation(false)]
        while i < self.challenges.len()
            invariant
                0 <= i <= chals0.len(),
                remaining@ == chals0.take(i as int).filter(keep),
                expired@ == chals0.take(i as int).filter(expi),
            decreases chals0.len() - i,
        {
            let e = self.challenges[i];
            proof {
                reveal(Seq::filter);
                assert(chals0.take(i as int + 1).drop_last() =~= chals0.take(i as int));
                assert(chals0.take(i as int + 1).last() == chals0[i as int]);
            }
            if e.1.final_block > current_block {
                remaining.push(e);
            } else {
                expired.push(e);
            }
            i += 1;
        }
        proof {
            assert(chals0.take(chals0.len() as int) =~= chals0);
            lemma_map_of_filter(chals0, keep);
            lemma_map_of_filter(chals0, expi);
            chals0.lemma_filter_len(keep);
            // a challenge is in exactly one half, and `expired` mirrors
            // `challenge_expired` on the starting state
            assert forall|x: AccountId| #[trigger]
                map_of(expired@).contains_key(x) == challenge_expired(m0, x, current_block) by {
                if map_of(chals0).contains_key(x) {
                }
            }
        }
        self.challenges = remaining;
        let ghost chals1 = self.challenges@;
        // Resolve each expired challenge: a strictly negative tally bans.
        let mut j: usize = 0;
        #[verifier::loop_isolation(false)]
        while j < expired.len()
            invariant
                0 <= j <= expired@.len(),
                self.attestations@ == old(self).attestations@,
                self.accounts@ == old(self).accounts@,
                self.totals == old(self).totals,
                self.config == old(self).config,
                self.votes@ == votes0,
                self.challenges@ == chals1,
                unique_keys(self.banned@),
                forall|x: AccountId|
                    map_of(expired@.take(j as int)).contains_key(x) && tally(votes0, x) < 0
                        ==> #[trigger] map_of(self.banned@).contains_key(x) && map_of(
                        self.banned@,
                    )[x] == current_block,
                forall|x: AccountId|
                    !(map_of(expired@.take(j as int)).contains_key(x) && tally(votes0, x) < 0)
                        ==> (#[trigger] map_of(self.banned@).contains_key(x) == map_of(
                        banned0,
                    ).contains_key(x)) && (map_of(self.banned@).contains_key(x) ==> map_of(
                        self.banned@,
                    )[x] == map_of(banned0)[x]),
            decreases expired@.len() - j,
        {
            proof {
                assert(expired@.take(j as int).len() == j as int);
                assert(expired@.take(j as int + 1).drop_last() =~= expired@.take(j as int));
                assert(expired@.take(j as int + 1).last() == expired@[j as int]);
            }
            let suspect = expired[j].0;
            let t = self.tally_votes(suspect);
            let ghost banned_pre = self.banned@;
            if t < 0 {
                upsert_by_id(&mut self.banned, suspect, current_block);
            }
            proof {
                let took = expired@.take(j as int + 1);
                let prev = expired@.take(j as int);
                assert(map_of(took) == map_of(prev).insert(
                    expired@[j as int].0,
                    expired@[j as int].1,
                ));
                // the suspect has not been processed before
                lemma_map_of_contains(prev, suspect);
                assert(!map_of(prev).contains_key(suspect));
                assert forall|x: AccountId|
                    map_of(took).contains_key(x) && tally(votes0, x)
                        < 0 implies #[trigger] map_of(self.banned@).contains_key(x) && map_of(
                    self.banned@,
                )[x] == current_block by {
                    if x != suspect {
                        assert(map_of(prev).contains_key(x));
                        assert(map_of(banned_pre).contains_key(x) && map_of(banned_pre)[x]
                            == current_block);
                    }
                }
                assert forall|x: AccountId|
                    !(map_of(took).contains_key(x) && tally(votes0, x) < 0) implies (
                #[trigger] map_of(self.banned@).contains_key(x) == map_of(banned0).contains_key(x))
                    && (map_of(self.banned@).contains_key(x) ==> map_of(self.banned@)[x] == map_of(
                    banned0,
                )[x]) by {
                    assert(!(map_of(prev).contains_key(x) && tally(votes0, x) < 0));
                    if x == suspect {
                        assert(map_of(took).contains_key(suspect));
                        assert(tally(votes0, suspect) >= 0);
                        assert(self.banned@ == banned_pre);
                    } else {
                        assert(map_of(self.banned@).contains_key(x) == map_of(
                            banned_pre,
                        ).contains_key(x));
                    }
                }
            }
            j += 1;
        }
        proof {
            assert(expired@.take(expired@.len() as int) =~= expired@);
        }
        // Drain the votes of every resolved suspect.
        let ghost vkeep = |e: VoteEntry| !map_of(expired@).contains_key(e.0.0);
        let mut kept: Vec<VoteEntry> = Vec::new();
        let mut q: usize = 0;
        #[verifier::loop_isolation(false)]
        while q < self.votes.len()
            invariant
                0 <= q <= votes0.len(),
                self.votes@ == votes0,
                kept@ == votes0.take(q as int).filter(vkeep),
            decreases votes0.len() - q,
        {
            let e = self.votes[q];
            proof {
                reveal(Seq::filter);
                assert(votes0.take(q as int + 1).drop_last() =~= votes0.take(q as int));
                assert(votes0.take(q as int + 1).last() == votes0[q as int]);
            }
            let dropped = get_by_id(&expired, e.0.0);
            if dropped.is_none() {
                kept.push(e);
            }
            q += 1;
        }
        self.votes = kept;
        proof {
            assert(votes0.take(votes0.len() as int) =~= votes0);
            assert(self.votes@ == votes0.filter(vkeep));
            lemma_map_of_filter(votes0, vkeep);
            lemma_filter_subset(votes0, vkeep);
            // final tallies: zero for resolved suspects, untouched otherwise
            assert forall|x: AccountId| #[trigger]
                tally(self.votes@, x) == (if challenge_expired(m0, x, current_block) {
                    0int
                } else {
                    tally(votes0, x)
                }) by {
                if map_of(expired@).contains_key(x) {
                    lemma_tally_filter_drops(votes0, vkeep, x);
                } else {
                    lemma_tally_filter_keeps(votes0, vkeep, x);
                }
            }
            // every kept vote is within bounds and still has its challenge
            assert forall|p: int| 0 <= p < self.votes@.len() implies -10 <= (
            #[trigger] self.votes@[p]).1 <= 10 && map_of(self.challenges@).contains_key(
                self.votes@[p].0.0,
            ) by {
                votes0.lemma_filter_pred(vkeep, p);
                assert(votes0.contains(self.votes@[p]));
                let w = choose|w: int| 0 <= w < votes0.len() && votes0[w] == self.votes@[p];
                assert(map_of(chals0).contains_key(votes0[w].0.0));
            }
        }
    }
}

/// Aggregate consistency: the network-wide counter equals the number of
/// distinct `(target, attester)` attestation entries, and each account's
/// stored `attest_count` equals the number of attestation entries whose
/// target it is — an account without a stats entry is the target of none.
pub proof fn lemma_aggregate_consistency(g: &SocialGraph, x: AccountId)
    requires
        g.inv(),
    ensures
        g@.attestations.dom().finite(),
        g@.totals.total_attestations == g@.attestations.dom().len(),
        g@.stats.contains_key(x) ==> g@.stats[x].attest_count == keys_toward(
            g@.attestations,
            x,
        ).len(),
        !g@.stats.contains_key(x) ==> keys_toward(g@.attestations, x).len() == 0,
{
    lemma_map_of_len(g.attestations@);
    lemma_count_is_dom_filter_len(g.attestations@, x);
    if g@.stats.contains_key(x) {
        lemma_map_of_contains(g.accounts@, x);
        let j = choose|j: int| 0 <= j < g.accounts@.len() && (#[trigger] g.accounts@[j]).0 == x;
        lemma_map_of_index(g.accounts@, j);
    } else {
        assert forall|i: int|
            0 <= i < g.attestations@.len() implies (#[trigger] g.attestations@[i]).0.0 != x by {
            if g.attestations@[i].0.0 == x {
                assert(map_of(g.accounts@).contains_key(x));
            }
        }
        lemma_count_absent_sum_zero(g.attestations@, x);
    }
}

/// A suspect no recorded vote points at tallies to zero.
pub proof fn lemma_tally_of_no_votes(g: &SocialGraph, x: AccountId)
    requires
        forall|k: (AccountId, AccountId)| #[trigger] g@.votes.contains_key(k) ==> k.0 != x,
    ensures
        g.tally_of(x) == 0,
{
    assert forall|i: int| 0 <= i < g.votes@.len() implies (#[trigger] g.votes@[i]).0.0 != x by {
        lemma_map_of_contains(g.votes@, g.votes@[i].0);
        assert(g@.votes.contains_key(g.votes@[i].0));
    }
    lemma_tally_absent(g.votes@, x);
}

} // verus!

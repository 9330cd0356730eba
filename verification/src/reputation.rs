//! Multi-dimensional reputation: per-domain scores with decay, stakes that
//! boost an identity's score, reputation imported from other chains at a
//! discount, and endorsements between active identities.
use crate::identity::{IdentityId, IdentityRegistry};
use crate::types::{
    push_bytes32, push_u64_le, spec_hash_bytes, u64_le, AccountId, Balance, BlockNumber, ChainId,
};
use crate::vecmap::{neq_pred, vec_without, MapKey, VecMap};
use std::collections::HashMap;
use vstd::prelude::*;

verus! {

/// Smallest reputation stake.
pub const MIN_REPUTATION_STAKE: Balance = 1_000;

/// A stake stays locked for 14 days (in 6 s blocks).
pub const REPUTATION_STAKE_LOCK: BlockNumber = 201_600;

/// Imported reputation keeps this percentage of its original score.
pub const CROSS_CHAIN_DISCOUNT: u32 = 50;

pub const MAX_ENDORSEMENTS_PER_DOMAIN: usize = 100;

/// Highest score in one domain.
pub const MAX_DOMAIN_SCORE: u32 = 10_000;

/// Domain scores decay by one percent per 30 days.
pub const DOMAIN_DECAY_PERIOD: BlockNumber = 432_000;

/// Number of reputation domains.
pub const DOMAIN_COUNT: usize = 6;

#[derive(Debug, Clone, Copy, PartialEq, Eq, Hash, Structural)]
pub enum ReputationDomain {
    Governance,
    Technical,
    Community,
    Arbitration,
    Validation,
    Economic,
}

impl ReputationDomain {
    pub open spec fn spec_index(self) -> int {
        match self {
            ReputationDomain::Governance => 0,
            ReputationDomain::Technical => 1,
            ReputationDomain::Community => 2,
            ReputationDomain::Arbitration => 3,
            ReputationDomain::Validation => 4,
            ReputationDomain::Economic => 5,
        }
    }

    /// Position of the domain in a reputation's domain list.
    pub fn index(&self) -> (i: usize)
        ensures
            i == self.spec_index(),
    {
        match self {
            ReputationDomain::Governance => 0,
            ReputationDomain::Technical => 1,
            ReputationDomain::Community => 2,
            ReputationDomain::Arbitration => 3,
            ReputationDomain::Validation => 4,
            ReputationDomain::Economic => 5,
        }
    }

    pub open spec fn spec_from_index(i: int) -> ReputationDomain {
        if i == 0 {
            ReputationDomain::Governance
        } else if i == 1 {
            ReputationDomain::Technical
        } else if i == 2 {
            ReputationDomain::Community
        } else if i == 3 {
            ReputationDomain::Arbitration
        } else if i == 4 {
            ReputationDomain::Validation
        } else {
            ReputationDomain::Economic
        }
    }

    pub fn from_index(i: usize) -> (d: ReputationDomain)
        requires
            i < DOMAIN_COUNT,
        ensures
            d == Self::spec_from_index(i as int),
            d.spec_index() == i,
    {
        if i == 0 {
            ReputationDomain::Governance
        } else if i == 1 {
            ReputationDomain::Technical
        } else if i == 2 {
            ReputationDomain::Community
        } else if i == 3 {
            ReputationDomain::Arbitration
        } else if i == 4 {
            ReputationDomain::Validation
        } else {
            ReputationDomain::Economic
        }
    }
}

impl MapKey for ReputationDomain {
    fn key_eq(&self, other: &Self) -> (b: bool) {
        self.index() == other.index()
    }
}

/// `score + points`, at most MAX_DOMAIN_SCORE.
pub open spec fn domain_add(score: u32, points: u32) -> u32 {
    if score + points > MAX_DOMAIN_SCORE {
        if score > MAX_DOMAIN_SCORE {
            score
        } else {
            MAX_DOMAIN_SCORE
        }
    } else {
        (score + points) as u32
    }
}

fn domain_add_exec(score: u32, points: u32) -> (r: u32)
    ensures
        r == domain_add(score, points),
{
    if score as u64 + points as u64 > MAX_DOMAIN_SCORE as u64 {
        if score > MAX_DOMAIN_SCORE {
            score
        } else {
            MAX_DOMAIN_SCORE
        }
    } else {
        score + points
    }
}

/// `score` less `penalty_percent` percent of it (at most all of it).
pub open spec fn spec_cut(score: u32, penalty_percent: u8) -> u32 {
    let p: int = if penalty_percent > 100 {
        100
    } else {
        penalty_percent as int
    };
    (score - score * p / 100) as u32
}

proof fn lemma_cut_le(score: u32, penalty_percent: u8)
    ensures
        spec_cut(score, penalty_percent) <= score,
{
    let p: int = if penalty_percent > 100 {
        100
    } else {
        penalty_percent as int
    };
    let s = score as int;
    assert(0 <= s * p / 100 <= s) by (nonlinear_arith)
        requires
            0 <= p <= 100,
            s >= 0,
    ;
}

fn cut(score: u32, penalty_percent: u8) -> (r: u32)
    ensures
        r == spec_cut(score, penalty_percent),
{
    let p: u64 = if penalty_percent > 100 {
        100
    } else {
        penalty_percent as u64
    };
    let s = score as u64;
    proof {
        assert(s * p <= 0xffff_ffffu64 * 100) by (nonlinear_arith)
            requires
                s <= 0xffff_ffffu64,
                p <= 100,
        ;
        assert(s * p / 100 <= s) by (nonlinear_arith)
            requires
                p <= 100,
        ;
    }
    (s - s * p / 100) as u32
}

#[derive(Debug, Clone, Copy, PartialEq, Eq)]
pub struct DomainReputation {
    pub domain: ReputationDomain,
    pub score: u32,
    pub endorsement_count: u32,
    pub last_activity: BlockNumber,
}

/// Sum of the scores of `ds`.
pub open spec fn score_sum(ds: Seq<DomainReputation>) -> nat
    decreases ds.len(),
{
    if ds.len() == 0 {
        0
    } else {
        score_sum(ds.drop_last()) + ds.last().score as nat
    }
}

/// Reputation of one identity across all domains; the overall score is
/// the sum of the domain scores.
#[derive(Debug, Clone)]
pub struct MultiDimensionalReputation {
    pub identity_id: IdentityId,
    /// One entry per domain, in domain order.
    pub domains: Vec<DomainReputation>,
    pub overall_score: u32,
    pub created_at: BlockNumber,
    pub last_decay: BlockNumber,
}

impl MultiDimensionalReputation {
    pub open spec fn wf(&self) -> bool {
        &&& self.domains@.len() == DOMAIN_COUNT
        &&& forall|i: int|
            0 <= i < DOMAIN_COUNT ==> (#[trigger] self.domains@[i]).domain == ReputationDomain::spec_from_index(i)
                && self.domains@[i].score <= MAX_DOMAIN_SCORE
        &&& self.overall_score == score_sum(self.domains@)
    }

    pub open spec fn spec_domain(&self, d: ReputationDomain) -> u32 {
        self.domains@[d.spec_index()].score
    }

    pub fn new(identity_id: IdentityId, current_block: BlockNumber) -> (r: Self)
        ensures
            r.wf(),
            r.identity_id == identity_id,
            r.overall_score == 0,
            r.created_at == current_block,
            r.last_decay == current_block,
            forall|i: int|
                0 <= i < DOMAIN_COUNT ==> (#[trigger] r.domains@[i]).score == 0 && r.domains@[i].endorsement_count
                    == 0 && r.domains@[i].last_activity == current_block,
    {
        let mut domains: Vec<DomainReputation> = Vec::new();
        let mut i: usize = 0;
        while i < DOMAIN_COUNT
            invariant
                i <= DOMAIN_COUNT,
                domains@.len() == i,
                forall|j: int|
                    0 <= j < i ==> (#[trigger] domains@[j]).domain == ReputationDomain::spec_from_index(j)
                        && domains@[j].score == 0 && domains@[j].endorsement_count == 0
                        && domains@[j].last_activity == current_block,
                score_sum(domains@) == 0,
            decreases DOMAIN_COUNT - i,
        {
            let d = DomainReputation {
                domain: ReputationDomain::from_index(i),
                score: 0,
                endorsement_count: 0,
                last_activity: current_block,
            };
            proof {
                assert(domains@.push(d).drop_last() =~= domains@);
            }
            domains.push(d);
            i = i + 1;
        }
        MultiDimensionalReputation { identity_id, domains, overall_score: 0, created_at: current_block, last_decay: current_block }
    }

    pub fn get_domain(&self, domain: ReputationDomain) -> (s: u32)
        requires
            self.wf(),
        ensures
            s == self.spec_domain(domain),
    {
        self.domains[domain.index()].score
    }

    /// Recomputes the overall score from the domain scores.
    fn recompute_overall(&mut self)
        requires
            old(self).domains@.len() == DOMAIN_COUNT,
            forall|i: int| 0 <= i < DOMAIN_COUNT ==> (#[trigger] old(self).domains@[i]).score <= MAX_DOMAIN_SCORE,
        ensures
            *final(self) == (MultiDimensionalReputation { overall_score: score_sum(old(self).domains@) as u32, ..*old(self) }),
            score_sum(old(self).domains@) <= DOMAIN_COUNT * MAX_DOMAIN_SCORE,
    {
        let mut total: u32 = 0;
        let mut i: usize = 0;
        while i < self.domains.len()
            invariant
                i <= self.domains@.len(),
                self.domains@.len() == DOMAIN_COUNT,
                forall|j: int| 0 <= j < DOMAIN_COUNT ==> (#[trigger] self.domains@[j]).score <= MAX_DOMAIN_SCORE,
                total == score_sum(self.domains@.take(i as int)),
                total <= i * MAX_DOMAIN_SCORE,
            decreases self.domains@.len() - i,
        {
            proof {
                assert(self.domains@.take(i + 1).drop_last() =~= self.domains@.take(i as int));
            }
            total = total + self.domains[i].score;
            i = i + 1;
        }
        proof {
            assert(self.domains@.take(DOMAIN_COUNT as int) =~= self.domains@);
        }
        self.overall_score = total;
    }

    /// Replaces the entry of `domain`, keeping its domain tag, and updates
    /// the overall score.
    fn set_domain(&mut self, domain: ReputationDomain, entry: DomainReputation)
        requires
            old(self).wf(),
            entry.domain == domain,
            entry.score <= MAX_DOMAIN_SCORE,
        ensures
            final(self).wf(),
            final(self).domains@ == old(self).domains@.update(domain.spec_index(), entry),
            final(self).identity_id == old(self).identity_id,
            final(self).created_at == old(self).created_at,
            final(self).last_decay == old(self).last_decay,
    {
        let i = domain.index();
        self.domains.set(i, entry);
        self.recompute_overall();
    }

    /// Adds `points` in `domain` (capped) and marks it active at
    /// `current_block`.
    pub fn add_domain_rep(&mut self, domain: ReputationDomain, points: u32, current_block: BlockNumber)
        requires
            old(self).wf(),
        ensures
            final(self).wf(),
            final(self).domains@ == old(self).domains@.update(
                domain.spec_index(),
                DomainReputation {
                    score: domain_add(old(self).spec_domain(domain), points),
                    last_activity: current_block,
                    ..old(self).domains@[domain.spec_index()]
                },
            ),
            final(self).identity_id == old(self).identity_id,
            final(self).created_at == old(self).created_at,
            final(self).last_decay == old(self).last_decay,
    {
        let i = domain.index();
        let d = self.domains[i];
        let entry = DomainReputation { score: domain_add_exec(d.score, points), last_activity: current_block, ..d };
        self.set_domain(domain, entry);
    }

    /// Takes `penalty_percent` percent of the score in `domain`.
    pub fn slash_domain(&mut self, domain: ReputationDomain, penalty_percent: u8)
        requires
            old(self).wf(),
        ensures
            final(self).wf(),
            final(self).domains@ == old(self).domains@.update(
                domain.spec_index(),
                DomainReputation {
                    score: spec_cut(old(self).spec_domain(domain), penalty_percent),
                    ..old(self).domains@[domain.spec_index()]
                },
            ),
            final(self).identity_id == old(self).identity_id,
            final(self).created_at == old(self).created_at,
            final(self).last_decay == old(self).last_decay,
    {
        let i = domain.index();
        let d = self.domains[i];
        proof {
            assert(self.domains@[i as int].score <= MAX_DOMAIN_SCORE);
            lemma_cut_le(d.score, penalty_percent);
        }
        let entry = DomainReputation { score: cut(d.score, penalty_percent), ..d };
        self.set_domain(domain, entry);
    }

    /// An endorsement from an identity with score `endorser_rep` adds a
    /// tenth of that score in `domain` and counts the endorsement.
    pub fn add_endorsement(&mut self, domain: ReputationDomain, endorser_rep: u32)
        requires
            old(self).wf(),
        ensures
            final(self).wf(),
            final(self).domains@ == old(self).domains@.update(
                domain.spec_index(),
                DomainReputation {
                    score: domain_add(old(self).spec_domain(domain), endorser_rep / 10),
                    endorsement_count: crate::identity::counter_inc(
                        old(self).domains@[domain.spec_index()].endorsement_count,
                    ),
                    ..old(self).domains@[domain.spec_index()]
                },
            ),
            final(self).identity_id == old(self).identity_id,
            final(self).created_at == old(self).created_at,
            final(self).last_decay == old(self).last_decay,
    {
        let i = domain.index();
        let d = self.domains[i];
        proof {
            assert(self.domains@[i as int].score <= MAX_DOMAIN_SCORE);
        }
        let count = if d.endorsement_count == u32::MAX {
            d.endorsement_count
        } else {
            d.endorsement_count + 1
        };
        let entry = DomainReputation {
            score: domain_add_exec(d.score, endorser_rep / 10),
            endorsement_count: count,
            ..d
        };
        self.set_domain(domain, entry);
    }

    /// The domain entry after decay: one percent less per call once a full
    /// decay period has passed since the last decay.
    pub open spec fn decayed(d: DomainReputation) -> DomainReputation {
        DomainReputation { score: (d.score - d.score / 100) as u32, ..d }
    }

    /// Decays every domain by one percent once a decay period has passed
    /// since the last decay.
    pub fn apply_decay(&mut self, current_block: BlockNumber)
        requires
            old(self).wf(),
        ensures
            final(self).wf(),
            current_block >= old(self).last_decay + DOMAIN_DECAY_PERIOD ==> {
                &&& final(self).last_decay == current_block
                &&& final(self).domains@ == old(self).domains@.map_values(|d: DomainReputation| Self::decayed(d))
            },
            !(current_block >= old(self).last_decay + DOMAIN_DECAY_PERIOD) ==> *final(self) == *old(self),
            final(self).identity_id == old(self).identity_id,
            final(self).created_at == old(self).created_at,
    {
        let last = self.last_decay;
        if !(current_block >= last && current_block - last >= DOMAIN_DECAY_PERIOD) {
            return;
        }
        let ghost start = self.domains@;
        let mut i: usize = 0;
        while i < self.domains.len()
            invariant
                i <= self.domains@.len(),
                self.domains@.len() == DOMAIN_COUNT,
                start.len() == DOMAIN_COUNT,
                forall|j: int|
                    0 <= j < DOMAIN_COUNT ==> #[trigger] self.domains@[j] == if j < i {
                        Self::decayed(start[j])
                    } else {
                        start[j]
                    },
                forall|j: int| 0 <= j < DOMAIN_COUNT ==> (#[trigger] start[j]).score <= MAX_DOMAIN_SCORE,
                self.identity_id == old(self).identity_id,
                self.created_at == old(self).created_at,
            decreases self.domains@.len() - i,
        {
            let d = self.domains[i];
            self.domains.set(i, DomainReputation { score: d.score - d.score / 100, ..d });
            i = i + 1;
        }
        proof {
            assert(self.domains@ =~= start.map_values(|d: DomainReputation| Self::decayed(d)));
        }
        self.recompute_overall();
        self.last_decay = current_block;
    }

    /// (domain, score) for every domain, in domain order.
    pub fn get_breakdown(&self) -> (r: Vec<(ReputationDomain, u32)>)
        requires
            self.wf(),
        ensures
            r@.len() == DOMAIN_COUNT,
            forall|i: int| 0 <= i < DOMAIN_COUNT ==> #[trigger] r@[i] == (self.domains@[i].domain, self.domains@[i].score),
    {
        let mut out: Vec<(ReputationDomain, u32)> = Vec::new();
        let mut i: usize = 0;
        while i < self.domains.len()
            invariant
                i <= self.domains@.len(),
                self.domains@.len() == DOMAIN_COUNT,
                out@.len() == i,
                forall|j: int| 0 <= j < i ==> #[trigger] out@[j] == (self.domains@[j].domain, self.domains@[j].score),
            decreases self.domains@.len() - i,
        {
            out.push((self.domains[i].domain, self.domains[i].score));
            i = i + 1;
        }
        out
    }
}


/// Multiplier (in percent) of a stake of `amount`: 10 points per
/// MIN_REPUTATION_STAKE, at most 200.
pub open spec fn spec_stake_multiplier(amount: Balance) -> u32 {
    if amount / MIN_REPUTATION_STAKE >= 10 {
        200
    } else {
        (100 + 10 * (amount / MIN_REPUTATION_STAKE)) as u32
    }
}

/// The bytes a stake id is the digest of.
pub open spec fn stake_preimage(staker: AccountId, identity_id: IdentityId, amount: Balance, current_block: BlockNumber) -> Seq<u8> {
    staker.bytes@ + identity_id.bytes@ + u64_le(current_block) + u64_le((amount % 0x1_0000_0000_0000_0000) as u64)
        + u64_le((amount / 0x1_0000_0000_0000_0000) as u64)
}

/// `amount * percent / 100` for a percent of at most 100.
pub open spec fn spec_share(amount: Balance, percent: u8) -> Balance {
    let p: int = if percent > 100 {
        100
    } else {
        percent as int
    };
    (amount * p / 100) as u128
}

proof fn lemma_share_split(a: int, p: int)
    requires
        a >= 0,
        0 <= p <= 100,
    ensures
        a * p / 100 == (a / 100) * p + (a % 100) * p / 100,
        (a % 100) * p / 100 < 100,
        a * p / 100 <= a,
{
    let q = a / 100;
    let r = a % 100;
    assert(a == 100 * q + r && 0 <= r < 100) by (nonlinear_arith)
        requires
            a >= 0,
            q == a / 100,
            r == a % 100,
    ;
    assert(a * p == 100 * (q * p) + r * p) by (nonlinear_arith)
        requires
            a == 100 * q + r,
    ;
    assert(0 <= r * p < 10000) by (nonlinear_arith)
        requires
            0 <= r < 100,
            0 <= p <= 100,
    ;
    vstd::arithmetic::div_mod::lemma_hoist_over_denominator(r * p, q * p, 100);
    assert(r * p + (q * p) * 100 == a * p) by (nonlinear_arith)
        requires
            a * p == 100 * (q * p) + r * p,
    ;
    assert(a * p / 100 <= a) by (nonlinear_arith)
        requires
            0 <= p <= 100,
            a >= 0,
    ;
}

fn share(amount: Balance, percent: u8) -> (r: Balance)
    ensures
        r == spec_share(amount, percent),
        r <= amount,
{
    let p: u128 = if percent > 100 {
        100
    } else {
        percent as u128
    };
    proof {
        lemma_share_split(amount as int, p as int);
        assert((amount / 100) * p <= amount) by (nonlinear_arith)
            requires
                p <= 100,
        ;
        assert((amount % 100) * p < 10000) by (nonlinear_arith)
            requires
                p <= 100,
                amount % 100 < 100,
        ;
    }
    (amount / 100) * p + (amount % 100) * p / 100
}

#[derive(Debug, Clone, Copy, PartialEq, Eq)]
pub struct ReputationStake {
    pub stake_id: crate::types::Hash,
    pub staker: AccountId,
    pub identity_id: IdentityId,
    pub amount: Balance,
    pub domain: Option<ReputationDomain>,
    pub multiplier: u32,
    pub created_at: BlockNumber,
    pub locked_until: BlockNumber,
    pub slashed: bool,
}

impl ReputationStake {
    /// A stake of `amount` on `identity_id`, locked for
    /// REPUTATION_STAKE_LOCK blocks; none below MIN_REPUTATION_STAKE.
    pub fn new(
        staker: AccountId,
        identity_id: IdentityId,
        amount: Balance,
        domain: Option<ReputationDomain>,
        current_block: BlockNumber,
    ) -> (r: Option<Self>)
        requires
            current_block + REPUTATION_STAKE_LOCK <= u64::MAX,
        ensures
            amount < MIN_REPUTATION_STAKE ==> r is None,
            amount >= MIN_REPUTATION_STAKE ==> r is Some && {
                let st = r->0;
                &&& st.stake_id.bytes@ == spec_hash_bytes(stake_preimage(staker, identity_id, amount, current_block))
                &&& st == (ReputationStake {
                    stake_id: st.stake_id,
                    staker,
                    identity_id,
                    amount,
                    domain,
                    multiplier: spec_stake_multiplier(amount),
                    created_at: current_block,
                    locked_until: (current_block + REPUTATION_STAKE_LOCK) as u64,
                    slashed: false,
                })
            },
    {
        if amount < MIN_REPUTATION_STAKE {
            return None;
        }
        let tiers = amount / MIN_REPUTATION_STAKE;
        let multiplier: u32 = if tiers >= 10 {
            200
        } else {
            100 + 10 * (tiers as u32)
        };
        let mut pre: Vec<u8> = Vec::new();
        push_bytes32(&mut pre, &staker.bytes);
        push_bytes32(&mut pre, &identity_id.bytes);
        push_u64_le(&mut pre, current_block);
        push_u64_le(&mut pre, (amount % 0x1_0000_0000_0000_0000) as u64);
        push_u64_le(&mut pre, (amount / 0x1_0000_0000_0000_0000) as u64);
        proof {
            assert(pre@ =~= stake_preimage(staker, identity_id, amount, current_block));
        }
        let stake_id = crate::types::Hash::hash(pre.as_slice());
        Some(
            ReputationStake {
                stake_id,
                staker,
                identity_id,
                amount,
                domain,
                multiplier,
                created_at: current_block,
                locked_until: current_block + REPUTATION_STAKE_LOCK,
                slashed: false,
            },
        )
    }

    pub open spec fn spec_can_withdraw(&self, current_block: BlockNumber) -> bool {
        current_block >= self.locked_until
    }

    /// The lock has run out.
    pub fn can_withdraw(&self, current_block: BlockNumber) -> (b: bool)
        ensures
            b == self.spec_can_withdraw(current_block),
    {
        current_block >= self.locked_until
    }

    /// Takes `penalty_percent` percent (at most all) of the stake, marks it
    /// slashed and returns the penalty.
    pub fn slash(&mut self, penalty_percent: u8) -> (penalty: Balance)
        ensures
            penalty == spec_share(old(self).amount, penalty_percent),
            *final(self) == (ReputationStake {
                amount: (old(self).amount - penalty) as u128,
                slashed: true,
                ..*old(self)
            }),
    {
        let penalty = share(self.amount, penalty_percent);
        self.amount = self.amount - penalty;
        self.slashed = true;
        penalty
    }
}

#[derive(Debug, Clone)]
pub struct CrossChainReputation {
    pub source_chain: ChainId,
    pub source_identity: IdentityId,
    pub target_chain: ChainId,
    pub original_score: u32,
    pub imported_score: u32,
    pub domain_scores: HashMap<ReputationDomain, u32>,
    pub proof_hash: crate::types::Hash,
    pub imported_at: BlockNumber,
    pub verified: bool,
}

impl CrossChainReputation {
    /// An unverified import keeping CROSS_CHAIN_DISCOUNT percent of
    /// `original_score`.
    pub fn new(
        source_chain: ChainId,
        source_identity: IdentityId,
        target_chain: ChainId,
        original_score: u32,
        domain_scores: HashMap<ReputationDomain, u32>,
        proof_hash: crate::types::Hash,
        current_block: BlockNumber,
    ) -> (c: Self)
        ensures
            c == (CrossChainReputation {
                source_chain,
                source_identity,
                target_chain,
                original_score,
                imported_score: (original_score as int * CROSS_CHAIN_DISCOUNT / 100) as u32,
                domain_scores,
                proof_hash,
                imported_at: current_block,
                verified: false,
            }),
    {
        let imported: u64 = original_score as u64 * CROSS_CHAIN_DISCOUNT as u64 / 100;
        CrossChainReputation {
            source_chain,
            source_identity,
            target_chain,
            original_score,
            imported_score: imported as u32,
            domain_scores,
            proof_hash,
            imported_at: current_block,
            verified: false,
        }
    }

    pub open spec fn spec_effective_score(&self) -> u32 {
        if self.verified {
            self.imported_score
        } else {
            0
        }
    }

    /// The imported score once verified, 0 before.
    pub fn effective_score(&self) -> (s: u32)
        ensures
            s == self.spec_effective_score(),
    {
        if self.verified {
            self.imported_score
        } else {
            0
        }
    }

    pub fn verify(&mut self)
        ensures
            *final(self) == (CrossChainReputation { verified: true, ..*old(self) }),
    {
        self.verified = true;
    }
}

/// The bytes an endorsement id is the digest of.
pub open spec fn endorsement_preimage(
    endorser: AccountId,
    target_identity: IdentityId,
    domain: ReputationDomain,
    current_block: BlockNumber,
) -> Seq<u8> {
    endorser.bytes@ + target_identity.bytes@ + seq![domain.spec_index() as u8] + u64_le(current_block)
}

#[derive(Debug, Clone)]
pub struct Endorsement {
    pub endorsement_id: crate::types::Hash,
    pub endorser: AccountId,
    pub endorser_identity: IdentityId,
    pub target_identity: IdentityId,
    pub domain: ReputationDomain,
    pub weight: u32,
    pub context: Option<String>,
    pub created_at: BlockNumber,
    pub active: bool,
}

impl Endorsement {
    /// An active endorsement weighing a hundredth of the endorser's
    /// reputation, at most 100.
    pub fn new(
        endorser: AccountId,
        endorser_identity: IdentityId,
        target_identity: IdentityId,
        domain: ReputationDomain,
        endorser_rep: u32,
        context: Option<String>,
        current_block: BlockNumber,
    ) -> (e: Self)
        ensures
            e.endorsement_id.bytes@ == spec_hash_bytes(
                endorsement_preimage(endorser, target_identity, domain, current_block),
            ),
            e == (Endorsement {
                endorsement_id: e.endorsement_id,
                endorser,
                endorser_identity,
                target_identity,
                domain,
                weight: if endorser_rep / 100 > 100 {
                    100
                } else {
                    endorser_rep / 100
                },
                context,
                created_at: current_block,
                active: true,
            }),
    {
        let mut pre: Vec<u8> = Vec::new();
        push_bytes32(&mut pre, &endorser.bytes);
        push_bytes32(&mut pre, &target_identity.bytes);
        pre.push(domain.index() as u8);
        push_u64_le(&mut pre, current_block);
        proof {
            assert(pre@ =~= endorsement_preimage(endorser, target_identity, domain, current_block));
        }
        let endorsement_id = crate::types::Hash::hash(pre.as_slice());
        let weight = if endorser_rep / 100 > 100 {
            100
        } else {
            endorser_rep / 100
        };
        Endorsement {
            endorsement_id,
            endorser,
            endorser_identity,
            target_identity,
            domain,
            weight,
            context,
            created_at: current_block,
            active: true,
        }
    }

    pub fn revoke(&mut self)
        ensures
            *final(self) == (Endorsement { active: false, ..*old(self) }),
    {
        self.active = false;
    }
}

#[allow(inconsistent_fields)]
#[derive(Debug, Clone)]
pub enum ReputationEvent {
    DomainReputationChanged {
        identity_id: IdentityId,
        domain: ReputationDomain,
        old_score: u32,
        new_score: u32,
        reason: String,
    },
    StakeCreated {
        stake_id: crate::types::Hash,
        staker: AccountId,
        identity_id: IdentityId,
        amount: Balance,
        multiplier: u32,
    },
    StakeWithdrawn { stake_id: crate::types::Hash, amount: Balance },
    StakeSlashed { stake_id: crate::types::Hash, penalty: Balance },
    ReputationImported {
        source_chain: ChainId,
        target_chain: ChainId,
        identity_id: IdentityId,
        imported_score: u32,
    },
    EndorsementGiven { endorser: AccountId, target: IdentityId, domain: ReputationDomain, weight: u32 },
    EndorsementRevoked { endorsement_id: crate::types::Hash },
}

#[derive(Debug, Clone, Copy, PartialEq, Eq, Structural)]
pub enum ReputationError {
    ReputationNotFound,
    StakingDisabled,
    TooManyStakes,
    StakeTooSmall,
    StakeNotFound,
    NotStaker,
    StakeLocked,
    CrossChainDisabled,
    ImportAlreadyExists,
    ImportNotFound,
    EndorsementsDisabled,
    EndorserNotActive,
    CannotSelfEndorse,
    InsufficientReputation,
    MaxEndorsementsReached,
    EndorsementNotFound,
    NotEndorser,
}

#[derive(Debug, Clone, Copy, PartialEq, Eq)]
pub struct ReputationConfig {
    pub staking_enabled: bool,
    pub cross_chain_enabled: bool,
    pub endorsements_enabled: bool,
    pub min_rep_to_endorse: u32,
    pub max_stakes_per_identity: usize,
}

impl ReputationConfig {
    /// Decay can never be turned off.
    pub fn auto_decay_enabled(&self) -> (b: bool)
        ensures
            b,
    {
        true
    }
}

impl Default for ReputationConfig {
    fn default() -> (c: Self)
        ensures
            c == (ReputationConfig {
                staking_enabled: true,
                cross_chain_enabled: true,
                endorsements_enabled: true,
                min_rep_to_endorse: 100,
                max_stakes_per_identity: 10,
            }),
    {
        ReputationConfig {
            staking_enabled: true,
            cross_chain_enabled: true,
            endorsements_enabled: true,
            min_rep_to_endorse: 100,
            max_stakes_per_identity: 10,
        }
    }
}

/// Key of the cross-chain import table.
#[derive(Debug, Clone, Copy, PartialEq, Eq)]
pub struct IdentityChain {
    pub identity: IdentityId,
    pub chain: ChainId,
}

impl MapKey for IdentityChain {
    fn key_eq(&self, other: &Self) -> (b: bool) {
        self.identity.key_eq(&other.identity) && self.chain.key_eq(&other.chain)
    }
}

/// Key of the table of endorsements received.
#[derive(Debug, Clone, Copy, PartialEq, Eq)]
pub struct IdentityDomain {
    pub identity: IdentityId,
    pub domain: ReputationDomain,
}

impl MapKey for IdentityDomain {
    fn key_eq(&self, other: &Self) -> (b: bool) {
        self.identity.key_eq(&other.identity) && self.domain.key_eq(&other.domain)
    }
}


/// Sum of the effective scores of the imports of `id`, in table order.
pub open spec fn import_bonus(
    keys: Seq<IdentityChain>,
    imports: Map<IdentityChain, CrossChainReputation>,
    id: IdentityId,
) -> nat
    decreases keys.len(),
{
    if keys.len() == 0 {
        0
    } else {
        import_bonus(keys.drop_last(), imports, id) + if keys.last().identity == id {
            imports[keys.last()].spec_effective_score() as nat
        } else {
            0
        }
    }
}

/// Sum of the imported scores of the verified imports of `id` among `keys`.
pub open spec fn verified_import_total(
    keys: Seq<IdentityChain>,
    imports: Map<IdentityChain, CrossChainReputation>,
    id: IdentityId,
) -> nat
    decreases keys.len(),
{
    if keys.len() == 0 {
        0
    } else {
        let k = keys.last();
        verified_import_total(keys.drop_last(), imports, id) + if k.identity == id && imports[k].verified {
            imports[k].imported_score as nat
        } else {
            0
        }
    }
}

proof fn lemma_import_bonus_is_verified_total(
    keys: Seq<IdentityChain>,
    imports: Map<IdentityChain, CrossChainReputation>,
    id: IdentityId,
)
    ensures
        import_bonus(keys, imports, id) == verified_import_total(keys, imports, id),
    decreases keys.len(),
{
    if keys.len() > 0 {
        lemma_import_bonus_is_verified_total(keys.drop_last(), imports, id);
    }
}

/// The stakes of `ids` that exist and are not slashed.
pub open spec fn live_stakes(ids: Seq<crate::types::Hash>, stakes: Map<crate::types::Hash, ReputationStake>) -> Seq<
    ReputationStake,
>
    decreases ids.len(),
{
    if ids.len() == 0 {
        Seq::empty()
    } else {
        let prev = live_stakes(ids.drop_last(), stakes);
        if stakes.contains_key(ids.last()) && !stakes[ids.last()].slashed {
            prev.push(stakes[ids.last()])
        } else {
            prev
        }
    }
}

/// Largest multiplier of `s` (100 when empty).
pub open spec fn max_multiplier(s: Seq<ReputationStake>) -> u32
    decreases s.len(),
{
    if s.len() == 0 {
        100
    } else {
        let prev = max_multiplier(s.drop_last());
        let m = if s.last().multiplier >= 100 {
            s.last().multiplier
        } else {
            100
        };
        if m > prev {
            m
        } else {
            prev
        }
    }
}

/// Sum of the amounts of the stakes of `ids` that exist.
pub open spec fn staked_sum(ids: Seq<crate::types::Hash>, stakes: Map<crate::types::Hash, ReputationStake>) -> nat
    decreases ids.len(),
{
    if ids.len() == 0 {
        0
    } else {
        staked_sum(ids.drop_last(), stakes) + if stakes.contains_key(ids.last()) {
            stakes[ids.last()].amount as nat
        } else {
            0
        }
    }
}

/// The active endorsements among `ids`, in the order of `ids`.
pub open spec fn active_endorsements(
    ids: Seq<crate::types::Hash>,
    table: Map<crate::types::Hash, Endorsement>,
) -> Seq<Endorsement>
    decreases ids.len(),
{
    if ids.len() == 0 {
        Seq::empty()
    } else {
        let prev = active_endorsements(ids.drop_last(), table);
        if table.contains_key(ids.last()) && table[ids.last()].active {
            prev.push(table[ids.last()])
        } else {
            prev
        }
    }
}

/// The imports of `id`, in table order.
pub open spec fn imports_of(
    keys: Seq<IdentityChain>,
    imports: Map<IdentityChain, CrossChainReputation>,
    id: IdentityId,
) -> Seq<CrossChainReputation>
    decreases keys.len(),
{
    if keys.len() == 0 {
        Seq::empty()
    } else {
        let prev = imports_of(keys.drop_last(), imports, id);
        if keys.last().identity == id {
            prev.push(imports[keys.last()])
        } else {
            prev
        }
    }
}

/// Number of active endorsements received by `id`, over all domains.
pub open spec fn received_count(
    keys: Seq<IdentityDomain>,
    received: Map<IdentityDomain, Vec<crate::types::Hash>>,
    table: Map<crate::types::Hash, Endorsement>,
    id: IdentityId,
) -> nat
    decreases keys.len(),
{
    if keys.len() == 0 {
        0
    } else {
        received_count(keys.drop_last(), received, table, id) + if keys.last().identity == id {
            active_endorsements(received[keys.last()]@, table).len()
        } else {
            0
        }
    }
}

pub struct ReputationRegistry {
    pub chain_id: ChainId,
    pub reputations: VecMap<IdentityId, MultiDimensionalReputation>,
    pub stakes: VecMap<crate::types::Hash, ReputationStake>,
    pub stakes_by_staker: VecMap<AccountId, Vec<crate::types::Hash>>,
    pub stakes_by_identity: VecMap<IdentityId, Vec<crate::types::Hash>>,
    pub cross_chain_imports: VecMap<IdentityChain, CrossChainReputation>,
    pub endorsements: VecMap<crate::types::Hash, Endorsement>,
    pub endorsements_given: VecMap<IdentityId, Vec<crate::types::Hash>>,
    pub endorsements_received: VecMap<IdentityDomain, Vec<crate::types::Hash>>,
    pub total_staked: Balance,
    pub events: Vec<ReputationEvent>,
    pub config: ReputationConfig,
}

impl ReputationRegistry {
    pub open spec fn inv(&self) -> bool {
        &&& self.reputations.wf()
        &&& self.stakes.wf()
        &&& self.stakes_by_staker.wf()
        &&& self.stakes_by_identity.wf()
        &&& self.cross_chain_imports.wf()
        &&& self.endorsements.wf()
        &&& self.endorsements_given.wf()
        &&& self.endorsements_received.wf()
        &&& forall|id: IdentityId| #[trigger] self.reputations@.contains_key(id) ==> self.reputations@[id].wf()
        &&& forall|k: IdentityDomain| #[trigger]
            self.endorsements_received@.contains_key(k) ==> self.endorsements_received@[k]@.len()
                <= MAX_ENDORSEMENTS_PER_DOMAIN
    }

    /// Stake ids boosting `id`.
    pub open spec fn stake_ids_of(&self, id: IdentityId) -> Seq<crate::types::Hash> {
        if self.stakes_by_identity@.contains_key(id) {
            self.stakes_by_identity@[id]@
        } else {
            Seq::empty()
        }
    }

    pub open spec fn stake_ids_by(&self, staker: AccountId) -> Seq<crate::types::Hash> {
        if self.stakes_by_staker@.contains_key(staker) {
            self.stakes_by_staker@[staker]@
        } else {
            Seq::empty()
        }
    }

    pub open spec fn given_ids(&self, id: IdentityId) -> Seq<crate::types::Hash> {
        if self.endorsements_given@.contains_key(id) {
            self.endorsements_given@[id]@
        } else {
            Seq::empty()
        }
    }

    pub open spec fn received_ids(&self, id: IdentityId, domain: ReputationDomain) -> Seq<crate::types::Hash> {
        let k = IdentityDomain { identity: id, domain };
        if self.endorsements_received@.contains_key(k) {
            self.endorsements_received@[k]@
        } else {
            Seq::empty()
        }
    }

    pub open spec fn spec_domain_score(&self, id: IdentityId, domain: ReputationDomain) -> u32 {
        if self.reputations@.contains_key(id) {
            self.reputations@[id].spec_domain(domain)
        } else {
            0
        }
    }

    pub open spec fn spec_stake_multiplier(&self, id: IdentityId) -> u32 {
        max_multiplier(live_stakes(self.stake_ids_of(id), self.stakes@))
    }

    /// Overall score plus half the verified imported reputation, scaled by
    /// the stake multiplier (truncated to 32 bits).
    pub open spec fn spec_effective_score(&self, id: IdentityId) -> u32 {
        let base: int = if self.reputations@.contains_key(id) {
            self.reputations@[id].overall_score as int
        } else {
            0
        };
        let bonus = import_bonus(self.cross_chain_imports.key_seq(), self.cross_chain_imports@, id);
        ((base + bonus / 2) * self.spec_stake_multiplier(id) / 100) as u32
    }

    /// Cross-chain reputation counts half: the effective score is the
    /// overall score plus half the verified imported scores of the
    /// identity (unverified imports count nothing), scaled by the stake
    /// multiplier; with the plain multiplier of 100 it is exactly the overall
    /// score plus half the verified imports.
    pub proof fn law_effective_score_counts_imports_half(&self, id: IdentityId)
        ensures
            ({
                let base: int = if self.reputations@.contains_key(id) {
                    self.reputations@[id].overall_score as int
                } else {
                    0
                };
                let t = verified_import_total(self.cross_chain_imports.key_seq(), self.cross_chain_imports@, id);
                &&& self.spec_effective_score(id) == (((base + t / 2) * self.spec_stake_multiplier(id) / 100) as u32)
                &&& self.spec_stake_multiplier(id) == 100 && base + t / 2 <= u32::MAX ==> self.spec_effective_score(id)
                    == base + t / 2
            }),
    {
        lemma_import_bonus_is_verified_total(self.cross_chain_imports.key_seq(), self.cross_chain_imports@, id);
        let base: int = if self.reputations@.contains_key(id) {
            self.reputations@[id].overall_score as int
        } else {
            0
        };
        let t = verified_import_total(self.cross_chain_imports.key_seq(), self.cross_chain_imports@, id);
        assert((base + t / 2) * 100 / 100 == base + t / 2) by (nonlinear_arith);
    }

    pub fn new(chain_id: ChainId) -> (r: Self)
        ensures
            r.inv(),
            r.chain_id == chain_id,
            r.config == (ReputationConfig {
                staking_enabled: true,
                cross_chain_enabled: true,
                endorsements_enabled: true,
                min_rep_to_endorse: 100,
                max_stakes_per_identity: 10,
            }),
            r.reputations@ == Map::<IdentityId, MultiDimensionalReputation>::empty(),
            r.stakes@ == Map::<crate::types::Hash, ReputationStake>::empty(),
            r.cross_chain_imports@ == Map::<IdentityChain, CrossChainReputation>::empty(),
            r.endorsements@ == Map::<crate::types::Hash, Endorsement>::empty(),
            r.stakes_by_staker@ == Map::<AccountId, Vec<crate::types::Hash>>::empty(),
            r.stakes_by_identity@ == Map::<IdentityId, Vec<crate::types::Hash>>::empty(),
            r.endorsements_given@ == Map::<IdentityId, Vec<crate::types::Hash>>::empty(),
            r.endorsements_received@ == Map::<IdentityDomain, Vec<crate::types::Hash>>::empty(),
            r.total_staked == 0,
            r.events@.len() == 0,
    {
        ReputationRegistry {
            chain_id,
            reputations: VecMap::new(),
            stakes: VecMap::new(),
            stakes_by_staker: VecMap::new(),
            stakes_by_identity: VecMap::new(),
            cross_chain_imports: VecMap::new(),
            endorsements: VecMap::new(),
            endorsements_given: VecMap::new(),
            endorsements_received: VecMap::new(),
            total_staked: 0,
            events: Vec::new(),
            config: ReputationConfig::default(),
        }
    }

    pub fn with_config(chain_id: ChainId, config: ReputationConfig) -> (r: Self)
        ensures
            r.inv(),
            r.chain_id == chain_id,
            r.config == config,
            r.reputations@ == Map::<IdentityId, MultiDimensionalReputation>::empty(),
            r.stakes@ == Map::<crate::types::Hash, ReputationStake>::empty(),
            r.cross_chain_imports@ == Map::<IdentityChain, CrossChainReputation>::empty(),
            r.endorsements@ == Map::<crate::types::Hash, Endorsement>::empty(),
            r.stakes_by_staker@ == Map::<AccountId, Vec<crate::types::Hash>>::empty(),
            r.stakes_by_identity@ == Map::<IdentityId, Vec<crate::types::Hash>>::empty(),
            r.endorsements_given@ == Map::<IdentityId, Vec<crate::types::Hash>>::empty(),
            r.endorsements_received@ == Map::<IdentityDomain, Vec<crate::types::Hash>>::empty(),
            r.total_staked == 0,
            r.events@.len() == 0,
    {
        let mut r = Self::new(chain_id);
        r.config = config;
        r
    }

    /// Starts an empty reputation for `identity_id` if it has none.
    pub fn initialize(&mut self, identity_id: IdentityId, current_block: BlockNumber)
        requires
            old(self).inv(),
        ensures
            final(self).inv(),
            old(self).reputations@.contains_key(identity_id) ==> *final(self) == *old(self),
            !old(self).reputations@.contains_key(identity_id) ==> {
                let r = final(self).reputations@[identity_id];
                &&& final(self).reputations@ == old(self).reputations@.insert(identity_id, r)
                &&& r.wf()
                &&& r.identity_id == identity_id
                &&& r.overall_score == 0
                &&& r.created_at == current_block
                &&& forall|i: int| 0 <= i < DOMAIN_COUNT ==> (#[trigger] r.domains@[i]).score == 0
                &&& *final(self) == (ReputationRegistry { reputations: final(self).reputations, ..*old(self) })
            },
    {
        if !self.reputations.contains_key(&identity_id) {
            let rep = MultiDimensionalReputation::new(identity_id, current_block);
            self.reputations.insert(identity_id, rep);
        }
    }

    pub fn get_reputation(&self, identity_id: &IdentityId) -> (r: Option<&MultiDimensionalReputation>)
        requires
            self.inv(),
        ensures
            r is Some <==> self.reputations@.contains_key(*identity_id),
            r is Some ==> *r->0 == self.reputations@[*identity_id],
    {
        self.reputations.get(identity_id)
    }

    pub fn get_domain_score(&self, identity_id: &IdentityId, domain: ReputationDomain) -> (s: u32)
        requires
            self.inv(),
        ensures
            s == self.spec_domain_score(*identity_id, domain),
    {
        match self.reputations.get(identity_id) {
            Some(r) => r.get_domain(domain),
            None => 0,
        }
    }

    /// Largest stake multiplier among the live stakes on `identity_id`
    /// (100 without one).
    pub fn get_stake_multiplier(&self, identity_id: &IdentityId) -> (m: u32)
        requires
            self.inv(),
        ensures
            m == self.spec_stake_multiplier(*identity_id),
    {
        let ids = match self.stakes_by_identity.get(identity_id) {
            Some(ids) => ids,
            None => {
                return 100;
            },
        };
        let mut best: u32 = 100;
        let mut i: usize = 0;
        while i < ids.len()
            invariant
                self.inv(),
                i <= ids@.len(),
                best == max_multiplier(live_stakes(ids@.take(i as int), self.stakes@)),
            decreases ids@.len() - i,
        {
            proof {
                assert(ids@.take(i + 1).drop_last() =~= ids@.take(i as int));
                assert(ids@.take(i + 1).last() == ids@[i as int]);
            }
            match self.stakes.get(&ids[i]) {
                Some(s) => {
                    if !s.slashed {
                        let m = if s.multiplier >= 100 {
                            s.multiplier
                        } else {
                            100
                        };
                        proof {
                            let prev = live_stakes(ids@.take(i as int), self.stakes@);
                            assert(prev.push(*s).drop_last() =~= prev);
                        }
                        if m > best {
                            best = m;
                        }
                    }
                },
                None => {},
            }
            i = i + 1;
        }
        proof {
            assert(ids@.take(ids@.len() as int) =~= ids@);
        }
        best
    }

    /// Overall score plus half the verified imported reputation, scaled by
    /// the stake multiplier.
    pub fn get_effective_score(&self, identity_id: &IdentityId) -> (s: u32)
        requires
            self.inv(),
        ensures
            s == self.spec_effective_score(*identity_id),
    {
        let base: u128 = match self.reputations.get(identity_id) {
            Some(r) => r.overall_score as u128,
            None => 0,
        };
        let ghost keys = self.cross_chain_imports.key_seq();
        let n = self.cross_chain_imports.len();
        let mut bonus: u128 = 0;
        let mut i: usize = 0;
        while i < n
            invariant
                self.inv(),
                keys == self.cross_chain_imports.key_seq(),
                n == keys.len(),
                i <= n,
                bonus == import_bonus(keys.take(i as int), self.cross_chain_imports@, *identity_id),
                bonus <= i * 0xffff_ffff,
            decreases n - i,
        {
            let k = *self.cross_chain_imports.key_at(i);
            let imp = self.cross_chain_imports.val_at(i);
            proof {
                assert(keys.take(i + 1).drop_last() =~= keys.take(i as int));
                assert(keys.take(i + 1).last() == k);
            }
            if k.identity.key_eq(identity_id) {
                bonus = bonus + imp.effective_score() as u128;
            }
            i = i + 1;
        }
        proof {
            assert(keys.take(n as int) =~= keys);
        }
        let mult = self.get_stake_multiplier(identity_id) as u128;
        let combined = base + bonus / 2;
        proof {
            assert(combined * mult <= 0x1_0000_0000_0000_0000_0000_0000 * 0xffff_ffff) by (nonlinear_arith)
                requires
                    combined <= 0x1_0000_0000_0000_0000_0000_0000,
                    mult <= 0xffff_ffff,
            ;
        }
        ((combined * mult) / 100) as u32
    }

    /// Adds `points` (capped) to `identity_id`'s score in `domain`.
    pub fn add_reputation(
        &mut self,
        identity_id: IdentityId,
        domain: ReputationDomain,
        points: u32,
        reason: String,
        current_block: BlockNumber,
    ) -> (r: Result<(), ReputationError>)
        requires
            old(self).inv(),
        ensures
            final(self).inv(),
            !old(self).reputations@.contains_key(identity_id) ==> r == Err::<(), ReputationError>(
                ReputationError::ReputationNotFound,
            ) && *final(self) == *old(self),
            old(self).reputations@.contains_key(identity_id) ==> {
                let old_rep = old(self).reputations@[identity_id];
                let new_rep = final(self).reputations@[identity_id];
                &&& r == Ok::<(), ReputationError>(())
                &&& final(self).reputations@ == old(self).reputations@.insert(identity_id, new_rep)
                &&& new_rep.domains@ == old_rep.domains@.update(
                    domain.spec_index(),
                    DomainReputation {
                        score: domain_add(old_rep.spec_domain(domain), points),
                        last_activity: current_block,
                        ..old_rep.domains@[domain.spec_index()]
                    },
                )
                &&& final(self).events@ == old(self).events@.push(
                    ReputationEvent::DomainReputationChanged {
                        identity_id,
                        domain,
                        old_score: old_rep.spec_domain(domain),
                        new_score: domain_add(old_rep.spec_domain(domain), points),
                        reason,
                    },
                )
                &&& new_rep.wf()
                &&& new_rep.identity_id == old_rep.identity_id
                &&& new_rep.created_at == old_rep.created_at
                &&& new_rep.last_decay == old_rep.last_decay
                &&& *final(self) == (ReputationRegistry {
                    reputations: final(self).reputations,
                    events: final(self).events,
                    ..*old(self)
                })
            },
    {
        let i = match self.reputations.find(&identity_id) {
            Some(i) => i,
            None => return Err(ReputationError::ReputationNotFound),
        };
        let ghost before = self.reputations;
        let rep = self.reputations.val_at_mut(i);
        let old_score = rep.get_domain(domain);
        rep.add_domain_rep(domain, points, current_block);
        let new_score = rep.get_domain(domain);
        proof {
            let nv = self.reputations.val_seq()[i as int];
            VecMap::lemma_update_at(&before, &self.reputations, i as int, nv);
        }
        self.events.push(
            ReputationEvent::DomainReputationChanged { identity_id, domain, old_score, new_score, reason },
        );
        Ok(())
    }

    /// Takes `penalty_percent` percent of `identity_id`'s score in `domain`.
    pub fn slash_reputation(
        &mut self,
        identity_id: IdentityId,
        domain: ReputationDomain,
        penalty_percent: u8,
        reason: String,
    ) -> (r: Result<(), ReputationError>)
        requires
            old(self).inv(),
        ensures
            final(self).inv(),
            !old(self).reputations@.contains_key(identity_id) ==> r == Err::<(), ReputationError>(
                ReputationError::ReputationNotFound,
            ) && *final(self) == *old(self),
            old(self).reputations@.contains_key(identity_id) ==> {
                let old_rep = old(self).reputations@[identity_id];
                let new_rep = final(self).reputations@[identity_id];
                &&& r == Ok::<(), ReputationError>(())
                &&& final(self).reputations@ == old(self).reputations@.insert(identity_id, new_rep)
                &&& new_rep.domains@ == old_rep.domains@.update(
                    domain.spec_index(),
                    DomainReputation {
                        score: spec_cut(old_rep.spec_domain(domain), penalty_percent),
                        ..old_rep.domains@[domain.spec_index()]
                    },
                )
                &&& final(self).events@ == old(self).events@.push(
                    ReputationEvent::DomainReputationChanged {
                        identity_id,
                        domain,
                        old_score: old_rep.spec_domain(domain),
                        new_score: spec_cut(old_rep.spec_domain(domain), penalty_percent),
                        reason,
                    },
                )
                &&& new_rep.wf()
                &&& new_rep.identity_id == old_rep.identity_id
                &&& new_rep.created_at == old_rep.created_at
                &&& new_rep.last_decay == old_rep.last_decay
                &&& *final(self) == (ReputationRegistry {
                    reputations: final(self).reputations,
                    events: final(self).events,
                    ..*old(self)
                })
            },
    {
        let i = match self.reputations.find(&identity_id) {
            Some(i) => i,
            None => return Err(ReputationError::ReputationNotFound),
        };
        let ghost before = self.reputations;
        let rep = self.reputations.val_at_mut(i);
        let old_score = rep.get_domain(domain);
        rep.slash_domain(domain, penalty_percent);
        let new_score = rep.get_domain(domain);
        proof {
            let nv = self.reputations.val_seq()[i as int];
            VecMap::lemma_update_at(&before, &self.reputations, i as int, nv);
        }
        self.events.push(
            ReputationEvent::DomainReputationChanged { identity_id, domain, old_score, new_score, reason },
        );
        Ok(())
    }

    /// Decays every reputation (decay cannot be disabled).
    pub fn apply_decay(&mut self, current_block: BlockNumber)
        requires
            old(self).inv(),
        ensures
            final(self).inv(),
            final(self).reputations@.dom() == old(self).reputations@.dom(),
            forall|id: IdentityId| #[trigger]
                old(self).reputations@.contains_key(id) ==> {
                    let o = old(self).reputations@[id];
                    let n = final(self).reputations@[id];
                    &&& current_block >= o.last_decay + DOMAIN_DECAY_PERIOD ==> n.last_decay == current_block
                        && n.domains@ == o.domains@.map_values(
                        |d: DomainReputation| MultiDimensionalReputation::decayed(d),
                    )
                    &&& !(current_block >= o.last_decay + DOMAIN_DECAY_PERIOD) ==> n == o
                    &&& n.identity_id == o.identity_id
                    &&& n.created_at == o.created_at
                },
            *final(self) == (ReputationRegistry { reputations: final(self).reputations, ..*old(self) }),
    {
        let ghost start = self.reputations;
        let ghost keys = self.reputations.key_seq();
        proof {
            start.lemma_wf();
        }
        let n = self.reputations.len();
        let mut i: usize = 0;
        while i < n
            invariant
                self.inv(),
                start.wf(),
                keys == start.key_seq(),
                keys == self.reputations.key_seq(),
                n == keys.len(),
                i <= n,
                self.reputations.val_seq().len() == n,
                start.val_seq().len() == n,
                forall|j: int|
                    0 <= j < n ==> #[trigger] start@.contains_key(keys[j]) && start@[keys[j]] == start.val_seq()[j],
                forall|id: IdentityId| #[trigger] start@.contains_key(id) ==> start@[id].wf(),
                forall|j: int|
                    0 <= j < n ==> {
                        let o = start.val_seq()[j];
                        let c = #[trigger] self.reputations.val_seq()[j];
                        &&& j < i && current_block >= o.last_decay + DOMAIN_DECAY_PERIOD ==> c.last_decay
                            == current_block && c.domains@ == o.domains@.map_values(
                            |d: DomainReputation| MultiDimensionalReputation::decayed(d),
                        )
                        &&& !(j < i && current_block >= o.last_decay + DOMAIN_DECAY_PERIOD) ==> c == o
                        &&& c.identity_id == o.identity_id
                        &&& c.created_at == o.created_at
                    },
                *self == (ReputationRegistry { reputations: self.reputations, ..*old(self) }),
                start == old(self).reputations,
            decreases n - i,
        {
            let ghost before = self.reputations;
            proof {
                assert(start@.contains_key(keys[i as int]));
                before.lemma_wf();
                assert(before@.contains_key(keys[i as int]));
            }
            let rep = self.reputations.val_at_mut(i);
            rep.apply_decay(current_block);
            proof {
                let nv = self.reputations.val_seq()[i as int];
                VecMap::lemma_update_at(&before, &self.reputations, i as int, nv);
                assert(self.reputations@.dom() =~= before@.dom());
                assert forall|id: IdentityId| #[trigger] self.reputations@.contains_key(id) implies self.reputations@[id].wf() by {
                    assert(before@.contains_key(id));
                }
            }
            i = i + 1;
        }
        proof {
            self.reputations.lemma_wf();
            assert forall|id: IdentityId| #[trigger] start@.contains_key(id) implies self.reputations@.contains_key(id) by {
                let w = choose|w: int| 0 <= w < n && keys[w] == id;
                assert(self.reputations@.contains_key(keys[w]));
            }
            assert forall|id: IdentityId| #[trigger] self.reputations@.contains_key(id) implies start@.contains_key(id) by {
                let w = choose|w: int| 0 <= w < n && keys[w] == id;
                assert(start@.contains_key(keys[w]));
            }
            assert(self.reputations@.dom() =~= start@.dom());
        }
    }

    /// (domain, score) for each domain of `identity_id` (empty without a
    /// reputation).
    pub fn get_breakdown(&self, identity_id: &IdentityId) -> (r: Vec<(ReputationDomain, u32)>)
        requires
            self.inv(),
        ensures
            !self.reputations@.contains_key(*identity_id) ==> r@.len() == 0,
            self.reputations@.contains_key(*identity_id) ==> {
                let rep = self.reputations@[*identity_id];
                &&& r@.len() == DOMAIN_COUNT
                &&& forall|i: int|
                    0 <= i < DOMAIN_COUNT ==> #[trigger] r@[i] == (rep.domains@[i].domain, rep.domains@[i].score)
            },
    {
        match self.reputations.get(identity_id) {
            Some(r) => r.get_breakdown(),
            None => Vec::new(),
        }
    }

    /// Stakes `amount` from `staker` on `identity_id` and returns the stake
    /// id.
    pub fn create_stake(
        &mut self,
        staker: AccountId,
        identity_id: IdentityId,
        amount: Balance,
        domain: Option<ReputationDomain>,
        current_block: BlockNumber,
    ) -> (r: Result<crate::types::Hash, ReputationError>)
        requires
            old(self).inv(),
            current_block + REPUTATION_STAKE_LOCK <= u64::MAX,
            old(self).total_staked + amount <= u128::MAX,
        ensures
            final(self).inv(),
            !old(self).config.staking_enabled ==> r == Err::<crate::types::Hash, ReputationError>(
                ReputationError::StakingDisabled,
            ),
            old(self).config.staking_enabled && old(self).stake_ids_of(identity_id).len()
                >= old(self).config.max_stakes_per_identity ==> r == Err::<crate::types::Hash, ReputationError>(
                ReputationError::TooManyStakes,
            ),
            old(self).config.staking_enabled && old(self).stake_ids_of(identity_id).len()
                < old(self).config.max_stakes_per_identity && amount < MIN_REPUTATION_STAKE ==> r == Err::<
                crate::types::Hash,
                ReputationError,
            >(ReputationError::StakeTooSmall),
            r.is_err() ==> *final(self) == *old(self),
            old(self).config.staking_enabled && old(self).stake_ids_of(identity_id).len()
                < old(self).config.max_stakes_per_identity && amount >= MIN_REPUTATION_STAKE ==> {
                let id = r->Ok_0;
                let st = final(self).stakes@[id];
                &&& r is Ok
                &&& id.bytes@ == spec_hash_bytes(stake_preimage(staker, identity_id, amount, current_block))
                &&& st == (ReputationStake {
                    stake_id: id,
                    staker,
                    identity_id,
                    amount,
                    domain,
                    multiplier: spec_stake_multiplier(amount),
                    created_at: current_block,
                    locked_until: (current_block + REPUTATION_STAKE_LOCK) as u64,
                    slashed: false,
                })
                &&& final(self).stakes@ == old(self).stakes@.insert(id, st)
                &&& final(self).stake_ids_by(staker) == old(self).stake_ids_by(staker).push(id)
                &&& final(self).stake_ids_of(identity_id) == old(self).stake_ids_of(identity_id).push(id)
                &&& final(self).total_staked == old(self).total_staked + amount
                &&& final(self).reputations == old(self).reputations
                &&& final(self).cross_chain_imports == old(self).cross_chain_imports
                &&& final(self).endorsements == old(self).endorsements
                &&& final(self).config == old(self).config
                &&& final(self).events@ == old(self).events@.push(
                    ReputationEvent::StakeCreated {
                        stake_id: id,
                        staker,
                        identity_id,
                        amount,
                        multiplier: spec_stake_multiplier(amount),
                    },
                )
            },
    {
        if !self.config.staking_enabled {
            return Err(ReputationError::StakingDisabled);
        }
        let current = match self.stakes_by_identity.get(&identity_id) {
            Some(s) => s.len(),
            None => 0,
        };
        if current >= self.config.max_stakes_per_identity {
            return Err(ReputationError::TooManyStakes);
        }
        let stake = match ReputationStake::new(staker, identity_id, amount, domain, current_block) {
            Some(s) => s,
            None => return Err(ReputationError::StakeTooSmall),
        };
        let stake_id = stake.stake_id;
        let multiplier = stake.multiplier;
        self.stakes.insert(stake_id, stake);
        crate::vecmap::push_to_list(&mut self.stakes_by_staker, staker, stake_id);
        crate::vecmap::push_to_list(&mut self.stakes_by_identity, identity_id, stake_id);
        self.total_staked = self.total_staked + amount;
        self.events.push(ReputationEvent::StakeCreated { stake_id, staker, identity_id, amount, multiplier });
        Ok(stake_id)
    }

    /// Removes `stake_id` from the list bound to `k` in `table`.
    fn drop_from_list<K: MapKey>(table: &mut VecMap<K, Vec<crate::types::Hash>>, k: K, stake_id: crate::types::Hash)
        requires
            old(table).wf(),
        ensures
            final(table).wf(),
            final(table)@.dom() == old(table)@.dom(),
            old(table)@.contains_key(k) ==> final(table)@[k]@ == old(table)@[k]@.filter(neq_pred(stake_id)),
            forall|j: K| j != k && old(table)@.contains_key(j) ==> #[trigger] final(table)@[j] == old(table)@[j],
    {
        match table.find(&k) {
            Some(i) => {
                let ghost before = *table;
                let list = table.val_at_mut(i);
                let kept = vec_without(list, &stake_id);
                *list = kept;
                proof {
                    let nv = table.val_seq()[i as int];
                    VecMap::lemma_update_at(&before, table, i as int, nv);
                    before.lemma_wf();
                    assert(table@.dom() =~= before@.dom());
                }
            },
            None => {},
        }
    }

    /// The staker takes back an unlocked stake and gets its amount.
    pub fn withdraw_stake(&mut self, stake_id: crate::types::Hash, withdrawer: AccountId, current_block: BlockNumber) -> (r:
        Result<Balance, ReputationError>)
        requires
            old(self).inv(),
        ensures
            final(self).inv(),
            !old(self).stakes@.contains_key(stake_id) ==> r == Err::<Balance, ReputationError>(
                ReputationError::StakeNotFound,
            ),
            old(self).stakes@.contains_key(stake_id) && old(self).stakes@[stake_id].staker != withdrawer ==> r
                == Err::<Balance, ReputationError>(ReputationError::NotStaker),
            old(self).stakes@.contains_key(stake_id) && old(self).stakes@[stake_id].staker == withdrawer && !old(
                self).stakes@[stake_id].spec_can_withdraw(current_block) ==> r == Err::<Balance, ReputationError>(
                ReputationError::StakeLocked,
            ),
            r.is_err() ==> *final(self) == *old(self),
            old(self).stakes@.contains_key(stake_id) && old(self).stakes@[stake_id].staker == withdrawer && old(
                self).stakes@[stake_id].spec_can_withdraw(current_block) ==> {
                let st = old(self).stakes@[stake_id];
                &&& r == Ok::<Balance, ReputationError>(st.amount)
                &&& final(self).stakes@ == old(self).stakes@.remove(stake_id)
                &&& final(self).stake_ids_by(st.staker) == old(self).stake_ids_by(st.staker).filter(
                    neq_pred(stake_id),
                )
                &&& final(self).stake_ids_of(st.identity_id) == old(self).stake_ids_of(st.identity_id).filter(
                    neq_pred(stake_id),
                )
                &&& final(self).total_staked == if old(self).total_staked >= st.amount {
                    (old(self).total_staked - st.amount) as u128
                } else {
                    0
                }
                &&& final(self).reputations == old(self).reputations
                &&& final(self).cross_chain_imports == old(self).cross_chain_imports
                &&& final(self).endorsements == old(self).endorsements
                &&& final(self).config == old(self).config
                &&& final(self).events@ == old(self).events@.push(
                    ReputationEvent::StakeWithdrawn { stake_id, amount: st.amount },
                )
            },
    {
        let (amount, identity_id, staker) = match self.stakes.get(&stake_id) {
            Some(stake) => {
                if !stake.staker.key_eq(&withdrawer) {
                    return Err(ReputationError::NotStaker);
                }
                if !stake.can_withdraw(current_block) {
                    return Err(ReputationError::StakeLocked);
                }
                (stake.amount, stake.identity_id, stake.staker)
            },
            None => return Err(ReputationError::StakeNotFound),
        };
        Self::drop_from_list(&mut self.stakes_by_staker, staker, stake_id);
        Self::drop_from_list(&mut self.stakes_by_identity, identity_id, stake_id);
        proof {
            reveal_with_fuel(Seq::<_>::filter, 1);
        }
        self.stakes.remove(&stake_id);
        self.total_staked = if self.total_staked >= amount {
            self.total_staked - amount
        } else {
            0
        };
        self.events.push(ReputationEvent::StakeWithdrawn { stake_id, amount });
        Ok(amount)
    }

    /// Slashes `penalty_percent` percent of a stake and returns the penalty.
    pub fn slash_stake(&mut self, stake_id: crate::types::Hash, penalty_percent: u8) -> (r: Result<
        Balance,
        ReputationError,
    >)
        requires
            old(self).inv(),
        ensures
            final(self).inv(),
            !old(self).stakes@.contains_key(stake_id) ==> r == Err::<Balance, ReputationError>(
                ReputationError::StakeNotFound,
            ) && *final(self) == *old(self),
            old(self).stakes@.contains_key(stake_id) ==> {
                let st = old(self).stakes@[stake_id];
                let penalty = spec_share(st.amount, penalty_percent);
                &&& r == Ok::<Balance, ReputationError>(penalty)
                &&& final(self).stakes@ == old(self).stakes@.insert(
                    stake_id,
                    ReputationStake { amount: (st.amount - penalty) as u128, slashed: true, ..st },
                )
                &&& final(self).total_staked == if old(self).total_staked >= penalty {
                    (old(self).total_staked - penalty) as u128
                } else {
                    0
                }
                &&& final(self).events@ == old(self).events@.push(ReputationEvent::StakeSlashed { stake_id, penalty })
                &&& *final(self) == (ReputationRegistry {
                    stakes: final(self).stakes,
                    total_staked: final(self).total_staked,
                    events: final(self).events,
                    ..*old(self)
                })
            },
    {
        let i = match self.stakes.find(&stake_id) {
            Some(i) => i,
            None => return Err(ReputationError::StakeNotFound),
        };
        let ghost before = self.stakes;
        let stake = self.stakes.val_at_mut(i);
        let penalty = stake.slash(penalty_percent);
        proof {
            let nv = self.stakes.val_seq()[i as int];
            VecMap::lemma_update_at(&before, &self.stakes, i as int, nv);
        }
        self.total_staked = if self.total_staked >= penalty {
            self.total_staked - penalty
        } else {
            0
        };
        self.events.push(ReputationEvent::StakeSlashed { stake_id, penalty });
        Ok(penalty)
    }

    /// Sum of the amounts staked on `identity_id`.
    pub fn get_total_staked(&self, identity_id: &IdentityId) -> (t: Balance)
        requires
            self.inv(),
            staked_sum(self.stake_ids_of(*identity_id), self.stakes@) <= u128::MAX,
        ensures
            t == staked_sum(self.stake_ids_of(*identity_id), self.stakes@),
    {
        let ids = match self.stakes_by_identity.get(identity_id) {
            Some(ids) => ids,
            None => {
                return 0;
            },
        };
        let mut total: u128 = 0;
        let mut i: usize = 0;
        while i < ids.len()
            invariant
                self.inv(),
                i <= ids@.len(),
                ids@ == self.stake_ids_of(*identity_id),
                staked_sum(ids@, self.stakes@) <= u128::MAX,
                total == staked_sum(ids@.take(i as int), self.stakes@),
            decreases ids@.len() - i,
        {
            proof {
                assert(ids@.take(i + 1).drop_last() =~= ids@.take(i as int));
                assert(ids@.take(i + 1).last() == ids@[i as int]);
                lemma_staked_sum_prefix(ids@, i + 1, self.stakes@);
            }
            match self.stakes.get(&ids[i]) {
                Some(s) => {
                    total = total + s.amount;
                },
                None => {},
            }
            i = i + 1;
        }
        proof {
            assert(ids@.take(ids@.len() as int) =~= ids@);
        }
        total
    }

    /// Imports `target_identity`'s reputation from `source_chain` (one
    /// import per chain), unverified and discounted.
    pub fn import_reputation(
        &mut self,
        source_chain: ChainId,
        source_identity: IdentityId,
        target_identity: IdentityId,
        original_score: u32,
        domain_scores: HashMap<ReputationDomain, u32>,
        proof_hash: crate::types::Hash,
        current_block: BlockNumber,
    ) -> (r: Result<(), ReputationError>)
        requires
            old(self).inv(),
        ensures
            final(self).inv(),
            !old(self).config.cross_chain_enabled ==> r == Err::<(), ReputationError>(
                ReputationError::CrossChainDisabled,
            ),
            old(self).config.cross_chain_enabled && old(self).cross_chain_imports@.contains_key(
                IdentityChain { identity: target_identity, chain: source_chain },
            ) ==> r == Err::<(), ReputationError>(ReputationError::ImportAlreadyExists),
            r.is_err() ==> *final(self) == *old(self),
            old(self).config.cross_chain_enabled && !old(self).cross_chain_imports@.contains_key(
                IdentityChain { identity: target_identity, chain: source_chain },
            ) ==> {
                &&& r == Ok::<(), ReputationError>(())
                &&& final(self).cross_chain_imports@ == old(self).cross_chain_imports@.insert(
                    IdentityChain { identity: target_identity, chain: source_chain },
                    CrossChainReputation {
                        source_chain,
                        source_identity,
                        target_chain: old(self).chain_id,
                        original_score,
                        imported_score: (original_score as int * CROSS_CHAIN_DISCOUNT / 100) as u32,
                        domain_scores,
                        proof_hash,
                        imported_at: current_block,
                        verified: false,
                    },
                )
                &&& final(self).cross_chain_imports.key_seq() == old(self).cross_chain_imports.key_seq().push(
                    IdentityChain { identity: target_identity, chain: source_chain },
                )
                &&& final(self).events@ == old(self).events@.push(
                    ReputationEvent::ReputationImported {
                        source_chain,
                        target_chain: old(self).chain_id,
                        identity_id: target_identity,
                        imported_score: (original_score as int * CROSS_CHAIN_DISCOUNT / 100) as u32,
                    },
                )
                &&& *final(self) == (ReputationRegistry {
                    cross_chain_imports: final(self).cross_chain_imports,
                    events: final(self).events,
                    ..*old(self)
                })
            },
    {
        if !self.config.cross_chain_enabled {
            return Err(ReputationError::CrossChainDisabled);
        }
        let key = IdentityChain { identity: target_identity, chain: source_chain };
        if self.cross_chain_imports.contains_key(&key) {
            return Err(ReputationError::ImportAlreadyExists);
        }
        let import = CrossChainReputation::new(
            source_chain,
            source_identity,
            self.chain_id,
            original_score,
            domain_scores,
            proof_hash,
            current_block,
        );
        let imported_score = import.imported_score;
        self.cross_chain_imports.insert(key, import);
        self.events.push(
            ReputationEvent::ReputationImported {
                source_chain,
                target_chain: self.chain_id,
                identity_id: target_identity,
                imported_score,
            },
        );
        Ok(())
    }

    /// Marks an import as verified.
    pub fn verify_import(&mut self, identity_id: IdentityId, source_chain: ChainId) -> (r: Result<(), ReputationError>)
        requires
            old(self).inv(),
        ensures
            final(self).inv(),
            ({
                let key = IdentityChain { identity: identity_id, chain: source_chain };
                &&& !old(self).cross_chain_imports@.contains_key(key) ==> r == Err::<(), ReputationError>(
                    ReputationError::ImportNotFound,
                ) && *final(self) == *old(self)
                &&& old(self).cross_chain_imports@.contains_key(key) ==> {
                    &&& r == Ok::<(), ReputationError>(())
                    &&& final(self).cross_chain_imports@ == old(self).cross_chain_imports@.insert(
                        key,
                        CrossChainReputation { verified: true, ..old(self).cross_chain_imports@[key] },
                    )
                    &&& final(self).cross_chain_imports.key_seq() == old(self).cross_chain_imports.key_seq()
                    &&& *final(self) == (ReputationRegistry {
                        cross_chain_imports: final(self).cross_chain_imports,
                        ..*old(self)
                    })
                }
            }),
    {
        let key = IdentityChain { identity: identity_id, chain: source_chain };
        let i = match self.cross_chain_imports.find(&key) {
            Some(i) => i,
            None => return Err(ReputationError::ImportNotFound),
        };
        let ghost before = self.cross_chain_imports;
        let import = self.cross_chain_imports.val_at_mut(i);
        import.verify();
        proof {
            let nv = self.cross_chain_imports.val_seq()[i as int];
            VecMap::lemma_update_at(&before, &self.cross_chain_imports, i as int, nv);
        }
        Ok(())
    }

    /// The imports of `identity_id`, in import order.
    pub fn get_imports(&self, identity_id: &IdentityId) -> (r: Vec<&CrossChainReputation>)
        requires
            self.inv(),
        ensures
            ({
                let s = imports_of(self.cross_chain_imports.key_seq(), self.cross_chain_imports@, *identity_id);
                &&& r@.len() == s.len()
                &&& forall|j: int| 0 <= j < r@.len() ==> *r@[j] == s[j]
            }),
    {
        let ghost keys = self.cross_chain_imports.key_seq();
        proof {
            self.cross_chain_imports.lemma_wf();
        }
        let n = self.cross_chain_imports.len();
        let mut out: Vec<&CrossChainReputation> = Vec::new();
        let mut i: usize = 0;
        while i < n
            invariant
                self.inv(),
                keys == self.cross_chain_imports.key_seq(),
                n == keys.len(),
                i <= n,
                forall|j: int|
                    0 <= j < n ==> #[trigger] self.cross_chain_imports@.contains_key(keys[j])
                        && self.cross_chain_imports@[keys[j]] == self.cross_chain_imports.val_seq()[j],
                out@.len() == imports_of(keys.take(i as int), self.cross_chain_imports@, *identity_id).len(),
                forall|j: int|
                    0 <= j < out@.len() ==> *out@[j] == imports_of(
                        keys.take(i as int),
                        self.cross_chain_imports@,
                        *identity_id,
                    )[j],
            decreases n - i,
        {
            let k = *self.cross_chain_imports.key_at(i);
            proof {
                assert(keys.take(i + 1).drop_last() =~= keys.take(i as int));
                assert(keys.take(i + 1).last() == k);
                assert(self.cross_chain_imports@.contains_key(keys[i as int]));
            }
            if k.identity.key_eq(identity_id) {
                out.push(self.cross_chain_imports.val_at(i));
            }
            i = i + 1;
        }
        proof {
            assert(keys.take(n as int) =~= keys);
        }
        out
    }

    /// `endorser` (owner of an active identity, with enough reputation)
    /// endorses `target_identity` in `domain`; returns the endorsement id.
    pub fn give_endorsement(
        &mut self,
        endorser: AccountId,
        endorser_identity: IdentityId,
        target_identity: IdentityId,
        domain: ReputationDomain,
        context: Option<String>,
        current_block: BlockNumber,
        identity_registry: &IdentityRegistry,
    ) -> (r: Result<crate::types::Hash, ReputationError>)
        requires
            old(self).inv(),
            identity_registry.inv(),
        ensures
            final(self).inv(),
            ({
                let o = old(self);
                let endorser_active = identity_registry.owner_identity(endorser) is Some
                    && identity_registry.owner_identity(endorser)->0.spec_is_active(current_block);
                let rep = o.spec_effective_score(endorser_identity);
                &&& !o.config.endorsements_enabled ==> r == Err::<crate::types::Hash, ReputationError>(
                    ReputationError::EndorsementsDisabled,
                )
                &&& o.config.endorsements_enabled && !endorser_active ==> r == Err::<
                    crate::types::Hash,
                    ReputationError,
                >(ReputationError::EndorserNotActive)
                &&& o.config.endorsements_enabled && endorser_active && endorser_identity == target_identity ==> r
                    == Err::<crate::types::Hash, ReputationError>(ReputationError::CannotSelfEndorse)
                &&& o.config.endorsements_enabled && endorser_active && endorser_identity != target_identity && rep
                    < o.config.min_rep_to_endorse ==> r == Err::<crate::types::Hash, ReputationError>(
                    ReputationError::InsufficientReputation,
                )
                &&& o.config.endorsements_enabled && endorser_active && endorser_identity != target_identity && rep
                    >= o.config.min_rep_to_endorse && o.received_ids(target_identity, domain).len()
                    >= MAX_ENDORSEMENTS_PER_DOMAIN ==> r == Err::<crate::types::Hash, ReputationError>(
                    ReputationError::MaxEndorsementsReached,
                )
                &&& r.is_err() ==> *final(self) == *old(self)
                &&& o.config.endorsements_enabled && endorser_active && endorser_identity != target_identity && rep
                    >= o.config.min_rep_to_endorse && o.received_ids(target_identity, domain).len()
                    < MAX_ENDORSEMENTS_PER_DOMAIN ==> {
                    let id = r->Ok_0;
                    let e = final(self).endorsements@[id];
                    &&& r is Ok
                    &&& id.bytes@ == spec_hash_bytes(
                        endorsement_preimage(endorser, target_identity, domain, current_block),
                    )
                    &&& e == (Endorsement {
                        endorsement_id: id,
                        endorser,
                        endorser_identity,
                        target_identity,
                        domain,
                        weight: if rep / 100 > 100 {
                            100
                        } else {
                            rep / 100
                        },
                        context,
                        created_at: current_block,
                        active: true,
                    })
                    &&& final(self).endorsements@ == o.endorsements@.insert(id, e)
                    &&& final(self).given_ids(endorser_identity) == o.given_ids(endorser_identity).push(id)
                    &&& final(self).received_ids(target_identity, domain) == o.received_ids(
                        target_identity,
                        domain,
                    ).push(id)
                    &&& o.reputations@.contains_key(target_identity) ==> {
                        let t = o.reputations@[target_identity];
                        let t2 = final(self).reputations@[target_identity];
                        &&& final(self).reputations@ == o.reputations@.insert(target_identity, t2)
                        &&& t2.wf()
                        &&& t2.domains@ == t.domains@.update(
                            domain.spec_index(),
                            DomainReputation {
                                score: domain_add(t.spec_domain(domain), rep / 10),
                                endorsement_count: crate::identity::counter_inc(
                                    t.domains@[domain.spec_index()].endorsement_count,
                                ),
                                ..t.domains@[domain.spec_index()]
                            },
                        )
                    }
                    &&& !o.reputations@.contains_key(target_identity) ==> final(self).reputations == o.reputations
                    &&& final(self).stakes == o.stakes
                    &&& final(self).cross_chain_imports == o.cross_chain_imports
                    &&& final(self).total_staked == o.total_staked
                    &&& final(self).config == o.config
                    &&& final(self).events@ == o.events@.push(
                        ReputationEvent::EndorsementGiven { endorser, target: target_identity, domain, weight: e.weight },
                    )
                }
            }),
    {
        if !self.config.endorsements_enabled {
            return Err(ReputationError::EndorsementsDisabled);
        }
        if !identity_registry.owner_is_active(&endorser, current_block) {
            return Err(ReputationError::EndorserNotActive);
        }
        if endorser_identity.key_eq(&target_identity) {
            return Err(ReputationError::CannotSelfEndorse);
        }
        let endorser_rep = self.get_effective_score(&endorser_identity);
        if endorser_rep < self.config.min_rep_to_endorse {
            return Err(ReputationError::InsufficientReputation);
        }
        let rkey = IdentityDomain { identity: target_identity, domain };
        let received = match self.endorsements_received.get(&rkey) {
            Some(v) => v.len(),
            None => 0,
        };
        if received >= MAX_ENDORSEMENTS_PER_DOMAIN {
            return Err(ReputationError::MaxEndorsementsReached);
        }
        let endorsement = Endorsement::new(
            endorser,
            endorser_identity,
            target_identity,
            domain,
            endorser_rep,
            context,
            current_block,
        );
        let endorsement_id = endorsement.endorsement_id;
        let weight = endorsement.weight;
        self.endorsements.insert(endorsement_id, endorsement);
        crate::vecmap::push_to_list(&mut self.endorsements_given, endorser_identity, endorsement_id);
        crate::vecmap::push_to_list(&mut self.endorsements_received, rkey, endorsement_id);
        proof {
            assert forall|k: IdentityDomain| #[trigger] self.endorsements_received@.contains_key(k) implies self.endorsements_received@[k]@.len()
                <= MAX_ENDORSEMENTS_PER_DOMAIN by {
                if k != rkey {
                    assert(old(self).endorsements_received@.contains_key(k));
                }
            }
        }
        match self.reputations.find(&target_identity) {
            Some(i) => {
                let ghost before = self.reputations;
                proof {
                    before.lemma_wf();
                    assert(before@.contains_key(before.key_seq()[i as int]));
                }
                let rep = self.reputations.val_at_mut(i);
                rep.add_endorsement(domain, endorser_rep);
                proof {
                    let nv = self.reputations.val_seq()[i as int];
                    VecMap::lemma_update_at(&before, &self.reputations, i as int, nv);
                    assert forall|id: IdentityId| #[trigger] self.reputations@.contains_key(id) implies self.reputations@[id].wf() by {
                        assert(before@.contains_key(id));
                    }
                }
            },
            None => {},
        }
        self.events.push(
            ReputationEvent::EndorsementGiven { endorser, target: target_identity, domain, weight },
        );
        Ok(endorsement_id)
    }

    /// The endorser withdraws an endorsement.
    pub fn revoke_endorsement(&mut self, endorsement_id: crate::types::Hash, revoker: AccountId) -> (r: Result<
        (),
        ReputationError,
    >)
        requires
            old(self).inv(),
        ensures
            final(self).inv(),
            !old(self).endorsements@.contains_key(endorsement_id) ==> r == Err::<(), ReputationError>(
                ReputationError::EndorsementNotFound,
            ),
            old(self).endorsements@.contains_key(endorsement_id) && old(self).endorsements@[endorsement_id].endorser
                != revoker ==> r == Err::<(), ReputationError>(ReputationError::NotEndorser),
            r.is_err() ==> *final(self) == *old(self),
            old(self).endorsements@.contains_key(endorsement_id) && old(self).endorsements@[endorsement_id].endorser
                == revoker ==> {
                &&& r == Ok::<(), ReputationError>(())
                &&& final(self).endorsements@ == old(self).endorsements@.insert(
                    endorsement_id,
                    Endorsement { active: false, ..old(self).endorsements@[endorsement_id] },
                )
                &&& final(self).events@ == old(self).events@.push(ReputationEvent::EndorsementRevoked { endorsement_id })
                &&& *final(self) == (ReputationRegistry {
                    endorsements: final(self).endorsements,
                    events: final(self).events,
                    ..*old(self)
                })
            },
    {
        let i = match self.endorsements.find(&endorsement_id) {
            Some(i) => i,
            None => return Err(ReputationError::EndorsementNotFound),
        };
        if !self.endorsements.val_at(i).endorser.key_eq(&revoker) {
            return Err(ReputationError::NotEndorser);
        }
        let ghost before = self.endorsements;
        let e = self.endorsements.val_at_mut(i);
        e.revoke();
        proof {
            let nv = self.endorsements.val_seq()[i as int];
            VecMap::lemma_update_at(&before, &self.endorsements, i as int, nv);
        }
        self.events.push(ReputationEvent::EndorsementRevoked { endorsement_id });
        Ok(())
    }

    /// The active endorsements among `ids`, in order.
    fn collect_active(&self, ids: &Vec<crate::types::Hash>) -> (r: Vec<&Endorsement>)
        requires
            self.inv(),
        ensures
            r@.len() == active_endorsements(ids@, self.endorsements@).len(),
            forall|j: int| 0 <= j < r@.len() ==> *r@[j] == active_endorsements(ids@, self.endorsements@)[j],
    {
        let mut out: Vec<&Endorsement> = Vec::new();
        let mut i: usize = 0;
        while i < ids.len()
            invariant
                self.inv(),
                i <= ids@.len(),
                out@.len() == active_endorsements(ids@.take(i as int), self.endorsements@).len(),
                forall|j: int|
                    0 <= j < out@.len() ==> *out@[j] == active_endorsements(ids@.take(i as int), self.endorsements@)[j],
            decreases ids@.len() - i,
        {
            proof {
                assert(ids@.take(i + 1).drop_last() =~= ids@.take(i as int));
                assert(ids@.take(i + 1).last() == ids@[i as int]);
            }
            match self.endorsements.get(&ids[i]) {
                Some(e) => {
                    if e.active {
                        out.push(e);
                    }
                },
                None => {},
            }
            i = i + 1;
        }
        proof {
            assert(ids@.take(ids@.len() as int) =~= ids@);
        }
        out
    }

    /// Active endorsements given by `identity_id`, in order.
    pub fn get_endorsements_given(&self, identity_id: &IdentityId) -> (r: Vec<&Endorsement>)
        requires
            self.inv(),
        ensures
            r@.len() == active_endorsements(self.given_ids(*identity_id), self.endorsements@).len(),
            forall|j: int|
                0 <= j < r@.len() ==> *r@[j] == active_endorsements(self.given_ids(*identity_id), self.endorsements@)[j],
    {
        match self.endorsements_given.get(identity_id) {
            Some(ids) => self.collect_active(ids),
            None => Vec::new(),
        }
    }

    /// Active endorsements received by `identity_id` in `domain`, in order.
    pub fn get_endorsements_received(&self, identity_id: &IdentityId, domain: ReputationDomain) -> (r: Vec<
        &Endorsement,
    >)
        requires
            self.inv(),
        ensures
            r@.len() == active_endorsements(self.received_ids(*identity_id, domain), self.endorsements@).len(),
            forall|j: int|
                0 <= j < r@.len() ==> *r@[j] == active_endorsements(
                    self.received_ids(*identity_id, domain),
                    self.endorsements@,
                )[j],
    {
        match self.endorsements_received.get(&IdentityDomain { identity: *identity_id, domain }) {
            Some(ids) => self.collect_active(ids),
            None => Vec::new(),
        }
    }

    /// Number of active endorsements received by `identity_id` in all
    /// domains (truncated to 32 bits).
    pub fn count_endorsements(&self, identity_id: &IdentityId) -> (n: u32)
        requires
            self.inv(),
        ensures
            n == received_count(
                self.endorsements_received.key_seq(),
                self.endorsements_received@,
                self.endorsements@,
                *identity_id,
            ) as u32,
    {
        let ghost keys = self.endorsements_received.key_seq();
        proof {
            self.endorsements_received.lemma_wf();
        }
        let n = self.endorsements_received.len();
        let mut total: u128 = 0;
        let mut i: usize = 0;
        while i < n
            invariant
                self.inv(),
                keys == self.endorsements_received.key_seq(),
                n == keys.len(),
                i <= n,
                forall|j: int|
                    0 <= j < n ==> #[trigger] self.endorsements_received@.contains_key(keys[j])
                        && self.endorsements_received@[keys[j]] == self.endorsements_received.val_seq()[j],
                total == received_count(
                    keys.take(i as int),
                    self.endorsements_received@,
                    self.endorsements@,
                    *identity_id,
                ),
                total <= i * MAX_ENDORSEMENTS_PER_DOMAIN,
            decreases n - i,
        {
            let k = *self.endorsements_received.key_at(i);
            proof {
                assert(keys.take(i + 1).drop_last() =~= keys.take(i as int));
                assert(keys.take(i + 1).last() == k);
                assert(self.endorsements_received@.contains_key(keys[i as int]));
            }
            if k.identity.key_eq(identity_id) {
                let ids = self.endorsements_received.val_at(i);
                let active = self.collect_active(ids);
                proof {
                    lemma_active_len(ids@, self.endorsements@);
                }
                total = total + active.len() as u128;
            }
            i = i + 1;
        }
        proof {
            assert(keys.take(n as int) =~= keys);
        }
        total as u32
    }

    pub fn events(&self) -> (r: &[ReputationEvent])
        ensures
            r@ == self.events@,
    {
        self.events.as_slice()
    }

    pub fn clear_events(&mut self)
        ensures
            final(self).events@.len() == 0,
            *final(self) == (ReputationRegistry { events: final(self).events, ..*old(self) }),
    {
        self.events.clear();
    }

    pub fn total_staked(&self) -> (t: Balance)
        ensures
            t == self.total_staked,
    {
        self.total_staked
    }
}

proof fn lemma_staked_sum_prefix(ids: Seq<crate::types::Hash>, k: int, stakes: Map<crate::types::Hash, ReputationStake>)
    requires
        0 <= k <= ids.len(),
    ensures
        staked_sum(ids.take(k), stakes) <= staked_sum(ids, stakes),
    decreases ids.len(),
{
    if k < ids.len() {
        assert(ids.drop_last().take(k) =~= ids.take(k));
        lemma_staked_sum_prefix(ids.drop_last(), k, stakes);
    } else {
        assert(ids.take(k) =~= ids);
    }
}

proof fn lemma_active_len(ids: Seq<crate::types::Hash>, table: Map<crate::types::Hash, Endorsement>)
    ensures
        active_endorsements(ids, table).len() <= ids.len(),
    decreases ids.len(),
{
    if ids.len() > 0 {
        lemma_active_len(ids.drop_last(), table);
    }
}

} // verus!

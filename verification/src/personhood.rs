//! Proof of personhood: challenges that an identity must answer, a social
//! graph of attestations with connectivity scores and cluster detection,
//! uniqueness commitments confirmed by witnesses, and personhood scores.
use crate::identity::{IdentityId, IdentityRegistry};
use crate::types::{
    push_bytes32, push_u64_le, spec_hash_bytes, u64_le, AccountId, Balance, BlockNumber, ChainId,
};
use crate::vecmap::{push_to_list, vec_contains, MapKey, VecMap};
use vstd::prelude::*;

verus! {

/// Smallest deposit to issue a challenge.
pub const CHALLENGE_DEPOSIT: Balance = 100;

/// What a failed identity pays the challenger on top of the deposit.
pub const CHALLENGE_FAILURE_PENALTY: Balance = 50;

/// Blocks after the deadline during which a late answer is still refused
/// but the challenge is not yet treated as expired by other contracts.
pub const CHALLENGE_GRACE_PERIOD: BlockNumber = 14_400;

/// Blocks an identity has to answer a challenge (7 days).
pub const CHALLENGE_PERIOD: BlockNumber = 100_800;

pub const MAX_CHALLENGES_PER_IDENTITY: usize = 5;

/// Blocks between two challenges to the same identity (1 day).
pub const MIN_CHALLENGE_INTERVAL: BlockNumber = 14_400;

pub const MIN_CONNECTIVITY_SCORE: u32 = 100;

/// Witnesses that verify a uniqueness commitment.
pub const UNIQUENESS_MIN_ATTESTERS: usize = 3;

/// A passed challenge keeps the identity verified this long (6 months).
pub const VERIFICATION_VALIDITY: BlockNumber = 2_628_000;

/// Witnesses a uniqueness proof needs.
pub const UNIQUENESS_PROOF_WITNESSES: usize = 3;

/// Risk score (out of 100) from which a cluster is flagged.
pub const CLUSTER_RISK_THRESHOLD: u32 = 70;

#[derive(Debug, Clone, Copy, PartialEq, Eq)]
pub enum ChallengeType {
    Liveness { nonce: crate::types::Hash },
    SocialVerification { required_attestations: usize },
    UniquenessChallenge { suspected_duplicate: IdentityId },
    StakeChallenge { required_stake: Balance },
}

/// The name of a challenge's variant.
pub open spec fn challenge_type_label(t: ChallengeType) -> Seq<char> {
    match t {
        ChallengeType::Liveness { .. } => "Liveness"@,
        ChallengeType::SocialVerification { .. } => "SocialVerification"@,
        ChallengeType::UniquenessChallenge { .. } => "UniquenessChallenge"@,
        ChallengeType::StakeChallenge { .. } => "StakeChallenge"@,
    }
}

impl ChallengeType {
    /// The variant's name, for event logs.
    pub fn name(&self) -> (s: String)
        ensures
            s@ == challenge_type_label(*self),
    {
        match self {
            ChallengeType::Liveness { .. } => "Liveness".to_owned(),
            ChallengeType::SocialVerification { .. } => "SocialVerification".to_owned(),
            ChallengeType::UniquenessChallenge { .. } => "UniquenessChallenge".to_owned(),
            ChallengeType::StakeChallenge { .. } => "StakeChallenge".to_owned(),
        }
    }
}

#[derive(Debug, Clone, PartialEq, Eq)]
pub enum ChallengeResponseData {
    LivenessProof { signature: crate::types::Hash },
    SocialProof { attestation_ids: Vec<crate::types::Hash> },
    UniquenessProof { proof_hash: crate::types::Hash, witnesses: Vec<AccountId> },
    StakeProof { stake_amount: Balance, lock_until: BlockNumber },
}

/// The response kind answers the challenge kind.
pub open spec fn response_fits(t: ChallengeType, r: ChallengeResponseData) -> bool {
    ||| t is Liveness && r is LivenessProof
    ||| t is SocialVerification && r is SocialProof
    ||| t is UniquenessChallenge && r is UniquenessProof
    ||| t is StakeChallenge && r is StakeProof
}

#[derive(Debug, Clone)]
pub struct ChallengeResponse {
    pub submitted_at: BlockNumber,
    pub response_data: ChallengeResponseData,
}

#[derive(Debug, Clone, Copy, PartialEq, Eq, Structural)]
pub enum ChallengeStatus {
    Pending,
    ResponseSubmitted,
    Passed,
    Failed,
    Expired,
    Cancelled,
}

/// The bytes a challenge id is the digest of.
pub open spec fn challenge_preimage(target: IdentityId, challenger: AccountId, current_block: BlockNumber) -> Seq<u8> {
    target.bytes@ + challenger.bytes@ + u64_le(current_block)
}

#[derive(Debug, Clone)]
pub struct PersonhoodChallenge {
    pub challenge_id: crate::types::Hash,
    pub target_identity: IdentityId,
    pub challenger: AccountId,
    pub challenge_type: ChallengeType,
    pub deposit: Balance,
    pub created_at: BlockNumber,
    pub deadline: BlockNumber,
    pub status: ChallengeStatus,
    pub response: Option<ChallengeResponse>,
}

impl PersonhoodChallenge {
    pub fn new(
        target_identity: IdentityId,
        challenger: AccountId,
        challenge_type: ChallengeType,
        deposit: Balance,
        current_block: BlockNumber,
    ) -> (c: Self)
        requires
            current_block + CHALLENGE_PERIOD <= u64::MAX,
        ensures
            c.challenge_id.bytes@ == spec_hash_bytes(challenge_preimage(target_identity, challenger, current_block)),
            c.target_identity == target_identity,
            c.challenger == challenger,
            c.challenge_type == challenge_type,
            c.deposit == deposit,
            c.created_at == current_block,
            c.deadline == current_block + CHALLENGE_PERIOD,
            c.status == ChallengeStatus::Pending,
            c.response is None,
    {
        let mut pre: Vec<u8> = Vec::new();
        push_bytes32(&mut pre, &target_identity.bytes);
        push_bytes32(&mut pre, &challenger.bytes);
        push_u64_le(&mut pre, current_block);
        proof {
            assert(pre@ =~= challenge_preimage(target_identity, challenger, current_block));
        }
        PersonhoodChallenge {
            challenge_id: crate::types::Hash::hash(pre.as_slice()),
            target_identity,
            challenger,
            challenge_type,
            deposit,
            created_at: current_block,
            deadline: current_block + CHALLENGE_PERIOD,
            status: ChallengeStatus::Pending,
            response: None,
        }
    }

    pub open spec fn spec_is_expired(&self, current_block: BlockNumber) -> bool {
        current_block > self.deadline
    }

    /// Past its deadline.
    pub fn is_expired(&self, current_block: BlockNumber) -> (b: bool)
        ensures
            b == self.spec_is_expired(current_block),
    {
        current_block > self.deadline
    }
}

/// Personhood score: the sum of capped components.
#[derive(Debug, Clone, Copy, PartialEq, Eq)]
pub struct PersonhoodScore {
    pub total: u32,
    pub activity_score: u32,
    pub longevity_score: u32,
    pub social_score: u32,
    pub uniqueness_score: u32,
    pub challenges_passed: u32,
    pub challenges_failed: u32,
    pub last_verified: Option<BlockNumber>,
}

/// Highest value of each score component.
pub const SCORE_COMPONENT_MAX: u32 = 200;

/// Blocks of identity age worth the full longevity component (one year).
pub const LONGEVITY_FULL_AGE: BlockNumber = 5_256_000;

pub open spec fn cap200(x: int) -> u32 {
    if x >= 200 {
        200
    } else {
        x as u32
    }
}

impl PersonhoodScore {
    /// Sum of the components, with 50 points per passed challenge (at
    /// most 200).
    pub open spec fn spec_total(s: PersonhoodScore) -> u32 {
        (s.activity_score + s.longevity_score + s.social_score + s.uniqueness_score + cap200(
            s.challenges_passed * 50,
        )) as u32
    }

    /// `s0` with the uniqueness part of a verified commitment with
    /// `witnesses` witnesses.
    pub open spec fn with_uniqueness(s0: PersonhoodScore, witnesses: nat) -> PersonhoodScore {
        let s = PersonhoodScore { uniqueness_score: cap200(100 + 20 * witnesses as int), ..s0 };
        PersonhoodScore { total: Self::spec_total(s), ..s }
    }

    pub open spec fn wf(&self) -> bool {
        &&& self.activity_score <= 200
        &&& self.longevity_score <= 200
        &&& self.social_score <= 200
        &&& self.uniqueness_score <= 200
        &&& self.total == Self::spec_total(*self)
    }

    pub fn new() -> (s: Self)
        ensures
            s.wf(),
            s == (PersonhoodScore {
                total: 0,
                activity_score: 0,
                longevity_score: 0,
                social_score: 0,
                uniqueness_score: 0,
                challenges_passed: 0,
                challenges_failed: 0,
                last_verified: None,
            }),
    {
        PersonhoodScore {
            total: 0,
            activity_score: 0,
            longevity_score: 0,
            social_score: 0,
            uniqueness_score: 0,
            challenges_passed: 0,
            challenges_failed: 0,
            last_verified: None,
        }
    }

    fn recompute(&mut self)
        requires
            old(self).activity_score <= 200,
            old(self).longevity_score <= 200,
            old(self).social_score <= 200,
            old(self).uniqueness_score <= 200,
        ensures
            final(self).wf(),
            *final(self) == (PersonhoodScore { total: Self::spec_total(*old(self)), ..*old(self) }),
    {
        let c: u32 = if self.challenges_passed >= 4 {
            200
        } else {
            self.challenges_passed * 50
        };
        self.total = self.activity_score + self.longevity_score + self.social_score + self.uniqueness_score + c;
    }

    /// Activity: 10 points per action, at most 200.
    pub fn update_activity(&mut self, actions: u32)
        requires
            old(self).wf(),
        ensures
            final(self).wf(),
            *final(self) == ({
                let s = PersonhoodScore { activity_score: cap200(actions * 10), ..*old(self) };
                PersonhoodScore { total: Self::spec_total(s), ..s }
            }),
    {
        self.activity_score = if actions >= 20 {
            200
        } else {
            actions * 10
        };
        self.recompute();
    }

    /// Longevity: 200 points for a year of age, proportionally less before.
    pub fn update_longevity(&mut self, identity_age: BlockNumber)
        requires
            old(self).wf(),
        ensures
            final(self).wf(),
            *final(self) == ({
                let s = PersonhoodScore {
                    longevity_score: cap200(identity_age * 200 / LONGEVITY_FULL_AGE as int),
                    ..*old(self)
                };
                PersonhoodScore { total: Self::spec_total(s), ..s }
            }),
    {
        self.longevity_score = if identity_age >= LONGEVITY_FULL_AGE {
            200
        } else {
            ((identity_age as u128 * 200) / LONGEVITY_FULL_AGE as u128) as u32
        };
        proof {
            if identity_age < LONGEVITY_FULL_AGE {
                assert(identity_age * 200 / LONGEVITY_FULL_AGE as int <= 200) by (nonlinear_arith)
                    requires
                        identity_age < LONGEVITY_FULL_AGE,
                ;
            } else {
                assert(identity_age * 200 / LONGEVITY_FULL_AGE as int >= 200) by (nonlinear_arith)
                    requires
                        identity_age >= LONGEVITY_FULL_AGE,
                ;
            }
        }
        self.recompute();
    }

    /// Social: the connectivity score, at most 200.
    pub fn update_social(&mut self, connectivity: u32)
        requires
            old(self).wf(),
        ensures
            final(self).wf(),
            *final(self) == ({
                let s = PersonhoodScore { social_score: cap200(connectivity as int), ..*old(self) };
                PersonhoodScore { total: Self::spec_total(s), ..s }
            }),
    {
        self.social_score = if connectivity >= 200 {
            200
        } else {
            connectivity
        };
        self.recompute();
    }

    /// Uniqueness: 100 points plus 20 per witness (at most 200) once
    /// verified, 0 before.
    pub fn update_uniqueness(&mut self, verified: bool, witness_count: usize)
        requires
            old(self).wf(),
        ensures
            final(self).wf(),
            *final(self) == ({
                let s = PersonhoodScore {
                    uniqueness_score: if verified {
                        cap200(100 + 20 * witness_count)
                    } else {
                        0
                    },
                    ..*old(self)
                };
                PersonhoodScore { total: Self::spec_total(s), ..s }
            }),
    {
        self.uniqueness_score = if !verified {
            0
        } else if witness_count >= 5 {
            200
        } else {
            100 + 20 * (witness_count as u32)
        };
        self.recompute();
    }

    pub fn record_challenge_pass(&mut self, current_block: BlockNumber)
        requires
            old(self).wf(),
        ensures
            final(self).wf(),
            *final(self) == ({
                let s = PersonhoodScore {
                    challenges_passed: crate::identity::counter_inc(old(self).challenges_passed),
                    last_verified: Some(current_block),
                    ..*old(self)
                };
                PersonhoodScore { total: Self::spec_total(s), ..s }
            }),
    {
        if self.challenges_passed < u32::MAX {
            self.challenges_passed = self.challenges_passed + 1;
        }
        self.last_verified = Some(current_block);
        self.recompute();
    }

    pub fn record_challenge_fail(&mut self)
        requires
            old(self).wf(),
        ensures
            final(self).wf(),
            *final(self) == (PersonhoodScore {
                challenges_failed: crate::identity::counter_inc(old(self).challenges_failed),
                ..*old(self)
            }),
    {
        if self.challenges_failed < u32::MAX {
            self.challenges_failed = self.challenges_failed + 1;
        }
    }

    pub fn meets_threshold(&self, min_score: u32) -> (b: bool)
        ensures
            b == (self.total >= min_score),
    {
        self.total >= min_score
    }

    pub open spec fn spec_is_verified(&self, current_block: BlockNumber) -> bool {
        self.last_verified is Some && current_block < self.last_verified->0 + VERIFICATION_VALIDITY
    }

    /// A challenge was passed less than VERIFICATION_VALIDITY blocks ago.
    pub fn is_verified(&self, current_block: BlockNumber) -> (b: bool)
        ensures
            b == self.spec_is_verified(current_block),
    {
        match self.last_verified {
            Some(t) => current_block < t || current_block - t < VERIFICATION_VALIDITY,
            None => false,
        }
    }
}


/// An identity's place in the attestation graph.
#[derive(Debug, Clone)]
pub struct SocialGraphNode {
    pub identity_id: IdentityId,
    /// Identities this one attested (no repeats).
    pub outgoing: Vec<IdentityId>,
    /// Identities that attested this one (no repeats).
    pub incoming: Vec<IdentityId>,
    /// Identities linked either way (no repeats).
    pub connections: Vec<IdentityId>,
    /// Share of the graph this node is linked to, in permille.
    pub connectivity_score: u32,
}

/// `s` with `x` added at the end unless it is there already.
pub open spec fn add_once(s: Seq<IdentityId>, x: IdentityId) -> Seq<IdentityId> {
    if s.contains(x) {
        s
    } else {
        s.push(x)
    }
}

fn push_once(v: &mut Vec<IdentityId>, x: IdentityId)
    ensures
        final(v)@ == add_once(old(v)@, x),
{
    if !vec_contains(v, &x) {
        v.push(x);
    }
}

impl SocialGraphNode {
    pub fn new(identity_id: IdentityId) -> (n: Self)
        ensures
            n.identity_id == identity_id,
            n.outgoing@.len() == 0,
            n.incoming@.len() == 0,
            n.connections@.len() == 0,
            n.connectivity_score == 0,
    {
        SocialGraphNode {
            identity_id,
            outgoing: Vec::new(),
            incoming: Vec::new(),
            connections: Vec::new(),
            connectivity_score: 0,
        }
    }

    /// Links `other` to this node, as an attester of it when `incoming`.
    pub fn add_connection(&mut self, other: IdentityId, incoming: bool)
        ensures
            final(self).identity_id == old(self).identity_id,
            final(self).connectivity_score == old(self).connectivity_score,
            incoming ==> final(self).incoming@ == add_once(old(self).incoming@, other) && final(self).outgoing
                == old(self).outgoing,
            !incoming ==> final(self).outgoing@ == add_once(old(self).outgoing@, other) && final(self).incoming
                == old(self).incoming,
            final(self).connections@ == add_once(old(self).connections@, other),
    {
        if incoming {
            push_once(&mut self.incoming, other);
        } else {
            push_once(&mut self.outgoing, other);
        }
        push_once(&mut self.connections, other);
    }

    /// Connectivity in permille of the other identities of a graph of
    /// `total_identities` (at most 1000).
    pub open spec fn spec_connectivity(connections: nat, total_identities: u64) -> u32 {
        let others: int = if total_identities > 1 {
            total_identities - 1
        } else {
            1
        };
        let ratio: int = (connections as int * 1000) / others;
        if ratio >= 1000 {
            1000
        } else {
            ratio as u32
        }
    }

    pub fn calculate_connectivity(&mut self, total_identities: u64)
        ensures
            *final(self) == (SocialGraphNode {
                connectivity_score: Self::spec_connectivity(old(self).connections@.len(), total_identities),
                ..*old(self)
            }),
    {
        let others: u128 = if total_identities > 1 {
            (total_identities - 1) as u128
        } else {
            1
        };
        let c = self.connections.len() as u128;
        proof {
            assert(c * 1000 <= 0x1_0000_0000_0000_0000 * 1000) by (nonlinear_arith)
                requires
                    c <= 0x1_0000_0000_0000_0000,
            ;
        }
        let ratio = c * 1000 / others;
        self.connectivity_score = if ratio >= 1000 {
            1000
        } else {
            ratio as u32
        };
    }
}

#[derive(Debug, Clone)]
pub struct UniquenessCommitment {
    pub identity_id: IdentityId,
    pub commitment: crate::types::Hash,
    /// Witnesses, no repeats.
    pub witnesses: Vec<AccountId>,
    pub verified: bool,
    pub created_at: BlockNumber,
}

impl UniquenessCommitment {
    pub fn new(identity_id: IdentityId, commitment_data: &[u8], current_block: BlockNumber) -> (c: Self)
        ensures
            c.identity_id == identity_id,
            c.commitment.bytes@ == spec_hash_bytes(commitment_data@),
            c.witnesses@.len() == 0,
            !c.verified,
            c.created_at == current_block,
    {
        UniquenessCommitment {
            identity_id,
            commitment: crate::types::Hash::hash(commitment_data),
            witnesses: Vec::new(),
            verified: false,
            created_at: current_block,
        }
    }

    /// Adds a new witness (false for a repeat); UNIQUENESS_MIN_ATTESTERS
    /// witnesses verify the commitment.
    pub fn add_witness(&mut self, witness: AccountId) -> (added: bool)
        ensures
            added == !old(self).witnesses@.contains(witness),
            added ==> final(self).witnesses@ == old(self).witnesses@.push(witness),
            !added ==> final(self).witnesses == old(self).witnesses,
            final(self).verified == (old(self).verified || (added && final(self).witnesses@.len()
                >= UNIQUENESS_MIN_ATTESTERS)),
            final(self).identity_id == old(self).identity_id,
            final(self).commitment == old(self).commitment,
            final(self).created_at == old(self).created_at,
    {
        if vec_contains(&self.witnesses, &witness) {
            return false;
        }
        self.witnesses.push(witness);
        if self.witnesses.len() >= UNIQUENESS_MIN_ATTESTERS {
            self.verified = true;
        }
        true
    }
}

/// A group of identities linked to one another.
#[derive(Debug, Clone)]
pub struct SybilCluster {
    pub cluster_id: u32,
    /// Members, no repeats.
    pub members: Vec<IdentityId>,
    /// Links among members, in permille of the possible links.
    pub internal_density: u32,
    pub external_connections: u32,
    /// Risk out of 100.
    pub risk_score: u32,
    pub flagged: bool,
}

impl SybilCluster {
    pub fn new(cluster_id: u32) -> (c: Self)
        ensures
            c.cluster_id == cluster_id,
            c.members@.len() == 0,
            c.internal_density == 0,
            c.external_connections == 0,
            c.risk_score == 0,
            !c.flagged,
    {
        SybilCluster {
            cluster_id,
            members: Vec::new(),
            internal_density: 0,
            external_connections: 0,
            risk_score: 0,
            flagged: false,
        }
    }

    pub fn add_member(&mut self, id: IdentityId)
        ensures
            final(self).members@ == add_once(old(self).members@, id),
            *final(self) == (SybilCluster { members: final(self).members, ..*old(self) }),
    {
        push_once(&mut self.members, id);
    }

    /// Risk: the internal density (out of 100) less 10 per external
    /// connection per member; flagged from CLUSTER_RISK_THRESHOLD.
    pub open spec fn spec_risk(density: u32, external: u32, members: nat) -> u32 {
        let d: int = if density >= 1000 {
            100
        } else {
            density as int / 10
        };
        let m: int = if members == 0 {
            1
        } else {
            members as int
        };
        let penalty = external as int * 10 / m;
        if penalty >= d {
            0
        } else {
            (d - penalty) as u32
        }
    }

    pub fn calculate_risk(&mut self)
        ensures
            *final(self) == (SybilCluster {
                risk_score: Self::spec_risk(old(self).internal_density, old(self).external_connections, old(self).members@.len()),
                flagged: Self::spec_risk(old(self).internal_density, old(self).external_connections, old(self).members@.len())
                    >= CLUSTER_RISK_THRESHOLD,
                ..*old(self)
            }),
    {
        let d: u64 = if self.internal_density >= 1000 {
            100
        } else {
            (self.internal_density / 10) as u64
        };
        let m: u64 = if self.members.len() == 0 {
            1
        } else {
            self.members.len() as u64
        };
        let penalty: u64 = self.external_connections as u64 * 10 / m;
        let risk: u32 = if penalty >= d {
            0
        } else {
            (d - penalty) as u32
        };
        self.risk_score = risk;
        self.flagged = risk >= CLUSTER_RISK_THRESHOLD;
    }
}

/// Positions `i` and `j` of a graph whose keys and nodes, in key order, are
/// `keys` and `vals` are linked: one lists the other among its connections.
pub open spec fn linked(keys: Seq<IdentityId>, vals: Seq<SocialGraphNode>, i: int, j: int) -> bool {
    &&& 0 <= i < keys.len()
    &&& 0 <= j < keys.len()
    &&& (vals[i].connections@.contains(keys[j]) || vals[j].connections@.contains(keys[i]))
}

/// `w` is a non-empty walk through linked positions.
pub open spec fn is_walk(keys: Seq<IdentityId>, vals: Seq<SocialGraphNode>, w: Seq<int>) -> bool {
    &&& w.len() >= 1
    &&& forall|k: int| 0 <= k < w.len() ==> 0 <= #[trigger] w[k] < keys.len()
    &&& forall|k: int| 0 <= k < w.len() - 1 ==> #[trigger] linked(keys, vals, w[k], w[k + 1])
}

/// Positions `a` and `b` are in the same linked component.
pub open spec fn connected(keys: Seq<IdentityId>, vals: Seq<SocialGraphNode>, a: int, b: int) -> bool {
    exists|w: Seq<int>| #[trigger] is_walk(keys, vals, w) && w[0] == a && w[w.len() - 1] == b
}

/// `r` is the first position of its component.
pub open spec fn is_component_min(keys: Seq<IdentityId>, vals: Seq<SocialGraphNode>, r: int) -> bool {
    &&& 0 <= r < keys.len()
    &&& forall|j: int| 0 <= j < r ==> !#[trigger] connected(keys, vals, j, r)
}

/// Keys of the positions below `m` connected to `r`, in key order.
pub open spec fn component_upto(keys: Seq<IdentityId>, vals: Seq<SocialGraphNode>, r: int, m: int) -> Seq<IdentityId>
    decreases m,
{
    if m <= 0 {
        Seq::empty()
    } else {
        component_upto(keys, vals, r, m - 1) + if connected(keys, vals, m - 1, r) {
            seq![keys[m - 1]]
        } else {
            Seq::empty()
        }
    }
}

/// Keys of the component of position `r`, in key order.
pub open spec fn component_of(keys: Seq<IdentityId>, vals: Seq<SocialGraphNode>, r: int) -> Seq<IdentityId> {
    component_upto(keys, vals, r, keys.len() as int)
}

/// First positions, below `m` and in increasing order, of the components
/// with at least three members.
pub open spec fn cluster_roots(keys: Seq<IdentityId>, vals: Seq<SocialGraphNode>, m: int) -> Seq<int>
    decreases m,
{
    if m <= 0 {
        Seq::empty()
    } else {
        cluster_roots(keys, vals, m - 1) + if is_component_min(keys, vals, m - 1) && component_of(
            keys,
            vals,
            m - 1,
        ).len() >= 3 {
            seq![m - 1]
        } else {
            Seq::empty()
        }
    }
}

/// Entries of `conns` that are among `members`.
pub open spec fn count_inside(conns: Seq<IdentityId>, members: Seq<IdentityId>) -> nat
    decreases conns.len(),
{
    if conns.len() == 0 {
        0
    } else {
        count_inside(conns.drop_last(), members) + if members.contains(conns.last()) {
            1nat
        } else {
            0nat
        }
    }
}

/// Links from the first `q` members to members.
pub open spec fn internal_links(g: Map<IdentityId, SocialGraphNode>, members: Seq<IdentityId>, q: int) -> nat
    decreases q,
{
    if q <= 0 {
        0
    } else {
        internal_links(g, members, q - 1) + count_inside(g[members[q - 1]].connections@, members)
    }
}

/// Links from the first `q` members to identities outside.
pub open spec fn external_links(g: Map<IdentityId, SocialGraphNode>, members: Seq<IdentityId>, q: int) -> nat
    decreases q,
{
    if q <= 0 {
        0
    } else {
        external_links(g, members, q - 1) + (g[members[q - 1]].connections@.len() - count_inside(
            g[members[q - 1]].connections@,
            members,
        )) as nat
    }
}

/// Internal links in permille of the `size * (size - 1)` possible ones (at most 1000).
pub open spec fn spec_density(internal: nat, size: nat) -> u32 {
    let max: int = size * (size - 1);
    let scaled: int = internal as int * 1000;
    if internal >= max || scaled > u128::MAX {
        1000
    } else if scaled / max >= 1000 {
        1000
    } else {
        (scaled / max) as u32
    }
}

pub open spec fn cap_u32(x: nat) -> u32 {
    if x >= 0xffff_ffff {
        0xffff_ffff
    } else {
        x as u32
    }
}

/// `c` is the cluster of the component first at position `r`, numbered `id`.
pub open spec fn is_cluster_of(
    c: SybilCluster,
    keys: Seq<IdentityId>,
    vals: Seq<SocialGraphNode>,
    g: Map<IdentityId, SocialGraphNode>,
    r: int,
    id: u32,
) -> bool {
    let members = component_of(keys, vals, r);
    &&& c.cluster_id == id
    &&& c.members@ == members
    &&& c.internal_density == spec_density(internal_links(g, members, members.len() as int), members.len())
    &&& c.external_connections == cap_u32(external_links(g, members, members.len() as int))
    &&& c.risk_score == SybilCluster::spec_risk(c.internal_density, c.external_connections, members.len())
    &&& c.flagged == (c.risk_score >= CLUSTER_RISK_THRESHOLD)
}

/// The events of a cluster scan: one per flagged cluster, in order.
pub open spec fn cluster_events(cs: Seq<SybilCluster>) -> Seq<PersonhoodEvent>
    decreases cs.len(),
{
    if cs.len() == 0 {
        Seq::empty()
    } else {
        cluster_events(cs.drop_last()) + if cs.last().flagged {
            seq![
                PersonhoodEvent::SybilClusterDetected {
                    cluster_id: cs.last().cluster_id,
                    member_count: cs.last().members@.len() as usize,
                    risk_score: cs.last().risk_score,
                },
            ]
        } else {
            Seq::empty()
        }
    }
}

/// `labels` gives each position the first position of its linked component.
pub open spec fn component_labeling(keys: Seq<IdentityId>, vals: Seq<SocialGraphNode>, labels: Seq<usize>) -> bool {
    &&& labels.len() == keys.len()
    &&& forall|j: int|
        #![trigger labels[j]]
        0 <= j < labels.len() ==> is_component_min(keys, vals, labels[j] as int) && connected(
            keys,
            vals,
            j,
            labels[j] as int,
        )
    &&& forall|j: int, r: int|
        0 <= j < labels.len() && is_component_min(keys, vals, r) && #[trigger] connected(keys, vals, j, r)
            ==> labels[j] == r
}

/// Cluster number `k` counted from `first` (saturating).
pub open spec fn cluster_number(first: u32, k: int) -> u32 {
    if first + k >= u32::MAX {
        u32::MAX
    } else {
        (first + k) as u32
    }
}

/// `clusters` are the clusters of the graph: one per linked component with
/// at least three members, in the order of the components' first
/// positions, numbered from `first`.
pub open spec fn clusters_of_graph(
    clusters: Seq<SybilCluster>,
    keys: Seq<IdentityId>,
    vals: Seq<SocialGraphNode>,
    g: Map<IdentityId, SocialGraphNode>,
    first: u32,
) -> bool {
    let roots = cluster_roots(keys, vals, keys.len() as int);
    &&& clusters.len() == roots.len()
    &&& forall|k: int|
        0 <= k < clusters.len() ==> is_cluster_of(#[trigger] clusters[k], keys, vals, g, roots[k], cluster_number(first, k))
}

proof fn lemma_walk_refl(keys: Seq<IdentityId>, vals: Seq<SocialGraphNode>, a: int)
    requires
        0 <= a < keys.len(),
    ensures
        connected(keys, vals, a, a),
{
    let w = seq![a];
    assert(is_walk(keys, vals, w));
}

proof fn lemma_linked_sym(keys: Seq<IdentityId>, vals: Seq<SocialGraphNode>, a: int, b: int)
    requires
        linked(keys, vals, a, b),
    ensures
        linked(keys, vals, b, a),
{
}

proof fn lemma_connected_step(keys: Seq<IdentityId>, vals: Seq<SocialGraphNode>, a: int, b: int, c: int)
    requires
        linked(keys, vals, a, b),
        connected(keys, vals, b, c),
    ensures
        connected(keys, vals, a, c),
{
    let w = choose|w: Seq<int>| #[trigger] is_walk(keys, vals, w) && w[0] == b && w[w.len() - 1] == c;
    let w2 = seq![a] + w;
    assert forall|k: int| 0 <= k < w2.len() - 1 implies #[trigger] linked(keys, vals, w2[k], w2[k + 1]) by {
        if k > 0 {
            let j = k - 1;
            assert(w2[k] == w[j] && w2[k + 1] == w[j + 1]);
            assert(linked(keys, vals, w[j], w[j + 1]));
        } else {
            assert(w2[0] == a && w2[1] == w[0]);
        }
    }
    assert forall|k: int| 0 <= k < w2.len() implies 0 <= #[trigger] w2[k] < keys.len() by {
        if k > 0 {
            assert(w2[k] == w[k - 1]);
        }
    }
    assert(is_walk(keys, vals, w2));
    assert(w2[w2.len() - 1] == w[w.len() - 1]);
}

proof fn lemma_connected_sym(keys: Seq<IdentityId>, vals: Seq<SocialGraphNode>, a: int, b: int)
    requires
        connected(keys, vals, a, b),
    ensures
        connected(keys, vals, b, a),
{
    let w = choose|w: Seq<int>| #[trigger] is_walk(keys, vals, w) && w[0] == a && w[w.len() - 1] == b;
    let n = w.len();
    let r = Seq::new(n, |k: int| w[n - 1 - k]);
    assert forall|k: int| 0 <= k < r.len() - 1 implies #[trigger] linked(keys, vals, r[k], r[k + 1]) by {
        assert(linked(keys, vals, w[n - 2 - k], w[n - 2 - k + 1]));
    }
    assert forall|k: int| 0 <= k < r.len() implies 0 <= #[trigger] r[k] < keys.len() by {
        assert(0 <= w[n - 1 - k] < keys.len());
    }
    assert(is_walk(keys, vals, r));
}

proof fn lemma_connected_trans(keys: Seq<IdentityId>, vals: Seq<SocialGraphNode>, a: int, b: int, c: int)
    requires
        connected(keys, vals, a, b),
        connected(keys, vals, b, c),
    ensures
        connected(keys, vals, a, c),
{
    let w1 = choose|w: Seq<int>| #[trigger] is_walk(keys, vals, w) && w[0] == a && w[w.len() - 1] == b;
    let w2 = choose|w: Seq<int>| #[trigger] is_walk(keys, vals, w) && w[0] == b && w[w.len() - 1] == c;
    let n1 = w1.len();
    let w = w1 + w2.subrange(1, w2.len() as int);
    assert forall|k: int| 0 <= k < w.len() implies 0 <= #[trigger] w[k] < keys.len() by {
        if k >= n1 {
            assert(w[k] == w2[k - n1 + 1]);
        } else {
            assert(w[k] == w1[k]);
        }
    }
    assert forall|k: int| 0 <= k < w.len() - 1 implies #[trigger] linked(keys, vals, w[k], w[k + 1]) by {
        if k < n1 - 1 {
            assert(w[k] == w1[k] && w[k + 1] == w1[k + 1]);
        } else if k == n1 - 1 {
            assert(w[k] == w2[0] && w[k + 1] == w2[1]);
        } else {
            assert(w[k] == w2[k - n1 + 1] && w[k + 1] == w2[k - n1 + 2]);
        }
    }
    assert(is_walk(keys, vals, w));
    if w2.len() == 1 {
        assert(w[w.len() - 1] == w1[n1 - 1]);
    } else {
        assert(w[w.len() - 1] == w2[w2.len() - 1]);
    }
}

/// Labels equal across every link are equal across every walk.
proof fn lemma_labels_constant_on_components(
    keys: Seq<IdentityId>,
    vals: Seq<SocialGraphNode>,
    labels: Seq<usize>,
    a: int,
    b: int,
)
    requires
        labels.len() == keys.len(),
        forall|i: int, j: int| #[trigger] linked(keys, vals, i, j) ==> labels[i] == labels[j],
        connected(keys, vals, a, b),
    ensures
        labels[a] == labels[b],
{
    let w = choose|w: Seq<int>| #[trigger] is_walk(keys, vals, w) && w[0] == a && w[w.len() - 1] == b;
    lemma_walk_labels(keys, vals, labels, w, w.len() - 1);
}

proof fn lemma_walk_labels(keys: Seq<IdentityId>, vals: Seq<SocialGraphNode>, labels: Seq<usize>, w: Seq<int>, k: int)
    requires
        labels.len() == keys.len(),
        forall|i: int, j: int| #[trigger] linked(keys, vals, i, j) ==> labels[i] == labels[j],
        is_walk(keys, vals, w),
        0 <= k < w.len(),
    ensures
        labels[w[k]] == labels[w[0]],
    decreases k,
{
    if k > 0 {
        lemma_walk_labels(keys, vals, labels, w, k - 1);
        let j = k - 1;
        assert(linked(keys, vals, w[j], w[j + 1]));
    }
}

/// Sum of the labels.
pub open spec fn label_sum(s: Seq<usize>) -> nat
    decreases s.len(),
{
    if s.len() == 0 {
        0
    } else {
        label_sum(s.drop_last()) + s.last() as nat
    }
}

proof fn lemma_label_sum_update(s: Seq<usize>, i: int, x: usize)
    requires
        0 <= i < s.len(),
    ensures
        label_sum(s.update(i, x)) == label_sum(s) - s[i] + x,
    decreases s.len(),
{
    if i < s.len() - 1 {
        assert(s.update(i, x).drop_last() =~= s.drop_last().update(i, x));
        lemma_label_sum_update(s.drop_last(), i, x);
    } else {
        assert(s.update(i, x).drop_last() =~= s.drop_last());
    }
}

/// The keys collected for a component are keys of earlier positions.
proof fn lemma_component_upto_keys(keys: Seq<IdentityId>, vals: Seq<SocialGraphNode>, r: int, m: int, x: IdentityId)
    requires
        0 <= m <= keys.len(),
        component_upto(keys, vals, r, m).contains(x),
    ensures
        keys.take(m).contains(x),
    decreases m,
{
    if m > 0 {
        let prev = component_upto(keys, vals, r, m - 1);
        if prev.contains(x) {
            lemma_component_upto_keys(keys, vals, r, m - 1, x);
            let t = keys.take(m - 1);
            let i = choose|i: int| 0 <= i < t.len() && t[i] == x;
            assert(keys.take(m)[i] == x);
        } else {
            let cur = component_upto(keys, vals, r, m);
            let i = choose|i: int| 0 <= i < cur.len() && cur[i] == x;
            assert(i >= prev.len());
            assert(x == keys[m - 1]);
            assert(keys.take(m)[m - 1] == x);
        }
    }
}

#[allow(inconsistent_fields)]
#[derive(Debug, Clone)]
pub enum PersonhoodEvent {
    ChallengeIssued {
        challenge_id: crate::types::Hash,
        target: IdentityId,
        challenger: AccountId,
        challenge_type: String,
    },
    ChallengeResponseSubmitted { challenge_id: crate::types::Hash, target: IdentityId },
    ChallengeResolved { challenge_id: crate::types::Hash, target: IdentityId, passed: bool },
    SybilClusterDetected { cluster_id: u32, member_count: usize, risk_score: u32 },
    UniquenessVerified { identity_id: IdentityId, witness_count: usize },
    PersonhoodScoreUpdated { identity_id: IdentityId, old_score: u32, new_score: u32 },
}

#[derive(Debug, Clone, Copy, PartialEq, Eq, Structural)]
pub enum PersonhoodError {
    ChallengesDisabled,
    TargetNotActive,
    ChallengeCooldown,
    TooManyChallenges,
    InsufficientDeposit,
    ChallengeNotFound,
    ResponderHasNoIdentity,
    NotChallengeTarget,
    ChallengeNotPending,
    ChallengeExpired,
    InvalidResponseType,
    ChallengeNotReady,
    NoResponse,
    NotChallenger,
    IdentityNotFound,
    CommitmentExists,
    NoCommitment,
}

#[derive(Debug, Clone, Copy, PartialEq, Eq)]
pub struct PersonhoodConfig {
    pub challenges_enabled: bool,
    pub social_analysis_enabled: bool,
    pub min_score_for_privileges: u32,
    pub allow_anonymous_challenges: bool,
    /// Multiplies MIN_CHALLENGE_INTERVAL.
    pub challenge_cooldown_multiplier: u32,
}

impl Default for PersonhoodConfig {
    fn default() -> (c: Self)
        ensures
            c == (PersonhoodConfig {
                challenges_enabled: true,
                social_analysis_enabled: true,
                min_score_for_privileges: 500,
                allow_anonymous_challenges: false,
                challenge_cooldown_multiplier: 1,
            }),
    {
        PersonhoodConfig {
            challenges_enabled: true,
            social_analysis_enabled: true,
            min_score_for_privileges: 500,
            allow_anonymous_challenges: false,
            challenge_cooldown_multiplier: 1,
        }
    }
}


/// All 32 bytes are zero.
pub open spec fn is_zero_hash(h: crate::types::Hash) -> bool {
    forall|i: int| 0 <= i < 32 ==> h.bytes[i] == 0
}

fn hash_is_zero(h: &crate::types::Hash) -> (b: bool)
    ensures
        b == is_zero_hash(*h),
{
    let mut i: usize = 0;
    while i < 32
        invariant
            i <= 32,
            forall|j: int| 0 <= j < i ==> h.bytes[j] == 0,
        decreases 32 - i,
    {
        if h.bytes[i] != 0 {
            return false;
        }
        i = i + 1;
    }
    true
}

/// Whether a response passes its challenge: a liveness signature that is
/// not all zeros; enough attestations; a non-zero uniqueness proof with
/// enough witnesses that differs from the suspected duplicate's commitment;
/// a large enough stake. A response of another kind is an error.
pub open spec fn spec_response_passes(
    t: ChallengeType,
    r: ChallengeResponseData,
    commitments: Map<IdentityId, UniquenessCommitment>,
) -> Result<bool, PersonhoodError> {
    match (t, r) {
        (ChallengeType::Liveness { .. }, ChallengeResponseData::LivenessProof { signature }) => Ok(
            !is_zero_hash(signature),
        ),
        (
            ChallengeType::SocialVerification { required_attestations },
            ChallengeResponseData::SocialProof { attestation_ids },
        ) => Ok(attestation_ids@.len() >= required_attestations),
        (
            ChallengeType::UniquenessChallenge { suspected_duplicate },
            ChallengeResponseData::UniquenessProof { proof_hash, witnesses },
        ) => Ok(
            !is_zero_hash(proof_hash) && witnesses@.len() >= UNIQUENESS_PROOF_WITNESSES && !(commitments.contains_key(
                suspected_duplicate,
            ) && proof_hash == commitments[suspected_duplicate].commitment),
        ),
        (ChallengeType::StakeChallenge { required_stake }, ChallengeResponseData::StakeProof { stake_amount, .. }) => Ok(
            stake_amount >= required_stake,
        ),
        _ => Err(PersonhoodError::InvalidResponseType),
    }
}

/// How a response is judged. A response of the wrong kind is refused. A
/// uniqueness proof passes only with a non-zero hash, at least
/// UNIQUENESS_PROOF_WITNESSES witnesses, and a hash other than the
/// suspected duplicate's stored commitment, and passes when it has all
/// three; in particular, presenting the duplicate's own commitment never
/// passes. A liveness proof passes exactly with a non-zero signature, a
/// social proof exactly with the required number of attestations, a stake
/// proof exactly with the required stake.
pub proof fn law_response_judgement(
    t: ChallengeType,
    r: ChallengeResponseData,
    commitments: Map<IdentityId, UniquenessCommitment>,
)
    ensures
        !response_fits(t, r) ==> spec_response_passes(t, r, commitments) == Err::<bool, PersonhoodError>(
            PersonhoodError::InvalidResponseType,
        ),
        response_fits(t, r) ==> spec_response_passes(t, r, commitments) is Ok,
        t matches ChallengeType::UniquenessChallenge { suspected_duplicate } ==> (r matches ChallengeResponseData::UniquenessProof {
            proof_hash,
            witnesses,
        } ==> {
            &&& commitments.contains_key(suspected_duplicate) && proof_hash == commitments[suspected_duplicate].commitment
                ==> spec_response_passes(t, r, commitments) == Ok::<bool, PersonhoodError>(false)
            &&& is_zero_hash(proof_hash) ==> spec_response_passes(t, r, commitments) == Ok::<bool, PersonhoodError>(false)
            &&& witnesses@.len() < UNIQUENESS_PROOF_WITNESSES ==> spec_response_passes(t, r, commitments) == Ok::<
                bool,
                PersonhoodError,
            >(false)
            &&& !is_zero_hash(proof_hash) && witnesses@.len() >= UNIQUENESS_PROOF_WITNESSES && !(commitments.contains_key(
                suspected_duplicate,
            ) && proof_hash == commitments[suspected_duplicate].commitment) ==> spec_response_passes(t, r, commitments)
                == Ok::<bool, PersonhoodError>(true)
        }),
        t is Liveness ==> (r matches ChallengeResponseData::LivenessProof { signature } ==> spec_response_passes(
            t,
            r,
            commitments,
        ) == Ok::<bool, PersonhoodError>(!is_zero_hash(signature))),
        t matches ChallengeType::SocialVerification { required_attestations } ==> (r matches ChallengeResponseData::SocialProof {
            attestation_ids,
        } ==> spec_response_passes(t, r, commitments) == Ok::<bool, PersonhoodError>(
            attestation_ids@.len() >= required_attestations,
        )),
        t matches ChallengeType::StakeChallenge { required_stake } ==> (r matches ChallengeResponseData::StakeProof {
            stake_amount,
            ..
        } ==> spec_response_passes(t, r, commitments) == Ok::<bool, PersonhoodError>(stake_amount >= required_stake)),
{
}

/// The open challenges (pending or answered) among `ids`, in order.
pub open spec fn open_challenges(
    ids: Seq<crate::types::Hash>,
    table: Map<crate::types::Hash, PersonhoodChallenge>,
) -> Seq<PersonhoodChallenge>
    decreases ids.len(),
{
    if ids.len() == 0 {
        Seq::empty()
    } else {
        let prev = open_challenges(ids.drop_last(), table);
        let id = ids.last();
        if table.contains_key(id) && (table[id].status == ChallengeStatus::Pending || table[id].status
            == ChallengeStatus::ResponseSubmitted) {
            prev.push(table[id])
        } else {
            prev
        }
    }
}

pub struct PersonhoodRegistry {
    pub chain_id: ChainId,
    pub challenges: VecMap<crate::types::Hash, PersonhoodChallenge>,
    pub challenges_by_identity: VecMap<IdentityId, Vec<crate::types::Hash>>,
    pub last_challenge_time: VecMap<IdentityId, BlockNumber>,
    pub social_graph: VecMap<IdentityId, SocialGraphNode>,
    pub uniqueness_commitments: VecMap<IdentityId, UniquenessCommitment>,
    pub personhood_scores: VecMap<IdentityId, PersonhoodScore>,
    pub sybil_clusters: Vec<SybilCluster>,
    pub next_cluster_id: u32,
    pub events: Vec<PersonhoodEvent>,
    pub config: PersonhoodConfig,
}

impl PersonhoodRegistry {
    pub open spec fn inv(&self) -> bool {
        &&& self.challenges.wf()
        &&& self.challenges_by_identity.wf()
        &&& self.last_challenge_time.wf()
        &&& self.social_graph.wf()
        &&& self.uniqueness_commitments.wf()
        &&& self.personhood_scores.wf()
        &&& forall|id: IdentityId| #[trigger]
            self.personhood_scores@.contains_key(id) ==> self.personhood_scores@[id].wf()
    }

    pub open spec fn challenge_ids_of(&self, id: IdentityId) -> Seq<crate::types::Hash> {
        if self.challenges_by_identity@.contains_key(id) {
            self.challenges_by_identity@[id]@
        } else {
            Seq::empty()
        }
    }

    /// A challenge to `target` at `current_block` falls within the cooldown
    /// after the previous one.
    pub open spec fn in_cooldown(&self, target: IdentityId, current_block: BlockNumber) -> bool {
        self.last_challenge_time@.contains_key(target) && current_block < self.last_challenge_time@[target]
            + MIN_CHALLENGE_INTERVAL * self.config.challenge_cooldown_multiplier
    }

    pub fn new(chain_id: ChainId) -> (r: Self)
        ensures
            r.inv(),
            r.chain_id == chain_id,
            r.config == (PersonhoodConfig {
                challenges_enabled: true,
                social_analysis_enabled: true,
                min_score_for_privileges: 500,
                allow_anonymous_challenges: false,
                challenge_cooldown_multiplier: 1,
            }),
            r.challenges@ == Map::<crate::types::Hash, PersonhoodChallenge>::empty(),
            r.challenges_by_identity@ == Map::<IdentityId, Vec<crate::types::Hash>>::empty(),
            r.last_challenge_time@ == Map::<IdentityId, BlockNumber>::empty(),
            r.social_graph@ == Map::<IdentityId, SocialGraphNode>::empty(),
            r.uniqueness_commitments@ == Map::<IdentityId, UniquenessCommitment>::empty(),
            r.personhood_scores@ == Map::<IdentityId, PersonhoodScore>::empty(),
            r.sybil_clusters@.len() == 0,
            r.next_cluster_id == 1,
            r.events@.len() == 0,
    {
        PersonhoodRegistry {
            chain_id,
            challenges: VecMap::new(),
            challenges_by_identity: VecMap::new(),
            last_challenge_time: VecMap::new(),
            social_graph: VecMap::new(),
            uniqueness_commitments: VecMap::new(),
            personhood_scores: VecMap::new(),
            sybil_clusters: Vec::new(),
            next_cluster_id: 1,
            events: Vec::new(),
            config: PersonhoodConfig::default(),
        }
    }

    pub fn with_config(chain_id: ChainId, config: PersonhoodConfig) -> (r: Self)
        ensures
            r.inv(),
            r.chain_id == chain_id,
            r.config == config,
            r.challenges@ == Map::<crate::types::Hash, PersonhoodChallenge>::empty(),
            r.challenges_by_identity@ == Map::<IdentityId, Vec<crate::types::Hash>>::empty(),
            r.last_challenge_time@ == Map::<IdentityId, BlockNumber>::empty(),
            r.social_graph@ == Map::<IdentityId, SocialGraphNode>::empty(),
            r.personhood_scores@ == Map::<IdentityId, PersonhoodScore>::empty(),
            r.next_cluster_id == 1,
    {
        let mut r = Self::new(chain_id);
        r.config = config;
        r
    }

    /// `challenger` challenges the active identity `target_identity` with a
    /// deposit; returns the challenge id.
    pub fn issue_challenge(
        &mut self,
        challenger: AccountId,
        target_identity: IdentityId,
        challenge_type: ChallengeType,
        deposit: Balance,
        current_block: BlockNumber,
        identity_registry: &IdentityRegistry,
    ) -> (r: Result<crate::types::Hash, PersonhoodError>)
        requires
            old(self).inv(),
            identity_registry.inv(),
            current_block + CHALLENGE_PERIOD <= u64::MAX,
        ensures
            final(self).inv(),
            ({
                let o = old(self);
                let active = identity_registry.identities@.contains_key(target_identity)
                    && identity_registry.identities@[target_identity].spec_is_active(current_block);
                &&& !o.config.challenges_enabled ==> r == Err::<crate::types::Hash, PersonhoodError>(
                    PersonhoodError::ChallengesDisabled,
                )
                &&& o.config.challenges_enabled && !active ==> r == Err::<crate::types::Hash, PersonhoodError>(
                    PersonhoodError::TargetNotActive,
                )
                &&& o.config.challenges_enabled && active && o.in_cooldown(target_identity, current_block) ==> r
                    == Err::<crate::types::Hash, PersonhoodError>(PersonhoodError::ChallengeCooldown)
                &&& o.config.challenges_enabled && active && !o.in_cooldown(target_identity, current_block)
                    && o.challenge_ids_of(target_identity).len() >= MAX_CHALLENGES_PER_IDENTITY ==> r == Err::<
                    crate::types::Hash,
                    PersonhoodError,
                >(PersonhoodError::TooManyChallenges)
                &&& o.config.challenges_enabled && active && !o.in_cooldown(target_identity, current_block)
                    && o.challenge_ids_of(target_identity).len() < MAX_CHALLENGES_PER_IDENTITY && deposit
                    < CHALLENGE_DEPOSIT ==> r == Err::<crate::types::Hash, PersonhoodError>(
                    PersonhoodError::InsufficientDeposit,
                )
                &&& r.is_err() ==> *final(self) == *old(self)
                &&& o.config.challenges_enabled && active && !o.in_cooldown(target_identity, current_block)
                    && o.challenge_ids_of(target_identity).len() < MAX_CHALLENGES_PER_IDENTITY && deposit
                    >= CHALLENGE_DEPOSIT ==> {
                    let id = r->Ok_0;
                    let c = final(self).challenges@[id];
                    &&& r is Ok
                    &&& id.bytes@ == spec_hash_bytes(challenge_preimage(target_identity, challenger, current_block))
                    &&& final(self).challenges@ == o.challenges@.insert(id, c)
                    &&& c.challenge_id == id && c.target_identity == target_identity && c.challenger == challenger
                    &&& c.challenge_type == challenge_type && c.deposit == deposit && c.created_at == current_block
                    &&& c.deadline == current_block + CHALLENGE_PERIOD
                    &&& c.status == ChallengeStatus::Pending && c.response is None
                    &&& final(self).challenge_ids_of(target_identity) == o.challenge_ids_of(target_identity).push(id)
                    &&& final(self).last_challenge_time@ == o.last_challenge_time@.insert(target_identity, current_block)
                    &&& final(self).social_graph == o.social_graph
                    &&& final(self).uniqueness_commitments == o.uniqueness_commitments
                    &&& final(self).personhood_scores == o.personhood_scores
                    &&& final(self).config == o.config
                    &&& final(self).events@.len() == o.events@.len() + 1
                    &&& final(self).events@.drop_last() == o.events@
                    &&& final(self).events@.last() matches PersonhoodEvent::ChallengeIssued {
                        challenge_id: x,
                        target,
                        challenger: ch,
                        challenge_type: name,
                    } && x == id && target == target_identity && ch == challenger && name@ == challenge_type_label(
                        challenge_type,
                    )
                }
            }),
    {
        if !self.config.challenges_enabled {
            return Err(PersonhoodError::ChallengesDisabled);
        }
        if !identity_registry.is_active(&target_identity, current_block) {
            return Err(PersonhoodError::TargetNotActive);
        }
        match self.last_challenge_time.get(&target_identity) {
            Some(last) => {
                let cooldown: u64 = MIN_CHALLENGE_INTERVAL * self.config.challenge_cooldown_multiplier as u64;
                if !(current_block >= *last && current_block - *last >= cooldown) {
                    return Err(PersonhoodError::ChallengeCooldown);
                }
            },
            None => {},
        }
        let current = match self.challenges_by_identity.get(&target_identity) {
            Some(c) => c.len(),
            None => 0,
        };
        if current >= MAX_CHALLENGES_PER_IDENTITY {
            return Err(PersonhoodError::TooManyChallenges);
        }
        if deposit < CHALLENGE_DEPOSIT {
            return Err(PersonhoodError::InsufficientDeposit);
        }
        let challenge = PersonhoodChallenge::new(target_identity, challenger, challenge_type, deposit, current_block);
        let challenge_id = challenge.challenge_id;
        self.challenges.insert(challenge_id, challenge);
        push_to_list(&mut self.challenges_by_identity, target_identity, challenge_id);
        self.last_challenge_time.insert(target_identity, current_block);
        self.events.push(
            PersonhoodEvent::ChallengeIssued {
                challenge_id,
                target: target_identity,
                challenger,
                challenge_type: challenge_type.name(),
            },
        );
        proof {
            assert(self.events@.drop_last() =~= old(self).events@);
        }
        Ok(challenge_id)
    }

    /// Checks that the response kind answers the challenge kind.
    fn validate_response(challenge_type: &ChallengeType, response: &ChallengeResponseData) -> (r: Result<
        (),
        PersonhoodError,
    >)
        ensures
            response_fits(*challenge_type, *response) ==> r == Ok::<(), PersonhoodError>(()),
            !response_fits(*challenge_type, *response) ==> r == Err::<(), PersonhoodError>(
                PersonhoodError::InvalidResponseType,
            ),
    {
        match (challenge_type, response) {
            (ChallengeType::Liveness { .. }, ChallengeResponseData::LivenessProof { .. }) => Ok(()),
            (ChallengeType::SocialVerification { .. }, ChallengeResponseData::SocialProof { .. }) => Ok(()),
            (ChallengeType::UniquenessChallenge { .. }, ChallengeResponseData::UniquenessProof { .. }) => Ok(()),
            (ChallengeType::StakeChallenge { .. }, ChallengeResponseData::StakeProof { .. }) => Ok(()),
            _ => Err(PersonhoodError::InvalidResponseType),
        }
    }

    /// The owner of the challenged identity answers a pending challenge
    /// before its deadline.
    pub fn respond_to_challenge(
        &mut self,
        challenge_id: crate::types::Hash,
        responder: AccountId,
        response_data: ChallengeResponseData,
        current_block: BlockNumber,
        identity_registry: &IdentityRegistry,
    ) -> (r: Result<(), PersonhoodError>)
        requires
            old(self).inv(),
            identity_registry.inv(),
        ensures
            final(self).inv(),
            ({
                let o = old(self);
                let c = o.challenges@[challenge_id];
                let has_id = identity_registry.owner_to_identity@.contains_key(responder);
                let rid = identity_registry.owner_to_identity@[responder];
                &&& !o.challenges@.contains_key(challenge_id) ==> r == Err::<(), PersonhoodError>(
                    PersonhoodError::ChallengeNotFound,
                )
                &&& o.challenges@.contains_key(challenge_id) && !has_id ==> r == Err::<(), PersonhoodError>(
                    PersonhoodError::ResponderHasNoIdentity,
                )
                &&& o.challenges@.contains_key(challenge_id) && has_id && rid != c.target_identity ==> r == Err::<
                    (),
                    PersonhoodError,
                >(PersonhoodError::NotChallengeTarget)
                &&& o.challenges@.contains_key(challenge_id) && has_id && rid == c.target_identity && c.status
                    != ChallengeStatus::Pending ==> r == Err::<(), PersonhoodError>(PersonhoodError::ChallengeNotPending)
                &&& o.challenges@.contains_key(challenge_id) && has_id && rid == c.target_identity && c.status
                    == ChallengeStatus::Pending && c.spec_is_expired(current_block) ==> r == Err::<(), PersonhoodError>(
                    PersonhoodError::ChallengeExpired,
                )
                &&& o.challenges@.contains_key(challenge_id) && has_id && rid == c.target_identity && c.status
                    == ChallengeStatus::Pending && !c.spec_is_expired(current_block) && !response_fits(
                    c.challenge_type,
                    response_data,
                ) ==> r == Err::<(), PersonhoodError>(PersonhoodError::InvalidResponseType)
                &&& r.is_err() ==> *final(self) == *old(self)
                &&& o.challenges@.contains_key(challenge_id) && has_id && rid == c.target_identity && c.status
                    == ChallengeStatus::Pending && !c.spec_is_expired(current_block) && response_fits(
                    c.challenge_type,
                    response_data,
                ) ==> {
                    &&& r == Ok::<(), PersonhoodError>(())
                    &&& final(self).challenges@ == o.challenges@.insert(
                        challenge_id,
                        PersonhoodChallenge {
                            response: Some(ChallengeResponse { submitted_at: current_block, response_data }),
                            status: ChallengeStatus::ResponseSubmitted,
                            ..c
                        },
                    )
                    &&& final(self).events@ == o.events@.push(
                        PersonhoodEvent::ChallengeResponseSubmitted { challenge_id, target: c.target_identity },
                    )
                    &&& *final(self) == (PersonhoodRegistry {
                        challenges: final(self).challenges,
                        events: final(self).events,
                        ..*old(self)
                    })
                }
            }),
    {
        let i = match self.challenges.find(&challenge_id) {
            Some(i) => i,
            None => return Err(PersonhoodError::ChallengeNotFound),
        };
        let responder_identity = match identity_registry.get_identity_id(&responder) {
            Some(id) => id,
            None => return Err(PersonhoodError::ResponderHasNoIdentity),
        };
        let target = self.challenges.val_at(i).target_identity;
        if !responder_identity.key_eq(&target) {
            return Err(PersonhoodError::NotChallengeTarget);
        }
        if self.challenges.val_at(i).status != ChallengeStatus::Pending {
            return Err(PersonhoodError::ChallengeNotPending);
        }
        if self.challenges.val_at(i).is_expired(current_block) {
            return Err(PersonhoodError::ChallengeExpired);
        }
        Self::validate_response(&self.challenges.val_at(i).challenge_type, &response_data)?;
        let ghost before = self.challenges;
        let challenge = self.challenges.val_at_mut(i);
        challenge.response = Some(ChallengeResponse { submitted_at: current_block, response_data });
        challenge.status = ChallengeStatus::ResponseSubmitted;
        proof {
            let nv = self.challenges.val_seq()[i as int];
            VecMap::lemma_update_at(&before, &self.challenges, i as int, nv);
        }
        self.events.push(PersonhoodEvent::ChallengeResponseSubmitted { challenge_id, target });
        Ok(())
    }

    /// Whether the answer of `challenge` passes.
    fn verify_response(&self, challenge: &PersonhoodChallenge, _current_block: BlockNumber) -> (r: Result<
        bool,
        PersonhoodError,
    >)
        requires
            self.inv(),
        ensures
            challenge.response is None ==> r == Err::<bool, PersonhoodError>(PersonhoodError::NoResponse),
            challenge.response is Some ==> r == spec_response_passes(
                challenge.challenge_type,
                challenge.response->0.response_data,
                self.uniqueness_commitments@,
            ),
    {
        let response = match &challenge.response {
            Some(resp) => resp,
            None => return Err(PersonhoodError::NoResponse),
        };
        match (&challenge.challenge_type, &response.response_data) {
            (ChallengeType::Liveness { .. }, ChallengeResponseData::LivenessProof { signature }) => Ok(
                !hash_is_zero(signature),
            ),
            (
                ChallengeType::SocialVerification { required_attestations },
                ChallengeResponseData::SocialProof { attestation_ids },
            ) => Ok(attestation_ids.len() >= *required_attestations),
            (
                ChallengeType::UniquenessChallenge { suspected_duplicate },
                ChallengeResponseData::UniquenessProof { proof_hash, witnesses },
            ) => {
                let valid_proof = !hash_is_zero(proof_hash);
                let enough_witnesses = witnesses.len() >= UNIQUENESS_PROOF_WITNESSES;
                let not_duplicate = match self.uniqueness_commitments.get(suspected_duplicate) {
                    Some(c) => !proof_hash.key_eq(&c.commitment),
                    None => true,
                };
                Ok(valid_proof && enough_witnesses && not_duplicate)
            },
            (ChallengeType::StakeChallenge { required_stake }, ChallengeResponseData::StakeProof { stake_amount, .. }) => Ok(
                *stake_amount >= *required_stake,
            ),
            _ => Err(PersonhoodError::InvalidResponseType),
        }
    }

    /// Resolves an answered challenge by checking the answer, or an
    /// unanswered one once expired (as failed); returns whether it passed
    /// and the challenger's payout.
    pub fn resolve_challenge(&mut self, challenge_id: crate::types::Hash, current_block: BlockNumber) -> (r: Result<
        (bool, Balance),
        PersonhoodError,
    >)
        requires
            old(self).inv(),
            old(self).challenges@.contains_key(challenge_id) ==> old(self).challenges@[challenge_id].deposit
                + CHALLENGE_FAILURE_PENALTY <= u128::MAX,
        ensures
            final(self).inv(),
            ({
                let o = old(self);
                let c = o.challenges@[challenge_id];
                let outcome: Result<bool, PersonhoodError> = if c.status == ChallengeStatus::ResponseSubmitted {
                    if c.response is None {
                        Err(PersonhoodError::NoResponse)
                    } else {
                        spec_response_passes(c.challenge_type, c.response->0.response_data, o.uniqueness_commitments@)
                    }
                } else if c.spec_is_expired(current_block) {
                    Ok(false)
                } else {
                    Err(PersonhoodError::ChallengeNotReady)
                };
                &&& !o.challenges@.contains_key(challenge_id) ==> r == Err::<(bool, Balance), PersonhoodError>(
                    PersonhoodError::ChallengeNotFound,
                ) && *final(self) == *old(self)
                &&& o.challenges@.contains_key(challenge_id) && outcome is Err ==> r == Err::<
                    (bool, Balance),
                    PersonhoodError,
                >(outcome->Err_0) && *final(self) == *old(self)
                &&& o.challenges@.contains_key(challenge_id) && outcome is Ok ==> {
                    let passed = outcome->Ok_0;
                    let st = if passed {
                        ChallengeStatus::Passed
                    } else if c.spec_is_expired(current_block) && c.status != ChallengeStatus::ResponseSubmitted {
                        ChallengeStatus::Expired
                    } else {
                        ChallengeStatus::Failed
                    };
                    let t = c.target_identity;
                    &&& r == Ok::<(bool, Balance), PersonhoodError>(
                        (passed, if passed {
                            c.deposit
                        } else {
                            (c.deposit + CHALLENGE_FAILURE_PENALTY) as u128
                        }),
                    )
                    &&& final(self).challenges@ == o.challenges@.insert(
                        challenge_id,
                        PersonhoodChallenge { status: st, ..c },
                    )
                    &&& !o.personhood_scores@.contains_key(t) ==> final(self).personhood_scores == o.personhood_scores
                    &&& o.personhood_scores@.contains_key(t) ==> final(self).personhood_scores@ == o.personhood_scores@.insert(
                        t,
                        if passed {
                            {
                                let s0 = o.personhood_scores@[t];
                                let s = PersonhoodScore {
                                    challenges_passed: crate::identity::counter_inc(s0.challenges_passed),
                                    last_verified: Some(current_block),
                                    ..s0
                                };
                                PersonhoodScore { total: PersonhoodScore::spec_total(s), ..s }
                            }
                        } else {
                            PersonhoodScore {
                                challenges_failed: crate::identity::counter_inc(
                                    o.personhood_scores@[t].challenges_failed,
                                ),
                                ..o.personhood_scores@[t]
                            }
                        },
                    )
                    &&& final(self).social_graph == o.social_graph
                    &&& final(self).uniqueness_commitments == o.uniqueness_commitments
                    &&& final(self).challenges_by_identity == o.challenges_by_identity
                    &&& final(self).config == o.config
                    &&& final(self).events@ == o.events@.push(
                        PersonhoodEvent::ChallengeResolved { challenge_id, target: t, passed },
                    )
                }
            }),
    {
        let i = match self.challenges.find(&challenge_id) {
            Some(i) => i,
            None => return Err(PersonhoodError::ChallengeNotFound),
        };
        let (status, is_expired, target_identity, deposit) = {
            let c = self.challenges.val_at(i);
            (c.status, c.is_expired(current_block), c.target_identity, c.deposit)
        };
        let passed = if status == ChallengeStatus::ResponseSubmitted {
            self.verify_response(self.challenges.val_at(i), current_block)?
        } else if is_expired {
            false
        } else {
            return Err(PersonhoodError::ChallengeNotReady);
        };
        let ghost before = self.challenges;
        let challenge = self.challenges.val_at_mut(i);
        challenge.status = if passed {
            ChallengeStatus::Passed
        } else if is_expired && status != ChallengeStatus::ResponseSubmitted {
            ChallengeStatus::Expired
        } else {
            ChallengeStatus::Failed
        };
        proof {
            let nv = self.challenges.val_seq()[i as int];
            VecMap::lemma_update_at(&before, &self.challenges, i as int, nv);
        }
        match self.personhood_scores.find(&target_identity) {
            Some(j) => {
                let ghost sb = self.personhood_scores;
                proof {
                    sb.lemma_wf();
                    assert(sb@.contains_key(sb.key_seq()[j as int]));
                }
                let score = self.personhood_scores.val_at_mut(j);
                if passed {
                    score.record_challenge_pass(current_block);
                } else {
                    score.record_challenge_fail();
                }
                proof {
                    let nv = self.personhood_scores.val_seq()[j as int];
                    VecMap::lemma_update_at(&sb, &self.personhood_scores, j as int, nv);
                    assert forall|id: IdentityId| #[trigger] self.personhood_scores@.contains_key(id) implies self.personhood_scores@[id].wf() by {
                        assert(sb@.contains_key(id));
                    }
                }
            },
            None => {},
        }
        let payout = if passed {
            deposit
        } else {
            deposit + CHALLENGE_FAILURE_PENALTY
        };
        self.events.push(PersonhoodEvent::ChallengeResolved { challenge_id, target: target_identity, passed });
        Ok((passed, payout))
    }

    /// Open challenges (pending or answered) to `identity_id`, in order.
    pub fn get_challenges(&self, identity_id: &IdentityId) -> (r: Vec<&PersonhoodChallenge>)
        requires
            self.inv(),
        ensures
            r@.len() == open_challenges(self.challenge_ids_of(*identity_id), self.challenges@).len(),
            forall|j: int|
                0 <= j < r@.len() ==> *r@[j] == open_challenges(self.challenge_ids_of(*identity_id), self.challenges@)[j],
    {
        let ids = match self.challenges_by_identity.get(identity_id) {
            Some(ids) => ids,
            None => {
                return Vec::new();
            },
        };
        let mut out: Vec<&PersonhoodChallenge> = Vec::new();
        let mut i: usize = 0;
        while i < ids.len()
            invariant
                self.inv(),
                i <= ids@.len(),
                out@.len() == open_challenges(ids@.take(i as int), self.challenges@).len(),
                forall|j: int|
                    0 <= j < out@.len() ==> *out@[j] == open_challenges(ids@.take(i as int), self.challenges@)[j],
            decreases ids@.len() - i,
        {
            proof {
                assert(ids@.take(i + 1).drop_last() =~= ids@.take(i as int));
                assert(ids@.take(i + 1).last() == ids@[i as int]);
            }
            match self.challenges.get(&ids[i]) {
                Some(c) => {
                    if c.status == ChallengeStatus::Pending || c.status == ChallengeStatus::ResponseSubmitted {
                        out.push(c);
                    }
                },
                None => {},
            }
            i = i + 1;
        }
        proof {
            assert(ids@.take(ids@.len() as int) =~= ids@);
        }
        out
    }

    /// The challenger withdraws an unanswered challenge and gets the
    /// deposit back.
    pub fn cancel_challenge(&mut self, challenge_id: crate::types::Hash, canceller: AccountId) -> (r: Result<
        Balance,
        PersonhoodError,
    >)
        requires
            old(self).inv(),
        ensures
            final(self).inv(),
            ({
                let o = old(self);
                let c = o.challenges@[challenge_id];
                &&& !o.challenges@.contains_key(challenge_id) ==> r == Err::<Balance, PersonhoodError>(
                    PersonhoodError::ChallengeNotFound,
                )
                &&& o.challenges@.contains_key(challenge_id) && c.challenger != canceller ==> r == Err::<
                    Balance,
                    PersonhoodError,
                >(PersonhoodError::NotChallenger)
                &&& o.challenges@.contains_key(challenge_id) && c.challenger == canceller && c.status
                    != ChallengeStatus::Pending ==> r == Err::<Balance, PersonhoodError>(
                    PersonhoodError::ChallengeNotPending,
                )
                &&& r.is_err() ==> *final(self) == *old(self)
                &&& o.challenges@.contains_key(challenge_id) && c.challenger == canceller && c.status
                    == ChallengeStatus::Pending ==> {
                    &&& r == Ok::<Balance, PersonhoodError>(c.deposit)
                    &&& final(self).challenges@ == o.challenges@.insert(
                        challenge_id,
                        PersonhoodChallenge { status: ChallengeStatus::Cancelled, ..c },
                    )
                    &&& *final(self) == (PersonhoodRegistry { challenges: final(self).challenges, ..*old(self) })
                }
            }),
    {
        let i = match self.challenges.find(&challenge_id) {
            Some(i) => i,
            None => return Err(PersonhoodError::ChallengeNotFound),
        };
        if !self.challenges.val_at(i).challenger.key_eq(&canceller) {
            return Err(PersonhoodError::NotChallenger);
        }
        if self.challenges.val_at(i).status != ChallengeStatus::Pending {
            return Err(PersonhoodError::ChallengeNotPending);
        }
        let ghost before = self.challenges;
        let challenge = self.challenges.val_at_mut(i);
        challenge.status = ChallengeStatus::Cancelled;
        let deposit = challenge.deposit;
        proof {
            let nv = self.challenges.val_seq()[i as int];
            VecMap::lemma_update_at(&before, &self.challenges, i as int, nv);
        }
        Ok(deposit)
    }

    /// Links `other` to the node of `id` (creating the node if needed).
    fn link(&mut self, id: IdentityId, other: IdentityId, incoming: bool)
        requires
            old(self).inv(),
        ensures
            final(self).inv(),
            final(self).social_graph@.contains_key(id),
            forall|k: IdentityId| k != id ==> (#[trigger] final(self).social_graph@.contains_key(k) <==> old(self).social_graph@.contains_key(k)),
            forall|k: IdentityId|
                k != id && old(self).social_graph@.contains_key(k) ==> #[trigger] final(self).social_graph@[k] == old(self).social_graph@[k],
            ({
                let n = final(self).social_graph@[id];
                let out0 = if old(self).social_graph@.contains_key(id) {
                    old(self).social_graph@[id].outgoing@
                } else {
                    Seq::empty()
                };
                let in0 = if old(self).social_graph@.contains_key(id) {
                    old(self).social_graph@[id].incoming@
                } else {
                    Seq::empty()
                };
                let conn0 = if old(self).social_graph@.contains_key(id) {
                    old(self).social_graph@[id].connections@
                } else {
                    Seq::empty()
                };
                &&& n.identity_id == if old(self).social_graph@.contains_key(id) {
                    old(self).social_graph@[id].identity_id
                } else {
                    id
                }
                &&& n.connectivity_score == if old(self).social_graph@.contains_key(id) {
                    old(self).social_graph@[id].connectivity_score
                } else {
                    0
                }
                &&& n.outgoing@ == if incoming {
                    out0
                } else {
                    add_once(out0, other)
                }
                &&& n.incoming@ == if incoming {
                    add_once(in0, other)
                } else {
                    in0
                }
                &&& n.connections@ == add_once(conn0, other)
            }),
            *final(self) == (PersonhoodRegistry { social_graph: final(self).social_graph, ..*old(self) }),
    {
        match self.social_graph.find(&id) {
            Some(i) => {
                let ghost before = self.social_graph;
                proof {
                    before.lemma_wf();
                }
                let node = self.social_graph.val_at_mut(i);
                node.add_connection(other, incoming);
                proof {
                    let nv = self.social_graph.val_seq()[i as int];
                    VecMap::lemma_update_at(&before, &self.social_graph, i as int, nv);
                }
            },
            None => {
                let mut node = SocialGraphNode::new(id);
                node.add_connection(other, incoming);
                proof {
                    assert(add_once(Seq::<IdentityId>::empty(), other) =~= seq![other]);
                }
                self.social_graph.insert(id, node);
            },
        }
    }

    /// Records in the social graph that `attester_identity` attested
    /// `target_identity`.
    pub fn record_attestation(&mut self, attester_identity: IdentityId, target_identity: IdentityId)
        requires
            old(self).inv(),
        ensures
            final(self).inv(),
            final(self).social_graph@.dom() == old(self).social_graph@.dom().insert(attester_identity).insert(
                target_identity,
            ),
            forall|k: IdentityId|
                k != attester_identity && k != target_identity && old(self).social_graph@.contains_key(k)
                    ==> #[trigger] final(self).social_graph@[k] == old(self).social_graph@[k],
            ({
                let g = old(self).social_graph@;
                let a = attester_identity;
                let t = target_identity;
                let out_a = if g.contains_key(a) {
                    g[a].outgoing@
                } else {
                    Seq::empty()
                };
                let in_t = if g.contains_key(t) {
                    g[t].incoming@
                } else {
                    Seq::empty()
                };
                &&& final(self).social_graph@[a].outgoing@ == add_once(out_a, t)
                &&& final(self).social_graph@[t].incoming@ == add_once(in_t, a)
                &&& a != t ==> final(self).social_graph@[a].incoming@ == (if g.contains_key(a) {
                    g[a].incoming@
                } else {
                    Seq::empty()
                })
                &&& a != t ==> final(self).social_graph@[t].outgoing@ == (if g.contains_key(t) {
                    g[t].outgoing@
                } else {
                    Seq::empty()
                })
            }),
            *final(self) == (PersonhoodRegistry { social_graph: final(self).social_graph, ..*old(self) }),
    {
        self.link(attester_identity, target_identity, false);
        self.link(target_identity, attester_identity, true);
        proof {
            assert(self.social_graph@.dom() =~= old(self).social_graph@.dom().insert(attester_identity).insert(
                target_identity,
            ));
        }
    }

    /// The node after its connectivity is recomputed for a graph of
    /// `total` identities.
    pub open spec fn with_connectivity(n: SocialGraphNode, total: u64) -> SocialGraphNode {
        SocialGraphNode {
            connectivity_score: SocialGraphNode::spec_connectivity(n.connections@.len(), total),
            ..n
        }
    }

    /// Recomputes every node's connectivity, feeds it into the personhood
    /// scores, and (when social analysis is on) looks for clusters.
    pub fn recalculate_social_graph(&mut self)
        requires
            old(self).inv(),
        ensures
            final(self).inv(),
            final(self).social_graph@.dom() == old(self).social_graph@.dom(),
            forall|k: IdentityId| #[trigger]
                old(self).social_graph@.contains_key(k) ==> final(self).social_graph@[k] == Self::with_connectivity(
                    old(self).social_graph@[k],
                    old(self).social_graph@.dom().len() as u64,
                ),
            final(self).personhood_scores@.dom() == old(self).personhood_scores@.dom(),
            forall|k: IdentityId| #[trigger]
                old(self).personhood_scores@.contains_key(k) ==> final(self).personhood_scores@[k] == if old(self).social_graph@.contains_key(k) {
                    {
                        let s0 = old(self).personhood_scores@[k];
                        let s = PersonhoodScore {
                            social_score: cap200(
                                final(self).social_graph@[k].connectivity_score as int,
                            ),
                            ..s0
                        };
                        PersonhoodScore { total: PersonhoodScore::spec_total(s), ..s }
                    }
                } else {
                    old(self).personhood_scores@[k]
                },
            !old(self).config.social_analysis_enabled ==> final(self).sybil_clusters == old(self).sybil_clusters
                && final(self).next_cluster_id == old(self).next_cluster_id && final(self).events == old(self).events,
            old(self).config.social_analysis_enabled ==> final(self).events@ == old(self).events@ + cluster_events(
                final(self).sybil_clusters@,
            ),
            old(self).config.social_analysis_enabled ==> clusters_of_graph(
                final(self).sybil_clusters@,
                final(self).social_graph.key_seq(),
                final(self).social_graph.val_seq(),
                final(self).social_graph@,
                old(self).next_cluster_id,
            ) && final(self).next_cluster_id == cluster_number(
                old(self).next_cluster_id,
                final(self).sybil_clusters@.len() as int,
            ),
            final(self).challenges == old(self).challenges,
            final(self).uniqueness_commitments == old(self).uniqueness_commitments,
            final(self).config == old(self).config,
    {
        let ghost start = *self;
        let ghost keys = self.social_graph.key_seq();
        proof {
            start.social_graph.lemma_wf();
        }
        let n = self.social_graph.len();
        let total = n as u64;
        let mut i: usize = 0;
        while i < n
            invariant
                self.inv(),
                keys == start.social_graph.key_seq(),
                keys == self.social_graph.key_seq(),
                n == keys.len(),
                total == n as u64,
                i <= n,
                self.social_graph.val_seq().len() == n,
                start.social_graph.val_seq().len() == n,
                forall|j: int|
                    0 <= j < n ==> #[trigger] start.social_graph@.contains_key(keys[j]) && start.social_graph@[keys[j]]
                        == start.social_graph.val_seq()[j],
                forall|j: int|
                    0 <= j < n ==> #[trigger] self.social_graph.val_seq()[j] == if j < i {
                        Self::with_connectivity(start.social_graph.val_seq()[j], total)
                    } else {
                        start.social_graph.val_seq()[j]
                    },
                *self == (PersonhoodRegistry { social_graph: self.social_graph, ..start }),
            decreases n - i,
        {
            let ghost before = self.social_graph;
            let node = self.social_graph.val_at_mut(i);
            node.calculate_connectivity(total);
            proof {
                let nv = self.social_graph.val_seq()[i as int];
                VecMap::lemma_update_at(&before, &self.social_graph, i as int, nv);
                before.lemma_wf();
                assert(self.social_graph@.dom() =~= before@.dom());
            }
            i = i + 1;
        }
        proof {
            self.social_graph.lemma_wf();
            assert(start.social_graph@.dom().len() == n);
            assert forall|k: IdentityId| #[trigger] start.social_graph@.contains_key(k) implies self.social_graph@.contains_key(
                k,
            ) && self.social_graph@[k] == Self::with_connectivity(start.social_graph@[k], total) by {
                let w = choose|w: int| 0 <= w < n && keys[w] == k;
                assert(self.social_graph@.contains_key(keys[w]));
            }
            assert forall|k: IdentityId| #[trigger] self.social_graph@.contains_key(k) implies start.social_graph@.contains_key(
                k,
            ) by {
                let w = choose|w: int| 0 <= w < n && keys[w] == k;
                assert(start.social_graph@.contains_key(keys[w]));
            }
            assert(self.social_graph@.dom() =~= start.social_graph@.dom());
        }
        let ghost mid = *self;
        let ghost skeys = self.personhood_scores.key_seq();
        proof {
            mid.personhood_scores.lemma_wf();
        }
        let m = self.personhood_scores.len();
        let mut j: usize = 0;
        while j < m
            invariant
                self.inv(),
                skeys == mid.personhood_scores.key_seq(),
                skeys == self.personhood_scores.key_seq(),
                m == skeys.len(),
                j <= m,
                self.personhood_scores.val_seq().len() == m,
                mid.personhood_scores.val_seq().len() == m,
                mid.inv(),
                forall|q: int|
                    0 <= q < m ==> #[trigger] mid.personhood_scores@.contains_key(skeys[q]) && mid.personhood_scores@[skeys[q]]
                        == mid.personhood_scores.val_seq()[q],
                forall|q: int|
                    0 <= q < m ==> #[trigger] self.personhood_scores.val_seq()[q] == if q < j && mid.social_graph@.contains_key(
                        skeys[q],
                    ) {
                        {
                            let s0 = mid.personhood_scores.val_seq()[q];
                            let s = PersonhoodScore {
                                social_score: cap200(mid.social_graph@[skeys[q]].connectivity_score as int),
                                ..s0
                            };
                            PersonhoodScore { total: PersonhoodScore::spec_total(s), ..s }
                        }
                    } else {
                        mid.personhood_scores.val_seq()[q]
                    },
                *self == (PersonhoodRegistry { personhood_scores: self.personhood_scores, ..mid }),
            decreases m - j,
        {
            let id = *self.personhood_scores.key_at(j);
            let conn = match self.social_graph.get(&id) {
                Some(node) => Some(node.connectivity_score),
                None => None,
            };
            match conn {
                Some(c) => {
                    let ghost before = self.personhood_scores;
                    proof {
                        assert(mid.personhood_scores@.contains_key(skeys[j as int]));
                    }
                    let score = self.personhood_scores.val_at_mut(j);
                    score.update_social(c);
                    proof {
                        let nv = self.personhood_scores.val_seq()[j as int];
                        VecMap::lemma_update_at(&before, &self.personhood_scores, j as int, nv);
                        before.lemma_wf();
                        assert(self.personhood_scores@.dom() =~= before@.dom());
                        assert forall|k: IdentityId| #[trigger] self.personhood_scores@.contains_key(k) implies self.personhood_scores@[k].wf() by {
                            assert(before@.contains_key(k));
                        }
                    }
                },
                None => {},
            }
            j = j + 1;
        }
        proof {
            self.personhood_scores.lemma_wf();
            assert forall|k: IdentityId| #[trigger] mid.personhood_scores@.contains_key(k) implies self.personhood_scores@.contains_key(
                k,
            ) by {
                let w = choose|w: int| 0 <= w < m && skeys[w] == k;
                assert(self.personhood_scores@.contains_key(skeys[w]));
            }
            assert forall|k: IdentityId| #[trigger] self.personhood_scores@.contains_key(k) implies mid.personhood_scores@.contains_key(
                k,
            ) by {
                let w = choose|w: int| 0 <= w < m && skeys[w] == k;
                assert(mid.personhood_scores@.contains_key(skeys[w]));
            }
            assert(self.personhood_scores@.dom() =~= mid.personhood_scores@.dom());
        }
        if self.config.social_analysis_enabled {
            self.detect_sybil_clusters();
        }
    }

    /// For each position of the graph, the first position of its linked
    /// component: labels start as the positions themselves and each link
    /// lowers the larger of its two ends' labels, until no link changes one.
    fn component_labels(&self) -> (labels: Vec<usize>)
        requires
            self.social_graph.wf(),
        ensures
            component_labeling(self.social_graph.key_seq(), self.social_graph.val_seq(), labels@),
    {
        let ghost keys = self.social_graph.key_seq();
        let ghost vals = self.social_graph.val_seq();
        proof {
            self.social_graph.lemma_wf();
        }
        let n = self.social_graph.len();
        let mut labels: Vec<usize> = Vec::new();
        let mut k: usize = 0;
        while k < n
            invariant
                k <= n,
                n == keys.len(),
                labels@.len() == k,
                forall|q: int| 0 <= q < k ==> #[trigger] labels@[q] == q,
            decreases n - k,
        {
            labels.push(k);
            k = k + 1;
        }
        proof {
            assert forall|q: int| 0 <= q < n implies connected(keys, vals, q, #[trigger] labels@[q] as int) by {
                lemma_walk_refl(keys, vals, q);
            }
        }
        let mut changed = true;
        while changed
            invariant
                self.social_graph.wf(),
                keys == self.social_graph.key_seq(),
                vals == self.social_graph.val_seq(),
                n == keys.len(),
                vals.len() == n,
                labels@.len() == n,
                forall|q: int| 0 <= q < n ==> #[trigger] labels@[q] <= q,
                forall|q: int| 0 <= q < n ==> connected(keys, vals, q, #[trigger] labels@[q] as int),
                !changed ==> forall|i: int, j: int| #[trigger] linked(keys, vals, i, j) ==> labels@[i] == labels@[j],
            decreases label_sum(labels@) + if changed {
                1int
            } else {
                0int
            },
        {
            let ghost start = labels@;
            changed = false;
            let mut i: usize = 0;
            while i < n
                invariant
                    self.social_graph.wf(),
                    keys == self.social_graph.key_seq(),
                    vals == self.social_graph.val_seq(),
                    n == keys.len(),
                    vals.len() == n,
                    i <= n,
                    labels@.len() == n,
                    forall|q: int| 0 <= q < n ==> #[trigger] labels@[q] <= q,
                    forall|q: int| 0 <= q < n ==> connected(keys, vals, q, #[trigger] labels@[q] as int),
                    label_sum(labels@) <= label_sum(start),
                    changed ==> label_sum(labels@) < label_sum(start),
                    !changed ==> labels@ == start,
                    !changed ==> forall|i2: int, j2: int|
                        0 <= i2 < i && 0 <= j2 < n && #[trigger] vals[i2].connections@.contains(#[trigger] keys[j2])
                            ==> labels@[i2] == labels@[j2],
                decreases n - i,
            {
                let node = self.social_graph.val_at(i);
                let mut c: usize = 0;
                while c < node.connections.len()
                    invariant
                        self.social_graph.wf(),
                        keys == self.social_graph.key_seq(),
                        vals == self.social_graph.val_seq(),
                        n == keys.len(),
                        vals.len() == n,
                        i < n,
                        *node == vals[i as int],
                        c <= node.connections@.len(),
                        labels@.len() == n,
                        forall|q: int| 0 <= q < n ==> #[trigger] labels@[q] <= q,
                        forall|q: int| 0 <= q < n ==> connected(keys, vals, q, #[trigger] labels@[q] as int),
                        label_sum(labels@) <= label_sum(start),
                        changed ==> label_sum(labels@) < label_sum(start),
                        !changed ==> labels@ == start,
                        !changed ==> forall|i2: int, j2: int|
                            0 <= i2 < i && 0 <= j2 < n && #[trigger] vals[i2].connections@.contains(#[trigger] keys[j2])
                                ==> labels@[i2] == labels@[j2],
                        !changed ==> forall|j2: int|
                            0 <= j2 < n && node.connections@.take(c as int).contains(#[trigger] keys[j2]) ==> labels@[i as int]
                                == labels@[j2],
                    decreases node.connections@.len() - c,
                {
                    proof {
                        assert forall|j2: int|
                            0 <= j2 < n && node.connections@.take(c + 1).contains(#[trigger] keys[j2])
                                implies node.connections@.take(c as int).contains(keys[j2]) || keys[j2] == node.connections@[c as int] by {
                            let t = node.connections@.take(c + 1);
                            let w = choose|w: int| 0 <= w < t.len() && t[w] == keys[j2];
                            if w < c {
                                assert(node.connections@.take(c as int)[w] == keys[j2]);
                            }
                        }
                    }
                    match self.social_graph.find(&node.connections[c]) {
                        Some(j) => {
                            let li = labels[i];
                            let lj = labels[j];
                            proof {
                                assert(keys[j as int] == node.connections@[c as int]);
                                assert(vals[i as int].connections@.contains(keys[j as int]));
                                assert(linked(keys, vals, i as int, j as int));
                            }
                            if li != lj {
                                let low = if li < lj {
                                    li
                                } else {
                                    lj
                                };
                                let ghost before = labels@;
                                proof {
                                    if low == lj {
                                        lemma_connected_step(keys, vals, i as int, j as int, lj as int);
                                    } else {
                                        lemma_linked_sym(keys, vals, i as int, j as int);
                                        lemma_connected_step(keys, vals, j as int, i as int, li as int);
                                    }
                                }
                                labels.set(i, low);
                                proof {
                                    lemma_label_sum_update(before, i as int, low);
                                }
                                let ghost mid = labels@;
                                labels.set(j, low);
                                proof {
                                    lemma_label_sum_update(mid, j as int, low);
                                    assert forall|q: int| 0 <= q < n implies connected(keys, vals, q, #[trigger] labels@[q] as int) by {
                                        if q != i && q != j {
                                            assert(labels@[q] == before[q]);
                                        }
                                    }
                                }
                                changed = true;
                            } else {
                                proof {
                                    self.social_graph.lemma_wf();
                                    if !changed {
                                        assert forall|j2: int|
                                            0 <= j2 < n && node.connections@.take(c + 1).contains(#[trigger] keys[j2])
                                                implies labels@[i as int] == labels@[j2] by {
                                            if keys[j2] == keys[j as int] {
                                                assert(j2 == j as int);
                                            }
                                        }
                                    }
                                }
                            }
                        },
                        None => {
                            proof {
                                assert forall|j2: int| 0 <= j2 < n implies keys[j2] != node.connections@[c as int] by {
                                    self.social_graph.lemma_wf();
                                    assert(self.social_graph@.contains_key(keys[j2]));
                                }
                            }
                        },
                    }
                    c = c + 1;
                }
                proof {
                    assert(node.connections@.take(node.connections@.len() as int) =~= node.connections@);
                }
                i = i + 1;
            }
        }
        proof {
            assert forall|j: int| 0 <= j < n implies is_component_min(keys, vals, #[trigger] labels@[j] as int)
                && connected(keys, vals, j, labels@[j] as int) by {
                let r = labels@[j] as int;
                assert(connected(keys, vals, j, r));
                assert forall|i: int| 0 <= i < r implies !#[trigger] connected(keys, vals, i, r) by {
                    if connected(keys, vals, i, r) {
                        lemma_connected_sym(keys, vals, j, r);
                        lemma_connected_trans(keys, vals, i, r, j);
                        lemma_labels_constant_on_components(keys, vals, labels@, i, j);
                        assert(labels@[i] <= i);
                    }
                }
            }
            assert forall|j: int, r: int|
                0 <= j < n && is_component_min(keys, vals, r) && #[trigger] connected(keys, vals, j, r) implies labels@[j]
                    == r by {
                if is_component_min(keys, vals, r) && connected(keys, vals, j, r) {
                    lemma_labels_constant_on_components(keys, vals, labels@, j, r);
                    let l = labels@[r] as int;
                    assert(connected(keys, vals, r, l));
                    if l < r {
                        lemma_connected_sym(keys, vals, r, l);
                        assert(!connected(keys, vals, l, r));
                    }
                }
            }
        }
        labels
    }

    /// Counts the links from the members of `cluster` to members and to
    /// identities outside.
    fn count_links(&self, members: &Vec<IdentityId>) -> (r: (u128, u128))
        requires
            self.social_graph.wf(),
            forall|q: int| 0 <= q < members@.len() ==> self.social_graph@.contains_key(#[trigger] members@[q]),
        ensures
            r.0 == internal_links(self.social_graph@, members@, members@.len() as int),
            r.1 == external_links(self.social_graph@, members@, members@.len() as int),
    {
        let ghost g = self.social_graph@;
        let mut internal: u128 = 0;
        let mut external: u128 = 0;
        let mut q: usize = 0;
        while q < members.len()
            invariant
                self.social_graph.wf(),
                g == self.social_graph@,
                forall|q2: int| 0 <= q2 < members@.len() ==> self.social_graph@.contains_key(#[trigger] members@[q2]),
                q <= members@.len(),
                internal == internal_links(g, members@, q as int),
                external == external_links(g, members@, q as int),
                internal + external <= q * 0x1_0000_0000_0000_0000,
            decreases members@.len() - q,
        {
            match self.social_graph.get(&members[q]) {
                Some(node) => {
                    let ghost conns = node.connections@;
                    let mut c: usize = 0;
                    let mut inside: u128 = 0;
                    while c < node.connections.len()
                        invariant
                            conns == node.connections@,
                            c <= conns.len(),
                            inside == count_inside(conns.take(c as int), members@),
                            inside <= c,
                        decreases conns.len() - c,
                    {
                        proof {
                            assert(conns.take(c + 1).drop_last() =~= conns.take(c as int));
                            assert(conns.take(c + 1).last() == conns[c as int]);
                        }
                        if vec_contains(members, &node.connections[c]) {
                            inside = inside + 1;
                        }
                        c = c + 1;
                    }
                    proof {
                        assert(conns.take(conns.len() as int) =~= conns);
                    }
                    let outside: u128 = (node.connections.len() as u128) - inside;
                    internal = internal + inside;
                    external = external + outside;
                },
                None => {},
            }
            q = q + 1;
        }
        (internal, external)
    }

    /// Groups the graph into its linked components and keeps those with
    /// three or more members as clusters, numbered from `next_cluster_id`
    /// in the order of their first positions, with their density of internal
    /// links (permille), external links and risk.
    fn detect_sybil_clusters(&mut self)
        requires
            old(self).inv(),
        ensures
            final(self).inv(),
            clusters_of_graph(
                final(self).sybil_clusters@,
                final(self).social_graph.key_seq(),
                final(self).social_graph.val_seq(),
                final(self).social_graph@,
                old(self).next_cluster_id,
            ),
            final(self).next_cluster_id == cluster_number(
                old(self).next_cluster_id,
                final(self).sybil_clusters@.len() as int,
            ),
            final(self).events@ == old(self).events@ + cluster_events(final(self).sybil_clusters@),
            *final(self) == (PersonhoodRegistry {
                sybil_clusters: final(self).sybil_clusters,
                next_cluster_id: final(self).next_cluster_id,
                events: final(self).events,
                ..*old(self)
            }),
    {
        let ghost keys = self.social_graph.key_seq();
        let ghost vals = self.social_graph.val_seq();
        let ghost g = self.social_graph@;
        let ghost first = self.next_cluster_id;
        proof {
            self.social_graph.lemma_wf();
        }
        let n = self.social_graph.len();
        let labels = self.component_labels();
        let mut clusters: Vec<SybilCluster> = Vec::new();
        let mut root: usize = 0;
        while root < n
            invariant
                self.inv(),
                keys == self.social_graph.key_seq(),
                vals == self.social_graph.val_seq(),
                g == self.social_graph@,
                n == keys.len(),
                labels@.len() == n,
                component_labeling(keys, vals, labels@),
                root <= n,
                clusters@.len() == cluster_roots(keys, vals, root as int).len(),
                forall|k: int|
                    0 <= k < clusters@.len() ==> is_cluster_of(
                        #[trigger] clusters@[k],
                        keys,
                        vals,
                        g,
                        cluster_roots(keys, vals, root as int)[k],
                        cluster_number(first, k),
                    ),
                self.next_cluster_id == cluster_number(first, clusters@.len() as int),
                self.events@ == old(self).events@ + cluster_events(clusters@),
                *self == (PersonhoodRegistry {
                    sybil_clusters: self.sybil_clusters,
                    next_cluster_id: self.next_cluster_id,
                    events: self.events,
                    ..*old(self)
                }),
            decreases n - root,
        {
            let mut cluster = SybilCluster::new(self.next_cluster_id);
            let ghost is_min = is_component_min(keys, vals, root as int);
            let mut j: usize = 0;
            while j < n
                invariant
                    self.social_graph.wf(),
                    keys == self.social_graph.key_seq(),
                    n == keys.len(),
                    labels@.len() == n,
                    component_labeling(keys, vals, labels@),
                    root < n,
                    is_min == is_component_min(keys, vals, root as int),
                    j <= n,
                    cluster.members@ == if is_min {
                        component_upto(keys, vals, root as int, j as int)
                    } else {
                        Seq::<IdentityId>::empty()
                    },
                    cluster.cluster_id == self.next_cluster_id,
                    cluster.internal_density == 0 && cluster.external_connections == 0,
                decreases n - j,
            {
                let ghost prev = cluster.members@;
                if labels[j] == root {
                    let key = *self.social_graph.key_at(j);
                    proof {
                        self.social_graph.lemma_wf();
                        assert(is_component_min(keys, vals, labels@[j as int] as int));
                        assert(is_min);
                        assert(connected(keys, vals, j as int, root as int));
                        if prev.contains(key) {
                            lemma_component_upto_keys(keys, vals, root as int, j as int, key);
                            let t = keys.take(j as int);
                            let w = choose|w: int| 0 <= w < t.len() && t[w] == key;
                            assert(keys[w] == keys[j as int]);
                        }
                    }
                    cluster.add_member(key);
                    proof {
                        assert(cluster.members@ == prev.push(key));
                    }
                } else {
                    proof {
                        assert(!(is_min && connected(keys, vals, j as int, root as int)));
                    }
                }
                j = j + 1;
                proof {
                    if is_min {
                        assert(component_upto(keys, vals, root as int, j as int) == component_upto(
                            keys,
                            vals,
                            root as int,
                            j - 1,
                        ) + if connected(keys, vals, j - 1, root as int) {
                            seq![keys[j - 1]]
                        } else {
                            Seq::<IdentityId>::empty()
                        });
                        assert(cluster.members@ =~= component_upto(keys, vals, root as int, j as int));
                    }
                }
            }
            let ghost old_roots = cluster_roots(keys, vals, root as int);
            proof {
                assert(cluster_roots(keys, vals, root + 1) == old_roots + if is_component_min(keys, vals, root as int)
                    && component_of(keys, vals, root as int).len() >= 3 {
                    seq![root as int]
                } else {
                    Seq::<int>::empty()
                });
            }
            if cluster.members.len() >= 3 {
                proof {
                    assert forall|q: int| 0 <= q < cluster.members@.len() implies self.social_graph@.contains_key(
                        #[trigger] cluster.members@[q],
                    ) by {
                        let x = cluster.members@[q];
                        self.social_graph.lemma_wf();
                        assert(cluster.members@.contains(x));
                        lemma_component_upto_keys(keys, vals, root as int, n as int, x);
                        let t = keys.take(n as int);
                        let w = choose|w: int| 0 <= w < t.len() && t[w] == x;
                        assert(keys[w] == x);
                        assert(self.social_graph@.contains_key(keys[w]));
                    }
                }
                let (internal, external) = self.count_links(&cluster.members);
                let size = cluster.members.len() as u128;
                proof {
                    assert(size * (size - 1) >= 6) by (nonlinear_arith)
                        requires
                            size >= 3,
                    ;
                    assert(size * (size - 1) < 0x1_0000_0000_0000_0000 * 0x1_0000_0000_0000_0000) by (nonlinear_arith)
                        requires
                            3 <= size < 0x1_0000_0000_0000_0000,
                    ;
                }
                let max_edges: u128 = size * (size - 1);
                let density: u128 = if internal >= max_edges {
                    1000
                } else {
                    match internal.checked_mul(1000) {
                        Some(x) => x / max_edges,
                        None => 1000,
                    }
                };
                cluster.internal_density = if density >= 1000 {
                    1000
                } else {
                    density as u32
                };
                cluster.external_connections = if external >= 0xffff_ffff {
                    0xffff_ffff
                } else {
                    external as u32
                };
                cluster.calculate_risk();
                let ghost ev_before = self.events@;
                if cluster.flagged {
                    self.events.push(
                        PersonhoodEvent::SybilClusterDetected {
                            cluster_id: cluster.cluster_id,
                            member_count: cluster.members.len(),
                            risk_score: cluster.risk_score,
                        },
                    );
                }
                let ghost k_new = clusters@.len() as int;
                let ghost before_push = clusters@;
                clusters.push(cluster);
                proof {
                    assert(clusters@.drop_last() =~= before_push);
                    assert(self.events@ =~= old(self).events@ + cluster_events(clusters@));
                }
                if self.next_cluster_id < u32::MAX {
                    self.next_cluster_id = self.next_cluster_id + 1;
                }
                proof {
                    let roots = cluster_roots(keys, vals, root + 1);
                    assert(roots == old_roots.push(root as int));
                    assert forall|k: int| 0 <= k < clusters@.len() implies is_cluster_of(
                        #[trigger] clusters@[k],
                        keys,
                        vals,
                        g,
                        roots[k],
                        cluster_number(first, k),
                    ) by {
                        if k < k_new {
                            assert(roots[k] == old_roots[k]);
                        } else {
                            assert(roots[k] == root as int);
                        }
                    }
                }
            } else {
                proof {
                    assert(cluster_roots(keys, vals, root + 1) =~= old_roots);
                }
            }
            root = root + 1;
        }
        self.sybil_clusters = clusters;
    }

    /// `identity_id` belongs to a flagged cluster.
    pub fn is_in_suspicious_cluster(&self, identity_id: &IdentityId) -> (b: bool)
        ensures
            b == exists|k: int|
                0 <= k < self.sybil_clusters@.len() && (#[trigger] self.sybil_clusters@[k]).flagged
                    && self.sybil_clusters@[k].members@.contains(*identity_id),
    {
        let mut k: usize = 0;
        while k < self.sybil_clusters.len()
            invariant
                k <= self.sybil_clusters@.len(),
                forall|q: int|
                    0 <= q < k ==> !((#[trigger] self.sybil_clusters@[q]).flagged
                        && self.sybil_clusters@[q].members@.contains(*identity_id)),
            decreases self.sybil_clusters@.len() - k,
        {
            if self.sybil_clusters[k].flagged && vec_contains(&self.sybil_clusters[k].members, identity_id) {
                return true;
            }
            k = k + 1;
        }
        false
    }

    pub fn get_connectivity(&self, identity_id: &IdentityId) -> (c: u32)
        requires
            self.inv(),
        ensures
            c == if self.social_graph@.contains_key(*identity_id) {
                self.social_graph@[*identity_id].connectivity_score
            } else {
                0
            },
    {
        match self.social_graph.get(identity_id) {
            Some(n) => n.connectivity_score,
            None => 0,
        }
    }

    /// Records a uniqueness commitment for an existing identity (one per
    /// identity).
    pub fn submit_uniqueness_commitment(
        &mut self,
        identity_id: IdentityId,
        commitment_data: &[u8],
        current_block: BlockNumber,
        identity_registry: &IdentityRegistry,
    ) -> (r: Result<(), PersonhoodError>)
        requires
            old(self).inv(),
            identity_registry.inv(),
        ensures
            final(self).inv(),
            !identity_registry.identities@.contains_key(identity_id) ==> r == Err::<(), PersonhoodError>(
                PersonhoodError::IdentityNotFound,
            ),
            identity_registry.identities@.contains_key(identity_id) && old(self).uniqueness_commitments@.contains_key(
                identity_id,
            ) ==> r == Err::<(), PersonhoodError>(PersonhoodError::CommitmentExists),
            r.is_err() ==> *final(self) == *old(self),
            identity_registry.identities@.contains_key(identity_id) && !old(self).uniqueness_commitments@.contains_key(
                identity_id,
            ) ==> {
                let c = final(self).uniqueness_commitments@[identity_id];
                &&& r == Ok::<(), PersonhoodError>(())
                &&& final(self).uniqueness_commitments@ == old(self).uniqueness_commitments@.insert(identity_id, c)
                &&& c.identity_id == identity_id
                &&& c.commitment.bytes@ == spec_hash_bytes(commitment_data@)
                &&& c.witnesses@.len() == 0 && !c.verified && c.created_at == current_block
                &&& *final(self) == (PersonhoodRegistry {
                    uniqueness_commitments: final(self).uniqueness_commitments,
                    ..*old(self)
                })
            },
    {
        if identity_registry.get_identity(&identity_id).is_none() {
            return Err(PersonhoodError::IdentityNotFound);
        }
        if self.uniqueness_commitments.contains_key(&identity_id) {
            return Err(PersonhoodError::CommitmentExists);
        }
        let commitment = UniquenessCommitment::new(identity_id, commitment_data, current_block);
        self.uniqueness_commitments.insert(identity_id, commitment);
        Ok(())
    }

    /// Adds a witness to the commitment of `identity_id`; returns whether
    /// the witness is new. A verified commitment sets the uniqueness part
    /// of the identity's score.
    pub fn witness_uniqueness(&mut self, identity_id: IdentityId, witness: AccountId, current_block: BlockNumber) -> (r:
        Result<bool, PersonhoodError>)
        requires
            old(self).inv(),
        ensures
            final(self).inv(),
            !old(self).uniqueness_commitments@.contains_key(identity_id) ==> r == Err::<bool, PersonhoodError>(
                PersonhoodError::NoCommitment,
            ) && *final(self) == *old(self),
            old(self).uniqueness_commitments@.contains_key(identity_id) ==> {
                let c = old(self).uniqueness_commitments@[identity_id];
                let c2 = final(self).uniqueness_commitments@[identity_id];
                let added = !c.witnesses@.contains(witness);
                &&& r == Ok::<bool, PersonhoodError>(added)
                &&& final(self).uniqueness_commitments@ == old(self).uniqueness_commitments@.insert(identity_id, c2)
                &&& c2.witnesses@ == if added {
                    c.witnesses@.push(witness)
                } else {
                    c.witnesses@
                }
                &&& c2.verified == (c.verified || (added && c2.witnesses@.len() >= UNIQUENESS_MIN_ATTESTERS))
                &&& c2.identity_id == c.identity_id && c2.commitment == c.commitment && c2.created_at == c.created_at
                &&& !(c2.verified && old(self).personhood_scores@.contains_key(identity_id)) ==> final(self).personhood_scores == old(self).personhood_scores
                &&& c2.verified && old(self).personhood_scores@.contains_key(identity_id) ==> final(self).personhood_scores@ == old(self).personhood_scores@.insert(
                    identity_id,
                    PersonhoodScore::with_uniqueness(old(self).personhood_scores@[identity_id], c2.witnesses@.len()),
                )
                &&& final(self).events@ == if c2.verified {
                    old(self).events@.push(
                        PersonhoodEvent::UniquenessVerified {
                            identity_id,
                            witness_count: c2.witnesses@.len() as usize,
                        },
                    )
                } else {
                    old(self).events@
                }
                &&& final(self).challenges == old(self).challenges
                &&& final(self).social_graph == old(self).social_graph
                &&& final(self).config == old(self).config
            },
    {
        let i = match self.uniqueness_commitments.find(&identity_id) {
            Some(i) => i,
            None => return Err(PersonhoodError::NoCommitment),
        };
        let ghost before = self.uniqueness_commitments;
        let commitment = self.uniqueness_commitments.val_at_mut(i);
        let added = commitment.add_witness(witness);
        let verified = commitment.verified;
        let count = commitment.witnesses.len();
        proof {
            let nv = self.uniqueness_commitments.val_seq()[i as int];
            VecMap::lemma_update_at(&before, &self.uniqueness_commitments, i as int, nv);
        }
        if verified {
            match self.personhood_scores.find(&identity_id) {
                Some(j) => {
                    let ghost sb = self.personhood_scores;
                    proof {
                        sb.lemma_wf();
                        assert(sb@.contains_key(sb.key_seq()[j as int]));
                    }
                    let score = self.personhood_scores.val_at_mut(j);
                    score.update_uniqueness(true, count);
                    proof {
                        let nv = self.personhood_scores.val_seq()[j as int];
                        VecMap::lemma_update_at(&sb, &self.personhood_scores, j as int, nv);
                        assert forall|k: IdentityId| #[trigger] self.personhood_scores@.contains_key(k) implies self.personhood_scores@[k].wf() by {
                            assert(sb@.contains_key(k));
                        }
                    }
                },
                None => {},
            }
            self.events.push(PersonhoodEvent::UniquenessVerified { identity_id, witness_count: count });
        }
        Ok(added)
    }

    pub fn is_unique_verified(&self, identity_id: &IdentityId) -> (b: bool)
        requires
            self.inv(),
        ensures
            b == (self.uniqueness_commitments@.contains_key(*identity_id)
                && self.uniqueness_commitments@[*identity_id].verified),
    {
        match self.uniqueness_commitments.get(identity_id) {
            Some(c) => c.verified,
            None => false,
        }
    }

    /// Starts an empty personhood score for `identity_id` if it has none.
    pub fn initialize_score(&mut self, identity_id: IdentityId)
        requires
            old(self).inv(),
        ensures
            final(self).inv(),
            old(self).personhood_scores@.contains_key(identity_id) ==> *final(self) == *old(self),
            !old(self).personhood_scores@.contains_key(identity_id) ==> final(self).personhood_scores@ == old(self).personhood_scores@.insert(
                identity_id,
                PersonhoodScore {
                    total: 0,
                    activity_score: 0,
                    longevity_score: 0,
                    social_score: 0,
                    uniqueness_score: 0,
                    challenges_passed: 0,
                    challenges_failed: 0,
                    last_verified: None,
                },
            ) && *final(self) == (PersonhoodRegistry {
                personhood_scores: final(self).personhood_scores,
                ..*old(self)
            }),
    {
        if !self.personhood_scores.contains_key(&identity_id) {
            self.personhood_scores.insert(identity_id, PersonhoodScore::new());
        }
    }

    pub fn get_score(&self, identity_id: &IdentityId) -> (r: Option<&PersonhoodScore>)
        requires
            self.inv(),
        ensures
            r is Some <==> self.personhood_scores@.contains_key(*identity_id),
            r is Some ==> *r->0 == self.personhood_scores@[*identity_id],
    {
        self.personhood_scores.get(identity_id)
    }

    /// Position of the score of `identity_id`.
    fn score_index(&self, identity_id: &IdentityId) -> (r: Option<usize>)
        requires
            self.inv(),
        ensures
            r is None <==> !self.personhood_scores@.contains_key(*identity_id),
            r is Some ==> r->0 < self.personhood_scores.key_seq().len() && self.personhood_scores.key_seq()[r->0 as int]
                == *identity_id && self.personhood_scores@[*identity_id] == self.personhood_scores.val_seq()[r->0 as int],
    {
        self.personhood_scores.find(identity_id)
    }

    /// Sets the activity part of the score from a count of actions.
    pub fn record_activity(&mut self, identity_id: IdentityId, actions: u32)
        requires
            old(self).inv(),
        ensures
            final(self).inv(),
            !old(self).personhood_scores@.contains_key(identity_id) ==> *final(self) == *old(self),
            old(self).personhood_scores@.contains_key(identity_id) ==> {
                let s = PersonhoodScore {
                    activity_score: cap200(actions * 10),
                    ..old(self).personhood_scores@[identity_id]
                };
                &&& final(self).personhood_scores@ == old(self).personhood_scores@.insert(
                    identity_id,
                    PersonhoodScore { total: PersonhoodScore::spec_total(s), ..s },
                )
                &&& final(self).events@ == {
                    let before = old(self).personhood_scores@[identity_id].total;
                    let after = PersonhoodScore::spec_total(s);
                    if after != before {
                        old(self).events@.push(
                            PersonhoodEvent::PersonhoodScoreUpdated { identity_id, old_score: before, new_score: after },
                        )
                    } else {
                        old(self).events@
                    }
                }
                &&& final(self).events@ == {
                    let before = old(self).personhood_scores@[identity_id].total;
                    let after = PersonhoodScore::spec_total(s);
                    if after != before {
                        old(self).events@.push(
                            PersonhoodEvent::PersonhoodScoreUpdated { identity_id, old_score: before, new_score: after },
                        )
                    } else {
                        old(self).events@
                    }
                }
                &&& *final(self) == (PersonhoodRegistry {
                    personhood_scores: final(self).personhood_scores,
                    events: final(self).events,
                    ..*old(self)
                })
            },
    {
        let j = match self.score_index(&identity_id) {
            Some(j) => j,
            None => return,
        };
        let ghost sb = self.personhood_scores;
        let score = self.personhood_scores.val_at_mut(j);
        let old_score = score.total;
        score.update_activity(actions);
        let new_score = score.total;
        proof {
            let nv = self.personhood_scores.val_seq()[j as int];
            VecMap::lemma_update_at(&sb, &self.personhood_scores, j as int, nv);
            assert forall|k: IdentityId| #[trigger] self.personhood_scores@.contains_key(k) implies self.personhood_scores@[k].wf() by {
                assert(sb@.contains_key(k));
            }
        }
        if new_score != old_score {
            self.events.push(PersonhoodEvent::PersonhoodScoreUpdated { identity_id, old_score, new_score });
        }
    }

    /// Sets the longevity part of the score from the identity's age.
    pub fn update_longevity(&mut self, identity_id: IdentityId, identity_age: BlockNumber)
        requires
            old(self).inv(),
        ensures
            final(self).inv(),
            !old(self).personhood_scores@.contains_key(identity_id) ==> *final(self) == *old(self),
            old(self).personhood_scores@.contains_key(identity_id) ==> {
                let s = PersonhoodScore {
                    longevity_score: cap200(identity_age * 200 / LONGEVITY_FULL_AGE as int),
                    ..old(self).personhood_scores@[identity_id]
                };
                &&& final(self).personhood_scores@ == old(self).personhood_scores@.insert(
                    identity_id,
                    PersonhoodScore { total: PersonhoodScore::spec_total(s), ..s },
                )
                &&& *final(self) == (PersonhoodRegistry {
                    personhood_scores: final(self).personhood_scores,
                    events: final(self).events,
                    ..*old(self)
                })
            },
    {
        let j = match self.score_index(&identity_id) {
            Some(j) => j,
            None => return,
        };
        let ghost sb = self.personhood_scores;
        let score = self.personhood_scores.val_at_mut(j);
        let old_score = score.total;
        score.update_longevity(identity_age);
        let new_score = score.total;
        proof {
            let nv = self.personhood_scores.val_seq()[j as int];
            VecMap::lemma_update_at(&sb, &self.personhood_scores, j as int, nv);
            assert forall|k: IdentityId| #[trigger] self.personhood_scores@.contains_key(k) implies self.personhood_scores@[k].wf() by {
                assert(sb@.contains_key(k));
            }
        }
        if new_score != old_score {
            self.events.push(PersonhoodEvent::PersonhoodScoreUpdated { identity_id, old_score, new_score });
        }
    }

    /// The score reaches the configured privilege threshold.
    pub fn meets_threshold(&self, identity_id: &IdentityId) -> (b: bool)
        requires
            self.inv(),
        ensures
            b == (self.personhood_scores@.contains_key(*identity_id) && self.personhood_scores@[*identity_id].total
                >= self.config.min_score_for_privileges),
    {
        match self.personhood_scores.get(identity_id) {
            Some(s) => s.meets_threshold(self.config.min_score_for_privileges),
            None => false,
        }
    }

    pub fn is_verified(&self, identity_id: &IdentityId, current_block: BlockNumber) -> (b: bool)
        requires
            self.inv(),
        ensures
            b == (self.personhood_scores@.contains_key(*identity_id) && self.personhood_scores@[*identity_id].spec_is_verified(
                current_block,
            )),
    {
        match self.personhood_scores.get(identity_id) {
            Some(s) => s.is_verified(current_block),
            None => false,
        }
    }

    pub fn events(&self) -> (r: &[PersonhoodEvent])
        ensures
            r@ == self.events@,
    {
        self.events.as_slice()
    }

    pub fn clear_events(&mut self)
        ensures
            final(self).events@.len() == 0,
            *final(self) == (PersonhoodRegistry { events: final(self).events, ..*old(self) }),
    {
        self.events.clear();
    }
}

} // verus!

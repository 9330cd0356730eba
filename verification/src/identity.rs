//! Local identities: declared by their owner, activated by attestations from
//! active identities, renewed before expiry, revoked voluntarily or by
//! force. Each identity carries a reputation score that weighs its votes
//! and its attestations.
use crate::types::{spec_hash_bytes, AccountId, Balance, BlockNumber, ChainId};
use crate::vecmap::{vec_contains, MapKey, VecMap};
use vstd::prelude::*;

verus! {

pub type IdentityId = crate::types::Hash;

/// Refundable deposit for declaring an identity.
pub const IDENTITY_DEPOSIT: Balance = 10;

pub const REPUTATION_POINTS_GOVERNANCE: u32 = 10;

pub const REPUTATION_POINTS_ARBITRATION: u32 = 50;

pub const REPUTATION_POINTS_ATTESTATION: u32 = 5;

/// Attestations that make an identity active.
pub const MIN_ATTESTATIONS_FOR_ACTIVE: usize = 3;

/// Most attestations an identity can hold.
pub const MAX_ATTESTATIONS: usize = 50;

/// An identity lasts one year (in 6 s blocks) from declaration or renewal.
pub const IDENTITY_VALIDITY_PERIOD: BlockNumber = 5_256_000;

/// An attestation lasts six months.
pub const ATTESTATION_VALIDITY_PERIOD: BlockNumber = 2_628_000;

/// Highest reputation score.
pub const MAX_REPUTATION_SCORE: u32 = 10_000;

/// Reputation decays by one percent per period of 30 days.
pub const REPUTATION_DECAY_PERIOD: BlockNumber = 432_000;

#[derive(Debug, Clone, Copy, PartialEq, Eq, Structural)]
pub enum IdentityStatus {
    Declared,
    Attested,
    Active,
    Expired,
    Revoked,
}

impl IdentityStatus {
    pub open spec fn spec_can_receive_attestations(self) -> bool {
        self == IdentityStatus::Declared || self == IdentityStatus::Attested || self == IdentityStatus::Active
    }

    /// Declared, attested and active identities can be attested.
    pub fn can_receive_attestations(&self) -> (b: bool)
        ensures
            b == self.spec_can_receive_attestations(),
    {
        *self == IdentityStatus::Declared || *self == IdentityStatus::Attested || *self == IdentityStatus::Active
    }
}

#[derive(Debug, Clone, Copy, PartialEq, Eq, Structural)]
pub enum RevocationReason {
    Voluntary,
    Misconduct,
    Governance,
    Inactivity,
}

/// Reputation of an identity: a score capped at MAX_REPUTATION_SCORE and
/// counters of what earned or cost it.
#[derive(Debug, Clone, Copy, PartialEq, Eq)]
pub struct ReputationScore {
    pub score: u32,
    pub governance_actions: u32,
    pub arbitration_count: u32,
    pub attestations_given: u32,
    pub slash_count: u32,
    pub last_decay: BlockNumber,
}

pub open spec fn capped_add(score: u32, points: u32) -> u32 {
    if score + points > MAX_REPUTATION_SCORE {
        MAX_REPUTATION_SCORE
    } else {
        (score + points) as u32
    }
}

pub open spec fn counter_inc(c: u32) -> u32 {
    if c == u32::MAX {
        c
    } else {
        (c + 1) as u32
    }
}

fn cap_add(score: u32, points: u32) -> (r: u32)
    ensures
        r == capped_add(score, points),
{
    if score as u64 + points as u64 > MAX_REPUTATION_SCORE as u64 {
        MAX_REPUTATION_SCORE
    } else {
        score + points
    }
}

fn inc(c: u32) -> (r: u32)
    ensures
        r == counter_inc(c),
{
    if c == u32::MAX {
        c
    } else {
        c + 1
    }
}

impl ReputationScore {
    pub fn new() -> (r: Self)
        ensures
            r.score == 0 && r.governance_actions == 0 && r.arbitration_count == 0,
            r.attestations_given == 0 && r.slash_count == 0 && r.last_decay == 0,
    {
        ReputationScore {
            score: 0,
            governance_actions: 0,
            arbitration_count: 0,
            attestations_given: 0,
            slash_count: 0,
            last_decay: 0,
        }
    }

    pub fn record_governance(&mut self, points: u32)
        ensures
            *final(self) == (ReputationScore {
                score: capped_add(old(self).score, points),
                governance_actions: counter_inc(old(self).governance_actions),
                ..*old(self)
            }),
    {
        self.score = cap_add(self.score, points);
        self.governance_actions = inc(self.governance_actions);
    }

    pub fn record_arbitration(&mut self, points: u32)
        ensures
            *final(self) == (ReputationScore {
                score: capped_add(old(self).score, points),
                arbitration_count: counter_inc(old(self).arbitration_count),
                ..*old(self)
            }),
    {
        self.score = cap_add(self.score, points);
        self.arbitration_count = inc(self.arbitration_count);
    }

    pub fn record_attestation(&mut self, points: u32)
        ensures
            *final(self) == (ReputationScore {
                score: capped_add(old(self).score, points),
                attestations_given: counter_inc(old(self).attestations_given),
                ..*old(self)
            }),
    {
        self.score = cap_add(self.score, points);
        self.attestations_given = inc(self.attestations_given);
    }

    /// The score after losing `penalty_percent` percent (at most all of it).
    pub open spec fn spec_slashed(score: u32, penalty_percent: u8) -> u32 {
        let p: int = if penalty_percent > 100 {
            100
        } else {
            penalty_percent as int
        };
        (score - score * p / 100) as u32
    }

    pub fn apply_slash(&mut self, penalty_percent: u8)
        ensures
            *final(self) == (ReputationScore {
                score: Self::spec_slashed(old(self).score, penalty_percent),
                slash_count: counter_inc(old(self).slash_count),
                ..*old(self)
            }),
    {
        let p: u64 = if penalty_percent > 100 {
            100
        } else {
            penalty_percent as u64
        };
        let s = self.score as u64;
        proof {
            assert(s * p <= 0xffff_ffffu64 * 100) by (nonlinear_arith)
                requires
                    s <= 0xffff_ffffu64,
                    p <= 100,
            ;
        }
        let cut: u64 = s * p / 100;
        proof {
            assert(s * p / 100 <= s) by (nonlinear_arith)
                requires
                    p <= 100,
            ;
        }
        self.score = (s - cut) as u32;
        self.slash_count = inc(self.slash_count);
    }

    /// Vote weight in percent: 100 plus one point per 100 of score.
    pub open spec fn spec_vote_weight(&self) -> u32 {
        (100 + (if self.score > MAX_REPUTATION_SCORE {
            MAX_REPUTATION_SCORE
        } else {
            self.score
        }) / 100) as u32
    }

    pub fn vote_weight(&self) -> (w: u32)
        ensures
            w == self.spec_vote_weight(),
    {
        let s = if self.score > MAX_REPUTATION_SCORE {
            MAX_REPUTATION_SCORE
        } else {
            self.score
        };
        100 + s / 100
    }

    /// Validator-credit boost in percent: 100 plus one point per 200 of
    /// score.
    pub open spec fn spec_vc_boost(&self) -> u32 {
        (100 + (if self.score > MAX_REPUTATION_SCORE {
            MAX_REPUTATION_SCORE
        } else {
            self.score
        }) / 200) as u32
    }

    pub fn vc_boost(&self) -> (b: u32)
        ensures
            b == self.spec_vc_boost(),
    {
        let s = if self.score > MAX_REPUTATION_SCORE {
            MAX_REPUTATION_SCORE
        } else {
            self.score
        };
        100 + s / 200
    }
}

/// Weight of an attestation from an attester with reputation `score`:
/// 1 plus one per 1000 points, at most 10.
pub open spec fn spec_attestation_weight(score: u32) -> u8 {
    if score / 1000 >= 9 {
        10
    } else {
        (1 + score / 1000) as u8
    }
}

pub fn calculate_attestation_weight(score: u32) -> (w: u8)
    ensures
        w == spec_attestation_weight(score),
{
    if score / 1000 >= 9 {
        10
    } else {
        (1 + score / 1000) as u8
    }
}

/// Anti-Sybil settings of a registry.
#[derive(Debug, Clone, Copy, PartialEq, Eq)]
pub struct AntiSybilConfig {
    pub min_attestations: usize,
    pub enable_reputation_decay: bool,
}

impl AntiSybilConfig {
    /// Identity is never required to vote.
    pub fn require_identity_for_voting(&self) -> (b: bool)
        ensures
            !b,
    {
        false
    }

    /// Identity is never required to make a proposal.
    pub fn require_identity_for_proposals(&self) -> (b: bool)
        ensures
            !b,
    {
        false
    }
}

impl Default for AntiSybilConfig {
    fn default() -> (c: Self)
        ensures
            c.min_attestations == MIN_ATTESTATIONS_FOR_ACTIVE,
            c.enable_reputation_decay,
    {
        AntiSybilConfig { min_attestations: MIN_ATTESTATIONS_FOR_ACTIVE, enable_reputation_decay: true }
    }
}

/// The bytes an identity id is the digest of: the owner, the chain id
/// (little-endian) and the commitment data.
pub open spec fn identity_preimage(owner: AccountId, chain_id: ChainId, data: Seq<u8>) -> Seq<u8> {
    owner.bytes@ + seq![
        (chain_id.0 % 256) as u8,
        (chain_id.0 / 256 % 256) as u8,
        (chain_id.0 / 65536 % 256) as u8,
        (chain_id.0 / 16777216) as u8,
    ] + data
}

#[derive(Debug, Clone)]
pub struct IdentityCommitment {
    pub identity_id: IdentityId,
    pub owner: AccountId,
    pub scope: ChainId,
    pub commitment_hash: crate::types::Hash,
    pub display_name: Option<String>,
    pub status: IdentityStatus,
    pub created_at: BlockNumber,
    pub expires_at: BlockNumber,
    pub last_activity: BlockNumber,
    pub reputation: ReputationScore,
}

impl IdentityCommitment {
    pub fn new(
        owner: AccountId,
        chain_id: ChainId,
        commitment_data: &[u8],
        display_name: Option<String>,
        current_block: BlockNumber,
    ) -> (c: Self)
        requires
            current_block + IDENTITY_VALIDITY_PERIOD <= u64::MAX,
        ensures
            c.identity_id.bytes@ == spec_hash_bytes(identity_preimage(owner, chain_id, commitment_data@)),
            c.commitment_hash.bytes@ == spec_hash_bytes(commitment_data@),
            c.owner == owner,
            c.scope == chain_id,
            c.display_name == display_name,
            c.status == IdentityStatus::Declared,
            c.created_at == current_block,
            c.expires_at == current_block + IDENTITY_VALIDITY_PERIOD,
            c.last_activity == current_block,
            c.reputation.score == 0,
            c.reputation == ReputationScore::spec_zero(),
    {
        let mut pre: Vec<u8> = Vec::new();
        let mut i: usize = 0;
        while i < 32
            invariant
                i <= 32,
                pre@ == owner.bytes@.take(i as int),
            decreases 32 - i,
        {
            pre.push(owner.bytes[i]);
            i = i + 1;
            assert(pre@ =~= owner.bytes@.take(i as int));
        }
        let x = chain_id.0;
        pre.push((x % 256) as u8);
        pre.push((x / 256 % 256) as u8);
        pre.push((x / 65536 % 256) as u8);
        pre.push((x / 16777216) as u8);
        let mut j: usize = 0;
        while j < commitment_data.len()
            invariant
                j <= commitment_data@.len(),
                pre@ == owner.bytes@ + seq![
                    (x % 256) as u8,
                    (x / 256 % 256) as u8,
                    (x / 65536 % 256) as u8,
                    (x / 16777216) as u8,
                ] + commitment_data@.take(j as int),
            decreases commitment_data@.len() - j,
        {
            pre.push(commitment_data[j]);
            j = j + 1;
            assert(pre@ =~= owner.bytes@ + seq![
                (x % 256) as u8,
                (x / 256 % 256) as u8,
                (x / 65536 % 256) as u8,
                (x / 16777216) as u8,
            ] + commitment_data@.take(j as int));
        }
        proof {
            assert(owner.bytes@.take(32) =~= owner.bytes@);
            assert(commitment_data@.take(commitment_data@.len() as int) =~= commitment_data@);
        }
        let identity_id = crate::types::Hash::hash(pre.as_slice());
        let commitment_hash = crate::types::Hash::hash(commitment_data);
        IdentityCommitment {
            identity_id,
            owner,
            scope: chain_id,
            commitment_hash,
            display_name,
            status: IdentityStatus::Declared,
            created_at: current_block,
            expires_at: current_block + IDENTITY_VALIDITY_PERIOD,
            last_activity: current_block,
            reputation: ReputationScore::new(),
        }
    }

    /// Active and not past its expiry block.
    pub open spec fn spec_is_active(&self, current_block: BlockNumber) -> bool {
        self.status == IdentityStatus::Active && current_block < self.expires_at
    }

    pub fn is_active(&self, current_block: BlockNumber) -> (b: bool)
        ensures
            b == self.spec_is_active(current_block),
    {
        self.status == IdentityStatus::Active && current_block < self.expires_at
    }

    pub open spec fn spec_is_expired(&self, current_block: BlockNumber) -> bool {
        current_block >= self.expires_at
    }

    pub fn is_expired(&self, current_block: BlockNumber) -> (b: bool)
        ensures
            b == self.spec_is_expired(current_block),
    {
        current_block >= self.expires_at
    }

    /// Extends the identity by a full validity period from `current_block`.
    pub fn renew(&mut self, current_block: BlockNumber)
        requires
            current_block + IDENTITY_VALIDITY_PERIOD <= u64::MAX,
        ensures
            *final(self) == (IdentityCommitment {
                expires_at: (current_block + IDENTITY_VALIDITY_PERIOD) as u64,
                ..*old(self)
            }),
    {
        self.expires_at = current_block + IDENTITY_VALIDITY_PERIOD;
    }

    pub fn record_activity(&mut self, current_block: BlockNumber)
        ensures
            *final(self) == (IdentityCommitment { last_activity: current_block, ..*old(self) }),
    {
        self.last_activity = current_block;
    }

    /// The reputation after decay at `current_block`: one percent less once
    /// a full decay period has passed since the last decay.
    pub open spec fn spec_decayed(r: ReputationScore, current_block: BlockNumber) -> ReputationScore {
        if current_block >= r.last_decay + REPUTATION_DECAY_PERIOD {
            ReputationScore { score: (r.score - r.score / 100) as u32, last_decay: current_block, ..r }
        } else {
            r
        }
    }

    pub fn apply_decay(&mut self, current_block: BlockNumber)
        ensures
            *final(self) == (IdentityCommitment {
                reputation: Self::spec_decayed(old(self).reputation, current_block),
                ..*old(self)
            }),
    {
        let last = self.reputation.last_decay;
        if current_block >= last && current_block - last >= REPUTATION_DECAY_PERIOD {
            self.reputation.score = self.reputation.score - self.reputation.score / 100;
            self.reputation.last_decay = current_block;
        }
    }
}

impl ReputationScore {
    pub open spec fn spec_zero() -> ReputationScore {
        ReputationScore {
            score: 0,
            governance_actions: 0,
            arbitration_count: 0,
            attestations_given: 0,
            slash_count: 0,
            last_decay: 0,
        }
    }
}

#[derive(Debug, Clone, Copy, PartialEq, Eq)]
pub struct IdentityAttestation {
    pub attester: AccountId,
    pub attester_identity: IdentityId,
    pub target_identity: IdentityId,
    pub claim_hash: crate::types::Hash,
    pub weight: u8,
    pub created_at: BlockNumber,
    pub expires_at: BlockNumber,
    pub revoked: bool,
}

impl IdentityAttestation {
    pub fn new(
        attester: AccountId,
        attester_identity: IdentityId,
        target_identity: IdentityId,
        claim_data: &[u8],
        weight: u8,
        current_block: BlockNumber,
    ) -> (a: Self)
        requires
            current_block + ATTESTATION_VALIDITY_PERIOD <= u64::MAX,
        ensures
            a.claim_hash.bytes@ == spec_hash_bytes(claim_data@),
            a == (IdentityAttestation {
                attester,
                attester_identity,
                target_identity,
                claim_hash: a.claim_hash,
                weight,
                created_at: current_block,
                expires_at: (current_block + ATTESTATION_VALIDITY_PERIOD) as u64,
                revoked: false,
            }),
    {
        IdentityAttestation {
            attester,
            attester_identity,
            target_identity,
            claim_hash: crate::types::Hash::hash(claim_data),
            weight,
            created_at: current_block,
            expires_at: current_block + ATTESTATION_VALIDITY_PERIOD,
            revoked: false,
        }
    }

    /// Not revoked and not past its expiry block.
    pub open spec fn spec_is_active(&self, current_block: BlockNumber) -> bool {
        !self.revoked && current_block < self.expires_at
    }

    pub fn is_active(&self, current_block: BlockNumber) -> (b: bool)
        ensures
            b == self.spec_is_active(current_block),
    {
        !self.revoked && current_block < self.expires_at
    }

    pub fn revoke(&mut self)
        ensures
            *final(self) == (IdentityAttestation { revoked: true, ..*old(self) }),
    {
        self.revoked = true;
    }
}

#[allow(inconsistent_fields)]
#[derive(Debug, Clone)]
pub enum IdentityEvent {
    IdentityDeclared { identity_id: IdentityId, owner: AccountId, scope: ChainId },
    AttestationReceived { identity_id: IdentityId, attester: AccountId, weight: u8 },
    IdentityActivated { identity_id: IdentityId },
    IdentityRenewed { identity_id: IdentityId, new_expiry: BlockNumber },
    IdentityRevoked { identity_id: IdentityId, reason: RevocationReason },
    IdentityExpired { identity_id: IdentityId },
    StatusChanged {
        identity_id: IdentityId,
        old_status: IdentityStatus,
        new_status: IdentityStatus,
        reason: String,
    },
    ReputationChanged { identity_id: IdentityId, old_score: u32, new_score: u32, reason: String },
}

#[derive(Debug, Clone, Copy, PartialEq, Eq, Structural)]
pub enum IdentityError {
    IdentityAlreadyExists,
    IdentityNotFound,
    AttesterHasNoIdentity,
    AttesterNotActive,
    CannotSelfAttest,
    CannotReceiveAttestations,
    AlreadyAttested,
    MaxAttestationsReached,
    IdentityRevoked,
    AlreadyRevoked,
}

/// Key of the table of who attested whom.
#[derive(Debug, Clone, Copy, PartialEq, Eq)]
pub struct AttestationPair {
    pub attester: AccountId,
    pub identity: IdentityId,
}

impl MapKey for AttestationPair {
    fn key_eq(&self, other: &Self) -> (b: bool) {
        self.attester.key_eq(&other.attester) && self.identity.key_eq(&other.identity)
    }
}

pub open spec fn active_att_pred(current_block: BlockNumber) -> spec_fn(IdentityAttestation) -> bool {
    |a: IdentityAttestation| a.spec_is_active(current_block)
}

/// Sum of the weights of `atts`.
pub open spec fn weight_sum(atts: Seq<IdentityAttestation>) -> nat
    decreases atts.len(),
{
    if atts.len() == 0 {
        0
    } else {
        weight_sum(atts.drop_last()) + atts.last().weight as nat
    }
}

/// The status after an attestation count of `count`: a declared identity
/// with an attestation becomes attested; a declared or attested one with
/// `min` attestations becomes active.
pub open spec fn spec_activation(st: IdentityStatus, count: nat, min: usize) -> IdentityStatus {
    if st == IdentityStatus::Declared && count > 0 {
        IdentityStatus::Attested
    } else if (st == IdentityStatus::Declared || st == IdentityStatus::Attested) && count >= min {
        IdentityStatus::Active
    } else {
        st
    }
}

/// The status an expired identity is restored to on renewal.
pub open spec fn spec_restored(count: nat, min: usize) -> IdentityStatus {
    if count >= min {
        IdentityStatus::Active
    } else if count > 0 {
        IdentityStatus::Attested
    } else {
        IdentityStatus::Declared
    }
}

pub open spec fn revoke_fn(attester: AccountId) -> spec_fn(IdentityAttestation) -> IdentityAttestation {
    |a: IdentityAttestation| revoked_from(a, attester)
}

pub open spec fn revoked_from(a: IdentityAttestation, attester: AccountId) -> IdentityAttestation {
    if a.attester == attester {
        IdentityAttestation { revoked: true, ..a }
    } else {
        a
    }
}


proof fn lemma_weight_sum_bound(atts: Seq<IdentityAttestation>)
    ensures
        weight_sum(atts) <= 255 * atts.len(),
    decreases atts.len(),
{
    if atts.len() > 0 {
        lemma_weight_sum_bound(atts.drop_last());
    }
}

proof fn lemma_filter_len_le<A>(s: Seq<A>, p: spec_fn(A) -> bool)
    ensures
        s.filter(p).len() <= s.len(),
{
    s.lemma_filter_len(p);
}

/// `e` records that the reputation of `id` went from `old_score` to
/// `new_score` for `reason`.
pub open spec fn is_reputation_event(e: IdentityEvent, id: IdentityId, old_score: u32, new_score: u32, reason: Seq<char>) -> bool {
    e matches IdentityEvent::ReputationChanged { identity_id, old_score: o, new_score: n, reason: r } && identity_id
        == id && o == old_score && n == new_score && r@ == reason
}

/// `after` is `before` with one more event.
pub open spec fn one_more_event(before: Seq<IdentityEvent>, after: Seq<IdentityEvent>) -> bool {
    after.len() == before.len() + 1 && after.drop_last() == before
}

/// `e` records that `id` went down from Active to Attested because none of
/// its attestations is valid any more.
pub open spec fn is_downgrade_event(e: IdentityEvent, id: IdentityId) -> bool {
    e matches IdentityEvent::StatusChanged { identity_id, old_status, new_status, reason } && identity_id == id
        && old_status == IdentityStatus::Active && new_status == IdentityStatus::Attested && reason@
        == "All attestations expired"@
}

/// The events of an expiry pass appended to `before`: one per expired
/// identity, then one per identity taken down to Attested.
pub open spec fn expiry_events(
    before: Seq<IdentityEvent>,
    after: Seq<IdentityEvent>,
    expired: Seq<IdentityId>,
    downgraded: Seq<IdentityId>,
) -> bool {
    let b = before.len();
    let x = expired.len();
    &&& after.len() == b + x + downgraded.len()
    &&& after.take(b as int) == before
    &&& forall|j: int| 0 <= j < x ==> after[b + j] == (IdentityEvent::IdentityExpired { identity_id: #[trigger] expired[j] })
    &&& forall|j: int| 0 <= j < downgraded.len() ==> is_downgrade_event(after[b + x + j], #[trigger] downgraded[j])
}

pub struct IdentityRegistry {
    pub chain_id: ChainId,
    pub identities: VecMap<IdentityId, IdentityCommitment>,
    /// One identity per owner on this chain.
    pub owner_to_identity: VecMap<AccountId, IdentityId>,
    pub attestations: VecMap<IdentityId, Vec<IdentityAttestation>>,
    /// Who attested whom; an attester attests an identity once.
    pub attestation_pairs: Vec<AttestationPair>,
    pub config: AntiSybilConfig,
    pub events: Vec<IdentityEvent>,
    /// Number of active identities.
    pub active_count: u64,
}

impl IdentityRegistry {
    /// Mutable access to the identity table, for setting up states by hand.
    pub fn identities_mut(&mut self) -> (r: &mut VecMap<IdentityId, IdentityCommitment>)
        ensures
            *r == old(self).identities,
            *final(self) == (IdentityRegistry { identities: *final(r), ..*old(self) }),
    {
        &mut self.identities
    }

    pub open spec fn inv(&self) -> bool {
        &&& self.identities.wf()
        &&& self.owner_to_identity.wf()
        &&& self.attestations.wf()
        &&& forall|id: IdentityId| #[trigger]
            self.attestations@.contains_key(id) ==> self.attestations@[id]@.len() <= MAX_ATTESTATIONS
    }

    /// Attestations received by `id`, oldest first.
    pub open spec fn atts_of(&self, id: IdentityId) -> Seq<IdentityAttestation> {
        if self.attestations@.contains_key(id) {
            self.attestations@[id]@
        } else {
            Seq::empty()
        }
    }

    pub open spec fn spec_valid_count(&self, id: IdentityId, current_block: BlockNumber) -> nat {
        self.atts_of(id).filter(active_att_pred(current_block)).len()
    }

    pub open spec fn spec_total_weight(&self, id: IdentityId, current_block: BlockNumber) -> nat {
        weight_sum(self.atts_of(id).filter(active_att_pred(current_block)))
    }

    /// The identity of `owner`, when it exists.
    pub open spec fn owner_identity(&self, owner: AccountId) -> Option<IdentityCommitment> {
        if self.owner_to_identity@.contains_key(owner) && self.identities@.contains_key(
            self.owner_to_identity@[owner],
        ) {
            Some(self.identities@[self.owner_to_identity@[owner]])
        } else {
            None
        }
    }

    /// Only the identity table (and the event log and active count) may
    /// differ from `old`.
    pub open spec fn same_but_identities(&self, old: &Self) -> bool {
        &&& self.chain_id == old.chain_id
        &&& self.owner_to_identity == old.owner_to_identity
        &&& self.attestations == old.attestations
        &&& self.attestation_pairs == old.attestation_pairs
        &&& self.config == old.config
    }

    pub fn new(chain_id: ChainId) -> (r: Self)
        ensures
            r.inv(),
            r.chain_id == chain_id,
            r.identities@ == Map::<IdentityId, IdentityCommitment>::empty(),
            r.owner_to_identity@ == Map::<AccountId, IdentityId>::empty(),
            r.attestations@ == Map::<IdentityId, Vec<IdentityAttestation>>::empty(),
            r.attestation_pairs@.len() == 0,
            r.config.min_attestations == MIN_ATTESTATIONS_FOR_ACTIVE,
            r.config.enable_reputation_decay,
            r.events@.len() == 0,
            r.active_count == 0,
    {
        IdentityRegistry {
            chain_id,
            identities: VecMap::new(),
            owner_to_identity: VecMap::new(),
            attestations: VecMap::new(),
            attestation_pairs: Vec::new(),
            config: AntiSybilConfig::default(),
            events: Vec::new(),
            active_count: 0,
        }
    }

    pub fn with_config(chain_id: ChainId, config: AntiSybilConfig) -> (r: Self)
        ensures
            r.inv(),
            r.chain_id == chain_id,
            r.config == config,
            r.identities@ == Map::<IdentityId, IdentityCommitment>::empty(),
            r.owner_to_identity@ == Map::<AccountId, IdentityId>::empty(),
            r.attestations@ == Map::<IdentityId, Vec<IdentityAttestation>>::empty(),
            r.attestation_pairs@.len() == 0,
            r.events@.len() == 0,
            r.active_count == 0,
    {
        let mut r = Self::new(chain_id);
        r.config = config;
        r
    }

    pub fn chain_id(&self) -> (c: ChainId)
        ensures
            c == self.chain_id,
    {
        self.chain_id
    }

    pub fn config(&self) -> (c: &AntiSybilConfig)
        ensures
            *c == self.config,
    {
        &self.config
    }

    pub fn update_config(&mut self, config: AntiSybilConfig)
        ensures
            *final(self) == (IdentityRegistry { config, ..*old(self) }),
    {
        self.config = config;
    }

    pub fn active_count(&self) -> (n: u64)
        ensures
            n == self.active_count,
    {
        self.active_count
    }

    /// Declares an identity for `owner` (one per owner), in the Declared
    /// state with no attestations.
    pub fn declare_identity(
        &mut self,
        owner: AccountId,
        commitment_data: &[u8],
        display_name: Option<String>,
        current_block: BlockNumber,
    ) -> (r: Result<IdentityId, IdentityError>)
        requires
            old(self).inv(),
            current_block + IDENTITY_VALIDITY_PERIOD <= u64::MAX,
        ensures
            final(self).inv(),
            old(self).owner_to_identity@.contains_key(owner) ==> r == Err::<IdentityId, IdentityError>(
                IdentityError::IdentityAlreadyExists,
            ) && *final(self) == *old(self),
            !old(self).owner_to_identity@.contains_key(owner) ==> {
                let id = r->Ok_0;
                let c = final(self).identities@[id];
                &&& r is Ok
                &&& id.bytes@ == spec_hash_bytes(identity_preimage(owner, old(self).chain_id, commitment_data@))
                &&& final(self).identities@ == old(self).identities@.insert(id, c)
                &&& c.commitment_hash.bytes@ == spec_hash_bytes(commitment_data@)
                &&& c == (IdentityCommitment {
                    identity_id: id,
                    owner,
                    scope: old(self).chain_id,
                    commitment_hash: c.commitment_hash,
                    display_name,
                    status: IdentityStatus::Declared,
                    created_at: current_block,
                    expires_at: (current_block + IDENTITY_VALIDITY_PERIOD) as u64,
                    last_activity: current_block,
                    reputation: ReputationScore::spec_zero(),
                })
                &&& final(self).owner_to_identity@ == old(self).owner_to_identity@.insert(owner, id)
                &&& final(self).atts_of(id) == Seq::<IdentityAttestation>::empty()
                &&& forall|k: IdentityId| k != id ==> #[trigger] final(self).atts_of(k) == old(self).atts_of(k)
                &&& final(self).attestation_pairs == old(self).attestation_pairs
                &&& final(self).config == old(self).config
                &&& final(self).chain_id == old(self).chain_id
                &&& final(self).active_count == old(self).active_count
                &&& final(self).events@ == old(self).events@.push(
                    IdentityEvent::IdentityDeclared { identity_id: id, owner, scope: old(self).chain_id },
                )
            },
    {
        if self.owner_to_identity.contains_key(&owner) {
            return Err(IdentityError::IdentityAlreadyExists);
        }
        let identity = IdentityCommitment::new(owner, self.chain_id, commitment_data, display_name, current_block);
        let identity_id = identity.identity_id;
        self.identities.insert(identity_id, identity);
        self.owner_to_identity.insert(owner, identity_id);
        self.attestations.insert(identity_id, Vec::new());
        self.events.push(IdentityEvent::IdentityDeclared { identity_id, owner, scope: self.chain_id });
        proof {
            assert forall|k: IdentityId| k != identity_id implies #[trigger] self.atts_of(k) == old(self).atts_of(
                k,
            ) by {}
        }
        Ok(identity_id)
    }

    /// Appends `att` to the attestations of `id`.
    fn push_attestation(
        table: &mut VecMap<IdentityId, Vec<IdentityAttestation>>,
        id: IdentityId,
        att: IdentityAttestation,
    )
        requires
            old(table).wf(),
        ensures
            final(table).wf(),
            final(table)@.contains_key(id),
            final(table)@[id]@ == (if old(table)@.contains_key(id) {
                old(table)@[id]@
            } else {
                Seq::empty()
            }).push(att),
            forall|k: IdentityId| k != id ==> (#[trigger] final(table)@.contains_key(k) <==> old(table)@.contains_key(k)),
            forall|k: IdentityId| k != id && old(table)@.contains_key(k) ==> #[trigger] final(table)@[k] == old(table)@[k],
    {
        match table.find(&id) {
            Some(i) => {
                let ghost before = *table;
                let list = table.val_at_mut(i);
                list.push(att);
                proof {
                    let nv = table.val_seq()[i as int];
                    VecMap::lemma_update_at(&before, table, i as int, nv);
                }
            },
            None => {
                let mut list: Vec<IdentityAttestation> = Vec::new();
                list.push(att);
                table.insert(id, list);
            },
        }
    }

    /// Attestations of `id` still valid at `current_block`.
    pub fn count_valid_attestations(&self, identity_id: IdentityId, current_block: BlockNumber) -> (n: usize)
        requires
            self.inv(),
        ensures
            n == self.spec_valid_count(identity_id, current_block),
    {
        match self.attestations.get(&identity_id) {
            Some(atts) => {
                let ghost p = active_att_pred(current_block);
                let mut n: usize = 0;
                let mut i: usize = 0;
                while i < atts.len()
                    invariant
                        i <= atts@.len(),
                        p == active_att_pred(current_block),
                        n == atts@.take(i as int).filter(p).len(),
                        n <= i,
                    decreases atts@.len() - i,
                {
                    proof {
                        assert(atts@.take(i + 1) =~= atts@.take(i as int).push(atts@[i as int]));
                        atts@.take(i as int).lemma_filter_push(atts@[i as int], p);
                    }
                    if atts[i].is_active(current_block) {
                        n = n + 1;
                    }
                    i = i + 1;
                }
                proof {
                    assert(atts@.take(atts@.len() as int) =~= atts@);
                }
                n
            },
            None => {
                proof {
                    reveal_with_fuel(Seq::<_>::filter, 1);
                }
                0
            },
        }
    }

    /// Sum of the weights of the attestations of `id` still valid at
    /// `current_block`.
    pub fn total_attestation_weight(&self, identity_id: IdentityId, current_block: BlockNumber) -> (w: u32)
        requires
            self.inv(),
        ensures
            w == self.spec_total_weight(identity_id, current_block),
    {
        match self.attestations.get(&identity_id) {
            Some(atts) => {
                let ghost p = active_att_pred(current_block);
                let mut w: u32 = 0;
                let mut i: usize = 0;
                while i < atts.len()
                    invariant
                        i <= atts@.len(),
                        atts@.len() <= MAX_ATTESTATIONS,
                        p == active_att_pred(current_block),
                        w == weight_sum(atts@.take(i as int).filter(p)),
                    decreases atts@.len() - i,
                {
                    let ghost t = atts@.take(i as int);
                    proof {
                        assert(atts@.take(i + 1) =~= t.push(atts@[i as int]));
                        t.lemma_filter_push(atts@[i as int], p);
                        lemma_weight_sum_bound(t.filter(p));
                        lemma_filter_len_le(t, p);
                        assert(t.filter(p).push(atts@[i as int]).drop_last() =~= t.filter(p));
                    }
                    if atts[i].is_active(current_block) {
                        w = w + atts[i].weight as u32;
                    }
                    i = i + 1;
                }
                proof {
                    assert(atts@.take(atts@.len() as int) =~= atts@);
                }
                w
            },
            None => {
                proof {
                    reveal_with_fuel(Seq::<_>::filter, 1);
                }
                0
            },
        }
    }

    /// Applies the activation rule to `identity_id` with its valid
    /// attestation count at `current_block`.
    fn maybe_activate_identity(&mut self, identity_id: IdentityId, current_block: BlockNumber) -> (r: Result<
        (),
        IdentityError,
    >)
        requires
            old(self).inv(),
            old(self).active_count < u64::MAX,
        ensures
            final(self).inv(),
            !old(self).identities@.contains_key(identity_id) ==> r == Err::<(), IdentityError>(
                IdentityError::IdentityNotFound,
            ) && *final(self) == *old(self),
            old(self).identities@.contains_key(identity_id) ==> {
                let c = old(self).identities@[identity_id];
                let st = spec_activation(
                    c.status,
                    old(self).spec_valid_count(identity_id, current_block),
                    old(self).config.min_attestations,
                );
                &&& r == Ok::<(), IdentityError>(())
                &&& final(self).identities@ == old(self).identities@.insert(
                    identity_id,
                    IdentityCommitment { status: st, ..c },
                )
                &&& final(self).active_count == old(self).active_count + (if st == IdentityStatus::Active
                    && c.status != IdentityStatus::Active {
                    1int
                } else {
                    0int
                })
                &&& final(self).events@ == if st == IdentityStatus::Active && c.status != IdentityStatus::Active {
                    old(self).events@.push(IdentityEvent::IdentityActivated { identity_id })
                } else {
                    old(self).events@
                }
                &&& final(self).same_but_identities(old(self))
            },
    {
        let count = self.count_valid_attestations(identity_id, current_block);
        let min_required = self.config.min_attestations;
        let i = match self.identities.find(&identity_id) {
            Some(i) => i,
            None => return Err(IdentityError::IdentityNotFound),
        };
        let ghost before = self.identities;
        let identity = self.identities.val_at_mut(i);
        let mut activated = false;
        if identity.status == IdentityStatus::Declared && count > 0 {
            identity.status = IdentityStatus::Attested;
        } else if (identity.status == IdentityStatus::Declared || identity.status == IdentityStatus::Attested)
            && count >= min_required {
            identity.status = IdentityStatus::Active;
            activated = true;
        }
        proof {
            let nv = self.identities.val_seq()[i as int];
            VecMap::lemma_update_at(&before, &self.identities, i as int, nv);
        }
        if activated {
            self.active_count = self.active_count + 1;
            self.events.push(IdentityEvent::IdentityActivated { identity_id });
        }
        Ok(())
    }

    /// `attester` (with an active identity) attests `target_identity_id`:
    /// the attestation is weighted by the attester's reputation, the
    /// attester earns reputation, and the target may move to Attested or
    /// Active.
    pub fn submit_attestation(
        &mut self,
        attester: AccountId,
        target_identity_id: IdentityId,
        claim_data: &[u8],
        current_block: BlockNumber,
    ) -> (r: Result<(), IdentityError>)
        requires
            old(self).inv(),
            current_block + ATTESTATION_VALIDITY_PERIOD <= u64::MAX,
            old(self).active_count < u64::MAX,
        ensures
            final(self).inv(),
            ({
                let o = old(self);
                let aid = o.owner_to_identity@[attester];
                let pair = AttestationPair { attester, identity: target_identity_id };
                &&& !o.owner_to_identity@.contains_key(attester) ==> r == Err::<(), IdentityError>(
                    IdentityError::AttesterHasNoIdentity,
                )
                &&& o.owner_to_identity@.contains_key(attester) && !o.identities@.contains_key(aid) ==> r == Err::<
                    (),
                    IdentityError,
                >(IdentityError::IdentityNotFound)
                &&& o.owner_to_identity@.contains_key(attester) && o.identities@.contains_key(aid) && !o.identities@[aid].spec_is_active(
                    current_block,
                ) ==> r == Err::<(), IdentityError>(IdentityError::AttesterNotActive)
                &&& o.owner_to_identity@.contains_key(attester) && o.identities@.contains_key(aid)
                    && o.identities@[aid].spec_is_active(current_block) ==> {
                    &&& aid == target_identity_id ==> r == Err::<(), IdentityError>(IdentityError::CannotSelfAttest)
                    &&& aid != target_identity_id && !o.identities@.contains_key(target_identity_id) ==> r == Err::<
                        (),
                        IdentityError,
                    >(IdentityError::IdentityNotFound)
                    &&& aid != target_identity_id && o.identities@.contains_key(target_identity_id) && !o.identities@[target_identity_id].status.spec_can_receive_attestations()
                        ==> r == Err::<(), IdentityError>(IdentityError::CannotReceiveAttestations)
                    &&& aid != target_identity_id && o.identities@.contains_key(target_identity_id)
                        && o.identities@[target_identity_id].status.spec_can_receive_attestations() ==> {
                        &&& o.attestation_pairs@.contains(pair) ==> r == Err::<(), IdentityError>(
                            IdentityError::AlreadyAttested,
                        )
                        &&& !o.attestation_pairs@.contains(pair) && o.atts_of(target_identity_id).len()
                            >= MAX_ATTESTATIONS ==> r == Err::<(), IdentityError>(
                            IdentityError::MaxAttestationsReached,
                        )
                        &&& !o.attestation_pairs@.contains(pair) && o.atts_of(target_identity_id).len()
                            < MAX_ATTESTATIONS ==> {
                            let att = final(self).atts_of(target_identity_id).last();
                            let a = o.identities@[aid];
                            let t = o.identities@[target_identity_id];
                            let count = final(self).spec_valid_count(target_identity_id, current_block);
                            let st = spec_activation(t.status, count, o.config.min_attestations);
                            &&& r == Ok::<(), IdentityError>(())
                            &&& final(self).atts_of(target_identity_id) == o.atts_of(target_identity_id).push(att)
                            &&& att.claim_hash.bytes@ == spec_hash_bytes(claim_data@)
                            &&& att == (IdentityAttestation {
                                attester,
                                attester_identity: aid,
                                target_identity: target_identity_id,
                                claim_hash: att.claim_hash,
                                weight: spec_attestation_weight(a.reputation.score),
                                created_at: current_block,
                                expires_at: (current_block + ATTESTATION_VALIDITY_PERIOD) as u64,
                                revoked: false,
                            })
                            &&& forall|k: IdentityId|
                                k != target_identity_id ==> #[trigger] final(self).atts_of(k) == o.atts_of(k)
                            &&& final(self).attestation_pairs@ == o.attestation_pairs@.push(pair)
                            &&& final(self).identities@ == o.identities@.insert(
                                aid,
                                IdentityCommitment {
                                    reputation: ReputationScore {
                                        score: capped_add(a.reputation.score, REPUTATION_POINTS_ATTESTATION),
                                        attestations_given: counter_inc(a.reputation.attestations_given),
                                        ..a.reputation
                                    },
                                    ..a
                                },
                            ).insert(target_identity_id, IdentityCommitment { status: st, ..t })
                            &&& final(self).active_count == o.active_count + (if st == IdentityStatus::Active
                                && t.status != IdentityStatus::Active {
                                1int
                            } else {
                                0int
                            })
                            &&& final(self).owner_to_identity == o.owner_to_identity
                            &&& final(self).config == o.config
                            &&& final(self).chain_id == o.chain_id
                            &&& final(self).events@ == {
                                let logged = o.events@.push(
                                    IdentityEvent::AttestationReceived {
                                        identity_id: target_identity_id,
                                        attester,
                                        weight: spec_attestation_weight(a.reputation.score),
                                    },
                                );
                                if st == IdentityStatus::Active && t.status != IdentityStatus::Active {
                                    logged.push(IdentityEvent::IdentityActivated { identity_id: target_identity_id })
                                } else {
                                    logged
                                }
                            }
                        }
                    }
                }
                &&& r.is_err() ==> *final(self) == *old(self)
            }),
    {
        let aid = match self.owner_to_identity.get(&attester) {
            Some(id) => *id,
            None => return Err(IdentityError::AttesterHasNoIdentity),
        };
        let (a_active, a_score) = match self.identities.get(&aid) {
            Some(a) => (a.is_active(current_block), a.reputation.score),
            None => return Err(IdentityError::IdentityNotFound),
        };
        if !a_active {
            return Err(IdentityError::AttesterNotActive);
        }
        if aid.key_eq(&target_identity_id) {
            return Err(IdentityError::CannotSelfAttest);
        }
        let can_receive = match self.identities.get(&target_identity_id) {
            Some(t) => t.status.can_receive_attestations(),
            None => return Err(IdentityError::IdentityNotFound),
        };
        if !can_receive {
            return Err(IdentityError::CannotReceiveAttestations);
        }
        let pair = AttestationPair { attester, identity: target_identity_id };
        if vec_contains(&self.attestation_pairs, &pair) {
            return Err(IdentityError::AlreadyAttested);
        }
        let n = match self.attestations.get(&target_identity_id) {
            Some(v) => v.len(),
            None => 0,
        };
        if n >= MAX_ATTESTATIONS {
            return Err(IdentityError::MaxAttestationsReached);
        }
        let weight = calculate_attestation_weight(a_score);
        let attestation = IdentityAttestation::new(
            attester,
            aid,
            target_identity_id,
            claim_data,
            weight,
            current_block,
        );
        Self::push_attestation(&mut self.attestations, target_identity_id, attestation);
        self.attestation_pairs.push(pair);
        let ghost mid_atts = self.attestations;
        proof {
            assert forall|id: IdentityId| #[trigger] self.attestations@.contains_key(id) implies self.attestations@[id]@.len()
                <= MAX_ATTESTATIONS by {
                if id != target_identity_id {
                    assert(old(self).attestations@.contains_key(id));
                }
            }
            assert(self.atts_of(target_identity_id).last() == attestation);
        }
        match self.identities.find(&aid) {
            Some(i) => {
                let ghost before = self.identities;
                let ident = self.identities.val_at_mut(i);
                ident.reputation.record_attestation(REPUTATION_POINTS_ATTESTATION);
                proof {
                    let nv = self.identities.val_seq()[i as int];
                    VecMap::lemma_update_at(&before, &self.identities, i as int, nv);
                }
            },
            None => {},
        }
        self.events.push(IdentityEvent::AttestationReceived { identity_id: target_identity_id, attester, weight });
        proof {
            assert forall|k: IdentityId| k != target_identity_id implies #[trigger] self.atts_of(k) == old(self).atts_of(
                k,
            ) by {}
        }
        let _ = self.maybe_activate_identity(target_identity_id, current_block);
        Ok(())
    }

    pub fn get_identity(&self, identity_id: &IdentityId) -> (r: Option<&IdentityCommitment>)
        requires
            self.inv(),
        ensures
            r is Some <==> self.identities@.contains_key(*identity_id),
            r is Some ==> *r->0 == self.identities@[*identity_id],
    {
        self.identities.get(identity_id)
    }

    pub fn get_identity_by_owner(&self, owner: &AccountId) -> (r: Option<&IdentityCommitment>)
        requires
            self.inv(),
        ensures
            r is Some <==> self.owner_identity(*owner) is Some,
            r is Some ==> *r->0 == self.owner_identity(*owner)->0,
    {
        match self.owner_to_identity.get(owner) {
            Some(id) => self.identities.get(id),
            None => None,
        }
    }

    pub fn get_identity_id(&self, owner: &AccountId) -> (r: Option<IdentityId>)
        requires
            self.inv(),
        ensures
            r is Some <==> self.owner_to_identity@.contains_key(*owner),
            r is Some ==> r->0 == self.owner_to_identity@[*owner],
    {
        match self.owner_to_identity.get(owner) {
            Some(id) => Some(*id),
            None => None,
        }
    }

    pub fn has_identity(&self, owner: &AccountId) -> (b: bool)
        requires
            self.inv(),
        ensures
            b == self.owner_to_identity@.contains_key(*owner),
    {
        self.owner_to_identity.contains_key(owner)
    }

    pub fn is_active(&self, identity_id: &IdentityId, current_block: BlockNumber) -> (b: bool)
        requires
            self.inv(),
        ensures
            b == (self.identities@.contains_key(*identity_id) && self.identities@[*identity_id].spec_is_active(
                current_block,
            )),
    {
        match self.identities.get(identity_id) {
            Some(i) => i.is_active(current_block),
            None => false,
        }
    }

    pub fn owner_is_active(&self, owner: &AccountId, current_block: BlockNumber) -> (b: bool)
        requires
            self.inv(),
        ensures
            b == (self.owner_identity(*owner) is Some && self.owner_identity(*owner)->0.spec_is_active(current_block)),
    {
        match self.get_identity_by_owner(owner) {
            Some(i) => i.is_active(current_block),
            None => false,
        }
    }

    pub fn get_attestations(&self, identity_id: &IdentityId) -> (r: Option<&Vec<IdentityAttestation>>)
        requires
            self.inv(),
        ensures
            r is Some <==> self.attestations@.contains_key(*identity_id),
            r is Some ==> r->0@ == self.atts_of(*identity_id),
    {
        self.attestations.get(identity_id)
    }

    /// Renews the owner's identity for a full validity period and returns
    /// the new expiry; an expired identity gets back the status its valid
    /// attestations give it.
    pub fn renew_identity(&mut self, owner: AccountId, current_block: BlockNumber) -> (r: Result<
        BlockNumber,
        IdentityError,
    >)
        requires
            old(self).inv(),
            current_block + IDENTITY_VALIDITY_PERIOD <= u64::MAX,
        ensures
            final(self).inv(),
            old(self).owner_identity(owner) is None ==> r == Err::<BlockNumber, IdentityError>(
                IdentityError::IdentityNotFound,
            ),
            old(self).owner_identity(owner) is Some && old(self).owner_identity(owner)->0.status
                == IdentityStatus::Revoked ==> r == Err::<BlockNumber, IdentityError>(IdentityError::IdentityRevoked),
            r.is_err() ==> *final(self) == *old(self),
            old(self).owner_identity(owner) is Some && old(self).owner_identity(owner)->0.status
                != IdentityStatus::Revoked ==> {
                let id = old(self).owner_to_identity@[owner];
                let c = old(self).identities@[id];
                let st = if c.status == IdentityStatus::Expired {
                    spec_restored(old(self).spec_valid_count(id, current_block), old(self).config.min_attestations)
                } else {
                    c.status
                };
                &&& r == Ok::<BlockNumber, IdentityError>((current_block + IDENTITY_VALIDITY_PERIOD) as u64)
                &&& final(self).identities@ == old(self).identities@.insert(
                    id,
                    IdentityCommitment {
                        expires_at: (current_block + IDENTITY_VALIDITY_PERIOD) as u64,
                        status: st,
                        ..c
                    },
                )
                &&& final(self).same_but_identities(old(self))
                &&& final(self).active_count == old(self).active_count
                &&& final(self).events@ == old(self).events@.push(
                    IdentityEvent::IdentityRenewed {
                        identity_id: id,
                        new_expiry: (current_block + IDENTITY_VALIDITY_PERIOD) as u64,
                    },
                )
            },
    {
        let identity_id = match self.owner_to_identity.get(&owner) {
            Some(id) => *id,
            None => return Err(IdentityError::IdentityNotFound),
        };
        let i = match self.identities.find(&identity_id) {
            Some(i) => i,
            None => return Err(IdentityError::IdentityNotFound),
        };
        let status = self.identities.val_at(i).status;
        if status == IdentityStatus::Revoked {
            return Err(IdentityError::IdentityRevoked);
        }
        let new_status = if status == IdentityStatus::Expired {
            let count = self.count_valid_attestations(identity_id, current_block);
            if count >= self.config.min_attestations {
                Some(IdentityStatus::Active)
            } else if count > 0 {
                Some(IdentityStatus::Attested)
            } else {
                Some(IdentityStatus::Declared)
            }
        } else {
            None
        };
        let ghost before = self.identities;
        let identity = self.identities.val_at_mut(i);
        identity.renew(current_block);
        if let Some(st) = new_status {
            identity.status = st;
        }
        let new_expiry = identity.expires_at;
        proof {
            let nv = self.identities.val_seq()[i as int];
            VecMap::lemma_update_at(&before, &self.identities, i as int, nv);
        }
        self.events.push(IdentityEvent::IdentityRenewed { identity_id, new_expiry });
        Ok(new_expiry)
    }

    /// The owner revokes its own identity and gets the deposit back.
    pub fn revoke_own_identity(&mut self, owner: AccountId) -> (r: Result<Balance, IdentityError>)
        requires
            old(self).inv(),
        ensures
            final(self).inv(),
            old(self).owner_identity(owner) is None ==> r == Err::<Balance, IdentityError>(
                IdentityError::IdentityNotFound,
            ),
            old(self).owner_identity(owner) is Some && old(self).owner_identity(owner)->0.status
                == IdentityStatus::Revoked ==> r == Err::<Balance, IdentityError>(IdentityError::AlreadyRevoked),
            r.is_err() ==> *final(self) == *old(self),
            old(self).owner_identity(owner) is Some && old(self).owner_identity(owner)->0.status
                != IdentityStatus::Revoked ==> {
                let id = old(self).owner_to_identity@[owner];
                let c = old(self).identities@[id];
                &&& r == Ok::<Balance, IdentityError>(IDENTITY_DEPOSIT)
                &&& final(self).identities@ == old(self).identities@.insert(
                    id,
                    IdentityCommitment { status: IdentityStatus::Revoked, ..c },
                )
                &&& final(self).same_but_identities(old(self))
                &&& final(self).active_count == if c.status == IdentityStatus::Active && old(self).active_count > 0 {
                    (old(self).active_count - 1) as u64
                } else {
                    old(self).active_count
                }
                &&& final(self).events@ == old(self).events@.push(
                    IdentityEvent::IdentityRevoked { identity_id: id, reason: RevocationReason::Voluntary },
                )
            },
    {
        let identity_id = match self.owner_to_identity.get(&owner) {
            Some(id) => *id,
            None => return Err(IdentityError::IdentityNotFound),
        };
        let i = match self.identities.find(&identity_id) {
            Some(i) => i,
            None => return Err(IdentityError::IdentityNotFound),
        };
        let status = self.identities.val_at(i).status;
        if status == IdentityStatus::Revoked {
            return Err(IdentityError::AlreadyRevoked);
        }
        let ghost before = self.identities;
        let identity = self.identities.val_at_mut(i);
        identity.status = IdentityStatus::Revoked;
        proof {
            let nv = self.identities.val_seq()[i as int];
            VecMap::lemma_update_at(&before, &self.identities, i as int, nv);
        }
        if status == IdentityStatus::Active && self.active_count > 0 {
            self.active_count = self.active_count - 1;
        }
        self.events.push(IdentityEvent::IdentityRevoked { identity_id, reason: RevocationReason::Voluntary });
        Ok(IDENTITY_DEPOSIT)
    }

    /// Revokes an identity by force and voids every attestation its owner
    /// gave.
    pub fn force_revoke_identity(&mut self, identity_id: IdentityId, reason: RevocationReason) -> (r: Result<
        (),
        IdentityError,
    >)
        requires
            old(self).inv(),
        ensures
            final(self).inv(),
            !old(self).identities@.contains_key(identity_id) ==> r == Err::<(), IdentityError>(
                IdentityError::IdentityNotFound,
            ),
            old(self).identities@.contains_key(identity_id) && old(self).identities@[identity_id].status
                == IdentityStatus::Revoked ==> r == Err::<(), IdentityError>(IdentityError::AlreadyRevoked),
            r.is_err() ==> *final(self) == *old(self),
            old(self).identities@.contains_key(identity_id) && old(self).identities@[identity_id].status
                != IdentityStatus::Revoked ==> {
                let c = old(self).identities@[identity_id];
                &&& r == Ok::<(), IdentityError>(())
                &&& final(self).identities@ == old(self).identities@.insert(
                    identity_id,
                    IdentityCommitment { status: IdentityStatus::Revoked, ..c },
                )
                &&& final(self).active_count == if c.status == IdentityStatus::Active && old(self).active_count > 0 {
                    (old(self).active_count - 1) as u64
                } else {
                    old(self).active_count
                }
                &&& forall|k: IdentityId| #[trigger]
                    final(self).atts_of(k) == old(self).atts_of(k).map_values(
                        revoke_fn(c.owner),
                    )
                &&& final(self).attestations@.dom() == old(self).attestations@.dom()
                &&& final(self).owner_to_identity == old(self).owner_to_identity
                &&& final(self).attestation_pairs == old(self).attestation_pairs
                &&& final(self).config == old(self).config
                &&& final(self).chain_id == old(self).chain_id
                &&& final(self).events@ == old(self).events@.push(IdentityEvent::IdentityRevoked { identity_id, reason })
            },
    {
        let i = match self.identities.find(&identity_id) {
            Some(i) => i,
            None => return Err(IdentityError::IdentityNotFound),
        };
        let status = self.identities.val_at(i).status;
        if status == IdentityStatus::Revoked {
            return Err(IdentityError::AlreadyRevoked);
        }
        let owner = self.identities.val_at(i).owner;
        let ghost before = self.identities;
        let identity = self.identities.val_at_mut(i);
        identity.status = IdentityStatus::Revoked;
        proof {
            let nv = self.identities.val_seq()[i as int];
            VecMap::lemma_update_at(&before, &self.identities, i as int, nv);
        }
        if status == IdentityStatus::Active && self.active_count > 0 {
            self.active_count = self.active_count - 1;
        }
        let ghost mid = *self;
        proof {
            assert(owner == old(self).identities@[identity_id].owner);
            assert(mid.attestations == old(self).attestations);
        }
        self.invalidate_attestations_from(owner);
        let ghost after = *self;
        self.events.push(IdentityEvent::IdentityRevoked { identity_id, reason });
        proof {
            assert forall|k: IdentityId| #[trigger]
                self.atts_of(k) == old(self).atts_of(k).map_values(revoke_fn(owner)) by {
                assert(after.atts_of(k) == mid.atts_of(k).map_values(revoke_fn(owner)));
            }
        }
        Ok(())
    }

    /// Voids every attestation given by `attester`.
    fn invalidate_attestations_from(&mut self, attester: AccountId)
        requires
            old(self).inv(),
        ensures
            final(self).inv(),
            forall|k: IdentityId| #[trigger]
                final(self).atts_of(k) == old(self).atts_of(k).map_values(
                    revoke_fn(attester),
                ),
            final(self).attestations@.dom() == old(self).attestations@.dom(),
            final(self).identities == old(self).identities,
            final(self).owner_to_identity == old(self).owner_to_identity,
            final(self).attestation_pairs == old(self).attestation_pairs,
            final(self).config == old(self).config,
            final(self).chain_id == old(self).chain_id,
            final(self).events == old(self).events,
            final(self).active_count == old(self).active_count,
    {
        let ghost start = self.attestations;
        let ghost keys = self.attestations.key_seq();
        proof {
            start.lemma_wf();
        }
        let n = self.attestations.len();
        let mut i: usize = 0;
        while i < n
            invariant
                self.inv(),
                start.wf(),
                keys == start.key_seq(),
                keys == self.attestations.key_seq(),
                keys.no_duplicates(),
                n == keys.len(),
                i <= n,
                self.attestations.val_seq().len() == n,
                start.val_seq().len() == n,
                forall|j: int| 0 <= j < n ==> #[trigger] start@.contains_key(keys[j]) && start@[keys[j]] == start.val_seq()[j],
                forall|j: int|
                    0 <= j < n ==> (#[trigger] self.attestations.val_seq()[j])@ == if j < i {
                        start.val_seq()[j]@.map_values(revoke_fn(attester))
                    } else {
                        start.val_seq()[j]@
                    },
                self.identities == old(self).identities,
                self.owner_to_identity == old(self).owner_to_identity,
                self.attestation_pairs == old(self).attestation_pairs,
                self.config == old(self).config,
                self.chain_id == old(self).chain_id,
                self.events == old(self).events,
                self.active_count == old(self).active_count,
                start == old(self).attestations,
            decreases n - i,
        {
            let ghost before = self.attestations;
            let list = self.attestations.val_at_mut(i);
            let ghost orig = list@;
            let mut j: usize = 0;
            while j < list.len()
                invariant
                    j <= list@.len(),
                    list@.len() == orig.len(),
                    forall|q: int|
                        0 <= q < orig.len() ==> #[trigger] list@[q] == if q < j {
                            revoked_from(orig[q], attester)
                        } else {
                            orig[q]
                        },
                decreases list@.len() - j,
            {
                if list[j].attester.key_eq(&attester) {
                    let mut a = list[j];
                    a.revoke();
                    list.set(j, a);
                }
                j = j + 1;
            }
            proof {
                assert(list@ =~= orig.map_values(revoke_fn(attester)));
            }
            proof {
                let nv = self.attestations.val_seq()[i as int];
                VecMap::lemma_update_at(&before, &self.attestations, i as int, nv);
                before.lemma_wf();
                assert(self.attestations@.dom() =~= before@.dom());
                assert forall|id: IdentityId| #[trigger] self.attestations@.contains_key(id) implies self.attestations@[id]@.len()
                    <= MAX_ATTESTATIONS by {
                    assert(before@.contains_key(id));
                }
            }
            i = i + 1;
        }
        proof {
            self.attestations.lemma_wf();
            assert forall|k: IdentityId| #[trigger]
                self.atts_of(k) == old(self).atts_of(k).map_values(revoke_fn(attester)) by {
                if start@.contains_key(k) {
                    let w = choose|w: int| 0 <= w < n && keys[w] == k;
                    assert(self.attestations@.contains_key(keys[w]));
                } else {
                    assert(!self.attestations@.contains_key(k)) by {
                        if self.attestations@.contains_key(k) {
                            let w = choose|w: int| 0 <= w < n && keys[w] == k;
                            assert(start@.contains_key(keys[w]));
                        }
                    }
                    assert(Seq::<IdentityAttestation>::empty().map_values(
                        revoke_fn(attester),
                    ) =~= Seq::<IdentityAttestation>::empty());
                }
            }
            assert forall|k: IdentityId| self.attestations@.contains_key(k) <==> start@.contains_key(k) by {
                if self.attestations@.contains_key(k) {
                    let w = choose|w: int| 0 <= w < n && keys[w] == k;
                    assert(start@.contains_key(keys[w]));
                }
                if start@.contains_key(k) {
                    let w = choose|w: int| 0 <= w < n && keys[w] == k;
                    assert(self.attestations@.contains_key(keys[w]));
                }
            }
            assert(self.attestations@.dom() =~= start@.dom());
        }
    }

    /// The identity after the expiry check at `current_block`, given its
    /// count of valid attestations: past its expiry it becomes Expired
    /// (unless expired or revoked already); an active identity with no
    /// valid attestation left falls back to Attested.
    pub open spec fn expiry_step(c: IdentityCommitment, valid: nat, current_block: BlockNumber) -> IdentityCommitment {
        if c.spec_is_expired(current_block) && c.status != IdentityStatus::Expired && c.status
            != IdentityStatus::Revoked {
            IdentityCommitment { status: IdentityStatus::Expired, ..c }
        } else if c.status == IdentityStatus::Active && valid == 0 {
            IdentityCommitment { status: IdentityStatus::Attested, ..c }
        } else {
            c
        }
    }

    pub open spec fn expiring_pred(&self, current_block: BlockNumber) -> spec_fn(IdentityId) -> bool {
        |id: IdentityId|
            self.identities@[id].spec_is_expired(current_block) && self.identities@[id].status
                != IdentityStatus::Expired && self.identities@[id].status != IdentityStatus::Revoked
    }

    /// Identities the expiry check takes out of the Active state.
    pub open spec fn leaving_pred(&self, current_block: BlockNumber) -> spec_fn(IdentityId) -> bool {
        |id: IdentityId|
            self.identities@[id].status == IdentityStatus::Active && (self.identities@[id].spec_is_expired(
                current_block,
            ) || self.spec_valid_count(id, current_block) == 0)
    }

    /// Identities the expiry check takes down from Active to Attested: not
    /// expiring, but with no valid attestation left.
    pub open spec fn downgrading_pred(&self, current_block: BlockNumber) -> spec_fn(IdentityId) -> bool {
        |id: IdentityId|
            !(self.identities@[id].spec_is_expired(current_block) && self.identities@[id].status
                != IdentityStatus::Expired && self.identities@[id].status != IdentityStatus::Revoked)
                && self.identities@[id].status == IdentityStatus::Active && self.spec_valid_count(id, current_block)
                == 0
    }

    /// Applies the expiry check to every identity; returns the ids that
    /// expired, in declaration order.
    pub fn process_expirations(&mut self, current_block: BlockNumber) -> (r: Vec<IdentityId>)
        requires
            old(self).inv(),
        ensures
            final(self).inv(),
            r@ == old(self).identities.key_seq().filter(old(self).expiring_pred(current_block)),
            final(self).identities@.dom() == old(self).identities@.dom(),
            forall|id: IdentityId| #[trigger]
                old(self).identities@.contains_key(id) ==> final(self).identities@[id] == Self::expiry_step(
                    old(self).identities@[id],
                    old(self).spec_valid_count(id, current_block),
                    current_block,
                ),
            ({
                let k = old(self).identities.key_seq().filter(old(self).leaving_pred(current_block)).len();
                final(self).active_count == if old(self).active_count >= k {
                    (old(self).active_count - k) as u64
                } else {
                    0
                }
            }),
            final(self).same_but_identities(old(self)),
            expiry_events(
                old(self).events@,
                final(self).events@,
                old(self).identities.key_seq().filter(old(self).expiring_pred(current_block)),
                old(self).identities.key_seq().filter(old(self).downgrading_pred(current_block)),
            ),
    {
        let ghost start = *self;
        let ghost keys = self.identities.key_seq();
        let ghost ep = start.expiring_pred(current_block);
        let ghost lp = start.leaving_pred(current_block);
        let ghost dp = start.downgrading_pred(current_block);
        proof {
            start.identities.lemma_wf();
        }
        let n = self.identities.len();
        let mut expired: Vec<IdentityId> = Vec::new();
        let mut downgraded: Vec<IdentityId> = Vec::new();
        let mut i: usize = 0;
        while i < n
            invariant
                self.inv(),
                start.inv(),
                keys == start.identities.key_seq(),
                keys == self.identities.key_seq(),
                keys.no_duplicates(),
                n == keys.len(),
                i <= n,
                ep == start.expiring_pred(current_block),
                lp == start.leaving_pred(current_block),
                dp == start.downgrading_pred(current_block),
                downgraded@ == keys.take(i as int).filter(dp),
                self.events == start.events,
                self.identities.val_seq().len() == n,
                start.identities.val_seq().len() == n,
                forall|j: int|
                    0 <= j < n ==> #[trigger] start.identities@.contains_key(keys[j]) && start.identities@[keys[j]]
                        == start.identities.val_seq()[j],
                forall|j: int|
                    0 <= j < n ==> #[trigger] self.identities.val_seq()[j] == if j < i {
                        Self::expiry_step(
                            start.identities.val_seq()[j],
                            start.spec_valid_count(keys[j], current_block),
                            current_block,
                        )
                    } else {
                        start.identities.val_seq()[j]
                    },
                expired@ == keys.take(i as int).filter(ep),
                ({
                    let k = keys.take(i as int).filter(lp).len();
                    self.active_count == if start.active_count >= k {
                        (start.active_count - k) as u64
                    } else {
                        0
                    }
                }),
                self.same_but_identities(&start),
                self.attestations == start.attestations,
            decreases n - i,
        {
            let id = *self.identities.key_at(i);
            let count = self.count_valid_attestations(id, current_block);
            proof {
                assert(keys.take(i + 1) =~= keys.take(i as int).push(id));
                keys.take(i as int).lemma_filter_push(id, ep);
                keys.take(i as int).lemma_filter_push(id, lp);
                keys.take(i as int).lemma_filter_push(id, dp);
                assert(start.identities@.contains_key(keys[i as int]));
                assert(self.spec_valid_count(id, current_block) == start.spec_valid_count(id, current_block));
            }
            let ghost before = self.identities;
            let identity = self.identities.val_at_mut(i);
            let mut left_active = false;
            if identity.is_expired(current_block) && identity.status != IdentityStatus::Expired && identity.status
                != IdentityStatus::Revoked {
                left_active = identity.status == IdentityStatus::Active;
                identity.status = IdentityStatus::Expired;
                expired.push(id);
            } else if identity.status == IdentityStatus::Active {
                if count == 0 {
                    identity.status = IdentityStatus::Attested;
                    left_active = true;
                    downgraded.push(id);
                }
            }
            proof {
                let nv = self.identities.val_seq()[i as int];
                VecMap::lemma_update_at(&before, &self.identities, i as int, nv);
                before.lemma_wf();
                assert(self.identities@.dom() =~= before@.dom());
            }
            if left_active && self.active_count > 0 {
                self.active_count = self.active_count - 1;
            }
            i = i + 1;
        }
        proof {
            assert(keys.take(n as int) =~= keys);
            self.identities.lemma_wf();
            assert forall|id: IdentityId| #[trigger] start.identities@.contains_key(id) implies self.identities@.contains_key(
                id,
            ) && self.identities@[id] == Self::expiry_step(
                start.identities@[id],
                start.spec_valid_count(id, current_block),
                current_block,
            ) by {
                let w = choose|w: int| 0 <= w < n && keys[w] == id;
                assert(self.identities@.contains_key(keys[w]));
            }
            assert forall|id: IdentityId| #[trigger] self.identities@.contains_key(id) implies start.identities@.contains_key(
                id,
            ) by {
                let w = choose|w: int| 0 <= w < n && keys[w] == id;
                assert(start.identities@.contains_key(keys[w]));
            }
            assert(self.identities@.dom() =~= start.identities@.dom());
        }
        let ghost mid = *self;
        let ghost b = mid.events@.len();
        let mut e: usize = 0;
        while e < expired.len()
            invariant
                e <= expired@.len(),
                *self == (IdentityRegistry { events: self.events, ..mid }),
                self.events@.len() == b + e,
                self.events@.take(b as int) == mid.events@,
                forall|j: int|
                    0 <= j < e ==> self.events@[b + j] == (IdentityEvent::IdentityExpired {
                        identity_id: #[trigger] expired@[j],
                    }),
            decreases expired@.len() - e,
        {
            let ghost pre = self.events@;
            self.events.push(IdentityEvent::IdentityExpired { identity_id: expired[e] });
            proof {
                assert(self.events@.take(b as int) =~= pre.take(b as int));
            }
            e = e + 1;
        }
        let ghost x = expired@.len();
        let mut d: usize = 0;
        while d < downgraded.len()
            invariant
                d <= downgraded@.len(),
                x == expired@.len(),
                *self == (IdentityRegistry { events: self.events, ..mid }),
                self.events@.len() == b + x + d,
                self.events@.take(b as int) == mid.events@,
                forall|j: int|
                    0 <= j < x ==> self.events@[b + j] == (IdentityEvent::IdentityExpired {
                        identity_id: #[trigger] expired@[j],
                    }),
                forall|j: int| 0 <= j < d ==> is_downgrade_event(self.events@[b + x + j], #[trigger] downgraded@[j]),
            decreases downgraded@.len() - d,
        {
            let ghost pre = self.events@;
            self.events.push(
                IdentityEvent::StatusChanged {
                    identity_id: downgraded[d],
                    old_status: IdentityStatus::Active,
                    new_status: IdentityStatus::Attested,
                    reason: "All attestations expired".to_owned(),
                },
            );
            proof {
                assert(self.events@.take(b as int) =~= pre.take(b as int));
            }
            d = d + 1;
        }
        expired
    }

    /// Position of the owner's identity in the identity table.
    fn owner_index(&self, owner: &AccountId) -> (r: Option<usize>)
        requires
            self.inv(),
        ensures
            r is None <==> self.owner_identity(*owner) is None,
            r is Some ==> r->0 < self.identities.key_seq().len() && self.identities.key_seq()[r->0 as int]
                == self.owner_to_identity@[*owner],
    {
        match self.owner_to_identity.get(owner) {
            Some(id) => self.identities.find(id),
            None => None,
        }
    }

    /// Credits the owner's identity for taking part in governance.
    pub fn record_governance_participation(&mut self, owner: &AccountId, current_block: BlockNumber) -> (r: Result<
        (),
        IdentityError,
    >)
        requires
            old(self).inv(),
        ensures
            final(self).inv(),
            old(self).owner_identity(*owner) is None ==> r == Err::<(), IdentityError>(
                IdentityError::IdentityNotFound,
            ) && *final(self) == *old(self),
            old(self).owner_identity(*owner) is Some ==> {
                let id = old(self).owner_to_identity@[*owner];
                let c = old(self).identities@[id];
                &&& r == Ok::<(), IdentityError>(())
                &&& final(self).identities@ == old(self).identities@.insert(
                    id,
                    IdentityCommitment {
                        reputation: ReputationScore {
                            score: capped_add(c.reputation.score, REPUTATION_POINTS_GOVERNANCE),
                            governance_actions: counter_inc(c.reputation.governance_actions),
                            ..c.reputation
                        },
                        last_activity: current_block,
                        ..c
                    },
                )
                &&& final(self).same_but_identities(old(self))
                &&& final(self).active_count == old(self).active_count
                &&& one_more_event(old(self).events@, final(self).events@)
                &&& is_reputation_event(
                    final(self).events@.last(),
                    c.identity_id,
                    c.reputation.score,
                    capped_add(c.reputation.score, REPUTATION_POINTS_GOVERNANCE),
                    "governance participation"@,
                )
            },
    {
        let i = match self.owner_index(owner) {
            Some(i) => i,
            None => return Err(IdentityError::IdentityNotFound),
        };
        let ghost before = self.identities;
        let identity = self.identities.val_at_mut(i);
        let old_score = identity.reputation.score;
        identity.reputation.record_governance(REPUTATION_POINTS_GOVERNANCE);
        identity.record_activity(current_block);
        let new_score = identity.reputation.score;
        let identity_id = identity.identity_id;
        proof {
            let nv = self.identities.val_seq()[i as int];
            VecMap::lemma_update_at(&before, &self.identities, i as int, nv);
        }
        self.events.push(
            IdentityEvent::ReputationChanged {
                identity_id,
                old_score,
                new_score,
                reason: "governance participation".to_owned(),
            },
        );
        proof {
            assert(self.events@.drop_last() =~= old(self).events@);
        }
        Ok(())
    }

    /// Credits the owner's identity for serving in arbitration.
    pub fn record_arbitration_participation(&mut self, owner: &AccountId, current_block: BlockNumber) -> (r:
        Result<(), IdentityError>)
        requires
            old(self).inv(),
        ensures
            final(self).inv(),
            old(self).owner_identity(*owner) is None ==> r == Err::<(), IdentityError>(
                IdentityError::IdentityNotFound,
            ) && *final(self) == *old(self),
            old(self).owner_identity(*owner) is Some ==> {
                let id = old(self).owner_to_identity@[*owner];
                let c = old(self).identities@[id];
                &&& r == Ok::<(), IdentityError>(())
                &&& final(self).identities@ == old(self).identities@.insert(
                    id,
                    IdentityCommitment {
                        reputation: ReputationScore {
                            score: capped_add(c.reputation.score, REPUTATION_POINTS_ARBITRATION),
                            arbitration_count: counter_inc(c.reputation.arbitration_count),
                            ..c.reputation
                        },
                        last_activity: current_block,
                        ..c
                    },
                )
                &&& final(self).same_but_identities(old(self))
                &&& final(self).active_count == old(self).active_count
                &&& one_more_event(old(self).events@, final(self).events@)
                &&& is_reputation_event(
                    final(self).events@.last(),
                    c.identity_id,
                    c.reputation.score,
                    capped_add(c.reputation.score, REPUTATION_POINTS_ARBITRATION),
                    "arbitration service"@,
                )
            },
    {
        let i = match self.owner_index(owner) {
            Some(i) => i,
            None => return Err(IdentityError::IdentityNotFound),
        };
        let ghost before = self.identities;
        let identity = self.identities.val_at_mut(i);
        let old_score = identity.reputation.score;
        identity.reputation.record_arbitration(REPUTATION_POINTS_ARBITRATION);
        identity.record_activity(current_block);
        let new_score = identity.reputation.score;
        let identity_id = identity.identity_id;
        proof {
            let nv = self.identities.val_seq()[i as int];
            VecMap::lemma_update_at(&before, &self.identities, i as int, nv);
        }
        self.events.push(
            IdentityEvent::ReputationChanged {
                identity_id,
                old_score,
                new_score,
                reason: "arbitration service".to_owned(),
            },
        );
        proof {
            assert(self.events@.drop_last() =~= old(self).events@);
        }
        Ok(())
    }

    /// Takes `penalty_percent` percent (at most all) of the owner's
    /// reputation.
    pub fn slash_reputation(&mut self, owner: &AccountId, penalty_percent: u8) -> (r: Result<(), IdentityError>)
        requires
            old(self).inv(),
        ensures
            final(self).inv(),
            old(self).owner_identity(*owner) is None ==> r == Err::<(), IdentityError>(
                IdentityError::IdentityNotFound,
            ) && *final(self) == *old(self),
            old(self).owner_identity(*owner) is Some ==> {
                let id = old(self).owner_to_identity@[*owner];
                let c = old(self).identities@[id];
                &&& r == Ok::<(), IdentityError>(())
                &&& final(self).identities@ == old(self).identities@.insert(
                    id,
                    IdentityCommitment {
                        reputation: ReputationScore {
                            score: ReputationScore::spec_slashed(c.reputation.score, penalty_percent),
                            slash_count: counter_inc(c.reputation.slash_count),
                            ..c.reputation
                        },
                        ..c
                    },
                )
                &&& final(self).same_but_identities(old(self))
                &&& final(self).active_count == old(self).active_count
                &&& one_more_event(old(self).events@, final(self).events@)
                &&& is_reputation_event(
                    final(self).events@.last(),
                    c.identity_id,
                    c.reputation.score,
                    ReputationScore::spec_slashed(c.reputation.score, penalty_percent),
                    "slashed"@,
                )
            },
    {
        let i = match self.owner_index(owner) {
            Some(i) => i,
            None => return Err(IdentityError::IdentityNotFound),
        };
        let ghost before = self.identities;
        let identity = self.identities.val_at_mut(i);
        let old_score = identity.reputation.score;
        identity.reputation.apply_slash(penalty_percent);
        let new_score = identity.reputation.score;
        let identity_id = identity.identity_id;
        proof {
            let nv = self.identities.val_seq()[i as int];
            VecMap::lemma_update_at(&before, &self.identities, i as int, nv);
        }
        self.events.push(
            IdentityEvent::ReputationChanged { identity_id, old_score, new_score, reason: "slashed".to_owned() },
        );
        proof {
            assert(self.events@.drop_last() =~= old(self).events@);
        }
        Ok(())
    }

    /// Decays the reputation of every active identity, when decay is
    /// enabled.
    pub fn apply_reputation_decay(&mut self, current_block: BlockNumber)
        requires
            old(self).inv(),
        ensures
            final(self).inv(),
            !old(self).config.enable_reputation_decay ==> *final(self) == *old(self),
            old(self).config.enable_reputation_decay ==> {
                &&& final(self).identities@.dom() == old(self).identities@.dom()
                &&& forall|id: IdentityId| #[trigger]
                    old(self).identities@.contains_key(id) ==> final(self).identities@[id] == if old(
                        self).identities@[id].status == IdentityStatus::Active {
                        IdentityCommitment {
                            reputation: IdentityCommitment::spec_decayed(
                                old(self).identities@[id].reputation,
                                current_block,
                            ),
                            ..old(self).identities@[id]
                        }
                    } else {
                        old(self).identities@[id]
                    }
            },
            final(self).same_but_identities(old(self)),
            final(self).active_count == old(self).active_count,
            final(self).events == old(self).events,
    {
        if !self.config.enable_reputation_decay {
            return;
        }
        let ghost start = *self;
        let ghost keys = self.identities.key_seq();
        proof {
            start.identities.lemma_wf();
        }
        let n = self.identities.len();
        let mut i: usize = 0;
        while i < n
            invariant
                self.inv(),
                keys == start.identities.key_seq(),
                keys == self.identities.key_seq(),
                n == keys.len(),
                i <= n,
                self.identities.val_seq().len() == n,
                start.identities.val_seq().len() == n,
                forall|j: int|
                    0 <= j < n ==> #[trigger] start.identities@.contains_key(keys[j]) && start.identities@[keys[j]]
                        == start.identities.val_seq()[j],
                forall|j: int|
                    0 <= j < n ==> #[trigger] self.identities.val_seq()[j] == if j < i && start.identities.val_seq()[j].status
                        == IdentityStatus::Active {
                        IdentityCommitment {
                            reputation: IdentityCommitment::spec_decayed(
                                start.identities.val_seq()[j].reputation,
                                current_block,
                            ),
                            ..start.identities.val_seq()[j]
                        }
                    } else {
                        start.identities.val_seq()[j]
                    },
                *self == (IdentityRegistry { identities: self.identities, ..start }),
            decreases n - i,
        {
            let ghost before = self.identities;
            let identity = self.identities.val_at_mut(i);
            if identity.status == IdentityStatus::Active {
                identity.apply_decay(current_block);
            }
            proof {
                let nv = self.identities.val_seq()[i as int];
                VecMap::lemma_update_at(&before, &self.identities, i as int, nv);
                before.lemma_wf();
                assert(self.identities@.dom() =~= before@.dom());
            }
            i = i + 1;
        }
        proof {
            self.identities.lemma_wf();
            assert forall|id: IdentityId| #[trigger] start.identities@.contains_key(id) implies self.identities@.contains_key(
                id,
            ) by {
                let w = choose|w: int| 0 <= w < n && keys[w] == id;
                assert(self.identities@.contains_key(keys[w]));
            }
            assert forall|id: IdentityId| #[trigger] self.identities@.contains_key(id) implies start.identities@.contains_key(
                id,
            ) by {
                let w = choose|w: int| 0 <= w < n && keys[w] == id;
                assert(start.identities@.contains_key(keys[w]));
            }
            assert(self.identities@.dom() =~= start.identities@.dom());
        }
    }

    /// Identity is never required to vote.
    pub fn can_vote(&self, _owner: &AccountId, _current_block: BlockNumber) -> (b: bool)
        ensures
            b,
    {
        true
    }

    /// Identity is never required to make a proposal.
    pub fn can_create_proposal(&self, _owner: &AccountId, _current_block: BlockNumber) -> (b: bool)
        ensures
            b,
    {
        true
    }

    /// `base_weight` scaled by the owner's reputation vote weight (percent,
    /// saturating); unchanged without an identity.
    pub fn get_vote_weight(&self, owner: &AccountId, base_weight: Balance) -> (w: Balance)
        requires
            self.inv(),
        ensures
            w == match self.owner_identity(*owner) {
                Some(c) => crate::types::spec_sat_mul(base_weight, c.reputation.spec_vote_weight() as u128) / 100,
                None => base_weight,
            },
    {
        match self.get_identity_by_owner(owner) {
            Some(i) => {
                let multiplier = i.reputation.vote_weight() as u128;
                crate::types::sat_mul(base_weight, multiplier) / 100
            },
            None => base_weight,
        }
    }

    /// The owner's validator-credit boost in percent (100 without an
    /// identity).
    pub fn get_vc_boost(&self, owner: &AccountId) -> (b: u32)
        requires
            self.inv(),
        ensures
            b == match self.owner_identity(*owner) {
                Some(c) => c.reputation.spec_vc_boost(),
                None => 100,
            },
    {
        match self.get_identity_by_owner(owner) {
            Some(i) => i.reputation.vc_boost(),
            None => 100,
        }
    }

    /// Makes an identity active at once (a setup aid for tests and
    /// simulations); counts it as active if it was not.
    pub fn force_activate(&mut self, identity_id: &IdentityId)
        requires
            old(self).inv(),
            old(self).active_count < u64::MAX,
        ensures
            final(self).inv(),
            !old(self).identities@.contains_key(*identity_id) ==> *final(self) == *old(self),
            old(self).identities@.contains_key(*identity_id) ==> {
                let c = old(self).identities@[*identity_id];
                &&& final(self).identities@ == old(self).identities@.insert(
                    *identity_id,
                    IdentityCommitment { status: IdentityStatus::Active, ..c },
                )
                &&& final(self).active_count == old(self).active_count + (if c.status != IdentityStatus::Active {
                    1int
                } else {
                    0int
                })
                &&& final(self).same_but_identities(old(self))
                &&& final(self).events == old(self).events
            },
    {
        let i = match self.identities.find(identity_id) {
            Some(i) => i,
            None => return,
        };
        if self.identities.val_at(i).status != IdentityStatus::Active {
            let ghost before = self.identities;
            let identity = self.identities.val_at_mut(i);
            identity.status = IdentityStatus::Active;
            proof {
                let nv = self.identities.val_seq()[i as int];
                VecMap::lemma_update_at(&before, &self.identities, i as int, nv);
            }
            self.active_count = self.active_count + 1;
        } else {
            proof {
                self.identities.lemma_wf();
                assert(self.identities@.insert(*identity_id, self.identities@[*identity_id]) =~= self.identities@);
            }
        }
    }

    pub fn events(&self) -> (r: &[IdentityEvent])
        ensures
            r@ == self.events@,
    {
        self.events.as_slice()
    }

    pub fn clear_events(&mut self)
        ensures
            final(self).events@.len() == 0,
            *final(self) == (IdentityRegistry { events: final(self).events, ..*old(self) }),
    {
        self.events.clear();
    }
}

impl Default for IdentityRegistry {
    fn default() -> (r: Self)
        ensures
            r.inv(),
            r.chain_id == ChainId(0),
            r.identities@ == Map::<IdentityId, IdentityCommitment>::empty(),
            r.active_count == 0,
    {
        Self::new(ChainId(0))
    }
}

} // verus!

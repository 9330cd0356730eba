//! Forks as a first-class mechanism: proposal and declaration of a fork,
//! its preparation (snapshots, sidechain alignment), its execution, and
//! ossification of the protocol.
use vstd::prelude::*;
use vstd::utf8::encode_utf8;
use crate::types::{AccountId, Balance, BlockNumber, ChainId, u64_le, spec_hash_bytes, push_u64_le, spec_sat_mul};
use crate::types::sat_mul;
use crate::vecmap::{VecMap, MapKey, vec_contains, vec_copy};
use crate::emergency::{power_sum, lemma_power_sum_update, lemma_power_sum_prefix};
use crate::protocol::{ProtocolVersion, ConstitutionalAxiom};
use crate::identity::IdentityStatus;
use crate::reputation::{ReputationDomain, IdentityChain};

verus! {

/// Share of validators (percent) whose support declares a fork.
pub const FORK_VALIDATOR_THRESHOLD_PERCENT: u8 = 33;

/// Share of stake (percent) whose support declares a fork.
pub const FORK_STAKE_THRESHOLD_PERCENT: u8 = 40;

/// Number of sidechains whose support declares a fork.
pub const FORK_SIDECHAIN_THRESHOLD: usize = 3;

/// Share of all validator power (percent) that activates ossification.
pub const OSSIFICATION_APPROVAL_THRESHOLD: u8 = 90;

/// Blocks in a year (6-second blocks).
pub const BLOCKS_PER_YEAR: BlockNumber = 5_256_000;

/// Years without a parameter change before ossification may be proposed.
pub const OSSIFICATION_INACTIVITY_YEARS: u64 = 10;

/// Shortest preparation period of any fork type (7 days).
pub const MIN_FORK_PREPARATION: BlockNumber = 100_800;

/// Longest preparation period of any fork type (60 days).
pub const MAX_FORK_PREPARATION: BlockNumber = 864_000;

/// Blocks between the end of preparation and the fork height (1 day).
pub const FORK_ACTIVATION_DELAY: BlockNumber = 14_400;

/// Minimum deposit to propose a fork.
pub const FORK_PROPOSAL_DEPOSIT: Balance = 100_000;

/// Voting period for a fork declaration (14 days).
pub const FORK_VOTING_PERIOD: BlockNumber = 201_600;

/// Sidechains must align at least this many blocks before the fork height (7 days).
pub const SIDECHAIN_ALIGNMENT_DEADLINE: BlockNumber = 100_800;

/// Most fork proposals that may be open at once.
pub const MAX_CONCURRENT_FORKS: usize = 3;

/// Minimum time between two fork executions (30 days).
pub const FORK_COOLDOWN: BlockNumber = 432_000;

/// Why a fork is proposed.
#[derive(Debug, Clone)]
pub enum ForkType {
    /// A protocol upgrade that not everyone adopts.
    Technical { version: ProtocolVersion, description: String },
    /// A response to a violated constitutional axiom.
    Constitutional { violated_axiom: ConstitutionalAxiom, rationale: String },
    /// Governance can no longer decide.
    Governance { deadlock_reason: String, failed_proposals: u32 },
    /// A split in the community's values.
    Social { reason: String },
    /// The chain is under an existential threat.
    Survival { threat: String },
}

impl ForkType {
    /// A copy of the fork type.
    pub fn copy(&self) -> (r: ForkType)
        ensures
            r == *self,
    {
        match self {
            ForkType::Technical { version, description } => ForkType::Technical {
                version: *version,
                description: description.clone(),
            },
            ForkType::Constitutional { violated_axiom, rationale } => ForkType::Constitutional {
                violated_axiom: *violated_axiom,
                rationale: rationale.clone(),
            },
            ForkType::Governance { deadlock_reason, failed_proposals } => ForkType::Governance {
                deadlock_reason: deadlock_reason.clone(),
                failed_proposals: *failed_proposals,
            },
            ForkType::Social { reason } => ForkType::Social { reason: reason.clone() },
            ForkType::Survival { threat } => ForkType::Survival { threat: threat.clone() },
        }
    }
}

pub open spec fn spec_min_preparation(t: ForkType) -> BlockNumber {
    match t {
        ForkType::Technical { .. } => 432_000,
        ForkType::Constitutional { .. } => 201_600,
        ForkType::Governance { .. } => 432_000,
        ForkType::Social { .. } => 864_000,
        ForkType::Survival { .. } => 100_800,
    }
}

impl ForkType {
    /// Shortest preparation period for this kind of fork.
    pub fn min_preparation_period(&self) -> (r: BlockNumber)
        ensures
            r == spec_min_preparation(*self),
            MIN_FORK_PREPARATION <= r <= MAX_FORK_PREPARATION,
    {
        match self {
            ForkType::Technical { .. } => 432_000,
            ForkType::Constitutional { .. } => 201_600,
            ForkType::Governance { .. } => 432_000,
            ForkType::Social { .. } => 864_000,
            ForkType::Survival { .. } => 100_800,
        }
    }
}

/// Who declared a fork, and with how much weight.
#[derive(Debug, Clone)]
pub enum ForkDeclarant {
    Validators { count: u32, total_validators: u32, voting_power: u64 },
    Stake { amount: Balance, total_stake: Balance, percent: u8 },
    Sidechains { chains: Vec<ChainId> },
}

#[derive(Debug, Clone, Copy, PartialEq, Eq, Structural)]
pub enum ForkStatus {
    Proposed,
    Declared,
    Ready,
    Executed,
    Cancelled,
}

pub open spec fn is_open_status(s: ForkStatus) -> bool {
    s == ForkStatus::Proposed || s == ForkStatus::Declared || s == ForkStatus::Ready
}

/// A fork proposal and what it has gathered.
#[derive(Debug, Clone)]
pub struct ForkDeclaration {
    pub id: crate::types::Hash,
    pub name: String,
    pub fork_type: ForkType,
    pub declared_by: ForkDeclarant,
    pub status: ForkStatus,
    pub proposed_at: BlockNumber,
    pub preparation_ends: BlockNumber,
    pub fork_height: BlockNumber,
    pub description: String,
    /// Supporting validators, each once.
    pub supporting_validators: Vec<AccountId>,
    pub supporting_stake: Balance,
    /// Supporting sidechains, each once.
    pub supporting_sidechains: Vec<ChainId>,
    pub new_chain_id: Option<ChainId>,
}

/// The bytes hashed into the identifier of a fork named `name` proposed at
/// `block`: the UTF-8 encoding of the name, then the block in little endian.
pub open spec fn fork_id_preimage(name: Seq<char>, block: BlockNumber) -> Seq<u8> {
    encode_utf8(name) + u64_le(block)
}

/// Blocks `current_block` may reach so that a fork proposed or declared
/// then has a fork height that fits in a block number.
pub open spec fn block_fits(current_block: BlockNumber) -> bool {
    current_block + MAX_FORK_PREPARATION + FORK_ACTIVATION_DELAY <= u64::MAX
}

impl ForkDeclaration {
    /// A new proposal: nothing gathered yet; preparation and fork height
    /// are counted from `current_block`.
    pub fn new(
        name: String,
        fork_type: ForkType,
        declared_by: ForkDeclarant,
        current_block: BlockNumber,
        description: String,
    ) -> (f: ForkDeclaration)
        requires
            block_fits(current_block),
        ensures
            f.id.bytes@ == spec_hash_bytes(fork_id_preimage(name@, current_block)),
            f.name == name,
            f.fork_type == fork_type,
            f.declared_by == declared_by,
            f.status == ForkStatus::Proposed,
            f.proposed_at == current_block,
            f.preparation_ends == current_block + spec_min_preparation(fork_type),
            f.fork_height == current_block + spec_min_preparation(fork_type) + FORK_ACTIVATION_DELAY,
            f.description == description,
            f.supporting_validators@ == Seq::<AccountId>::empty(),
            f.supporting_stake == 0,
            f.supporting_sidechains@ == Seq::<ChainId>::empty(),
            f.new_chain_id is None,
    {
        let id = fork_id(&name, current_block);
        let prep = fork_type.min_preparation_period();
        let preparation_ends = current_block + prep;
        ForkDeclaration {
            id,
            name,
            fork_type,
            declared_by,
            status: ForkStatus::Proposed,
            proposed_at: current_block,
            preparation_ends,
            fork_height: preparation_ends + FORK_ACTIVATION_DELAY,
            description,
            supporting_validators: Vec::new(),
            supporting_stake: 0,
            supporting_sidechains: Vec::new(),
            new_chain_id: None,
        }
    }
}

/// Hash of the UTF-8 bytes of `name` followed by `block` in little endian.
pub fn fork_id(name: &String, block: BlockNumber) -> (h: crate::types::Hash)
    ensures
        h.bytes@ == spec_hash_bytes(fork_id_preimage(name@, block)),
{
    let bytes = name.as_str().as_bytes();
    let mut data: Vec<u8> = Vec::new();
    let mut i: usize = 0;
    while i < bytes.len()
        invariant
            i <= bytes@.len(),
            bytes@ == encode_utf8(name@),
            data@ == bytes@.take(i as int),
        decreases bytes@.len() - i,
    {
        data.push(bytes[i]);
        i = i + 1;
        assert(data@ =~= bytes@.take(i as int));
    }
    assert(bytes@.take(i as int) =~= bytes@);
    push_u64_le(&mut data, block);
    crate::types::Hash::hash(data.as_slice())
}

/// A validator as recorded in a fork snapshot.
#[derive(Debug, Clone, Copy)]
pub struct ValidatorSnapshot {
    pub account: AccountId,
    pub stake: Balance,
    pub voting_power: u64,
}

/// State committed to when a fork is prepared.
#[derive(Debug, Clone)]
pub struct ForkSnapshot {
    pub block_number: BlockNumber,
    pub state_root: crate::types::Hash,
    pub validator_set: Vec<ValidatorSnapshot>,
    pub identity_merkle_root: crate::types::Hash,
    pub reputation_merkle_root: crate::types::Hash,
    pub sidechain_registry_root: crate::types::Hash,
    pub total_supply: Balance,
    pub created_at: BlockNumber,
    pub fork_id: crate::types::Hash,
}

/// An identity carried over a fork.
#[derive(Debug, Clone, Copy)]
pub struct IdentitySnapshot {
    pub identity_hash: crate::types::Hash,
    pub owner: AccountId,
    pub status: IdentityStatus,
    pub attestation_count: u32,
}

/// A reputation score carried over a fork.
#[derive(Debug, Clone, Copy)]
pub struct ReputationSnapshot {
    pub chain_id: ChainId,
    pub identity_hash: crate::types::Hash,
    pub domain: ReputationDomain,
    pub score: u32,
}

/// Which side of a fork a sidechain follows.
#[derive(Debug, Clone, Copy, PartialEq, Eq, Structural)]
pub enum ForkAlignment {
    Undecided,
    FollowA,
    FollowB,
    Independent,
}

/// A sidechain's decision for one fork.
#[derive(Debug, Clone, Copy)]
pub struct SidechainAlignment {
    pub chain_id: ChainId,
    pub fork_id: crate::types::Hash,
    pub alignment: ForkAlignment,
    pub decided_at: Option<BlockNumber>,
    pub governance_proposal: Option<crate::types::Hash>,
}

impl SidechainAlignment {
    pub fn undecided(chain_id: ChainId, fork_id: crate::types::Hash) -> (a: SidechainAlignment)
        ensures
            a == (SidechainAlignment {
                chain_id,
                fork_id,
                alignment: ForkAlignment::Undecided,
                decided_at: None,
                governance_proposal: None,
            }),
    {
        SidechainAlignment {
            chain_id,
            fork_id,
            alignment: ForkAlignment::Undecided,
            decided_at: None,
            governance_proposal: None,
        }
    }

    pub fn set_alignment(&mut self, alignment: ForkAlignment, block: BlockNumber, proposal: crate::types::Hash)
        ensures
            *final(self) == (SidechainAlignment {
                alignment,
                decided_at: Some(block),
                governance_proposal: Some(proposal),
                ..*old(self)
            }),
    {
        self.alignment = alignment;
        self.decided_at = Some(block);
        self.governance_proposal = Some(proposal);
    }
}

/// What is carried over to the new chain when a fork executes.
pub struct ForkContinuity {
    pub fork_id: crate::types::Hash,
    pub snapshot_block: BlockNumber,
    pub balance_snapshot: VecMap<AccountId, Balance>,
    pub identity_snapshots: VecMap<crate::types::Hash, IdentitySnapshot>,
    pub reputation_snapshots: VecMap<IdentityChain, ReputationSnapshot>,
    pub sidechain_alignments: VecMap<ChainId, ForkAlignment>,
}

impl ForkContinuity {
    pub open spec fn wf(&self) -> bool {
        &&& self.balance_snapshot.wf()
        &&& self.identity_snapshots.wf()
        &&& self.reputation_snapshots.wf()
        &&& self.sidechain_alignments.wf()
    }

    pub fn new(fork_id: crate::types::Hash, snapshot_block: BlockNumber) -> (c: ForkContinuity)
        ensures
            c.wf(),
            c.fork_id == fork_id,
            c.snapshot_block == snapshot_block,
            c.balance_snapshot@ == Map::<AccountId, Balance>::empty(),
            c.identity_snapshots@ == Map::<crate::types::Hash, IdentitySnapshot>::empty(),
            c.reputation_snapshots@ == Map::<IdentityChain, ReputationSnapshot>::empty(),
            c.sidechain_alignments@ == Map::<ChainId, ForkAlignment>::empty(),
    {
        ForkContinuity {
            fork_id,
            snapshot_block,
            balance_snapshot: VecMap::new(),
            identity_snapshots: VecMap::new(),
            reputation_snapshots: VecMap::new(),
            sidechain_alignments: VecMap::new(),
        }
    }
}

/// The ossification process: after long stability the protocol may be
/// frozen by an overwhelming validator vote.
pub struct OssificationState {
    pub ossification_active: bool,
    pub ossification_proposed: bool,
    pub proposed_at: Option<BlockNumber>,
    pub activated_at: Option<BlockNumber>,
    pub last_parameter_change: BlockNumber,
    pub ossification_votes: VecMap<AccountId, bool>,
    pub approval_power: u64,
    pub rejection_power: u64,
}

/// Ossification may be proposed once OSSIFICATION_INACTIVITY_YEARS years
/// have passed since the last parameter change.
pub open spec fn spec_can_ossify(last_change: BlockNumber, current_block: BlockNumber) -> bool {
    current_block >= last_change && current_block - last_change >= OSSIFICATION_INACTIVITY_YEARS * BLOCKS_PER_YEAR
}

pub open spec fn spec_approval_percent(approval: u64, rejection: u64) -> u8 {
    if approval + rejection == 0 {
        0
    } else {
        ((approval * 100) / (approval + rejection)) as u8
    }
}

impl OssificationState {
    pub fn new() -> (s: OssificationState)
        ensures
            !s.ossification_active,
            !s.ossification_proposed,
            s.proposed_at is None,
            s.activated_at is None,
            s.last_parameter_change == 0,
            s.ossification_votes.wf(),
            s.ossification_votes@ == Map::<AccountId, bool>::empty(),
            s.approval_power == 0,
            s.rejection_power == 0,
    {
        OssificationState {
            ossification_active: false,
            ossification_proposed: false,
            proposed_at: None,
            activated_at: None,
            last_parameter_change: 0,
            ossification_votes: VecMap::new(),
            approval_power: 0,
            rejection_power: 0,
        }
    }

    pub fn can_trigger_ossification(&self, current_block: BlockNumber) -> (b: bool)
        ensures
            b == spec_can_ossify(self.last_parameter_change, current_block),
    {
        current_block >= self.last_parameter_change && current_block - self.last_parameter_change
            >= OSSIFICATION_INACTIVITY_YEARS * BLOCKS_PER_YEAR
    }

    /// Approving share of the power that voted, in percent.
    pub fn approval_percent(&self) -> (p: u8)
        requires
            self.approval_power + self.rejection_power <= u64::MAX,
            self.approval_power * 100 <= u64::MAX,
        ensures
            p == spec_approval_percent(self.approval_power, self.rejection_power),
    {
        let total = self.approval_power + self.rejection_power;
        if total == 0 {
            0
        } else {
            ((self.approval_power * 100) / total) as u8
        }
    }
}


/// Key of the alignment table: one sidechain's decision on one fork.
#[derive(Debug, Clone, Copy, PartialEq, Eq)]
pub struct ForkChain {
    pub fork_id: crate::types::Hash,
    pub chain_id: ChainId,
}

impl MapKey for ForkChain {
    fn key_eq(&self, other: &Self) -> (b: bool) {
        self.fork_id.key_eq(&other.fork_id) && self.chain_id.key_eq(&other.chain_id)
    }
}

#[derive(Debug, Clone)]
pub enum ForkEvent {
    ForkProposed { fork_id: crate::types::Hash, name: String, fork_type: ForkType, proposed_at: BlockNumber },
    ForkDeclared { fork_id: crate::types::Hash, declared_at: BlockNumber, preparation_ends: BlockNumber },
    ValidatorSupport { fork_id: crate::types::Hash, validator: AccountId, power: u64 },
    SidechainAligned { fork_id: crate::types::Hash, chain_id: ChainId, alignment: ForkAlignment },
    SnapshotCreated { fork_id: crate::types::Hash, block_number: BlockNumber, state_root: crate::types::Hash },
    ForkExecuted { fork_id: crate::types::Hash, executed_at: BlockNumber, new_chain_id: ChainId },
    ForkCancelled { fork_id: crate::types::Hash, reason: String },
    OssificationProposed { proposed_at: BlockNumber },
    OssificationVote { voter: AccountId, approve: bool },
    OssificationActivated { activated_at: BlockNumber },
}

#[derive(Debug, Clone, PartialEq, Eq)]
#[allow(inconsistent_fields)]
pub enum ForkError {
    ForkAlreadyExists(crate::types::Hash),
    ForkNotFound(crate::types::Hash),
    TooManyConcurrentForks,
    ForkAlreadyDeclared,
    NotInPreparation,
    ForkNotReady,
    ForkInCooldown { ends_at: BlockNumber },
    InsufficientSupport { have: u8, need: u8 },
    AlreadyVoted,
    NoVotingPower,
    InvalidForkType(String),
    PreparationNotMet,
    SidechainNotFound(ChainId),
    AlignmentDeadlinePassed,
    SnapshotAlreadyExists,
    CannotOssifyDuringEmergency,
    OssificationNotEligible,
    AlreadyOssified,
    InsufficientDeposit { have: Balance, need: Balance },
}

proof fn lemma_power_sum_remove(s: Seq<u64>, i: int)
    requires
        0 <= i < s.len(),
    ensures
        power_sum(s.remove(i)) == power_sum(s) - s[i],
    decreases s.len(),
{
    if i < s.len() - 1 {
        assert(s.remove(i).drop_last() =~= s.drop_last().remove(i));
        assert(s.remove(i).last() == s.last());
        lemma_power_sum_remove(s.drop_last(), i);
    } else {
        assert(s.remove(i) =~= s.drop_last());
    }
}

/// Sum of the values of `m`.
fn sum_values(m: &VecMap<AccountId, u64>) -> (t: u64)
    requires
        m.wf(),
        power_sum(m.val_seq()) <= u64::MAX,
    ensures
        t == power_sum(m.val_seq()),
{
    let ghost vals = m.val_seq();
    proof {
        m.lemma_wf();
    }
    let n = m.len();
    let mut total: u64 = 0;
    let mut i: usize = 0;
    while i < n
        invariant
            m.wf(),
            vals == m.val_seq(),
            n == vals.len(),
            n == m.key_seq().len(),
            power_sum(vals) <= u64::MAX,
            i <= n,
            total == power_sum(vals.take(i as int)),
        decreases n - i,
    {
        proof {
            assert(vals.take(i + 1).drop_last() =~= vals.take(i as int));
            lemma_power_sum_prefix(vals, i + 1);
        }
        total = total + *m.val_at(i);
        i = i + 1;
    }
    proof {
        assert(vals.take(n as int) =~= vals);
    }
    total
}


/// The predicate of proposals still in progress.
pub open spec fn open_fork_pred() -> spec_fn(ForkDeclaration) -> bool {
    |f: ForkDeclaration| is_open_status(f.status)
}

/// `h` is the identifier of a fork named `name` proposed at `block`.
pub open spec fn is_fork_id(h: crate::types::Hash, name: Seq<char>, block: BlockNumber) -> bool {
    h.bytes@ == spec_hash_bytes(fork_id_preimage(name, block))
}

/// The first check `propose_fork` fails, if any, before the identifier is computed.
pub open spec fn propose_precheck(
    open_count: nat,
    last_fork_executed: Option<BlockNumber>,
    deposit: Balance,
    current_block: BlockNumber,
) -> Option<ForkError> {
    if deposit < FORK_PROPOSAL_DEPOSIT {
        Some(ForkError::InsufficientDeposit { have: deposit, need: FORK_PROPOSAL_DEPOSIT })
    } else if open_count >= MAX_CONCURRENT_FORKS {
        Some(ForkError::TooManyConcurrentForks)
    } else if last_fork_executed is Some && current_block < last_fork_executed->0 + FORK_COOLDOWN {
        Some(ForkError::ForkInCooldown { ends_at: (last_fork_executed->0 + FORK_COOLDOWN) as u64 })
    } else {
        None
    }
}

/// Everything but the continuity data and the event log is as in `old`.
pub open spec fn same_but_continuity(c: &ForkContract, old: &ForkContract) -> bool {
    &&& c.proposals == old.proposals
    &&& c.executed_forks == old.executed_forks
    &&& c.snapshots == old.snapshots
    &&& c.alignments == old.alignments
    &&& c.ossification == old.ossification
    &&& c.voting_power == old.voting_power
    &&& c.total_power == old.total_power
    &&& c.total_stake == old.total_stake
    &&& c.last_fork_executed == old.last_fork_executed
    &&& c.events == old.events
}

/// Everything but the proposals and the event log is as in `old`.
pub open spec fn same_but_proposals(c: &ForkContract, old: &ForkContract) -> bool {
    &&& c.executed_forks == old.executed_forks
    &&& c.snapshots == old.snapshots
    &&& c.continuity == old.continuity
    &&& c.alignments == old.alignments
    &&& c.ossification == old.ossification
    &&& c.voting_power == old.voting_power
    &&& c.total_power == old.total_power
    &&& c.total_stake == old.total_stake
    &&& c.last_fork_executed == old.last_fork_executed
}

/// The declaration-level facts that never change after a proposal is made.
pub open spec fn same_proposal(f2: ForkDeclaration, f1: ForkDeclaration) -> bool {
    &&& f2.id == f1.id
    &&& f2.name == f1.name
    &&& f2.fork_type == f1.fork_type
    &&& f2.proposed_at == f1.proposed_at
    &&& f2.description == f1.description
}


pub open spec fn spec_sat_mul32(a: u32, b: u32) -> u32 {
    if a * b <= u32::MAX {
        (a * b) as u32
    } else {
        u32::MAX
    }
}

/// Percentage of `total` validators that `count` supporters make (0 when there are none).
pub open spec fn validator_percent(count: u32, total: u32) -> u32 {
    if total > 0 {
        spec_sat_mul32(count, 100) / total
    } else {
        0
    }
}

/// Percentage of the total stake that `stake` makes, taken modulo 256 as a
/// `u8` (0 when there is no stake).
pub open spec fn stake_percent(stake: Balance, total: Balance) -> u8 {
    if total > 0 {
        (spec_sat_mul(stake, 100) / total) as u8
    } else {
        0
    }
}

/// Sum of the voting power of the accounts in `l`.
pub open spec fn supporters_power(l: Seq<AccountId>, m: Map<AccountId, u64>) -> nat
    decreases l.len(),
{
    if l.len() == 0 {
        0
    } else {
        supporters_power(l.drop_last(), m) + (if m.contains_key(l.last()) {
            m[l.last()] as nat
        } else {
            0nat
        })
    }
}

/// `f2` is `f1` declared at `current_block` by `declarant`.
pub open spec fn declared_now(f2: ForkDeclaration, f1: ForkDeclaration, declarant: ForkDeclarant, current_block: BlockNumber) -> bool {
    &&& f2.status == ForkStatus::Declared
    &&& f2.declared_by == declarant
    &&& f2.preparation_ends == current_block + spec_min_preparation(f1.fork_type)
    &&& f2.fork_height == current_block + spec_min_preparation(f1.fork_type) + FORK_ACTIVATION_DELAY
}

/// `f2` has the declaration status of `f1`.
pub open spec fn same_declaration(f2: ForkDeclaration, f1: ForkDeclaration) -> bool {
    &&& f2.status == f1.status
    &&& f2.declared_by == f1.declared_by
    &&& f2.preparation_ends == f1.preparation_ends
    &&& f2.fork_height == f1.fork_height
}

/// Validator support meets FORK_VALIDATOR_THRESHOLD_PERCENT.
pub open spec fn meets_validator_threshold(supporters: nat, validators: nat) -> bool {
    validator_percent(supporters as u32, validators as u32) >= FORK_VALIDATOR_THRESHOLD_PERCENT
}

/// Stake support meets FORK_STAKE_THRESHOLD_PERCENT.
pub open spec fn meets_stake_threshold(stake: Balance, total_stake: Balance) -> bool {
    stake_percent(stake, total_stake) >= FORK_STAKE_THRESHOLD_PERCENT
}

/// `f2` is `f1` after `supporter` gave its support with `stake_amount`,
/// `power` being the validators' voting power: declared by validators when
/// their share suffices, else by stake when its share suffices, else still
/// proposed.
pub open spec fn after_support(
    f2: ForkDeclaration,
    f1: ForkDeclaration,
    supporter: AccountId,
    stake_amount: Balance,
    power: Map<AccountId, u64>,
    total_stake: Balance,
    current_block: BlockNumber,
) -> bool {
    let supporters = f1.supporting_validators@.push(supporter);
    let stake = f1.supporting_stake + stake_amount;
    let validators = power.dom().len();
    &&& same_proposal(f2, f1)
    &&& f2.supporting_validators@ == supporters
    &&& f2.supporting_stake == stake
    &&& f2.supporting_sidechains == f1.supporting_sidechains
    &&& f2.new_chain_id == f1.new_chain_id
    &&& if meets_validator_threshold(supporters.len(), validators) {
        declared_now(
            f2,
            f1,
            ForkDeclarant::Validators {
                count: supporters.len() as u32,
                total_validators: validators as u32,
                voting_power: supporters_power(supporters, power) as u64,
            },
            current_block,
        )
    } else if meets_stake_threshold(stake as u128, total_stake) {
        declared_now(
            f2,
            f1,
            ForkDeclarant::Stake { amount: stake as u128, total_stake, percent: stake_percent(stake as u128, total_stake) },
            current_block,
        )
    } else {
        same_declaration(f2, f1)
    }
}

/// The first check `support_fork` fails, if any.
pub open spec fn support_error(c: &ForkContract, fork_id: crate::types::Hash, supporter: AccountId) -> Option<ForkError> {
    if !c.voting_power@.contains_key(supporter) {
        Some(ForkError::NoVotingPower)
    } else if !c.proposals@.contains_key(fork_id) {
        Some(ForkError::ForkNotFound(fork_id))
    } else if c.proposals@[fork_id].supporting_validators@.contains(supporter) {
        Some(ForkError::AlreadyVoted)
    } else if c.proposals@[fork_id].status != ForkStatus::Proposed {
        Some(ForkError::ForkAlreadyDeclared)
    } else {
        None
    }
}

fn sat_mul32(a: u32, b: u32) -> (r: u32)
    ensures
        r == spec_sat_mul32(a, b),
{
    assert((a as u64) * (b as u64) <= 0xFFFF_FFFF_0000_0001u64) by (nonlinear_arith);
    let wide: u64 = (a as u64) * (b as u64);
    if wide <= u32::MAX as u64 {
        a * b
    } else {
        u32::MAX
    }
}


/// `list` extended by each of `chains` that it does not hold yet, in order.
pub open spec fn add_chains(list: Seq<ChainId>, chains: Seq<ChainId>) -> Seq<ChainId>
    decreases chains.len(),
{
    if chains.len() == 0 {
        list
    } else {
        let l = add_chains(list, chains.drop_last());
        if l.contains(chains.last()) {
            l
        } else {
            l.push(chains.last())
        }
    }
}

/// The alignment a sidechain gets by default: independence.
pub open spec fn default_alignment(chain_id: ChainId, fork_id: crate::types::Hash, block: BlockNumber) -> SidechainAlignment {
    SidechainAlignment {
        chain_id,
        fork_id,
        alignment: ForkAlignment::Independent,
        decided_at: Some(block),
        governance_proposal: None,
    }
}

/// The alignment record of `chain_id` for `fork_id` before a decision.
pub open spec fn undecided_alignment(chain_id: ChainId, fork_id: crate::types::Hash) -> SidechainAlignment {
    SidechainAlignment {
        chain_id,
        fork_id,
        alignment: ForkAlignment::Undecided,
        decided_at: None,
        governance_proposal: None,
    }
}

/// Everything but the continuity data is as in `old`.
pub open spec fn same_continuity_but(c: ForkContinuity, old: ForkContinuity) -> bool {
    &&& c.fork_id == old.fork_id
    &&& c.snapshot_block == old.snapshot_block
    &&& c.balance_snapshot == old.balance_snapshot
    &&& c.identity_snapshots == old.identity_snapshots
    &&& c.reputation_snapshots == old.reputation_snapshots
}

/// Ossification share of all validator power that approves, in percent
/// (modulo 256 as a `u8`; 0 when there is no power).
pub open spec fn approval_of_total(approval: u64, total_power: u64) -> u8 {
    if total_power > 0 {
        (crate::types::spec_sat_mul64(approval, 100) / total_power) as u8
    } else {
        0
    }
}

/// Approval and rejection power after `voter` (with `power`) votes
/// `approve`, replacing its earlier vote if it had one.
pub open spec fn tally_after_vote(o: OssificationState, voter: AccountId, approve: bool, power: u64) -> (int, int) {
    let a0: int = if o.ossification_votes@.contains_key(voter) && o.ossification_votes@[voter] {
        o.approval_power - power
    } else {
        o.approval_power as int
    };
    let r0: int = if o.ossification_votes@.contains_key(voter) && !o.ossification_votes@[voter] {
        o.rejection_power - power
    } else {
        o.rejection_power as int
    };
    if approve {
        (a0 + power, r0)
    } else {
        (a0, r0 + power)
    }
}

/// The first check `vote_ossification` fails, if any.
pub open spec fn ossification_vote_error(c: &ForkContract, voter: AccountId) -> Option<ForkError> {
    if !c.ossification.ossification_proposed {
        Some(ForkError::OssificationNotEligible)
    } else if c.ossification.ossification_active {
        Some(ForkError::AlreadyOssified)
    } else if !c.voting_power@.contains_key(voter) {
        Some(ForkError::NoVotingPower)
    } else {
        None
    }
}

/// Forking is always possible: with the deposit paid, fewer than
/// MAX_CONCURRENT_FORKS proposals in progress and the cooldown over, no
/// check refuses a proposal (only a proposal of the same name at the same
/// block could already exist).
pub proof fn law_fork_always_possible(
    open_count: nat,
    last_fork_executed: Option<BlockNumber>,
    deposit: Balance,
    current_block: BlockNumber,
)
    requires
        deposit >= FORK_PROPOSAL_DEPOSIT,
        open_count < MAX_CONCURRENT_FORKS,
        last_fork_executed is Some ==> current_block >= last_fork_executed->0 + FORK_COOLDOWN,
    ensures
        propose_precheck(open_count, last_fork_executed, deposit, current_block) is None,
{
}

/// Ossification needs OSSIFICATION_APPROVAL_THRESHOLD percent of all
/// validator power: approving power below 90% of the total never activates it.
pub proof fn law_ossification_needs_ninety_percent(approval: u64, total_power: u64)
    requires
        total_power > 0,
        approval * 100 < total_power * 90,
    ensures
        approval_of_total(approval, total_power) < OSSIFICATION_APPROVAL_THRESHOLD,
{
    let v = crate::types::spec_sat_mul64(approval, 100);
    assert(v < total_power * 90);
    assert(v / total_power < 90) by (nonlinear_arith)
        requires
            v < total_power * 90,
            total_power > 0,
    ;
}

/// Voting power of the accounts in `list`.
fn supporters_power_in(power: &VecMap<AccountId, u64>, list: &Vec<AccountId>) -> (p: u64)
    requires
        power.wf(),
        supporters_power(list@, power@) <= u64::MAX,
    ensures
        p == supporters_power(list@, power@),
{
    let mut acc: u128 = 0;
    let mut i: usize = 0;
    while i < list.len()
        invariant
            power.wf(),
            i <= list.len(),
            acc == supporters_power(list@.take(i as int), power@),
            acc <= i * 0xFFFF_FFFF_FFFF_FFFFu128,
        decreases list.len() - i,
    {
        proof {
            assert(list@.take(i + 1).drop_last() =~= list@.take(i as int));
            assert(list@.take(i + 1).last() == list@[i as int]);
        }
        match power.get(&list[i]) {
            Some(p) => {
                acc = acc + *p as u128;
            },
            None => {},
        }
        i = i + 1;
    }
    proof {
        assert(list@.take(list.len() as int) =~= list@);
    }
    acc as u64
}

/// Fork proposals, their preparation and execution, and ossification.
pub struct ForkContract {
    /// Fork proposals that have not executed.
    pub proposals: VecMap<crate::types::Hash, ForkDeclaration>,
    /// Executed forks, oldest first.
    pub executed_forks: Vec<ForkDeclaration>,
    pub snapshots: VecMap<crate::types::Hash, ForkSnapshot>,
    pub continuity: VecMap<crate::types::Hash, ForkContinuity>,
    pub alignments: VecMap<ForkChain, SidechainAlignment>,
    pub ossification: OssificationState,
    /// Validators with voting power; a validator without power is absent.
    pub voting_power: VecMap<AccountId, u64>,
    pub total_power: u64,
    pub total_stake: Balance,
    pub last_fork_executed: Option<BlockNumber>,
    pub events: Vec<ForkEvent>,
}

impl ForkContract {
    pub open spec fn inv(&self) -> bool {
        &&& self.proposals.wf()
        &&& self.snapshots.wf()
        &&& self.continuity.wf()
        &&& self.alignments.wf()
        &&& self.voting_power.wf()
        &&& self.ossification.ossification_votes.wf()
        &&& self.total_power == power_sum(self.voting_power.val_seq())
        &&& forall|v: AccountId| #[trigger] self.voting_power@.contains_key(v) ==> self.voting_power@[v] > 0
        &&& forall|k: crate::types::Hash| #[trigger] self.continuity@.contains_key(k) ==> self.continuity@[k].wf()
        &&& forall|k: crate::types::Hash| #[trigger] self.proposals@.contains_key(k) ==> {
            &&& self.proposals@[k].supporting_validators@.no_duplicates()
            &&& self.proposals@[k].supporting_sidechains@.no_duplicates()
        }
    }

    /// Voting power of `v` (0 when it has none).
    pub open spec fn power_of(&self, v: AccountId) -> u64 {
        if self.voting_power@.contains_key(v) {
            self.voting_power@[v]
        } else {
            0
        }
    }

    pub open spec fn power_total(&self) -> nat {
        power_sum(self.voting_power.val_seq())
    }

    /// Number of validators with voting power.
    pub open spec fn validator_count(&self) -> nat {
        self.voting_power@.dom().len()
    }

    pub fn new() -> (c: ForkContract)
        ensures
            c.inv(),
            c.proposals@ == Map::<crate::types::Hash, ForkDeclaration>::empty(),
            c.executed_forks@ == Seq::<ForkDeclaration>::empty(),
            c.snapshots@ == Map::<crate::types::Hash, ForkSnapshot>::empty(),
            c.continuity@ == Map::<crate::types::Hash, ForkContinuity>::empty(),
            c.alignments@ == Map::<ForkChain, SidechainAlignment>::empty(),
            !c.ossification.ossification_active,
            !c.ossification.ossification_proposed,
            c.ossification.last_parameter_change == 0,
            c.ossification.ossification_votes@ == Map::<AccountId, bool>::empty(),
            c.ossification.approval_power == 0,
            c.ossification.rejection_power == 0,
            c.voting_power@ == Map::<AccountId, u64>::empty(),
            c.total_power == 0,
            c.total_stake == 0,
            c.last_fork_executed is None,
            c.events@ == Seq::<ForkEvent>::empty(),
    {
        let c = ForkContract {
            proposals: VecMap::new(),
            executed_forks: Vec::new(),
            snapshots: VecMap::new(),
            continuity: VecMap::new(),
            alignments: VecMap::new(),
            ossification: OssificationState::new(),
            voting_power: VecMap::new(),
            total_power: 0,
            total_stake: 0,
            last_fork_executed: None,
            events: Vec::new(),
        };
        proof {
            c.voting_power.lemma_wf();
        }
        c
    }

    /// Sets `validator`'s voting power; power 0 removes the validator.
    pub fn set_voting_power(&mut self, validator: AccountId, power: u64)
        requires
            old(self).inv(),
            old(self).power_total() - old(self).power_of(validator) + power <= u64::MAX,
        ensures
            final(self).inv(),
            final(self).voting_power@ == if power > 0 {
                old(self).voting_power@.insert(validator, power)
            } else {
                old(self).voting_power@.remove(validator)
            },
            final(self).power_total() == old(self).power_total() - old(self).power_of(validator) + power,
            final(self).total_power == final(self).power_total(),
            final(self).proposals == old(self).proposals,
            final(self).executed_forks == old(self).executed_forks,
            final(self).snapshots == old(self).snapshots,
            final(self).continuity == old(self).continuity,
            final(self).alignments == old(self).alignments,
            final(self).ossification == old(self).ossification,
            final(self).total_stake == old(self).total_stake,
            final(self).last_fork_executed == old(self).last_fork_executed,
            final(self).events == old(self).events,
    {
        let ghost before = self.voting_power;
        proof {
            before.lemma_wf();
        }
        if power > 0 {
            self.voting_power.insert(validator, power);
            proof {
                if before@.contains_key(validator) {
                    let i = choose|i: int|
                        0 <= i < before.key_seq().len() && before.key_seq()[i] == validator
                            && self.voting_power.val_seq() == before.val_seq().update(i, power);
                    lemma_power_sum_update(before.val_seq(), i, power);
                } else {
                    assert(before.val_seq().push(power).drop_last() =~= before.val_seq());
                }
            }
        } else {
            self.voting_power.remove(&validator);
            proof {
                if before@.contains_key(validator) {
                    let i = choose|i: int|
                        0 <= i < before.key_seq().len() && before.key_seq()[i] == validator
                            && self.voting_power.val_seq() == before.val_seq().remove(i);
                    lemma_power_sum_remove(before.val_seq(), i);
                }
            }
        }
        self.total_power = sum_values(&self.voting_power);
    }

    /// Number of proposals still in progress.
    pub open spec fn open_count(&self) -> nat {
        self.proposals.val_seq().filter(open_fork_pred()).len()
    }

    fn count_open(&self) -> (n: usize)
        requires
            self.proposals.wf(),
        ensures
            n == self.open_count(),
    {
        let ghost vals = self.proposals.val_seq();
        proof {
            self.proposals.lemma_wf();
        }
        let len = self.proposals.len();
        let mut n: usize = 0;
        let mut i: usize = 0;
        while i < len
            invariant
                self.proposals.wf(),
                vals == self.proposals.val_seq(),
                len == vals.len(),
                len == self.proposals.key_seq().len(),
                i <= len,
                n == vals.take(i as int).filter(open_fork_pred()).len(),
                n <= i,
            decreases len - i,
        {
            proof {
                reveal_with_fuel(Seq::<_>::filter, 1);
                assert(vals.take(i + 1).drop_last() =~= vals.take(i as int));
                assert(vals.take(i + 1).last() == vals[i as int]);
            }
            let st = self.proposals.val_at(i).status;
            if st == ForkStatus::Proposed || st == ForkStatus::Declared || st == ForkStatus::Ready {
                n = n + 1;
            }
            i = i + 1;
        }
        proof {
            assert(vals.take(len as int) =~= vals);
        }
        n
    }

    /// Proposes a fork; the proposer is its first supporter. Refused for a
    /// low deposit, when MAX_CONCURRENT_FORKS proposals are in progress,
    /// within FORK_COOLDOWN of the last execution, or when a fork with the
    /// same name was proposed at the same block.
    pub fn propose_fork(
        &mut self,
        proposer: AccountId,
        name: String,
        fork_type: ForkType,
        description: String,
        deposit: Balance,
        current_block: BlockNumber,
    ) -> (r: Result<crate::types::Hash, ForkError>)
        requires
            old(self).inv(),
            old(self).last_fork_executed is Some ==> old(self).last_fork_executed->0 + FORK_COOLDOWN <= u64::MAX,
            block_fits(current_block),
        ensures
            final(self).inv(),
            same_but_proposals(final(self), old(self)),
            propose_precheck(old(self).open_count(), old(self).last_fork_executed, deposit, current_block) is Some
                ==> r == Err::<crate::types::Hash, ForkError>(
                propose_precheck(old(self).open_count(), old(self).last_fork_executed, deposit, current_block)->0,
            ) && final(self).proposals == old(self).proposals,
            propose_precheck(old(self).open_count(), old(self).last_fork_executed, deposit, current_block) is None
                ==> (r is Ok || r matches Err(ForkError::ForkAlreadyExists(_))),
            match r {
                Ok(id) => {
                    &&& is_fork_id(id, name@, current_block)
                    &&& !old(self).proposals@.contains_key(id)
                    &&& final(self).proposals@ == old(self).proposals@.insert(id, final(self).proposals@[id])
                    &&& final(self).proposals@[id].id == id
                    &&& final(self).proposals@[id].name == name
                    &&& final(self).proposals@[id].fork_type == fork_type
                    &&& final(self).proposals@[id].description == description
                    &&& final(self).proposals@[id].status == ForkStatus::Proposed
                    &&& final(self).proposals@[id].proposed_at == current_block
                    &&& final(self).proposals@[id].preparation_ends == current_block + spec_min_preparation(fork_type)
                    &&& final(self).proposals@[id].fork_height == current_block + spec_min_preparation(fork_type)
                        + FORK_ACTIVATION_DELAY
                    &&& final(self).proposals@[id].declared_by == (ForkDeclarant::Validators {
                        count: 1,
                        total_validators: old(self).validator_count() as u32,
                        voting_power: old(self).power_of(proposer),
                    })
                    &&& final(self).proposals@[id].supporting_validators@ == seq![proposer]
                    &&& final(self).proposals@[id].supporting_stake == 0
                    &&& final(self).proposals@[id].supporting_sidechains@ == Seq::<ChainId>::empty()
                    &&& final(self).proposals@[id].new_chain_id is None
                    &&& final(self).events@ == old(self).events@.push(
                        ForkEvent::ForkProposed { fork_id: id, name, fork_type, proposed_at: current_block },
                    )
                },
                Err(ForkError::ForkAlreadyExists(h)) => {
                    &&& is_fork_id(h, name@, current_block)
                    &&& old(self).proposals@.contains_key(h)
                    &&& final(self).proposals == old(self).proposals
                },
                Err(_) => final(self).proposals == old(self).proposals,
            },
    {
        if deposit < FORK_PROPOSAL_DEPOSIT {
            return Err(ForkError::InsufficientDeposit { have: deposit, need: FORK_PROPOSAL_DEPOSIT });
        }
        let active = self.count_open();
        if active >= MAX_CONCURRENT_FORKS {
            return Err(ForkError::TooManyConcurrentForks);
        }
        if let Some(last) = self.last_fork_executed {
            if current_block < last + FORK_COOLDOWN {
                return Err(ForkError::ForkInCooldown { ends_at: last + FORK_COOLDOWN });
            }
        }
        proof {
            self.voting_power.lemma_wf();
        }
        let n_validators = self.voting_power.len();
        let power = match self.voting_power.get(&proposer) {
            Some(p) => *p,
            None => 0,
        };
        let declarant = ForkDeclarant::Validators { count: 1, total_validators: n_validators as u32, voting_power: power };
        let mut fork = ForkDeclaration::new(name, fork_type, declarant, current_block, description);
        let fork_id = fork.id;
        if self.proposals.contains_key(&fork_id) {
            return Err(ForkError::ForkAlreadyExists(fork_id));
        }
        fork.supporting_validators.push(proposer);
        let event_name = fork.name.clone();
        let event_type = fork.fork_type.copy();
        let ghost before = self.proposals;
        self.proposals.insert(fork_id, fork);
        proof {
            assert(self.proposals@[fork_id].supporting_validators@ =~= seq![proposer]);
            assert(self.proposals@ =~= before@.insert(fork_id, self.proposals@[fork_id]));
        }
        self.events.push(
            ForkEvent::ForkProposed { fork_id, name: event_name, fork_type: event_type, proposed_at: current_block },
        );
        Ok(fork_id)
    }

    /// Adds `supporter`'s support (and `stake_amount` of stake) to a fork
    /// still proposed, then declares the fork when FORK_VALIDATOR_THRESHOLD_PERCENT
    /// of the validators or FORK_STAKE_THRESHOLD_PERCENT of the stake support it.
    pub fn support_fork(
        &mut self,
        fork_id: crate::types::Hash,
        supporter: AccountId,
        stake_amount: Balance,
        current_block: BlockNumber,
    ) -> (r: Result<(), ForkError>)
        requires
            old(self).inv(),
            support_error(old(self), fork_id, supporter) is None ==> {
                &&& old(self).proposals@[fork_id].supporting_stake + stake_amount <= u128::MAX
                &&& meets_validator_threshold(
                    old(self).proposals@[fork_id].supporting_validators@.len() + 1,
                    old(self).validator_count(),
                ) ==> supporters_power(
                    old(self).proposals@[fork_id].supporting_validators@.push(supporter),
                    old(self).voting_power@,
                ) <= u64::MAX
                &&& (meets_validator_threshold(
                    old(self).proposals@[fork_id].supporting_validators@.len() + 1,
                    old(self).validator_count(),
                ) || meets_stake_threshold(
                    (old(self).proposals@[fork_id].supporting_stake + stake_amount) as u128,
                    old(self).total_stake,
                )) ==> block_fits(current_block)
            },
        ensures
            final(self).inv(),
            same_but_proposals(final(self), old(self)),
            support_error(old(self), fork_id, supporter) is Some ==> r == Err::<(), ForkError>(
                support_error(old(self), fork_id, supporter)->0,
            ) && final(self).proposals == old(self).proposals,
            support_error(old(self), fork_id, supporter) is None ==> {
                &&& r is Ok
                &&& final(self).proposals@ == old(self).proposals@.insert(fork_id, final(self).proposals@[fork_id])
                &&& after_support(
                    final(self).proposals@[fork_id],
                    old(self).proposals@[fork_id],
                    supporter,
                    stake_amount,
                    old(self).voting_power@,
                    old(self).total_stake,
                    current_block,
                )
                &&& final(self).events@ == {
                    let logged = old(self).events@.push(
                        ForkEvent::ValidatorSupport { fork_id, validator: supporter, power: old(self).voting_power@[supporter] },
                    );
                    if final(self).proposals@[fork_id].status == ForkStatus::Declared {
                        logged.push(
                            ForkEvent::ForkDeclared {
                                fork_id,
                                declared_at: current_block,
                                preparation_ends: final(self).proposals@[fork_id].preparation_ends,
                            },
                        )
                    } else {
                        logged
                    }
                }
            },
    {
        let power = match self.voting_power.get(&supporter) {
            Some(p) => *p,
            None => {
                return Err(ForkError::NoVotingPower);
            },
        };
        let i = match self.proposals.find(&fork_id) {
            Some(i) => i,
            None => {
                return Err(ForkError::ForkNotFound(fork_id));
            },
        };
        proof {
            self.proposals.lemma_wf();
        }
        if vec_contains(&self.proposals.val_at(i).supporting_validators, &supporter) {
            return Err(ForkError::AlreadyVoted);
        }
        if self.proposals.val_at(i).status != ForkStatus::Proposed {
            return Err(ForkError::ForkAlreadyDeclared);
        }
        let ghost before = self.proposals;
        proof {
            self.voting_power.lemma_wf();
        }
        let total_validators = self.voting_power.len() as u32;
        let total_stake = self.total_stake;
        let fork = self.proposals.val_at_mut(i);
        fork.supporting_validators.push(supporter);
        fork.supporting_stake = fork.supporting_stake + stake_amount;
        let count = fork.supporting_validators.len();
        let stake = fork.supporting_stake;
        let vpct: u32 = if total_validators > 0 {
            sat_mul32(count as u32, 100) / total_validators
        } else {
            0
        };
        let spct: u8 = if total_stake > 0 {
            (sat_mul(stake, 100) / total_stake) as u8
        } else {
            0
        };
        let meets_v = vpct >= FORK_VALIDATOR_THRESHOLD_PERCENT as u32;
        let meets_s = spct >= FORK_STAKE_THRESHOLD_PERCENT;
        if meets_v || meets_s {
            fork.status = ForkStatus::Declared;
            fork.declared_by = if meets_v {
                ForkDeclarant::Validators {
                    count: count as u32,
                    total_validators,
                    voting_power: supporters_power_in(&self.voting_power, &fork.supporting_validators),
                }
            } else {
                ForkDeclarant::Stake { amount: stake, total_stake, percent: spct }
            };
            let prep = fork.fork_type.min_preparation_period();
            fork.preparation_ends = current_block + prep;
            fork.fork_height = fork.preparation_ends + FORK_ACTIVATION_DELAY;
        }
        let prep_ends = fork.preparation_ends;
        proof {
            let nv = self.proposals.val_seq()[i as int];
            VecMap::lemma_update_at(&before, &self.proposals, i as int, nv);
            assert(nv.supporting_validators@.no_duplicates());
        }
        self.events.push(ForkEvent::ValidatorSupport { fork_id, validator: supporter, power });
        if meets_v || meets_s {
            self.events.push(
                ForkEvent::ForkDeclared { fork_id, declared_at: current_block, preparation_ends: prep_ends },
            );
        }
        Ok(())
    }

    /// Adds the sidechains that support a fork still proposed, each once;
    /// with FORK_SIDECHAIN_THRESHOLD of them the fork is declared.
    pub fn declare_fork_from_sidechains(
        &mut self,
        fork_id: crate::types::Hash,
        sidechains: Vec<ChainId>,
        current_block: BlockNumber,
    ) -> (r: Result<(), ForkError>)
        requires
            old(self).inv(),
            old(self).proposals@.contains_key(fork_id) && add_chains(
                old(self).proposals@[fork_id].supporting_sidechains@,
                sidechains@,
            ).len() >= FORK_SIDECHAIN_THRESHOLD ==> block_fits(current_block),
        ensures
            r is Err ==> final(self).events == old(self).events,
            r is Ok ==> final(self).events@ == if final(self).proposals@[fork_id].supporting_sidechains@.len()
                >= FORK_SIDECHAIN_THRESHOLD {
                old(self).events@.push(
                    ForkEvent::ForkDeclared {
                        fork_id,
                        declared_at: current_block,
                        preparation_ends: final(self).proposals@[fork_id].preparation_ends,
                    },
                )
            } else {
                old(self).events@
            },
            final(self).inv(),
            same_but_proposals(final(self), old(self)),
            !old(self).proposals@.contains_key(fork_id) ==> r == Err::<(), ForkError>(ForkError::ForkNotFound(fork_id))
                && final(self).proposals == old(self).proposals,
            old(self).proposals@.contains_key(fork_id) && old(self).proposals@[fork_id].status
                != ForkStatus::Proposed ==> r == Err::<(), ForkError>(ForkError::ForkAlreadyDeclared)
                && final(self).proposals == old(self).proposals,
            old(self).proposals@.contains_key(fork_id) && old(self).proposals@[fork_id].status == ForkStatus::Proposed
                ==> {
                &&& r is Ok
                &&& final(self).proposals@ == old(self).proposals@.insert(fork_id, final(self).proposals@[fork_id])
                &&& same_proposal(final(self).proposals@[fork_id], old(self).proposals@[fork_id])
                &&& final(self).proposals@[fork_id].supporting_validators == old(self).proposals@[fork_id].supporting_validators
                &&& final(self).proposals@[fork_id].supporting_stake == old(self).proposals@[fork_id].supporting_stake
                &&& final(self).proposals@[fork_id].new_chain_id == old(self).proposals@[fork_id].new_chain_id
                &&& final(self).proposals@[fork_id].supporting_sidechains@ == add_chains(
                    old(self).proposals@[fork_id].supporting_sidechains@,
                    sidechains@,
                )
                &&& if final(self).proposals@[fork_id].supporting_sidechains@.len() >= FORK_SIDECHAIN_THRESHOLD {
                    &&& final(self).proposals@[fork_id].status == ForkStatus::Declared
                    &&& final(self).proposals@[fork_id].declared_by matches ForkDeclarant::Sidechains { chains }
                        && chains@ == final(self).proposals@[fork_id].supporting_sidechains@
                    &&& final(self).proposals@[fork_id].preparation_ends == current_block + spec_min_preparation(
                        old(self).proposals@[fork_id].fork_type,
                    )
                    &&& final(self).proposals@[fork_id].fork_height == current_block + spec_min_preparation(
                        old(self).proposals@[fork_id].fork_type,
                    ) + FORK_ACTIVATION_DELAY
                } else {
                    same_declaration(final(self).proposals@[fork_id], old(self).proposals@[fork_id])
                }
            },
    {
        let i = match self.proposals.find(&fork_id) {
            Some(i) => i,
            None => {
                return Err(ForkError::ForkNotFound(fork_id));
            },
        };
        proof {
            self.proposals.lemma_wf();
        }
        if self.proposals.val_at(i).status != ForkStatus::Proposed {
            return Err(ForkError::ForkAlreadyDeclared);
        }
        let ghost before = self.proposals;
        let ghost start = self.proposals@[fork_id].supporting_sidechains@;
        let mut list = vec_copy(&self.proposals.val_at(i).supporting_sidechains);
        let mut k: usize = 0;
        while k < sidechains.len()
            invariant
                k <= sidechains.len(),
                list@ == add_chains(start, sidechains@.take(k as int)),
                list@.no_duplicates(),
            decreases sidechains.len() - k,
        {
            proof {
                assert(sidechains@.take(k + 1).drop_last() =~= sidechains@.take(k as int));
                assert(sidechains@.take(k + 1).last() == sidechains@[k as int]);
            }
            if !vec_contains(&list, &sidechains[k]) {
                list.push(sidechains[k]);
            }
            k = k + 1;
        }
        proof {
            assert(sidechains@.take(sidechains.len() as int) =~= sidechains@);
        }
        let declared = list.len() >= FORK_SIDECHAIN_THRESHOLD;
        let chains = if declared {
            vec_copy(&list)
        } else {
            Vec::new()
        };
        let fork = self.proposals.val_at_mut(i);
        fork.supporting_sidechains = list;
        if declared {
            fork.status = ForkStatus::Declared;
            fork.declared_by = ForkDeclarant::Sidechains { chains };
            let prep = fork.fork_type.min_preparation_period();
            fork.preparation_ends = current_block + prep;
            fork.fork_height = fork.preparation_ends + FORK_ACTIVATION_DELAY;
        }
        let prep_ends = fork.preparation_ends;
        proof {
            let nv = self.proposals.val_seq()[i as int];
            VecMap::lemma_update_at(&before, &self.proposals, i as int, nv);
        }
        if declared {
            self.events.push(
                ForkEvent::ForkDeclared { fork_id, declared_at: current_block, preparation_ends: prep_ends },
            );
        }
        Ok(())
    }

    /// Takes the snapshot of a declared fork, once, and starts its continuity data.
    pub fn create_snapshot(
        &mut self,
        fork_id: crate::types::Hash,
        state_root: crate::types::Hash,
        validators: Vec<ValidatorSnapshot>,
        identity_root: crate::types::Hash,
        reputation_root: crate::types::Hash,
        sidechain_root: crate::types::Hash,
        total_supply: Balance,
        current_block: BlockNumber,
    ) -> (r: Result<(), ForkError>)
        requires
            old(self).inv(),
        ensures
            r is Err ==> final(self).events == old(self).events,
            r is Ok ==> final(self).events@ == old(self).events@.push(
                ForkEvent::SnapshotCreated { fork_id, block_number: current_block, state_root },
            ),
            final(self).inv(),
            final(self).proposals == old(self).proposals,
            final(self).executed_forks == old(self).executed_forks,
            final(self).alignments == old(self).alignments,
            final(self).ossification == old(self).ossification,
            final(self).voting_power == old(self).voting_power,
            final(self).total_power == old(self).total_power,
            final(self).total_stake == old(self).total_stake,
            final(self).last_fork_executed == old(self).last_fork_executed,
            !old(self).proposals@.contains_key(fork_id) ==> r == Err::<(), ForkError>(ForkError::ForkNotFound(fork_id)),
            old(self).proposals@.contains_key(fork_id) && old(self).proposals@[fork_id].status != ForkStatus::Declared
                ==> r == Err::<(), ForkError>(ForkError::NotInPreparation),
            old(self).proposals@.contains_key(fork_id) && old(self).proposals@[fork_id].status == ForkStatus::Declared
                && old(self).snapshots@.contains_key(fork_id) ==> r == Err::<(), ForkError>(
                ForkError::SnapshotAlreadyExists,
            ),
            r is Err ==> final(self).snapshots == old(self).snapshots && final(self).continuity == old(self).continuity,
            r is Ok <==> old(self).proposals@.contains_key(fork_id) && old(self).proposals@[fork_id].status
                == ForkStatus::Declared && !old(self).snapshots@.contains_key(fork_id),
            r is Ok ==> {
                &&& final(self).snapshots@ == old(self).snapshots@.insert(fork_id, final(self).snapshots@[fork_id])
                &&& final(self).snapshots@[fork_id].block_number == current_block
                &&& final(self).snapshots@[fork_id].state_root == state_root
                &&& final(self).snapshots@[fork_id].validator_set@ == validators@
                &&& final(self).snapshots@[fork_id].identity_merkle_root == identity_root
                &&& final(self).snapshots@[fork_id].reputation_merkle_root == reputation_root
                &&& final(self).snapshots@[fork_id].sidechain_registry_root == sidechain_root
                &&& final(self).snapshots@[fork_id].total_supply == total_supply
                &&& final(self).snapshots@[fork_id].created_at == current_block
                &&& final(self).snapshots@[fork_id].fork_id == fork_id
                &&& final(self).continuity@ == old(self).continuity@.insert(fork_id, final(self).continuity@[fork_id])
                &&& final(self).continuity@[fork_id].fork_id == fork_id
                &&& final(self).continuity@[fork_id].snapshot_block == current_block
                &&& final(self).continuity@[fork_id].balance_snapshot@ == Map::<AccountId, Balance>::empty()
                &&& final(self).continuity@[fork_id].identity_snapshots@ == Map::<
                    crate::types::Hash,
                    IdentitySnapshot,
                >::empty()
                &&& final(self).continuity@[fork_id].reputation_snapshots@ == Map::<
                    IdentityChain,
                    ReputationSnapshot,
                >::empty()
                &&& final(self).continuity@[fork_id].sidechain_alignments@ == Map::<ChainId, ForkAlignment>::empty()
            },
    {
        match self.proposals.get(&fork_id) {
            Some(f) => {
                if f.status != ForkStatus::Declared {
                    return Err(ForkError::NotInPreparation);
                }
            },
            None => {
                return Err(ForkError::ForkNotFound(fork_id));
            },
        }
        if self.snapshots.contains_key(&fork_id) {
            return Err(ForkError::SnapshotAlreadyExists);
        }
        let snapshot = ForkSnapshot {
            block_number: current_block,
            state_root,
            validator_set: validators,
            identity_merkle_root: identity_root,
            reputation_merkle_root: reputation_root,
            sidechain_registry_root: sidechain_root,
            total_supply,
            created_at: current_block,
            fork_id,
        };
        self.snapshots.insert(fork_id, snapshot);
        self.continuity.insert(fork_id, ForkContinuity::new(fork_id, current_block));
        self.events.push(ForkEvent::SnapshotCreated { fork_id, block_number: current_block, state_root });
        Ok(())
    }

    /// Position of the continuity data of `fork_id`, or the error for a
    /// fork without one.
    fn continuity_index(&self, fork_id: &crate::types::Hash) -> (r: Result<usize, ForkError>)
        requires
            self.continuity.wf(),
        ensures
            match r {
                Ok(i) => i < self.continuity.key_seq().len() && self.continuity.key_seq()[i as int] == *fork_id
                    && self.continuity@.contains_key(*fork_id),
                Err(e) => e == ForkError::ForkNotFound(*fork_id) && !self.continuity@.contains_key(*fork_id),
            },
    {
        proof {
            self.continuity.lemma_wf();
        }
        match self.continuity.find(fork_id) {
            Some(i) => Ok(i),
            None => Err(ForkError::ForkNotFound(*fork_id)),
        }
    }

    /// Records `account`'s balance in the continuity data of `fork_id`.
    pub fn add_balance_to_snapshot(&mut self, fork_id: crate::types::Hash, account: AccountId, balance: Balance) -> (r:
        Result<(), ForkError>)
        requires
            old(self).inv(),
        ensures
            final(self).inv(),
            same_but_continuity(final(self), old(self)),
            r is Ok <==> old(self).continuity@.contains_key(fork_id),
            r is Err ==> r == Err::<(), ForkError>(ForkError::ForkNotFound(fork_id)) && final(self).continuity == old(self).continuity,
            r is Ok ==> {
                &&& final(self).continuity@ == old(self).continuity@.insert(fork_id, final(self).continuity@[fork_id])
                &&& final(self).continuity@[fork_id].balance_snapshot@ == old(self).continuity@[fork_id].balance_snapshot@.insert(account, balance)
                &&& final(self).continuity@[fork_id].fork_id == old(self).continuity@[fork_id].fork_id
                &&& final(self).continuity@[fork_id].snapshot_block == old(self).continuity@[fork_id].snapshot_block
                &&& final(self).continuity@[fork_id].identity_snapshots == old(self).continuity@[fork_id].identity_snapshots
                &&& final(self).continuity@[fork_id].reputation_snapshots == old(self).continuity@[fork_id].reputation_snapshots
                &&& final(self).continuity@[fork_id].sidechain_alignments == old(self).continuity@[fork_id].sidechain_alignments
            },
    {
        let i = self.continuity_index(&fork_id)?;
        let ghost before = self.continuity;
        proof {
            before.lemma_wf();
        }
        let c = self.continuity.val_at_mut(i);
        c.balance_snapshot.insert(account, balance);
        proof {
            let nv = self.continuity.val_seq()[i as int];
            VecMap::lemma_update_at(&before, &self.continuity, i as int, nv);
        }
        Ok(())
    }

    /// Records an identity in the continuity data of `fork_id`, keyed by its hash.
    pub fn add_identity_to_snapshot(&mut self, fork_id: crate::types::Hash, identity: IdentitySnapshot) -> (r: Result<
        (),
        ForkError,
    >)
        requires
            old(self).inv(),
        ensures
            final(self).inv(),
            same_but_continuity(final(self), old(self)),
            r is Ok <==> old(self).continuity@.contains_key(fork_id),
            r is Err ==> r == Err::<(), ForkError>(ForkError::ForkNotFound(fork_id)) && final(self).continuity == old(self).continuity,
            r is Ok ==> {
                &&& final(self).continuity@ == old(self).continuity@.insert(fork_id, final(self).continuity@[fork_id])
                &&& final(self).continuity@[fork_id].identity_snapshots@ == old(self).continuity@[fork_id].identity_snapshots@.insert(identity.identity_hash, identity)
                &&& final(self).continuity@[fork_id].fork_id == old(self).continuity@[fork_id].fork_id
                &&& final(self).continuity@[fork_id].snapshot_block == old(self).continuity@[fork_id].snapshot_block
                &&& final(self).continuity@[fork_id].balance_snapshot == old(self).continuity@[fork_id].balance_snapshot
                &&& final(self).continuity@[fork_id].reputation_snapshots == old(self).continuity@[fork_id].reputation_snapshots
                &&& final(self).continuity@[fork_id].sidechain_alignments == old(self).continuity@[fork_id].sidechain_alignments
            },
    {
        let i = self.continuity_index(&fork_id)?;
        let ghost before = self.continuity;
        proof {
            before.lemma_wf();
        }
        let c = self.continuity.val_at_mut(i);
        c.identity_snapshots.insert(identity.identity_hash, identity);
        proof {
            let nv = self.continuity.val_seq()[i as int];
            VecMap::lemma_update_at(&before, &self.continuity, i as int, nv);
        }
        Ok(())
    }

    /// Records a reputation score in the continuity data of `fork_id`,
    /// keyed by chain and identity.
    pub fn add_reputation_to_snapshot(&mut self, fork_id: crate::types::Hash, reputation: ReputationSnapshot) -> (r:
        Result<(), ForkError>)
        requires
            old(self).inv(),
        ensures
            final(self).inv(),
            same_but_continuity(final(self), old(self)),
            r is Ok <==> old(self).continuity@.contains_key(fork_id),
            r is Err ==> r == Err::<(), ForkError>(ForkError::ForkNotFound(fork_id)) && final(self).continuity == old(self).continuity,
            r is Ok ==> {
                &&& final(self).continuity@ == old(self).continuity@.insert(fork_id, final(self).continuity@[fork_id])
                &&& final(self).continuity@[fork_id].reputation_snapshots@ == old(self).continuity@[fork_id].reputation_snapshots@.insert(
                    IdentityChain { identity: reputation.identity_hash, chain: reputation.chain_id },
                    reputation,
                )
                &&& final(self).continuity@[fork_id].fork_id == old(self).continuity@[fork_id].fork_id
                &&& final(self).continuity@[fork_id].snapshot_block == old(self).continuity@[fork_id].snapshot_block
                &&& final(self).continuity@[fork_id].balance_snapshot == old(self).continuity@[fork_id].balance_snapshot
                &&& final(self).continuity@[fork_id].identity_snapshots == old(self).continuity@[fork_id].identity_snapshots
                &&& final(self).continuity@[fork_id].sidechain_alignments == old(self).continuity@[fork_id].sidechain_alignments
            },
    {
        let i = self.continuity_index(&fork_id)?;
        let ghost before = self.continuity;
        proof {
            before.lemma_wf();
        }
        let c = self.continuity.val_at_mut(i);
        c.reputation_snapshots.insert(IdentityChain { identity: reputation.identity_hash, chain: reputation.chain_id }, reputation);
        proof {
            let nv = self.continuity.val_seq()[i as int];
            VecMap::lemma_update_at(&before, &self.continuity, i as int, nv);
        }
        Ok(())
    }

    /// Records `chain_id`'s alignment for a fork, up to
    /// SIDECHAIN_ALIGNMENT_DEADLINE blocks before the fork height, and in
    /// the fork's continuity data when it has one.
    pub fn set_sidechain_alignment(
        &mut self,
        fork_id: crate::types::Hash,
        chain_id: ChainId,
        alignment: ForkAlignment,
        proposal_id: crate::types::Hash,
        current_block: BlockNumber,
    ) -> (r: Result<(), ForkError>)
        requires
            old(self).inv(),
        ensures
            r is Err ==> final(self).events == old(self).events,
            r is Ok ==> final(self).events@ == old(self).events@.push(
                ForkEvent::SidechainAligned { fork_id, chain_id, alignment },
            ),
            final(self).inv(),
            final(self).proposals == old(self).proposals,
            final(self).executed_forks == old(self).executed_forks,
            final(self).snapshots == old(self).snapshots,
            final(self).ossification == old(self).ossification,
            final(self).voting_power == old(self).voting_power,
            final(self).total_power == old(self).total_power,
            final(self).total_stake == old(self).total_stake,
            final(self).last_fork_executed == old(self).last_fork_executed,
            !old(self).proposals@.contains_key(fork_id) ==> r == Err::<(), ForkError>(ForkError::ForkNotFound(fork_id)),
            old(self).proposals@.contains_key(fork_id) && current_block > (if old(self).proposals@[fork_id].fork_height
                >= SIDECHAIN_ALIGNMENT_DEADLINE {
                old(self).proposals@[fork_id].fork_height - SIDECHAIN_ALIGNMENT_DEADLINE
            } else {
                0
            }) ==> r == Err::<(), ForkError>(ForkError::AlignmentDeadlinePassed),
            r is Err ==> final(self).alignments == old(self).alignments && final(self).continuity == old(self).continuity,
            r is Ok ==> {
                &&& old(self).proposals@.contains_key(fork_id)
                &&& final(self).alignments@ == old(self).alignments@.insert(
                    ForkChain { fork_id, chain_id },
                    (SidechainAlignment {
                        alignment,
                        decided_at: Some(current_block),
                        governance_proposal: Some(proposal_id),
                        ..(if old(self).alignments@.contains_key(ForkChain { fork_id, chain_id }) {
                            old(self).alignments@[ForkChain { fork_id, chain_id }]
                        } else {
                            undecided_alignment(chain_id, fork_id)
                        })
                    }),
                )
                &&& old(self).continuity@.contains_key(fork_id) ==> {
                    &&& final(self).continuity@ == old(self).continuity@.insert(fork_id, final(self).continuity@[fork_id])
                    &&& final(self).continuity@[fork_id].sidechain_alignments@ == old(self).continuity@[fork_id].sidechain_alignments@.insert(chain_id, alignment)
                    &&& same_continuity_but(final(self).continuity@[fork_id], old(self).continuity@[fork_id])
                }
                &&& !old(self).continuity@.contains_key(fork_id) ==> final(self).continuity == old(self).continuity
            },
            r is Ok <==> old(self).proposals@.contains_key(fork_id) && current_block <= (if old(self).proposals@[fork_id].fork_height
                >= SIDECHAIN_ALIGNMENT_DEADLINE {
                old(self).proposals@[fork_id].fork_height - SIDECHAIN_ALIGNMENT_DEADLINE
            } else {
                0
            }),
    {
        let fork_height = match self.proposals.get(&fork_id) {
            Some(f) => f.fork_height,
            None => {
                return Err(ForkError::ForkNotFound(fork_id));
            },
        };
        if current_block > fork_height.saturating_sub(SIDECHAIN_ALIGNMENT_DEADLINE) {
            return Err(ForkError::AlignmentDeadlinePassed);
        }
        let key = ForkChain { fork_id, chain_id };
        let mut record = match self.alignments.get(&key) {
            Some(a) => *a,
            None => SidechainAlignment::undecided(chain_id, fork_id),
        };
        record.set_alignment(alignment, current_block, proposal_id);
        self.alignments.insert(key, record);
        proof {
            self.continuity.lemma_wf();
        }
        match self.continuity.find(&fork_id) {
            Some(i) => {
                let ghost before = self.continuity;
                let c = self.continuity.val_at_mut(i);
                c.sidechain_alignments.insert(chain_id, alignment);
                proof {
                    let nv = self.continuity.val_seq()[i as int];
                    VecMap::lemma_update_at(&before, &self.continuity, i as int, nv);
                }
            },
            None => {},
        }
        self.events.push(ForkEvent::SidechainAligned { fork_id, chain_id, alignment });
        Ok(())
    }

    /// The alignment `chain_id` chose for a fork (undecided when none is recorded).
    pub fn get_alignment(&self, fork_id: crate::types::Hash, chain_id: ChainId) -> (a: ForkAlignment)
        requires
            self.inv(),
        ensures
            a == if self.alignments@.contains_key(ForkChain { fork_id, chain_id }) {
                self.alignments@[ForkChain { fork_id, chain_id }].alignment
            } else {
                ForkAlignment::Undecided
            },
    {
        match self.alignments.get(&ForkChain { fork_id, chain_id }) {
            Some(a) => a.alignment,
            None => ForkAlignment::Undecided,
        }
    }

    /// Gives each of `sidechains` without a recorded alignment for the fork
    /// the default one, independence, also in the fork's continuity data.
    pub fn apply_default_alignments(
        &mut self,
        fork_id: crate::types::Hash,
        sidechains: Vec<ChainId>,
        current_block: BlockNumber,
    ) -> (r: Result<(), ForkError>)
        requires
            old(self).inv(),
        ensures
            r is Ok,
            final(self).inv(),
            final(self).proposals == old(self).proposals,
            final(self).executed_forks == old(self).executed_forks,
            final(self).snapshots == old(self).snapshots,
            final(self).ossification == old(self).ossification,
            final(self).voting_power == old(self).voting_power,
            final(self).total_power == old(self).total_power,
            final(self).total_stake == old(self).total_stake,
            final(self).last_fork_executed == old(self).last_fork_executed,
            final(self).events == old(self).events,
            forall|k: ForkChain| #[trigger]
                final(self).alignments@.contains_key(k) <==> old(self).alignments@.contains_key(k) || (k.fork_id
                    == fork_id && sidechains@.contains(k.chain_id)),
            forall|k: ForkChain| #[trigger]
                old(self).alignments@.contains_key(k) ==> final(self).alignments@[k] == old(self).alignments@[k],
            forall|k: ForkChain|
                !old(self).alignments@.contains_key(k) && k.fork_id == fork_id && sidechains@.contains(k.chain_id)
                    ==> #[trigger] final(self).alignments@[k] == default_alignment(k.chain_id, fork_id, current_block),
            final(self).continuity@.dom() == old(self).continuity@.dom(),
            forall|f: crate::types::Hash| #[trigger]
                final(self).continuity@.contains_key(f) && f != fork_id ==> final(self).continuity@[f] == old(self).continuity@[f],
            old(self).continuity@.contains_key(fork_id) ==> {
                &&& same_continuity_but(final(self).continuity@[fork_id], old(self).continuity@[fork_id])
                &&& forall|c: ChainId| #[trigger]
                    final(self).continuity@[fork_id].sidechain_alignments@.contains_key(c) <==> old(self).continuity@[fork_id].sidechain_alignments@.contains_key(c) || (sidechains@.contains(c)
                        && !old(self).alignments@.contains_key(ForkChain { fork_id, chain_id: c }))
                &&& forall|c: ChainId| #[trigger]
                    final(self).continuity@[fork_id].sidechain_alignments@.contains_key(c) ==> final(self).continuity@[fork_id].sidechain_alignments@[c] == if sidechains@.contains(c) && !old(self).alignments@.contains_key(ForkChain { fork_id, chain_id: c }) {
                        ForkAlignment::Independent
                    } else {
                        old(self).continuity@[fork_id].sidechain_alignments@[c]
                    }
            },
    {
        let ghost start = *self;
        proof {
            self.continuity.lemma_wf();
        }
        let ci = self.continuity.find(&fork_id);
        let mut k: usize = 0;
        while k < sidechains.len()
            invariant
                k <= sidechains.len(),
                self.inv(),
                match ci {
                    Some(i) => i < self.continuity.key_seq().len() && self.continuity.key_seq()[i as int] == fork_id,
                    None => !start.continuity@.contains_key(fork_id),
                },
                start.continuity.wf(),
                self.proposals == start.proposals,
                self.executed_forks == start.executed_forks,
                self.snapshots == start.snapshots,
                self.ossification == start.ossification,
                self.voting_power == start.voting_power,
                self.total_power == start.total_power,
                self.total_stake == start.total_stake,
                self.last_fork_executed == start.last_fork_executed,
                self.events == start.events,
                self.continuity.key_seq() == start.continuity.key_seq(),
                forall|kk: ForkChain| #[trigger]
                    self.alignments@.contains_key(kk) <==> start.alignments@.contains_key(kk) || (kk.fork_id
                        == fork_id && sidechains@.take(k as int).contains(kk.chain_id)),
                forall|kk: ForkChain| #[trigger]
                    start.alignments@.contains_key(kk) ==> self.alignments@[kk] == start.alignments@[kk],
                forall|kk: ForkChain|
                    !start.alignments@.contains_key(kk) && kk.fork_id == fork_id && sidechains@.take(k as int).contains(
                        kk.chain_id,
                    ) ==> #[trigger] self.alignments@[kk] == default_alignment(kk.chain_id, fork_id, current_block),
                forall|f: crate::types::Hash| #[trigger]
                    self.continuity@.contains_key(f) && f != fork_id ==> self.continuity@[f] == start.continuity@[f],
                start.continuity@.contains_key(fork_id) ==> {
                    &&& same_continuity_but(self.continuity@[fork_id], start.continuity@[fork_id])
                    &&& forall|c: ChainId| #[trigger]
                        self.continuity@[fork_id].sidechain_alignments@.contains_key(c) <==> start.continuity@[fork_id].sidechain_alignments@.contains_key(
                            c,
                        ) || (sidechains@.take(k as int).contains(c) && !start.alignments@.contains_key(
                            ForkChain { fork_id, chain_id: c },
                        ))
                    &&& forall|c: ChainId| #[trigger]
                        self.continuity@[fork_id].sidechain_alignments@.contains_key(c) ==> self.continuity@[fork_id].sidechain_alignments@[c]
                            == if sidechains@.take(k as int).contains(c) && !start.alignments@.contains_key(
                            ForkChain { fork_id, chain_id: c },
                        ) {
                            ForkAlignment::Independent
                        } else {
                            start.continuity@[fork_id].sidechain_alignments@[c]
                        }
                },
            decreases sidechains.len() - k,
        {
            let chain_id = sidechains[k];
            let key = ForkChain { fork_id, chain_id };
            proof {
                let t1 = sidechains@.take(k + 1);
                let t0 = sidechains@.take(k as int);
                assert forall|c: ChainId| t1.contains(c) <==> t0.contains(c) || c == chain_id by {
                    if t1.contains(c) {
                        let j = choose|j: int| 0 <= j < t1.len() && t1[j] == c;
                        if j < k {
                            assert(t0[j] == c);
                        }
                    }
                    if t0.contains(c) {
                        let j = choose|j: int| 0 <= j < t0.len() && t0[j] == c;
                        assert(t1[j] == c);
                    }
                    if c == chain_id {
                        assert(t1[k as int] == c);
                    }
                }
            }
            if !self.alignments.contains_key(&key) {
                let mut record = SidechainAlignment::undecided(chain_id, fork_id);
                record.alignment = ForkAlignment::Independent;
                record.decided_at = Some(current_block);
                self.alignments.insert(key, record);
                match ci {
                    Some(i) => {
                        let ghost before = self.continuity;
                        proof {
                            before.lemma_wf();
                            assert(before@.contains_key(fork_id));
                            assert(before@[fork_id].wf());
                        }
                        let c = self.continuity.val_at_mut(i);
                        c.sidechain_alignments.insert(chain_id, ForkAlignment::Independent);
                        proof {
                            let nv = self.continuity.val_seq()[i as int];
                            VecMap::lemma_update_at(&before, &self.continuity, i as int, nv);
                            assert(self.continuity@ == before@.insert(fork_id, nv));
                            assert(nv.wf());
                            assert forall|f: crate::types::Hash| #[trigger] self.continuity@.contains_key(f)
                                implies self.continuity@[f].wf() by {
                                if f != fork_id {
                                    assert(before@.contains_key(f));
                                }
                            }
                        }
                    },
                    None => {},
                }
            }
            k = k + 1;
        }
        proof {
            assert(sidechains@.take(sidechains.len() as int) =~= sidechains@);
            self.continuity.lemma_wf();
            start.continuity.lemma_wf();
            assert(self.continuity@.dom() =~= start.continuity@.dom());
        }
        Ok(())
    }

    /// A declared fork whose preparation has ended becomes ready to execute.
    pub fn mark_ready(&mut self, fork_id: crate::types::Hash, current_block: BlockNumber) -> (r: Result<(), ForkError>)
        requires
            old(self).inv(),
        ensures
            final(self).inv(),
            same_but_proposals(final(self), old(self)),
            final(self).events == old(self).events,
            !old(self).proposals@.contains_key(fork_id) ==> r == Err::<(), ForkError>(ForkError::ForkNotFound(fork_id)),
            old(self).proposals@.contains_key(fork_id) && old(self).proposals@[fork_id].status != ForkStatus::Declared
                ==> r == Err::<(), ForkError>(ForkError::NotInPreparation),
            old(self).proposals@.contains_key(fork_id) && old(self).proposals@[fork_id].status == ForkStatus::Declared
                && current_block < old(self).proposals@[fork_id].preparation_ends ==> r == Err::<(), ForkError>(
                ForkError::PreparationNotMet,
            ),
            r is Err ==> final(self).proposals == old(self).proposals,
            r is Ok <==> old(self).proposals@.contains_key(fork_id) && old(self).proposals@[fork_id].status
                == ForkStatus::Declared && current_block >= old(self).proposals@[fork_id].preparation_ends,
            r is Ok ==> final(self).proposals@ == old(self).proposals@.insert(
                fork_id,
                (ForkDeclaration { status: ForkStatus::Ready, ..old(self).proposals@[fork_id] }),
            ),
    {
        let i = match self.proposals.find(&fork_id) {
            Some(i) => i,
            None => {
                return Err(ForkError::ForkNotFound(fork_id));
            },
        };
        proof {
            self.proposals.lemma_wf();
        }
        if self.proposals.val_at(i).status != ForkStatus::Declared {
            return Err(ForkError::NotInPreparation);
        }
        if current_block < self.proposals.val_at(i).preparation_ends {
            return Err(ForkError::PreparationNotMet);
        }
        let ghost before = self.proposals;
        let fork = self.proposals.val_at_mut(i);
        fork.status = ForkStatus::Ready;
        proof {
            let nv = self.proposals.val_seq()[i as int];
            VecMap::lemma_update_at(&before, &self.proposals, i as int, nv);
        }
        Ok(())
    }

    /// Executes a ready fork at or after its fork height: it leaves the
    /// proposals for the history, with the new chain's identifier.
    pub fn execute_fork(&mut self, fork_id: crate::types::Hash, new_chain_id: ChainId, current_block: BlockNumber) -> (r:
        Result<(), ForkError>)
        requires
            old(self).inv(),
        ensures
            r is Err ==> final(self).events == old(self).events,
            r is Ok ==> final(self).events@ == old(self).events@.push(
                ForkEvent::ForkExecuted { fork_id, executed_at: current_block, new_chain_id },
            ),
            final(self).inv(),
            final(self).snapshots == old(self).snapshots,
            final(self).continuity == old(self).continuity,
            final(self).alignments == old(self).alignments,
            final(self).ossification == old(self).ossification,
            final(self).voting_power == old(self).voting_power,
            final(self).total_power == old(self).total_power,
            final(self).total_stake == old(self).total_stake,
            !old(self).proposals@.contains_key(fork_id) ==> r == Err::<(), ForkError>(ForkError::ForkNotFound(fork_id)),
            old(self).proposals@.contains_key(fork_id) && old(self).proposals@[fork_id].status != ForkStatus::Ready
                ==> r == Err::<(), ForkError>(ForkError::ForkNotReady),
            old(self).proposals@.contains_key(fork_id) && old(self).proposals@[fork_id].status == ForkStatus::Ready
                && current_block < old(self).proposals@[fork_id].fork_height ==> r == Err::<(), ForkError>(
                ForkError::PreparationNotMet,
            ),
            r is Err ==> final(self).proposals == old(self).proposals && final(self).executed_forks == old(self).executed_forks && final(self).last_fork_executed == old(self).last_fork_executed,
            r is Ok <==> old(self).proposals@.contains_key(fork_id) && old(self).proposals@[fork_id].status
                == ForkStatus::Ready && current_block >= old(self).proposals@[fork_id].fork_height,
            r is Ok ==> {
                &&& final(self).proposals@ == old(self).proposals@.remove(fork_id)
                &&& final(self).executed_forks@ == old(self).executed_forks@.push(
                    (ForkDeclaration {
                        status: ForkStatus::Executed,
                        new_chain_id: Some(new_chain_id),
                        ..old(self).proposals@[fork_id]
                    }),
                )
                &&& final(self).last_fork_executed == Some(current_block)
            },
    {
        let i = match self.proposals.find(&fork_id) {
            Some(i) => i,
            None => {
                return Err(ForkError::ForkNotFound(fork_id));
            },
        };
        proof {
            self.proposals.lemma_wf();
        }
        if self.proposals.val_at(i).status != ForkStatus::Ready {
            return Err(ForkError::ForkNotReady);
        }
        if current_block < self.proposals.val_at(i).fork_height {
            return Err(ForkError::PreparationNotMet);
        }
        let ghost before = self.proposals;
        let removed = self.proposals.remove(&fork_id);
        match removed {
            Some(mut fork) => {
                fork.status = ForkStatus::Executed;
                fork.new_chain_id = Some(new_chain_id);
                self.executed_forks.push(fork);
            },
            None => {},
        }
        self.last_fork_executed = Some(current_block);
        proof {
            assert forall|k: crate::types::Hash| #[trigger] self.proposals@.contains_key(k) implies before@.contains_key(
                k,
            ) && self.proposals@[k] == before@[k] by {}
        }
        self.events.push(ForkEvent::ForkExecuted { fork_id, executed_at: current_block, new_chain_id });
        Ok(())
    }

    /// Cancels a fork proposal that has not executed.
    pub fn cancel_fork(&mut self, fork_id: crate::types::Hash, reason: String) -> (r: Result<(), ForkError>)
        requires
            old(self).inv(),
        ensures
            r is Err ==> final(self).events == old(self).events,
            r is Ok ==> final(self).events@ == old(self).events@.push(ForkEvent::ForkCancelled { fork_id, reason }),
            final(self).inv(),
            same_but_proposals(final(self), old(self)),
            r is Ok <==> old(self).proposals@.contains_key(fork_id) && old(self).proposals@[fork_id].status
                != ForkStatus::Executed,
            r is Err ==> r == Err::<(), ForkError>(ForkError::ForkNotFound(fork_id)) && final(self).proposals == old(self).proposals,
            r is Ok ==> final(self).proposals@ == old(self).proposals@.insert(
                fork_id,
                (ForkDeclaration { status: ForkStatus::Cancelled, ..old(self).proposals@[fork_id] }),
            ),
    {
        let i = match self.proposals.find(&fork_id) {
            Some(i) => i,
            None => {
                return Err(ForkError::ForkNotFound(fork_id));
            },
        };
        proof {
            self.proposals.lemma_wf();
        }
        if self.proposals.val_at(i).status == ForkStatus::Executed {
            return Err(ForkError::ForkNotFound(fork_id));
        }
        let ghost before = self.proposals;
        let fork = self.proposals.val_at_mut(i);
        fork.status = ForkStatus::Cancelled;
        proof {
            let nv = self.proposals.val_seq()[i as int];
            VecMap::lemma_update_at(&before, &self.proposals, i as int, nv);
        }
        self.events.push(ForkEvent::ForkCancelled { fork_id, reason });
        Ok(())
    }

    /// Proposes ossification: refused during an emergency, once ossified,
    /// and before OSSIFICATION_INACTIVITY_YEARS years without parameter change.
    pub fn propose_ossification(&mut self, proposer: AccountId, current_block: BlockNumber, emergency_active: bool) -> (r:
        Result<(), ForkError>)
        requires
            old(self).inv(),
        ensures
            r is Ok ==> final(self).events@ == old(self).events@.push(
                ForkEvent::OssificationProposed { proposed_at: current_block },
            ),
            final(self).inv(),
            final(self).proposals == old(self).proposals,
            final(self).executed_forks == old(self).executed_forks,
            final(self).snapshots == old(self).snapshots,
            final(self).continuity == old(self).continuity,
            final(self).alignments == old(self).alignments,
            final(self).voting_power == old(self).voting_power,
            final(self).total_power == old(self).total_power,
            final(self).total_stake == old(self).total_stake,
            final(self).last_fork_executed == old(self).last_fork_executed,
            emergency_active ==> r == Err::<(), ForkError>(ForkError::CannotOssifyDuringEmergency),
            !emergency_active && old(self).ossification.ossification_active ==> r == Err::<(), ForkError>(
                ForkError::AlreadyOssified,
            ),
            !emergency_active && !old(self).ossification.ossification_active && !spec_can_ossify(
                old(self).ossification.last_parameter_change,
                current_block,
            ) ==> r == Err::<(), ForkError>(ForkError::OssificationNotEligible),
            r is Err ==> final(self).ossification == old(self).ossification && final(self).events == old(self).events,
            r is Ok <==> !emergency_active && !old(self).ossification.ossification_active && spec_can_ossify(
                old(self).ossification.last_parameter_change,
                current_block,
            ),
            r is Ok ==> final(self).ossification == (OssificationState {
                ossification_proposed: true,
                proposed_at: Some(current_block),
                ..old(self).ossification
            }),
    {
        if emergency_active {
            return Err(ForkError::CannotOssifyDuringEmergency);
        }
        if self.ossification.ossification_active {
            return Err(ForkError::AlreadyOssified);
        }
        if !self.ossification.can_trigger_ossification(current_block) {
            return Err(ForkError::OssificationNotEligible);
        }
        self.ossification.ossification_proposed = true;
        self.ossification.proposed_at = Some(current_block);
        self.events.push(ForkEvent::OssificationProposed { proposed_at: current_block });
        Ok(())
    }

    /// Records `voter`'s ossification vote (replacing an earlier one);
    /// ossification activates when approving power reaches
    /// OSSIFICATION_APPROVAL_THRESHOLD percent of all validator power.
    pub fn vote_ossification(&mut self, voter: AccountId, approve: bool, current_block: BlockNumber) -> (r: Result<
        (),
        ForkError,
    >)
        requires
            old(self).inv(),
            ossification_vote_error(old(self), voter) is None ==> {
                &&& (old(self).ossification.ossification_votes@.contains_key(voter)
                    && old(self).ossification.ossification_votes@[voter]) ==> old(self).ossification.approval_power
                    >= old(self).power_of(voter)
                &&& (old(self).ossification.ossification_votes@.contains_key(voter)
                    && !old(self).ossification.ossification_votes@[voter]) ==> old(self).ossification.rejection_power
                    >= old(self).power_of(voter)
                &&& tally_after_vote(old(self).ossification, voter, approve, old(self).power_of(voter)).0 <= u64::MAX
                &&& tally_after_vote(old(self).ossification, voter, approve, old(self).power_of(voter)).1 <= u64::MAX
            },
        ensures
            ossification_vote_error(old(self), voter) is None ==> final(self).events@ == {
                let logged = old(self).events@.push(ForkEvent::OssificationVote { voter, approve });
                if final(self).ossification.ossification_active {
                    logged.push(ForkEvent::OssificationActivated { activated_at: current_block })
                } else {
                    logged
                }
            },
            final(self).inv(),
            final(self).proposals == old(self).proposals,
            final(self).executed_forks == old(self).executed_forks,
            final(self).snapshots == old(self).snapshots,
            final(self).continuity == old(self).continuity,
            final(self).alignments == old(self).alignments,
            final(self).voting_power == old(self).voting_power,
            final(self).total_power == old(self).total_power,
            final(self).total_stake == old(self).total_stake,
            final(self).last_fork_executed == old(self).last_fork_executed,
            ossification_vote_error(old(self), voter) is Some ==> r == Err::<(), ForkError>(
                ossification_vote_error(old(self), voter)->0,
            ) && final(self).ossification == old(self).ossification && final(self).events == old(self).events,
            ossification_vote_error(old(self), voter) is None ==> {
                &&& r is Ok
                &&& final(self).ossification.ossification_votes@ == old(self).ossification.ossification_votes@.insert(
                    voter,
                    approve,
                )
                &&& final(self).ossification.approval_power == tally_after_vote(
                    old(self).ossification,
                    voter,
                    approve,
                    old(self).power_of(voter),
                ).0
                &&& final(self).ossification.rejection_power == tally_after_vote(
                    old(self).ossification,
                    voter,
                    approve,
                    old(self).power_of(voter),
                ).1
                &&& final(self).ossification.ossification_active == (approval_of_total(
                    final(self).ossification.approval_power,
                    old(self).total_power,
                ) >= OSSIFICATION_APPROVAL_THRESHOLD)
                &&& final(self).ossification.activated_at == if final(self).ossification.ossification_active {
                    Some(current_block)
                } else {
                    old(self).ossification.activated_at
                }
                &&& final(self).ossification.ossification_proposed == old(self).ossification.ossification_proposed
                &&& final(self).ossification.proposed_at == old(self).ossification.proposed_at
                &&& final(self).ossification.last_parameter_change == old(self).ossification.last_parameter_change
            },
    {
        if !self.ossification.ossification_proposed {
            return Err(ForkError::OssificationNotEligible);
        }
        if self.ossification.ossification_active {
            return Err(ForkError::AlreadyOssified);
        }
        let power = match self.voting_power.get(&voter) {
            Some(p) => *p,
            None => {
                return Err(ForkError::NoVotingPower);
            },
        };
        match self.ossification.ossification_votes.get(&voter) {
            Some(previous) => {
                if *previous {
                    self.ossification.approval_power = self.ossification.approval_power - power;
                } else {
                    self.ossification.rejection_power = self.ossification.rejection_power - power;
                }
            },
            None => {},
        }
        self.ossification.ossification_votes.insert(voter, approve);
        if approve {
            self.ossification.approval_power = self.ossification.approval_power + power;
        } else {
            self.ossification.rejection_power = self.ossification.rejection_power + power;
        }
        self.events.push(ForkEvent::OssificationVote { voter, approve });
        let approval: u8 = if self.total_power > 0 {
            (crate::types::sat_mul64(self.ossification.approval_power, 100) / self.total_power) as u8
        } else {
            0
        };
        if approval >= OSSIFICATION_APPROVAL_THRESHOLD {
            self.ossification.ossification_active = true;
            self.ossification.activated_at = Some(current_block);
            self.events.push(ForkEvent::OssificationActivated { activated_at: current_block });
        }
        Ok(())
    }

    pub fn is_ossified(&self) -> (b: bool)
        ensures
            b == self.ossification.ossification_active,
    {
        self.ossification.ossification_active
    }

    pub fn get_fork(&self, fork_id: crate::types::Hash) -> (r: Option<&ForkDeclaration>)
        requires
            self.inv(),
        ensures
            match r {
                Some(f) => self.proposals@.contains_key(fork_id) && *f == self.proposals@[fork_id],
                None => !self.proposals@.contains_key(fork_id),
            },
    {
        self.proposals.get(&fork_id)
    }

    pub fn get_snapshot(&self, fork_id: crate::types::Hash) -> (r: Option<&ForkSnapshot>)
        requires
            self.inv(),
        ensures
            match r {
                Some(s) => self.snapshots@.contains_key(fork_id) && *s == self.snapshots@[fork_id],
                None => !self.snapshots@.contains_key(fork_id),
            },
    {
        self.snapshots.get(&fork_id)
    }

    pub fn get_continuity(&self, fork_id: crate::types::Hash) -> (r: Option<&ForkContinuity>)
        requires
            self.inv(),
        ensures
            match r {
                Some(c) => self.continuity@.contains_key(fork_id) && *c == self.continuity@[fork_id],
                None => !self.continuity@.contains_key(fork_id),
            },
    {
        self.continuity.get(&fork_id)
    }

    /// The proposals still in progress, in proposal order.
    pub fn active_forks(&self) -> (r: Vec<&ForkDeclaration>)
        requires
            self.inv(),
        ensures
            r@.len() == self.proposals.val_seq().filter(open_fork_pred()).len(),
            forall|j: int| 0 <= j < r@.len() ==> *r@[j] == self.proposals.val_seq().filter(open_fork_pred())[j],
    {
        let ghost vals = self.proposals.val_seq();
        proof {
            self.proposals.lemma_wf();
        }
        let n = self.proposals.len();
        let mut out: Vec<&ForkDeclaration> = Vec::new();
        let mut i: usize = 0;
        while i < n
            invariant
                self.proposals.wf(),
                vals == self.proposals.val_seq(),
                n == vals.len(),
                n == self.proposals.key_seq().len(),
                i <= n,
                out@.len() == vals.take(i as int).filter(open_fork_pred()).len(),
                forall|j: int| 0 <= j < out@.len() ==> *out@[j] == vals.take(i as int).filter(open_fork_pred())[j],
            decreases n - i,
        {
            proof {
                reveal_with_fuel(Seq::<_>::filter, 1);
                assert(vals.take(i + 1).drop_last() =~= vals.take(i as int));
                assert(vals.take(i + 1).last() == vals[i as int]);
            }
            let f = self.proposals.val_at(i);
            if f.status == ForkStatus::Proposed || f.status == ForkStatus::Declared || f.status == ForkStatus::Ready {
                out.push(f);
            }
            i = i + 1;
        }
        proof {
            assert(vals.take(n as int) =~= vals);
        }
        out
    }

    /// Executed forks, oldest first.
    pub fn fork_history(&self) -> (r: &[ForkDeclaration])
        ensures
            r@ == self.executed_forks@,
    {
        self.executed_forks.as_slice()
    }

    /// Hands out the events recorded so far and clears the log.
    pub fn drain_events(&mut self) -> (r: Vec<ForkEvent>)
        ensures
            r@ == old(self).events@,
            *final(self) == (ForkContract { events: final(self).events, ..*old(self) }),
            final(self).events@ == Seq::<ForkEvent>::empty(),
    {
        let mut out: Vec<ForkEvent> = Vec::new();
        std::mem::swap(&mut out, &mut self.events);
        out
    }

    pub fn set_total_stake(&mut self, stake: Balance)
        ensures
            *final(self) == (ForkContract { total_stake: stake, ..*old(self) }),
    {
        self.total_stake = stake;
    }
}

impl Default for ForkContract {
    fn default() -> (c: Self)
        ensures
            c.inv(),
            c.proposals@ == Map::<crate::types::Hash, ForkDeclaration>::empty(),
            c.executed_forks@ == Seq::<ForkDeclaration>::empty(),
            c.voting_power@ == Map::<AccountId, u64>::empty(),
            !c.ossification.ossification_active,
            c.last_fork_executed is None,
    {
        Self::new()
    }
}

} // verus!

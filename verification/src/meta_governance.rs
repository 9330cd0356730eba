//! Protocol evolution under constitutional safeguards: parameter changes and
//! version upgrades are proposed, signalled by the chains, voted, held in a
//! timelock and executed; a change outside the constitutional bounds is
//! never accepted.
use vstd::prelude::*;
use crate::types::{AccountId, Balance, BlockNumber, ChainId, u64_le, u128_le, spec_hash_bytes, push_u64_le, push_u128_le, push_bytes32};
use crate::vecmap::{VecMap, MapKey};
use crate::protocol::{
    ProtocolParameters, ProtocolVersion, ParameterChange, ParameterError, version_newer, spec_is_constitutional,
    spec_with_change, spec_change_error,
};

verus! {

/// Approval (percent) a protocol upgrade needs.
pub const PROTOCOL_UPGRADE_THRESHOLD: u8 = 75;

/// Approval (percent) a breaking upgrade or an emergency change needs.
pub const SUPERMAJORITY_THRESHOLD: u8 = 80;

/// Timelock of a protocol upgrade (60 days).
pub const PROTOCOL_UPGRADE_TIMELOCK: BlockNumber = 864_000;

/// Minimum signalling period before a version upgrade is voted (14 days).
pub const SIGNALING_PERIOD: BlockNumber = 201_600;

/// Share of validators (percent, over the registered chains) that must
/// signal support for a version upgrade.
pub const CHAIN_ADOPTION_THRESHOLD: u8 = 66;

/// Timelock of an emergency parameter change (7 days).
pub const EMERGENCY_TIMELOCK: BlockNumber = 100_800;

/// Most parameter changes in one proposal.
pub const MAX_BATCH_SIZE: usize = 10;

#[derive(Debug, Clone)]
pub enum UpgradeProposalType {
    /// Parameter changes within constitutional bounds.
    ParameterChange { changes: Vec<ParameterChange>, rationale: String },
    /// A new protocol version.
    VersionUpgrade { new_version: ProtocolVersion, changelog: String, breaking_changes: bool },
    /// Parameter changes under a shorter timelock.
    EmergencyChange { changes: Vec<ParameterChange>, justification: String },
}

pub open spec fn spec_required_threshold(t: UpgradeProposalType) -> u8 {
    match t {
        UpgradeProposalType::ParameterChange { .. } => PROTOCOL_UPGRADE_THRESHOLD,
        UpgradeProposalType::VersionUpgrade { breaking_changes, .. } => if breaking_changes {
            SUPERMAJORITY_THRESHOLD
        } else {
            PROTOCOL_UPGRADE_THRESHOLD
        },
        UpgradeProposalType::EmergencyChange { .. } => SUPERMAJORITY_THRESHOLD,
    }
}

pub open spec fn spec_timelock(t: UpgradeProposalType) -> BlockNumber {
    match t {
        UpgradeProposalType::EmergencyChange { .. } => EMERGENCY_TIMELOCK,
        _ => PROTOCOL_UPGRADE_TIMELOCK,
    }
}

impl UpgradeProposalType {
    /// Approval (percent) this kind of proposal needs.
    pub fn required_threshold(&self) -> (t: u8)
        ensures
            t == spec_required_threshold(*self),
    {
        match self {
            UpgradeProposalType::ParameterChange { .. } => PROTOCOL_UPGRADE_THRESHOLD,
            UpgradeProposalType::VersionUpgrade { breaking_changes, .. } => {
                if *breaking_changes {
                    SUPERMAJORITY_THRESHOLD
                } else {
                    PROTOCOL_UPGRADE_THRESHOLD
                }
            },
            UpgradeProposalType::EmergencyChange { .. } => SUPERMAJORITY_THRESHOLD,
        }
    }

    /// Blocks between the end of the vote and execution.
    pub fn timelock(&self) -> (t: BlockNumber)
        ensures
            t == spec_timelock(*self),
    {
        match self {
            UpgradeProposalType::EmergencyChange { .. } => EMERGENCY_TIMELOCK,
            _ => PROTOCOL_UPGRADE_TIMELOCK,
        }
    }

    /// Version upgrades go through multi-chain signalling first.
    pub fn requires_signaling(&self) -> (b: bool)
        ensures
            b == (*self is VersionUpgrade),
    {
        match self {
            UpgradeProposalType::VersionUpgrade { .. } => true,
            _ => false,
        }
    }
}

#[derive(Debug, Clone, Copy, PartialEq, Eq, Structural)]
pub enum UpgradeStatus {
    Signaling,
    Voting,
    Approved,
    ExecutionReady,
    Executed,
    Rejected,
    Cancelled,
    ConstitutionallyRejected,
}

/// A chain's signal on a version upgrade.
#[derive(Debug, Clone, Copy)]
pub struct ChainSignal {
    pub chain_id: ChainId,
    pub supports: bool,
    pub signaled_at: BlockNumber,
    pub validator_count: u32,
}

/// The assessment every upgrade proposal carries.
#[derive(Debug, Clone)]
pub struct ImpactAnalysis {
    pub affected_subsystems: Vec<String>,
    pub backward_compatible: bool,
    /// 1 to 5.
    pub risk_level: u8,
    /// 1 to 5.
    pub rollback_difficulty: u8,
    pub required_node_version: Option<String>,
    pub migration_steps: Vec<String>,
    pub test_summary: String,
}

pub open spec fn spec_impact_complete(a: ImpactAnalysis) -> bool {
    &&& a.affected_subsystems@.len() > 0
    &&& 1 <= a.risk_level <= 5
    &&& 1 <= a.rollback_difficulty <= 5
    &&& a.test_summary@.len() > 0
}

impl ImpactAnalysis {
    /// The analysis of a routine parameter change touching `subsystem`.
    pub fn minimal(subsystem: &str) -> (a: ImpactAnalysis)
        ensures
            a.affected_subsystems@.len() == 1,
            a.affected_subsystems@[0]@ == subsystem@,
            a.backward_compatible,
            a.risk_level == 1,
            a.rollback_difficulty == 1,
            a.required_node_version is None,
            a.migration_steps@.len() == 0,
            a.test_summary@ == "Standard parameter change"@,
            spec_impact_complete(a),
    {
        let mut subsystems: Vec<String> = Vec::new();
        subsystems.push(subsystem.to_owned());
        let summary = "Standard parameter change".to_owned();
        proof {
            reveal_strlit("Standard parameter change");
        }
        ImpactAnalysis {
            affected_subsystems: subsystems,
            backward_compatible: true,
            risk_level: 1,
            rollback_difficulty: 1,
            required_node_version: None,
            migration_steps: Vec::new(),
            test_summary: summary,
        }
    }

    /// Some subsystem named, both levels within 1 to 5, and a test summary.
    pub fn is_complete(&self) -> (b: bool)
        ensures
            b == spec_impact_complete(*self),
    {
        self.affected_subsystems.len() > 0 && self.risk_level >= 1 && self.risk_level <= 5
            && self.rollback_difficulty >= 1 && self.rollback_difficulty <= 5 && !self.test_summary.as_str().is_empty()
    }
}

/// An upgrade proposal.
pub struct UpgradeProposal {
    pub id: crate::types::Hash,
    pub proposer: AccountId,
    pub proposal_type: UpgradeProposalType,
    pub status: UpgradeStatus,
    pub created_at: BlockNumber,
    pub voting_started: Option<BlockNumber>,
    pub voting_ended: Option<BlockNumber>,
    /// Voting power for.
    pub yes_votes: Balance,
    /// Voting power against.
    pub no_votes: Balance,
    pub voters: VecMap<AccountId, bool>,
    pub chain_signals: VecMap<ChainId, ChainSignal>,
    pub impact_analysis: ImpactAnalysis,
    pub deposit: Balance,
}

/// The bytes hashed into a proposal's identifier: the proposer, the block
/// and the deposit, the two numbers in little endian.
pub open spec fn proposal_id_preimage(proposer: AccountId, block: BlockNumber, deposit: Balance) -> Seq<u8> {
    proposer.bytes@ + u64_le(block) + u128_le(deposit)
}

pub open spec fn spec_approval_percentage(yes: Balance, no: Balance) -> u8 {
    if yes + no == 0 {
        0
    } else {
        ((yes * 100) / (yes + no)) as u8
    }
}

impl UpgradeProposal {
    pub open spec fn wf(&self) -> bool {
        self.voters.wf() && self.chain_signals.wf()
    }

    /// A new proposal: version upgrades start in signalling, the others
    /// start their vote at once.
    pub fn new(
        proposer: AccountId,
        proposal_type: UpgradeProposalType,
        impact_analysis: ImpactAnalysis,
        deposit: Balance,
        current_block: BlockNumber,
    ) -> (p: UpgradeProposal)
        ensures
            p.wf(),
            p.id.bytes@ == spec_hash_bytes(proposal_id_preimage(proposer, current_block, deposit)),
            p.proposer == proposer,
            p.proposal_type == proposal_type,
            p.status == if proposal_type is VersionUpgrade {
                UpgradeStatus::Signaling
            } else {
                UpgradeStatus::Voting
            },
            p.created_at == current_block,
            p.voting_started == if proposal_type is VersionUpgrade {
                None
            } else {
                Some(current_block)
            },
            p.voting_ended is None,
            p.yes_votes == 0,
            p.no_votes == 0,
            p.voters@ == Map::<AccountId, bool>::empty(),
            p.chain_signals@ == Map::<ChainId, ChainSignal>::empty(),
            p.impact_analysis == impact_analysis,
            p.deposit == deposit,
    {
        let mut data: Vec<u8> = Vec::new();
        push_bytes32(&mut data, &proposer.bytes);
        push_u64_le(&mut data, current_block);
        push_u128_le(&mut data, deposit);
        let id = crate::types::Hash::hash(data.as_slice());
        let signaling = proposal_type.requires_signaling();
        UpgradeProposal {
            id,
            proposer,
            proposal_type,
            status: if signaling {
                UpgradeStatus::Signaling
            } else {
                UpgradeStatus::Voting
            },
            created_at: current_block,
            voting_started: if signaling {
                None
            } else {
                Some(current_block)
            },
            voting_ended: None,
            yes_votes: 0,
            no_votes: 0,
            voters: VecMap::new(),
            chain_signals: VecMap::new(),
            impact_analysis,
            deposit,
        }
    }

    pub open spec fn spec_voting_open(&self, current_block: BlockNumber, voting_period: BlockNumber) -> bool {
        self.status == UpgradeStatus::Voting && self.voting_started is Some && current_block
            < self.voting_started->0 + voting_period
    }

    /// The vote is open: voting status, and fewer than `voting_period`
    /// blocks since it started.
    pub fn is_voting_open(&self, current_block: BlockNumber, voting_period: BlockNumber) -> (b: bool)
        ensures
            b == self.spec_voting_open(current_block, voting_period),
    {
        if self.status != UpgradeStatus::Voting {
            return false;
        }
        match self.voting_started {
            Some(started) => (current_block as u128) < (started as u128) + (voting_period as u128),
            None => false,
        }
    }

    /// Share of the voting power cast that approves, in percent.
    pub fn approval_percentage(&self) -> (p: u8)
        requires
            self.yes_votes + self.no_votes <= u128::MAX,
            self.yes_votes * 100 <= u128::MAX,
        ensures
            p == spec_approval_percentage(self.yes_votes, self.no_votes),
    {
        let total = self.yes_votes + self.no_votes;
        if total == 0 {
            return 0;
        }
        ((self.yes_votes * 100) / total) as u8
    }

    pub open spec fn spec_passed(&self) -> bool {
        spec_approval_percentage(self.yes_votes, self.no_votes) >= spec_required_threshold(self.proposal_type)
    }

    /// The approval reaches the threshold of the proposal's kind.
    pub fn passed(&self) -> (b: bool)
        requires
            self.yes_votes + self.no_votes <= u128::MAX,
            self.yes_votes * 100 <= u128::MAX,
        ensures
            b == self.spec_passed(),
    {
        self.approval_percentage() >= self.proposal_type.required_threshold()
    }

    pub open spec fn spec_timelock_elapsed(&self, current_block: BlockNumber) -> bool {
        self.voting_ended is Some && current_block >= self.voting_ended->0 + spec_timelock(self.proposal_type)
    }

    /// The timelock that follows the end of the vote has passed.
    pub fn timelock_elapsed(&self, current_block: BlockNumber) -> (b: bool)
        ensures
            b == self.spec_timelock_elapsed(current_block),
    {
        match self.voting_ended {
            Some(ended) => (current_block as u128) >= (ended as u128) + (self.proposal_type.timelock() as u128),
            None => false,
        }
    }
}

/// A chain registered for signalling.
#[derive(Debug, Clone, Copy)]
pub struct ChainInfo {
    pub chain_id: ChainId,
    pub validator_count: u32,
    pub last_signal: BlockNumber,
}

#[derive(Debug, Clone, Copy, PartialEq, Eq)]
pub enum MetaGovernanceError {
    NoVotingPower,
    ProposalNotFound,
    BatchTooLarge,
    ConstitutionalViolation,
    InvalidVersion,
    IncompleteImpactAnalysis,
    ChainNotRegistered,
    NotInSignalingPhase,
    SignalingPeriodNotElapsed,
    InsufficientChainAdoption,
    VotingNotOpen,
    AlreadyVoted,
    NotInVotingPhase,
    VotingNotStarted,
    VotingPeriodNotElapsed,
    NotApproved,
    TimelockNotElapsed,
    NotProposer,
    AlreadyExecuted,
    ParameterError(ParameterError),
}

impl From<ParameterError> for MetaGovernanceError {
    fn from(err: ParameterError) -> (r: Self) {
        MetaGovernanceError::ParameterError(err)
    }
}

impl vstd::std_specs::convert::FromSpecImpl<ParameterError> for MetaGovernanceError {
    open spec fn obeys_from_spec() -> bool {
        true
    }

    open spec fn from_spec(err: ParameterError) -> MetaGovernanceError {
        MetaGovernanceError::ParameterError(err)
    }
}

#[derive(Debug, Clone)]
pub enum MetaGovernanceEvent {
    ProposalCreated { proposal_id: crate::types::Hash, proposer: AccountId, proposal_type: String },
    ChainSignaled { proposal_id: crate::types::Hash, chain_id: ChainId, supports: bool },
    VotingStarted { proposal_id: crate::types::Hash },
    VoteCast { proposal_id: crate::types::Hash, voter: AccountId, support: bool, weight: Balance },
    ProposalApproved { proposal_id: crate::types::Hash },
    ProposalRejected { proposal_id: crate::types::Hash, reason: String },
    ProposalExecuted { proposal_id: crate::types::Hash, effective_block: BlockNumber },
    ProposalCancelled { proposal_id: crate::types::Hash },
}


/// `after` is `before` with one more event.
pub open spec fn one_more_event(before: Seq<MetaGovernanceEvent>, after: Seq<MetaGovernanceEvent>) -> bool {
    after.len() == before.len() + 1 && after.drop_last() == before
}

/// `e` records the creation of proposal `id` of kind `kind` by `proposer`.
pub open spec fn is_created_event(e: MetaGovernanceEvent, id: crate::types::Hash, proposer: AccountId, kind: Seq<char>) -> bool {
    e matches MetaGovernanceEvent::ProposalCreated { proposal_id, proposer: p, proposal_type } && proposal_id == id
        && p == proposer && proposal_type@ == kind
}

/// `e` records the rejection of proposal `id` for `reason`.
pub open spec fn is_rejected_event(e: MetaGovernanceEvent, id: crate::types::Hash, reason: Seq<char>) -> bool {
    e matches MetaGovernanceEvent::ProposalRejected { proposal_id, reason: why } && proposal_id == id && why@ == reason
}

/// Sum of a sequence of balances.
pub open spec fn balance_sum(s: Seq<Balance>) -> nat
    decreases s.len(),
{
    if s.len() == 0 {
        0
    } else {
        balance_sum(s.drop_last()) + s.last() as nat
    }
}

proof fn lemma_balance_sum_update(s: Seq<Balance>, i: int, x: Balance)
    requires
        0 <= i < s.len(),
    ensures
        balance_sum(s.update(i, x)) == balance_sum(s) - s[i] + x,
    decreases s.len(),
{
    if i < s.len() - 1 {
        assert(s.update(i, x).drop_last() =~= s.drop_last().update(i, x));
        lemma_balance_sum_update(s.drop_last(), i, x);
    } else {
        assert(s.update(i, x).drop_last() =~= s.drop_last());
    }
}

proof fn lemma_balance_sum_remove(s: Seq<Balance>, i: int)
    requires
        0 <= i < s.len(),
    ensures
        balance_sum(s.remove(i)) == balance_sum(s) - s[i],
    decreases s.len(),
{
    if i < s.len() - 1 {
        assert(s.remove(i).drop_last() =~= s.drop_last().remove(i));
        assert(s.remove(i).last() == s.last());
        lemma_balance_sum_remove(s.drop_last(), i);
    } else {
        assert(s.remove(i) =~= s.drop_last());
    }
}

proof fn lemma_balance_sum_le(s: Seq<Balance>, i: int)
    requires
        0 <= i < s.len(),
    ensures
        s[i] <= balance_sum(s),
    decreases s.len(),
{
    if i < s.len() - 1 {
        lemma_balance_sum_le(s.drop_last(), i);
    }
}

/// Validators over all registered chains.
pub open spec fn chain_validator_total(s: Seq<ChainInfo>) -> nat
    decreases s.len(),
{
    if s.len() == 0 {
        0
    } else {
        chain_validator_total(s.drop_last()) + s.last().validator_count as nat
    }
}

/// Validators of the chains whose signal supports the upgrade.
pub open spec fn supporting_validator_total(s: Seq<ChainSignal>) -> nat
    decreases s.len(),
{
    if s.len() == 0 {
        0
    } else {
        supporting_validator_total(s.drop_last()) + if s.last().supports {
            s.last().validator_count as nat
        } else {
            0nat
        }
    }
}

/// Adoption (percent, taken modulo 256 as a `u8`) of `supporting` out of
/// `total` validators; 0 when there are none.
pub open spec fn adoption_percent(supporting: nat, total: nat) -> u8 {
    if total > 0 {
        ((supporting * 100) / total) as u8
    } else {
        0
    }
}

/// Parameters after the changes in `cs`, made in order, and the error of
/// the first one refused: the changes before it stay made.
pub open spec fn run_changes(p: ProtocolParameters, cs: Seq<ParameterChange>) -> (ProtocolParameters, Option<ParameterError>)
    decreases cs.len(),
{
    if cs.len() == 0 {
        (p, None)
    } else {
        let prev = run_changes(p, cs.drop_last());
        if prev.1 is Some {
            prev
        } else if spec_is_constitutional(cs.last(), prev.0) {
            (spec_with_change(cs.last(), prev.0), None)
        } else {
            (prev.0, Some(spec_change_error(cs.last(), prev.0)))
        }
    }
}

/// Constitutional safeguard: however a batch of changes runs, parameters
/// that are within their constitutional bounds stay within them, whether
/// the batch completes or stops at a refused change.
pub proof fn law_changes_keep_parameters_constitutional(p: ProtocolParameters, cs: Seq<ParameterChange>)
    requires
        crate::protocol::params_wf(p),
    ensures
        crate::protocol::params_wf(run_changes(p, cs).0),
    decreases cs.len(),
{
    if cs.len() > 0 {
        law_changes_keep_parameters_constitutional(p, cs.drop_last());
        let prev = run_changes(p, cs.drop_last());
        if prev.1 is None && spec_is_constitutional(cs.last(), prev.0) {
            crate::protocol::lemma_change_keeps_wf(cs.last(), prev.0);
        }
    }
}

proof fn lemma_error_sticks(p: ProtocolParameters, cs: Seq<ParameterChange>, k: int)
    requires
        0 <= k <= cs.len(),
        run_changes(p, cs.take(k)).1 is Some,
    ensures
        run_changes(p, cs) == run_changes(p, cs.take(k)),
    decreases cs.len(),
{
    if k == cs.len() {
        assert(cs.take(k) =~= cs);
    } else {
        assert(cs.drop_last().take(k) =~= cs.take(k));
        lemma_error_sticks(p, cs.drop_last(), k);
    }
}

/// The parameter changes a proposal carries (none for a version upgrade).
pub open spec fn proposal_changes(t: UpgradeProposalType) -> Seq<ParameterChange> {
    match t {
        UpgradeProposalType::ParameterChange { changes, .. } => changes@,
        UpgradeProposalType::EmergencyChange { changes, .. } => changes@,
        UpgradeProposalType::VersionUpgrade { .. } => Seq::empty(),
    }
}

/// The status of a proposal that is over.
pub open spec fn is_final_status(s: UpgradeStatus) -> bool {
    s == UpgradeStatus::Executed || s == UpgradeStatus::Rejected || s == UpgradeStatus::Cancelled
        || s == UpgradeStatus::ConstitutionallyRejected
}

pub open spec fn active_proposal_pred() -> spec_fn(UpgradeProposal) -> bool {
    |p: UpgradeProposal| !is_final_status(p.status)
}

/// Every change in `cs` is constitutional against `p`.
pub open spec fn all_constitutional(cs: Seq<ParameterChange>, p: ProtocolParameters) -> bool {
    forall|i: int| 0 <= i < cs.len() ==> #[trigger] spec_is_constitutional(cs[i], p)
}

/// Validators of the chains whose signal supports the upgrade.
fn supporting_total(signals: &VecMap<ChainId, ChainSignal>) -> (t: u128)
    requires
        signals.wf(),
    ensures
        t == supporting_validator_total(signals.val_seq()),
        t <= 0x1_0000_0000_0000_0000_0000_0000u128,
{
    let ghost vals = signals.val_seq();
    proof {
        signals.lemma_wf();
    }
    let n = signals.len();
    let mut t: u128 = 0;
    let mut i: usize = 0;
    while i < n
        invariant
            signals.wf(),
            vals == signals.val_seq(),
            n == vals.len(),
            n == signals.key_seq().len(),
            i <= n,
            t == supporting_validator_total(vals.take(i as int)),
            t <= i * 0xFFFF_FFFFu128,
        decreases n - i,
    {
        proof {
            assert(vals.take(i + 1).drop_last() =~= vals.take(i as int));
        }
        let sig = signals.val_at(i);
        if sig.supports {
            t = t + sig.validator_count as u128;
        }
        i = i + 1;
    }
    proof {
        assert(vals.take(n as int) =~= vals);
        assert(t <= 0x1_0000_0000_0000_0000_0000_0000u128) by (nonlinear_arith)
            requires
                t <= n * 0xFFFF_FFFFu128,
                n <= 0xFFFF_FFFF_FFFF_FFFFu128,
        ;
    }
    t
}

/// Makes the changes in order, stopping at the first one refused.
fn apply_changes(params: &mut ProtocolParameters, changes: &Vec<ParameterChange>) -> (r: Result<(), ParameterError>)
    ensures
        *final(params) == run_changes(*old(params), changes@).0,
        r is Ok <==> run_changes(*old(params), changes@).1 is None,
        match r {
            Ok(_) => true,
            Err(e) => run_changes(*old(params), changes@).1 == Some(e),
        },
{
    let ghost start = *params;
    let mut i: usize = 0;
    while i < changes.len()
        invariant
            i <= changes.len(),
            run_changes(start, changes@.take(i as int)) == (*params, None::<ParameterError>),
            start == *old(params),
        decreases changes.len() - i,
    {
        proof {
            assert(changes@.take(i + 1).drop_last() =~= changes@.take(i as int));
            assert(changes@.take(i + 1).last() == changes@[i as int]);
        }
        let ghost before = *params;
        match changes[i].apply(params) {
            Ok(()) => {},
            Err(e) => {
                proof {
                    assert(*params == before);
                    assert(run_changes(start, changes@.take(i + 1)) == (before, Some(e)));
                    lemma_error_sticks(start, changes@, i + 1);
                }
                return Err(e);
            },
        }
        i = i + 1;
    }
    proof {
        assert(changes@.take(changes.len() as int) =~= changes@);
    }
    Ok(())
}

/// Protocol evolution: the current parameters, their history, and the
/// upgrade proposals.
pub struct MetaGovernanceContract {
    pub parameters: ProtocolParameters,
    /// Parameters replaced by executed proposals, with the block they were replaced at.
    pub parameter_history: Vec<(BlockNumber, ProtocolParameters)>,
    pub proposals: VecMap<crate::types::Hash, UpgradeProposal>,
    pub executed_proposals: Vec<crate::types::Hash>,
    pub registered_chains: VecMap<ChainId, ChainInfo>,
    /// Accounts with voting power; an account without power is absent.
    pub voting_power: VecMap<AccountId, Balance>,
    pub total_voting_power: Balance,
    pub events: Vec<MetaGovernanceEvent>,
}

/// Everything but the proposals and the event log is as in `old`.
pub open spec fn same_but_proposals(c: &MetaGovernanceContract, old: &MetaGovernanceContract) -> bool {
    &&& c.parameters == old.parameters
    &&& c.parameter_history == old.parameter_history
    &&& c.executed_proposals == old.executed_proposals
    &&& c.registered_chains == old.registered_chains
    &&& c.voting_power == old.voting_power
    &&& c.total_voting_power == old.total_voting_power
}

impl MetaGovernanceContract {
    pub open spec fn inv(&self) -> bool {
        &&& crate::protocol::params_wf(self.parameters)
        &&& self.proposals.wf()
        &&& self.registered_chains.wf()
        &&& self.voting_power.wf()
        &&& self.total_voting_power == balance_sum(self.voting_power.val_seq())
        &&& forall|a: AccountId| #[trigger] self.voting_power@.contains_key(a) ==> self.voting_power@[a] > 0
        &&& forall|k: crate::types::Hash| #[trigger] self.proposals@.contains_key(k) ==> self.proposals@[k].wf()
    }

    /// Voting power of `a` (0 when it has none).
    pub open spec fn power_of(&self, a: AccountId) -> Balance {
        if self.voting_power@.contains_key(a) {
            self.voting_power@[a]
        } else {
            0
        }
    }

    pub fn new() -> (c: MetaGovernanceContract)
        ensures
            c.inv(),
            c.parameters == crate::protocol::spec_genesis(),
            c.parameter_history@ == Seq::<(BlockNumber, ProtocolParameters)>::empty(),
            c.proposals@ == Map::<crate::types::Hash, UpgradeProposal>::empty(),
            c.executed_proposals@ == Seq::<crate::types::Hash>::empty(),
            c.registered_chains@ == Map::<ChainId, ChainInfo>::empty(),
            c.voting_power@ == Map::<AccountId, Balance>::empty(),
            c.total_voting_power == 0,
            c.events@ == Seq::<MetaGovernanceEvent>::empty(),
    {
        let c = MetaGovernanceContract {
            parameters: ProtocolParameters::genesis(),
            parameter_history: Vec::new(),
            proposals: VecMap::new(),
            executed_proposals: Vec::new(),
            registered_chains: VecMap::new(),
            voting_power: VecMap::new(),
            total_voting_power: 0,
            events: Vec::new(),
        };
        proof {
            c.voting_power.lemma_wf();
        }
        c
    }

    pub fn parameters(&self) -> (p: &ProtocolParameters)
        ensures
            *p == self.parameters,
    {
        &self.parameters
    }

    /// Sets `account`'s voting power; power 0 removes the account.
    pub fn set_voting_power(&mut self, account: AccountId, power: Balance)
        requires
            old(self).inv(),
            old(self).total_voting_power - old(self).power_of(account) + power <= u128::MAX,
        ensures
            final(self).inv(),
            final(self).voting_power@ == if power > 0 {
                old(self).voting_power@.insert(account, power)
            } else {
                old(self).voting_power@.remove(account)
            },
            final(self).total_voting_power == old(self).total_voting_power - old(self).power_of(account) + power,
            final(self).parameters == old(self).parameters,
            final(self).parameter_history == old(self).parameter_history,
            final(self).proposals == old(self).proposals,
            final(self).executed_proposals == old(self).executed_proposals,
            final(self).registered_chains == old(self).registered_chains,
            final(self).events == old(self).events,
    {
        let ghost before = self.voting_power;
        proof {
            before.lemma_wf();
            if before@.contains_key(account) {
                let i = choose|i: int| 0 <= i < before.key_seq().len() && before.key_seq()[i] == account;
                lemma_balance_sum_le(before.val_seq(), i);
            }
        }
        let old_power = match self.voting_power.get(&account) {
            Some(p) => *p,
            None => 0,
        };
        self.total_voting_power = self.total_voting_power - old_power + power;
        if power > 0 {
            self.voting_power.insert(account, power);
            proof {
                if before@.contains_key(account) {
                    let i = choose|i: int|
                        0 <= i < before.key_seq().len() && before.key_seq()[i] == account
                            && self.voting_power.val_seq() == before.val_seq().update(i, power);
                    lemma_balance_sum_update(before.val_seq(), i, power);
                } else {
                    assert(before.val_seq().push(power).drop_last() =~= before.val_seq());
                }
            }
        } else {
            self.voting_power.remove(&account);
            proof {
                if before@.contains_key(account) {
                    let i = choose|i: int|
                        0 <= i < before.key_seq().len() && before.key_seq()[i] == account
                            && self.voting_power.val_seq() == before.val_seq().remove(i);
                    lemma_balance_sum_remove(before.val_seq(), i);
                }
            }
        }
    }

    /// Registers (or re-registers) a chain for signalling.
    pub fn register_chain(&mut self, chain_id: ChainId, validator_count: u32, current_block: BlockNumber)
        requires
            old(self).inv(),
        ensures
            final(self).inv(),
            final(self).registered_chains@ == old(self).registered_chains@.insert(
                chain_id,
                ChainInfo { chain_id, validator_count, last_signal: current_block },
            ),
            final(self).parameters == old(self).parameters,
            final(self).parameter_history == old(self).parameter_history,
            final(self).proposals == old(self).proposals,
            final(self).executed_proposals == old(self).executed_proposals,
            final(self).voting_power == old(self).voting_power,
            final(self).total_voting_power == old(self).total_voting_power,
            final(self).events == old(self).events,
    {
        self.registered_chains.insert(chain_id, ChainInfo { chain_id, validator_count, last_signal: current_block });
    }

    fn power_of_exec(&self, a: &AccountId) -> (p: Balance)
        requires
            self.voting_power.wf(),
        ensures
            p == self.power_of(*a),
    {
        match self.voting_power.get(a) {
            Some(p) => *p,
            None => 0,
        }
    }

    fn all_constitutional_exec(&self, changes: &[ParameterChange]) -> (b: bool)
        ensures
            b == all_constitutional(changes@, self.parameters),
    {
        let mut i: usize = 0;
        while i < changes.len()
            invariant
                i <= changes.len(),
                all_constitutional(changes@.take(i as int), self.parameters),
            decreases changes.len() - i,
        {
            if !changes[i].is_constitutional(&self.parameters) {
                proof {
                    assert(!spec_is_constitutional(changes@[i as int], self.parameters));
                }
                return false;
            }
            i = i + 1;
            proof {
                assert forall|j: int| 0 <= j < changes@.take(i as int).len() implies #[trigger] spec_is_constitutional(
                    changes@.take(i as int)[j],
                    self.parameters,
                ) by {
                    if j < i - 1 {
                        assert(changes@.take(i - 1)[j] == changes@.take(i as int)[j]);
                    }
                }
            }
        }
        proof {
            assert(changes@.take(changes.len() as int) =~= changes@);
        }
        true
    }

    /// Proposes parameter changes; every one must be constitutional against
    /// the current parameters. Its vote opens at once.
    pub fn propose_parameter_change(
        &mut self,
        proposer: AccountId,
        changes: Vec<ParameterChange>,
        rationale: String,
        deposit: Balance,
        current_block: BlockNumber,
    ) -> (r: Result<crate::types::Hash, MetaGovernanceError>)
        requires
            old(self).inv(),
        ensures
            final(self).inv(),
            same_but_proposals(final(self), old(self)),
            old(self).power_of(proposer) == 0 ==> r == Err::<crate::types::Hash, MetaGovernanceError>(
                MetaGovernanceError::NoVotingPower,
            ),
            old(self).power_of(proposer) > 0 && changes@.len() > MAX_BATCH_SIZE ==> r == Err::<
                crate::types::Hash,
                MetaGovernanceError,
            >(MetaGovernanceError::BatchTooLarge),
            old(self).power_of(proposer) > 0 && changes@.len() <= MAX_BATCH_SIZE && !all_constitutional(
                changes@,
                old(self).parameters,
            ) ==> r == Err::<crate::types::Hash, MetaGovernanceError>(MetaGovernanceError::ConstitutionalViolation),
            r is Err ==> final(self).proposals == old(self).proposals && final(self).events == old(self).events,
            r is Ok <==> old(self).power_of(proposer) > 0 && changes@.len() <= MAX_BATCH_SIZE && all_constitutional(
                changes@,
                old(self).parameters,
            ),
            match r {
                Ok(id) => {
                    &&& id.bytes@ == spec_hash_bytes(proposal_id_preimage(proposer, current_block, deposit))
                    &&& final(self).proposals@ == old(self).proposals@.insert(id, final(self).proposals@[id])
                    &&& final(self).proposals@[id].id == id
                    &&& final(self).proposals@[id].proposer == proposer
                    &&& final(self).proposals@[id].proposal_type == (UpgradeProposalType::ParameterChange {
                        changes,
                        rationale,
                    })
                    &&& final(self).proposals@[id].status == UpgradeStatus::Voting
                    &&& final(self).proposals@[id].created_at == current_block
                    &&& final(self).proposals@[id].voting_started == Some(current_block)
                    &&& final(self).proposals@[id].voting_ended is None
                    &&& final(self).proposals@[id].yes_votes == 0
                    &&& final(self).proposals@[id].no_votes == 0
                    &&& final(self).proposals@[id].voters@ == Map::<AccountId, bool>::empty()
                    &&& final(self).proposals@[id].chain_signals@ == Map::<ChainId, ChainSignal>::empty()
                    &&& final(self).proposals@[id].deposit == deposit
                    &&& final(self).proposals@[id].impact_analysis.test_summary@ == "Standard parameter change"@
                    &&& one_more_event(old(self).events@, final(self).events@)
                    &&& is_created_event(final(self).events@.last(), id, proposer, "ParameterChange"@)
                },
                Err(_) => true,
            },
    {
        if self.power_of_exec(&proposer) == 0 {
            return Err(MetaGovernanceError::NoVotingPower);
        }
        if changes.len() > MAX_BATCH_SIZE {
            return Err(MetaGovernanceError::BatchTooLarge);
        }
        if !self.all_constitutional_exec(changes.as_slice()) {
            return Err(MetaGovernanceError::ConstitutionalViolation);
        }
        let impact = ImpactAnalysis::minimal("parameters");
        let proposal = UpgradeProposal::new(
            proposer,
            UpgradeProposalType::ParameterChange { changes, rationale },
            impact,
            deposit,
            current_block,
        );
        let id = proposal.id;
        let ghost before = self.proposals;
        self.proposals.insert(id, proposal);
        proof {
            assert(self.proposals@ =~= before@.insert(id, self.proposals@[id]));
        }
        self.events.push(
            MetaGovernanceEvent::ProposalCreated { proposal_id: id, proposer, proposal_type: "ParameterChange".to_owned() },
        );
        proof {
            assert(self.events@.drop_last() =~= old(self).events@);
        }
        Ok(id)
    }

    /// Proposes a version upgrade: the version must be newer than the
    /// current one and the impact analysis complete. It starts in signalling.
    pub fn propose_version_upgrade(
        &mut self,
        proposer: AccountId,
        new_version: ProtocolVersion,
        changelog: String,
        breaking_changes: bool,
        impact_analysis: ImpactAnalysis,
        deposit: Balance,
        current_block: BlockNumber,
    ) -> (r: Result<crate::types::Hash, MetaGovernanceError>)
        requires
            old(self).inv(),
        ensures
            final(self).inv(),
            same_but_proposals(final(self), old(self)),
            old(self).power_of(proposer) == 0 ==> r == Err::<crate::types::Hash, MetaGovernanceError>(
                MetaGovernanceError::NoVotingPower,
            ),
            old(self).power_of(proposer) > 0 && !version_newer(new_version, old(self).parameters.version) ==> r == Err::<
                crate::types::Hash,
                MetaGovernanceError,
            >(MetaGovernanceError::InvalidVersion),
            old(self).power_of(proposer) > 0 && version_newer(new_version, old(self).parameters.version)
                && !spec_impact_complete(impact_analysis) ==> r == Err::<crate::types::Hash, MetaGovernanceError>(
                MetaGovernanceError::IncompleteImpactAnalysis,
            ),
            r is Err ==> final(self).proposals == old(self).proposals && final(self).events == old(self).events,
            r is Ok <==> old(self).power_of(proposer) > 0 && version_newer(new_version, old(self).parameters.version)
                && spec_impact_complete(impact_analysis),
            match r {
                Ok(id) => {
                    &&& id.bytes@ == spec_hash_bytes(proposal_id_preimage(proposer, current_block, deposit))
                    &&& final(self).proposals@ == old(self).proposals@.insert(id, final(self).proposals@[id])
                    &&& final(self).proposals@[id].id == id
                    &&& final(self).proposals@[id].proposer == proposer
                    &&& final(self).proposals@[id].proposal_type == (UpgradeProposalType::VersionUpgrade {
                        new_version,
                        changelog,
                        breaking_changes,
                    })
                    &&& final(self).proposals@[id].status == UpgradeStatus::Signaling
                    &&& final(self).proposals@[id].created_at == current_block
                    &&& final(self).proposals@[id].voting_started is None
                    &&& final(self).proposals@[id].voting_ended is None
                    &&& final(self).proposals@[id].yes_votes == 0
                    &&& final(self).proposals@[id].no_votes == 0
                    &&& final(self).proposals@[id].voters@ == Map::<AccountId, bool>::empty()
                    &&& final(self).proposals@[id].chain_signals@ == Map::<ChainId, ChainSignal>::empty()
                    &&& final(self).proposals@[id].impact_analysis == impact_analysis
                    &&& final(self).proposals@[id].deposit == deposit
                    &&& one_more_event(old(self).events@, final(self).events@)
                    &&& is_created_event(final(self).events@.last(), id, proposer, "VersionUpgrade"@)
                },
                Err(_) => true,
            },
    {
        if self.power_of_exec(&proposer) == 0 {
            return Err(MetaGovernanceError::NoVotingPower);
        }
        if !new_version.is_newer(&self.parameters.version) {
            return Err(MetaGovernanceError::InvalidVersion);
        }
        if !impact_analysis.is_complete() {
            return Err(MetaGovernanceError::IncompleteImpactAnalysis);
        }
        let proposal = UpgradeProposal::new(
            proposer,
            UpgradeProposalType::VersionUpgrade { new_version, changelog, breaking_changes },
            impact_analysis,
            deposit,
            current_block,
        );
        let id = proposal.id;
        let ghost before = self.proposals;
        self.proposals.insert(id, proposal);
        proof {
            assert(self.proposals@ =~= before@.insert(id, self.proposals@[id]));
        }
        self.events.push(
            MetaGovernanceEvent::ProposalCreated { proposal_id: id, proposer, proposal_type: "VersionUpgrade".to_owned() },
        );
        proof {
            assert(self.events@.drop_last() =~= old(self).events@);
        }
        Ok(id)
    }

    /// Position of proposal `id`, or ProposalNotFound.
    fn proposal_index(&self, id: &crate::types::Hash) -> (r: Result<usize, MetaGovernanceError>)
        requires
            self.proposals.wf(),
        ensures
            match r {
                Ok(i) => i < self.proposals.key_seq().len() && self.proposals.key_seq()[i as int] == *id
                    && self.proposals@.contains_key(*id) && self.proposals@[*id] == self.proposals.val_seq()[i as int],
                Err(e) => e == MetaGovernanceError::ProposalNotFound && !self.proposals@.contains_key(*id),
            },
    {
        match self.proposals.find(id) {
            Some(i) => Ok(i),
            None => Err(MetaGovernanceError::ProposalNotFound),
        }
    }

    /// Records a registered chain's signal on a version upgrade in signalling.
    pub fn submit_chain_signal(
        &mut self,
        proposal_id: crate::types::Hash,
        chain_id: ChainId,
        supports: bool,
        current_block: BlockNumber,
    ) -> (r: Result<(), MetaGovernanceError>)
        requires
            old(self).inv(),
        ensures
            final(self).inv(),
            same_but_proposals(final(self), old(self)),
            !old(self).proposals@.contains_key(proposal_id) ==> r == Err::<(), MetaGovernanceError>(
                MetaGovernanceError::ProposalNotFound,
            ),
            old(self).proposals@.contains_key(proposal_id) && old(self).proposals@[proposal_id].status
                != UpgradeStatus::Signaling ==> r == Err::<(), MetaGovernanceError>(MetaGovernanceError::NotInSignalingPhase),
            old(self).proposals@.contains_key(proposal_id) && old(self).proposals@[proposal_id].status
                == UpgradeStatus::Signaling && !old(self).registered_chains@.contains_key(chain_id) ==> r == Err::<
                (),
                MetaGovernanceError,
            >(MetaGovernanceError::ChainNotRegistered),
            r is Err ==> final(self).proposals == old(self).proposals && final(self).events == old(self).events,
            r is Ok <==> old(self).proposals@.contains_key(proposal_id) && old(self).proposals@[proposal_id].status
                == UpgradeStatus::Signaling && old(self).registered_chains@.contains_key(chain_id),
            r is Ok ==> {
                &&& final(self).proposals@ == old(self).proposals@.insert(proposal_id, final(self).proposals@[proposal_id])
                &&& final(self).proposals@[proposal_id].chain_signals@ == old(self).proposals@[proposal_id].chain_signals@.insert(
                    chain_id,
                    ChainSignal {
                        chain_id,
                        supports,
                        signaled_at: current_block,
                        validator_count: old(self).registered_chains@[chain_id].validator_count,
                    },
                )
                &&& final(self).proposals@[proposal_id] == (UpgradeProposal {
                    chain_signals: final(self).proposals@[proposal_id].chain_signals,
                    ..old(self).proposals@[proposal_id]
                })
                &&& final(self).events@ == old(self).events@.push(
                    MetaGovernanceEvent::ChainSignaled { proposal_id, chain_id, supports },
                )
            },
    {
        let i = self.proposal_index(&proposal_id)?;
        proof {
            self.proposals.lemma_wf();
        }
        if self.proposals.val_at(i).status != UpgradeStatus::Signaling {
            return Err(MetaGovernanceError::NotInSignalingPhase);
        }
        let validator_count = match self.registered_chains.get(&chain_id) {
            Some(info) => info.validator_count,
            None => {
                return Err(MetaGovernanceError::ChainNotRegistered);
            },
        };
        let ghost before = self.proposals;
        proof {
            assert(before@.contains_key(proposal_id));
            assert(before@[proposal_id].wf());
        }
        let p = self.proposals.val_at_mut(i);
        p.chain_signals.insert(chain_id, ChainSignal { chain_id, supports, signaled_at: current_block, validator_count });
        proof {
            let nv = self.proposals.val_seq()[i as int];
            VecMap::lemma_update_at(&before, &self.proposals, i as int, nv);
            assert forall|k: crate::types::Hash| #[trigger] self.proposals@.contains_key(k) implies self.proposals@[k].wf() by {
                if k != proposal_id {
                    assert(before@.contains_key(k));
                }
            }
        }
        self.events.push(MetaGovernanceEvent::ChainSignaled { proposal_id, chain_id, supports });
        Ok(())
    }

    /// Validators over all registered chains.
    fn total_chain_validators(&self) -> (t: u128)
        requires
            self.registered_chains.wf(),
        ensures
            t == chain_validator_total(self.registered_chains.val_seq()),
    {
        let ghost vals = self.registered_chains.val_seq();
        proof {
            self.registered_chains.lemma_wf();
        }
        let n = self.registered_chains.len();
        let mut t: u128 = 0;
        let mut i: usize = 0;
        while i < n
            invariant
                self.registered_chains.wf(),
                vals == self.registered_chains.val_seq(),
                n == vals.len(),
                n == self.registered_chains.key_seq().len(),
                i <= n,
                t == chain_validator_total(vals.take(i as int)),
                t <= i * 0xFFFF_FFFFu128,
            decreases n - i,
        {
            proof {
                assert(vals.take(i + 1).drop_last() =~= vals.take(i as int));
            }
            t = t + self.registered_chains.val_at(i).validator_count as u128;
            i = i + 1;
        }
        proof {
            assert(vals.take(n as int) =~= vals);
        }
        t
    }

    /// Moves a version upgrade from signalling to voting once SIGNALING_PERIOD
    /// has passed and the chains supporting it hold CHAIN_ADOPTION_THRESHOLD
    /// percent of the registered validators; without that adoption the
    /// proposal is rejected.
    pub fn advance_to_voting(&mut self, proposal_id: crate::types::Hash, current_block: BlockNumber) -> (r: Result<
        (),
        MetaGovernanceError,
    >)
        requires
            old(self).inv(),
        ensures
            final(self).inv(),
            same_but_proposals(final(self), old(self)),
            !old(self).proposals@.contains_key(proposal_id) ==> r == Err::<(), MetaGovernanceError>(
                MetaGovernanceError::ProposalNotFound,
            ) && final(self).proposals == old(self).proposals && final(self).events == old(self).events,
            old(self).proposals@.contains_key(proposal_id) && old(self).proposals@[proposal_id].status
                != UpgradeStatus::Signaling ==> r == Err::<(), MetaGovernanceError>(MetaGovernanceError::NotInSignalingPhase)
                && final(self).proposals == old(self).proposals && final(self).events == old(self).events,
            old(self).proposals@.contains_key(proposal_id) && old(self).proposals@[proposal_id].status
                == UpgradeStatus::Signaling && current_block < old(self).proposals@[proposal_id].created_at
                + SIGNALING_PERIOD ==> r == Err::<(), MetaGovernanceError>(
                MetaGovernanceError::SignalingPeriodNotElapsed,
            ) && final(self).proposals == old(self).proposals && final(self).events == old(self).events,
            old(self).proposals@.contains_key(proposal_id) && old(self).proposals@[proposal_id].status
                == UpgradeStatus::Signaling && current_block >= old(self).proposals@[proposal_id].created_at
                + SIGNALING_PERIOD ==> {
                &&& final(self).proposals@ == old(self).proposals@.insert(proposal_id, final(self).proposals@[proposal_id])
                &&& if adoption_percent(
                    supporting_validator_total(old(self).proposals@[proposal_id].chain_signals.val_seq()),
                    chain_validator_total(old(self).registered_chains.val_seq()),
                ) < CHAIN_ADOPTION_THRESHOLD {
                    &&& r == Err::<(), MetaGovernanceError>(MetaGovernanceError::InsufficientChainAdoption)
                    &&& final(self).proposals@[proposal_id] == (UpgradeProposal {
                        status: UpgradeStatus::Rejected,
                        ..old(self).proposals@[proposal_id]
                    })
                    &&& one_more_event(old(self).events@, final(self).events@)
                    &&& is_rejected_event(final(self).events@.last(), proposal_id, "Insufficient chain adoption"@)
                } else {
                    &&& r is Ok
                    &&& final(self).proposals@[proposal_id] == (UpgradeProposal {
                        status: UpgradeStatus::Voting,
                        voting_started: Some(current_block),
                        ..old(self).proposals@[proposal_id]
                    })
                    &&& final(self).events@ == old(self).events@.push(MetaGovernanceEvent::VotingStarted { proposal_id })
                }
            },
    {
        let i = self.proposal_index(&proposal_id)?;
        proof {
            self.proposals.lemma_wf();
        }
        if self.proposals.val_at(i).status != UpgradeStatus::Signaling {
            return Err(MetaGovernanceError::NotInSignalingPhase);
        }
        if (current_block as u128) < (self.proposals.val_at(i).created_at as u128) + (SIGNALING_PERIOD as u128) {
            return Err(MetaGovernanceError::SignalingPeriodNotElapsed);
        }
        let total_validators = self.total_chain_validators();
        let supporting = supporting_total(&self.proposals.val_at(i).chain_signals);
        let adoption: u8 = if total_validators > 0 {
            ((supporting * 100) / total_validators) as u8
        } else {
            0
        };
        let ghost before = self.proposals;
        let p = self.proposals.val_at_mut(i);
        if adoption < CHAIN_ADOPTION_THRESHOLD {
            p.status = UpgradeStatus::Rejected;
            proof {
                let nv = self.proposals.val_seq()[i as int];
                VecMap::lemma_update_at(&before, &self.proposals, i as int, nv);
            }
            self.events.push(
                MetaGovernanceEvent::ProposalRejected { proposal_id, reason: "Insufficient chain adoption".to_owned() },
            );
            proof {
                assert(self.events@.drop_last() =~= old(self).events@);
            }
            return Err(MetaGovernanceError::InsufficientChainAdoption);
        }
        p.status = UpgradeStatus::Voting;
        p.voting_started = Some(current_block);
        proof {
            let nv = self.proposals.val_seq()[i as int];
            VecMap::lemma_update_at(&before, &self.proposals, i as int, nv);
        }
        self.events.push(MetaGovernanceEvent::VotingStarted { proposal_id });
        Ok(())
    }

    /// The first check `vote` fails, if any.
    pub open spec fn vote_error(&self, proposal_id: crate::types::Hash, voter: AccountId, current_block: BlockNumber) -> Option<
        MetaGovernanceError,
    > {
        if self.power_of(voter) == 0 {
            Some(MetaGovernanceError::NoVotingPower)
        } else if !self.proposals@.contains_key(proposal_id) {
            Some(MetaGovernanceError::ProposalNotFound)
        } else if !self.proposals@[proposal_id].spec_voting_open(
            current_block,
            self.parameters.governance.voting_period.current,
        ) {
            Some(MetaGovernanceError::VotingNotOpen)
        } else if self.proposals@[proposal_id].voters@.contains_key(voter) {
            Some(MetaGovernanceError::AlreadyVoted)
        } else {
            None
        }
    }

    /// Casts `voter`'s vote, weighted by its voting power, on an open vote.
    pub fn vote(&mut self, proposal_id: crate::types::Hash, voter: AccountId, support: bool, current_block: BlockNumber) -> (r:
        Result<(), MetaGovernanceError>)
        requires
            old(self).inv(),
            old(self).vote_error(proposal_id, voter, current_block) is None ==> if support {
                old(self).proposals@[proposal_id].yes_votes + old(self).power_of(voter) <= u128::MAX
            } else {
                old(self).proposals@[proposal_id].no_votes + old(self).power_of(voter) <= u128::MAX
            },
        ensures
            final(self).inv(),
            same_but_proposals(final(self), old(self)),
            old(self).vote_error(proposal_id, voter, current_block) is Some ==> r == Err::<(), MetaGovernanceError>(
                old(self).vote_error(proposal_id, voter, current_block)->0,
            ) && final(self).proposals == old(self).proposals && final(self).events == old(self).events,
            old(self).vote_error(proposal_id, voter, current_block) is None ==> {
                &&& r is Ok
                &&& final(self).proposals@ == old(self).proposals@.insert(proposal_id, final(self).proposals@[proposal_id])
                &&& final(self).proposals@[proposal_id].voters@ == old(self).proposals@[proposal_id].voters@.insert(
                    voter,
                    support,
                )
                &&& final(self).proposals@[proposal_id] == (UpgradeProposal {
                    voters: final(self).proposals@[proposal_id].voters,
                    yes_votes: if support {
                        (old(self).proposals@[proposal_id].yes_votes + old(self).power_of(voter)) as u128
                    } else {
                        old(self).proposals@[proposal_id].yes_votes
                    },
                    no_votes: if support {
                        old(self).proposals@[proposal_id].no_votes
                    } else {
                        (old(self).proposals@[proposal_id].no_votes + old(self).power_of(voter)) as u128
                    },
                    ..old(self).proposals@[proposal_id]
                })
                &&& final(self).events@ == old(self).events@.push(
                    MetaGovernanceEvent::VoteCast { proposal_id, voter, support, weight: old(self).power_of(voter) },
                )
            },
    {
        let voting_period = self.parameters.governance.voting_period.value();
        let power = self.power_of_exec(&voter);
        if power == 0 {
            return Err(MetaGovernanceError::NoVotingPower);
        }
        let i = self.proposal_index(&proposal_id)?;
        proof {
            self.proposals.lemma_wf();
        }
        if !self.proposals.val_at(i).is_voting_open(current_block, voting_period) {
            return Err(MetaGovernanceError::VotingNotOpen);
        }
        proof {
            assert(self.proposals@[proposal_id].wf());
        }
        if self.proposals.val_at(i).voters.contains_key(&voter) {
            return Err(MetaGovernanceError::AlreadyVoted);
        }
        let ghost before = self.proposals;
        let p = self.proposals.val_at_mut(i);
        p.voters.insert(voter, support);
        if support {
            p.yes_votes = p.yes_votes + power;
        } else {
            p.no_votes = p.no_votes + power;
        }
        proof {
            let nv = self.proposals.val_seq()[i as int];
            VecMap::lemma_update_at(&before, &self.proposals, i as int, nv);
            assert forall|k: crate::types::Hash| #[trigger] self.proposals@.contains_key(k) implies self.proposals@[k].wf() by {
                if k != proposal_id {
                    assert(before@.contains_key(k));
                }
            }
        }
        self.events.push(MetaGovernanceEvent::VoteCast { proposal_id, voter, support, weight: power });
        Ok(())
    }

    /// Closes the vote of a proposal once the voting period is over: it is
    /// approved when its approval reaches its kind's threshold, else rejected.
    pub fn finalize_voting(&mut self, proposal_id: crate::types::Hash, current_block: BlockNumber) -> (r: Result<
        (),
        MetaGovernanceError,
    >)
        requires
            old(self).inv(),
            old(self).proposals@.contains_key(proposal_id) ==> {
                &&& old(self).proposals@[proposal_id].yes_votes + old(self).proposals@[proposal_id].no_votes
                    <= u128::MAX
                &&& old(self).proposals@[proposal_id].yes_votes * 100 <= u128::MAX
            },
        ensures
            final(self).inv(),
            same_but_proposals(final(self), old(self)),
            !old(self).proposals@.contains_key(proposal_id) ==> r == Err::<(), MetaGovernanceError>(
                MetaGovernanceError::ProposalNotFound,
            ),
            old(self).proposals@.contains_key(proposal_id) && old(self).proposals@[proposal_id].status
                != UpgradeStatus::Voting ==> r == Err::<(), MetaGovernanceError>(MetaGovernanceError::NotInVotingPhase),
            old(self).proposals@.contains_key(proposal_id) && old(self).proposals@[proposal_id].status
                == UpgradeStatus::Voting && old(self).proposals@[proposal_id].voting_started is None ==> r == Err::<
                (),
                MetaGovernanceError,
            >(MetaGovernanceError::VotingNotStarted),
            old(self).proposals@.contains_key(proposal_id) && old(self).proposals@[proposal_id].status
                == UpgradeStatus::Voting && old(self).proposals@[proposal_id].voting_started is Some && current_block
                < old(self).proposals@[proposal_id].voting_started->0 + old(self).parameters.governance.voting_period.current ==> r == Err::<(), MetaGovernanceError>(
                MetaGovernanceError::VotingPeriodNotElapsed,
            ),
            r is Err ==> final(self).proposals == old(self).proposals && final(self).events == old(self).events,
            r is Ok <==> old(self).proposals@.contains_key(proposal_id) && old(self).proposals@[proposal_id].status
                == UpgradeStatus::Voting && old(self).proposals@[proposal_id].voting_started is Some && current_block
                >= old(self).proposals@[proposal_id].voting_started->0 + old(self).parameters.governance.voting_period.current,
            r is Ok ==> final(self).proposals@ == old(self).proposals@.insert(
                proposal_id,
                (UpgradeProposal {
                    voting_ended: Some(current_block),
                    status: if old(self).proposals@[proposal_id].spec_passed() {
                        UpgradeStatus::Approved
                    } else {
                        UpgradeStatus::Rejected
                    },
                    ..old(self).proposals@[proposal_id]
                }),
            ),
            r is Ok ==> if old(self).proposals@[proposal_id].spec_passed() {
                final(self).events@ == old(self).events@.push(MetaGovernanceEvent::ProposalApproved { proposal_id })
            } else {
                one_more_event(old(self).events@, final(self).events@) && is_rejected_event(
                    final(self).events@.last(),
                    proposal_id,
                    "Did not reach threshold"@,
                )
            },
    {
        let voting_period = self.parameters.governance.voting_period.value();
        let i = self.proposal_index(&proposal_id)?;
        proof {
            self.proposals.lemma_wf();
        }
        if self.proposals.val_at(i).status != UpgradeStatus::Voting {
            return Err(MetaGovernanceError::NotInVotingPhase);
        }
        let started = match self.proposals.val_at(i).voting_started {
            Some(b) => b,
            None => {
                return Err(MetaGovernanceError::VotingNotStarted);
            },
        };
        if (current_block as u128) < (started as u128) + (voting_period as u128) {
            return Err(MetaGovernanceError::VotingPeriodNotElapsed);
        }
        let passed = self.proposals.val_at(i).passed();
        let ghost before = self.proposals;
        let p = self.proposals.val_at_mut(i);
        p.voting_ended = Some(current_block);
        if passed {
            p.status = UpgradeStatus::Approved;
        } else {
            p.status = UpgradeStatus::Rejected;
        }
        proof {
            let nv = self.proposals.val_seq()[i as int];
            VecMap::lemma_update_at(&before, &self.proposals, i as int, nv);
        }
        if passed {
            self.events.push(MetaGovernanceEvent::ProposalApproved { proposal_id });
        } else {
            self.events.push(
                MetaGovernanceEvent::ProposalRejected { proposal_id, reason: "Did not reach threshold".to_owned() },
            );
            proof {
                assert(self.events@.drop_last() =~= old(self).events@);
            }
        }
        Ok(())
    }

    /// Executes an approved proposal once its timelock has passed: the
    /// current parameters go to the history, then the proposal's changes are
    /// made in order (or its version adopted). A change refused on the way
    /// stops execution with the changes before it made.
    pub fn execute_proposal(&mut self, proposal_id: crate::types::Hash, current_block: BlockNumber) -> (r: Result<
        (),
        MetaGovernanceError,
    >)
        requires
            old(self).inv(),
        ensures
            final(self).inv(),
            final(self).registered_chains == old(self).registered_chains,
            final(self).voting_power == old(self).voting_power,
            final(self).total_voting_power == old(self).total_voting_power,
            crate::protocol::params_wf(old(self).parameters) ==> crate::protocol::params_wf(final(self).parameters),
            !old(self).proposals@.contains_key(proposal_id) ==> r == Err::<(), MetaGovernanceError>(
                MetaGovernanceError::ProposalNotFound,
            ),
            old(self).proposals@.contains_key(proposal_id) && old(self).proposals@[proposal_id].status
                != UpgradeStatus::Approved ==> r == Err::<(), MetaGovernanceError>(MetaGovernanceError::NotApproved),
            old(self).proposals@.contains_key(proposal_id) && old(self).proposals@[proposal_id].status
                == UpgradeStatus::Approved && !old(self).proposals@[proposal_id].spec_timelock_elapsed(current_block)
                ==> r == Err::<(), MetaGovernanceError>(MetaGovernanceError::TimelockNotElapsed),
            !(old(self).proposals@.contains_key(proposal_id) && old(self).proposals@[proposal_id].status
                == UpgradeStatus::Approved && old(self).proposals@[proposal_id].spec_timelock_elapsed(current_block))
                ==> {
                &&& final(self).parameters == old(self).parameters
                &&& final(self).parameter_history == old(self).parameter_history
                &&& final(self).proposals == old(self).proposals
                &&& final(self).executed_proposals == old(self).executed_proposals
                &&& final(self).events == old(self).events
            },
            old(self).proposals@.contains_key(proposal_id) && old(self).proposals@[proposal_id].status
                == UpgradeStatus::Approved && old(self).proposals@[proposal_id].spec_timelock_elapsed(current_block)
                ==> {
                &&& final(self).parameter_history@ == old(self).parameter_history@.push(
                    (current_block, old(self).parameters),
                )
                &&& if old(self).proposals@[proposal_id].proposal_type is VersionUpgrade {
                    &&& r is Ok
                    &&& final(self).parameters == (ProtocolParameters {
                        version: old(self).proposals@[proposal_id].proposal_type->new_version,
                        active_since: current_block,
                        ..old(self).parameters
                    })
                } else if run_changes(
                    old(self).parameters,
                    proposal_changes(old(self).proposals@[proposal_id].proposal_type),
                ).1 is Some {
                    &&& r == Err::<(), MetaGovernanceError>(
                        MetaGovernanceError::ParameterError(
                            run_changes(
                                old(self).parameters,
                                proposal_changes(old(self).proposals@[proposal_id].proposal_type),
                            ).1->0,
                        ),
                    )
                    &&& final(self).parameters == run_changes(
                        old(self).parameters,
                        proposal_changes(old(self).proposals@[proposal_id].proposal_type),
                    ).0
                    &&& final(self).proposals == old(self).proposals
                    &&& final(self).executed_proposals == old(self).executed_proposals
                    &&& final(self).events == old(self).events
                } else {
                    &&& r is Ok
                    &&& final(self).parameters == (ProtocolParameters {
                        active_since: current_block,
                        ..run_changes(
                            old(self).parameters,
                            proposal_changes(old(self).proposals@[proposal_id].proposal_type),
                        ).0
                    })
                }
                &&& r is Ok ==> {
                    &&& final(self).proposals@ == old(self).proposals@.insert(
                        proposal_id,
                        (UpgradeProposal { status: UpgradeStatus::Executed, ..old(self).proposals@[proposal_id] }),
                    )
                    &&& final(self).executed_proposals@ == old(self).executed_proposals@.push(proposal_id)
                    &&& final(self).events@ == old(self).events@.push(
                        MetaGovernanceEvent::ProposalExecuted { proposal_id, effective_block: current_block },
                    )
                }
            },
    {
        let i = self.proposal_index(&proposal_id)?;
        proof {
            self.proposals.lemma_wf();
        }
        if self.proposals.val_at(i).status != UpgradeStatus::Approved {
            return Err(MetaGovernanceError::NotApproved);
        }
        if !self.proposals.val_at(i).timelock_elapsed(current_block) {
            return Err(MetaGovernanceError::TimelockNotElapsed);
        }
        self.parameter_history.push((current_block, self.parameters));
        proof {
            if crate::protocol::params_wf(self.parameters) {
                law_changes_keep_parameters_constitutional(
                    self.parameters,
                    proposal_changes(self.proposals@[proposal_id].proposal_type),
                );
            }
        }
        match &self.proposals.val_at(i).proposal_type {
            UpgradeProposalType::ParameterChange { changes, .. } => {
                match apply_changes(&mut self.parameters, changes) {
                    Ok(()) => {},
                    Err(e) => {
                        return Err(MetaGovernanceError::from(e));
                    },
                }
            },
            UpgradeProposalType::VersionUpgrade { new_version, .. } => {
                self.parameters.version = *new_version;
            },
            UpgradeProposalType::EmergencyChange { changes, .. } => {
                match apply_changes(&mut self.parameters, changes) {
                    Ok(()) => {},
                    Err(e) => {
                        return Err(MetaGovernanceError::from(e));
                    },
                }
            },
        }
        self.parameters.active_since = current_block;
        let ghost before = self.proposals;
        let p = self.proposals.val_at_mut(i);
        p.status = UpgradeStatus::Executed;
        proof {
            let nv = self.proposals.val_seq()[i as int];
            VecMap::lemma_update_at(&before, &self.proposals, i as int, nv);
        }
        self.executed_proposals.push(proposal_id);
        self.events.push(MetaGovernanceEvent::ProposalExecuted { proposal_id, effective_block: current_block });
        Ok(())
    }

    /// The proposer withdraws a proposal not yet executed and gets its deposit back.
    pub fn cancel_proposal(&mut self, proposal_id: crate::types::Hash, caller: &AccountId) -> (r: Result<
        Balance,
        MetaGovernanceError,
    >)
        requires
            old(self).inv(),
        ensures
            final(self).inv(),
            same_but_proposals(final(self), old(self)),
            !old(self).proposals@.contains_key(proposal_id) ==> r == Err::<Balance, MetaGovernanceError>(
                MetaGovernanceError::ProposalNotFound,
            ),
            old(self).proposals@.contains_key(proposal_id) && old(self).proposals@[proposal_id].proposer != *caller
                ==> r == Err::<Balance, MetaGovernanceError>(MetaGovernanceError::NotProposer),
            old(self).proposals@.contains_key(proposal_id) && old(self).proposals@[proposal_id].proposer == *caller
                && old(self).proposals@[proposal_id].status == UpgradeStatus::Executed ==> r == Err::<
                Balance,
                MetaGovernanceError,
            >(MetaGovernanceError::AlreadyExecuted),
            r is Err ==> final(self).proposals == old(self).proposals && final(self).events == old(self).events,
            r is Ok <==> old(self).proposals@.contains_key(proposal_id) && old(self).proposals@[proposal_id].proposer
                == *caller && old(self).proposals@[proposal_id].status != UpgradeStatus::Executed,
            match r {
                Ok(deposit) => {
                    &&& deposit == old(self).proposals@[proposal_id].deposit
                    &&& final(self).proposals@ == old(self).proposals@.insert(
                        proposal_id,
                        (UpgradeProposal { status: UpgradeStatus::Cancelled, ..old(self).proposals@[proposal_id] }),
                    )
                    &&& final(self).events@ == old(self).events@.push(MetaGovernanceEvent::ProposalCancelled { proposal_id })
                },
                Err(_) => true,
            },
    {
        let i = self.proposal_index(&proposal_id)?;
        proof {
            self.proposals.lemma_wf();
        }
        if !self.proposals.val_at(i).proposer.key_eq(caller) {
            return Err(MetaGovernanceError::NotProposer);
        }
        if self.proposals.val_at(i).status == UpgradeStatus::Executed {
            return Err(MetaGovernanceError::AlreadyExecuted);
        }
        let ghost before = self.proposals;
        let p = self.proposals.val_at_mut(i);
        let deposit = p.deposit;
        p.status = UpgradeStatus::Cancelled;
        proof {
            let nv = self.proposals.val_seq()[i as int];
            VecMap::lemma_update_at(&before, &self.proposals, i as int, nv);
        }
        self.events.push(MetaGovernanceEvent::ProposalCancelled { proposal_id });
        Ok(deposit)
    }

    /// Whether every change is constitutional against the current parameters.
    pub fn check_constitutional_compliance(&self, changes: &[ParameterChange]) -> (r: Result<(), MetaGovernanceError>)
        ensures
            r is Ok <==> all_constitutional(changes@, self.parameters),
            r is Err ==> r == Err::<(), MetaGovernanceError>(MetaGovernanceError::ConstitutionalViolation),
    {
        if self.all_constitutional_exec(changes) {
            Ok(())
        } else {
            Err(MetaGovernanceError::ConstitutionalViolation)
        }
    }

    pub fn get_proposal(&self, proposal_id: &crate::types::Hash) -> (r: Option<&UpgradeProposal>)
        requires
            self.inv(),
        ensures
            match r {
                Some(p) => self.proposals@.contains_key(*proposal_id) && *p == self.proposals@[*proposal_id],
                None => !self.proposals@.contains_key(*proposal_id),
            },
    {
        self.proposals.get(proposal_id)
    }

    /// Proposals that are not over (executed, rejected or cancelled), in proposal order.
    pub fn get_active_proposals(&self) -> (r: Vec<&UpgradeProposal>)
        requires
            self.inv(),
        ensures
            r@.len() == self.proposals.val_seq().filter(active_proposal_pred()).len(),
            forall|j: int| 0 <= j < r@.len() ==> *r@[j] == self.proposals.val_seq().filter(active_proposal_pred())[j],
    {
        let ghost vals = self.proposals.val_seq();
        proof {
            self.proposals.lemma_wf();
        }
        let n = self.proposals.len();
        let mut out: Vec<&UpgradeProposal> = Vec::new();
        let mut i: usize = 0;
        while i < n
            invariant
                self.proposals.wf(),
                vals == self.proposals.val_seq(),
                n == vals.len(),
                n == self.proposals.key_seq().len(),
                i <= n,
                out@.len() == vals.take(i as int).filter(active_proposal_pred()).len(),
                forall|j: int| 0 <= j < out@.len() ==> *out@[j] == vals.take(i as int).filter(active_proposal_pred())[j],
            decreases n - i,
        {
            proof {
                reveal_with_fuel(Seq::<_>::filter, 1);
                assert(vals.take(i + 1).drop_last() =~= vals.take(i as int));
                assert(vals.take(i + 1).last() == vals[i as int]);
            }
            let p = self.proposals.val_at(i);
            let st = p.status;
            if !(st == UpgradeStatus::Executed || st == UpgradeStatus::Rejected || st == UpgradeStatus::Cancelled
                || st == UpgradeStatus::ConstitutionallyRejected) {
                out.push(p);
            }
            i = i + 1;
        }
        proof {
            assert(vals.take(n as int) =~= vals);
        }
        out
    }

    pub fn get_parameter_history(&self) -> (r: &[(BlockNumber, ProtocolParameters)])
        ensures
            r@ == self.parameter_history@,
    {
        self.parameter_history.as_slice()
    }

    pub fn events(&self) -> (r: &[MetaGovernanceEvent])
        ensures
            r@ == self.events@,
    {
        self.events.as_slice()
    }

    pub fn clear_events(&mut self)
        ensures
            final(self).events@ == Seq::<MetaGovernanceEvent>::empty(),
            *final(self) == (MetaGovernanceContract { events: final(self).events, ..*old(self) }),
    {
        self.events = Vec::new();
    }
}

impl Default for MetaGovernanceContract {
    fn default() -> (c: Self)
        ensures
            c.inv(),
            c.parameters == crate::protocol::spec_genesis(),
            c.proposals@ == Map::<crate::types::Hash, UpgradeProposal>::empty(),
            c.parameter_history@ == Seq::<(BlockNumber, ProtocolParameters)>::empty(),
    {
        Self::new()
    }
}

} // verus!

//! Emergency powers: a validator vote (or an automatic trigger) declares a
//! time-limited emergency; circuit breakers react to failure signals; a
//! recovery process walks through fixed steps; checkpoints are kept at a
//! fixed interval.
use crate::types::{AccountId, BlockNumber, ChainId};
use crate::vecmap::{vec_contains, vec_copy, MapKey, VecMap};
use vstd::prelude::*;

verus! {

/// Approval (in percent of the total voting power) that declares an emergency.
pub const EMERGENCY_APPROVAL_THRESHOLD: u8 = 75;

/// An emergency lasts at most 7 days (in 6 s blocks).
pub const EMERGENCY_MAX_DURATION: BlockNumber = 100_800;

/// Recent signals needed for an automatic emergency.
pub const MIN_SIGNALS_FOR_EMERGENCY: usize = 2;

/// Total severity of the recent signals needed for an automatic emergency.
pub const MIN_SEVERITY_FOR_EMERGENCY: u64 = 12;

/// How long a triggered breaker stays active (1 day).
pub const DEFAULT_BREAKER_DURATION: BlockNumber = 14_400;

pub const EMERGENCY_PROPOSAL_DEPOSIT: u128 = 10_000;

pub const EMERGENCY_VOTING_PERIOD: BlockNumber = 2_400;

/// Blocks after an emergency ends before another can be declared.
pub const EMERGENCY_COOLDOWN: BlockNumber = 14_400;

pub const MAX_ACTIVE_BREAKERS: usize = 10;

pub const CHECKPOINT_INTERVAL: BlockNumber = 1_000;

pub const MAX_CHECKPOINTS: usize = 100;

/// Signals younger than this many blocks count as recent.
pub const RECENT_SIGNAL_WINDOW: BlockNumber = 1_000;

/// Signals younger than this many blocks survive pruning.
pub const SIGNAL_RETENTION: BlockNumber = 10_000;

/// Highest quorum an emergency action may set.
pub const MAX_EMERGENCY_QUORUM: u8 = 80;

#[derive(Debug, Clone, Copy, PartialEq, Eq, Structural)]
pub enum FailureSignal {
    ConsensusStall { epochs_stalled: u32 },
    ValidatorMassOffline { offline_count: u32, total_validators: u32 },
    StateRootDivergence { block_number: BlockNumber },
    SlashingSpike { events_count: u32, epoch: u64 },
    GovernanceQuorumFailure { consecutive_failures: u32, proposal_id: u64 },
}

impl FailureSignal {
    /// Offline counts never exceed the validator count.
    pub open spec fn valid(&self) -> bool {
        match *self {
            FailureSignal::ValidatorMassOffline { offline_count, total_validators } => offline_count
                <= total_validators,
            _ => true,
        }
    }

    /// Severity on a 0..=10 scale.
    pub open spec fn spec_severity(&self) -> u8 {
        match *self {
            FailureSignal::ConsensusStall { epochs_stalled } => if epochs_stalled >= 5 {
                10
            } else {
                (epochs_stalled * 2) as u8
            },
            FailureSignal::ValidatorMassOffline { offline_count, total_validators } => {
                let t: int = if total_validators == 0 {
                    1
                } else {
                    total_validators as int
                };
                let pct = (offline_count as int * 100) / t;
                if pct >= 100 {
                    10
                } else {
                    (pct / 10) as u8
                }
            },
            FailureSignal::StateRootDivergence { .. } => 10,
            FailureSignal::SlashingSpike { events_count, .. } => if events_count >= 10 {
                10
            } else {
                events_count as u8
            },
            FailureSignal::GovernanceQuorumFailure { consecutive_failures, .. } => if consecutive_failures
                >= 5 {
                10
            } else {
                (consecutive_failures * 2) as u8
            },
        }
    }

    pub fn severity(&self) -> (s: u8)
        ensures
            s == self.spec_severity(),
    {
        match *self {
            FailureSignal::ConsensusStall { epochs_stalled } => if epochs_stalled >= 5 {
                10
            } else {
                (epochs_stalled * 2) as u8
            },
            FailureSignal::ValidatorMassOffline { offline_count, total_validators } => {
                let t: u64 = if total_validators == 0 {
                    1
                } else {
                    total_validators as u64
                };
                let pct: u64 = (offline_count as u64 * 100) / t;
                if pct >= 100 {
                    10
                } else {
                    (pct / 10) as u8
                }
            },
            FailureSignal::StateRootDivergence { .. } => 10,
            FailureSignal::SlashingSpike { events_count, .. } => if events_count >= 10 {
                10
            } else {
                events_count as u8
            },
            FailureSignal::GovernanceQuorumFailure { consecutive_failures, .. } => if consecutive_failures
                >= 5 {
                10
            } else {
                (consecutive_failures * 2) as u8
            },
        }
    }
}

#[derive(Debug, Clone, Copy, PartialEq, Eq, Structural)]
pub enum BreakerCondition {
    FinalityDelay { epochs_threshold: u32 },
    ValidatorParticipation { min_percent: u8 },
    StateRootMismatch,
    SlashingSpike { max_events_per_epoch: u32 },
    GovernanceDeadlock { failed_proposals: u32 },
}

#[derive(Debug, Clone, PartialEq, Eq)]
pub enum BreakerAction {
    SlowBlockTime { factor: u32 },
    ExtendTimelocks { multiplier: u32 },
    TriggerEmergency,
    SuspendRiskyOperations { operations: Vec<String> },
    RaiseQuorum { additional_percent: u8 },
}

/// Whether `signal` meets `condition`.
pub open spec fn spec_signal_matches(signal: FailureSignal, condition: BreakerCondition) -> bool {
    match (signal, condition) {
        (
            FailureSignal::ConsensusStall { epochs_stalled },
            BreakerCondition::FinalityDelay { epochs_threshold },
        ) => epochs_stalled >= epochs_threshold,
        (
            FailureSignal::ValidatorMassOffline { offline_count, total_validators },
            BreakerCondition::ValidatorParticipation { min_percent },
        ) => {
            let t: int = if total_validators == 0 {
                1
            } else {
                total_validators as int
            };
            100 - (offline_count as int * 100) / t < min_percent as int
        },
        (FailureSignal::StateRootDivergence { .. }, BreakerCondition::StateRootMismatch) => true,
        (
            FailureSignal::SlashingSpike { events_count, .. },
            BreakerCondition::SlashingSpike { max_events_per_epoch },
        ) => events_count > max_events_per_epoch,
        (
            FailureSignal::GovernanceQuorumFailure { consecutive_failures, .. },
            BreakerCondition::GovernanceDeadlock { failed_proposals },
        ) => consecutive_failures >= failed_proposals,
        _ => false,
    }
}

pub fn signal_matches_condition(signal: &FailureSignal, condition: &BreakerCondition) -> (b: bool)
    requires
        signal.valid(),
    ensures
        b == spec_signal_matches(*signal, *condition),
{
    match (signal, condition) {
        (
            FailureSignal::ConsensusStall { epochs_stalled },
            BreakerCondition::FinalityDelay { epochs_threshold },
        ) => *epochs_stalled >= *epochs_threshold,
        (
            FailureSignal::ValidatorMassOffline { offline_count, total_validators },
            BreakerCondition::ValidatorParticipation { min_percent },
        ) => {
            let t: u64 = if *total_validators == 0 {
                1
            } else {
                *total_validators as u64
            };
            let offline_percent: u64 = (*offline_count as u64 * 100) / t;
            proof {
                let o = *offline_count as int;
                let tt = t as int;
                assert((o * 100) / tt <= 100) by (nonlinear_arith)
                    requires
                        0 <= o <= tt,
                        tt >= 1,
                ;
            }
            100 - offline_percent < *min_percent as u64
        },
        (FailureSignal::StateRootDivergence { .. }, BreakerCondition::StateRootMismatch) => true,
        (
            FailureSignal::SlashingSpike { events_count, .. },
            BreakerCondition::SlashingSpike { max_events_per_epoch },
        ) => *events_count > *max_events_per_epoch,
        (
            FailureSignal::GovernanceQuorumFailure { consecutive_failures, .. },
            BreakerCondition::GovernanceDeadlock { failed_proposals },
        ) => *consecutive_failures >= *failed_proposals,
        _ => false,
    }
}


/// `a` and `b` hold the same text.
pub fn str_eq(a: &str, b: &str) -> (r: bool)
    ensures
        r == (a@ == b@),
{
    a.to_owned() == b.to_owned()
}

#[derive(Debug, Clone, PartialEq, Eq)]
pub struct ParameterTightening {
    pub parameter: String,
    pub original: u64,
    pub tightened: u64,
}

#[derive(Debug, Clone, PartialEq, Eq)]
pub enum EmergencyAction {
    PauseBlockProduction { started_at: BlockNumber, max_duration: BlockNumber },
    FreezeGovernance { until: BlockNumber },
    HaltSlashing { reason: String },
    HaltSidechainCreation,
    TightenParameters { changes: Vec<ParameterTightening> },
    IncreaseQuorum { new_quorum: u8 },
}

#[derive(Debug, Clone, PartialEq, Eq)]
pub enum EmergencyTrigger {
    ValidatorVote { approval_percent: u8, voter_count: u32 },
    CircuitBreakerTriggered { breaker_id: String },
    MultipleSignals { signals: Vec<FailureSignal> },
}

impl EmergencyTrigger {
    /// A copy of the trigger.
    pub fn copy(&self) -> (r: EmergencyTrigger)
        ensures
            same_trigger(r, *self),
    {
        match self {
            EmergencyTrigger::ValidatorVote { approval_percent, voter_count } => EmergencyTrigger::ValidatorVote {
                approval_percent: *approval_percent,
                voter_count: *voter_count,
            },
            EmergencyTrigger::CircuitBreakerTriggered { breaker_id } => EmergencyTrigger::CircuitBreakerTriggered {
                breaker_id: breaker_id.clone(),
            },
            EmergencyTrigger::MultipleSignals { signals } => EmergencyTrigger::MultipleSignals {
                signals: vec_copy(signals),
            },
        }
    }
}

impl ParameterTightening {
    pub fn copy(&self) -> (r: ParameterTightening)
        ensures
            r == *self,
    {
        ParameterTightening { parameter: self.parameter.clone(), original: self.original, tightened: self.tightened }
    }
}

impl EmergencyAction {
    /// A copy of the action.
    pub fn copy(&self) -> (r: EmergencyAction)
        ensures
            same_action(r, *self),
    {
        match self {
            EmergencyAction::PauseBlockProduction { started_at, max_duration } => EmergencyAction::PauseBlockProduction {
                started_at: *started_at,
                max_duration: *max_duration,
            },
            EmergencyAction::FreezeGovernance { until } => EmergencyAction::FreezeGovernance { until: *until },
            EmergencyAction::HaltSlashing { reason } => EmergencyAction::HaltSlashing { reason: reason.clone() },
            EmergencyAction::HaltSidechainCreation => EmergencyAction::HaltSidechainCreation,
            EmergencyAction::TightenParameters { changes } => {
                let mut out: Vec<ParameterTightening> = Vec::new();
                let mut i: usize = 0;
                while i < changes.len()
                    invariant
                        i <= changes@.len(),
                        out@ == changes@.take(i as int),
                    decreases changes@.len() - i,
                {
                    out.push(changes[i].copy());
                    proof {
                        assert(out@ =~= changes@.take(i + 1));
                    }
                    i = i + 1;
                }
                proof {
                    assert(changes@.take(changes@.len() as int) =~= changes@);
                }
                EmergencyAction::TightenParameters { changes: out }
            },
            EmergencyAction::IncreaseQuorum { new_quorum } => EmergencyAction::IncreaseQuorum {
                new_quorum: *new_quorum,
            },
        }
    }
}

/// The emergency currently declared, if any, and the vote towards one.
#[derive(Debug, Clone)]
pub struct EmergencyState {
    pub active: bool,
    pub declared_at: Option<BlockNumber>,
    pub trigger: Option<EmergencyTrigger>,
    pub expires_at: Option<BlockNumber>,
    pub actions_taken: Vec<EmergencyAction>,
    /// Validators that voted for an emergency (no repeats).
    pub declaring_validators: Vec<AccountId>,
    pub approval_power: u64,
    pub total_power: u64,
}

impl EmergencyState {
    pub open spec fn is_fresh(&self) -> bool {
        &&& !self.active
        &&& self.declared_at is None
        &&& self.trigger is None
        &&& self.expires_at is None
        &&& self.actions_taken@.len() == 0
        &&& self.declaring_validators@.len() == 0
        &&& self.approval_power == 0
        &&& self.total_power == 0
    }

    pub fn new() -> (s: Self)
        ensures
            s.is_fresh(),
    {
        EmergencyState {
            active: false,
            declared_at: None,
            trigger: None,
            expires_at: None,
            actions_taken: Vec::new(),
            declaring_validators: Vec::new(),
            approval_power: 0,
            total_power: 0,
        }
    }

    /// Approval power as a percentage of the total power, at most 100
    /// (0 when there is no power at all).
    pub open spec fn spec_approval_percent(&self) -> u8 {
        if self.total_power == 0 {
            0
        } else if self.approval_power as int * 100 / self.total_power as int >= 100 {
            100
        } else {
            (self.approval_power as int * 100 / self.total_power as int) as u8
        }
    }

    pub fn approval_percent(&self) -> (p: u8)
        ensures
            p == self.spec_approval_percent(),
    {
        if self.total_power == 0 {
            return 0;
        }
        let pct: u128 = (self.approval_power as u128 * 100) / self.total_power as u128;
        if pct >= 100 {
            100
        } else {
            pct as u8
        }
    }

    pub open spec fn spec_is_expired(&self, current_block: BlockNumber) -> bool {
        match self.expires_at {
            Some(e) => current_block >= e,
            None => false,
        }
    }

    pub fn is_expired(&self, current_block: BlockNumber) -> (b: bool)
        ensures
            b == self.spec_is_expired(current_block),
    {
        match self.expires_at {
            Some(e) => current_block >= e,
            None => false,
        }
    }
}

#[derive(Debug, Clone)]
pub struct CircuitBreaker {
    pub id: String,
    pub name: String,
    pub condition: BreakerCondition,
    pub action: BreakerAction,
    pub duration: BlockNumber,
    pub enabled: bool,
    pub is_active: bool,
    pub triggered_at: Option<BlockNumber>,
}

impl CircuitBreaker {
    pub fn new(
        id: String,
        name: String,
        condition: BreakerCondition,
        action: BreakerAction,
        duration: BlockNumber,
    ) -> (b: Self)
        ensures
            b == (CircuitBreaker {
                id,
                name,
                condition,
                action,
                duration,
                enabled: true,
                is_active: false,
                triggered_at: None,
            }),
    {
        CircuitBreaker { id, name, condition, action, duration, enabled: true, is_active: false, triggered_at: None }
    }

    pub open spec fn spec_triggered(self, current_block: BlockNumber) -> CircuitBreaker {
        CircuitBreaker { is_active: true, triggered_at: Some(current_block), ..self }
    }

    pub open spec fn spec_reset(self) -> CircuitBreaker {
        CircuitBreaker { is_active: false, triggered_at: None, ..self }
    }

    pub fn trigger(&mut self, current_block: BlockNumber)
        ensures
            *final(self) == old(self).spec_triggered(current_block),
    {
        self.is_active = true;
        self.triggered_at = Some(current_block);
    }

    pub fn reset(&mut self)
        ensures
            *final(self) == old(self).spec_reset(),
    {
        self.is_active = false;
        self.triggered_at = None;
    }

    /// Triggered at least `duration` blocks ago.
    pub open spec fn spec_is_expired(&self, current_block: BlockNumber) -> bool {
        match self.triggered_at {
            Some(t) => current_block >= t + self.duration,
            None => false,
        }
    }

    pub fn is_expired(&self, current_block: BlockNumber) -> (b: bool)
        ensures
            b == self.spec_is_expired(current_block),
    {
        match self.triggered_at {
            Some(t) => current_block >= t && current_block - t >= self.duration,
            None => false,
        }
    }
}

/// Circuit breakers by id, in registration order.
pub struct BreakerTable {
    pub entries: Vec<CircuitBreaker>,
}

impl BreakerTable {
    pub closed spec fn seq(&self) -> Seq<CircuitBreaker> {
        self.entries@
    }

    /// No two breakers share an id.
    pub open spec fn wf(&self) -> bool {
        forall|i: int, j: int|
            0 <= i < j < self.seq().len() ==> (#[trigger] self.seq()[i]).id@ != (#[trigger] self.seq()[j]).id@
    }

    pub open spec fn has(&self, id: Seq<char>) -> bool {
        exists|i: int| 0 <= i < self.seq().len() && (#[trigger] self.seq()[i]).id@ == id
    }

    /// Position of the breaker with id `id` (meaningful when `has(id)`).
    pub open spec fn index_of(&self, id: Seq<char>) -> int {
        choose|i: int| 0 <= i < self.seq().len() && (#[trigger] self.seq()[i]).id@ == id
    }

    pub proof fn lemma_index_of(&self, i: int)
        requires
            self.wf(),
            0 <= i < self.seq().len(),
        ensures
            self.index_of(self.seq()[i].id@) == i,
    {
        let id = self.seq()[i].id@;
        let j = self.index_of(id);
        assert(0 <= j < self.seq().len() && self.seq()[j].id@ == id);
        if j < i {
            assert(self.seq()[j].id@ != self.seq()[i].id@);
        } else if j > i {
            assert(self.seq()[i].id@ != self.seq()[j].id@);
        }
    }

    pub fn new() -> (t: Self)
        ensures
            t.seq() == Seq::<CircuitBreaker>::empty(),
    {
        BreakerTable { entries: Vec::new() }
    }

    pub fn len(&self) -> (n: usize)
        ensures
            n == self.seq().len(),
    {
        self.entries.len()
    }

    pub fn is_empty(&self) -> (b: bool)
        ensures
            b == (self.seq().len() == 0),
    {
        self.entries.len() == 0
    }

    /// Position of the breaker with id `id`.
    pub fn find(&self, id: &str) -> (r: Option<usize>)
        ensures
            match r {
                Some(i) => i < self.seq().len() && self.seq()[i as int].id@ == id@,
                None => !self.has(id@),
            },
    {
        let key = id.to_owned();
        let mut i: usize = 0;
        while i < self.entries.len()
            invariant
                i <= self.entries@.len(),
                key@ == id@,
                forall|j: int| 0 <= j < i ==> (#[trigger] self.entries@[j]).id@ != id@,
            decreases self.entries@.len() - i,
        {
            if self.entries[i].id == key {
                return Some(i);
            }
            i = i + 1;
        }
        None
    }

    pub fn contains_key(&self, id: &str) -> (b: bool)
        ensures
            b == self.has(id@),
    {
        self.find(id).is_some()
    }

    pub fn get(&self, id: &str) -> (r: Option<&CircuitBreaker>)
        requires
            self.wf(),
        ensures
            r is None <==> !self.has(id@),
            r is Some ==> exists|i: int|
                0 <= i < self.seq().len() && self.seq()[i].id@ == id@ && *r->0 == #[trigger] self.seq()[i],
    {
        match self.find(id) {
            Some(i) => Some(&self.entries[i]),
            None => None,
        }
    }

    /// Adds `b` under its id, replacing a breaker with the same id in place.
    pub fn insert(&mut self, b: CircuitBreaker)
        requires
            old(self).wf(),
        ensures
            final(self).wf(),
            old(self).has(b.id@) ==> exists|i: int|
                0 <= i < old(self).seq().len() && old(self).seq()[i].id@ == b.id@ && final(self).seq() == old(self).seq().update(i, b),
            !old(self).has(b.id@) ==> final(self).seq() == old(self).seq().push(b),
    {
        match self.find(b.id.as_str()) {
            Some(i) => {
                self.entries.set(i, b);
            },
            None => {
                self.entries.push(b);
            },
        }
    }

    /// Active breakers, in registration order.
    pub fn active(&self) -> (r: Vec<&CircuitBreaker>)
        ensures
            r@.len() == self.seq().filter(breaker_active_pred()).len(),
            forall|j: int| 0 <= j < r@.len() ==> *r@[j] == self.seq().filter(breaker_active_pred())[j],
    {
        let mut out: Vec<&CircuitBreaker> = Vec::new();
        let mut i: usize = 0;
        while i < self.entries.len()
            invariant
                i <= self.entries@.len(),
                out@.len() == self.entries@.take(i as int).filter(breaker_active_pred()).len(),
                forall|j: int|
                    0 <= j < out@.len() ==> *out@[j] == self.entries@.take(i as int).filter(
                        breaker_active_pred(),
                    )[j],
            decreases self.entries@.len() - i,
        {
            proof {
                assert(self.entries@.take(i + 1) =~= self.entries@.take(i as int).push(self.entries@[i as int]));
                self.entries@.take(i as int).lemma_filter_push(self.entries@[i as int], breaker_active_pred());
            }
            if self.entries[i].is_active {
                out.push(&self.entries[i]);
            }
            i = i + 1;
        }
        proof {
            assert(self.entries@.take(self.entries@.len() as int) =~= self.entries@);
        }
        out
    }
}

pub open spec fn breaker_active_pred() -> spec_fn(CircuitBreaker) -> bool {
    |b: CircuitBreaker| b.is_active
}


#[derive(Debug, Clone, Copy, PartialEq, Eq, Structural)]
pub enum RecoveryStep {
    Halt,
    StateAudit,
    ValidatorReconfirmation,
    ForkDecision,
    GradualRestart { phase: u8, max_phases: u8 },
    Complete,
}

/// The step after `step`; none after Complete. A gradual restart runs
/// phases 1 to 5.
pub open spec fn spec_next_step(step: RecoveryStep) -> Option<RecoveryStep> {
    match step {
        RecoveryStep::Halt => Some(RecoveryStep::StateAudit),
        RecoveryStep::StateAudit => Some(RecoveryStep::ValidatorReconfirmation),
        RecoveryStep::ValidatorReconfirmation => Some(RecoveryStep::ForkDecision),
        RecoveryStep::ForkDecision => Some(RecoveryStep::GradualRestart { phase: 1, max_phases: 5 }),
        RecoveryStep::GradualRestart { phase, max_phases } => if phase >= max_phases {
            Some(RecoveryStep::Complete)
        } else {
            Some(RecoveryStep::GradualRestart { phase: (phase + 1) as u8, max_phases })
        },
        RecoveryStep::Complete => None,
    }
}

/// Emergency powers cannot become permanent: every declaration sets an
/// expiry EMERGENCY_MAX_DURATION blocks after it, and from that block on
/// the emergency counts as expired, so `check_expiration` ends it.
pub proof fn law_emergency_never_permanent(
    s: EmergencyState,
    trigger: EmergencyTrigger,
    declared_at: BlockNumber,
    later: BlockNumber,
)
    requires
        declared_at + EMERGENCY_MAX_DURATION <= u64::MAX,
        later >= declared_at + EMERGENCY_MAX_DURATION,
    ensures
        spec_declare(s, trigger, declared_at).expires_at == Some((declared_at + EMERGENCY_MAX_DURATION) as u64),
        spec_declare(s, trigger, declared_at).spec_is_expired(later),
{
}

/// The step reached after `n` steps of recovery from `step` (staying at
/// Complete once there).
pub open spec fn steps_after(step: RecoveryStep, n: nat) -> RecoveryStep
    decreases n,
{
    if n == 0 {
        step
    } else {
        match spec_next_step(step) {
            Some(next) => steps_after(next, (n - 1) as nat),
            None => step,
        }
    }
}

/// Recovery is deterministic: from Halt, the steps are state audit,
/// validator reconfirmation, fork decision, then restart phases 1 to 5,
/// and the ninth step completes recovery.
pub proof fn law_recovery_deterministic()
    ensures
        steps_after(RecoveryStep::Halt, 1) == RecoveryStep::StateAudit,
        steps_after(RecoveryStep::Halt, 2) == RecoveryStep::ValidatorReconfirmation,
        steps_after(RecoveryStep::Halt, 3) == RecoveryStep::ForkDecision,
        steps_after(RecoveryStep::Halt, 4) == (RecoveryStep::GradualRestart { phase: 1, max_phases: 5 }),
        steps_after(RecoveryStep::Halt, 8) == (RecoveryStep::GradualRestart { phase: 5, max_phases: 5 }),
        steps_after(RecoveryStep::Halt, 9) == RecoveryStep::Complete,
        forall|n: nat| n >= 9 ==> #[trigger] steps_after(RecoveryStep::Halt, n) == RecoveryStep::Complete,
{
    reveal_with_fuel(steps_after, 10);
    assert forall|n: nat| n >= 9 implies #[trigger] steps_after(RecoveryStep::Halt, n) == RecoveryStep::Complete by {
        lemma_steps_split(RecoveryStep::Halt, 9, (n - 9) as nat);
        lemma_complete_stays((n - 9) as nat);
    }
}

proof fn lemma_steps_split(step: RecoveryStep, a: nat, b: nat)
    ensures
        steps_after(step, a + b) == steps_after(steps_after(step, a), b),
    decreases a,
{
    if a > 0 {
        match spec_next_step(step) {
            Some(next) => {
                assert((a + b - 1) as nat == (a - 1) as nat + b);
                lemma_steps_split(next, (a - 1) as nat, b);
            },
            None => {
                lemma_none_stays(step, b);
            },
        }
    }
}

proof fn lemma_none_stays(step: RecoveryStep, n: nat)
    requires
        spec_next_step(step) is None,
    ensures
        steps_after(step, n) == step,
    decreases n,
{
}

proof fn lemma_complete_stays(n: nat)
    ensures
        steps_after(RecoveryStep::Complete, n) == RecoveryStep::Complete,
{
    lemma_none_stays(RecoveryStep::Complete, n);
}

#[derive(Debug, Clone, Copy, PartialEq, Eq)]
pub struct Checkpoint {
    pub block_number: BlockNumber,
    pub state_root: crate::types::Hash,
    pub validator_set_hash: crate::types::Hash,
    pub created_at: BlockNumber,
    pub chain_id: ChainId,
}

#[derive(Debug, Clone)]
pub struct RecoveryProcess {
    pub current_step: RecoveryStep,
    pub started_at: BlockNumber,
    pub target_checkpoint: Option<Checkpoint>,
    /// Validators that confirmed (no repeats).
    pub confirmations: Vec<AccountId>,
    pub required_confirmations: u32,
}

#[derive(Debug, Clone, Copy, PartialEq, Eq, Structural)]
pub enum EmergencyOutcome {
    Expired,
    Resolved,
    Recovery,
    Fork,
}

#[derive(Debug, Clone)]
pub struct EmergencyRecord {
    pub declared_at: BlockNumber,
    pub ended_at: BlockNumber,
    pub trigger: EmergencyTrigger,
    pub actions: Vec<EmergencyAction>,
    pub outcome: EmergencyOutcome,
}

#[derive(Debug, Clone)]
pub enum EmergencyEvent {
    EmergencyDeclared { block: BlockNumber, trigger: EmergencyTrigger, expires_at: BlockNumber },
    EmergencyEnded { block: BlockNumber, outcome: EmergencyOutcome },
    ActionTaken { block: BlockNumber, action: EmergencyAction },
    BreakerTriggered { block: BlockNumber, breaker_id: String },
    BreakerReset { block: BlockNumber, breaker_id: String },
    SignalDetected { block: BlockNumber, signal: FailureSignal, severity: u8 },
    RecoveryStarted { block: BlockNumber, target_checkpoint: Option<BlockNumber> },
    RecoveryStepCompleted { block: BlockNumber, step: RecoveryStep },
    CheckpointCreated { block: BlockNumber, state_root: crate::types::Hash },
    EmergencyVoteCast { voter: AccountId, power: u64, approve: bool },
}

#[allow(inconsistent_fields)]
#[derive(Debug, Clone, PartialEq, Eq)]
pub enum EmergencyError {
    AlreadyActive,
    NotActive,
    InsufficientApproval { have: u8, need: u8 },
    InCooldown { ends_at: BlockNumber },
    AlreadyVoted,
    NoVotingPower,
    InvalidAction(String),
    ForbiddenAction(String),
    BreakerNotFound(String),
    TooManyBreakers,
    BreakerAlreadyActive(String),
    RecoveryInProgress,
    NoRecoveryInProgress,
    InvalidRecoveryStep,
    CheckpointNotFound,
    InsufficientConfirmations { have: u32, need: u32 },
}

/// Sum of a sequence of powers.
pub open spec fn power_sum(s: Seq<u64>) -> nat
    decreases s.len(),
{
    if s.len() == 0 {
        0
    } else {
        power_sum(s.drop_last()) + s.last() as nat
    }
}

pub proof fn lemma_power_sum_update(s: Seq<u64>, i: int, x: u64)
    requires
        0 <= i < s.len(),
    ensures
        power_sum(s.update(i, x)) == power_sum(s) - s[i] + x,
    decreases s.len(),
{
    if i < s.len() - 1 {
        assert(s.update(i, x).drop_last() =~= s.drop_last().update(i, x));
        lemma_power_sum_update(s.drop_last(), i, x);
    } else {
        assert(s.update(i, x).drop_last() =~= s.drop_last());
    }
}

/// Signals reported fewer than RECENT_SIGNAL_WINDOW blocks before
/// `current_block`, in report order.
pub open spec fn recent_signals(signals: Seq<(BlockNumber, FailureSignal)>, current_block: BlockNumber) -> Seq<
    FailureSignal,
>
    decreases signals.len(),
{
    if signals.len() == 0 {
        Seq::empty()
    } else {
        let prev = recent_signals(signals.drop_last(), current_block);
        let (blk, sig) = signals.last();
        if (if current_block >= blk {
            current_block - blk
        } else {
            0
        }) < RECENT_SIGNAL_WINDOW {
            prev.push(sig)
        } else {
            prev
        }
    }
}

pub open spec fn severity_sum(s: Seq<FailureSignal>) -> nat
    decreases s.len(),
{
    if s.len() == 0 {
        0
    } else {
        severity_sum(s.drop_last()) + s.last().spec_severity() as nat
    }
}

/// Signals kept by pruning at `current_block`.
pub open spec fn kept_pred(current_block: BlockNumber) -> spec_fn((BlockNumber, FailureSignal)) -> bool {
    |e: (BlockNumber, FailureSignal)|
        (if current_block >= e.0 {
            current_block - e.0
        } else {
            0
        }) <= SIGNAL_RETENTION
}

/// The breaker reacts to `signal`: enabled, idle and its condition met.
pub open spec fn breaker_reacts(b: CircuitBreaker, signal: FailureSignal) -> bool {
    b.enabled && !b.is_active && spec_signal_matches(signal, b.condition)
}

pub open spec fn breaker_after_signal(b: CircuitBreaker, signal: FailureSignal, current_block: BlockNumber) -> CircuitBreaker {
    if breaker_reacts(b, signal) {
        b.spec_triggered(current_block)
    } else {
        b
    }
}

pub open spec fn breaker_after_expiry(b: CircuitBreaker, current_block: BlockNumber) -> CircuitBreaker {
    if b.is_active && b.spec_is_expired(current_block) {
        b.spec_reset()
    } else {
        b
    }
}

/// The actions an emergency may not take: a pause longer than the maximum
/// duration, or a quorum above MAX_EMERGENCY_QUORUM.
pub open spec fn action_allowed(action: EmergencyAction) -> bool {
    match action {
        EmergencyAction::PauseBlockProduction { max_duration, .. } => max_duration <= EMERGENCY_MAX_DURATION,
        EmergencyAction::IncreaseQuorum { new_quorum } => new_quorum <= MAX_EMERGENCY_QUORUM,
        _ => true,
    }
}

/// Whether an action of kind `action_type` ("pause", "freeze_governance",
/// "halt_slashing", "halt_sidechains") matches `a`.
pub open spec fn action_kind_matches(action_type: Seq<char>, a: EmergencyAction) -> bool {
    ||| action_type == "pause"@ && a is PauseBlockProduction
    ||| action_type == "freeze_governance"@ && a is FreezeGovernance
    ||| action_type == "halt_slashing"@ && a is HaltSlashing
    ||| action_type == "halt_sidechains"@ && a is HaltSidechainCreation
}


/// No emergency is active and no cooldown is running at `current_block`.
pub open spec fn may_declare(s: EmergencyState, last_ended: Option<BlockNumber>, current_block: BlockNumber) -> bool {
    &&& !s.active
    &&& !(last_ended is Some && current_block < last_ended->0 + EMERGENCY_COOLDOWN)
}

/// The emergency state after the breakers of `entries` react to `signal`
/// in order: the first breaker that reacts with a TriggerEmergency action
/// while an emergency may be declared declares one.
pub open spec fn pass_state(
    entries: Seq<CircuitBreaker>,
    signal: FailureSignal,
    st: EmergencyState,
    last_ended: Option<BlockNumber>,
    current_block: BlockNumber,
) -> EmergencyState
    decreases entries.len(),
{
    if entries.len() == 0 {
        st
    } else {
        let prev = pass_state(entries.drop_last(), signal, st, last_ended, current_block);
        let e = entries.last();
        if breaker_reacts(e, signal) && e.action is TriggerEmergency && may_declare(prev, last_ended, current_block) {
            spec_declare(prev, EmergencyTrigger::CircuitBreakerTriggered { breaker_id: e.id }, current_block)
        } else {
            prev
        }
    }
}

/// While an emergency is active the breakers leave the state alone.
proof fn lemma_pass_state_active(
    entries: Seq<CircuitBreaker>,
    signal: FailureSignal,
    st: EmergencyState,
    last_ended: Option<BlockNumber>,
    current_block: BlockNumber,
)
    requires
        st.active,
    ensures
        pass_state(entries, signal, st, last_ended, current_block) == st,
    decreases entries.len(),
{
    if entries.len() > 0 {
        lemma_pass_state_active(entries.drop_last(), signal, st, last_ended, current_block);
    }
}

/// `s` with a new declaration at `current_block` by `trigger`.
pub open spec fn spec_declare(s: EmergencyState, trigger: EmergencyTrigger, current_block: BlockNumber) -> EmergencyState {
    EmergencyState {
        active: true,
        declared_at: Some(current_block),
        trigger: Some(trigger),
        expires_at: Some((current_block + EMERGENCY_MAX_DURATION) as u64),
        ..s
    }
}

/// `a` and `b` are the same trigger, their lists of signals holding the
/// same signals.
pub open spec fn same_trigger(a: EmergencyTrigger, b: EmergencyTrigger) -> bool {
    match (a, b) {
        (EmergencyTrigger::MultipleSignals { signals: x }, EmergencyTrigger::MultipleSignals { signals: y }) => x@
            == y@,
        _ => a == b,
    }
}

/// `a` and `b` are the same action, their lists of changes holding the
/// same changes.
pub open spec fn same_action(a: EmergencyAction, b: EmergencyAction) -> bool {
    match (a, b) {
        (EmergencyAction::TightenParameters { changes: x }, EmergencyAction::TightenParameters { changes: y }) => x@
            == y@,
        _ => a == b,
    }
}

/// `a` and `b` are the same event (lists inside compared by content).
pub open spec fn same_event(a: EmergencyEvent, b: EmergencyEvent) -> bool {
    match (a, b) {
        (
            EmergencyEvent::EmergencyDeclared { block: b1, trigger: t1, expires_at: x1 },
            EmergencyEvent::EmergencyDeclared { block: b2, trigger: t2, expires_at: x2 },
        ) => b1 == b2 && x1 == x2 && same_trigger(t1, t2),
        (
            EmergencyEvent::ActionTaken { block: b1, action: a1 },
            EmergencyEvent::ActionTaken { block: b2, action: a2 },
        ) => b1 == b2 && same_action(a1, a2),
        _ => a == b,
    }
}

/// `after` is `before` followed by events the same as `added`.
pub open spec fn logged_as(before: Seq<EmergencyEvent>, after: Seq<EmergencyEvent>, added: Seq<EmergencyEvent>) -> bool {
    &&& after.len() == before.len() + added.len()
    &&& after.take(before.len() as int) == before
    &&& forall|j: int| 0 <= j < added.len() ==> same_event(after[before.len() + j], #[trigger] added[j])
}

proof fn lemma_logged_push(before: Seq<EmergencyEvent>, e: EmergencyEvent, expected: EmergencyEvent)
    requires
        same_event(e, expected),
    ensures
        logged_as(before, before.push(e), seq![expected]),
{
    assert(before.push(e).take(before.len() as int) =~= before);
}

proof fn lemma_logged_trans(
    a: Seq<EmergencyEvent>,
    b: Seq<EmergencyEvent>,
    c: Seq<EmergencyEvent>,
    x: Seq<EmergencyEvent>,
    y: Seq<EmergencyEvent>,
)
    requires
        logged_as(a, b, x),
        logged_as(b, c, y),
    ensures
        logged_as(a, c, x + y),
{
    assert(c.take(a.len() as int) =~= b.take(a.len() as int)) by {
        assert forall|j: int| 0 <= j < a.len() implies c[j] == b[j] by {
            assert(c.take(b.len() as int)[j] == b[j]);
        }
    }
    assert forall|j: int| 0 <= j < (x + y).len() implies same_event(c[a.len() + j], #[trigger] (x + y)[j]) by {
        if j < x.len() {
            assert(c.take(b.len() as int)[a.len() + j] == b[a.len() + j]);
            assert(same_event(b[a.len() + j], x[j]));
        } else {
            let k = j - x.len();
            assert(same_event(c[b.len() + k], y[k]));
        }
    }
}

/// The declaration of an emergency by `trigger` at `block`.
pub open spec fn declared_event(block: BlockNumber, trigger: EmergencyTrigger) -> EmergencyEvent {
    EmergencyEvent::EmergencyDeclared { block, trigger, expires_at: (block + EMERGENCY_MAX_DURATION) as u64 }
}

/// The events of the breakers reacting in order to `signal`: each reacting
/// breaker is triggered, and one that triggers emergencies declares one
/// when the state then allows it.
pub open spec fn pass_events(
    entries: Seq<CircuitBreaker>,
    signal: FailureSignal,
    st: EmergencyState,
    last_ended: Option<BlockNumber>,
    current_block: BlockNumber,
) -> Seq<EmergencyEvent>
    decreases entries.len(),
{
    if entries.len() == 0 {
        Seq::empty()
    } else {
        let prev = pass_events(entries.drop_last(), signal, st, last_ended, current_block);
        let prev_st = pass_state(entries.drop_last(), signal, st, last_ended, current_block);
        let e = entries.last();
        if breaker_reacts(e, signal) {
            prev + trigger_events(e, prev_st, last_ended, current_block)
        } else {
            prev
        }
    }
}

/// The events of triggering breaker `e` with the emergency state `st`.
pub open spec fn trigger_events(
    e: CircuitBreaker,
    st: EmergencyState,
    last_ended: Option<BlockNumber>,
    current_block: BlockNumber,
) -> Seq<EmergencyEvent> {
    let t = seq![EmergencyEvent::BreakerTriggered { block: current_block, breaker_id: e.id }];
    if e.action is TriggerEmergency && may_declare(st, last_ended, current_block) {
        t.push(declared_event(current_block, EmergencyTrigger::CircuitBreakerTriggered { breaker_id: e.id }))
    } else {
        t
    }
}

/// The resets of the active breakers expired at `current_block`, in order.
pub open spec fn expiry_events(entries: Seq<CircuitBreaker>, current_block: BlockNumber) -> Seq<EmergencyEvent>
    decreases entries.len(),
{
    if entries.len() == 0 {
        Seq::empty()
    } else {
        let e = entries.last();
        expiry_events(entries.drop_last(), current_block) + if e.is_active && e.spec_is_expired(current_block) {
            seq![EmergencyEvent::BreakerReset { block: current_block, breaker_id: e.id }]
        } else {
            Seq::empty()
        }
    }
}

pub struct EmergencyContract {
    pub state: EmergencyState,
    pub breakers: BreakerTable,
    /// Reported signals with the block they were reported at.
    pub signals: Vec<(BlockNumber, FailureSignal)>,
    pub recovery: Option<RecoveryProcess>,
    /// Checkpoints, oldest first.
    pub checkpoints: Vec<Checkpoint>,
    pub voting_power: VecMap<AccountId, u64>,
    pub last_emergency_ended: Option<BlockNumber>,
    pub history: Vec<EmergencyRecord>,
    pub events: Vec<EmergencyEvent>,
}

impl EmergencyContract {
    pub closed spec fn inv(&self) -> bool {
        &&& self.voting_power.wf()
        &&& power_sum(self.voting_power.val_seq()) <= u64::MAX
        &&& self.breakers.wf()
        &&& self.last_emergency_ended is Some ==> self.last_emergency_ended->0 + EMERGENCY_COOLDOWN <= u64::MAX
    }

    /// Voting power of `v` (0 when it has none).
    pub closed spec fn power_of(&self, v: AccountId) -> u64 {
        if self.voting_power@.contains_key(v) {
            self.voting_power@[v]
        } else {
            0
        }
    }

    /// Sum of all voting power.
    pub closed spec fn power_total(&self) -> nat {
        power_sum(self.voting_power.val_seq())
    }

    pub closed spec fn last_ended(&self) -> Option<BlockNumber> {
        self.last_emergency_ended
    }

    pub closed spec fn event_log(&self) -> Seq<EmergencyEvent> {
        self.events@
    }

    /// A new declaration is refused until EMERGENCY_COOLDOWN blocks after
    /// the last emergency ended.
    pub open spec fn in_cooldown(&self, current_block: BlockNumber) -> bool {
        self.last_ended() is Some && current_block < self.last_ended()->0 + EMERGENCY_COOLDOWN
    }

    /// Everything but the emergency state and the event log is as in `old`.
    pub open spec fn same_but_state(&self, old: &Self) -> bool {
        &&& self.breakers == old.breakers
        &&& self.signals == old.signals
        &&& self.recovery == old.recovery
        &&& self.checkpoints == old.checkpoints
        &&& self.history == old.history
        &&& forall|v: AccountId| #[trigger] self.power_of(v) == old.power_of(v)
        &&& self.power_total() == old.power_total()
        &&& self.last_ended() == old.last_ended()
        &&& self.voting_power == old.voting_power
        &&& self.last_emergency_ended == old.last_emergency_ended
    }

    /// The five default breakers: finality delay, validator participation,
    /// state root mismatch, slashing spike and governance deadlock.
    pub open spec fn is_default_table(t: BreakerTable) -> bool {
        &&& t.wf()
        &&& t.seq().len() == 5
        &&& t.seq()[0].id@ == "finality_delay"@
        &&& t.seq()[0].condition == (BreakerCondition::FinalityDelay { epochs_threshold: 3 })
        &&& t.seq()[0].action == (BreakerAction::SlowBlockTime { factor: 2 })
        &&& t.seq()[1].id@ == "validator_participation"@
        &&& t.seq()[1].condition == (BreakerCondition::ValidatorParticipation { min_percent: 50 })
        &&& t.seq()[1].action == (BreakerAction::ExtendTimelocks { multiplier: 2 })
        &&& t.seq()[2].id@ == "state_mismatch"@
        &&& t.seq()[2].condition == BreakerCondition::StateRootMismatch
        &&& t.seq()[2].action == BreakerAction::TriggerEmergency
        &&& t.seq()[2].duration == DEFAULT_BREAKER_DURATION * 2
        &&& t.seq()[3].id@ == "slashing_spike"@
        &&& t.seq()[3].condition == (BreakerCondition::SlashingSpike { max_events_per_epoch: 10 })
        &&& t.seq()[3].action is SuspendRiskyOperations
        &&& t.seq()[4].id@ == "governance_deadlock"@
        &&& t.seq()[4].condition == (BreakerCondition::GovernanceDeadlock { failed_proposals: 3 })
        &&& t.seq()[4].action == (BreakerAction::RaiseQuorum { additional_percent: 10 })
        &&& forall|i: int|
                0 <= i < 5 ==> #[trigger] t.seq()[i].enabled && !t.seq()[i].is_active && t.seq()[i].triggered_at
                    is None
        &&& forall|i: int| 0 <= i < 5 && i != 2 ==> #[trigger] t.seq()[i].duration == DEFAULT_BREAKER_DURATION
    }

    fn default_breakers() -> (t: BreakerTable)
        ensures
            Self::is_default_table(t),
    {
        let b0 = CircuitBreaker::new(
            "finality_delay".to_owned(),
            "Finality Delay Breaker".to_owned(),
            BreakerCondition::FinalityDelay { epochs_threshold: 3 },
            BreakerAction::SlowBlockTime { factor: 2 },
            DEFAULT_BREAKER_DURATION,
        );
        let b1 = CircuitBreaker::new(
            "validator_participation".to_owned(),
            "Validator Participation Breaker".to_owned(),
            BreakerCondition::ValidatorParticipation { min_percent: 50 },
            BreakerAction::ExtendTimelocks { multiplier: 2 },
            DEFAULT_BREAKER_DURATION,
        );
        let b2 = CircuitBreaker::new(
            "state_mismatch".to_owned(),
            "State Root Mismatch Breaker".to_owned(),
            BreakerCondition::StateRootMismatch,
            BreakerAction::TriggerEmergency,
            DEFAULT_BREAKER_DURATION * 2,
        );
        let mut ops: Vec<String> = Vec::new();
        ops.push("unstake".to_owned());
        let b3 = CircuitBreaker::new(
            "slashing_spike".to_owned(),
            "Slashing Spike Breaker".to_owned(),
            BreakerCondition::SlashingSpike { max_events_per_epoch: 10 },
            BreakerAction::SuspendRiskyOperations { operations: ops },
            DEFAULT_BREAKER_DURATION,
        );
        let b4 = CircuitBreaker::new(
            "governance_deadlock".to_owned(),
            "Governance Deadlock Breaker".to_owned(),
            BreakerCondition::GovernanceDeadlock { failed_proposals: 3 },
            BreakerAction::RaiseQuorum { additional_percent: 10 },
            DEFAULT_BREAKER_DURATION,
        );
        let mut entries: Vec<CircuitBreaker> = Vec::new();
        entries.push(b0);
        entries.push(b1);
        entries.push(b2);
        entries.push(b3);
        entries.push(b4);
        proof {
            reveal_strlit("finality_delay");
            reveal_strlit("validator_participation");
            reveal_strlit("state_mismatch");
            reveal_strlit("slashing_spike");
            reveal_strlit("governance_deadlock");
            let ids = seq![
                "finality_delay"@,
                "validator_participation"@,
                "state_mismatch"@,
                "slashing_spike"@,
                "governance_deadlock"@,
            ];
            assert(ids[0][0] != ids[2][0]);
            assert(ids[2][1] != ids[3][1]);
            assert(ids[0][0] != ids[3][0]);
            assert(entries@.len() == 5);
            assert forall|i: int, j: int| 0 <= i < j < 5 implies entries@[i].id@ != entries@[j].id@ by {
                assert(entries@[i].id@ == ids[i]);
                assert(entries@[j].id@ == ids[j]);
            }
        }
        BreakerTable { entries }
    }

    pub fn new() -> (r: Self)
        ensures
            r.inv(),
            r.state.is_fresh(),
            Self::is_default_table(r.breakers),
            r.signals@.len() == 0,
            r.recovery is None,
            r.checkpoints@.len() == 0,
            r.history@.len() == 0,
            r.event_log().len() == 0,
            r.last_ended() is None,
            r.power_total() == 0,
            forall|v: AccountId| #[trigger] r.power_of(v) == 0,
    {
        let breakers = Self::default_breakers();
        let voting_power: VecMap<AccountId, u64> = VecMap::new();
        proof {
            voting_power.lemma_wf();
            assert(voting_power.val_seq() =~= Seq::<u64>::empty());
        }
        EmergencyContract {
            state: EmergencyState::new(),
            breakers,
            signals: Vec::new(),
            recovery: None,
            checkpoints: Vec::new(),
            voting_power,
            last_emergency_ended: None,
            history: Vec::new(),
            events: Vec::new(),
        }
    }

    /// The block at which the current cooldown ends, if one is running.
    fn cooldown_end(&self, current_block: BlockNumber) -> (r: Option<BlockNumber>)
        requires
            self.inv(),
        ensures
            r is Some <==> self.in_cooldown(current_block),
            r is Some ==> r->0 == self.last_ended()->0 + EMERGENCY_COOLDOWN,
    {
        match self.last_emergency_ended {
            Some(ended) => {
                if current_block < ended + EMERGENCY_COOLDOWN {
                    Some(ended + EMERGENCY_COOLDOWN)
                } else {
                    None
                }
            },
            None => None,
        }
    }

    /// Recomputes the total voting power held in the emergency state.
    fn update_total_power(&mut self)
        requires
            old(self).voting_power.wf(),
            power_sum(old(self).voting_power.val_seq()) <= u64::MAX,
        ensures
            final(self).state == (EmergencyState {
                total_power: power_sum(old(self).voting_power.val_seq()) as u64,
                ..old(self).state
            }),
            final(self).voting_power == old(self).voting_power,
            final(self).breakers == old(self).breakers,
            final(self).signals == old(self).signals,
            final(self).recovery == old(self).recovery,
            final(self).checkpoints == old(self).checkpoints,
            final(self).history == old(self).history,
            final(self).events == old(self).events,
            final(self).last_emergency_ended == old(self).last_emergency_ended,
    {
        let ghost vals = self.voting_power.val_seq();
        proof {
            self.voting_power.lemma_wf();
        }
        let n = self.voting_power.len();
        let mut total: u64 = 0;
        let mut i: usize = 0;
        while i < n
            invariant
                self.voting_power.wf(),
                vals == self.voting_power.val_seq(),
                n == vals.len(),
                n == self.voting_power.key_seq().len(),
                power_sum(vals) <= u64::MAX,
                i <= n,
                total == power_sum(vals.take(i as int)),
            decreases n - i,
        {
            proof {
                assert(vals.take(i + 1).drop_last() =~= vals.take(i as int));
                lemma_power_sum_prefix(vals, i + 1);
            }
            total = total + *self.voting_power.val_at(i);
            i = i + 1;
        }
        proof {
            assert(vals.take(n as int) =~= vals);
        }
        self.state.total_power = total;
    }

    /// Sets the voting power of `validator` (0 removes it) and updates the
    /// total power.
    pub fn set_voting_power(&mut self, validator: AccountId, power: u64)
        requires
            old(self).inv(),
            old(self).power_total() - old(self).power_of(validator) + power <= u64::MAX,
        ensures
            final(self).inv(),
            forall|v: AccountId| #[trigger]
                final(self).power_of(v) == if v == validator {
                    power
                } else {
                    old(self).power_of(v)
                },
            final(self).power_total() == old(self).power_total() - old(self).power_of(validator) + power,
            final(self).state == (EmergencyState { total_power: final(self).power_total() as u64, ..old(self).state }),
            final(self).breakers == old(self).breakers,
            final(self).signals == old(self).signals,
            final(self).recovery == old(self).recovery,
            final(self).checkpoints == old(self).checkpoints,
            final(self).history == old(self).history,
            final(self).event_log() == old(self).event_log(),
            final(self).last_ended() == old(self).last_ended(),
    {
        let ghost before = self.voting_power;
        proof {
            before.lemma_wf();
        }
        self.voting_power.insert(validator, power);
        proof {
            if before@.contains_key(validator) {
                let i = choose|i: int|
                    0 <= i < before.key_seq().len() && before.key_seq()[i] == validator
                        && self.voting_power.val_seq() == before.val_seq().update(i, power);
                lemma_power_sum_update(before.val_seq(), i, power);
            } else {
                assert(before.val_seq().push(power).drop_last() =~= before.val_seq());
            }
        }
        self.update_total_power();
    }

    /// Records `voter`'s vote for an emergency; declares one when the
    /// approving power reaches EMERGENCY_APPROVAL_THRESHOLD percent.
    pub fn vote_emergency(&mut self, voter: AccountId, approve: bool, current_block: BlockNumber) -> (r: Result<
        (),
        EmergencyError,
    >)
        requires
            old(self).inv(),
            old(self).state.approval_power + old(self).power_of(voter) <= u64::MAX,
            current_block + EMERGENCY_MAX_DURATION <= u64::MAX,
        ensures
            final(self).inv(),
            old(self).in_cooldown(current_block) ==> r == Err::<(), EmergencyError>(
                EmergencyError::InCooldown {
                    ends_at: (old(self).last_ended()->0 + EMERGENCY_COOLDOWN) as u64,
                },
            ),
            !old(self).in_cooldown(current_block) && old(self).state.active ==> r == Err::<(), EmergencyError>(
                EmergencyError::AlreadyActive,
            ),
            !old(self).in_cooldown(current_block) && !old(self).state.active && old(self).power_of(voter) == 0
                ==> r == Err::<(), EmergencyError>(EmergencyError::NoVotingPower),
            !old(self).in_cooldown(current_block) && !old(self).state.active && old(self).power_of(voter) != 0
                && old(self).state.declaring_validators@.contains(voter) ==> r == Err::<(), EmergencyError>(
                EmergencyError::AlreadyVoted,
            ),
            r.is_err() ==> *final(self) == *old(self),
            !old(self).in_cooldown(current_block) && !old(self).state.active && old(self).power_of(voter) != 0
                && !old(self).state.declaring_validators@.contains(voter) ==> {
                let dv = if approve {
                    old(self).state.declaring_validators@.push(voter)
                } else {
                    old(self).state.declaring_validators@
                };
                let base = EmergencyState {
                    declaring_validators: final(self).state.declaring_validators,
                    approval_power: if approve {
                        (old(self).state.approval_power + old(self).power_of(voter)) as u64
                    } else {
                        old(self).state.approval_power
                    },
                    ..old(self).state
                };
                &&& r == Ok::<(), EmergencyError>(())
                &&& final(self).state.declaring_validators@ == dv
                &&& logged_as(
                    old(self).events@,
                    final(self).events@,
                    seq![EmergencyEvent::EmergencyVoteCast { voter, power: old(self).power_of(voter), approve }] + if base.spec_approval_percent()
                        >= EMERGENCY_APPROVAL_THRESHOLD {
                        seq![
                            declared_event(
                                current_block,
                                EmergencyTrigger::ValidatorVote {
                                    approval_percent: base.spec_approval_percent(),
                                    voter_count: dv.len() as u32,
                                },
                            ),
                        ]
                    } else {
                        Seq::<EmergencyEvent>::empty()
                    },
                )
                &&& final(self).state == if base.spec_approval_percent() >= EMERGENCY_APPROVAL_THRESHOLD {
                    spec_declare(
                        base,
                        EmergencyTrigger::ValidatorVote {
                            approval_percent: base.spec_approval_percent(),
                            voter_count: dv.len() as u32,
                        },
                        current_block,
                    )
                } else {
                    base
                }
                &&& final(self).same_but_state(old(self))
            },
    {
        if let Some(ends_at) = self.cooldown_end(current_block) {
            return Err(EmergencyError::InCooldown { ends_at });
        }
        if self.state.active {
            return Err(EmergencyError::AlreadyActive);
        }
        let power = match self.voting_power.get(&voter) {
            Some(p) => *p,
            None => 0,
        };
        if power == 0 {
            return Err(EmergencyError::NoVotingPower);
        }
        if vec_contains(&self.state.declaring_validators, &voter) {
            return Err(EmergencyError::AlreadyVoted);
        }
        if approve {
            self.state.declaring_validators.push(voter);
            self.state.approval_power = self.state.approval_power + power;
        }
        let ghost before = self.events@;
        self.events.push(EmergencyEvent::EmergencyVoteCast { voter, power, approve });
        proof {
            lemma_logged_push(
                before,
                EmergencyEvent::EmergencyVoteCast { voter, power, approve },
                EmergencyEvent::EmergencyVoteCast { voter, power, approve },
            );
        }
        let ghost mid = self.events@;
        let pct = self.state.approval_percent();
        if pct >= EMERGENCY_APPROVAL_THRESHOLD {
            let voter_count = self.state.declaring_validators.len() as u32;
            let _ = self.declare_emergency(
                EmergencyTrigger::ValidatorVote { approval_percent: pct, voter_count },
                current_block,
            );
            proof {
                lemma_logged_trans(
                    before,
                    mid,
                    self.events@,
                    seq![EmergencyEvent::EmergencyVoteCast { voter, power, approve }],
                    seq![
                        declared_event(
                            current_block,
                            EmergencyTrigger::ValidatorVote { approval_percent: pct, voter_count },
                        ),
                    ],
                );
            }
        } else {
            proof {
                assert(seq![EmergencyEvent::EmergencyVoteCast { voter, power, approve }] + Seq::<EmergencyEvent>::empty()
                    =~= seq![EmergencyEvent::EmergencyVoteCast { voter, power, approve }]);
            }
        }
        Ok(())
    }

    /// Declares an emergency at `current_block`, expiring
    /// EMERGENCY_MAX_DURATION blocks later.
    fn declare_emergency(&mut self, trigger: EmergencyTrigger, current_block: BlockNumber) -> (r: Result<
        (),
        EmergencyError,
    >)
        requires
            current_block + EMERGENCY_MAX_DURATION <= u64::MAX,
        ensures
            old(self).state.active ==> r == Err::<(), EmergencyError>(EmergencyError::AlreadyActive)
                && *final(self) == *old(self),
            !old(self).state.active ==> r == Ok::<(), EmergencyError>(()) && final(self).state == spec_declare(
                old(self).state,
                trigger,
                current_block,
            ) && final(self).same_but_state(old(self)) && final(self).voting_power == old(self).voting_power
                && final(self).last_emergency_ended == old(self).last_emergency_ended,
            !old(self).state.active ==> logged_as(
                old(self).events@,
                final(self).events@,
                seq![declared_event(current_block, trigger)],
            ),
    {
        if self.state.active {
            return Err(EmergencyError::AlreadyActive);
        }
        let expires_at = current_block + EMERGENCY_MAX_DURATION;
        let logged = trigger.copy();
        self.state.active = true;
        self.state.declared_at = Some(current_block);
        self.state.trigger = Some(trigger);
        self.state.expires_at = Some(expires_at);
        let ghost before = self.events@;
        self.events.push(EmergencyEvent::EmergencyDeclared { block: current_block, trigger: logged, expires_at });
        proof {
            lemma_logged_push(
                before,
                EmergencyEvent::EmergencyDeclared { block: current_block, trigger: logged, expires_at },
                declared_event(current_block, trigger),
            );
        }
        Ok(())
    }

    /// Declares an emergency from an automatic trigger (a breaker or a
    /// burst of signals), outside the cooldown.
    pub fn declare_automatic_emergency(&mut self, trigger: EmergencyTrigger, current_block: BlockNumber) -> (r:
        Result<(), EmergencyError>)
        requires
            old(self).inv(),
            current_block + EMERGENCY_MAX_DURATION <= u64::MAX,
        ensures
            final(self).inv(),
            old(self).in_cooldown(current_block) ==> r == Err::<(), EmergencyError>(
                EmergencyError::InCooldown {
                    ends_at: (old(self).last_ended()->0 + EMERGENCY_COOLDOWN) as u64,
                },
            ),
            !old(self).in_cooldown(current_block) && old(self).state.active ==> r == Err::<(), EmergencyError>(
                EmergencyError::AlreadyActive,
            ),
            r.is_err() ==> *final(self) == *old(self),
            !old(self).in_cooldown(current_block) && !old(self).state.active ==> r == Ok::<(), EmergencyError>(())
                && final(self).state == spec_declare(old(self).state, trigger, current_block) && final(self).same_but_state(old(self))
                && logged_as(old(self).events@, final(self).events@, seq![declared_event(current_block, trigger)]),
    {
        if let Some(ends_at) = self.cooldown_end(current_block) {
            return Err(EmergencyError::InCooldown { ends_at });
        }
        self.declare_emergency(trigger, current_block)
    }

    /// Refuses a pause longer than the maximum emergency duration and a
    /// quorum above MAX_EMERGENCY_QUORUM.
    fn validate_action(&self, action: &EmergencyAction) -> (r: Result<(), EmergencyError>)
        ensures
            r is Ok <==> action_allowed(*action),
            r is Err ==> r->Err_0 is InvalidAction,
    {
        match action {
            EmergencyAction::PauseBlockProduction { max_duration, .. } => {
                if *max_duration > EMERGENCY_MAX_DURATION {
                    return Err(EmergencyError::InvalidAction("Pause duration exceeds maximum".to_owned()));
                }
            },
            EmergencyAction::IncreaseQuorum { new_quorum } => {
                if *new_quorum > MAX_EMERGENCY_QUORUM {
                    return Err(EmergencyError::InvalidAction("Quorum cannot exceed 80%".to_owned()));
                }
            },
            _ => {},
        }
        Ok(())
    }

    /// Records an allowed action of the active emergency.
    pub fn take_action(&mut self, action: EmergencyAction, current_block: BlockNumber) -> (r: Result<
        (),
        EmergencyError,
    >)
        requires
            old(self).inv(),
        ensures
            final(self).inv(),
            !old(self).state.active ==> r == Err::<(), EmergencyError>(EmergencyError::NotActive),
            old(self).state.active && !action_allowed(action) ==> r is Err && r->Err_0 is InvalidAction,
            r.is_err() ==> *final(self) == *old(self),
            old(self).state.active && action_allowed(action) ==> r == Ok::<(), EmergencyError>(()) && final(self).state.actions_taken@ == old(self).state.actions_taken@.push(action) && final(self).state == (
            EmergencyState { actions_taken: final(self).state.actions_taken, ..old(self).state }) && final(self).same_but_state(old(self))
                && logged_as(
                old(self).events@,
                final(self).events@,
                seq![EmergencyEvent::ActionTaken { block: current_block, action }],
            ),
    {
        if !self.state.active {
            return Err(EmergencyError::NotActive);
        }
        self.validate_action(&action)?;
        let logged = action.copy();
        let ghost expected = EmergencyEvent::ActionTaken { block: current_block, action };
        self.state.actions_taken.push(action);
        let ghost before = self.events@;
        self.events.push(EmergencyEvent::ActionTaken { block: current_block, action: logged });
        proof {
            lemma_logged_push(before, EmergencyEvent::ActionTaken { block: current_block, action: logged }, expected);
        }
        Ok(())
    }

    /// Ends the active emergency: records it in the history (when it was
    /// declared with a trigger), resets the emergency state and starts the
    /// cooldown.
    pub fn end_emergency(&mut self, outcome: EmergencyOutcome, current_block: BlockNumber) -> (r: Result<
        (),
        EmergencyError,
    >)
        requires
            old(self).inv(),
            current_block + EMERGENCY_COOLDOWN <= u64::MAX,
        ensures
            final(self).inv(),
            !old(self).state.active ==> r == Err::<(), EmergencyError>(EmergencyError::NotActive) && *final(self)
                == *old(self),
            old(self).state.active ==> {
                &&& r == Ok::<(), EmergencyError>(())
                &&& final(self).history@ == if old(self).state.declared_at is Some && old(self).state.trigger is Some {
                    old(self).history@.push(
                        EmergencyRecord {
                            declared_at: old(self).state.declared_at->0,
                            ended_at: current_block,
                            trigger: old(self).state.trigger->0,
                            actions: old(self).state.actions_taken,
                            outcome,
                        },
                    )
                } else {
                    old(self).history@
                }
                &&& final(self).state.active == false
                &&& final(self).state.declared_at is None
                &&& final(self).state.trigger is None
                &&& final(self).state.expires_at is None
                &&& final(self).state.actions_taken@.len() == 0
                &&& final(self).state.declaring_validators@.len() == 0
                &&& final(self).state.approval_power == 0
                &&& final(self).state.total_power == old(self).power_total()
                &&& final(self).last_ended() == Some(current_block)
                &&& final(self).breakers == old(self).breakers
                &&& final(self).signals == old(self).signals
                &&& final(self).recovery == old(self).recovery
                &&& final(self).checkpoints == old(self).checkpoints
                &&& forall|v: AccountId| #[trigger] final(self).power_of(v) == old(self).power_of(v)
                &&& final(self).power_total() == old(self).power_total()
                &&& final(self).events@ == old(self).events@.push(
                    EmergencyEvent::EmergencyEnded { block: current_block, outcome },
                )
            },
    {
        if !self.state.active {
            return Err(EmergencyError::NotActive);
        }
        let mut st = EmergencyState::new();
        std::mem::swap(&mut st, &mut self.state);
        let EmergencyState { declared_at, trigger, actions_taken, .. } = st;
        match (declared_at, trigger) {
            (Some(declared_at), Some(trigger)) => {
                self.history.push(
                    EmergencyRecord {
                        declared_at,
                        ended_at: current_block,
                        trigger,
                        actions: actions_taken,
                        outcome,
                    },
                );
            },
            _ => {},
        }
        self.events.push(EmergencyEvent::EmergencyEnded { block: current_block, outcome });
        self.last_emergency_ended = Some(current_block);
        self.update_total_power();
        Ok(())
    }

    /// Ends the emergency as expired once its expiry block is reached;
    /// returns whether it did.
    pub fn check_expiration(&mut self, current_block: BlockNumber) -> (r: Result<bool, EmergencyError>)
        requires
            old(self).inv(),
            current_block + EMERGENCY_COOLDOWN <= u64::MAX,
        ensures
            final(self).inv(),
            !(old(self).state.active && old(self).state.spec_is_expired(current_block)) ==> r == Ok::<
                bool,
                EmergencyError,
            >(false) && *final(self) == *old(self),
            old(self).state.active && old(self).state.spec_is_expired(current_block) ==> {
                &&& r == Ok::<bool, EmergencyError>(true)
                &&& final(self).history@ == if old(self).state.declared_at is Some && old(self).state.trigger is Some {
                    old(self).history@.push(
                        EmergencyRecord {
                            declared_at: old(self).state.declared_at->0,
                            ended_at: current_block,
                            trigger: old(self).state.trigger->0,
                            actions: old(self).state.actions_taken,
                            outcome: EmergencyOutcome::Expired,
                        },
                    )
                } else {
                    old(self).history@
                }
                &&& final(self).state.active == false
                &&& final(self).state.declared_at is None
                &&& final(self).state.trigger is None
                &&& final(self).state.expires_at is None
                &&& final(self).state.actions_taken@.len() == 0
                &&& final(self).state.declaring_validators@.len() == 0
                &&& final(self).state.approval_power == 0
                &&& final(self).state.total_power == old(self).power_total()
                &&& final(self).last_ended() == Some(current_block)
                &&& final(self).breakers == old(self).breakers
                &&& final(self).signals == old(self).signals
                &&& final(self).recovery == old(self).recovery
                &&& final(self).checkpoints == old(self).checkpoints
                &&& forall|v: AccountId| #[trigger] final(self).power_of(v) == old(self).power_of(v)
                &&& final(self).power_total() == old(self).power_total()
                &&& final(self).events@ == old(self).events@.push(
                    EmergencyEvent::EmergencyEnded { block: current_block, outcome: EmergencyOutcome::Expired },
                )
            },
    {
        if self.state.active && self.state.is_expired(current_block) {
            self.end_emergency(EmergencyOutcome::Expired, current_block)?;
            return Ok(true);
        }
        Ok(false)
    }

    /// Registers a breaker under its id, replacing one with the same id,
    /// while fewer than MAX_ACTIVE_BREAKERS are registered.
    pub fn register_breaker(&mut self, breaker: CircuitBreaker) -> (r: Result<(), EmergencyError>)
        requires
            old(self).inv(),
        ensures
            final(self).inv(),
            old(self).breakers.seq().len() >= MAX_ACTIVE_BREAKERS ==> r == Err::<(), EmergencyError>(
                EmergencyError::TooManyBreakers,
            ) && *final(self) == *old(self),
            old(self).breakers.seq().len() < MAX_ACTIVE_BREAKERS ==> {
                &&& r == Ok::<(), EmergencyError>(())
                &&& old(self).breakers.has(breaker.id@) ==> final(self).breakers.seq() == old(self).breakers.seq().update(
                    old(self).breakers.index_of(breaker.id@),
                    breaker,
                )
                &&& !old(self).breakers.has(breaker.id@) ==> final(self).breakers.seq() == old(self).breakers.seq().push(
                    breaker,
                )
                &&& final(self).state == old(self).state
                &&& final(self).same_but_breakers(old(self))
                &&& final(self).events == old(self).events
            },
    {
        if self.breakers.len() >= MAX_ACTIVE_BREAKERS {
            return Err(EmergencyError::TooManyBreakers);
        }
        let ghost before = self.breakers;
        self.breakers.insert(breaker);
        proof {
            if before.has(breaker.id@) {
                let i = choose|i: int|
                    0 <= i < before.seq().len() && before.seq()[i].id@ == breaker.id@ && self.breakers.seq()
                        == before.seq().update(i, breaker);
                before.lemma_index_of(i);
            }
        }
        Ok(())
    }

    /// Everything but the breakers (and the emergency state and event log)
    /// is as in `old`.
    pub open spec fn same_but_breakers(&self, old: &Self) -> bool {
        &&& self.signals == old.signals
        &&& self.recovery == old.recovery
        &&& self.checkpoints == old.checkpoints
        &&& self.history == old.history
        &&& self.voting_power == old.voting_power
        &&& self.last_emergency_ended == old.last_emergency_ended
    }

    /// Triggers the breaker at position `i` (enabled and idle); a breaker
    /// whose action is TriggerEmergency also declares an emergency when one
    /// may be declared.
    fn trigger_at(&mut self, i: usize, current_block: BlockNumber)
        requires
            old(self).inv(),
            i < old(self).breakers.seq().len(),
            current_block + EMERGENCY_MAX_DURATION <= u64::MAX,
        ensures
            final(self).inv(),
            ({
                let e = old(self).breakers.seq()[i as int];
                &&& final(self).breakers.seq() == old(self).breakers.seq().update(
                    i as int,
                    e.spec_triggered(current_block),
                )
                &&& final(self).state == if e.action is TriggerEmergency && may_declare(
                    old(self).state,
                    old(self).last_emergency_ended,
                    current_block,
                ) {
                    spec_declare(
                        old(self).state,
                        EmergencyTrigger::CircuitBreakerTriggered { breaker_id: e.id },
                        current_block,
                    )
                } else {
                    old(self).state
                }
                &&& logged_as(
                    old(self).events@,
                    final(self).events@,
                    trigger_events(e, old(self).state, old(self).last_emergency_ended, current_block),
                )
            }),
            final(self).same_but_breakers(old(self)),
    {
        let ghost e0 = self.breakers.seq()[i as int];
        let mut e = self.breakers.entries.remove(i);
        e.trigger(current_block);
        let id = e.id.clone();
        let logged = e.id.clone();
        let emergency = match e.action {
            BreakerAction::TriggerEmergency => true,
            _ => false,
        };
        self.breakers.entries.insert(i, e);
        proof {
            assert(self.breakers.seq() =~= old(self).breakers.seq().update(
                i as int,
                old(self).breakers.seq()[i as int].spec_triggered(current_block),
            ));
        }
        let ghost before = self.events@;
        let ghost ev = EmergencyEvent::BreakerTriggered { block: current_block, breaker_id: e0.id };
        self.events.push(EmergencyEvent::BreakerTriggered { block: current_block, breaker_id: logged });
        proof {
            lemma_logged_push(before, ev, ev);
        }
        let ghost mid = self.events@;
        if emergency {
            let _ = self.declare_automatic_emergency(
                EmergencyTrigger::CircuitBreakerTriggered { breaker_id: id },
                current_block,
            );
            proof {
                if may_declare(old(self).state, old(self).last_emergency_ended, current_block) {
                    lemma_logged_trans(
                        before,
                        mid,
                        self.events@,
                        seq![ev],
                        seq![
                            declared_event(
                                current_block,
                                EmergencyTrigger::CircuitBreakerTriggered { breaker_id: e0.id },
                            ),
                        ],
                    );
                    assert(seq![ev] + seq![
                        declared_event(current_block, EmergencyTrigger::CircuitBreakerTriggered { breaker_id: e0.id }),
                    ] =~= seq![ev].push(
                        declared_event(current_block, EmergencyTrigger::CircuitBreakerTriggered { breaker_id: e0.id }),
                    ));
                }
            }
        }
    }

    /// Triggers the breaker `breaker_id` if it is enabled; a disabled one is
    /// left as it is.
    pub fn trigger_breaker(&mut self, breaker_id: &str, current_block: BlockNumber) -> (r: Result<
        (),
        EmergencyError,
    >)
        requires
            old(self).inv(),
            current_block + EMERGENCY_MAX_DURATION <= u64::MAX,
        ensures
            final(self).inv(),
            !old(self).breakers.has(breaker_id@) ==> r is Err && r->Err_0 is BreakerNotFound
                && r->Err_0->BreakerNotFound_0@ == breaker_id@,
            old(self).breakers.has(breaker_id@) ==> {
                let i = old(self).breakers.index_of(breaker_id@);
                let e = old(self).breakers.seq()[i];
                &&& !e.enabled ==> r == Ok::<(), EmergencyError>(())
                &&& e.enabled && e.is_active ==> r is Err && r->Err_0 is BreakerAlreadyActive
                    && r->Err_0->BreakerAlreadyActive_0@ == breaker_id@
                &&& (!e.enabled || e.is_active) ==> *final(self) == *old(self)
                &&& e.enabled && !e.is_active ==> {
                    &&& r == Ok::<(), EmergencyError>(())
                    &&& final(self).breakers.seq() == old(self).breakers.seq().update(
                        i,
                        e.spec_triggered(current_block),
                    )
                    &&& final(self).state == if e.action is TriggerEmergency && may_declare(
                        old(self).state,
                        old(self).last_emergency_ended,
                        current_block,
                    ) {
                        spec_declare(
                            old(self).state,
                            EmergencyTrigger::CircuitBreakerTriggered { breaker_id: e.id },
                            current_block,
                        )
                    } else {
                        old(self).state
                    }
                    &&& final(self).same_but_breakers(old(self))
                    &&& logged_as(
                        old(self).events@,
                        final(self).events@,
                        trigger_events(e, old(self).state, old(self).last_emergency_ended, current_block),
                    )
                }
            },
    {
        let i = match self.breakers.find(breaker_id) {
            Some(i) => i,
            None => return Err(EmergencyError::BreakerNotFound(breaker_id.to_owned())),
        };
        proof {
            self.breakers.lemma_index_of(i as int);
        }
        if !self.breakers.entries[i].enabled {
            return Ok(());
        }
        if self.breakers.entries[i].is_active {
            return Err(EmergencyError::BreakerAlreadyActive(breaker_id.to_owned()));
        }
        self.trigger_at(i, current_block);
        Ok(())
    }

    /// Resets the breaker at position `i`.
    fn reset_at(&mut self, i: usize, current_block: BlockNumber)
        requires
            old(self).inv(),
            i < old(self).breakers.seq().len(),
        ensures
            final(self).inv(),
            final(self).breakers.seq() == old(self).breakers.seq().update(
                i as int,
                old(self).breakers.seq()[i as int].spec_reset(),
            ),
            final(self).state == old(self).state,
            final(self).same_but_breakers(old(self)),
            final(self).events@ == old(self).events@.push(
                EmergencyEvent::BreakerReset {
                    block: current_block,
                    breaker_id: old(self).breakers.seq()[i as int].id,
                },
            ),
    {
        let mut e = self.breakers.entries.remove(i);
        e.reset();
        let logged = e.id.clone();
        self.breakers.entries.insert(i, e);
        proof {
            assert(self.breakers.seq() =~= old(self).breakers.seq().update(
                i as int,
                old(self).breakers.seq()[i as int].spec_reset(),
            ));
        }
        self.events.push(EmergencyEvent::BreakerReset { block: current_block, breaker_id: logged });
    }

    /// Resets the breaker `breaker_id`.
    pub fn reset_breaker(&mut self, breaker_id: &str, current_block: BlockNumber) -> (r: Result<
        (),
        EmergencyError,
    >)
        requires
            old(self).inv(),
        ensures
            final(self).inv(),
            !old(self).breakers.has(breaker_id@) ==> r is Err && r->Err_0 is BreakerNotFound
                && r->Err_0->BreakerNotFound_0@ == breaker_id@ && *final(self) == *old(self),
            old(self).breakers.has(breaker_id@) ==> {
                let i = old(self).breakers.index_of(breaker_id@);
                &&& r == Ok::<(), EmergencyError>(())
                &&& final(self).breakers.seq() == old(self).breakers.seq().update(
                    i,
                    old(self).breakers.seq()[i].spec_reset(),
                )
                &&& final(self).state == old(self).state
                &&& final(self).same_but_breakers(old(self))
                &&& final(self).events@ == old(self).events@.push(
                    EmergencyEvent::BreakerReset { block: current_block, breaker_id: old(self).breakers.seq()[i].id },
                )
            },
    {
        let i = match self.breakers.find(breaker_id) {
            Some(i) => i,
            None => return Err(EmergencyError::BreakerNotFound(breaker_id.to_owned())),
        };
        proof {
            self.breakers.lemma_index_of(i as int);
        }
        self.reset_at(i, current_block);
        Ok(())
    }

    /// Resets every active breaker whose duration has run out.
    pub fn check_breaker_expirations(&mut self, current_block: BlockNumber)
        requires
            old(self).inv(),
        ensures
            final(self).inv(),
            final(self).breakers.seq().len() == old(self).breakers.seq().len(),
            forall|j: int|
                0 <= j < old(self).breakers.seq().len() ==> #[trigger] final(self).breakers.seq()[j]
                    == breaker_after_expiry(old(self).breakers.seq()[j], current_block),
            final(self).state == old(self).state,
            final(self).same_but_breakers(old(self)),
            final(self).events@ == old(self).events@ + expiry_events(old(self).breakers.seq(), current_block),
    {
        let ghost seq0 = self.breakers.seq();
        let n = self.breakers.len();
        let mut i: usize = 0;
        while i < n
            invariant
                self.inv(),
                n == old(self).breakers.seq().len(),
                self.breakers.seq().len() == n,
                i <= n,
                forall|j: int|
                    0 <= j < n ==> #[trigger] self.breakers.seq()[j] == if j < i {
                        breaker_after_expiry(old(self).breakers.seq()[j], current_block)
                    } else {
                        old(self).breakers.seq()[j]
                    },
                self.state == old(self).state,
                self.same_but_breakers(old(self)),
                seq0 == old(self).breakers.seq(),
                self.events@ == old(self).events@ + expiry_events(seq0.take(i as int), current_block),
            decreases n - i,
        {
            proof {
                assert(seq0.take(i + 1).drop_last() =~= seq0.take(i as int));
                assert(seq0.take(i + 1).last() == seq0[i as int]);
            }
            let due = self.breakers.entries[i].is_active && self.breakers.entries[i].is_expired(current_block);
            if due {
                self.reset_at(i, current_block);
            }
            proof {
                assert(self.events@ =~= old(self).events@ + expiry_events(seq0.take(i + 1), current_block));
            }
            i = i + 1;
        }
        proof {
            assert(seq0.take(n as int) =~= seq0);
        }
    }

    /// Active breakers, in registration order.
    pub fn active_breakers(&self) -> (r: Vec<&CircuitBreaker>)
        ensures
            r@.len() == self.breakers.seq().filter(breaker_active_pred()).len(),
            forall|j: int| 0 <= j < r@.len() ==> *r@[j] == self.breakers.seq().filter(breaker_active_pred())[j],
    {
        self.breakers.active()
    }

    /// Declares an emergency from the recent signals when there are at
    /// least MIN_SIGNALS_FOR_EMERGENCY of them with a total severity of at
    /// least MIN_SEVERITY_FOR_EMERGENCY.
    fn check_automatic_emergency(&mut self, current_block: BlockNumber) -> (r: Result<(), EmergencyError>)
        requires
            old(self).inv(),
            current_block + EMERGENCY_MAX_DURATION <= u64::MAX,
        ensures
            final(self).inv(),
            ({
                let rec = recent_signals(old(self).signals@, current_block);
                let wants = !old(self).state.active && rec.len() >= MIN_SIGNALS_FOR_EMERGENCY && severity_sum(rec)
                    >= MIN_SEVERITY_FOR_EMERGENCY;
                &&& !wants ==> r == Ok::<(), EmergencyError>(()) && *final(self) == *old(self)
                &&& wants && old(self).in_cooldown(current_block) ==> r == Err::<(), EmergencyError>(
                    EmergencyError::InCooldown {
                        ends_at: (old(self).last_ended()->0 + EMERGENCY_COOLDOWN) as u64,
                    },
                ) && *final(self) == *old(self)
                &&& wants && !old(self).in_cooldown(current_block) ==> {
                    &&& r == Ok::<(), EmergencyError>(())
                    &&& final(self).state.trigger is Some
                    &&& final(self).state.trigger->0 is MultipleSignals
                    &&& final(self).state.trigger->0->MultipleSignals_signals@ == rec
                    &&& final(self).state == spec_declare(old(self).state, final(self).state.trigger->0, current_block)
                    &&& final(self).same_but_state(old(self))
                    &&& logged_as(
                        old(self).events@,
                        final(self).events@,
                        seq![declared_event(current_block, final(self).state.trigger->0)],
                    )
                }
            }),
    {
        if self.state.active {
            return Ok(());
        }
        let ghost sigs = self.signals@;
        let mut recent: Vec<FailureSignal> = Vec::new();
        let mut total: u64 = 0;
        let mut i: usize = 0;
        while i < self.signals.len()
            invariant
                sigs == self.signals@,
                i <= sigs.len(),
                recent@ == recent_signals(sigs.take(i as int), current_block),
                total == (if severity_sum(recent@) > u64::MAX {
                    u64::MAX as nat
                } else {
                    severity_sum(recent@)
                }),
            decreases sigs.len() - i,
        {
            let (blk, sig) = self.signals[i];
            proof {
                assert(sigs.take(i + 1).drop_last() =~= sigs.take(i as int));
                assert(sigs.take(i + 1).last() == sigs[i as int]);
            }
            let age: u64 = if current_block >= blk {
                current_block - blk
            } else {
                0
            };
            if age < RECENT_SIGNAL_WINDOW {
                let sev = sig.severity() as u64;
                proof {
                    assert(recent@.push(sig).drop_last() =~= recent@);
                }
                recent.push(sig);
                total = if total > u64::MAX - sev {
                    u64::MAX
                } else {
                    total + sev
                };
            }
            i = i + 1;
        }
        proof {
            assert(sigs.take(sigs.len() as int) =~= sigs);
        }
        if recent.len() >= MIN_SIGNALS_FOR_EMERGENCY && total >= MIN_SEVERITY_FOR_EMERGENCY {
            self.declare_automatic_emergency(EmergencyTrigger::MultipleSignals { signals: recent }, current_block)?;
        }
        Ok(())
    }

    /// Triggers, in registration order, every enabled idle breaker whose
    /// condition `signal` meets.
    fn check_breaker_conditions(&mut self, signal: &FailureSignal, current_block: BlockNumber)
        requires
            old(self).inv(),
            signal.valid(),
            current_block + EMERGENCY_MAX_DURATION <= u64::MAX,
        ensures
            final(self).inv(),
            final(self).breakers.seq().len() == old(self).breakers.seq().len(),
            forall|j: int|
                0 <= j < old(self).breakers.seq().len() ==> #[trigger] final(self).breakers.seq()[j]
                    == breaker_after_signal(old(self).breakers.seq()[j], *signal, current_block),
            final(self).state == pass_state(
                old(self).breakers.seq(),
                *signal,
                old(self).state,
                old(self).last_emergency_ended,
                current_block,
            ),
            final(self).same_but_breakers(old(self)),
            logged_as(
                old(self).events@,
                final(self).events@,
                pass_events(
                    old(self).breakers.seq(),
                    *signal,
                    old(self).state,
                    old(self).last_emergency_ended,
                    current_block,
                ),
            ),
    {
        let ghost seq0 = self.breakers.seq();
        proof {
            assert(old(self).events@.take(old(self).events@.len() as int) =~= old(self).events@);
        }
        let n = self.breakers.len();
        let mut i: usize = 0;
        while i < n
            invariant
                self.inv(),
                signal.valid(),
                current_block + EMERGENCY_MAX_DURATION <= u64::MAX,
                seq0 == old(self).breakers.seq(),
                n == seq0.len(),
                self.breakers.seq().len() == n,
                i <= n,
                forall|j: int|
                    0 <= j < n ==> #[trigger] self.breakers.seq()[j] == if j < i {
                        breaker_after_signal(seq0[j], *signal, current_block)
                    } else {
                        seq0[j]
                    },
                self.state == pass_state(
                    seq0.take(i as int),
                    *signal,
                    old(self).state,
                    old(self).last_emergency_ended,
                    current_block,
                ),
                self.same_but_breakers(old(self)),
                logged_as(
                    old(self).events@,
                    self.events@,
                    pass_events(
                        seq0.take(i as int),
                        *signal,
                        old(self).state,
                        old(self).last_emergency_ended,
                        current_block,
                    ),
                ),
            decreases n - i,
        {
            proof {
                assert(seq0.take(i + 1).drop_last() =~= seq0.take(i as int));
                assert(seq0.take(i + 1).last() == seq0[i as int]);
            }
            let reacts = self.breakers.entries[i].enabled && !self.breakers.entries[i].is_active
                && signal_matches_condition(signal, &self.breakers.entries[i].condition);
            let ghost pre = self.events@;
            let ghost pre_state = self.state;
            if reacts {
                self.trigger_at(i, current_block);
                proof {
                    lemma_logged_trans(
                        old(self).events@,
                        pre,
                        self.events@,
                        pass_events(
                            seq0.take(i as int),
                            *signal,
                            old(self).state,
                            old(self).last_emergency_ended,
                            current_block,
                        ),
                        trigger_events(seq0[i as int], pre_state, old(self).last_emergency_ended, current_block),
                    );
                }
            }
            i = i + 1;
        }
        proof {
            assert(seq0.take(n as int) =~= seq0);
        }
    }

    /// Records a failure signal, declares an automatic emergency when the
    /// recent signals call for one, then triggers the breakers the signal
    /// meets. An automatic emergency refused by the cooldown is an error,
    /// and the breakers are then left alone.
    pub fn report_signal(&mut self, signal: FailureSignal, current_block: BlockNumber) -> (r: Result<
        (),
        EmergencyError,
    >)
        requires
            old(self).inv(),
            signal.valid(),
            current_block + EMERGENCY_MAX_DURATION <= u64::MAX,
        ensures
            final(self).inv(),
            final(self).signals@ == old(self).signals@.push((current_block, signal)),
            ({
                let rec = recent_signals(old(self).signals@.push((current_block, signal)), current_block);
                let wants = !old(self).state.active && rec.len() >= MIN_SIGNALS_FOR_EMERGENCY && severity_sum(rec)
                    >= MIN_SEVERITY_FOR_EMERGENCY;
                let detected = EmergencyEvent::SignalDetected {
                    block: current_block,
                    signal,
                    severity: signal.spec_severity(),
                };
                &&& wants && old(self).in_cooldown(current_block) ==> {
                    &&& r == Err::<(), EmergencyError>(
                        EmergencyError::InCooldown {
                            ends_at: (old(self).last_ended()->0 + EMERGENCY_COOLDOWN) as u64,
                        },
                    )
                    &&& final(self).state == old(self).state
                    &&& final(self).breakers == old(self).breakers
                    &&& logged_as(old(self).events@, final(self).events@, seq![detected])
                }
                &&& !(wants && old(self).in_cooldown(current_block)) ==> {
                    &&& r == Ok::<(), EmergencyError>(())
                    &&& final(self).breakers.seq().len() == old(self).breakers.seq().len()
                    &&& forall|j: int|
                        0 <= j < old(self).breakers.seq().len() ==> #[trigger] final(self).breakers.seq()[j]
                            == breaker_after_signal(old(self).breakers.seq()[j], signal, current_block)
                    &&& wants ==> {
                        &&& final(self).state.trigger is Some
                        &&& final(self).state.trigger->0 is MultipleSignals
                        &&& final(self).state.trigger->0->MultipleSignals_signals@ == rec
                        &&& final(self).state == spec_declare(
                            old(self).state,
                            final(self).state.trigger->0,
                            current_block,
                        )
                    }
                    &&& !wants ==> final(self).state == pass_state(
                        old(self).breakers.seq(),
                        signal,
                        old(self).state,
                        old(self).last_emergency_ended,
                        current_block,
                    )
                    &&& logged_as(
                        old(self).events@,
                        final(self).events@,
                        seq![detected] + (if wants {
                            seq![declared_event(current_block, final(self).state.trigger->0)]
                        } else {
                            Seq::<EmergencyEvent>::empty()
                        }) + pass_events(
                            old(self).breakers.seq(),
                            signal,
                            if wants {
                                final(self).state
                            } else {
                                old(self).state
                            },
                            old(self).last_emergency_ended,
                            current_block,
                        ),
                    )
                }
            }),
            final(self).recovery == old(self).recovery,
            final(self).checkpoints == old(self).checkpoints,
            final(self).history == old(self).history,
            final(self).voting_power == old(self).voting_power,
            final(self).last_emergency_ended == old(self).last_emergency_ended,
    {
        let severity = signal.severity();
        self.signals.push((current_block, signal));
        let ghost e0 = self.events@;
        let ghost detected = EmergencyEvent::SignalDetected { block: current_block, signal, severity };
        self.events.push(EmergencyEvent::SignalDetected { block: current_block, signal, severity });
        proof {
            lemma_logged_push(e0, detected, detected);
        }
        let ghost e1 = self.events@;
        let ghost s1 = *self;
        self.check_automatic_emergency(current_block)?;
        let ghost mid = *self;
        let ghost declared: Seq<EmergencyEvent> = if mid.state != s1.state {
            seq![declared_event(current_block, mid.state.trigger->0)]
        } else {
            Seq::<EmergencyEvent>::empty()
        };
        proof {
            if mid.state == s1.state {
                assert(mid.events@.take(e1.len() as int) =~= e1);
            }
            lemma_logged_trans(e0, e1, mid.events@, seq![detected], declared);
        }
        self.check_breaker_conditions(&signal, current_block);
        proof {
            if mid.state.active {
                lemma_pass_state_active(mid.breakers.seq(), signal, mid.state, mid.last_emergency_ended, current_block);
            }
            lemma_logged_trans(
                e0,
                mid.events@,
                self.events@,
                seq![detected] + declared,
                pass_events(mid.breakers.seq(), signal, mid.state, mid.last_emergency_ended, current_block),
            );
        }
        Ok(())
    }

    /// Keeps the signals reported within the last SIGNAL_RETENTION blocks
    /// before `current_block`, in their order, and drops the older ones.
    pub fn prune_signals(&mut self, current_block: BlockNumber)
        ensures
            final(self).signals@ == old(self).signals@.filter(kept_pred(current_block)),
            final(self).state == old(self).state,
            final(self).breakers == old(self).breakers,
            final(self).same_but_breakers_and_signals(old(self)),
            final(self).events == old(self).events,
    {
        let ghost sigs = self.signals@;
        let mut kept: Vec<(BlockNumber, FailureSignal)> = Vec::new();
        let mut i: usize = 0;
        while i < self.signals.len()
            invariant
                sigs == self.signals@,
                i <= sigs.len(),
                kept@ == sigs.take(i as int).filter(kept_pred(current_block)),
            decreases sigs.len() - i,
        {
            let e = self.signals[i];
            proof {
                assert(sigs.take(i + 1) =~= sigs.take(i as int).push(e));
                sigs.take(i as int).lemma_filter_push(e, kept_pred(current_block));
            }
            let age: u64 = if current_block >= e.0 {
                current_block - e.0
            } else {
                0
            };
            if age <= SIGNAL_RETENTION {
                kept.push(e);
            }
            i = i + 1;
        }
        proof {
            assert(sigs.take(sigs.len() as int) =~= sigs);
        }
        self.signals = kept;
    }

    pub open spec fn same_but_breakers_and_signals(&self, old: &Self) -> bool {
        &&& self.recovery == old.recovery
        &&& self.checkpoints == old.checkpoints
        &&& self.history == old.history
        &&& self.voting_power == old.voting_power
        &&& self.last_emergency_ended == old.last_emergency_ended
    }

    /// Starts a recovery at the Halt step, aimed at the first checkpoint at
    /// block `target_checkpoint` (or the latest checkpoint when none is
    /// given).
    pub fn start_recovery(
        &mut self,
        target_checkpoint: Option<BlockNumber>,
        required_confirmations: u32,
        current_block: BlockNumber,
    ) -> (r: Result<(), EmergencyError>)
        requires
            old(self).inv(),
        ensures
            final(self).inv(),
            old(self).recovery is Some ==> r == Err::<(), EmergencyError>(EmergencyError::RecoveryInProgress)
                && *final(self) == *old(self),
            old(self).recovery is None ==> {
                let p = final(self).recovery->0;
                let cps = old(self).checkpoints@;
                &&& r == Ok::<(), EmergencyError>(())
                &&& final(self).recovery is Some
                &&& p.current_step == RecoveryStep::Halt
                &&& p.started_at == current_block
                &&& p.confirmations@.len() == 0
                &&& p.required_confirmations == required_confirmations
                &&& match target_checkpoint {
                    Some(t) => match p.target_checkpoint {
                        Some(c) => exists|k: int|
                            0 <= k < cps.len() && cps[k] == c && c.block_number == t && forall|j: int|
                                0 <= j < k ==> (#[trigger] cps[j]).block_number != t,
                        None => forall|j: int| 0 <= j < cps.len() ==> (#[trigger] cps[j]).block_number != t,
                    },
                    None => p.target_checkpoint == (if cps.len() == 0 {
                        None
                    } else {
                        Some(cps.last())
                    }),
                }
                &&& final(self).state == old(self).state
                &&& final(self).breakers == old(self).breakers
                &&& final(self).signals == old(self).signals
                &&& final(self).checkpoints == old(self).checkpoints
                &&& final(self).history == old(self).history
                &&& final(self).voting_power == old(self).voting_power
                &&& final(self).last_emergency_ended == old(self).last_emergency_ended
                &&& final(self).events@ == old(self).events@.push(
                    EmergencyEvent::RecoveryStarted {
                        block: current_block,
                        target_checkpoint: match p.target_checkpoint {
                            Some(c) => Some(c.block_number),
                            None => None,
                        },
                    },
                )
            },
    {
        if self.recovery.is_some() {
            return Err(EmergencyError::RecoveryInProgress);
        }
        let checkpoint: Option<Checkpoint> = match target_checkpoint {
            Some(target) => self.find_checkpoint(target),
            None => {
                if self.checkpoints.len() == 0 {
                    None
                } else {
                    Some(self.checkpoints[self.checkpoints.len() - 1])
                }
            },
        };
        self.recovery = Some(
            RecoveryProcess {
                current_step: RecoveryStep::Halt,
                started_at: current_block,
                target_checkpoint: checkpoint,
                confirmations: Vec::new(),
                required_confirmations,
            },
        );
        let target_block = match checkpoint {
            Some(c) => Some(c.block_number),
            None => None,
        };
        self.events.push(EmergencyEvent::RecoveryStarted { block: current_block, target_checkpoint: target_block });
        Ok(())
    }

    /// The first checkpoint at block `target`.
    fn find_checkpoint(&self, target: BlockNumber) -> (r: Option<Checkpoint>)
        ensures
            ({
                let cps = self.checkpoints@;
                match r {
                    Some(c) => exists|k: int|
                        0 <= k < cps.len() && cps[k] == c && c.block_number == target && forall|j: int|
                            0 <= j < k ==> (#[trigger] cps[j]).block_number != target,
                    None => forall|j: int| 0 <= j < cps.len() ==> (#[trigger] cps[j]).block_number != target,
                }
            }),
    {
        let mut i: usize = 0;
        while i < self.checkpoints.len()
            invariant
                i <= self.checkpoints@.len(),
                forall|j: int| 0 <= j < i ==> (#[trigger] self.checkpoints@[j]).block_number != target,
            decreases self.checkpoints@.len() - i,
        {
            if self.checkpoints[i].block_number == target {
                return Some(self.checkpoints[i]);
            }
            i = i + 1;
        }
        None
    }

    pub fn next_step(step: RecoveryStep) -> (r: Option<RecoveryStep>)
        ensures
            r == spec_next_step(step),
    {
        match step {
            RecoveryStep::Halt => Some(RecoveryStep::StateAudit),
            RecoveryStep::StateAudit => Some(RecoveryStep::ValidatorReconfirmation),
            RecoveryStep::ValidatorReconfirmation => Some(RecoveryStep::ForkDecision),
            RecoveryStep::ForkDecision => Some(RecoveryStep::GradualRestart { phase: 1, max_phases: 5 }),
            RecoveryStep::GradualRestart { phase, max_phases } => {
                if phase >= max_phases {
                    Some(RecoveryStep::Complete)
                } else {
                    Some(RecoveryStep::GradualRestart { phase: phase + 1, max_phases })
                }
            },
            RecoveryStep::Complete => None,
        }
    }

    /// Moves the recovery to its next step and returns it; reaching
    /// Complete ends the recovery.
    pub fn advance_recovery(&mut self, current_block: BlockNumber) -> (r: Result<RecoveryStep, EmergencyError>)
        requires
            old(self).inv(),
        ensures
            final(self).inv(),
            old(self).recovery is None ==> r == Err::<RecoveryStep, EmergencyError>(
                EmergencyError::NoRecoveryInProgress,
            ) && *final(self) == *old(self),
            old(self).recovery is Some ==> {
                let p = old(self).recovery->0;
                match spec_next_step(p.current_step) {
                    None => r == Err::<RecoveryStep, EmergencyError>(EmergencyError::InvalidRecoveryStep)
                        && final(self).recovery == old(self).recovery && final(self).events == old(self).events,
                    Some(n) => {
                        &&& r == Ok::<RecoveryStep, EmergencyError>(n)
                        &&& final(self).events@ == old(self).events@.push(
                            EmergencyEvent::RecoveryStepCompleted { block: current_block, step: n },
                        )
                        &&& n == RecoveryStep::Complete ==> final(self).recovery is None
                        &&& n != RecoveryStep::Complete ==> final(self).recovery == Some(
                            RecoveryProcess { current_step: n, ..p },
                        )
                    },
                }
            },
            old(self).recovery is Some ==> {
                &&& final(self).state == old(self).state
                &&& final(self).breakers == old(self).breakers
                &&& final(self).signals == old(self).signals
                &&& final(self).checkpoints == old(self).checkpoints
                &&& final(self).history == old(self).history
                &&& final(self).voting_power == old(self).voting_power
                &&& final(self).last_emergency_ended == old(self).last_emergency_ended
            },
    {
        let mut taken: Option<RecoveryProcess> = None;
        std::mem::swap(&mut taken, &mut self.recovery);
        let mut p = match taken {
            Some(p) => p,
            None => return Err(EmergencyError::NoRecoveryInProgress),
        };
        let next = match Self::next_step(p.current_step) {
            Some(n) => n,
            None => {
                self.recovery = Some(p);
                return Err(EmergencyError::InvalidRecoveryStep);
            },
        };
        p.current_step = next;
        self.events.push(EmergencyEvent::RecoveryStepCompleted { block: current_block, step: next });
        if next != RecoveryStep::Complete {
            self.recovery = Some(p);
        }
        Ok(next)
    }

    /// Records `validator`'s confirmation; returns whether the recovery now
    /// has the confirmations it requires.
    pub fn confirm_recovery(&mut self, validator: AccountId) -> (r: Result<bool, EmergencyError>)
        requires
            old(self).inv(),
        ensures
            final(self).inv(),
            old(self).recovery is None ==> r == Err::<bool, EmergencyError>(EmergencyError::NoRecoveryInProgress)
                && *final(self) == *old(self),
            old(self).recovery is Some ==> {
                let p = old(self).recovery->0;
                let q = final(self).recovery->0;
                let conf = if p.confirmations@.contains(validator) {
                    p.confirmations@
                } else {
                    p.confirmations@.push(validator)
                };
                &&& final(self).recovery is Some
                &&& q.confirmations@ == conf
                &&& q == (RecoveryProcess { confirmations: q.confirmations, ..p })
                &&& r == Ok::<bool, EmergencyError>(conf.len() as u32 >= p.required_confirmations)
                &&& final(self).state == old(self).state
                &&& final(self).breakers == old(self).breakers
                &&& final(self).signals == old(self).signals
                &&& final(self).checkpoints == old(self).checkpoints
                &&& final(self).history == old(self).history
                &&& final(self).events == old(self).events
                &&& final(self).voting_power == old(self).voting_power
                &&& final(self).last_emergency_ended == old(self).last_emergency_ended
            },
    {
        let mut taken: Option<RecoveryProcess> = None;
        std::mem::swap(&mut taken, &mut self.recovery);
        let mut p = match taken {
            Some(p) => p,
            None => return Err(EmergencyError::NoRecoveryInProgress),
        };
        if !vec_contains(&p.confirmations, &validator) {
            p.confirmations.push(validator);
        }
        let have = p.confirmations.len() as u32;
        let need = p.required_confirmations;
        self.recovery = Some(p);
        Ok(have >= need)
    }

    /// Records a checkpoint at a block on the CHECKPOINT_INTERVAL grid,
    /// keeping the latest MAX_CHECKPOINTS; other blocks are ignored.
    pub fn create_checkpoint(
        &mut self,
        block_number: BlockNumber,
        state_root: crate::types::Hash,
        validator_set_hash: crate::types::Hash,
        chain_id: ChainId,
    )
        requires
            old(self).inv(),
        ensures
            final(self).inv(),
            block_number % CHECKPOINT_INTERVAL != 0 ==> *final(self) == *old(self),
            block_number % CHECKPOINT_INTERVAL == 0 ==> {
                let pushed = old(self).checkpoints@.push(
                    Checkpoint { block_number, state_root, validator_set_hash, created_at: block_number, chain_id },
                );
                &&& final(self).checkpoints@ == if pushed.len() > MAX_CHECKPOINTS {
                    pushed.skip(pushed.len() - MAX_CHECKPOINTS)
                } else {
                    pushed
                }
                &&& final(self).events@ == old(self).events@.push(
                    EmergencyEvent::CheckpointCreated { block: block_number, state_root },
                )
            },
            final(self).state == old(self).state,
            final(self).breakers == old(self).breakers,
            final(self).signals == old(self).signals,
            final(self).recovery == old(self).recovery,
            final(self).history == old(self).history,
            final(self).voting_power == old(self).voting_power,
            final(self).last_emergency_ended == old(self).last_emergency_ended,
    {
        if block_number % CHECKPOINT_INTERVAL != 0 {
            return;
        }
        let checkpoint = Checkpoint {
            block_number,
            state_root,
            validator_set_hash,
            created_at: block_number,
            chain_id,
        };
        let mut cps: Vec<Checkpoint> = Vec::new();
        std::mem::swap(&mut cps, &mut self.checkpoints);
        cps.push(checkpoint);
        let ghost pushed = cps@;
        let ghost mut k: int = 0;
        while cps.len() > MAX_CHECKPOINTS
            invariant
                0 <= k <= pushed.len(),
                cps@ == pushed.skip(k),
                k == 0 || cps@.len() >= MAX_CHECKPOINTS,
            decreases cps@.len(),
        {
            cps.remove(0);
            proof {
                assert(cps@ =~= pushed.skip(k + 1));
                k = k + 1;
            }
        }
        proof {
            assert(pushed.skip(0) =~= pushed);
        }
        self.checkpoints = cps;
        self.events.push(EmergencyEvent::CheckpointCreated { block: block_number, state_root });
    }

    /// The latest checkpoint at or before `block_number`.
    pub fn get_checkpoint(&self, block_number: BlockNumber) -> (r: Option<&Checkpoint>)
        ensures
            ({
                let cps = self.checkpoints@;
                match r {
                    Some(c) => exists|k: int|
                        0 <= k < cps.len() && cps[k] == *c && c.block_number <= block_number && forall|j: int|
                            k < j < cps.len() ==> (#[trigger] cps[j]).block_number > block_number,
                    None => forall|j: int| 0 <= j < cps.len() ==> (#[trigger] cps[j]).block_number > block_number,
                }
            }),
    {
        let mut i: usize = self.checkpoints.len();
        while i > 0
            invariant
                i <= self.checkpoints@.len(),
                forall|j: int|
                    i <= j < self.checkpoints@.len() ==> (#[trigger] self.checkpoints@[j]).block_number > block_number,
            decreases i,
        {
            i = i - 1;
            if self.checkpoints[i].block_number <= block_number {
                return Some(&self.checkpoints[i]);
            }
        }
        None
    }

    pub fn is_emergency_active(&self) -> (b: bool)
        ensures
            b == self.state.active,
    {
        self.state.active
    }

    pub fn current_trigger(&self) -> (r: Option<&EmergencyTrigger>)
        ensures
            r is Some <==> self.state.trigger is Some,
            r is Some ==> *r->0 == self.state.trigger->0,
    {
        match &self.state.trigger {
            Some(t) => Some(t),
            None => None,
        }
    }

    pub fn get_history(&self) -> (r: &[EmergencyRecord])
        ensures
            r@ == self.history@,
    {
        self.history.as_slice()
    }

    /// Hands out the events recorded so far and clears the log.
    pub fn drain_events(&mut self) -> (r: Vec<EmergencyEvent>)
        ensures
            r@ == old(self).events@,
            final(self).events@.len() == 0,
            final(self).state == old(self).state,
            final(self).breakers == old(self).breakers,
            final(self).signals == old(self).signals,
            final(self).recovery == old(self).recovery,
            final(self).checkpoints == old(self).checkpoints,
            final(self).history == old(self).history,
            final(self).voting_power == old(self).voting_power,
            final(self).last_emergency_ended == old(self).last_emergency_ended,
    {
        let mut out: Vec<EmergencyEvent> = Vec::new();
        std::mem::swap(&mut out, &mut self.events);
        out
    }

    /// Whether an action of kind `action_type` ("pause",
    /// "freeze_governance", "halt_slashing" or "halt_sidechains") has been
    /// taken in the current emergency.
    pub fn is_action_active(&self, action_type: &str) -> (b: bool)
        ensures
            b == exists|i: int|
                0 <= i < self.state.actions_taken@.len() && action_kind_matches(
                    action_type@,
                    #[trigger] self.state.actions_taken@[i],
                ),
    {
        let mut i: usize = 0;
        while i < self.state.actions_taken.len()
            invariant
                i <= self.state.actions_taken@.len(),
                forall|j: int|
                    0 <= j < i ==> !action_kind_matches(action_type@, #[trigger] self.state.actions_taken@[j]),
            decreases self.state.actions_taken@.len() - i,
        {
            let hit = match &self.state.actions_taken[i] {
                EmergencyAction::PauseBlockProduction { .. } => str_eq(action_type, "pause"),
                EmergencyAction::FreezeGovernance { .. } => str_eq(action_type, "freeze_governance"),
                EmergencyAction::HaltSlashing { .. } => str_eq(action_type, "halt_slashing"),
                EmergencyAction::HaltSidechainCreation => str_eq(action_type, "halt_sidechains"),
                _ => false,
            };
            if hit {
                return true;
            }
            i = i + 1;
        }
        false
    }
}

pub proof fn lemma_power_sum_prefix(s: Seq<u64>, k: int)
    requires
        0 <= k <= s.len(),
    ensures
        power_sum(s.take(k)) <= power_sum(s),
    decreases s.len(),
{
    if k < s.len() {
        assert(s.drop_last().take(k) =~= s.take(k));
        lemma_power_sum_prefix(s.drop_last(), k);
    } else {
        assert(s.take(k) =~= s);
    }
}

impl Default for EmergencyContract {
    fn default() -> (r: Self)
        ensures
            r.inv(),
            r.state.is_fresh(),
            Self::is_default_table(r.breakers),
            r.recovery is None,
    {
        Self::new()
    }
}

} // verus!

//! Runtime security monitoring: the protocol must always allow exit, fork
//! and power decay. Checks the protocol invariants and the failures that
//! are never acceptable, tracks reported threats, audits and the periodic
//! review cycles.
use crate::types::{AccountId, Balance, BlockNumber};
use crate::vecmap::VecMap;
use vstd::prelude::*;

verus! {

/// Blocks between two periodic security reviews (about one year).
pub const REVIEW_PERIOD_BLOCKS: BlockNumber = 5_256_000;

/// The invariants the protocol must keep at all times.
#[derive(Debug, Clone, Copy, PartialEq, Eq, Structural, Hash)]
pub enum ProtocolInvariant {
    ExitAlwaysPossible,
    ForkWithoutPunishment,
    PowerDecay,
    FailureContainment,
    BoundedEmergency,
    ExitWhenOssified,
}

/// Failures the protocol never accepts.
#[derive(Debug, Clone, Copy, PartialEq, Eq, Structural, Hash)]
pub enum UnacceptableFailure {
    FrozenAssets,
    IdentityLockIn,
    IdeologicalEnforcement,
}

/// The outcome of checking one invariant.
#[derive(Debug, Clone, Copy, PartialEq, Eq, Structural)]
pub struct InvariantCheckResult {
    pub invariant: ProtocolInvariant,
    pub holds: bool,
}

/// What the monitor knows of the protocol's state.
#[derive(Debug, Clone, Copy, PartialEq, Eq, Structural)]
pub struct ProtocolHealthState {
    pub checked_at: BlockNumber,
    pub exit_always_possible: bool,
    pub fork_without_slashing: bool,
    pub decay_active: bool,
    pub failures_contained: bool,
    pub emergency_duration_exceeded: bool,
    pub exit_possible_when_ossified: bool,
    pub has_frozen_assets: bool,
    pub identity_exit_blocked: bool,
    pub ideological_enforcement: bool,
}

/// The invariants in the order in which they are checked.
pub open spec fn invariant_order() -> Seq<ProtocolInvariant> {
    seq![
        ProtocolInvariant::ExitAlwaysPossible,
        ProtocolInvariant::ForkWithoutPunishment,
        ProtocolInvariant::PowerDecay,
        ProtocolInvariant::FailureContainment,
        ProtocolInvariant::BoundedEmergency,
        ProtocolInvariant::ExitWhenOssified,
    ]
}

/// The unacceptable failures in the order in which they are checked.
pub open spec fn failure_order() -> Seq<UnacceptableFailure> {
    seq![
        UnacceptableFailure::FrozenAssets,
        UnacceptableFailure::IdentityLockIn,
        UnacceptableFailure::IdeologicalEnforcement,
    ]
}

impl ProtocolHealthState {
    /// A healthy state checked at `block`.
    pub open spec fn spec_healthy(block: BlockNumber) -> ProtocolHealthState {
        ProtocolHealthState {
            checked_at: block,
            exit_always_possible: true,
            fork_without_slashing: true,
            decay_active: true,
            failures_contained: true,
            emergency_duration_exceeded: false,
            exit_possible_when_ossified: true,
            has_frozen_assets: false,
            identity_exit_blocked: false,
            ideological_enforcement: false,
        }
    }

    pub fn new(block: BlockNumber) -> (s: Self)
        ensures
            s == Self::spec_healthy(block),
    {
        ProtocolHealthState {
            checked_at: block,
            exit_always_possible: true,
            fork_without_slashing: true,
            decay_active: true,
            failures_contained: true,
            emergency_duration_exceeded: false,
            exit_possible_when_ossified: true,
            has_frozen_assets: false,
            identity_exit_blocked: false,
            ideological_enforcement: false,
        }
    }

    pub open spec fn spec_holds(&self, inv: ProtocolInvariant) -> bool {
        match inv {
            ProtocolInvariant::ExitAlwaysPossible => self.exit_always_possible,
            ProtocolInvariant::ForkWithoutPunishment => self.fork_without_slashing,
            ProtocolInvariant::PowerDecay => self.decay_active,
            ProtocolInvariant::FailureContainment => self.failures_contained,
            ProtocolInvariant::BoundedEmergency => !self.emergency_duration_exceeded,
            ProtocolInvariant::ExitWhenOssified => self.exit_possible_when_ossified,
        }
    }

    pub open spec fn spec_fails(&self, f: UnacceptableFailure) -> bool {
        match f {
            UnacceptableFailure::FrozenAssets => self.has_frozen_assets,
            UnacceptableFailure::IdentityLockIn => self.identity_exit_blocked,
            UnacceptableFailure::IdeologicalEnforcement => self.ideological_enforcement,
        }
    }

    pub fn holds(&self, inv: ProtocolInvariant) -> (b: bool)
        ensures
            b == self.spec_holds(inv),
    {
        match inv {
            ProtocolInvariant::ExitAlwaysPossible => self.exit_always_possible,
            ProtocolInvariant::ForkWithoutPunishment => self.fork_without_slashing,
            ProtocolInvariant::PowerDecay => self.decay_active,
            ProtocolInvariant::FailureContainment => self.failures_contained,
            ProtocolInvariant::BoundedEmergency => !self.emergency_duration_exceeded,
            ProtocolInvariant::ExitWhenOssified => self.exit_possible_when_ossified,
        }
    }

    /// Checks every invariant, in the order of `invariant_order`.
    pub fn check_all_invariants(&self) -> (r: Vec<InvariantCheckResult>)
        ensures
            r@.len() == invariant_order().len(),
            forall|i: int|
                0 <= i < r@.len() ==> #[trigger] r@[i] == (InvariantCheckResult {
                    invariant: invariant_order()[i],
                    holds: self.spec_holds(invariant_order()[i]),
                }),
    {
        let all = [
            ProtocolInvariant::ExitAlwaysPossible,
            ProtocolInvariant::ForkWithoutPunishment,
            ProtocolInvariant::PowerDecay,
            ProtocolInvariant::FailureContainment,
            ProtocolInvariant::BoundedEmergency,
            ProtocolInvariant::ExitWhenOssified,
        ];
        let mut out: Vec<InvariantCheckResult> = Vec::new();
        let mut i: usize = 0;
        while i < 6
            invariant
                i <= 6,
                all@ == invariant_order(),
                out@.len() == i,
                forall|j: int|
                    0 <= j < i ==> #[trigger] out@[j] == (InvariantCheckResult {
                        invariant: invariant_order()[j],
                        holds: self.spec_holds(invariant_order()[j]),
                    }),
            decreases 6 - i,
        {
            let inv = all[i];
            out.push(InvariantCheckResult { invariant: inv, holds: self.holds(inv) });
            i = i + 1;
        }
        out
    }

    /// The unacceptable failures present, in the order of `failure_order`.
    pub open spec fn spec_failures(&self) -> Seq<UnacceptableFailure> {
        failure_order().filter(|f: UnacceptableFailure| self.spec_fails(f))
    }

    pub fn check_unacceptable_failures(&self) -> (r: Vec<UnacceptableFailure>)
        ensures
            r@ == self.spec_failures(),
    {
        let mut out: Vec<UnacceptableFailure> = Vec::new();
        if self.has_frozen_assets {
            out.push(UnacceptableFailure::FrozenAssets);
        }
        if self.identity_exit_blocked {
            out.push(UnacceptableFailure::IdentityLockIn);
        }
        if self.ideological_enforcement {
            out.push(UnacceptableFailure::IdeologicalEnforcement);
        }
        proof {
            let p = |f: UnacceptableFailure| self.spec_fails(f);
            let s = failure_order();
            reveal_with_fuel(Seq::filter, 4);
            assert(s.take(0) =~= Seq::<UnacceptableFailure>::empty());
            assert(s =~= seq![UnacceptableFailure::FrozenAssets, UnacceptableFailure::IdentityLockIn].push(
                UnacceptableFailure::IdeologicalEnforcement,
            ));
            assert(seq![UnacceptableFailure::FrozenAssets, UnacceptableFailure::IdentityLockIn] =~= seq![
                UnacceptableFailure::FrozenAssets,
            ].push(UnacceptableFailure::IdentityLockIn));
            assert(seq![UnacceptableFailure::FrozenAssets] =~= Seq::<UnacceptableFailure>::empty().push(
                UnacceptableFailure::FrozenAssets,
            ));
            Seq::<UnacceptableFailure>::empty().lemma_filter_push(UnacceptableFailure::FrozenAssets, p);
            seq![UnacceptableFailure::FrozenAssets].lemma_filter_push(UnacceptableFailure::IdentityLockIn, p);
            seq![UnacceptableFailure::FrozenAssets, UnacceptableFailure::IdentityLockIn].lemma_filter_push(
                UnacceptableFailure::IdeologicalEnforcement,
                p,
            );
            assert(out@ =~= s.filter(p));
        }
        out
    }

    /// Every invariant holds and no unacceptable failure is present.
    pub open spec fn spec_is_healthy(&self) -> bool {
        &&& forall|i: int| 0 <= i < invariant_order().len() ==> #[trigger] self.spec_holds(invariant_order()[i])
        &&& !self.has_frozen_assets
        &&& !self.identity_exit_blocked
        &&& !self.ideological_enforcement
    }

    pub fn is_healthy(&self) -> (b: bool)
        ensures
            b == self.spec_is_healthy(),
    {
        proof {
            assert(self.spec_holds(invariant_order()[0]) == self.exit_always_possible);
            assert(self.spec_holds(invariant_order()[1]) == self.fork_without_slashing);
            assert(self.spec_holds(invariant_order()[2]) == self.decay_active);
            assert(self.spec_holds(invariant_order()[3]) == self.failures_contained);
            assert(self.spec_holds(invariant_order()[4]) == !self.emergency_duration_exceeded);
            assert(self.spec_holds(invariant_order()[5]) == self.exit_possible_when_ossified);
        }
        self.exit_always_possible && self.fork_without_slashing && self.decay_active && self.failures_contained
            && !self.emergency_duration_exceeded && self.exit_possible_when_ossified && !self.has_frozen_assets
            && !self.identity_exit_blocked && !self.ideological_enforcement
    }
}

/// Kinds of threat the monitor can be told of.
#[derive(Debug, Clone, Copy, PartialEq, Eq, Structural, Hash)]
pub enum ThreatType {
    ValidatorCartelization,
    GovernanceCapture,
    SybilAttack,
    ProposalSpam,
    VoterApathy,
}

/// Protocol mechanisms that counter a threat.
#[derive(Debug, Clone, Copy, PartialEq, Eq, Structural, Hash)]
pub enum Mitigation {
    VcDecay,
    StakeCaps,
    ForkOption,
    TimeWeightedVoting,
    IdentityVerification,
    ProposalDeposits,
    QuorumAdjustment,
}

/// How severe a reported threat is, from least to most.
#[derive(Debug, Clone, Copy, PartialEq, Eq, Structural, Hash, PartialOrd, Ord)]
pub enum ThreatSeverity {
    Low,
    Medium,
    High,
    Critical,
}

/// The overall threat level, from least to most.
#[derive(Debug, Clone, Copy, PartialEq, Eq, Structural, Hash, PartialOrd, Ord)]
pub enum ThreatLevel {
    Normal,
    Elevated,
    High,
    Critical,
    Existential,
}

pub open spec fn severity_rank(s: ThreatSeverity) -> nat {
    match s {
        ThreatSeverity::Low => 0,
        ThreatSeverity::Medium => 1,
        ThreatSeverity::High => 2,
        ThreatSeverity::Critical => 3,
    }
}

pub open spec fn spec_mitigations(t: ThreatType) -> Seq<Mitigation> {
    match t {
        ThreatType::ValidatorCartelization => seq![
            Mitigation::VcDecay,
            Mitigation::StakeCaps,
            Mitigation::ForkOption,
        ],
        ThreatType::GovernanceCapture => seq![
            Mitigation::TimeWeightedVoting,
            Mitigation::VcDecay,
            Mitigation::ForkOption,
        ],
        ThreatType::SybilAttack => seq![Mitigation::IdentityVerification, Mitigation::StakeCaps],
        ThreatType::ProposalSpam => seq![Mitigation::ProposalDeposits],
        ThreatType::VoterApathy => seq![Mitigation::QuorumAdjustment, Mitigation::TimeWeightedVoting],
    }
}

impl ThreatType {
    /// The mechanisms that counter this threat.
    pub fn mitigations(&self) -> (r: Vec<Mitigation>)
        ensures
            r@ == spec_mitigations(*self),
    {
        match self {
            ThreatType::ValidatorCartelization => vec![
                Mitigation::VcDecay,
                Mitigation::StakeCaps,
                Mitigation::ForkOption,
            ],
            ThreatType::GovernanceCapture => vec![
                Mitigation::TimeWeightedVoting,
                Mitigation::VcDecay,
                Mitigation::ForkOption,
            ],
            ThreatType::SybilAttack => vec![Mitigation::IdentityVerification, Mitigation::StakeCaps],
            ThreatType::ProposalSpam => vec![Mitigation::ProposalDeposits],
            ThreatType::VoterApathy => vec![Mitigation::QuorumAdjustment, Mitigation::TimeWeightedVoting],
        }
    }
}

/// A threat that has been reported and not yet resolved.
#[derive(Debug, Clone)]
pub struct DetectedThreat {
    pub threat_type: ThreatType,
    pub severity: ThreatSeverity,
    pub evidence: String,
    pub detected_at: BlockNumber,
    pub affected_entities: Vec<AccountId>,
}

/// Areas that must each pass an audit.
#[derive(Debug, Clone, Copy, PartialEq, Eq, Structural, Hash)]
pub enum AuditType {
    Cryptography,
    Consensus,
    Economics,
    Governance,
    Implementation,
}

pub open spec fn audit_order() -> Seq<AuditType> {
    seq![
        AuditType::Cryptography,
        AuditType::Consensus,
        AuditType::Economics,
        AuditType::Governance,
        AuditType::Implementation,
    ]
}

impl AuditType {
    /// Every audit area.
    pub fn all() -> (r: Vec<AuditType>)
        ensures
            r@ == audit_order(),
    {
        let r = vec![
            AuditType::Cryptography,
            AuditType::Consensus,
            AuditType::Economics,
            AuditType::Governance,
            AuditType::Implementation,
        ];
        proof {
            assert(r@ =~= audit_order());
        }
        r
    }
}

pub open spec fn audit_type_pred(t: AuditType) -> spec_fn(AuditRecord) -> bool {
    |a: AuditRecord| a.audit_type == t
}

/// A performed audit.
#[derive(Debug, Clone)]
pub struct AuditRecord {
    pub audit_type: AuditType,
    pub auditor: String,
    pub performed_at: BlockNumber,
    pub passed: bool,
    pub findings: String,
    pub report_hash: crate::types::Hash,
}

/// One periodic review: axioms, the fork option and ossification.
#[derive(Debug, Clone, Copy, PartialEq, Eq, Structural)]
pub struct ReviewCycle {
    pub cycle: u32,
    pub started_at: BlockNumber,
    pub axiom_review_complete: bool,
    pub fork_consideration_complete: bool,
    pub ossification_review_complete: bool,
}

impl ReviewCycle {
    pub fn new(cycle: u32, started_at: BlockNumber) -> (r: Self)
        ensures
            r == (ReviewCycle {
                cycle,
                started_at,
                axiom_review_complete: false,
                fork_consideration_complete: false,
                ossification_review_complete: false,
            }),
    {
        ReviewCycle {
            cycle,
            started_at,
            axiom_review_complete: false,
            fork_consideration_complete: false,
            ossification_review_complete: false,
        }
    }

    pub open spec fn spec_is_complete(&self) -> bool {
        self.axiom_review_complete && self.fork_consideration_complete && self.ossification_review_complete
    }

    pub fn is_complete(&self) -> (b: bool)
        ensures
            b == self.spec_is_complete(),
    {
        self.axiom_review_complete && self.fork_consideration_complete && self.ossification_review_complete
    }

    /// The next review is due a full period after this one started.
    pub open spec fn spec_is_due(&self, current_block: BlockNumber) -> bool {
        current_block >= self.started_at + REVIEW_PERIOD_BLOCKS
    }

    pub fn is_due(&self, current_block: BlockNumber) -> (b: bool)
        ensures
            b == self.spec_is_due(current_block),
    {
        current_block >= self.started_at && current_block - self.started_at >= REVIEW_PERIOD_BLOCKS
    }
}

/// Countermeasures against a slow capture of the protocol.
#[derive(Debug, Clone, Copy, PartialEq, Eq, Structural, Hash)]
pub enum SlowCaptureCountermeasure {
    TimeWeightedPower,
    VcDecay,
    ReputationDecay,
    ForkNeutrality,
    SidechainAutonomy,
}

/// Assumptions the protocol must work without.
#[derive(Debug, Clone, Copy, PartialEq, Eq, Structural, Hash)]
pub enum NonAssumption {
    HonestMajority,
    BenevolentGovernance,
    AlignedIncentives,
    StableIdeology,
    PermanentParticipation,
}

pub open spec fn non_assumption_order() -> Seq<NonAssumption> {
    seq![
        NonAssumption::HonestMajority,
        NonAssumption::BenevolentGovernance,
        NonAssumption::AlignedIncentives,
        NonAssumption::StableIdeology,
        NonAssumption::PermanentParticipation,
    ]
}

impl NonAssumption {
    pub fn all() -> (r: Vec<NonAssumption>)
        ensures
            r@ == non_assumption_order(),
    {
        let r = vec![
            NonAssumption::HonestMajority,
            NonAssumption::BenevolentGovernance,
            NonAssumption::AlignedIncentives,
            NonAssumption::StableIdeology,
            NonAssumption::PermanentParticipation,
        ];
        proof {
            assert(r@ =~= non_assumption_order());
        }
        r
    }
}

/// Monitor configuration.
#[derive(Debug, Clone, Copy, PartialEq, Eq, Structural)]
pub struct SecurityConfig {
    /// Blocks between health checks.
    pub health_check_interval: BlockNumber,
    /// Epochs watched for a slow capture.
    pub capture_detection_window: u64,
    /// Alert threshold of a capture indicator, in thousandths.
    pub capture_alert_permille: u32,
    /// Threat assessments kept.
    pub max_threat_history: usize,
    /// Snapshots kept per account.
    pub max_stake_history: usize,
}

impl Default for SecurityConfig {
    fn default() -> (c: Self)
        ensures
            c == (SecurityConfig {
                health_check_interval: 14_400,
                capture_detection_window: 100,
                capture_alert_permille: 250,
                max_threat_history: 100,
                max_stake_history: 365,
            }),
    {
        SecurityConfig {
            health_check_interval: 14_400,
            capture_detection_window: 100,
            capture_alert_permille: 250,
            max_threat_history: 100,
            max_stake_history: 365,
        }
    }
}

/// What the monitor reports.
#[derive(Debug, Clone)]
pub enum SecurityEvent {
    InvariantViolation { invariant: ProtocolInvariant, block: BlockNumber, details: String },
    UnacceptableFailureDetected { failure: UnacceptableFailure, block: BlockNumber },
    ThreatDetected { threat_type: ThreatType, severity: ThreatSeverity, block: BlockNumber },
    HealthCheckPassed { block: BlockNumber },
    HealthCheckFailed { block: BlockNumber, failed_invariants: Vec<ProtocolInvariant> },
    AuditRecorded { audit_type: AuditType, passed: bool, block: BlockNumber },
    ReviewCycleStarted { cycle: u32, block: BlockNumber },
    ReviewCycleCompleted { cycle: u32, block: BlockNumber },
}

/// Errors of the security monitor.
#[derive(Debug, Clone, Copy, PartialEq, Eq, Structural)]
pub enum SecurityError {
    InvariantViolation(ProtocolInvariant),
    UnacceptableFailure(UnacceptableFailure),
    NoActiveReviewCycle,
    AuditNotFound,
}

pub open spec fn violation_details(inv: ProtocolInvariant) -> Seq<char> {
    match inv {
        ProtocolInvariant::ExitAlwaysPossible => "Invariant ExitAlwaysPossible violated"@,
        ProtocolInvariant::ForkWithoutPunishment => "Invariant ForkWithoutPunishment violated"@,
        ProtocolInvariant::PowerDecay => "Invariant PowerDecay violated"@,
        ProtocolInvariant::FailureContainment => "Invariant FailureContainment violated"@,
        ProtocolInvariant::BoundedEmergency => "Invariant BoundedEmergency violated"@,
        ProtocolInvariant::ExitWhenOssified => "Invariant ExitWhenOssified violated"@,
    }
}

fn violation_text(inv: ProtocolInvariant) -> (r: String)
    ensures
        r@ == violation_details(inv),
{
    match inv {
        ProtocolInvariant::ExitAlwaysPossible => "Invariant ExitAlwaysPossible violated".to_owned(),
        ProtocolInvariant::ForkWithoutPunishment => "Invariant ForkWithoutPunishment violated".to_owned(),
        ProtocolInvariant::PowerDecay => "Invariant PowerDecay violated".to_owned(),
        ProtocolInvariant::FailureContainment => "Invariant FailureContainment violated".to_owned(),
        ProtocolInvariant::BoundedEmergency => "Invariant BoundedEmergency violated".to_owned(),
        ProtocolInvariant::ExitWhenOssified => "Invariant ExitWhenOssified violated".to_owned(),
    }
}

/// `e` reports that `inv` was found violated at `block`.
pub open spec fn is_violation_event(e: SecurityEvent, inv: ProtocolInvariant, block: BlockNumber) -> bool {
    e matches SecurityEvent::InvariantViolation { invariant: i, block: b, details } ==> (i == inv && b == block
        && details@ == violation_details(inv))
}

/// The invariants that do not hold in `h`, in checking order.
pub open spec fn violated(h: ProtocolHealthState) -> Seq<ProtocolInvariant> {
    invariant_order().filter(|i: ProtocolInvariant| !h.spec_holds(i))
}

/// `new` extends `old` by one violation report per invariant of `invs`.
pub open spec fn reports_violations(
    old: Seq<SecurityEvent>,
    new: Seq<SecurityEvent>,
    invs: Seq<ProtocolInvariant>,
    block: BlockNumber,
) -> bool {
    &&& new.len() == old.len() + invs.len()
    &&& new.take(old.len() as int) == old
    &&& forall|k: int|
        0 <= k < invs.len() ==> (#[trigger] new[old.len() + k] is InvariantViolation) && is_violation_event(
            new[old.len() + k],
            invs[k],
            block,
        )
}

/// History after recording `entry` with at most `max` entries kept (the
/// oldest one goes first).
pub open spec fn trimmed_push<T>(h: Seq<T>, entry: T, max: usize) -> Seq<T> {
    let n = h.push(entry);
    if n.len() > max {
        n.drop_first()
    } else {
        n
    }
}

pub open spec fn history_of<T>(m: Map<AccountId, Vec<T>>, a: AccountId) -> Seq<T> {
    if m.contains_key(a) {
        m[a]@
    } else {
        Seq::empty()
    }
}

/// The largest severity rank among `ts` (0 for none).
pub open spec fn max_rank(ts: Seq<DetectedThreat>) -> nat
    decreases ts.len(),
{
    if ts.len() == 0 {
        0
    } else {
        let r = severity_rank(ts.last().severity);
        let m = max_rank(ts.drop_last());
        if r > m {
            r
        } else {
            m
        }
    }
}

/// The overall threat level: existential on any unacceptable failure,
/// otherwise by the most severe threat and the number of threats.
pub open spec fn spec_threat_level(h: ProtocolHealthState, ts: Seq<DetectedThreat>) -> ThreatLevel {
    if h.spec_failures().len() > 0 {
        ThreatLevel::Existential
    } else if ts.len() == 0 {
        ThreatLevel::Normal
    } else if max_rank(ts) == 3 || ts.len() > 5 {
        ThreatLevel::Critical
    } else if max_rank(ts) == 2 || ts.len() > 3 {
        ThreatLevel::High
    } else if max_rank(ts) == 1 || ts.len() > 1 {
        ThreatLevel::Elevated
    } else {
        ThreatLevel::Normal
    }
}

/// The recommendation on each reported threat.
pub open spec fn threat_advice(t: ThreatType) -> Seq<char> {
    match t {
        ThreatType::ValidatorCartelization => "Threat ValidatorCartelization detected - apply mitigations: [VcDecay, StakeCaps, ForkOption]"@,
        ThreatType::GovernanceCapture => "Threat GovernanceCapture detected - apply mitigations: [TimeWeightedVoting, VcDecay, ForkOption]"@,
        ThreatType::SybilAttack => "Threat SybilAttack detected - apply mitigations: [IdentityVerification, StakeCaps]"@,
        ThreatType::ProposalSpam => "Threat ProposalSpam detected - apply mitigations: [ProposalDeposits]"@,
        ThreatType::VoterApathy => "Threat VoterApathy detected - apply mitigations: [QuorumAdjustment, TimeWeightedVoting]"@,
    }
}

fn threat_advice_text(t: ThreatType) -> (r: String)
    ensures
        r@ == threat_advice(t),
{
    match t {
        ThreatType::ValidatorCartelization => "Threat ValidatorCartelization detected - apply mitigations: [VcDecay, StakeCaps, ForkOption]".to_owned(),
        ThreatType::GovernanceCapture => "Threat GovernanceCapture detected - apply mitigations: [TimeWeightedVoting, VcDecay, ForkOption]".to_owned(),
        ThreatType::SybilAttack => "Threat SybilAttack detected - apply mitigations: [IdentityVerification, StakeCaps]".to_owned(),
        ThreatType::ProposalSpam => "Threat ProposalSpam detected - apply mitigations: [ProposalDeposits]".to_owned(),
        ThreatType::VoterApathy => "Threat VoterApathy detected - apply mitigations: [QuorumAdjustment, TimeWeightedVoting]".to_owned(),
    }
}

pub open spec fn opt_line(cond: bool, line: Seq<char>) -> Seq<Seq<char>> {
    if cond {
        seq![line]
    } else {
        Seq::empty()
    }
}

/// The recommendations for a state and its threats: the broken
/// guarantees first, then one line per threat.
pub open spec fn spec_recommendations(h: ProtocolHealthState, ts: Seq<DetectedThreat>) -> Seq<Seq<char>> {
    opt_line(!h.exit_always_possible, "CRITICAL: Exit path blocked - restore withdrawal functionality immediately"@)
        + opt_line(!h.fork_without_slashing, "CRITICAL: Fork slashing detected - remove fork penalties"@)
        + opt_line(!h.decay_active, "WARNING: Power decay not active - enable decay mechanisms"@)
        + opt_line(h.emergency_duration_exceeded, "CRITICAL: Emergency duration exceeded - end emergency state"@)
        + ts.map_values(|d: DetectedThreat| threat_advice(d.threat_type))
}

pub open spec fn text_views(v: Seq<String>) -> Seq<Seq<char>> {
    v.map_values(|s: String| s@)
}

/// Two threat records with the same contents.
pub open spec fn same_threat(a: DetectedThreat, b: DetectedThreat) -> bool {
    &&& a.threat_type == b.threat_type
    &&& a.severity == b.severity
    &&& a.evidence == b.evidence
    &&& a.detected_at == b.detected_at
    &&& a.affected_entities@ == b.affected_entities@
}

pub open spec fn same_threats(a: Seq<DetectedThreat>, b: Seq<DetectedThreat>) -> bool {
    &&& a.len() == b.len()
    &&& forall|i: int| 0 <= i < a.len() ==> #[trigger] same_threat(a[i], b[i])
}

impl DetectedThreat {
    /// A copy of the threat.
    pub fn copy(&self) -> (r: DetectedThreat)
        ensures
            same_threat(r, *self),
    {
        DetectedThreat {
            threat_type: self.threat_type,
            severity: self.severity,
            evidence: self.evidence.clone(),
            detected_at: self.detected_at,
            affected_entities: crate::vecmap::vec_copy(&self.affected_entities),
        }
    }
}

fn copy_threats(v: &Vec<DetectedThreat>) -> (r: Vec<DetectedThreat>)
    ensures
        same_threats(r@, v@),
{
    let mut out: Vec<DetectedThreat> = Vec::new();
    let mut i: usize = 0;
    while i < v.len()
        invariant
            i <= v@.len(),
            out@.len() == i,
            forall|j: int| 0 <= j < i ==> #[trigger] same_threat(out@[j], v@[j]),
        decreases v@.len() - i,
    {
        out.push(v[i].copy());
        i = i + 1;
    }
    out
}

fn copy_texts(v: &Vec<String>) -> (r: Vec<String>)
    ensures
        r@ == v@,
{
    let mut out: Vec<String> = Vec::new();
    let mut i: usize = 0;
    while i < v.len()
        invariant
            i <= v@.len(),
            out@ == v@.take(i as int),
        decreases v@.len() - i,
    {
        out.push(v[i].clone());
        proof {
            assert(out@ =~= v@.take(i + 1));
        }
        i = i + 1;
    }
    proof {
        assert(v@.take(v@.len() as int) =~= v@);
    }
    out
}

/// An assessment of the threats at one block.
#[derive(Debug, Clone)]
pub struct ThreatAssessment {
    pub assessed_at: BlockNumber,
    pub active_threats: Vec<DetectedThreat>,
    pub threat_level: ThreatLevel,
    pub recommendations: Vec<String>,
}

impl ThreatAssessment {
    pub fn copy(&self) -> (r: ThreatAssessment)
        ensures
            r.assessed_at == self.assessed_at,
            same_threats(r.active_threats@, self.active_threats@),
            r.threat_level == self.threat_level,
            r.recommendations@ == self.recommendations@,
    {
        ThreatAssessment {
            assessed_at: self.assessed_at,
            active_threats: copy_threats(&self.active_threats),
            threat_level: self.threat_level,
            recommendations: copy_texts(&self.recommendations),
        }
    }
}

fn push_trimmed<T: Copy>(hist: &Vec<T>, entry: T, max: usize) -> (r: Vec<T>)
    ensures
        r@ == trimmed_push(hist@, entry, max),
{
    let mut h = crate::vecmap::vec_copy(hist);
    h.push(entry);
    if h.len() > max {
        h.remove(0);
        proof {
            assert(h@ =~= hist@.push(entry).drop_first());
        }
    }
    h
}

fn severity_value(s: ThreatSeverity) -> (r: u8)
    ensures
        r == severity_rank(s),
{
    match s {
        ThreatSeverity::Low => 0,
        ThreatSeverity::Medium => 1,
        ThreatSeverity::High => 2,
        ThreatSeverity::Critical => 3,
    }
}

/// The countermeasures and whether each is active in `h`.
pub open spec fn spec_countermeasures(h: ProtocolHealthState) -> Seq<(SlowCaptureCountermeasure, bool)> {
    seq![
        (SlowCaptureCountermeasure::TimeWeightedPower, true),
        (SlowCaptureCountermeasure::VcDecay, h.decay_active),
        (SlowCaptureCountermeasure::ReputationDecay, h.decay_active),
        (SlowCaptureCountermeasure::ForkNeutrality, h.fork_without_slashing),
        (SlowCaptureCountermeasure::SidechainAutonomy, h.failures_contained),
    ]
}

/// Whether the protocol works without `a`, given `h`.
pub open spec fn works_without(h: ProtocolHealthState, a: NonAssumption) -> bool {
    match a {
        NonAssumption::HonestMajority => h.exit_always_possible && h.fork_without_slashing,
        NonAssumption::BenevolentGovernance => h.exit_always_possible,
        NonAssumption::AlignedIncentives => h.decay_active,
        NonAssumption::StableIdeology => h.fork_without_slashing,
        NonAssumption::PermanentParticipation => h.exit_always_possible,
    }
}

/// Runtime security monitor.
pub struct SecurityContract {
    pub current_block: BlockNumber,
    pub health_state: ProtocolHealthState,
    /// Past assessments, oldest first, at most `max_threat_history`.
    pub threat_assessments: Vec<ThreatAssessment>,
    pub stake_history: VecMap<AccountId, Vec<(BlockNumber, Balance)>>,
    pub vc_history: VecMap<AccountId, Vec<(BlockNumber, u64)>>,
    pub audit_records: Vec<AuditRecord>,
    /// Completed review cycles, oldest first.
    pub review_cycles: Vec<ReviewCycle>,
    pub current_review_cycle: Option<ReviewCycle>,
    pub active_threats: Vec<DetectedThreat>,
    pub config: SecurityConfig,
    pub events: Vec<SecurityEvent>,
}

impl SecurityContract {
    pub open spec fn inv(&self) -> bool {
        &&& self.stake_history.wf()
        &&& self.vc_history.wf()
    }

    /// Everything but the health state, the threats and the events is as in
    /// `old`.
    pub open spec fn same_records(&self, old: &Self) -> bool {
        &&& self.current_block == old.current_block
        &&& self.threat_assessments == old.threat_assessments
        &&& self.stake_history == old.stake_history
        &&& self.vc_history == old.vc_history
        &&& self.audit_records == old.audit_records
        &&& self.review_cycles == old.review_cycles
        &&& self.current_review_cycle == old.current_review_cycle
        &&& self.config == old.config
    }

    pub fn new(config: SecurityConfig) -> (c: Self)
        ensures
            c.inv(),
            c.current_block == 0,
            c.health_state == ProtocolHealthState::spec_healthy(0),
            c.threat_assessments@.len() == 0,
            c.stake_history@ == Map::<AccountId, Vec<(BlockNumber, Balance)>>::empty(),
            c.vc_history@ == Map::<AccountId, Vec<(BlockNumber, u64)>>::empty(),
            c.audit_records@.len() == 0,
            c.review_cycles@.len() == 0,
            c.current_review_cycle is None,
            c.active_threats@.len() == 0,
            c.config == config,
            c.events@.len() == 0,
    {
        SecurityContract {
            current_block: 0,
            health_state: ProtocolHealthState::new(0),
            threat_assessments: Vec::new(),
            stake_history: VecMap::new(),
            vc_history: VecMap::new(),
            audit_records: Vec::new(),
            review_cycles: Vec::new(),
            current_review_cycle: None,
            active_threats: Vec::new(),
            config,
            events: Vec::new(),
        }
    }

    pub fn with_defaults() -> (c: Self)
        ensures
            c.inv(),
            c.current_block == 0,
            c.health_state == ProtocolHealthState::spec_healthy(0),
            c.threat_assessments@.len() == 0,
            c.stake_history@ == Map::<AccountId, Vec<(BlockNumber, Balance)>>::empty(),
            c.vc_history@ == Map::<AccountId, Vec<(BlockNumber, u64)>>::empty(),
            c.audit_records@.len() == 0,
            c.review_cycles@.len() == 0,
            c.current_review_cycle is None,
            c.active_threats@.len() == 0,
            c.config == (SecurityConfig {
                health_check_interval: 14_400,
                capture_detection_window: 100,
                capture_alert_permille: 250,
                max_threat_history: 100,
                max_stake_history: 365,
            }),
            c.events@.len() == 0,
    {
        Self::new(SecurityConfig::default())
    }

    /// Moves the monitor to `block`.
    pub fn set_block(&mut self, block: BlockNumber)
        ensures
            final(self).current_block == block,
            final(self).health_state == (ProtocolHealthState { checked_at: block, ..old(self).health_state }),
            final(self).threat_assessments == old(self).threat_assessments,
            final(self).stake_history == old(self).stake_history,
            final(self).vc_history == old(self).vc_history,
            final(self).audit_records == old(self).audit_records,
            final(self).review_cycles == old(self).review_cycles,
            final(self).current_review_cycle == old(self).current_review_cycle,
            final(self).config == old(self).config,
            final(self).active_threats == old(self).active_threats,
            final(self).events == old(self).events,
    {
        self.current_block = block;
        self.health_state.checked_at = block;
    }

    /// Checks every invariant and reports each violated one.
    pub fn verify_invariants(&mut self) -> (r: Vec<InvariantCheckResult>)
        ensures
            r@.len() == invariant_order().len(),
            forall|i: int|
                0 <= i < r@.len() ==> #[trigger] r@[i] == (InvariantCheckResult {
                    invariant: invariant_order()[i],
                    holds: old(self).health_state.spec_holds(invariant_order()[i]),
                }),
            reports_violations(
                old(self).events@,
                final(self).events@,
                violated(old(self).health_state),
                old(self).current_block,
            ),
            final(self).same_records(old(self)),
            final(self).health_state == old(self).health_state,
            final(self).active_threats == old(self).active_threats,
    {
        let results = self.health_state.check_all_invariants();
        let ghost p = |i: ProtocolInvariant| !self.health_state.spec_holds(i);
        let ghost start = self.events@;
        proof {
            assert(invariant_order().take(0) =~= Seq::<ProtocolInvariant>::empty());
            reveal_with_fuel(Seq::filter, 1);
            assert(invariant_order().take(0).filter(p) =~= Seq::<ProtocolInvariant>::empty());
            assert(start.take(start.len() as int) =~= start);
        }
        let mut i: usize = 0;
        while i < results.len()
            invariant
                i <= results@.len(),
                results@.len() == invariant_order().len(),
                forall|j: int|
                    0 <= j < results@.len() ==> #[trigger] results@[j] == (InvariantCheckResult {
                        invariant: invariant_order()[j],
                        holds: old(self).health_state.spec_holds(invariant_order()[j]),
                    }),
                p == (|i: ProtocolInvariant| !old(self).health_state.spec_holds(i)),
                start == old(self).events@,
                reports_violations(start, self.events@, invariant_order().take(i as int).filter(p), old(self).current_block),
                self.same_records(old(self)),
                self.health_state == old(self).health_state,
                self.active_threats == old(self).active_threats,
            decreases results@.len() - i,
        {
            let res = results[i];
            let ghost before = self.events@;
            let ghost done = invariant_order().take(i as int).filter(p);
            proof {
                assert(invariant_order().take(i + 1) =~= invariant_order().take(i as int).push(res.invariant));
                invariant_order().take(i as int).lemma_filter_push(res.invariant, p);
            }
            if !res.holds {
                let details = violation_text(res.invariant);
                self.events.push(
                    SecurityEvent::InvariantViolation { invariant: res.invariant, block: self.current_block, details },
                );
                proof {
                    let now = invariant_order().take(i + 1).filter(p);
                    assert(now =~= done.push(res.invariant));
                    assert(self.events@.take(start.len() as int) =~= start) by {
                        assert(before.take(start.len() as int) =~= start);
                    }
                    assert forall|k: int| 0 <= k < now.len() implies (#[trigger] self.events@[start.len() + k] is InvariantViolation)
                        && is_violation_event(self.events@[start.len() + k], now[k], old(self).current_block) by {
                        if k < done.len() {
                            assert(self.events@[start.len() + k] == before[start.len() + k]);
                        }
                    }
                }
            } else {
                proof {
                    assert(invariant_order().take(i + 1).filter(p) =~= done);
                }
            }
            i = i + 1;
        }
        proof {
            assert(invariant_order().take(invariant_order().len() as int) =~= invariant_order());
        }
        results
    }

    /// Reports every unacceptable failure present and returns them.
    pub fn check_unacceptable_failures(&mut self) -> (r: Vec<UnacceptableFailure>)
        ensures
            r@ == old(self).health_state.spec_failures(),
            final(self).events@ == old(self).events@ + r@.map_values(
                |f: UnacceptableFailure| SecurityEvent::UnacceptableFailureDetected { failure: f, block: old(self).current_block },
            ),
            final(self).same_records(old(self)),
            final(self).health_state == old(self).health_state,
            final(self).active_threats == old(self).active_threats,
    {
        let failures = self.health_state.check_unacceptable_failures();
        let ghost start = self.events@;
        let ghost blk = self.current_block;
        let mut i: usize = 0;
        while i < failures.len()
            invariant
                i <= failures@.len(),
                start == old(self).events@,
                blk == old(self).current_block,
                self.events@ == start + failures@.take(i as int).map_values(
                    |f: UnacceptableFailure| SecurityEvent::UnacceptableFailureDetected { failure: f, block: blk },
                ),
                self.same_records(old(self)),
                self.health_state == old(self).health_state,
                self.active_threats == old(self).active_threats,
            decreases failures@.len() - i,
        {
            let f = failures[i];
            self.events.push(SecurityEvent::UnacceptableFailureDetected { failure: f, block: self.current_block });
            proof {
                assert(failures@.take(i + 1) =~= failures@.take(i as int).push(f));
                assert(self.events@ =~= start + failures@.take(i + 1).map_values(
                    |f: UnacceptableFailure| SecurityEvent::UnacceptableFailureDetected { failure: f, block: blk },
                ));
            }
            i = i + 1;
        }
        proof {
            assert(failures@.take(failures@.len() as int) =~= failures@);
        }
        failures
    }

    /// Records what the protocol reports of its guarantees.
    pub fn update_health_state(
        &mut self,
        exit_possible: bool,
        fork_without_slash: bool,
        decay_active: bool,
        failures_contained: bool,
        emergency_exceeded: bool,
        ossification_allows_exit: bool,
        frozen_assets: bool,
        identity_locked: bool,
        ideology_enforced: bool,
    )
        ensures
            final(self).health_state == (ProtocolHealthState {
                checked_at: old(self).health_state.checked_at,
                exit_always_possible: exit_possible,
                fork_without_slashing: fork_without_slash,
                decay_active,
                failures_contained,
                emergency_duration_exceeded: emergency_exceeded,
                exit_possible_when_ossified: ossification_allows_exit,
                has_frozen_assets: frozen_assets,
                identity_exit_blocked: identity_locked,
                ideological_enforcement: ideology_enforced,
            }),
            final(self).same_records(old(self)),
            final(self).active_threats == old(self).active_threats,
            final(self).events == old(self).events,
    {
        self.health_state.exit_always_possible = exit_possible;
        self.health_state.fork_without_slashing = fork_without_slash;
        self.health_state.decay_active = decay_active;
        self.health_state.failures_contained = failures_contained;
        self.health_state.emergency_duration_exceeded = emergency_exceeded;
        self.health_state.exit_possible_when_ossified = ossification_allows_exit;
        self.health_state.has_frozen_assets = frozen_assets;
        self.health_state.identity_exit_blocked = identity_locked;
        self.health_state.ideological_enforcement = ideology_enforced;
    }

    /// Runs a full health check: reports a pass, or every violated
    /// invariant and then the failed check with their list.
    pub fn run_health_check(&mut self) -> (healthy: bool)
        ensures
            healthy == old(self).health_state.spec_is_healthy(),
            healthy ==> final(self).events@ == old(self).events@.push(
                SecurityEvent::HealthCheckPassed { block: old(self).current_block },
            ),
            !healthy ==> {
                let n = (old(self).events@.len() + violated(old(self).health_state).len()) as int;
                &&& final(self).events@.len() == n + 1
                &&& reports_violations(
                    old(self).events@,
                    final(self).events@.take(n),
                    violated(old(self).health_state),
                    old(self).current_block,
                )
                &&& final(self).events@[n] matches SecurityEvent::HealthCheckFailed { block, failed_invariants }
                    && block == old(self).current_block && failed_invariants@ == violated(old(self).health_state)
            },
            final(self).same_records(old(self)),
            final(self).health_state == old(self).health_state,
            final(self).active_threats == old(self).active_threats,
    {
        let healthy = self.health_state.is_healthy();
        if healthy {
            self.events.push(SecurityEvent::HealthCheckPassed { block: self.current_block });
        } else {
            let results = self.verify_invariants();
            let ghost mid = self.events@;
            let ghost p = |i: ProtocolInvariant| !old(self).health_state.spec_holds(i);
            let mut failed: Vec<ProtocolInvariant> = Vec::new();
            let mut i: usize = 0;
            while i < results.len()
                invariant
                    i <= results@.len(),
                    results@.len() == invariant_order().len(),
                    forall|j: int|
                        0 <= j < results@.len() ==> #[trigger] results@[j] == (InvariantCheckResult {
                            invariant: invariant_order()[j],
                            holds: old(self).health_state.spec_holds(invariant_order()[j]),
                        }),
                    p == (|i: ProtocolInvariant| !old(self).health_state.spec_holds(i)),
                    failed@ == invariant_order().take(i as int).filter(p),
                decreases results@.len() - i,
            {
                let res = results[i];
                proof {
                    assert(invariant_order().take(i + 1) =~= invariant_order().take(i as int).push(res.invariant));
                    invariant_order().take(i as int).lemma_filter_push(res.invariant, p);
                }
                if !res.holds {
                    failed.push(res.invariant);
                }
                i = i + 1;
            }
            proof {
                assert(invariant_order().take(invariant_order().len() as int) =~= invariant_order());
            }
            self.events.push(SecurityEvent::HealthCheckFailed { block: self.current_block, failed_invariants: failed });
            proof {
                assert(self.events@.take(mid.len() as int) =~= mid);
            }
        }
        healthy
    }


    pub open spec fn stakes_of(&self, a: AccountId) -> Seq<(BlockNumber, Balance)> {
        history_of(self.stake_history@, a)
    }

    pub open spec fn vcs_of(&self, a: AccountId) -> Seq<(BlockNumber, u64)> {
        history_of(self.vc_history@, a)
    }

    /// Records `account`'s stake at the current block, keeping at most
    /// `max_stake_history` snapshots.
    pub fn record_stake_snapshot(&mut self, account: &AccountId, stake: Balance)
        requires
            old(self).inv(),
        ensures
            final(self).inv(),
            final(self).stake_history@ == old(self).stake_history@.insert(*account, final(self).stake_history@[*account]),
            final(self).stakes_of(*account) == trimmed_push(
                old(self).stakes_of(*account),
                (old(self).current_block, stake),
                old(self).config.max_stake_history,
            ),
            *final(self) == (SecurityContract { stake_history: final(self).stake_history, ..*old(self) }),
    {
        let entry = (self.current_block, stake);
        let h = match self.stake_history.get(account) {
            Some(v) => push_trimmed(v, entry, self.config.max_stake_history),
            None => push_trimmed(&Vec::new(), entry, self.config.max_stake_history),
        };
        self.stake_history.insert(*account, h);
    }

    /// Records `account`'s validator credits at the current block, keeping
    /// at most `max_stake_history` snapshots.
    pub fn record_vc_snapshot(&mut self, account: &AccountId, vc: u64)
        requires
            old(self).inv(),
        ensures
            final(self).inv(),
            final(self).vc_history@ == old(self).vc_history@.insert(*account, final(self).vc_history@[*account]),
            final(self).vcs_of(*account) == trimmed_push(
                old(self).vcs_of(*account),
                (old(self).current_block, vc),
                old(self).config.max_stake_history,
            ),
            *final(self) == (SecurityContract { vc_history: final(self).vc_history, ..*old(self) }),
    {
        let entry = (self.current_block, vc);
        let h = match self.vc_history.get(account) {
            Some(v) => push_trimmed(v, entry, self.config.max_stake_history),
            None => push_trimmed(&Vec::new(), entry, self.config.max_stake_history),
        };
        self.vc_history.insert(*account, h);
    }

    /// Records a reported threat.
    pub fn report_threat(
        &mut self,
        threat_type: ThreatType,
        severity: ThreatSeverity,
        evidence: String,
        affected_entities: Vec<AccountId>,
    )
        ensures
            final(self).active_threats@ == old(self).active_threats@.push(
                DetectedThreat { threat_type, severity, evidence, detected_at: old(self).current_block, affected_entities },
            ),
            final(self).events@ == old(self).events@.push(
                SecurityEvent::ThreatDetected { threat_type, severity, block: old(self).current_block },
            ),
            final(self).same_records(old(self)),
            final(self).health_state == old(self).health_state,
    {
        let threat = DetectedThreat {
            threat_type,
            severity,
            evidence,
            detected_at: self.current_block,
            affected_entities,
        };
        self.active_threats.push(threat);
        self.events.push(SecurityEvent::ThreatDetected { threat_type, severity, block: self.current_block });
    }

    /// The mitigations for `threat`.
    pub fn get_threat_mitigations(&self, threat: &ThreatType) -> (r: Vec<Mitigation>)
        ensures
            r@ == spec_mitigations(*threat),
    {
        threat.mitigations()
    }

    /// Drops every active threat of type `threat_type`; tells whether one
    /// was dropped.
    pub fn resolve_threat(&mut self, threat_type: &ThreatType) -> (r: bool)
        ensures
            final(self).active_threats@ == old(self).active_threats@.filter(
                |d: DetectedThreat| d.threat_type != *threat_type,
            ),
            r == (final(self).active_threats@.len() < old(self).active_threats@.len()),
            r == exists|i: int|
                0 <= i < old(self).active_threats@.len() && #[trigger] old(self).active_threats@[i].threat_type
                    == *threat_type,
            final(self).same_records(old(self)),
            final(self).health_state == old(self).health_state,
            final(self).events == old(self).events,
    {
        let ghost orig = self.active_threats@;
        let ghost p = |d: DetectedThreat| d.threat_type != *threat_type;
        let initial_len = self.active_threats.len();
        let mut i: usize = 0;
        let mut j: usize = 0;
        while i < self.active_threats.len()
            invariant
                orig == old(self).active_threats@,
                p == (|d: DetectedThreat| d.threat_type != *threat_type),
                j <= orig.len(),
                i <= self.active_threats@.len(),
                self.active_threats@.take(i as int) == orig.take(j as int).filter(p),
                self.active_threats@.skip(i as int) == orig.skip(j as int),
                self.active_threats@.len() - i == orig.len() - j,
                initial_len == orig.len(),
                forall|k: int| 0 <= k < j && #[trigger] orig[k].threat_type == *threat_type ==> i < j,
                i < j ==> exists|k: int| 0 <= k < j && #[trigger] orig[k].threat_type == *threat_type,
                i <= j,
                self.same_records(old(self)),
                self.health_state == old(self).health_state,
                self.events == old(self).events,
            decreases self.active_threats@.len() - i,
        {
            let ghost cur = self.active_threats@;
            let ghost x = orig[j as int];
            proof {
                assert(cur[i as int] == cur.skip(i as int)[0]);
                assert(orig.take(j + 1) =~= orig.take(j as int).push(x));
                orig.take(j as int).lemma_filter_push(x, p);
                assert(orig.skip(j + 1) =~= orig.skip(j as int).drop_first());
            }
            if self.active_threats[i].threat_type == *threat_type {
                self.active_threats.remove(i);
                proof {
                    assert(self.active_threats@.take(i as int) =~= cur.take(i as int));
                    assert(self.active_threats@.skip(i as int) =~= cur.skip(i + 1));
                    assert(cur.skip(i + 1) =~= cur.skip(i as int).drop_first());
                }
            } else {
                proof {
                    assert(self.active_threats@.take(i + 1) =~= cur.take(i as int).push(x));
                    assert(cur.skip(i + 1) =~= cur.skip(i as int).drop_first());
                }
                i = i + 1;
            }
            j = j + 1;
        }
        proof {
            assert(self.active_threats@.skip(i as int).len() == 0);
            assert(orig.skip(j as int).len() == 0);
            assert(j == orig.len());
            assert(orig.take(j as int) =~= orig);
            assert(self.active_threats@ =~= self.active_threats@.take(i as int));
        }
        self.active_threats.len() < initial_len
    }

    pub fn get_active_threats(&self) -> (r: &Vec<DetectedThreat>)
        ensures
            r == &self.active_threats,
    {
        &self.active_threats
    }

    /// The overall threat level.
    pub fn calculate_threat_level(&self) -> (r: ThreatLevel)
        ensures
            r == spec_threat_level(self.health_state, self.active_threats@),
    {
        let failures = self.health_state.check_unacceptable_failures();
        if failures.len() > 0 {
            return ThreatLevel::Existential;
        }
        let n = self.active_threats.len();
        if n == 0 {
            return ThreatLevel::Normal;
        }
        let ghost ts = self.active_threats@;
        let mut m: u8 = 0;
        let mut i: usize = 0;
        while i < n
            invariant
                n == ts.len(),
                ts == self.active_threats@,
                i <= n,
                m == max_rank(ts.take(i as int)),
            decreases n - i,
        {
            let r = severity_value(self.active_threats[i].severity);
            proof {
                assert(ts.take(i + 1).drop_last() =~= ts.take(i as int));
                assert(ts.take(0) =~= Seq::<DetectedThreat>::empty());
            }
            if r > m {
                m = r;
            }
            i = i + 1;
        }
        proof {
            assert(ts.take(n as int) =~= ts);
        }
        if m == 3 || n > 5 {
            ThreatLevel::Critical
        } else if m == 2 || n > 3 {
            ThreatLevel::High
        } else if m == 1 || n > 1 {
            ThreatLevel::Elevated
        } else {
            ThreatLevel::Normal
        }
    }

    /// Recommendations for the current state and threats.
    fn generate_recommendations(&self) -> (r: Vec<String>)
        ensures
            text_views(r@) == spec_recommendations(self.health_state, self.active_threats@),
    {
        let h = self.health_state;
        let mut out: Vec<String> = Vec::new();
        let ghost head = opt_line(!h.exit_always_possible, "CRITICAL: Exit path blocked - restore withdrawal functionality immediately"@)
            + opt_line(!h.fork_without_slashing, "CRITICAL: Fork slashing detected - remove fork penalties"@)
            + opt_line(!h.decay_active, "WARNING: Power decay not active - enable decay mechanisms"@)
            + opt_line(h.emergency_duration_exceeded, "CRITICAL: Emergency duration exceeded - end emergency state"@);
        if !h.exit_always_possible {
            out.push("CRITICAL: Exit path blocked - restore withdrawal functionality immediately".to_owned());
        }
        proof {
            assert(text_views(out@) =~= opt_line(!h.exit_always_possible, "CRITICAL: Exit path blocked - restore withdrawal functionality immediately"@));
        }
        let ghost t1 = text_views(out@);
        if !h.fork_without_slashing {
            out.push("CRITICAL: Fork slashing detected - remove fork penalties".to_owned());
        }
        proof {
            assert(text_views(out@) =~= t1 + opt_line(!h.fork_without_slashing, "CRITICAL: Fork slashing detected - remove fork penalties"@));
        }
        let ghost t2 = text_views(out@);
        if !h.decay_active {
            out.push("WARNING: Power decay not active - enable decay mechanisms".to_owned());
        }
        proof {
            assert(text_views(out@) =~= t2 + opt_line(!h.decay_active, "WARNING: Power decay not active - enable decay mechanisms"@));
        }
        let ghost t3 = text_views(out@);
        if h.emergency_duration_exceeded {
            out.push("CRITICAL: Emergency duration exceeded - end emergency state".to_owned());
        }
        proof {
            assert(text_views(out@) =~= t3 + opt_line(h.emergency_duration_exceeded, "CRITICAL: Emergency duration exceeded - end emergency state"@));
            assert(text_views(out@) =~= head);
        }
        let ghost ts = self.active_threats@;
        let ghost f = |d: DetectedThreat| threat_advice(d.threat_type);
        let mut i: usize = 0;
        while i < self.active_threats.len()
            invariant
                ts == self.active_threats@,
                f == (|d: DetectedThreat| threat_advice(d.threat_type)),
                i <= ts.len(),
                text_views(out@) == head + ts.take(i as int).map_values(f),
            decreases ts.len() - i,
        {
            let line = threat_advice_text(self.active_threats[i].threat_type);
            let ghost before = text_views(out@);
            out.push(line);
            proof {
                assert(text_views(out@) =~= before.push(line@));
                assert(ts.take(i + 1).map_values(f) =~= ts.take(i as int).map_values(f).push(f(ts[i as int])));
                assert(text_views(out@) =~= head + ts.take(i + 1).map_values(f));
            }
            i = i + 1;
        }
        proof {
            assert(ts.take(ts.len() as int) =~= ts);
        }
        out
    }

    /// Assesses the current threats, keeps the assessment (at most
    /// `max_threat_history` of them) and returns it.
    pub fn create_threat_assessment(&mut self) -> (r: ThreatAssessment)
        ensures
            r.assessed_at == old(self).current_block,
            same_threats(r.active_threats@, old(self).active_threats@),
            r.threat_level == spec_threat_level(old(self).health_state, old(self).active_threats@),
            text_views(r.recommendations@) == spec_recommendations(old(self).health_state, old(self).active_threats@),
            exists|st: ThreatAssessment|
                #[trigger] trimmed_push(old(self).threat_assessments@, st, old(self).config.max_threat_history)
                    == final(self).threat_assessments@ && st.assessed_at == r.assessed_at && same_threats(
                    st.active_threats@,
                    r.active_threats@,
                ) && st.threat_level == r.threat_level && st.recommendations@ == r.recommendations@,
            *final(self) == (SecurityContract { threat_assessments: final(self).threat_assessments, ..*old(self) }),
    {
        let threat_level = self.calculate_threat_level();
        let recommendations = self.generate_recommendations();
        let assessment = ThreatAssessment {
            assessed_at: self.current_block,
            active_threats: copy_threats(&self.active_threats),
            threat_level,
            recommendations,
        };
        let stored = assessment.copy();
        let ghost st = stored;
        let ghost before = self.threat_assessments@;
        self.threat_assessments.push(stored);
        if self.threat_assessments.len() > self.config.max_threat_history {
            self.threat_assessments.remove(0);
        }
        proof {
            assert(self.threat_assessments@ =~= trimmed_push(before, st, self.config.max_threat_history));
        }
        assessment
    }

    /// Records an audit.
    pub fn record_audit(
        &mut self,
        audit_type: AuditType,
        auditor: String,
        passed: bool,
        findings: String,
        report_hash: crate::types::Hash,
    )
        ensures
            final(self).audit_records@ == old(self).audit_records@.push(
                AuditRecord { audit_type, auditor, performed_at: old(self).current_block, passed, findings, report_hash },
            ),
            final(self).events@ == old(self).events@.push(
                SecurityEvent::AuditRecorded { audit_type, passed, block: old(self).current_block },
            ),
            *final(self) == (SecurityContract {
                audit_records: final(self).audit_records,
                events: final(self).events,
                ..*old(self)
            }),
    {
        let record = AuditRecord {
            audit_type,
            auditor,
            performed_at: self.current_block,
            passed,
            findings,
            report_hash,
        };
        self.audit_records.push(record);
        self.events.push(SecurityEvent::AuditRecorded { audit_type, passed, block: self.current_block });
    }

    /// The audits of `audit_type`, in recording order.
    pub fn get_audits_by_type(&self, audit_type: AuditType) -> (r: Vec<&AuditRecord>)
        ensures
            r@.len() == self.audit_records@.filter(audit_type_pred(audit_type)).len(),
            forall|k: int|
                0 <= k < r@.len() ==> *r@[k] == #[trigger] self.audit_records@.filter(audit_type_pred(audit_type))[k],
    {
        let ghost recs = self.audit_records@;
        let ghost p = audit_type_pred(audit_type);
        let mut out: Vec<&AuditRecord> = Vec::new();
        let mut i: usize = 0;
        while i < self.audit_records.len()
            invariant
                recs == self.audit_records@,
                p == audit_type_pred(audit_type),
                i <= recs.len(),
                out@.len() == recs.take(i as int).filter(p).len(),
                forall|k: int| 0 <= k < out@.len() ==> *out@[k] == #[trigger] recs.take(i as int).filter(p)[k],
            decreases recs.len() - i,
        {
            let a = &self.audit_records[i];
            proof {
                assert(recs.take(i + 1) =~= recs.take(i as int).push(*a));
                recs.take(i as int).lemma_filter_push(*a, p);
            }
            if a.audit_type == audit_type {
                out.push(a);
            }
            i = i + 1;
        }
        proof {
            assert(recs.take(recs.len() as int) =~= recs);
        }
        out
    }

    /// Some audit of `audit_type` passed.
    pub open spec fn spec_audit_passed(&self, audit_type: AuditType) -> bool {
        exists|j: int|
            0 <= j < self.audit_records@.len() && #[trigger] self.audit_records@[j].audit_type == audit_type
                && self.audit_records@[j].passed
    }

    fn audit_passed(&self, audit_type: AuditType) -> (b: bool)
        ensures
            b == self.spec_audit_passed(audit_type),
    {
        let mut i: usize = 0;
        while i < self.audit_records.len()
            invariant
                i <= self.audit_records@.len(),
                forall|j: int|
                    0 <= j < i ==> !(#[trigger] self.audit_records@[j].audit_type == audit_type
                        && self.audit_records@[j].passed),
            decreases self.audit_records@.len() - i,
        {
            if self.audit_records[i].audit_type == audit_type && self.audit_records[i].passed {
                return true;
            }
            i = i + 1;
        }
        false
    }

    /// Every audit area has a passed audit.
    pub fn all_audits_complete(&self) -> (b: bool)
        ensures
            b == forall|k: int| 0 <= k < audit_order().len() ==> #[trigger] self.spec_audit_passed(audit_order()[k]),
    {
        let all = AuditType::all();
        let mut i: usize = 0;
        while i < all.len()
            invariant
                all@ == audit_order(),
                i <= all@.len(),
                forall|k: int| 0 <= k < i ==> #[trigger] self.spec_audit_passed(audit_order()[k]),
            decreases all@.len() - i,
        {
            if !self.audit_passed(all[i]) {
                return false;
            }
            i = i + 1;
        }
        true
    }


    /// `new` is `old` after the cycle `c` was updated: a complete cycle is
    /// archived and reported, an incomplete one stays current.
    pub open spec fn cycle_updated(old: &Self, new: &Self, c: ReviewCycle) -> bool {
        &&& new.current_block == old.current_block
        &&& new.health_state == old.health_state
        &&& new.threat_assessments == old.threat_assessments
        &&& new.stake_history == old.stake_history
        &&& new.vc_history == old.vc_history
        &&& new.audit_records == old.audit_records
        &&& new.active_threats == old.active_threats
        &&& new.config == old.config
        &&& if c.spec_is_complete() {
            &&& new.current_review_cycle is None
            &&& new.review_cycles@ == old.review_cycles@.push(c)
            &&& new.events@ == old.events@.push(
                SecurityEvent::ReviewCycleCompleted { cycle: c.cycle, block: old.current_block },
            )
        } else {
            &&& new.current_review_cycle == Some(c)
            &&& new.review_cycles == old.review_cycles
            &&& new.events == old.events
        }
    }

    /// Starts the next review cycle at the current block.
    pub fn start_review_cycle(&mut self)
        requires
            old(self).review_cycles@.len() < u32::MAX,
        ensures
            ({
                let n = (old(self).review_cycles@.len() + 1) as u32;
                &&& final(self).current_review_cycle == Some(
                    ReviewCycle {
                        cycle: n,
                        started_at: old(self).current_block,
                        axiom_review_complete: false,
                        fork_consideration_complete: false,
                        ossification_review_complete: false,
                    },
                )
                &&& final(self).events@ == old(self).events@.push(
                    SecurityEvent::ReviewCycleStarted { cycle: n, block: old(self).current_block },
                )
            }),
            *final(self) == (SecurityContract {
                current_review_cycle: final(self).current_review_cycle,
                events: final(self).events,
                ..*old(self)
            }),
    {
        let cycle_number = self.review_cycles.len() as u32 + 1;
        let cycle = ReviewCycle::new(cycle_number, self.current_block);
        self.events.push(SecurityEvent::ReviewCycleStarted { cycle: cycle_number, block: self.current_block });
        self.current_review_cycle = Some(cycle);
    }

    /// Archives the current cycle once all its reviews are done.
    fn check_cycle_completion(&mut self)
        requires
            old(self).current_review_cycle is Some,
        ensures
            Self::cycle_updated(old(self), final(self), old(self).current_review_cycle->0),
    {
        match self.current_review_cycle {
            Some(cycle) => {
                if cycle.is_complete() {
                    self.events.push(SecurityEvent::ReviewCycleCompleted { cycle: cycle.cycle, block: self.current_block });
                    self.review_cycles.push(cycle);
                    self.current_review_cycle = None;
                }
            },
            None => {},
        }
    }

    /// Marks the axiom review of the current cycle done.
    pub fn complete_axiom_review(&mut self)
        ensures
            old(self).current_review_cycle is None ==> *final(self) == *old(self),
            old(self).current_review_cycle matches Some(c) ==> Self::cycle_updated(
                old(self),
                final(self),
                ReviewCycle { axiom_review_complete: true, ..c },
            ),
    {
        match self.current_review_cycle {
            Some(cycle) => {
                let mut c = cycle;
                c.axiom_review_complete = true;
                self.current_review_cycle = Some(c);
                self.check_cycle_completion();
            },
            None => {},
        }
    }

    /// Marks the fork consideration of the current cycle done.
    pub fn complete_fork_consideration(&mut self)
        ensures
            old(self).current_review_cycle is None ==> *final(self) == *old(self),
            old(self).current_review_cycle matches Some(c) ==> Self::cycle_updated(
                old(self),
                final(self),
                ReviewCycle { fork_consideration_complete: true, ..c },
            ),
    {
        match self.current_review_cycle {
            Some(cycle) => {
                let mut c = cycle;
                c.fork_consideration_complete = true;
                self.current_review_cycle = Some(c);
                self.check_cycle_completion();
            },
            None => {},
        }
    }

    /// Marks the ossification review of the current cycle done.
    pub fn complete_ossification_review(&mut self)
        ensures
            old(self).current_review_cycle is None ==> *final(self) == *old(self),
            old(self).current_review_cycle matches Some(c) ==> Self::cycle_updated(
                old(self),
                final(self),
                ReviewCycle { ossification_review_complete: true, ..c },
            ),
    {
        match self.current_review_cycle {
            Some(cycle) => {
                let mut c = cycle;
                c.ossification_review_complete = true;
                self.current_review_cycle = Some(c);
                self.check_cycle_completion();
            },
            None => {},
        }
    }

    /// A review is due a full period after the last completed cycle
    /// started, or, before any, once the first period has passed.
    pub fn is_review_due(&self) -> (b: bool)
        ensures
            b == if self.review_cycles@.len() > 0 {
                self.review_cycles@.last().spec_is_due(self.current_block)
            } else {
                self.current_block > REVIEW_PERIOD_BLOCKS
            },
    {
        let n = self.review_cycles.len();
        if n > 0 {
            self.review_cycles[n - 1].is_due(self.current_block)
        } else {
            self.current_block > REVIEW_PERIOD_BLOCKS
        }
    }

    /// Each slow-capture countermeasure and whether it is active.
    pub fn verify_countermeasures(&self) -> (r: Vec<(SlowCaptureCountermeasure, bool)>)
        ensures
            r@ == spec_countermeasures(self.health_state),
    {
        let r = vec![
            (SlowCaptureCountermeasure::TimeWeightedPower, true),
            (SlowCaptureCountermeasure::VcDecay, self.health_state.decay_active),
            (SlowCaptureCountermeasure::ReputationDecay, self.health_state.decay_active),
            (SlowCaptureCountermeasure::ForkNeutrality, self.health_state.fork_without_slashing),
            (SlowCaptureCountermeasure::SidechainAutonomy, self.health_state.failures_contained),
        ];
        proof {
            assert(r@ =~= spec_countermeasures(self.health_state));
        }
        r
    }

    /// The countermeasures that are not active, in the order of
    /// `spec_countermeasures`.
    pub fn get_inactive_countermeasures(&self) -> (r: Vec<SlowCaptureCountermeasure>)
        ensures
            r@ == spec_countermeasures(self.health_state).filter(|e: (SlowCaptureCountermeasure, bool)| !e.1).map_values(
                |e: (SlowCaptureCountermeasure, bool)| e.0,
            ),
    {
        let all = self.verify_countermeasures();
        let ghost s = all@;
        let ghost p = |e: (SlowCaptureCountermeasure, bool)| !e.1;
        let ghost f = |e: (SlowCaptureCountermeasure, bool)| e.0;
        let mut out: Vec<SlowCaptureCountermeasure> = Vec::new();
        let mut i: usize = 0;
        while i < all.len()
            invariant
                s == all@,
                p == (|e: (SlowCaptureCountermeasure, bool)| !e.1),
                f == (|e: (SlowCaptureCountermeasure, bool)| e.0),
                i <= s.len(),
                out@ == s.take(i as int).filter(p).map_values(f),
            decreases s.len() - i,
        {
            let e = all[i];
            proof {
                assert(s.take(i + 1) =~= s.take(i as int).push(e));
                s.take(i as int).lemma_filter_push(e, p);
            }
            if !e.1 {
                out.push(e.0);
                proof {
                    assert(out@ =~= s.take(i + 1).filter(p).map_values(f));
                }
            }
            i = i + 1;
        }
        proof {
            assert(s.take(s.len() as int) =~= s);
        }
        out
    }

    /// Each assumption the protocol must not rely on, and whether it works
    /// without it.
    pub fn verify_non_assumptions(&self) -> (r: Vec<(NonAssumption, bool)>)
        ensures
            r@.len() == non_assumption_order().len(),
            forall|k: int|
                0 <= k < r@.len() ==> #[trigger] r@[k] == (
                    non_assumption_order()[k],
                    works_without(self.health_state, non_assumption_order()[k]),
                ),
    {
        let h = self.health_state;
        let all = NonAssumption::all();
        let mut out: Vec<(NonAssumption, bool)> = Vec::new();
        let mut i: usize = 0;
        while i < all.len()
            invariant
                all@ == non_assumption_order(),
                h == self.health_state,
                i <= all@.len(),
                out@.len() == i,
                forall|k: int|
                    0 <= k < i ==> #[trigger] out@[k] == (
                        non_assumption_order()[k],
                        works_without(h, non_assumption_order()[k]),
                    ),
            decreases all@.len() - i,
        {
            let a = all[i];
            let works = match a {
                NonAssumption::HonestMajority => h.exit_always_possible && h.fork_without_slashing,
                NonAssumption::BenevolentGovernance => h.exit_always_possible,
                NonAssumption::AlignedIncentives => h.decay_active,
                NonAssumption::StableIdeology => h.fork_without_slashing,
                NonAssumption::PermanentParticipation => h.exit_always_possible,
            };
            out.push((a, works));
            i = i + 1;
        }
        out
    }

    /// Drains the events.
    pub fn drain_events(&mut self) -> (r: Vec<SecurityEvent>)
        ensures
            r@ == old(self).events@,
            final(self).events@.len() == 0,
            final(self).same_records(old(self)),
            final(self).health_state == old(self).health_state,
            final(self).active_threats == old(self).active_threats,
    {
        let mut out: Vec<SecurityEvent> = Vec::new();
        std::mem::swap(&mut out, &mut self.events);
        out
    }

    pub fn event_count(&self) -> (n: usize)
        ensures
            n == self.events@.len(),
    {
        self.events.len()
    }
}

} // verus!

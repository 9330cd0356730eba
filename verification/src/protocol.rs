//! Protocol versions, constitutional axioms and the amendable protocol
//! parameters, each kept within bounds that governance cannot move.
use vstd::prelude::*;
use crate::types::BlockNumber;

verus! {

/// A semantic protocol version.
#[derive(Clone, Copy, Debug, PartialEq, Eq, Structural)]
pub struct ProtocolVersion {
    pub major: u16,
    pub minor: u16,
    pub patch: u16,
}

/// `a` comes strictly after `b` in (major, minor, patch) order.
pub open spec fn version_newer(a: ProtocolVersion, b: ProtocolVersion) -> bool {
    ||| a.major > b.major
    ||| (a.major == b.major && a.minor > b.minor)
    ||| (a.major == b.major && a.minor == b.minor && a.patch > b.patch)
}

impl ProtocolVersion {
    pub fn new(major: u16, minor: u16, patch: u16) -> (v: ProtocolVersion)
        ensures
            v == (ProtocolVersion { major, minor, patch }),
    {
        ProtocolVersion { major, minor, patch }
    }

    /// Whether `self` is a later version than `other`.
    pub fn is_newer(&self, other: &ProtocolVersion) -> (b: bool)
        ensures
            b == version_newer(*self, *other),
    {
        if self.major != other.major {
            self.major > other.major
        } else if self.minor != other.minor {
            self.minor > other.minor
        } else {
            self.patch > other.patch
        }
    }
}

/// The guarantees that no governance decision can remove.
#[derive(Clone, Copy, Debug, PartialEq, Eq, Structural)]
pub enum ConstitutionalAxiom {
    ExitAlwaysPossible,
    NoRetroactivePunishment,
    IdentitySovereignty,
    TransparencyRequired,
    ForkingLegitimate,
}

/// A parameter value with the constitutional range it must stay in.
#[derive(Clone, Copy, Debug, PartialEq, Eq, Structural)]
pub struct BoundedParam {
    pub current: u64,
    pub min: u64,
    pub max: u64,
}

impl BoundedParam {
    pub open spec fn holds(self, v: u64) -> bool {
        self.min <= v <= self.max
    }

    pub open spec fn wf(self) -> bool {
        self.holds(self.current)
    }

    pub fn value(&self) -> (v: u64)
        ensures
            v == self.current,
    {
        self.current
    }
}

#[derive(Clone, Copy, Debug, PartialEq, Eq, Structural)]
pub struct EconomicParameters {
    /// Annual inflation, percent.
    pub inflation_rate: BoundedParam,
    /// Share of fees burnt, percent.
    pub fee_burn_rate: BoundedParam,
    /// Share of fees paid to validators, percent.
    pub fee_validator_rate: BoundedParam,
}

#[derive(Clone, Copy, Debug, PartialEq, Eq, Structural)]
pub struct ConsensusParameters {
    pub target_validators: BoundedParam,
}

#[derive(Clone, Copy, Debug, PartialEq, Eq, Structural)]
pub struct GovernanceParameters {
    /// Length of a vote, in blocks.
    pub voting_period: BoundedParam,
    /// Participation needed for a vote to count, percent.
    pub quorum_percent: BoundedParam,
}

#[derive(Clone, Copy, Debug, PartialEq, Eq, Structural)]
pub struct ProtocolParameters {
    pub version: ProtocolVersion,
    pub active_since: BlockNumber,
    pub economics: EconomicParameters,
    pub consensus: ConsensusParameters,
    pub governance: GovernanceParameters,
}

/// Every value within its bounds, and the fee shares summing to at most 100.
pub open spec fn params_wf(p: ProtocolParameters) -> bool {
    &&& p.economics.inflation_rate.wf()
    &&& p.economics.fee_burn_rate.wf()
    &&& p.economics.fee_validator_rate.wf()
    &&& p.consensus.target_validators.wf()
    &&& p.governance.voting_period.wf()
    &&& p.governance.quorum_percent.wf()
    &&& p.economics.fee_burn_rate.current + p.economics.fee_validator_rate.current <= 100
}

pub open spec fn spec_genesis() -> ProtocolParameters {
    ProtocolParameters {
        version: ProtocolVersion { major: 1, minor: 0, patch: 0 },
        active_since: 0,
        economics: EconomicParameters {
            inflation_rate: BoundedParam { current: 5, min: 0, max: 5 },
            fee_burn_rate: BoundedParam { current: 50, min: 0, max: 100 },
            fee_validator_rate: BoundedParam { current: 50, min: 0, max: 100 },
        },
        consensus: ConsensusParameters {
            target_validators: BoundedParam { current: 50, min: 21, max: 1000 },
        },
        governance: GovernanceParameters {
            voting_period: BoundedParam { current: 100_800, min: 14_400, max: 403_200 },
            quorum_percent: BoundedParam { current: 30, min: 10, max: 50 },
        },
    }
}

impl ProtocolParameters {
    /// The parameters the chain starts with.
    pub fn genesis() -> (p: ProtocolParameters)
        ensures
            p == spec_genesis(),
            params_wf(p),
    {
        ProtocolParameters {
            version: ProtocolVersion { major: 1, minor: 0, patch: 0 },
            active_since: 0,
            economics: EconomicParameters {
                inflation_rate: BoundedParam { current: 5, min: 0, max: 5 },
                fee_burn_rate: BoundedParam { current: 50, min: 0, max: 100 },
                fee_validator_rate: BoundedParam { current: 50, min: 0, max: 100 },
            },
            consensus: ConsensusParameters {
                target_validators: BoundedParam { current: 50, min: 21, max: 1000 },
            },
            governance: GovernanceParameters {
                voting_period: BoundedParam { current: 100_800, min: 14_400, max: 403_200 },
                quorum_percent: BoundedParam { current: 30, min: 10, max: 50 },
            },
        }
    }
}

/// One amendment of one parameter.
#[derive(Clone, Copy, Debug, PartialEq, Eq, Structural)]
pub enum ParameterChange {
    InflationRate(u8),
    FeeBurnRate(u8),
    FeeValidatorRate(u8),
    TargetValidators(u32),
    VotingPeriod(u64),
    QuorumPercent(u8),
}

#[derive(Clone, Copy, Debug, PartialEq, Eq, Structural)]
pub enum ParameterError {
    /// The value lies outside the parameter's constitutional range.
    OutOfBounds { value: u64, min: u64, max: u64 },
    /// Burn and validator shares of fees would exceed 100 percent.
    FeeSplitExceeded,
}

/// The bounded parameter a change touches, and the value it would take.
pub open spec fn change_target(c: ParameterChange, p: ProtocolParameters) -> (BoundedParam, u64) {
    match c {
        ParameterChange::InflationRate(v) => (p.economics.inflation_rate, v as u64),
        ParameterChange::FeeBurnRate(v) => (p.economics.fee_burn_rate, v as u64),
        ParameterChange::FeeValidatorRate(v) => (p.economics.fee_validator_rate, v as u64),
        ParameterChange::TargetValidators(v) => (p.consensus.target_validators, v as u64),
        ParameterChange::VotingPeriod(v) => (p.governance.voting_period, v),
        ParameterChange::QuorumPercent(v) => (p.governance.quorum_percent, v as u64),
    }
}

/// The fee shares are kept at most 100 after the change.
pub open spec fn fee_split_ok(c: ParameterChange, p: ProtocolParameters) -> bool {
    match c {
        ParameterChange::FeeBurnRate(v) => v + p.economics.fee_validator_rate.current <= 100,
        ParameterChange::FeeValidatorRate(v) => p.economics.fee_burn_rate.current + v <= 100,
        _ => true,
    }
}

pub open spec fn spec_is_constitutional(c: ParameterChange, p: ProtocolParameters) -> bool {
    change_target(c, p).0.holds(change_target(c, p).1) && fee_split_ok(c, p)
}

pub open spec fn set_current(b: BoundedParam, v: u64) -> BoundedParam {
    BoundedParam { current: v, ..b }
}

/// `p` with the change made, whether or not it is allowed.
pub open spec fn spec_with_change(c: ParameterChange, p: ProtocolParameters) -> ProtocolParameters {
    let v = change_target(c, p).1;
    match c {
        ParameterChange::InflationRate(_) => ProtocolParameters {
            economics: EconomicParameters { inflation_rate: set_current(p.economics.inflation_rate, v), ..p.economics },
            ..p
        },
        ParameterChange::FeeBurnRate(_) => ProtocolParameters {
            economics: EconomicParameters { fee_burn_rate: set_current(p.economics.fee_burn_rate, v), ..p.economics },
            ..p
        },
        ParameterChange::FeeValidatorRate(_) => ProtocolParameters {
            economics: EconomicParameters {
                fee_validator_rate: set_current(p.economics.fee_validator_rate, v),
                ..p.economics
            },
            ..p
        },
        ParameterChange::TargetValidators(_) => ProtocolParameters {
            consensus: ConsensusParameters { target_validators: set_current(p.consensus.target_validators, v) },
            ..p
        },
        ParameterChange::VotingPeriod(_) => ProtocolParameters {
            governance: GovernanceParameters { voting_period: set_current(p.governance.voting_period, v), ..p.governance },
            ..p
        },
        ParameterChange::QuorumPercent(_) => ProtocolParameters {
            governance: GovernanceParameters {
                quorum_percent: set_current(p.governance.quorum_percent, v),
                ..p.governance
            },
            ..p
        },
    }
}

/// The error a refused change gives: the range first, then the fee split.
pub open spec fn spec_change_error(c: ParameterChange, p: ProtocolParameters) -> ParameterError {
    let (b, v) = change_target(c, p);
    if !b.holds(v) {
        ParameterError::OutOfBounds { value: v, min: b.min, max: b.max }
    } else {
        ParameterError::FeeSplitExceeded
    }
}

impl ParameterChange {
    pub fn is_constitutional(&self, params: &ProtocolParameters) -> (b: bool)
        ensures
            b == spec_is_constitutional(*self, *params),
    {
        let (b, v) = self.target(params);
        b.min <= v && v <= b.max && self.fee_split_ok(params)
    }

    fn target(&self, p: &ProtocolParameters) -> (r: (BoundedParam, u64))
        ensures
            r == change_target(*self, *p),
    {
        match *self {
            ParameterChange::InflationRate(v) => (p.economics.inflation_rate, v as u64),
            ParameterChange::FeeBurnRate(v) => (p.economics.fee_burn_rate, v as u64),
            ParameterChange::FeeValidatorRate(v) => (p.economics.fee_validator_rate, v as u64),
            ParameterChange::TargetValidators(v) => (p.consensus.target_validators, v as u64),
            ParameterChange::VotingPeriod(v) => (p.governance.voting_period, v),
            ParameterChange::QuorumPercent(v) => (p.governance.quorum_percent, v as u64),
        }
    }

    fn fee_split_ok(&self, p: &ProtocolParameters) -> (b: bool)
        ensures
            b == fee_split_ok(*self, *p),
    {
        match *self {
            ParameterChange::FeeBurnRate(v) => (v as u64) <= 100 && p.economics.fee_validator_rate.current <= 100
                - (v as u64),
            ParameterChange::FeeValidatorRate(v) => (v as u64) <= 100 && p.economics.fee_burn_rate.current <= 100
                - (v as u64),
            _ => true,
        }
    }

    /// Makes the change when it is constitutional; otherwise leaves the
    /// parameters as they are and says why.
    pub fn apply(&self, params: &mut ProtocolParameters) -> (r: Result<(), ParameterError>)
        ensures
            r is Ok <==> spec_is_constitutional(*self, *old(params)),
            r is Ok ==> *final(params) == spec_with_change(*self, *old(params)),
            r is Err ==> *final(params) == *old(params) && r == Err::<(), ParameterError>(
                spec_change_error(*self, *old(params)),
            ),
    {
        let (b, v) = self.target(params);
        if !(b.min <= v && v <= b.max) {
            return Err(ParameterError::OutOfBounds { value: v, min: b.min, max: b.max });
        }
        if !self.fee_split_ok(params) {
            return Err(ParameterError::FeeSplitExceeded);
        }
        match *self {
            ParameterChange::InflationRate(_) => {
                params.economics.inflation_rate.current = v;
            },
            ParameterChange::FeeBurnRate(_) => {
                params.economics.fee_burn_rate.current = v;
            },
            ParameterChange::FeeValidatorRate(_) => {
                params.economics.fee_validator_rate.current = v;
            },
            ParameterChange::TargetValidators(_) => {
                params.consensus.target_validators.current = v;
            },
            ParameterChange::VotingPeriod(_) => {
                params.governance.voting_period.current = v;
            },
            ParameterChange::QuorumPercent(_) => {
                params.governance.quorum_percent.current = v;
            },
        }
        Ok(())
    }
}

/// A constitutional change keeps the parameters well formed.
pub proof fn lemma_change_keeps_wf(c: ParameterChange, p: ProtocolParameters)
    requires
        params_wf(p),
        spec_is_constitutional(c, p),
    ensures
        params_wf(spec_with_change(c, p)),
{
}

} // verus!

use kratos_core::emergency::{EmergencyContract, RecoveryStep, EMERGENCY_MAX_DURATION};
use kratos_core::fork::{ForkContract, ForkError, ForkStatus, ForkType, FORK_PROPOSAL_DEPOSIT, SIDECHAIN_ALIGNMENT_DEADLINE};
use kratos_core::governance::{ProposalType, EXIT_TIMELOCK, SUPERMAJORITY_THRESHOLD};
use kratos_core::meta_governance::{MetaGovernanceContract, MetaGovernanceError, PROTOCOL_UPGRADE_TIMELOCK};
use kratos_core::protocol::{ParameterChange, ParameterError, ProtocolVersion};
use kratos_core::dispute::FraudSeverity;
use kratos_core::sidechains::{ChainError, ChainRegistry, ChainStatus, FraudProof, SecurityMode, SOVEREIGN_DEPOSIT};
use kratos_core::types::{AccountId, ChainId};

fn account(seed: u8) -> AccountId {
    AccountId::from_bytes([seed; 32])
}

#[test]
fn law_emergency_expires_after_max_duration() {
    let mut contract = EmergencyContract::new();
    for i in 1..=10 {
        contract.set_voting_power(account(i), 10);
    }
    for i in 1..=8 {
        contract.vote_emergency(account(i), true, 5000).unwrap();
    }
    assert!(contract.state.active);
    assert_eq!(contract.state.expires_at, Some(5000 + EMERGENCY_MAX_DURATION));
    assert_eq!(contract.check_expiration(5000 + EMERGENCY_MAX_DURATION - 1), Ok(false));
    assert!(contract.state.active);
    assert_eq!(contract.check_expiration(5000 + EMERGENCY_MAX_DURATION), Ok(true));
    assert!(!contract.state.active);
}

#[test]
fn law_recovery_completes_after_nine_steps() {
    let mut contract = EmergencyContract::new();
    contract.start_recovery(None, 34, 1000).unwrap();
    let mut last = RecoveryStep::Halt;
    for k in 1..=9u64 {
        last = contract.advance_recovery(1000 + k).unwrap();
    }
    assert_eq!(last, RecoveryStep::Complete);
}

#[test]
fn law_exit_timelock_is_thirty_days() {
    let exit = ProposalType::ExitDissolve;
    assert_eq!(exit.required_threshold(), SUPERMAJORITY_THRESHOLD);
    assert_eq!(exit.timelock_period(), EXIT_TIMELOCK);
    assert_eq!(EXIT_TIMELOCK * 6, 30 * 24 * 3600);
}

fn fork_setup() -> ForkContract {
    let mut contract = ForkContract::new();
    for i in 1..=10 {
        contract.set_voting_power(account(i), 10);
    }
    contract.set_total_stake(100_000_000);
    contract
}

fn technical() -> ForkType {
    ForkType::Technical { version: ProtocolVersion::new(2, 0, 0), description: "Upgrade".to_string() }
}

#[test]
fn law_fork_possible_without_any_support() {
    // An account without voting power can still propose a fork.
    let mut contract = fork_setup();
    let id = contract
        .propose_fork(account(99), "Exit".to_string(), technical(), "d".to_string(), FORK_PROPOSAL_DEPOSIT, 10)
        .unwrap();
    assert_eq!(contract.get_fork(id).unwrap().status, ForkStatus::Proposed);
    // The same name at the same block is the same fork.
    let again = contract.propose_fork(account(98), "Exit".to_string(), technical(), "d".to_string(), FORK_PROPOSAL_DEPOSIT, 10);
    assert_eq!(again, Err(ForkError::ForkAlreadyExists(id)));
}

#[test]
fn fork_error_variants() {
    let mut contract = fork_setup();
    let missing = kratos_core::types::Hash::hash(b"missing");
    assert_eq!(contract.support_fork(missing, account(1), 0, 10), Err(ForkError::ForkNotFound(missing)));
    assert_eq!(contract.support_fork(missing, account(50), 0, 10), Err(ForkError::NoVotingPower));
    let id = contract
        .propose_fork(account(1), "F".to_string(), technical(), "d".to_string(), FORK_PROPOSAL_DEPOSIT, 10)
        .unwrap();
    assert_eq!(contract.support_fork(id, account(1), 0, 11), Err(ForkError::AlreadyVoted));
    assert_eq!(contract.mark_ready(id, 20), Err(ForkError::NotInPreparation));
    assert_eq!(contract.execute_fork(id, ChainId(5), 20), Err(ForkError::ForkNotReady));
    let snapshot = contract.create_snapshot(
        id,
        missing,
        vec![],
        missing,
        missing,
        missing,
        0,
        20,
    );
    assert_eq!(snapshot, Err(ForkError::NotInPreparation));
    for i in 2..=4 {
        contract.support_fork(id, account(i), 0, 11).unwrap();
    }
    assert_eq!(contract.support_fork(id, account(5), 0, 12), Err(ForkError::ForkAlreadyDeclared));
    let fork_height = contract.get_fork(id).unwrap().fork_height;
    assert_eq!(
        contract.set_sidechain_alignment(
            id,
            ChainId(1),
            kratos_core::fork::ForkAlignment::FollowA,
            missing,
            fork_height - SIDECHAIN_ALIGNMENT_DEADLINE + 1
        ),
        Err(ForkError::AlignmentDeadlinePassed)
    );
    assert_eq!(contract.mark_ready(id, 12), Err(ForkError::PreparationNotMet));
    assert_eq!(contract.vote_ossification(account(1), true, 10), Err(ForkError::OssificationNotEligible));
    assert_eq!(contract.propose_ossification(account(1), 10, false), Err(ForkError::OssificationNotEligible));
}

#[test]
fn fork_stake_threshold_declares() {
    let mut contract = fork_setup();
    let id = contract
        .propose_fork(account(1), "Stake".to_string(), technical(), "d".to_string(), FORK_PROPOSAL_DEPOSIT, 10)
        .unwrap();
    // One more validator (2/10 = 20%) but 40% of the stake.
    contract.support_fork(id, account(2), 40_000_000, 11).unwrap();
    let fork = contract.get_fork(id).unwrap();
    assert_eq!(fork.status, ForkStatus::Declared);
    assert!(matches!(
        fork.declared_by,
        kratos_core::fork::ForkDeclarant::Stake { amount: 40_000_000, total_stake: 100_000_000, percent: 40 }
    ));
    assert_eq!(fork.preparation_ends, 11 + 432_000);
    assert_eq!(fork.fork_height, 11 + 432_000 + 14_400);
}

fn pass_and_execute(contract: &mut MetaGovernanceContract, changes: Vec<ParameterChange>, at: u64) -> Result<(), MetaGovernanceError> {
    let proposer = account(1);
    let id = contract.propose_parameter_change(proposer, changes, "r".to_string(), 1, at)?;
    contract.vote(id, proposer, true, at + 1)?;
    let period = contract.parameters.governance.voting_period.value();
    contract.finalize_voting(id, at + 1 + period)?;
    contract.execute_proposal(id, at + 1 + period + PROTOCOL_UPGRADE_TIMELOCK)
}

#[test]
fn law_parameters_stay_constitutional() {
    let mut contract = MetaGovernanceContract::new();
    contract.set_voting_power(account(1), 100);
    // Burn 30, validators 50.
    pass_and_execute(&mut contract, vec![ParameterChange::FeeBurnRate(30)], 1000).unwrap();
    assert_eq!(contract.parameters.economics.fee_burn_rate.value(), 30);
    // Two proposals, each constitutional when proposed...
    let proposer = account(1);
    let p1 = contract.propose_parameter_change(proposer, vec![ParameterChange::FeeBurnRate(50)], "a".to_string(), 2, 3_000_000).unwrap();
    let p2 = contract.propose_parameter_change(proposer, vec![ParameterChange::FeeValidatorRate(70)], "b".to_string(), 3, 3_000_000).unwrap();
    for p in [p1, p2] {
        contract.vote(p, proposer, true, 3_000_001).unwrap();
    }
    let period = contract.parameters.governance.voting_period.value();
    let end = 3_000_001 + period;
    contract.finalize_voting(p1, end).unwrap();
    contract.finalize_voting(p2, end).unwrap();
    contract.execute_proposal(p1, end + PROTOCOL_UPGRADE_TIMELOCK).unwrap();
    // ...but together they would take fees past 100%: the second is refused.
    assert_eq!(
        contract.execute_proposal(p2, end + PROTOCOL_UPGRADE_TIMELOCK),
        Err(MetaGovernanceError::ParameterError(ParameterError::FeeSplitExceeded))
    );
    assert_eq!(contract.parameters.economics.fee_burn_rate.value(), 50);
    assert_eq!(contract.parameters.economics.fee_validator_rate.value(), 50);
    // Out of range values are refused when proposed.
    assert_eq!(
        contract.propose_parameter_change(proposer, vec![ParameterChange::TargetValidators(5)], "c".to_string(), 4, 9),
        Err(MetaGovernanceError::ConstitutionalViolation)
    );
}

#[test]
fn meta_governance_error_variants() {
    let mut contract = MetaGovernanceContract::new();
    let nobody = account(7);
    assert_eq!(
        contract.propose_parameter_change(nobody, vec![], "x".to_string(), 1, 1),
        Err(MetaGovernanceError::NoVotingPower)
    );
    contract.set_voting_power(account(1), 100);
    let too_many = vec![ParameterChange::InflationRate(1); 11];
    assert_eq!(
        contract.propose_parameter_change(account(1), too_many, "x".to_string(), 1, 1),
        Err(MetaGovernanceError::BatchTooLarge)
    );
    let id = contract.propose_parameter_change(account(1), vec![], "x".to_string(), 1, 1).unwrap();
    assert_eq!(contract.finalize_voting(id, 2), Err(MetaGovernanceError::VotingPeriodNotElapsed));
    assert_eq!(contract.execute_proposal(id, 2), Err(MetaGovernanceError::NotApproved));
    assert_eq!(contract.vote(id, nobody, true, 2), Err(MetaGovernanceError::NoVotingPower));
    contract.vote(id, account(1), true, 2).unwrap();
    assert_eq!(contract.vote(id, account(1), true, 3), Err(MetaGovernanceError::AlreadyVoted));
    assert_eq!(contract.advance_to_voting(id, 3), Err(MetaGovernanceError::NotInSignalingPhase));
    let impact = kratos_core::meta_governance::ImpactAnalysis::minimal("consensus");
    assert_eq!(
        contract.propose_version_upgrade(account(1), ProtocolVersion::new(1, 0, 0), "same".to_string(), false, impact, 1, 5),
        Err(MetaGovernanceError::InvalidVersion)
    );
}

#[test]
fn fraud_proof_purges_at_one_third() {
    let mut registry = ChainRegistry::new();
    let owner = account(1);
    let chain = registry
        .create_sidechain(owner, Some("C".to_string()), None, None, SecurityMode::Sovereign, None, SOVEREIGN_DEPOSIT, 0)
        .unwrap();
    for i in 10..13 {
        registry.add_validator_to_chain(chain, account(i)).unwrap();
    }
    let proof = |affected_chain: Option<ChainId>, fraud_block: u64| FraudProof {
        accused: account(10),
        fraud_block,
        affected_chain,
        severity: FraudSeverity::Critical,
    };
    // Too old.
    assert_eq!(registry.apply_fraud_proof(proof(Some(chain), 0), 432_001), Err(ChainError::FraudProofExpired));
    // Not about a chain.
    assert_eq!(registry.apply_fraud_proof(proof(None, 0), 10), Ok(false));
    // One of three validators slashed: 33% reached, purge triggered.
    assert_eq!(registry.apply_fraud_proof(proof(Some(chain), 5), 10), Ok(true));
    assert_eq!(registry.get_sidechain(&chain).unwrap().status, ChainStatus::PendingPurge);
    assert_eq!(registry.get_sidechain(&chain).unwrap().slashed_validators_count, 1);
    assert_eq!(registry.apply_fraud_proof(proof(Some(ChainId(77)), 5), 10), Err(ChainError::ChainNotFound));
}

#[test]
fn fraud_proof_verification_reports_the_proof() {
    let mut registry = ChainRegistry::new();
    let chain = registry
        .create_sidechain(account(1), Some("C".to_string()), None, None, SecurityMode::Sovereign, None, SOVEREIGN_DEPOSIT, 0)
        .unwrap();
    let proof = FraudProof { accused: account(10), fraud_block: 7, affected_chain: Some(chain), severity: FraudSeverity::Major };
    let v = registry.verify_fraud_proof(proof, 100).unwrap();
    assert!(v.is_valid);
    assert_eq!(v.accused, account(10));
    assert_eq!(v.severity, FraudSeverity::Major);
    assert_eq!(v.fraud_block, 7);
    assert_eq!(registry.get_sidechain(&chain).unwrap().slashed_validators_count, 1);
    // At the edge of the validity period it is still accepted, one block later not.
    assert!(registry.verify_fraud_proof(proof, 7 + 432_000).is_ok());
    assert_eq!(registry.verify_fraud_proof(proof, 7 + 432_001), Err(ChainError::FraudProofExpired));
}

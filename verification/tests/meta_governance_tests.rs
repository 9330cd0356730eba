use kratos_core::meta_governance::{
    ImpactAnalysis, MetaGovernanceContract, MetaGovernanceError, UpgradeStatus, PROTOCOL_UPGRADE_TIMELOCK,
    SIGNALING_PERIOD,
};
use kratos_core::protocol::{ParameterChange, ProtocolVersion};
use kratos_core::types::{AccountId, ChainId};

fn create_account(seed: u8) -> AccountId {
    AccountId::from_bytes([seed; 32])
}

#[test]
fn test_create_parameter_change_proposal() {
    let mut contract = MetaGovernanceContract::new();
    let proposer = create_account(1);

    contract.set_voting_power(proposer, 100);

    let changes = vec![ParameterChange::InflationRate(3)];
    let result = contract.propose_parameter_change(
        proposer,
        changes,
        "Test rationale".to_string(),
        100,
        1000,
    );

    assert!(result.is_ok());
    let proposal_id = result.unwrap();

    let proposal = contract.get_proposal(&proposal_id).unwrap();
    assert_eq!(proposal.status, UpgradeStatus::Voting);
}

#[test]
fn test_constitutional_violation_rejected() {
    let mut contract = MetaGovernanceContract::new();
    let proposer = create_account(1);

    contract.set_voting_power(proposer, 100);

    // Try to set inflation to 10% (max is 5%)
    let changes = vec![ParameterChange::InflationRate(10)];
    let result = contract.propose_parameter_change(
        proposer,
        changes,
        "Invalid change".to_string(),
        100,
        1000,
    );

    assert_eq!(result, Err(MetaGovernanceError::ConstitutionalViolation));
}

#[test]
fn test_vote_on_proposal() {
    let mut contract = MetaGovernanceContract::new();
    let proposer = create_account(1);
    let voter1 = create_account(2);
    let voter2 = create_account(3);

    contract.set_voting_power(proposer, 100);
    contract.set_voting_power(voter1, 100);
    contract.set_voting_power(voter2, 100);

    let proposal_id = contract.propose_parameter_change(
        proposer,
        vec![ParameterChange::InflationRate(3)],
        "Test".to_string(),
        100,
        1000,
    ).unwrap();

    // Vote
    assert!(contract.vote(proposal_id, proposer, true, 1100).is_ok());
    assert!(contract.vote(proposal_id, voter1, true, 1100).is_ok());
    assert!(contract.vote(proposal_id, voter2, false, 1100).is_ok());

    let proposal = contract.get_proposal(&proposal_id).unwrap();
    assert_eq!(proposal.yes_votes, 200);
    assert_eq!(proposal.no_votes, 100);
    assert_eq!(proposal.approval_percentage(), 66);
}

#[test]
fn test_finalize_and_execute() {
    let mut contract = MetaGovernanceContract::new();
    let proposer = create_account(1);

    contract.set_voting_power(proposer, 100);

    let proposal_id = contract.propose_parameter_change(
        proposer,
        vec![ParameterChange::InflationRate(3)],
        "Test".to_string(),
        100,
        1000,
    ).unwrap();

    // Vote with enough support
    contract.vote(proposal_id, proposer, true, 1100).unwrap();

    // Finalize after voting period
    let voting_period = contract.parameters.governance.voting_period.value();
    assert!(contract.finalize_voting(proposal_id, 1100 + voting_period).is_ok());

    let proposal = contract.get_proposal(&proposal_id).unwrap();
    assert_eq!(proposal.status, UpgradeStatus::Approved);

    // Execute after timelock
    let timelock = proposal.proposal_type.timelock();
    let result = contract.execute_proposal(
        proposal_id,
        1100 + voting_period + timelock,
    );
    assert!(result.is_ok());

    // Check parameter was updated
    assert_eq!(contract.parameters.economics.inflation_rate.value(), 3);
}

#[test]
fn test_version_upgrade_requires_signaling() {
    let mut contract = MetaGovernanceContract::new();
    let proposer = create_account(1);

    contract.set_voting_power(proposer, 100);
    contract.register_chain(ChainId(1), 50, 1000);
    contract.register_chain(ChainId(2), 50, 1000);

    let impact = ImpactAnalysis {
        affected_subsystems: vec!["consensus".to_string()],
        backward_compatible: true,
        risk_level: 2,
        rollback_difficulty: 2,
        required_node_version: Some("2.0.0".to_string()),
        migration_steps: vec![],
        test_summary: "All tests pass".to_string(),
    };

    let proposal_id = contract.propose_version_upgrade(
        proposer,
        ProtocolVersion::new(2, 0, 0),
        "Major upgrade".to_string(),
        false,
        impact,
        100,
        1000,
    ).unwrap();

    let proposal = contract.get_proposal(&proposal_id).unwrap();
    assert_eq!(proposal.status, UpgradeStatus::Signaling);
}

#[test]
fn test_chain_signaling() {
    let mut contract = MetaGovernanceContract::new();
    let proposer = create_account(1);

    contract.set_voting_power(proposer, 100);
    contract.register_chain(ChainId(1), 50, 1000);
    contract.register_chain(ChainId(2), 50, 1000);

    let impact = ImpactAnalysis {
        affected_subsystems: vec!["consensus".to_string()],
        backward_compatible: true,
        risk_level: 2,
        rollback_difficulty: 2,
        required_node_version: None,
        migration_steps: vec![],
        test_summary: "Tests pass".to_string(),
    };

    let proposal_id = contract.propose_version_upgrade(
        proposer,
        ProtocolVersion::new(2, 0, 0),
        "Upgrade".to_string(),
        false,
        impact,
        100,
        1000,
    ).unwrap();

    // Signal from both chains
    assert!(contract.submit_chain_signal(proposal_id, ChainId(1), true, 1100).is_ok());
    assert!(contract.submit_chain_signal(proposal_id, ChainId(2), true, 1100).is_ok());

    // Advance to voting after signaling period
    let result = contract.advance_to_voting(proposal_id, 1000 + SIGNALING_PERIOD + 1);
    assert!(result.is_ok());

    let proposal = contract.get_proposal(&proposal_id).unwrap();
    assert_eq!(proposal.status, UpgradeStatus::Voting);
}

#[test]
fn test_batch_parameter_change() {
    let mut contract = MetaGovernanceContract::new();
    let proposer = create_account(1);

    contract.set_voting_power(proposer, 100);

    // Note: fee_burn + fee_validator must sum to <= 100%
    // Default is 50/50, so we change burn to 40 (40+50=90, valid)
    let changes = vec![
        ParameterChange::InflationRate(3),
        ParameterChange::FeeBurnRate(40),
        ParameterChange::TargetValidators(61),
    ];

    let proposal_id = contract.propose_parameter_change(
        proposer,
        changes,
        "Batch update".to_string(),
        100,
        1000,
    ).unwrap();

    // Vote and execute
    contract.vote(proposal_id, proposer, true, 1100).unwrap();
    let voting_period = contract.parameters.governance.voting_period.value();
    contract.finalize_voting(proposal_id, 1100 + voting_period).unwrap();

    let timelock = PROTOCOL_UPGRADE_TIMELOCK;
    contract.execute_proposal(proposal_id, 1100 + voting_period + timelock).unwrap();

    // Verify all changes applied
    assert_eq!(contract.parameters.economics.inflation_rate.value(), 3);
    assert_eq!(contract.parameters.economics.fee_burn_rate.value(), 40);
    assert_eq!(contract.parameters.consensus.target_validators.value(), 61);
}

#[test]
fn meta_governance_test_cancel_proposal() {
    let mut contract = MetaGovernanceContract::new();
    let proposer = create_account(1);
    let other = create_account(2);

    contract.set_voting_power(proposer, 100);

    let proposal_id = contract.propose_parameter_change(
        proposer,
        vec![ParameterChange::InflationRate(3)],
        "Test".to_string(),
        100,
        1000,
    ).unwrap();

    // Non-proposer cannot cancel
    assert_eq!(
        contract.cancel_proposal(proposal_id, &other),
        Err(MetaGovernanceError::NotProposer)
    );

    // Proposer can cancel
    let result = contract.cancel_proposal(proposal_id, &proposer);
    assert!(result.is_ok());
    assert_eq!(result.unwrap(), 100); // Deposit returned

    let proposal = contract.get_proposal(&proposal_id).unwrap();
    assert_eq!(proposal.status, UpgradeStatus::Cancelled);
}

#[test]
fn test_parameter_history() {
    let mut contract = MetaGovernanceContract::new();
    let proposer = create_account(1);

    contract.set_voting_power(proposer, 100);

    // Initial inflation
    let initial = contract.parameters.economics.inflation_rate.value();

    // Create and execute change
    let proposal_id = contract.propose_parameter_change(
        proposer,
        vec![ParameterChange::InflationRate(3)],
        "Test".to_string(),
        100,
        1000,
    ).unwrap();

    contract.vote(proposal_id, proposer, true, 1100).unwrap();
    let voting_period = contract.parameters.governance.voting_period.value();
    contract.finalize_voting(proposal_id, 1100 + voting_period).unwrap();
    contract.execute_proposal(proposal_id, 1100 + voting_period + PROTOCOL_UPGRADE_TIMELOCK).unwrap();

    // Check history preserved
    let history = contract.get_parameter_history();
    assert_eq!(history.len(), 1);
    assert_eq!(history[0].1.economics.inflation_rate.value(), initial);
}

use kratos_core::emergency::{
    EmergencyAction, EmergencyContract, EmergencyError, EmergencyOutcome, EmergencyTrigger, FailureSignal, RecoveryStep,
};
use kratos_core::types::{AccountId, ChainId};

fn create_account(seed: u8) -> AccountId {
    AccountId::from_bytes([seed; 32])
}

fn setup_contract_with_validators() -> EmergencyContract {
    let mut contract = EmergencyContract::new();

    // Set up validators with voting power (total = 100)
    for i in 1..=10 {
        contract.set_voting_power(create_account(i), 10);
    }

    contract
}

#[test]
fn emergency_test_new_contract() {
    let contract = EmergencyContract::new();

    assert!(!contract.state.active);
    assert!(contract.recovery.is_none());
    assert!(!contract.breakers.is_empty()); // Default breakers registered
}

#[test]
fn test_default_breakers_registered() {
    let contract = EmergencyContract::new();

    assert!(contract.breakers.contains_key("finality_delay"));
    assert!(contract.breakers.contains_key("validator_participation"));
    assert!(contract.breakers.contains_key("state_mismatch"));
    assert!(contract.breakers.contains_key("slashing_spike"));
    assert!(contract.breakers.contains_key("governance_deadlock"));
}

#[test]
fn test_vote_emergency() {
    let mut contract = setup_contract_with_validators();

    // Vote with 8 validators (80% > 75% threshold)
    for i in 1..=8 {
        let result = contract.vote_emergency(create_account(i), true, 1000);
        assert!(result.is_ok());
    }

    // Emergency should be declared
    assert!(contract.state.active);
    assert!(contract.state.declared_at.is_some());
}

#[test]
fn test_vote_emergency_insufficient() {
    let mut contract = setup_contract_with_validators();

    // Vote with only 7 validators (70% < 75% threshold)
    for i in 1..=7 {
        let result = contract.vote_emergency(create_account(i), true, 1000);
        assert!(result.is_ok());
    }

    // Emergency should NOT be declared
    assert!(!contract.state.active);
}

#[test]
fn test_double_vote_rejected() {
    let mut contract = setup_contract_with_validators();

    let voter = create_account(1);

    let result1 = contract.vote_emergency(voter, true, 1000);
    assert!(result1.is_ok());

    let result2 = contract.vote_emergency(voter, true, 1001);
    assert_eq!(result2, Err(EmergencyError::AlreadyVoted));
}

#[test]
fn test_take_action() {
    let mut contract = setup_contract_with_validators();

    // Declare emergency first
    for i in 1..=8 {
        contract.vote_emergency(create_account(i), true, 1000).unwrap();
    }

    // Take action
    let action = EmergencyAction::PauseBlockProduction {
        started_at: 1000,
        max_duration: 10000,
    };

    let result = contract.take_action(action, 1001);
    assert!(result.is_ok());
    assert_eq!(contract.state.actions_taken.len(), 1);
}

#[test]
fn test_take_action_without_emergency() {
    let mut contract = setup_contract_with_validators();

    let action = EmergencyAction::HaltSlashing {
        reason: "test".to_string(),
    };

    let result = contract.take_action(action, 1000);
    assert_eq!(result, Err(EmergencyError::NotActive));
}

#[test]
fn test_invalid_action_rejected() {
    let mut contract = setup_contract_with_validators();

    // Declare emergency
    for i in 1..=8 {
        contract.vote_emergency(create_account(i), true, 1000).unwrap();
    }

    // Try to set quorum above constitutional limit (80%)
    let action = EmergencyAction::IncreaseQuorum { new_quorum: 90 };
    let result = contract.take_action(action, 1001);

    assert!(matches!(result, Err(EmergencyError::InvalidAction(_))));
}

#[test]
fn test_emergency_expiration() {
    let mut contract = setup_contract_with_validators();

    // Declare emergency
    for i in 1..=8 {
        contract.vote_emergency(create_account(i), true, 1000).unwrap();
    }

    assert!(contract.state.active);

    // Check before expiration
    let result1 = contract.check_expiration(50000);
    assert!(result1.is_ok());
    assert!(!result1.unwrap());
    assert!(contract.state.active);

    // Check after expiration (1000 + 100,800 = 101,800)
    let result2 = contract.check_expiration(102000);
    assert!(result2.is_ok());
    assert!(result2.unwrap());
    assert!(!contract.state.active);
}

#[test]
fn test_end_emergency() {
    let mut contract = setup_contract_with_validators();

    // Declare emergency
    for i in 1..=8 {
        contract.vote_emergency(create_account(i), true, 1000).unwrap();
    }

    // End it
    let result = contract.end_emergency(EmergencyOutcome::Resolved, 2000);
    assert!(result.is_ok());

    assert!(!contract.state.active);
    assert_eq!(contract.history.len(), 1);
    assert_eq!(contract.history[0].outcome, EmergencyOutcome::Resolved);
}

#[test]
fn test_cooldown_after_emergency() {
    let mut contract = setup_contract_with_validators();

    // Declare and end emergency
    for i in 1..=8 {
        contract.vote_emergency(create_account(i), true, 1000).unwrap();
    }
    contract.end_emergency(EmergencyOutcome::Resolved, 2000).unwrap();

    // Try to vote again during cooldown
    let result = contract.vote_emergency(create_account(1), true, 3000);

    assert!(matches!(result, Err(EmergencyError::InCooldown { .. })));
}

#[test]
fn test_trigger_breaker() {
    let mut contract = EmergencyContract::new();

    let result = contract.trigger_breaker("finality_delay", 1000);
    assert!(result.is_ok());

    let breaker = contract.breakers.get("finality_delay").unwrap();
    assert!(breaker.is_active);
    assert_eq!(breaker.triggered_at, Some(1000));
}

#[test]
fn test_breaker_expiration() {
    let mut contract = EmergencyContract::new();

    contract.trigger_breaker("finality_delay", 1000).unwrap();

    // Check before expiration
    contract.check_breaker_expirations(10000);
    assert!(contract.breakers.get("finality_delay").unwrap().is_active);

    // Check after expiration (1000 + 14400 = 15400)
    contract.check_breaker_expirations(20000);
    assert!(!contract.breakers.get("finality_delay").unwrap().is_active);
}

#[test]
fn test_report_signal() {
    let mut contract = EmergencyContract::new();

    let signal = FailureSignal::ConsensusStall { epochs_stalled: 5 };
    let result = contract.report_signal(signal, 1000);

    assert!(result.is_ok());
    assert_eq!(contract.signals.len(), 1);
}

#[test]
fn test_signal_triggers_breaker() {
    let mut contract = EmergencyContract::new();

    // Report signal that matches finality_delay breaker condition
    let signal = FailureSignal::ConsensusStall { epochs_stalled: 5 };
    contract.report_signal(signal, 1000).unwrap();

    // Finality delay breaker should be triggered
    assert!(contract.breakers.get("finality_delay").unwrap().is_active);
}

#[test]
fn test_multiple_signals_trigger_emergency() {
    let mut contract = setup_contract_with_validators();

    // Report multiple high-severity signals
    let signal1 = FailureSignal::ConsensusStall { epochs_stalled: 8 };
    let signal2 = FailureSignal::ValidatorMassOffline {
        offline_count: 40,
        total_validators: 100,
    };

    contract.report_signal(signal1, 1000).unwrap();
    contract.report_signal(signal2, 1001).unwrap();

    // Emergency should be declared automatically
    assert!(contract.state.active);
    assert!(matches!(
        contract.state.trigger,
        Some(EmergencyTrigger::MultipleSignals { .. })
    ));
}

#[test]
fn test_start_recovery() {
    let mut contract = EmergencyContract::new();

    let result = contract.start_recovery(None, 34, 1000);
    assert!(result.is_ok());

    assert!(contract.recovery.is_some());
    let recovery = contract.recovery.as_ref().unwrap();
    assert!(matches!(recovery.current_step, RecoveryStep::Halt));
}

#[test]
fn test_advance_recovery() {
    let mut contract = EmergencyContract::new();

    contract.start_recovery(None, 34, 1000).unwrap();

    // Advance through steps
    let step1 = contract.advance_recovery(1001).unwrap();
    assert!(matches!(step1, RecoveryStep::StateAudit));

    let step2 = contract.advance_recovery(1002).unwrap();
    assert!(matches!(step2, RecoveryStep::ValidatorReconfirmation));

    let step3 = contract.advance_recovery(1003).unwrap();
    assert!(matches!(step3, RecoveryStep::ForkDecision));

    let step4 = contract.advance_recovery(1004).unwrap();
    assert!(matches!(step4, RecoveryStep::GradualRestart { phase: 1, .. }));
}

#[test]
fn test_create_checkpoint() {
    let mut contract = EmergencyContract::new();

    // Create checkpoint at interval
    contract.create_checkpoint(
        1000, // Checkpoint interval
        kratos_core::types::Hash::hash(b"state"),
        kratos_core::types::Hash::hash(b"validators"),
        ChainId(0),
    );

    assert_eq!(contract.checkpoints.len(), 1);
    assert_eq!(contract.checkpoints[0].block_number, 1000);
}

#[test]
fn test_checkpoint_not_at_interval() {
    let mut contract = EmergencyContract::new();

    // Try to create checkpoint not at interval
    contract.create_checkpoint(
        999, // Not at checkpoint interval
        kratos_core::types::Hash::hash(b"state"),
        kratos_core::types::Hash::hash(b"validators"),
        ChainId(0),
    );

    // Should not be created
    assert!(contract.checkpoints.is_empty());
}

#[test]
fn test_get_checkpoint() {
    let mut contract = EmergencyContract::new();

    contract.create_checkpoint(1000, kratos_core::types::Hash::hash(b"s1"), kratos_core::types::Hash::hash(b"v1"), ChainId(0));
    contract.create_checkpoint(2000, kratos_core::types::Hash::hash(b"s2"), kratos_core::types::Hash::hash(b"v2"), ChainId(0));
    contract.create_checkpoint(3000, kratos_core::types::Hash::hash(b"s3"), kratos_core::types::Hash::hash(b"v3"), ChainId(0));

    let cp = contract.get_checkpoint(2500);
    assert!(cp.is_some());
    assert_eq!(cp.unwrap().block_number, 2000);
}

#[test]
fn test_is_action_active() {
    let mut contract = setup_contract_with_validators();

    // Declare emergency
    for i in 1..=8 {
        contract.vote_emergency(create_account(i), true, 1000).unwrap();
    }

    // Take pause action
    contract.take_action(
        EmergencyAction::PauseBlockProduction {
            started_at: 1000,
            max_duration: 10000,
        },
        1001,
    ).unwrap();

    assert!(contract.is_action_active("pause"));
    assert!(!contract.is_action_active("halt_slashing"));
}

#[test]
fn test_prune_signals() {
    let mut contract = EmergencyContract::new();

    // Add signals at different blocks
    for i in 0..20 {
        let signal = FailureSignal::ConsensusStall { epochs_stalled: 1 };
        contract.signals.push((i * 1000, signal));
    }

    assert_eq!(contract.signals.len(), 20);

    // Prune (keep signals within last 10000 blocks from block 25000)
    contract.prune_signals(25000);

    // Should keep signals from blocks 15000+ (15, 16, 17, 18, 19 = 5 signals)
    assert!(contract.signals.len() < 20);
}

#[test]
fn prune_signals_keeps_the_last_retention_window() {
    let mut contract = EmergencyContract::new();
    for i in 0..20u64 {
        contract.signals.push((i * 1000, FailureSignal::ConsensusStall { epochs_stalled: 1 }));
    }
    contract.prune_signals(25000);
    let blocks: Vec<u64> = contract.signals.iter().map(|e| e.0).collect();
    assert_eq!(blocks, vec![15000, 16000, 17000, 18000, 19000]);
}

#[test]
fn emergency_test_drain_events() {
    let mut contract = setup_contract_with_validators();

    // Generate some events
    contract.vote_emergency(create_account(1), true, 1000).unwrap();

    let events = contract.drain_events();
    assert!(!events.is_empty());

    // Events should be cleared
    let events2 = contract.drain_events();
    assert!(events2.is_empty());
}

#[test]
fn test_active_breakers() {
    let mut contract = EmergencyContract::new();

    assert!(contract.active_breakers().is_empty());

    contract.trigger_breaker("finality_delay", 1000).unwrap();
    contract.trigger_breaker("governance_deadlock", 1000).unwrap();

    let active = contract.active_breakers();
    assert_eq!(active.len(), 2);
}

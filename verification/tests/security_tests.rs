use kratos_core::security::{
    AuditType, Mitigation, ProtocolInvariant, SecurityContract, SecurityEvent, SlowCaptureCountermeasure,
    ThreatLevel, ThreatSeverity, ThreatType, UnacceptableFailure, REVIEW_PERIOD_BLOCKS,
};
use kratos_core::types::AccountId;

fn create_account(seed: u8) -> AccountId {
    AccountId::from_bytes([seed; 32])
}

#[test]
fn security_test_new_contract() {
    let contract = SecurityContract::with_defaults();
    assert!(contract.health_state.is_healthy());
    assert!(contract.active_threats.is_empty());
}

#[test]
fn test_health_check_pass() {
    let mut contract = SecurityContract::with_defaults();
    contract.set_block(1000);

    assert!(contract.run_health_check());

    let events = contract.drain_events();
    assert!(events.iter().any(|e| matches!(e, SecurityEvent::HealthCheckPassed { .. })));
}

#[test]
fn test_health_check_fail() {
    let mut contract = SecurityContract::with_defaults();
    contract.set_block(1000);

    contract.health_state.exit_always_possible = false;

    assert!(!contract.run_health_check());

    let events = contract.drain_events();
    assert!(events.iter().any(|e| matches!(e, SecurityEvent::HealthCheckFailed { .. })));
}

#[test]
fn test_invariant_verification() {
    let mut contract = SecurityContract::with_defaults();

    let results = contract.verify_invariants();
    assert!(results.iter().all(|r| r.holds));

    contract.health_state.fork_without_slashing = false;

    let results = contract.verify_invariants();
    let fork_result = results.iter().find(|r| r.invariant == ProtocolInvariant::ForkWithoutPunishment).unwrap();
    assert!(!fork_result.holds);
}

#[test]
fn test_unacceptable_failure_detection() {
    let mut contract = SecurityContract::with_defaults();

    let failures = contract.check_unacceptable_failures();
    assert!(failures.is_empty());

    contract.health_state.has_frozen_assets = true;

    let failures = contract.check_unacceptable_failures();
    assert!(failures.contains(&UnacceptableFailure::FrozenAssets));
}

#[test]
fn test_threat_reporting() {
    let mut contract = SecurityContract::with_defaults();
    contract.set_block(1000);

    contract.report_threat(
        ThreatType::ValidatorCartelization,
        ThreatSeverity::High,
        "50% of stake controlled by 3 entities".to_string(),
        vec![create_account(1), create_account(2), create_account(3)],
    );

    assert_eq!(contract.get_active_threats().len(), 1);

    let events = contract.drain_events();
    assert!(events.iter().any(|e| matches!(e, SecurityEvent::ThreatDetected { .. })));
}

#[test]
fn test_threat_resolution() {
    let mut contract = SecurityContract::with_defaults();

    contract.report_threat(ThreatType::ValidatorCartelization, ThreatSeverity::Medium, "Test".to_string(), vec![]);

    assert_eq!(contract.get_active_threats().len(), 1);

    let resolved = contract.resolve_threat(&ThreatType::ValidatorCartelization);
    assert!(resolved);
    assert!(contract.get_active_threats().is_empty());
}

#[test]
fn test_threat_level_calculation() {
    let mut contract = SecurityContract::with_defaults();

    assert_eq!(contract.calculate_threat_level(), ThreatLevel::Normal);

    contract.report_threat(ThreatType::ProposalSpam, ThreatSeverity::Low, "Minor spam".to_string(), vec![]);
    assert_eq!(contract.calculate_threat_level(), ThreatLevel::Normal);

    contract.report_threat(
        ThreatType::ValidatorCartelization,
        ThreatSeverity::Critical,
        "Major cartel".to_string(),
        vec![],
    );
    assert_eq!(contract.calculate_threat_level(), ThreatLevel::Critical);
}

#[test]
fn test_existential_threat_level() {
    let mut contract = SecurityContract::with_defaults();

    contract.health_state.has_frozen_assets = true;

    assert_eq!(contract.calculate_threat_level(), ThreatLevel::Existential);
}

#[test]
fn test_audit_recording() {
    let mut contract = SecurityContract::with_defaults();
    contract.set_block(1000);

    contract.record_audit(
        AuditType::Cryptography,
        "Security Firm A".to_string(),
        true,
        "All crypto primitives secure".to_string(),
        kratos_core::types::Hash::hash(b"report"),
    );

    let audits = contract.get_audits_by_type(AuditType::Cryptography);
    assert_eq!(audits.len(), 1);
    assert!(audits[0].passed);
}

#[test]
fn test_all_audits_complete() {
    let mut contract = SecurityContract::with_defaults();

    assert!(!contract.all_audits_complete());

    for audit_type in AuditType::all() {
        contract.record_audit(audit_type, "Auditor".to_string(), true, "Passed".to_string(), kratos_core::types::Hash::hash(b"report"));
    }

    assert!(contract.all_audits_complete());
}

#[test]
fn test_review_cycle() {
    let mut contract = SecurityContract::with_defaults();
    contract.set_block(1000);

    contract.start_review_cycle();
    assert!(contract.current_review_cycle.is_some());

    contract.complete_axiom_review();
    contract.complete_fork_consideration();
    contract.complete_ossification_review();

    assert!(contract.current_review_cycle.is_none());
    assert_eq!(contract.review_cycles.len(), 1);
}

#[test]
fn test_countermeasure_verification() {
    let mut contract = SecurityContract::with_defaults();

    let status = contract.verify_countermeasures();
    assert!(status.iter().all(|(_, v)| *v));

    contract.health_state.decay_active = false;

    let inactive = contract.get_inactive_countermeasures();
    assert!(inactive.contains(&SlowCaptureCountermeasure::VcDecay));
    assert!(inactive.contains(&SlowCaptureCountermeasure::ReputationDecay));
}

#[test]
fn test_non_assumption_verification() {
    let contract = SecurityContract::with_defaults();

    let verified = contract.verify_non_assumptions();

    assert!(verified.iter().all(|(_, v)| *v));
}

#[test]
fn test_threat_assessment_creation() {
    let mut contract = SecurityContract::with_defaults();
    contract.set_block(1000);

    contract.report_threat(ThreatType::VoterApathy, ThreatSeverity::Medium, "Low participation".to_string(), vec![]);

    let assessment = contract.create_threat_assessment();
    assert_eq!(assessment.active_threats.len(), 1);
    assert!(assessment.threat_level >= ThreatLevel::Normal);
}

#[test]
fn test_recommendations_generation() {
    let mut contract = SecurityContract::with_defaults();

    contract.health_state.exit_always_possible = false;

    let assessment = contract.create_threat_assessment();
    assert!(!assessment.recommendations.is_empty());
    assert!(assessment.recommendations.iter().any(|r| r.contains("Exit path blocked")));
}

#[test]
fn test_update_health_state() {
    let mut contract = SecurityContract::with_defaults();

    contract.update_health_state(true, true, true, true, false, true, false, false, false);

    assert!(contract.health_state.is_healthy());

    contract.update_health_state(false, true, true, true, false, true, false, false, false);

    assert!(!contract.health_state.is_healthy());
}

#[test]
fn test_review_due_check() {
    let mut contract = SecurityContract::with_defaults();

    contract.set_block(0);
    assert!(!contract.is_review_due());

    contract.set_block(REVIEW_PERIOD_BLOCKS + 1);
    assert!(contract.is_review_due());
}

#[test]
fn test_event_draining() {
    let mut contract = SecurityContract::with_defaults();
    contract.set_block(1000);

    contract.run_health_check();
    assert!(contract.event_count() > 0);

    let events = contract.drain_events();
    assert!(!events.is_empty());
    assert_eq!(contract.event_count(), 0);
}

#[test]
fn test_get_threat_mitigations() {
    let contract = SecurityContract::with_defaults();

    let mitigations = contract.get_threat_mitigations(&ThreatType::ValidatorCartelization);
    assert!(mitigations.contains(&Mitigation::VcDecay));
    assert!(mitigations.contains(&Mitigation::StakeCaps));
}

#[test]
fn failed_health_check_lists_every_violated_invariant() {
    let mut contract = SecurityContract::with_defaults();
    contract.set_block(7);
    contract.health_state.fork_without_slashing = false;
    contract.health_state.emergency_duration_exceeded = true;
    assert!(!contract.run_health_check());
    let events = contract.drain_events();
    assert_eq!(events.len(), 3);
    match &events[2] {
        SecurityEvent::HealthCheckFailed { block, failed_invariants } => {
            assert_eq!(*block, 7);
            assert_eq!(
                failed_invariants,
                &vec![ProtocolInvariant::ForkWithoutPunishment, ProtocolInvariant::BoundedEmergency]
            );
        },
        _ => panic!("expected a failed health check"),
    }
}

#[test]
fn threat_level_counts_threats() {
    let mut contract = SecurityContract::with_defaults();
    contract.report_threat(ThreatType::ProposalSpam, ThreatSeverity::Low, "a".to_string(), vec![]);
    contract.report_threat(ThreatType::ProposalSpam, ThreatSeverity::Low, "b".to_string(), vec![]);
    assert_eq!(contract.calculate_threat_level(), ThreatLevel::Elevated);
    contract.report_threat(ThreatType::ProposalSpam, ThreatSeverity::Low, "c".to_string(), vec![]);
    contract.report_threat(ThreatType::ProposalSpam, ThreatSeverity::Low, "d".to_string(), vec![]);
    assert_eq!(contract.calculate_threat_level(), ThreatLevel::High);
    assert!(contract.resolve_threat(&ThreatType::ProposalSpam));
    assert!(!contract.resolve_threat(&ThreatType::ProposalSpam));
    assert_eq!(contract.calculate_threat_level(), ThreatLevel::Normal);
}

#[test]
fn snapshots_keep_the_newest_entries() {
    let mut contract = SecurityContract::with_defaults();
    contract.config.max_stake_history = 2;
    let a = create_account(1);
    for b in 1..=3u64 {
        contract.set_block(b);
        contract.record_stake_snapshot(&a, (b as u128) * 10);
    }
    assert_eq!(contract.stake_history.get(&a).unwrap(), &vec![(2u64, 20u128), (3u64, 30u128)]);
}

use kratos_core::arbitration::{ArbitrationContract, ArbitrationError, ValidatorInfo};
use kratos_core::dispute::{
    DisputeStatus, DisputeType, Enforcement, Evidence, FraudSeverity, Jurisdiction, Verdict, ARBITRATION_VC_REWARD,
    MAX_DISPUTE_DURATION,
};
use kratos_core::types::{AccountId, ChainId};

fn setup_arbitration() -> ArbitrationContract {
    ArbitrationContract::new()
}

/// Stands in for the lot: picks among the given validators by the epoch.
fn draw(_round: u64, epoch: u64, available: &Vec<ValidatorInfo>) -> Result<AccountId, String> {
    Ok(available[(epoch as usize) % available.len()].account)
}

fn create_test_fraud_proof(validator: AccountId) -> Evidence {
    Evidence::FraudProof { validator, proof_hash: kratos_core::types::Hash::from_bytes([3; 32]) }
}

fn register_twenty(contract: &mut ArbitrationContract) {
    for i in 0..20u8 {
        contract.register_validator(AccountId::from_bytes([i; 32]), 1_000_000, 0);
    }
}

/// A dispute raised by [99], with evidence from validator [0] against [50].
fn dispute_with_evidence(contract: &mut ArbitrationContract, jurisdiction: Jurisdiction) -> u64 {
    let raiser = AccountId::from_bytes([99; 32]);
    let dispute_id = contract
        .raise_dispute(ChainId(1), DisputeType::ValidatorMisconduct, raiser, jurisdiction, None)
        .unwrap();
    let validator0 = AccountId::from_bytes([0; 32]);
    let fraud_proof = create_test_fraud_proof(AccountId::from_bytes([50; 32]));
    contract.submit_evidence(dispute_id, fraud_proof, validator0).unwrap();
    dispute_id
}

#[test]
fn test_raise_dispute() {
    let mut contract = setup_arbitration();
    contract.set_current_block(1000);

    let dispute_id = contract
        .raise_dispute(
            ChainId(1),
            DisputeType::ValidatorMisconduct,
            AccountId::from_bytes([1; 32]),
            Jurisdiction::Root,
            None,
        )
        .unwrap();

    assert_eq!(dispute_id, 1);

    let dispute = contract.get_dispute(dispute_id).unwrap();
    assert_eq!(dispute.chain_id, ChainId(1));
    assert_eq!(dispute.status, DisputeStatus::Open);
}

#[test]
fn test_submit_evidence() {
    let mut contract = setup_arbitration();
    contract.set_current_block(1000);

    let raiser = AccountId::from_bytes([1; 32]);
    let dispute_id = contract
        .raise_dispute(ChainId(1), DisputeType::FraudulentExit, raiser, Jurisdiction::Host(ChainId(0)), None)
        .unwrap();

    let fraud_proof = create_test_fraud_proof(AccountId::from_bytes([2; 32]));
    contract.submit_evidence(dispute_id, fraud_proof, raiser).unwrap();

    let dispute = contract.get_dispute(dispute_id).unwrap();
    assert_eq!(dispute.evidence.len(), 1);
}

#[test]
fn test_evidence_window_closed() {
    let mut contract = setup_arbitration();
    contract.set_current_block(1000);

    let raiser = AccountId::from_bytes([1; 32]);
    let dispute_id = contract
        .raise_dispute(ChainId(1), DisputeType::StateRootDispute, raiser, Jurisdiction::Root, None)
        .unwrap();

    contract.set_current_block(200_000);

    let fraud_proof = create_test_fraud_proof(AccountId::from_bytes([2; 32]));
    let result = contract.submit_evidence(dispute_id, fraud_proof, raiser);
    assert!(matches!(result, Err(ArbitrationError::EvidenceWindowClosed)));
}

#[test]
fn test_jury_selection_requires_evidence() {
    let mut contract = setup_arbitration();
    contract.set_current_block(1000);

    let dispute_id = contract
        .raise_dispute(
            ChainId(1),
            DisputeType::ValidatorMisconduct,
            AccountId::from_bytes([1; 32]),
            Jurisdiction::Root,
            None,
        )
        .unwrap();

    let result = contract.select_jury(dispute_id, None, draw);
    assert!(result.is_err());
}

#[test]
fn test_submit_jury_vote() {
    let mut contract = setup_arbitration();
    contract.set_current_block(1000);
    register_twenty(&mut contract);
    let dispute_id = dispute_with_evidence(&mut contract, Jurisdiction::Root);

    let jury = contract.select_jury(dispute_id, Some(13), draw).unwrap();
    assert!(jury.len() >= 7);

    contract
        .submit_jury_vote(dispute_id, jury[0], Verdict::Guilty, Some("Clear evidence".to_string()))
        .unwrap();

    let dispute = contract.get_dispute(dispute_id).unwrap();
    assert_eq!(dispute.jury_votes.len(), 1);
}

#[test]
fn test_not_jury_member() {
    let mut contract = setup_arbitration();
    contract.set_current_block(1000);
    register_twenty(&mut contract);
    let dispute_id = dispute_with_evidence(&mut contract, Jurisdiction::Root);

    contract.select_jury(dispute_id, Some(13), draw).unwrap();

    let non_juror = AccountId::from_bytes([88; 32]);
    let result = contract.submit_jury_vote(dispute_id, non_juror, Verdict::Guilty, None);
    assert!(matches!(result, Err(ArbitrationError::NotJuryMember)));
}

#[test]
fn test_tally_votes_and_reward() {
    let mut contract = setup_arbitration();
    contract.set_current_block(1000);
    register_twenty(&mut contract);
    let dispute_id = dispute_with_evidence(&mut contract, Jurisdiction::Root);

    let jury = contract.select_jury(dispute_id, Some(7), draw).unwrap();
    for juror in &jury {
        contract.submit_jury_vote(dispute_id, *juror, Verdict::Guilty, None).unwrap();
    }

    let decision = contract.tally_votes(dispute_id).unwrap();
    assert_eq!(decision.verdict, Verdict::Guilty);

    let rewards = contract.drain_juror_rewards();
    for juror in &jury {
        let vc: u64 = rewards.iter().filter(|r| r.juror == *juror).map(|r| r.credits).sum();
        assert!(vc >= ARBITRATION_VC_REWARD);
    }
}

#[test]
fn test_enforce_verdict() {
    let mut contract = setup_arbitration();
    contract.set_current_block(1000);
    register_twenty(&mut contract);
    let dispute_id = dispute_with_evidence(&mut contract, Jurisdiction::Root);

    let jury = contract.select_jury(dispute_id, Some(7), draw).unwrap();
    for juror in &jury {
        contract.submit_jury_vote(dispute_id, *juror, Verdict::Guilty, None).unwrap();
    }
    contract.tally_votes(dispute_id).unwrap();

    let validator0 = AccountId::from_bytes([0; 32]);
    let enforcement = Enforcement::SlashValidator {
        validator: AccountId::from_bytes([50; 32]),
        amount: 100_000,
        severity: FraudSeverity::Critical,
    };
    contract.enforce_verdict(dispute_id, enforcement, validator0).unwrap();

    let dispute = contract.get_dispute(dispute_id).unwrap();
    assert!(dispute.decision.as_ref().unwrap().enforcement.is_some());
}

#[test]
fn test_appeal_escalation() {
    let mut contract = setup_arbitration();
    contract.set_current_block(1000);
    register_twenty(&mut contract);
    let dispute_id = dispute_with_evidence(&mut contract, Jurisdiction::Local(ChainId(1)));

    let jury = contract.select_jury(dispute_id, Some(7), draw).unwrap();
    for juror in &jury {
        contract.submit_jury_vote(dispute_id, *juror, Verdict::NotGuilty, None).unwrap();
    }
    contract.tally_votes(dispute_id).unwrap();

    let appealed_id = contract
        .appeal_decision(dispute_id, AccountId::from_bytes([99; 32]), Jurisdiction::Host(ChainId(0)))
        .unwrap();

    let original = contract.get_dispute(dispute_id).unwrap();
    assert_eq!(original.status, DisputeStatus::Appealed);

    let appealed = contract.get_dispute(appealed_id).unwrap();
    assert_eq!(appealed.evidence.len(), original.evidence.len());
}

#[test]
fn test_persistence() {
    let stored = {
        let mut contract = setup_arbitration();
        contract.set_current_block(1000);
        contract
            .raise_dispute(
                ChainId(1),
                DisputeType::ValidatorMisconduct,
                AccountId::from_bytes([1; 32]),
                Jurisdiction::Root,
                None,
            )
            .unwrap();
        contract.get_dispute(1).unwrap().clone()
    };

    let mut contract = setup_arbitration();
    contract.restore_dispute(1, stored);
    let dispute = contract.get_dispute(1).unwrap();
    assert_eq!(dispute.chain_id, ChainId(1));
}

#[test]
fn test_expire_stale_disputes_no_evidence() {
    let mut contract = setup_arbitration();
    contract.set_current_block(1000);

    let dispute_id = contract
        .raise_dispute(
            ChainId(1),
            DisputeType::ValidatorMisconduct,
            AccountId::from_bytes([1; 32]),
            Jurisdiction::Root,
            None,
        )
        .unwrap();

    contract.set_current_block(200_000);

    let expired = contract.expire_stale_disputes();
    assert!(expired.contains(&dispute_id));

    let dispute = contract.get_dispute(dispute_id).unwrap();
    assert_eq!(dispute.status, DisputeStatus::Expired);
}

#[test]
fn test_expire_stale_disputes_max_duration() {
    let mut contract = setup_arbitration();
    contract.set_current_block(1000);

    let fraud_proof = create_test_fraud_proof(AccountId::from_bytes([50; 32]));
    let dispute_id = contract
        .raise_dispute(
            ChainId(1),
            DisputeType::ValidatorMisconduct,
            AccountId::from_bytes([1; 32]),
            Jurisdiction::Root,
            Some(fraud_proof),
        )
        .unwrap();

    contract.set_current_block(1000 + MAX_DISPUTE_DURATION + 1);

    let expired = contract.expire_stale_disputes();
    assert!(expired.contains(&dispute_id));

    let dispute = contract.get_dispute(dispute_id).unwrap();
    assert_eq!(dispute.status, DisputeStatus::Expired);
}

#[test]
fn test_has_blocking_disputes() {
    let mut contract = setup_arbitration();
    contract.set_current_block(1000);

    assert!(!contract.has_blocking_disputes(ChainId(1)));

    contract
        .raise_dispute(
            ChainId(1),
            DisputeType::FraudulentExit,
            AccountId::from_bytes([1; 32]),
            Jurisdiction::Root,
            None,
        )
        .unwrap();

    assert!(contract.has_blocking_disputes(ChainId(1)));
    assert!(!contract.has_blocking_disputes(ChainId(2)));
}

#[test]
fn test_time_until_expiry() {
    let mut contract = setup_arbitration();
    contract.set_current_block(1000);

    let dispute_id = contract
        .raise_dispute(
            ChainId(1),
            DisputeType::ValidatorMisconduct,
            AccountId::from_bytes([1; 32]),
            Jurisdiction::Root,
            None,
        )
        .unwrap();

    let time = contract.time_until_expiry(dispute_id).unwrap();
    assert_eq!(time, MAX_DISPUTE_DURATION);

    contract.set_current_block(1000 + 100_000);
    let time = contract.time_until_expiry(dispute_id).unwrap();
    assert_eq!(time, MAX_DISPUTE_DURATION - 100_000);
}

#[test]
fn test_dismiss_dispute() {
    let mut contract = setup_arbitration();
    contract.set_current_block(1000);

    let validator = AccountId::from_bytes([10; 32]);
    contract.register_validator(validator, 1_000_000, 0);

    let dispute_id = contract
        .raise_dispute(
            ChainId(1),
            DisputeType::ValidatorMisconduct,
            AccountId::from_bytes([1; 32]),
            Jurisdiction::Root,
            None,
        )
        .unwrap();

    contract.dismiss_dispute(dispute_id, "Frivolous claim", validator).unwrap();

    let dispute = contract.get_dispute(dispute_id).unwrap();
    assert_eq!(dispute.status, DisputeStatus::Dismissed);
}

#[test]
fn test_unauthorized_evidence_submission() {
    let mut contract = setup_arbitration();
    contract.set_current_block(1000);

    let raiser = AccountId::from_bytes([1; 32]);
    let dispute_id = contract
        .raise_dispute(ChainId(1), DisputeType::ValidatorMisconduct, raiser, Jurisdiction::Root, None)
        .unwrap();

    let unauthorized = AccountId::from_bytes([99; 32]);
    let fraud_proof = create_test_fraud_proof(AccountId::from_bytes([50; 32]));
    let result = contract.submit_evidence(dispute_id, fraud_proof, unauthorized);

    assert!(matches!(result, Err(ArbitrationError::Unauthorized { .. })));
}

#[test]
fn test_unauthorized_dismiss() {
    let mut contract = setup_arbitration();
    contract.set_current_block(1000);

    let dispute_id = contract
        .raise_dispute(
            ChainId(1),
            DisputeType::ValidatorMisconduct,
            AccountId::from_bytes([1; 32]),
            Jurisdiction::Root,
            None,
        )
        .unwrap();

    let non_validator = AccountId::from_bytes([99; 32]);
    let result = contract.dismiss_dispute(dispute_id, "Frivolous", non_validator);

    assert!(matches!(result, Err(ArbitrationError::Unauthorized { .. })));
}

#[test]
fn test_unauthorized_enforce_verdict() {
    let mut contract = setup_arbitration();
    contract.set_current_block(1000);
    register_twenty(&mut contract);
    let dispute_id = dispute_with_evidence(&mut contract, Jurisdiction::Root);

    let jury = contract.select_jury(dispute_id, Some(7), draw).unwrap();
    for juror in &jury {
        contract.submit_jury_vote(dispute_id, *juror, Verdict::Guilty, None).unwrap();
    }
    contract.tally_votes(dispute_id).unwrap();

    let non_validator = AccountId::from_bytes([88; 32]);
    let enforcement = Enforcement::SlashValidator {
        validator: AccountId::from_bytes([50; 32]),
        amount: 100_000,
        severity: FraudSeverity::Critical,
    };

    let result = contract.enforce_verdict(dispute_id, enforcement, non_validator);
    assert!(matches!(result, Err(ArbitrationError::Unauthorized { .. })));
}

// ---------------------------------------------------------------------------
// Further cases of the contracts.
// ---------------------------------------------------------------------------

#[test]
fn arbitration_jury_excludes_raiser_and_accused() {
    let mut contract = setup_arbitration();
    contract.set_current_block(1000);
    register_twenty(&mut contract);
    // The raiser and the accused are both registered validators here.
    let raiser = AccountId::from_bytes([3; 32]);
    let accused = AccountId::from_bytes([4; 32]);
    let dispute_id = contract
        .raise_dispute(ChainId(1), DisputeType::ValidatorMisconduct, raiser, Jurisdiction::Root, None)
        .unwrap();
    contract.submit_evidence(dispute_id, create_test_fraud_proof(accused), raiser).unwrap();

    let jury = contract.select_jury(dispute_id, None, draw).unwrap();
    assert_eq!(jury.len(), 13);
    assert!(!jury.contains(&raiser));
    assert!(!jury.contains(&accused));
    for (a, x) in jury.iter().enumerate() {
        for y in jury.iter().skip(a + 1) {
            assert_ne!(x, y);
        }
    }
    let dispute = contract.get_dispute(dispute_id).unwrap();
    assert_eq!(dispute.status, DisputeStatus::Deliberating);
    assert_eq!(dispute.deliberation_deadline, Some(1000 + kratos_core::dispute::DELIBERATION_PERIOD));
}

#[test]
fn arbitration_jury_too_small() {
    let mut contract = setup_arbitration();
    contract.set_current_block(1000);
    for i in 0..5u8 {
        contract.register_validator(AccountId::from_bytes([i; 32]), 1_000_000, 0);
    }
    let dispute_id = dispute_with_evidence(&mut contract, Jurisdiction::Root);
    let result = contract.select_jury(dispute_id, None, draw);
    assert!(matches!(result, Err(ArbitrationError::InsufficientJury(5))));
    assert_eq!(contract.get_dispute(dispute_id).unwrap().status, DisputeStatus::Open);
}

#[test]
fn arbitration_no_candidates() {
    let mut contract = setup_arbitration();
    contract.set_current_block(1000);
    let raiser = AccountId::from_bytes([99; 32]);
    let dispute_id = contract
        .raise_dispute(ChainId(1), DisputeType::ValidatorMisconduct, raiser, Jurisdiction::Root, None)
        .unwrap();
    contract
        .submit_evidence(dispute_id, create_test_fraud_proof(AccountId::from_bytes([50; 32])), raiser)
        .unwrap();
    let result = contract.select_jury(dispute_id, None, draw);
    assert!(matches!(result, Err(ArbitrationError::InsufficientJury(0))));
}

#[test]
fn arbitration_selector_failure_is_reported() {
    let mut contract = setup_arbitration();
    contract.set_current_block(1000);
    register_twenty(&mut contract);
    let dispute_id = dispute_with_evidence(&mut contract, Jurisdiction::Root);
    let refuse = |_r: u64, _e: u64, _a: &Vec<ValidatorInfo>| -> Result<AccountId, String> { Err("no seed".to_string()) };
    let result = contract.select_jury(dispute_id, None, refuse);
    match result {
        Err(ArbitrationError::VRFSelectionFailed(m)) => assert_eq!(m, "no seed"),
        other => panic!("unexpected {:?}", other),
    }
}

#[test]
fn arbitration_double_vote_and_tally_rules() {
    let mut contract = setup_arbitration();
    contract.set_current_block(1000);
    register_twenty(&mut contract);
    let dispute_id = dispute_with_evidence(&mut contract, Jurisdiction::Root);
    let jury = contract.select_jury(dispute_id, Some(7), draw).unwrap();

    // Not everyone has voted and the deadline is far.
    contract.submit_jury_vote(dispute_id, jury[0], Verdict::Guilty, None).unwrap();
    assert!(matches!(
        contract.submit_jury_vote(dispute_id, jury[0], Verdict::NotGuilty, None),
        Err(ArbitrationError::AlreadyVoted)
    ));
    assert!(matches!(contract.tally_votes(dispute_id), Err(ArbitrationError::DeliberationNotComplete)));

    // Three guilty of six votes cast is no majority.
    contract.submit_jury_vote(dispute_id, jury[1], Verdict::Guilty, None).unwrap();
    contract.submit_jury_vote(dispute_id, jury[2], Verdict::Guilty, None).unwrap();
    for juror in &jury[3..6] {
        contract.submit_jury_vote(dispute_id, *juror, Verdict::NotGuilty, None).unwrap();
    }
    contract.set_current_block(1000 + kratos_core::dispute::DELIBERATION_PERIOD);
    let decision = contract.tally_votes(dispute_id).unwrap();
    assert_eq!(decision.verdict, Verdict::NotGuilty);
    assert_eq!(decision.guilty_votes, 3);
    assert_eq!(decision.not_guilty_votes, 3);
    assert_eq!(contract.get_dispute(dispute_id).unwrap().status, DisputeStatus::Resolved);

    // A decided dispute takes no more votes, and an appeal must go up.
    assert!(matches!(
        contract.submit_jury_vote(dispute_id, jury[6], Verdict::Guilty, None),
        Err(ArbitrationError::DeliberationClosed)
    ));
    assert!(matches!(
        contract.appeal_decision(dispute_id, AccountId::from_bytes([99; 32]), Jurisdiction::Local(ChainId(1))),
        Err(ArbitrationError::InvalidJurisdiction)
    ));
}

#[test]
fn arbitration_local_jurisdiction_must_match() {
    let mut contract = setup_arbitration();
    let result = contract.raise_dispute(
        ChainId(1),
        DisputeType::StateRootDispute,
        AccountId::from_bytes([1; 32]),
        Jurisdiction::Local(ChainId(2)),
        None,
    );
    assert!(matches!(result, Err(ArbitrationError::InvalidJurisdiction)));
    assert!(matches!(contract.get_dispute(1), Err(ArbitrationError::DisputeNotFound(1))));
}

#[test]
fn arbitration_enforce_once_and_lists() {
    let mut contract = setup_arbitration();
    contract.set_current_block(1000);
    register_twenty(&mut contract);
    let dispute_id = dispute_with_evidence(&mut contract, Jurisdiction::Root);
    let other = contract
        .raise_dispute(
            ChainId(2),
            DisputeType::FraudulentExit,
            AccountId::from_bytes([7; 32]),
            Jurisdiction::Root,
            None,
        )
        .unwrap();
    assert_eq!(contract.get_disputes_for_chain(ChainId(1)).len(), 1);
    assert_eq!(contract.get_active_disputes().len(), 2);

    let jury = contract.select_jury(dispute_id, Some(7), draw).unwrap();
    assert!(contract.is_jury_member(&jury[0]));
    for juror in &jury {
        contract.submit_jury_vote(dispute_id, *juror, Verdict::Guilty, None).unwrap();
    }
    contract.tally_votes(dispute_id).unwrap();
    assert!(!contract.is_jury_member(&jury[0]));

    let validator0 = AccountId::from_bytes([0; 32]);
    let enforcement = Enforcement::PurgeChain { chain_id: ChainId(1) };
    contract.enforce_verdict(dispute_id, enforcement, validator0).unwrap();
    assert!(matches!(
        contract.enforce_verdict(dispute_id, enforcement, validator0),
        Err(ArbitrationError::AlreadyResolved)
    ));
    let active = contract.get_active_disputes();
    assert_eq!(active.len(), 1);
    assert_eq!(active[0].id, other);
    assert!(!contract.has_blocking_disputes(ChainId(1)));
}

#[test]
fn jury_of_size_zero_is_insufficient() {
    let mut contract = setup_arbitration();
    contract.set_current_block(1000);
    register_twenty(&mut contract);
    let dispute_id = dispute_with_evidence(&mut contract, Jurisdiction::Root);
    assert_eq!(contract.select_jury(dispute_id, Some(0), draw), Err(ArbitrationError::InsufficientJury(0)));
    assert_eq!(contract.get_dispute(dispute_id).unwrap().status, DisputeStatus::Open);
}

#[test]
fn short_draw_reports_its_size() {
    let mut contract = setup_arbitration();
    contract.set_current_block(1000);
    for i in 0..3u8 {
        contract.register_validator(AccountId::from_bytes([i; 32]), 1_000_000, 0);
    }
    let dispute_id = dispute_with_evidence(&mut contract, Jurisdiction::Root);
    assert_eq!(contract.select_jury(dispute_id, Some(7), draw), Err(ArbitrationError::InsufficientJury(3)));
}

use kratos_core::identity::{IdentityId, IdentityRegistry};
use kratos_core::reputation::{
    ReputationDomain, ReputationError, ReputationRegistry, MIN_REPUTATION_STAKE, REPUTATION_STAKE_LOCK,
};
use kratos_core::types::{AccountId, ChainId};
use std::collections::HashMap;

fn create_account(seed: u8) -> AccountId {
    AccountId::from_bytes([seed; 32])
}

fn create_hash(seed: u8) -> kratos_core::types::Hash {
    kratos_core::types::Hash::hash(&[seed; 32])
}

fn setup_with_identity() -> (ReputationRegistry, IdentityRegistry, IdentityId, AccountId) {
    let mut identity_registry = IdentityRegistry::new(ChainId(1));
    let owner = create_account(1);

    let id = identity_registry.declare_identity(owner, b"data", None, 1000).unwrap();
    identity_registry.force_activate(&id);

    let mut reputation_registry = ReputationRegistry::new(ChainId(1));
    reputation_registry.initialize(id, 1000);

    (reputation_registry, identity_registry, id, owner)
}

#[test]
fn test_initialize_reputation() {
    let mut registry = ReputationRegistry::new(ChainId(1));
    let id = create_hash(1);

    registry.initialize(id, 1000);

    let rep = registry.get_reputation(&id);
    assert!(rep.is_some());
    assert_eq!(rep.unwrap().overall_score, 0);
}

#[test]
fn test_add_domain_reputation() {
    let (mut registry, _, id, _) = setup_with_identity();

    registry.add_reputation(
        id,
        ReputationDomain::Governance,
        100,
        "voted".to_string(),
        2000,
    ).unwrap();

    let score = registry.get_domain_score(&id, ReputationDomain::Governance);
    assert_eq!(score, 100);
}

#[test]
fn reputation_test_slash_reputation() {
    let (mut registry, _, id, _) = setup_with_identity();

    // Add some reputation first
    registry.add_reputation(id, ReputationDomain::Technical, 1000, "code".to_string(), 2000).unwrap();

    // Slash 50%
    registry.slash_reputation(id, ReputationDomain::Technical, 50, "bug".to_string()).unwrap();

    let score = registry.get_domain_score(&id, ReputationDomain::Technical);
    assert_eq!(score, 500);
}

#[test]
fn test_create_stake() {
    let (mut registry, _, id, owner) = setup_with_identity();

    let stake_id = registry.create_stake(
        owner,
        id,
        MIN_REPUTATION_STAKE,
        None,
        2000,
    ).unwrap();

    assert!(registry.stakes.contains_key(&stake_id));
    assert_eq!(registry.total_staked(), MIN_REPUTATION_STAKE);
}

#[test]
fn test_stake_too_small() {
    let (mut registry, _, id, owner) = setup_with_identity();

    let result = registry.create_stake(
        owner,
        id,
        MIN_REPUTATION_STAKE - 1,
        None,
        2000,
    );

    assert!(matches!(result, Err(ReputationError::StakeTooSmall)));
}

#[test]
fn test_stake_multiplier() {
    let (mut registry, _, id, owner) = setup_with_identity();

    // No stake = 100 (1x)
    assert_eq!(registry.get_stake_multiplier(&id), 100);

    // Add stake
    registry.create_stake(owner, id, MIN_REPUTATION_STAKE * 4, None, 2000).unwrap();

    // Should be > 100
    let multiplier = registry.get_stake_multiplier(&id);
    assert!(multiplier > 100);
}

#[test]
fn test_withdraw_stake() {
    let (mut registry, _, id, owner) = setup_with_identity();

    let stake_id = registry.create_stake(owner, id, MIN_REPUTATION_STAKE, None, 2000).unwrap();

    // Cannot withdraw while locked
    let result = registry.withdraw_stake(stake_id, owner, 2000);
    assert!(matches!(result, Err(ReputationError::StakeLocked)));

    // Can withdraw after lock period
    let amount = registry.withdraw_stake(stake_id, owner, 2000 + REPUTATION_STAKE_LOCK).unwrap();
    assert_eq!(amount, MIN_REPUTATION_STAKE);
    assert_eq!(registry.total_staked(), 0);
}

#[test]
fn test_slash_stake() {
    let (mut registry, _, id, owner) = setup_with_identity();

    let stake_id = registry.create_stake(owner, id, 1000, None, 2000).unwrap();

    let penalty = registry.slash_stake(stake_id, 30).unwrap();

    assert_eq!(penalty, 300);
    assert_eq!(registry.total_staked(), 700);
}

#[test]
fn test_import_cross_chain() {
    let (mut registry, _, target_id, _) = setup_with_identity();

    registry.import_reputation(
        ChainId(2), // Source chain
        create_hash(99), // Source identity
        target_id,
        1000, // Original score
        HashMap::new(),
        create_hash(100), // Proof hash
        3000,
    ).unwrap();

    let imports = registry.get_imports(&target_id);
    assert_eq!(imports.len(), 1);
    assert_eq!(imports[0].imported_score, 500); // 50% discount
}

#[test]
fn test_import_duplicate() {
    let (mut registry, _, target_id, _) = setup_with_identity();

    registry.import_reputation(
        ChainId(2),
        create_hash(99),
        target_id,
        1000,
        HashMap::new(),
        create_hash(100),
        3000,
    ).unwrap();

    // Second import from same chain should fail
    let result = registry.import_reputation(
        ChainId(2),
        create_hash(99),
        target_id,
        2000,
        HashMap::new(),
        create_hash(101),
        3001,
    );

    assert!(matches!(result, Err(ReputationError::ImportAlreadyExists)));
}

#[test]
fn test_verify_import() {
    let (mut registry, _, target_id, _) = setup_with_identity();

    registry.import_reputation(
        ChainId(2),
        create_hash(99),
        target_id,
        1000,
        HashMap::new(),
        create_hash(100),
        3000,
    ).unwrap();

    // Not verified initially
    let imports = registry.get_imports(&target_id);
    assert!(!imports[0].verified);

    // Verify
    registry.verify_import(target_id, ChainId(2)).unwrap();

    let imports = registry.get_imports(&target_id);
    assert!(imports[0].verified);
}

#[test]
fn test_give_endorsement() {
    let (mut registry, mut identity_registry, target_id, _) = setup_with_identity();

    // Create endorser
    let endorser_account = create_account(2);
    let endorser_id = identity_registry.declare_identity(endorser_account, b"endorser", None, 1000).unwrap();
    identity_registry.force_activate(&endorser_id);

    // Give endorser some reputation
    registry.initialize(endorser_id, 1000);
    registry.add_reputation(endorser_id, ReputationDomain::Community, 500, "init".to_string(), 2000).unwrap();

    // Give endorsement
    let endorsement_id = registry.give_endorsement(
        endorser_account,
        endorser_id,
        target_id,
        ReputationDomain::Technical,
        Some("Great coder".to_string()),
        3000,
        &identity_registry,
    ).unwrap();

    assert!(registry.endorsements.contains_key(&endorsement_id));
    assert_eq!(registry.count_endorsements(&target_id), 1);
}

#[test]
fn test_cannot_self_endorse() {
    let (mut registry, identity_registry, id, owner) = setup_with_identity();

    // Give some reputation
    registry.add_reputation(id, ReputationDomain::Community, 500, "init".to_string(), 2000).unwrap();

    let result = registry.give_endorsement(
        owner,
        id,
        id, // Same identity
        ReputationDomain::Technical,
        None,
        3000,
        &identity_registry,
    );

    assert!(matches!(result, Err(ReputationError::CannotSelfEndorse)));
}

#[test]
fn test_revoke_endorsement() {
    let (mut registry, mut identity_registry, target_id, _) = setup_with_identity();

    // Create endorser
    let endorser_account = create_account(2);
    let endorser_id = identity_registry.declare_identity(endorser_account, b"endorser", None, 1000).unwrap();
    identity_registry.force_activate(&endorser_id);
    registry.initialize(endorser_id, 1000);
    registry.add_reputation(endorser_id, ReputationDomain::Community, 500, "init".to_string(), 2000).unwrap();

    let endorsement_id = registry.give_endorsement(
        endorser_account,
        endorser_id,
        target_id,
        ReputationDomain::Technical,
        None,
        3000,
        &identity_registry,
    ).unwrap();

    // Revoke
    registry.revoke_endorsement(endorsement_id, endorser_account).unwrap();

    let endorsement = registry.endorsements.get(&endorsement_id).unwrap();
    assert!(!endorsement.active);
}

#[test]
fn test_effective_score_with_stake() {
    let (mut registry, _, id, owner) = setup_with_identity();

    // Add base reputation
    registry.add_reputation(id, ReputationDomain::Governance, 1000, "vote".to_string(), 2000).unwrap();

    let score_without_stake = registry.get_effective_score(&id);

    // Add stake
    registry.create_stake(owner, id, MIN_REPUTATION_STAKE * 9, None, 3000).unwrap();

    let score_with_stake = registry.get_effective_score(&id);

    assert!(score_with_stake > score_without_stake);
}

#[test]
fn test_effective_score_with_cross_chain() {
    let (mut registry, _, id, _) = setup_with_identity();

    // Add base reputation
    registry.add_reputation(id, ReputationDomain::Governance, 1000, "vote".to_string(), 2000).unwrap();

    let score_without_import = registry.get_effective_score(&id);

    // Import cross-chain reputation
    registry.import_reputation(
        ChainId(2),
        create_hash(99),
        id,
        2000,
        HashMap::new(),
        create_hash(100),
        3000,
    ).unwrap();
    registry.verify_import(id, ChainId(2)).unwrap();

    let score_with_import = registry.get_effective_score(&id);

    assert!(score_with_import > score_without_import);
}

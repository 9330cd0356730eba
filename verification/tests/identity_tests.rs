use kratos_core::identity::{
    IdentityError, IdentityEvent, IdentityId, IdentityRegistry, IdentityStatus, RevocationReason, IDENTITY_DEPOSIT,
    REPUTATION_POINTS_ARBITRATION, REPUTATION_POINTS_GOVERNANCE,
};
use kratos_core::types::{AccountId, ChainId};

fn create_account(seed: u8) -> AccountId {
    AccountId::from_bytes([seed; 32])
}

fn setup_registry() -> IdentityRegistry {
    IdentityRegistry::new(ChainId(1))
}

fn setup_with_active_identity(registry: &mut IdentityRegistry, owner: AccountId) -> IdentityId {
    let id = registry.declare_identity(owner, b"data", None, 1000).unwrap();
    // Force activate for testing
    if let Some(identity) = registry.identities.get_mut(&id) {
        identity.status = IdentityStatus::Active;
    }
    registry.active_count += 1;
    id
}

#[test]
fn test_declare_identity() {
    let mut registry = setup_registry();
    let owner = create_account(1);

    let id = registry.declare_identity(owner, b"commitment", Some("Alice".to_string()), 1000);
    assert!(id.is_ok());

    let identity = registry.get_identity_by_owner(&owner).unwrap();
    assert_eq!(identity.owner, owner);
    assert_eq!(identity.status, IdentityStatus::Declared);
    assert_eq!(identity.display_name, Some("Alice".to_string()));
}

#[test]
fn test_cannot_declare_twice() {
    let mut registry = setup_registry();
    let owner = create_account(1);

    registry.declare_identity(owner, b"data1", None, 1000).unwrap();
    let result = registry.declare_identity(owner, b"data2", None, 1001);

    assert!(matches!(result, Err(IdentityError::IdentityAlreadyExists)));
}

#[test]
fn test_submit_attestation() {
    let mut registry = setup_registry();
    let attester = create_account(1);
    let target = create_account(2);

    // Setup attester with active identity
    setup_with_active_identity(&mut registry, attester);

    // Declare target identity
    let target_id = registry.declare_identity(target, b"target", None, 1000).unwrap();

    // Submit attestation
    let result = registry.submit_attestation(attester, target_id, b"claim", 1001);
    assert!(result.is_ok());

    // Check attestation was recorded
    let count = registry.count_valid_attestations(target_id, 1001);
    assert_eq!(count, 1);
}

#[test]
fn test_cannot_self_attest() {
    let mut registry = setup_registry();
    let owner = create_account(1);

    let id = setup_with_active_identity(&mut registry, owner);

    let result = registry.submit_attestation(owner, id, b"claim", 1001);
    assert!(matches!(result, Err(IdentityError::CannotSelfAttest)));
}

#[test]
fn test_cannot_attest_without_identity() {
    let mut registry = setup_registry();
    let attester = create_account(1);
    let target = create_account(2);

    let target_id = registry.declare_identity(target, b"target", None, 1000).unwrap();

    let result = registry.submit_attestation(attester, target_id, b"claim", 1001);
    assert!(matches!(result, Err(IdentityError::AttesterHasNoIdentity)));
}

#[test]
fn test_cannot_attest_twice() {
    let mut registry = setup_registry();
    let attester = create_account(1);
    let target = create_account(2);

    setup_with_active_identity(&mut registry, attester);
    let target_id = registry.declare_identity(target, b"target", None, 1000).unwrap();

    registry.submit_attestation(attester, target_id, b"claim1", 1001).unwrap();
    let result = registry.submit_attestation(attester, target_id, b"claim2", 1002);

    assert!(matches!(result, Err(IdentityError::AlreadyAttested)));
}

#[test]
fn test_identity_activation() {
    let mut registry = setup_registry();

    // Create attesters with active identities
    let attester1 = create_account(1);
    let attester2 = create_account(2);
    let attester3 = create_account(3);
    let target = create_account(10);

    setup_with_active_identity(&mut registry, attester1);
    setup_with_active_identity(&mut registry, attester2);
    setup_with_active_identity(&mut registry, attester3);

    let target_id = registry.declare_identity(target, b"target", None, 1000).unwrap();

    // After 1 attestation: Attested
    registry.submit_attestation(attester1, target_id, b"c1", 1001).unwrap();
    assert_eq!(registry.get_identity(&target_id).unwrap().status, IdentityStatus::Attested);

    // After 2 attestations: still Attested
    registry.submit_attestation(attester2, target_id, b"c2", 1002).unwrap();
    assert_eq!(registry.get_identity(&target_id).unwrap().status, IdentityStatus::Attested);

    // After 3 attestations: Active!
    registry.submit_attestation(attester3, target_id, b"c3", 1003).unwrap();
    assert_eq!(registry.get_identity(&target_id).unwrap().status, IdentityStatus::Active);
}

#[test]
fn test_renew_identity() {
    let mut registry = setup_registry();
    let owner = create_account(1);

    setup_with_active_identity(&mut registry, owner);

    let old_expiry = registry.get_identity_by_owner(&owner).unwrap().expires_at;
    let new_expiry = registry.renew_identity(owner, 2000).unwrap();

    assert!(new_expiry > old_expiry);
}

#[test]
fn test_revoke_own_identity() {
    let mut registry = setup_registry();
    let owner = create_account(1);

    setup_with_active_identity(&mut registry, owner);

    let deposit = registry.revoke_own_identity(owner).unwrap();
    assert_eq!(deposit, IDENTITY_DEPOSIT);

    let identity = registry.get_identity_by_owner(&owner).unwrap();
    assert_eq!(identity.status, IdentityStatus::Revoked);
}

#[test]
fn test_force_revoke() {
    let mut registry = setup_registry();
    let owner = create_account(1);

    let id = setup_with_active_identity(&mut registry, owner);

    registry.force_revoke_identity(id, RevocationReason::Misconduct).unwrap();

    let identity = registry.get_identity(&id).unwrap();
    assert_eq!(identity.status, IdentityStatus::Revoked);
}

#[test]
fn test_process_expirations() {
    let mut registry = setup_registry();
    let owner = create_account(1);

    let id = setup_with_active_identity(&mut registry, owner);

    // Set expiry to past
    if let Some(identity) = registry.identities.get_mut(&id) {
        identity.expires_at = 1000;
    }

    let expired = registry.process_expirations(1001);
    assert_eq!(expired.len(), 1);
    assert_eq!(expired[0], id);

    let identity = registry.get_identity(&id).unwrap();
    assert_eq!(identity.status, IdentityStatus::Expired);
}

#[test]
fn test_reputation_governance() {
    let mut registry = setup_registry();
    let owner = create_account(1);

    setup_with_active_identity(&mut registry, owner);

    registry.record_governance_participation(&owner, 1000).unwrap();

    let identity = registry.get_identity_by_owner(&owner).unwrap();
    assert_eq!(identity.reputation.score, REPUTATION_POINTS_GOVERNANCE);
    assert_eq!(identity.reputation.governance_actions, 1);
}

#[test]
fn test_reputation_arbitration() {
    let mut registry = setup_registry();
    let owner = create_account(1);

    setup_with_active_identity(&mut registry, owner);

    registry.record_arbitration_participation(&owner, 1000).unwrap();

    let identity = registry.get_identity_by_owner(&owner).unwrap();
    assert_eq!(identity.reputation.score, REPUTATION_POINTS_ARBITRATION);
    assert_eq!(identity.reputation.arbitration_count, 1);
}

#[test]
fn identity_test_slash_reputation() {
    let mut registry = setup_registry();
    let owner = create_account(1);

    let id = setup_with_active_identity(&mut registry, owner);

    // Give some reputation first
    if let Some(identity) = registry.identities.get_mut(&id) {
        identity.reputation.score = 1000;
    }

    registry.slash_reputation(&owner, 50).unwrap(); // 50% slash

    let identity = registry.get_identity(&id).unwrap();
    assert_eq!(identity.reputation.score, 500);
    assert_eq!(identity.reputation.slash_count, 1);
}

#[test]
fn test_vote_weight() {
    let mut registry = setup_registry();
    let owner = create_account(1);

    let id = setup_with_active_identity(&mut registry, owner);

    // Set high reputation
    if let Some(identity) = registry.identities.get_mut(&id) {
        identity.reputation.score = 5000;
    }

    // Base weight 100, with 5000 rep should get 1.5x
    let weight = registry.get_vote_weight(&owner, 100);
    assert_eq!(weight, 150);
}

#[test]
fn test_vc_boost() {
    let mut registry = setup_registry();
    let owner = create_account(1);
    let no_identity = create_account(2);

    let id = setup_with_active_identity(&mut registry, owner);

    if let Some(identity) = registry.identities.get_mut(&id) {
        identity.reputation.score = 5000;
    }

    // With reputation
    assert_eq!(registry.get_vc_boost(&owner), 125); // 1.25x

    // Without identity
    assert_eq!(registry.get_vc_boost(&no_identity), 100); // 1.0x
}

#[test]
fn test_can_vote_constitutional() {
    let mut registry = setup_registry();
    let active_owner = create_account(1);
    let no_identity = create_account(2);

    setup_with_active_identity(&mut registry, active_owner);

    // CONSTITUTIONAL (Article VI): Identity is NEVER required for voting
    // Both accounts with and without identity can always vote
    assert!(registry.can_vote(&active_owner, 1000));
    assert!(registry.can_vote(&no_identity, 1000));

    // The config method always returns false per constitutional mandate
    assert!(!registry.config.require_identity_for_voting());
    assert!(!registry.config.require_identity_for_proposals());

    // Users without identity can still vote
    assert!(registry.can_vote(&no_identity, 1000));
    assert!(registry.can_create_proposal(&no_identity, 1000));
}

#[test]
fn test_active_count_tracking() {
    let mut registry = setup_registry();

    assert_eq!(registry.active_count(), 0);

    let owner1 = create_account(1);
    setup_with_active_identity(&mut registry, owner1);
    assert_eq!(registry.active_count(), 1);

    let owner2 = create_account(2);
    setup_with_active_identity(&mut registry, owner2);
    assert_eq!(registry.active_count(), 2);

    registry.revoke_own_identity(owner1).unwrap();
    assert_eq!(registry.active_count(), 1);
}

#[test]
fn test_attestation_weight_affects_total() {
    let mut registry = setup_registry();

    // Create attester with high reputation
    let high_rep_attester = create_account(1);
    let id1 = setup_with_active_identity(&mut registry, high_rep_attester);
    if let Some(identity) = registry.identities.get_mut(&id1) {
        identity.reputation.score = 9000; // High rep = weight 10
    }

    // Create attester with low reputation
    let low_rep_attester = create_account(2);
    setup_with_active_identity(&mut registry, low_rep_attester);
    // Default 0 rep = weight 1

    let target = create_account(10);
    let target_id = registry.declare_identity(target, b"t", None, 1000).unwrap();

    registry.submit_attestation(high_rep_attester, target_id, b"c1", 1001).unwrap();
    registry.submit_attestation(low_rep_attester, target_id, b"c2", 1002).unwrap();

    let total_weight = registry.total_attestation_weight(target_id, 1003);
    assert_eq!(total_weight, 10 + 1); // 10 from high rep, 1 from low rep
}

#[test]
fn test_events_emitted() {
    let mut registry = setup_registry();
    let owner = create_account(1);

    registry.declare_identity(owner, b"data", None, 1000).unwrap();

    assert_eq!(registry.events().len(), 1);
    assert!(matches!(
        registry.events()[0],
        IdentityEvent::IdentityDeclared { .. }
    ));

    registry.clear_events();
    assert!(registry.events().is_empty());
}

#[test]
fn identities_mut_reaches_the_identity_table() {
    let mut registry = setup_registry();
    let id = registry.declare_identity(create_account(1), b"data", None, 1000).unwrap();
    if let Some(identity) = registry.identities_mut().get_mut(&id) {
        identity.status = IdentityStatus::Active;
    }
    assert_eq!(registry.identities.get(&id).unwrap().status, IdentityStatus::Active);
}

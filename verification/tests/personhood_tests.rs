use kratos_core::identity::{IdentityId, IdentityRegistry};
use kratos_core::personhood::{
    ChallengeResponseData, ChallengeStatus, ChallengeType, PersonhoodError, PersonhoodRegistry, CHALLENGE_DEPOSIT,
};
use kratos_core::types::{AccountId, ChainId};

fn create_account(seed: u8) -> AccountId {
    AccountId::from_bytes([seed; 32])
}

fn create_hash(seed: u8) -> kratos_core::types::Hash {
    kratos_core::types::Hash::hash(&[seed; 32])
}

fn setup_registry_with_identity() -> (PersonhoodRegistry, IdentityRegistry, IdentityId, AccountId) {
    let mut identity_registry = IdentityRegistry::new(ChainId(1));
    let owner = create_account(1);

    // Create and activate identity
    let id = identity_registry.declare_identity(owner, b"data", None, 1000).unwrap();
    // Force activate for testing
    identity_registry.force_activate(&id);

    let personhood_registry = PersonhoodRegistry::new(ChainId(1));

    (personhood_registry, identity_registry, id, owner)
}

#[test]
fn test_issue_challenge() {
    let (mut personhood, identity_registry, target_id, _) = setup_registry_with_identity();
    let challenger = create_account(2);

    let result = personhood.issue_challenge(
        challenger,
        target_id,
        ChallengeType::Liveness { nonce: create_hash(99) },
        CHALLENGE_DEPOSIT,
        2000,
        &identity_registry,
    );

    assert!(result.is_ok());
    assert_eq!(personhood.challenges.len(), 1);
}

#[test]
fn test_challenge_cooldown() {
    let (mut personhood, identity_registry, target_id, _) = setup_registry_with_identity();
    let challenger = create_account(2);

    // First challenge
    personhood.issue_challenge(
        challenger,
        target_id,
        ChallengeType::Liveness { nonce: create_hash(99) },
        CHALLENGE_DEPOSIT,
        2000,
        &identity_registry,
    ).unwrap();

    // Second challenge too soon
    let result = personhood.issue_challenge(
        challenger,
        target_id,
        ChallengeType::Liveness { nonce: create_hash(100) },
        CHALLENGE_DEPOSIT,
        2001,
        &identity_registry,
    );

    assert!(matches!(result, Err(PersonhoodError::ChallengeCooldown)));
}

#[test]
fn test_respond_to_challenge() {
    let (mut personhood, identity_registry, target_id, owner) = setup_registry_with_identity();
    let challenger = create_account(2);

    let challenge_id = personhood.issue_challenge(
        challenger,
        target_id,
        ChallengeType::Liveness { nonce: create_hash(99) },
        CHALLENGE_DEPOSIT,
        2000,
        &identity_registry,
    ).unwrap();

    let result = personhood.respond_to_challenge(
        challenge_id,
        owner,
        ChallengeResponseData::LivenessProof { signature: create_hash(50) },
        2100,
        &identity_registry,
    );

    assert!(result.is_ok());

    let challenge = personhood.challenges.get(&challenge_id).unwrap();
    assert_eq!(challenge.status, ChallengeStatus::ResponseSubmitted);
}

#[test]
fn test_invalid_response_type() {
    let (mut personhood, identity_registry, target_id, owner) = setup_registry_with_identity();
    let challenger = create_account(2);

    let challenge_id = personhood.issue_challenge(
        challenger,
        target_id,
        ChallengeType::Liveness { nonce: create_hash(99) },
        CHALLENGE_DEPOSIT,
        2000,
        &identity_registry,
    ).unwrap();

    // Wrong response type
    let result = personhood.respond_to_challenge(
        challenge_id,
        owner,
        ChallengeResponseData::StakeProof { stake_amount: 100, lock_until: 10000 },
        2100,
        &identity_registry,
    );

    assert!(matches!(result, Err(PersonhoodError::InvalidResponseType)));
}

#[test]
fn test_resolve_challenge_passed() {
    let (mut personhood, identity_registry, target_id, owner) = setup_registry_with_identity();
    personhood.initialize_score(target_id);

    let challenger = create_account(2);

    let challenge_id = personhood.issue_challenge(
        challenger,
        target_id,
        ChallengeType::Liveness { nonce: create_hash(99) },
        CHALLENGE_DEPOSIT,
        2000,
        &identity_registry,
    ).unwrap();

    personhood.respond_to_challenge(
        challenge_id,
        owner,
        ChallengeResponseData::LivenessProof { signature: create_hash(50) },
        2100,
        &identity_registry,
    ).unwrap();

    let (passed, payout) = personhood.resolve_challenge(challenge_id, 2200).unwrap();

    assert!(passed);
    assert_eq!(payout, CHALLENGE_DEPOSIT);

    let score = personhood.get_score(&target_id).unwrap();
    assert_eq!(score.challenges_passed, 1);
}

#[test]
fn test_cancel_challenge() {
    let (mut personhood, identity_registry, target_id, _) = setup_registry_with_identity();
    let challenger = create_account(2);

    let challenge_id = personhood.issue_challenge(
        challenger,
        target_id,
        ChallengeType::Liveness { nonce: create_hash(99) },
        CHALLENGE_DEPOSIT,
        2000,
        &identity_registry,
    ).unwrap();

    let deposit = personhood.cancel_challenge(challenge_id, challenger).unwrap();

    assert_eq!(deposit, CHALLENGE_DEPOSIT);

    let challenge = personhood.challenges.get(&challenge_id).unwrap();
    assert_eq!(challenge.status, ChallengeStatus::Cancelled);
}

#[test]
fn test_social_graph_recording() {
    let mut personhood = PersonhoodRegistry::new(ChainId(1));

    let id1 = create_hash(1);
    let id2 = create_hash(2);
    let id3 = create_hash(3);

    // Record attestations
    personhood.record_attestation(id1, id2);
    personhood.record_attestation(id1, id3);
    personhood.record_attestation(id2, id3);

    assert_eq!(personhood.social_graph.len(), 3);

    let node1 = personhood.social_graph.get(&id1).unwrap();
    assert_eq!(node1.outgoing.len(), 2);
    assert_eq!(node1.incoming.len(), 0);

    let node3 = personhood.social_graph.get(&id3).unwrap();
    assert_eq!(node3.incoming.len(), 2);
}

#[test]
fn test_uniqueness_commitment() {
    let (mut personhood, identity_registry, target_id, _) = setup_registry_with_identity();

    personhood.submit_uniqueness_commitment(
        target_id,
        b"unique_data_123",
        1000,
        &identity_registry,
    ).unwrap();

    assert!(personhood.uniqueness_commitments.contains_key(&target_id));
    assert!(!personhood.is_unique_verified(&target_id));
}

#[test]
fn test_uniqueness_verification() {
    let (mut personhood, identity_registry, target_id, _) = setup_registry_with_identity();
    personhood.initialize_score(target_id);

    personhood.submit_uniqueness_commitment(
        target_id,
        b"unique_data",
        1000,
        &identity_registry,
    ).unwrap();

    // Add witnesses
    personhood.witness_uniqueness(target_id, create_account(10), 1001).unwrap();
    personhood.witness_uniqueness(target_id, create_account(11), 1002).unwrap();
    assert!(!personhood.is_unique_verified(&target_id));

    personhood.witness_uniqueness(target_id, create_account(12), 1003).unwrap();
    assert!(personhood.is_unique_verified(&target_id));
}

#[test]
fn test_personhood_score_initialization() {
    let mut personhood = PersonhoodRegistry::new(ChainId(1));
    let id = create_hash(1);

    personhood.initialize_score(id);

    let score = personhood.get_score(&id).unwrap();
    assert_eq!(score.total, 0);
}

#[test]
fn test_activity_tracking() {
    let mut personhood = PersonhoodRegistry::new(ChainId(1));
    let id = create_hash(1);

    personhood.initialize_score(id);
    personhood.record_activity(id, 10);

    let score = personhood.get_score(&id).unwrap();
    assert_eq!(score.activity_score, 100); // 10 actions * 10 points
}

#[test]
fn test_threshold_check() {
    let mut personhood = PersonhoodRegistry::new(ChainId(1));
    let id = create_hash(1);

    personhood.initialize_score(id);

    // Initially below threshold
    assert!(!personhood.meets_threshold(&id));

    // Activity alone gives max 200 points
    personhood.record_activity(id, 50); // 200 activity points (capped)
    assert!(!personhood.meets_threshold(&id)); // threshold is 500, not enough

    // Need to add more score components to reach 500
    // Update longevity (200 points for ~1 year)
    personhood.update_longevity(id, 5_256_000);
    // Now we have: 200 (activity) + 200 (longevity) = 400, still not enough

    // Lower the threshold for this test
    personhood.config.min_score_for_privileges = 400;
    assert!(personhood.meets_threshold(&id));
}

#[test]
fn test_sybil_cluster_detection() {
    let mut personhood = PersonhoodRegistry::new(ChainId(1));

    // Create a suspicious cluster: 4 identities all attesting each other
    let ids: Vec<kratos_core::types::Hash> = (1..=4).map(|i| create_hash(i)).collect();

    for i in 0..ids.len() {
        for j in 0..ids.len() {
            if i != j {
                personhood.record_attestation(ids[i], ids[j]);
            }
        }
    }

    personhood.recalculate_social_graph();

    assert!(!personhood.sybil_clusters.is_empty());
    // The cluster should have high internal density
    let cluster = &personhood.sybil_clusters[0];
    assert_eq!(cluster.members.len(), 4);
}

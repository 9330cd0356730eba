use kratos_core::sidechains::{
    calculate_deposit, ChainError, ChainRegistry, ChainStatus, PurgeTrigger, SecurityMode, WithdrawalType,
    BASE_DEPOSIT, INACTIVITY_THRESHOLD, INACTIVITY_THRESHOLD_V3_1, PURGE_CHECK_INTERVAL, PURGE_WARNING_PERIOD,
    SOVEREIGN_DEPOSIT, WITHDRAWAL_WINDOW_DURATION,
};
use kratos_core::types::{AccountId, ChainId};

#[test]
fn test_create_sidechain_sovereign() {
    let mut registry = ChainRegistry::new();
    let owner = AccountId::from_bytes([1; 32]);

    let chain_id = registry
        .create_sidechain(
            owner,
            Some("TestChain".to_string()),
            None,
            None,
            SecurityMode::Sovereign,
            None,
            SOVEREIGN_DEPOSIT,
            0,
        )
        .unwrap();

    assert_eq!(chain_id, ChainId(1));
    assert_eq!(registry.sidechain_count(), 1);

    let sidechain = registry.get_sidechain(&chain_id).unwrap();
    assert_eq!(sidechain.security_mode, SecurityMode::Sovereign);
    assert_eq!(sidechain.deposit, SOVEREIGN_DEPOSIT);
}

#[test]
fn sidechains_test_insufficient_deposit() {
    let mut registry = ChainRegistry::new();
    let owner = AccountId::from_bytes([1; 32]);

    // Try Sovereign mode with insufficient deposit
    let result = registry.create_sidechain(
        owner,
        Some("TestChain".to_string()),
        None,
        None,
        SecurityMode::Sovereign,
        None,
        SOVEREIGN_DEPOSIT - 1,
        0,
    );

    assert!(result.is_err());
    assert!(matches!(result.unwrap_err(), ChainError::InsufficientDeposit));
}

#[test]
fn test_auto_purge() {
    let mut registry = ChainRegistry::new();
    let owner = AccountId::from_bytes([1; 32]);

    let chain_id = registry
        .create_sidechain(
            owner,
            Some("TestChain".to_string()),
            None,
            None,
            SecurityMode::Sovereign,
            None,
            SOVEREIGN_DEPOSIT,
            0,
        )
        .unwrap();

    // Immédiatement après création, pas de purge
    let purged = registry.auto_purge_inactive(PURGE_CHECK_INTERVAL);
    assert_eq!(purged.len(), 0);

    // Après période d'inactivité
    let purged = registry.auto_purge_inactive(INACTIVITY_THRESHOLD + PURGE_CHECK_INTERVAL + 1);
    assert_eq!(purged.len(), 1);
    assert_eq!(purged[0], chain_id);

    // Vérifie que la chaîne est purgée
    let sidechain = registry.get_sidechain(&chain_id).unwrap();
    assert_eq!(sidechain.status, ChainStatus::Purged);
}

#[test]
fn test_hostchain_affiliation() {
    let mut registry = ChainRegistry::new();
    let owner = AccountId::from_bytes([1; 32]);

    // Create a hostchain first
    let host_id = registry.create_hostchain(owner, 0);

    // Create a sidechain with Shared mode (should auto-affiliate)
    let sidechain_id = registry
        .create_sidechain(
            owner,
            Some("SC1".to_string()),
            None,
            None,
            SecurityMode::Shared,
            Some(host_id),
            BASE_DEPOSIT, // 0 members initially
            0,
        )
        .unwrap();

    // Verify auto-affiliation happened
    let host = registry.get_hostchain(&host_id).unwrap();
    assert!(host.member_chains.contains(&sidechain_id));

    // Leave host
    registry.leave_host(sidechain_id).unwrap();

    let host = registry.get_hostchain(&host_id).unwrap();
    assert!(!host.member_chains.contains(&sidechain_id));
}

#[test]
fn test_record_activity() {
    let mut registry = ChainRegistry::new();
    let owner = AccountId::from_bytes([1; 32]);

    let chain_id = registry
        .create_sidechain(
            owner,
            Some("TestChain".to_string()),
            None,
            None,
            SecurityMode::Sovereign,
            None,
            SOVEREIGN_DEPOSIT,
            0,
        )
        .unwrap();

    // Enregistre activité
    registry.record_activity(chain_id, 1000).unwrap();

    let sidechain = registry.get_sidechain(&chain_id).unwrap();
    assert_eq!(sidechain.last_activity, 1000);
}

// ==================== SPEC v3 Security Mode Tests ====================

#[test]
fn test_security_mode_inherited_deposit() {
    let mut registry = ChainRegistry::new();
    let owner = AccountId::from_bytes([1; 32]);

    // Create parent chain first
    let parent_id = registry
        .create_sidechain(
            owner,
            Some("ParentChain".to_string()),
            None,
            None,
            SecurityMode::Sovereign,
            None,
            SOVEREIGN_DEPOSIT,
            0,
        )
        .unwrap();

    // Inherited mode: 1000 KRAT
    let chain_id = registry
        .create_sidechain(
            owner,
            Some("InheritedChain".to_string()),
            None,
            Some(parent_id),
            SecurityMode::Inherited,
            None,
            BASE_DEPOSIT,
            0,
        )
        .unwrap();

    let sidechain = registry.get_sidechain(&chain_id).unwrap();
    assert_eq!(sidechain.security_mode, SecurityMode::Inherited);
    assert_eq!(sidechain.deposit, BASE_DEPOSIT);
}

#[test]
fn test_security_mode_sovereign_deposit() {
    let mut registry = ChainRegistry::new();
    let owner = AccountId::from_bytes([1; 32]);

    // Sovereign mode: 10,000 KRAT
    let chain_id = registry
        .create_sidechain(
            owner,
            Some("SovereignChain".to_string()),
            None,
            None,
            SecurityMode::Sovereign,
            None,
            SOVEREIGN_DEPOSIT,
            0,
        )
        .unwrap();

    let sidechain = registry.get_sidechain(&chain_id).unwrap();
    assert_eq!(sidechain.security_mode, SecurityMode::Sovereign);
    assert_eq!(sidechain.deposit, SOVEREIGN_DEPOSIT);
}

#[test]
fn test_security_mode_shared_deposit_scaling() {
    let mut registry = ChainRegistry::new();
    let owner = AccountId::from_bytes([1; 32]);

    // Create hostchain
    let host_id = registry.create_hostchain(owner, 0);

    // Add first member (Shared mode: 1000 × 0 = 1000 KRAT initially)
    let chain1 = registry
        .create_sidechain(
            owner,
            Some("SharedChain1".to_string()),
            None,
            None,
            SecurityMode::Shared,
            Some(host_id),
            BASE_DEPOSIT,
            0,
        )
        .unwrap();

    let sidechain1 = registry.get_sidechain(&chain1).unwrap();
    assert_eq!(sidechain1.security_mode, SecurityMode::Shared);

    // Add second member - deposit should scale with members
    // Now host has 1 member, so deposit = 1000 × 1 = 1000 KRAT
    let chain2 = registry
        .create_sidechain(
            owner,
            Some("SharedChain2".to_string()),
            None,
            None,
            SecurityMode::Shared,
            Some(host_id),
            BASE_DEPOSIT, // 1 member now
            0,
        )
        .unwrap();

    let host = registry.get_hostchain(&host_id).unwrap();
    assert_eq!(host.member_chains.len(), 2);
}

#[test]
fn test_security_mode_parent_validation() {
    let mut registry = ChainRegistry::new();
    let owner = AccountId::from_bytes([1; 32]);

    // Create parent sidechain
    let parent_id = registry
        .create_sidechain(
            owner,
            Some("Parent".to_string()),
            None,
            None,
            SecurityMode::Sovereign,
            None,
            SOVEREIGN_DEPOSIT,
            0,
        )
        .unwrap();

    // Create child with Inherited security from parent
    let child_id = registry
        .create_sidechain(
            owner,
            Some("Child".to_string()),
            None,
            Some(parent_id),
            SecurityMode::Inherited,
            None,
            BASE_DEPOSIT,
            0,
        )
        .unwrap();

    let child = registry.get_sidechain(&child_id).unwrap();
    assert_eq!(child.parent, Some(parent_id));
    assert_eq!(child.security_mode, SecurityMode::Inherited);
}

#[test]
fn test_security_mode_invalid_parent() {
    let mut registry = ChainRegistry::new();
    let owner = AccountId::from_bytes([1; 32]);

    // Try to create child with non-existent parent
    let result = registry.create_sidechain(
        owner,
        Some("OrphanChild".to_string()),
        None,
        Some(ChainId(999)), // Non-existent parent
        SecurityMode::Inherited,
        None,
        BASE_DEPOSIT,
        0,
    );

    assert!(result.is_err());
    assert!(matches!(result.unwrap_err(), ChainError::ParentNotFound));
}

#[test]
fn test_security_mode_shared_without_host() {
    let mut registry = ChainRegistry::new();
    let owner = AccountId::from_bytes([1; 32]);

    // Try Shared mode without hostchain - should fail
    let result = registry.create_sidechain(
        owner,
        Some("NoHostChain".to_string()),
        None,
        None,
        SecurityMode::Shared,
        None, // No host specified
        BASE_DEPOSIT,
        0,
    );

    assert!(result.is_err());
    assert!(matches!(result.unwrap_err(), ChainError::HostNotFound));
}

#[test]
fn test_deposit_calculation_function() {

    // Inherited: 1000 KRAT
    assert_eq!(calculate_deposit(SecurityMode::Inherited, 0), 1_000);
    assert_eq!(calculate_deposit(SecurityMode::Inherited, 10), 1_000);

    // Shared: 1000 × N_members
    assert_eq!(calculate_deposit(SecurityMode::Shared, 0), 0);
    assert_eq!(calculate_deposit(SecurityMode::Shared, 1), 1_000);
    assert_eq!(calculate_deposit(SecurityMode::Shared, 5), 5_000);
    assert_eq!(calculate_deposit(SecurityMode::Shared, 10), 10_000);

    // Sovereign: 10,000 KRAT
    assert_eq!(calculate_deposit(SecurityMode::Sovereign, 0), 10_000);
    assert_eq!(calculate_deposit(SecurityMode::Sovereign, 10), 10_000);
}

#[test]
fn test_security_mode_deposit_enforcement() {
    let mut registry = ChainRegistry::new();
    let owner = AccountId::from_bytes([1; 32]);

    // Inherited with too little deposit should fail
    let result = registry.create_sidechain(
        owner,
        Some("Underfunded".to_string()),
        None,
        None,
        SecurityMode::Inherited,
        None,
        BASE_DEPOSIT - 1,
        0,
    );
    assert!(result.is_err());

    // Sovereign with BASE_DEPOSIT should fail
    let result = registry.create_sidechain(
        owner,
        Some("Underfunded".to_string()),
        None,
        None,
        SecurityMode::Sovereign,
        None,
        BASE_DEPOSIT,
        0,
    );
    assert!(result.is_err());
}

#[test]
fn test_security_mode_shared_auto_affiliation() {
    let mut registry = ChainRegistry::new();
    let owner = AccountId::from_bytes([1; 32]);

    let host_id = registry.create_hostchain(owner, 0);

    // Create with Shared mode - should auto-affiliate
    let chain_id = registry
        .create_sidechain(
            owner,
            Some("AutoAffiliate".to_string()),
            None,
            None,
            SecurityMode::Shared,
            Some(host_id),
            BASE_DEPOSIT,
            0,
        )
        .unwrap();

    // Verify auto-affiliation
    let host = registry.get_hostchain(&host_id).unwrap();
    assert!(host.member_chains.contains(&chain_id));

    // Verify sidechain is in registry's tracking
    assert_eq!(
        registry.sidechain_to_host.get(&chain_id),
        Some(&host_id)
    );
}

#[test]
fn test_security_mode_comparison() {
    // Test cost hierarchy: Inherited < Shared (varies) < Sovereign
    assert!(BASE_DEPOSIT < SOVEREIGN_DEPOSIT);

    // Shared can be cheaper or more expensive than Sovereign depending on members
    assert!(calculate_deposit(SecurityMode::Shared, 5) < SOVEREIGN_DEPOSIT);
    assert!(calculate_deposit(SecurityMode::Shared, 15) > SOVEREIGN_DEPOSIT);
}

// ===== PHASE 2: VALIDATOR ASSIGNMENT TESTS =====

#[test]
fn test_inherited_mode_inherits_parent_validators() {
    let mut registry = ChainRegistry::new();
    let owner = AccountId::from_bytes([1; 32]);
    let val1 = AccountId::from_bytes([10; 32]);
    let val2 = AccountId::from_bytes([11; 32]);

    // Create parent chain (Sovereign mode) with validators
    let parent_id = registry
        .create_sidechain(
            owner,
            Some("Parent".to_string()),
            None,
            None,
            SecurityMode::Sovereign,
            None,
            SOVEREIGN_DEPOSIT,
            0,
        )
        .unwrap();

    // Add validators to parent
    registry.add_validator_to_chain(parent_id, val1).unwrap();
    registry.add_validator_to_chain(parent_id, val2).unwrap();

    // Create child with Inherited security
    let child_id = registry
        .create_sidechain(
            owner,
            Some("Child".to_string()),
            None,
            Some(parent_id),
            SecurityMode::Inherited,
            None,
            BASE_DEPOSIT,
            0,
        )
        .unwrap();

    // Child should automatically inherit parent's validators
    let child = registry.get_sidechain(&child_id).unwrap();
    assert_eq!(child.validators.len(), 2);
    assert!(child.validators.contains(&val1));
    assert!(child.validators.contains(&val2));
}

#[test]
fn test_inherited_mode_parent_validator_propagation() {
    let mut registry = ChainRegistry::new();
    let owner = AccountId::from_bytes([1; 32]);
    let val1 = AccountId::from_bytes([10; 32]);
    let val2 = AccountId::from_bytes([11; 32]);

    // Create parent and child
    let parent_id = registry
        .create_sidechain(
            owner,
            Some("Parent".to_string()),
            None,
            None,
            SecurityMode::Sovereign,
            None,
            SOVEREIGN_DEPOSIT,
            0,
        )
        .unwrap();

    registry.add_validator_to_chain(parent_id, val1).unwrap();

    let child_id = registry
        .create_sidechain(
            owner,
            Some("Child".to_string()),
            None,
            Some(parent_id),
            SecurityMode::Inherited,
            None,
            BASE_DEPOSIT,
            0,
        )
        .unwrap();

    // Initially child has val1
    let child = registry.get_sidechain(&child_id).unwrap();
    assert_eq!(child.validators.len(), 1);

    // Add validator to parent
    registry.add_validator_to_chain(parent_id, val2).unwrap();

    // Re-assign child validators (simulates update)
    registry.assign_validators(child_id).unwrap();

    // Child should now have both validators
    let child = registry.get_sidechain(&child_id).unwrap();
    assert_eq!(child.validators.len(), 2);
    assert!(child.validators.contains(&val1));
    assert!(child.validators.contains(&val2));
}

#[test]
fn test_shared_mode_gets_hostchain_pool() {
    let mut registry = ChainRegistry::new();
    let owner = AccountId::from_bytes([1; 32]);
    let val1 = AccountId::from_bytes([10; 32]);
    let val2 = AccountId::from_bytes([11; 32]);

    // Create hostchain with validator pool
    let host_id = registry.create_hostchain(owner, 0);
    registry.add_validator_to_hostchain(host_id, val1).unwrap();
    registry.add_validator_to_hostchain(host_id, val2).unwrap();

    // Create sidechain with Shared security
    let chain_id = registry
        .create_sidechain(
            owner,
            Some("SharedChain".to_string()),
            None,
            None,
            SecurityMode::Shared,
            Some(host_id),
            BASE_DEPOSIT,
            0,
        )
        .unwrap();

    // Sidechain should automatically get hostchain pool validators
    let sidechain = registry.get_sidechain(&chain_id).unwrap();
    assert_eq!(sidechain.validators.len(), 2);
    assert!(sidechain.validators.contains(&val1));
    assert!(sidechain.validators.contains(&val2));
}

#[test]
fn test_shared_mode_hostchain_pool_propagation() {
    let mut registry = ChainRegistry::new();
    let owner = AccountId::from_bytes([1; 32]);
    let val1 = AccountId::from_bytes([10; 32]);
    let val2 = AccountId::from_bytes([11; 32]);
    let val3 = AccountId::from_bytes([12; 32]);

    // Create hostchain with validator pool
    let host_id = registry.create_hostchain(owner, 0);
    registry.add_validator_to_hostchain(host_id, val1).unwrap();

    // Create multiple affiliated sidechains
    let chain1 = registry
        .create_sidechain(
            owner,
            Some("Shared1".to_string()),
            None,
            None,
            SecurityMode::Shared,
            Some(host_id),
            BASE_DEPOSIT,
            0,
        )
        .unwrap();

    let chain2 = registry
        .create_sidechain(
            owner,
            Some("Shared2".to_string()),
            None,
            None,
            SecurityMode::Shared,
            Some(host_id),
            BASE_DEPOSIT,
            0,
        )
        .unwrap();

    // Both chains have val1
    assert_eq!(registry.get_sidechain(&chain1).unwrap().validators.len(), 1);
    assert_eq!(registry.get_sidechain(&chain2).unwrap().validators.len(), 1);

    // Add validators to hostchain pool - should propagate to all affiliated chains
    registry.add_validator_to_hostchain(host_id, val2).unwrap();
    registry.add_validator_to_hostchain(host_id, val3).unwrap();

    // Both chains should now have 3 validators
    let chain1_info = registry.get_sidechain(&chain1).unwrap();
    assert_eq!(chain1_info.validators.len(), 3);
    assert!(chain1_info.validators.contains(&val1));
    assert!(chain1_info.validators.contains(&val2));
    assert!(chain1_info.validators.contains(&val3));

    let chain2_info = registry.get_sidechain(&chain2).unwrap();
    assert_eq!(chain2_info.validators.len(), 3);
    assert!(chain2_info.validators.contains(&val1));
    assert!(chain2_info.validators.contains(&val2));
    assert!(chain2_info.validators.contains(&val3));
}

#[test]
fn test_sovereign_mode_manual_validator_management() {
    let mut registry = ChainRegistry::new();
    let owner = AccountId::from_bytes([1; 32]);
    let val1 = AccountId::from_bytes([10; 32]);
    let val2 = AccountId::from_bytes([11; 32]);

    // Create Sovereign chain
    let chain_id = registry
        .create_sidechain(
            owner,
            Some("Sovereign".to_string()),
            None,
            None,
            SecurityMode::Sovereign,
            None,
            SOVEREIGN_DEPOSIT,
            0,
        )
        .unwrap();

    // Initially no validators
    let sidechain = registry.get_sidechain(&chain_id).unwrap();
    assert_eq!(sidechain.validators.len(), 0);

    // Manually add validators
    registry.add_validator_to_chain(chain_id, val1).unwrap();
    registry.add_validator_to_chain(chain_id, val2).unwrap();

    let sidechain = registry.get_sidechain(&chain_id).unwrap();
    assert_eq!(sidechain.validators.len(), 2);

    // Manually remove validator
    registry.remove_validator_from_chain(chain_id, &val1).unwrap();

    let sidechain = registry.get_sidechain(&chain_id).unwrap();
    assert_eq!(sidechain.validators.len(), 1);
    assert!(sidechain.validators.contains(&val2));
}

#[test]
fn test_cannot_manually_manage_inherited_validators() {
    let mut registry = ChainRegistry::new();
    let owner = AccountId::from_bytes([1; 32]);
    let val1 = AccountId::from_bytes([10; 32]);

    // Create parent and child with Inherited security
    let parent_id = registry
        .create_sidechain(
            owner,
            Some("Parent".to_string()),
            None,
            None,
            SecurityMode::Sovereign,
            None,
            SOVEREIGN_DEPOSIT,
            0,
        )
        .unwrap();

    let child_id = registry
        .create_sidechain(
            owner,
            Some("Child".to_string()),
            None,
            Some(parent_id),
            SecurityMode::Inherited,
            None,
            BASE_DEPOSIT,
            0,
        )
        .unwrap();

    // Cannot manually add validator to Inherited chain
    let result = registry.add_validator_to_chain(child_id, val1);
    assert!(result.is_err());
    assert!(matches!(result.unwrap_err(), ChainError::InvalidSecurityMode));
}

#[test]
fn test_cannot_manually_manage_shared_validators() {
    let mut registry = ChainRegistry::new();
    let owner = AccountId::from_bytes([1; 32]);
    let val1 = AccountId::from_bytes([10; 32]);

    // Create hostchain and Shared sidechain
    let host_id = registry.create_hostchain(owner, 0);

    let chain_id = registry
        .create_sidechain(
            owner,
            Some("Shared".to_string()),
            None,
            None,
            SecurityMode::Shared,
            Some(host_id),
            BASE_DEPOSIT,
            0,
        )
        .unwrap();

    // Cannot manually add validator to Shared chain
    let result = registry.add_validator_to_chain(chain_id, val1);
    assert!(result.is_err());
    assert!(matches!(result.unwrap_err(), ChainError::InvalidSecurityMode));
}

#[test]
fn test_validator_assignment_on_creation() {
    let mut registry = ChainRegistry::new();
    let owner = AccountId::from_bytes([1; 32]);
    let val1 = AccountId::from_bytes([10; 32]);

    // Create parent with validators
    let parent_id = registry
        .create_sidechain(
            owner,
            Some("Parent".to_string()),
            None,
            None,
            SecurityMode::Sovereign,
            None,
            SOVEREIGN_DEPOSIT,
            0,
        )
        .unwrap();
    registry.add_validator_to_chain(parent_id, val1).unwrap();

    // Child should get validators immediately on creation
    let child_id = registry
        .create_sidechain(
            owner,
            Some("Child".to_string()),
            None,
            Some(parent_id),
            SecurityMode::Inherited,
            None,
            BASE_DEPOSIT,
            0,
        )
        .unwrap();

    let child = registry.get_sidechain(&child_id).unwrap();
    assert_eq!(child.validators.len(), 1);
    assert!(child.validators.contains(&val1));
}

#[test]
fn test_sovereign_chain_starts_with_empty_validators() {
    let mut registry = ChainRegistry::new();
    let owner = AccountId::from_bytes([1; 32]);

    // Create Sovereign chain
    let chain_id = registry
        .create_sidechain(
            owner,
            Some("Sovereign".to_string()),
            None,
            None,
            SecurityMode::Sovereign,
            None,
            SOVEREIGN_DEPOSIT,
            0,
        )
        .unwrap();

    // Sovereign chains start with empty validator set
    let sidechain = registry.get_sidechain(&chain_id).unwrap();
    assert_eq!(sidechain.validators.len(), 0);
}

#[test]
fn test_hostchain_pool_with_multiple_affiliated_chains() {
    let mut registry = ChainRegistry::new();
    let owner = AccountId::from_bytes([1; 32]);
    let val1 = AccountId::from_bytes([10; 32]);
    let val2 = AccountId::from_bytes([11; 32]);

    // Create hostchain with validators
    let host_id = registry.create_hostchain(owner, 0);
    registry.add_validator_to_hostchain(host_id, val1).unwrap();
    registry.add_validator_to_hostchain(host_id, val2).unwrap();

    // Create 3 affiliated chains
    let chain1 = registry
        .create_sidechain(
            owner,
            Some("Shared1".to_string()),
            None,
            None,
            SecurityMode::Shared,
            Some(host_id),
            BASE_DEPOSIT,
            0,
        )
        .unwrap();

    let chain2 = registry
        .create_sidechain(
            owner,
            Some("Shared2".to_string()),
            None,
            None,
            SecurityMode::Shared,
            Some(host_id),
            BASE_DEPOSIT,
            0,
        )
        .unwrap();

    let chain3 = registry
        .create_sidechain(
            owner,
            Some("Shared3".to_string()),
            None,
            None,
            SecurityMode::Shared,
            Some(host_id),
            BASE_DEPOSIT * 2, // 2 members now
            0,
        )
        .unwrap();

    // All chains should have same validators from pool
    for chain_id in [chain1, chain2, chain3] {
        let chain = registry.get_sidechain(&chain_id).unwrap();
        assert_eq!(chain.validators.len(), 2);
        assert!(chain.validators.contains(&val1));
        assert!(chain.validators.contains(&val2));
    }
}

#[test]
fn test_inherited_mode_with_empty_parent_validators() {
    let mut registry = ChainRegistry::new();
    let owner = AccountId::from_bytes([1; 32]);

    // Create parent with no validators
    let parent_id = registry
        .create_sidechain(
            owner,
            Some("Parent".to_string()),
            None,
            None,
            SecurityMode::Sovereign,
            None,
            SOVEREIGN_DEPOSIT,
            0,
        )
        .unwrap();

    // Create child - should inherit empty set
    let child_id = registry
        .create_sidechain(
            owner,
            Some("Child".to_string()),
            None,
            Some(parent_id),
            SecurityMode::Inherited,
            None,
            BASE_DEPOSIT,
            0,
        )
        .unwrap();

    let child = registry.get_sidechain(&child_id).unwrap();
    assert_eq!(child.validators.len(), 0);
}

#[test]
fn test_hostchain_validator_removal_propagation() {
    let mut registry = ChainRegistry::new();
    let owner = AccountId::from_bytes([1; 32]);
    let val1 = AccountId::from_bytes([10; 32]);
    let val2 = AccountId::from_bytes([11; 32]);

    // Create hostchain with validators
    let host_id = registry.create_hostchain(owner, 0);
    registry.add_validator_to_hostchain(host_id, val1).unwrap();
    registry.add_validator_to_hostchain(host_id, val2).unwrap();

    // Create affiliated chain
    let chain_id = registry
        .create_sidechain(
            owner,
            Some("Shared".to_string()),
            None,
            None,
            SecurityMode::Shared,
            Some(host_id),
            BASE_DEPOSIT,
            0,
        )
        .unwrap();

    // Chain has 2 validators
    assert_eq!(registry.get_sidechain(&chain_id).unwrap().validators.len(), 2);

    // Remove validator from hostchain pool - should propagate
    registry.remove_validator_from_hostchain(host_id, &val1).unwrap();

    // Chain should now have only 1 validator
    let chain = registry.get_sidechain(&chain_id).unwrap();
    assert_eq!(chain.validators.len(), 1);
    assert!(chain.validators.contains(&val2));
    assert!(!chain.validators.contains(&val1));
}

// ===== PHASE 3: ENHANCED PURGE SYSTEM TESTS (SPEC v3.1) =====

#[test]
fn test_purge_trigger_inactivity() {
    let mut registry = ChainRegistry::new();
    let owner = AccountId::from_bytes([1; 32]);

    let chain_id = registry
        .create_sidechain(
            owner,
            Some("Test".to_string()),
            None,
            None,
            SecurityMode::Sovereign,
            None,
            SOVEREIGN_DEPOSIT,
            0,
        )
        .unwrap();

    // Initially no trigger
    assert!(registry.check_purge_triggers(chain_id, 1000).is_none());

    // After 90 days of inactivity, trigger should fire
    let trigger = registry.check_purge_triggers(chain_id, INACTIVITY_THRESHOLD_V3_1 + 1);
    assert!(matches!(trigger, Some(PurgeTrigger::Inactivity)));
}

#[test]
fn test_purge_trigger_governance_failure() {
    let mut registry = ChainRegistry::new();
    let owner = AccountId::from_bytes([1; 32]);

    let chain_id = registry
        .create_sidechain(
            owner,
            Some("Test".to_string()),
            None,
            None,
            SecurityMode::Sovereign,
            None,
            SOVEREIGN_DEPOSIT,
            0,
        )
        .unwrap();

    // Record 3 governance failures
    registry.record_governance_failure(chain_id).unwrap();
    registry.record_governance_failure(chain_id).unwrap();

    // Not yet triggered
    assert!(registry.check_purge_triggers(chain_id, 1000).is_none());

    registry.record_governance_failure(chain_id).unwrap();

    // Now triggered
    let trigger = registry.check_purge_triggers(chain_id, 1000);
    assert!(matches!(trigger, Some(PurgeTrigger::GovernanceFailure)));
}

#[test]
fn test_purge_trigger_validator_fraud() {
    let mut registry = ChainRegistry::new();
    let owner = AccountId::from_bytes([1; 32]);
    let val1 = AccountId::from_bytes([10; 32]);
    let val2 = AccountId::from_bytes([11; 32]);
    let val3 = AccountId::from_bytes([12; 32]);

    let chain_id = registry
        .create_sidechain(
            owner,
            Some("Test".to_string()),
            None,
            None,
            SecurityMode::Sovereign,
            None,
            SOVEREIGN_DEPOSIT,
            0,
        )
        .unwrap();

    // Add 3 validators
    registry.add_validator_to_chain(chain_id, val1).unwrap();
    registry.add_validator_to_chain(chain_id, val2).unwrap();
    registry.add_validator_to_chain(chain_id, val3).unwrap();

    // Slash 1 validator (33% of 3 = 1 validator)
    registry.slash_validator(chain_id, &val1).unwrap();

    // Should trigger fraud purge
    let trigger = registry.check_purge_triggers(chain_id, 1000);
    assert!(matches!(trigger, Some(PurgeTrigger::ValidatorFraud)));
}

#[test]
fn test_purge_state_machine_full_cycle() {
    let mut registry = ChainRegistry::new();
    let owner = AccountId::from_bytes([1; 32]);

    let chain_id = registry
        .create_sidechain(
            owner,
            Some("Test".to_string()),
            None,
            None,
            SecurityMode::Sovereign,
            None,
            SOVEREIGN_DEPOSIT,
            0,
        )
        .unwrap();

    let sidechain = registry.get_sidechain(&chain_id).unwrap();
    assert_eq!(sidechain.status, ChainStatus::Active);

    // Trigger purge
    registry
        .trigger_purge(chain_id, PurgeTrigger::Inactivity, 0)
        .unwrap();

    let sidechain = registry.get_sidechain(&chain_id).unwrap();
    assert_eq!(sidechain.status, ChainStatus::PendingPurge);
    assert_eq!(sidechain.purge_triggered_at, Some(0));

    // Wait 30 days (warning period)
    let status = registry
        .advance_purge_state(chain_id, PURGE_WARNING_PERIOD + 1)
        .unwrap();
    assert_eq!(status, ChainStatus::Frozen);

    // Frozen → Snapshot (immediate)
    let status = registry.advance_purge_state(chain_id, PURGE_WARNING_PERIOD + 2).unwrap();
    assert_eq!(status, ChainStatus::Snapshot);

    // Snapshot → WithdrawalWindow (immediate)
    let status = registry.advance_purge_state(chain_id, PURGE_WARNING_PERIOD + 3).unwrap();
    assert_eq!(status, ChainStatus::WithdrawalWindow);

    let sidechain = registry.get_sidechain(&chain_id).unwrap();
    assert!(sidechain.withdrawal_window_start.is_some());

    // Wait 30 days (withdrawal window)
    let window_start = sidechain.withdrawal_window_start.unwrap();
    let status = registry
        .advance_purge_state(chain_id, window_start + WITHDRAWAL_WINDOW_DURATION + 1)
        .unwrap();
    assert_eq!(status, ChainStatus::Purged);
}

#[test]
fn test_purge_warning_period_30_days() {
    let mut registry = ChainRegistry::new();
    let owner = AccountId::from_bytes([1; 32]);

    let chain_id = registry
        .create_sidechain(
            owner,
            Some("Test".to_string()),
            None,
            None,
            SecurityMode::Sovereign,
            None,
            SOVEREIGN_DEPOSIT,
            0,
        )
        .unwrap();

    registry
        .trigger_purge(chain_id, PurgeTrigger::Inactivity, 1000)
        .unwrap();

    // 29 days later - still pending
    registry
        .advance_purge_state(chain_id, 1000 + PURGE_WARNING_PERIOD - 1)
        .unwrap();
    let sidechain = registry.get_sidechain(&chain_id).unwrap();
    assert_eq!(sidechain.status, ChainStatus::PendingPurge);

    // 30 days later - frozen
    registry
        .advance_purge_state(chain_id, 1000 + PURGE_WARNING_PERIOD)
        .unwrap();
    let sidechain = registry.get_sidechain(&chain_id).unwrap();
    assert_eq!(sidechain.status, ChainStatus::Frozen);
}

#[test]
fn test_withdrawal_window_30_days() {
    let mut registry = ChainRegistry::new();
    let owner = AccountId::from_bytes([1; 32]);

    let chain_id = registry
        .create_sidechain(
            owner,
            Some("Test".to_string()),
            None,
            None,
            SecurityMode::Sovereign,
            None,
            SOVEREIGN_DEPOSIT,
            0,
        )
        .unwrap();

    // Fast-forward to WithdrawalWindow
    registry
        .trigger_purge(chain_id, PurgeTrigger::Inactivity, 0)
        .unwrap();
    registry.advance_purge_state(chain_id, PURGE_WARNING_PERIOD + 1).unwrap();
    registry.advance_purge_state(chain_id, PURGE_WARNING_PERIOD + 2).unwrap();
    registry.advance_purge_state(chain_id, PURGE_WARNING_PERIOD + 3).unwrap();

    let sidechain = registry.get_sidechain(&chain_id).unwrap();
    assert_eq!(sidechain.status, ChainStatus::WithdrawalWindow);
    let window_start = sidechain.withdrawal_window_start.unwrap();

    // 29 days later - still in withdrawal
    registry
        .advance_purge_state(chain_id, window_start + WITHDRAWAL_WINDOW_DURATION - 1)
        .unwrap();
    let sidechain = registry.get_sidechain(&chain_id).unwrap();
    assert_eq!(sidechain.status, ChainStatus::WithdrawalWindow);

    // 30 days later - purged
    registry
        .advance_purge_state(chain_id, window_start + WITHDRAWAL_WINDOW_DURATION)
        .unwrap();
    let sidechain = registry.get_sidechain(&chain_id).unwrap();
    assert_eq!(sidechain.status, ChainStatus::Purged);
}

#[test]
fn test_auto_purge_v3_1_detects_triggers() {
    let mut registry = ChainRegistry::new();
    let owner = AccountId::from_bytes([1; 32]);

    let chain_id = registry
        .create_sidechain(
            owner,
            Some("Test".to_string()),
            None,
            None,
            SecurityMode::Sovereign,
            None,
            SOVEREIGN_DEPOSIT,
            0,
        )
        .unwrap();

    // Initially no triggers
    let triggered = registry.auto_purge_v3_1(PURGE_CHECK_INTERVAL);
    assert_eq!(triggered.len(), 0);

    // After 90 days, inactivity trigger fires
    let triggered = registry.auto_purge_v3_1(INACTIVITY_THRESHOLD_V3_1 + PURGE_CHECK_INTERVAL + 1);
    assert_eq!(triggered.len(), 1);
    assert_eq!(triggered[0].0, chain_id);
    assert!(matches!(triggered[0].1, PurgeTrigger::Inactivity));

    // Chain should now be in PendingPurge
    let sidechain = registry.get_sidechain(&chain_id).unwrap();
    assert_eq!(sidechain.status, ChainStatus::PendingPurge);
}

#[test]
fn test_auto_purge_v3_1_advances_states() {
    let mut registry = ChainRegistry::new();
    let owner = AccountId::from_bytes([1; 32]);

    let chain_id = registry
        .create_sidechain(
            owner,
            Some("Test".to_string()),
            None,
            None,
            SecurityMode::Sovereign,
            None,
            SOVEREIGN_DEPOSIT,
            0,
        )
        .unwrap();

    // Trigger manually
    registry
        .trigger_purge(chain_id, PurgeTrigger::Inactivity, PURGE_CHECK_INTERVAL)
        .unwrap();

    // Auto-purge advances state after warning period
    registry.auto_purge_v3_1(PURGE_CHECK_INTERVAL + PURGE_WARNING_PERIOD + 1);

    let sidechain = registry.get_sidechain(&chain_id).unwrap();
    // Should advance through Frozen → Snapshot → WithdrawalWindow
    assert!(matches!(
        sidechain.status,
        ChainStatus::WithdrawalWindow
    ));
}

#[test]
fn test_governance_failure_reset() {
    let mut registry = ChainRegistry::new();
    let owner = AccountId::from_bytes([1; 32]);

    let chain_id = registry
        .create_sidechain(
            owner,
            Some("Test".to_string()),
            None,
            None,
            SecurityMode::Sovereign,
            None,
            SOVEREIGN_DEPOSIT,
            0,
        )
        .unwrap();

    // Record 2 failures
    registry.record_governance_failure(chain_id).unwrap();
    registry.record_governance_failure(chain_id).unwrap();

    let sidechain = registry.get_sidechain(&chain_id).unwrap();
    assert_eq!(sidechain.governance_failures, 2);

    // Successful vote resets counter
    registry.reset_governance_failures(chain_id).unwrap();

    let sidechain = registry.get_sidechain(&chain_id).unwrap();
    assert_eq!(sidechain.governance_failures, 0);
}

#[test]
fn test_withdrawal_only_during_window() {
    let mut registry = ChainRegistry::new();
    let owner = AccountId::from_bytes([1; 32]);

    let chain_id = registry
        .create_sidechain(
            owner,
            Some("Test".to_string()),
            None,
            None,
            SecurityMode::Sovereign,
            None,
            SOVEREIGN_DEPOSIT,
            0,
        )
        .unwrap();

    // Cannot withdraw from active chain
    let result = registry.withdraw_from_purged_chain(chain_id, owner);
    assert!(result.is_err());
    assert!(matches!(result.unwrap_err(), ChainError::InvalidState));

    // Fast-forward to WithdrawalWindow
    registry
        .trigger_purge(chain_id, PurgeTrigger::Inactivity, 0)
        .unwrap();
    registry.advance_purge_state(chain_id, PURGE_WARNING_PERIOD + 1).unwrap();
    registry.advance_purge_state(chain_id, PURGE_WARNING_PERIOD + 2).unwrap();
    registry.advance_purge_state(chain_id, PURGE_WARNING_PERIOD + 3).unwrap();

    // Now can withdraw
    let result = registry.withdraw_from_purged_chain(chain_id, owner);
    assert!(result.is_ok());
    let withdrawal = result.unwrap();
    assert_eq!(withdrawal.amount, SOVEREIGN_DEPOSIT);
    assert_eq!(withdrawal.recipient, owner);
    assert!(matches!(withdrawal.withdrawal_type, WithdrawalType::OwnerDeposit));
}

#[test]
fn test_purge_removes_from_hostchain() {
    let mut registry = ChainRegistry::new();
    let owner = AccountId::from_bytes([1; 32]);

    let host_id = registry.create_hostchain(owner, 0);

    let chain_id = registry
        .create_sidechain(
            owner,
            Some("Test".to_string()),
            None,
            None,
            SecurityMode::Shared,
            Some(host_id),
            BASE_DEPOSIT,
            0,
        )
        .unwrap();

    // Verify chain is in hostchain
    let host = registry.get_hostchain(&host_id).unwrap();
    assert!(host.member_chains.contains(&chain_id));

    // Complete purge cycle
    registry
        .trigger_purge(chain_id, PurgeTrigger::Inactivity, 0)
        .unwrap();

    // PendingPurge → Frozen (after 30 days warning)
    let after_warning = 0 + PURGE_WARNING_PERIOD;
    registry.advance_purge_state(chain_id, after_warning).unwrap();

    // Frozen → Snapshot (immediate)
    registry.advance_purge_state(chain_id, after_warning).unwrap();

    // Snapshot → WithdrawalWindow (immediate)
    registry.advance_purge_state(chain_id, after_warning).unwrap();

    // WithdrawalWindow → Purged (after 30 days withdrawal)
    let after_withdrawal = after_warning + WITHDRAWAL_WINDOW_DURATION;
    registry.advance_purge_state(chain_id, after_withdrawal).unwrap();

    // Chain should be removed from hostchain
    let host = registry.get_hostchain(&host_id).unwrap();
    assert!(!host.member_chains.contains(&chain_id));
}

#[test]
fn test_cannot_trigger_purge_on_already_purging_chain() {
    let mut registry = ChainRegistry::new();
    let owner = AccountId::from_bytes([1; 32]);

    let chain_id = registry
        .create_sidechain(
            owner,
            Some("Test".to_string()),
            None,
            None,
            SecurityMode::Sovereign,
            None,
            SOVEREIGN_DEPOSIT,
            0,
        )
        .unwrap();

    // Trigger once
    registry
        .trigger_purge(chain_id, PurgeTrigger::Inactivity, 0)
        .unwrap();

    // Cannot trigger again
    let result = registry.trigger_purge(chain_id, PurgeTrigger::GovernanceFailure, 100);
    assert!(result.is_err());
    assert!(matches!(result.unwrap_err(), ChainError::InvalidState));
}

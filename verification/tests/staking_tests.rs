use kratos_core::staking::{SlashReason, StakingRegistry, MIN_VALIDATOR_STAKE, UNBONDING_PERIOD};
use kratos_core::types::{AccountId, KRAT};

#[test]
fn test_register_validator() {
    let mut registry = StakingRegistry::new();
    let validator_id = AccountId::from_bytes([1; 32]);

    let result = registry.register_validator(validator_id, MIN_VALIDATOR_STAKE, 0);
    assert!(result.is_ok());

    assert_eq!(registry.validator_count(), 1);
    assert_eq!(registry.total_stake(), MIN_VALIDATOR_STAKE);
}

#[test]
fn test_insufficient_stake() {
    let mut registry = StakingRegistry::new();
    let validator_id = AccountId::from_bytes([1; 32]);

    // Essaie avec moins que le minimum
    let result = registry.register_validator(validator_id, MIN_VALIDATOR_STAKE - 1, 0);
    assert!(result.is_err());
}

#[test]
fn test_unbonding_flow() {
    let mut registry = StakingRegistry::new();
    let validator_id = AccountId::from_bytes([1; 32]);

    // Enregistre
    registry
        .register_validator(validator_id, MIN_VALIDATOR_STAKE, 0)
        .unwrap();

    // Démarre unbonding
    registry
        .start_unbonding(&validator_id, 1000 * KRAT, 0)
        .unwrap();

    // Essaie de retirer trop tôt
    let result = registry.withdraw_unbonded(&validator_id, 100);
    assert!(result.is_err());

    // Attend la période d'unbonding
    let result = registry.withdraw_unbonded(&validator_id, UNBONDING_PERIOD);
    assert!(result.is_ok());
    assert_eq!(result.unwrap(), 1000 * KRAT);
}

#[test]
fn test_slash_validator() {
    let mut registry = StakingRegistry::new();
    let validator_id = AccountId::from_bytes([1; 32]);

    registry
        .register_validator(validator_id, MIN_VALIDATOR_STAKE, 0)
        .unwrap();

    let slash_amount = 1000 * KRAT;
    let slashed = registry
        .slash_validator(&validator_id, slash_amount, SlashReason::DoubleSign, 100)
        .unwrap();

    assert_eq!(slashed, slash_amount);
    assert_eq!(registry.slash_history.len(), 1);

    let validator = registry.get_validator(&validator_id).unwrap();
    assert_eq!(validator.stake, MIN_VALIDATOR_STAKE - slash_amount);
}

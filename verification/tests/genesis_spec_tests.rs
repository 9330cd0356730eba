use kratos_core::genesis::GenesisSpec;
use kratos_core::types::{AccountId, KRAT};

#[test]
fn test_mainnet_genesis() {
    // Unified KratOs genesis with bootstrap validator
    let spec = GenesisSpec::mainnet();
    assert_eq!(spec.validators.len(), 1);
    assert_eq!(spec.balances.len(), 0); // Bootstrap validator has no initial balance

    // Verify bootstrap validator configuration
    let bootstrap = &spec.validators[0];
    assert!(bootstrap.is_bootstrap_validator);
    assert_eq!(bootstrap.stake, 0);
}

#[test]
fn test_with_validator_genesis() {
    // Genesis with a custom validator
    let validator = AccountId::from_bytes([1u8; 32]);
    let spec = GenesisSpec::with_validator(validator);
    assert_eq!(spec.validators.len(), 1);
    assert_eq!(spec.balances.len(), 1);
    assert_eq!(spec.validators[0].stake, 50_000 * KRAT);
    assert!(!spec.validators[0].is_bootstrap_validator);
}

#[test]
fn test_genesis_builder_with_custom_validator() {
    let alice = kratos_core::types::AccountId::from_bytes([1u8; 32]);
    let spec = kratos_core::genesis::GenesisSpec::with_validator(alice);
    let builder = kratos_core::genesis::GenesisBuilder::new(spec);
    let mut accounts = kratos_core::vecmap::VecMap::new();

    let (header, validators) = builder.build(&mut accounts).unwrap();

    assert_eq!(header.number, 0);
    assert_eq!(header.parent_hash, kratos_core::types::Hash::zero());

    // 1M funded, 50k staked.
    let account = accounts.get(&alice).unwrap();
    assert_eq!(account.free, 950_000 * kratos_core::types::KRAT);

    assert_eq!(validators.len(), 1);
    assert!(validators.iter().any(|v| v.account == alice));
}

#[test]
fn test_genesis_validators_stake() {
    let alice = kratos_core::types::AccountId::from_bytes([1u8; 32]);
    let spec = kratos_core::genesis::GenesisSpec::with_validator(alice);
    let expected_stake = 50_000 * kratos_core::types::KRAT;

    let builder = kratos_core::genesis::GenesisBuilder::new(spec);
    let mut accounts = kratos_core::vecmap::VecMap::new();
    let (_, validators) = builder.build(&mut accounts).unwrap();

    let account = accounts.get(&alice).unwrap();
    assert_eq!(account.reserved, expected_stake);
    assert_eq!(account.free, 1_000_000 * kratos_core::types::KRAT - expected_stake);

    let validator = validators.iter().find(|v| v.account == alice).unwrap();
    assert_eq!(validator.stake, expected_stake);
}

#[test]
fn test_bootstrap_validator_genesis() {
    let spec = kratos_core::genesis::GenesisSpec::mainnet();
    let builder = kratos_core::genesis::GenesisBuilder::new(spec);
    let mut accounts = kratos_core::vecmap::VecMap::new();

    let (header, validators) = builder.build(&mut accounts).unwrap();
    assert_eq!(header.number, 0);

    let bootstrap_account = kratos_core::types::AccountId::from_bytes([
        0x9a, 0x0c, 0x70, 0x3c, 0x57, 0x2e, 0x8d, 0x17, 0x0c, 0x32, 0xad, 0x0d, 0xb9, 0xc9, 0x53, 0xd2, 0x56,
        0x5e, 0xfc, 0x3e, 0xd5, 0x85, 0xed, 0x57, 0xda, 0x96, 0x37, 0x65, 0x5a, 0xbf, 0x78, 0xb8,
    ]);
    let account = accounts.get(&bootstrap_account).unwrap();
    assert_eq!(account.free, 0);
    assert_eq!(account.reserved, 0);

    assert_eq!(validators.len(), 1);
    let validator = validators.iter().find(|v| v.account == bootstrap_account).unwrap();
    assert!(validator.is_bootstrap_validator);
    assert_eq!(validator.stake, 0);
}

#[test]
fn genesis_builder_refuses_unfunded_validator() {
    let alice = kratos_core::types::AccountId::from_bytes([1u8; 32]);
    let bob = kratos_core::types::AccountId::from_bytes([2u8; 32]);
    let mut spec = kratos_core::genesis::GenesisSpec::with_validator(alice);
    // Bob has no account at all.
    spec.validators.push(kratos_core::genesis::GenesisValidator {
        account: bob,
        stake: 10,
        is_bootstrap_validator: false,
    });
    let mut accounts = kratos_core::vecmap::VecMap::new();
    let result = kratos_core::genesis::GenesisBuilder::new(spec).build(&mut accounts);
    assert_eq!(result.unwrap_err(), format!("Compte validateur {:?} non trouvé", bob));
    // What came before Bob stays done.
    assert_eq!(accounts.get(&alice).unwrap().reserved, 50_000 * kratos_core::types::KRAT);
    assert!(accounts.get(&bob).is_none());
}

#[test]
fn genesis_builder_refuses_stake_above_balance() {
    let alice = kratos_core::types::AccountId::from_bytes([1u8; 32]);
    let mut spec = kratos_core::genesis::GenesisSpec::with_validator(alice);
    spec.validators[0].stake = 2_000_000 * kratos_core::types::KRAT;
    let mut accounts = kratos_core::vecmap::VecMap::new();
    let result = kratos_core::genesis::GenesisBuilder::new(spec).build(&mut accounts);
    assert_eq!(
        result.unwrap_err(),
        "Impossible de réserver le stake: \"insufficient free balance to reserve\"".to_string()
    );
    let account = accounts.get(&alice).unwrap();
    assert_eq!(account.free, 1_000_000 * kratos_core::types::KRAT);
    assert_eq!(account.reserved, 0);
}

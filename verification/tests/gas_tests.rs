use kratos_core::gas::{costs, BlockGasMeter, GasError, GasMeter};

#[test]
fn test_gas_meter_consume() {
    let mut meter = GasMeter::new(1000, 1);

    // Consomme 500
    assert!(meter.consume(500).is_ok());
    assert_eq!(meter.used(), 500);
    assert_eq!(meter.remaining(), 500);

    // Consomme 300 de plus
    assert!(meter.consume(300).is_ok());
    assert_eq!(meter.used(), 800);
    assert_eq!(meter.remaining(), 200);

    // Essaie de consommer trop
    assert!(matches!(
        meter.consume(300),
        Err(GasError::OutOfGas { .. })
    ));

    // Le gas n'a pas changé après l'erreur
    assert_eq!(meter.used(), 800);
}

#[test]
fn test_gas_meter_refund() {
    let mut meter = GasMeter::new(1000, 1);

    meter.consume(500).unwrap();
    assert_eq!(meter.used(), 500);

    meter.refund(200);
    assert_eq!(meter.used(), 300);
    assert_eq!(meter.remaining(), 700);
}

#[test]
fn test_gas_meter_total_cost() {
    let mut meter = GasMeter::new(1000, 10);

    meter.consume(500).unwrap();
    assert_eq!(meter.total_cost(), 5000);
}

#[test]
fn test_block_gas_meter() {
    let mut block_meter = BlockGasMeter::new(10000);

    // Ajoute une transaction de 3000 gas
    assert!(block_meter.can_fit_transaction(3000));
    assert!(block_meter.record_transaction(3000).is_ok());
    assert_eq!(block_meter.used(), 3000);

    // Ajoute une autre transaction de 5000 gas
    assert!(block_meter.can_fit_transaction(5000));
    assert!(block_meter.record_transaction(5000).is_ok());
    assert_eq!(block_meter.used(), 8000);

    // Essaie d'ajouter une transaction trop grande
    assert!(!block_meter.can_fit_transaction(3000));
    assert!(matches!(
        block_meter.record_transaction(3000),
        Err(GasError::BlockGasLimitExceeded { .. })
    ));

    // Le gas du bloc n'a pas changé
    assert_eq!(block_meter.used(), 8000);
}

#[test]
fn test_gas_costs_reasonable() {
    // Vérifier que les coûts sont cohérents
    assert!(costs::TRANSFER < costs::ACCOUNT_CREATE);
    assert!(costs::STORAGE_READ < costs::STORAGE_WRITE_NEW);
    assert!(costs::HASH_BLAKE3 < costs::VERIFY_SIGNATURE);
    assert!(costs::CONTRACT_CALL < costs::CONTRACT_CREATE);
}

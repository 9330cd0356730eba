use kratos_core::genesis::ChainConfig;

#[test]
fn test_mainnet_config() {
    let config = ChainConfig::mainnet();
    assert_eq!(config.chain_name, "KratOs");
    assert_eq!(config.chain_id, 0);
    assert_eq!(config.consensus.min_validators, 10);
}

#[test]
fn test_default_config() {
    let config = ChainConfig::default();
    assert_eq!(config.chain_name, "KratOs");
    assert_eq!(config.chain_id, 0);
}

use kratos_core::krat::{TokenomicsState, EMISSION_PERIOD_BLOCKS, INITIAL_SUPPLY};
use kratos_core::types::KRAT;

#[test]
fn test_genesis_state() {
    let state = TokenomicsState::genesis();
    assert_eq!(state.total_supply, INITIAL_SUPPLY);
    assert_eq!(state.total_minted, 0);
    assert_eq!(state.total_burned, 0);
}

#[test]
fn test_mint_and_burn() {
    let mut state = TokenomicsState::genesis();

    // Mint 1000 KRAT
    state.mint(1000 * KRAT, 100);
    assert_eq!(state.total_supply, INITIAL_SUPPLY + 1000 * KRAT);
    assert_eq!(state.total_minted, 1000 * KRAT);

    // Burn 500 KRAT
    state.burn(500 * KRAT);
    assert_eq!(state.total_supply, INITIAL_SUPPLY + 500 * KRAT);
    assert_eq!(state.total_burned, 500 * KRAT);
}

#[test]
fn test_emission_distribution() {
    let state = TokenomicsState::genesis();
    let minted = 1000 * KRAT;

    let dist = state.distribute_emission(minted);

    assert_eq!(dist.to_validators, 700 * KRAT);
    assert_eq!(dist.to_treasury, 200 * KRAT);
    assert_eq!(dist.to_reserve, 100 * KRAT);

    // Vérifie que la somme = total
    assert_eq!(
        dist.to_validators + dist.to_treasury + dist.to_reserve,
        minted
    );
}

#[test]
fn test_should_emit() {
    let mut state = TokenomicsState::genesis();
    state.last_emission_block = 0;

    // Pas encore le moment
    assert!(!state.should_emit(EMISSION_PERIOD_BLOCKS - 1));

    // Maintenant c'est le moment
    assert!(state.should_emit(EMISSION_PERIOD_BLOCKS));
    assert!(state.should_emit(EMISSION_PERIOD_BLOCKS + 1000));
}

#[test]
fn krat_calculate_emission_exact() {
    let state = TokenomicsState::genesis();
    // 1e9 KRAT * 5% * 30 / 365.
    assert_eq!(state.calculate_emission(500), 4_109_589_041_095_890_410);
    assert_eq!(state.calculate_emission(200), 1_643_835_616_438_356_164);
    // Rates outside [0.5%, 5%] are clamped.
    assert_eq!(state.calculate_emission(10_000), 4_109_589_041_095_890_410);
    assert_eq!(state.calculate_emission(10), 410_958_904_109_589_041);
}

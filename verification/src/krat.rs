//! The native KRAT token: supply accounting and emission split.
use crate::types::{sat_mul, spec_sat_add, spec_sat_mul, spec_sat_sub, Balance, BlockNumber, KRAT, MILLIKRAT};
use vstd::prelude::*;

verus! {

/// Initial supply: one billion KRAT.
pub const INITIAL_SUPPLY: Balance = 1_000_000_000 * KRAT;

/// Initial yearly emission rate in basis points (5%).
pub const INITIAL_EMISSION_RATE_BPS: u32 = 500;

/// Floor of the yearly emission rate (0.5%).
pub const MIN_EMISSION_RATE_BPS: u32 = 50;

/// Initial yearly burn rate (1%).
pub const INITIAL_BURN_RATE_BPS: u32 = 100;

/// Ceiling of the yearly burn rate (3.5%).
pub const MAX_BURN_RATE_BPS: u32 = 350;

/// Emission period in blocks (30 days of 6-second blocks).
pub const EMISSION_PERIOD_BLOCKS: BlockNumber = 432_000;

/// Minimum balance of an account (anti-spam).
pub const EXISTENTIAL_DEPOSIT: Balance = 1 * MILLIKRAT;

#[derive(Debug)]
pub struct TokenomicsState {
    pub total_supply: Balance,
    pub total_minted: Balance,
    pub total_burned: Balance,
    pub current_period: u64,
    pub last_emission_block: BlockNumber,
}

/// How a period's emission is split.
#[derive(Debug, Clone, Copy)]
pub struct EmissionDistribution {
    pub to_validators: Balance,
    pub to_treasury: Balance,
    pub to_reserve: Balance,
}

/// Emission of one period at rate `rate_bps` (clamped to the allowed range):
/// supply * rate * 30 / (10_000 * 365), with saturating products.
pub open spec fn spec_emission_for_rate(total_supply: u128, rate_bps: u32) -> u128 {
    let r = clamp_emission_rate(rate_bps);
    (spec_sat_mul(spec_sat_mul(total_supply, r as u128), 30) / 3_650_000) as u128
}

pub open spec fn clamp_emission_rate(rate_bps: u32) -> u32 {
    if rate_bps > INITIAL_EMISSION_RATE_BPS {
        INITIAL_EMISSION_RATE_BPS
    } else if rate_bps < MIN_EMISSION_RATE_BPS {
        MIN_EMISSION_RATE_BPS
    } else {
        rate_bps
    }
}

/// The split of `minted`: 70% to validators and 20% to the treasury (each
/// rounded down, on saturating products), the rest to the reserve.
pub open spec fn spec_distribution(minted: u128) -> (u128, u128, u128) {
    let v = (spec_sat_mul(minted, 70) / 100) as u128;
    let t = (spec_sat_mul(minted, 20) / 100) as u128;
    (v, t, spec_sat_sub(spec_sat_sub(minted, v), t))
}

impl TokenomicsState {
    pub fn genesis() -> (s: Self)
        ensures
            s.total_supply == INITIAL_SUPPLY,
            s.total_minted == 0,
            s.total_burned == 0,
            s.current_period == 0,
            s.last_emission_block == 0,
    {
        TokenomicsState {
            total_supply: INITIAL_SUPPLY,
            total_minted: 0,
            total_burned: 0,
            current_period: 0,
            last_emission_block: 0,
        }
    }

    /// Whether a full emission period has passed since the last emission.
    pub fn should_emit(&self, current_block: BlockNumber) -> (b: bool)
        requires
            self.last_emission_block + EMISSION_PERIOD_BLOCKS <= u64::MAX,
        ensures
            b == (current_block >= self.last_emission_block + EMISSION_PERIOD_BLOCKS),
    {
        current_block >= self.last_emission_block + EMISSION_PERIOD_BLOCKS
    }

    /// Emission of one 30-day period at the yearly rate `rate_bps` (the rate is
    /// clamped to [MIN_EMISSION_RATE_BPS, INITIAL_EMISSION_RATE_BPS]).
    pub fn calculate_emission(&self, rate_bps: u32) -> (r: Balance)
        ensures
            r == spec_emission_for_rate(self.total_supply, rate_bps),
    {
        let rate = if rate_bps > INITIAL_EMISSION_RATE_BPS {
            INITIAL_EMISSION_RATE_BPS
        } else if rate_bps < MIN_EMISSION_RATE_BPS {
            MIN_EMISSION_RATE_BPS
        } else {
            rate_bps
        };
        let numerator = sat_mul(sat_mul(self.total_supply, rate as u128), 30);
        let denominator: u128 = 10_000u128 * 365;
        numerator / denominator
    }

    /// Mints `amount` at `block` (saturating), opening the next period.
    pub fn mint(&mut self, amount: Balance, block: BlockNumber)
        requires
            old(self).current_period < u64::MAX,
        ensures
            final(self).total_supply == spec_sat_add(old(self).total_supply, amount),
            final(self).total_minted == spec_sat_add(old(self).total_minted, amount),
            final(self).total_burned == old(self).total_burned,
            final(self).last_emission_block == block,
            final(self).current_period == old(self).current_period + 1,
    {
        self.total_supply = self.total_supply.saturating_add(amount);
        self.total_minted = self.total_minted.saturating_add(amount);
        self.last_emission_block = block;
        self.current_period = self.current_period + 1;
    }

    /// Burns `amount` (saturating).
    pub fn burn(&mut self, amount: Balance)
        ensures
            final(self).total_supply == spec_sat_sub(old(self).total_supply, amount),
            final(self).total_burned == spec_sat_add(old(self).total_burned, amount),
            final(self).total_minted == old(self).total_minted,
            final(self).current_period == old(self).current_period,
            final(self).last_emission_block == old(self).last_emission_block,
    {
        self.total_supply = self.total_supply.saturating_sub(amount);
        self.total_burned = self.total_burned.saturating_add(amount);
    }

    /// Splits `minted` between validators (70%), treasury (20%) and reserve
    /// (the remainder); the three parts always add up to `minted`.
    pub fn distribute_emission(&self, minted: Balance) -> (d: EmissionDistribution)
        ensures
            (d.to_validators, d.to_treasury, d.to_reserve) == spec_distribution(minted),
            d.to_validators + d.to_treasury + d.to_reserve == minted,
    {
        let to_validators = sat_mul(minted, 70) / 100;
        let to_treasury = sat_mul(minted, 20) / 100;
        let to_reserve = minted.saturating_sub(to_validators).saturating_sub(to_treasury);
        proof {
            lemma_distribution_sums(minted);
        }
        EmissionDistribution { to_validators, to_treasury, to_reserve }
    }
}

/// The validator and treasury shares never exceed what was minted, so the
/// three shares add up to it exactly.
pub proof fn lemma_distribution_sums(minted: u128)
    ensures
        spec_distribution(minted).0 + spec_distribution(minted).1 <= minted,
        spec_distribution(minted).0 + spec_distribution(minted).1 + spec_distribution(minted).2
            == minted,
{
    let v = spec_distribution(minted).0;
    let t = spec_distribution(minted).1;
    if minted * 70 <= u128::MAX {
        assert(v + t <= minted) by (nonlinear_arith)
            requires
                v == (minted * 70) / 100,
                t == (minted * 20) / 100,
        ;
    } else if minted * 20 <= u128::MAX {
        assert(v + t <= minted) by (nonlinear_arith)
            requires
                v == u128::MAX / 100,
                t == (minted * 20) / 100,
                minted * 70 > u128::MAX,
        ;
    } else {
        assert(v + t <= minted) by (nonlinear_arith)
            requires
                v == u128::MAX / 100,
                t == u128::MAX / 100,
                minted * 20 > u128::MAX,
        ;
    }
}

} // verus!

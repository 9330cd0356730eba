//! Gas metering for transactions and blocks.
use crate::types::Balance;
use vstd::prelude::*;

pub mod costs;

verus! {

pub const GAS_UNIT: u64 = 1_000_000;

/// 10M gas per block.
pub const DEFAULT_BLOCK_GAS_LIMIT: u64 = 10_000_000 * GAS_UNIT;

/// 1M gas per transaction.
pub const DEFAULT_TRANSACTION_GAS_LIMIT: u64 = 1_000_000 * GAS_UNIT;

#[derive(Debug, Clone, PartialEq, Eq)]
pub enum GasError {
    OutOfGas { needed: u64, remaining: u64 },
    BlockGasLimitExceeded { limit: u64, used: u64 },
    Overflow,
    InvalidGasPrice,
    InvalidGasLimit,
}

/// Gas meter of one transaction.
#[derive(Debug)]
pub struct GasMeter {
    gas_limit: u64,
    gas_used: u64,
    /// Price in base units per unit of gas.
    gas_price: u64,
}

impl GasMeter {
    pub closed spec fn limit(&self) -> u64 {
        self.gas_limit
    }

    pub closed spec fn spec_used(&self) -> u64 {
        self.gas_used
    }

    pub closed spec fn price(&self) -> u64 {
        self.gas_price
    }

    pub fn new(gas_limit: u64, gas_price: u64) -> (m: Self)
        ensures
            m.limit() == gas_limit,
            m.spec_used() == 0,
            m.price() == gas_price,
    {
        GasMeter { gas_limit, gas_used: 0, gas_price }
    }

    /// A copy of this meter.
    pub fn duplicate(&self) -> (m: Self)
        ensures
            m == *self,
    {
        GasMeter { gas_limit: self.gas_limit, gas_used: self.gas_used, gas_price: self.gas_price }
    }

    /// Consumes `amount` gas. Fails, leaving the meter as it was, when the sum
    /// overflows or exceeds the limit.
    pub fn consume(&mut self, amount: u64) -> (r: Result<(), GasError>)
        requires
            // the error value reports `limit - used`, defined only while used <= limit
            old(self).spec_used() <= old(self).limit() || old(self).spec_used() + amount
                > u64::MAX,
        ensures
            final(self).limit() == old(self).limit(),
            final(self).price() == old(self).price(),
            old(self).spec_used() + amount > u64::MAX ==> r == Err::<(), GasError>(
                GasError::Overflow,
            ) && final(self).spec_used() == old(self).spec_used(),
            old(self).spec_used() + amount <= u64::MAX && old(self).spec_used() + amount > old(
                self,
            ).limit() ==> r == Err::<(), GasError>(
                GasError::OutOfGas {
                    needed: amount,
                    remaining: (old(self).limit() - old(self).spec_used()) as u64,
                },
            ) && final(self).spec_used() == old(self).spec_used(),
            old(self).spec_used() + amount <= old(self).limit() ==> r == Ok::<(), GasError>(())
                && final(self).spec_used() == old(self).spec_used() + amount,
    {
        let new_used = match self.gas_used.checked_add(amount) {
            Some(v) => v,
            None => return Err(GasError::Overflow),
        };
        if new_used > self.gas_limit {
            return Err(GasError::OutOfGas { needed: amount, remaining: self.gas_limit - self.gas_used });
        }
        self.gas_used = new_used;
        Ok(())
    }

    /// Consumes `amount` gas and hands back a refund ticket holding a copy of
    /// the meter after the consumption.
    pub fn consume_conditional(&mut self, amount: u64) -> (r: Result<GasRefund, GasError>)
        requires
            old(self).spec_used() <= old(self).limit() || old(self).spec_used() + amount
                > u64::MAX,
        ensures
            final(self).limit() == old(self).limit(),
            final(self).price() == old(self).price(),
            (old(self).spec_used() + amount <= old(self).limit()) == r.is_ok(),
            r.is_ok() ==> final(self).spec_used() == old(self).spec_used() + amount
                && r.unwrap().spec_amount() == amount && r.unwrap().spec_meter() == *final(self),
            r.is_err() ==> final(self).spec_used() == old(self).spec_used(),
    {
        self.consume(amount)?;
        Ok(GasRefund { amount, meter: self.duplicate() })
    }

    /// Gives back up to `amount` gas.
    pub fn refund(&mut self, amount: u64)
        ensures
            final(self).limit() == old(self).limit(),
            final(self).price() == old(self).price(),
            final(self).spec_used() == (if old(self).spec_used() >= amount {
                old(self).spec_used() - amount
            } else {
                0
            }),
    {
        self.gas_used = self.gas_used.saturating_sub(amount);
    }

    pub fn remaining(&self) -> (r: u64)
        ensures
            r == (if self.limit() >= self.spec_used() {
                self.limit() - self.spec_used()
            } else {
                0
            }),
    {
        self.gas_limit.saturating_sub(self.gas_used)
    }

    pub fn used(&self) -> (r: u64)
        ensures
            r == self.spec_used(),
    {
        self.gas_used
    }

    /// Cost in base units: gas used times price.
    pub fn total_cost(&self) -> (r: Balance)
        ensures
            r == self.spec_used() * self.price(),
    {
        assert((self.gas_used as u128) * (self.gas_price as u128) <= u128::MAX) by (nonlinear_arith)
            requires
                self.gas_used <= u64::MAX,
                self.gas_price <= u64::MAX,
        ;
        (self.gas_used as u128) * (self.gas_price as u128)
    }

    /// Checks that at least `amount` gas remains.
    pub fn check_available(&self, amount: u64) -> (r: Result<(), GasError>)
        ensures
            r.is_ok() == ((if self.limit() >= self.spec_used() {
                self.limit() - self.spec_used()
            } else {
                0
            }) >= amount),
            r.is_err() ==> r == Err::<(), GasError>(
                GasError::OutOfGas {
                    needed: amount,
                    remaining: (if self.limit() >= self.spec_used() {
                        self.limit() - self.spec_used()
                    } else {
                        0
                    }) as u64,
                },
            ),
    {
        let rem = self.remaining();
        if rem < amount {
            return Err(GasError::OutOfGas { needed: amount, remaining: rem });
        }
        Ok(())
    }

    pub fn reset(&mut self)
        ensures
            final(self).spec_used() == 0,
            final(self).limit() == old(self).limit(),
            final(self).price() == old(self).price(),
    {
        self.gas_used = 0;
    }

    pub fn set_limit(&mut self, new_limit: u64)
        ensures
            final(self).limit() == new_limit,
            final(self).spec_used() == old(self).spec_used(),
            final(self).price() == old(self).price(),
    {
        self.gas_limit = new_limit;
    }
}

/// A consumption that may still be given back. It holds its own copy of the
/// meter, so giving it back affects that copy only.
pub struct GasRefund {
    amount: u64,
    meter: GasMeter,
}

impl GasRefund {
    pub closed spec fn spec_amount(&self) -> u64 {
        self.amount
    }

    pub closed spec fn spec_meter(&self) -> GasMeter {
        self.meter
    }

    /// Keeps the consumption.
    pub fn commit(self) {
    }

    /// Gives the amount back to the ticket's copy of the meter and returns it.
    pub fn refund(self) -> (m: GasMeter)
        ensures
            m.limit() == self.spec_meter().limit(),
            m.price() == self.spec_meter().price(),
            m.spec_used() == (if self.spec_meter().spec_used() >= self.spec_amount() {
                self.spec_meter().spec_used() - self.spec_amount()
            } else {
                0
            }),
    {
        let mut m = self.meter;
        m.refund(self.amount);
        m
    }
}

/// Gas accounting of a whole block.
#[derive(Debug)]
pub struct BlockGasMeter {
    block_gas_limit: u64,
    block_gas_used: u64,
}

impl BlockGasMeter {
    pub closed spec fn limit(&self) -> u64 {
        self.block_gas_limit
    }

    pub closed spec fn spec_used(&self) -> u64 {
        self.block_gas_used
    }

    pub fn new(block_gas_limit: u64) -> (m: Self)
        ensures
            m.limit() == block_gas_limit,
            m.spec_used() == 0,
    {
        BlockGasMeter { block_gas_limit, block_gas_used: 0 }
    }

    /// Whether a transaction with this gas limit still fits in the block.
    pub fn can_fit_transaction(&self, tx_gas_limit: u64) -> (b: bool)
        requires
            self.spec_used() + tx_gas_limit <= u64::MAX,
        ensures
            b == (self.spec_used() + tx_gas_limit <= self.limit()),
    {
        self.block_gas_used + tx_gas_limit <= self.block_gas_limit
    }

    /// Adds a transaction's gas to the block; fails, leaving the meter as it
    /// was, on overflow or when the limit would be exceeded.
    pub fn record_transaction(&mut self, gas_used: u64) -> (r: Result<(), GasError>)
        ensures
            final(self).limit() == old(self).limit(),
            old(self).spec_used() + gas_used > u64::MAX ==> r == Err::<(), GasError>(
                GasError::Overflow,
            ),
            old(self).spec_used() + gas_used <= u64::MAX && old(self).spec_used() + gas_used
                > old(self).limit() ==> r == Err::<(), GasError>(
                GasError::BlockGasLimitExceeded {
                    limit: old(self).limit(),
                    used: (old(self).spec_used() + gas_used) as u64,
                },
            ),
            r.is_ok() == (old(self).spec_used() + gas_used <= old(self).limit()),
            r.is_ok() ==> final(self).spec_used() == old(self).spec_used() + gas_used,
            r.is_err() ==> final(self).spec_used() == old(self).spec_used(),
    {
        let new_total = match self.block_gas_used.checked_add(gas_used) {
            Some(v) => v,
            None => return Err(GasError::Overflow),
        };
        if new_total > self.block_gas_limit {
            return Err(GasError::BlockGasLimitExceeded { limit: self.block_gas_limit, used: new_total });
        }
        self.block_gas_used = new_total;
        Ok(())
    }

    pub fn remaining(&self) -> (r: u64)
        ensures
            r == (if self.limit() >= self.spec_used() {
                self.limit() - self.spec_used()
            } else {
                0
            }),
    {
        self.block_gas_limit.saturating_sub(self.block_gas_used)
    }

    pub fn used(&self) -> (r: u64)
        ensures
            r == self.spec_used(),
    {
        self.block_gas_used
    }
}

} // verus!

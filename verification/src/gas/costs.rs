//! Gas cost of each kind of operation.
use vstd::prelude::*;

verus! {

pub const TRANSFER: u64 = 21_000;

pub const BALANCE_READ: u64 = 100;

pub const BALANCE_WRITE: u64 = 5_000;

pub const ACCOUNT_CREATE: u64 = 25_000;

pub const STORAGE_READ: u64 = 200;

pub const STORAGE_WRITE_NEW: u64 = 20_000;

pub const STORAGE_WRITE_EXISTING: u64 = 5_000;

pub const STORAGE_DELETE: u64 = 5_000;

pub const HASH_BLAKE3: u64 = 60;

pub const VERIFY_SIGNATURE: u64 = 3_000;

pub const CONTRACT_CALL: u64 = 700;

pub const CONTRACT_CREATE: u64 = 32_000;

/// Per byte.
pub const CODE_COPY: u64 = 3;

/// Per instruction.
pub const CODE_EXECUTION: u64 = 1;

pub const MAX_TRANSACTION_GAS: u64 = 10_000_000;

pub const MAX_BLOCK_GAS: u64 = 100_000_000;

} // verus!

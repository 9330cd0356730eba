//! Base types shared by all contracts: balances, block numbers, 32-byte
//! account ids and hashes, chain ids.
use crate::vecmap::MapKey;
use vstd::prelude::*;

verus! {

broadcast use vstd::array::group_array_axioms;

pub type Balance = u128;

pub type BlockNumber = u64;

/// Smallest unit multiplier: 1 KRAT = 10^12 base units.
pub const KRAT: u128 = 1_000_000_000_000;

pub const MILLIKRAT: u128 = 1_000_000_000;

/// `a * b`, or `u128::MAX` when the product does not fit.
pub open spec fn spec_sat_mul(a: u128, b: u128) -> u128 {
    if a * b > u128::MAX {
        u128::MAX
    } else {
        (a * b) as u128
    }
}

pub fn sat_mul(a: u128, b: u128) -> (r: u128)
    ensures
        r == spec_sat_mul(a, b),
{
    match a.checked_mul(b) {
        Some(v) => v,
        None => u128::MAX,
    }
}

/// `a * b` on u64, or `u64::MAX` when the product does not fit.
pub open spec fn spec_sat_mul64(a: u64, b: u64) -> u64 {
    if a * b > u64::MAX {
        u64::MAX
    } else {
        (a * b) as u64
    }
}

pub fn sat_mul64(a: u64, b: u64) -> (r: u64)
    ensures
        r == spec_sat_mul64(a, b),
{
    match a.checked_mul(b) {
        Some(v) => v,
        None => u64::MAX,
    }
}

/// `a + b`, or `u128::MAX` when the sum does not fit.
pub open spec fn spec_sat_add(a: u128, b: u128) -> u128 {
    if a + b > u128::MAX {
        u128::MAX
    } else {
        (a + b) as u128
    }
}

/// `a - b`, or 0 when `b > a`.
pub open spec fn spec_sat_sub(a: u128, b: u128) -> u128 {
    if a >= b {
        (a - b) as u128
    } else {
        0
    }
}

/// Compares two 32-byte arrays.
pub fn bytes32_eq(a: &[u8; 32], b: &[u8; 32]) -> (r: bool)
    ensures
        r == (*a == *b),
{
    let mut i: usize = 0;
    while i < 32
        invariant
            i <= 32,
            forall|j: int| 0 <= j < i ==> a@[j] == b@[j],
        decreases 32 - i,
    {
        if a[i] != b[i] {
            return false;
        }
        i = i + 1;
    }
    assert(*a =~= *b);
    true
}

/// A 32-byte account identifier (a public key).
#[derive(Clone, Copy, Debug, PartialEq, Eq, Hash)]
pub struct AccountId {
    pub bytes: [u8; 32],
}

impl AccountId {
    pub fn from_bytes(bytes: [u8; 32]) -> (r: AccountId)
        ensures
            r.bytes == bytes,
    {
        AccountId { bytes }
    }

    pub fn as_bytes(&self) -> (r: &[u8; 32])
        ensures
            *r == self.bytes,
    {
        &self.bytes
    }
}

impl MapKey for AccountId {
    fn key_eq(&self, other: &Self) -> (b: bool) {
        bytes32_eq(&self.bytes, &other.bytes)
    }
}

/// A 32-byte digest.
#[derive(Clone, Copy, Debug, PartialEq, Eq, Hash)]
pub struct Hash {
    pub bytes: [u8; 32],
}

pub const FNV_OFFSET: u64 = 0xcbf29ce484222325;

pub const FNV_PRIME: u64 = 0x100000001b3;

/// One 64-bit FNV-1a lane over `data`, started from `seed`.
pub open spec fn fnv_lane(data: Seq<u8>, seed: u64) -> u64
    decreases data.len(),
{
    if data.len() == 0 {
        seed
    } else {
        ((fnv_lane(data.drop_last(), seed) ^ (data.last() as u64)) as u64).wrapping_mul(FNV_PRIME)
    }
}

/// Seed of lane `j` (0..4).
pub open spec fn lane_seed(j: u64) -> u64 {
    FNV_OFFSET ^ ((j * 0x9e3779b97f4a7c15u64) as u64)
}

/// Byte `k` (0..8) of `x`, little-endian.
pub open spec fn le_byte(x: u64, k: u64) -> u8 {
    ((x >> ((8 * k) as u64)) & 0xff) as u8
}

/// The digest of `data`: four FNV-1a lanes with distinct seeds, each written
/// little-endian.
pub open spec fn spec_hash_bytes(data: Seq<u8>) -> Seq<u8> {
    Seq::new(32, |i: int| le_byte(fnv_lane(data, lane_seed((i / 8) as u64)), (i % 8) as u64))
}

fn lane(data: &[u8], seed: u64) -> (r: u64)
    ensures
        r == fnv_lane(data@, seed),
{
    let mut h: u64 = seed;
    let mut i: usize = 0;
    while i < data.len()
        invariant
            i <= data@.len(),
            h == fnv_lane(data@.take(i as int), seed),
        decreases data@.len() - i,
    {
        proof {
            assert(data@.take(i + 1).drop_last() =~= data@.take(i as int));
            assert(data@.take(i + 1).last() == data@[i as int]);
        }
        h = (h ^ (data[i] as u64)).wrapping_mul(FNV_PRIME);
        i = i + 1;
    }
    assert(data@.take(data@.len() as int) =~= data@);
    h
}

fn byte_of(x: u64, k: u64) -> (r: u8)
    requires
        k < 8,
    ensures
        r == le_byte(x, k),
{
    ((x >> (8 * k)) & 0xff) as u8
}

impl Hash {
    pub fn from_bytes(bytes: [u8; 32]) -> (r: Hash)
        ensures
            r.bytes == bytes,
    {
        Hash { bytes }
    }

    pub fn as_bytes(&self) -> (r: &[u8; 32])
        ensures
            *r == self.bytes,
    {
        &self.bytes
    }

    /// The all-zero hash.
    pub fn zero() -> (r: Hash)
        ensures
            forall|i: int| 0 <= i < 32 ==> r.bytes@[i] == 0,
    {
        Hash { bytes: [0u8; 32] }
    }

    /// Digest of `data`.
    pub fn hash(data: &[u8]) -> (r: Hash)
        ensures
            r.bytes@ == spec_hash_bytes(data@),
    {
        let l0 = lane(data, FNV_OFFSET ^ 0u64);
        let l1 = lane(data, FNV_OFFSET ^ 0x9e3779b97f4a7c15u64);
        let l2 = lane(data, FNV_OFFSET ^ 0x3c6ef372fe94f82au64);
        let l3 = lane(data, FNV_OFFSET ^ 0xdaa66d2c7ddf743fu64);
        let bytes: [u8; 32] = [
            byte_of(l0, 0), byte_of(l0, 1), byte_of(l0, 2), byte_of(l0, 3),
            byte_of(l0, 4), byte_of(l0, 5), byte_of(l0, 6), byte_of(l0, 7),
            byte_of(l1, 0), byte_of(l1, 1), byte_of(l1, 2), byte_of(l1, 3),
            byte_of(l1, 4), byte_of(l1, 5), byte_of(l1, 6), byte_of(l1, 7),
            byte_of(l2, 0), byte_of(l2, 1), byte_of(l2, 2), byte_of(l2, 3),
            byte_of(l2, 4), byte_of(l2, 5), byte_of(l2, 6), byte_of(l2, 7),
            byte_of(l3, 0), byte_of(l3, 1), byte_of(l3, 2), byte_of(l3, 3),
            byte_of(l3, 4), byte_of(l3, 5), byte_of(l3, 6), byte_of(l3, 7),
        ];
        assert(lane_seed(0) == FNV_OFFSET ^ 0u64) by (bit_vector);
        assert(lane_seed(1) == FNV_OFFSET ^ 0x9e3779b97f4a7c15u64) by (bit_vector);
        assert(lane_seed(2) == FNV_OFFSET ^ 0x3c6ef372fe94f82au64) by (bit_vector);
        assert(lane_seed(3) == FNV_OFFSET ^ 0xdaa66d2c7ddf743fu64) by (bit_vector);
        assert(bytes@ =~= spec_hash_bytes(data@));
        Hash { bytes }
    }
}

impl MapKey for Hash {
    fn key_eq(&self, other: &Self) -> (b: bool) {
        bytes32_eq(&self.bytes, &other.bytes)
    }
}

/// Identifier of a chain (0 is the root chain).
#[derive(Clone, Copy, Debug, PartialEq, Eq, Hash)]
pub struct ChainId(pub u32);

impl MapKey for ChainId {
    fn key_eq(&self, other: &Self) -> (b: bool) {
        self.0 == other.0
    }
}

/// The 8 little-endian bytes of `x`.
pub open spec fn u64_le(x: u64) -> Seq<u8> {
    Seq::new(8, |k: int| ((x as int / pow256(k)) % 256) as u8)
}

pub open spec fn pow256(k: int) -> int
    decreases k,
{
    if k <= 0 {
        1
    } else {
        256 * pow256(k - 1)
    }
}

/// Appends the 8 little-endian bytes of `x` to `v`.
pub fn push_u64_le(v: &mut Vec<u8>, x: u64)
    ensures
        final(v)@ == old(v)@ + u64_le(x),
{
    let ghost start = v@;
    let mut y: u64 = x;
    let mut k: usize = 0;
    while k < 8
        invariant
            k <= 8,
            y as int == x as int / pow256(k as int),
            v@ == start + u64_le(x).take(k as int),
        decreases 8 - k,
    {
        proof {
            assert(pow256(k + 1) == 256 * pow256(k as int));
            assert(pow256(k as int) > 0) by {
                lemma_pow256_pos(k as int);
            }
            vstd::arithmetic::div_mod::lemma_div_denominator(x as int, pow256(k as int), 256);
        }
        v.push((y % 256) as u8);
        y = y / 256;
        k = k + 1;
        proof {
            assert(v@ =~= start + u64_le(x).take(k as int));
        }
    }
    proof {
        assert(u64_le(x).take(8) =~= u64_le(x));
    }
}

/// The 16 little-endian bytes of `x`.
pub open spec fn u128_le(x: u128) -> Seq<u8> {
    Seq::new(16, |k: int| ((x as int / pow256(k)) % 256) as u8)
}

/// Appends the 16 little-endian bytes of `x` to `v`.
pub fn push_u128_le(v: &mut Vec<u8>, x: u128)
    ensures
        final(v)@ == old(v)@ + u128_le(x),
{
    let ghost start = v@;
    let mut y: u128 = x;
    let mut k: usize = 0;
    while k < 16
        invariant
            k <= 16,
            y as int == x as int / pow256(k as int),
            v@ == start + u128_le(x).take(k as int),
        decreases 16 - k,
    {
        proof {
            assert(pow256(k + 1) == 256 * pow256(k as int));
            assert(pow256(k as int) > 0) by {
                lemma_pow256_pos(k as int);
            }
            vstd::arithmetic::div_mod::lemma_div_denominator(x as int, pow256(k as int), 256);
        }
        v.push((y % 256) as u8);
        y = y / 256;
        k = k + 1;
        proof {
            assert(v@ =~= start + u128_le(x).take(k as int));
        }
    }
    proof {
        assert(u128_le(x).take(16) =~= u128_le(x));
    }
}

proof fn lemma_pow256_pos(k: int)
    ensures
        pow256(k) > 0,
    decreases k,
{
    if k > 0 {
        lemma_pow256_pos(k - 1);
    }
}

/// Appends the 32 bytes of `a` to `v`.
pub fn push_bytes32(v: &mut Vec<u8>, a: &[u8; 32])
    ensures
        final(v)@ == old(v)@ + a@,
{
    let ghost start = v@;
    let mut i: usize = 0;
    while i < 32
        invariant
            i <= 32,
            v@ == start + a@.take(i as int),
        decreases 32 - i,
    {
        v.push(a[i]);
        i = i + 1;
        assert(v@ =~= start + a@.take(i as int));
    }
    assert(a@.take(32) =~= a@);
}

} // verus!

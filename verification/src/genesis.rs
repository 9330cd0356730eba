//! The chain's configuration and its genesis specification.
use vstd::prelude::*;
use crate::types::{AccountId, Balance, KRAT};
use crate::vecmap::MapKey;
use crate::krat::{TokenomicsState, INITIAL_SUPPLY, INITIAL_EMISSION_RATE_BPS, INITIAL_BURN_RATE_BPS};
use crate::vecmap::VecMap;

verus! {

/// Blocks in an epoch (one hour of 6-second slots).
pub const EPOCH_DURATION_BLOCKS: u64 = 600;

/// Seconds in a slot.
pub const SLOT_DURATION_SECS: u64 = 6;

/// The genesis timestamp, fixed so that every node computes the same
/// genesis: 2025-01-01 00:00:00 UTC.
pub const GENESIS_TIMESTAMP: u64 = 1735689600;

/// Stake of a validator in a custom genesis (50 000 KRAT).
pub const GENESIS_VALIDATOR_STAKE: Balance = 50_000 * KRAT;

/// Balance of a validator in a custom genesis (1 000 000 KRAT).
pub const GENESIS_VALIDATOR_BALANCE: Balance = 1_000_000 * KRAT;

#[derive(Debug, Clone)]
pub struct ConsensusConfig {
    /// Blocks per epoch.
    pub epoch_duration: u64,
    /// Seconds per slot.
    pub slot_duration: u64,
    pub min_validators: usize,
    pub max_validators: usize,
}

#[derive(Debug, Clone)]
pub struct NetworkConfig {
    /// P2P listening port.
    pub listen_port: u16,
    pub bootnodes: Vec<String>,
    pub protocol_name: String,
    pub protocol_version: u32,
}

#[derive(Debug, Clone, Copy)]
pub struct TokenomicsConfig {
    pub initial_supply: u128,
    /// Basis points.
    pub initial_emission_rate: u32,
    /// Basis points.
    pub initial_burn_rate: u32,
}

/// The configuration of a chain: consensus, network and tokenomics.
#[derive(Debug, Clone)]
pub struct ChainConfig {
    pub chain_name: String,
    /// 0 is the root chain.
    pub chain_id: u32,
    pub consensus: ConsensusConfig,
    pub network: NetworkConfig,
    pub tokenomics: TokenomicsConfig,
}

impl ChainConfig {
    /// The one configuration of the KratOs root chain.
    pub fn mainnet() -> (c: ChainConfig)
        ensures
            c.chain_name@ == "KratOs"@,
            c.chain_id == 0,
            c.consensus.epoch_duration == EPOCH_DURATION_BLOCKS,
            c.consensus.slot_duration == SLOT_DURATION_SECS,
            c.consensus.min_validators == 10,
            c.consensus.max_validators == 1000,
            c.network.listen_port == 30333,
            c.network.bootnodes@.len() == 0,
            c.network.protocol_name@ == "/kratos/1.0.0"@,
            c.network.protocol_version == 1,
            c.tokenomics.initial_supply == INITIAL_SUPPLY,
            c.tokenomics.initial_emission_rate == INITIAL_EMISSION_RATE_BPS,
            c.tokenomics.initial_burn_rate == INITIAL_BURN_RATE_BPS,
    {
        ChainConfig {
            chain_name: "KratOs".to_owned(),
            chain_id: 0,
            consensus: ConsensusConfig {
                epoch_duration: EPOCH_DURATION_BLOCKS,
                slot_duration: SLOT_DURATION_SECS,
                min_validators: 10,
                max_validators: 1000,
            },
            network: NetworkConfig {
                listen_port: 30333,
                bootnodes: Vec::new(),
                protocol_name: "/kratos/1.0.0".to_owned(),
                protocol_version: 1,
            },
            tokenomics: TokenomicsConfig {
                initial_supply: INITIAL_SUPPLY,
                initial_emission_rate: INITIAL_EMISSION_RATE_BPS,
                initial_burn_rate: INITIAL_BURN_RATE_BPS,
            },
        }
    }
}

impl Default for ChainConfig {
    fn default() -> (c: ChainConfig)
        ensures
            c.chain_name@ == "KratOs"@,
            c.chain_id == 0,
            c.consensus.min_validators == 10,
    {
        Self::mainnet()
    }
}

/// A validator of the genesis block.
#[derive(Debug, Clone, Copy)]
pub struct GenesisValidator {
    pub account: AccountId,
    pub stake: Balance,
    /// The bootstrap validator holds no stake and produces blocks during
    /// the bootstrap era by constitutional exception.
    pub is_bootstrap_validator: bool,
}

/// What the genesis block starts from.
pub struct GenesisSpec {
    pub timestamp: u64,
    /// Initial balances.
    pub balances: VecMap<AccountId, Balance>,
    pub validators: Vec<GenesisValidator>,
    pub tokenomics: TokenomicsState,
}

/// The bootstrap validator of the root chain.
pub open spec fn bootstrap_account() -> AccountId {
    AccountId {
        bytes: [
            0x9a, 0x0c, 0x70, 0x3c, 0x57, 0x2e, 0x8d, 0x17,
            0x0c, 0x32, 0xad, 0x0d, 0xb9, 0xc9, 0x53, 0xd2,
            0x56, 0x5e, 0xfc, 0x3e, 0xd5, 0x85, 0xed, 0x57,
            0xda, 0x96, 0x37, 0x65, 0x5a, 0xbf, 0x78, 0xb8,
        ],
    }
}

impl GenesisSpec {
    /// The root chain's genesis: no balances, and the bootstrap validator
    /// alone, with no stake.
    pub fn mainnet() -> (g: GenesisSpec)
        ensures
            g.timestamp == GENESIS_TIMESTAMP,
            g.balances.wf(),
            g.balances@ == Map::<AccountId, Balance>::empty(),
            g.validators@ == seq![
                GenesisValidator { account: bootstrap_account(), stake: 0, is_bootstrap_validator: true },
            ],
    {
        let bootstrap_validator = AccountId::from_bytes(
            [
                0x9a, 0x0c, 0x70, 0x3c, 0x57, 0x2e, 0x8d, 0x17,
                0x0c, 0x32, 0xad, 0x0d, 0xb9, 0xc9, 0x53, 0xd2,
                0x56, 0x5e, 0xfc, 0x3e, 0xd5, 0x85, 0xed, 0x57,
                0xda, 0x96, 0x37, 0x65, 0x5a, 0xbf, 0x78, 0xb8,
            ],
        );
        let mut validators: Vec<GenesisValidator> = Vec::new();
        validators.push(
            GenesisValidator { account: bootstrap_validator, stake: 0, is_bootstrap_validator: true },
        );
        let g = GenesisSpec {
            timestamp: GENESIS_TIMESTAMP,
            balances: VecMap::new(),
            validators,
            tokenomics: TokenomicsState::genesis(),
        };
        proof {
            assert(g.validators@ =~= seq![
                GenesisValidator { account: bootstrap_account(), stake: 0, is_bootstrap_validator: true },
            ]);
        }
        g
    }

    /// A genesis whose one validator is `validator_account`, funded with
    /// GENESIS_VALIDATOR_BALANCE and staking GENESIS_VALIDATOR_STAKE.
    pub fn with_validator(validator_account: AccountId) -> (g: GenesisSpec)
        ensures
            g.timestamp == GENESIS_TIMESTAMP,
            g.balances.wf(),
            g.balances@ == Map::<AccountId, Balance>::empty().insert(validator_account, GENESIS_VALIDATOR_BALANCE),
            g.validators@ == seq![
                GenesisValidator {
                    account: validator_account,
                    stake: GENESIS_VALIDATOR_STAKE,
                    is_bootstrap_validator: false,
                },
            ],
    {
        let mut balances: VecMap<AccountId, Balance> = VecMap::new();
        balances.insert(validator_account, GENESIS_VALIDATOR_BALANCE);
        let mut validators: Vec<GenesisValidator> = Vec::new();
        validators.push(
            GenesisValidator {
                account: validator_account,
                stake: GENESIS_VALIDATOR_STAKE,
                is_bootstrap_validator: false,
            },
        );
        let g = GenesisSpec { timestamp: GENESIS_TIMESTAMP, balances, validators, tokenomics: TokenomicsState::genesis() };
        proof {
            assert(g.validators@ =~= seq![
                GenesisValidator {
                    account: validator_account,
                    stake: GENESIS_VALIDATOR_STAKE,
                    is_bootstrap_validator: false,
                },
            ]);
        }
        g
    }
}

impl Default for GenesisSpec {
    fn default() -> (g: GenesisSpec)
        ensures
            g.timestamp == GENESIS_TIMESTAMP,
            g.balances@ == Map::<AccountId, Balance>::empty(),
    {
        Self::mainnet()
    }
}

/// The balance of an account: free, and reserved (staked).
#[derive(Debug, Clone, Copy, PartialEq, Eq)]
pub struct AccountInfo {
    pub free: Balance,
    pub reserved: Balance,
}

impl AccountInfo {
    pub fn new() -> (a: AccountInfo)
        ensures
            a == (AccountInfo { free: 0, reserved: 0 }),
    {
        AccountInfo { free: 0, reserved: 0 }
    }

    pub open spec fn can_reserve(&self, amount: Balance) -> bool {
        self.free >= amount && self.reserved + amount <= u128::MAX
    }

    /// Moves `amount` from free to reserved.
    pub fn reserve(&mut self, amount: Balance) -> (r: Result<(), String>)
        ensures
            r is Ok <==> old(self).can_reserve(amount),
            r is Ok ==> *final(self) == (AccountInfo {
                free: (old(self).free - amount) as Balance,
                reserved: (old(self).reserved + amount) as Balance,
            }),
            r is Err ==> *final(self) == *old(self),
            r matches Err(e) ==> e@ == "insufficient free balance to reserve"@,
    {
        if self.free < amount || self.reserved > u128::MAX - amount {
            return Err("insufficient free balance to reserve".to_owned());
        }
        self.free = self.free - amount;
        self.reserved = self.reserved + amount;
        Ok(())
    }
}

/// The header of the genesis block, but for its state root, which the
/// storage computes from the accounts.
#[derive(Debug, Clone, Copy, PartialEq, Eq)]
pub struct GenesisHeader {
    pub number: u64,
    pub parent_hash: crate::types::Hash,
    pub transactions_root: crate::types::Hash,
    pub timestamp: u64,
    pub epoch: u64,
    pub slot: u64,
    /// Nobody authors the genesis block.
    pub author: AccountId,
}

pub open spec fn is_zero_bytes(b: [u8; 32]) -> bool {
    forall|i: int| 0 <= i < 32 ==> b@[i] == 0
}

/// `h` heads a genesis block made at `timestamp`: number, epoch and slot 0,
/// no parent, no transactions, no author.
pub open spec fn is_genesis_header(h: GenesisHeader, timestamp: u64) -> bool {
    &&& h.number == 0
    &&& is_zero_bytes(h.parent_hash.bytes)
    &&& is_zero_bytes(h.transactions_root.bytes)
    &&& h.timestamp == timestamp
    &&& h.epoch == 0
    &&& h.slot == 0
    &&& is_zero_bytes(h.author.bytes)
}

/// The accounts once the genesis balances are set: each funded account
/// holds its balance, free, and nothing reserved.
pub open spec fn funded(accounts: Map<AccountId, AccountInfo>, balances: Map<AccountId, Balance>) -> Map<
    AccountId,
    AccountInfo,
> {
    Map::new(
        |k: AccountId| accounts.contains_key(k) || balances.contains_key(k),
        |k: AccountId|
            if balances.contains_key(k) {
                AccountInfo { free: balances[k], reserved: 0 }
            } else {
                accounts[k]
            },
    )
}

/// The accounts after seating `v`, or `None` when it cannot be seated: a
/// bootstrap validator gets an empty account if it has none; any other
/// must have an account able to reserve its stake, and reserves it.
pub open spec fn seat_step(acc: Map<AccountId, AccountInfo>, v: GenesisValidator) -> Option<Map<AccountId, AccountInfo>> {
    if v.is_bootstrap_validator {
        Some(
            if acc.contains_key(v.account) {
                acc
            } else {
                acc.insert(v.account, AccountInfo { free: 0, reserved: 0 })
            },
        )
    } else if acc.contains_key(v.account) && acc[v.account].can_reserve(v.stake) {
        Some(
            acc.insert(
                v.account,
                AccountInfo {
                    free: (acc[v.account].free - v.stake) as Balance,
                    reserved: (acc[v.account].reserved + v.stake) as Balance,
                },
            ),
        )
    } else {
        None
    }
}

/// Seats the first `n` validators in order, stopping at the first that
/// cannot be seated: the accounts reached, and whether all were seated.
pub open spec fn seat_upto(acc: Map<AccountId, AccountInfo>, vs: Seq<GenesisValidator>, n: int) -> (Map<
    AccountId,
    AccountInfo,
>, bool)
    decreases n,
{
    if n <= 0 {
        (acc, true)
    } else {
        let prev = seat_upto(acc, vs, n - 1);
        if !prev.1 {
            prev
        } else {
            match seat_step(prev.0, vs[n - 1]) {
                Some(m) => (m, true),
                None => (prev.0, false),
            }
        }
    }
}

proof fn lemma_seat_failure_stays(acc: Map<AccountId, AccountInfo>, vs: Seq<GenesisValidator>, j: int, n: int)
    requires
        0 <= j <= n,
        !seat_upto(acc, vs, j).1,
    ensures
        seat_upto(acc, vs, n) == seat_upto(acc, vs, j),
    decreases n - j,
{
    if n > j {
        lemma_seat_failure_stays(acc, vs, j, n - 1);
    }
}

/// The index of the validator at which seating the first `n` stopped,
/// or -1 when all of them were seated.
pub open spec fn failed_at(acc: Map<AccountId, AccountInfo>, vs: Seq<GenesisValidator>, n: int) -> int
    decreases n,
{
    if n <= 0 {
        -1
    } else {
        let p = failed_at(acc, vs, n - 1);
        if p >= 0 {
            p
        } else if seat_step(seat_upto(acc, vs, n - 1).0, vs[n - 1]) is None {
            n - 1
        } else {
            -1
        }
    }
}

proof fn lemma_failed_at_none(acc: Map<AccountId, AccountInfo>, vs: Seq<GenesisValidator>, n: int)
    requires
        seat_upto(acc, vs, n).1,
    ensures
        failed_at(acc, vs, n) == -1,
    decreases n,
{
    if n > 0 {
        lemma_failed_at_none(acc, vs, n - 1);
    }
}

proof fn lemma_failed_at_stays(acc: Map<AccountId, AccountInfo>, vs: Seq<GenesisValidator>, j: int, n: int)
    requires
        0 <= j < n,
        seat_upto(acc, vs, j).1,
        seat_step(seat_upto(acc, vs, j).0, vs[j]) is None,
    ensures
        failed_at(acc, vs, n) == j,
    decreases n - j,
{
    if n == j + 1 {
        lemma_failed_at_none(acc, vs, j);
    } else {
        lemma_failed_at_stays(acc, vs, j, n - 1);
    }
}

/// How an account id prints in a message (its `Debug` form).
pub uninterp spec fn account_debug_text(a: AccountId) -> Seq<char>;

/// The `Debug` rendering of `a`, through `format!`. The text depends on
/// the id alone.
#[verifier::external_body]
fn account_debug(a: &AccountId) -> (r: String)
    ensures
        r@ == account_debug_text(*a),
{
    format!("{:?}", a)
}

/// The message for a validator whose account does not exist.
pub open spec fn missing_account_text(a: AccountId) -> Seq<char> {
    "Compte validateur "@ + account_debug_text(a) + " non trouvé"@
}

/// The message for a stake that cannot be reserved: the reserve error in
/// its `Debug` form (quoted).
pub open spec fn reserve_failure_text() -> Seq<char> {
    "Impossible de réserver le stake: \""@ + "insufficient free balance to reserve"@ + "\""@
}

/// The message with which seating the validators `vs` on `acc` fails.
pub open spec fn seat_failure_text(acc: Map<AccountId, AccountInfo>, vs: Seq<GenesisValidator>) -> Seq<char> {
    let f = failed_at(acc, vs, vs.len() as int);
    let v = vs[f];
    if !seat_upto(acc, vs, f).0.contains_key(v.account) {
        missing_account_text(v.account)
    } else {
        reserve_failure_text()
    }
}

/// The validator-set entry of a seated genesis validator: a bootstrap
/// validator enters with no stake.
pub open spec fn seated_entry(v: GenesisValidator) -> GenesisValidator {
    GenesisValidator {
        account: v.account,
        stake: if v.is_bootstrap_validator {
            0
        } else {
            v.stake
        },
        is_bootstrap_validator: v.is_bootstrap_validator,
    }
}

/// Builds the genesis block from a specification.
pub struct GenesisBuilder {
    pub spec: GenesisSpec,
}

impl GenesisBuilder {
    pub fn new(spec: GenesisSpec) -> (b: GenesisBuilder)
        ensures
            b.spec == spec,
    {
        GenesisBuilder { spec }
    }

    /// Sets the genesis balances in `accounts`, then seats the validators
    /// in order: the bootstrap validator with no stake (and an empty
    /// account if it has none), every other one reserving its stake from
    /// its account. Fails at the first validator without an account or
    /// without the free balance for its stake, the accounts then holding
    /// what was done before it. Returns the genesis header and the
    /// validator set.
    pub fn build(self, accounts: &mut VecMap<AccountId, AccountInfo>) -> (r: Result<
        (GenesisHeader, Vec<GenesisValidator>),
        String,
    >)
        requires
            old(accounts).wf(),
            self.spec.balances.wf(),
        ensures
            final(accounts).wf(),
            final(accounts)@ == seat_upto(
                funded(old(accounts)@, self.spec.balances@),
                self.spec.validators@,
                self.spec.validators@.len() as int,
            ).0,
            r is Ok <==> seat_upto(
                funded(old(accounts)@, self.spec.balances@),
                self.spec.validators@,
                self.spec.validators@.len() as int,
            ).1,
            r matches Ok(out) ==> is_genesis_header(out.0, self.spec.timestamp) && out.1@
                == self.spec.validators@.map_values(|v: GenesisValidator| seated_entry(v)),
            r matches Err(msg) ==> msg@ == seat_failure_text(
                funded(old(accounts)@, self.spec.balances@),
                self.spec.validators@,
            ),
    {
        let ghost start = accounts@;
        let ghost bals = self.spec.balances@;
        let ghost keys = self.spec.balances.key_seq();
        proof {
            self.spec.balances.lemma_wf();
        }
        let n = self.spec.balances.len();
        let mut i: usize = 0;
        while i < n
            invariant
                accounts.wf(),
                self.spec.balances.wf(),
                bals == self.spec.balances@,
                keys == self.spec.balances.key_seq(),
                n == keys.len(),
                i <= n,
                forall|q: int| 0 <= q < n ==> #[trigger] bals.contains_key(keys[q]),
                forall|k: AccountId| #[trigger]
                    accounts@.contains_key(k) == (start.contains_key(k) || keys.take(i as int).contains(k)),
                forall|k: AccountId| #[trigger]
                    accounts@.contains_key(k) ==> accounts@[k] == if keys.take(i as int).contains(k) {
                        AccountInfo { free: bals[k], reserved: 0 }
                    } else {
                        start[k]
                    },
            decreases n - i,
        {
            proof {
                self.spec.balances.lemma_wf();
            }
            let k = *self.spec.balances.key_at(i);
            let b = *self.spec.balances.val_at(i);
            accounts.insert(k, AccountInfo { free: b, reserved: 0 });
            proof {
                assert forall|x: AccountId| keys.take(i + 1).contains(x) == (keys.take(i as int).contains(x)
                    || x == k) by {
                    let t1 = keys.take(i + 1);
                    let t0 = keys.take(i as int);
                    if t1.contains(x) {
                        let w = choose|w: int| 0 <= w < t1.len() && t1[w] == x;
                        if w < i {
                            assert(t0[w] == x);
                        }
                    }
                    if t0.contains(x) {
                        let w = choose|w: int| 0 <= w < t0.len() && t0[w] == x;
                        assert(t1[w] == x);
                    }
                    if x == k {
                        assert(t1[i as int] == x);
                    }
                }
            }
            i = i + 1;
        }
        let ghost base = funded(start, bals);
        proof {
            assert(keys.take(n as int) =~= keys);
            assert forall|k: AccountId| bals.contains_key(k) implies keys.contains(k) by {
                let w = choose|w: int| 0 <= w < keys.len() && keys[w] == k;
            }
            assert(accounts@ =~= base);
        }
        let ghost vs = self.spec.validators@;
        let m = self.spec.validators.len();
        let mut out: Vec<GenesisValidator> = Vec::new();
        let mut j: usize = 0;
        while j < m
            invariant
                accounts.wf(),
                vs == self.spec.validators@,
                base == funded(old(accounts)@, self.spec.balances@),
                m == vs.len(),
                j <= m,
                seat_upto(base, vs, j as int).1,
                accounts@ == seat_upto(base, vs, j as int).0,
                out@ == vs.take(j as int).map_values(|v: GenesisValidator| seated_entry(v)),
            decreases m - j,
        {
            let v = self.spec.validators[j];
            proof {
                assert(vs.take(j + 1).map_values(|v: GenesisValidator| seated_entry(v)) =~= vs.take(
                    j as int,
                ).map_values(|v: GenesisValidator| seated_entry(v)).push(seated_entry(v)));
            }
            if v.is_bootstrap_validator {
                if !accounts.contains_key(&v.account) {
                    accounts.insert(v.account, AccountInfo::new());
                }
                out.push(GenesisValidator { account: v.account, stake: 0, is_bootstrap_validator: true });
            } else {
                let mut info = match accounts.get(&v.account) {
                    Some(info) => *info,
                    None => {
                        proof {
                            lemma_seat_failure_stays(base, vs, j + 1, m as int);
                            lemma_failed_at_stays(base, vs, j as int, m as int);
                        }
                        let shown = account_debug(&v.account);
                        let msg = "Compte validateur ".to_owned().concat(shown.as_str()).concat(" non trouvé");
                        return Err(msg);
                    },
                };
                match info.reserve(v.stake) {
                    Ok(()) => {},
                    Err(e) => {
                        proof {
                            lemma_seat_failure_stays(base, vs, j + 1, m as int);
                            lemma_failed_at_stays(base, vs, j as int, m as int);
                        }
                        let msg = "Impossible de réserver le stake: \"".to_owned().concat(e.as_str()).concat("\"");
                        return Err(msg);
                    },
                }
                accounts.insert(v.account, info);
                out.push(GenesisValidator { account: v.account, stake: v.stake, is_bootstrap_validator: false });
            }
            j = j + 1;
        }
        proof {
            assert(vs.take(m as int) =~= vs);
        }
        let zero: [u8; 32] = [0u8; 32];
        proof {
            assert(is_zero_bytes(zero));
        }
        let header = GenesisHeader {
            number: 0,
            parent_hash: crate::types::Hash::zero(),
            transactions_root: crate::types::Hash::zero(),
            timestamp: self.spec.timestamp,
            epoch: 0,
            slot: 0,
            author: AccountId::from_bytes(zero),
        };
        Ok((header, out))
    }
}

} // verus!

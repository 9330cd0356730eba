//! Registry of sidechains and hostchains: creation under a security mode,
//! affiliation, validator assignment, and the purge state machine with its
//! withdrawal paths.
use crate::dispute::FraudSeverity;
use crate::merkle::MerkleProof;
use crate::types::{sat_mul64, spec_sat_mul64, AccountId, Balance, BlockNumber, ChainId};
use crate::vecmap::{agree_except, vec_contains, vec_copy, vec_without, MapKey, VecMap};
use vstd::prelude::*;

verus! {

/// Inactivity before a chain may be purged: 90 days.
pub const INACTIVITY_THRESHOLD: BlockNumber = 1_296_000;

/// Minimum spacing of automatic purge checks: 6 hours.
pub const PURGE_CHECK_INTERVAL: BlockNumber = 3_600;

/// Inactivity purge trigger: 90 days.
pub const INACTIVITY_THRESHOLD_V3_1: BlockNumber = 1_296_000;

/// Consecutive failed votes that trigger a purge.
pub const GOVERNANCE_FAILURE_THRESHOLD: u32 = 3;

/// Share of slashed validators (percent) that triggers a purge.
pub const VALIDATOR_FRAUD_THRESHOLD_PERCENT: usize = 33;

/// Warning period before a purging chain freezes: 30 days.
pub const PURGE_WARNING_PERIOD: BlockNumber = 432_000;

/// Withdrawal window of a purged chain: 30 days.
pub const WITHDRAWAL_WINDOW_DURATION: BlockNumber = 432_000;

/// Deposit of an Inherited chain, and per member of a Shared host.
pub const BASE_DEPOSIT: Balance = 1_000;

/// Deposit of a Sovereign chain.
pub const SOVEREIGN_DEPOSIT: Balance = 10_000;

#[derive(Debug, Clone, Copy, PartialEq, Eq, Structural)]
pub enum SecurityMode {
    /// Validators copied from the parent chain.
    Inherited,
    /// Validators taken from a hostchain's pool.
    Shared,
    /// The chain manages its own validators.
    Sovereign,
}

#[derive(Debug, Clone, Copy, PartialEq, Eq, Structural)]
pub enum ChainStatus {
    Active,
    Inactive,
    PendingPurge,
    Frozen,
    Snapshot,
    WithdrawalWindow,
    Purged,
}

#[derive(Debug, Clone, Copy, PartialEq, Eq, Structural)]
pub enum PurgeTrigger {
    Inactivity,
    GovernanceFailure,
    ValidatorFraud,
    SecurityInsolvency,
    StateDivergence,
}

/// Errors of the per-chain records.
#[derive(Debug, Clone, Copy, PartialEq, Eq, Structural)]
pub enum ChainTypeError {
    ValidatorAlreadyPresent,
    ValidatorNotFound,
    MemberAlreadyPresent,
    MemberNotFound,
}

pub open spec fn spec_calculate_deposit(mode: SecurityMode, member_count: usize) -> Balance {
    match mode {
        SecurityMode::Inherited => BASE_DEPOSIT,
        SecurityMode::Shared => (BASE_DEPOSIT * member_count) as u128,
        SecurityMode::Sovereign => SOVEREIGN_DEPOSIT,
    }
}

/// Deposit required to create a chain in `mode`; for Shared it grows with
/// the host's member count.
pub fn calculate_deposit(mode: SecurityMode, member_count: usize) -> (d: Balance)
    ensures
        d == spec_calculate_deposit(mode, member_count),
{
    match mode {
        SecurityMode::Inherited => BASE_DEPOSIT,
        SecurityMode::Shared => BASE_DEPOSIT * (member_count as u128),
        SecurityMode::Sovereign => SOVEREIGN_DEPOSIT,
    }
}

#[derive(Debug, Clone)]
pub struct SidechainInfo {
    pub id: ChainId,
    pub parent: Option<ChainId>,
    pub owner: AccountId,
    pub name: Option<String>,
    pub description: Option<String>,
    pub security_mode: SecurityMode,
    pub deposit: Balance,
    pub created_at: BlockNumber,
    pub last_activity: BlockNumber,
    pub status: ChainStatus,
    pub validators: Vec<AccountId>,
    pub governance_failures: u32,
    pub slashed_validators_count: usize,
    pub purge_triggered_at: Option<BlockNumber>,
    pub purge_trigger: Option<PurgeTrigger>,
    pub frozen_at: Option<BlockNumber>,
    pub snapshot_at: Option<BlockNumber>,
    pub snapshot_state_root: Option<crate::types::Hash>,
    pub last_verified_state_root: Option<crate::types::Hash>,
    pub withdrawal_window_start: Option<BlockNumber>,
    pub state_divergence_detected_at: Option<BlockNumber>,
    pub withdrawn_accounts: Vec<AccountId>,
}

impl SidechainInfo {
    pub open spec fn is_fresh(
        &self,
        id: ChainId,
        parent: Option<ChainId>,
        owner: AccountId,
        name: Option<String>,
        description: Option<String>,
        security_mode: SecurityMode,
        deposit: Balance,
        block: BlockNumber,
    ) -> bool {
        &&& self.id == id
        &&& self.parent == parent
        &&& self.owner == owner
        &&& self.name == name
        &&& self.description == description
        &&& self.security_mode == security_mode
        &&& self.deposit == deposit
        &&& self.created_at == block
        &&& self.last_activity == block
        &&& self.status == ChainStatus::Active
        &&& self.governance_failures == 0
        &&& self.slashed_validators_count == 0
        &&& self.purge_triggered_at is None
        &&& self.purge_trigger is None
        &&& self.frozen_at is None
        &&& self.snapshot_at is None
        &&& self.snapshot_state_root is None
        &&& self.last_verified_state_root is None
        &&& self.withdrawal_window_start is None
        &&& self.state_divergence_detected_at is None
        &&& self.withdrawn_accounts@ == Seq::<AccountId>::empty()
    }

    pub fn new(
        id: ChainId,
        parent: Option<ChainId>,
        owner: AccountId,
        name: Option<String>,
        description: Option<String>,
        security_mode: SecurityMode,
        deposit: Balance,
        block: BlockNumber,
    ) -> (s: Self)
        ensures
            s.is_fresh(id, parent, owner, name, description, security_mode, deposit, block),
            s.validators@ == Seq::<AccountId>::empty(),
    {
        SidechainInfo {
            id,
            parent,
            owner,
            name,
            description,
            security_mode,
            deposit,
            created_at: block,
            last_activity: block,
            status: ChainStatus::Active,
            validators: Vec::new(),
            governance_failures: 0,
            slashed_validators_count: 0,
            purge_triggered_at: None,
            purge_trigger: None,
            frozen_at: None,
            snapshot_at: None,
            snapshot_state_root: None,
            last_verified_state_root: None,
            withdrawal_window_start: None,
            state_divergence_detected_at: None,
            withdrawn_accounts: Vec::new(),
        }
    }

    pub fn record_activity(&mut self, block: BlockNumber)
        ensures
            *final(self) == (SidechainInfo { last_activity: block, ..*old(self) }),
    {
        self.last_activity = block;
    }

    pub open spec fn spec_is_inactive(&self, current_block: BlockNumber, threshold: BlockNumber) -> bool {
        (if current_block >= self.last_activity {
            current_block - self.last_activity
        } else {
            0
        }) >= threshold
    }

    /// At least `threshold` blocks since the last activity.
    pub fn is_inactive(&self, current_block: BlockNumber, threshold: BlockNumber) -> (b: bool)
        ensures
            b == self.spec_is_inactive(current_block, threshold),
    {
        current_block.saturating_sub(self.last_activity) >= threshold
    }

    pub fn add_validator(&mut self, validator: AccountId) -> (r: Result<(), ChainTypeError>)
        ensures
            old(self).validators@.contains(validator) ==> r == Err::<(), ChainTypeError>(
                ChainTypeError::ValidatorAlreadyPresent,
            ) && *final(self) == *old(self),
            !old(self).validators@.contains(validator) ==> r == Ok::<(), ChainTypeError>(())
                && final(self).validators@ == old(self).validators@.push(validator) && *final(self)
                == (SidechainInfo { validators: final(self).validators, ..*old(self) }),
    {
        if vec_contains(&self.validators, &validator) {
            return Err(ChainTypeError::ValidatorAlreadyPresent);
        }
        self.validators.push(validator);
        Ok(())
    }

    pub fn remove_validator(&mut self, validator: &AccountId) -> (r: Result<(), ChainTypeError>)
        ensures
            !old(self).validators@.contains(*validator) ==> r == Err::<(), ChainTypeError>(
                ChainTypeError::ValidatorNotFound,
            ) && *final(self) == *old(self),
            old(self).validators@.contains(*validator) ==> r == Ok::<(), ChainTypeError>(())
                && final(self).validators@ == old(self).validators@.filter(
                crate::vecmap::neq_pred(*validator),
            ) && *final(self) == (SidechainInfo { validators: final(self).validators, ..*old(self) }),
    {
        if !vec_contains(&self.validators, validator) {
            return Err(ChainTypeError::ValidatorNotFound);
        }
        self.validators = vec_without(&self.validators, validator);
        Ok(())
    }
}

#[derive(Debug, Clone)]
pub struct HostChainInfo {
    pub id: ChainId,
    pub creator: AccountId,
    pub created_at: BlockNumber,
    pub member_chains: Vec<ChainId>,
    pub validator_pool: Vec<AccountId>,
}

impl HostChainInfo {
    pub fn new(id: ChainId, creator: AccountId, created_at: BlockNumber) -> (h: Self)
        ensures
            h.id == id,
            h.creator == creator,
            h.created_at == created_at,
            h.member_chains@ == Seq::<ChainId>::empty(),
            h.validator_pool@ == Seq::<AccountId>::empty(),
    {
        HostChainInfo { id, creator, created_at, member_chains: Vec::new(), validator_pool: Vec::new() }
    }

    pub fn add_member(&mut self, chain: ChainId) -> (r: Result<(), ChainTypeError>)
        ensures
            old(self).member_chains@.contains(chain) ==> r == Err::<(), ChainTypeError>(
                ChainTypeError::MemberAlreadyPresent,
            ) && *final(self) == *old(self),
            !old(self).member_chains@.contains(chain) ==> r == Ok::<(), ChainTypeError>(())
                && final(self).member_chains@ == old(self).member_chains@.push(chain) && *final(self)
                == (HostChainInfo { member_chains: final(self).member_chains, ..*old(self) }),
    {
        if vec_contains(&self.member_chains, &chain) {
            return Err(ChainTypeError::MemberAlreadyPresent);
        }
        self.member_chains.push(chain);
        Ok(())
    }

    pub fn remove_member(&mut self, chain: &ChainId) -> (r: Result<(), ChainTypeError>)
        ensures
            !old(self).member_chains@.contains(*chain) ==> r == Err::<(), ChainTypeError>(
                ChainTypeError::MemberNotFound,
            ) && *final(self) == *old(self),
            old(self).member_chains@.contains(*chain) ==> r == Ok::<(), ChainTypeError>(())
                && final(self).member_chains@ == old(self).member_chains@.filter(
                crate::vecmap::neq_pred(*chain),
            ) && *final(self) == (HostChainInfo { member_chains: final(self).member_chains, ..*old(self) }),
    {
        if !vec_contains(&self.member_chains, chain) {
            return Err(ChainTypeError::MemberNotFound);
        }
        self.member_chains = vec_without(&self.member_chains, chain);
        Ok(())
    }

    pub fn add_validator(&mut self, validator: AccountId) -> (r: Result<(), ChainTypeError>)
        ensures
            old(self).validator_pool@.contains(validator) ==> r == Err::<(), ChainTypeError>(
                ChainTypeError::ValidatorAlreadyPresent,
            ) && *final(self) == *old(self),
            !old(self).validator_pool@.contains(validator) ==> r == Ok::<(), ChainTypeError>(())
                && final(self).validator_pool@ == old(self).validator_pool@.push(validator) && *final(self)
                == (HostChainInfo { validator_pool: final(self).validator_pool, ..*old(self) }),
    {
        if vec_contains(&self.validator_pool, &validator) {
            return Err(ChainTypeError::ValidatorAlreadyPresent);
        }
        self.validator_pool.push(validator);
        Ok(())
    }

    pub fn remove_validator(&mut self, validator: &AccountId) -> (r: Result<(), ChainTypeError>)
        ensures
            !old(self).validator_pool@.contains(*validator) ==> r == Err::<(), ChainTypeError>(
                ChainTypeError::ValidatorNotFound,
            ) && *final(self) == *old(self),
            old(self).validator_pool@.contains(*validator) ==> r == Ok::<(), ChainTypeError>(())
                && final(self).validator_pool@ == old(self).validator_pool@.filter(
                crate::vecmap::neq_pred(*validator),
            ) && *final(self) == (HostChainInfo { validator_pool: final(self).validator_pool, ..*old(self) }),
    {
        if !vec_contains(&self.validator_pool, validator) {
            return Err(ChainTypeError::ValidatorNotFound);
        }
        self.validator_pool = vec_without(&self.validator_pool, validator);
        Ok(())
    }
}

#[derive(Debug, Clone, Copy, PartialEq, Eq, Structural)]
pub enum WithdrawalType {
    OwnerDeposit,
    UserBalance,
    EmergencyOwner,
    Emergency,
}

#[derive(Debug, Clone, Copy)]
pub struct WithdrawalResult {
    pub chain_id: ChainId,
    pub recipient: AccountId,
    pub amount: Balance,
    pub withdrawal_type: WithdrawalType,
}

#[derive(Debug, Clone, PartialEq, Eq)]
pub enum ChainError {
    InsufficientDeposit,
    ChainNotFound,
    ParentNotFound,
    HostNotFound,
    ChainNotInactive,
    NotAffiliated,
    InvalidSecurityMode,
    InvalidState,
    FraudProofInvalid(String),
    FraudProofExpired,
    Unauthorized { action: String, required: String },
    AlreadyWithdrawn,
    RequiresMerkleProof,
    NoSnapshotStateRoot,
    InvalidMerkleProof,
    ChainTypeError(ChainTypeError),
}

/// Members that host `h` keeps when the chains missing from `new_host_of`
/// have left it.
pub open spec fn kept_member(
    old_host_of: Map<ChainId, ChainId>,
    new_host_of: Map<ChainId, ChainId>,
    h: ChainId,
) -> spec_fn(ChainId) -> bool {
    |c: ChainId| !(old_host_of.contains_key(c) && old_host_of[c] == h && !new_host_of.contains_key(c))
}

/// Chains only left their hosts between `old_host_of` and `new_host_of`,
/// and each host lost exactly the members that left it, the rest of it
/// unchanged.
pub open spec fn hosts_follow(
    old_hosts: Map<ChainId, HostChainInfo>,
    new_hosts: Map<ChainId, HostChainInfo>,
    old_host_of: Map<ChainId, ChainId>,
    new_host_of: Map<ChainId, ChainId>,
) -> bool {
    &&& forall|c: ChainId| #[trigger]
        new_host_of.contains_key(c) ==> old_host_of.contains_key(c) && new_host_of[c] == old_host_of[c]
    &&& new_hosts.dom() == old_hosts.dom()
    &&& forall|h: ChainId| #[trigger]
        new_hosts.contains_key(h) ==> new_hosts[h] == (HostChainInfo {
            member_chains: new_hosts[h].member_chains,
            ..old_hosts[h]
        }) && new_hosts[h].member_chains@ == old_hosts[h].member_chains@.filter(
            kept_member(old_host_of, new_host_of, h),
        )
}

proof fn lemma_hosts_follow_refl(hosts: Map<ChainId, HostChainInfo>, host_of: Map<ChainId, ChainId>)
    ensures
        hosts_follow(hosts, hosts, host_of, host_of),
{
    assert forall|h: ChainId| #[trigger] hosts.contains_key(h) implies hosts[h].member_chains@ == hosts[h].member_chains@.filter(
        kept_member(host_of, host_of, h),
    ) by {
        crate::vecmap::lemma_filter_all(hosts[h].member_chains@, kept_member(host_of, host_of, h));
    }
}

proof fn lemma_hosts_follow_trans(
    a: Map<ChainId, HostChainInfo>,
    b: Map<ChainId, HostChainInfo>,
    c: Map<ChainId, HostChainInfo>,
    ha: Map<ChainId, ChainId>,
    hb: Map<ChainId, ChainId>,
    hc: Map<ChainId, ChainId>,
)
    requires
        hosts_follow(a, b, ha, hb),
        hosts_follow(b, c, hb, hc),
    ensures
        hosts_follow(a, c, ha, hc),
{
    assert forall|h: ChainId| #[trigger] c.contains_key(h) implies c[h] == (HostChainInfo {
        member_chains: c[h].member_chains,
        ..a[h]
    }) && c[h].member_chains@ == a[h].member_chains@.filter(kept_member(ha, hc, h)) by {
        assert(b.contains_key(h));
        crate::vecmap::lemma_filter_filter(a[h].member_chains@, kept_member(ha, hb, h), kept_member(hb, hc, h));
        assert(crate::vecmap::and_pred(kept_member(ha, hb, h), kept_member(hb, hc, h)) =~= kept_member(ha, hc, h));
    }
}

proof fn lemma_filter_absent_pub(s: Seq<ChainId>, x: ChainId)
    requires
        !s.contains(x),
    ensures
        s.filter(crate::vecmap::neq_pred(x)) == s,
    decreases s.len(),
{
    reveal_with_fuel(Seq::<_>::filter, 1);
    if s.len() > 0 {
        assert(!s.drop_last().contains(x)) by {
            if s.drop_last().contains(x) {
                let j = choose|j: int| 0 <= j < s.drop_last().len() && s.drop_last()[j] == x;
                assert(s[j] == x);
            }
        }
        lemma_filter_absent_pub(s.drop_last(), x);
        assert(s.last() != x) by {
            assert(s[s.len() - 1] == s.last());
        }
        assert(s.drop_last().push(s.last()) =~= s);
    }
}

/// Age beyond which fraud evidence is no longer acted on (30 days).
pub const FRAUD_PROOF_VALIDITY_PERIOD: BlockNumber = 432_000;

/// The facts of a fraud proof that acting on it reads: who committed the
/// fraud, at which block, on which chain (when it concerns one), and how
/// grave it is.
#[derive(Debug, Clone, Copy, PartialEq, Eq)]
pub struct FraudProof {
    pub accused: AccountId,
    pub fraud_block: BlockNumber,
    pub affected_chain: Option<ChainId>,
    pub severity: FraudSeverity,
}

#[derive(Debug, Clone, Copy, PartialEq, Eq)]
pub struct FraudProofVerification {
    pub is_valid: bool,
    pub accused: AccountId,
    pub severity: FraudSeverity,
    pub fraud_block: BlockNumber,
}

impl FraudProofVerification {
    /// The verification of an accepted `proof`.
    pub open spec fn of(proof: FraudProof) -> FraudProofVerification {
        FraudProofVerification {
            is_valid: true,
            accused: proof.accused,
            severity: proof.severity,
            fraud_block: proof.fraud_block,
        }
    }
}

/// What acting on a fraud proof does to chain `id` (whose record was
/// `c`): one more slashed validator, then a purge when the slashed share
/// reaches VALIDATOR_FRAUD_THRESHOLD_PERCENT (refused, with the slash
/// kept, when the chain is neither active nor inactive).
pub open spec fn fraud_outcome(
    c: SidechainInfo,
    after: Map<ChainId, SidechainInfo>,
    before: Map<ChainId, SidechainInfo>,
    id: ChainId,
    r: Result<bool, ChainError>,
    current_block: BlockNumber,
) -> bool {
    let slashed = SidechainInfo { slashed_validators_count: (c.slashed_validators_count + 1) as usize, ..c };
    let total = c.validators@.len();
    if total == 0 || (c.slashed_validators_count + 1) * 100 / (total as int) < VALIDATOR_FRAUD_THRESHOLD_PERCENT {
        r == Ok::<bool, ChainError>(false) && after == before.insert(id, slashed)
    } else if c.status == ChainStatus::Active || c.status == ChainStatus::Inactive {
        r == Ok::<bool, ChainError>(true) && after == before.insert(
            id,
            SidechainInfo {
                status: ChainStatus::PendingPurge,
                purge_triggered_at: Some(current_block),
                purge_trigger: Some(PurgeTrigger::ValidatorFraud),
                ..slashed
            },
        )
    } else {
        r == Err::<bool, ChainError>(ChainError::InvalidState) && after == before.insert(id, slashed)
    }
}

pub struct ChainRegistry {
    sidechains: VecMap<ChainId, SidechainInfo>,
    hostchains: VecMap<ChainId, HostChainInfo>,
    /// Host of each affiliated sidechain.
    pub sidechain_to_host: VecMap<ChainId, ChainId>,
    next_chain_id: u32,
    last_purge_check: BlockNumber,
}

impl ChainRegistry {
    pub closed spec fn inv(&self) -> bool {
        &&& self.sidechains.wf()
        &&& self.hostchains.wf()
        &&& self.sidechain_to_host.wf()
        &&& self.next_chain_id >= 1
        &&& forall|c: ChainId| #[trigger] self.sidechains@.contains_key(c) ==> c.0 < self.next_chain_id
        &&& forall|c: ChainId| #[trigger] self.hostchains@.contains_key(c) ==> c.0 < self.next_chain_id
        &&& forall|h: ChainId, c: ChainId|
            self.hostchains@.contains_key(h) && #[trigger] self.hostchains@[h].member_chains@.contains(c)
                ==> c.0 < self.next_chain_id
    }

    pub closed spec fn chains(&self) -> Map<ChainId, SidechainInfo> {
        self.sidechains@
    }

    pub closed spec fn hosts(&self) -> Map<ChainId, HostChainInfo> {
        self.hostchains@
    }

    pub closed spec fn host_of(&self) -> Map<ChainId, ChainId> {
        self.sidechain_to_host@
    }

    pub closed spec fn next_id(&self) -> u32 {
        self.next_chain_id
    }

    pub closed spec fn last_check(&self) -> BlockNumber {
        self.last_purge_check
    }

    /// Sidechains in creation order.
    pub closed spec fn chain_order(&self) -> Seq<ChainId> {
        self.sidechains.key_seq()
    }

    /// The creation order lists every sidechain exactly once.
    pub proof fn lemma_chain_order(&self)
        requires
            self.inv(),
        ensures
            self.chain_order().no_duplicates(),
            self.chain_order().len() == self.chains().dom().len(),
            forall|c: ChainId| #[trigger] self.chains().contains_key(c) <==> self.chain_order().contains(c),
    {
        self.sidechains.lemma_wf();
        assert forall|c: ChainId| #[trigger] self.chains().contains_key(c) <==> self.chain_order().contains(c) by {
            if self.chains().contains_key(c) {
                let i = choose|i: int| 0 <= i < self.sidechains.key_seq().len() && self.sidechains.key_seq()[i] == c;
                assert(self.chain_order()[i] == c);
            }
            if self.chain_order().contains(c) {
                let i = choose|i: int| 0 <= i < self.chain_order().len() && self.chain_order()[i] == c;
                assert(self.sidechains@.contains_key(self.sidechains.key_seq()[i]));
            }
        }
    }

    /// Only the sidechain table may differ from `old`.
    pub open spec fn same_but_chains(&self, old: &Self) -> bool {
        &&& self.hosts() == old.hosts()
        &&& self.host_of() == old.host_of()
        &&& self.next_id() == old.next_id()
        &&& self.last_check() == old.last_check()
    }

    pub fn new() -> (r: Self)
        ensures
            r.inv(),
            r.chains() == Map::<ChainId, SidechainInfo>::empty(),
            r.hosts() == Map::<ChainId, HostChainInfo>::empty(),
            r.host_of() == Map::<ChainId, ChainId>::empty(),
            r.chain_order() == Seq::<ChainId>::empty(),
            r.next_id() == 1,
            r.last_check() == 0,
    {
        ChainRegistry {
            sidechains: VecMap::new(),
            hostchains: VecMap::new(),
            sidechain_to_host: VecMap::new(),
            next_chain_id: 1,
            last_purge_check: 0,
        }
    }

    pub fn get_sidechain(&self, chain_id: &ChainId) -> (r: Option<&SidechainInfo>)
        requires
            self.inv(),
        ensures
            match r {
                Some(s) => self.chains().contains_key(*chain_id) && *s == self.chains()[*chain_id],
                None => !self.chains().contains_key(*chain_id),
            },
    {
        self.sidechains.get(chain_id)
    }

    pub fn get_hostchain(&self, chain_id: &ChainId) -> (r: Option<&HostChainInfo>)
        requires
            self.inv(),
        ensures
            match r {
                Some(h) => self.hosts().contains_key(*chain_id) && *h == self.hosts()[*chain_id],
                None => !self.hosts().contains_key(*chain_id),
            },
    {
        self.hostchains.get(chain_id)
    }

    pub fn sidechain_count(&self) -> (n: usize)
        requires
            self.inv(),
        ensures
            n == self.chains().dom().len(),
    {
        self.sidechains.len()
    }

    pub fn hostchain_count(&self) -> (n: usize)
        requires
            self.inv(),
        ensures
            n == self.hosts().dom().len(),
    {
        self.hostchains.len()
    }

    /// Sidechains whose status is Active, in creation order.
    pub fn active_sidechains(&self) -> (r: Vec<&SidechainInfo>)
        requires
            self.inv(),
        ensures
            ({
                let act = self.chain_order().filter(
                    |c: ChainId| self.chains()[c].status == ChainStatus::Active,
                );
                &&& r@.len() == act.len()
                &&& forall|i: int| 0 <= i < r@.len() ==> *r@[i] == self.chains()[act[i]]
            }),
    {
        let ghost keys = self.sidechains.key_seq();
        let ghost pred = |c: ChainId| self.chains()[c].status == ChainStatus::Active;
        proof {
            self.sidechains.lemma_wf();
        }
        let mut out: Vec<&SidechainInfo> = Vec::new();
        let n = self.sidechains.len();
        let mut i: usize = 0;
        while i < n
            invariant
                self.inv(),
                keys == self.sidechains.key_seq(),
                n == keys.len(),
                i <= n,
                forall|j: int| 0 <= j < n ==> #[trigger] self.sidechains@.contains_key(keys[j])
                    && self.sidechains@[keys[j]] == self.sidechains.val_seq()[j],
                pred == (|c: ChainId| self.chains()[c].status == ChainStatus::Active),
                out@.len() == keys.take(i as int).filter(pred).len(),
                forall|j: int|
                    0 <= j < out@.len() ==> *out@[j] == self.chains()[keys.take(i as int).filter(pred)[j]],
            decreases n - i,
        {
            proof {
                reveal_with_fuel(Seq::<_>::filter, 1);
                assert(keys.take(i + 1).drop_last() =~= keys.take(i as int));
                assert(keys.take(i + 1).last() == keys[i as int]);
                assert(self.sidechains@.contains_key(keys[i as int]));
            }
            let sc = self.sidechains.val_at(i);
            if sc.status == ChainStatus::Active {
                out.push(sc);
            }
            i = i + 1;
        }
        proof {
            assert(keys.take(n as int) =~= keys);
        }
        out
    }

    /// Every chain other than `c` is as in `old`, and `c` is still there.
    pub open spec fn only_chain_changed(&self, old: &Self, c: ChainId) -> bool {
        &&& old.chains().contains_key(c)
        &&& agree_except(self.chains(), old.chains(), c)
    }

    /// Records activity on a chain at `block`.
    pub fn record_activity(&mut self, chain_id: ChainId, block: BlockNumber) -> (r: Result<(), ChainError>)
        requires
            old(self).inv(),
        ensures
            final(self).inv(),
            !old(self).chains().contains_key(chain_id) ==> r == Err::<(), ChainError>(ChainError::ChainNotFound)
                && *final(self) == *old(self),
            old(self).chains().contains_key(chain_id) ==> r == Ok::<(), ChainError>(())
                && final(self).chains() == old(self).chains().insert(
                chain_id,
                SidechainInfo { last_activity: block, ..old(self).chains()[chain_id] },
            ) && final(self).same_but_chains(old(self)),
    {
        let i = match self.sidechains.find(&chain_id) {
            Some(i) => i,
            None => return Err(ChainError::ChainNotFound),
        };
        let ghost before = self.sidechains;
        let sc = self.sidechains.val_at_mut(i);
        sc.record_activity(block);
        proof {
            let nv = self.sidechains.val_seq()[i as int];
            VecMap::lemma_update_at(&before, &self.sidechains, i as int, nv);
        }
        Ok(())
    }

    /// Detaches `chain_id` from its host (if any): drops the affiliation and
    /// the host's membership entry.
    fn detach_from_host(&mut self, chain_id: ChainId)
        requires
            old(self).inv(),
        ensures
            final(self).inv(),
            final(self).chains() == old(self).chains(),
            final(self).host_of() == old(self).host_of().remove(chain_id),
            final(self).next_id() == old(self).next_id(),
            final(self).last_check() == old(self).last_check(),
            final(self).hosts().dom() == old(self).hosts().dom(),
            hosts_follow(old(self).hosts(), final(self).hosts(), old(self).host_of(), final(self).host_of()),
            ({
                let h = old(self).host_of()[chain_id];
                if old(self).host_of().contains_key(chain_id) && old(self).hosts().contains_key(h) {
                    final(self).hosts() == old(self).hosts().insert(
                        h,
                        HostChainInfo {
                            member_chains: final(self).hosts()[h].member_chains,
                            ..old(self).hosts()[h]
                        },
                    ) && final(self).hosts()[h].member_chains@ == old(self).hosts()[h].member_chains@.filter(
                        crate::vecmap::neq_pred(chain_id),
                    )
                } else {
                    final(self).hosts() == old(self).hosts()
                }
            }),
    {
        match self.sidechain_to_host.remove(&chain_id) {
            Some(host_id) => {
                match self.hostchains.find(&host_id) {
                    Some(j) => {
                        let ghost before = self.hostchains;
                        let host = self.hostchains.val_at_mut(j);
                        let _ = host.remove_member(&chain_id);
                        proof {
                            let nv = self.hostchains.val_seq()[j as int];
                            VecMap::lemma_update_at(&before, &self.hostchains, j as int, nv);
                            if !before@[host_id].member_chains@.contains(chain_id) {
                                lemma_filter_absent_pub(before@[host_id].member_chains@, chain_id);
                            }
                            assert forall|h: ChainId, c: ChainId|
                                self.hostchains@.contains_key(h) && #[trigger] self.hostchains@[h].member_chains@.contains(c)
                                    implies c.0 < self.next_chain_id by {
                                if h == host_id {
                                    let pred = crate::vecmap::neq_pred(chain_id);
                                    before@[h].member_chains@.lemma_filter_contains_rev(pred, c);
                                }
                            }
                            assert(self.hostchains@.dom() =~= before@.dom());
                        }
                    },
                    None => {},
                }
            },
            None => {},
        }
        proof {
            let oh = old(self).host_of();
            let nh = self.host_of();
            assert forall|h: ChainId| #[trigger] self.hosts().contains_key(h) implies self.hosts()[h] == (HostChainInfo {
                member_chains: self.hosts()[h].member_chains,
                ..old(self).hosts()[h]
            }) && self.hosts()[h].member_chains@ == old(self).hosts()[h].member_chains@.filter(
                kept_member(oh, nh, h),
            ) by {
                if oh.contains_key(chain_id) && old(self).hosts().contains_key(oh[chain_id]) && h == oh[chain_id] {
                    assert(kept_member(oh, nh, h) =~= crate::vecmap::neq_pred(chain_id));
                } else {
                    assert forall|x: ChainId| #[trigger] kept_member(oh, nh, h)(x) by {}
                    crate::vecmap::lemma_filter_all(old(self).hosts()[h].member_chains@, kept_member(oh, nh, h));
                }
            }
        }
    }

    /// Purges an inactive chain and returns its deposit; the chain leaves its
    /// host.
    pub fn purge_sidechain(&mut self, chain_id: ChainId, current_block: BlockNumber) -> (r: Result<Balance, ChainError>)
        requires
            old(self).inv(),
        ensures
            final(self).inv(),
            !old(self).chains().contains_key(chain_id) ==> r == Err::<Balance, ChainError>(
                ChainError::ChainNotFound,
            ) && *final(self) == *old(self),
            old(self).chains().contains_key(chain_id) && !old(self).chains()[chain_id].spec_is_inactive(
                current_block,
                INACTIVITY_THRESHOLD,
            ) ==> r == Err::<Balance, ChainError>(ChainError::ChainNotInactive) && *final(self) == *old(self),
            old(self).chains().contains_key(chain_id) && old(self).chains()[chain_id].spec_is_inactive(
                current_block,
                INACTIVITY_THRESHOLD,
            ) ==> r is Ok,
            r.is_ok() ==> {
                let c = old(self).chains()[chain_id];
                &&& old(self).chains().contains_key(chain_id)
                &&& c.spec_is_inactive(current_block, INACTIVITY_THRESHOLD)
                &&& r == Ok::<Balance, ChainError>(c.deposit)
                &&& final(self).chains() == old(self).chains().insert(
                    chain_id,
                    SidechainInfo { status: ChainStatus::Purged, ..c },
                )
                &&& final(self).host_of() == old(self).host_of().remove(chain_id)
                &&& final(self).hosts().dom() == old(self).hosts().dom()
                &&& hosts_follow(old(self).hosts(), final(self).hosts(), old(self).host_of(), final(self).host_of())
                &&& final(self).next_id() == old(self).next_id()
                &&& final(self).last_check() == old(self).last_check()
            },
    {
        let i = match self.sidechains.find(&chain_id) {
            Some(i) => i,
            None => return Err(ChainError::ChainNotFound),
        };
        if !self.sidechains.val_at(i).is_inactive(current_block, INACTIVITY_THRESHOLD) {
            return Err(ChainError::ChainNotInactive);
        }
        let ghost before = self.sidechains;
        let sc = self.sidechains.val_at_mut(i);
        sc.status = ChainStatus::Purged;
        let deposit = sc.deposit;
        proof {
            let nv = self.sidechains.val_seq()[i as int];
            VecMap::lemma_update_at(&before, &self.sidechains, i as int, nv);
            before.lemma_wf();
            assert(self.sidechains@.dom() =~= before@.dom());
        }
        self.detach_from_host(chain_id);
        Ok(deposit)
    }

    /// Creates a hostchain with the next id.
    pub fn create_hostchain(&mut self, creator: AccountId, block: BlockNumber) -> (id: ChainId)
        requires
            old(self).inv(),
            old(self).next_id() < u32::MAX,
        ensures
            final(self).inv(),
            id == ChainId(old(self).next_id()),
            !old(self).hosts().contains_key(id),
            final(self).hosts().contains_key(id),
            final(self).hosts().remove(id) == old(self).hosts(),
            final(self).hosts()[id].id == id && final(self).hosts()[id].creator == creator
                && final(self).hosts()[id].created_at == block
                && final(self).hosts()[id].member_chains@ == Seq::<ChainId>::empty()
                && final(self).hosts()[id].validator_pool@ == Seq::<AccountId>::empty(),
            final(self).next_id() == old(self).next_id() + 1,
            final(self).chains() == old(self).chains(),
            final(self).host_of() == old(self).host_of(),
            final(self).last_check() == old(self).last_check(),
    {
        let host_id = ChainId(self.next_chain_id);
        self.next_chain_id = self.next_chain_id + 1;
        let hostchain = HostChainInfo::new(host_id, creator, block);
        let ghost old_hosts = self.hostchains@;
        self.hostchains.insert(host_id, hostchain);
        proof {
            assert(self.hostchains@.remove(host_id) =~= old_hosts);
        }
        host_id
    }

    /// Makes `sidechain_id` a member of `host_id`.
    pub fn affiliate_sidechain(&mut self, sidechain_id: ChainId, host_id: ChainId) -> (r: Result<(), ChainError>)
        requires
            old(self).inv(),
        ensures
            final(self).inv(),
            !old(self).chains().contains_key(sidechain_id) ==> r == Err::<(), ChainError>(
                ChainError::ChainNotFound,
            ),
            old(self).chains().contains_key(sidechain_id) && !old(self).hosts().contains_key(host_id) ==> r
                == Err::<(), ChainError>(ChainError::HostNotFound),
            old(self).chains().contains_key(sidechain_id) && old(self).hosts().contains_key(host_id) && old(self).hosts()[host_id].member_chains@.contains(sidechain_id) ==> r == Err::<(), ChainError>(
                ChainError::ChainTypeError(ChainTypeError::MemberAlreadyPresent),
            ),
            old(self).chains().contains_key(sidechain_id) && old(self).hosts().contains_key(host_id) && !old(self).hosts()[host_id].member_chains@.contains(sidechain_id) ==> r is Ok,
            r.is_err() ==> *final(self) == *old(self),
            r.is_ok() ==> {
                let h = old(self).hosts()[host_id];
                &&& old(self).chains().contains_key(sidechain_id)
                &&& old(self).hosts().contains_key(host_id)
                &&& !h.member_chains@.contains(sidechain_id)
                &&& final(self).hosts() == old(self).hosts().insert(
                    host_id,
                    HostChainInfo { member_chains: final(self).hosts()[host_id].member_chains, ..h },
                )
                &&& final(self).hosts()[host_id].member_chains@ == h.member_chains@.push(sidechain_id)
                &&& final(self).host_of() == old(self).host_of().insert(sidechain_id, host_id)
                &&& final(self).chains() == old(self).chains()
                &&& final(self).chain_order() == old(self).chain_order()
                &&& final(self).next_id() == old(self).next_id()
                &&& final(self).last_check() == old(self).last_check()
            },
    {
        if !self.sidechains.contains_key(&sidechain_id) {
            return Err(ChainError::ChainNotFound);
        }
        let j = match self.hostchains.find(&host_id) {
            Some(j) => j,
            None => return Err(ChainError::HostNotFound),
        };
        if vec_contains(&self.hostchains.val_at(j).member_chains, &sidechain_id) {
            return Err(ChainError::ChainTypeError(ChainTypeError::MemberAlreadyPresent));
        }
        let ghost before = self.hostchains;
        let host = self.hostchains.val_at_mut(j);
        let _ = host.add_member(sidechain_id);
        proof {
            let nv = self.hostchains.val_seq()[j as int];
            VecMap::lemma_update_at(&before, &self.hostchains, j as int, nv);
        }
        proof {
            before.lemma_wf();
            assert(self.hostchains@[host_id].member_chains@ == before@[host_id].member_chains@.push(sidechain_id));
            assert(self.hostchains@.dom() =~= before@.dom());
            assert forall|h: ChainId, c: ChainId|
                self.hostchains@.contains_key(h) && #[trigger] self.hostchains@[h].member_chains@.contains(c)
                    implies c.0 < self.next_chain_id by {
                if h == host_id && c == sidechain_id {
                    assert(self.sidechains@.contains_key(sidechain_id));
                } else if h == host_id {
                    let m = self.hostchains@[h].member_chains@;
                    let k = choose|k: int| 0 <= k < m.len() && m[k] == c;
                    assert(k < before@[h].member_chains@.len());
                    assert(before@[h].member_chains@[k] == c);
                    assert(before@[h].member_chains@.contains(c));
                } else {
                    assert(self.hostchains@[h] == before@[h]);
                }
            }
        }
        self.sidechain_to_host.insert(sidechain_id, host_id);
        Ok(())
    }

    /// Ends the affiliation of `sidechain_id` with its host.
    pub fn leave_host(&mut self, sidechain_id: ChainId) -> (r: Result<(), ChainError>)
        requires
            old(self).inv(),
        ensures
            final(self).inv(),
            !old(self).host_of().contains_key(sidechain_id) ==> r == Err::<(), ChainError>(
                ChainError::NotAffiliated,
            ) && *final(self) == *old(self),
            ({
                let h = old(self).host_of()[sidechain_id];
                &&& old(self).host_of().contains_key(sidechain_id) && !old(self).hosts().contains_key(h) ==> r
                    == Err::<(), ChainError>(ChainError::HostNotFound)
                &&& old(self).host_of().contains_key(sidechain_id) && old(self).hosts().contains_key(h) && !old(self).hosts()[h].member_chains@.contains(sidechain_id) ==> r == Err::<(), ChainError>(
                    ChainError::ChainTypeError(ChainTypeError::MemberNotFound),
                )
                &&& old(self).host_of().contains_key(sidechain_id) && old(self).hosts().contains_key(h) && old(self).hosts()[h].member_chains@.contains(sidechain_id) ==> r == Ok::<(), ChainError>(())
                    && final(self).hosts()[h].member_chains@ == old(self).hosts()[h].member_chains@.filter(
                    crate::vecmap::neq_pred(sidechain_id),
                )
                &&& old(self).host_of().contains_key(sidechain_id) ==> final(self).host_of() == old(self).host_of().remove(sidechain_id)
            }),
            final(self).chains() == old(self).chains(),
            final(self).next_id() == old(self).next_id(),
    {
        let host_id = match self.sidechain_to_host.get(&sidechain_id) {
            Some(h) => *h,
            None => return Err(ChainError::NotAffiliated),
        };
        let has_host = self.hostchains.contains_key(&host_id);
        let is_member = match self.hostchains.get(&host_id) {
            Some(h) => vec_contains(&h.member_chains, &sidechain_id),
            None => false,
        };
        self.detach_from_host(sidechain_id);
        if !has_host {
            return Err(ChainError::HostNotFound);
        }
        if !is_member {
            return Err(ChainError::ChainTypeError(ChainTypeError::MemberNotFound));
        }
        Ok(())
    }

    /// The validator list `assign_validators(chain_id)` gives the chain, or the
    /// error it reports.
    pub open spec fn spec_assignment(&self, chain_id: ChainId) -> Result<Seq<AccountId>, ChainError> {
        let c = self.chains()[chain_id];
        if !self.chains().contains_key(chain_id) {
            Err(ChainError::ChainNotFound)
        } else {
            match c.security_mode {
                SecurityMode::Inherited => if c.parent is Some && self.chains().contains_key(c.parent->0) {
                    Ok(self.chains()[c.parent->0].validators@)
                } else {
                    Err(ChainError::ParentNotFound)
                },
                SecurityMode::Shared => if self.host_of().contains_key(chain_id) && self.hosts().contains_key(
                    self.host_of()[chain_id],
                ) {
                    Ok(self.hosts()[self.host_of()[chain_id]].validator_pool@)
                } else {
                    Err(ChainError::HostNotFound)
                },
                SecurityMode::Sovereign => Ok(c.validators@),
            }
        }
    }

    /// Sets the chain's validators from its security mode: a copy of the
    /// parent's (Inherited) or of the host's pool (Shared); a Sovereign chain
    /// keeps its own. Returns the resulting list.
    pub fn assign_validators(&mut self, chain_id: ChainId) -> (r: Result<Vec<AccountId>, ChainError>)
        requires
            old(self).inv(),
        ensures
            final(self).inv(),
            final(self).same_but_chains(old(self)),
            final(self).chain_order() == old(self).chain_order(),
            match old(self).spec_assignment(chain_id) {
                Ok(vs) => r is Ok && r->Ok_0@ == vs && final(self).only_chain_changed(old(self), chain_id)
                    && final(self).chains()[chain_id] == (SidechainInfo {
                    validators: final(self).chains()[chain_id].validators,
                    ..old(self).chains()[chain_id]
                }) && final(self).chains()[chain_id].validators@ == vs,
                Err(e) => r == Err::<Vec<AccountId>, ChainError>(e) && *final(self) == *old(self),
            },
    {
        let i = match self.sidechains.find(&chain_id) {
            Some(i) => i,
            None => return Err(ChainError::ChainNotFound),
        };
        let (mode, parent) = {
            let sc = self.sidechains.val_at(i);
            (sc.security_mode, sc.parent)
        };
        let new_validators = match mode {
            SecurityMode::Inherited => {
                let parent_id = match parent {
                    Some(p) => p,
                    None => return Err(ChainError::ParentNotFound),
                };
                match self.sidechains.get(&parent_id) {
                    Some(p) => vec_copy(&p.validators),
                    None => return Err(ChainError::ParentNotFound),
                }
            },
            SecurityMode::Shared => {
                let host_id = match self.sidechain_to_host.get(&chain_id) {
                    Some(h) => *h,
                    None => return Err(ChainError::HostNotFound),
                };
                match self.hostchains.get(&host_id) {
                    Some(h) => vec_copy(&h.validator_pool),
                    None => return Err(ChainError::HostNotFound),
                }
            },
            SecurityMode::Sovereign => {
                let v = vec_copy(&self.sidechains.val_at(i).validators);
                return Ok(v);
            },
        };
        let result = vec_copy(&new_validators);
        let ghost before = self.sidechains;
        let sc = self.sidechains.val_at_mut(i);
        sc.validators = new_validators;
        proof {
            let nv = self.sidechains.val_seq()[i as int];
            VecMap::lemma_update_at(&before, &self.sidechains, i as int, nv);
            before.lemma_wf();
            assert(self.sidechains@.dom() =~= before@.dom());
        }
        Ok(result)
    }

    /// Required deposit, or the error, for creating a chain in `mode`.
    pub open spec fn spec_required_deposit(&self, mode: SecurityMode, host_id: Option<ChainId>) -> Result<Balance, ChainError> {
        match mode {
            SecurityMode::Inherited => Ok(BASE_DEPOSIT),
            SecurityMode::Shared => if host_id is Some && self.hosts().contains_key(host_id->0) {
                Ok(spec_calculate_deposit(mode, self.hosts()[host_id->0].member_chains@.len() as usize))
            } else {
                Err(ChainError::HostNotFound)
            },
            SecurityMode::Sovereign => Ok(SOVEREIGN_DEPOSIT),
        }
    }

    /// Creates a sidechain with the next id. The deposit must cover the
    /// mode's requirement (Shared: 1000 per current member of the host) and
    /// a given parent must exist. A Shared chain joins its host; Inherited and
    /// Shared chains then receive their validators. An Inherited chain
    /// without a parent is created but reports ParentNotFound.
    pub fn create_sidechain(
        &mut self,
        owner: AccountId,
        name: Option<String>,
        description: Option<String>,
        parent: Option<ChainId>,
        security_mode: SecurityMode,
        host_id: Option<ChainId>,
        deposit: Balance,
        block: BlockNumber,
    ) -> (r: Result<ChainId, ChainError>)
        requires
            old(self).inv(),
            old(self).next_id() < u32::MAX,
        ensures
            final(self).inv(),
            final(self).last_check() == old(self).last_check(),
            ({
                let req = old(self).spec_required_deposit(security_mode, host_id);
                let id = ChainId(old(self).next_id());
                let created = req is Ok && deposit >= req->Ok_0 && (parent is None
                    || old(self).chains().contains_key(parent->0));
                &&& req is Err ==> r == Err::<ChainId, ChainError>(req->Err_0) && *final(self) == *old(self)
                &&& req is Ok && deposit < req->Ok_0 ==> r == Err::<ChainId, ChainError>(
                    ChainError::InsufficientDeposit,
                ) && *final(self) == *old(self)
                &&& req is Ok && deposit >= req->Ok_0 && parent is Some && !old(self).chains().contains_key(
                    parent->0,
                ) ==> r == Err::<ChainId, ChainError>(ChainError::ParentNotFound) && *final(self) == *old(self)
                &&& created ==> {
                    let sc = final(self).chains()[id];
                    &&& !old(self).chains().contains_key(id)
                    &&& final(self).chains().contains_key(id)
                    &&& final(self).chains().remove(id) == old(self).chains()
                    &&& final(self).chain_order() == old(self).chain_order().push(id)
                    &&& sc.is_fresh(id, parent, owner, name, description, security_mode, deposit, block)
                    &&& final(self).next_id() == old(self).next_id() + 1
                    &&& security_mode == SecurityMode::Sovereign ==> sc.validators@ == Seq::<AccountId>::empty()
                        && r == Ok::<ChainId, ChainError>(id)
                    &&& security_mode == SecurityMode::Inherited ==> if parent is Some {
                        r == Ok::<ChainId, ChainError>(id) && sc.validators@ == old(self).chains()[parent->0].validators@
                    } else {
                        r == Err::<ChainId, ChainError>(ChainError::ParentNotFound) && sc.validators@ == Seq::<
                            AccountId,
                        >::empty()
                    }
                    &&& security_mode == SecurityMode::Shared ==> {
                        let h = host_id->0;
                        &&& r == Ok::<ChainId, ChainError>(id)
                        &&& final(self).host_of() == old(self).host_of().insert(id, h)
                        &&& final(self).hosts() == old(self).hosts().insert(
                            h,
                            HostChainInfo { member_chains: final(self).hosts()[h].member_chains, ..old(self).hosts()[h] },
                        )
                        &&& final(self).hosts()[h].member_chains@ == old(self).hosts()[h].member_chains@.push(id)
                        &&& sc.validators@ == old(self).hosts()[h].validator_pool@
                    }
                    &&& security_mode != SecurityMode::Shared ==> final(self).host_of() == old(self).host_of()
                        && final(self).hosts() == old(self).hosts()
                }
            }),
    {
        let required_deposit = match security_mode {
            SecurityMode::Inherited => BASE_DEPOSIT,
            SecurityMode::Shared => {
                let h = match host_id {
                    Some(h) => h,
                    None => return Err(ChainError::HostNotFound),
                };
                match self.hostchains.get(&h) {
                    Some(host) => calculate_deposit(security_mode, host.member_chains.len()),
                    None => return Err(ChainError::HostNotFound),
                }
            },
            SecurityMode::Sovereign => SOVEREIGN_DEPOSIT,
        };
        if deposit < required_deposit {
            return Err(ChainError::InsufficientDeposit);
        }
        if let Some(parent_id) = parent {
            if !self.sidechains.contains_key(&parent_id) {
                return Err(ChainError::ParentNotFound);
            }
        }
        let chain_id = ChainId(self.next_chain_id);
        self.next_chain_id = self.next_chain_id + 1;
        let sidechain = SidechainInfo::new(
            chain_id,
            parent,
            owner,
            name,
            description,
            security_mode,
            deposit,
            block,
        );
        let ghost old_chains = self.sidechains@;
        self.sidechains.insert(chain_id, sidechain);
        proof {
            assert(self.sidechains@.remove(chain_id) =~= old_chains);
            assert(!old_chains.contains_key(chain_id));
            assert forall|h: ChainId, c: ChainId|
                self.hostchains@.contains_key(h) && #[trigger] self.hostchains@[h].member_chains@.contains(c)
                    implies c.0 < self.next_chain_id by {}
        }
        if security_mode == SecurityMode::Shared {
            if let Some(host) = host_id {
                let ghost mid = *self;
                proof {
                    assert(self.hostchains@.contains_key(host));
                    assert(self.sidechains@.contains_key(chain_id));
                    assert(!self.hostchains@[host].member_chains@.contains(chain_id));
                }
                let res = self.affiliate_sidechain(chain_id, host);
                proof {
                    assert(res is Ok);
                }
            }
        }
        if security_mode != SecurityMode::Sovereign {
            let ghost mid = *self;
            match self.assign_validators(chain_id) {
                Ok(_) => {},
                Err(e) => {
                    return Err(e);
                },
            }
            proof {
                assert(self.sidechains@.remove(chain_id) =~= old_chains);
            }
        }
        Ok(chain_id)
    }

    /// Adds a validator to a Sovereign chain.
    pub fn add_validator_to_chain(&mut self, chain_id: ChainId, validator: AccountId) -> (r: Result<(), ChainError>)
        requires
            old(self).inv(),
        ensures
            final(self).inv(),
            final(self).same_but_chains(old(self)),
            ({
                let c = old(self).chains()[chain_id];
                &&& !old(self).chains().contains_key(chain_id) ==> r == Err::<(), ChainError>(ChainError::ChainNotFound)
                &&& old(self).chains().contains_key(chain_id) && c.security_mode != SecurityMode::Sovereign ==> r
                    == Err::<(), ChainError>(ChainError::InvalidSecurityMode)
                &&& old(self).chains().contains_key(chain_id) && c.security_mode == SecurityMode::Sovereign
                    && c.validators@.contains(validator) ==> r == Err::<(), ChainError>(
                    ChainError::ChainTypeError(ChainTypeError::ValidatorAlreadyPresent),
                )
                &&& old(self).chains().contains_key(chain_id) && c.security_mode == SecurityMode::Sovereign
                    && !c.validators@.contains(validator) ==> r is Ok
                &&& r.is_err() ==> final(self).chains() == old(self).chains()
                &&& r.is_ok() ==> final(self).chains() == old(self).chains().insert(
                    chain_id,
                    SidechainInfo { validators: final(self).chains()[chain_id].validators, ..c },
                ) && final(self).chains()[chain_id].validators@ == c.validators@.push(validator)
            }),
    {
        let i = match self.sidechains.find(&chain_id) {
            Some(i) => i,
            None => return Err(ChainError::ChainNotFound),
        };
        if self.sidechains.val_at(i).security_mode != SecurityMode::Sovereign {
            return Err(ChainError::InvalidSecurityMode);
        }
        if vec_contains(&self.sidechains.val_at(i).validators, &validator) {
            return Err(ChainError::ChainTypeError(ChainTypeError::ValidatorAlreadyPresent));
        }
        let ghost before = self.sidechains;
        let sc = self.sidechains.val_at_mut(i);
        let _ = sc.add_validator(validator);
        proof {
            let nv = self.sidechains.val_seq()[i as int];
            VecMap::lemma_update_at(&before, &self.sidechains, i as int, nv);
            before.lemma_wf();
            assert(self.sidechains@.dom() =~= before@.dom());
        }
        Ok(())
    }

    /// Removes a validator from a Sovereign chain.
    pub fn remove_validator_from_chain(&mut self, chain_id: ChainId, validator: &AccountId) -> (r: Result<(), ChainError>)
        requires
            old(self).inv(),
        ensures
            final(self).inv(),
            final(self).same_but_chains(old(self)),
            ({
                let c = old(self).chains()[chain_id];
                &&& !old(self).chains().contains_key(chain_id) ==> r == Err::<(), ChainError>(ChainError::ChainNotFound)
                &&& old(self).chains().contains_key(chain_id) && c.security_mode != SecurityMode::Sovereign ==> r
                    == Err::<(), ChainError>(ChainError::InvalidSecurityMode)
                &&& old(self).chains().contains_key(chain_id) && c.security_mode == SecurityMode::Sovereign
                    && !c.validators@.contains(*validator) ==> r == Err::<(), ChainError>(
                    ChainError::ChainTypeError(ChainTypeError::ValidatorNotFound),
                )
                &&& old(self).chains().contains_key(chain_id) && c.security_mode == SecurityMode::Sovereign
                    && c.validators@.contains(*validator) ==> r is Ok
                &&& r.is_err() ==> final(self).chains() == old(self).chains()
                &&& r.is_ok() ==> final(self).chains() == old(self).chains().insert(
                    chain_id,
                    SidechainInfo { validators: final(self).chains()[chain_id].validators, ..c },
                ) && final(self).chains()[chain_id].validators@ == c.validators@.filter(
                    crate::vecmap::neq_pred(*validator),
                )
            }),
    {
        let i = match self.sidechains.find(&chain_id) {
            Some(i) => i,
            None => return Err(ChainError::ChainNotFound),
        };
        if self.sidechains.val_at(i).security_mode != SecurityMode::Sovereign {
            return Err(ChainError::InvalidSecurityMode);
        }
        if !vec_contains(&self.sidechains.val_at(i).validators, validator) {
            return Err(ChainError::ChainTypeError(ChainTypeError::ValidatorNotFound));
        }
        let ghost before = self.sidechains;
        let sc = self.sidechains.val_at_mut(i);
        let _ = sc.remove_validator(validator);
        proof {
            let nv = self.sidechains.val_seq()[i as int];
            VecMap::lemma_update_at(&before, &self.sidechains, i as int, nv);
            before.lemma_wf();
            assert(self.sidechains@.dom() =~= before@.dom());
        }
        Ok(())
    }

    /// Chains that differ from `old` at most in their validator lists, and
    /// only those affiliated with `host_id`.
    pub open spec fn only_validators_of_host_changed(&self, old: &Self, host_id: ChainId) -> bool {
        &&& self.chains().dom() == old.chains().dom()
        &&& forall|c: ChainId| #[trigger]
            self.chains().contains_key(c) ==> self.chains()[c] == (SidechainInfo {
                validators: self.chains()[c].validators,
                ..old.chains()[c]
            })
        &&& forall|c: ChainId| #[trigger]
            self.chains().contains_key(c) && !(old.host_of().contains_key(c) && old.host_of()[c] == host_id)
                ==> self.chains()[c] == old.chains()[c]
    }

    /// The error that assigning validators to `chain_id` would give, if any.
    pub open spec fn assignment_error(&self, chain_id: ChainId) -> Option<ChainError> {
        match self.spec_assignment(chain_id) {
            Ok(_) => None,
            Err(e) => Some(e),
        }
    }

    /// Changing only validator lists leaves every assignment error as it was.
    proof fn lemma_assignment_error_kept(&self, old: &Self, host_id: ChainId, c: ChainId)
        requires
            self.same_but_chains(old),
            self.only_validators_of_host_changed(old, host_id),
        ensures
            self.assignment_error(c) == old.assignment_error(c),
    {
        if self.chains().contains_key(c) {
            let p = self.chains()[c].parent;
            assert(self.chains()[c].security_mode == old.chains()[c].security_mode);
            assert(p == old.chains()[c].parent);
            if p is Some {
                assert(self.chains().contains_key(p->0) == old.chains().contains_key(p->0));
            }
        }
    }

    /// Re-assigns validators to every chain affiliated with `host_id`, in
    /// affiliation order, stopping at the first error.
    fn reassign_host_chains(&mut self, host_id: ChainId) -> (r: Result<(), ChainError>)
        requires
            old(self).inv(),
        ensures
            final(self).inv(),
            final(self).same_but_chains(old(self)),
            final(self).only_validators_of_host_changed(old(self), host_id),
            r.is_ok() ==> forall|c: ChainId| #[trigger]
                final(self).chains().contains_key(c) && final(self).host_of().contains_key(c) && final(self).host_of()[c] == host_id && final(self).chains()[c].security_mode == SecurityMode::Shared
                    && final(self).hosts().contains_key(host_id) ==> final(self).chains()[c].validators@
                    == final(self).hosts()[host_id].validator_pool@,
            r is Ok <==> forall|c: ChainId|
                old(self).host_of().contains_key(c) && old(self).host_of()[c] == host_id
                    ==> #[trigger] old(self).assignment_error(c) is None,
            r matches Err(e) ==> exists|c: ChainId|
                old(self).host_of().contains_key(c) && old(self).host_of()[c] == host_id
                    && #[trigger] old(self).assignment_error(c) == Some(e),
    {
        let mut affiliated: Vec<ChainId> = Vec::new();
        let n = self.sidechain_to_host.len();
        let mut i: usize = 0;
        proof {
            self.sidechain_to_host.lemma_wf();
        }
        while i < n
            invariant
                self.inv(),
                *self == *old(self),
                n == self.sidechain_to_host.key_seq().len(),
                n == self.sidechain_to_host.val_seq().len(),
                i <= n,
                forall|j: int| 0 <= j < affiliated@.len() ==> #[trigger] self.host_of().contains_key(affiliated@[j])
                    && self.host_of()[affiliated@[j]] == host_id,
                forall|j: int|
                    0 <= j < i && #[trigger] self.sidechain_to_host.val_seq()[j] == host_id ==> affiliated@.contains(
                        self.sidechain_to_host.key_seq()[j],
                    ),
                forall|j: int| 0 <= j < n ==> #[trigger] self.sidechain_to_host@.contains_key(self.sidechain_to_host.key_seq()[j])
                    && self.sidechain_to_host@[self.sidechain_to_host.key_seq()[j]] == self.sidechain_to_host.val_seq()[j],
                forall|c: ChainId| #[trigger] self.sidechain_to_host@.contains_key(c) ==> exists|j: int|
                    0 <= j < n && self.sidechain_to_host.key_seq()[j] == c,
            decreases n - i,
        {
            let ghost old_aff = affiliated@;
            let h = *self.sidechain_to_host.val_at(i);
            if h.key_eq(&host_id) {
                let c = *self.sidechain_to_host.key_at(i);
                proof {
                    assert(self.sidechain_to_host@.contains_key(self.sidechain_to_host.key_seq()[i as int]));
                    assert(self.host_of()[c] == host_id);
                }
                affiliated.push(c);
                proof {
                    assert(affiliated@.last() == c);
                }
            }
            proof {
                assert forall|j: int|
                    0 <= j < i + 1 && #[trigger] self.sidechain_to_host.val_seq()[j] == host_id implies affiliated@.contains(
                        self.sidechain_to_host.key_seq()[j],
                    ) by {
                    if j == i {
                        assert(affiliated@[affiliated@.len() - 1] == self.sidechain_to_host.key_seq()[j]);
                    } else {
                        assert(old_aff.contains(self.sidechain_to_host.key_seq()[j]));
                        let k = choose|k: int| 0 <= k < old_aff.len() && old_aff[k] == self.sidechain_to_host.key_seq()[j];
                        assert(affiliated@[k] == old_aff[k]);
                    }
                }
            }
            i = i + 1;
        }
        let m = affiliated.len();
        let mut k: usize = 0;
        while k < m
            invariant
                self.inv(),
                self.same_but_chains(old(self)),
                self.only_validators_of_host_changed(old(self), host_id),
                k <= m,
                m == affiliated@.len(),
                forall|j: int| 0 <= j < m ==> #[trigger] old(self).host_of().contains_key(affiliated@[j])
                    && old(self).host_of()[affiliated@[j]] == host_id,
                forall|c: ChainId| #[trigger] old(self).host_of().contains_key(c) && old(self).host_of()[c] == host_id
                    ==> affiliated@.contains(c),
                forall|j: int| 0 <= j < k ==> #[trigger] old(self).assignment_error(affiliated@[j]) is None,
                forall|j: int|
                    0 <= j < k ==> {
                        let c = #[trigger] affiliated@[j];
                        self.chains().contains_key(c) && self.chains()[c].security_mode == SecurityMode::Shared
                            && self.hosts().contains_key(host_id) ==> self.chains()[c].validators@ == self.hosts()[host_id].validator_pool@
                    },
            decreases m - k,
        {
            let c = affiliated[k];
            let ghost mid = *self;
            let res = self.assign_validators(c);
            proof {
                mid.lemma_assignment_error_kept(old(self), host_id, c);
                assert(old(self).host_of().contains_key(c) && old(self).host_of()[c] == host_id) by {
                    let jj = choose|jj: int| 0 <= jj < m && affiliated@[jj] == c;
                    assert(old(self).host_of().contains_key(affiliated@[jj]));
                }
                assert forall|d: ChainId| #[trigger] self.chains().contains_key(d) implies self.chains()[d]
                    == (SidechainInfo { validators: self.chains()[d].validators, ..old(self).chains()[d] }) by {
                    assert(mid.chains().contains_key(d));
                    assert(mid.chains()[d] == (SidechainInfo {
                        validators: mid.chains()[d].validators,
                        ..old(self).chains()[d]
                    }));
                }
                assert forall|d: ChainId| #[trigger]
                    self.chains().contains_key(d) && !(old(self).host_of().contains_key(d) && old(self).host_of()[d]
                        == host_id) implies self.chains()[d] == old(self).chains()[d] by {
                    assert(d != c);
                    assert(mid.chains().contains_key(d));
                }
            }
            match res {
                Ok(_) => {},
                Err(e) => {
                    proof {
                        assert(old(self).assignment_error(c) == Some(e));
                        assert(!(old(self).assignment_error(c) is None));
                    }
                    return Err(e);
                },
            }
            proof {
                assert(old(self).assignment_error(c) is None);
                assert(affiliated@[k as int] == c);
            }
            k = k + 1;
        }
        proof {
            assert forall|c: ChainId|
                old(self).host_of().contains_key(c) && old(self).host_of()[c] == host_id
                    implies #[trigger] old(self).assignment_error(c) is None by {
                assert(affiliated@.contains(c));
                let j = choose|j: int| 0 <= j < m && affiliated@[j] == c;
            }
            assert forall|c: ChainId| #[trigger]
                self.chains().contains_key(c) && self.host_of().contains_key(c) && self.host_of()[c] == host_id
                    && self.chains()[c].security_mode == SecurityMode::Shared && self.hosts().contains_key(host_id)
                    implies self.chains()[c].validators@ == self.hosts()[host_id].validator_pool@ by {
                assert(affiliated@.contains(c));
                let j = choose|j: int| 0 <= j < m && affiliated@[j] == c;
            }
        }
        Ok(())
    }

    /// Adds a validator to a host's pool and re-assigns validators to the
    /// host's affiliated chains.
    pub fn add_validator_to_hostchain(&mut self, host_id: ChainId, validator: AccountId) -> (r: Result<(), ChainError>)
        requires
            old(self).inv(),
        ensures
            final(self).inv(),
            !old(self).hosts().contains_key(host_id) ==> r == Err::<(), ChainError>(ChainError::HostNotFound)
                && *final(self) == *old(self),
            old(self).hosts().contains_key(host_id) && old(self).hosts()[host_id].validator_pool@.contains(validator)
                ==> r == Err::<(), ChainError>(ChainError::ChainTypeError(ChainTypeError::ValidatorAlreadyPresent))
                && *final(self) == *old(self),
            old(self).hosts().contains_key(host_id) && !old(self).hosts()[host_id].validator_pool@.contains(validator)
                ==> {
                let h = old(self).hosts()[host_id];
                &&& final(self).hosts() == old(self).hosts().insert(
                    host_id,
                    HostChainInfo { validator_pool: final(self).hosts()[host_id].validator_pool, ..h },
                )
                &&& final(self).hosts()[host_id].validator_pool@ == h.validator_pool@.push(validator)
                &&& final(self).host_of() == old(self).host_of()
                &&& final(self).next_id() == old(self).next_id()
                &&& final(self).last_check() == old(self).last_check()
                &&& final(self).only_validators_of_host_changed(old(self), host_id)
                &&& r.is_ok() ==> forall|c: ChainId| #[trigger]
                    final(self).chains().contains_key(c) && final(self).host_of().contains_key(c) && final(self).host_of()[c] == host_id && final(self).chains()[c].security_mode == SecurityMode::Shared
                        ==> final(self).chains()[c].validators@ == final(self).hosts()[host_id].validator_pool@
            },
    {
        let j = match self.hostchains.find(&host_id) {
            Some(j) => j,
            None => return Err(ChainError::HostNotFound),
        };
        if vec_contains(&self.hostchains.val_at(j).validator_pool, &validator) {
            return Err(ChainError::ChainTypeError(ChainTypeError::ValidatorAlreadyPresent));
        }
        let ghost before = self.hostchains;
        let host = self.hostchains.val_at_mut(j);
        let _ = host.add_validator(validator);
        proof {
            let nv = self.hostchains.val_seq()[j as int];
            VecMap::lemma_update_at(&before, &self.hostchains, j as int, nv);
            before.lemma_wf();
            assert(self.hostchains@.dom() =~= before@.dom());
        }
        self.reassign_host_chains(host_id)
    }

    /// Removes a validator from a host's pool and re-assigns validators to
    /// the host's affiliated chains.
    pub fn remove_validator_from_hostchain(&mut self, host_id: ChainId, validator: &AccountId) -> (r: Result<(), ChainError>)
        requires
            old(self).inv(),
        ensures
            final(self).inv(),
            !old(self).hosts().contains_key(host_id) ==> r == Err::<(), ChainError>(ChainError::HostNotFound)
                && *final(self) == *old(self),
            old(self).hosts().contains_key(host_id) && !old(self).hosts()[host_id].validator_pool@.contains(*validator)
                ==> r == Err::<(), ChainError>(ChainError::ChainTypeError(ChainTypeError::ValidatorNotFound))
                && *final(self) == *old(self),
            old(self).hosts().contains_key(host_id) && old(self).hosts()[host_id].validator_pool@.contains(*validator)
                ==> {
                let h = old(self).hosts()[host_id];
                &&& final(self).hosts() == old(self).hosts().insert(
                    host_id,
                    HostChainInfo { validator_pool: final(self).hosts()[host_id].validator_pool, ..h },
                )
                &&& final(self).hosts()[host_id].validator_pool@ == h.validator_pool@.filter(
                    crate::vecmap::neq_pred(*validator),
                )
                &&& final(self).host_of() == old(self).host_of()
                &&& final(self).next_id() == old(self).next_id()
                &&& final(self).last_check() == old(self).last_check()
                &&& final(self).only_validators_of_host_changed(old(self), host_id)
                &&& r.is_ok() ==> forall|c: ChainId| #[trigger]
                    final(self).chains().contains_key(c) && final(self).host_of().contains_key(c) && final(self).host_of()[c] == host_id && final(self).chains()[c].security_mode == SecurityMode::Shared
                        ==> final(self).chains()[c].validators@ == final(self).hosts()[host_id].validator_pool@
            },
    {
        let j = match self.hostchains.find(&host_id) {
            Some(j) => j,
            None => return Err(ChainError::HostNotFound),
        };
        if !vec_contains(&self.hostchains.val_at(j).validator_pool, validator) {
            return Err(ChainError::ChainTypeError(ChainTypeError::ValidatorNotFound));
        }
        let ghost before = self.hostchains;
        let host = self.hostchains.val_at_mut(j);
        let _ = host.remove_validator(validator);
        proof {
            let nv = self.hostchains.val_seq()[j as int];
            VecMap::lemma_update_at(&before, &self.hostchains, j as int, nv);
            before.lemma_wf();
            assert(self.hostchains@.dom() =~= before@.dom());
        }
        self.reassign_host_chains(host_id)
    }

    /// The first purge condition a chain meets, in the order: inactivity,
    /// governance failures, validator fraud, state divergence.
    pub open spec fn spec_purge_trigger(c: SidechainInfo, current_block: BlockNumber) -> Option<PurgeTrigger> {
        if c.spec_is_inactive(current_block, INACTIVITY_THRESHOLD_V3_1) {
            Some(PurgeTrigger::Inactivity)
        } else if c.governance_failures >= GOVERNANCE_FAILURE_THRESHOLD {
            Some(PurgeTrigger::GovernanceFailure)
        } else if c.validators@.len() != 0 && spec_sat_mul64(c.slashed_validators_count as u64, 100)
            >= spec_sat_mul64(c.validators@.len() as u64, VALIDATOR_FRAUD_THRESHOLD_PERCENT as u64) {
            Some(PurgeTrigger::ValidatorFraud)
        } else if c.state_divergence_detected_at is Some {
            Some(PurgeTrigger::StateDivergence)
        } else {
            None
        }
    }

    /// A chain meets a purge condition whenever a state divergence has been
    /// recorded on it, when it has been inactive for the v3.1 threshold, or
    /// when its governance failed the threshold number of times; with none
    /// of these and no slashed validator it meets none. Inactivity comes
    /// first, then governance failure; a recorded divergence with neither
    /// and no slashed validator is reported as a state divergence.
    pub proof fn law_purge_trigger_conditions(c: SidechainInfo, current_block: BlockNumber)
        ensures
            c.state_divergence_detected_at is Some ==> Self::spec_purge_trigger(c, current_block) is Some,
            c.spec_is_inactive(current_block, INACTIVITY_THRESHOLD_V3_1) ==> Self::spec_purge_trigger(c, current_block)
                == Some(PurgeTrigger::Inactivity),
            !c.spec_is_inactive(current_block, INACTIVITY_THRESHOLD_V3_1) && c.governance_failures
                >= GOVERNANCE_FAILURE_THRESHOLD ==> Self::spec_purge_trigger(c, current_block) == Some(
                PurgeTrigger::GovernanceFailure,
            ),
            c.state_divergence_detected_at is Some && !c.spec_is_inactive(current_block, INACTIVITY_THRESHOLD_V3_1)
                && c.governance_failures < GOVERNANCE_FAILURE_THRESHOLD && c.slashed_validators_count == 0
                && c.validators@.len() <= usize::MAX ==> Self::spec_purge_trigger(c, current_block) == Some(
                PurgeTrigger::StateDivergence,
            ),
            c.state_divergence_detected_at is None && !c.spec_is_inactive(current_block, INACTIVITY_THRESHOLD_V3_1)
                && c.governance_failures < GOVERNANCE_FAILURE_THRESHOLD && c.slashed_validators_count == 0
                && c.validators@.len() <= usize::MAX ==> Self::spec_purge_trigger(c, current_block) is None,
            Self::spec_purge_trigger(c, current_block) == Some(PurgeTrigger::StateDivergence)
                ==> c.state_divergence_detected_at is Some,
            Self::spec_purge_trigger(c, current_block) == Some(PurgeTrigger::ValidatorFraud) && c.validators@.len()
                <= usize::MAX ==> c.slashed_validators_count > 0,
            !c.spec_is_inactive(current_block, INACTIVITY_THRESHOLD_V3_1) && c.governance_failures
                < GOVERNANCE_FAILURE_THRESHOLD && c.slashed_validators_count * 100 <= u64::MAX && c.validators@.len() * 33
                <= u64::MAX ==> (Self::spec_purge_trigger(
                c,
                current_block,
            ) == Some(PurgeTrigger::ValidatorFraud) <==> c.validators@.len() > 0 && c.slashed_validators_count * 100
                >= c.validators@.len() * 33),
    {
        if c.slashed_validators_count * 100 <= u64::MAX && c.validators@.len() * 33 <= u64::MAX {
            assert(c.validators@.len() <= u64::MAX) by (nonlinear_arith)
                requires
                    c.validators@.len() * 33 <= u64::MAX,
            ;
            assert(c.slashed_validators_count <= u64::MAX);
            let n = c.validators@.len() as u64;
            let k = c.slashed_validators_count as u64;
            assert(n == c.validators@.len());
            assert(k == c.slashed_validators_count);
            assert(spec_sat_mul64(k, 100) == k * 100);
            assert(spec_sat_mul64(n, 33) == n * 33);
        }
        if c.slashed_validators_count == 0 && c.validators@.len() != 0 && c.validators@.len() <= usize::MAX {
            let n = c.validators@.len() as u64;
            assert(n == c.validators@.len());
            assert(spec_sat_mul64(c.slashed_validators_count as u64, 100) == 0);
            assert(n * 33 > 0) by (nonlinear_arith)
                requires
                    n != 0,
            ;
            assert(spec_sat_mul64(n, VALIDATOR_FRAUD_THRESHOLD_PERCENT as u64) > 0);
        }
    }

    /// Which purge condition, if any, a chain meets.
    pub fn check_purge_triggers(&self, chain_id: ChainId, current_block: BlockNumber) -> (r: Option<PurgeTrigger>)
        requires
            self.inv(),
        ensures
            r == (if self.chains().contains_key(chain_id) {
                Self::spec_purge_trigger(self.chains()[chain_id], current_block)
            } else {
                None
            }),
    {
        let sc = match self.sidechains.get(&chain_id) {
            Some(sc) => sc,
            None => return None,
        };
        if sc.is_inactive(current_block, INACTIVITY_THRESHOLD_V3_1) {
            return Some(PurgeTrigger::Inactivity);
        }
        if sc.governance_failures >= GOVERNANCE_FAILURE_THRESHOLD {
            return Some(PurgeTrigger::GovernanceFailure);
        }
        if sc.validators.len() != 0 {
            let slashed = sc.slashed_validators_count as u64;
            let total = sc.validators.len() as u64;
            let threshold = VALIDATOR_FRAUD_THRESHOLD_PERCENT as u64;
            if sat_mul64(slashed, 100) >= sat_mul64(total, threshold) {
                return Some(PurgeTrigger::ValidatorFraud);
            }
        }
        if sc.state_divergence_detected_at.is_some() {
            return Some(PurgeTrigger::StateDivergence);
        }
        None
    }

    /// Puts an Active or Inactive chain into PendingPurge at `current_block`.
    pub fn trigger_purge(&mut self, chain_id: ChainId, trigger: PurgeTrigger, current_block: BlockNumber) -> (r: Result<(), ChainError>)
        requires
            old(self).inv(),
        ensures
            final(self).inv(),
            final(self).same_but_chains(old(self)),
            ({
                let c = old(self).chains()[chain_id];
                &&& !old(self).chains().contains_key(chain_id) ==> r == Err::<(), ChainError>(ChainError::ChainNotFound)
                &&& old(self).chains().contains_key(chain_id) && !(c.status == ChainStatus::Active || c.status
                    == ChainStatus::Inactive) ==> r == Err::<(), ChainError>(ChainError::InvalidState)
                &&& old(self).chains().contains_key(chain_id) && (c.status == ChainStatus::Active || c.status
                    == ChainStatus::Inactive) ==> r == Ok::<(), ChainError>(()) && final(self).chains() == old(self).chains().insert(
                    chain_id,
                    SidechainInfo {
                        status: ChainStatus::PendingPurge,
                        purge_triggered_at: Some(current_block),
                        purge_trigger: Some(trigger),
                        ..c
                    },
                )
                &&& r.is_err() ==> final(self).chains() == old(self).chains()
            }),
    {
        let i = match self.sidechains.find(&chain_id) {
            Some(i) => i,
            None => return Err(ChainError::ChainNotFound),
        };
        let st = self.sidechains.val_at(i).status;
        if !(st == ChainStatus::Active || st == ChainStatus::Inactive) {
            return Err(ChainError::InvalidState);
        }
        let ghost before = self.sidechains;
        let sc = self.sidechains.val_at_mut(i);
        sc.status = ChainStatus::PendingPurge;
        sc.purge_triggered_at = Some(current_block);
        sc.purge_trigger = Some(trigger);
        proof {
            let nv = self.sidechains.val_seq()[i as int];
            VecMap::lemma_update_at(&before, &self.sidechains, i as int, nv);
            before.lemma_wf();
            assert(self.sidechains@.dom() =~= before@.dom());
        }
        Ok(())
    }

    /// The chain after one step of the purge state machine:
    /// PendingPurge (30 days) -> Frozen -> Snapshot -> WithdrawalWindow
    /// (30 days) -> Purged. Frozen -> Snapshot keeps the last verified state
    /// root as the snapshot root when none was set.
    pub open spec fn spec_advance(c: SidechainInfo, current_block: BlockNumber) -> SidechainInfo {
        match c.status {
            ChainStatus::PendingPurge => if c.purge_triggered_at is Some && current_block
                >= c.purge_triggered_at->0 + PURGE_WARNING_PERIOD {
                SidechainInfo { status: ChainStatus::Frozen, frozen_at: Some(current_block), ..c }
            } else {
                c
            },
            ChainStatus::Frozen => SidechainInfo {
                snapshot_state_root: if c.snapshot_state_root is None && c.last_verified_state_root is Some {
                    c.last_verified_state_root
                } else {
                    c.snapshot_state_root
                },
                status: ChainStatus::Snapshot,
                snapshot_at: Some(current_block),
                ..c
            },
            ChainStatus::Snapshot => SidechainInfo {
                status: ChainStatus::WithdrawalWindow,
                withdrawal_window_start: Some(current_block),
                ..c
            },
            ChainStatus::WithdrawalWindow => if c.withdrawal_window_start is Some && current_block
                >= c.withdrawal_window_start->0 + WITHDRAWAL_WINDOW_DURATION {
                SidechainInfo { status: ChainStatus::Purged, ..c }
            } else {
                c
            },
            _ => c,
        }
    }

    pub open spec fn no_purge_overflow(c: SidechainInfo) -> bool {
        &&& c.purge_triggered_at is Some ==> c.purge_triggered_at->0 + PURGE_WARNING_PERIOD <= u64::MAX
        &&& c.withdrawal_window_start is Some ==> c.withdrawal_window_start->0 + WITHDRAWAL_WINDOW_DURATION
            <= u64::MAX
    }

    /// Advances a chain's purge state by one step and returns its status. A
    /// chain that reaches Purged leaves its host.
    pub fn advance_purge_state(&mut self, chain_id: ChainId, current_block: BlockNumber) -> (r: Result<ChainStatus, ChainError>)
        requires
            old(self).inv(),
            old(self).chains().contains_key(chain_id) ==> Self::no_purge_overflow(old(self).chains()[chain_id]),
        ensures
            final(self).inv(),
            !old(self).chains().contains_key(chain_id) ==> r == Err::<ChainStatus, ChainError>(
                ChainError::ChainNotFound,
            ) && *final(self) == *old(self),
            old(self).chains().contains_key(chain_id) ==> {
                let c = old(self).chains()[chain_id];
                let n = Self::spec_advance(c, current_block);
                &&& r == Ok::<ChainStatus, ChainError>(n.status)
                &&& final(self).chains() == old(self).chains().insert(chain_id, n)
                &&& final(self).next_id() == old(self).next_id()
                &&& final(self).last_check() == old(self).last_check()
                &&& final(self).hosts().dom() == old(self).hosts().dom()
                &&& hosts_follow(old(self).hosts(), final(self).hosts(), old(self).host_of(), final(self).host_of())
                &&& c.status == ChainStatus::WithdrawalWindow && n.status == ChainStatus::Purged ==> final(self).host_of() == old(self).host_of().remove(chain_id)
                &&& !(c.status == ChainStatus::WithdrawalWindow && n.status == ChainStatus::Purged) ==> final(self).host_of() == old(self).host_of() && final(self).hosts() == old(self).hosts()
            },
    {
        let i = match self.sidechains.find(&chain_id) {
            Some(i) => i,
            None => return Err(ChainError::ChainNotFound),
        };
        let ghost before = self.sidechains;
        let sc = self.sidechains.val_at_mut(i);
        let mut purged_now = false;
        match sc.status {
            ChainStatus::PendingPurge => {
                if let Some(triggered_at) = sc.purge_triggered_at {
                    if current_block >= triggered_at + PURGE_WARNING_PERIOD {
                        sc.status = ChainStatus::Frozen;
                        sc.frozen_at = Some(current_block);
                    }
                }
            },
            ChainStatus::Frozen => {
                if sc.snapshot_state_root.is_none() {
                    if let Some(state_root) = sc.last_verified_state_root {
                        sc.snapshot_state_root = Some(state_root);
                    }
                }
                sc.status = ChainStatus::Snapshot;
                sc.snapshot_at = Some(current_block);
            },
            ChainStatus::Snapshot => {
                sc.status = ChainStatus::WithdrawalWindow;
                sc.withdrawal_window_start = Some(current_block);
            },
            ChainStatus::WithdrawalWindow => {
                if let Some(window_start) = sc.withdrawal_window_start {
                    if current_block >= window_start + WITHDRAWAL_WINDOW_DURATION {
                        sc.status = ChainStatus::Purged;
                        purged_now = true;
                    }
                }
            },
            _ => {},
        }
        let status = sc.status;
        proof {
            let nv = self.sidechains.val_seq()[i as int];
            VecMap::lemma_update_at(&before, &self.sidechains, i as int, nv);
            before.lemma_wf();
            assert(self.sidechains@.dom() =~= before@.dom());
        }
        if purged_now {
            self.detach_from_host(chain_id);
        } else {
            proof {
                lemma_hosts_follow_refl(self.hosts(), self.host_of());
            }
        }
        Ok(status)
    }

    /// Sidechain ids in creation order.
    fn chain_ids(&self) -> (r: Vec<ChainId>)
        requires
            self.inv(),
        ensures
            r@ == self.chain_order(),
    {
        let n = self.sidechains.len();
        let mut out: Vec<ChainId> = Vec::new();
        let mut i: usize = 0;
        while i < n
            invariant
                self.inv(),
                n == self.sidechains.key_seq().len(),
                i <= n,
                out@ == self.sidechains.key_seq().take(i as int),
            decreases n - i,
        {
            let k = *self.sidechains.key_at(i);
            proof {
                assert(self.sidechains.key_seq().take(i + 1) =~= self.sidechains.key_seq().take(i as int).push(k));
            }
            out.push(k);
            i = i + 1;
        }
        proof {
            assert(self.sidechains.key_seq().take(n as int) =~= self.sidechains.key_seq());
        }
        out
    }

    /// The periodic purge check is not yet due at `current_block`.
    pub open spec fn purge_check_pending(&self, current_block: BlockNumber) -> bool {
        current_block < self.last_check() + PURGE_CHECK_INTERVAL
    }

    fn purge_check_due(&self, current_block: BlockNumber) -> (b: bool)
        ensures
            b == !self.purge_check_pending(current_block),
    {
        current_block >= self.last_purge_check && current_block - self.last_purge_check >= PURGE_CHECK_INTERVAL
    }

    /// An active chain that has been inactive for the purge threshold.
    pub open spec fn is_purge_candidate(c: SidechainInfo, current_block: BlockNumber) -> bool {
        c.status == ChainStatus::Active && c.spec_is_inactive(current_block, INACTIVITY_THRESHOLD)
    }

    pub open spec fn candidate_pred(chains: Map<ChainId, SidechainInfo>, current_block: BlockNumber) -> spec_fn(
        ChainId,
    ) -> bool {
        |id: ChainId| Self::is_purge_candidate(chains[id], current_block)
    }

    /// Once the periodic check is due, purges every active chain that has
    /// been inactive for the threshold, and returns their ids in creation
    /// order.
    pub fn auto_purge_inactive(&mut self, current_block: BlockNumber) -> (r: Vec<ChainId>)
        requires
            old(self).inv(),
        ensures
            final(self).inv(),
            old(self).purge_check_pending(current_block) ==> r@.len() == 0 && *final(self) == *old(self),
            !old(self).purge_check_pending(current_block) ==> {
                &&& r@ == old(self).chain_order().filter(Self::candidate_pred(old(self).chains(), current_block))
                &&& final(self).last_check() == current_block
                &&& final(self).next_id() == old(self).next_id()
                &&& final(self).chains().dom() == old(self).chains().dom()
                &&& forall|c: ChainId| #[trigger]
                    old(self).chains().contains_key(c) ==> final(self).chains()[c] == (if Self::is_purge_candidate(
                        old(self).chains()[c],
                        current_block,
                    ) {
                        SidechainInfo { status: ChainStatus::Purged, ..old(self).chains()[c] }
                    } else {
                        old(self).chains()[c]
                    })
                &&& forall|c: ChainId| #[trigger]
                    final(self).host_of().contains_key(c) <==> old(self).host_of().contains_key(c) && !(old(self).chains().contains_key(c) && Self::is_purge_candidate(old(self).chains()[c], current_block))
                &&& forall|c: ChainId| #[trigger]
                    final(self).host_of().contains_key(c) ==> final(self).host_of()[c] == old(self).host_of()[c]
                &&& final(self).hosts().dom() == old(self).hosts().dom()
                &&& hosts_follow(old(self).hosts(), final(self).hosts(), old(self).host_of(), final(self).host_of())
            },
    {
        if !self.purge_check_due(current_block) {
            return Vec::new();
        }
        self.last_purge_check = current_block;
        let ghost start = *self;
        let ghost pred = Self::candidate_pred(start.chains(), current_block);
        let ids = self.chain_ids();
        proof {
            self.sidechains.lemma_wf();
        }
        let n = ids.len();
        let mut cands: Vec<ChainId> = Vec::new();
        let mut i: usize = 0;
        while i < n
            invariant
                *self == start,
                self.inv(),
                pred == Self::candidate_pred(start.chains(), current_block),
                ids@ == start.chain_order(),
                ids@ == self.sidechains.key_seq(),
                self.sidechains.key_seq().len() == self.sidechains.val_seq().len(),
                n == ids@.len(),
                i <= n,
                cands@ == ids@.take(i as int).filter(pred),
            decreases n - i,
        {
            let id = ids[i];
            let sc = self.sidechains.val_at(i);
            let is_cand = sc.status == ChainStatus::Active && sc.is_inactive(current_block, INACTIVITY_THRESHOLD);
            proof {
                assert(ids@.take(i + 1) =~= ids@.take(i as int).push(id));
                ids@.take(i as int).lemma_filter_push(id, pred);
            }
            if is_cand {
                cands.push(id);
            }
            i = i + 1;
        }
        proof {
            assert(ids@.take(n as int) =~= ids@);
            assert forall|k: int| 0 <= k < cands@.len() implies start.chains().contains_key(#[trigger] cands@[k])
                && Self::is_purge_candidate(start.chains()[cands@[k]], current_block) by {
                crate::vecmap::lemma_filter_membership(ids@, pred, cands@[k]);
                let w = choose|w: int| 0 <= w < ids@.len() && ids@[w] == cands@[k];
            }
        }
        proof {
            lemma_hosts_follow_refl(start.hosts(), start.host_of());
        }
        let m = cands.len();
        let mut purged: Vec<ChainId> = Vec::new();
        let mut j: usize = 0;
        while j < m
            invariant
                self.inv(),
                m == cands@.len(),
                j <= m,
                purged@ == cands@.take(j as int),
                forall|k: int|
                    0 <= k < cands@.len() ==> start.chains().contains_key(#[trigger] cands@[k])
                        && Self::is_purge_candidate(start.chains()[cands@[k]], current_block),
                self.last_check() == current_block,
                self.next_id() == start.next_id(),
                self.chains().dom() == start.chains().dom(),
                self.hosts().dom() == start.hosts().dom(),
                forall|c: ChainId| #[trigger]
                    start.chains().contains_key(c) ==> self.chains()[c] == (if cands@.take(j as int).contains(c) {
                        SidechainInfo { status: ChainStatus::Purged, ..start.chains()[c] }
                    } else {
                        start.chains()[c]
                    }),
                forall|c: ChainId| #[trigger]
                    self.host_of().contains_key(c) <==> start.host_of().contains_key(c) && !cands@.take(
                        j as int,
                    ).contains(c),
                forall|c: ChainId| #[trigger] self.host_of().contains_key(c) ==> self.host_of()[c] == start.host_of()[c],
                hosts_follow(start.hosts(), self.hosts(), start.host_of(), self.host_of()),
            decreases m - j,
        {
            let id = cands[j];
            let ghost before = *self;
            proof {
                assert(start.chains().contains_key(cands@[j as int]));
                assert(before.chains()[id].last_activity == start.chains()[id].last_activity);
            }
            let res = self.purge_sidechain(id, current_block);
            proof {
                if res.is_ok() {
                    lemma_hosts_follow_trans(
                        start.hosts(),
                        before.hosts(),
                        self.hosts(),
                        start.host_of(),
                        before.host_of(),
                        self.host_of(),
                    );
                }
            }
            proof {
                assert(cands@.take(j + 1) =~= cands@.take(j as int).push(id));
                assert forall|c: ChainId| #[trigger] start.chains().contains_key(c) implies self.chains()[c] == (
                if cands@.take(j + 1).contains(c) {
                    SidechainInfo { status: ChainStatus::Purged, ..start.chains()[c] }
                } else {
                    start.chains()[c]
                }) by {
                    if c != id {
                        assert(cands@.take(j + 1).contains(c) == cands@.take(j as int).contains(c));
                    } else {
                        assert(cands@.take(j + 1)[j as int] == id);
                    }
                }
                assert forall|c: ChainId| #[trigger]
                    self.host_of().contains_key(c) <==> start.host_of().contains_key(c) && !cands@.take(
                        j + 1,
                    ).contains(c) by {
                    if c != id {
                        assert(cands@.take(j + 1).contains(c) == cands@.take(j as int).contains(c));
                    } else {
                        assert(cands@.take(j + 1)[j as int] == id);
                    }
                }
            }
            if res.is_ok() {
                purged.push(id);
            }
            j = j + 1;
        }
        proof {
            assert(cands@.take(m as int) =~= cands@);
            start.sidechains.lemma_wf();
            assert forall|c: ChainId| #[trigger] start.chains().contains_key(c) implies (cands@.contains(c)
                <==> Self::is_purge_candidate(start.chains()[c], current_block)) by {
                crate::vecmap::lemma_filter_membership(ids@, pred, c);
                let w = choose|w: int| 0 <= w < ids@.len() && ids@[w] == c;
                assert(ids@.contains(c));
            }
        }
        purged
    }

    /// Every chain's purge deadlines fit in a block number.
    pub open spec fn all_no_purge_overflow(&self) -> bool {
        forall|c: ChainId| #[trigger]
            self.chains().contains_key(c) ==> Self::no_purge_overflow(self.chains()[c])
    }

    /// The trigger the periodic v3.1 check starts on a chain: only active or
    /// inactive chains are checked.
    pub open spec fn spec_new_trigger(c: SidechainInfo, current_block: BlockNumber) -> Option<PurgeTrigger> {
        if c.status == ChainStatus::Active || c.status == ChainStatus::Inactive {
            Self::spec_purge_trigger(c, current_block)
        } else {
            None
        }
    }

    pub open spec fn spec_after_trigger(c: SidechainInfo, current_block: BlockNumber) -> SidechainInfo {
        match Self::spec_new_trigger(c, current_block) {
            Some(t) => SidechainInfo {
                status: ChainStatus::PendingPurge,
                purge_triggered_at: Some(current_block),
                purge_trigger: Some(t),
                ..c
            },
            None => c,
        }
    }

    /// At most `n` purge steps, stopping after the first one that leaves
    /// the status as it was.
    pub open spec fn spec_advance_n(c: SidechainInfo, current_block: BlockNumber, n: nat) -> SidechainInfo
        decreases n,
    {
        if n == 0 {
            c
        } else {
            let next = Self::spec_advance(c, current_block);
            if next.status == c.status {
                next
            } else {
                Self::spec_advance_n(next, current_block, (n - 1) as nat)
            }
        }
    }

    /// What one run of the v3.1 check does to a chain.
    pub open spec fn spec_v3_1_step(c: SidechainInfo, current_block: BlockNumber) -> SidechainInfo {
        Self::spec_advance_n(Self::spec_after_trigger(c, current_block), current_block, 5)
    }

    /// A chain that the v3.1 check moves into Purged.
    pub open spec fn purged_by_step(
        chains: Map<ChainId, SidechainInfo>,
        c: ChainId,
        current_block: BlockNumber,
    ) -> bool {
        &&& chains.contains_key(c)
        &&& chains[c].status != ChainStatus::Purged
        &&& Self::spec_v3_1_step(chains[c], current_block).status == ChainStatus::Purged
    }

    /// The purges newly started, in the order of `order`.
    pub open spec fn spec_triggered_list(
        order: Seq<ChainId>,
        chains: Map<ChainId, SidechainInfo>,
        current_block: BlockNumber,
    ) -> Seq<(ChainId, PurgeTrigger)>
        decreases order.len(),
    {
        if order.len() == 0 {
            Seq::empty()
        } else {
            let prev = Self::spec_triggered_list(order.drop_last(), chains, current_block);
            match Self::spec_new_trigger(chains[order.last()], current_block) {
                Some(t) => prev.push((order.last(), t)),
                None => prev,
            }
        }
    }

    /// One chain's turn in the v3.1 check: start a purge if a trigger holds,
    /// then run the immediate purge transitions.
    fn process_chain_v3_1(&mut self, chain_id: ChainId, current_block: BlockNumber) -> (r: Option<PurgeTrigger>)
        requires
            old(self).inv(),
            old(self).chains().contains_key(chain_id),
            old(self).all_no_purge_overflow(),
            current_block + PURGE_WARNING_PERIOD <= u64::MAX,
            current_block + WITHDRAWAL_WINDOW_DURATION <= u64::MAX,
        ensures
            final(self).inv(),
            final(self).all_no_purge_overflow(),
            r == Self::spec_new_trigger(old(self).chains()[chain_id], current_block),
            final(self).chains() == old(self).chains().insert(
                chain_id,
                Self::spec_v3_1_step(old(self).chains()[chain_id], current_block),
            ),
            final(self).next_id() == old(self).next_id(),
            final(self).last_check() == old(self).last_check(),
            final(self).hosts().dom() == old(self).hosts().dom(),
            Self::purged_by_step(old(self).chains(), chain_id, current_block) ==> final(self).host_of() == old(self).host_of().remove(chain_id),
            !Self::purged_by_step(old(self).chains(), chain_id, current_block) ==> final(self).host_of() == old(self).host_of(),
            hosts_follow(old(self).hosts(), final(self).hosts(), old(self).host_of(), final(self).host_of()),
    {
        let ghost c0 = self.chains()[chain_id];
        let i = match self.sidechains.find(&chain_id) {
            Some(i) => i,
            None => return None,
        };
        let mut result: Option<PurgeTrigger> = None;
        let st = self.sidechains.val_at(i).status;
        if st == ChainStatus::Active || st == ChainStatus::Inactive {
            if let Some(trigger) = self.check_purge_triggers(chain_id, current_block) {
                if self.trigger_purge(chain_id, trigger, current_block).is_ok() {
                    result = Some(trigger);
                }
            }
        }
        let ghost c1 = self.chains()[chain_id];
        let ghost mid = *self;
        proof {
            assert(c1 == Self::spec_after_trigger(c0, current_block));
            assert(self.chains() == old(self).chains().insert(chain_id, c1));
            lemma_hosts_follow_refl(self.hosts(), self.host_of());
        }
        let mut max_iterations: u32 = 5;
        while max_iterations > 0
            invariant
                self.inv(),
                self.all_no_purge_overflow(),
                current_block + PURGE_WARNING_PERIOD <= u64::MAX,
                current_block + WITHDRAWAL_WINDOW_DURATION <= u64::MAX,
                self.chains().contains_key(chain_id),
                self.chains() == mid.chains().insert(chain_id, self.chains()[chain_id]),
                mid.chains().contains_key(chain_id),
                mid.chains()[chain_id] == c1,
                max_iterations <= 5,
                Self::spec_advance_n(c1, current_block, 5) == Self::spec_advance_n(
                    self.chains()[chain_id],
                    current_block,
                    max_iterations as nat,
                ),
                c1.status == ChainStatus::Purged ==> self.chains()[chain_id] == c1,
                self.next_id() == mid.next_id(),
                self.last_check() == mid.last_check(),
                self.hosts().dom() == mid.hosts().dom(),
                hosts_follow(mid.hosts(), self.hosts(), mid.host_of(), self.host_of()),
                self.host_of() == (if c1.status != ChainStatus::Purged && self.chains()[chain_id].status
                    == ChainStatus::Purged {
                    mid.host_of().remove(chain_id)
                } else {
                    mid.host_of()
                }),
            ensures
                self.inv(),
                self.all_no_purge_overflow(),
                self.chains() == mid.chains().insert(chain_id, Self::spec_advance_n(c1, current_block, 5)),
                self.next_id() == mid.next_id(),
                self.last_check() == mid.last_check(),
                self.hosts().dom() == mid.hosts().dom(),
                hosts_follow(mid.hosts(), self.hosts(), mid.host_of(), self.host_of()),
                self.host_of() == (if c1.status != ChainStatus::Purged && Self::spec_advance_n(
                    c1,
                    current_block,
                    5,
                ).status == ChainStatus::Purged {
                    mid.host_of().remove(chain_id)
                } else {
                    mid.host_of()
                }),
            decreases max_iterations,
        {
            let prev_status = match self.sidechains.get(&chain_id) {
                Some(sc) => sc.status,
                None => break,
            };
            let ghost cur = self.chains()[chain_id];
            let ghost pre = *self;
            if self.advance_purge_state(chain_id, current_block).is_err() {
                break;
            }
            proof {
                lemma_hosts_follow_trans(
                    mid.hosts(),
                    pre.hosts(),
                    self.hosts(),
                    mid.host_of(),
                    pre.host_of(),
                    self.host_of(),
                );
            }
            let new_status = match self.sidechains.get(&chain_id) {
                Some(sc) => sc.status,
                None => break,
            };
            proof {
                assert(self.chains() =~= mid.chains().insert(chain_id, self.chains()[chain_id]));
            }
            if prev_status == new_status {
                break;
            }
            max_iterations -= 1;
        }
        result
    }

    /// Once the periodic check is due: starts a purge on every active or
    /// inactive chain that meets a purge condition, and moves every chain
    /// through the purge transitions that are due. Returns the purges
    /// started, in creation order.
    pub fn auto_purge_v3_1(&mut self, current_block: BlockNumber) -> (r: Vec<(ChainId, PurgeTrigger)>)
        requires
            old(self).inv(),
            old(self).all_no_purge_overflow(),
            current_block + PURGE_WARNING_PERIOD <= u64::MAX,
            current_block + WITHDRAWAL_WINDOW_DURATION <= u64::MAX,
        ensures
            final(self).inv(),
            final(self).all_no_purge_overflow(),
            old(self).purge_check_pending(current_block) ==> r@.len() == 0 && *final(self) == *old(self),
            !old(self).purge_check_pending(current_block) ==> {
                &&& r@ == Self::spec_triggered_list(old(self).chain_order(), old(self).chains(), current_block)
                &&& final(self).last_check() == current_block
                &&& final(self).next_id() == old(self).next_id()
                &&& final(self).chains().dom() == old(self).chains().dom()
                &&& forall|c: ChainId| #[trigger]
                    old(self).chains().contains_key(c) ==> final(self).chains()[c] == Self::spec_v3_1_step(
                        old(self).chains()[c],
                        current_block,
                    )
                &&& forall|c: ChainId| #[trigger]
                    final(self).host_of().contains_key(c) <==> old(self).host_of().contains_key(c)
                        && !Self::purged_by_step(old(self).chains(), c, current_block)
                &&& forall|c: ChainId| #[trigger]
                    final(self).host_of().contains_key(c) ==> final(self).host_of()[c] == old(self).host_of()[c]
                &&& final(self).hosts().dom() == old(self).hosts().dom()
                &&& hosts_follow(old(self).hosts(), final(self).hosts(), old(self).host_of(), final(self).host_of())
            },
    {
        if !self.purge_check_due(current_block) {
            return Vec::new();
        }
        self.last_purge_check = current_block;
        let ghost start = *self;
        let ids = self.chain_ids();
        proof {
            self.sidechains.lemma_wf();
            lemma_hosts_follow_refl(start.hosts(), start.host_of());
            assert forall|k: int| 0 <= k < ids@.len() implies start.chains().contains_key(#[trigger] ids@[k]) by {
            }
        }
        let n = ids.len();
        let mut out: Vec<(ChainId, PurgeTrigger)> = Vec::new();
        let mut k: usize = 0;
        while k < n
            invariant
                self.inv(),
                self.all_no_purge_overflow(),
                current_block + PURGE_WARNING_PERIOD <= u64::MAX,
                current_block + WITHDRAWAL_WINDOW_DURATION <= u64::MAX,
                ids@ == start.chain_order(),
                ids@.no_duplicates(),
                forall|q: int| 0 <= q < ids@.len() ==> start.chains().contains_key(#[trigger] ids@[q]),
                n == ids@.len(),
                k <= n,
                out@ == Self::spec_triggered_list(ids@.take(k as int), start.chains(), current_block),
                self.chains().dom() == start.chains().dom(),
                forall|c: ChainId| #[trigger]
                    start.chains().contains_key(c) ==> self.chains()[c] == (if ids@.take(k as int).contains(c) {
                        Self::spec_v3_1_step(start.chains()[c], current_block)
                    } else {
                        start.chains()[c]
                    }),
                forall|c: ChainId| #[trigger]
                    self.host_of().contains_key(c) <==> start.host_of().contains_key(c) && !(ids@.take(
                        k as int,
                    ).contains(c) && Self::purged_by_step(start.chains(), c, current_block)),
                forall|c: ChainId| #[trigger] self.host_of().contains_key(c) ==> self.host_of()[c] == start.host_of()[c],
                self.next_id() == start.next_id(),
                self.last_check() == current_block,
                self.hosts().dom() == start.hosts().dom(),
                hosts_follow(start.hosts(), self.hosts(), start.host_of(), self.host_of()),
            decreases n - k,
        {
            let id = ids[k];
            let ghost before = *self;
            proof {
                assert(start.chains().contains_key(ids@[k as int]));
                assert(!ids@.take(k as int).contains(id)) by {
                    if ids@.take(k as int).contains(id) {
                        let w = choose|w: int| 0 <= w < k && ids@.take(k as int)[w] == id;
                        assert(ids@[w] == ids@[k as int]);
                    }
                }
                assert(self.chains()[id] == start.chains()[id]);
            }
            let t = self.process_chain_v3_1(id, current_block);
            proof {
                lemma_hosts_follow_trans(
                    start.hosts(),
                    before.hosts(),
                    self.hosts(),
                    start.host_of(),
                    before.host_of(),
                    self.host_of(),
                );
            }
            match t {
                Some(trigger) => {
                    out.push((id, trigger));
                },
                None => {},
            }
            proof {
                let tk1 = ids@.take(k + 1);
                assert(tk1.drop_last() =~= ids@.take(k as int));
                assert(tk1.last() == id);
                assert forall|c: ChainId| #[trigger] start.chains().contains_key(c) implies self.chains()[c] == (
                if tk1.contains(c) {
                    Self::spec_v3_1_step(start.chains()[c], current_block)
                } else {
                    start.chains()[c]
                }) by {
                    if c != id {
                        assert(tk1.contains(c) == ids@.take(k as int).contains(c)) by {
                            if tk1.contains(c) {
                                let w = choose|w: int| 0 <= w < tk1.len() && tk1[w] == c;
                                assert(ids@.take(k as int)[w] == c);
                            }
                        }
                    } else {
                        assert(tk1[k as int] == id);
                    }
                }
                assert forall|c: ChainId| #[trigger]
                    self.host_of().contains_key(c) <==> start.host_of().contains_key(c) && !(tk1.contains(c)
                        && Self::purged_by_step(start.chains(), c, current_block)) by {
                    if c != id {
                        assert(tk1.contains(c) == ids@.take(k as int).contains(c)) by {
                            if tk1.contains(c) {
                                let w = choose|w: int| 0 <= w < tk1.len() && tk1[w] == c;
                                assert(ids@.take(k as int)[w] == c);
                            }
                        }
                    } else {
                        assert(tk1[k as int] == id);
                    }
                }
            }
            k = k + 1;
        }
        proof {
            assert(ids@.take(n as int) =~= ids@);
            start.sidechains.lemma_wf();
            assert forall|c: ChainId| #[trigger] start.chains().contains_key(c) implies ids@.contains(c) by {
                let w = choose|w: int| 0 <= w < start.sidechains.key_seq().len() && start.sidechains.key_seq()[w] == c;
            }
        }
        out
    }

    /// Counts one more failed governance vote.
    pub fn record_governance_failure(&mut self, chain_id: ChainId) -> (r: Result<(), ChainError>)
        requires
            old(self).inv(),
            old(self).chains().contains_key(chain_id) ==> old(self).chains()[chain_id].governance_failures < u32::MAX,
        ensures
            final(self).inv(),
            final(self).same_but_chains(old(self)),
            !old(self).chains().contains_key(chain_id) ==> r == Err::<(), ChainError>(ChainError::ChainNotFound)
                && final(self).chains() == old(self).chains(),
            old(self).chains().contains_key(chain_id) ==> r == Ok::<(), ChainError>(()) && final(self).chains()
                == old(self).chains().insert(
                chain_id,
                SidechainInfo {
                    governance_failures: (old(self).chains()[chain_id].governance_failures + 1) as u32,
                    ..old(self).chains()[chain_id]
                },
            ),
    {
        let i = match self.sidechains.find(&chain_id) {
            Some(i) => i,
            None => return Err(ChainError::ChainNotFound),
        };
        let ghost before = self.sidechains;
        let sc = self.sidechains.val_at_mut(i);
        sc.governance_failures = sc.governance_failures + 1;
        proof {
            let nv = self.sidechains.val_seq()[i as int];
            VecMap::lemma_update_at(&before, &self.sidechains, i as int, nv);
            before.lemma_wf();
            assert(self.sidechains@.dom() =~= before@.dom());
        }
        Ok(())
    }

    /// Clears the failed-vote counter after a successful vote.
    pub fn reset_governance_failures(&mut self, chain_id: ChainId) -> (r: Result<(), ChainError>)
        requires
            old(self).inv(),
        ensures
            final(self).inv(),
            final(self).same_but_chains(old(self)),
            !old(self).chains().contains_key(chain_id) ==> r == Err::<(), ChainError>(ChainError::ChainNotFound)
                && final(self).chains() == old(self).chains(),
            old(self).chains().contains_key(chain_id) ==> r == Ok::<(), ChainError>(()) && final(self).chains()
                == old(self).chains().insert(
                chain_id,
                SidechainInfo { governance_failures: 0, ..old(self).chains()[chain_id] },
            ),
    {
        let i = match self.sidechains.find(&chain_id) {
            Some(i) => i,
            None => return Err(ChainError::ChainNotFound),
        };
        let ghost before = self.sidechains;
        let sc = self.sidechains.val_at_mut(i);
        sc.governance_failures = 0;
        proof {
            let nv = self.sidechains.val_seq()[i as int];
            VecMap::lemma_update_at(&before, &self.sidechains, i as int, nv);
            before.lemma_wf();
            assert(self.sidechains@.dom() =~= before@.dom());
        }
        Ok(())
    }

    /// Counts one more slashed validator on the chain.
    pub fn slash_validator(&mut self, chain_id: ChainId, _validator: &AccountId) -> (r: Result<(), ChainError>)
        requires
            old(self).inv(),
            old(self).chains().contains_key(chain_id) ==> old(self).chains()[chain_id].slashed_validators_count
                < usize::MAX,
        ensures
            final(self).inv(),
            final(self).same_but_chains(old(self)),
            !old(self).chains().contains_key(chain_id) ==> r == Err::<(), ChainError>(ChainError::ChainNotFound)
                && final(self).chains() == old(self).chains(),
            old(self).chains().contains_key(chain_id) ==> r == Ok::<(), ChainError>(()) && final(self).chains()
                == old(self).chains().insert(
                chain_id,
                SidechainInfo {
                    slashed_validators_count: (old(self).chains()[chain_id].slashed_validators_count + 1) as usize,
                    ..old(self).chains()[chain_id]
                },
            ),
    {
        let i = match self.sidechains.find(&chain_id) {
            Some(i) => i,
            None => return Err(ChainError::ChainNotFound),
        };
        let ghost before = self.sidechains;
        let sc = self.sidechains.val_at_mut(i);
        sc.slashed_validators_count = sc.slashed_validators_count + 1;
        proof {
            let nv = self.sidechains.val_seq()[i as int];
            VecMap::lemma_update_at(&before, &self.sidechains, i as int, nv);
            before.lemma_wf();
            assert(self.sidechains@.dom() =~= before@.dom());
        }
        Ok(())
    }

    /// Acts on a fraud proof: a proof older than FRAUD_PROOF_VALIDITY_PERIOD
    /// is refused; otherwise, when the fraud concerns a chain, the chain
    /// counts one more slashed validator. The proof's signatures are not
    /// checked here: `proof` holds the facts of a proof already checked.
    pub fn verify_fraud_proof(&mut self, proof: FraudProof, current_block: BlockNumber) -> (r: Result<
        FraudProofVerification,
        ChainError,
    >)
        requires
            old(self).inv(),
            proof.fraud_block + FRAUD_PROOF_VALIDITY_PERIOD <= u64::MAX,
            proof.affected_chain is Some && old(self).chains().contains_key(proof.affected_chain->0) ==> old(
                self,
            ).chains()[proof.affected_chain->0].slashed_validators_count < usize::MAX,
        ensures
            final(self).inv(),
            final(self).same_but_chains(old(self)),
            current_block > proof.fraud_block + FRAUD_PROOF_VALIDITY_PERIOD ==> r == Err::<
                FraudProofVerification,
                ChainError,
            >(ChainError::FraudProofExpired) && final(self).chains() == old(self).chains(),
            current_block <= proof.fraud_block + FRAUD_PROOF_VALIDITY_PERIOD && proof.affected_chain is None ==> r
                == Ok::<FraudProofVerification, ChainError>(FraudProofVerification::of(proof)) && final(self).chains()
                == old(self).chains(),
            current_block <= proof.fraud_block + FRAUD_PROOF_VALIDITY_PERIOD && (proof.affected_chain matches Some(c)
                && !old(self).chains().contains_key(c)) ==> r == Err::<FraudProofVerification, ChainError>(
                ChainError::ChainNotFound,
            ) && final(self).chains() == old(self).chains(),
            current_block <= proof.fraud_block + FRAUD_PROOF_VALIDITY_PERIOD && (proof.affected_chain matches Some(c)
                && old(self).chains().contains_key(c)) ==> r == Ok::<FraudProofVerification, ChainError>(
                FraudProofVerification::of(proof),
            ) && final(self).chains() == old(self).chains().insert(
                proof.affected_chain->0,
                SidechainInfo {
                    slashed_validators_count: (old(self).chains()[proof.affected_chain->0].slashed_validators_count
                        + 1) as usize,
                    ..old(self).chains()[proof.affected_chain->0]
                },
            ),
    {
        if current_block > proof.fraud_block + FRAUD_PROOF_VALIDITY_PERIOD {
            return Err(ChainError::FraudProofExpired);
        }
        match proof.affected_chain {
            Some(chain_id) => {
                self.slash_validator(chain_id, &proof.accused)?;
            },
            None => {},
        }
        Ok(
            FraudProofVerification {
                is_valid: true,
                accused: proof.accused,
                severity: proof.severity,
                fraud_block: proof.fraud_block,
            },
        )
    }

    /// Acts on a fraud proof (see `verify_fraud_proof`) and, when slashed
    /// validators then reach VALIDATOR_FRAUD_THRESHOLD_PERCENT of the
    /// affected chain's validators, triggers its purge. Returns whether it
    /// was triggered.
    pub fn apply_fraud_proof(&mut self, proof: FraudProof, current_block: BlockNumber) -> (r: Result<bool, ChainError>)
        requires
            old(self).inv(),
            proof.fraud_block + FRAUD_PROOF_VALIDITY_PERIOD <= u64::MAX,
            proof.affected_chain is Some && old(self).chains().contains_key(proof.affected_chain->0) ==> {
                &&& old(self).chains()[proof.affected_chain->0].slashed_validators_count < usize::MAX
                &&& (old(self).chains()[proof.affected_chain->0].slashed_validators_count + 1) * 100 <= usize::MAX
            },
        ensures
            final(self).inv(),
            final(self).same_but_chains(old(self)),
            current_block > proof.fraud_block + FRAUD_PROOF_VALIDITY_PERIOD ==> r == Err::<bool, ChainError>(
                ChainError::FraudProofExpired,
            ) && final(self).chains() == old(self).chains(),
            current_block <= proof.fraud_block + FRAUD_PROOF_VALIDITY_PERIOD && proof.affected_chain is None ==> r
                == Ok::<bool, ChainError>(false) && final(self).chains() == old(self).chains(),
            current_block <= proof.fraud_block + FRAUD_PROOF_VALIDITY_PERIOD && (proof.affected_chain matches Some(c)
                && !old(self).chains().contains_key(c)) ==> r == Err::<bool, ChainError>(ChainError::ChainNotFound)
                && final(self).chains() == old(self).chains(),
            current_block <= proof.fraud_block + FRAUD_PROOF_VALIDITY_PERIOD && (proof.affected_chain matches Some(c)
                && old(self).chains().contains_key(c)) ==> fraud_outcome(
                old(self).chains()[proof.affected_chain->0],
                final(self).chains(),
                old(self).chains(),
                proof.affected_chain->0,
                r,
                current_block,
            ),
    {
        let ghost before = self.chains();
        let affected = proof.affected_chain;
        self.verify_fraud_proof(proof, current_block)?;
        let chain_id = match affected {
            Some(c) => c,
            None => {
                return Ok(false);
            },
        };
        let ghost c0 = before[chain_id];
        let ghost mid = self.chains();
        let (total, slashed) = match self.sidechains.get(&chain_id) {
            Some(sc) => (sc.validators.len(), sc.slashed_validators_count),
            None => {
                return Err(ChainError::ChainNotFound);
            },
        };
        if total == 0 {
            return Ok(false);
        }
        if (slashed * 100) / total >= VALIDATOR_FRAUD_THRESHOLD_PERCENT {
            let purged = self.trigger_purge(chain_id, PurgeTrigger::ValidatorFraud, current_block);
            proof {
                let slashed_rec = SidechainInfo { slashed_validators_count: (c0.slashed_validators_count + 1) as usize, ..c0 };
                assert(mid == before.insert(chain_id, slashed_rec));
                assert(mid[chain_id] == slashed_rec);
                if purged.is_ok() {
                    let purged_rec = SidechainInfo {
                        status: ChainStatus::PendingPurge,
                        purge_triggered_at: Some(current_block),
                        purge_trigger: Some(PurgeTrigger::ValidatorFraud),
                        ..slashed_rec
                    };
                    assert(self.chains() == mid.insert(chain_id, purged_rec));
                    assert(self.chains() =~= before.insert(chain_id, purged_rec));
                }
            }
            match purged {
                Ok(()) => {
                    return Ok(true);
                },
                Err(e) => {
                    return Err(e);
                },
            }
        }
        Ok(false)
    }

    /// Records a confirmed state root of the chain.
    pub fn update_verified_state_root(&mut self, chain_id: ChainId, state_root: crate::types::Hash) -> (r: Result<(), ChainError>)
        requires
            old(self).inv(),
        ensures
            final(self).inv(),
            final(self).same_but_chains(old(self)),
            !old(self).chains().contains_key(chain_id) ==> r == Err::<(), ChainError>(ChainError::ChainNotFound)
                && final(self).chains() == old(self).chains(),
            old(self).chains().contains_key(chain_id) ==> r == Ok::<(), ChainError>(()) && final(self).chains()
                == old(self).chains().insert(
                chain_id,
                SidechainInfo { last_verified_state_root: Some(state_root), ..old(self).chains()[chain_id] },
            ),
    {
        let i = match self.sidechains.find(&chain_id) {
            Some(i) => i,
            None => return Err(ChainError::ChainNotFound),
        };
        let ghost before = self.sidechains;
        let sc = self.sidechains.val_at_mut(i);
        sc.last_verified_state_root = Some(state_root);
        proof {
            let nv = self.sidechains.val_seq()[i as int];
            VecMap::lemma_update_at(&before, &self.sidechains, i as int, nv);
            before.lemma_wf();
            assert(self.sidechains@.dom() =~= before@.dom());
        }
        Ok(())
    }

    /// Sets the snapshot state root of a chain in Snapshot status.
    pub fn set_snapshot_state_root(&mut self, chain_id: ChainId, state_root_hash: crate::types::Hash) -> (r: Result<(), ChainError>)
        requires
            old(self).inv(),
        ensures
            final(self).inv(),
            final(self).same_but_chains(old(self)),
            !old(self).chains().contains_key(chain_id) ==> r == Err::<(), ChainError>(ChainError::ChainNotFound)
                && final(self).chains() == old(self).chains(),
            old(self).chains().contains_key(chain_id) && old(self).chains()[chain_id].status != ChainStatus::Snapshot
                ==> r == Err::<(), ChainError>(ChainError::InvalidState) && final(self).chains() == old(self).chains(),
            old(self).chains().contains_key(chain_id) && old(self).chains()[chain_id].status == ChainStatus::Snapshot
                ==> r == Ok::<(), ChainError>(()) && final(self).chains() == old(self).chains().insert(
                chain_id,
                SidechainInfo { snapshot_state_root: Some(state_root_hash), ..old(self).chains()[chain_id] },
            ),
    {
        let i = match self.sidechains.find(&chain_id) {
            Some(i) => i,
            None => return Err(ChainError::ChainNotFound),
        };
        if self.sidechains.val_at(i).status != ChainStatus::Snapshot {
            return Err(ChainError::InvalidState);
        }
        let ghost before = self.sidechains;
        let sc = self.sidechains.val_at_mut(i);
        sc.snapshot_state_root = Some(state_root_hash);
        proof {
            let nv = self.sidechains.val_seq()[i as int];
            VecMap::lemma_update_at(&before, &self.sidechains, i as int, nv);
            before.lemma_wf();
            assert(self.sidechains@.dom() =~= before@.dom());
        }
        Ok(())
    }

    /// Whether `reporter` may report a divergence on the chain: one of its
    /// validators, a validator of its (existing) parent, or its owner.
    pub open spec fn may_report(&self, chain_id: ChainId, reporter: AccountId) -> bool {
        let c = self.chains()[chain_id];
        ||| c.validators@.contains(reporter)
        ||| (c.parent is Some && self.chains().contains_key(c.parent->0) && self.chains()[c.parent->0].validators@.contains(
            reporter,
        ))
        ||| c.owner == reporter
    }

    /// Records, once, the block at which an invalid state root was seen;
    /// only an authorized reporter may do so.
    pub fn report_state_divergence(&mut self, chain_id: ChainId, block_number: BlockNumber, reporter: AccountId) -> (r: Result<(), ChainError>)
        requires
            old(self).inv(),
        ensures
            final(self).inv(),
            final(self).same_but_chains(old(self)),
            !old(self).chains().contains_key(chain_id) ==> r == Err::<(), ChainError>(ChainError::ChainNotFound),
            old(self).chains().contains_key(chain_id) && !old(self).may_report(chain_id, reporter) ==> r matches Err(
                ChainError::Unauthorized { .. },
            ),
            r.is_err() ==> final(self).chains() == old(self).chains(),
            old(self).chains().contains_key(chain_id) && old(self).may_report(chain_id, reporter) ==> {
                let c = old(self).chains()[chain_id];
                &&& r == Ok::<(), ChainError>(())
                &&& final(self).chains() == old(self).chains().insert(
                    chain_id,
                    if c.state_divergence_detected_at is None {
                        SidechainInfo { state_divergence_detected_at: Some(block_number), ..c }
                    } else {
                        c
                    },
                )
            },
    {
        let i = match self.sidechains.find(&chain_id) {
            Some(i) => i,
            None => return Err(ChainError::ChainNotFound),
        };
        let is_authorized = {
            let sc = self.sidechains.val_at(i);
            let is_sidechain_validator = vec_contains(&sc.validators, &reporter);
            let is_parent_validator = match sc.parent {
                Some(parent_id) => match self.sidechains.get(&parent_id) {
                    Some(p) => vec_contains(&p.validators, &reporter),
                    None => false,
                },
                None => false,
            };
            let is_owner = sc.owner.key_eq(&reporter);
            is_sidechain_validator || is_parent_validator || is_owner
        };
        if !is_authorized {
            return Err(
                ChainError::Unauthorized {
                    action: "report_state_divergence".to_string(),
                    required: "chain validator, parent validator, or chain owner".to_string(),
                },
            );
        }
        let ghost before = self.sidechains;
        let sc = self.sidechains.val_at_mut(i);
        if sc.state_divergence_detected_at.is_none() {
            sc.state_divergence_detected_at = Some(block_number);
        }
        proof {
            let nv = self.sidechains.val_seq()[i as int];
            VecMap::lemma_update_at(&before, &self.sidechains, i as int, nv);
            before.lemma_wf();
            assert(self.sidechains@.dom() =~= before@.dom());
        }
        Ok(())
    }

    /// The chain with `account` added to its withdrawn accounts.
    pub open spec fn withdrawn_by(c: SidechainInfo, new_c: SidechainInfo, account: AccountId) -> bool {
        &&& new_c == (SidechainInfo { withdrawn_accounts: new_c.withdrawn_accounts, ..c })
        &&& new_c.withdrawn_accounts@ == c.withdrawn_accounts@.push(account)
    }

    /// The owner withdraws the deposit of a chain in its withdrawal window;
    /// others need a Merkle proof. Each account withdraws once.
    pub fn withdraw_from_purged_chain(&mut self, chain_id: ChainId, owner: AccountId) -> (r: Result<WithdrawalResult, ChainError>)
        requires
            old(self).inv(),
        ensures
            final(self).inv(),
            final(self).same_but_chains(old(self)),
            ({
                let c = old(self).chains()[chain_id];
                &&& !old(self).chains().contains_key(chain_id) ==> r == Err::<WithdrawalResult, ChainError>(
                    ChainError::ChainNotFound,
                )
                &&& old(self).chains().contains_key(chain_id) && c.status != ChainStatus::WithdrawalWindow ==> r
                    == Err::<WithdrawalResult, ChainError>(ChainError::InvalidState)
                &&& old(self).chains().contains_key(chain_id) && c.status == ChainStatus::WithdrawalWindow
                    && c.withdrawn_accounts@.contains(owner) ==> r == Err::<WithdrawalResult, ChainError>(
                    ChainError::AlreadyWithdrawn,
                )
                &&& old(self).chains().contains_key(chain_id) && c.status == ChainStatus::WithdrawalWindow
                    && !c.withdrawn_accounts@.contains(owner) && owner != c.owner ==> r == Err::<
                    WithdrawalResult,
                    ChainError,
                >(ChainError::RequiresMerkleProof)
                &&& r.is_err() ==> final(self).chains() == old(self).chains()
                &&& old(self).chains().contains_key(chain_id) && c.status == ChainStatus::WithdrawalWindow
                    && !c.withdrawn_accounts@.contains(owner) && owner == c.owner ==> {
                    &&& r == Ok::<WithdrawalResult, ChainError>(
                        WithdrawalResult {
                            chain_id,
                            recipient: owner,
                            amount: c.deposit,
                            withdrawal_type: WithdrawalType::OwnerDeposit,
                        },
                    )
                    &&& agree_except(final(self).chains(), old(self).chains(), chain_id)
                    &&& Self::withdrawn_by(c, final(self).chains()[chain_id], owner)
                }
            }),
    {
        let i = match self.sidechains.find(&chain_id) {
            Some(i) => i,
            None => return Err(ChainError::ChainNotFound),
        };
        let (status, withdrawn, is_owner, deposit) = {
            let sc = self.sidechains.val_at(i);
            (sc.status, vec_contains(&sc.withdrawn_accounts, &owner), owner.key_eq(&sc.owner), sc.deposit)
        };
        if status != ChainStatus::WithdrawalWindow {
            return Err(ChainError::InvalidState);
        }
        if withdrawn {
            return Err(ChainError::AlreadyWithdrawn);
        }
        if !is_owner {
            return Err(ChainError::RequiresMerkleProof);
        }
        let ghost before = self.sidechains;
        let sc = self.sidechains.val_at_mut(i);
        sc.withdrawn_accounts.push(owner);
        proof {
            let nv = self.sidechains.val_seq()[i as int];
            VecMap::lemma_update_at(&before, &self.sidechains, i as int, nv);
            before.lemma_wf();
            assert(self.sidechains@.dom() =~= before@.dom());
        }
        Ok(WithdrawalResult { chain_id, recipient: owner, amount: deposit, withdrawal_type: WithdrawalType::OwnerDeposit })
    }

    /// Withdraws `balance` for `account` during the withdrawal window, given a
    /// Merkle proof that verifies against the chain's snapshot root.
    pub fn withdraw_with_proof(
        &mut self,
        chain_id: ChainId,
        account: AccountId,
        balance: Balance,
        merkle_proof: MerkleProof,
    ) -> (r: Result<WithdrawalResult, ChainError>)
        requires
            old(self).inv(),
        ensures
            final(self).inv(),
            final(self).same_but_chains(old(self)),
            ({
                let c = old(self).chains()[chain_id];
                let pre = old(self).chains().contains_key(chain_id) && c.status == ChainStatus::WithdrawalWindow
                    && !c.withdrawn_accounts@.contains(account);
                &&& !old(self).chains().contains_key(chain_id) ==> r == Err::<WithdrawalResult, ChainError>(
                    ChainError::ChainNotFound,
                )
                &&& old(self).chains().contains_key(chain_id) && c.status != ChainStatus::WithdrawalWindow ==> r
                    == Err::<WithdrawalResult, ChainError>(ChainError::InvalidState)
                &&& old(self).chains().contains_key(chain_id) && c.status == ChainStatus::WithdrawalWindow
                    && c.withdrawn_accounts@.contains(account) ==> r == Err::<WithdrawalResult, ChainError>(
                    ChainError::AlreadyWithdrawn,
                )
                &&& pre && c.snapshot_state_root is None ==> r == Err::<WithdrawalResult, ChainError>(
                    ChainError::NoSnapshotStateRoot,
                )
                &&& pre && c.snapshot_state_root is Some && !(merkle_proof.spec_verify() && merkle_proof.root
                    == c.snapshot_state_root->0) ==> r == Err::<WithdrawalResult, ChainError>(
                    ChainError::InvalidMerkleProof,
                )
                &&& r.is_err() ==> final(self).chains() == old(self).chains()
                &&& pre && c.snapshot_state_root is Some && merkle_proof.spec_verify() && merkle_proof.root
                    == c.snapshot_state_root->0 ==> {
                    &&& r == Ok::<WithdrawalResult, ChainError>(
                        WithdrawalResult {
                            chain_id,
                            recipient: account,
                            amount: balance,
                            withdrawal_type: WithdrawalType::UserBalance,
                        },
                    )
                    &&& agree_except(final(self).chains(), old(self).chains(), chain_id)
                    &&& Self::withdrawn_by(c, final(self).chains()[chain_id], account)
                }
            }),
    {
        let i = match self.sidechains.find(&chain_id) {
            Some(i) => i,
            None => return Err(ChainError::ChainNotFound),
        };
        let (status, withdrawn, snapshot) = {
            let sc = self.sidechains.val_at(i);
            (sc.status, vec_contains(&sc.withdrawn_accounts, &account), sc.snapshot_state_root)
        };
        if status != ChainStatus::WithdrawalWindow {
            return Err(ChainError::InvalidState);
        }
        if withdrawn {
            return Err(ChainError::AlreadyWithdrawn);
        }
        let snapshot_root = match snapshot {
            Some(r) => r,
            None => return Err(ChainError::NoSnapshotStateRoot),
        };
        if !merkle_proof.verify() || !merkle_proof.root.key_eq(&snapshot_root) {
            return Err(ChainError::InvalidMerkleProof);
        }
        let ghost before = self.sidechains;
        let sc = self.sidechains.val_at_mut(i);
        sc.withdrawn_accounts.push(account);
        proof {
            let nv = self.sidechains.val_seq()[i as int];
            VecMap::lemma_update_at(&before, &self.sidechains, i as int, nv);
            before.lemma_wf();
            assert(self.sidechains@.dom() =~= before@.dom());
        }
        Ok(WithdrawalResult { chain_id, recipient: account, amount: balance, withdrawal_type: WithdrawalType::UserBalance })
    }

    /// Amount a non-owner gets from an emergency exit: the full balance with a
    /// proof that verifies against the snapshot root (or with any proof when
    /// there is no snapshot root), half of it otherwise.
    pub open spec fn emergency_amount(c: SidechainInfo, balance: Balance, merkle_proof: Option<MerkleProof>) -> Balance {
        match merkle_proof {
            Some(p) => match c.snapshot_state_root {
                Some(root) => if p.spec_verify() && p.root == root {
                    balance
                } else {
                    (balance / 2) as u128
                },
                None => balance,
            },
            None => (balance / 2) as u128,
        }
    }

    /// Exit that no chain status can block: each account once; the owner
    /// gets the deposit, others `emergency_amount`.
    pub fn emergency_exit(
        &mut self,
        chain_id: ChainId,
        account: AccountId,
        balance: Balance,
        merkle_proof: Option<MerkleProof>,
    ) -> (r: Result<WithdrawalResult, ChainError>)
        requires
            old(self).inv(),
        ensures
            final(self).inv(),
            final(self).same_but_chains(old(self)),
            ({
                let c = old(self).chains()[chain_id];
                &&& !old(self).chains().contains_key(chain_id) ==> r == Err::<WithdrawalResult, ChainError>(
                    ChainError::ChainNotFound,
                )
                &&& old(self).chains().contains_key(chain_id) && c.withdrawn_accounts@.contains(account) ==> r
                    == Err::<WithdrawalResult, ChainError>(ChainError::AlreadyWithdrawn)
                &&& r.is_err() ==> final(self).chains() == old(self).chains()
                &&& old(self).chains().contains_key(chain_id) && !c.withdrawn_accounts@.contains(account) ==> {
                    &&& r == Ok::<WithdrawalResult, ChainError>(
                        if account == c.owner {
                            WithdrawalResult {
                                chain_id,
                                recipient: account,
                                amount: c.deposit,
                                withdrawal_type: WithdrawalType::EmergencyOwner,
                            }
                        } else {
                            WithdrawalResult {
                                chain_id,
                                recipient: account,
                                amount: Self::emergency_amount(c, balance, merkle_proof),
                                withdrawal_type: WithdrawalType::Emergency,
                            }
                        },
                    )
                    &&& agree_except(final(self).chains(), old(self).chains(), chain_id)
                    &&& Self::withdrawn_by(c, final(self).chains()[chain_id], account)
                }
            }),
    {
        let i = match self.sidechains.find(&chain_id) {
            Some(i) => i,
            None => return Err(ChainError::ChainNotFound),
        };
        let (withdrawn, is_owner, deposit, snapshot) = {
            let sc = self.sidechains.val_at(i);
            (vec_contains(&sc.withdrawn_accounts, &account), account.key_eq(&sc.owner), sc.deposit, sc.snapshot_state_root)
        };
        if withdrawn {
            return Err(ChainError::AlreadyWithdrawn);
        }
        let result = if is_owner {
            WithdrawalResult { chain_id, recipient: account, amount: deposit, withdrawal_type: WithdrawalType::EmergencyOwner }
        } else {
            let amount = match &merkle_proof {
                Some(p) => match snapshot {
                    Some(root) => if p.verify() && p.root.key_eq(&root) {
                        balance
                    } else {
                        balance / 2
                    },
                    None => balance,
                },
                None => balance / 2,
            };
            WithdrawalResult { chain_id, recipient: account, amount, withdrawal_type: WithdrawalType::Emergency }
        };
        let ghost before = self.sidechains;
        let sc = self.sidechains.val_at_mut(i);
        sc.withdrawn_accounts.push(account);
        proof {
            let nv = self.sidechains.val_seq()[i as int];
            VecMap::lemma_update_at(&before, &self.sidechains, i as int, nv);
            before.lemma_wf();
            assert(self.sidechains@.dom() =~= before@.dom());
        }
        Ok(result)
    }
}

impl Default for ChainRegistry {
    fn default() -> (r: Self)
        ensures
            r.inv(),
            r.chains() == Map::<ChainId, SidechainInfo>::empty(),
            r.hosts() == Map::<ChainId, HostChainInfo>::empty(),
            r.host_of() == Map::<ChainId, ChainId>::empty(),
            r.next_id() == 1,
            r.last_check() == 0,
    {
        Self::new()
    }
}

} // verus!

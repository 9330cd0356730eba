//! Validator staking: registration, bonding, unbonding and slashing.
use crate::types::{spec_sat_add, spec_sat_sub, AccountId, Balance, BlockNumber, KRAT};
use crate::vecmap::{agree_except, MapKey, VecMap};
use vstd::prelude::*;

verus! {

/// Minimum stake of a validator: 50,000 KRAT.
pub const MIN_VALIDATOR_STAKE: Balance = 50_000 * KRAT;

/// Blocks between the start of unbonding and the withdrawal (28 days).
pub const UNBONDING_PERIOD: BlockNumber = 403_200;

/// Most recent slashes kept in the history.
pub const MAX_SLASH_HISTORY: usize = 1000;

#[derive(Debug, Clone, Copy)]
pub struct ValidatorInfo {
    pub id: AccountId,
    pub stake: Balance,
    pub registered_at: BlockNumber,
    pub active: bool,
}

impl ValidatorInfo {
    pub fn new(id: AccountId, stake: Balance, registered_at: BlockNumber) -> (v: Self)
        ensures
            v == (ValidatorInfo { id, stake, registered_at, active: true }),
    {
        ValidatorInfo { id, stake, registered_at, active: true }
    }

    /// Takes up to `amount` from the stake and returns what was taken.
    pub fn slash(&mut self, amount: Balance) -> (slashed: Balance)
        ensures
            slashed == (if amount <= old(self).stake { amount } else { old(self).stake }),
            *final(self) == (ValidatorInfo { stake: (old(self).stake - slashed) as u128, ..*old(self) }),
    {
        let slashed = if amount <= self.stake { amount } else { self.stake };
        self.stake = self.stake - slashed;
        slashed
    }
}

#[derive(Debug, Clone, Copy, PartialEq, Eq, Structural)]
pub enum ValidatorError {
    AlreadyRegistered,
    NotFound,
}

#[derive(Debug, Clone, Copy)]
pub struct UnbondingRequest {
    pub account: AccountId,
    pub amount: Balance,
    pub requested_at: BlockNumber,
    pub ready_at: BlockNumber,
}

#[derive(Debug, Clone, Copy, PartialEq, Eq, Structural)]
pub enum SlashReason {
    DoubleSign,
    ExtendedDowntime,
    InvalidAttestation,
    MaliciousBehavior,
    FailedEmergencyResponse,
}

#[derive(Debug, Clone, Copy)]
pub struct SlashRecord {
    pub validator: AccountId,
    pub amount: Balance,
    pub reason: SlashReason,
    pub block: BlockNumber,
}

#[derive(Debug, Clone, Copy, PartialEq, Eq, Structural)]
pub enum StakingError {
    InsufficientStake,
    ValidatorNotFound,
    NoUnbondingRequest,
    UnbondingNotReady,
    /// Only one unbonding request per account at a time.
    UnbondingAlreadyActive,
    ValidatorSetError(ValidatorError),
}

pub struct StakingRegistry {
    validators: VecMap<AccountId, ValidatorInfo>,
    total_stake: Balance,
    unbonding_requests: VecMap<AccountId, UnbondingRequest>,
    /// The most recent slashes, oldest first.
    pub slash_history: Vec<SlashRecord>,
}

impl StakingRegistry {
    pub closed spec fn inv(&self) -> bool {
        &&& self.validators.wf()
        &&& self.unbonding_requests.wf()
        &&& self.slash_history@.len() <= MAX_SLASH_HISTORY
    }

    /// The slash history, oldest first.
    pub closed spec fn history(&self) -> Seq<SlashRecord> {
        self.slash_history@
    }

    pub closed spec fn validators_view(&self) -> Map<AccountId, ValidatorInfo> {
        self.validators@
    }

    pub closed spec fn spec_total_stake(&self) -> Balance {
        self.total_stake
    }

    pub closed spec fn unbonding_view(&self) -> Map<AccountId, UnbondingRequest> {
        self.unbonding_requests@
    }

    /// Validators in registration order.
    pub closed spec fn validator_order(&self) -> Seq<AccountId> {
        self.validators.key_seq()
    }

    pub fn new() -> (r: Self)
        ensures
            r.inv(),
            r.validators_view() == Map::<AccountId, ValidatorInfo>::empty(),
            r.spec_total_stake() == 0,
            r.unbonding_view() == Map::<AccountId, UnbondingRequest>::empty(),
            r.history() == Seq::<SlashRecord>::empty(),
    {
        StakingRegistry {
            validators: VecMap::new(),
            total_stake: 0,
            unbonding_requests: VecMap::new(),
            slash_history: Vec::new(),
        }
    }

    /// Registers `id` with `stake` (at least MIN_VALIDATOR_STAKE) at `block`.
    pub fn register_validator(&mut self, id: AccountId, stake: Balance, block: BlockNumber) -> (r:
        Result<(), StakingError>)
        requires
            old(self).inv(),
        ensures
            final(self).inv(),
            stake < MIN_VALIDATOR_STAKE ==> r == Err::<(), StakingError>(StakingError::InsufficientStake),
            stake >= MIN_VALIDATOR_STAKE && old(self).validators_view().contains_key(id) ==> r
                == Err::<(), StakingError>(StakingError::ValidatorSetError(ValidatorError::AlreadyRegistered)),
            stake >= MIN_VALIDATOR_STAKE && !old(self).validators_view().contains_key(id) ==> r is Ok,
            r.is_err() ==> final(self).validators_view() == old(self).validators_view()
                && final(self).spec_total_stake() == old(self).spec_total_stake(),
            r.is_ok() ==> stake >= MIN_VALIDATOR_STAKE && !old(self).validators_view().contains_key(id)
                && final(self).validators_view() == old(self).validators_view().insert(
                id,
                ValidatorInfo { id, stake, registered_at: block, active: true },
            ) && final(self).spec_total_stake() == spec_sat_add(old(self).spec_total_stake(), stake),
            final(self).unbonding_view() == old(self).unbonding_view(),
            final(self).history() == old(self).history(),
    {
        if stake < MIN_VALIDATOR_STAKE {
            return Err(StakingError::InsufficientStake);
        }
        if self.validators.contains_key(&id) {
            return Err(StakingError::ValidatorSetError(ValidatorError::AlreadyRegistered));
        }
        let validator = ValidatorInfo::new(id, stake, block);
        self.validators.insert(id, validator);
        self.total_stake = self.total_stake.saturating_add(stake);
        Ok(())
    }

    /// Removes a validator; its stake leaves the total.
    pub fn unregister_validator(&mut self, id: &AccountId) -> (r: Result<(), StakingError>)
        requires
            old(self).inv(),
        ensures
            final(self).inv(),
            !old(self).validators_view().contains_key(*id) ==> r == Err::<(), StakingError>(
                StakingError::ValidatorSetError(ValidatorError::NotFound),
            ) && final(self).validators_view() == old(self).validators_view()
                && final(self).spec_total_stake() == old(self).spec_total_stake(),
            old(self).validators_view().contains_key(*id) ==> r == Ok::<(), StakingError>(())
                && final(self).validators_view() == old(self).validators_view().remove(*id)
                && final(self).spec_total_stake() == spec_sat_sub(
                old(self).spec_total_stake(),
                old(self).validators_view()[*id].stake,
            ),
            final(self).unbonding_view() == old(self).unbonding_view(),
            final(self).history() == old(self).history(),
    {
        match self.validators.remove(id) {
            Some(v) => {
                self.total_stake = self.total_stake.saturating_sub(v.stake);
                Ok(())
            },
            None => Err(StakingError::ValidatorSetError(ValidatorError::NotFound)),
        }
    }

    /// Adds `amount` to a validator's stake and to the total (saturating).
    pub fn add_stake(&mut self, id: &AccountId, amount: Balance) -> (r: Result<(), StakingError>)
        requires
            old(self).inv(),
        ensures
            final(self).inv(),
            !old(self).validators_view().contains_key(*id) ==> r == Err::<(), StakingError>(
                StakingError::ValidatorNotFound,
            ) && final(self).validators_view() == old(self).validators_view()
                && final(self).spec_total_stake() == old(self).spec_total_stake(),
            old(self).validators_view().contains_key(*id) ==> r == Ok::<(), StakingError>(()) && {
                let v = old(self).validators_view()[*id];
                &&& final(self).validators_view() == old(self).validators_view().insert(
                    *id,
                    ValidatorInfo { stake: spec_sat_add(v.stake, amount), ..v },
                )
                &&& final(self).spec_total_stake() == spec_sat_add(old(self).spec_total_stake(), amount)
            },
            final(self).unbonding_view() == old(self).unbonding_view(),
            final(self).history() == old(self).history(),
    {
        let i = match self.validators.find(id) {
            Some(i) => i,
            None => return Err(StakingError::ValidatorNotFound),
        };
        let ghost before = self.validators;
        let v = self.validators.val_at_mut(i);
        v.stake = v.stake.saturating_add(amount);
        proof {
            let nv = self.validators.val_seq()[i as int];
            VecMap::lemma_update_at(&before, &self.validators, i as int, nv);
        }
        self.total_stake = self.total_stake.saturating_add(amount);
        Ok(())
    }

    /// Starts unbonding `amount` of a validator's stake: the stake and the
    /// total drop at once and a request ready after UNBONDING_PERIOD is
    /// recorded. One request per account at a time.
    pub fn start_unbonding(&mut self, id: &AccountId, amount: Balance, current_block: BlockNumber) -> (r:
        Result<(), StakingError>)
        requires
            old(self).inv(),
            current_block + UNBONDING_PERIOD <= u64::MAX,
        ensures
            final(self).inv(),
            old(self).unbonding_view().contains_key(*id) ==> r == Err::<(), StakingError>(
                StakingError::UnbondingAlreadyActive,
            ),
            !old(self).unbonding_view().contains_key(*id) && !old(self).validators_view().contains_key(*id)
                ==> r == Err::<(), StakingError>(StakingError::ValidatorNotFound),
            !old(self).unbonding_view().contains_key(*id) && old(self).validators_view().contains_key(*id)
                && old(self).validators_view()[*id].stake < amount ==> r == Err::<(), StakingError>(
                StakingError::InsufficientStake,
            ),
            !old(self).unbonding_view().contains_key(*id) && old(self).validators_view().contains_key(*id)
                && old(self).validators_view()[*id].stake >= amount ==> r is Ok,
            r.is_err() ==> final(self).validators_view() == old(self).validators_view()
                && final(self).spec_total_stake() == old(self).spec_total_stake()
                && final(self).unbonding_view() == old(self).unbonding_view(),
            r.is_ok() ==> {
                let v = old(self).validators_view()[*id];
                &&& !old(self).unbonding_view().contains_key(*id)
                &&& old(self).validators_view().contains_key(*id)
                &&& v.stake >= amount
                &&& final(self).validators_view() == old(self).validators_view().insert(
                    *id,
                    ValidatorInfo { stake: (v.stake - amount) as u128, ..v },
                )
                &&& final(self).spec_total_stake() == spec_sat_sub(old(self).spec_total_stake(), amount)
                &&& final(self).unbonding_view() == old(self).unbonding_view().insert(
                    *id,
                    UnbondingRequest {
                        account: *id,
                        amount,
                        requested_at: current_block,
                        ready_at: (current_block + UNBONDING_PERIOD) as u64,
                    },
                )
            },
            final(self).history() == old(self).history(),
    {
        if self.unbonding_requests.contains_key(id) {
            return Err(StakingError::UnbondingAlreadyActive);
        }
        let i = match self.validators.find(id) {
            Some(i) => i,
            None => return Err(StakingError::ValidatorNotFound),
        };
        if self.validators.val_at(i).stake < amount {
            return Err(StakingError::InsufficientStake);
        }
        let ghost before = self.validators;
        let v = self.validators.val_at_mut(i);
        v.stake = v.stake - amount;
        proof {
            let nv = self.validators.val_seq()[i as int];
            VecMap::lemma_update_at(&before, &self.validators, i as int, nv);
        }
        self.total_stake = self.total_stake.saturating_sub(amount);
        let request = UnbondingRequest {
            account: *id,
            amount,
            requested_at: current_block,
            ready_at: current_block + UNBONDING_PERIOD,
        };
        self.unbonding_requests.insert(*id, request);
        Ok(())
    }

    /// Releases an unbonding request whose period is over and returns its
    /// amount (the stake already left at the start of unbonding).
    pub fn withdraw_unbonded(&mut self, id: &AccountId, current_block: BlockNumber) -> (r: Result<
        Balance,
        StakingError,
    >)
        requires
            old(self).inv(),
        ensures
            final(self).inv(),
            !old(self).unbonding_view().contains_key(*id) ==> r == Err::<Balance, StakingError>(
                StakingError::NoUnbondingRequest,
            ),
            old(self).unbonding_view().contains_key(*id) && current_block < old(self).unbonding_view()[*id].ready_at ==> r == Err::<Balance, StakingError>(
                StakingError::UnbondingNotReady,
            ),
            old(self).unbonding_view().contains_key(*id) && current_block >= old(self).unbonding_view()[*id].ready_at ==> r is Ok,
            r.is_err() ==> final(self).unbonding_view() == old(self).unbonding_view(),
            r.is_ok() ==> old(self).unbonding_view().contains_key(*id) && current_block >= old(self).unbonding_view()[*id].ready_at && r == Ok::<Balance, StakingError>(
                old(self).unbonding_view()[*id].amount,
            ) && final(self).unbonding_view() == old(self).unbonding_view().remove(*id),
            final(self).validators_view() == old(self).validators_view(),
            final(self).spec_total_stake() == old(self).spec_total_stake(),
            final(self).history() == old(self).history(),
    {
        let (ready_at, amount) = match self.unbonding_requests.get(id) {
            Some(req) => (req.ready_at, req.amount),
            None => return Err(StakingError::NoUnbondingRequest),
        };
        if current_block < ready_at {
            return Err(StakingError::UnbondingNotReady);
        }
        self.unbonding_requests.remove(id);
        Ok(amount)
    }

    /// Slashes up to `amount` from a validator, lowers the total by what was
    /// taken, and records it (keeping the last MAX_SLASH_HISTORY records).
    pub fn slash_validator(
        &mut self,
        id: &AccountId,
        amount: Balance,
        reason: SlashReason,
        block: BlockNumber,
    ) -> (r: Result<Balance, StakingError>)
        requires
            old(self).inv(),
        ensures
            final(self).inv(),
            !old(self).validators_view().contains_key(*id) ==> r == Err::<Balance, StakingError>(
                StakingError::ValidatorNotFound,
            ) && final(self).validators_view() == old(self).validators_view()
                && final(self).spec_total_stake() == old(self).spec_total_stake()
                && final(self).history() == old(self).history(),
            old(self).validators_view().contains_key(*id) ==> {
                let v = old(self).validators_view()[*id];
                let slashed = if amount <= v.stake { amount } else { v.stake };
                let rec = SlashRecord { validator: *id, amount: slashed, reason, block };
                &&& r == Ok::<Balance, StakingError>(slashed)
                &&& final(self).validators_view() == old(self).validators_view().insert(
                    *id,
                    ValidatorInfo { stake: (v.stake - slashed) as u128, ..v },
                )
                &&& final(self).spec_total_stake() == spec_sat_sub(old(self).spec_total_stake(), slashed)
                &&& final(self).history() == (if old(self).history().len() + 1 > MAX_SLASH_HISTORY {
                    old(self).history().push(rec).drop_first()
                } else {
                    old(self).history().push(rec)
                })
            },
            final(self).unbonding_view() == old(self).unbonding_view(),
    {
        let i = match self.validators.find(id) {
            Some(i) => i,
            None => return Err(StakingError::ValidatorNotFound),
        };
        let ghost before = self.validators;
        let v = self.validators.val_at_mut(i);
        let slashed = v.slash(amount);
        proof {
            let nv = self.validators.val_seq()[i as int];
            VecMap::lemma_update_at(&before, &self.validators, i as int, nv);
        }
        self.total_stake = self.total_stake.saturating_sub(slashed);
        self.slash_history.push(SlashRecord { validator: *id, amount: slashed, reason, block });
        if self.slash_history.len() > MAX_SLASH_HISTORY {
            self.slash_history.remove(0);
            proof {
                assert(self.slash_history@ =~= old(self).history().push(
                    SlashRecord { validator: *id, amount: slashed, reason, block },
                ).drop_first());
            }
        }
        Ok(slashed)
    }

    /// Active validators, in registration order.
    pub fn active_validators(&self) -> (r: Vec<&ValidatorInfo>)
        requires
            self.inv(),
        ensures
            ({
                let act = self.validator_order().filter(
                    |k: AccountId| self.validators_view()[k].active,
                );
                &&& r@.len() == act.len()
                &&& forall|i: int| 0 <= i < r@.len() ==> *r@[i] == self.validators_view()[act[i]]
            }),
    {
        let ghost keys = self.validators.key_seq();
        let ghost pred = |k: AccountId| self.validators_view()[k].active;
        proof {
            self.validators.lemma_wf();
        }
        let mut out: Vec<&ValidatorInfo> = Vec::new();
        let n = self.validators.len();
        let mut i: usize = 0;
        while i < n
            invariant
                self.inv(),
                keys == self.validators.key_seq(),
                n == keys.len(),
                i <= n,
                forall|j: int| 0 <= j < n ==> #[trigger] self.validators@.contains_key(keys[j])
                    && self.validators@[keys[j]] == self.validators.val_seq()[j],
                pred == (|k: AccountId| self.validators_view()[k].active),
                out@.len() == keys.take(i as int).filter(pred).len(),
                forall|j: int|
                    0 <= j < out@.len() ==> *out@[j] == self.validators_view()[keys.take(
                        i as int,
                    ).filter(pred)[j]],
            decreases n - i,
        {
            proof {
                reveal_with_fuel(Seq::<_>::filter, 1);
                assert(keys.take(i + 1).drop_last() =~= keys.take(i as int));
                assert(keys.take(i + 1).last() == keys[i as int]);
                assert(self.validators@.contains_key(keys[i as int]));
            }
            let v = self.validators.val_at(i);
            if v.active {
                out.push(v);
            }
            i = i + 1;
        }
        proof {
            assert(keys.take(n as int) =~= keys);
        }
        out
    }

    pub fn get_validator(&self, id: &AccountId) -> (r: Option<&ValidatorInfo>)
        requires
            self.inv(),
        ensures
            match r {
                Some(v) => self.validators_view().contains_key(*id) && *v == self.validators_view()[*id],
                None => !self.validators_view().contains_key(*id),
            },
    {
        self.validators.get(id)
    }

    pub fn total_stake(&self) -> (t: Balance)
        ensures
            t == self.spec_total_stake(),
    {
        self.total_stake
    }

    pub fn validator_count(&self) -> (n: usize)
        requires
            self.inv(),
        ensures
            n == self.validators_view().dom().len(),
    {
        self.validators.len()
    }
}

impl Default for StakingRegistry {
    fn default() -> (r: Self)
        ensures
            r.inv(),
            r.validators_view() == Map::<AccountId, ValidatorInfo>::empty(),
            r.spec_total_stake() == 0,
            r.unbonding_view() == Map::<AccountId, UnbondingRequest>::empty(),
    {
        Self::new()
    }
}

} // verus!

//! On-chain voting for sidechain governance decisions, including the
//! voluntary exit of a chain.
use crate::types::{spec_sat_add, spec_sat_mul, spec_sat_sub, sat_mul, AccountId, Balance, BlockNumber, ChainId};
use crate::vecmap::{agree_except, and_pred, lemma_filter_all, lemma_filter_filter, neq_pred, vec_without, MapKey, VecMap};
use vstd::prelude::*;

verus! {

pub type ProposalId = u64;

/// 2/3 supermajority (66%) for exit decisions.
pub const SUPERMAJORITY_THRESHOLD: u8 = 66;

/// Simple majority (51%) for the other decisions.
pub const STANDARD_THRESHOLD: u8 = 51;

/// Minimum participation, in percent of the eligible voting power.
pub const MIN_QUORUM_PERCENT: u8 = 30;

/// 30 days.
pub const EXIT_TIMELOCK: BlockNumber = 432_000;

/// 12 days.
pub const STANDARD_TIMELOCK: BlockNumber = 172_800;

/// 7 days.
pub const VOTING_PERIOD: BlockNumber = 100_800;

/// 2 days.
pub const GRACE_PERIOD: BlockNumber = 28_800;

pub const PROPOSAL_DEPOSIT: Balance = 100;

#[derive(Debug, Clone, PartialEq, Eq)]
pub enum ProposalType {
    ParameterChange { parameter: String, old_value: String, new_value: String },
    AddValidator { validator: AccountId },
    RemoveValidator { validator: AccountId },
    ExitDissolve,
    ExitMerge { target_chain: ChainId },
    ExitReattachRoot,
    ExitJoinHost { host_chain: ChainId },
    LeaveHost,
    RequestAffiliation { host_chain: ChainId },
    TreasurySpend { recipient: AccountId, amount: Balance, reason: String },
    Custom { title: String, description: String, data: Vec<u8> },
}

impl ProposalType {
    pub open spec fn spec_is_exit(&self) -> bool {
        ||| self is ExitDissolve
        ||| self is ExitMerge
        ||| self is ExitReattachRoot
        ||| self is ExitJoinHost
    }

    pub open spec fn spec_threshold(&self) -> u8 {
        if self.spec_is_exit() {
            SUPERMAJORITY_THRESHOLD
        } else {
            STANDARD_THRESHOLD
        }
    }

    pub open spec fn spec_timelock(&self) -> BlockNumber {
        if self.spec_is_exit() {
            EXIT_TIMELOCK
        } else {
            STANDARD_TIMELOCK
        }
    }

    /// Exit proposals are the four kinds of voluntary exit.
    pub fn is_exit_proposal(&self) -> (b: bool)
        ensures
            b == self.spec_is_exit(),
    {
        match self {
            ProposalType::ExitDissolve => true,
            ProposalType::ExitMerge { .. } => true,
            ProposalType::ExitReattachRoot => true,
            ProposalType::ExitJoinHost { .. } => true,
            _ => false,
        }
    }

    pub fn required_threshold(&self) -> (t: u8)
        ensures
            t == self.spec_threshold(),
    {
        if self.is_exit_proposal() {
            SUPERMAJORITY_THRESHOLD
        } else {
            STANDARD_THRESHOLD
        }
    }

    pub fn timelock_period(&self) -> (t: BlockNumber)
        ensures
            t == self.spec_timelock(),
    {
        if self.is_exit_proposal() {
            EXIT_TIMELOCK
        } else {
            STANDARD_TIMELOCK
        }
    }
}

/// Exit is always possible within 30 days: an exit proposal needs a
/// two-thirds supermajority, and once passed waits EXIT_TIMELOCK blocks,
/// 30 days of 6-second blocks, before it can execute.
pub proof fn law_exit_within_thirty_days(t: ProposalType)
    requires
        t.spec_is_exit(),
    ensures
        t.spec_threshold() == SUPERMAJORITY_THRESHOLD,
        t.spec_timelock() == EXIT_TIMELOCK,
        t.spec_timelock() * 6 == 30 * 24 * 3600,
{
}

#[derive(Debug, Clone, Copy, PartialEq, Eq, Structural)]
pub enum ProposalStatus {
    Active,
    Passed,
    Rejected,
    ReadyToExecute,
    Executed,
    Cancelled,
    Expired,
}

#[derive(Debug, Clone, Copy, PartialEq, Eq, Structural)]
pub enum Vote {
    Yes,
    No,
    Abstain,
}

#[derive(Debug, Clone, Copy)]
pub struct VoteRecord {
    pub voter: AccountId,
    pub vote: Vote,
    pub weight: Balance,
    pub timestamp: BlockNumber,
}

#[derive(Debug, Clone)]
pub struct Proposal {
    pub id: ProposalId,
    pub chain_id: ChainId,
    pub proposer: AccountId,
    pub proposal_type: ProposalType,
    pub description: Option<String>,
    pub status: ProposalStatus,
    pub created_at: BlockNumber,
    pub voting_ends_at: BlockNumber,
    pub timelock_ends_at: Option<BlockNumber>,
    pub votes: Vec<VoteRecord>,
    pub yes_votes: Balance,
    pub no_votes: Balance,
    pub abstain_votes: Balance,
    pub deposit: Balance,
    pub deposit_returned: bool,
    pub executed_at: Option<BlockNumber>,
}

impl Proposal {
    /// A fresh proposal as `new` builds it.
    pub open spec fn is_fresh(
        &self,
        id: ProposalId,
        chain_id: ChainId,
        proposer: AccountId,
        proposal_type: ProposalType,
        description: Option<String>,
        deposit: Balance,
        created_at: BlockNumber,
    ) -> bool {
        &&& self.id == id
        &&& self.chain_id == chain_id
        &&& self.proposer == proposer
        &&& self.proposal_type == proposal_type
        &&& self.description == description
        &&& self.status == ProposalStatus::Active
        &&& self.created_at == created_at
        &&& self.voting_ends_at == created_at + VOTING_PERIOD
        &&& self.timelock_ends_at == None::<BlockNumber>
        &&& self.votes@ == Seq::<VoteRecord>::empty()
        &&& self.yes_votes == 0
        &&& self.no_votes == 0
        &&& self.abstain_votes == 0
        &&& self.deposit == deposit
        &&& !self.deposit_returned
        &&& self.executed_at == None::<BlockNumber>
    }

    pub fn new(
        id: ProposalId,
        chain_id: ChainId,
        proposer: AccountId,
        proposal_type: ProposalType,
        description: Option<String>,
        deposit: Balance,
        created_at: BlockNumber,
    ) -> (p: Self)
        requires
            created_at + VOTING_PERIOD <= u64::MAX,
        ensures
            p.is_fresh(id, chain_id, proposer, proposal_type, description, deposit, created_at),
    {
        Proposal {
            id,
            chain_id,
            proposer,
            proposal_type,
            description,
            status: ProposalStatus::Active,
            created_at,
            voting_ends_at: created_at + VOTING_PERIOD,
            timelock_ends_at: None,
            votes: Vec::new(),
            yes_votes: 0,
            no_votes: 0,
            abstain_votes: 0,
            deposit,
            deposit_returned: false,
            executed_at: None,
        }
    }

    pub open spec fn spec_voting_open(&self, current_block: BlockNumber) -> bool {
        self.status == ProposalStatus::Active && current_block <= self.voting_ends_at
    }

    pub open spec fn spec_has_voted(&self, voter: AccountId) -> bool {
        exists|i: int| 0 <= i < self.votes@.len() && self.votes@[i].voter == voter
    }

    pub open spec fn spec_total_votes(&self) -> int {
        self.yes_votes + self.no_votes + self.abstain_votes
    }

    /// Yes / (Yes + No) in whole percent (saturating products), 0 when nobody
    /// voted Yes or No.
    pub open spec fn spec_approval(&self) -> int {
        let deciding = spec_sat_add(self.yes_votes, self.no_votes);
        if deciding == 0 {
            0
        } else {
            ((spec_sat_mul(self.yes_votes, 100) / deciding) as u8) as int
        }
    }

    /// Approval counts Yes against No only: abstentions never change it;
    /// with Yes votes and no No votes it is 100, with no Yes votes 0; and
    /// short of saturation it is the whole percentage of Yes among Yes and
    /// No, rounded down.
    pub proof fn law_approval_ignores_abstentions(p: Proposal, abstain: Balance)
        ensures
            (Proposal { abstain_votes: abstain, ..p }).spec_approval() == p.spec_approval(),
            p.yes_votes == 0 ==> p.spec_approval() == 0,
            p.yes_votes > 0 && p.no_votes == 0 && p.yes_votes * 100 <= u128::MAX ==> p.spec_approval() == 100,
            p.yes_votes + p.no_votes > 0 && p.yes_votes * 100 <= u128::MAX && p.yes_votes + p.no_votes <= u128::MAX
                ==> p.spec_approval() * (p.yes_votes + p.no_votes) <= p.yes_votes * 100 < (p.spec_approval() + 1) * (
                p.yes_votes + p.no_votes),
    {
        let y = p.yes_votes as int;
        let n = p.no_votes as int;
        if y == 0 {
            assert(spec_sat_mul(p.yes_votes, 100) == 0);
            if n > 0 {
                assert(0int / (n as int) == 0) by (nonlinear_arith)
                    requires
                        n > 0,
                ;
            }
        }
        if y > 0 && n == 0 && y * 100 <= u128::MAX {
            assert((y * 100) / y == 100) by (nonlinear_arith)
                requires
                    y > 0,
            ;
        }
        if y + n > 0 && y * 100 <= u128::MAX && y + n <= u128::MAX {
            let d = y + n;
            let q = (y * 100) / d;
            assert(q <= 100) by (nonlinear_arith)
                requires
                    d >= y,
                    y >= 0,
                    d > 0,
                    q == (y * 100) / d,
            ;
            assert(q >= 0) by (nonlinear_arith)
                requires
                    y >= 0,
                    d > 0,
                    q == (y * 100) / d,
            ;
            assert(q * d <= y * 100 < (q + 1) * d) by (nonlinear_arith)
                requires
                    d > 0,
                    q == (y * 100) / d,
            ;
        }
    }

    pub open spec fn spec_quorum(&self, total_eligible: Balance) -> bool {
        total_eligible != 0 && spec_sat_mul(self.spec_total_votes() as u128, 100) / total_eligible
            >= MIN_QUORUM_PERCENT
    }

    pub open spec fn spec_passed(&self, total_eligible: Balance) -> bool {
        self.spec_quorum(total_eligible) && self.spec_approval()
            >= self.proposal_type.spec_threshold()
    }

    pub fn is_voting_open(&self, current_block: BlockNumber) -> (b: bool)
        ensures
            b == self.spec_voting_open(current_block),
    {
        self.status == ProposalStatus::Active && current_block <= self.voting_ends_at
    }

    pub fn has_voted(&self, voter: &AccountId) -> (b: bool)
        ensures
            b == self.spec_has_voted(*voter),
    {
        let mut i: usize = 0;
        while i < self.votes.len()
            invariant
                i <= self.votes@.len(),
                forall|j: int| 0 <= j < i ==> self.votes@[j].voter != *voter,
            decreases self.votes@.len() - i,
        {
            if self.votes[i].voter.key_eq(voter) {
                return true;
            }
            i = i + 1;
        }
        false
    }

    /// Voting power that took part (Yes + No + Abstain).
    pub fn total_votes(&self) -> (t: Balance)
        requires
            self.spec_total_votes() <= u128::MAX,
        ensures
            t == self.spec_total_votes(),
    {
        self.yes_votes + self.no_votes + self.abstain_votes
    }

    /// Yes / (Yes + No) in percent, abstentions left out.
    pub fn approval_percentage(&self) -> (a: u8)
        ensures
            a == self.spec_approval(),
    {
        let deciding_votes = self.yes_votes.saturating_add(self.no_votes);
        if deciding_votes == 0 {
            return 0;
        }
        (sat_mul(self.yes_votes, 100) / deciding_votes) as u8
    }

    /// At least MIN_QUORUM_PERCENT of the eligible power voted.
    pub fn quorum_reached(&self, total_eligible_votes: Balance) -> (b: bool)
        requires
            self.spec_total_votes() <= u128::MAX,
        ensures
            b == self.spec_quorum(total_eligible_votes),
    {
        if total_eligible_votes == 0 {
            return false;
        }
        let participation = sat_mul(self.total_votes(), 100) / total_eligible_votes;
        participation >= MIN_QUORUM_PERCENT as u128
    }

    /// Quorum reached and approval at or above the type's threshold.
    pub fn passed(&self, total_eligible_votes: Balance) -> (b: bool)
        requires
            self.spec_total_votes() <= u128::MAX,
        ensures
            b == self.spec_passed(total_eligible_votes),
    {
        self.quorum_reached(total_eligible_votes) && self.approval_percentage()
            >= self.proposal_type.required_threshold()
    }
}

/// Key of the voting-power table.
#[derive(Debug, Clone, Copy, PartialEq, Eq)]
pub struct ChainAccount {
    pub chain_id: ChainId,
    pub account: AccountId,
}

impl MapKey for ChainAccount {
    fn key_eq(&self, other: &Self) -> (b: bool) {
        self.chain_id.key_eq(&other.chain_id) && self.account.key_eq(&other.account)
    }
}

#[derive(Debug, Clone, Copy, PartialEq, Eq, Structural)]
pub enum GovernanceError {
    ProposalNotFound,
    NoVotingPower,
    VotingClosed,
    AlreadyVoted,
    VotingStillOpen,
    AlreadyFinalized,
    ExitAlreadyInProgress,
    ActiveDisputeExists,
    NotReadyToExecute,
    NotProposer,
    InsufficientDeposit,
}

/// Adds an entry's power to `acc` when the entry belongs to `chain`.
pub open spec fn chain_share(chain: ChainId) -> spec_fn(int, (ChainAccount, Balance)) -> int {
    |acc: int, e: (ChainAccount, Balance)| acc + if e.0.chain_id == chain {
        e.1 as int
    } else {
        0int
    }
}

/// The (account, power) entries of a power table.
pub open spec fn power_entries(powers: Map<ChainAccount, Balance>) -> Set<(ChainAccount, Balance)> {
    powers.dom().map(|k: ChainAccount| (k, powers[k]))
}

/// Sum of the powers that accounts hold on `chain`.
pub open spec fn chain_power_sum(powers: Map<ChainAccount, Balance>, chain: ChainId) -> int {
    power_entries(powers).fold(0int, chain_share(chain))
}

proof fn lemma_chain_share_commutes(chain: ChainId)
    ensures
        vstd::set::fold::is_fun_commutative(chain_share(chain)),
{
}

proof fn lemma_power_entries(powers: Map<ChainAccount, Balance>)
    requires
        powers.dom().finite(),
    ensures
        power_entries(powers).finite(),
        forall|e: (ChainAccount, Balance)| #[trigger]
            power_entries(powers).contains(e) <==> powers.contains_key(e.0) && powers[e.0] == e.1,
{
    powers.dom().lemma_map_finite(|k: ChainAccount| (k, powers[k]));
    assert forall|e: (ChainAccount, Balance)| #[trigger]
        power_entries(powers).contains(e) <==> powers.contains_key(e.0) && powers[e.0] == e.1 by {
        if powers.contains_key(e.0) && powers[e.0] == e.1 {
            assert(powers.dom().contains(e.0));
            assert((|k: ChainAccount| (k, powers[k]))(e.0) == e);
        }
    }
}

proof fn lemma_sum_nonneg(s: Set<(ChainAccount, Balance)>, chain: ChainId)
    requires
        s.finite(),
    ensures
        s.fold(0int, chain_share(chain)) >= 0,
{
    let f = chain_share(chain);
    lemma_chain_share_commutes(chain);
    let pred = |t: Set<(ChainAccount, Balance)>| t.fold(0int, f) >= 0;
    vstd::set::fold::lemma_fold_empty(0int, f);
    assert forall|t: Set<(ChainAccount, Balance)>, a: (ChainAccount, Balance)|
        pred(t) && t.finite() && !t.contains(a) implies #[trigger] pred(t.insert(a)) by {
        vstd::set::fold::lemma_fold_insert(t, 0int, f, a);
    }
    vstd::set::fold::lemma_finite_set_induct(s, pred);
}

/// Setting one account's power moves its chain's sum by the difference
/// and leaves the other chains' sums as they were.
pub proof fn lemma_sum_after_set(powers: Map<ChainAccount, Balance>, k: ChainAccount, v: Balance, chain: ChainId)
    requires
        powers.dom().finite(),
    ensures
        ({
            let after = if v > 0 {
                powers.insert(k, v)
            } else {
                powers.remove(k)
            };
            let before_k: int = if powers.contains_key(k) {
                powers[k] as int
            } else {
                0
            };
            &&& chain_power_sum(after, chain) == chain_power_sum(powers, chain) + (if k.chain_id == chain {
                v - before_k
            } else {
                0
            })
            &&& k.chain_id == chain ==> chain_power_sum(powers, chain) >= before_k
        }),
{
    let f = chain_share(chain);
    lemma_chain_share_commutes(chain);
    let rest = powers.remove(k);
    let after = if v > 0 {
        powers.insert(k, v)
    } else {
        powers.remove(k)
    };
    lemma_power_entries(powers);
    lemma_power_entries(rest);
    lemma_power_entries(after);
    let r = power_entries(rest);
    lemma_sum_nonneg(r, chain);
    if powers.contains_key(k) {
        assert(power_entries(powers) =~= r.insert((k, powers[k])));
        assert(!r.contains((k, powers[k])));
        vstd::set::fold::lemma_fold_insert(r, 0int, f, (k, powers[k]));
    } else {
        assert(power_entries(powers) =~= r);
    }
    if v > 0 {
        assert(power_entries(after) =~= r.insert((k, v)));
        assert(!r.contains((k, v)));
        vstd::set::fold::lemma_fold_insert(r, 0int, f, (k, v));
    } else {
        assert(power_entries(after) =~= r);
    }
}

pub struct GovernanceContract {
    proposals: VecMap<ProposalId, Proposal>,
    proposals_by_chain: VecMap<ChainId, Vec<ProposalId>>,
    next_proposal_id: ProposalId,
    voting_power: VecMap<ChainAccount, Balance>,
    total_voting_power: VecMap<ChainId, Balance>,
    /// At most one exit proposal per chain.
    active_exit_proposals: VecMap<ChainId, ProposalId>,
    /// Chains with an open dispute cannot exit.
    chains_with_disputes: VecMap<ChainId, ()>,
}

impl GovernanceContract {
    pub closed spec fn inv(&self) -> bool {
        &&& self.proposals.wf()
        &&& self.proposals_by_chain.wf()
        &&& self.voting_power.wf()
        &&& self.total_voting_power.wf()
        &&& self.active_exit_proposals.wf()
        &&& self.chains_with_disputes.wf()
        &&& self.next_proposal_id >= 1
        &&& forall|id: ProposalId| #[trigger]
            self.proposals@.contains_key(id) ==> id < self.next_proposal_id
        &&& self.lists_match()
    }

    /// `id` is on the proposal list of chain `c`.
    pub open spec fn listed(&self, c: ChainId, id: ProposalId) -> bool {
        self.by_chain_view().contains_key(c) && self.by_chain_view()[c].contains(id)
    }

    /// Each chain's list holds exactly the stored proposals of that chain.
    pub open spec fn lists_match(&self) -> bool {
        &&& forall|c: ChainId, id: ProposalId| #[trigger]
            self.listed(c, id) ==> self.proposals_view().contains_key(id) && self.proposals_view()[id].chain_id == c
        &&& forall|id: ProposalId| #[trigger]
            self.proposals_view().contains_key(id) ==> self.listed(self.proposals_view()[id].chain_id, id)
    }

    /// The proposal lists of a consistent contract match its table.
    pub proof fn lemma_lists_match(&self)
        requires
            self.inv(),
        ensures
            self.lists_match(),
    {
    }

    /// Storing a new proposal of chain `c` and appending it to `c`'s list
    /// keeps the lists matching.
    proof fn lemma_lists_add(old: &Self, new: &Self, id: ProposalId, c: ChainId)
        requires
            old.lists_match(),
            !old.proposals_view().contains_key(id),
            new.proposals_view().contains_key(id),
            new.proposals_view() == old.proposals_view().insert(id, new.proposals_view()[id]),
            new.proposals_view()[id].chain_id == c,
            new.by_chain_view() == old.by_chain_view().insert(
                c,
                if old.by_chain_view().contains_key(c) {
                    old.by_chain_view()[c].push(id)
                } else {
                    seq![id]
                },
            ),
        ensures
            new.lists_match(),
    {
        assert forall|c2: ChainId, x: ProposalId| #[trigger] new.listed(c2, x) implies new.proposals_view().contains_key(
            x,
        ) && new.proposals_view()[x].chain_id == c2 by {
            if x != id {
                if c2 == c {
                    let l = new.by_chain_view()[c];
                    let w = choose|w: int| 0 <= w < l.len() && l[w] == x;
                    if old.by_chain_view().contains_key(c) {
                        assert(old.by_chain_view()[c][w] == x);
                    }
                }
                assert(old.listed(c2, x));
            } else if c2 != c {
                assert(old.listed(c2, x));
            }
        }
        assert forall|x: ProposalId| #[trigger] new.proposals_view().contains_key(x) implies new.listed(
            new.proposals_view()[x].chain_id,
            x,
        ) by {
            let l = new.by_chain_view()[c];
            if x == id {
                assert(l[l.len() - 1] == id);
            } else {
                let c2 = old.proposals_view()[x].chain_id;
                assert(old.listed(c2, x));
                if c2 == c {
                    let w = choose|w: int| 0 <= w < old.by_chain_view()[c].len() && old.by_chain_view()[c][w] == x;
                    assert(l[w] == x);
                }
            }
        }
    }

    /// Dropping proposal `id` of chain `c` from the table and from `c`'s
    /// list keeps the lists matching.
    proof fn lemma_lists_remove(old: &Self, new: &Self, id: ProposalId, c: ChainId)
        requires
            old.lists_match(),
            old.proposals_view().contains_key(id),
            old.proposals_view()[id].chain_id == c,
            old.by_chain_view().contains_key(c),
            new.proposals_view() == old.proposals_view().remove(id),
            new.by_chain_view() == old.by_chain_view().insert(c, old.by_chain_view()[c].filter(neq_pred(id))),
        ensures
            new.lists_match(),
    {
        assert forall|c2: ChainId, x: ProposalId| #[trigger] new.listed(c2, x) implies new.proposals_view().contains_key(
            x,
        ) && new.proposals_view()[x].chain_id == c2 by {
            if c2 == c {
                let l = old.by_chain_view()[c];
                let f = l.filter(neq_pred(id));
                l.lemma_filter_contains_rev(neq_pred(id), x);
                let k = choose|k: int| 0 <= k < f.len() && f[k] == x;
                l.lemma_filter_pred(neq_pred(id), k);
            }
            assert(old.listed(c2, x));
        }
        assert forall|x: ProposalId| #[trigger] new.proposals_view().contains_key(x) implies new.listed(
            new.proposals_view()[x].chain_id,
            x,
        ) by {
            let c2 = old.proposals_view()[x].chain_id;
            assert(old.listed(c2, x));
            if c2 == c {
                let l = old.by_chain_view()[c];
                let w = choose|w: int| 0 <= w < l.len() && l[w] == x;
                l.lemma_filter_contains(neq_pred(id), w);
            }
        }
    }

    /// Changing proposals in place, their chains kept, keeps the lists
    /// matching.
    proof fn lemma_lists_kept(old: &Self, new: &Self)
        requires
            old.lists_match(),
            new.by_chain_view() == old.by_chain_view(),
            new.proposals_view().dom() == old.proposals_view().dom(),
            forall|id: ProposalId| #[trigger]
                new.proposals_view().contains_key(id) ==> new.proposals_view()[id].chain_id
                    == old.proposals_view()[id].chain_id,
        ensures
            new.lists_match(),
    {
        assert forall|c: ChainId, id: ProposalId| #[trigger] new.listed(c, id) implies new.proposals_view().contains_key(
            id,
        ) && new.proposals_view()[id].chain_id == c by {
            assert(old.listed(c, id));
        }
        assert forall|id: ProposalId| #[trigger] new.proposals_view().contains_key(id) implies new.listed(
            new.proposals_view()[id].chain_id,
            id,
        ) by {
            assert(old.proposals_view().contains_key(id));
            assert(old.listed(old.proposals_view()[id].chain_id, id));
        }
    }

    pub closed spec fn proposals_view(&self) -> Map<ProposalId, Proposal> {
        self.proposals@
    }

    /// Proposal ids of each chain, in creation order.
    pub closed spec fn by_chain_view(&self) -> Map<ChainId, Seq<ProposalId>> {
        Map::new(
            |c: ChainId| self.proposals_by_chain@.contains_key(c),
            |c: ChainId| self.proposals_by_chain@[c]@,
        )
    }

    pub closed spec fn next_id(&self) -> ProposalId {
        self.next_proposal_id
    }

    pub closed spec fn power_view(&self) -> Map<ChainAccount, Balance> {
        self.voting_power@
    }

    pub closed spec fn total_power_view(&self) -> Map<ChainId, Balance> {
        self.total_voting_power@
    }

    pub closed spec fn exit_view(&self) -> Map<ChainId, ProposalId> {
        self.active_exit_proposals@
    }

    pub closed spec fn disputes_view(&self) -> Set<ChainId> {
        self.chains_with_disputes@.dom()
    }

    /// Voting power of `account` on `chain_id`, 0 when unset.
    pub open spec fn power_of(&self, chain_id: ChainId, account: AccountId) -> Balance {
        let k = ChainAccount { chain_id, account };
        if self.power_view().contains_key(k) {
            self.power_view()[k]
        } else {
            0
        }
    }

    pub open spec fn total_power_of(&self, chain_id: ChainId) -> Balance {
        if self.total_power_view().contains_key(chain_id) {
            self.total_power_view()[chain_id]
        } else {
            0
        }
    }

    /// Each chain's recorded total is the sum of its accounts' powers.
    pub open spec fn totals_match(&self) -> bool {
        forall|c: ChainId| #[trigger] self.total_power_of(c) == chain_power_sum(self.power_view(), c)
    }

    /// Everything but the proposals table is as in `old`.
    pub open spec fn same_tables(&self, old: &Self) -> bool {
        &&& self.by_chain_view() == old.by_chain_view()
        &&& self.next_id() == old.next_id()
        &&& self.power_view() == old.power_view()
        &&& self.total_power_view() == old.total_power_view()
        &&& self.disputes_view() == old.disputes_view()
    }

    pub fn new() -> (g: Self)
        ensures
            g.inv(),
            g.proposals_view() == Map::<ProposalId, Proposal>::empty(),
            g.by_chain_view() == Map::<ChainId, Seq<ProposalId>>::empty(),
            g.next_id() == 1,
            g.power_view() == Map::<ChainAccount, Balance>::empty(),
            g.total_power_view() == Map::<ChainId, Balance>::empty(),
            g.totals_match(),
            g.exit_view() == Map::<ChainId, ProposalId>::empty(),
            g.disputes_view() == Set::<ChainId>::empty(),
    {
        let g = GovernanceContract {
            proposals: VecMap::new(),
            proposals_by_chain: VecMap::new(),
            next_proposal_id: 1,
            voting_power: VecMap::new(),
            total_voting_power: VecMap::new(),
            active_exit_proposals: VecMap::new(),
            chains_with_disputes: VecMap::new(),
        };
        assert(g.by_chain_view() =~= Map::<ChainId, Seq<ProposalId>>::empty());
        assert forall|c: ChainId| #[trigger] g.total_power_of(c) == chain_power_sum(g.power_view(), c) by {
            assert(power_entries(g.power_view()) =~= Set::<(ChainAccount, Balance)>::empty());
            vstd::set::fold::lemma_fold_empty(0int, chain_share(c));
        }
        g
    }

    /// Sets the voting power of `account` on `chain_id` (0 removes it) and
    /// moves the chain's total by the difference, saturating.
    pub fn set_voting_power(&mut self, chain_id: ChainId, account: AccountId, power: Balance)
        requires
            old(self).inv(),
        ensures
            final(self).inv(),
            final(self).power_view() == (if power > 0 {
                old(self).power_view().insert(ChainAccount { chain_id, account }, power)
            } else {
                old(self).power_view().remove(ChainAccount { chain_id, account })
            }),
            final(self).total_power_view() == old(self).total_power_view().insert(
                chain_id,
                spec_sat_add(
                    spec_sat_sub(old(self).total_power_of(chain_id), old(self).power_of(chain_id, account)),
                    power,
                ),
            ),
            final(self).proposals_view() == old(self).proposals_view(),
            final(self).by_chain_view() == old(self).by_chain_view(),
            final(self).next_id() == old(self).next_id(),
            final(self).exit_view() == old(self).exit_view(),
            final(self).disputes_view() == old(self).disputes_view(),
            forall|c: ChainId| #[trigger] chain_power_sum(final(self).power_view(), c) == chain_power_sum(
                old(self).power_view(),
                c,
            ) + (if c == chain_id {
                power - old(self).power_of(chain_id, account)
            } else {
                0
            }),
            old(self).totals_match() && chain_power_sum(old(self).power_view(), chain_id) - old(self).power_of(
                chain_id,
                account,
            ) + power <= u128::MAX ==> final(self).totals_match(),
    {
        proof {
            self.voting_power.lemma_wf();
        }
        let key = ChainAccount { chain_id, account };
        let old_power = match self.voting_power.get(&key) {
            Some(p) => *p,
            None => 0,
        };
        let old_total = match self.total_voting_power.get(&chain_id) {
            Some(t) => *t,
            None => 0,
        };
        self.total_voting_power.insert(chain_id, old_total.saturating_sub(old_power).saturating_add(power));
        if power > 0 {
            self.voting_power.insert(key, power);
        } else {
            self.voting_power.remove(&key);
        }
        proof {
            let before = old(self).power_view();
            assert forall|c: ChainId| #[trigger] chain_power_sum(self.power_view(), c) == chain_power_sum(before, c)
                + (if c == chain_id {
                power - old(self).power_of(chain_id, account)
            } else {
                0
            }) by {
                lemma_sum_after_set(before, key, power, c);
            }
            if old(self).totals_match() && chain_power_sum(before, chain_id) - old(self).power_of(chain_id, account)
                + power <= u128::MAX {
                assert forall|c: ChainId| #[trigger] self.total_power_of(c) == chain_power_sum(self.power_view(), c) by {
                    lemma_sum_after_set(before, key, power, c);
                    assert(old(self).total_power_of(c) == chain_power_sum(before, c));
                }
            }
        }
        proof {
            Self::lemma_lists_kept(old(self), self);
        }
    }

    pub fn get_voting_power(&self, chain_id: ChainId, account: &AccountId) -> (p: Balance)
        requires
            self.inv(),
        ensures
            p == self.power_of(chain_id, *account),
    {
        match self.voting_power.get(&ChainAccount { chain_id, account: *account }) {
            Some(p) => *p,
            None => 0,
        }
    }

    pub fn get_total_voting_power(&self, chain_id: ChainId) -> (t: Balance)
        requires
            self.inv(),
        ensures
            t == self.total_power_of(chain_id),
    {
        match self.total_voting_power.get(&chain_id) {
            Some(t) => *t,
            None => 0,
        }
    }

    /// Marks `chain_id` as having an open dispute, which blocks exit proposals.
    pub fn add_dispute(&mut self, chain_id: ChainId)
        requires
            old(self).inv(),
        ensures
            final(self).inv(),
            final(self).disputes_view() == old(self).disputes_view().insert(chain_id),
            final(self).proposals_view() == old(self).proposals_view(),
            final(self).by_chain_view() == old(self).by_chain_view(),
            final(self).next_id() == old(self).next_id(),
            final(self).power_view() == old(self).power_view(),
            final(self).total_power_view() == old(self).total_power_view(),
            final(self).exit_view() == old(self).exit_view(),
    {
        self.chains_with_disputes.insert(chain_id, ());
        assert(self.disputes_view() =~= old(self).disputes_view().insert(chain_id));
        proof {
            Self::lemma_lists_kept(old(self), self);
        }
    }

    pub fn remove_dispute(&mut self, chain_id: ChainId)
        requires
            old(self).inv(),
        ensures
            final(self).inv(),
            final(self).disputes_view() == old(self).disputes_view().remove(chain_id),
            final(self).proposals_view() == old(self).proposals_view(),
            final(self).by_chain_view() == old(self).by_chain_view(),
            final(self).next_id() == old(self).next_id(),
            final(self).power_view() == old(self).power_view(),
            final(self).total_power_view() == old(self).total_power_view(),
            final(self).exit_view() == old(self).exit_view(),
    {
        self.chains_with_disputes.remove(&chain_id);
        assert(self.disputes_view() =~= old(self).disputes_view().remove(chain_id));
        proof {
            Self::lemma_lists_kept(old(self), self);
        }
    }

    pub fn has_dispute(&self, chain_id: ChainId) -> (b: bool)
        requires
            self.inv(),
        ensures
            b == self.disputes_view().contains(chain_id),
    {
        self.chains_with_disputes.contains_key(&chain_id)
    }

    pub fn has_active_exit_proposal(&self, chain_id: ChainId) -> (b: bool)
        requires
            self.inv(),
        ensures
            b == self.exit_view().contains_key(chain_id),
    {
        self.active_exit_proposals.contains_key(&chain_id)
    }

    pub fn get_proposal(&self, proposal_id: ProposalId) -> (r: Option<&Proposal>)
        requires
            self.inv(),
        ensures
            match r {
                Some(p) => self.proposals_view().contains_key(proposal_id) && *p
                    == self.proposals_view()[proposal_id],
                None => !self.proposals_view().contains_key(proposal_id),
            },
    {
        self.proposals.get(&proposal_id)
    }

    /// Creates a proposal with id `next_id()`. Fails when the proposer has no
    /// voting power on the chain, or, for an exit proposal, when the chain
    /// already has one or has an open dispute.
    pub fn create_proposal(
        &mut self,
        chain_id: ChainId,
        proposer: AccountId,
        proposal_type: ProposalType,
        description: Option<String>,
        current_block: BlockNumber,
    ) -> (r: Result<ProposalId, GovernanceError>)
        requires
            old(self).inv(),
            old(self).next_id() < u64::MAX,
            current_block + VOTING_PERIOD <= u64::MAX,
        ensures
            final(self).inv(),
            old(self).power_of(chain_id, proposer) == 0 ==> r == Err::<ProposalId, GovernanceError>(
                GovernanceError::NoVotingPower,
            ),
            old(self).power_of(chain_id, proposer) != 0 && proposal_type.spec_is_exit()
                && old(self).exit_view().contains_key(chain_id) ==> r == Err::<
                ProposalId,
                GovernanceError,
            >(GovernanceError::ExitAlreadyInProgress),
            old(self).power_of(chain_id, proposer) != 0 && proposal_type.spec_is_exit()
                && !old(self).exit_view().contains_key(chain_id) && old(self).disputes_view().contains(
                chain_id,
            ) ==> r == Err::<ProposalId, GovernanceError>(GovernanceError::ActiveDisputeExists),
            old(self).power_of(chain_id, proposer) != 0 && !(proposal_type.spec_is_exit() && (old(self).exit_view().contains_key(chain_id) || old(self).disputes_view().contains(chain_id))) ==> r is Ok,
            r.is_err() ==> *final(self) == *old(self),
            r.is_ok() ==> {
                let id = old(self).next_id();
                &&& r == Ok::<ProposalId, GovernanceError>(id)
                &&& old(self).power_of(chain_id, proposer) != 0
                &&& !(proposal_type.spec_is_exit() && (old(self).exit_view().contains_key(chain_id)
                    || old(self).disputes_view().contains(chain_id)))
                &&& !old(self).proposals_view().contains_key(id)
                &&& final(self).proposals_view().contains_key(id)
                &&& final(self).proposals_view().remove(id) == old(self).proposals_view()
                &&& final(self).proposals_view()[id].is_fresh(
                    id,
                    chain_id,
                    proposer,
                    proposal_type,
                    description,
                    PROPOSAL_DEPOSIT,
                    current_block,
                )
                &&& final(self).next_id() == id + 1
                &&& final(self).exit_view() == (if proposal_type.spec_is_exit() {
                    old(self).exit_view().insert(chain_id, id)
                } else {
                    old(self).exit_view()
                })
                &&& final(self).by_chain_view() == old(self).by_chain_view().insert(
                    chain_id,
                    if old(self).by_chain_view().contains_key(chain_id) {
                        old(self).by_chain_view()[chain_id].push(id)
                    } else {
                        seq![id]
                    },
                )
                &&& final(self).power_view() == old(self).power_view()
                &&& final(self).total_power_view() == old(self).total_power_view()
                &&& final(self).disputes_view() == old(self).disputes_view()
            },
    {
        let proposer_power = self.get_voting_power(chain_id, &proposer);
        if proposer_power == 0 {
            return Err(GovernanceError::NoVotingPower);
        }
        let is_exit = proposal_type.is_exit_proposal();
        if is_exit {
            if self.active_exit_proposals.contains_key(&chain_id) {
                return Err(GovernanceError::ExitAlreadyInProgress);
            }
            if self.has_dispute(chain_id) {
                return Err(GovernanceError::ActiveDisputeExists);
            }
        }
        let proposal_id = self.next_proposal_id;
        self.next_proposal_id = self.next_proposal_id + 1;
        let ghost old_props = self.proposals@;
        let ghost pt = proposal_type;
        let proposal = Proposal::new(
            proposal_id,
            chain_id,
            proposer,
            proposal_type,
            description,
            PROPOSAL_DEPOSIT,
            current_block,
        );
        if is_exit {
            self.active_exit_proposals.insert(chain_id, proposal_id);
        }
        self.proposals.insert(proposal_id, proposal);
        let ghost old_by_chain = self.proposals_by_chain@;
        match self.proposals_by_chain.find(&chain_id) {
            Some(i) => {
                let ghost before = self.proposals_by_chain;
                let ids = self.proposals_by_chain.val_at_mut(i);
                ids.push(proposal_id);
                proof {
                    let nv = self.proposals_by_chain.val_seq()[i as int];
                    VecMap::lemma_update_at(&before, &self.proposals_by_chain, i as int, nv);
                    assert(nv@ == old_by_chain[chain_id]@.push(proposal_id));
                    assert(self.by_chain_view() =~= old(self).by_chain_view().insert(
                        chain_id,
                        old(self).by_chain_view()[chain_id].push(proposal_id),
                    ));
                }
            },
            None => {
                let mut ids: Vec<ProposalId> = Vec::new();
                ids.push(proposal_id);
                self.proposals_by_chain.insert(chain_id, ids);
                proof {
                    assert(self.proposals_by_chain@[chain_id]@ =~= seq![proposal_id]);
                    assert(self.by_chain_view() =~= old(self).by_chain_view().insert(
                        chain_id,
                        seq![proposal_id],
                    ));
                }
            },
        }
        proof {
            assert(self.proposals@.remove(proposal_id) =~= old_props);
        }
        proof {
            assert(self.proposals_view() =~= old(self).proposals_view().insert(proposal_id, self.proposals_view()[proposal_id]));
            Self::lemma_lists_add(old(self), self, proposal_id, chain_id);
        }
        Ok(proposal_id)
    }

    /// Position of each proposal in iteration order.
    pub closed spec fn proposal_order(&self) -> Seq<ProposalId> {
        self.proposals.key_seq()
    }

    pub open spec fn tally_room(&self, proposal_id: ProposalId, voter: AccountId, vote: Vote) -> bool {
        self.proposals_view().contains_key(proposal_id) ==> {
            let p = self.proposals_view()[proposal_id];
            let w = self.power_of(p.chain_id, voter);
            match vote {
                Vote::Yes => p.yes_votes + w <= u128::MAX,
                Vote::No => p.no_votes + w <= u128::MAX,
                Vote::Abstain => p.abstain_votes + w <= u128::MAX,
            }
        }
    }

    /// Records `voter`'s vote, weighted by its voting power on the proposal's
    /// chain. Fails when the proposal is unknown, voting is closed, the voter
    /// already voted, or it has no voting power.
    pub fn vote(
        &mut self,
        proposal_id: ProposalId,
        voter: AccountId,
        vote: Vote,
        current_block: BlockNumber,
    ) -> (r: Result<(), GovernanceError>)
        requires
            old(self).inv(),
            old(self).tally_room(proposal_id, voter, vote),
        ensures
            final(self).inv(),
            ({
                let ps = old(self).proposals_view();
                let p = ps[proposal_id];
                let w = old(self).power_of(p.chain_id, voter);
                &&& !ps.contains_key(proposal_id) ==> r == Err::<(), GovernanceError>(
                    GovernanceError::ProposalNotFound,
                )
                &&& ps.contains_key(proposal_id) && !p.spec_voting_open(current_block) ==> r == Err::<
                    (),
                    GovernanceError,
                >(GovernanceError::VotingClosed)
                &&& ps.contains_key(proposal_id) && p.spec_voting_open(current_block)
                    && p.spec_has_voted(voter) ==> r == Err::<(), GovernanceError>(
                    GovernanceError::AlreadyVoted,
                )
                &&& ps.contains_key(proposal_id) && p.spec_voting_open(current_block)
                    && !p.spec_has_voted(voter) && w == 0 ==> r == Err::<(), GovernanceError>(
                    GovernanceError::NoVotingPower,
                )
                &&& ps.contains_key(proposal_id) && p.spec_voting_open(current_block)
                    && !p.spec_has_voted(voter) && w != 0 ==> r is Ok
                &&& r.is_err() ==> *final(self) == *old(self)
                &&& r.is_ok() ==> {
                    let np = final(self).proposals_view()[proposal_id];
                    &&& ps.contains_key(proposal_id)
                    &&& p.spec_voting_open(current_block)
                    &&& !p.spec_has_voted(voter)
                    &&& w != 0
                    &&& agree_except(final(self).proposals_view(), ps, proposal_id)
                    &&& np.votes@ == p.votes@.push(
                        VoteRecord { voter, vote, weight: w, timestamp: current_block },
                    )
                    &&& np == (Proposal {
                        votes: np.votes,
                        yes_votes: if vote == Vote::Yes { (p.yes_votes + w) as u128 } else { p.yes_votes },
                        no_votes: if vote == Vote::No { (p.no_votes + w) as u128 } else { p.no_votes },
                        abstain_votes: if vote == Vote::Abstain {
                            (p.abstain_votes + w) as u128
                        } else {
                            p.abstain_votes
                        },
                        ..p
                    })
                    &&& final(self).same_tables(old(self))
                    &&& final(self).exit_view() == old(self).exit_view()
                }
            }),
    {
        let i = match self.proposals.find(&proposal_id) {
            Some(i) => i,
            None => return Err(GovernanceError::ProposalNotFound),
        };
        let chain_id = {
            let proposal = self.proposals.val_at(i);
            if !proposal.is_voting_open(current_block) {
                return Err(GovernanceError::VotingClosed);
            }
            if proposal.has_voted(&voter) {
                return Err(GovernanceError::AlreadyVoted);
            }
            proposal.chain_id
        };
        let weight = self.get_voting_power(chain_id, &voter);
        if weight == 0 {
            return Err(GovernanceError::NoVotingPower);
        }
        let ghost before = self.proposals;
        let proposal = self.proposals.val_at_mut(i);
        let vote_record = VoteRecord { voter, vote, weight, timestamp: current_block };
        match vote {
            Vote::Yes => proposal.yes_votes = proposal.yes_votes + weight,
            Vote::No => proposal.no_votes = proposal.no_votes + weight,
            Vote::Abstain => proposal.abstain_votes = proposal.abstain_votes + weight,
        }
        proposal.votes.push(vote_record);
        proof {
            let nv = self.proposals.val_seq()[i as int];
            VecMap::lemma_update_at(&before, &self.proposals, i as int, nv);
            assert(self.proposals_view().dom() =~= old(self).proposals_view().dom());
            Self::lemma_lists_kept(old(self), self);
            assert(self.proposals@.dom() =~= before@.dom());
        }
        Ok(())
    }

    /// Ends voting on a proposal whose voting period is over: it passes (and
    /// enters its timelock) or is rejected. A rejected exit proposal frees the
    /// chain's exit slot.
    pub fn finalize_voting(&mut self, proposal_id: ProposalId, current_block: BlockNumber) -> (r:
        Result<ProposalStatus, GovernanceError>)
        requires
            old(self).inv(),
            old(self).proposals_view().contains_key(proposal_id) ==> {
                let p = old(self).proposals_view()[proposal_id];
                &&& p.spec_total_votes() <= u128::MAX
                &&& current_block + p.proposal_type.spec_timelock() <= u64::MAX
            },
        ensures
            final(self).inv(),
            ({
                let ps = old(self).proposals_view();
                let p = ps[proposal_id];
                let passed = p.spec_passed(old(self).total_power_of(p.chain_id));
                &&& !ps.contains_key(proposal_id) ==> r == Err::<ProposalStatus, GovernanceError>(
                    GovernanceError::ProposalNotFound,
                )
                &&& ps.contains_key(proposal_id) && current_block < p.voting_ends_at ==> r == Err::<
                    ProposalStatus,
                    GovernanceError,
                >(GovernanceError::VotingStillOpen)
                &&& ps.contains_key(proposal_id) && current_block >= p.voting_ends_at && p.status
                    != ProposalStatus::Active ==> r == Err::<ProposalStatus, GovernanceError>(
                    GovernanceError::AlreadyFinalized,
                )
                &&& ps.contains_key(proposal_id) && current_block >= p.voting_ends_at && p.status
                    == ProposalStatus::Active ==> r is Ok
                &&& r.is_err() ==> *final(self) == *old(self)
                &&& r.is_ok() ==> {
                    let np = final(self).proposals_view()[proposal_id];
                    &&& ps.contains_key(proposal_id)
                    &&& current_block >= p.voting_ends_at
                    &&& p.status == ProposalStatus::Active
                    &&& agree_except(final(self).proposals_view(), ps, proposal_id)
                    &&& np == (if passed {
                        Proposal {
                            status: ProposalStatus::Passed,
                            timelock_ends_at: Some(
                                (current_block + p.proposal_type.spec_timelock()) as u64,
                            ),
                            ..p
                        }
                    } else {
                        Proposal { status: ProposalStatus::Rejected, ..p }
                    })
                    &&& r == Ok::<ProposalStatus, GovernanceError>(np.status)
                    &&& final(self).same_tables(old(self))
                    &&& final(self).exit_view() == (if !passed && p.proposal_type.spec_is_exit() {
                        old(self).exit_view().remove(p.chain_id)
                    } else {
                        old(self).exit_view()
                    })
                }
            }),
    {
        let i = match self.proposals.find(&proposal_id) {
            Some(i) => i,
            None => return Err(GovernanceError::ProposalNotFound),
        };
        let (chain_id, voting_ends_at, status) = {
            let p = self.proposals.val_at(i);
            (p.chain_id, p.voting_ends_at, p.status)
        };
        if current_block < voting_ends_at {
            return Err(GovernanceError::VotingStillOpen);
        }
        if status != ProposalStatus::Active {
            return Err(GovernanceError::AlreadyFinalized);
        }
        let total_eligible = self.get_total_voting_power(chain_id);
        let ghost before = self.proposals;
        let proposal = self.proposals.val_at_mut(i);
        if proposal.passed(total_eligible) {
            proposal.status = ProposalStatus::Passed;
            proposal.timelock_ends_at = Some(current_block + proposal.proposal_type.timelock_period());
        } else {
            proposal.status = ProposalStatus::Rejected;
        }
        let final_status = proposal.status;
        let is_exit = proposal.proposal_type.is_exit_proposal();
        proof {
            let nv = self.proposals.val_seq()[i as int];
            VecMap::lemma_update_at(&before, &self.proposals, i as int, nv);
            assert(self.proposals_view().dom() =~= old(self).proposals_view().dom());
            Self::lemma_lists_kept(old(self), self);
            assert(self.proposals@.dom() =~= before@.dom());
        }
        if final_status == ProposalStatus::Rejected && is_exit {
            self.active_exit_proposals.remove(&chain_id);
        }
        proof {
            assert(self.proposals_view().dom() =~= old(self).proposals_view().dom());
            Self::lemma_lists_kept(old(self), self);
        }
        Ok(final_status)
    }

    /// Moves a passed proposal whose timelock is over to ReadyToExecute and
    /// returns whether it did.
    pub fn check_execution_ready(&mut self, proposal_id: ProposalId, current_block: BlockNumber) -> (r:
        Result<bool, GovernanceError>)
        requires
            old(self).inv(),
        ensures
            final(self).inv(),
            ({
                let ps = old(self).proposals_view();
                let p = ps[proposal_id];
                let ready = p.status == ProposalStatus::Passed && p.timelock_ends_at is Some
                    && current_block >= p.timelock_ends_at->0;
                &&& !ps.contains_key(proposal_id) ==> r == Err::<bool, GovernanceError>(
                    GovernanceError::ProposalNotFound,
                ) && *final(self) == *old(self)
                &&& ps.contains_key(proposal_id) ==> r == Ok::<bool, GovernanceError>(ready)
                &&& ps.contains_key(proposal_id) && !ready ==> *final(self) == *old(self)
                &&& ps.contains_key(proposal_id) && ready ==> {
                    &&& final(self).proposals_view() == ps.insert(
                        proposal_id,
                        Proposal { status: ProposalStatus::ReadyToExecute, ..p },
                    )
                    &&& final(self).same_tables(old(self))
                    &&& final(self).exit_view() == old(self).exit_view()
                }
            }),
    {
        let i = match self.proposals.find(&proposal_id) {
            Some(i) => i,
            None => return Err(GovernanceError::ProposalNotFound),
        };
        let (status, timelock) = {
            let p = self.proposals.val_at(i);
            (p.status, p.timelock_ends_at)
        };
        if status != ProposalStatus::Passed {
            return Ok(false);
        }
        if let Some(timelock_end) = timelock {
            if current_block >= timelock_end {
                let ghost before = self.proposals;
                let proposal = self.proposals.val_at_mut(i);
                proposal.status = ProposalStatus::ReadyToExecute;
                proof {
                    let nv = self.proposals.val_seq()[i as int];
                    VecMap::lemma_update_at(&before, &self.proposals, i as int, nv);
                    assert(self.proposals_view().dom() =~= old(self).proposals_view().dom());
                    Self::lemma_lists_kept(old(self), self);
                }
                return Ok(true);
            }
        }
        Ok(false)
    }

    /// Marks a ready proposal as executed at `current_block`; an exit
    /// proposal frees the chain's exit slot.
    pub fn mark_executed(&mut self, proposal_id: ProposalId, current_block: BlockNumber) -> (r:
        Result<(), GovernanceError>)
        requires
            old(self).inv(),
        ensures
            final(self).inv(),
            ({
                let ps = old(self).proposals_view();
                let p = ps[proposal_id];
                &&& !ps.contains_key(proposal_id) ==> r == Err::<(), GovernanceError>(
                    GovernanceError::ProposalNotFound,
                )
                &&& ps.contains_key(proposal_id) && p.status != ProposalStatus::ReadyToExecute ==> r
                    == Err::<(), GovernanceError>(GovernanceError::NotReadyToExecute)
                &&& ps.contains_key(proposal_id) && p.status == ProposalStatus::ReadyToExecute ==> r is Ok
                &&& r.is_err() ==> *final(self) == *old(self)
                &&& r.is_ok() ==> {
                    &&& ps.contains_key(proposal_id)
                    &&& p.status == ProposalStatus::ReadyToExecute
                    &&& final(self).proposals_view() == ps.insert(
                        proposal_id,
                        Proposal {
                            status: ProposalStatus::Executed,
                            executed_at: Some(current_block),
                            ..p
                        },
                    )
                    &&& final(self).same_tables(old(self))
                    &&& final(self).exit_view() == (if p.proposal_type.spec_is_exit() {
                        old(self).exit_view().remove(p.chain_id)
                    } else {
                        old(self).exit_view()
                    })
                }
            }),
    {
        let i = match self.proposals.find(&proposal_id) {
            Some(i) => i,
            None => return Err(GovernanceError::ProposalNotFound),
        };
        if self.proposals.val_at(i).status != ProposalStatus::ReadyToExecute {
            return Err(GovernanceError::NotReadyToExecute);
        }
        let ghost before = self.proposals;
        let proposal = self.proposals.val_at_mut(i);
        proposal.status = ProposalStatus::Executed;
        proposal.executed_at = Some(current_block);
        let is_exit = proposal.proposal_type.is_exit_proposal();
        let chain_id = proposal.chain_id;
        proof {
            let nv = self.proposals.val_seq()[i as int];
            VecMap::lemma_update_at(&before, &self.proposals, i as int, nv);
            assert(self.proposals_view().dom() =~= old(self).proposals_view().dom());
            Self::lemma_lists_kept(old(self), self);
        }
        if is_exit {
            self.active_exit_proposals.remove(&chain_id);
        }
        proof {
            assert(self.proposals_view().dom() =~= old(self).proposals_view().dom());
            Self::lemma_lists_kept(old(self), self);
        }
        Ok(())
    }

    /// Cancels a proposal; only its proposer may, and only while voting is
    /// open. An exit proposal frees the chain's exit slot.
    pub fn cancel_proposal(
        &mut self,
        proposal_id: ProposalId,
        caller: &AccountId,
        current_block: BlockNumber,
    ) -> (r: Result<(), GovernanceError>)
        requires
            old(self).inv(),
        ensures
            final(self).inv(),
            ({
                let ps = old(self).proposals_view();
                let p = ps[proposal_id];
                &&& !ps.contains_key(proposal_id) ==> r == Err::<(), GovernanceError>(
                    GovernanceError::ProposalNotFound,
                )
                &&& ps.contains_key(proposal_id) && p.proposer != *caller ==> r == Err::<
                    (),
                    GovernanceError,
                >(GovernanceError::NotProposer)
                &&& ps.contains_key(proposal_id) && p.proposer == *caller
                    && !p.spec_voting_open(current_block) ==> r == Err::<(), GovernanceError>(
                    GovernanceError::VotingClosed,
                )
                &&& ps.contains_key(proposal_id) && p.proposer == *caller
                    && p.spec_voting_open(current_block) ==> r is Ok
                &&& r.is_err() ==> *final(self) == *old(self)
                &&& r.is_ok() ==> {
                    &&& ps.contains_key(proposal_id)
                    &&& p.proposer == *caller
                    &&& p.spec_voting_open(current_block)
                    &&& final(self).proposals_view() == ps.insert(
                        proposal_id,
                        Proposal { status: ProposalStatus::Cancelled, ..p },
                    )
                    &&& final(self).same_tables(old(self))
                    &&& final(self).exit_view() == (if p.proposal_type.spec_is_exit() {
                        old(self).exit_view().remove(p.chain_id)
                    } else {
                        old(self).exit_view()
                    })
                }
            }),
    {
        let i = match self.proposals.find(&proposal_id) {
            Some(i) => i,
            None => return Err(GovernanceError::ProposalNotFound),
        };
        {
            let p = self.proposals.val_at(i);
            if !p.proposer.key_eq(caller) {
                return Err(GovernanceError::NotProposer);
            }
            if !p.is_voting_open(current_block) {
                return Err(GovernanceError::VotingClosed);
            }
        }
        let ghost before = self.proposals;
        let proposal = self.proposals.val_at_mut(i);
        proposal.status = ProposalStatus::Cancelled;
        let is_exit = proposal.proposal_type.is_exit_proposal();
        let chain_id = proposal.chain_id;
        proof {
            let nv = self.proposals.val_seq()[i as int];
            VecMap::lemma_update_at(&before, &self.proposals, i as int, nv);
            assert(self.proposals_view().dom() =~= old(self).proposals_view().dom());
            Self::lemma_lists_kept(old(self), self);
        }
        if is_exit {
            self.active_exit_proposals.remove(&chain_id);
        }
        proof {
            assert(self.proposals_view().dom() =~= old(self).proposals_view().dom());
            Self::lemma_lists_kept(old(self), self);
        }
        Ok(())
    }

    /// The ids listed for `chain_id` that still name a stored proposal.
    pub open spec fn chain_ids(&self, chain_id: ChainId) -> Seq<ProposalId> {
        if self.by_chain_view().contains_key(chain_id) {
            self.by_chain_view()[chain_id].filter(|id: ProposalId| self.proposals_view().contains_key(id))
        } else {
            Seq::empty()
        }
    }

    /// The stored proposals listed for `chain_id`, in creation order.
    pub fn get_proposals_for_chain(&self, chain_id: ChainId) -> (r: Vec<&Proposal>)
        requires
            self.inv(),
        ensures
            r@.len() == self.chain_ids(chain_id).len(),
            forall|i: int|
                0 <= i < r@.len() ==> *r@[i] == self.proposals_view()[self.chain_ids(chain_id)[i]],
    {
        let mut out: Vec<&Proposal> = Vec::new();
        let ids = match self.proposals_by_chain.get(&chain_id) {
            Some(ids) => ids,
            None => {
                return out;
            },
        };
        let ghost pred = |id: ProposalId| self.proposals_view().contains_key(id);
        let mut i: usize = 0;
        while i < ids.len()
            invariant
                self.inv(),
                i <= ids@.len(),
                ids@ == self.by_chain_view()[chain_id],
                self.by_chain_view().contains_key(chain_id),
                pred == (|id: ProposalId| self.proposals_view().contains_key(id)),
                out@.len() == ids@.take(i as int).filter(pred).len(),
                forall|j: int|
                    0 <= j < out@.len() ==> *out@[j] == self.proposals_view()[ids@.take(
                        i as int,
                    ).filter(pred)[j]],
            decreases ids@.len() - i,
        {
            proof {
                reveal_with_fuel(Seq::<_>::filter, 1);
                assert(ids@.take(i + 1).drop_last() =~= ids@.take(i as int));
                assert(ids@.take(i + 1).last() == ids@[i as int]);
            }
            match self.proposals.get(&ids[i]) {
                Some(p) => {
                    out.push(p);
                },
                None => {},
            }
            i = i + 1;
        }
        proof {
            assert(ids@.take(ids@.len() as int) =~= ids@);
        }
        out
    }

    pub open spec fn is_live_status(s: ProposalStatus) -> bool {
        s == ProposalStatus::Active || s == ProposalStatus::Passed || s
            == ProposalStatus::ReadyToExecute
    }

    /// The chain's proposals that are Active, Passed or ReadyToExecute.
    pub fn get_active_proposals(&self, chain_id: ChainId) -> (r: Vec<&Proposal>)
        requires
            self.inv(),
        ensures
            ({
                let live = self.chain_ids(chain_id).filter(
                    |id: ProposalId| Self::is_live_status(self.proposals_view()[id].status),
                );
                &&& r@.len() == live.len()
                &&& forall|i: int| 0 <= i < r@.len() ==> *r@[i] == self.proposals_view()[live[i]]
            }),
    {
        let all = self.get_proposals_for_chain(chain_id);
        let ghost ids = self.chain_ids(chain_id);
        let ghost pred = |id: ProposalId| Self::is_live_status(self.proposals_view()[id].status);
        let mut out: Vec<&Proposal> = Vec::new();
        let mut i: usize = 0;
        while i < all.len()
            invariant
                i <= all@.len(),
                all@.len() == ids.len(),
                forall|j: int| 0 <= j < all@.len() ==> *all@[j] == self.proposals_view()[ids[j]],
                pred == (|id: ProposalId| Self::is_live_status(self.proposals_view()[id].status)),
                out@.len() == ids.take(i as int).filter(pred).len(),
                forall|j: int|
                    0 <= j < out@.len() ==> *out@[j] == self.proposals_view()[ids.take(
                        i as int,
                    ).filter(pred)[j]],
            decreases all@.len() - i,
        {
            proof {
                reveal_with_fuel(Seq::<_>::filter, 1);
                assert(ids.take(i + 1).drop_last() =~= ids.take(i as int));
                assert(ids.take(i + 1).last() == ids[i as int]);
            }
            let p = all[i];
            let s = p.status;
            if s == ProposalStatus::Active || s == ProposalStatus::Passed || s
                == ProposalStatus::ReadyToExecute {
                out.push(p);
            }
            i = i + 1;
        }
        proof {
            assert(ids.take(ids.len() as int) =~= ids);
        }
        out
    }

    /// True when the proposal belongs to `chain_id` and was rejected.
    pub fn record_failure(&mut self, chain_id: ChainId, proposal_id: ProposalId) -> (b: bool)
        requires
            old(self).inv(),
        ensures
            *final(self) == *old(self),
            b == (old(self).proposals_view().contains_key(proposal_id) && old(self).proposals_view()[proposal_id].chain_id == chain_id && old(self).proposals_view()[proposal_id].status == ProposalStatus::Rejected),
    {
        match self.proposals.get(&proposal_id) {
            Some(p) => p.chain_id.key_eq(&chain_id) && p.status == ProposalStatus::Rejected,
            None => false,
        }
    }

    /// True when the proposal belongs to `chain_id` and passed.
    pub fn record_success(&self, chain_id: ChainId, proposal_id: ProposalId) -> (b: bool)
        requires
            self.inv(),
        ensures
            b == (self.proposals_view().contains_key(proposal_id)
                && self.proposals_view()[proposal_id].chain_id == chain_id
                && self.proposals_view()[proposal_id].status == ProposalStatus::Passed),
    {
        match self.proposals.get(&proposal_id) {
            Some(p) => p.chain_id.key_eq(&chain_id) && p.status == ProposalStatus::Passed,
            None => false,
        }
    }

    /// (whether the proposal is in Passed, its chain), for a known proposal.
    pub fn get_finalization_result(&self, proposal_id: ProposalId) -> (r: Option<(bool, ChainId)>)
        requires
            self.inv(),
        ensures
            match r {
                Some((passed, chain)) => self.proposals_view().contains_key(proposal_id) && passed
                    == (self.proposals_view()[proposal_id].status == ProposalStatus::Passed)
                    && chain == self.proposals_view()[proposal_id].chain_id,
                None => !self.proposals_view().contains_key(proposal_id),
            },
    {
        match self.proposals.get(&proposal_id) {
            Some(p) => Some((p.status == ProposalStatus::Passed, p.chain_id)),
            None => None,
        }
    }

    pub open spec fn should_expire(p: Proposal, current_block: BlockNumber) -> bool {
        p.status == ProposalStatus::ReadyToExecute && p.timelock_ends_at is Some && current_block
            >= p.timelock_ends_at->0 + GRACE_PERIOD
    }

    pub open spec fn expired_version(p: Proposal, current_block: BlockNumber) -> Proposal {
        if Self::should_expire(p, current_block) {
            Proposal { status: ProposalStatus::Expired, ..p }
        } else {
            p
        }
    }

    /// Chains that lose their exit slot when proposals expire at `current_block`.
    pub open spec fn chains_of_expiring_exits(&self, current_block: BlockNumber) -> Set<ChainId> {
        Set::new(
            |c: ChainId|
                exists|id: ProposalId|
                    #![trigger self.proposals_view()[id]]
                    self.proposals_view().contains_key(id) && Self::should_expire(
                        self.proposals_view()[id],
                        current_block,
                    ) && self.proposals_view()[id].proposal_type.spec_is_exit()
                        && self.proposals_view()[id].chain_id == c,
        )
    }

    /// Expires every ReadyToExecute proposal whose grace period (after its
    /// timelock) is over, returns their ids, and frees the exit slot of the
    /// chains of expired exit proposals.
    pub fn expire_stale_proposals(&mut self, current_block: BlockNumber) -> (r: Vec<ProposalId>)
        requires
            old(self).inv(),
            forall|id: ProposalId| #[trigger]
                old(self).proposals_view().contains_key(id) && old(self).proposals_view()[id].status
                    == ProposalStatus::ReadyToExecute && old(self).proposals_view()[id].timelock_ends_at is Some
                    ==> old(self).proposals_view()[id].timelock_ends_at->0 + GRACE_PERIOD <= u64::MAX,
        ensures
            final(self).inv(),
            r@ == old(self).proposal_order().filter(
                |id: ProposalId| Self::should_expire(old(self).proposals_view()[id], current_block),
            ),
            final(self).proposals_view().dom() == old(self).proposals_view().dom(),
            forall|id: ProposalId| #[trigger]
                final(self).proposals_view().contains_key(id) ==> final(self).proposals_view()[id]
                    == Self::expired_version(old(self).proposals_view()[id], current_block),
            final(self).exit_view() == old(self).exit_view().remove_keys(
                old(self).chains_of_expiring_exits(current_block),
            ),
            final(self).same_tables(old(self)),
    {
        let ghost old_pm = self.proposals;
        let ghost old_keys = self.proposals.key_seq();
        let ghost old_vals = self.proposals.val_seq();
        let ghost old_exit = self.active_exit_proposals@;
        let ghost pred = |id: ProposalId| Self::should_expire(old(self).proposals_view()[id], current_block);
        proof {
            old_pm.lemma_wf();
            assert forall|j: int| 0 <= j < old_keys.len() implies old_pm@[#[trigger] old_keys[j]]
                == old_vals[j] by {
                assert(old_pm@.contains_key(old_pm.key_seq()[j]));
            }
            assert forall|j: int|
                0 <= j < old_keys.len() && old_vals[j].status == ProposalStatus::ReadyToExecute
                    && old_vals[j].timelock_ends_at is Some implies #[trigger] old_vals[j].timelock_ends_at->0
                    + GRACE_PERIOD <= u64::MAX by {
                assert(old_pm@[old_keys[j]] == old_vals[j]);
                assert(old_pm@.contains_key(old_pm.key_seq()[j]));
            }
        }
        let mut expired: Vec<ProposalId> = Vec::new();
        let n = self.proposals.len();
        let mut i: usize = 0;
        while i < n
            invariant
                self.inv(),
                old(self).inv(),
                old_pm.wf(),
                old_pm@ == old(self).proposals_view(),
                old_keys == old_pm.key_seq(),
                old_vals == old_pm.val_seq(),
                old_keys.len() == n,
                old_vals.len() == n,
                forall|j: int| 0 <= j < n ==> old_pm@[#[trigger] old_keys[j]] == old_vals[j],
                i <= n,
                self.proposals.key_seq() == old_keys,
                self.proposals.val_seq().len() == n,
                forall|j: int|
                    0 <= j < i ==> #[trigger] self.proposals.val_seq()[j] == Self::expired_version(
                        old_vals[j],
                        current_block,
                    ),
                forall|j: int| i <= j < n ==> #[trigger] self.proposals.val_seq()[j] == old_vals[j],
                forall|j: int| 0 <= j < n ==> #[trigger] self.proposals.val_seq()[j].chain_id == old_vals[j].chain_id,
                forall|j: int|
                    0 <= j < n && old_vals[j].status == ProposalStatus::ReadyToExecute
                        && old_vals[j].timelock_ends_at is Some ==> #[trigger] old_vals[j].timelock_ends_at->0
                        + GRACE_PERIOD <= u64::MAX,
                pred == (|id: ProposalId| Self::should_expire(old(self).proposals_view()[id], current_block)),
                expired@ == old_keys.take(i as int).filter(pred),
                self.active_exit_proposals@ == old_exit.remove_keys(
                    Set::new(
                        |c: ChainId|
                            exists|j: int|
                                0 <= j < i && Self::should_expire(#[trigger] old_vals[j], current_block)
                                    && old_vals[j].proposal_type.spec_is_exit() && old_vals[j].chain_id == c,
                    ),
                ),
                self.same_tables(old(self)),
            decreases n - i,
        {
            proof {
                reveal_with_fuel(Seq::<_>::filter, 1);
                assert(old_keys.take(i + 1).drop_last() =~= old_keys.take(i as int));
                assert(old_keys.take(i + 1).last() == old_keys[i as int]);
                assert(old_pm@[old_keys[i as int]] == old_vals[i as int]);
            }
            let ghost exit_before = self.active_exit_proposals@;
            let (status, timelock, is_exit, chain_id) = {
                let p = self.proposals.val_at(i);
                (p.status, p.timelock_ends_at, p.proposal_type.is_exit_proposal(), p.chain_id)
            };
            let mut expire_now = false;
            if status == ProposalStatus::ReadyToExecute {
                if let Some(timelock_end) = timelock {
                    if current_block >= timelock_end + GRACE_PERIOD {
                        expire_now = true;
                    }
                }
            }
            if expire_now {
                let ghost before = self.proposals;
                let proposal = self.proposals.val_at_mut(i);
                proposal.status = ProposalStatus::Expired;
                proof {
                    let nv = self.proposals.val_seq()[i as int];
                    VecMap::lemma_update_at(&before, &self.proposals, i as int, nv);
                    before.lemma_wf();
                    assert(self.proposals@.dom() =~= before@.dom());
                }
                expired.push(*self.proposals.key_at(i));
                if is_exit {
                    self.active_exit_proposals.remove(&chain_id);
                }
            }
            proof {
                let s_old = Set::new(
                    |c: ChainId|
                        exists|j: int|
                            0 <= j < i && Self::should_expire(#[trigger] old_vals[j], current_block)
                                && old_vals[j].proposal_type.spec_is_exit() && old_vals[j].chain_id == c,
                );
                let s_new = Set::new(
                    |c: ChainId|
                        exists|j: int|
                            0 <= j < i + 1 && Self::should_expire(#[trigger] old_vals[j], current_block)
                                && old_vals[j].proposal_type.spec_is_exit() && old_vals[j].chain_id == c,
                );
                if expire_now && is_exit {
                    assert(s_new =~= s_old.insert(chain_id));
                    assert(self.active_exit_proposals@ =~= old_exit.remove_keys(s_new));
                } else {
                    assert(s_new =~= s_old) by {
                        assert forall|c: ChainId| s_new.contains(c) implies s_old.contains(c) by {
                            let j = choose|j: int|
                                0 <= j < i + 1 && Self::should_expire(#[trigger] old_vals[j], current_block)
                                    && old_vals[j].proposal_type.spec_is_exit() && old_vals[j].chain_id == c;
                            assert(j != i);
                        }
                    }
                }
                assert(self.by_chain_view() =~= old(self).by_chain_view());
                self.proposals.lemma_wf();
                assert forall|k: ProposalId| #[trigger] self.proposals@.contains_key(k) implies old_pm@.contains_key(k)
                    && self.proposals@[k].chain_id == old_pm@[k].chain_id by {
                    let j = choose|j: int| 0 <= j < n && self.proposals.key_seq()[j] == k;
                    assert(self.proposals@[self.proposals.key_seq()[j]] == self.proposals.val_seq()[j]);
                    old_pm.lemma_wf();
                    assert(old_keys[j] == k);
                    assert(old_pm@.contains_key(old_keys[j]));
                    assert(old_pm@[old_keys[j]] == old_vals[j]);
                    assert(self.proposals.val_seq()[j].chain_id == old_vals[j].chain_id);
                }
                assert(self.proposals_view().dom() =~= old(self).proposals_view().dom()) by {
                    assert forall|k: ProposalId| old_pm@.contains_key(k) implies self.proposals@.contains_key(k) by {
                        old_pm.lemma_wf();
                        let j = choose|j: int| 0 <= j < old_keys.len() && old_keys[j] == k;
                        assert(self.proposals.key_seq()[j] == k);
                    }
                }
                old(self).lemma_lists_match();
                Self::lemma_lists_kept(old(self), self);
            }
            i = i + 1;
        }
        proof {
            assert(old_keys.take(n as int) =~= old_keys);
            self.proposals.lemma_wf();
            assert(self.proposals@.dom() =~= old_pm@.dom()) by {
                assert forall|k: ProposalId| old_pm@.contains_key(k) implies self.proposals@.contains_key(k) by {
                    let j = choose|j: int| 0 <= j < old_keys.len() && old_keys[j] == k;
                    assert(self.proposals.key_seq()[j] == k);
                }
            }
            assert forall|id: ProposalId| #[trigger] self.proposals@.contains_key(id) implies self.proposals@[id]
                == Self::expired_version(old_pm@[id], current_block) by {
                let j = choose|j: int| 0 <= j < old_keys.len() && self.proposals.key_seq()[j] == id;
                assert(self.proposals@[self.proposals.key_seq()[j]] == self.proposals.val_seq()[j]);
            }
            let s_fin = Set::new(
                |c: ChainId|
                    exists|j: int|
                        0 <= j < n && Self::should_expire(#[trigger] old_vals[j], current_block)
                            && old_vals[j].proposal_type.spec_is_exit() && old_vals[j].chain_id == c,
            );
            assert(s_fin =~= old(self).chains_of_expiring_exits(current_block)) by {
                assert forall|c: ChainId| old(self).chains_of_expiring_exits(current_block).contains(c) implies s_fin.contains(c) by {
                    let id = choose|id: ProposalId|
                        #![trigger old(self).proposals_view()[id]]
                        old(self).proposals_view().contains_key(id) && Self::should_expire(
                            old(self).proposals_view()[id],
                            current_block,
                        ) && old(self).proposals_view()[id].proposal_type.spec_is_exit()
                            && old(self).proposals_view()[id].chain_id == c;
                    let j = choose|j: int| 0 <= j < old_keys.len() && old_keys[j] == id;
                    assert(old_vals[j] == old_pm@[old_keys[j]]);
                }
                assert forall|c: ChainId| s_fin.contains(c) implies old(self).chains_of_expiring_exits(current_block).contains(c) by {
                    let j = choose|j: int|
                        0 <= j < n && Self::should_expire(#[trigger] old_vals[j], current_block)
                            && old_vals[j].proposal_type.spec_is_exit() && old_vals[j].chain_id == c;
                    assert(old_pm@[old_keys[j]] == old_vals[j]);
                    assert(old_pm@.contains_key(old_keys[j]));
                }
            }
        }
        expired
    }

    pub open spec fn is_terminal_status(s: ProposalStatus) -> bool {
        s == ProposalStatus::Executed || s == ProposalStatus::Expired || s
            == ProposalStatus::Cancelled || s == ProposalStatus::Rejected
    }

    /// Proposals that `cleanup_old_proposals(current_block, max_age)` drops:
    /// finished ones created before `current_block - max_age` (saturating).
    pub open spec fn stale_set(&self, current_block: BlockNumber, max_age: BlockNumber) -> Set<ProposalId> {
        let min_block: u64 = if current_block >= max_age { (current_block - max_age) as u64 } else { 0 };
        Set::new(
            |id: ProposalId|
                self.proposals_view().contains_key(id) && Self::is_terminal_status(
                    self.proposals_view()[id].status,
                ) && self.proposals_view()[id].created_at < min_block,
        )
    }

    /// Keeps the ids of `chain` that are not in `removed`, or that belong to
    /// another chain in `props`.
    pub open spec fn keep_pred(
        removed: Set<ProposalId>,
        props: Map<ProposalId, Proposal>,
        chain: ChainId,
    ) -> spec_fn(ProposalId) -> bool {
        |id: ProposalId| !(removed.contains(id) && props[id].chain_id == chain)
    }

    /// Drops finished proposals older than `max_age` blocks, from the table
    /// and from their chain's list; each chain's list then holds exactly
    /// that chain's remaining proposals, in their former order.
    pub fn cleanup_old_proposals(&mut self, current_block: BlockNumber, max_age: BlockNumber)
        requires
            old(self).inv(),
        ensures
            final(self).inv(),
            final(self).proposals_view() == old(self).proposals_view().remove_keys(
                old(self).stale_set(current_block, max_age),
            ),
            final(self).by_chain_view().dom() == old(self).by_chain_view().dom(),
            forall|c: ChainId| #[trigger]
                final(self).by_chain_view().contains_key(c) ==> final(self).by_chain_view()[c] == old(self).by_chain_view()[c].filter(
                    Self::keep_pred(old(self).stale_set(current_block, max_age), old(self).proposals_view(), c),
                ),
            final(self).lists_match(),
            final(self).next_id() == old(self).next_id(),
            final(self).power_view() == old(self).power_view(),
            final(self).total_power_view() == old(self).total_power_view(),
            final(self).exit_view() == old(self).exit_view(),
            final(self).disputes_view() == old(self).disputes_view(),
    {
        let min_block = current_block.saturating_sub(max_age);
        let ghost stale = old(self).stale_set(current_block, max_age);
        let ghost old_props = self.proposals@;
        let ghost old_bc = self.by_chain_view();
        let ghost old_keys = self.proposals.key_seq();
        let ghost pred = |id: ProposalId| stale.contains(id);
        proof {
            self.proposals.lemma_wf();
        }
        let mut to_remove: Vec<ProposalId> = Vec::new();
        let n = self.proposals.len();
        let mut i: usize = 0;
        while i < n
            invariant
                self.inv(),
                *self == *old(self),
                old_keys == self.proposals.key_seq(),
                old_keys.len() == n,
                old_props == self.proposals@,
                stale == old(self).stale_set(current_block, max_age),
                min_block == (if current_block >= max_age { (current_block - max_age) as u64 } else { 0 }),
                forall|j: int| 0 <= j < n ==> #[trigger] old_props.contains_key(old_keys[j]),
                pred == (|id: ProposalId| stale.contains(id)),
                i <= n,
                to_remove@ == old_keys.take(i as int).filter(pred),
            decreases n - i,
        {
            proof {
                reveal_with_fuel(Seq::<_>::filter, 1);
                assert(old_keys.take(i + 1).drop_last() =~= old_keys.take(i as int));
                assert(old_keys.take(i + 1).last() == old_keys[i as int]);
            }
            let p = self.proposals.val_at(i);
            let terminal = p.status == ProposalStatus::Executed || p.status == ProposalStatus::Expired
                || p.status == ProposalStatus::Cancelled || p.status == ProposalStatus::Rejected;
            if terminal && p.created_at < min_block {
                to_remove.push(*self.proposals.key_at(i));
            }
            i = i + 1;
        }
        proof {
            assert(old_keys.take(n as int) =~= old_keys);
            assert forall|k: int| 0 <= k < to_remove@.len() implies #[trigger] stale.contains(to_remove@[k]) by {
                old_keys.lemma_filter_pred(pred, k);
            }
            assert forall|id: ProposalId| stale.contains(id) implies #[trigger] to_remove@.contains(id) by {
                self.proposals.lemma_wf();
                let j = choose|j: int| 0 <= j < old_keys.len() && old_keys[j] == id;
                old_keys.lemma_filter_contains(pred, j);
            }
        }
        let m = to_remove.len();
        let mut k: usize = 0;
        proof {
            assert(self.proposals@ =~= old_props.remove_keys(to_remove@.take(0).to_set()));
            assert forall|c: ChainId| #[trigger] self.by_chain_view().contains_key(c) implies self.by_chain_view()[c]
                == old_bc[c].filter(Self::keep_pred(to_remove@.take(0).to_set(), old_props, c)) by {
                lemma_filter_all(old_bc[c], Self::keep_pred(to_remove@.take(0).to_set(), old_props, c));
            }
        }
        while k < m
            invariant
                self.inv(),
                k <= m,
                m == to_remove@.len(),
                stale == old(self).stale_set(current_block, max_age),
                forall|kk: int| 0 <= kk < m ==> #[trigger] stale.contains(to_remove@[kk]),
                forall|id: ProposalId| #![trigger stale.contains(id)] stale.contains(id) ==> old_props.contains_key(id),
                old_props == old(self).proposals_view(),
                old_bc == old(self).by_chain_view(),
                self.proposals@ == old_props.remove_keys(to_remove@.take(k as int).to_set()),
                self.by_chain_view().dom() == old_bc.dom(),
                forall|c: ChainId| #[trigger]
                    self.by_chain_view().contains_key(c) ==> self.by_chain_view()[c] == old_bc[c].filter(
                        Self::keep_pred(to_remove@.take(k as int).to_set(), old_props, c),
                    ),
                self.next_id() == old(self).next_id(),
                self.power_view() == old(self).power_view(),
                self.total_power_view() == old(self).total_power_view(),
                self.exit_view() == old(self).exit_view(),
                self.disputes_view() == old(self).disputes_view(),
            decreases m - k,
        {
            let id = to_remove[k];
            let ghost tk = to_remove@.take(k as int);
            let ghost tk1 = to_remove@.take(k + 1);
            proof {
                assert(tk1 =~= tk.push(id));
                assert(forall|x: ProposalId| tk1.contains(x) <==> tk.contains(x) || x == id) by {
                    assert forall|x: ProposalId| tk1.contains(x) implies tk.contains(x) || x == id by {
                        let j = choose|j: int| 0 <= j < tk1.len() && tk1[j] == x;
                        if j < k {
                            assert(tk[j] == x);
                        }
                    }
                    assert forall|x: ProposalId| tk.contains(x) implies tk1.contains(x) by {
                        let j = choose|j: int| 0 <= j < tk.len() && tk[j] == x;
                        assert(tk1[j] == x);
                    }
                    assert(tk1[k as int] == id);
                }
                assert(stale.contains(id));
            }
            let ghost before_bc = self.by_chain_view();
            let ghost s0 = *self;
            proof {
                s0.lemma_lists_match();
            }
            let removed = self.proposals.remove(&id);
            proof {
                assert(self.proposals@ =~= old_props.remove_keys(tk1.to_set()));
            }
            match removed {
                Some(p) => {
                    proof {
                        assert(!tk.contains(id));
                        assert(p == old_props[id]);
                    }
                    let c = p.chain_id;
                    match self.proposals_by_chain.find(&c) {
                        Some(j) => {
                            let new_list = vec_without(self.proposals_by_chain.val_at(j), &id);
                            proof {
                                assert(self.proposals_by_chain@.contains_key(c));
                                assert(before_bc[c] == self.proposals_by_chain@[c]@);
                                assert(new_list@ == before_bc[c].filter(neq_pred(id)));
                            }
                            self.proposals_by_chain.insert(c, new_list);
                            proof {
                                assert(self.proposals_by_chain@[c]@ == before_bc[c].filter(neq_pred(id)));
                                assert(self.by_chain_view()[c] == before_bc[c].filter(neq_pred(id)));
                                assert forall|c2: ChainId| #[trigger]
                                    self.by_chain_view().contains_key(c2) implies self.by_chain_view()[c2]
                                    == old_bc[c2].filter(Self::keep_pred(tk1.to_set(), old_props, c2)) by {
                                    let pk = Self::keep_pred(tk.to_set(), old_props, c2);
                                    let pk1 = Self::keep_pred(tk1.to_set(), old_props, c2);
                                    assert(before_bc.contains_key(c2));
                                    assert(before_bc[c2] == old_bc[c2].filter(pk));
                                    if c2 == c {
                                        assert(self.by_chain_view()[c2] == before_bc[c2].filter(neq_pred(id)));
                                        lemma_filter_filter(old_bc[c2], pk, neq_pred(id));
                                        assert(and_pred(pk, neq_pred(id)) =~= pk1);
                                    } else {
                                        assert(self.by_chain_view()[c2] == before_bc[c2]);
                                        assert(pk =~= pk1);
                                    }
                                }
                                assert(self.by_chain_view().dom() =~= old_bc.dom());
                                assert(self.by_chain_view() =~= before_bc.insert(c, before_bc[c].filter(neq_pred(id))));
                                assert(before_bc.contains_key(c));
                                Self::lemma_lists_remove(&s0, self, id, c);
                            }
                        },
                        None => {
                            proof {
                                assert(s0.listed(c, id));
                                assert forall|c2: ChainId| #[trigger]
                                    self.by_chain_view().contains_key(c2) implies self.by_chain_view()[c2]
                                    == old_bc[c2].filter(Self::keep_pred(tk1.to_set(), old_props, c2)) by {
                                    let pk = Self::keep_pred(tk.to_set(), old_props, c2);
                                    let pk1 = Self::keep_pred(tk1.to_set(), old_props, c2);
                                    assert(c2 != c);
                                    assert(pk =~= pk1);
                                }
                            }
                        },
                    }
                },
                None => {
                    proof {
                        assert(self.proposals_view().dom() =~= s0.proposals_view().dom());
                        Self::lemma_lists_kept(&s0, self);
                        assert(tk.contains(id));
                        assert forall|c2: ChainId| #[trigger]
                            self.by_chain_view().contains_key(c2) implies self.by_chain_view()[c2]
                            == old_bc[c2].filter(Self::keep_pred(tk1.to_set(), old_props, c2)) by {
                            let pk = Self::keep_pred(tk.to_set(), old_props, c2);
                            let pk1 = Self::keep_pred(tk1.to_set(), old_props, c2);
                            assert(pk =~= pk1);
                        }
                    }
                },
            }
            k = k + 1;
        }
        proof {
            assert(to_remove@.take(m as int) =~= to_remove@);
            assert(to_remove@.to_set() =~= stale) by {
                assert forall|x: ProposalId| to_remove@.to_set().contains(x) implies stale.contains(x) by {
                    let j = choose|j: int| 0 <= j < to_remove@.len() && to_remove@[j] == x;
                }
            }
        }
    }
}

impl Default for GovernanceContract {
    fn default() -> (g: Self)
        ensures
            g.inv(),
            g.proposals_view() == Map::<ProposalId, Proposal>::empty(),
            g.next_id() == 1,
            g.power_view() == Map::<ChainAccount, Balance>::empty(),
            g.exit_view() == Map::<ChainId, ProposalId>::empty(),
            g.disputes_view() == Set::<ChainId>::empty(),
    {
        Self::new()
    }
}

} // verus!

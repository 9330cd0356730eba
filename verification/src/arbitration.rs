//! Cross-chain arbitration: disputes are raised, gather evidence, go before
//! a jury of validators drawn by lot, are decided by its votes, and may be
//! appealed to a higher jurisdiction.
use crate::dispute::{
    first_accused, is_pending, spec_tally, status_label, status_name, Dispute, DisputeId, DisputeStatus,
    DisputeType, Enforcement, Evidence, JuryDecision, JuryVote, Jurisdiction, Verdict, DEFAULT_JURY_SIZE,
    ARBITRATION_VC_REWARD, DELIBERATION_PERIOD, MAX_EVIDENCE_COUNT, MIN_JURY_SIZE,
};
use crate::genesis::EPOCH_DURATION_BLOCKS;
use crate::types::{AccountId, Balance, BlockNumber, ChainId};
use crate::vecmap::{lemma_filter_membership, vec_contains, MapKey, VecMap};
use vstd::prelude::*;

verus! {

/// A validator that may be drawn for a jury.
#[derive(Debug, Clone, Copy, PartialEq, Eq)]
pub struct ValidatorInfo {
    pub account: AccountId,
    pub stake: Balance,
    pub vc: u64,
}

/// A juror's credit for sitting on a decided dispute, for the validator
/// credits ledger.
#[derive(Debug, Clone, Copy, PartialEq, Eq)]
pub struct JurorReward {
    pub juror: AccountId,
    pub block: BlockNumber,
    pub epoch: u64,
    pub credits: u64,
}

#[derive(Debug, Clone, PartialEq, Eq)]
pub enum ArbitrationError {
    DisputeNotFound(DisputeId),
    InvalidJurisdiction,
    MaxDisputesReached,
    DuplicateDispute(DisputeId),
    EvidenceWindowClosed,
    Unauthorized { action: String, required: String },
    EvidenceLimitReached,
    InvalidState { expected: String, actual: String },
    InsufficientJury(usize),
    VRFSelectionFailed(String),
    DeliberationClosed,
    NotJuryMember,
    AlreadyVoted,
    DeliberationNotComplete,
    AlreadyResolved,
}

pub open spec fn is_unauthorized(e: ArbitrationError, action: Seq<char>, required: Seq<char>) -> bool {
    e matches ArbitrationError::Unauthorized { action: a, required: q } && a@ == action && q@ == required
}

pub open spec fn is_invalid_state(e: ArbitrationError, expected: Seq<char>, actual: Seq<char>) -> bool {
    e matches ArbitrationError::InvalidState { expected: x, actual: y } && x@ == expected && y@ == actual
}

/// A local jurisdiction only hears disputes about its own chain.
pub open spec fn jurisdiction_allows(j: Jurisdiction, chain_id: ChainId) -> bool {
    match j {
        Jurisdiction::Local(c) => c == chain_id,
        _ => true,
    }
}

/// Appeals go from a chain to its host, and from either to the root.
pub open spec fn is_higher(new: Jurisdiction, current: Jurisdiction) -> bool {
    match (current, new) {
        (Jurisdiction::Local(_), Jurisdiction::Host(_)) => true,
        (Jurisdiction::Local(_), Jurisdiction::Root) => true,
        (Jurisdiction::Host(_), Jurisdiction::Root) => true,
        _ => false,
    }
}

pub fn is_higher_jurisdiction(new: &Jurisdiction, current: &Jurisdiction) -> (b: bool)
    ensures
        b == is_higher(*new, *current),
{
    match (current, new) {
        (Jurisdiction::Local(_), Jurisdiction::Host(_)) => true,
        (Jurisdiction::Local(_), Jurisdiction::Root) => true,
        (Jurisdiction::Host(_), Jurisdiction::Root) => true,
        _ => false,
    }
}

/// Rank of a jurisdiction: a chain, then its host, then the root.
pub open spec fn jurisdiction_rank(j: Jurisdiction) -> int {
    match j {
        Jurisdiction::Local(_) => 0,
        Jurisdiction::Host(_) => 1,
        Jurisdiction::Root => 2,
    }
}

/// Jurisdictions are strictly ordered Local < Host < Root: an appeal may go
/// to `new` from `current` exactly when `new` ranks strictly higher, so a
/// host-chain decision can be appealed to the root, and no appeal stays at
/// the same level or goes down.
pub proof fn law_appeal_goes_strictly_up(new: Jurisdiction, current: Jurisdiction)
    ensures
        is_higher(new, current) <==> jurisdiction_rank(new) > jurisdiction_rank(current),
        current is Host && new is Root ==> is_higher(new, current),
        current is Local && !(new is Local) ==> is_higher(new, current),
        current is Root ==> !is_higher(new, current),
        !is_higher(current, current),
{
}

/// Registered validators that may sit on a jury: neither the accused nor
/// the one who raised the dispute.
pub open spec fn jury_candidates(
    validators: Seq<ValidatorInfo>,
    accused: Option<AccountId>,
    raiser: AccountId,
) -> Seq<ValidatorInfo> {
    validators.filter(|v: ValidatorInfo| v.account != raiser && accused != Some(v.account))
}

/// Candidates not among `picked`.
pub open spec fn still_available(cands: Seq<ValidatorInfo>, picked: Seq<AccountId>) -> Seq<ValidatorInfo> {
    cands.filter(|v: ValidatorInfo| !picked.contains(v.account))
}

/// Round `k` of the draw for dispute `id`: asked, with the round and the
/// epoch `id + k`, for one of the candidates not among the first `k`
/// picks (there is one at least), `select` answered `out`.
pub open spec fn draw_round<F: Fn(u64, u64, &Vec<ValidatorInfo>) -> Result<AccountId, String>>(
    select: F,
    cands: Seq<ValidatorInfo>,
    id: DisputeId,
    picks: Seq<AccountId>,
    k: int,
    out: Result<AccountId, String>,
) -> bool {
    let avail = still_available(cands, picks.take(k));
    &&& avail.len() > 0
    &&& exists|v: Vec<ValidatorInfo>|
        v@ == avail && #[trigger] select.ensures((k as u64, id.wrapping_add(k as u64), &v), out)
}

/// After `picks`, the next round of the draw was refused with `m`.
pub open spec fn draw_refused<F: Fn(u64, u64, &Vec<ValidatorInfo>) -> Result<AccountId, String>>(
    select: F,
    cands: Seq<ValidatorInfo>,
    id: DisputeId,
    picks: Seq<AccountId>,
    m: String,
) -> bool {
    draw_round(select, cands, id, picks, picks.len() as int, Err(m))
}

/// `picks` were drawn round by round.
pub open spec fn is_draw<F: Fn(u64, u64, &Vec<ValidatorInfo>) -> Result<AccountId, String>>(
    select: F,
    cands: Seq<ValidatorInfo>,
    id: DisputeId,
    picks: Seq<AccountId>,
) -> bool {
    forall|k: int| 0 <= k < picks.len() ==> #[trigger] draw_round(select, cands, id, picks, k, Ok(picks[k]))
}

/// A draw of fewer than `size` picks whose next round was refused with `m`.
pub open spec fn refused_draw<F: Fn(u64, u64, &Vec<ValidatorInfo>) -> Result<AccountId, String>>(
    select: F,
    cands: Seq<ValidatorInfo>,
    id: DisputeId,
    size: usize,
    m: String,
) -> bool {
    exists|picks: Seq<AccountId>|
        is_draw(select, cands, id, picks) && picks.len() < size && #[trigger] draw_refused(select, cands, id, picks, m)
}

/// A complete draw of `n` picks, fewer than a jury needs.
pub open spec fn short_draw<F: Fn(u64, u64, &Vec<ValidatorInfo>) -> Result<AccountId, String>>(
    select: F,
    cands: Seq<ValidatorInfo>,
    id: DisputeId,
    size: usize,
    n: usize,
) -> bool {
    &&& n < MIN_JURY_SIZE
    &&& exists|picks: Seq<AccountId>|
        #[trigger] is_draw(select, cands, id, picks) && draw_complete(cands, picks, size) && picks.len() == n
}

/// The draw stopped where it must: at `size` picks, or when no candidate is left.
pub open spec fn draw_complete(cands: Seq<ValidatorInfo>, picks: Seq<AccountId>, size: usize) -> bool {
    picks.len() == size || still_available(cands, picks).len() == 0
}

/// Each pick of a draw whose selector answers with one of the validators
/// it is given is a candidate not picked before.
pub proof fn lemma_pick_is_fresh_candidate<F: Fn(u64, u64, &Vec<ValidatorInfo>) -> Result<AccountId, String>>(
    select: F,
    cands: Seq<ValidatorInfo>,
    id: DisputeId,
    picks: Seq<AccountId>,
    k: int,
) -> (v: ValidatorInfo)
    requires
        forall|round: u64, epoch: u64, avail: &Vec<ValidatorInfo>, a: AccountId|
            #[trigger] select.ensures((round, epoch, avail), Ok::<AccountId, String>(a)) ==> exists|i: int|
                0 <= i < avail@.len() && avail@[i].account == a,
        is_draw(select, cands, id, picks),
        0 <= k < picks.len(),
    ensures
        cands.contains(v),
        v.account == picks[k],
        !picks.take(k).contains(picks[k]),
{
    assert(draw_round(select, cands, id, picks, k, Ok(picks[k])));
    let avail = still_available(cands, picks.take(k));
    let w = choose|w: Vec<ValidatorInfo>|
        w@ == avail && #[trigger] select.ensures((k as u64, id.wrapping_add(k as u64), &w), Ok(picks[k]));
    let i = choose|i: int| 0 <= i < w@.len() && w@[i].account == picks[k];
    let v = w@[i];
    let pred = |x: ValidatorInfo| !picks.take(k).contains(x.account);
    assert(avail.contains(v));
    lemma_filter_membership(cands, pred, v);
    v
}

/// A jury drawn by a selector that answers with one of the validators it
/// is given seats no one twice, and seats neither the accused nor the one
/// who raised the dispute: every juror is a registered validator other
/// than those two.
pub proof fn law_jury_excludes_parties<F: Fn(u64, u64, &Vec<ValidatorInfo>) -> Result<AccountId, String>>(
    select: F,
    validators: Seq<ValidatorInfo>,
    accused: Option<AccountId>,
    raiser: AccountId,
    id: DisputeId,
    jury: Seq<AccountId>,
)
    requires
        forall|round: u64, epoch: u64, avail: &Vec<ValidatorInfo>, a: AccountId|
            #[trigger] select.ensures((round, epoch, avail), Ok::<AccountId, String>(a)) ==> exists|i: int|
                0 <= i < avail@.len() && avail@[i].account == a,
        is_draw(select, jury_candidates(validators, accused, raiser), id, jury),
    ensures
        jury.no_duplicates(),
        forall|k: int|
            0 <= k < jury.len() ==> #[trigger] jury[k] != raiser && accused != Some(jury[k]) && exists|i: int|
                0 <= i < validators.len() && validators[i].account == jury[k],
{
    let cands = jury_candidates(validators, accused, raiser);
    let pred = |v: ValidatorInfo| v.account != raiser && accused != Some(v.account);
    assert forall|k: int| 0 <= k < jury.len() implies #[trigger] jury[k] != raiser && accused != Some(jury[k])
        && exists|i: int| 0 <= i < validators.len() && validators[i].account == jury[k] by {
        let v = lemma_pick_is_fresh_candidate(select, cands, id, jury, k);
        lemma_filter_membership(validators, pred, v);
        let i = choose|i: int| 0 <= i < validators.len() && validators[i] == v;
        assert(validators[i].account == jury[k]);
    }
    assert forall|a: int, b: int| 0 <= a < jury.len() && 0 <= b < jury.len() && a != b implies jury[a] != jury[b] by {
        let (lo, hi) = if a < b {
            (a, b)
        } else {
            (b, a)
        };
        lemma_pick_is_fresh_candidate(select, cands, id, jury, hi);
        assert(jury.take(hi)[lo] == jury[lo]);
    }
}

pub struct ArbitrationContract {
    disputes: VecMap<DisputeId, Dispute>,
    validators: VecMap<AccountId, ValidatorInfo>,
    juror_rewards: Vec<JurorReward>,
    next_dispute_id: DisputeId,
    current_block: BlockNumber,
}

impl ArbitrationContract {
    pub closed spec fn inv(&self) -> bool {
        &&& self.disputes.wf()
        &&& self.validators.wf()
        &&& forall|i: int|
            0 <= i < self.validators.val_seq().len() ==> #[trigger] self.validators.val_seq()[i].account
                == self.validators.key_seq()[i]
    }

    pub closed spec fn disputes_view(&self) -> Map<DisputeId, Dispute> {
        self.disputes@
    }

    /// Dispute ids in the order in which they were first stored.
    pub closed spec fn dispute_ids(&self) -> Seq<DisputeId> {
        self.disputes.key_seq()
    }

    pub closed spec fn validators_view(&self) -> Map<AccountId, ValidatorInfo> {
        self.validators@
    }

    /// Registered validators in the order of their first registration.
    pub closed spec fn validator_seq(&self) -> Seq<ValidatorInfo> {
        self.validators.val_seq()
    }

    pub closed spec fn next_id(&self) -> DisputeId {
        self.next_dispute_id
    }

    pub closed spec fn block(&self) -> BlockNumber {
        self.current_block
    }

    /// Juror credits not yet handed to the credits ledger.
    pub closed spec fn rewards(&self) -> Seq<JurorReward> {
        self.juror_rewards@
    }

    /// The ids and the table agree, position by position.
    pub proof fn lemma_tables(&self)
        requires
            self.inv(),
        ensures
            self.dispute_ids().no_duplicates(),
            forall|i: int|
                0 <= i < self.dispute_ids().len() ==> #[trigger] self.disputes_view().contains_key(
                    self.dispute_ids()[i],
                ),
            forall|id: DisputeId| #[trigger]
                self.disputes_view().contains_key(id) ==> self.dispute_ids().contains(id),
            self.validator_seq().len() == self.validators_view().dom().len(),
    {
        self.disputes.lemma_wf();
        self.validators.lemma_wf();
        assert forall|id: DisputeId| #[trigger] self.disputes_view().contains_key(id) implies self.dispute_ids().contains(
            id,
        ) by {
            let i = choose|i: int| 0 <= i < self.disputes.key_seq().len() && self.disputes.key_seq()[i] == id;
            assert(self.dispute_ids()[i] == id);
        }
    }

    /// Everything but the disputes is as in `old`.
    pub open spec fn same_but_disputes(&self, old: &Self) -> bool {
        &&& self.validators_view() == old.validators_view()
        &&& self.validator_seq() == old.validator_seq()
        &&& self.next_id() == old.next_id()
        &&& self.block() == old.block()
        &&& self.rewards() == old.rewards()
    }

    pub fn new() -> (c: Self)
        ensures
            c.inv(),
            c.disputes_view() == Map::<DisputeId, Dispute>::empty(),
            c.dispute_ids() == Seq::<DisputeId>::empty(),
            c.validators_view() == Map::<AccountId, ValidatorInfo>::empty(),
            c.validator_seq() == Seq::<ValidatorInfo>::empty(),
            c.next_id() == 1,
            c.block() == 0,
            c.rewards() == Seq::<JurorReward>::empty(),
    {
        let disputes = VecMap::new();
        let validators: VecMap<AccountId, ValidatorInfo> = VecMap::new();
        proof {
            validators.lemma_wf();
            assert(validators.val_seq() =~= Seq::<ValidatorInfo>::empty());
        }
        ArbitrationContract { disputes, validators, juror_rewards: Vec::new(), next_dispute_id: 1, current_block: 0 }
    }

    /// Registers (or re-registers) `account` as a possible juror.
    pub fn register_validator(&mut self, account: AccountId, stake: Balance, vc: u64)
        requires
            old(self).inv(),
        ensures
            final(self).inv(),
            final(self).validators_view() == old(self).validators_view().insert(
                account,
                ValidatorInfo { account, stake, vc },
            ),
            final(self).disputes_view() == old(self).disputes_view(),
            final(self).dispute_ids() == old(self).dispute_ids(),
            final(self).next_id() == old(self).next_id(),
            final(self).block() == old(self).block(),
            final(self).rewards() == old(self).rewards(),
            !old(self).validators_view().contains_key(account) ==> final(self).validator_seq()
                == old(self).validator_seq().push(ValidatorInfo { account, stake, vc }),
            old(self).validators_view().contains_key(account) ==> exists|i: int|
                0 <= i < old(self).validator_seq().len() && old(self).validator_seq()[i].account == account
                    && final(self).validator_seq() == old(self).validator_seq().update(
                    i,
                    ValidatorInfo { account, stake, vc },
                ),
    {
        let ghost before = self.validators;
        proof {
            before.lemma_wf();
        }
        self.validators.insert(account, ValidatorInfo { account, stake, vc });
        proof {
            self.validators.lemma_wf();
            if before@.contains_key(account) {
                let i = choose|i: int|
                    0 <= i < before.key_seq().len() && before.key_seq()[i] == account && self.validators.val_seq()
                        == before.val_seq().update(i, ValidatorInfo { account, stake, vc });
                assert(before.val_seq()[i].account == account);
                assert(old(self).validator_seq()[i].account == account && self.validator_seq()
                    == old(self).validator_seq().update(i, ValidatorInfo { account, stake, vc }));
                assert forall|j: int| 0 <= j < self.validators.val_seq().len() implies #[trigger] self.validators.val_seq()[j].account
                    == self.validators.key_seq()[j] by {
                    if j != i {
                        assert(self.validators.val_seq()[j] == before.val_seq()[j]);
                    }
                }
            } else {
                assert forall|j: int| 0 <= j < self.validators.val_seq().len() implies #[trigger] self.validators.val_seq()[j].account
                    == self.validators.key_seq()[j] by {
                    if j < before.val_seq().len() {
                        assert(self.validators.val_seq()[j] == before.val_seq()[j]);
                        assert(self.validators.key_seq()[j] == before.key_seq()[j]);
                    }
                }
            }
        }
    }

    pub fn set_current_block(&mut self, block_number: BlockNumber)
        ensures
            final(self).block() == block_number,
            final(self).inv() == old(self).inv(),
            final(self).disputes_view() == old(self).disputes_view(),
            final(self).dispute_ids() == old(self).dispute_ids(),
            final(self).validators_view() == old(self).validators_view(),
            final(self).validator_seq() == old(self).validator_seq(),
            final(self).next_id() == old(self).next_id(),
            final(self).rewards() == old(self).rewards(),
    {
        self.current_block = block_number;
    }

    pub fn get_dispute(&self, dispute_id: DisputeId) -> (r: Result<&Dispute, ArbitrationError>)
        requires
            self.inv(),
        ensures
            match r {
                Ok(d) => self.disputes_view().contains_key(dispute_id) && *d == self.disputes_view()[dispute_id],
                Err(e) => !self.disputes_view().contains_key(dispute_id) && e == ArbitrationError::DisputeNotFound(
                    dispute_id,
                ),
            },
    {
        match self.disputes.get(&dispute_id) {
            Some(d) => Ok(d),
            None => Err(ArbitrationError::DisputeNotFound(dispute_id)),
        }
    }

    fn validate_jurisdiction(jurisdiction: &Jurisdiction, chain_id: &ChainId) -> (r: Result<(), ArbitrationError>)
        ensures
            r is Ok <==> jurisdiction_allows(*jurisdiction, *chain_id),
            r is Err ==> r == Err::<(), ArbitrationError>(ArbitrationError::InvalidJurisdiction),
    {
        match jurisdiction {
            Jurisdiction::Local(c) => {
                if c.0 != chain_id.0 {
                    return Err(ArbitrationError::InvalidJurisdiction);
                }
            },
            _ => {},
        }
        Ok(())
    }

    /// Opens dispute `next_id` about `chain_id`, with `initial_evidence`
    /// as its first evidence.
    pub fn raise_dispute(
        &mut self,
        chain_id: ChainId,
        dispute_type: DisputeType,
        raised_by: AccountId,
        jurisdiction: Jurisdiction,
        initial_evidence: Option<Evidence>,
    ) -> (r: Result<DisputeId, ArbitrationError>)
        requires
            old(self).inv(),
        ensures
            final(self).inv(),
            !jurisdiction_allows(jurisdiction, chain_id) ==> r == Err::<DisputeId, ArbitrationError>(
                ArbitrationError::InvalidJurisdiction,
            ),
            jurisdiction_allows(jurisdiction, chain_id) && old(self).next_id() == u64::MAX ==> r == Err::<
                DisputeId,
                ArbitrationError,
            >(ArbitrationError::MaxDisputesReached),
            jurisdiction_allows(jurisdiction, chain_id) && old(self).next_id() < u64::MAX && old(
                self,
            ).disputes_view().contains_key(old(self).next_id()) ==> r == Err::<DisputeId, ArbitrationError>(
                ArbitrationError::DuplicateDispute(old(self).next_id()),
            ),
            jurisdiction_allows(jurisdiction, chain_id) && old(self).next_id() < u64::MAX && !old(
                self,
            ).disputes_view().contains_key(old(self).next_id()) ==> r == Ok::<DisputeId, ArbitrationError>(
                old(self).next_id(),
            ),
            r is Err ==> *final(self) == *old(self),
            r matches Ok(id) ==> {
                &&& final(self).next_id() == id + 1
                &&& final(self).disputes_view() == old(self).disputes_view().insert(id, final(self).disputes_view()[id])
                &&& final(self).disputes_view()[id].is_new_dispute(
                    id,
                    chain_id,
                    dispute_type,
                    raised_by,
                    old(self).block(),
                    jurisdiction,
                    match initial_evidence {
                        Some(e) => seq![e],
                        None => Seq::empty(),
                    },
                )
                &&& final(self).dispute_ids() == old(self).dispute_ids().push(id)
                &&& final(self).validators_view() == old(self).validators_view()
                &&& final(self).validator_seq() == old(self).validator_seq()
                &&& final(self).block() == old(self).block()
                &&& final(self).rewards() == old(self).rewards()
            },
    {
        Self::validate_jurisdiction(&jurisdiction, &chain_id)?;
        if self.next_dispute_id == u64::MAX {
            return Err(ArbitrationError::MaxDisputesReached);
        }
        let dispute_id = self.next_dispute_id;
        if self.disputes.contains_key(&dispute_id) {
            return Err(ArbitrationError::DuplicateDispute(dispute_id));
        }
        self.next_dispute_id = dispute_id + 1;
        let mut dispute = Dispute::new(
            dispute_id,
            chain_id,
            dispute_type,
            raised_by,
            self.current_block,
            jurisdiction,
        );
        match initial_evidence {
            Some(e) => {
                dispute.evidence.push(e);
            },
            None => {},
        }
        proof {
            assert(dispute.evidence@ =~= match initial_evidence {
                Some(e) => seq![e],
                None => Seq::<Evidence>::empty(),
            });
        }
        let ghost before = self.disputes;
        self.disputes.insert(dispute_id, dispute);
        proof {
            before.lemma_wf();
            assert(self.validators.val_seq() == old(self).validators.val_seq());
        }
        Ok(dispute_id)
    }
    /// `submitter` may add evidence to `d`: its raiser, its accused, or a
    /// registered validator.
    pub open spec fn may_submit(d: Dispute, submitter: AccountId, validators: Map<AccountId, ValidatorInfo>) -> bool {
        ||| submitter == d.raised_by
        ||| d.spec_accused() == Some(submitter)
        ||| validators.contains_key(submitter)
    }

    /// Adds `evidence` to an open dispute within its evidence window.
    pub fn submit_evidence(&mut self, dispute_id: DisputeId, evidence: Evidence, submitter: AccountId) -> (r: Result<
        (),
        ArbitrationError,
    >)
        requires
            old(self).inv(),
        ensures
            final(self).inv(),
            !old(self).disputes_view().contains_key(dispute_id) ==> r == Err::<(), ArbitrationError>(
                ArbitrationError::DisputeNotFound(dispute_id),
            ),
            old(self).disputes_view().contains_key(dispute_id) ==> {
                let d = old(self).disputes_view()[dispute_id];
                let open = d.spec_can_submit_evidence(old(self).block());
                let allowed = Self::may_submit(d, submitter, old(self).validators_view());
                &&& !open ==> r == Err::<(), ArbitrationError>(ArbitrationError::EvidenceWindowClosed)
                &&& open && !allowed ==> (r matches Err(e) && is_unauthorized(
                    e,
                    "submit_evidence"@,
                    "dispute party or validator"@,
                ))
                &&& open && allowed && d.evidence@.len() >= MAX_EVIDENCE_COUNT ==> r == Err::<(), ArbitrationError>(
                    ArbitrationError::EvidenceLimitReached,
                )
                &&& open && allowed && d.evidence@.len() < MAX_EVIDENCE_COUNT ==> r is Ok
                &&& r is Ok ==> final(self).disputes_view() == old(self).disputes_view().insert(
                    dispute_id,
                    Dispute { evidence: final(self).disputes_view()[dispute_id].evidence, ..d },
                ) && final(self).disputes_view()[dispute_id].evidence@ == d.evidence@.push(evidence)
            },
            r is Err ==> *final(self) == *old(self),
            final(self).dispute_ids() == old(self).dispute_ids(),
            final(self).same_but_disputes(old(self)),
    {
        let is_validator = self.validators.contains_key(&submitter);
        let i = match self.disputes.find(&dispute_id) {
            Some(i) => i,
            None => {
                return Err(ArbitrationError::DisputeNotFound(dispute_id));
            },
        };
        let d = self.disputes.val_at(i);
        if !d.can_submit_evidence(self.current_block) {
            return Err(ArbitrationError::EvidenceWindowClosed);
        }
        let is_raiser = submitter.key_eq(&d.raised_by);
        let is_accused = match d.accused() {
            Some(a) => a.key_eq(&submitter),
            None => false,
        };
        if !is_raiser && !is_accused && !is_validator {
            return Err(
                ArbitrationError::Unauthorized {
                    action: "submit_evidence".to_owned(),
                    required: "dispute party or validator".to_owned(),
                },
            );
        }
        if d.evidence.len() >= MAX_EVIDENCE_COUNT {
            return Err(ArbitrationError::EvidenceLimitReached);
        }
        let ghost before = self.disputes;
        let dm = self.disputes.val_at_mut(i);
        dm.evidence.push(evidence);
        proof {
            VecMap::lemma_update_at(&before, &self.disputes, i as int, self.disputes.val_seq()[i as int]);
        }
        Ok(())
    }

    /// `juror` has a vote among `votes`.
    pub open spec fn has_voted(votes: Seq<JuryVote>, juror: AccountId) -> bool {
        exists|k: int| 0 <= k < votes.len() && (#[trigger] votes[k]).juror == juror
    }

    fn votes_include(votes: &Vec<JuryVote>, juror: &AccountId) -> (b: bool)
        ensures
            b == Self::has_voted(votes@, *juror),
    {
        let mut k: usize = 0;
        while k < votes.len()
            invariant
                k <= votes@.len(),
                forall|q: int| 0 <= q < k ==> (#[trigger] votes@[q]).juror != *juror,
            decreases votes@.len() - k,
        {
            if votes[k].juror.key_eq(juror) {
                return true;
            }
            k = k + 1;
        }
        false
    }

    /// Records the vote of a juror of a dispute under deliberation.
    pub fn submit_jury_vote(
        &mut self,
        dispute_id: DisputeId,
        juror: AccountId,
        verdict: Verdict,
        justification: Option<String>,
    ) -> (r: Result<(), ArbitrationError>)
        requires
            old(self).inv(),
        ensures
            final(self).inv(),
            !old(self).disputes_view().contains_key(dispute_id) ==> r == Err::<(), ArbitrationError>(
                ArbitrationError::DisputeNotFound(dispute_id),
            ),
            old(self).disputes_view().contains_key(dispute_id) ==> {
                let d = old(self).disputes_view()[dispute_id];
                let open = d.spec_can_vote(old(self).block());
                let member = d.jury_members@.contains(juror);
                let voted = Self::has_voted(d.jury_votes@, juror);
                &&& !open ==> r == Err::<(), ArbitrationError>(ArbitrationError::DeliberationClosed)
                &&& open && !member ==> r == Err::<(), ArbitrationError>(ArbitrationError::NotJuryMember)
                &&& open && member && voted ==> r == Err::<(), ArbitrationError>(ArbitrationError::AlreadyVoted)
                &&& open && member && !voted ==> r is Ok
                &&& r is Ok ==> final(self).disputes_view() == old(self).disputes_view().insert(
                    dispute_id,
                    Dispute { jury_votes: final(self).disputes_view()[dispute_id].jury_votes, ..d },
                ) && final(self).disputes_view()[dispute_id].jury_votes@ == d.jury_votes@.push(
                    JuryVote { juror, verdict, justification, timestamp: old(self).block() },
                )
            },
            r is Err ==> *final(self) == *old(self),
            final(self).dispute_ids() == old(self).dispute_ids(),
            final(self).same_but_disputes(old(self)),
    {
        let current_block = self.current_block;
        let i = match self.disputes.find(&dispute_id) {
            Some(i) => i,
            None => {
                return Err(ArbitrationError::DisputeNotFound(dispute_id));
            },
        };
        let d = self.disputes.val_at(i);
        if !d.can_vote(current_block) {
            return Err(ArbitrationError::DeliberationClosed);
        }
        if !vec_contains(&d.jury_members, &juror) {
            return Err(ArbitrationError::NotJuryMember);
        }
        if Self::votes_include(&d.jury_votes, &juror) {
            return Err(ArbitrationError::AlreadyVoted);
        }
        let ghost before = self.disputes;
        let dm = self.disputes.val_at_mut(i);
        dm.jury_votes.push(JuryVote { juror, verdict, justification, timestamp: current_block });
        proof {
            VecMap::lemma_update_at(&before, &self.disputes, i as int, self.disputes.val_seq()[i as int]);
        }
        Ok(())
    }

    /// Records how a decided dispute is to be enforced; only a registered
    /// validator may, and only once.
    pub fn enforce_verdict(&mut self, dispute_id: DisputeId, enforcement: Enforcement, caller: AccountId) -> (r:
        Result<(), ArbitrationError>)
        requires
            old(self).inv(),
        ensures
            final(self).inv(),
            !old(self).validators_view().contains_key(caller) ==> (r matches Err(e) && is_unauthorized(
                e,
                "enforce_verdict"@,
                "registered validator"@,
            )),
            old(self).validators_view().contains_key(caller) && !old(self).disputes_view().contains_key(dispute_id)
                ==> r == Err::<(), ArbitrationError>(ArbitrationError::DisputeNotFound(dispute_id)),
            old(self).validators_view().contains_key(caller) && old(self).disputes_view().contains_key(dispute_id)
                ==> {
                let d = old(self).disputes_view()[dispute_id];
                let enforced = d.decision matches Some(dec) && dec.enforcement is Some;
                &&& d.status != DisputeStatus::Resolved ==> (r matches Err(e) && is_invalid_state(
                    e,
                    "Resolved"@,
                    status_label(d.status),
                ))
                &&& d.status == DisputeStatus::Resolved && enforced ==> r == Err::<(), ArbitrationError>(
                    ArbitrationError::AlreadyResolved,
                )
                &&& d.status == DisputeStatus::Resolved && !enforced ==> r is Ok
                &&& r is Ok ==> final(self).disputes_view() == old(self).disputes_view().insert(
                    dispute_id,
                    Dispute {
                        decision: match d.decision {
                            Some(dec) => Some(JuryDecision { enforcement: Some(enforcement), ..dec }),
                            None => None,
                        },
                        ..d
                    },
                )
            },
            r is Err ==> *final(self) == *old(self),
            final(self).dispute_ids() == old(self).dispute_ids(),
            final(self).same_but_disputes(old(self)),
    {
        if !self.validators.contains_key(&caller) {
            return Err(
                ArbitrationError::Unauthorized {
                    action: "enforce_verdict".to_owned(),
                    required: "registered validator".to_owned(),
                },
            );
        }
        let i = match self.disputes.find(&dispute_id) {
            Some(i) => i,
            None => {
                return Err(ArbitrationError::DisputeNotFound(dispute_id));
            },
        };
        let d = self.disputes.val_at(i);
        if d.status != DisputeStatus::Resolved {
            return Err(
                ArbitrationError::InvalidState { expected: "Resolved".to_owned(), actual: status_name(d.status) },
            );
        }
        match d.decision {
            Some(dec) => {
                if dec.enforcement.is_some() {
                    return Err(ArbitrationError::AlreadyResolved);
                }
            },
            None => {},
        }
        let ghost before = self.disputes;
        let dm = self.disputes.val_at_mut(i);
        match dm.decision {
            Some(dec) => {
                dm.decision = Some(JuryDecision { enforcement: Some(enforcement), ..dec });
            },
            None => {},
        }
        proof {
            VecMap::lemma_update_at(&before, &self.disputes, i as int, self.disputes.val_seq()[i as int]);
        }
        Ok(())
    }

    /// Dismisses an open dispute (for lack of evidence, a frivolous claim);
    /// only a registered validator may.
    pub fn dismiss_dispute(&mut self, dispute_id: DisputeId, reason: &str, caller: AccountId) -> (r: Result<
        (),
        ArbitrationError,
    >)
        requires
            old(self).inv(),
        ensures
            final(self).inv(),
            !old(self).validators_view().contains_key(caller) ==> (r matches Err(e) && is_unauthorized(
                e,
                "dismiss_dispute"@,
                "registered validator"@,
            )),
            old(self).validators_view().contains_key(caller) && !old(self).disputes_view().contains_key(dispute_id)
                ==> r == Err::<(), ArbitrationError>(ArbitrationError::DisputeNotFound(dispute_id)),
            old(self).validators_view().contains_key(caller) && old(self).disputes_view().contains_key(dispute_id)
                ==> {
                let d = old(self).disputes_view()[dispute_id];
                let dismissible = d.status == DisputeStatus::Open || d.status == DisputeStatus::EvidenceComplete;
                &&& !dismissible ==> (r matches Err(e) && is_invalid_state(
                    e,
                    "Open or EvidenceComplete"@,
                    status_label(d.status),
                ))
                &&& dismissible ==> r is Ok && final(self).disputes_view() == old(self).disputes_view().insert(
                    dispute_id,
                    Dispute { status: DisputeStatus::Dismissed, ..d },
                )
            },
            r is Err ==> *final(self) == *old(self),
            final(self).dispute_ids() == old(self).dispute_ids(),
            final(self).same_but_disputes(old(self)),
    {
        if !self.validators.contains_key(&caller) {
            return Err(
                ArbitrationError::Unauthorized {
                    action: "dismiss_dispute".to_owned(),
                    required: "registered validator".to_owned(),
                },
            );
        }
        let i = match self.disputes.find(&dispute_id) {
            Some(i) => i,
            None => {
                return Err(ArbitrationError::DisputeNotFound(dispute_id));
            },
        };
        let status = self.disputes.val_at(i).status;
        if !(status == DisputeStatus::Open || status == DisputeStatus::EvidenceComplete) {
            return Err(
                ArbitrationError::InvalidState {
                    expected: "Open or EvidenceComplete".to_owned(),
                    actual: status_name(status),
                },
            );
        }
        let ghost before = self.disputes;
        let dm = self.disputes.val_at_mut(i);
        dm.status = DisputeStatus::Dismissed;
        proof {
            VecMap::lemma_update_at(&before, &self.disputes, i as int, self.disputes.val_seq()[i as int]);
        }
        Ok(())
    }

    /// A pending dispute about `chain_id` blocks its exit.
    pub fn has_blocking_disputes(&self, chain_id: ChainId) -> (b: bool)
        requires
            self.inv(),
        ensures
            b == exists|id: DisputeId| #[trigger]
                self.disputes_view().contains_key(id) && self.disputes_view()[id].chain_id == chain_id
                    && is_pending(self.disputes_view()[id].status),
    {
        proof {
            self.disputes.lemma_wf();
        }
        let n = self.disputes.len();
        let mut i: usize = 0;
        while i < n
            invariant
                self.inv(),
                n == self.disputes.key_seq().len(),
                i <= n,
                forall|j: int|
                    0 <= j < i ==> !(#[trigger] self.disputes.val_seq()[j].chain_id == chain_id && is_pending(
                        self.disputes.val_seq()[j].status,
                    )),
            decreases n - i,
        {
            let d = self.disputes.val_at(i);
            if d.chain_id.0 == chain_id.0 && (d.status == DisputeStatus::Open || d.status
                == DisputeStatus::EvidenceComplete || d.status == DisputeStatus::Deliberating) {
                proof {
                    self.disputes.lemma_wf();
                    assert(self.disputes_view().contains_key(self.disputes.key_seq()[i as int]));
                }
                return true;
            }
            i = i + 1;
        }
        proof {
            self.disputes.lemma_wf();
            assert forall|id: DisputeId| #[trigger] self.disputes_view().contains_key(id) implies !(
            self.disputes_view()[id].chain_id == chain_id && is_pending(self.disputes_view()[id].status)) by {
                let j = choose|j: int| 0 <= j < n && self.disputes.key_seq()[j] == id;
                assert(self.disputes@[self.disputes.key_seq()[j]] == self.disputes.val_seq()[j]);
            }
        }
        false
    }

    /// Blocks left before the dispute's absolute deadline (0 once passed).
    pub fn time_until_expiry(&self, dispute_id: DisputeId) -> (r: Option<BlockNumber>)
        requires
            self.inv(),
        ensures
            r == if self.disputes_view().contains_key(dispute_id) {
                let deadline = self.disputes_view()[dispute_id].spec_absolute_deadline();
                Some(
                    if self.block() < deadline {
                        (deadline - self.block()) as BlockNumber
                    } else {
                        0
                    },
                )
            } else {
                None
            },
    {
        match self.disputes.get(&dispute_id) {
            Some(d) => {
                let deadline = d.absolute_deadline();
                if self.current_block < deadline {
                    Some(deadline - self.current_block)
                } else {
                    Some(0)
                }
            },
            None => None,
        }
    }

    /// `validator` sits on the jury of a dispute under deliberation.
    pub fn is_jury_member(&self, validator: &AccountId) -> (b: bool)
        requires
            self.inv(),
        ensures
            b == exists|id: DisputeId| #[trigger]
                self.disputes_view().contains_key(id) && self.disputes_view()[id].status == DisputeStatus::Deliberating
                    && self.disputes_view()[id].jury_members@.contains(*validator),
    {
        proof {
            self.disputes.lemma_wf();
        }
        let n = self.disputes.len();
        let mut i: usize = 0;
        while i < n
            invariant
                self.inv(),
                n == self.disputes.key_seq().len(),
                i <= n,
                forall|j: int|
                    0 <= j < i ==> !((#[trigger] self.disputes.val_seq()[j]).status == DisputeStatus::Deliberating
                        && self.disputes.val_seq()[j].jury_members@.contains(*validator)),
            decreases n - i,
        {
            let d = self.disputes.val_at(i);
            if d.status == DisputeStatus::Deliberating && vec_contains(&d.jury_members, validator) {
                proof {
                    self.disputes.lemma_wf();
                    assert(self.disputes_view().contains_key(self.disputes.key_seq()[i as int]));
                }
                return true;
            }
            i = i + 1;
        }
        proof {
            self.disputes.lemma_wf();
            assert forall|id: DisputeId| #[trigger] self.disputes_view().contains_key(id) implies !(
            self.disputes_view()[id].status == DisputeStatus::Deliberating
                && self.disputes_view()[id].jury_members@.contains(*validator)) by {
                let j = choose|j: int| 0 <= j < n && self.disputes.key_seq()[j] == id;
                assert(self.disputes@[self.disputes.key_seq()[j]] == self.disputes.val_seq()[j]);
            }
        }
        false
    }
    /// Deliberation may end: every juror has voted or the deadline is reached.
    pub open spec fn deliberation_over(d: Dispute, block: BlockNumber) -> bool {
        ||| d.jury_votes@.len() >= d.jury_members@.len()
        ||| (d.deliberation_deadline matches Some(dl) && block >= dl)
    }

    /// One credit record per juror, at `block` and its epoch.
    pub open spec fn rewards_for(jurors: Seq<AccountId>, block: BlockNumber) -> Seq<JurorReward> {
        jurors.map_values(
            |j: AccountId|
                JurorReward { juror: j, block, epoch: block / EPOCH_DURATION_BLOCKS, credits: ARBITRATION_VC_REWARD },
        )
    }

    /// Decides a dispute under deliberation from its votes, once every juror
    /// has voted or the deadline is reached, and credits its jurors.
    pub fn tally_votes(&mut self, dispute_id: DisputeId) -> (r: Result<JuryDecision, ArbitrationError>)
        requires
            old(self).inv(),
        ensures
            final(self).inv(),
            !old(self).disputes_view().contains_key(dispute_id) ==> r == Err::<JuryDecision, ArbitrationError>(
                ArbitrationError::DisputeNotFound(dispute_id),
            ),
            old(self).disputes_view().contains_key(dispute_id) ==> {
                let d = old(self).disputes_view()[dispute_id];
                let b = old(self).block();
                let deliberating = d.status == DisputeStatus::Deliberating;
                let over = Self::deliberation_over(d, b);
                &&& !deliberating ==> (r matches Err(e) && is_invalid_state(
                    e,
                    "Deliberating"@,
                    status_label(d.status),
                ))
                &&& deliberating && !over ==> r == Err::<JuryDecision, ArbitrationError>(
                    ArbitrationError::DeliberationNotComplete,
                )
                &&& deliberating && over && d.jury_votes@.len() == 0 ==> (r matches Err(e) && is_invalid_state(
                    e,
                    "At least one vote"@,
                    "No votes submitted"@,
                ))
                &&& deliberating && over && d.jury_votes@.len() > 0 ==> r == Ok::<JuryDecision, ArbitrationError>(
                    spec_tally(d.jury_votes@, b, dispute_id),
                )
                &&& r matches Ok(dec) ==> {
                    &&& final(self).disputes_view() == old(self).disputes_view().insert(
                        dispute_id,
                        Dispute { decision: Some(dec), status: DisputeStatus::Resolved, ..d },
                    )
                    &&& final(self).rewards() == old(self).rewards() + Self::rewards_for(d.jury_members@, b)
                }
            },
            r is Err ==> *final(self) == *old(self),
            final(self).dispute_ids() == old(self).dispute_ids(),
            final(self).validators_view() == old(self).validators_view(),
            final(self).validator_seq() == old(self).validator_seq(),
            final(self).next_id() == old(self).next_id(),
            final(self).block() == old(self).block(),
    {
        let current_block = self.current_block;
        let i = match self.disputes.find(&dispute_id) {
            Some(i) => i,
            None => {
                return Err(ArbitrationError::DisputeNotFound(dispute_id));
            },
        };
        let d = self.disputes.val_at(i);
        if d.status != DisputeStatus::Deliberating {
            return Err(
                ArbitrationError::InvalidState { expected: "Deliberating".to_owned(), actual: status_name(d.status) },
            );
        }
        let all_voted = d.jury_votes.len() >= d.jury_members.len();
        let deadline_passed = match d.deliberation_deadline {
            Some(dl) => current_block >= dl,
            None => false,
        };
        if !all_voted && !deadline_passed {
            return Err(ArbitrationError::DeliberationNotComplete);
        }
        if d.jury_votes.len() == 0 {
            return Err(
                ArbitrationError::InvalidState {
                    expected: "At least one vote".to_owned(),
                    actual: "No votes submitted".to_owned(),
                },
            );
        }
        let decision = JuryDecision::tally_votes(&d.jury_votes, current_block, dispute_id);
        let jurors = crate::vecmap::vec_copy(&d.jury_members);
        let ghost before = self.disputes;
        let dm = self.disputes.val_at_mut(i);
        dm.decision = Some(decision);
        dm.status = DisputeStatus::Resolved;
        proof {
            VecMap::lemma_update_at(&before, &self.disputes, i as int, self.disputes.val_seq()[i as int]);
        }
        self.reward_jury_members(&jurors);
        Ok(decision)
    }

    fn reward_jury_members(&mut self, jurors: &Vec<AccountId>)
        ensures
            final(self).rewards() == old(self).rewards() + Self::rewards_for(jurors@, old(self).block()),
            final(self).disputes == old(self).disputes,
            final(self).validators == old(self).validators,
            final(self).next_id() == old(self).next_id(),
            final(self).block() == old(self).block(),
    {
        let block_number = self.current_block;
        let epoch = block_number / EPOCH_DURATION_BLOCKS;
        let ghost start = self.juror_rewards@;
        let mut k: usize = 0;
        while k < jurors.len()
            invariant
                k <= jurors@.len(),
                self.current_block == block_number,
                epoch == block_number / EPOCH_DURATION_BLOCKS,
                self.juror_rewards@ == start + Self::rewards_for(jurors@.take(k as int), block_number),
                self.disputes == old(self).disputes,
                self.validators == old(self).validators,
                self.next_dispute_id == old(self).next_dispute_id,
                self.current_block == old(self).current_block,
                start == old(self).juror_rewards@,
            decreases jurors@.len() - k,
        {
            self.juror_rewards.push(
                JurorReward { juror: jurors[k], block: block_number, epoch, credits: ARBITRATION_VC_REWARD },
            );
            proof {
                assert(Self::rewards_for(jurors@.take(k + 1), block_number) =~= Self::rewards_for(
                    jurors@.take(k as int),
                    block_number,
                ).push(JurorReward { juror: jurors@[k as int], block: block_number, epoch, credits: ARBITRATION_VC_REWARD }));
            }
            k = k + 1;
        }
        proof {
            assert(jurors@.take(jurors@.len() as int) =~= jurors@);
        }
    }

    /// Hands the accumulated juror credits to the caller, emptying the list.
    pub fn drain_juror_rewards(&mut self) -> (r: Vec<JurorReward>)
        ensures
            r@ == old(self).rewards(),
            final(self).rewards() == Seq::<JurorReward>::empty(),
            final(self).inv() == old(self).inv(),
            final(self).disputes_view() == old(self).disputes_view(),
            final(self).dispute_ids() == old(self).dispute_ids(),
            final(self).validators_view() == old(self).validators_view(),
            final(self).validator_seq() == old(self).validator_seq(),
            final(self).next_id() == old(self).next_id(),
            final(self).block() == old(self).block(),
    {
        let mut out: Vec<JurorReward> = Vec::new();
        std::mem::swap(&mut out, &mut self.juror_rewards);
        out
    }

    /// Appeals a decided dispute to a higher jurisdiction: a new dispute
    /// with the same subject and evidence is opened there, and the decided
    /// one is marked appealed.
    pub fn appeal_decision(&mut self, dispute_id: DisputeId, appealed_by: AccountId, new_jurisdiction: Jurisdiction) -> (r:
        Result<DisputeId, ArbitrationError>)
        requires
            old(self).inv(),
        ensures
            final(self).inv(),
            !old(self).disputes_view().contains_key(dispute_id) ==> r == Err::<DisputeId, ArbitrationError>(
                ArbitrationError::DisputeNotFound(dispute_id),
            ),
            old(self).disputes_view().contains_key(dispute_id) ==> {
                let d = old(self).disputes_view()[dispute_id];
                let next = old(self).next_id();
                let ok_so_far = d.status == DisputeStatus::Resolved && is_higher(new_jurisdiction, d.jurisdiction);
                &&& d.status != DisputeStatus::Resolved ==> (r matches Err(e) && is_invalid_state(
                    e,
                    "Resolved"@,
                    status_label(d.status),
                ))
                &&& d.status == DisputeStatus::Resolved && !is_higher(new_jurisdiction, d.jurisdiction) ==> r
                    == Err::<DisputeId, ArbitrationError>(ArbitrationError::InvalidJurisdiction)
                &&& ok_so_far && next == u64::MAX ==> r == Err::<DisputeId, ArbitrationError>(
                    ArbitrationError::MaxDisputesReached,
                )
                &&& ok_so_far && next < u64::MAX && old(self).disputes_view().contains_key(next) ==> r == Err::<
                    DisputeId,
                    ArbitrationError,
                >(ArbitrationError::DuplicateDispute(next))
                &&& ok_so_far && next < u64::MAX && !old(self).disputes_view().contains_key(next) ==> r == Ok::<
                    DisputeId,
                    ArbitrationError,
                >(next)
                &&& r matches Ok(nid) ==> {
                    &&& final(self).next_id() == nid + 1
                    &&& final(self).disputes_view() == old(self).disputes_view().insert(
                        dispute_id,
                        Dispute { status: DisputeStatus::Appealed, ..d },
                    ).insert(nid, final(self).disputes_view()[nid])
                    &&& final(self).disputes_view()[nid].is_new_dispute(
                        nid,
                        d.chain_id,
                        d.dispute_type,
                        appealed_by,
                        old(self).block(),
                        new_jurisdiction,
                        d.evidence@,
                    )
                    &&& final(self).dispute_ids() == old(self).dispute_ids().push(nid)
                    &&& final(self).validators_view() == old(self).validators_view()
                    &&& final(self).validator_seq() == old(self).validator_seq()
                    &&& final(self).block() == old(self).block()
                    &&& final(self).rewards() == old(self).rewards()
                }
            },
            r is Err ==> *final(self) == *old(self),
    {
        let i = match self.disputes.find(&dispute_id) {
            Some(i) => i,
            None => {
                return Err(ArbitrationError::DisputeNotFound(dispute_id));
            },
        };
        let d = self.disputes.val_at(i);
        if d.status != DisputeStatus::Resolved {
            return Err(
                ArbitrationError::InvalidState { expected: "Resolved".to_owned(), actual: status_name(d.status) },
            );
        }
        if !is_higher_jurisdiction(&new_jurisdiction, &d.jurisdiction) {
            return Err(ArbitrationError::InvalidJurisdiction);
        }
        let chain_id = d.chain_id;
        let dispute_type = d.dispute_type;
        let evidence = crate::vecmap::vec_copy(&d.evidence);
        let ghost d0 = *d;
        let new_id = self.raise_dispute(chain_id, dispute_type, appealed_by, new_jurisdiction, None)?;
        proof {
            self.lemma_tables();
            old(self).lemma_tables();
        }
        let j = match self.disputes.find(&new_id) {
            Some(j) => j,
            None => {
                proof {
                    assert(false);
                }
                return Err(ArbitrationError::DisputeNotFound(new_id));
            },
        };
        let ghost before = self.disputes;
        let nm = self.disputes.val_at_mut(j);
        nm.evidence = evidence;
        proof {
            VecMap::lemma_update_at(&before, &self.disputes, j as int, self.disputes.val_seq()[j as int]);
        }
        let k = match self.disputes.find(&dispute_id) {
            Some(k) => k,
            None => {
                proof {
                    assert(false);
                }
                return Err(ArbitrationError::DisputeNotFound(dispute_id));
            },
        };
        let ghost before2 = self.disputes;
        let om = self.disputes.val_at_mut(k);
        om.status = DisputeStatus::Appealed;
        proof {
            VecMap::lemma_update_at(&before2, &self.disputes, k as int, self.disputes.val_seq()[k as int]);
            assert(self.disputes@ =~= old(self).disputes@.insert(
                dispute_id,
                Dispute { status: DisputeStatus::Appealed, ..d0 },
            ).insert(new_id, self.disputes@[new_id]));
        }
        Ok(new_id)
    }

    /// Puts back a dispute read from storage under `dispute_id`.
    pub fn restore_dispute(&mut self, dispute_id: DisputeId, dispute: Dispute)
        requires
            old(self).inv(),
        ensures
            final(self).inv(),
            final(self).disputes_view() == old(self).disputes_view().insert(dispute_id, dispute),
            final(self).dispute_ids() == if old(self).disputes_view().contains_key(dispute_id) {
                old(self).dispute_ids()
            } else {
                old(self).dispute_ids().push(dispute_id)
            },
            final(self).same_but_disputes(old(self)),
    {
        self.disputes.insert(dispute_id, dispute);
    }
    /// Stale (no evidence by the deadline) or past its absolute deadline.
    pub open spec fn lapsed(d: Dispute, block: BlockNumber) -> bool {
        d.spec_is_stale(block) || d.spec_is_expired(block)
    }

    /// The disputes after expiry at `block`.
    pub open spec fn after_expiry(m: Map<DisputeId, Dispute>, block: BlockNumber) -> Map<DisputeId, Dispute> {
        Map::new(
            |id: DisputeId| m.contains_key(id),
            |id: DisputeId|
                if Self::lapsed(m[id], block) {
                    Dispute { status: DisputeStatus::Expired, ..m[id] }
                } else {
                    m[id]
                },
        )
    }

    /// Marks every stale or overdue dispute expired, so that it stops
    /// blocking exits; returns their ids in storage order.
    pub fn expire_stale_disputes(&mut self) -> (r: Vec<DisputeId>)
        requires
            old(self).inv(),
        ensures
            final(self).inv(),
            r@ == old(self).dispute_ids().filter(
                |id: DisputeId| Self::lapsed(old(self).disputes_view()[id], old(self).block()),
            ),
            final(self).disputes_view() == Self::after_expiry(old(self).disputes_view(), old(self).block()),
            final(self).dispute_ids() == old(self).dispute_ids(),
            final(self).same_but_disputes(old(self)),
    {
        let ghost start = self.disputes;
        let ghost keys = self.disputes.key_seq();
        let ghost m0 = self.disputes@;
        let block = self.current_block;
        let ghost pred = |id: DisputeId| Self::lapsed(m0[id], block);
        proof {
            start.lemma_wf();
        }
        let n = self.disputes.len();
        let mut out: Vec<DisputeId> = Vec::new();
        let mut i: usize = 0;
        while i < n
            invariant
                self.inv(),
                start.wf(),
                n == keys.len(),
                i <= n,
                keys == start.key_seq(),
                keys == self.disputes.key_seq(),
                m0 == start@,
                block == self.current_block,
                pred == (|id: DisputeId| Self::lapsed(m0[id], block)),
                self.disputes.val_seq().len() == n,
                start.val_seq().len() == n,
                forall|j: int|
                    0 <= j < n ==> #[trigger] m0.contains_key(keys[j]) && m0[keys[j]] == start.val_seq()[j],
                forall|j: int|
                    0 <= j < n ==> #[trigger] self.disputes.val_seq()[j] == if j < i && Self::lapsed(
                        start.val_seq()[j],
                        block,
                    ) {
                        Dispute { status: DisputeStatus::Expired, ..start.val_seq()[j] }
                    } else {
                        start.val_seq()[j]
                    },
                out@ == keys.take(i as int).filter(pred),
                self.same_but_disputes(old(self)),
            decreases n - i,
        {
            proof {
                reveal_with_fuel(Seq::<_>::filter, 1);
                assert(keys.take(i + 1).drop_last() =~= keys.take(i as int));
                assert(keys.take(i + 1).last() == keys[i as int]);
                assert(m0.contains_key(keys[i as int]));
            }
            let d = self.disputes.val_at(i);
            if d.is_stale(block) || d.is_expired(block) {
                let id = *self.disputes.key_at(i);
                out.push(id);
                let ghost before = self.disputes;
                let dm = self.disputes.val_at_mut(i);
                dm.status = DisputeStatus::Expired;
                proof {
                    VecMap::lemma_update_at(&before, &self.disputes, i as int, self.disputes.val_seq()[i as int]);
                }
            }
            i = i + 1;
        }
        proof {
            assert(keys.take(n as int) =~= keys);
            self.disputes.lemma_wf();
            assert forall|id: DisputeId| #[trigger] self.disputes@.contains_key(id) == m0.contains_key(id) by {
                if self.disputes@.contains_key(id) {
                    let j = choose|j: int| 0 <= j < n && self.disputes.key_seq()[j] == id;
                    assert(m0.contains_key(keys[j]));
                }
                if m0.contains_key(id) {
                    let j = choose|j: int| 0 <= j < n && start.key_seq()[j] == id;
                    assert(self.disputes@.contains_key(keys[j]));
                }
            }
            assert forall|id: DisputeId| #[trigger] self.disputes@.contains_key(id) implies self.disputes@[id]
                == Self::after_expiry(m0, block)[id] by {
                let j = choose|j: int| 0 <= j < n && self.disputes.key_seq()[j] == id;
                assert(self.disputes@[keys[j]] == self.disputes.val_seq()[j]);
                assert(m0.contains_key(keys[j]));
            }
            assert(self.disputes@ =~= Self::after_expiry(m0, block));
        }
        out
    }

    /// Ids, in storage order, of the disputes about `chain_id`.
    pub open spec fn chain_dispute_ids(&self, chain_id: ChainId) -> Seq<DisputeId> {
        self.dispute_ids().filter(|id: DisputeId| self.disputes_view()[id].chain_id == chain_id)
    }

    /// The disputes about `chain_id`, in storage order.
    pub fn get_disputes_for_chain(&self, chain_id: ChainId) -> (r: Vec<&Dispute>)
        requires
            self.inv(),
        ensures
            r@.len() == self.chain_dispute_ids(chain_id).len(),
            forall|i: int|
                0 <= i < r@.len() ==> *r@[i] == self.disputes_view()[self.chain_dispute_ids(chain_id)[i]],
    {
        let ghost keys = self.disputes.key_seq();
        let ghost pred = |id: DisputeId| self.disputes_view()[id].chain_id == chain_id;
        proof {
            self.disputes.lemma_wf();
        }
        let n = self.disputes.len();
        let mut out: Vec<&Dispute> = Vec::new();
        let mut i: usize = 0;
        while i < n
            invariant
                self.inv(),
                keys == self.disputes.key_seq(),
                n == keys.len(),
                i <= n,
                pred == (|id: DisputeId| self.disputes_view()[id].chain_id == chain_id),
                out@.len() == keys.take(i as int).filter(pred).len(),
                forall|j: int|
                    0 <= j < out@.len() ==> *out@[j] == self.disputes_view()[keys.take(i as int).filter(pred)[j]],
            decreases n - i,
        {
            proof {
                reveal_with_fuel(Seq::<_>::filter, 1);
                assert(keys.take(i + 1).drop_last() =~= keys.take(i as int));
                assert(keys.take(i + 1).last() == keys[i as int]);
                self.disputes.lemma_wf();
            }
            let d = self.disputes.val_at(i);
            if d.chain_id.0 == chain_id.0 {
                out.push(d);
            }
            i = i + 1;
        }
        proof {
            assert(keys.take(n as int) =~= keys);
        }
        out
    }

    /// Open or under deliberation.
    pub open spec fn is_active_status(s: DisputeStatus) -> bool {
        s == DisputeStatus::Open || s == DisputeStatus::Deliberating
    }

    pub open spec fn active_dispute_ids(&self) -> Seq<DisputeId> {
        self.dispute_ids().filter(|id: DisputeId| Self::is_active_status(self.disputes_view()[id].status))
    }

    /// The disputes that are open or under deliberation, in storage order.
    pub fn get_active_disputes(&self) -> (r: Vec<&Dispute>)
        requires
            self.inv(),
        ensures
            r@.len() == self.active_dispute_ids().len(),
            forall|i: int| 0 <= i < r@.len() ==> *r@[i] == self.disputes_view()[self.active_dispute_ids()[i]],
    {
        let ghost keys = self.disputes.key_seq();
        let ghost pred = |id: DisputeId| Self::is_active_status(self.disputes_view()[id].status);
        proof {
            self.disputes.lemma_wf();
        }
        let n = self.disputes.len();
        let mut out: Vec<&Dispute> = Vec::new();
        let mut i: usize = 0;
        while i < n
            invariant
                self.inv(),
                keys == self.disputes.key_seq(),
                n == keys.len(),
                i <= n,
                pred == (|id: DisputeId| Self::is_active_status(self.disputes_view()[id].status)),
                out@.len() == keys.take(i as int).filter(pred).len(),
                forall|j: int|
                    0 <= j < out@.len() ==> *out@[j] == self.disputes_view()[keys.take(i as int).filter(pred)[j]],
            decreases n - i,
        {
            proof {
                reveal_with_fuel(Seq::<_>::filter, 1);
                assert(keys.take(i + 1).drop_last() =~= keys.take(i as int));
                assert(keys.take(i + 1).last() == keys[i as int]);
                self.disputes.lemma_wf();
            }
            let d = self.disputes.val_at(i);
            if d.status == DisputeStatus::Open || d.status == DisputeStatus::Deliberating {
                out.push(d);
            }
            i = i + 1;
        }
        proof {
            assert(keys.take(n as int) =~= keys);
        }
        out
    }
    /// The validators, in registration order, other than `accused` and `raiser`.
    fn candidates_for(&self, accused: Option<AccountId>, raiser: AccountId) -> (c: Vec<ValidatorInfo>)
        requires
            self.inv(),
        ensures
            c@ == jury_candidates(self.validator_seq(), accused, raiser),
    {
        let ghost vals = self.validators.val_seq();
        let ghost pred = |v: ValidatorInfo| v.account != raiser && accused != Some(v.account);
        proof {
            self.validators.lemma_wf();
        }
        let n = self.validators.len();
        let mut out: Vec<ValidatorInfo> = Vec::new();
        let mut i: usize = 0;
        while i < n
            invariant
                self.inv(),
                vals == self.validators.val_seq(),
                n == vals.len(),
                i <= n,
                pred == (|v: ValidatorInfo| v.account != raiser && accused != Some(v.account)),
                out@ == vals.take(i as int).filter(pred),
            decreases n - i,
        {
            proof {
                reveal_with_fuel(Seq::<_>::filter, 1);
                assert(vals.take(i + 1).drop_last() =~= vals.take(i as int));
                assert(vals.take(i + 1).last() == vals[i as int]);
                self.validators.lemma_wf();
            }
            let v = *self.validators.val_at(i);
            let is_accused = match accused {
                Some(a) => a.key_eq(&v.account),
                None => false,
            };
            if !v.account.key_eq(&raiser) && !is_accused {
                out.push(v);
            }
            i = i + 1;
        }
        proof {
            assert(vals.take(n as int) =~= vals);
        }
        out
    }

    /// The candidates whose account is not among `picked`.
    fn available_of(cands: &Vec<ValidatorInfo>, picked: &Vec<AccountId>) -> (a: Vec<ValidatorInfo>)
        ensures
            a@ == still_available(cands@, picked@),
    {
        let ghost pred = |v: ValidatorInfo| !picked@.contains(v.account);
        let mut out: Vec<ValidatorInfo> = Vec::new();
        let mut i: usize = 0;
        while i < cands.len()
            invariant
                i <= cands@.len(),
                pred == (|v: ValidatorInfo| !picked@.contains(v.account)),
                out@ == cands@.take(i as int).filter(pred),
            decreases cands@.len() - i,
        {
            proof {
                reveal_with_fuel(Seq::<_>::filter, 1);
                assert(cands@.take(i + 1).drop_last() =~= cands@.take(i as int));
                assert(cands@.take(i + 1).last() == cands@[i as int]);
            }
            if !vec_contains(picked, &cands[i].account) {
                out.push(cands[i]);
            }
            i = i + 1;
        }
        proof {
            assert(cands@.take(cands@.len() as int) =~= cands@);
        }
        out
    }

    /// Draws up to `size` jurors among `candidates`, one per round, each
    /// among those not yet drawn, until none is left; stops at the first
    /// refusal of `select_validator`.
    fn draw_jury<F>(candidates: &Vec<ValidatorInfo>, dispute_id: DisputeId, size: usize, select_validator: F) -> (r:
        Result<Vec<AccountId>, (Vec<AccountId>, String)>) where
            F: Fn(u64, u64, &Vec<ValidatorInfo>) -> Result<AccountId, String>,
        requires
            forall|round: u64, epoch: u64, avail: &Vec<ValidatorInfo>|
                #[trigger] select_validator.requires((round, epoch, avail)),
        ensures
            r matches Ok(j) ==> is_draw(select_validator, candidates@, dispute_id, j@) && draw_complete(
                candidates@,
                j@,
                size,
            ) && j@.len() <= size,
            r matches Err(p) ==> is_draw(select_validator, candidates@, dispute_id, p.0@) && p.0@.len() < size
                && draw_refused(select_validator, candidates@, dispute_id, p.0@, p.1),
    {
        let mut jury: Vec<AccountId> = Vec::new();
        let mut exhausted = false;
        while !exhausted && jury.len() < size
            invariant
                forall|round: u64, epoch: u64, avail: &Vec<ValidatorInfo>|
                    #[trigger] select_validator.requires((round, epoch, avail)),
                is_draw(select_validator, candidates@, dispute_id, jury@),
                jury@.len() <= size,
                exhausted ==> still_available(candidates@, jury@).len() == 0,
            decreases (size - jury@.len()) * 2 + if exhausted {
                0int
            } else {
                1int
            },
        {
            let available = Self::available_of(candidates, &jury);
            if available.len() == 0 {
                exhausted = true;
            } else {
                let round = jury.len();
                let epoch = dispute_id.wrapping_add(round as u64);
                let picked = select_validator(round as u64, epoch, &available);
                proof {
                    assert(jury@.take(round as int) =~= jury@);
                    assert(select_validator.ensures((round as u64, epoch, &available), picked));
                }
                match picked {
                    Ok(sel) => {
                        let ghost before = jury@;
                        jury.push(sel);
                        proof {
                            assert forall|k: int| 0 <= k < jury@.len() implies #[trigger] draw_round(
                                select_validator,
                                candidates@,
                                dispute_id,
                                jury@,
                                k,
                                Ok(jury@[k]),
                            ) by {
                                assert(jury@.take(k) =~= before.take(k));
                                if k < before.len() {
                                    assert(draw_round(
                                        select_validator,
                                        candidates@,
                                        dispute_id,
                                        before,
                                        k,
                                        Ok(before[k]),
                                    ));
                                }
                            }
                        }
                    },
                    Err(m) => {
                        proof {
                            assert(draw_round(
                                select_validator,
                                candidates@,
                                dispute_id,
                                jury@,
                                jury@.len() as int,
                                Err(m),
                            ));
                            assert(draw_refused(select_validator, candidates@, dispute_id, jury@, m));
                        }
                        return Err((jury, m));
                    },
                }
            }
        }
        Ok(jury)
    }

    /// Closes the evidence of an open dispute and draws its jury by lot
    /// among the registered validators other than its accused and its
    /// raiser, `jury_size` of them (13 by default) or as many as there are;
    /// `select_validator` draws one validator among those given, for a round
    /// and an epoch. The jury then deliberates until the deliberation period
    /// has passed.
    pub fn select_jury<F>(&mut self, dispute_id: DisputeId, jury_size: Option<usize>, select_validator: F) -> (r:
        Result<Vec<AccountId>, ArbitrationError>) where
            F: Fn(u64, u64, &Vec<ValidatorInfo>) -> Result<AccountId, String>,
        requires
            old(self).inv(),
            old(self).block() <= u64::MAX - DELIBERATION_PERIOD,
            forall|round: u64, epoch: u64, avail: &Vec<ValidatorInfo>|
                #[trigger] select_validator.requires((round, epoch, avail)),
        ensures
            final(self).inv(),
            !old(self).disputes_view().contains_key(dispute_id) ==> r == Err::<Vec<AccountId>, ArbitrationError>(
                ArbitrationError::DisputeNotFound(dispute_id),
            ),
            old(self).disputes_view().contains_key(dispute_id) ==> {
                let d = old(self).disputes_view()[dispute_id];
                let size = match jury_size {
                    Some(s) => s,
                    None => DEFAULT_JURY_SIZE,
                };
                let cands = jury_candidates(old(self).validator_seq(), d.spec_accused(), d.raised_by);
                let ready = d.status == DisputeStatus::Open && d.evidence@.len() > 0;
                &&& d.status != DisputeStatus::Open ==> (r matches Err(e) && is_invalid_state(
                    e,
                    "Open"@,
                    status_label(d.status),
                ))
                &&& d.status == DisputeStatus::Open && d.evidence@.len() == 0 ==> (r matches Err(e)
                    && is_invalid_state(e, "At least one evidence"@, "No evidence submitted"@))
                &&& ready && cands.len() == 0 ==> r == Err::<Vec<AccountId>, ArbitrationError>(
                    ArbitrationError::InsufficientJury(0),
                )
                &&& ready && cands.len() > 0 ==> (r is Ok || r matches Err(ArbitrationError::InsufficientJury(_))
                    || r matches Err(ArbitrationError::VRFSelectionFailed(_)))
                &&& r matches Ok(jury) ==> {
                    &&& ready
                    &&& is_draw(select_validator, cands, dispute_id, jury@)
                    &&& draw_complete(cands, jury@, size)
                    &&& jury@.len() >= MIN_JURY_SIZE
                    &&& final(self).disputes_view() == old(self).disputes_view().insert(
                        dispute_id,
                        Dispute {
                            status: DisputeStatus::Deliberating,
                            jury_members: final(self).disputes_view()[dispute_id].jury_members,
                            deliberation_deadline: Some((old(self).block() + DELIBERATION_PERIOD) as BlockNumber),
                            ..d
                        },
                    )
                    &&& final(self).disputes_view()[dispute_id].jury_members@ == jury@
                }
                &&& ready && cands.len() > 0 ==> (r matches Err(ArbitrationError::InsufficientJury(n))
                    ==> short_draw(select_validator, cands, dispute_id, size, n))
                &&& ready && size == 0 ==> r == Err::<Vec<AccountId>, ArbitrationError>(
                    ArbitrationError::InsufficientJury(0),
                )
                &&& r matches Err(ArbitrationError::VRFSelectionFailed(m)) ==> refused_draw(
                    select_validator,
                    cands,
                    dispute_id,
                    size,
                    m,
                )
            },
            r is Err ==> *final(self) == *old(self),
            final(self).dispute_ids() == old(self).dispute_ids(),
            final(self).same_but_disputes(old(self)),
    {
        let i = match self.disputes.find(&dispute_id) {
            Some(i) => i,
            None => {
                return Err(ArbitrationError::DisputeNotFound(dispute_id));
            },
        };
        let d = self.disputes.val_at(i);
        if d.status != DisputeStatus::Open {
            return Err(
                ArbitrationError::InvalidState { expected: "Open".to_owned(), actual: status_name(d.status) },
            );
        }
        if d.evidence.len() == 0 {
            return Err(
                ArbitrationError::InvalidState {
                    expected: "At least one evidence".to_owned(),
                    actual: "No evidence submitted".to_owned(),
                },
            );
        }
        let accused = d.accused();
        let raiser = d.raised_by;
        let size = match jury_size {
            Some(s) => s,
            None => DEFAULT_JURY_SIZE,
        };
        let candidates = self.candidates_for(accused, raiser);
        if candidates.len() == 0 {
            return Err(ArbitrationError::InsufficientJury(0));
        }
        let jury = match Self::draw_jury(&candidates, dispute_id, size, select_validator) {
            Ok(j) => j,
            Err(p) => {
                let (picks, m) = p;
                proof {
                    let d0 = old(self).disputes_view()[dispute_id];
                    let cands = jury_candidates(old(self).validator_seq(), d0.spec_accused(), d0.raised_by);
                    assert(candidates@ == cands);
                    assert(is_draw(select_validator, cands, dispute_id, picks@));
                    assert(draw_refused(select_validator, cands, dispute_id, picks@, m));
                    assert(refused_draw(select_validator, cands, dispute_id, size, m));
                }
                return Err(ArbitrationError::VRFSelectionFailed(m));
            },
        };
        if jury.len() < MIN_JURY_SIZE {
            proof {
                assert(is_draw(select_validator, candidates@, dispute_id, jury@));
            }
            return Err(ArbitrationError::InsufficientJury(jury.len()));
        }
        let members = crate::vecmap::vec_copy(&jury);
        let deadline = self.current_block + DELIBERATION_PERIOD;
        let ghost before = self.disputes;
        let dm = self.disputes.val_at_mut(i);
        dm.status = DisputeStatus::Deliberating;
        dm.jury_members = members;
        dm.deliberation_deadline = Some(deadline);
        proof {
            VecMap::lemma_update_at(&before, &self.disputes, i as int, self.disputes.val_seq()[i as int]);
        }
        Ok(jury)
    }
}

} // verus!

//! Disputes brought before cross-chain arbitration: what is disputed, the
//! evidence, the jury's votes and its decision.
use crate::types::{AccountId, Balance, BlockNumber, ChainId};
use vstd::prelude::*;

verus! {

pub type DisputeId = u64;

/// 7 days to bring evidence.
pub const EVIDENCE_PERIOD: BlockNumber = 100_800;

/// 7 days of deliberation once a jury is drawn.
pub const DELIBERATION_PERIOD: BlockNumber = 100_800;

/// 58 days: the longest a dispute may stay unresolved.
pub const MAX_DISPUTE_DURATION: BlockNumber = 835_200;

pub const DEFAULT_JURY_SIZE: usize = 13;

pub const MIN_JURY_SIZE: usize = 7;

pub const MAX_EVIDENCE_COUNT: usize = 100;

/// Validator credits earned by each juror of a decided dispute.
pub const ARBITRATION_VC_REWARD: u64 = 5;

#[derive(Debug, Clone, Copy, PartialEq, Eq, Structural)]
pub enum DisputeType {
    ValidatorMisconduct,
    FraudulentExit,
    StateRootDispute,
}

#[derive(Debug, Clone, Copy, PartialEq, Eq, Structural)]
pub enum DisputeStatus {
    Open,
    EvidenceComplete,
    Deliberating,
    Resolved,
    Appealed,
    Dismissed,
    Expired,
}

/// The name of a status, as error messages give it.
pub open spec fn status_label(s: DisputeStatus) -> Seq<char> {
    match s {
        DisputeStatus::Open => "Open"@,
        DisputeStatus::EvidenceComplete => "EvidenceComplete"@,
        DisputeStatus::Deliberating => "Deliberating"@,
        DisputeStatus::Resolved => "Resolved"@,
        DisputeStatus::Appealed => "Appealed"@,
        DisputeStatus::Dismissed => "Dismissed"@,
        DisputeStatus::Expired => "Expired"@,
    }
}

pub fn status_name(s: DisputeStatus) -> (r: String)
    ensures
        r@ == status_label(s),
{
    match s {
        DisputeStatus::Open => "Open".to_owned(),
        DisputeStatus::EvidenceComplete => "EvidenceComplete".to_owned(),
        DisputeStatus::Deliberating => "Deliberating".to_owned(),
        DisputeStatus::Resolved => "Resolved".to_owned(),
        DisputeStatus::Appealed => "Appealed".to_owned(),
        DisputeStatus::Dismissed => "Dismissed".to_owned(),
        DisputeStatus::Expired => "Expired".to_owned(),
    }
}

/// The level that hears a dispute: the chain itself, its host, or the root chain.
#[derive(Debug, Clone, Copy, PartialEq, Eq)]
pub enum Jurisdiction {
    Local(ChainId),
    Host(ChainId),
    Root,
}

#[derive(Debug, Clone, Copy, PartialEq, Eq, Structural)]
pub enum Verdict {
    Guilty,
    NotGuilty,
}

#[derive(Debug, Clone, Copy, PartialEq, Eq, Structural)]
pub enum FraudSeverity {
    Minor,
    Major,
    Critical,
}

/// A piece of evidence, identified by the hash of its content.
#[derive(Debug, Clone, Copy, PartialEq, Eq)]
pub enum Evidence {
    /// A fraud proof against `validator`.
    FraudProof { validator: AccountId, proof_hash: crate::types::Hash },
    /// Any other document.
    Document { hash: crate::types::Hash },
}

/// What a decision orders; carried out outside arbitration.
#[derive(Debug, Clone, Copy, PartialEq, Eq)]
pub enum Enforcement {
    SlashValidator { validator: AccountId, amount: Balance, severity: FraudSeverity },
    PurgeChain { chain_id: ChainId },
}

#[derive(Debug, Clone, PartialEq, Eq)]
pub struct JuryVote {
    pub juror: AccountId,
    pub verdict: Verdict,
    pub justification: Option<String>,
    pub timestamp: BlockNumber,
}

#[derive(Debug, Clone, Copy, PartialEq, Eq)]
pub struct JuryDecision {
    pub dispute_id: DisputeId,
    pub verdict: Verdict,
    pub guilty_votes: usize,
    pub not_guilty_votes: usize,
    pub decided_at: BlockNumber,
    pub enforcement: Option<Enforcement>,
}

/// Guilty votes among `votes`.
pub open spec fn count_guilty(votes: Seq<JuryVote>) -> nat
    decreases votes.len(),
{
    if votes.len() == 0 {
        0
    } else {
        count_guilty(votes.drop_last()) + if votes.last().verdict == Verdict::Guilty {
            1nat
        } else {
            0nat
        }
    }
}

proof fn lemma_count_guilty_bound(votes: Seq<JuryVote>)
    ensures
        count_guilty(votes) <= votes.len(),
    decreases votes.len(),
{
    if votes.len() > 0 {
        lemma_count_guilty_bound(votes.drop_last());
    }
}

/// The decision on `votes`: guilty by a strict majority of the votes cast,
/// not guilty otherwise (a tie clears the accused).
pub open spec fn spec_tally(votes: Seq<JuryVote>, decided_at: BlockNumber, dispute_id: DisputeId) -> JuryDecision {
    let g = count_guilty(votes);
    JuryDecision {
        dispute_id,
        verdict: if 2 * g > votes.len() {
            Verdict::Guilty
        } else {
            Verdict::NotGuilty
        },
        guilty_votes: g as usize,
        not_guilty_votes: (votes.len() - g) as usize,
        decided_at,
        enforcement: None,
    }
}

impl JuryDecision {
    pub fn tally_votes(votes: &Vec<JuryVote>, decided_at: BlockNumber, dispute_id: DisputeId) -> (d: JuryDecision)
        ensures
            d == spec_tally(votes@, decided_at, dispute_id),
    {
        let mut guilty: usize = 0;
        let mut i: usize = 0;
        while i < votes.len()
            invariant
                i <= votes@.len(),
                guilty == count_guilty(votes@.take(i as int)),
                guilty <= i,
            decreases votes@.len() - i,
        {
            proof {
                assert(votes@.take(i + 1).drop_last() =~= votes@.take(i as int));
                assert(votes@.take(i + 1).last() == votes@[i as int]);
            }
            if votes[i].verdict == Verdict::Guilty {
                guilty = guilty + 1;
            }
            i = i + 1;
        }
        proof {
            assert(votes@.take(votes@.len() as int) =~= votes@);
        }
        let total = votes.len();
        let verdict = if guilty > total - guilty {
            Verdict::Guilty
        } else {
            Verdict::NotGuilty
        };
        JuryDecision {
            dispute_id,
            verdict,
            guilty_votes: guilty,
            not_guilty_votes: total - guilty,
            decided_at,
            enforcement: None,
        }
    }
}

/// The validator named by the first fraud proof among `evidence`.
pub open spec fn first_accused(evidence: Seq<Evidence>) -> Option<AccountId>
    decreases evidence.len(),
{
    if evidence.len() == 0 {
        None
    } else {
        match evidence[0] {
            Evidence::FraudProof { validator, .. } => Some(validator),
            Evidence::Document { .. } => first_accused(evidence.drop_first()),
        }
    }
}

pub open spec fn sat_add_block(a: BlockNumber, b: BlockNumber) -> BlockNumber {
    if a + b > u64::MAX {
        u64::MAX
    } else {
        (a + b) as BlockNumber
    }
}

#[derive(Debug, Clone, PartialEq, Eq)]
pub struct Dispute {
    pub id: DisputeId,
    pub chain_id: ChainId,
    pub dispute_type: DisputeType,
    pub raised_by: AccountId,
    pub created_at: BlockNumber,
    pub jurisdiction: Jurisdiction,
    pub status: DisputeStatus,
    pub evidence: Vec<Evidence>,
    /// Last block at which evidence is taken.
    pub evidence_deadline: BlockNumber,
    pub jury_members: Vec<AccountId>,
    pub jury_votes: Vec<JuryVote>,
    /// Last block at which the jury votes, once drawn.
    pub deliberation_deadline: Option<BlockNumber>,
    pub decision: Option<JuryDecision>,
}

/// The statuses under which a dispute is still pending.
pub open spec fn is_pending(s: DisputeStatus) -> bool {
    s == DisputeStatus::Open || s == DisputeStatus::EvidenceComplete || s == DisputeStatus::Deliberating
}

impl Dispute {
    /// `self` is the open dispute `id` about `chain_id`, raised at
    /// `created_at` with `evidence`, and with no jury or decision yet.
    pub open spec fn is_new_dispute(
        &self,
        id: DisputeId,
        chain_id: ChainId,
        dispute_type: DisputeType,
        raised_by: AccountId,
        created_at: BlockNumber,
        jurisdiction: Jurisdiction,
        evidence: Seq<Evidence>,
    ) -> bool {
        &&& self.id == id
        &&& self.chain_id == chain_id
        &&& self.dispute_type == dispute_type
        &&& self.raised_by == raised_by
        &&& self.created_at == created_at
        &&& self.jurisdiction == jurisdiction
        &&& self.status == DisputeStatus::Open
        &&& self.evidence@ == evidence
        &&& self.evidence_deadline == sat_add_block(created_at, EVIDENCE_PERIOD)
        &&& self.jury_members@ == Seq::<AccountId>::empty()
        &&& self.jury_votes@ == Seq::<JuryVote>::empty()
        &&& self.deliberation_deadline == None::<BlockNumber>
        &&& self.decision == None::<JuryDecision>
    }

    pub fn new(
        id: DisputeId,
        chain_id: ChainId,
        dispute_type: DisputeType,
        raised_by: AccountId,
        created_at: BlockNumber,
        jurisdiction: Jurisdiction,
    ) -> (d: Dispute)
        ensures
            d.is_new_dispute(id, chain_id, dispute_type, raised_by, created_at, jurisdiction, Seq::empty()),
    {
        Dispute {
            id,
            chain_id,
            dispute_type,
            raised_by,
            created_at,
            jurisdiction,
            status: DisputeStatus::Open,
            evidence: Vec::new(),
            evidence_deadline: created_at.saturating_add(EVIDENCE_PERIOD),
            jury_members: Vec::new(),
            jury_votes: Vec::new(),
            deliberation_deadline: None,
            decision: None,
        }
    }

    /// The block after which the dispute no longer holds: creation plus
    /// the longest duration.
    pub open spec fn spec_absolute_deadline(&self) -> BlockNumber {
        sat_add_block(self.created_at, MAX_DISPUTE_DURATION)
    }

    pub fn absolute_deadline(&self) -> (b: BlockNumber)
        ensures
            b == self.spec_absolute_deadline(),
    {
        self.created_at.saturating_add(MAX_DISPUTE_DURATION)
    }

    /// Evidence is taken while the dispute is open, up to its deadline.
    pub open spec fn spec_can_submit_evidence(&self, block: BlockNumber) -> bool {
        self.status == DisputeStatus::Open && block <= self.evidence_deadline
    }

    pub fn can_submit_evidence(&self, block: BlockNumber) -> (b: bool)
        ensures
            b == self.spec_can_submit_evidence(block),
    {
        self.status == DisputeStatus::Open && block <= self.evidence_deadline
    }

    /// Jurors vote while the dispute is under deliberation, up to its deadline.
    pub open spec fn spec_can_vote(&self, block: BlockNumber) -> bool {
        &&& self.status == DisputeStatus::Deliberating
        &&& self.deliberation_deadline matches Some(d)
        &&& block <= d
    }

    pub fn can_vote(&self, block: BlockNumber) -> (b: bool)
        ensures
            b == self.spec_can_vote(block),
    {
        if self.status != DisputeStatus::Deliberating {
            return false;
        }
        match self.deliberation_deadline {
            Some(d) => block <= d,
            None => false,
        }
    }

    /// The validator accused by the evidence: the one named by its first fraud proof.
    pub open spec fn spec_accused(&self) -> Option<AccountId> {
        first_accused(self.evidence@)
    }

    pub fn accused(&self) -> (a: Option<AccountId>)
        ensures
            a == self.spec_accused(),
    {
        let ghost ev = self.evidence@;
        let mut i: usize = 0;
        proof {
            assert(ev.skip(0) =~= ev);
        }
        while i < self.evidence.len()
            invariant
                i <= ev.len(),
                ev == self.evidence@,
                first_accused(ev) == first_accused(ev.skip(i as int)),
            decreases ev.len() - i,
        {
            proof {
                assert(ev.skip(i as int)[0] == ev[i as int]);
                assert(ev.skip(i as int).drop_first() =~= ev.skip(i + 1));
            }
            match self.evidence[i] {
                Evidence::FraudProof { validator, .. } => {
                    return Some(validator);
                },
                Evidence::Document { .. } => {},
            }
            i = i + 1;
        }
        proof {
            assert(ev.skip(ev.len() as int).len() == 0);
        }
        None
    }

    /// Open with no evidence once the evidence deadline has passed.
    pub open spec fn spec_is_stale(&self, block: BlockNumber) -> bool {
        self.status == DisputeStatus::Open && self.evidence@.len() == 0 && block > self.evidence_deadline
    }

    pub fn is_stale(&self, block: BlockNumber) -> (b: bool)
        ensures
            b == self.spec_is_stale(block),
    {
        self.status == DisputeStatus::Open && self.evidence.len() == 0 && block > self.evidence_deadline
    }

    /// Still pending after its absolute deadline.
    pub open spec fn spec_is_expired(&self, block: BlockNumber) -> bool {
        is_pending(self.status) && block > self.spec_absolute_deadline()
    }

    pub fn is_expired(&self, block: BlockNumber) -> (b: bool)
        ensures
            b == self.spec_is_expired(block),
    {
        let pending = self.status == DisputeStatus::Open || self.status == DisputeStatus::EvidenceComplete
            || self.status == DisputeStatus::Deliberating;
        pending && block > self.absolute_deadline()
    }
}

} // verus!

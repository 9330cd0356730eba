//! Cross-chain messages: sending with per-block limits and per-sender
//! nonces, relaying with an inclusion proof, verification against known
//! state roots, cancellation and expiry.
use crate::governance::ChainAccount;
use crate::merkle::MerkleProof;
use crate::types::{spec_hash_bytes, AccountId, Balance, BlockNumber, ChainId};
use crate::vecmap::{MapKey, VecMap};
use vstd::prelude::*;

verus! {

pub type MessageId = u64;

pub const MAX_MESSAGES_PER_BLOCK: usize = 100;

/// Blocks after which an undelivered message expires (7 days at 6 s).
pub const MESSAGE_EXPIRY: BlockNumber = 100_800;

pub const MAX_PAYLOAD_SIZE: usize = 65_536;

pub const BASE_MESSAGE_FEE: Balance = 1;

#[derive(Debug, Clone)]
pub struct CrossChainMessage {
    pub id: MessageId,
    pub source_chain: ChainId,
    pub target_chain: ChainId,
    pub sender: AccountId,
    pub recipient: Option<AccountId>,
    pub message_type: MessageType,
    pub payload_hash: crate::types::Hash,
    pub payload: Vec<u8>,
    pub source_state_root: crate::types::Hash,
    pub inclusion_proof: Option<MerkleProof>,
    pub created_at: BlockNumber,
    pub expires_at: BlockNumber,
    pub status: MessageStatus,
    pub fee: Balance,
    pub nonce: u64,
}

#[derive(Debug, Clone, PartialEq, Eq)]
pub enum MessageType {
    DataTransfer,
    AssetTransfer { amount: Balance, asset_id: Option<crate::types::Hash> },
    GovernanceNotification { notification_type: GovernanceNotificationType },
    ArbitrationMessage { dispute_id: u64, action: ArbitrationAction },
    StateRootCommitment { block_number: BlockNumber, state_root: crate::types::Hash },
    ValidatorSetUpdate { validators: Vec<AccountId>, threshold: u32 },
    Custom { type_tag: String },
}

#[derive(Debug, Clone, Copy, PartialEq, Eq, Structural)]
pub enum GovernanceNotificationType {
    ExitInitiated,
    ChainPurged,
    ValidatorSlashed,
    ProposalPassed,
}

#[derive(Debug, Clone, Copy, PartialEq, Eq, Structural)]
pub enum ArbitrationAction {
    DisputeRaised,
    EvidenceSubmitted,
    JurySelected,
    VerdictDelivered,
    EnforcementExecuted,
}

#[derive(Debug, Clone, Copy, PartialEq, Eq, Structural)]
pub enum MessageStatus {
    Pending,
    InOutbox,
    Relayed,
    Delivered,
    Failed,
    Expired,
    Cancelled,
}

#[derive(Debug, Clone)]
pub struct MessageVerification {
    pub is_valid: bool,
    pub message_id: MessageId,
    pub source_chain: ChainId,
    pub error: Option<String>,
}

#[derive(Debug, Clone)]
pub struct MessageStats {
    pub sent: u64,
    pub received: u64,
    pub pending: u64,
    pub delivered: u64,
    pub failed: u64,
    pub expired: u64,
}

impl Default for MessageStats {
    fn default() -> (s: Self)
        ensures
            s.sent == 0 && s.received == 0 && s.pending == 0,
            s.delivered == 0 && s.failed == 0 && s.expired == 0,
    {
        MessageStats { sent: 0, received: 0, pending: 0, delivered: 0, failed: 0, expired: 0 }
    }
}

#[derive(Debug, Clone, PartialEq, Eq)]
pub enum MessagingError {
    MessageNotFound,
    PayloadTooLarge,
    TooManyMessagesInBlock,
    InsufficientFee,
    CannotMessageSelf,
    InvalidMessageState,
    NoInclusionProof,
    NotSender,
    CannotCancel,
    VerificationFailed(String),
}

/// Key of the per-block tables: a chain and a block number.
#[derive(Debug, Clone, Copy, PartialEq, Eq)]
pub struct ChainBlock {
    pub chain_id: ChainId,
    pub block: BlockNumber,
}

impl MapKey for ChainBlock {
    fn key_eq(&self, other: &Self) -> (b: bool) {
        self.chain_id.key_eq(&other.chain_id) && self.block == other.block
    }
}

/// Messages waiting for relay: pending or in the outbox.
pub open spec fn outbox_pred(msgs: Map<MessageId, CrossChainMessage>) -> spec_fn(MessageId) -> bool {
    |id: MessageId|
        msgs.contains_key(id) && (msgs[id].status == MessageStatus::Pending || msgs[id].status
            == MessageStatus::InOutbox)
}

/// Relayed messages awaiting delivery.
pub open spec fn inbox_pred(msgs: Map<MessageId, CrossChainMessage>) -> spec_fn(MessageId) -> bool {
    |id: MessageId| msgs.contains_key(id) && msgs[id].status == MessageStatus::Relayed
}

pub open spec fn between_pred(msgs: Map<MessageId, CrossChainMessage>, source: ChainId, target: ChainId) -> spec_fn(
    MessageId,
) -> bool {
    |id: MessageId| msgs[id].source_chain == source && msgs[id].target_chain == target
}

/// A message still in flight whose expiry block has passed.
pub open spec fn is_expirable(m: CrossChainMessage, current_block: BlockNumber) -> bool {
    &&& current_block > m.expires_at
    &&& (m.status == MessageStatus::Pending || m.status == MessageStatus::InOutbox || m.status
        == MessageStatus::Relayed)
}

pub open spec fn expirable_pred(msgs: Map<MessageId, CrossChainMessage>, current_block: BlockNumber) -> spec_fn(
    MessageId,
) -> bool {
    |id: MessageId| is_expirable(msgs[id], current_block)
}

pub open spec fn sent_pred(chain: ChainId) -> spec_fn(CrossChainMessage) -> bool {
    |m: CrossChainMessage| m.source_chain == chain
}

pub open spec fn received_pred(chain: ChainId) -> spec_fn(CrossChainMessage) -> bool {
    |m: CrossChainMessage| m.target_chain == chain
}

pub open spec fn sent_with_status_pred(chain: ChainId, st: MessageStatus) -> spec_fn(CrossChainMessage) -> bool {
    |m: CrossChainMessage| m.source_chain == chain && m.status == st
}

/// Sent from `chain` and neither delivered, failed nor expired.
pub open spec fn sent_pending_pred(chain: ChainId) -> spec_fn(CrossChainMessage) -> bool {
    |m: CrossChainMessage|
        m.source_chain == chain && m.status != MessageStatus::Delivered && m.status != MessageStatus::Failed
            && m.status != MessageStatus::Expired
}

/// What verifying `m` at `current_block` leads to: the message's new status
/// (the check passed exactly when it is Delivered), or an error that leaves
/// it unchanged. `known` is the registered root for the proof's block.
pub open spec fn spec_delivery(
    m: CrossChainMessage,
    known: Option<crate::types::Hash>,
    current_block: BlockNumber,
) -> Result<MessageStatus, MessagingError> {
    if current_block > m.expires_at {
        Ok(MessageStatus::Expired)
    } else if m.status != MessageStatus::Relayed {
        Err(MessagingError::InvalidMessageState)
    } else if m.inclusion_proof is None {
        Err(MessagingError::NoInclusionProof)
    } else if known is Some && m.inclusion_proof->0.root != known->0 {
        Ok(MessageStatus::Failed)
    } else if !m.inclusion_proof->0.spec_verify() {
        Ok(MessageStatus::Failed)
    } else {
        Ok(MessageStatus::Delivered)
    }
}

/// The text reported when verifying `m` does not deliver it (only
/// meaningful where `spec_delivery` gives a status).
pub open spec fn delivery_error(
    m: CrossChainMessage,
    known: Option<crate::types::Hash>,
    current_block: BlockNumber,
) -> Option<Seq<char>> {
    if current_block > m.expires_at {
        Some("Message expired"@)
    } else if m.inclusion_proof is Some && known is Some && m.inclusion_proof->0.root != known->0 {
        Some("State root mismatch"@)
    } else if m.inclusion_proof is Some && !m.inclusion_proof->0.spec_verify() {
        Some("Invalid Merkle proof"@)
    } else {
        None
    }
}

pub struct MessagingContract {
    /// All messages by id, in sending order.
    pub messages: VecMap<MessageId, CrossChainMessage>,
    outbox: VecMap<ChainId, Vec<MessageId>>,
    inbox: VecMap<ChainId, Vec<MessageId>>,
    next_message_id: MessageId,
    nonces: VecMap<ChainAccount, u64>,
    known_state_roots: VecMap<ChainBlock, crate::types::Hash>,
    messages_per_block: VecMap<ChainBlock, usize>,
}

impl MessagingContract {
    pub closed spec fn inv(&self) -> bool {
        &&& self.messages.wf()
        &&& self.outbox.wf()
        &&& self.inbox.wf()
        &&& self.nonces.wf()
        &&& self.known_state_roots.wf()
        &&& self.messages_per_block.wf()
        &&& self.next_message_id >= 1
        &&& forall|id: MessageId| #[trigger] self.messages@.contains_key(id) ==> id < self.next_message_id
    }

    pub closed spec fn msgs(&self) -> Map<MessageId, CrossChainMessage> {
        self.messages@
    }

    /// Message ids in sending order.
    pub closed spec fn msg_order(&self) -> Seq<MessageId> {
        self.messages.key_seq()
    }

    /// The messages in sending order, position by position with `msg_order`.
    pub closed spec fn msg_list(&self) -> Seq<CrossChainMessage> {
        self.messages.val_seq()
    }

    /// Each message is listed once, under its id, at the position of that
    /// id in the sending order.
    pub proof fn lemma_msg_list(&self)
        requires
            self.inv(),
        ensures
            self.msg_list().len() == self.msg_order().len(),
            self.msg_order().no_duplicates(),
            self.msg_order().len() == self.msgs().dom().len(),
            forall|i: int|
                0 <= i < self.msg_order().len() ==> #[trigger] self.msgs().contains_key(self.msg_order()[i])
                    && self.msgs()[self.msg_order()[i]] == self.msg_list()[i],
            forall|id: MessageId| #[trigger] self.msgs().contains_key(id) ==> self.msg_order().contains(id),
    {
        self.messages.lemma_wf();
        assert forall|id: MessageId| #[trigger] self.msgs().contains_key(id) implies self.msg_order().contains(id) by {
            let i = choose|i: int| 0 <= i < self.messages.key_seq().len() && self.messages.key_seq()[i] == id;
            assert(self.msg_order()[i] == id);
        }
    }

    pub closed spec fn next_id(&self) -> MessageId {
        self.next_message_id
    }

    pub closed spec fn outbox_seq(&self, chain: ChainId) -> Seq<MessageId> {
        if self.outbox@.contains_key(chain) {
            self.outbox@[chain]@
        } else {
            Seq::empty()
        }
    }

    pub closed spec fn inbox_seq(&self, chain: ChainId) -> Seq<MessageId> {
        if self.inbox@.contains_key(chain) {
            self.inbox@[chain]@
        } else {
            Seq::empty()
        }
    }

    pub closed spec fn nonce_table(&self) -> Map<ChainAccount, u64> {
        self.nonces@
    }

    pub open spec fn nonce_of(&self, chain: ChainId, sender: AccountId) -> u64 {
        let k = ChainAccount { chain_id: chain, account: sender };
        if self.nonce_table().contains_key(k) {
            self.nonce_table()[k]
        } else {
            0
        }
    }

    pub closed spec fn roots(&self) -> Map<ChainBlock, crate::types::Hash> {
        self.known_state_roots@
    }

    pub open spec fn known_root(&self, chain: ChainId, block: BlockNumber) -> Option<crate::types::Hash> {
        let k = ChainBlock { chain_id: chain, block };
        if self.roots().contains_key(k) {
            Some(self.roots()[k])
        } else {
            None
        }
    }

    pub closed spec fn block_table(&self) -> Map<ChainBlock, usize> {
        self.messages_per_block@
    }

    /// Messages sent from `chain` in `block`.
    pub open spec fn block_count(&self, chain: ChainId, block: BlockNumber) -> usize {
        let k = ChainBlock { chain_id: chain, block };
        if self.block_table().contains_key(k) {
            self.block_table()[k]
        } else {
            0
        }
    }

    /// Everything but the message table and the inbox is as in `old`.
    pub open spec fn same_tables(&self, old: &Self) -> bool {
        &&& self.next_id() == old.next_id()
        &&& self.nonce_table() == old.nonce_table()
        &&& self.roots() == old.roots()
        &&& self.block_table() == old.block_table()
        &&& forall|c: ChainId| #[trigger] self.outbox_seq(c) == old.outbox_seq(c)
    }

    pub fn new() -> (r: Self)
        ensures
            r.inv(),
            r.msgs() == Map::<MessageId, CrossChainMessage>::empty(),
            r.msg_order() == Seq::<MessageId>::empty(),
            r.msg_list() == Seq::<CrossChainMessage>::empty(),
            r.next_id() == 1,
            r.nonce_table() == Map::<ChainAccount, u64>::empty(),
            r.roots() == Map::<ChainBlock, crate::types::Hash>::empty(),
            r.block_table() == Map::<ChainBlock, usize>::empty(),
            forall|c: ChainId| #[trigger] r.outbox_seq(c) == Seq::<MessageId>::empty(),
            forall|c: ChainId| #[trigger] r.inbox_seq(c) == Seq::<MessageId>::empty(),
    {
        let messages: VecMap<MessageId, CrossChainMessage> = VecMap::new();
        proof {
            messages.lemma_wf();
            assert(messages.val_seq() =~= Seq::<CrossChainMessage>::empty());
        }
        MessagingContract {
            messages,
            outbox: VecMap::new(),
            inbox: VecMap::new(),
            next_message_id: 1,
            nonces: VecMap::new(),
            known_state_roots: VecMap::new(),
            messages_per_block: VecMap::new(),
        }
    }

    /// Records the state root of `chain_id` at `block_number`.
    pub fn register_state_root(&mut self, chain_id: ChainId, block_number: BlockNumber, state_root: crate::types::Hash)
        requires
            old(self).inv(),
        ensures
            final(self).inv(),
            final(self).roots() == old(self).roots().insert(
                ChainBlock { chain_id, block: block_number },
                state_root,
            ),
            final(self).msgs() == old(self).msgs(),
            final(self).next_id() == old(self).next_id(),
            final(self).nonce_table() == old(self).nonce_table(),
            final(self).block_table() == old(self).block_table(),
            forall|c: ChainId| #[trigger] final(self).outbox_seq(c) == old(self).outbox_seq(c),
            forall|c: ChainId| #[trigger] final(self).inbox_seq(c) == old(self).inbox_seq(c),
    {
        self.known_state_roots.insert(ChainBlock { chain_id, block: block_number }, state_root);
    }

    /// The next nonce of `sender` on `chain_id` (0 before its first message).
    pub fn get_nonce(&self, chain_id: ChainId, sender: &AccountId) -> (n: u64)
        requires
            self.inv(),
        ensures
            n == self.nonce_of(chain_id, *sender),
    {
        match self.nonces.get(&ChainAccount { chain_id, account: *sender }) {
            Some(n) => *n,
            None => 0,
        }
    }

    /// Appends `id` to the list of `chain` in `table`.
    fn push_to(table: &mut VecMap<ChainId, Vec<MessageId>>, chain: ChainId, id: MessageId)
        requires
            old(table).wf(),
        ensures
            final(table).wf(),
            final(table)@.contains_key(chain),
            final(table)@[chain]@ == (if old(table)@.contains_key(chain) {
                old(table)@[chain]@
            } else {
                Seq::empty()
            }).push(id),
            forall|c: ChainId| c != chain ==> (#[trigger] final(table)@.contains_key(c) <==> old(table)@.contains_key(c)),
            forall|c: ChainId| c != chain && old(table)@.contains_key(c) ==> #[trigger] final(table)@[c] == old(table)@[c],
    {
        match table.find(&chain) {
            Some(i) => {
                let ghost before = *table;
                let list = table.val_at_mut(i);
                list.push(id);
                proof {
                    let nv = table.val_seq()[i as int];
                    VecMap::lemma_update_at(&before, table, i as int, nv);
                }
            },
            None => {
                let mut list: Vec<MessageId> = Vec::new();
                list.push(id);
                table.insert(chain, list);
            },
        }
    }

    /// Sends a message from `source_chain` to `target_chain`: checks the
    /// payload size, the per-block limit, the fee and that the chains
    /// differ, then records the message as pending in the source outbox
    /// with the sender's next nonce.
    pub fn send_message(
        &mut self,
        source_chain: ChainId,
        target_chain: ChainId,
        sender: AccountId,
        recipient: Option<AccountId>,
        message_type: MessageType,
        payload: Vec<u8>,
        source_state_root: crate::types::Hash,
        current_block: BlockNumber,
        fee: Balance,
    ) -> (r: Result<MessageId, MessagingError>)
        requires
            old(self).inv(),
            payload@.len() <= MAX_PAYLOAD_SIZE && old(self).block_count(source_chain, current_block)
                < MAX_MESSAGES_PER_BLOCK && fee >= BASE_MESSAGE_FEE && source_chain != target_chain ==> {
                &&& old(self).next_id() < u64::MAX
                &&& old(self).nonce_of(source_chain, sender) < u64::MAX
                &&& current_block + MESSAGE_EXPIRY <= u64::MAX
            },
        ensures
            final(self).inv(),
            payload@.len() > MAX_PAYLOAD_SIZE ==> r == Err::<MessageId, MessagingError>(
                MessagingError::PayloadTooLarge,
            ),
            payload@.len() <= MAX_PAYLOAD_SIZE && old(self).block_count(source_chain, current_block)
                >= MAX_MESSAGES_PER_BLOCK ==> r == Err::<MessageId, MessagingError>(
                MessagingError::TooManyMessagesInBlock,
            ),
            payload@.len() <= MAX_PAYLOAD_SIZE && old(self).block_count(source_chain, current_block)
                < MAX_MESSAGES_PER_BLOCK && fee < BASE_MESSAGE_FEE ==> r == Err::<MessageId, MessagingError>(
                MessagingError::InsufficientFee,
            ),
            payload@.len() <= MAX_PAYLOAD_SIZE && old(self).block_count(source_chain, current_block)
                < MAX_MESSAGES_PER_BLOCK && fee >= BASE_MESSAGE_FEE && source_chain == target_chain ==> r
                == Err::<MessageId, MessagingError>(MessagingError::CannotMessageSelf),
            r.is_err() ==> *final(self) == *old(self),
            payload@.len() <= MAX_PAYLOAD_SIZE && old(self).block_count(source_chain, current_block)
                < MAX_MESSAGES_PER_BLOCK && fee >= BASE_MESSAGE_FEE && source_chain != target_chain ==> {
                let id = old(self).next_id();
                let m = final(self).msgs()[id];
                &&& r == Ok::<MessageId, MessagingError>(id)
                &&& final(self).msgs() == old(self).msgs().insert(id, m)
                &&& m.payload_hash.bytes@ == spec_hash_bytes(payload@)
                &&& m == (CrossChainMessage {
                    id,
                    source_chain,
                    target_chain,
                    sender,
                    recipient,
                    message_type,
                    payload_hash: m.payload_hash,
                    payload,
                    source_state_root,
                    inclusion_proof: None,
                    created_at: current_block,
                    expires_at: (current_block + MESSAGE_EXPIRY) as u64,
                    status: MessageStatus::Pending,
                    fee,
                    nonce: old(self).nonce_of(source_chain, sender),
                })
                &&& final(self).next_id() == id + 1
                &&& final(self).msg_order() == old(self).msg_order().push(id)
                &&& final(self).msg_list() == old(self).msg_list().push(m)
                &&& final(self).nonce_table() == old(self).nonce_table().insert(
                    ChainAccount { chain_id: source_chain, account: sender },
                    (old(self).nonce_of(source_chain, sender) + 1) as u64,
                )
                &&& final(self).block_table() == old(self).block_table().insert(
                    ChainBlock { chain_id: source_chain, block: current_block },
                    (old(self).block_count(source_chain, current_block) + 1) as usize,
                )
                &&& final(self).roots() == old(self).roots()
                &&& final(self).outbox_seq(source_chain) == old(self).outbox_seq(source_chain).push(id)
                &&& forall|c: ChainId|
                    c != source_chain ==> #[trigger] final(self).outbox_seq(c) == old(self).outbox_seq(c)
                &&& forall|c: ChainId| #[trigger] final(self).inbox_seq(c) == old(self).inbox_seq(c)
            },
    {
        if payload.len() > MAX_PAYLOAD_SIZE {
            return Err(MessagingError::PayloadTooLarge);
        }
        let block_key = ChainBlock { chain_id: source_chain, block: current_block };
        let block_count = match self.messages_per_block.get(&block_key) {
            Some(n) => *n,
            None => 0,
        };
        if block_count >= MAX_MESSAGES_PER_BLOCK {
            return Err(MessagingError::TooManyMessagesInBlock);
        }
        if fee < BASE_MESSAGE_FEE {
            return Err(MessagingError::InsufficientFee);
        }
        if source_chain.key_eq(&target_chain) {
            return Err(MessagingError::CannotMessageSelf);
        }
        let nonce_key = ChainAccount { chain_id: source_chain, account: sender };
        let current_nonce = self.get_nonce(source_chain, &sender);
        self.nonces.insert(nonce_key, current_nonce + 1);
        let payload_hash = crate::types::Hash::hash(payload.as_slice());
        let message_id = self.next_message_id;
        self.next_message_id = self.next_message_id + 1;
        let message = CrossChainMessage {
            id: message_id,
            source_chain,
            target_chain,
            sender,
            recipient,
            message_type,
            payload_hash,
            payload,
            source_state_root,
            inclusion_proof: None,
            created_at: current_block,
            expires_at: current_block + MESSAGE_EXPIRY,
            status: MessageStatus::Pending,
            fee,
            nonce: current_nonce,
        };
        self.messages.insert(message_id, message);
        Self::push_to(&mut self.outbox, source_chain, message_id);
        self.messages_per_block.insert(block_key, block_count + 1);
        proof {
            assert forall|c: ChainId| c != source_chain implies #[trigger] self.outbox_seq(c) == old(
                self,
            ).outbox_seq(c) by {
            }
        }
        Ok(message_id)
    }

    /// Attaches the inclusion proof to a pending message, marks it relayed
    /// and puts it in the target chain's inbox.
    pub fn relay_message(&mut self, message_id: MessageId, inclusion_proof: MerkleProof) -> (r: Result<
        (),
        MessagingError,
    >)
        requires
            old(self).inv(),
        ensures
            final(self).inv(),
            !old(self).msgs().contains_key(message_id) ==> r == Err::<(), MessagingError>(
                MessagingError::MessageNotFound,
            ),
            old(self).msgs().contains_key(message_id) && old(self).msgs()[message_id].status
                != MessageStatus::Pending && old(self).msgs()[message_id].status != MessageStatus::InOutbox
                ==> r == Err::<(), MessagingError>(MessagingError::InvalidMessageState),
            r.is_err() ==> *final(self) == *old(self),
            old(self).msgs().contains_key(message_id) && (old(self).msgs()[message_id].status
                == MessageStatus::Pending || old(self).msgs()[message_id].status == MessageStatus::InOutbox) ==> {
                let m = old(self).msgs()[message_id];
                &&& r == Ok::<(), MessagingError>(())
                &&& final(self).msgs() == old(self).msgs().insert(
                    message_id,
                    CrossChainMessage {
                        inclusion_proof: Some(inclusion_proof),
                        status: MessageStatus::Relayed,
                        ..m
                    },
                )
                &&& final(self).same_tables(old(self))
                &&& final(self).inbox_seq(m.target_chain) == old(self).inbox_seq(m.target_chain).push(message_id)
                &&& forall|c: ChainId|
                    c != m.target_chain ==> #[trigger] final(self).inbox_seq(c) == old(self).inbox_seq(c)
            },
    {
        let i = match self.messages.find(&message_id) {
            Some(i) => i,
            None => return Err(MessagingError::MessageNotFound),
        };
        let st = self.messages.val_at(i).status;
        if st != MessageStatus::Pending && st != MessageStatus::InOutbox {
            return Err(MessagingError::InvalidMessageState);
        }
        let ghost before = self.messages;
        let message = self.messages.val_at_mut(i);
        message.inclusion_proof = Some(inclusion_proof);
        message.status = MessageStatus::Relayed;
        let target = message.target_chain;
        proof {
            let nv = self.messages.val_seq()[i as int];
            VecMap::lemma_update_at(&before, &self.messages, i as int, nv);
            before.lemma_wf();
            assert(self.messages@.dom() =~= before@.dom());
        }
        Self::push_to(&mut self.inbox, target, message_id);
        proof {
            assert forall|c: ChainId| c != target implies #[trigger] self.inbox_seq(c) == old(self).inbox_seq(c) by {
            }
        }
        Ok(())
    }

    /// Checks a relayed message at `current_block`: an expired message is
    /// marked expired; a proof whose root differs from the registered root
    /// for its block, or that does not verify, fails the message; otherwise
    /// the message is delivered.
    pub fn verify_and_deliver(&mut self, message_id: MessageId, current_block: BlockNumber) -> (r: Result<
        MessageVerification,
        MessagingError,
    >)
        requires
            old(self).inv(),
        ensures
            final(self).inv(),
            !old(self).msgs().contains_key(message_id) ==> r == Err::<MessageVerification, MessagingError>(
                MessagingError::MessageNotFound,
            ) && *final(self) == *old(self),
            old(self).msgs().contains_key(message_id) ==> {
                let m = old(self).msgs()[message_id];
                let known = if m.inclusion_proof is Some {
                    old(self).known_root(m.source_chain, m.inclusion_proof->0.block_number)
                } else {
                    None
                };
                match spec_delivery(m, known, current_block) {
                    Ok(st) => {
                        &&& r is Ok
                        &&& r->Ok_0.is_valid == (st == MessageStatus::Delivered)
                        &&& r->Ok_0.message_id == message_id
                        &&& r->Ok_0.source_chain == m.source_chain
                        &&& (r->Ok_0.error is None <==> st == MessageStatus::Delivered)
                        &&& match r->Ok_0.error {
                            Some(t) => delivery_error(m, known, current_block) == Some(t@),
                            None => delivery_error(m, known, current_block) is None,
                        }
                        &&& final(self).msgs() == old(self).msgs().insert(
                            message_id,
                            CrossChainMessage { status: st, ..m },
                        )
                        &&& final(self).same_tables(old(self))
                        &&& forall|c: ChainId| #[trigger] final(self).inbox_seq(c) == old(self).inbox_seq(c)
                    },
                    Err(e) => r == Err::<MessageVerification, MessagingError>(e) && *final(self) == *old(self),
                }
            },
    {
        let i = match self.messages.find(&message_id) {
            Some(i) => i,
            None => return Err(MessagingError::MessageNotFound),
        };
        let ghost m = self.messages@[message_id];
        let (new_status, err): (MessageStatus, Option<String>) = {
            let message = self.messages.val_at(i);
            if current_block > message.expires_at {
                (MessageStatus::Expired, Some("Message expired".to_owned()))
            } else if message.status != MessageStatus::Relayed {
                return Err(MessagingError::InvalidMessageState);
            } else {
                match &message.inclusion_proof {
                    None => {
                        return Err(MessagingError::NoInclusionProof);
                    },
                    Some(proof) => {
                        let key = ChainBlock { chain_id: message.source_chain, block: proof.block_number };
                        let mismatch = match self.known_state_roots.get(&key) {
                            Some(root) => !proof.root.key_eq(root),
                            None => false,
                        };
                        if mismatch {
                            (MessageStatus::Failed, Some("State root mismatch".to_owned()))
                        } else if !proof.verify() {
                            (MessageStatus::Failed, Some("Invalid Merkle proof".to_owned()))
                        } else {
                            (MessageStatus::Delivered, None)
                        }
                    },
                }
            }
        };
        let ghost before = self.messages;
        let message = self.messages.val_at_mut(i);
        message.status = new_status;
        let source_chain = message.source_chain;
        proof {
            let nv = self.messages.val_seq()[i as int];
            VecMap::lemma_update_at(&before, &self.messages, i as int, nv);
            before.lemma_wf();
            assert(self.messages@.dom() =~= before@.dom());
        }
        Ok(
            MessageVerification {
                is_valid: new_status == MessageStatus::Delivered,
                message_id,
                source_chain,
                error: err,
            },
        )
    }

    pub fn get_message(&self, message_id: MessageId) -> (r: Option<&CrossChainMessage>)
        requires
            self.inv(),
        ensures
            r is Some <==> self.msgs().contains_key(message_id),
            r is Some ==> *r->0 == self.msgs()[message_id],
    {
        self.messages.get(&message_id)
    }

    /// The messages of `ids` that exist and meet `keep`, in the order of `ids`.
    fn collect_messages(&self, ids: &Vec<MessageId>, Ghost(keep): Ghost<spec_fn(MessageId) -> bool>, relayed: bool) -> (r: Vec<
        &CrossChainMessage,
    >)
        requires
            self.inv(),
            keep == (if relayed {
                inbox_pred(self.msgs())
            } else {
                outbox_pred(self.msgs())
            }),
        ensures
            r@.len() == ids@.filter(keep).len(),
            forall|j: int| 0 <= j < r@.len() ==> *r@[j] == self.msgs()[ids@.filter(keep)[j]],
    {
        let mut out: Vec<&CrossChainMessage> = Vec::new();
        let mut i: usize = 0;
        while i < ids.len()
            invariant
                self.inv(),
                i <= ids@.len(),
                keep == (if relayed {
                    inbox_pred(self.msgs())
                } else {
                    outbox_pred(self.msgs())
                }),
                out@.len() == ids@.take(i as int).filter(keep).len(),
                forall|j: int|
                    0 <= j < out@.len() ==> *out@[j] == self.msgs()[ids@.take(i as int).filter(keep)[j]],
            decreases ids@.len() - i,
        {
            let id = ids[i];
            proof {
                assert(ids@.take(i + 1) =~= ids@.take(i as int).push(id));
                ids@.take(i as int).lemma_filter_push(id, keep);
            }
            match self.messages.get(&id) {
                Some(m) => {
                    let wanted = if relayed {
                        m.status == MessageStatus::Relayed
                    } else {
                        m.status == MessageStatus::Pending || m.status == MessageStatus::InOutbox
                    };
                    if wanted {
                        out.push(m);
                    }
                },
                None => {},
            }
            i = i + 1;
        }
        proof {
            assert(ids@.take(ids@.len() as int) =~= ids@);
        }
        out
    }

    /// Messages of the outbox of `chain_id` still waiting for relay, in
    /// sending order.
    pub fn get_outbox(&self, chain_id: ChainId) -> (r: Vec<&CrossChainMessage>)
        requires
            self.inv(),
        ensures
            r@.len() == self.outbox_seq(chain_id).filter(outbox_pred(self.msgs())).len(),
            forall|j: int|
                0 <= j < r@.len() ==> *r@[j] == self.msgs()[self.outbox_seq(chain_id).filter(
                    outbox_pred(self.msgs()),
                )[j]],
    {
        match self.outbox.get(&chain_id) {
            Some(ids) => self.collect_messages(ids, Ghost(outbox_pred(self.msgs())), false),
            None => {
                proof {
                    reveal_with_fuel(Seq::<_>::filter, 1);
                }
                Vec::new()
            },
        }
    }

    /// Relayed messages of the inbox of `chain_id`, in relay order.
    pub fn get_inbox(&self, chain_id: ChainId) -> (r: Vec<&CrossChainMessage>)
        requires
            self.inv(),
        ensures
            r@.len() == self.inbox_seq(chain_id).filter(inbox_pred(self.msgs())).len(),
            forall|j: int|
                0 <= j < r@.len() ==> *r@[j] == self.msgs()[self.inbox_seq(chain_id).filter(
                    inbox_pred(self.msgs()),
                )[j]],
    {
        match self.inbox.get(&chain_id) {
            Some(ids) => self.collect_messages(ids, Ghost(inbox_pred(self.msgs())), true),
            None => {
                proof {
                    reveal_with_fuel(Seq::<_>::filter, 1);
                }
                Vec::new()
            },
        }
    }

    /// All messages from `source` to `target`, in sending order.
    pub fn get_messages_between(&self, source: ChainId, target: ChainId) -> (r: Vec<&CrossChainMessage>)
        requires
            self.inv(),
        ensures
            ({
                let sel = self.msg_order().filter(between_pred(self.msgs(), source, target));
                &&& r@.len() == sel.len()
                &&& forall|j: int| 0 <= j < r@.len() ==> *r@[j] == self.msgs()[sel[j]]
            }),
    {
        let ghost keys = self.messages.key_seq();
        let ghost pred = between_pred(self.msgs(), source, target);
        proof {
            self.messages.lemma_wf();
        }
        let n = self.messages.len();
        let mut out: Vec<&CrossChainMessage> = Vec::new();
        let mut i: usize = 0;
        while i < n
            invariant
                self.inv(),
                keys == self.messages.key_seq(),
                n == keys.len(),
                i <= n,
                forall|j: int| 0 <= j < n ==> #[trigger] self.messages@.contains_key(keys[j])
                    && self.messages@[keys[j]] == self.messages.val_seq()[j],
                pred == between_pred(self.msgs(), source, target),
                out@.len() == keys.take(i as int).filter(pred).len(),
                forall|j: int| 0 <= j < out@.len() ==> *out@[j] == self.msgs()[keys.take(i as int).filter(pred)[j]],
            decreases n - i,
        {
            let ghost id = keys[i as int];
            proof {
                assert(keys.take(i + 1) =~= keys.take(i as int).push(id));
                keys.take(i as int).lemma_filter_push(id, pred);
                assert(self.messages@.contains_key(keys[i as int]));
            }
            let m = self.messages.val_at(i);
            if m.source_chain.key_eq(&source) && m.target_chain.key_eq(&target) {
                out.push(m);
            }
            i = i + 1;
        }
        proof {
            assert(keys.take(n as int) =~= keys);
        }
        out
    }

    /// Cancels a pending message on behalf of its sender and returns the
    /// fee to refund.
    pub fn cancel_message(&mut self, message_id: MessageId, caller: &AccountId) -> (r: Result<Balance, MessagingError>)
        requires
            old(self).inv(),
        ensures
            final(self).inv(),
            !old(self).msgs().contains_key(message_id) ==> r == Err::<Balance, MessagingError>(
                MessagingError::MessageNotFound,
            ),
            old(self).msgs().contains_key(message_id) && old(self).msgs()[message_id].sender != *caller ==> r
                == Err::<Balance, MessagingError>(MessagingError::NotSender),
            old(self).msgs().contains_key(message_id) && old(self).msgs()[message_id].sender == *caller && old(
                self,
            ).msgs()[message_id].status != MessageStatus::Pending ==> r == Err::<Balance, MessagingError>(
                MessagingError::CannotCancel,
            ),
            r.is_err() ==> *final(self) == *old(self),
            old(self).msgs().contains_key(message_id) && old(self).msgs()[message_id].sender == *caller && old(
                self,
            ).msgs()[message_id].status == MessageStatus::Pending ==> {
                let m = old(self).msgs()[message_id];
                &&& r == Ok::<Balance, MessagingError>(m.fee)
                &&& final(self).msgs() == old(self).msgs().insert(
                    message_id,
                    CrossChainMessage { status: MessageStatus::Cancelled, ..m },
                )
                &&& final(self).same_tables(old(self))
                &&& forall|c: ChainId| #[trigger] final(self).inbox_seq(c) == old(self).inbox_seq(c)
            },
    {
        let i = match self.messages.find(&message_id) {
            Some(i) => i,
            None => return Err(MessagingError::MessageNotFound),
        };
        {
            let m = self.messages.val_at(i);
            if !m.sender.key_eq(caller) {
                return Err(MessagingError::NotSender);
            }
            if m.status != MessageStatus::Pending {
                return Err(MessagingError::CannotCancel);
            }
        }
        let ghost before = self.messages;
        let message = self.messages.val_at_mut(i);
        message.status = MessageStatus::Cancelled;
        let fee = message.fee;
        proof {
            let nv = self.messages.val_seq()[i as int];
            VecMap::lemma_update_at(&before, &self.messages, i as int, nv);
            before.lemma_wf();
            assert(self.messages@.dom() =~= before@.dom());
        }
        Ok(fee)
    }

    /// Marks every in-flight message whose expiry block has passed as
    /// expired and returns their ids in sending order.
    pub fn expire_old_messages(&mut self, current_block: BlockNumber) -> (r: Vec<MessageId>)
        requires
            old(self).inv(),
        ensures
            final(self).inv(),
            r@ == old(self).msg_order().filter(expirable_pred(old(self).msgs(), current_block)),
            final(self).msgs().dom() == old(self).msgs().dom(),
            forall|id: MessageId| #[trigger]
                old(self).msgs().contains_key(id) ==> final(self).msgs()[id] == (if is_expirable(
                    old(self).msgs()[id],
                    current_block,
                ) {
                    CrossChainMessage { status: MessageStatus::Expired, ..old(self).msgs()[id] }
                } else {
                    old(self).msgs()[id]
                }),
            final(self).msg_order() == old(self).msg_order(),
            final(self).same_tables(old(self)),
            forall|c: ChainId| #[trigger] final(self).inbox_seq(c) == old(self).inbox_seq(c),
    {
        let ghost start = *self;
        let ghost keys = self.messages.key_seq();
        let ghost pred = expirable_pred(start.msgs(), current_block);
        proof {
            self.messages.lemma_wf();
        }
        let n = self.messages.len();
        let mut expired: Vec<MessageId> = Vec::new();
        let mut i: usize = 0;
        while i < n
            invariant
                self.inv(),
                keys == self.messages.key_seq(),
                keys == start.messages.key_seq(),
                keys.no_duplicates(),
                n == keys.len(),
                i <= n,
                pred == expirable_pred(start.msgs(), current_block),
                self.messages.val_seq().len() == n,
                forall|j: int| 0 <= j < n ==> #[trigger] start.messages@.contains_key(keys[j])
                    && start.messages@[keys[j]] == start.messages.val_seq()[j],
                forall|j: int|
                    0 <= j < n ==> #[trigger] self.messages.val_seq()[j] == (if j < i && is_expirable(
                        start.messages.val_seq()[j],
                        current_block,
                    ) {
                        CrossChainMessage { status: MessageStatus::Expired, ..start.messages.val_seq()[j] }
                    } else {
                        start.messages.val_seq()[j]
                    }),
                expired@ == keys.take(i as int).filter(pred),
                self.next_message_id == start.next_message_id,
                self.outbox == start.outbox,
                self.inbox == start.inbox,
                self.nonces == start.nonces,
                self.known_state_roots == start.known_state_roots,
                self.messages_per_block == start.messages_per_block,
            decreases n - i,
        {
            let id = *self.messages.key_at(i);
            proof {
                assert(keys.take(i + 1) =~= keys.take(i as int).push(id));
                keys.take(i as int).lemma_filter_push(id, pred);
                assert(start.messages@.contains_key(keys[i as int]));
            }
            let due = {
                let m = self.messages.val_at(i);
                current_block > m.expires_at && (m.status == MessageStatus::Pending || m.status
                    == MessageStatus::InOutbox || m.status == MessageStatus::Relayed)
            };
            if due {
                let ghost before = self.messages;
                let message = self.messages.val_at_mut(i);
                message.status = MessageStatus::Expired;
                proof {
                    let nv = self.messages.val_seq()[i as int];
                    VecMap::lemma_update_at(&before, &self.messages, i as int, nv);
                    before.lemma_wf();
                    assert(self.messages@.dom() =~= before@.dom());
                }
                expired.push(id);
            }
            i = i + 1;
        }
        proof {
            assert(keys.take(n as int) =~= keys);
            self.messages.lemma_wf();
            assert forall|id: MessageId| #[trigger] start.msgs().contains_key(id) implies self.msgs().contains_key(id)
                && self.msgs()[id] == (if is_expirable(start.msgs()[id], current_block) {
                CrossChainMessage { status: MessageStatus::Expired, ..start.msgs()[id] }
            } else {
                start.msgs()[id]
            }) by {
                let w = choose|w: int| 0 <= w < keys.len() && keys[w] == id;
                assert(self.messages@.contains_key(keys[w]));
            }
            assert forall|id: MessageId| #[trigger] self.msgs().contains_key(id) implies start.msgs().contains_key(
                id,
            ) by {
                let w = choose|w: int| 0 <= w < keys.len() && keys[w] == id;
            }
            assert(self.msgs().dom() =~= start.msgs().dom());
        }
        expired
    }

    /// Counts, over all messages, those sent from `chain_id` (split by
    /// status) and those addressed to it.
    pub fn get_stats(&self, chain_id: ChainId) -> (s: MessageStats)
        requires
            self.inv(),
        ensures
            ({
                let ms = self.msg_list();
                &&& s.sent == ms.filter(sent_pred(chain_id)).len()
                &&& s.received == ms.filter(received_pred(chain_id)).len()
                &&& s.delivered == ms.filter(sent_with_status_pred(chain_id, MessageStatus::Delivered)).len()
                &&& s.failed == ms.filter(sent_with_status_pred(chain_id, MessageStatus::Failed)).len()
                &&& s.expired == ms.filter(sent_with_status_pred(chain_id, MessageStatus::Expired)).len()
                &&& s.pending == ms.filter(sent_pending_pred(chain_id)).len()
            }),
            s.sent == s.pending + s.delivered + s.failed + s.expired,
    {
        let ghost ms = self.messages.val_seq();
        let mut stats = MessageStats::default();
        let n = self.messages.len();
        proof {
            self.messages.lemma_wf();
        }
        let mut i: usize = 0;
        while i < n
            invariant
                self.inv(),
                ms == self.messages.val_seq(),
                n == ms.len(),
                n == self.messages.key_seq().len(),
                i <= n,
                stats.sent == ms.take(i as int).filter(sent_pred(chain_id)).len(),
                stats.received == ms.take(i as int).filter(received_pred(chain_id)).len(),
                stats.delivered == ms.take(i as int).filter(
                    sent_with_status_pred(chain_id, MessageStatus::Delivered),
                ).len(),
                stats.failed == ms.take(i as int).filter(sent_with_status_pred(chain_id, MessageStatus::Failed)).len(),
                stats.expired == ms.take(i as int).filter(
                    sent_with_status_pred(chain_id, MessageStatus::Expired),
                ).len(),
                stats.pending == ms.take(i as int).filter(sent_pending_pred(chain_id)).len(),
                stats.sent == stats.pending + stats.delivered + stats.failed + stats.expired,
            decreases n - i,
        {
            let m = self.messages.val_at(i);
            let ghost t = ms.take(i as int);
            proof {
                assert(ms.take(i + 1) =~= t.push(*m));
                t.lemma_filter_push(*m, sent_pred(chain_id));
                t.lemma_filter_push(*m, received_pred(chain_id));
                t.lemma_filter_push(*m, sent_with_status_pred(chain_id, MessageStatus::Delivered));
                t.lemma_filter_push(*m, sent_with_status_pred(chain_id, MessageStatus::Failed));
                t.lemma_filter_push(*m, sent_with_status_pred(chain_id, MessageStatus::Expired));
                t.lemma_filter_push(*m, sent_pending_pred(chain_id));
                t.lemma_filter_len(sent_pred(chain_id));
                t.lemma_filter_len(received_pred(chain_id));
                t.lemma_filter_len(sent_with_status_pred(chain_id, MessageStatus::Delivered));
                t.lemma_filter_len(sent_with_status_pred(chain_id, MessageStatus::Failed));
                t.lemma_filter_len(sent_with_status_pred(chain_id, MessageStatus::Expired));
                t.lemma_filter_len(sent_pending_pred(chain_id));
            }
            if m.source_chain.key_eq(&chain_id) {
                stats.sent = stats.sent + 1;
                match m.status {
                    MessageStatus::Delivered => stats.delivered = stats.delivered + 1,
                    MessageStatus::Failed => stats.failed = stats.failed + 1,
                    MessageStatus::Expired => stats.expired = stats.expired + 1,
                    _ => stats.pending = stats.pending + 1,
                }
            }
            if m.target_chain.key_eq(&chain_id) {
                stats.received = stats.received + 1;
            }
            i = i + 1;
        }
        proof {
            assert(ms.take(n as int) =~= ms);
        }
        stats
    }
}

impl Default for MessagingContract {
    fn default() -> (r: Self)
        ensures
            r.inv(),
            r.msgs() == Map::<MessageId, CrossChainMessage>::empty(),
            r.next_id() == 1,
    {
        Self::new()
    }
}

} // verus!

use kratos_core::merkle::{MerkleProof, StateMerkleTree};
use kratos_core::messaging::{
    GovernanceNotificationType, MessageStatus, MessageType, MessagingContract, MessagingError, BASE_MESSAGE_FEE,
    MAX_MESSAGES_PER_BLOCK, MAX_PAYLOAD_SIZE, MESSAGE_EXPIRY,
};
use kratos_core::types::{AccountId, BlockNumber, ChainId};

fn setup() -> MessagingContract {
    MessagingContract::new()
}

fn create_valid_merkle_proof(block_number: BlockNumber, chain_id: ChainId) -> MerkleProof {

    // Create a tree with some leaves
    let leaves = vec![
        b"leaf0".to_vec(),
        b"leaf1".to_vec(),
        b"leaf2".to_vec(),
        b"leaf3".to_vec(),
    ];

    let tree = StateMerkleTree::new(leaves);
    tree.generate_proof(0, block_number, chain_id).unwrap()
}

fn create_dummy_merkle_proof(block_number: BlockNumber, chain_id: ChainId) -> MerkleProof {
    // For tests that don't need actual verification, use a simple dummy
    MerkleProof::new(
        vec![1, 2, 3],
        0,
        vec![[0; 32]],
        kratos_core::types::Hash::from_bytes([0; 32]),
        block_number,
        chain_id,
    )
}

#[test]
fn test_send_message() {
    let mut messaging = setup();
    let sender = AccountId::from_bytes([1; 32]);
    let source = ChainId(1);
    let target = ChainId(2);

    let message_id = messaging.send_message(
        source,
        target,
        sender,
        None,
        MessageType::DataTransfer,
        vec![1, 2, 3, 4],
        kratos_core::types::Hash::from_bytes([0; 32]),
        1000,
        BASE_MESSAGE_FEE,
    ).unwrap();

    assert_eq!(message_id, 1);

    let message = messaging.get_message(message_id).unwrap();
    assert_eq!(message.source_chain, source);
    assert_eq!(message.target_chain, target);
    assert_eq!(message.status, MessageStatus::Pending);
}

#[test]
fn test_cannot_message_self() {
    let mut messaging = setup();
    let sender = AccountId::from_bytes([1; 32]);
    let chain = ChainId(1);

    let result = messaging.send_message(
        chain,
        chain, // Same chain
        sender,
        None,
        MessageType::DataTransfer,
        vec![],
        kratos_core::types::Hash::from_bytes([0; 32]),
        1000,
        BASE_MESSAGE_FEE,
    );

    assert!(matches!(result, Err(MessagingError::CannotMessageSelf)));
}

#[test]
fn test_payload_too_large() {
    let mut messaging = setup();
    let sender = AccountId::from_bytes([1; 32]);

    let result = messaging.send_message(
        ChainId(1),
        ChainId(2),
        sender,
        None,
        MessageType::DataTransfer,
        vec![0; MAX_PAYLOAD_SIZE + 1],
        kratos_core::types::Hash::from_bytes([0; 32]),
        1000,
        BASE_MESSAGE_FEE,
    );

    assert!(matches!(result, Err(MessagingError::PayloadTooLarge)));
}

#[test]
fn test_insufficient_fee() {
    let mut messaging = setup();
    let sender = AccountId::from_bytes([1; 32]);

    let result = messaging.send_message(
        ChainId(1),
        ChainId(2),
        sender,
        None,
        MessageType::DataTransfer,
        vec![],
        kratos_core::types::Hash::from_bytes([0; 32]),
        1000,
        0, // No fee
    );

    assert!(matches!(result, Err(MessagingError::InsufficientFee)));
}

#[test]
fn test_relay_message() {
    let mut messaging = setup();
    let sender = AccountId::from_bytes([1; 32]);
    let source = ChainId(1);
    let target = ChainId(2);

    let message_id = messaging.send_message(
        source,
        target,
        sender,
        None,
        MessageType::DataTransfer,
        vec![1, 2, 3],
        kratos_core::types::Hash::from_bytes([0; 32]),
        1000,
        BASE_MESSAGE_FEE,
    ).unwrap();

    let proof = create_dummy_merkle_proof(1000, source);
    messaging.relay_message(message_id, proof).unwrap();

    let message = messaging.get_message(message_id).unwrap();
    assert_eq!(message.status, MessageStatus::Relayed);
    assert!(message.inclusion_proof.is_some());
}

#[test]
fn test_verify_and_deliver() {
    let mut messaging = setup();
    let sender = AccountId::from_bytes([1; 32]);
    let source = ChainId(1);
    let target = ChainId(2);

    let message_id = messaging.send_message(
        source,
        target,
        sender,
        None,
        MessageType::DataTransfer,
        vec![1, 2, 3],
        kratos_core::types::Hash::from_bytes([0; 32]),
        1000,
        BASE_MESSAGE_FEE,
    ).unwrap();

    // Use a valid Merkle proof
    let proof = create_valid_merkle_proof(1000, source);
    messaging.relay_message(message_id, proof).unwrap();

    let verification = messaging.verify_and_deliver(message_id, 2000).unwrap();
    assert!(verification.is_valid);

    let message = messaging.get_message(message_id).unwrap();
    assert_eq!(message.status, MessageStatus::Delivered);
}

#[test]
fn test_message_expiry() {
    let mut messaging = setup();
    let sender = AccountId::from_bytes([1; 32]);

    let message_id = messaging.send_message(
        ChainId(1),
        ChainId(2),
        sender,
        None,
        MessageType::DataTransfer,
        vec![],
        kratos_core::types::Hash::from_bytes([0; 32]),
        1000,
        BASE_MESSAGE_FEE,
    ).unwrap();

    // Expire after MESSAGE_EXPIRY blocks
    let expired = messaging.expire_old_messages(1000 + MESSAGE_EXPIRY + 1);
    assert_eq!(expired.len(), 1);
    assert_eq!(expired[0], message_id);

    let message = messaging.get_message(message_id).unwrap();
    assert_eq!(message.status, MessageStatus::Expired);
}

#[test]
fn test_cancel_message() {
    let mut messaging = setup();
    let sender = AccountId::from_bytes([1; 32]);
    let other = AccountId::from_bytes([2; 32]);

    let message_id = messaging.send_message(
        ChainId(1),
        ChainId(2),
        sender,
        None,
        MessageType::DataTransfer,
        vec![],
        kratos_core::types::Hash::from_bytes([0; 32]),
        1000,
        100,
    ).unwrap();

    // Other cannot cancel
    let result = messaging.cancel_message(message_id, &other);
    assert!(matches!(result, Err(MessagingError::NotSender)));

    // Sender can cancel
    let refund = messaging.cancel_message(message_id, &sender).unwrap();
    assert_eq!(refund, 100);

    let message = messaging.get_message(message_id).unwrap();
    assert_eq!(message.status, MessageStatus::Cancelled);
}

#[test]
fn test_nonce_tracking() {
    let mut messaging = setup();
    let sender = AccountId::from_bytes([1; 32]);
    let source = ChainId(1);

    assert_eq!(messaging.get_nonce(source, &sender), 0);

    messaging.send_message(
        source,
        ChainId(2),
        sender,
        None,
        MessageType::DataTransfer,
        vec![],
        kratos_core::types::Hash::from_bytes([0; 32]),
        1000,
        BASE_MESSAGE_FEE,
    ).unwrap();

    assert_eq!(messaging.get_nonce(source, &sender), 1);

    messaging.send_message(
        source,
        ChainId(3),
        sender,
        None,
        MessageType::DataTransfer,
        vec![],
        kratos_core::types::Hash::from_bytes([0; 32]),
        1001,
        BASE_MESSAGE_FEE,
    ).unwrap();

    assert_eq!(messaging.get_nonce(source, &sender), 2);
}

#[test]
fn test_message_types() {
    let mut messaging = setup();
    let sender = AccountId::from_bytes([1; 32]);

    // Asset transfer
    let _id1 = messaging.send_message(
        ChainId(1),
        ChainId(2),
        sender,
        Some(AccountId::from_bytes([2; 32])),
        MessageType::AssetTransfer { amount: 1000, asset_id: None },
        vec![],
        kratos_core::types::Hash::from_bytes([0; 32]),
        1000,
        BASE_MESSAGE_FEE,
    ).unwrap();

    // Governance notification
    let _id2 = messaging.send_message(
        ChainId(1),
        ChainId(2),
        sender,
        None,
        MessageType::GovernanceNotification {
            notification_type: GovernanceNotificationType::ExitInitiated,
        },
        vec![],
        kratos_core::types::Hash::from_bytes([0; 32]),
        1001,
        BASE_MESSAGE_FEE,
    ).unwrap();

    // State root commitment
    let _id3 = messaging.send_message(
        ChainId(1),
        ChainId(0), // To root
        sender,
        None,
        MessageType::StateRootCommitment {
            block_number: 1000,
            state_root: kratos_core::types::Hash::from_bytes([1; 32]),
        },
        vec![],
        kratos_core::types::Hash::from_bytes([0; 32]),
        1002,
        BASE_MESSAGE_FEE,
    ).unwrap();

    assert_eq!(messaging.messages.len(), 3);
}

#[test]
fn test_max_messages_per_block() {
    let mut messaging = setup();
    let sender = AccountId::from_bytes([1; 32]);
    let source = ChainId(1);

    // Send MAX_MESSAGES_PER_BLOCK messages
    for i in 0..MAX_MESSAGES_PER_BLOCK {
        messaging.send_message(
            source,
            ChainId(2),
            sender,
            None,
            MessageType::DataTransfer,
            vec![i as u8],
            kratos_core::types::Hash::from_bytes([0; 32]),
            1000, // Same block
            BASE_MESSAGE_FEE,
        ).unwrap();
    }

    // Next message should fail
    let result = messaging.send_message(
        source,
        ChainId(2),
        sender,
        None,
        MessageType::DataTransfer,
        vec![],
        kratos_core::types::Hash::from_bytes([0; 32]),
        1000, // Same block
        BASE_MESSAGE_FEE,
    );

    assert!(matches!(result, Err(MessagingError::TooManyMessagesInBlock)));

    // But next block should work
    let result = messaging.send_message(
        source,
        ChainId(2),
        sender,
        None,
        MessageType::DataTransfer,
        vec![],
        kratos_core::types::Hash::from_bytes([0; 32]),
        1001, // Different block
        BASE_MESSAGE_FEE,
    );

    assert!(result.is_ok());
}

#[test]
fn test_get_outbox_inbox() {
    let mut messaging = setup();
    let sender = AccountId::from_bytes([1; 32]);
    let source = ChainId(1);
    let target = ChainId(2);

    // Send messages
    let id1 = messaging.send_message(
        source, target, sender, None,
        MessageType::DataTransfer, vec![], kratos_core::types::Hash::from_bytes([0; 32]),
        1000, BASE_MESSAGE_FEE,
    ).unwrap();

    let id2 = messaging.send_message(
        source, target, sender, None,
        MessageType::DataTransfer, vec![], kratos_core::types::Hash::from_bytes([0; 32]),
        1001, BASE_MESSAGE_FEE,
    ).unwrap();

    // Check outbox
    let outbox = messaging.get_outbox(source);
    assert_eq!(outbox.len(), 2);

    // Relay one
    let proof = create_dummy_merkle_proof(1000, source);
    messaging.relay_message(id1, proof).unwrap();

    // Check inbox
    let inbox = messaging.get_inbox(target);
    assert_eq!(inbox.len(), 1);
    assert_eq!(inbox[0].id, id1);
}

#[test]
fn test_stats() {
    let mut messaging = setup();
    let sender = AccountId::from_bytes([1; 32]);
    let chain1 = ChainId(1);
    let chain2 = ChainId(2);

    // Send messages from chain1
    for _ in 0..5 {
        messaging.send_message(
            chain1, chain2, sender, None,
            MessageType::DataTransfer, vec![], kratos_core::types::Hash::from_bytes([0; 32]),
            1000, BASE_MESSAGE_FEE,
        ).unwrap();
    }

    let stats = messaging.get_stats(chain1);
    assert_eq!(stats.sent, 5);
    assert_eq!(stats.pending, 5);

    let stats2 = messaging.get_stats(chain2);
    assert_eq!(stats2.received, 5);
}

#[test]
fn failed_verification_reports_why() {
    let mut messaging = setup();
    let sender = AccountId::from_bytes([1; 32]);
    let source = ChainId(1);
    let target = ChainId(2);
    let id = messaging
        .send_message(source, target, sender, None, MessageType::DataTransfer, vec![1, 2, 3],
            kratos_core::types::Hash::from_bytes([0; 32]), 1000, BASE_MESSAGE_FEE)
        .unwrap();
    messaging.relay_message(id, create_valid_merkle_proof(1000, source)).unwrap();
    let v = messaging.verify_and_deliver(id, 1000 + MESSAGE_EXPIRY + 1).unwrap();
    assert!(!v.is_valid);
    assert_eq!(v.error, Some("Message expired".to_string()));
    assert_eq!(messaging.get_message(id).unwrap().status, MessageStatus::Expired);

    let id2 = messaging
        .send_message(source, target, sender, None, MessageType::DataTransfer, vec![4],
            kratos_core::types::Hash::from_bytes([0; 32]), 1001, BASE_MESSAGE_FEE)
        .unwrap();
    messaging.relay_message(id2, create_dummy_merkle_proof(1001, source)).unwrap();
    let v2 = messaging.verify_and_deliver(id2, 1002).unwrap();
    assert!(!v2.is_valid);
    assert_eq!(v2.error, Some("Invalid Merkle proof".to_string()));
}

use kratos_core::fork::{
    ForkAlignment, ForkContract, ForkDeclarant, ForkError, ForkStatus, ForkType, BLOCKS_PER_YEAR,
    FORK_COOLDOWN, FORK_PROPOSAL_DEPOSIT, MAX_CONCURRENT_FORKS,
};
use kratos_core::protocol::{ConstitutionalAxiom, ProtocolVersion};
use kratos_core::types::{AccountId, ChainId};

fn create_account(seed: u8) -> AccountId {
    AccountId::from_bytes([seed; 32])
}

fn setup_contract() -> ForkContract {
    let mut contract = ForkContract::new();

    // Set up validators with voting power
    for i in 1..=10 {
        contract.set_voting_power(create_account(i), 10);
    }
    contract.set_total_stake(100_000_000);

    contract
}

#[test]
fn fork_test_new_contract() {
    let contract = ForkContract::new();

    assert!(contract.proposals.is_empty());
    assert!(contract.executed_forks.is_empty());
    assert!(!contract.ossification.ossification_active);
}

#[test]
fn test_propose_fork() {
    let mut contract = setup_contract();

    let result = contract.propose_fork(
        create_account(1),
        "Reform Fork".to_string(),
        ForkType::Governance {
            deadlock_reason: "Quorum failures".to_string(),
            failed_proposals: 5,
        },
        "A governance reform fork".to_string(),
        FORK_PROPOSAL_DEPOSIT,
        1000,
    );

    assert!(result.is_ok());
    let fork_id = result.unwrap();

    let fork = contract.get_fork(fork_id).unwrap();
    assert_eq!(fork.status, ForkStatus::Proposed);
    assert_eq!(fork.name, "Reform Fork");
}

#[test]
fn fork_test_insufficient_deposit() {
    let mut contract = setup_contract();

    let result = contract.propose_fork(
        create_account(1),
        "Test Fork".to_string(),
        ForkType::Technical {
            version: ProtocolVersion::new(2, 0, 0),
            description: "Upgrade".to_string(),
        },
        "Description".to_string(),
        FORK_PROPOSAL_DEPOSIT - 1,
        1000,
    );

    assert!(matches!(result, Err(ForkError::InsufficientDeposit { .. })));
}

#[test]
fn test_support_fork() {
    let mut contract = setup_contract();

    let fork_id = contract.propose_fork(
        create_account(1),
        "Test Fork".to_string(),
        ForkType::Technical {
            version: ProtocolVersion::new(2, 0, 0),
            description: "Upgrade".to_string(),
        },
        "Description".to_string(),
        FORK_PROPOSAL_DEPOSIT,
        1000,
    ).unwrap();

    // Support from validators
    for i in 2..=4 {
        contract.support_fork(
            fork_id,
            create_account(i),
            10_000_000,
            1100,
        ).unwrap();
    }

    let fork = contract.get_fork(fork_id).unwrap();
    // 4 validators: proposer (1) + 3 supporters (2, 3, 4)
    assert_eq!(fork.supporting_validators.len(), 4);
    assert_eq!(fork.supporting_stake, 30_000_000);
}

#[test]
fn test_fork_declaration_threshold() {
    let mut contract = setup_contract();

    let fork_id = contract.propose_fork(
        create_account(1),
        "Test Fork".to_string(),
        ForkType::Technical {
            version: ProtocolVersion::new(2, 0, 0),
            description: "Upgrade".to_string(),
        },
        "Description".to_string(),
        FORK_PROPOSAL_DEPOSIT,
        1000,
    ).unwrap();

    // Need 33% of validators (4/10) or 40% stake
    for i in 2..=4 {
        contract.support_fork(
            fork_id,
            create_account(i),
            10_000_000,
            1100,
        ).unwrap();
    }

    // 4/10 = 40% > 33% threshold
    let fork = contract.get_fork(fork_id).unwrap();
    assert_eq!(fork.status, ForkStatus::Declared);
}

#[test]
fn test_create_snapshot() {
    let mut contract = setup_contract();

    let fork_id = contract.propose_fork(
        create_account(1),
        "Test Fork".to_string(),
        ForkType::Technical {
            version: ProtocolVersion::new(2, 0, 0),
            description: "Upgrade".to_string(),
        },
        "Description".to_string(),
        FORK_PROPOSAL_DEPOSIT,
        1000,
    ).unwrap();

    // Declare the fork
    for i in 2..=4 {
        contract.support_fork(fork_id, create_account(i), 10_000_000, 1100).unwrap();
    }

    // Create snapshot
    let result = contract.create_snapshot(
        fork_id,
        kratos_core::types::Hash::hash(b"state"),
        vec![],
        kratos_core::types::Hash::hash(b"identity"),
        kratos_core::types::Hash::hash(b"reputation"),
        kratos_core::types::Hash::hash(b"sidechains"),
        100_000_000_000,
        2000,
    );

    assert!(result.is_ok());
    assert!(contract.get_snapshot(fork_id).is_some());
}

#[test]
fn test_sidechain_alignment() {
    let mut contract = setup_contract();

    let fork_id = contract.propose_fork(
        create_account(1),
        "Test Fork".to_string(),
        ForkType::Technical {
            version: ProtocolVersion::new(2, 0, 0),
            description: "Upgrade".to_string(),
        },
        "Description".to_string(),
        FORK_PROPOSAL_DEPOSIT,
        1000,
    ).unwrap();

    // Declare the fork
    for i in 2..=4 {
        contract.support_fork(fork_id, create_account(i), 10_000_000, 1100).unwrap();
    }

    // Set alignment before deadline
    let result = contract.set_sidechain_alignment(
        fork_id,
        ChainId(1),
        ForkAlignment::FollowB,
        kratos_core::types::Hash::hash(b"proposal"),
        2000,
    );

    assert!(result.is_ok());
    assert_eq!(contract.get_alignment(fork_id, ChainId(1)), ForkAlignment::FollowB);
}

#[test]
fn test_sidechain_default_alignment() {
    let mut contract = setup_contract();

    let fork_id = contract.propose_fork(
        create_account(1),
        "Test Fork".to_string(),
        ForkType::Technical {
            version: ProtocolVersion::new(2, 0, 0),
            description: "Upgrade".to_string(),
        },
        "Description".to_string(),
        FORK_PROPOSAL_DEPOSIT,
        1000,
    ).unwrap();

    for i in 2..=4 {
        contract.support_fork(fork_id, create_account(i), 10_000_000, 1100).unwrap();
    }

    // Apply default alignments
    contract.apply_default_alignments(
        fork_id,
        vec![ChainId(1), ChainId(2)],
        2000,
    ).unwrap();

    // Default is Independence
    assert_eq!(contract.get_alignment(fork_id, ChainId(1)), ForkAlignment::Independent);
    assert_eq!(contract.get_alignment(fork_id, ChainId(2)), ForkAlignment::Independent);
}

#[test]
fn test_fork_execution() {
    let mut contract = setup_contract();

    let fork_id = contract.propose_fork(
        create_account(1),
        "Test Fork".to_string(),
        ForkType::Technical {
            version: ProtocolVersion::new(2, 0, 0),
            description: "Upgrade".to_string(),
        },
        "Description".to_string(),
        FORK_PROPOSAL_DEPOSIT,
        1000,
    ).unwrap();

    // Declare
    for i in 2..=4 {
        contract.support_fork(fork_id, create_account(i), 10_000_000, 1100).unwrap();
    }

    let fork = contract.get_fork(fork_id).unwrap();
    let prep_ends = fork.preparation_ends;
    let fork_height = fork.fork_height;

    // Mark ready
    contract.mark_ready(fork_id, prep_ends + 1).unwrap();

    // Execute
    let result = contract.execute_fork(fork_id, ChainId(100), fork_height + 1);
    assert!(result.is_ok());

    // Fork should be in history now
    assert!(contract.get_fork(fork_id).is_none());
    assert_eq!(contract.fork_history().len(), 1);
    assert_eq!(contract.fork_history()[0].status, ForkStatus::Executed);
}

#[test]
fn test_ossification_proposal() {
    let mut contract = setup_contract();

    // Set last parameter change long ago (10+ years)
    contract.ossification.last_parameter_change = 0;

    let current_block = BLOCKS_PER_YEAR * 11;

    let result = contract.propose_ossification(
        create_account(1),
        current_block,
        false,
    );

    assert!(result.is_ok());
    assert!(contract.ossification.ossification_proposed);
}

#[test]
fn test_ossification_during_emergency() {
    let mut contract = setup_contract();
    contract.ossification.last_parameter_change = 0;

    let current_block = BLOCKS_PER_YEAR * 11;

    let result = contract.propose_ossification(
        create_account(1),
        current_block,
        true, // Emergency active
    );

    assert!(matches!(result, Err(ForkError::CannotOssifyDuringEmergency)));
}

#[test]
fn test_ossification_voting() {
    let mut contract = setup_contract();
    contract.ossification.last_parameter_change = 0;

    let current_block = BLOCKS_PER_YEAR * 11;

    contract.propose_ossification(create_account(1), current_block, false).unwrap();

    // Vote with 9/10 validators (90%)
    for i in 1..=9 {
        contract.vote_ossification(create_account(i), true, current_block + 100).unwrap();
    }

    assert!(contract.is_ossified());
}

#[test]
fn test_ossification_needs_90_percent() {
    let mut contract = setup_contract();
    contract.ossification.last_parameter_change = 0;

    let current_block = BLOCKS_PER_YEAR * 11;

    contract.propose_ossification(create_account(1), current_block, false).unwrap();

    // Vote with 8/10 validators (80%) - not enough
    for i in 1..=8 {
        contract.vote_ossification(create_account(i), true, current_block + 100).unwrap();
    }

    // 2 reject
    for i in 9..=10 {
        contract.vote_ossification(create_account(i), false, current_block + 100).unwrap();
    }

    assert!(!contract.is_ossified());
    assert_eq!(contract.ossification.approval_percent(), 80);
}

#[test]
fn test_fork_from_sidechains() {
    let mut contract = setup_contract();

    let fork_id = contract.propose_fork(
        create_account(1),
        "Sidechain Fork".to_string(),
        ForkType::Constitutional {
            violated_axiom: ConstitutionalAxiom::ExitAlwaysPossible,
            rationale: "Exit blocked".to_string(),
        },
        "Description".to_string(),
        FORK_PROPOSAL_DEPOSIT,
        1000,
    ).unwrap();

    // 3 sidechains declare support
    contract.declare_fork_from_sidechains(
        fork_id,
        vec![ChainId(1), ChainId(2), ChainId(3)],
        1100,
    ).unwrap();

    let fork = contract.get_fork(fork_id).unwrap();
    assert_eq!(fork.status, ForkStatus::Declared);
    assert!(matches!(fork.declared_by, ForkDeclarant::Sidechains { .. }));
}

#[test]
fn test_max_concurrent_forks() {
    let mut contract = setup_contract();

    // Create MAX_CONCURRENT_FORKS proposals
    for i in 0..MAX_CONCURRENT_FORKS {
        contract.propose_fork(
            create_account(1),
            format!("Fork {}", i),
            ForkType::Technical {
                version: ProtocolVersion::new(2, i as u16, 0),
                description: "Upgrade".to_string(),
            },
            "Description".to_string(),
            FORK_PROPOSAL_DEPOSIT,
            1000 + i as u64,
        ).unwrap();
    }

    // Next one should fail
    let result = contract.propose_fork(
        create_account(1),
        "Too Many".to_string(),
        ForkType::Technical {
            version: ProtocolVersion::new(3, 0, 0),
            description: "Upgrade".to_string(),
        },
        "Description".to_string(),
        FORK_PROPOSAL_DEPOSIT,
        2000,
    );

    assert!(matches!(result, Err(ForkError::TooManyConcurrentForks)));
}

#[test]
fn test_fork_cooldown() {
    let mut contract = setup_contract();

    // Set last fork executed
    contract.last_fork_executed = Some(1000);

    // Try to propose during cooldown
    let result = contract.propose_fork(
        create_account(1),
        "Test Fork".to_string(),
        ForkType::Technical {
            version: ProtocolVersion::new(2, 0, 0),
            description: "Upgrade".to_string(),
        },
        "Description".to_string(),
        FORK_PROPOSAL_DEPOSIT,
        1000 + FORK_COOLDOWN - 1,
    );

    assert!(matches!(result, Err(ForkError::ForkInCooldown { .. })));

    // After cooldown is OK
    let result = contract.propose_fork(
        create_account(1),
        "Test Fork After".to_string(),
        ForkType::Technical {
            version: ProtocolVersion::new(2, 0, 0),
            description: "Upgrade".to_string(),
        },
        "Description".to_string(),
        FORK_PROPOSAL_DEPOSIT,
        1000 + FORK_COOLDOWN + 1,
    );

    assert!(result.is_ok());
}

#[test]
fn test_cancel_fork() {
    let mut contract = setup_contract();

    let fork_id = contract.propose_fork(
        create_account(1),
        "Test Fork".to_string(),
        ForkType::Technical {
            version: ProtocolVersion::new(2, 0, 0),
            description: "Upgrade".to_string(),
        },
        "Description".to_string(),
        FORK_PROPOSAL_DEPOSIT,
        1000,
    ).unwrap();

    contract.cancel_fork(fork_id, "Not needed".to_string()).unwrap();

    let fork = contract.get_fork(fork_id).unwrap();
    assert_eq!(fork.status, ForkStatus::Cancelled);
}

#[test]
fn fork_test_drain_events() {
    let mut contract = setup_contract();

    contract.propose_fork(
        create_account(1),
        "Test Fork".to_string(),
        ForkType::Technical {
            version: ProtocolVersion::new(2, 0, 0),
            description: "Upgrade".to_string(),
        },
        "Description".to_string(),
        FORK_PROPOSAL_DEPOSIT,
        1000,
    ).unwrap();

    let events = contract.drain_events();
    assert!(!events.is_empty());

    // Events should be cleared
    let events2 = contract.drain_events();
    assert!(events2.is_empty());
}


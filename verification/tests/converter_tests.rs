use overpass::converter::{BitcoinLockState, BitcoinStateConverter, OverpassBitcoinState};
use overpass::smt::SparseMerkleTreeI;
use overpass::zkproof::ZkProof;

fn setup_test_converter() -> BitcoinStateConverter {
    let state_tree = SparseMerkleTreeI::new();
    BitcoinStateConverter::new(state_tree)
}

#[test]
fn test_lock_to_state_conversion() {
    let mut converter = setup_test_converter();

    let lock_state = BitcoinLockState {
        lock_amount: 100000000, // 1 BTC
        lock_script_hash: [0u8; 32],
        lock_height: 700000,
        pubkey_hash: [1u8; 20],
        sequence: 0,
    };

    let result = converter.convert_lock_to_state(&lock_state, vec![42u8; 64]);
    assert!(result.is_ok());

    let (overpass_state, proof) = result.unwrap();
    assert_eq!(overpass_state.current_balance, 100000000);
    assert!(!proof.public_inputs.is_empty() && !proof.proof_data.is_empty());
}

#[test]
fn test_state_transition_verification() {
    let converter = setup_test_converter();

    let prev_state = OverpassBitcoinState {
        channel_id: [0u8; 32],
        state_root: [1u8; 32],
        current_balance: 100000000,
        nonce: 0,
        sequence: 0,
        pubkey_hash: [1u8; 20],
        merkle_proof: vec![],
    };

    let new_state = OverpassBitcoinState {
        channel_id: [0u8; 32],
        state_root: [2u8; 32],
        current_balance: 90000000,
        nonce: 1,
        sequence: 1,
        pubkey_hash: [1u8; 20],
        merkle_proof: vec![],
    };

    let result = converter.verify_state_transition(&prev_state, &new_state, true);
    assert!(result.is_ok());
}

#[test]
fn test_settlement_preparation() {
    let converter = setup_test_converter();

    let final_state = OverpassBitcoinState {
        channel_id: [0u8; 32],
        state_root: converter.current_root(),
        current_balance: 100000000,
        nonce: 10,
        sequence: 10,
        pubkey_hash: [1u8; 20],
        merkle_proof: vec![],
    };

    let result = converter.prepare_settlement(&final_state, vec![5u8; 48]);
    assert!(result.is_ok());

    let (lock_state, _proof) = result.unwrap();
    assert_eq!(lock_state.lock_amount, final_state.current_balance);
    assert_eq!(lock_state.pubkey_hash, final_state.pubkey_hash);
}

#[test]
fn sequence_violation_is_rejected_regardless_of_proof() {
    let converter = setup_test_converter();
    let prev = OverpassBitcoinState {
        channel_id: [0u8; 32],
        state_root: [1u8; 32],
        current_balance: 100,
        nonce: 0,
        sequence: 4,
        pubkey_hash: [1u8; 20],
        merkle_proof: vec![],
    };
    let skipped = OverpassBitcoinState {
        channel_id: [0u8; 32],
        state_root: [2u8; 32],
        current_balance: 90,
        nonce: 1,
        sequence: 6,
        pubkey_hash: [1u8; 20],
        merkle_proof: vec![],
    };
    // sequence jumps by two: rejected even with an accepting backend verdict
    assert_eq!(converter.verify_state_transition(&prev, &skipped, true).unwrap(), false);

    let other_channel = OverpassBitcoinState {
        channel_id: [9u8; 32],
        sequence: 5,
        ..clone_state(&skipped)
    };
    assert_eq!(converter.verify_state_transition(&prev, &other_channel, true).unwrap(), false);

    let other_owner = OverpassBitcoinState {
        pubkey_hash: [8u8; 20],
        sequence: 5,
        ..clone_state(&skipped)
    };
    assert_eq!(converter.verify_state_transition(&prev, &other_owner, true).unwrap(), false);
}

fn clone_state(s: &OverpassBitcoinState) -> OverpassBitcoinState {
    OverpassBitcoinState {
        channel_id: s.channel_id,
        state_root: s.state_root,
        current_balance: s.current_balance,
        nonce: s.nonce,
        sequence: s.sequence,
        pubkey_hash: s.pubkey_hash,
        merkle_proof: s.merkle_proof.clone(),
    }
}

#[test]
fn accepted_transition_needs_logged_root_and_backend_verdict() {
    let mut converter = setup_test_converter();
    let prev_root = converter.current_root();
    let lock_state = BitcoinLockState {
        lock_amount: 5000,
        lock_script_hash: [3u8; 32],
        lock_height: 100,
        pubkey_hash: [2u8; 20],
        sequence: 0,
    };
    let (state, _) = converter.convert_lock_to_state(&lock_state, vec![1u8]).unwrap();

    let prev = OverpassBitcoinState {
        channel_id: state.channel_id,
        state_root: prev_root,
        current_balance: 0,
        nonce: 0,
        sequence: state.sequence,
        pubkey_hash: state.pubkey_hash,
        merkle_proof: vec![],
    };
    let next = OverpassBitcoinState {
        channel_id: state.channel_id,
        state_root: state.state_root,
        current_balance: state.current_balance,
        nonce: 0,
        sequence: state.sequence + 1,
        pubkey_hash: state.pubkey_hash,
        merkle_proof: vec![],
    };
    // the root transition was performed by the tree, so only the backend
    // verdict decides
    assert_eq!(converter.verify_state_transition(&prev, &next, true).unwrap(), true);
    assert_eq!(converter.verify_state_transition(&prev, &next, false).unwrap(), false);
}

#[test]
fn settlement_rejects_stale_root() {
    let converter = setup_test_converter();
    let final_state = OverpassBitcoinState {
        channel_id: [0u8; 32],
        state_root: [1u8; 32], // not the tree's root
        current_balance: 100,
        nonce: 0,
        sequence: 0,
        pubkey_hash: [1u8; 20],
        merkle_proof: vec![],
    };
    let result = converter.prepare_settlement(&final_state, vec![]);
    assert!(matches!(result, Err(overpass::errors::SystemError::InvalidState)));
}

#[test]
fn conversion_boc_holds_lock_state_and_proof_cells() {
    let converter = setup_test_converter();
    let lock_state = BitcoinLockState {
        lock_amount: 77,
        lock_script_hash: [4u8; 32],
        lock_height: 9,
        pubkey_hash: [5u8; 20],
        sequence: 1,
    };
    let overpass_state = OverpassBitcoinState {
        channel_id: [6u8; 32],
        state_root: [7u8; 32],
        current_balance: 77,
        nonce: 2,
        sequence: 1,
        pubkey_hash: [5u8; 20],
        merkle_proof: vec![],
    };
    let proof = ZkProof::new(vec![9u8, 9, 9], vec![], vec![], 0);
    let boc = converter.create_conversion_boc(&lock_state, &overpass_state, &proof).unwrap();
    assert_eq!(boc.cell_count(), 3);
    assert_eq!(boc.root_count(), 0);
}

use overpass::exporter::{proof_type_code, ProofMetadata, ProofType, WalletRootProof};
use overpass::zkproof::ZkProof;

#[test]
fn proof_type_codes_are_stable() {
    assert_eq!(proof_type_code(&ProofType::StateTransition), 0);
    assert_eq!(proof_type_code(&ProofType::BalanceTransfer), 1);
    assert_eq!(proof_type_code(&ProofType::MerkleInclusion), 2);
    assert_eq!(proof_type_code(&ProofType::WalletRoot), 3);
    assert_eq!(proof_type_code(&ProofType::ChannelStateTransition), 4);
    assert_eq!(proof_type_code(&ProofType::ChannelStateTransitionProof), 5);
}

#[test]
fn new_copies_metadata_context() {
    let proof = ZkProof::new(vec![1u8, 2], vec![vec![3u8; 8]], vec![4u8; 32], 7);
    let metadata = ProofMetadata {
        timestamp: 11,
        nonce: 12,
        wallet_id: [13u8; 32],
        proof_type: ProofType::WalletRoot,
        channel_id: Some([14u8; 32]),
        state_root: Some([15u8; 32]),
        state_proof: None,
    };
    let wrp = WalletRootProof::new([16u8; 32], proof, metadata);
    assert!(matches!(wrp.proof_type, ProofType::WalletRoot));
    assert_eq!(wrp.channel_id, Some([14u8; 32]));
    assert_eq!(wrp.state_root, Some([15u8; 32]));
    assert_eq!(wrp.wallet_root, [16u8; 32]);
}

#[test]
fn exported_container_frames_the_payload() {
    let proof = ZkProof::new(vec![9u8; 4], vec![vec![1u8; 8], vec![2u8; 8]], vec![3u8; 32], 0);
    let metadata = ProofMetadata {
        timestamp: 100,
        nonce: 5,
        wallet_id: [21u8; 32],
        proof_type: ProofType::StateTransition,
        channel_id: None,
        state_root: None,
        state_proof: None,
    };
    let wallet_root = [22u8; 32];
    let wrp = WalletRootProof::new(wallet_root, proof, metadata);
    let boc = wrp.export_proof_boc().unwrap();
    assert_eq!(boc.root_count(), 1);
    let data = boc.root_cell_data(0).unwrap();
    // wallet root, two 8-byte inputs, 32-byte commitment root, 4 proof
    // bytes, two 8-byte counters, the wallet id, and the kind code
    assert_eq!(data.len(), 32 + 16 + 32 + 4 + 8 + 8 + 32 + 1);
    assert_eq!(&data[0..32], &wallet_root);
    assert_eq!(data[data.len() - 1], 0);
}

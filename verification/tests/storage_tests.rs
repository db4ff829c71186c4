use overpass::boc::Boc;
use overpass::errors::SystemError;
use overpass::storage_node::{
    BatteryConfig, EpidemicProtocolConfig, NetworkConfig, StorageNode, StorageNodeConfig,
    SyncConfig,
};
use overpass::zkproof::ZkProof;

fn test_config() -> StorageNodeConfig {
    StorageNodeConfig::new(
        BatteryConfig::default(),
        SyncConfig::default(),
        EpidemicProtocolConfig::default(),
        NetworkConfig::default(),
        [0u8; 32],
        0,
        Vec::new(),
    )
}

fn small_boc() -> Boc {
    let mut boc = Boc::new();
    boc.add_cell(vec![1u8, 2, 3]);
    boc
}

fn bound_proof(boc: &Boc) -> ZkProof {
    let hash = boc.content_hash();
    ZkProof::new(vec![9u8; 8], vec![hash.to_vec()], hash.to_vec(), 0)
}

#[test]
fn construction_requires_minimum_stake() {
    let below = StorageNode::new([1u8; 32], 999, test_config(), Vec::new());
    assert!(matches!(below, Err(SystemError::InvalidAmount)));

    let at_minimum = StorageNode::new([1u8; 32], 1000, test_config(), Vec::new());
    assert!(at_minimum.is_ok());
}

#[test]
fn store_rejects_unbound_proof_and_keeps_nothing() {
    let mut node = StorageNode::new([1u8; 32], 1000, test_config(), Vec::new()).unwrap();
    let boc = small_boc();
    let id = boc.content_hash();
    // public inputs name a different hash than the object's content hash
    let bad_proof = ZkProof::new(vec![9u8; 8], vec![vec![0u8; 32]], vec![], 0);
    let result = node.store_update(boc, bad_proof);
    assert!(matches!(result, Err(SystemError::InvalidProof)));
    assert!(matches!(node.retrieve_boc(&id), Err(SystemError::NotFound)));
    assert!(matches!(node.retrieve_proof(&id), Err(SystemError::NotFound)));
    // the battery cost is spent even though nothing was persisted
    assert_eq!(node.battery_level(), 999);
}

#[test]
fn store_rejects_multiple_public_inputs() {
    let mut node = StorageNode::new([1u8; 32], 1000, test_config(), Vec::new()).unwrap();
    let boc = small_boc();
    let hash = boc.content_hash();
    let two_inputs = ZkProof::new(vec![1u8], vec![hash.to_vec(), hash.to_vec()], vec![], 0);
    assert!(matches!(node.store_update(boc, two_inputs), Err(SystemError::InvalidProof)));
}

#[test]
fn store_and_retrieve_round_trip() {
    let mut node = StorageNode::new([1u8; 32], 1000, test_config(), Vec::new()).unwrap();
    let boc = small_boc();
    let id = boc.content_hash();
    let proof = bound_proof(&boc);
    node.store_update(boc, proof).unwrap();

    let got = node.retrieve_boc(&id).unwrap();
    assert_eq!(got.cell_count(), 1);
    assert_eq!(got.content_hash(), id);

    let got_proof = node.retrieve_proof(&id).unwrap();
    assert_eq!(got_proof.public_inputs.len(), 1);
    assert_eq!(got_proof.public_inputs[0], id.to_vec());

    assert!(matches!(node.retrieve_boc(&[9u8; 32]), Err(SystemError::NotFound)));
}

#[test]
fn battery_exhaustion_rejects_admission() {
    let mut node = StorageNode::new([1u8; 32], 1000, test_config(), Vec::new()).unwrap();
    for _ in 0..1000 {
        let boc = small_boc();
        let proof = bound_proof(&boc);
        node.store_update(boc, proof).unwrap();
    }
    assert_eq!(node.battery_level(), 0);
    let boc = small_boc();
    let proof = bound_proof(&boc);
    assert!(matches!(node.store_update(boc, proof), Err(SystemError::BatteryError)));
}

#[test]
fn peers_are_a_set() {
    let mut node = StorageNode::new([1u8; 32], 1000, test_config(), vec![[2u8; 32]]).unwrap();
    node.add_peer([3u8; 32]).unwrap();
    node.add_peer([3u8; 32]).unwrap();
    node.remove_peer(&[2u8; 32]).unwrap();
    node.remove_peer(&[9u8; 32]).unwrap();
    node.remove_peer(&[3u8; 32]).unwrap();
    // removing the last peer twice changes nothing
    node.remove_peer(&[3u8; 32]).unwrap();
}

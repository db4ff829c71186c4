use overpass::smt::SparseMerkleTreeI;

fn tree_with_one_leaf() -> (SparseMerkleTreeI, [u8; 32]) {
    let mut tree = SparseMerkleTreeI::new();
    let root = tree.update(&[0u8; 32], &[1u8, 2, 3]).unwrap();
    (tree, root)
}

#[test]
fn empty_tree_root_is_zero_sentinel() {
    let tree = SparseMerkleTreeI::new();
    assert_eq!(tree.root(), [0u8; 32]);
}

#[test]
fn update_computes_known_root() {
    // The root after one update is the 256-level fold of the leaf digest with
    // zero-sentinel siblings; the expected bytes were computed independently.
    let expected: [u8; 32] = [
        141, 105, 162, 80, 5, 176, 27, 135, 243, 42, 136, 19, 40, 42, 182, 224, 231, 64, 120, 172,
        28, 189, 152, 123, 181, 22, 145, 167, 176, 141, 120, 198,
    ];
    let (_, root) = tree_with_one_leaf();
    assert_eq!(root, expected);
}

#[test]
fn update_is_idempotent() {
    let mut tree = SparseMerkleTreeI::new();
    let key = [7u8; 32];
    let value = vec![9u8, 8, 7];
    let r1 = tree.update(&key, &value).unwrap();
    let r2 = tree.update(&key, &value).unwrap();
    assert_eq!(r1, r2);
    assert_eq!(tree.root(), r1);
}

#[test]
fn root_is_determined_by_update_sequence() {
    let mut t1 = SparseMerkleTreeI::new();
    let mut t2 = SparseMerkleTreeI::new();
    let updates: [([u8; 32], Vec<u8>); 3] = [
        ([1u8; 32], vec![10u8, 11]),
        ([2u8; 32], vec![20u8]),
        ([1u8; 32], vec![30u8, 31, 32]),
    ];
    for (k, v) in updates.iter() {
        t1.update(k, v).unwrap();
        t2.update(k, v).unwrap();
    }
    assert_eq!(t1.root(), t2.root());
}

#[test]
fn update_replaces_value_under_same_key() {
    let mut t1 = SparseMerkleTreeI::new();
    t1.update(&[5u8; 32], &[1u8]).unwrap();
    t1.update(&[5u8; 32], &[2u8]).unwrap();
    let mut t2 = SparseMerkleTreeI::new();
    t2.update(&[5u8; 32], &[2u8]).unwrap();
    assert_eq!(t1.root(), t2.root());
}

#[test]
fn get_proof_has_one_step_per_level() {
    let (tree, _) = tree_with_one_leaf();
    let steps = tree.get_proof(&[0u8; 32]);
    assert_eq!(steps.len(), 256);
}

#[test]
fn proof_folds_back_to_root() {
    let mut tree = SparseMerkleTreeI::new();
    tree.update(&[3u8; 32], &[1u8, 1]).unwrap();
    let root = tree.update(&[200u8; 32], &[2u8, 2]).unwrap();
    let steps = tree.get_proof(&[200u8; 32]);
    let rebuilt = SparseMerkleTreeI::compute_root_from_proof(&[200u8; 32], &[2u8, 2], &steps);
    assert_eq!(rebuilt, root);
}

#[test]
fn root_transition_log_records_updates() {
    let mut tree = SparseMerkleTreeI::new();
    let zero = tree.root();
    let r1 = tree.update(&[1u8; 32], &[1u8]).unwrap();
    let r2 = tree.update(&[2u8; 32], &[2u8]).unwrap();
    assert!(tree.verify_root_transition(&zero, &r1));
    assert!(tree.verify_root_transition(&r1, &r2));
    assert!(!tree.verify_root_transition(&zero, &r2));
    assert!(!tree.verify_root_transition(&r2, &r1));
}

#[test]
fn root_node_mirrors_tree() {
    let empty = SparseMerkleTreeI::new();
    let top = empty.root_node();
    assert!(top.is_empty);
    assert!(!top.is_leaf);
    assert_eq!(top.hash, [0u8; 32]);
    assert!(top.left.is_none() && top.right.is_none());

    let (tree, root) = tree_with_one_leaf();
    let top = tree.root_node();
    assert!(!top.is_empty);
    assert_eq!(top.hash, root);
    assert!(top.left.is_some() && top.right.is_some());
}

#[test]
fn serialize_state_frames_root_and_leaves() {
    let (tree, root) = tree_with_one_leaf();
    let boc = tree.serialize_state().unwrap();
    assert_eq!(boc.root_count(), 1);
    assert_eq!(boc.cell_count(), 2);
    let root_cell = boc.root_cell_data(0).unwrap();
    assert_eq!(root_cell, root.to_vec());
}

#[test]
fn constraint_accumulator_commits_per_level() {
    let (tree, _) = tree_with_one_leaf();
    let acc = tree.constraint_accumulator(&[0u8; 32], &[1u8, 2, 3]);
    // key and value commitments, one per level, and the root commitment
    assert_eq!(acc.commitments.len(), 259);
}

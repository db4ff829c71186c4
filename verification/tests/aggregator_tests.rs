use overpass::boc::Boc;
use overpass::errors::SystemError;
use overpass::root_contract::{RootCapabilities, RootContract, Transaction};
use overpass::zkproof::ZkProof;

fn enabled_caps() -> RootCapabilities {
    RootCapabilities {
        verify_settlement_state: true,
        verify_intermediate_state: false,
        verify_channel_state: false,
        verify_transaction_state: false,
        verify_storage_state: false,
        verify_global_state: true,
        verify_root_state: false,
        submit_settlement: true,
    }
}

fn dummy_proof() -> ZkProof {
    ZkProof::new(vec![], vec![], vec![], 0)
}

#[test]
fn epoch_gating_emits_once_per_window() {
    let mut contract = RootContract::with_capabilities(100, &enabled_caps());
    assert_eq!(contract.current_epoch(), 0);

    // the first window has elapsed: the root is emitted and the epoch advances
    let first = contract.try_submit_global_root(100);
    assert!(first.is_some());
    assert_eq!(contract.current_epoch(), 1);

    // still inside the next window: nothing is emitted and nothing moves
    let second = contract.try_submit_global_root(150);
    assert!(second.is_none());
    assert_eq!(contract.current_epoch(), 1);

    // the window has elapsed again
    let third = contract.try_submit_global_root(200);
    assert!(third.is_some());
    assert_eq!(contract.current_epoch(), 2);
}

#[test]
fn epoch_advances_without_emission_when_capability_disabled() {
    // the default capabilities leave global-state verification off
    let mut contract = RootContract::new(10);
    let emitted = contract.try_submit_global_root(10);
    assert!(emitted.is_none());
    // the bookkeeping still advanced: the decoupling is deliberate
    assert_eq!(contract.current_epoch(), 1);
}

#[test]
fn emitted_root_reflects_intermediate_updates() {
    let mut contract = RootContract::with_capabilities(1, &enabled_caps());
    let before = contract.global_tree_root();
    contract.process_intermediate_root([1u8; 32], [9u8; 32], &dummy_proof()).unwrap();
    let after = contract.global_tree_root();
    assert_ne!(before, after);

    // repeating the identical pair leaves the global root unchanged
    contract.process_intermediate_root([1u8; 32], [9u8; 32], &dummy_proof()).unwrap();
    assert_eq!(contract.global_tree_root(), after);

    let (root, certificate) = contract.try_submit_global_root(1).unwrap();
    assert_eq!(root, after);
    assert!(certificate.siblings.is_empty());
}

#[test]
fn verify_transaction_is_a_capability_gate() {
    let contract = RootContract::new(10);
    let tx = Transaction { channel_id: [0u8; 32], amount: 5, nonce: 0 };
    assert_eq!(contract.verify_transaction(&tx, &dummy_proof()).unwrap(), false);

    let mut caps = enabled_caps();
    caps.verify_transaction_state = true;
    let enabled = RootContract::with_capabilities(10, &caps);
    assert_eq!(enabled.verify_transaction(&tx, &dummy_proof()).unwrap(), true);
}

#[test]
fn header_round_trips_through_a_container() {
    let mut contract = RootContract::with_capabilities(100, &enabled_caps());
    contract.try_submit_global_root(250).unwrap();
    let data = contract.to_state_data();
    assert_eq!(data.len(), 26);

    let mut boc = Boc::new();
    let cell = boc.add_cell(data.clone());
    boc.add_root(cell).unwrap();

    let restored = RootContract::deserialize(&boc).unwrap();
    assert_eq!(restored.current_epoch(), 1);
    assert_eq!(restored.to_state_data(), data);
}

#[test]
fn deserialize_rejects_missing_or_short_header() {
    let empty = Boc::new();
    assert!(matches!(RootContract::deserialize(&empty), Err(SystemError::NotFound)));

    let mut short = Boc::new();
    let cell = short.add_cell(vec![0u8; 25]);
    short.add_root(cell).unwrap();
    assert!(matches!(RootContract::deserialize(&short), Err(SystemError::NotFound)));

    let mut exact = Boc::new();
    let cell = exact.add_cell(vec![0u8; 26]);
    exact.add_root(cell).unwrap();
    assert!(RootContract::deserialize(&exact).is_ok());
}

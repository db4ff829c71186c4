use overpass::boc::Boc;
use overpass::errors::{ResponseManagerError, SystemError};
use overpass::response::{ResponseManager, RetryDecision, RetryState};
use overpass::zkproof::ZkProof;

fn manager(threshold: u64) -> ResponseManager {
    ResponseManager::create([0u8; 32], threshold, 5000, 1000).unwrap()
}

#[test]
fn create_validates_threshold_interval_and_stake() {
    assert!(matches!(
        ResponseManager::create([0u8; 32], 0, 5000, 1000),
        Err(ResponseManagerError::InvalidThreshold)
    ));
    assert!(matches!(
        ResponseManager::create([0u8; 32], 1, 999, 1000),
        Err(ResponseManagerError::InvalidInterval)
    ));
    assert!(matches!(
        ResponseManager::create([0u8; 32], 1, 1000, 999),
        Err(ResponseManagerError::StorageError(SystemError::InvalidAmount))
    ));
    assert!(ResponseManager::create([0u8; 32], 1, 1000, 1000).is_ok());
}

#[test]
fn start_is_guarded_against_concurrent_runs() {
    let mut m = manager(1000);
    assert!(!m.is_currently_verifying());
    m.start_verification().unwrap();
    assert!(m.is_currently_verifying());
    assert!(matches!(
        m.start_verification(),
        Err(ResponseManagerError::VerificationInProgress)
    ));
    m.stop_verification();
    assert!(!m.is_currently_verifying());
    m.start_verification().unwrap();
    assert!(m.is_currently_verifying());
}

#[test]
fn retry_prescribes_exponential_backoff_and_single_tally() {
    let mut state = RetryState::new();
    // two failures, then success on the third attempt
    assert_eq!(state.record_attempt(false), RetryDecision::RetryAfter(1000));
    assert_eq!(state.record_attempt(false), RetryDecision::RetryAfter(2000));
    assert_eq!(state.record_attempt(true), RetryDecision::Succeeded);

    let mut m = manager(1000);
    let before = m.get_metrics();
    m.record_verification(true, 30);
    let after = m.get_metrics();
    assert_eq!(after.successful_verifications, before.successful_verifications + 1);
    assert_eq!(after.failed_verifications, before.failed_verifications);
    assert_eq!(after.total_verifications, before.total_verifications + 1);
}

#[test]
fn retry_gives_up_after_third_failure() {
    let mut state = RetryState::new();
    assert_eq!(state.record_attempt(false), RetryDecision::RetryAfter(1000));
    assert_eq!(state.record_attempt(false), RetryDecision::RetryAfter(2000));
    assert_eq!(state.record_attempt(false), RetryDecision::Failed);
}

#[test]
fn metrics_average_folds_latencies() {
    let mut m = manager(1000);
    m.record_verification(true, 10);
    assert_eq!(m.get_metrics().average_verification_time_ms, 10);
    m.record_verification(false, 20);
    let metrics = m.get_metrics();
    assert_eq!(metrics.average_verification_time_ms, 15);
    assert_eq!(metrics.total_verifications, 2);
    assert_eq!(metrics.successful_verifications, 1);
    assert_eq!(metrics.failed_verifications, 1);
    assert_eq!(metrics.last_verification_time, Some(20));
}

#[test]
fn plan_cycle_waits_below_threshold_and_batches_at_it() {
    let mut m = manager(1);
    assert_eq!(m.plan_cycle().unwrap(), None);

    let mut boc = Boc::new();
    boc.add_cell(vec![1u8, 2, 3]);
    let hash = boc.content_hash();
    let proof = ZkProof::new(vec![1u8], vec![hash.to_vec()], vec![], 0);
    m.store_proof_for_verification(boc, proof).unwrap();

    let batch = m.plan_cycle().unwrap().unwrap();
    assert_eq!(batch, vec![hash]);

    let high = manager(50);
    assert_eq!(high.plan_cycle().unwrap(), None);
}

#[test]
fn plan_cycle_rejects_oversized_stores() {
    let mut m = manager(1);
    let mut boc = Boc::new();
    boc.add_cell(vec![0u8; 1048577]); // one byte over the 1 MiB ceiling
    let hash = boc.content_hash();
    let proof = ZkProof::new(vec![1u8], vec![hash.to_vec()], vec![], 0);
    m.store_proof_for_verification(boc, proof).unwrap();
    assert!(matches!(m.plan_cycle(), Err(SystemError::InvalidInput)));
}

#[test]
fn storage_faults_convert_into_manager_errors() {
    let converted = ResponseManagerError::from(SystemError::NotFound);
    assert!(matches!(converted, ResponseManagerError::StorageError(SystemError::NotFound)));
}

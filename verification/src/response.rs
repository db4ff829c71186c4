//! The response/verification manager: the background process on a storage
//! node that batches and verifies stored proofs on a threshold, with bounded
//! retries, exponential backoff, and rolling metrics.
//!
//! The decisions live here and are verified; actually calling the
//! succinct-proof backend and sleeping out the delays is the hosting
//! runtime's business. It feeds each attempt's outcome back into the retry
//! state and performs the delays this module prescribes.

use vstd::prelude::*;

use crate::errors::{ResponseManagerError, SystemError};
use crate::storage_node::{stored_bytes, BatteryConfig, EpidemicProtocolConfig, NetworkConfig,
    StorageNode, StorageNodeConfig, SyncConfig, MIN_STAKE};

verus! {

/// How many times one proof is attempted before its failure is recorded.
pub const MAX_VERIFICATION_ATTEMPTS: u32 = 3;

/// Base backoff delay between attempts, in milliseconds.
pub const DEFAULT_BACKOFF_MS: u64 = 1000;

/// Ceiling on aggregate stored cell data per cycle, in bytes.
pub const MAX_RESPONSE_SIZE: u64 = 1024 * 1024;

/// Smallest accepted response threshold.
pub const MIN_RESPONSE_THRESHOLD: u64 = 1;

/// Smallest accepted response interval, in milliseconds.
pub const MIN_RESPONSE_INTERVAL: u64 = 1000;

/// Milliseconds measured by a host clock.
pub trait Duration {
    /// The spanned time in milliseconds.
    fn as_millis(&self) -> u64;
}

/// Rolling verification counters. The counters only grow while the process
/// lives; the average is over all verifications tallied so far.
#[derive(Clone, Copy, Debug, PartialEq, Eq, Structural)]
pub struct VerificationMetrics {
    pub total_verifications: u64,
    pub successful_verifications: u64,
    pub failed_verifications: u64,
    pub average_verification_time_ms: u64,
    pub last_verification_time: Option<u64>,
    pub response_threshold: u64,
    pub response_interval: u64,
}

/// True when the counters are mutually consistent and can still grow.
pub open spec fn metrics_can_record(m: VerificationMetrics) -> bool {
    &&& m.total_verifications < u64::MAX
    &&& m.successful_verifications <= m.total_verifications
    &&& m.failed_verifications <= m.total_verifications
}

/// One verification tallied: exactly one success-or-failure count, and the
/// running average folded over the new latency.
pub open spec fn record_spec(m: VerificationMetrics, success: bool, latency_ms: u64)
    -> VerificationMetrics
    recommends
        metrics_can_record(m),
{
    VerificationMetrics {
        total_verifications: (m.total_verifications + 1) as u64,
        successful_verifications: if success {
            (m.successful_verifications + 1) as u64
        } else {
            m.successful_verifications
        },
        failed_verifications: if success {
            m.failed_verifications
        } else {
            (m.failed_verifications + 1) as u64
        },
        average_verification_time_ms: ((m.average_verification_time_ms
            * m.total_verifications + latency_ms) / (m.total_verifications + 1)) as u64,
        last_verification_time: Some(latency_ms),
        response_threshold: m.response_threshold,
        response_interval: m.response_interval,
    }
}

impl VerificationMetrics {
    /// Fresh counters for a manager with the given configuration.
    pub fn new(response_threshold: u64, response_interval: u64) -> (r: Self)
        ensures
            r.total_verifications == 0,
            r.successful_verifications == 0,
            r.failed_verifications == 0,
            r.average_verification_time_ms == 0,
            r.last_verification_time is None,
            r.response_threshold == response_threshold,
            r.response_interval == response_interval,
    {
        VerificationMetrics {
            total_verifications: 0,
            successful_verifications: 0,
            failed_verifications: 0,
            average_verification_time_ms: 0,
            last_verification_time: None,
            response_threshold,
            response_interval,
        }
    }

    /// Tallies one verification outcome with its latency.
    pub fn record(&mut self, success: bool, latency_ms: u64)
        requires
            metrics_can_record(*old(self)),
        ensures
            *final(self) == record_spec(*old(self), success, latency_ms),
            metrics_can_record(*final(self)) || final(self).total_verifications == u64::MAX,
    {
        proof {
            lemma_average_fits(
                self.average_verification_time_ms,
                self.total_verifications,
                latency_ms,
            );
        }
        let total128 = self.total_verifications as u128;
        let avg128 = self.average_verification_time_ms as u128;
        proof {
            assert(avg128 * total128 + (latency_ms as u128) < u128::MAX) by (nonlinear_arith)
                requires
                    avg128 < 0x10000000000000000u128,
                    total128 < 0x10000000000000000u128,
                    latency_ms < 0x10000000000000000u128,
            ;
        }
        let new_avg: u128 = (avg128 * total128 + latency_ms as u128) / (total128 + 1);
        self.total_verifications = self.total_verifications + 1;
        if success {
            self.successful_verifications = self.successful_verifications + 1;
        } else {
            self.failed_verifications = self.failed_verifications + 1;
        }
        self.average_verification_time_ms = new_avg as u64;
        self.last_verification_time = Some(latency_ms);
    }
}

/// The folded average stays within the range of its inputs.
proof fn lemma_average_fits(avg: u64, total: u64, latency: u64)
    ensures
        0 <= ((avg * total + latency) as int) / ((total + 1) as int) <= u64::MAX,
{
    let m: int = if avg >= latency {
        avg as int
    } else {
        latency as int
    };
    assert(avg * total + latency <= m * (total + 1)) by (nonlinear_arith)
        requires
            avg <= m,
            latency <= m,
            0 <= total,
            0 <= avg,
            0 <= latency,
    ;
    assert((avg * total + latency) as int / ((total + 1) as int) <= m) by (nonlinear_arith)
        requires
            0 <= avg * total + latency <= m * (total + 1),
            0 < total + 1,
    ;
}

/// Powers of two.
pub open spec fn pow2(n: nat) -> nat
    decreases n,
{
    if n == 0 {
        1
    } else {
        2 * pow2((n - 1) as nat)
    }
}

/// The delay prescribed after a failed attempt: the base doubled once per
/// prior failure.
pub open spec fn backoff_delay(prior_failures: u32) -> u64
    recommends
        prior_failures < MAX_VERIFICATION_ATTEMPTS,
{
    (DEFAULT_BACKOFF_MS * pow2(prior_failures as nat)) as u64
}

/// What the retry loop does next for one proof.
#[derive(Clone, Copy, Debug, PartialEq, Eq, Structural)]
pub enum RetryDecision {
    /// The attempt succeeded; tally one success.
    Succeeded,
    /// The bounded attempts are exhausted; tally one failure.
    Failed,
    /// Wait the given milliseconds, then attempt again.
    RetryAfter(u64),
}

/// The retry transition: success ends the loop at once; a failure counts,
/// ends the loop when it is the last allowed attempt, and otherwise
/// prescribes the exponential backoff delay.
pub open spec fn retry_step(failures: u32, outcome: bool) -> (u32, RetryDecision)
    recommends
        failures < MAX_VERIFICATION_ATTEMPTS,
{
    if outcome {
        (failures, RetryDecision::Succeeded)
    } else {
        let f = (failures + 1) as u32;
        if f >= MAX_VERIFICATION_ATTEMPTS {
            (f, RetryDecision::Failed)
        } else {
            (f, RetryDecision::RetryAfter(backoff_delay(failures)))
        }
    }
}

/// The per-proof retry state: how many attempts have failed so far.
pub struct RetryState {
    pub failures: u32,
}

impl RetryState {
    /// A fresh state: no attempt made.
    pub fn new() -> (r: Self)
        ensures
            r.failures == 0,
    {
        RetryState { failures: 0 }
    }

    /// Feeds one attempt's outcome into the state and decides what follows.
    pub fn record_attempt(&mut self, outcome: bool) -> (d: RetryDecision)
        requires
            old(self).failures < MAX_VERIFICATION_ATTEMPTS,
        ensures
            (final(self).failures, d) == retry_step(old(self).failures, outcome),
    {
        if outcome {
            return RetryDecision::Succeeded;
        }
        let prior = self.failures;
        self.failures = self.failures + 1;
        if self.failures >= MAX_VERIFICATION_ATTEMPTS {
            RetryDecision::Failed
        } else {
            let delay: u64 = if prior == 0 {
                1000
            } else if prior == 1 {
                2000
            } else {
                4000
            };
            proof {
                assert(pow2(0) == 1);
                assert(pow2(1) == 2);
                assert(pow2(2) == 4);
            }
            RetryDecision::RetryAfter(delay)
        }
    }
}

/// The manager's start gate: starting while running is refused; otherwise the
/// loop is marked running.
pub open spec fn start_spec(is_verifying: bool) -> (bool, bool) {
    if is_verifying {
        (true, false)
    } else {
        (true, true)
    }
}

/// Stopping clears the running mark.
pub open spec fn stop_spec(is_verifying: bool) -> bool {
    false
}

/// The background verification manager of one storage node.
pub struct ResponseManager {
    storage_node: StorageNode,
    response_threshold: u64,
    response_interval: u64,
    is_verifying: bool,
    metrics: VerificationMetrics,
}

impl ResponseManager {
    /// The configured batch threshold.
    pub closed spec fn threshold(&self) -> u64 {
        self.response_threshold
    }

    /// The configured cycle interval in milliseconds.
    pub closed spec fn interval(&self) -> u64 {
        self.response_interval
    }

    /// True while the verification loop is marked running.
    pub closed spec fn verifying(&self) -> bool {
        self.is_verifying
    }

    /// The rolling counters.
    pub closed spec fn metrics_view(&self) -> VerificationMetrics {
        self.metrics
    }

    /// The stored objects of the underlying node.
    pub closed spec fn objects(&self) -> Map<Seq<u8>, crate::boc::BocView> {
        self.storage_node.objects()
    }

    /// The stored proofs of the underlying node.
    pub closed spec fn zkproofs(&self) -> Map<Seq<u8>, crate::zkproof::ZkProofView> {
        self.storage_node.zkproofs()
    }

    /// The underlying node's stored entries.
    pub closed spec fn entries(&self) -> Seq<([u8; 32], crate::boc::Boc)> {
        self.storage_node.boc_entries()
    }

    /// The underlying node's battery charge.
    pub closed spec fn battery_charge(&self) -> u64 {
        self.storage_node.battery_charge()
    }

    /// Well-formed: the node is, the configuration respects the minima, and
    /// the counters can still grow.
    pub closed spec fn wf(&self) -> bool {
        &&& self.storage_node.wf()
        &&& self.response_threshold >= MIN_RESPONSE_THRESHOLD
        &&& self.response_interval >= MIN_RESPONSE_INTERVAL
    }

    /// Creates a manager over a fresh storage node. The threshold and the
    /// interval must respect their minima, and the node demands the minimum
    /// stake; each violation is its own error.
    pub fn create(
        node_id: [u8; 32],
        response_threshold: u64,
        response_interval: u64,
        initial_stake: u64,
    ) -> (r: Result<Self, ResponseManagerError>)
        ensures
            r is Ok <==> response_threshold >= MIN_RESPONSE_THRESHOLD && response_interval
                >= MIN_RESPONSE_INTERVAL && initial_stake >= MIN_STAKE,
            response_threshold < MIN_RESPONSE_THRESHOLD ==> r == Err::<
                Self,
                ResponseManagerError,
            >(ResponseManagerError::InvalidThreshold),
            response_threshold >= MIN_RESPONSE_THRESHOLD && response_interval
                < MIN_RESPONSE_INTERVAL ==> r == Err::<Self, ResponseManagerError>(
                ResponseManagerError::InvalidInterval,
            ),
            response_threshold >= MIN_RESPONSE_THRESHOLD && response_interval
                >= MIN_RESPONSE_INTERVAL && initial_stake < MIN_STAKE ==> r == Err::<
                Self,
                ResponseManagerError,
            >(ResponseManagerError::StorageError(SystemError::InvalidAmount)),
            r matches Ok(m) ==> {
                &&& m.wf()
                &&& m.threshold() == response_threshold
                &&& m.interval() == response_interval
                &&& !m.verifying()
                &&& m.metrics_view() == VerificationMetrics {
                    total_verifications: 0,
                    successful_verifications: 0,
                    failed_verifications: 0,
                    average_verification_time_ms: 0,
                    last_verification_time: None::<u64>,
                    response_threshold: response_threshold,
                    response_interval: response_interval,
                }
                &&& m.entries() == Seq::<([u8; 32], crate::boc::Boc)>::empty()
                &&& m.battery_charge() == initial_stake
            },
    {
        if response_threshold < MIN_RESPONSE_THRESHOLD {
            return Err(ResponseManagerError::InvalidThreshold);
        }
        if response_interval < MIN_RESPONSE_INTERVAL {
            return Err(ResponseManagerError::InvalidInterval);
        }
        let config = StorageNodeConfig::new(
            BatteryConfig::default(),
            SyncConfig::default(),
            EpidemicProtocolConfig::default(),
            NetworkConfig::default(),
            node_id,
            0,
            Vec::new(),
        );
        let storage_node = match StorageNode::new(node_id, initial_stake, config, Vec::new()) {
            Ok(n) => n,
            Err(e) => {
                return Err(ResponseManagerError::StorageError(e));
            },
        };
        Ok(
            ResponseManager {
                storage_node,
                response_threshold,
                response_interval,
                is_verifying: false,
                metrics: VerificationMetrics::new(response_threshold, response_interval),
            },
        )
    }

    /// Marks the verification loop running; refused while it already runs, so
    /// only one instance is ever live.
    pub fn start_verification(&mut self) -> (r: Result<(), ResponseManagerError>)
        ensures
            (final(self).verifying(), r is Ok) == start_spec(old(self).verifying()),
            r is Err ==> r == Err::<(), ResponseManagerError>(
                ResponseManagerError::VerificationInProgress,
            ) && *final(self) == *old(self),
            final(self).metrics_view() == old(self).metrics_view(),
            final(self).threshold() == old(self).threshold(),
            final(self).interval() == old(self).interval(),
            final(self).entries() == old(self).entries(),
            final(self).battery_charge() == old(self).battery_charge(),
            final(self).wf() == old(self).wf(),
    {
        if self.is_verifying {
            return Err(ResponseManagerError::VerificationInProgress);
        }
        self.is_verifying = true;
        Ok(())
    }

    /// Clears the running mark. The loop and any in-progress wait observe it
    /// and end promptly.
    pub fn stop_verification(&mut self)
        ensures
            final(self).verifying() == stop_spec(old(self).verifying()),
            !final(self).verifying(),
            final(self).metrics_view() == old(self).metrics_view(),
            final(self).threshold() == old(self).threshold(),
            final(self).interval() == old(self).interval(),
            final(self).entries() == old(self).entries(),
            final(self).battery_charge() == old(self).battery_charge(),
            final(self).wf() == old(self).wf(),
    {
        self.is_verifying = false;
    }

    /// True while the verification loop is marked running.
    pub fn is_currently_verifying(&self) -> (r: bool)
        ensures
            r == self.verifying(),
    {
        self.is_verifying
    }

    /// The rolling counters.
    pub fn get_metrics(&self) -> (r: VerificationMetrics)
        ensures
            r == self.metrics_view(),
    {
        self.metrics
    }

    /// Admits an object and its proof into the node's store, making the
    /// proof eligible for the next verification cycle. The admission rules
    /// are the node's: the battery is debited first and not refunded, and the
    /// proof must bind to the object's content hash.
    pub fn store_proof_for_verification(&mut self, boc: crate::boc::Boc, proof_artifact: crate::zkproof::ZkProof)
        -> (r: Result<(), SystemError>)
        requires
            old(self).wf(),
            boc.wf(),
        ensures
            final(self).wf(),
            final(self).threshold() == old(self).threshold(),
            final(self).interval() == old(self).interval(),
            final(self).verifying() == old(self).verifying(),
            final(self).metrics_view() == old(self).metrics_view(),
            old(self).battery_charge() < crate::battery::PROCESSING_COST ==> r == Err::<
                (),
                SystemError,
            >(SystemError::BatteryError) && final(self).battery_charge() == old(self).battery_charge(),
            old(self).battery_charge() >= crate::battery::PROCESSING_COST ==> final(self).battery_charge() == old(self).battery_charge() - crate::battery::PROCESSING_COST,
            old(self).battery_charge() >= crate::battery::PROCESSING_COST
                && !crate::storage_node::proof_binds(proof_artifact@, boc.content_hash_spec()) ==> r
                == Err::<(), SystemError>(SystemError::InvalidProof),
            old(self).battery_charge() >= crate::battery::PROCESSING_COST
                && crate::storage_node::proof_binds(proof_artifact@, boc.content_hash_spec()) ==> r
                is Ok && final(self).objects() =~= old(self).objects().insert(
                boc.content_hash_spec(),
                boc@,
            ) && final(self).zkproofs() =~= old(self).zkproofs().insert(
                boc.content_hash_spec(),
                proof_artifact@,
            ),
            r is Err ==> final(self).entries() == old(self).entries(),
            r is Ok ==> final(self).entries().len() == (if old(self).objects().dom().contains(
                boc.content_hash_spec(),
            ) {
                old(self).entries().len()
            } else {
                old(self).entries().len() + 1
            }),
    {
        self.storage_node.store_update(boc, proof_artifact)
    }

    /// Plans one cycle: a store holding more than the cell-data ceiling
    /// aborts the cycle with a size error; otherwise the batch of every
    /// stored proof hash is returned once the store has reached the
    /// threshold, and nothing is due below it.
    pub fn plan_cycle(&self) -> (r: Result<Option<Vec<[u8; 32]>>, SystemError>)
        ensures
            r is Err <==> stored_bytes(self.entries()) > MAX_RESPONSE_SIZE,
            r is Err ==> r == Err::<Option<Vec<[u8; 32]>>, SystemError>(SystemError::InvalidInput),
            stored_bytes(self.entries()) <= MAX_RESPONSE_SIZE && self.entries().len()
                >= self.threshold() ==> (r matches Ok(batch) && (batch matches Some(keys)
                && keys@.len() == self.entries().len() && (forall|j: int|
                0 <= j < keys@.len() ==> (#[trigger] keys@[j])@ == self.entries()[j].0@))),
            stored_bytes(self.entries()) <= MAX_RESPONSE_SIZE && self.entries().len()
                < self.threshold() ==> r == Ok::<Option<Vec<[u8; 32]>>, SystemError>(None),
    {
        if self.storage_node.stored_bytes_exceed(MAX_RESPONSE_SIZE) {
            return Err(SystemError::InvalidInput);
        }
        let count = self.storage_node.object_count();
        if (count as u64) >= self.response_threshold {
            Ok(Some(self.storage_node.stored_keys()))
        } else {
            Ok(None)
        }
    }

    /// Tallies one verified proof into the rolling counters.
    pub fn record_verification(&mut self, success: bool, latency_ms: u64)
        requires
            metrics_can_record(old(self).metrics_view()),
        ensures
            final(self).metrics_view() == record_spec(old(self).metrics_view(), success, latency_ms),
            final(self).verifying() == old(self).verifying(),
            final(self).threshold() == old(self).threshold(),
            final(self).interval() == old(self).interval(),
            final(self).entries() == old(self).entries(),
            final(self).battery_charge() == old(self).battery_charge(),
            final(self).wf() == old(self).wf(),
    {
        self.metrics.record(success, latency_ms);
    }
}

/// Law: the concurrency guard. From a stopped manager, the first start
/// succeeds, a second start while running is refused, and after a stop a
/// further start succeeds again.
pub proof fn lemma_concurrency_guard()
    ensures
        ({
            let (v1, ok1) = start_spec(false);
            let (v2, ok2) = start_spec(v1);
            let v3 = stop_spec(v2);
            let (v4, ok4) = start_spec(v3);
            ok1 && !ok2 && v2 == v1 && ok4
        }),
{
}

/// Law: retry accounting. A proof that fails twice and succeeds on the third
/// attempt sees backoff delays of exactly 1000 ms and 2000 ms between the
/// attempts, and its tally adds one success and no failure.
pub proof fn lemma_retry_accounting(m: VerificationMetrics, latency_ms: u64)
    requires
        metrics_can_record(m),
    ensures
        ({
            let (f1, d1) = retry_step(0, false);
            let (f2, d2) = retry_step(f1, false);
            let (f3, d3) = retry_step(f2, true);
            let tallied = record_spec(m, true, latency_ms);
            &&& d1 == RetryDecision::RetryAfter(1000u64)
            &&& d2 == RetryDecision::RetryAfter(2000u64)
            &&& d3 == RetryDecision::Succeeded
            &&& tallied.successful_verifications == m.successful_verifications + 1
            &&& tallied.failed_verifications == m.failed_verifications
            &&& tallied.total_verifications == m.total_verifications + 1
        }),
{
    assert(pow2(0) == 1);
    assert(pow2(1) == 2);
}

} // verus!

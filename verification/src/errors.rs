//! Error kinds shared across the commitment and storage subsystems.

use vstd::prelude::*;

verus! {

/// Faults surfaced by the tree, aggregator and storage-node operations.
///
/// Structural and invariant violations are returned to the immediate caller
/// and never retried by this library.
#[derive(Clone, Copy, Debug, PartialEq, Eq, Structural)]
pub enum SystemError {
    /// A node, object or proof that the operation expected is absent.
    NotFound,
    /// A binding or cryptographic mismatch; the operation is rejected.
    InvalidProof,
    /// A state invariant would be violated by the requested transition.
    InvalidState,
    /// A quantity (such as a stake) is below the required minimum.
    InvalidAmount,
    /// The metered processing resource is exhausted.
    BatteryError,
    /// A value could not be framed or reconstructed as bytes.
    DataConversionError,
    /// An input exceeds a configured ceiling.
    InvalidInput,
}

/// Faults of the response/verification manager.
#[derive(Clone, Copy, Debug, PartialEq, Eq, Structural)]
pub enum ResponseManagerError {
    /// The configured response threshold is below the minimum of one.
    InvalidThreshold,
    /// The configured response interval is below the minimum of 1000 ms.
    InvalidInterval,
    /// The verification loop is already running.
    VerificationInProgress,
    /// A storage-node operation failed underneath the manager.
    StorageError(SystemError),
    /// A stored response could not be interpreted.
    InvalidResponse,
    /// A proof failed verification after the bounded retries.
    ProofVerificationFailed,
}

impl From<SystemError> for ResponseManagerError {
    fn from(error: SystemError) -> (r: Self) {
        ResponseManagerError::StorageError(error)
    }
}

impl vstd::std_specs::convert::FromSpecImpl<SystemError> for ResponseManagerError {
    open spec fn obeys_from_spec() -> bool {
        true
    }

    open spec fn from_spec(error: SystemError) -> Self {
        ResponseManagerError::StorageError(error)
    }
}

} // verus!

//! The metered admission-control resource of a storage node.
//!
//! Every admitted object costs one processing unit, debited before any
//! verification work and never refunded, so failed verification attempts
//! cannot become a free resource-exhaustion vector.

use vstd::prelude::*;

use crate::errors::SystemError;

verus! {

/// The cost, in charge units, of processing one stored object.
pub const PROCESSING_COST: u64 = 1;

/// A metered charge store.
pub struct BatteryChargingSystem {
    charge: u64,
    max_charge: u64,
}

impl BatteryChargingSystem {
    /// The charge now available.
    pub closed spec fn charge(&self) -> u64 {
        self.charge
    }

    /// The capacity the battery was created with.
    pub closed spec fn max_charge(&self) -> u64 {
        self.max_charge
    }

    /// Creates a battery filled to `initial_charge`.
    pub fn new(initial_charge: u64) -> (r: Self)
        ensures
            r.charge() == initial_charge,
            r.max_charge() == initial_charge,
    {
        BatteryChargingSystem { charge: initial_charge, max_charge: initial_charge }
    }

    /// The charge now available.
    pub fn charge_level(&self) -> (r: u64)
        ensures
            r == self.charge(),
    {
        self.charge
    }

    /// Debits one processing unit. Fails, leaving the charge untouched, when
    /// less than one unit remains.
    pub fn charge_for_processing(&mut self) -> (r: Result<(), SystemError>)
        ensures
            final(self).max_charge() == old(self).max_charge(),
            r is Ok <==> old(self).charge() >= PROCESSING_COST,
            r is Ok ==> final(self).charge() == old(self).charge() - PROCESSING_COST,
            r is Err ==> r == Err::<(), SystemError>(SystemError::BatteryError) && final(self).charge() == old(self).charge(),
    {
        if self.charge >= PROCESSING_COST {
            self.charge = self.charge - PROCESSING_COST;
            Ok(())
        } else {
            Err(SystemError::BatteryError)
        }
    }
}

} // verus!

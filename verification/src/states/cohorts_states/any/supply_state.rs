use vstd::prelude::*;

use crate::states::state_error::StateError;

verus! {

/// The supply of a cohort, in sats.
#[derive(Debug, Default)]
pub struct SupplyState {
    pub supply: u64,
}

impl SupplyState {
    /// Adds `amount` to the supply.
    pub fn increment(&mut self, amount: u64)
        requires
            old(self).supply + amount <= u64::MAX,
        ensures
            final(self).supply == old(self).supply + amount,
    {
        self.supply += amount;
    }

    /// Takes `amount` back from the supply; refused when the supply is smaller.
    pub fn decrement(&mut self, amount: u64) -> (res: Result<(), StateError>)
        ensures
            match res {
                Ok(()) => old(self).supply >= amount && final(self).supply == old(self).supply
                    - amount,
                Err(e) => old(self).supply < amount && e == StateError::SupplyTooSmall
                    && final(self).supply == old(self).supply,
            },
    {
        if self.supply < amount {
            return Err(StateError::SupplyTooSmall);
        }

        self.supply -= amount;

        Ok(())
    }
}

} // verus!

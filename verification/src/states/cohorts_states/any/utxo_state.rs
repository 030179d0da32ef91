use vstd::prelude::*;

use crate::states::state_error::StateError;

verus! {

/// The number of unspent outputs of a cohort.
#[derive(Debug, Default)]
pub struct UTXOState {
    pub count: usize,
}

impl UTXOState {
    /// Adds `utxo_count` outputs.
    pub fn increment(&mut self, utxo_count: usize)
        requires
            old(self).count + utxo_count <= usize::MAX,
        ensures
            final(self).count == old(self).count + utxo_count,
    {
        self.count += utxo_count;
    }

    /// Takes `utxo_count` outputs back; refused when there are fewer.
    pub fn decrement(&mut self, utxo_count: usize) -> (res: Result<(), StateError>)
        ensures
            match res {
                Ok(()) => old(self).count >= utxo_count && final(self).count == old(self).count
                    - utxo_count,
                Err(e) => old(self).count < utxo_count && e == StateError::UtxoCountTooSmall
                    && final(self).count == old(self).count,
            },
    {
        if self.count < utxo_count {
            return Err(StateError::UtxoCountTooSmall);
        }

        self.count -= utxo_count;

        Ok(())
    }
}

} // verus!

use vstd::prelude::*;

verus! {

/// The realized capitalization of a cohort, in cents.
#[derive(Debug, Default)]
pub struct CapitalizationState {
    pub realized_cap_in_cents: u64,
}

impl CapitalizationState {
    pub fn increment(&mut self, realized_cap_in_cents: u64)
        requires
            old(self).realized_cap_in_cents + realized_cap_in_cents <= u64::MAX,
        ensures
            final(self).realized_cap_in_cents == old(self).realized_cap_in_cents
                + realized_cap_in_cents,
    {
        self.realized_cap_in_cents += realized_cap_in_cents;
    }

    pub fn decrement(&mut self, realized_cap_in_cents: u64)
        requires
            old(self).realized_cap_in_cents >= realized_cap_in_cents,
        ensures
            final(self).realized_cap_in_cents == old(self).realized_cap_in_cents
                - realized_cap_in_cents,
    {
        self.realized_cap_in_cents -= realized_cap_in_cents;
    }
}

} // verus!

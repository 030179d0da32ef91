use std::collections::BTreeMap;

use vstd::prelude::*;

use super::price_in_cents_to_amount::added_at;

verus! {

/// The amount, in sats, held at each price paid, in cents.
#[derive(Debug)]
pub struct PriceInCentsToSats(pub BTreeMap<u32, u64>);

impl Default for PriceInCentsToSats {
    fn default() -> (res: Self)
        ensures
            res.0@ == Map::<u32, u64>::empty(),
    {
        PriceInCentsToSats(BTreeMap::new())
    }
}

impl PriceInCentsToSats {
    /// Adds `amount` to the amount held at `cents`.
    pub fn increment(&mut self, cents: u32, amount: u64)
        requires
            old(self).0@.contains_key(cents) ==> old(self).0@[cents] + amount <= u64::MAX,
        ensures
            final(self).0@ == added_at(old(self).0@, cents, amount),
    {
        let current = match self.0.get(&cents) {
            Some(current) => *current,
            None => 0,
        };
        self.0.insert(cents, current + amount);
    }

    /// Takes `amount` back from the amount held at `cents`.
    ///
    /// The price is forgotten when the amount taken back is zero, whatever is
    /// still held there; otherwise it keeps what is left, zero included.
    pub fn decrement(&mut self, cents: u32, amount: u64)
        requires
            old(self).0@.contains_key(cents),
            old(self).0@[cents] >= amount,
        ensures
            final(self).0@ == if amount == 0 {
                old(self).0@.remove(cents)
            } else {
                old(self).0@.insert(cents, (old(self).0@[cents] - amount) as u64)
            },
    {
        let current = *self.0.get(&cents).unwrap();

        self.0.insert(cents, current - amount);

        let delete = amount == 0;

        if delete {
            self.0.remove(&cents);
        }
    }
}

} // verus!

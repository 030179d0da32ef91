use std::collections::BTreeMap;

use vstd::prelude::*;

use crate::states::state_error::StateError;

use super::amounts_total::{amounts_total, lemma_total_insert, lemma_total_remove};

verus! {

/// `amount` more held at `cents`.
pub open spec fn added_at(m: Map<u32, u64>, cents: u32, amount: u64) -> Map<u32, u64> {
    m.insert(
        cents,
        (if m.contains_key(cents) {
            m[cents]
        } else {
            0
        } + amount) as u64,
    )
}

/// `amount` less held at `cents`, the price forgotten when nothing is left,
/// or why it cannot be taken back.
pub open spec fn taken_at(m: Map<u32, u64>, cents: u32, amount: u64) -> Result<
    Map<u32, u64>,
    StateError,
> {
    if !m.contains_key(cents) {
        Err(StateError::MissingAmount)
    } else if m[cents] < amount {
        Err(StateError::AmountTooSmall)
    } else if m[cents] == amount {
        Ok(m.remove(cents))
    } else {
        Ok(m.insert(cents, (m[cents] - amount) as u64))
    }
}

/// Adding at a price adds to the total.
pub proof fn lemma_total_added_at(m: Map<u32, u64>, cents: u32, amount: u64)
    requires
        m.dom().finite(),
        m.contains_key(cents) ==> m[cents] + amount <= u64::MAX,
    ensures
        amounts_total(added_at(m, cents, amount)) == amounts_total(m) + amount,
{
    lemma_total_insert(m, cents, (if m.contains_key(cents) { m[cents] } else { 0 } + amount) as u64);
}

/// Taking back at a price takes from the total.
pub proof fn lemma_total_taken_at(m: Map<u32, u64>, cents: u32, amount: u64)
    requires
        m.dom().finite(),
        taken_at(m, cents, amount) is Ok,
    ensures
        amounts_total(taken_at(m, cents, amount).unwrap()) == amounts_total(m) - amount,
{
    if m[cents] == amount {
        lemma_total_remove(m, cents);
    } else {
        lemma_total_insert(m, cents, (m[cents] - amount) as u64);
    }
}

/// Taking back at a price what was just added there restores the amounts,
/// unless nothing was held at that price while it was kept.
pub proof fn lemma_added_then_taken(m: Map<u32, u64>, cents: u32, amount: u64)
    requires
        amount != 0,
        m.contains_key(cents) ==> m[cents] != 0 && m[cents] + amount <= u64::MAX,
    ensures
        taken_at(added_at(m, cents, amount), cents, amount) == Ok::<Map<u32, u64>, StateError>(m),
{
    let after = added_at(m, cents, amount);
    if m.contains_key(cents) {
        assert(after.insert(cents, m[cents]) =~= m);
    } else {
        assert(after.remove(cents) =~= m);
    }
}

/// The amount, in sats, held at each price paid, in cents.
#[derive(Debug)]
pub struct PriceInCentsToAmount(pub BTreeMap<u32, u64>);

impl Default for PriceInCentsToAmount {
    fn default() -> (res: Self)
        ensures
            res.0@ == Map::<u32, u64>::empty(),
    {
        PriceInCentsToAmount(BTreeMap::new())
    }
}

impl PriceInCentsToAmount {
    /// Adds `amount` to the amount held at `cents`.
    pub fn increment(&mut self, cents: u32, amount: u64)
        requires
            old(self).0@.contains_key(cents) ==> old(self).0@[cents] + amount <= u64::MAX,
        ensures
            final(self).0@ == added_at(old(self).0@, cents, amount),
    {
        let current = match self.0.get(&cents) {
            Some(current) => *current,
            None => 0,
        };
        self.0.insert(cents, current + amount);
    }

    /// Takes `amount` back from the amount held at `cents`, and forgets the
    /// price once nothing is held there any more.
    pub fn decrement(&mut self, cents: u32, amount: u64) -> (res: Result<(), StateError>)
        ensures
            match taken_at(old(self).0@, cents, amount) {
                Ok(m) => res is Ok && final(self).0@ == m,
                Err(e) => res == Err::<(), StateError>(e) && final(self).0@ == old(self).0@,
            },
    {
        let self_amount = match self.0.get(&cents) {
            Some(self_amount) => *self_amount,
            None => {
                return Err(StateError::MissingAmount);
            },
        };

        if self_amount < amount {
            return Err(StateError::AmountTooSmall);
        }

        let delete = self_amount - amount == 0;

        if delete {
            self.0.remove(&cents);
        } else {
            self.0.insert(cents, self_amount - amount);
        }

        Ok(())
    }
}

} // verus!

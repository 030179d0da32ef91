use std::collections::BTreeMap;

use vstd::prelude::*;

use crate::parse::txout_index::{lemma_key_injective, TxoutIndex};

verus! {

/// The amount recorded for `txout_index` in `m`, if any.
pub open spec fn amount_of(m: Map<u64, u64>, txout_index: TxoutIndex) -> Option<u64> {
    if m.contains_key(txout_index.spec_key()) {
        Some(m[txout_index.spec_key()])
    } else {
        None
    }
}

/// The amount, in sats, of each unspent output, found by the output's key.
#[derive(Debug)]
pub struct TxoutIndexToAmount(pub BTreeMap<u64, u64>);

impl View for TxoutIndexToAmount {
    type V = Map<u64, u64>;

    open spec fn view(&self) -> Map<u64, u64> {
        self.0@
    }
}

impl Default for TxoutIndexToAmount {
    fn default() -> (res: Self)
        ensures
            res@ == Map::<u64, u64>::empty(),
    {
        TxoutIndexToAmount(BTreeMap::new())
    }
}

impl TxoutIndexToAmount {
    /// Records the amount of an output, and gives back the amount recorded
    /// before for it, if any.
    pub fn insert(&mut self, txout_index: TxoutIndex, amount: u64) -> (res: Option<u64>)
        ensures
            final(self)@ == old(self)@.insert(txout_index.spec_key(), amount),
            res == amount_of(old(self)@, txout_index),
    {
        self.0.insert(txout_index.key(), amount)
    }

    /// The amount recorded for an output.
    pub fn get(&self, txout_index: &TxoutIndex) -> (res: Option<u64>)
        ensures
            res == amount_of(self@, *txout_index),
    {
        match self.0.get(&txout_index.key()) {
            Some(amount) => Some(*amount),
            None => None,
        }
    }

    /// Forgets an output, and gives back its amount, if it was recorded.
    pub fn remove(&mut self, txout_index: &TxoutIndex) -> (res: Option<u64>)
        ensures
            final(self)@ == old(self)@.remove(txout_index.spec_key()),
            res == amount_of(old(self)@, *txout_index),
    {
        self.0.remove(&txout_index.key())
    }

    /// Forgets every output.
    pub fn clear(&mut self)
        ensures
            final(self)@ == Map::<u64, u64>::empty(),
    {
        self.0.clear();
    }
}

/// Reading an output after recording an amount for one gives that amount
/// when it is the same output, and what was there before otherwise.
pub proof fn lemma_get_after_insert(m: Map<u64, u64>, written: TxoutIndex, amount: u64, read: TxoutIndex)
    ensures
        amount_of(m.insert(written.spec_key(), amount), read) == if written == read {
            Some(amount)
        } else {
            amount_of(m, read)
        },
{
    lemma_key_injective(written, read);
}

/// Reading an output after forgetting one gives nothing when it is the same
/// output, and what was there before otherwise.
pub proof fn lemma_get_after_remove(m: Map<u64, u64>, removed: TxoutIndex, read: TxoutIndex)
    ensures
        amount_of(m.remove(removed.spec_key()), read) == if removed == read {
            None
        } else {
            amount_of(m, read)
        },
{
    lemma_key_injective(removed, read);
}

} // verus!

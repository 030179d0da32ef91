use vstd::prelude::*;

use crate::states::state_error::StateError;

use super::amounts_total::{amounts_total, lemma_total_bounds};
use super::price_in_cents_to_amount::{
    added_at,
    lemma_total_added_at,
    lemma_total_taken_at,
    taken_at,
    PriceInCentsToAmount,
};
use super::supply_state::SupplyState;
use super::utxo_state::UTXOState;

verus! {

/// What a cohort holds, as values: the amount at each price paid, in cents,
/// the supply, in sats, and the number of unspent outputs.
pub struct DurableModel {
    pub amounts: Map<u32, u64>,
    pub supply: u64,
    pub utxo_count: usize,
}

impl DurableModel {
    /// The amounts held by price add up to the supply, and no price is kept
    /// with nothing held at it.
    pub open spec fn wf(self) -> bool {
        &&& self.amounts.dom().finite()
        &&& amounts_total(self.amounts) == self.supply
        &&& forall|cents: u32| #[trigger] self.amounts.contains_key(cents) ==> self.amounts[cents] > 0
    }

    /// Whether `amount` sats in `utxo_count` outputs at `cents` can be added
    /// without going past the integers that hold them.
    pub open spec fn increment_fits(self, amount: u64, utxo_count: usize, cents: u32) -> bool {
        amount != 0 ==> {
            &&& self.supply + amount <= u64::MAX
            &&& self.utxo_count + utxo_count <= usize::MAX
            &&& self.amounts.contains_key(cents) ==> self.amounts[cents] + amount <= u64::MAX
        }
    }

    /// The state after adding `amount` sats in `utxo_count` outputs bought at
    /// `cents`, and the answer. An empty amount changes nothing, and is
    /// refused when it comes with outputs.
    pub open spec fn incremented(self, amount: u64, utxo_count: usize, cents: u32) -> (
        DurableModel,
        Result<(), StateError>,
    ) {
        if amount == 0 {
            if utxo_count != 0 {
                (self, Err(StateError::ZeroAmountWithOutputs))
            } else {
                (self, Ok(()))
            }
        } else {
            (
                DurableModel {
                    amounts: added_at(self.amounts, cents, amount),
                    supply: (self.supply + amount) as u64,
                    utxo_count: (self.utxo_count + utxo_count) as usize,
                },
                Ok(()),
            )
        }
    }

    /// The state after taking back `amount` sats in `utxo_count` outputs bought
    /// at `cents`, and the answer. The supply, the outputs and the amount at
    /// that price are taken from in this order; the first that holds too
    /// little stops it, after those before it were taken from.
    pub open spec fn decremented(self, amount: u64, utxo_count: usize, cents: u32) -> (
        DurableModel,
        Result<(), StateError>,
    ) {
        if amount == 0 {
            (self, Ok(()))
        } else if self.supply < amount {
            (self, Err(StateError::SupplyTooSmall))
        } else if self.utxo_count < utxo_count {
            (
                DurableModel {
                    amounts: self.amounts,
                    supply: (self.supply - amount) as u64,
                    utxo_count: self.utxo_count,
                },
                Err(StateError::UtxoCountTooSmall),
            )
        } else {
            let supply = (self.supply - amount) as u64;
            let count = (self.utxo_count - utxo_count) as usize;
            match taken_at(self.amounts, cents, amount) {
                Ok(amounts) => (
                    DurableModel { amounts, supply, utxo_count: count },
                    Ok(()),
                ),
                Err(e) => (
                    DurableModel { amounts: self.amounts, supply, utxo_count: count },
                    Err(e),
                ),
            }
        }
    }
}

/// What a cohort holds between two blocks: its supply, its number of unspent
/// outputs and, for each price paid, the amount bought at that price.
#[derive(Debug)]
pub struct DurableStates {
    price_in_cents_to_amount: PriceInCentsToAmount,
    pub supply_state: SupplyState,
    pub utxo_state: UTXOState,
}

impl View for DurableStates {
    type V = DurableModel;

    closed spec fn view(&self) -> DurableModel {
        DurableModel {
            amounts: self.price_in_cents_to_amount.0@,
            supply: self.supply_state.supply,
            utxo_count: self.utxo_state.count,
        }
    }
}

impl Default for DurableStates {
    fn default() -> (res: Self)
        ensures
            res@ == (DurableModel { amounts: Map::empty(), supply: 0, utxo_count: 0 }),
            res@.wf(),
    {
        let res = DurableStates {
            price_in_cents_to_amount: PriceInCentsToAmount::default(),
            supply_state: SupplyState { supply: 0 },
            utxo_state: UTXOState { count: 0 },
        };
        assert(res@.amounts.dom() =~= Set::empty());
        res
    }
}

impl DurableStates {
    /// The supply, in sats.
    pub fn supply(&self) -> (res: u64)
        ensures
            res == self@.supply,
    {
        self.supply_state.supply
    }

    /// The number of unspent outputs.
    pub fn utxo_count(&self) -> (res: usize)
        ensures
            res == self@.utxo_count,
    {
        self.utxo_state.count
    }

    /// Adds `amount` sats in `utxo_count` outputs bought at `price_in_cents`.
    /// An empty amount changes nothing, and is refused when it comes with
    /// outputs.
    pub fn increment(&mut self, amount: u64, utxo_count: usize, price_in_cents: u32) -> (res:
        Result<(), StateError>)
        requires
            old(self)@.increment_fits(amount, utxo_count, price_in_cents),
        ensures
            (final(self)@, res) == old(self)@.incremented(amount, utxo_count, price_in_cents),
            old(self)@.wf() ==> final(self)@.wf(),
    {
        let ghost before = self@;
        if amount == 0 {
            if utxo_count != 0 {
                return Err(StateError::ZeroAmountWithOutputs);
            }
        } else {
            self.supply_state.increment(amount);
            self.utxo_state.increment(utxo_count);
            self.price_in_cents_to_amount.increment(price_in_cents, amount);
            proof {
                if before.wf() {
                    lemma_incremented_wf(before, amount, utxo_count, price_in_cents);
                }
            }
        }

        Ok(())
    }

    /// Takes back `amount` sats in `utxo_count` outputs bought at
    /// `price_in_cents`. The supply, the outputs and the amount at that price
    /// are taken from in this order; the first that holds too little stops it,
    /// after those before it were taken from.
    pub fn decrement(&mut self, amount: u64, utxo_count: usize, price_in_cents: u32) -> (res:
        Result<(), StateError>)
        requires
            amount == 0 ==> utxo_count == 0,
        ensures
            (final(self)@, res) == old(self)@.decremented(amount, utxo_count, price_in_cents),
            old(self)@.wf() && res is Ok ==> final(self)@.wf(),
    {
        let ghost before = self@;
        if amount != 0 {
            match self.supply_state.decrement(amount) {
                Ok(()) => {},
                Err(e) => {
                    return Err(e);
                },
            }
            match self.utxo_state.decrement(utxo_count) {
                Ok(()) => {},
                Err(e) => {
                    return Err(e);
                },
            }
            match self.price_in_cents_to_amount.decrement(price_in_cents, amount) {
                Ok(()) => {
                    proof {
                        if before.wf() {
                            lemma_decremented_wf(before, amount, utxo_count, price_in_cents);
                        }
                    }
                },
                Err(e) => {
                    return Err(e);
                },
            }
        }

        Ok(())
    }
}

/// Adding keeps the amounts by price adding up to the supply.
pub proof fn lemma_incremented_wf(m: DurableModel, amount: u64, utxo_count: usize, cents: u32)
    requires
        m.wf(),
        m.increment_fits(amount, utxo_count, cents),
    ensures
        m.incremented(amount, utxo_count, cents).0.wf(),
{
    if amount != 0 {
        lemma_total_added_at(m.amounts, cents, amount);
    }
}

/// Taking back, when accepted, keeps the amounts by price adding up to the
/// supply.
pub proof fn lemma_decremented_wf(m: DurableModel, amount: u64, utxo_count: usize, cents: u32)
    requires
        m.wf(),
        m.decremented(amount, utxo_count, cents).1 is Ok,
    ensures
        m.decremented(amount, utxo_count, cents).0.wf(),
{
    if amount != 0 {
        lemma_total_taken_at(m.amounts, cents, amount);
    }
}

/// On a state whose amounts add up to its supply, room in the supply and in
/// the outputs is room at every price.
pub proof fn lemma_increment_fits(m: DurableModel, amount: u64, utxo_count: usize, cents: u32)
    requires
        m.wf(),
        m.supply + amount <= u64::MAX,
        m.utxo_count + utxo_count <= usize::MAX,
    ensures
        m.increment_fits(amount, utxo_count, cents),
{
    if m.amounts.contains_key(cents) {
        lemma_total_bounds(m.amounts, cents);
    }
}

/// Taking back what was just added restores the state: adding `amount` sats
/// in `utxo_count` outputs at `cents`, then taking the same back, gives the
/// state of before, and both are accepted.
pub proof fn lemma_increment_then_decrement(
    m: DurableModel,
    amount: u64,
    utxo_count: usize,
    cents: u32,
)
    requires
        m.wf(),
        m.increment_fits(amount, utxo_count, cents),
        amount != 0 || utxo_count == 0,
    ensures
        m.incremented(amount, utxo_count, cents).1 is Ok,
        m.incremented(amount, utxo_count, cents).0.decremented(amount, utxo_count, cents) == (
            m,
            Ok::<(), StateError>(()),
        ),
{
    if amount != 0 {
        let after = m.incremented(amount, utxo_count, cents).0;
        if m.amounts.contains_key(cents) {
            assert(after.amounts[cents] == m.amounts[cents] + amount);
            assert(after.amounts.insert(cents, m.amounts[cents]) =~= m.amounts);
        } else {
            assert(after.amounts.remove(cents) =~= m.amounts);
        }
    }
}

/// Adding back what was just taken restores the state: taking back `amount`
/// sats in `utxo_count` outputs at `cents`, when accepted, then adding the
/// same, gives the state of before, and the addition is accepted.
pub proof fn lemma_decrement_then_increment(
    m: DurableModel,
    amount: u64,
    utxo_count: usize,
    cents: u32,
)
    requires
        m.wf(),
        amount == 0 ==> utxo_count == 0,
        m.decremented(amount, utxo_count, cents).1 is Ok,
    ensures
        m.decremented(amount, utxo_count, cents).0.increment_fits(amount, utxo_count, cents),
        m.decremented(amount, utxo_count, cents).0.incremented(amount, utxo_count, cents) == (
            m,
            Ok::<(), StateError>(()),
        ),
{
    if amount != 0 {
        let mid = m.decremented(amount, utxo_count, cents).0;
        if m.amounts[cents] == amount {
            assert(mid.amounts.insert(cents, amount) =~= m.amounts);
        } else {
            assert(mid.amounts.insert(cents, m.amounts[cents]) =~= m.amounts);
        }
    }
}

} // verus!

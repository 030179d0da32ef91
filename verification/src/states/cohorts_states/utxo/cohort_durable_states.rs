use vstd::prelude::*;

use crate::states::cohorts_states::address::cohort_durable_states::{
    durable_step,
    durable_step_admits,
};
use crate::states::cohorts_states::any::durable_states::{
    lemma_decremented_wf,
    lemma_increment_then_decrement,
    lemma_incremented_wf,
    DurableModel,
    DurableStates,
};

use crate::states::cohorts_states::any::price_in_cents_to_value::{
    value_added_at,
    value_fits,
    value_taken_at,
    PriceInCentsToValue,
};
use crate::states::state_error::StateError;

verus! {

/// What a cohort of outputs holds, as values.
pub struct UTXOCohortModel {
    pub durable: DurableModel,
    pub cents: Map<u32, u64>,
}

impl UTXOCohortModel {
    /// The state is consistent, and both records of the amount by price
    /// agree, but for prices kept here with nothing held at them.
    pub open spec fn wf(self) -> bool {
        &&& self.durable.wf()
        &&& forall|cents: u32| #[trigger] self.durable.amounts.contains_key(cents)
            ==> self.cents.contains_key(cents) && self.cents[cents] == self.durable.amounts[cents]
        &&& forall|cents: u32| #[trigger] self.cents.contains_key(cents) && self.cents[cents] != 0
            ==> self.durable.amounts.contains_key(cents)
    }

    /// The cohort after adding (`increment`) or taking back `amount` sats in
    /// `utxo_count` outputs bought at `price_in_cents`, and the answer. The
    /// amount by price is changed first; when it refuses, nothing else is.
    pub open spec fn cremented(
        self,
        amount: u64,
        utxo_count: usize,
        price_in_cents: u32,
        increment: bool,
    ) -> (UTXOCohortModel, Result<(), StateError>) {
        let (cents, r) = if increment {
            (value_added_at(self.cents, price_in_cents, amount), Ok(()))
        } else {
            value_taken_at(self.cents, price_in_cents, amount)
        };
        if r is Err {
            (UTXOCohortModel { durable: self.durable, cents }, r)
        } else {
            let (durable, r) = durable_step(
                self.durable,
                amount,
                utxo_count,
                price_in_cents,
                increment,
            );
            (UTXOCohortModel { durable, cents }, r)
        }
    }

    /// Whether every step that `cremented` reaches can run.
    pub open spec fn crement_admits(
        self,
        amount: u64,
        utxo_count: usize,
        price_in_cents: u32,
        increment: bool,
    ) -> bool {
        if increment {
            &&& value_fits(self.cents, price_in_cents, amount)
            &&& durable_step_admits(self.durable, amount, utxo_count, price_in_cents, true)
        } else {
            value_taken_at(self.cents, price_in_cents, amount).1 is Ok ==> durable_step_admits(
                self.durable,
                amount,
                utxo_count,
                price_in_cents,
                false,
            )
        }
    }
}

/// What a cohort of outputs holds: its durable states, and the amount
/// bought at each price.
#[derive(Debug)]
pub struct UTXOCohortDurableStates {
    pub durable_states: DurableStates,
    pub cents_to_amount: PriceInCentsToValue<u64>,
}

impl View for UTXOCohortDurableStates {
    type V = UTXOCohortModel;

    open spec fn view(&self) -> UTXOCohortModel {
        UTXOCohortModel { durable: self.durable_states@, cents: self.cents_to_amount.0@ }
    }
}

impl Default for UTXOCohortDurableStates {
    fn default() -> (res: Self)
        ensures
            res@.cents == Map::<u32, u64>::empty(),
            res@.durable.supply == 0,
            res@.durable.utxo_count == 0,
            res@.wf(),
    {
        UTXOCohortDurableStates {
            durable_states: DurableStates::default(),
            cents_to_amount: PriceInCentsToValue::default(),
        }
    }
}

impl UTXOCohortDurableStates {
    /// Adds `amount` sats in `utxo_count` outputs bought at `price_in_cents`.
    pub fn increment(&mut self, amount: u64, utxo_count: usize, price_in_cents: u32) -> (res:
        Result<(), StateError>)
        requires
            old(self)@.crement_admits(amount, utxo_count, price_in_cents, true),
        ensures
            (final(self)@, res) == old(self)@.cremented(amount, utxo_count, price_in_cents, true),
            old(self)@.wf() && res is Ok ==> final(self)@.wf(),
    {
        self._crement(amount, utxo_count, price_in_cents, true)
    }

    /// Takes back `amount` sats in `utxo_count` outputs bought at
    /// `price_in_cents`.
    pub fn decrement(&mut self, amount: u64, utxo_count: usize, price_in_cents: u32) -> (res:
        Result<(), StateError>)
        requires
            old(self)@.crement_admits(amount, utxo_count, price_in_cents, false),
        ensures
            (final(self)@, res) == old(self)@.cremented(amount, utxo_count, price_in_cents, false),
            old(self)@.wf() && res is Ok ==> final(self)@.wf(),
    {
        self._crement(amount, utxo_count, price_in_cents, false)
    }

    /// Adds (`increment`) or takes back, as `cremented` says.
    pub fn _crement(
        &mut self,
        amount: u64,
        utxo_count: usize,
        price_in_cents: u32,
        increment: bool,
    ) -> (res: Result<(), StateError>)
        requires
            old(self)@.crement_admits(amount, utxo_count, price_in_cents, increment),
        ensures
            (final(self)@, res) == old(self)@.cremented(
                amount,
                utxo_count,
                price_in_cents,
                increment,
            ),
            old(self)@.wf() && res is Ok ==> final(self)@.wf(),
    {
        let ghost before = self@;

        if increment {
            self.cents_to_amount.increment(price_in_cents, amount);
        } else {
            if let Err(e) = self.cents_to_amount.decrement(price_in_cents, amount) {
                return Err(e);
            }
        }

        let res = if increment {
            self.durable_states.increment(amount, utxo_count, price_in_cents)
        } else {
            self.durable_states.decrement(amount, utxo_count, price_in_cents)
        };

        proof {
            if before.wf() && res is Ok {
                lemma_crement_keeps_wf(before, amount, utxo_count, price_in_cents, increment);
            }
        }

        res
    }
}

/// A change that both records accepted keeps them consistent and in
/// agreement.
proof fn lemma_crement_keeps_wf(
    m: UTXOCohortModel,
    amount: u64,
    utxo_count: usize,
    price_in_cents: u32,
    increment: bool,
)
    requires
        m.wf(),
        m.crement_admits(amount, utxo_count, price_in_cents, increment),
        m.cremented(amount, utxo_count, price_in_cents, increment).1 is Ok,
    ensures
        m.cremented(amount, utxo_count, price_in_cents, increment).0.wf(),
{
    let after = m.cremented(amount, utxo_count, price_in_cents, increment).0;
    if increment {
        lemma_incremented_wf(m.durable, amount, utxo_count, price_in_cents);
        assert forall|cents: u32| #[trigger] after.durable.amounts.contains_key(cents) implies after.cents.contains_key(cents)
            && after.cents[cents] == after.durable.amounts[cents] by {
            if cents != price_in_cents {
                assert(m.durable.amounts.contains_key(cents));
            }
        }
        assert forall|cents: u32| #[trigger] after.cents.contains_key(cents) && after.cents[cents] != 0
            implies after.durable.amounts.contains_key(cents) by {
            if cents != price_in_cents {
                assert(m.cents.contains_key(cents));
            }
        }
    } else {
        lemma_decremented_wf(m.durable, amount, utxo_count, price_in_cents);
        assert forall|cents: u32| #[trigger] after.durable.amounts.contains_key(cents) implies after.cents.contains_key(cents)
            && after.cents[cents] == after.durable.amounts[cents] by {
            assert(m.durable.amounts.contains_key(cents));
        }
        assert forall|cents: u32| #[trigger] after.cents.contains_key(cents) && after.cents[cents] != 0
            implies after.durable.amounts.contains_key(cents) by {
            assert(m.cents.contains_key(cents));
        }
    }
}

/// Taking back what was just added restores the cohort: adding `amount`
/// sats in `utxo_count` outputs at `price_in_cents`, then taking the same
/// back, gives the cohort of before, and both are accepted. (A price kept
/// with nothing at it would be forgotten on the way.)
pub proof fn lemma_utxo_increment_then_decrement(
    m: UTXOCohortModel,
    amount: u64,
    utxo_count: usize,
    price_in_cents: u32,
)
    requires
        m.wf(),
        m.crement_admits(amount, utxo_count, price_in_cents, true),
        amount != 0,
        m.cents.contains_key(price_in_cents) ==> m.cents[price_in_cents] != 0,
    ensures
        m.cremented(amount, utxo_count, price_in_cents, true).1 is Ok,
        m.cremented(amount, utxo_count, price_in_cents, true).0.cremented(
            amount,
            utxo_count,
            price_in_cents,
            false,
        ) == (m, Ok::<(), StateError>(())),
{
    lemma_increment_then_decrement(m.durable, amount, utxo_count, price_in_cents);
    let after = m.cremented(amount, utxo_count, price_in_cents, true).0;
    if m.cents.contains_key(price_in_cents) {
        assert(m.durable.amounts.contains_key(price_in_cents));
        assert(after.cents.insert(price_in_cents, m.cents[price_in_cents]) =~= m.cents);
    } else {
        assert(after.cents.remove(price_in_cents) =~= m.cents);
    }
}

} // verus!

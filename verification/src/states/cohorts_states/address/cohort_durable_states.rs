use vstd::prelude::*;

use crate::states::cohorts_states::any::durable_states::{
    lemma_decrement_then_increment,
    lemma_decremented_wf,
    lemma_increment_then_decrement,
    lemma_incremented_wf,
    DurableModel,
    DurableStates,
};
use crate::states::cohorts_states::any::price_in_cents_to_value::{
    value_added_at,
    value_fits,
    value_taken_at,
    Additive,
    IsZero,
    PriceInCentsToValue,
};
use crate::states::state_error::StateError;
use crate::structs::split_by_liquidity::{LiquiditySplitResult, SplitByLiquidity};

verus! {

/// An amount split between the liquidity classes: the illiquid and liquid
/// shares as given, the highly liquid class takes the rest.
pub open spec fn split_amount(amount: u64, shares: LiquiditySplitResult) -> SplitByLiquidity<u64> {
    SplitByLiquidity {
        all: amount,
        illiquid: shares.illiquid,
        liquid: shares.liquid,
        highly_liquid: (amount - shares.illiquid - shares.liquid) as u64,
    }
}

/// A number of outputs split between the liquidity classes, as
/// `split_amount` does.
pub open spec fn split_count(count: usize, shares: LiquiditySplitResult) -> SplitByLiquidity<
    usize,
> {
    SplitByLiquidity {
        all: count,
        illiquid: shares.illiquid as usize,
        liquid: shares.liquid as usize,
        highly_liquid: (count - shares.illiquid - shares.liquid) as usize,
    }
}

/// The illiquid and liquid shares together are no more than the whole.
pub open spec fn shares_fit(whole: int, shares: LiquiditySplitResult) -> bool {
    shares.illiquid + shares.liquid <= whole
}

/// One cohort state after adding or taking back an amount.
pub open spec fn durable_step(
    m: DurableModel,
    amount: u64,
    count: usize,
    cents: u32,
    increment: bool,
) -> (DurableModel, Result<(), StateError>) {
    if increment {
        m.incremented(amount, count, cents)
    } else {
        m.decremented(amount, count, cents)
    }
}

/// Whether that step can run: no overflow when adding, and no outputs
/// without an amount when taking back.
pub open spec fn durable_step_admits(
    m: DurableModel,
    amount: u64,
    count: usize,
    cents: u32,
    increment: bool,
) -> bool {
    if increment {
        m.increment_fits(amount, count, cents)
    } else {
        amount == 0 ==> count == 0
    }
}

/// The split amounts by price after adding or taking back a split amount.
pub open spec fn cents_step(
    m: Map<u32, SplitByLiquidity<u64>>,
    cents: u32,
    value: SplitByLiquidity<u64>,
    increment: bool,
) -> (Map<u32, SplitByLiquidity<u64>>, Result<(), StateError>) {
    if increment {
        (value_added_at(m, cents, value), Ok(()))
    } else {
        value_taken_at(m, cents, value)
    }
}

/// What an address cohort holds, as values.
pub struct AddressCohortModel {
    pub address_count: usize,
    pub split: SplitByLiquidity<DurableModel>,
    pub cents: Map<u32, SplitByLiquidity<u64>>,
}

impl AddressCohortModel {
    /// Each class's state is consistent, the classes add up to the whole in
    /// supply and in outputs, and every split amount by price adds up to its
    /// whole.
    pub open spec fn wf(self) -> bool {
        &&& self.split.all.wf()
        &&& self.split.illiquid.wf()
        &&& self.split.liquid.wf()
        &&& self.split.highly_liquid.wf()
        &&& self.split.illiquid.supply + self.split.liquid.supply + self.split.highly_liquid.supply
            == self.split.all.supply
        &&& self.split.illiquid.utxo_count + self.split.liquid.utxo_count
            + self.split.highly_liquid.utxo_count == self.split.all.utxo_count
        &&& forall|c: u32| #[trigger] self.cents.contains_key(c) ==> self.cents[c].is_whole()
    }

    /// The same cohort with other class states and split amounts.
    pub open spec fn with(
        self,
        all: DurableModel,
        illiquid: DurableModel,
        liquid: DurableModel,
        highly_liquid: DurableModel,
        cents: Map<u32, SplitByLiquidity<u64>>,
    ) -> AddressCohortModel {
        AddressCohortModel {
            address_count: self.address_count,
            split: SplitByLiquidity { all, illiquid, liquid, highly_liquid },
            cents,
        }
    }

    /// The same cohort with another number of addresses.
    pub open spec fn with_address_count(self, address_count: usize) -> AddressCohortModel {
        AddressCohortModel { address_count, split: self.split, cents: self.cents }
    }

    /// The cohort after adding (`increment`) or taking back `amount` sats in
    /// `utxo_count` outputs bought at `cents`, split by the given shares, and
    /// the answer. The whole, the split amounts by price, then the illiquid,
    /// liquid and highly liquid classes are changed in this order; the first
    /// that refuses stops it, after those before it were changed.
    pub open spec fn cremented(
        self,
        amount: u64,
        utxo_count: usize,
        cents: u32,
        split_amount_result: LiquiditySplitResult,
        split_utxo_count_result: LiquiditySplitResult,
        increment: bool,
    ) -> (AddressCohortModel, Result<(), StateError>) {
        let s = self.split;
        let amounts = split_amount(amount, split_amount_result);
        let counts = split_count(utxo_count, split_utxo_count_result);
        let (all, r) = durable_step(s.all, amount, utxo_count, cents, increment);
        if r is Err {
            (self.with(all, s.illiquid, s.liquid, s.highly_liquid, self.cents), r)
        } else {
            let (map, r) = cents_step(self.cents, cents, amounts, increment);
            if r is Err {
                (self.with(all, s.illiquid, s.liquid, s.highly_liquid, map), r)
            } else {
                let (illiquid, r) = durable_step(
                    s.illiquid,
                    amounts.illiquid,
                    counts.illiquid,
                    cents,
                    increment,
                );
                if r is Err {
                    (self.with(all, illiquid, s.liquid, s.highly_liquid, map), r)
                } else {
                    let (liquid, r) = durable_step(
                        s.liquid,
                        amounts.liquid,
                        counts.liquid,
                        cents,
                        increment,
                    );
                    if r is Err {
                        (self.with(all, illiquid, liquid, s.highly_liquid, map), r)
                    } else {
                        let (highly_liquid, r) = durable_step(
                            s.highly_liquid,
                            amounts.highly_liquid,
                            counts.highly_liquid,
                            cents,
                            increment,
                        );
                        (self.with(all, illiquid, liquid, highly_liquid, map), r)
                    }
                }
            }
        }
    }

    /// Whether every step that `cremented` reaches can run: no overflow, no
    /// outputs without an amount when taking back, and shares no larger than
    /// the whole.
    pub open spec fn crement_admits(
        self,
        amount: u64,
        utxo_count: usize,
        cents: u32,
        split_amount_result: LiquiditySplitResult,
        split_utxo_count_result: LiquiditySplitResult,
        increment: bool,
    ) -> bool {
        let s = self.split;
        let amounts = split_amount(amount, split_amount_result);
        let counts = split_count(utxo_count, split_utxo_count_result);
        let (all, r_all) = durable_step(s.all, amount, utxo_count, cents, increment);
        let (map, r_map) = cents_step(self.cents, cents, amounts, increment);
        let (illiquid, r_illiquid) = durable_step(
            s.illiquid,
            amounts.illiquid,
            counts.illiquid,
            cents,
            increment,
        );
        let (liquid, r_liquid) = durable_step(
            s.liquid,
            amounts.liquid,
            counts.liquid,
            cents,
            increment,
        );
        &&& durable_step_admits(s.all, amount, utxo_count, cents, increment)
        &&& r_all is Ok ==> {
            &&& shares_fit(amount as int, split_amount_result)
            &&& shares_fit(utxo_count as int, split_utxo_count_result)
            &&& increment ==> value_fits(self.cents, cents, amounts)
            &&& r_map is Ok ==> {
                &&& durable_step_admits(
                    s.illiquid,
                    amounts.illiquid,
                    counts.illiquid,
                    cents,
                    increment,
                )
                &&& r_illiquid is Ok ==> {
                    &&& durable_step_admits(
                        s.liquid,
                        amounts.liquid,
                        counts.liquid,
                        cents,
                        increment,
                    )
                    &&& r_liquid is Ok ==> durable_step_admits(
                        s.highly_liquid,
                        amounts.highly_liquid,
                        counts.highly_liquid,
                        cents,
                        increment,
                    )
                }
            }
        }
    }
}

/// What an address cohort holds: its number of addresses, the durable states
/// of the whole and of each liquidity class, and the split amount bought at
/// each price.
#[derive(Debug)]
pub struct AddressCohortDurableStates {
    pub address_count: usize,
    pub split_durable_states: SplitByLiquidity<DurableStates>,
    pub cents_to_split_amount: PriceInCentsToValue<SplitByLiquidity<u64>>,
}

impl View for AddressCohortDurableStates {
    type V = AddressCohortModel;

    open spec fn view(&self) -> AddressCohortModel {
        AddressCohortModel {
            address_count: self.address_count,
            split: SplitByLiquidity {
                all: self.split_durable_states.all@,
                illiquid: self.split_durable_states.illiquid@,
                liquid: self.split_durable_states.liquid@,
                highly_liquid: self.split_durable_states.highly_liquid@,
            },
            cents: self.cents_to_split_amount.0@,
        }
    }
}

impl Default for AddressCohortDurableStates {
    fn default() -> (res: Self)
        ensures
            res@.address_count == 0,
            res@.split.all.supply == 0,
            res@.cents == Map::<u32, SplitByLiquidity<u64>>::empty(),
            res@.wf(),
    {
        AddressCohortDurableStates {
            address_count: 0,
            split_durable_states: SplitByLiquidity {
                all: DurableStates::default(),
                illiquid: DurableStates::default(),
                liquid: DurableStates::default(),
                highly_liquid: DurableStates::default(),
            },
            cents_to_split_amount: PriceInCentsToValue::default(),
        }
    }
}

impl AddressCohortDurableStates {
    /// One more address in the cohort, holding `amount` sats in `utxo_count`
    /// outputs bought on average at `mean_cents_paid`.
    pub fn increment(
        &mut self,
        amount: u64,
        utxo_count: usize,
        mean_cents_paid: u32,
        split_amount: &LiquiditySplitResult,
        split_utxo_count: &LiquiditySplitResult,
    ) -> (res: Result<(), StateError>)
        requires
            old(self).address_count < usize::MAX,
            old(self)@.crement_admits(
                amount,
                utxo_count,
                mean_cents_paid,
                *split_amount,
                *split_utxo_count,
                true,
            ),
        ensures
            (final(self)@, res) == old(self)@.with_address_count(
                (old(self)@.address_count + 1) as usize,
            ).cremented(
                amount,
                utxo_count,
                mean_cents_paid,
                *split_amount,
                *split_utxo_count,
                true,
            ),
            old(self)@.wf() && res is Ok ==> final(self)@.wf(),
    {
        self.address_count += 1;

        self._crement(amount, utxo_count, mean_cents_paid, split_amount, split_utxo_count, true)
    }

    /// One address less in the cohort, which held `amount` sats in
    /// `utxo_count` outputs bought on average at `mean_cents_paid`.
    pub fn decrement(
        &mut self,
        amount: u64,
        utxo_count: usize,
        mean_cents_paid: u32,
        split_amount: &LiquiditySplitResult,
        split_utxo_count: &LiquiditySplitResult,
    ) -> (res: Result<(), StateError>)
        requires
            old(self).address_count > 0,
            old(self)@.crement_admits(
                amount,
                utxo_count,
                mean_cents_paid,
                *split_amount,
                *split_utxo_count,
                false,
            ),
        ensures
            (final(self)@, res) == old(self)@.with_address_count(
                (old(self)@.address_count - 1) as usize,
            ).cremented(
                amount,
                utxo_count,
                mean_cents_paid,
                *split_amount,
                *split_utxo_count,
                false,
            ),
            old(self)@.wf() && res is Ok ==> final(self)@.wf(),
    {
        self.address_count -= 1;

        self._crement(amount, utxo_count, mean_cents_paid, split_amount, split_utxo_count, false)
    }

    /// Adds (`increment`) or takes back `amount` sats in `utxo_count` outputs
    /// bought at `mean_cents_paid`, to the whole and to each liquidity class
    /// by the given shares, as `cremented` says.
    pub fn _crement(
        &mut self,
        amount: u64,
        utxo_count: usize,
        mean_cents_paid: u32,
        split_amount_result: &LiquiditySplitResult,
        split_utxo_count_result: &LiquiditySplitResult,
        increment: bool,
    ) -> (res: Result<(), StateError>)
        requires
            old(self)@.crement_admits(
                amount,
                utxo_count,
                mean_cents_paid,
                *split_amount_result,
                *split_utxo_count_result,
                increment,
            ),
        ensures
            (final(self)@, res) == old(self)@.cremented(
                amount,
                utxo_count,
                mean_cents_paid,
                *split_amount_result,
                *split_utxo_count_result,
                increment,
            ),
            old(self)@.wf() && res is Ok ==> final(self)@.wf(),
    {
        let ghost before = self@;

        let res_all = if increment {
            self.split_durable_states.all.increment(amount, utxo_count, mean_cents_paid)
        } else {
            self.split_durable_states.all.decrement(amount, utxo_count, mean_cents_paid)
        };
        if let Err(e) = res_all {
            return Err(e);
        }

        let illiquid_amount = split_amount_result.illiquid;
        let liquid_amount = split_amount_result.liquid;
        let highly_liquid_amount = amount - illiquid_amount - liquid_amount;

        let illiquid_utxo_count = split_utxo_count_result.illiquid as usize;
        let liquid_utxo_count = split_utxo_count_result.liquid as usize;
        let highly_liquid_utxo_count = utxo_count - illiquid_utxo_count - liquid_utxo_count;

        let split_amount = SplitByLiquidity {
            all: amount,
            illiquid: illiquid_amount,
            liquid: liquid_amount,
            highly_liquid: highly_liquid_amount,
        };

        if increment {
            self.cents_to_split_amount.increment(mean_cents_paid, split_amount);
        } else {
            if let Err(e) = self.cents_to_split_amount.decrement(mean_cents_paid, split_amount) {
                return Err(e);
            }
        }

        let res_illiquid = if increment {
            self.split_durable_states.illiquid.increment(
                illiquid_amount,
                illiquid_utxo_count,
                mean_cents_paid,
            )
        } else {
            self.split_durable_states.illiquid.decrement(
                illiquid_amount,
                illiquid_utxo_count,
                mean_cents_paid,
            )
        };
        if let Err(e) = res_illiquid {
            return Err(e);
        }

        let res_liquid = if increment {
            self.split_durable_states.liquid.increment(
                liquid_amount,
                liquid_utxo_count,
                mean_cents_paid,
            )
        } else {
            self.split_durable_states.liquid.decrement(
                liquid_amount,
                liquid_utxo_count,
                mean_cents_paid,
            )
        };
        if let Err(e) = res_liquid {
            return Err(e);
        }

        let res_highly_liquid = if increment {
            self.split_durable_states.highly_liquid.increment(
                highly_liquid_amount,
                highly_liquid_utxo_count,
                mean_cents_paid,
            )
        } else {
            self.split_durable_states.highly_liquid.decrement(
                highly_liquid_amount,
                highly_liquid_utxo_count,
                mean_cents_paid,
            )
        };
        if let Err(e) = res_highly_liquid {
            return Err(e);
        }

        proof {
            lemma_crement_keeps_wf(
                before,
                amount,
                utxo_count,
                mean_cents_paid,
                *split_amount_result,
                *split_utxo_count_result,
                increment,
            );
        }

        Ok(())
    }
}

/// A change that every class accepted keeps the classes adding up to the
/// whole.
proof fn lemma_crement_keeps_wf(
    m: AddressCohortModel,
    amount: u64,
    utxo_count: usize,
    cents: u32,
    split_amount_result: LiquiditySplitResult,
    split_utxo_count_result: LiquiditySplitResult,
    increment: bool,
)
    requires
        m.crement_admits(
            amount,
            utxo_count,
            cents,
            split_amount_result,
            split_utxo_count_result,
            increment,
        ),
        m.cremented(
            amount,
            utxo_count,
            cents,
            split_amount_result,
            split_utxo_count_result,
            increment,
        ).1 is Ok,
    ensures
        m.wf() ==> m.cremented(
            amount,
            utxo_count,
            cents,
            split_amount_result,
            split_utxo_count_result,
            increment,
        ).0.wf(),
{
    let s = m.split;
    let amounts = split_amount(amount, split_amount_result);
    let counts = split_count(utxo_count, split_utxo_count_result);
    let (all, _) = durable_step(s.all, amount, utxo_count, cents, increment);
    let (map, _) = cents_step(m.cents, cents, amounts, increment);
    if m.wf() {
        assert(amounts.is_whole());
        assert(counts.illiquid + counts.liquid + counts.highly_liquid == counts.all);
        if increment {
            lemma_incremented_wf(s.all, amount, utxo_count, cents);
            lemma_incremented_wf(s.illiquid, amounts.illiquid, counts.illiquid, cents);
            lemma_incremented_wf(s.liquid, amounts.liquid, counts.liquid, cents);
            lemma_incremented_wf(s.highly_liquid, amounts.highly_liquid, counts.highly_liquid, cents);
            assert forall|c: u32| #[trigger] map.contains_key(c) implies map[c].is_whole() by {
                if c != cents {
                    assert(m.cents.contains_key(c));
                }
            }
        } else {
            lemma_decremented_wf(s.all, amount, utxo_count, cents);
            lemma_decremented_wf(s.illiquid, amounts.illiquid, counts.illiquid, cents);
            lemma_decremented_wf(s.liquid, amounts.liquid, counts.liquid, cents);
            lemma_decremented_wf(s.highly_liquid, amounts.highly_liquid, counts.highly_liquid, cents);
            assert forall|c: u32| #[trigger] map.contains_key(c) implies map[c].is_whole() by {
                assert(m.cents.contains_key(c));
            }
        }
    }
}


/// Taking an address's change back right after it was made restores the
/// cohort: adding `amount` sats in `utxo_count` outputs at `cents` with the
/// given shares, when every class accepts it, then taking the same back,
/// gives the cohort of before, and every class accepts that too. (A price
/// kept with an empty split at it would be forgotten on the way.)
pub proof fn lemma_crement_then_uncrement(
    m: AddressCohortModel,
    amount: u64,
    utxo_count: usize,
    cents: u32,
    split_amount_result: LiquiditySplitResult,
    split_utxo_count_result: LiquiditySplitResult,
)
    requires
        m.wf(),
        m.crement_admits(
            amount,
            utxo_count,
            cents,
            split_amount_result,
            split_utxo_count_result,
            true,
        ),
        m.cremented(
            amount,
            utxo_count,
            cents,
            split_amount_result,
            split_utxo_count_result,
            true,
        ).1 is Ok,
        m.cents.contains_key(cents) ==> m.cents[cents].all != 0,
    ensures
        m.cremented(
            amount,
            utxo_count,
            cents,
            split_amount_result,
            split_utxo_count_result,
            true,
        ).0.cremented(
            amount,
            utxo_count,
            cents,
            split_amount_result,
            split_utxo_count_result,
            false,
        ) == (m, Ok::<(), StateError>(())),
{
    let s = m.split;
    let amounts = split_amount(amount, split_amount_result);
    let counts = split_count(utxo_count, split_utxo_count_result);
    let after = m.cremented(
        amount,
        utxo_count,
        cents,
        split_amount_result,
        split_utxo_count_result,
        true,
    ).0;
    lemma_increment_then_decrement(s.all, amount, utxo_count, cents);
    lemma_increment_then_decrement(s.illiquid, amounts.illiquid, counts.illiquid, cents);
    lemma_increment_then_decrement(s.liquid, amounts.liquid, counts.liquid, cents);
    lemma_increment_then_decrement(s.highly_liquid, amounts.highly_liquid, counts.highly_liquid, cents);
    if m.cents.contains_key(cents) {
        assert(after.cents.insert(cents, m.cents[cents]) =~= m.cents);
    } else {
        assert(after.cents.remove(cents) =~= m.cents);
    }
}

/// Adding back an address's change right after it was taken back restores
/// the cohort: taking back `amount` sats in `utxo_count` outputs at `cents`
/// with the given shares, when every class accepts it, then adding the same,
/// gives the cohort of before, and every class accepts that too.
pub proof fn lemma_uncrement_then_crement(
    m: AddressCohortModel,
    amount: u64,
    utxo_count: usize,
    cents: u32,
    split_amount_result: LiquiditySplitResult,
    split_utxo_count_result: LiquiditySplitResult,
)
    requires
        m.wf(),
        m.crement_admits(
            amount,
            utxo_count,
            cents,
            split_amount_result,
            split_utxo_count_result,
            false,
        ),
        m.cremented(
            amount,
            utxo_count,
            cents,
            split_amount_result,
            split_utxo_count_result,
            false,
        ).1 is Ok,
    ensures
        ({
            let mid = m.cremented(
                amount,
                utxo_count,
                cents,
                split_amount_result,
                split_utxo_count_result,
                false,
            ).0;
            &&& mid.crement_admits(
                amount,
                utxo_count,
                cents,
                split_amount_result,
                split_utxo_count_result,
                true,
            )
            &&& mid.cremented(
                amount,
                utxo_count,
                cents,
                split_amount_result,
                split_utxo_count_result,
                true,
            ) == (m, Ok::<(), StateError>(()))
        }),
{
    let s = m.split;
    let amounts = split_amount(amount, split_amount_result);
    let counts = split_count(utxo_count, split_utxo_count_result);
    lemma_decrement_then_increment(s.all, amount, utxo_count, cents);
    lemma_decrement_then_increment(s.illiquid, amounts.illiquid, counts.illiquid, cents);
    lemma_decrement_then_increment(s.liquid, amounts.liquid, counts.liquid, cents);
    lemma_decrement_then_increment(s.highly_liquid, amounts.highly_liquid, counts.highly_liquid, cents);
    let mid = m.cremented(
        amount,
        utxo_count,
        cents,
        split_amount_result,
        split_utxo_count_result,
        false,
    ).0;
    let v = m.cents[cents];
    if v.spec_minus(&amounts).spec_is_zero() == Ok::<bool, StateError>(true) {
        assert(mid.cents.insert(cents, amounts) =~= m.cents);
    } else {
        assert(mid.cents.insert(cents, v) =~= m.cents);
    }
}

} // verus!

use vstd::prelude::*;

use crate::structs::address_split::{AddressSize, AddressSplit, AddressType};
use crate::structs::split_by_liquidity::LiquiditySplitResult;

use super::cohort_durable_states::{
    lemma_uncrement_then_crement,
    AddressCohortDurableStates,
    AddressCohortModel,
};
use super::split_by_address_cohort::{belongs_to, SplitByAddressCohort};

verus! {

/// What an address brings to the cohorts it belongs to: its type and size,
/// the amount and number of outputs it holds, the mean price paid, and how
/// these are split between the liquidity classes.
#[derive(Debug, Clone, Copy, PartialEq, Eq, Structural)]
pub struct AddressCohortInput {
    pub address_type: AddressType,
    pub address_size: AddressSize,
    pub amount: u64,
    pub utxo_count: usize,
    pub mean_cents_paid: u32,
    pub split_amount: LiquiditySplitResult,
    pub split_utxo_count: LiquiditySplitResult,
}

/// Whether an address changes the cohort `split`: it must hold something,
/// and belong to that cohort. An empty address is neither added nor taken
/// out.
pub open spec fn touched(split: AddressSplit, input: AddressCohortInput) -> bool {
    input.amount != 0 && belongs_to(split, input.address_type, input.address_size)
}

/// A cohort after one address came in (`increment`) or left, as
/// `AddressCohortDurableStates::increment` and `decrement` leave it.
pub open spec fn cohort_cremented(
    cohort: AddressCohortModel,
    input: AddressCohortInput,
    increment: bool,
) -> AddressCohortModel {
    let count = if increment {
        (cohort.address_count + 1) as usize
    } else {
        (cohort.address_count - 1) as usize
    };
    cohort.with_address_count(count).cremented(
        input.amount,
        input.utxo_count,
        input.mean_cents_paid,
        input.split_amount,
        input.split_utxo_count,
        increment,
    ).0
}

/// Whether a cohort can take one address in (`increment`) or out.
pub open spec fn cohort_admits(
    cohort: AddressCohortModel,
    input: AddressCohortInput,
    increment: bool,
) -> bool {
    &&& increment ==> cohort.address_count < usize::MAX
    &&& !increment ==> cohort.address_count > 0
    &&& cohort.crement_admits(
        input.amount,
        input.utxo_count,
        input.mean_cents_paid,
        input.split_amount,
        input.split_utxo_count,
        increment,
    )
}

/// The durable states of every address cohort.
#[derive(Debug, Default)]
pub struct AddressCohortsDurableStates(pub SplitByAddressCohort<AddressCohortDurableStates>);

/// A cohort after an address left it as it was (`initial`) and came back as
/// it is now (`current`), each change applied only where the address
/// belongs.
pub open spec fn cohort_moved(
    cohort: AddressCohortModel,
    split: AddressSplit,
    initial: AddressCohortInput,
    current: AddressCohortInput,
) -> AddressCohortModel {
    let left = if touched(split, initial) {
        cohort_cremented(cohort, initial, false)
    } else {
        cohort
    };
    if touched(split, current) {
        cohort_cremented(left, current, true)
    } else {
        left
    }
}

impl AddressCohortsDurableStates {
    /// An address changed: it leaves the cohorts it belonged to as it was
    /// (`initial`), then joins those it belongs to as it is now (`current`).
    pub fn iterate(&mut self, initial: &AddressCohortInput, current: &AddressCohortInput)
        requires
            forall|split: AddressSplit|
                #[trigger] old(self).0.cohort(split) is Some ==> {
                    let c = old(self).0.cohort(split)->0@;
                    let in_initial = touched(split, *initial);
                    let left = if in_initial {
                        cohort_cremented(c, *initial, false)
                    } else {
                        c
                    };
                    &&& in_initial ==> cohort_admits(c, *initial, false)
                    &&& touched(split, *current)
                        ==> cohort_admits(left, *current, true)
                },
        ensures
            forall|split: AddressSplit|
                match #[trigger] old(self).0.cohort(split) {
                    Some(c) => {
                        &&& final(self).0.cohort(split) is Some
                        &&& final(self).0.cohort(split)->0@ == cohort_moved(
                            c@,
                            split,
                            *initial,
                            *current,
                        )
                    },
                    None => final(self).0.cohort(split) is None,
                },
    {
        let ghost start = self.0;
        self.decrement(initial);
        let ghost middle = self.0;
        assert forall|split: AddressSplit|
            touched(split, *current)
                && #[trigger] middle.cohort(split) is Some implies cohort_admits(
            middle.cohort(split)->0@,
            *current,
            true,
        ) by {
            assert(start.cohort(split) is Some);
        }
        self.increment(current);
        assert forall|split: AddressSplit| #[trigger] start.cohort(split) is Some implies {
            &&& self.0.cohort(split) is Some
            &&& self.0.cohort(split)->0@ == cohort_moved(
                start.cohort(split)->0@,
                split,
                *initial,
                *current,
            )
        } by {
            assert(middle.cohort(split) is Some);
        }
        assert forall|split: AddressSplit| #[trigger] start.cohort(split) is None implies self.0.cohort(
            split,
        ) is None by {
            assert(middle.cohort(split) is None);
        }
    }

    /// Adds an address, as it is now, to each cohort it belongs to.
    pub fn increment(&mut self, input: &AddressCohortInput)
        requires
            forall|split: AddressSplit|
                touched(split, *input) && #[trigger] old(self).0.cohort(split) is Some ==> cohort_admits(
                    old(self).0.cohort(split)->0@,
                    *input,
                    true,
                ),
        ensures
            forall|split: AddressSplit|
                match #[trigger] old(self).0.cohort(split) {
                    Some(c) => {
                        &&& final(self).0.cohort(split) is Some
                        &&& touched(split, *input) ==> final(self).0.cohort(split)->0@ == cohort_cremented(c@, *input, true)
                        &&& !touched(split, *input) ==> final(self).0.cohort(split) == Some(c)
                    },
                    None => final(self).0.cohort(split) is None,
                },
    {
        self._crement(input, true)
    }

    /// Takes an address, as it was before, out of each cohort it belonged to.
    pub fn decrement(&mut self, input: &AddressCohortInput)
        requires
            forall|split: AddressSplit|
                touched(split, *input) && #[trigger] old(self).0.cohort(split) is Some ==> cohort_admits(
                    old(self).0.cohort(split)->0@,
                    *input,
                    false,
                ),
        ensures
            forall|split: AddressSplit|
                match #[trigger] old(self).0.cohort(split) {
                    Some(c) => {
                        &&& final(self).0.cohort(split) is Some
                        &&& touched(split, *input) ==> final(self).0.cohort(split)->0@ == cohort_cremented(c@, *input, false)
                        &&& !touched(split, *input) ==> final(self).0.cohort(split) == Some(c)
                    },
                    None => final(self).0.cohort(split) is None,
                },
    {
        self._crement(input, false)
    }

    /// Adds (`increment`) or takes out an address, in each cohort it belongs
    /// to: all addresses, its type, its size. An empty address changes
    /// nothing. What a cohort answers is not kept; each cohort is left as its
    /// own change leaves it.
    fn _crement(&mut self, input: &AddressCohortInput, increment: bool)
        requires
            forall|split: AddressSplit|
                touched(split, *input) && #[trigger] old(self).0.cohort(split) is Some ==> cohort_admits(
                    old(self).0.cohort(split)->0@,
                    *input,
                    increment,
                ),
        ensures
            forall|split: AddressSplit|
                match #[trigger] old(self).0.cohort(split) {
                    Some(c) => {
                        &&& final(self).0.cohort(split) is Some
                        &&& touched(split, *input) ==> final(self).0.cohort(split)->0@ == cohort_cremented(c@, *input, increment)
                        &&& !touched(split, *input) ==> final(self).0.cohort(split) == Some(c)
                    },
                    None => final(self).0.cohort(split) is None,
                },
    {
        let ghost start = self.0;
        if input.amount == 0 {
            return;
        }
        let all = AddressSplit::All;
        let by_type = AddressSplit::Type(input.address_type);
        let by_size = AddressSplit::Size(input.address_size);
        assert(touched(all, *input));
        assert(touched(by_type, *input));
        assert(touched(by_size, *input));
        if let Some(state) = self.0.get_mut(&all) {
            crement_one(state, input, increment);
        }
        let ghost after_all = self.0;
        assert(start.cohort(by_type) is Some ==> after_all.cohort(by_type) == start.cohort(by_type));
        assert(start.cohort(by_size) is Some ==> after_all.cohort(by_size) == start.cohort(by_size));
        if let Some(state) = self.0.get_mut(&by_type) {
            crement_one(state, input, increment);
        }
        let ghost after_type = self.0;
        assert(after_all.cohort(by_size) is Some ==> after_type.cohort(by_size) == after_all.cohort(
            by_size,
        ));
        if let Some(state) = self.0.get_mut(&by_size) {
            crement_one(state, input, increment);
        }
        proof {
            assert forall|split: AddressSplit| #[trigger] start.cohort(split) is Some implies after_all.cohort(split) is Some
                && after_type.cohort(split) is Some && self.0.cohort(split) is Some by {
                assert(after_all.cohort(split) is Some);
                assert(after_type.cohort(split) is Some);
            }
        }
    }
}

/// One cohort takes the address in (`increment`) or out; its answer is not
/// kept.
fn crement_one(state: &mut AddressCohortDurableStates, input: &AddressCohortInput, increment: bool)
    requires
        cohort_admits(old(state)@, *input, increment),
    ensures
        final(state)@ == cohort_cremented(old(state)@, *input, increment),
{
    let _ = if increment {
        state.increment(
            input.amount,
            input.utxo_count,
            input.mean_cents_paid,
            &input.split_amount,
            &input.split_utxo_count,
        )
    } else {
        state.decrement(
            input.amount,
            input.utxo_count,
            input.mean_cents_paid,
            &input.split_amount,
            &input.split_utxo_count,
        )
    };
}

/// Moving an address out of a cohort and back in with the same data leaves
/// the cohort as it was, when the cohort accepted taking it out.
pub proof fn lemma_move_out_and_in(
    cohort: AddressCohortModel,
    split: AddressSplit,
    input: AddressCohortInput,
)
    requires
        cohort.wf(),
        touched(split, input) ==> cohort_admits(cohort, input, false),
        touched(split, input) ==> cohort.with_address_count(
            (cohort.address_count - 1) as usize,
        ).cremented(
            input.amount,
            input.utxo_count,
            input.mean_cents_paid,
            input.split_amount,
            input.split_utxo_count,
            false,
        ).1 is Ok,
    ensures
        touched(split, input) ==> cohort_admits(cohort_cremented(cohort, input, false), input, true),
        cohort_moved(cohort, split, input, input) == cohort,
{
    if touched(split, input) {
        let out = cohort.with_address_count((cohort.address_count - 1) as usize);
        lemma_uncrement_then_crement(
            out,
            input.amount,
            input.utxo_count,
            input.mean_cents_paid,
            input.split_amount,
            input.split_utxo_count,
        );
    }
}

} // verus!

use parser::states::cohorts_states::address::cohort_durable_states::AddressCohortDurableStates;
use parser::states::cohorts_states::address::cohorts_durable_states::{
    AddressCohortInput, AddressCohortsDurableStates,
};
use parser::states::cohorts_states::address::split_by_address_cohort::SplitByAddressCohort;
use parser::states::state_error::StateError;
use parser::structs::address_split::{AddressSize, AddressSplit, AddressType};
use parser::structs::split_by_liquidity::{LiquiditySplitResult, SplitByLiquidity};

fn shares(illiquid: u64, liquid: u64) -> LiquiditySplitResult {
    LiquiditySplitResult { illiquid, liquid }
}

#[test]
fn split_by_address_cohort_get() {
    let mut s: SplitByAddressCohort<u64> = SplitByAddressCohort::default();
    s.all = 1;
    s.p2tr = 2;
    s.whale = 3;
    assert_eq!(s.get(&AddressSplit::All), Some(&1));
    assert_eq!(s.get(&AddressSplit::Type(AddressType::P2TR)), Some(&2));
    assert_eq!(s.get(&AddressSplit::Size(AddressSize::Whale)), Some(&3));
    assert_eq!(s.get(&AddressSplit::Type(AddressType::MultiSig)), None);
    assert_eq!(s.get(&AddressSplit::Type(AddressType::OpReturn)), None);
    assert_eq!(s.get(&AddressSplit::Size(AddressSize::Empty)), None);
    assert_eq!(s.get(&AddressSplit::Size(AddressSize::Plankton)), Some(&0));
}

#[test]
fn split_by_address_cohort_get_mut() {
    let mut s: SplitByAddressCohort<u64> = SplitByAddressCohort::default();
    *s.get_mut(&AddressSplit::Type(AddressType::P2WPKH)).unwrap() = 9;
    assert_eq!(s.p2wpkh, 9);
    assert!(s.get_mut(&AddressSplit::Type(AddressType::Unknown)).is_none());
    assert_eq!(s.all, 0);
}

#[test]
fn split_by_address_cohort_iterate_touches_three_cohorts() {
    let mut s: SplitByAddressCohort<u64> = SplitByAddressCohort::default();
    s.iterate(AddressType::P2PKH, AddressSize::Shrimp, |v: &u64| *v + 1);
    s.iterate(AddressType::P2PKH, AddressSize::Crab, |v: &u64| *v + 10);
    assert_eq!(s.all, 11);
    assert_eq!(s.p2pkh, 11);
    assert_eq!(s.shrimp, 1);
    assert_eq!(s.crab, 10);
    assert_eq!(s.p2sh, 0);

    // An address whose type has no cohort only touches all and its size.
    s.iterate(AddressType::MultiSig, AddressSize::Empty, |v: &u64| *v + 100);
    assert_eq!(s.all, 111);
    assert_eq!(s.p2pkh, 11);
}

#[test]
fn split_by_address_cohort_as_vec_order() {
    let mut s: SplitByAddressCohort<u64> = SplitByAddressCohort::default();
    for (i, v) in s.as_mut_vec().into_iter().enumerate() {
        *v = i as u64;
    }
    assert_eq!(s.all, 0);
    assert_eq!(s.plankton, 1);
    assert_eq!(s.megalodon, 8);
    assert_eq!(s.p2pk, 9);
    assert_eq!(s.p2tr, 14);
    let values: Vec<u64> = s.as_vec().into_iter().copied().collect();
    assert_eq!(values, (0..15).collect::<Vec<u64>>());
}

#[test]
fn address_cohort_shares_add_up() {
    let mut c = AddressCohortDurableStates::default();
    assert_eq!(c.increment(1_000, 4, 3_000_000, &shares(200, 300), &shares(1, 1)), Ok(()));
    assert_eq!(c.address_count, 1);
    let d = &c.split_durable_states;
    assert_eq!(d.all.supply(), 1_000);
    assert_eq!(d.illiquid.supply(), 200);
    assert_eq!(d.liquid.supply(), 300);
    assert_eq!(d.highly_liquid.supply(), 500);
    assert_eq!(d.all.utxo_count(), 4);
    assert_eq!(d.highly_liquid.utxo_count(), 2);
    assert_eq!(
        c.cents_to_split_amount.0.get(&3_000_000).copied(),
        Some(SplitByLiquidity {
            all: 1_000,
            illiquid: 200,
            liquid: 300,
            highly_liquid: 500
        })
    );

    assert_eq!(c.decrement(1_000, 4, 3_000_000, &shares(200, 300), &shares(1, 1)), Ok(()));
    assert_eq!(c.address_count, 0);
    assert_eq!(c.split_durable_states.all.supply(), 0);
    assert_eq!(c.split_durable_states.highly_liquid.supply(), 0);
    assert!(c.cents_to_split_amount.0.is_empty());
}

#[test]
fn address_cohort_refuses_outputs_without_amount_in_a_class() {
    let mut c = AddressCohortDurableStates::default();
    // The illiquid class gets an output but no sats.
    assert_eq!(
        c.increment(1_000, 2, 100, &shares(0, 500), &shares(1, 0)),
        Err(StateError::ZeroAmountWithOutputs)
    );
    // The whole and the split amounts were changed before the refusal.
    assert_eq!(c.address_count, 1);
    assert_eq!(c.split_durable_states.all.supply(), 1_000);
    assert_eq!(c.split_durable_states.illiquid.supply(), 0);
    assert_eq!(c.split_durable_states.liquid.supply(), 0);
    assert!(c.cents_to_split_amount.0.contains_key(&100));
}

#[test]
fn address_cohort_decrement_of_unknown_price() {
    let mut c = AddressCohortDurableStates::default();
    c.increment(1_000, 1, 100, &shares(0, 0), &shares(0, 0)).unwrap();
    assert_eq!(
        c.decrement(1_000, 1, 200, &shares(0, 0), &shares(0, 0)),
        Err(StateError::MissingAmount)
    );
    assert_eq!(c.address_count, 0);
}

#[test]
fn address_cohorts_increment_the_three_cohorts_of_an_address() {
    let mut cohorts = AddressCohortsDurableStates::default();
    let input = AddressCohortInput {
        address_type: AddressType::P2WSH,
        address_size: AddressSize::Fish,
        amount: 50_000,
        utxo_count: 2,
        mean_cents_paid: 2_500_000,
        split_amount: shares(10_000, 20_000),
        split_utxo_count: shares(0, 1),
    };
    cohorts.increment(&input);
    assert_eq!(cohorts.0.all.address_count, 1);
    assert_eq!(cohorts.0.p2wsh.address_count, 1);
    assert_eq!(cohorts.0.fish.address_count, 1);
    assert_eq!(cohorts.0.shark.address_count, 0);
    assert_eq!(cohorts.0.p2wsh.split_durable_states.all.supply(), 50_000);
    assert_eq!(cohorts.0.fish.split_durable_states.highly_liquid.supply(), 20_000);

    cohorts.decrement(&input);
    assert_eq!(cohorts.0.all.address_count, 0);
    assert_eq!(cohorts.0.fish.split_durable_states.all.supply(), 0);
}

#[test]
fn address_cohorts_iterate_moves_an_address_between_sizes() {
    let mut cohorts = AddressCohortsDurableStates::default();
    let initial = AddressCohortInput {
        address_type: AddressType::P2PKH,
        address_size: AddressSize::Fish,
        amount: 50_000,
        utxo_count: 1,
        mean_cents_paid: 100,
        split_amount: shares(0, 0),
        split_utxo_count: shares(0, 0),
    };
    cohorts.increment(&initial);

    let current = AddressCohortInput {
        address_size: AddressSize::Shark,
        amount: 900_000,
        utxo_count: 2,
        ..initial
    };
    cohorts.iterate(&initial, &current);

    assert_eq!(cohorts.0.fish.address_count, 0);
    assert_eq!(cohorts.0.fish.split_durable_states.all.supply(), 0);
    assert_eq!(cohorts.0.shark.address_count, 1);
    assert_eq!(cohorts.0.shark.split_durable_states.all.supply(), 900_000);
    assert_eq!(cohorts.0.all.address_count, 1);
    assert_eq!(cohorts.0.all.split_durable_states.all.supply(), 900_000);
    assert_eq!(cohorts.0.p2pkh.split_durable_states.all.utxo_count(), 2);
}

#[test]
fn an_empty_address_changes_no_cohort() {
    let mut cohorts = AddressCohortsDurableStates::default();
    let input = AddressCohortInput {
        address_type: AddressType::P2TR,
        address_size: AddressSize::Empty,
        amount: 0,
        utxo_count: 0,
        mean_cents_paid: 0,
        split_amount: shares(0, 0),
        split_utxo_count: shares(0, 0),
    };
    cohorts.decrement(&input);
    cohorts.increment(&input);
    assert_eq!(cohorts.0.all.address_count, 0);
    assert_eq!(cohorts.0.p2tr.address_count, 0);
}

use std::collections::BTreeMap;

use parser::states::cohorts_states::any::price_in_cents_to_amount::PriceInCentsToAmount;
use parser::states::cohorts_states::any::price_in_cents_to_sats::PriceInCentsToSats;
use parser::states::cohorts_states::any::price_in_cents_to_value::{
    Additive, CanSubtract, IsZero, PriceInCentsToValue,
};
use parser::states::state_error::StateError;
use parser::structs::split_by_liquidity::SplitByLiquidity;

fn split(all: u64, illiquid: u64, liquid: u64, highly_liquid: u64) -> SplitByLiquidity<u64> {
    SplitByLiquidity {
        all,
        illiquid,
        liquid,
        highly_liquid,
    }
}

#[test]
fn price_in_cents_to_amount_adds_by_price() {
    let mut m = PriceInCentsToAmount::default();
    m.increment(100, 5);
    m.increment(100, 7);
    m.increment(250, 1);
    assert_eq!(m.0, BTreeMap::from([(100, 12), (250, 1)]));
}

#[test]
fn price_in_cents_to_amount_forgets_emptied_prices() {
    let mut m = PriceInCentsToAmount::default();
    m.increment(100, 12);
    assert_eq!(m.decrement(100, 2), Ok(()));
    assert_eq!(m.0, BTreeMap::from([(100, 10)]));
    assert_eq!(m.decrement(100, 11), Err(StateError::AmountTooSmall));
    assert_eq!(m.decrement(101, 1), Err(StateError::MissingAmount));
    assert_eq!(m.decrement(100, 10), Ok(()));
    assert!(m.0.is_empty());
}

#[test]
fn price_in_cents_to_sats_forgets_a_price_only_on_a_zero_decrement() {
    let mut m = PriceInCentsToSats::default();
    m.increment(100, 10);
    m.decrement(100, 10);
    // Nothing left, yet the price is kept: only a zero amount removes it.
    assert_eq!(m.0, BTreeMap::from([(100, 0)]));
    m.increment(100, 3);
    m.decrement(100, 0);
    assert!(m.0.is_empty());
}

#[test]
fn price_in_cents_to_value_on_amounts() {
    let mut m: PriceInCentsToValue<u64> = PriceInCentsToValue::default();
    m.increment(7, 40);
    m.increment(7, 2);
    assert_eq!(m.0, BTreeMap::from([(7, 42)]));
    assert_eq!(m.decrement(8, 1), Err(StateError::MissingValue));
    assert_eq!(m.decrement(7, 43), Err(StateError::ValueTooSmall));
    assert_eq!(m.decrement(7, 2), Ok(()));
    assert_eq!(m.0, BTreeMap::from([(7, 40)]));
    assert_eq!(m.decrement(7, 40), Ok(()));
    assert!(m.0.is_empty());
}

#[test]
fn price_in_cents_to_value_on_splits() {
    let mut m: PriceInCentsToValue<SplitByLiquidity<u64>> = PriceInCentsToValue::default();
    m.increment(5, split(10, 3, 3, 4));
    m.increment(5, split(5, 1, 1, 3));
    assert_eq!(m.0.get(&5).copied(), Some(split(15, 4, 4, 7)));

    // Every part must be able to give back its share.
    assert_eq!(m.decrement(5, split(1, 5, 0, 0)), Err(StateError::ValueTooSmall));
    assert_eq!(m.decrement(5, split(5, 1, 1, 3)), Ok(()));
    assert_eq!(m.0.get(&5).copied(), Some(split(10, 3, 3, 4)));
    assert_eq!(m.decrement(5, split(10, 3, 3, 4)), Ok(()));
    assert!(m.0.is_empty());
}

#[test]
fn price_in_cents_to_value_bad_split_is_refused_after_the_subtraction() {
    let mut m: PriceInCentsToValue<SplitByLiquidity<u64>> = PriceInCentsToValue::default();
    m.increment(5, split(10, 3, 3, 4));
    assert_eq!(m.decrement(5, split(10, 3, 3, 3)), Err(StateError::BadSplit));
    assert_eq!(m.0.get(&5).copied(), Some(split(0, 0, 0, 1)));
}

#[test]
fn can_subtract_and_is_zero() {
    assert!(10u64.can_subtract(&10));
    assert!(!9u64.can_subtract(&10));
    assert_eq!(0u64.is_zero(), Ok(true));
    assert_eq!(1u64.is_zero(), Ok(false));

    assert!(split(4, 1, 1, 2).can_subtract(&split(4, 1, 1, 2)));
    assert!(!split(4, 1, 1, 2).can_subtract(&split(1, 2, 0, 0)));
    assert_eq!(split(0, 0, 0, 0).is_zero(), Ok(true));
    assert_eq!(split(3, 0, 0, 0).is_zero(), Ok(false));
    assert_eq!(split(0, 1, 0, 0).is_zero(), Err(StateError::BadSplit));

    assert_eq!(split(1, 2, 3, 4).plus(&split(1, 1, 1, 1)), split(2, 3, 4, 5));
    assert_eq!(split(1, 2, 3, 4).minus(&split(1, 1, 1, 1)), split(0, 1, 2, 3));
    assert_eq!(<SplitByLiquidity<u64> as Additive>::zero(), split(0, 0, 0, 0));
}

use std::collections::BTreeMap;

use parser::states::cohorts_states::utxo::cohort_durable_states::UTXOCohortDurableStates;
use parser::states::state_error::StateError;

#[test]
fn utxo_cohort_keeps_both_records_in_step() {
    let mut c = UTXOCohortDurableStates::default();
    assert_eq!(c.increment(700, 2, 4_000_000), Ok(()));
    assert_eq!(c.increment(300, 1, 4_100_000), Ok(()));
    assert_eq!(c.durable_states.supply(), 1_000);
    assert_eq!(c.durable_states.utxo_count(), 3);
    assert_eq!(
        c.cents_to_amount.0,
        BTreeMap::from([(4_000_000, 700), (4_100_000, 300)])
    );

    assert_eq!(c.decrement(700, 2, 4_000_000), Ok(()));
    assert_eq!(c.cents_to_amount.0, BTreeMap::from([(4_100_000, 300)]));
    assert_eq!(c.durable_states.supply(), 300);
}

#[test]
fn utxo_cohort_refusal_at_the_price_changes_nothing() {
    let mut c = UTXOCohortDurableStates::default();
    c.increment(700, 2, 4_000_000).unwrap();
    assert_eq!(c.decrement(1, 0, 1), Err(StateError::MissingValue));
    assert_eq!(c.decrement(701, 2, 4_000_000), Err(StateError::ValueTooSmall));
    assert_eq!(c.durable_states.supply(), 700);
    assert_eq!(c.cents_to_amount.0, BTreeMap::from([(4_000_000, 700)]));
}

#[test]
fn utxo_cohort_refusal_after_the_price_keeps_the_price_change() {
    let mut c = UTXOCohortDurableStates::default();
    c.increment(700, 2, 4_000_000).unwrap();
    assert_eq!(c.decrement(700, 3, 4_000_000), Err(StateError::UtxoCountTooSmall));
    assert!(c.cents_to_amount.0.is_empty());
    assert_eq!(c.durable_states.supply(), 0);
    assert_eq!(c.durable_states.utxo_count(), 2);
}

#[test]
fn utxo_cohort_zero_increment_keeps_an_empty_price() {
    let mut c = UTXOCohortDurableStates::default();
    assert_eq!(c.increment(0, 0, 9), Ok(()));
    assert_eq!(c.cents_to_amount.0, BTreeMap::from([(9, 0)]));
    assert_eq!(c.durable_states.supply(), 0);
    assert_eq!(c.decrement(0, 0, 9), Ok(()));
    assert!(c.cents_to_amount.0.is_empty());
}

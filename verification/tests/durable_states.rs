use parser::states::cohorts_states::any::capitalization_state::CapitalizationState;
use parser::states::cohorts_states::any::durable_states::DurableStates;
use parser::states::cohorts_states::any::supply_state::SupplyState;
use parser::states::cohorts_states::any::utxo_state::UTXOState;
use parser::states::state_error::StateError;

#[test]
fn supply_state_adds_and_refuses_to_go_below_zero() {
    let mut s = SupplyState::default();
    s.increment(100);
    s.increment(50);
    assert_eq!(s.supply, 150);
    assert_eq!(s.decrement(30), Ok(()));
    assert_eq!(s.supply, 120);
    assert_eq!(s.decrement(121), Err(StateError::SupplyTooSmall));
    assert_eq!(s.supply, 120);
    assert_eq!(s.decrement(120), Ok(()));
    assert_eq!(s.supply, 0);
}

#[test]
fn utxo_state_counts_outputs() {
    let mut s = UTXOState::default();
    s.increment(3);
    assert_eq!(s.count, 3);
    assert_eq!(s.decrement(4), Err(StateError::UtxoCountTooSmall));
    assert_eq!(s.count, 3);
    assert_eq!(s.decrement(3), Ok(()));
    assert_eq!(s.count, 0);
}

#[test]
fn capitalization_state_adds_and_takes_back() {
    let mut c = CapitalizationState::default();
    c.increment(1_000);
    c.increment(234);
    assert_eq!(c.realized_cap_in_cents, 1_234);
    c.decrement(34);
    assert_eq!(c.realized_cap_in_cents, 1_200);
}

#[test]
fn durable_states_increment_then_decrement_restores() {
    let mut d = DurableStates::default();
    assert_eq!(d.increment(1_000, 2, 5_000_000), Ok(()));
    assert_eq!(d.increment(500, 1, 6_000_000), Ok(()));
    assert_eq!(d.supply(), 1_500);
    assert_eq!(d.utxo_count(), 3);

    assert_eq!(d.decrement(500, 1, 6_000_000), Ok(()));
    assert_eq!(d.decrement(1_000, 2, 5_000_000), Ok(()));
    assert_eq!(d.supply(), 0);
    assert_eq!(d.utxo_count(), 0);

    // Every price was forgotten: taking back again is refused at the supply.
    assert_eq!(d.decrement(1, 0, 5_000_000), Err(StateError::SupplyTooSmall));
}

#[test]
fn durable_states_zero_amount_changes_nothing() {
    let mut d = DurableStates::default();
    assert_eq!(d.increment(0, 0, 100), Ok(()));
    assert_eq!(d.supply(), 0);
    assert_eq!(d.increment(0, 1, 100), Err(StateError::ZeroAmountWithOutputs));
    assert_eq!(d.utxo_count(), 0);
    assert_eq!(d.decrement(0, 0, 100), Ok(()));
}

#[test]
fn durable_states_decrement_stops_at_the_first_refusal() {
    let mut d = DurableStates::default();
    d.increment(1_000, 1, 100).unwrap();

    // Too few outputs: the supply was already taken from.
    assert_eq!(d.decrement(400, 2, 100), Err(StateError::UtxoCountTooSmall));
    assert_eq!(d.supply(), 600);
    assert_eq!(d.utxo_count(), 1);

    // Unknown price: supply and outputs were already taken from.
    assert_eq!(d.decrement(100, 1, 999), Err(StateError::MissingAmount));
    assert_eq!(d.supply(), 500);
    assert_eq!(d.utxo_count(), 0);
}

#[test]
fn durable_states_amount_too_small_at_price() {
    let mut d = DurableStates::default();
    d.increment(100, 1, 10).unwrap();
    d.increment(900, 1, 20).unwrap();
    assert_eq!(d.decrement(200, 1, 10), Err(StateError::AmountTooSmall));
    assert_eq!(d.supply(), 800);
    assert_eq!(d.utxo_count(), 1);
}

pub mod amounts_total;
pub mod capitalization_state;
pub mod durable_states;
pub mod price_in_cents_to_amount;
pub mod price_in_cents_to_sats;
pub mod price_in_cents_to_value;
pub mod supply_state;
pub mod utxo_state;

pub mod cohorts_states;
pub mod date_data_vec;
pub mod state_error;
pub mod txout_index_to_sats;

pub mod all_metadata;
pub mod min_initial_state;

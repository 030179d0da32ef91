pub mod cohort_durable_states;

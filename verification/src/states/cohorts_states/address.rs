pub mod cohort_durable_states;
pub mod cohorts_durable_states;
pub mod split_by_address_cohort;

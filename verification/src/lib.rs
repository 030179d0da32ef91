pub mod actions;
pub mod databases;
pub mod datasets;
pub mod parse;
pub mod price;
pub mod states;
pub mod structs;

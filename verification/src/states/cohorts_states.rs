pub mod address;
pub mod any;
pub mod utxo;

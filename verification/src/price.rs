pub mod kraken;

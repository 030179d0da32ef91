pub mod address_split;
pub mod date_data;
pub mod split_by_liquidity;

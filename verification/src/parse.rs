pub mod holes;
pub mod sparsed_vec;
pub mod txout_index;

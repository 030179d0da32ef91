pub mod iter_blocks;
pub mod min_height;
pub mod parse;
pub mod parse_block;

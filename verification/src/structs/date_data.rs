use vstd::prelude::*;

verus! {

/// What is kept of one block: its height, its price in cents, its timestamp,
/// and the amount and number of outputs created in it that are still unspent.
#[derive(Debug, Clone, Copy, PartialEq, Eq, Structural)]
pub struct BlockData {
    pub height: u32,
    pub price_in_cents: u64,
    pub timestamp: u32,
    pub amount: u64,
    pub spendable_outputs: u32,
}

impl BlockData {
    /// A block with nothing unspent yet.
    pub fn new(height: u32, price_in_cents: u64, timestamp: u32) -> (res: Self)
        ensures
            res == (BlockData { height, price_in_cents, timestamp, amount: 0, spendable_outputs: 0 }),
    {
        BlockData { height, price_in_cents, timestamp, amount: 0, spendable_outputs: 0 }
    }
}

/// The blocks of one day, the day given as a number of days since the
/// start of the common era.
#[derive(Debug)]
pub struct DateData {
    pub date: i32,
    pub blocks: Vec<BlockData>,
}

impl DateData {
    pub fn new(date: i32, blocks: Vec<BlockData>) -> (res: Self)
        ensures
            res.date == date,
            res.blocks@ == blocks@,
    {
        DateData { date, blocks }
    }
}

/// Where a block is kept: the index of its day, and its index in that day.
#[derive(Debug, Clone, Copy, PartialEq, Eq, Structural)]
pub struct BlockPath {
    pub date_index: u16,
    pub block_index: u16,
}

impl BlockPath {
    pub fn new(date_index: u16, block_index: u16) -> (res: Self)
        ensures
            res == (BlockPath { date_index, block_index }),
    {
        BlockPath { date_index, block_index }
    }

    /// The day index in the high bits and the block index in the low sixteen
    /// bits of one integer.
    pub open spec fn spec_key(self) -> u32 {
        (self.date_index * 0x1_0000 + self.block_index) as u32
    }

    /// The integer that stands for this path when it is used as a key.
    pub fn key(&self) -> (res: u32)
        ensures
            res == self.spec_key(),
            res == self.date_index * 0x1_0000 + self.block_index,
    {
        let date_index: u32 = self.date_index as u32;
        let block_index: u32 = self.block_index as u32;
        assert(date_index * 0x1_0000 + block_index <= u32::MAX) by (nonlinear_arith)
            requires
                date_index <= u16::MAX,
                block_index <= u16::MAX,
        ;
        date_index * 0x1_0000 + block_index
    }
}

/// Two paths share a key only when they are the same path, and keys are
/// ordered as the paths are: by day, then by block.
pub proof fn lemma_block_path_key(a: BlockPath, b: BlockPath)
    ensures
        a.spec_key() == b.spec_key() <==> a == b,
        (a.date_index < b.date_index || (a.date_index == b.date_index && a.block_index
            < b.block_index)) <==> a.spec_key() < b.spec_key(),
{
    assert(a.date_index * 0x1_0000 + a.block_index <= u32::MAX) by (nonlinear_arith)
        requires
            a.date_index <= u16::MAX,
            a.block_index <= u16::MAX,
    ;
    assert(b.date_index * 0x1_0000 + b.block_index <= u32::MAX) by (nonlinear_arith)
        requires
            b.date_index <= u16::MAX,
            b.block_index <= u16::MAX,
    ;
    if a.date_index < b.date_index {
        assert(a.date_index * 0x1_0000 + a.block_index < b.date_index * 0x1_0000) by (nonlinear_arith)
            requires
                a.date_index < b.date_index,
                a.block_index <= u16::MAX,
        ;
    } else if a.date_index > b.date_index {
        assert(b.date_index * 0x1_0000 + b.block_index < a.date_index * 0x1_0000) by (nonlinear_arith)
            requires
                b.date_index < a.date_index,
                b.block_index <= u16::MAX,
        ;
    }
}

} // verus!

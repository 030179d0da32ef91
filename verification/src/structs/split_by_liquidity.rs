use vstd::prelude::*;

verus! {

/// One value for every holder, and one for each of the three liquidity
/// classes that the holders are split into.
#[derive(Debug, Clone, Copy, Default, PartialEq, Eq)]
pub struct SplitByLiquidity<T> {
    pub all: T,
    pub illiquid: T,
    pub liquid: T,
    pub highly_liquid: T,
}

/// How an amount or a count is shared between the liquidity classes: the whole
/// parts of the illiquid and liquid shares. The highly liquid class takes the
/// rest.
#[derive(Debug, Clone, Copy, Default, PartialEq, Eq, Structural)]
pub struct LiquiditySplitResult {
    pub illiquid: u64,
    pub liquid: u64,
}

impl SplitByLiquidity<u64> {
    /// The shares add up to the whole.
    pub open spec fn is_whole(&self) -> bool {
        self.illiquid + self.liquid + self.highly_liquid == self.all
    }
}

} // verus!

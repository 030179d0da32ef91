use vstd::prelude::*;

verus! {

/// Why a state refused to take back an amount, a count or a value.
#[derive(Debug, Clone, Copy, PartialEq, Eq, Structural)]
pub enum StateError {
    /// The supply is smaller than the amount taken back.
    SupplyTooSmall,
    /// The number of outputs is smaller than the count taken back.
    UtxoCountTooSmall,
    /// No amount is stored at the given price.
    MissingAmount,
    /// The amount stored at the given price is smaller than the amount taken back.
    AmountTooSmall,
    /// No value is stored at the given price.
    MissingValue,
    /// The value stored at the given price cannot give back the value taken back.
    ValueTooSmall,
    /// A split whose whole is zero while one of its parts is not.
    BadSplit,
    /// A zero amount that claims to come with outputs.
    ZeroAmountWithOutputs,
}

} // verus!

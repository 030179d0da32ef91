use vstd::prelude::*;

verus! {

/// The kind of script that an address pays to.
#[derive(Debug, Clone, Copy, PartialEq, Eq, Structural)]
pub enum AddressType {
    Empty,
    OpReturn,
    PushOnly,
    Unknown,
    MultiSig,
    P2PK,
    P2PKH,
    P2SH,
    P2WPKH,
    P2WSH,
    P2TR,
}

/// How much an address holds, from the smallest class to the largest.
#[derive(Debug, Clone, Copy, PartialEq, Eq, Structural)]
pub enum AddressSize {
    Empty,
    Plankton,
    Shrimp,
    Crab,
    Fish,
    Shark,
    Whale,
    Humpback,
    Megalodon,
}

/// One cohort of addresses: all of them, those of one type, or those of one
/// size.
#[derive(Debug, Clone, Copy, PartialEq, Eq, Structural)]
pub enum AddressSplit {
    All,
    Type(AddressType),
    Size(AddressSize),
}

} // verus!

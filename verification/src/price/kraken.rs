use vstd::prelude::*;

verus! {

/// The Kraken exchange, one of the sources of bitcoin prices, by minute and
/// by day. Its prices are fetched over the network, outside this library.
#[derive(Debug, Clone, Copy, PartialEq, Eq, Structural)]
pub struct Kraken;

} // verus!

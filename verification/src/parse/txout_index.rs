use vstd::prelude::*;

verus! {

/// An output of the chain: the index of its transaction, and its index in
/// that transaction.
#[derive(Debug, Clone, Copy, PartialEq, Eq, Structural, PartialOrd, Ord)]
pub struct TxoutIndex {
    pub tx_index: u32,
    pub vout: u16,
}

impl TxoutIndex {
    pub fn new(tx_index: u32, vout: u16) -> (res: Self)
        ensures
            res == (TxoutIndex { tx_index, vout }),
    {
        TxoutIndex { tx_index, vout }
    }

    /// The transaction index in the high bits and the output index in the
    /// low sixteen bits of one integer.
    pub open spec fn spec_key(self) -> u64 {
        (self.tx_index * 0x1_0000 + self.vout) as u64
    }

    /// The integer that stands for this output when it is hashed or used as
    /// a key.
    pub fn key(&self) -> (res: u64)
        ensures
            res == self.spec_key(),
            res == self.tx_index * 0x1_0000 + self.vout,
    {
        let tx_index: u64 = self.tx_index as u64;
        let vout: u64 = self.vout as u64;
        assert((tx_index << 16u64) == tx_index * 0x1_0000) by (bit_vector)
            requires
                tx_index <= u32::MAX,
        ;
        (tx_index << 16u64) + vout
    }
}

/// Whether `a` comes before `b`: by transaction, then by output.
pub open spec fn txout_before(a: TxoutIndex, b: TxoutIndex) -> bool {
    a.tx_index < b.tx_index || (a.tx_index == b.tx_index && a.vout < b.vout)
}

/// Two outputs share a key only when they are the same output.
pub proof fn lemma_key_injective(a: TxoutIndex, b: TxoutIndex)
    ensures
        a.spec_key() == b.spec_key() <==> a == b,
{
    lemma_key_order(a, b);
    lemma_key_order(b, a);
}

/// Keys are ordered as the outputs are: by transaction, then by output.
pub proof fn lemma_key_order(a: TxoutIndex, b: TxoutIndex)
    ensures
        txout_before(a, b) <==> a.spec_key() < b.spec_key(),
{
    assert(a.tx_index * 0x1_0000 + a.vout <= u64::MAX) by (nonlinear_arith)
        requires
            a.tx_index <= u32::MAX,
            a.vout <= u16::MAX,
    ;
    assert(b.tx_index * 0x1_0000 + b.vout <= u64::MAX) by (nonlinear_arith)
        requires
            b.tx_index <= u32::MAX,
            b.vout <= u16::MAX,
    ;
    if a.tx_index < b.tx_index {
        assert(a.tx_index * 0x1_0000 + a.vout < b.tx_index * 0x1_0000) by (nonlinear_arith)
            requires
                a.tx_index < b.tx_index,
                a.vout <= u16::MAX,
        ;
    } else if a.tx_index > b.tx_index {
        assert(b.tx_index * 0x1_0000 + b.vout < a.tx_index * 0x1_0000) by (nonlinear_arith)
            requires
                b.tx_index < a.tx_index,
                b.vout <= u16::MAX,
        ;
    }
}

} // verus!

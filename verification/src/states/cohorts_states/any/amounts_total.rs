//! The sum of the amounts stored by price.
use vstd::prelude::*;

verus! {

/// The sum of the values of a finite map.
pub open spec fn amounts_total(m: Map<u32, u64>) -> int
    decreases m.dom().len(),
{
    if m.dom().finite() && m.dom().len() > 0 {
        let k = m.dom().choose();
        m[k] + amounts_total(m.remove(k))
    } else {
        0
    }
}

/// Any stored amount can be taken out of the sum first.
pub proof fn lemma_total_remove(m: Map<u32, u64>, k: u32)
    requires
        m.dom().finite(),
        m.contains_key(k),
    ensures
        amounts_total(m) == m[k] + amounts_total(m.remove(k)),
    decreases m.dom().len(),
{
    let c = m.dom().choose();
    assert(m.dom().contains(c));
    if c != k {
        let mc = m.remove(c);
        let mk = m.remove(k);
        lemma_total_remove(mc, k);
        lemma_total_remove(mk, c);
        assert(mc.remove(k) =~= mk.remove(c));
    } else {
        assert(m.remove(c) =~= m.remove(k));
    }
}

/// The sum after one amount is set.
pub proof fn lemma_total_insert(m: Map<u32, u64>, k: u32, v: u64)
    requires
        m.dom().finite(),
    ensures
        amounts_total(m.insert(k, v)) == amounts_total(m) - (if m.contains_key(k) {
            m[k] as int
        } else {
            0
        }) + v,
{
    let mi = m.insert(k, v);
    lemma_total_remove(mi, k);
    if m.contains_key(k) {
        lemma_total_remove(m, k);
        assert(mi.remove(k) =~= m.remove(k));
    } else {
        assert(mi.remove(k) =~= m);
    }
}

pub proof fn lemma_total_nonneg(m: Map<u32, u64>)
    ensures
        amounts_total(m) >= 0,
    decreases m.dom().len(),
{
    if m.dom().finite() && m.dom().len() > 0 {
        let k = m.dom().choose();
        lemma_total_nonneg(m.remove(k));
    }
}

/// Every stored amount is part of the sum.
pub proof fn lemma_total_bounds(m: Map<u32, u64>, k: u32)
    requires
        m.dom().finite(),
        m.contains_key(k),
    ensures
        m[k] <= amounts_total(m),
{
    lemma_total_remove(m, k);
    lemma_total_nonneg(m.remove(k));
}

} // verus!

use parser::parse::txout_index::TxoutIndex;
use parser::states::txout_index_to_sats::TxoutIndexToAmount;

#[test]
fn txout_index_key_packs_both_indexes() {
    assert_eq!(TxoutIndex::new(0, 0).key(), 0);
    assert_eq!(TxoutIndex::new(1, 0).key(), 65_536);
    assert_eq!(TxoutIndex::new(1, 3).key(), 65_539);
    assert_eq!(TxoutIndex::new(u32::MAX, u16::MAX).key(), (1u64 << 48) - 1);
}

#[test]
fn txout_index_keys_follow_the_order_of_outputs() {
    let a = TxoutIndex::new(5, 65_535);
    let b = TxoutIndex::new(6, 0);
    assert!(a < b);
    assert!(a.key() < b.key());
    assert_ne!(TxoutIndex::new(2, 1).key(), TxoutIndex::new(1, 2).key());
}

#[test]
fn txout_index_to_amount_reads_back_what_was_written() {
    let mut m = TxoutIndexToAmount::default();
    let a = TxoutIndex::new(10, 1);
    let b = TxoutIndex::new(10, 2);
    assert_eq!(m.insert(a, 500), None);
    assert_eq!(m.insert(b, 700), None);
    assert_eq!(m.get(&a), Some(500));
    assert_eq!(m.insert(a, 600), Some(500));
    assert_eq!(m.get(&a), Some(600));
    assert_eq!(m.remove(&a), Some(600));
    assert_eq!(m.get(&a), None);
    assert_eq!(m.get(&b), Some(700));
    m.clear();
    assert_eq!(m.get(&b), None);
}

use parser::states::date_data_vec::DateDataVec;
use parser::structs::date_data::{BlockData, BlockPath, DateData};

fn block(height: u32) -> BlockData {
    BlockData::new(height, 100 * height as u64, 1_000 + height)
}

#[test]
fn empty_date_data_vec_has_no_block() {
    let mut v = DateDataVec::default();
    assert_eq!(v.last_block(), None);
    assert_eq!(v.second_last_block(), None);
    assert!(v.last_mut_block().is_none());
    assert_eq!(v.get(&BlockPath::new(0, 0)), None);
}

#[test]
fn last_and_second_last_blocks_across_days() {
    let mut v = DateDataVec::default();
    v.0.push(DateData::new(738_000, vec![block(0), block(1)]));
    v.0.push(DateData::new(738_001, vec![block(2)]));
    assert_eq!(v.last_block(), Some(&block(2)));
    assert_eq!(v.second_last_block(), Some(&block(1)));

    v.0.push(DateData::new(738_002, vec![]));
    assert_eq!(v.last_block(), None);
    assert_eq!(v.second_last_block(), Some(&block(1)));

    v.0.last_mut().unwrap().blocks.push(block(3));
    assert_eq!(v.last_block(), Some(&block(3)));
    assert_eq!(v.second_last_block(), Some(&block(2)));
}

#[test]
fn second_last_block_with_a_single_block() {
    let mut v = DateDataVec::default();
    v.0.push(DateData::new(1, vec![block(7)]));
    assert_eq!(v.second_last_block(), None);
    assert_eq!(v.last_block(), Some(&block(7)));
}

#[test]
fn last_mut_block_changes_the_last_block() {
    let mut v = DateDataVec::default();
    v.0.push(DateData::new(1, vec![block(0), block(1)]));
    {
        let last = v.last_mut_block().unwrap();
        last.amount = 5_000;
        last.spendable_outputs = 3;
    }
    assert_eq!(v.0[0].blocks[1].amount, 5_000);
    assert_eq!(v.0[0].blocks[1].spendable_outputs, 3);
    assert_eq!(v.0[0].blocks[0], block(0));
}

#[test]
fn get_by_block_path() {
    let mut v = DateDataVec::default();
    v.0.push(DateData::new(1, vec![block(0), block(1)]));
    v.0.push(DateData::new(2, vec![block(2)]));
    assert_eq!(v.get(&BlockPath::new(0, 1)), Some(&block(1)));
    assert_eq!(v.get(&BlockPath::new(1, 0)), Some(&block(2)));
    assert_eq!(v.get(&BlockPath::new(1, 1)), None);
    assert_eq!(v.get(&BlockPath::new(2, 0)), None);

    v.clear();
    assert_eq!(v.get(&BlockPath::new(0, 0)), None);
}

#[test]
fn new_block_has_nothing_unspent() {
    let b = BlockData::new(840_000, 6_300_000, 1_713_571_767);
    assert_eq!(b.height, 840_000);
    assert_eq!(b.price_in_cents, 6_300_000);
    assert_eq!(b.timestamp, 1_713_571_767);
    assert_eq!(b.amount, 0);
    assert_eq!(b.spendable_outputs, 0);
}

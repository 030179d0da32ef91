use std::collections::BTreeMap;

use parser::actions::iter_blocks::{
    block_event, next_step, timestamp_to_day, Action, BlockEvent, IterState, LoopEnd,
};
use parser::actions::parse::{
    parse_txouts, record_outputs, BlockTotals, ScriptKind, SentData, TxTotals, TxoutSummary,
};
use parser::actions::parse_block::{parse_block, try_parse_block, TxInput, TxSummary};
use parser::states::date_data_vec::DateDataVec;
use parser::structs::date_data::{BlockData, BlockPath, DateData};

fn txout(value: u64, kind: ScriptKind) -> TxoutSummary {
    TxoutSummary { value, kind }
}

#[test]
fn parse_txouts_tallies_unspendable_outputs() {
    let txouts = [
        txout(1_000, ScriptKind::Spendable),
        txout(0, ScriptKind::OpReturn),
        txout(20, ScriptKind::OpReturn),
        txout(0, ScriptKind::Spendable),
        txout(7, ScriptKind::ProvablyUnspendable),
    ];
    let res = parse_txouts(&txouts);
    assert_eq!(
        res.partial_txout_data_vec,
        vec![Some(1_000), None, Some(20), None, Some(7)]
    );
    assert_eq!(res.provably_unspendable, 27);
    assert_eq!(res.op_returns, 1);

    let none = parse_txouts(&[]);
    assert!(none.partial_txout_data_vec.is_empty());
    assert_eq!(none.provably_unspendable, 0);
    assert_eq!(none.op_returns, 0);
}

fn two_days() -> DateDataVec {
    let mut v = DateDataVec::default();
    let mut old_block = BlockData::new(100, 1_000, 10);
    old_block.amount = 5_000;
    old_block.spendable_outputs = 2;
    v.0.push(DateData::new(738_000, vec![old_block]));
    v.0.push(DateData::new(738_010, vec![BlockData::new(160, 2_000, 20)]));
    v
}

#[test]
fn a_transaction_spending_an_old_output() {
    let mut dates = two_days();
    let mut sent: BTreeMap<u32, SentData> = BTreeMap::new();
    let mut totals = BlockTotals::default();
    let mut tx = TxTotals::default();

    // Outputs first: one kept, one counted toward the outputs only.
    totals.count_output(&mut tx, false, 3_000);
    tx.keep_output(3_000);
    totals.count_output(&mut tx, false, 1_500);
    tx.keep_output(1_500);
    record_outputs(&mut dates, &tx);
    assert_eq!(dates.0[1].blocks[0].amount, 4_500);
    assert_eq!(dates.0[1].blocks[0].spendable_outputs, 2);

    let path = BlockPath::new(0, 0);
    totals.spend_input(&mut tx, &mut dates, &mut sent, path, 4_600, 160, 738_010);
    assert_eq!(dates.0[0].blocks[0].amount, 400);
    assert_eq!(dates.0[0].blocks[0].spendable_outputs, 1);
    assert_eq!(sent.get(&path.key()), Some(&SentData { volume: 4_600, count: 1 }));
    assert_eq!(totals.satblocks_destroyed, 60 * 4_600);
    assert_eq!(totals.satdays_destroyed, 10 * 4_600);
    assert_eq!(tx.inputs_sum, 4_600);

    totals.close_tx(&tx);
    assert_eq!(totals.transaction_count, 1);
    assert_eq!(totals.sats_sent, 4_600);
    assert_eq!(totals.fees, vec![100]);
    assert_eq!(totals.fees_total, 100);
}

#[test]
fn coinbase_outputs_count_toward_the_coinbase() {
    let mut totals = BlockTotals::default();
    let mut tx = TxTotals::default();
    totals.count_output(&mut tx, true, 312_500_000);
    assert_eq!(totals.coinbase, 312_500_000);
    assert_eq!(tx.outputs_sum, 0);
    totals.close_tx(&tx);
    assert_eq!(totals.fees, vec![0]);
}

#[test]
fn block_path_keys() {
    assert_eq!(BlockPath::new(0, 0).key(), 0);
    assert_eq!(BlockPath::new(1, 2).key(), 65_538);
    assert!(BlockPath::new(1, 65_535).key() < BlockPath::new(2, 0).key());
}


#[test]
fn parse_block_runs_every_transaction() {
    let mut dates = DateDataVec::default();
    let mut old_block = BlockData::new(100, 1_000, 10);
    old_block.amount = 5_000;
    old_block.spendable_outputs = 2;
    dates.0.push(DateData::new(738_000, vec![old_block]));
    dates.0.push(DateData::new(738_010, vec![BlockData::new(160, 2_000, 20)]));
    let mut sent: BTreeMap<u32, SentData> = BTreeMap::new();

    let path = BlockPath::new(0, 0);
    let txs = vec![
        TxSummary { outputs: vec![312_500_000, 0], inputs: vec![] },
        TxSummary {
            outputs: vec![3_000, 1_500],
            inputs: vec![TxInput { block_path: path, sats: 4_600 }],
        },
        TxSummary {
            outputs: vec![2_000],
            inputs: vec![TxInput { block_path: BlockPath::new(1, 0), sats: 3_000 }],
        },
    ];
    let totals = parse_block(&mut dates, &mut sent, &txs, 160, 738_010);

    assert_eq!(totals.transaction_count, 3);
    assert_eq!(totals.coinbase, 312_500_000);
    assert_eq!(totals.fees, vec![0, 100, 1_000]);
    assert_eq!(totals.fees_total, 1_100);
    assert_eq!(totals.sats_sent, 7_600);
    assert_eq!(totals.satblocks_destroyed, 60 * 4_600);
    assert_eq!(totals.satdays_destroyed, 10 * 4_600);
    assert_eq!(dates.0[0].blocks[0].amount, 400);
    assert_eq!(dates.0[0].blocks[0].spendable_outputs, 1);
    // The coinbase and both other transactions' outputs, less the spent one.
    assert_eq!(dates.0[1].blocks[0].amount, 312_500_000 + 4_500 + 2_000 - 3_000);
    assert_eq!(dates.0[1].blocks[0].spendable_outputs, 3);
    assert_eq!(sent.get(&path.key()), Some(&SentData { volume: 4_600, count: 1 }));
    assert_eq!(
        sent.get(&BlockPath::new(1, 0).key()),
        Some(&SentData { volume: 3_000, count: 1 })
    );
}

fn state() -> IterState {
    IterState {
        height: 100,
        blocks_loop_i: 0,
        blocks_loop_date: None,
        last_day: Some(9),
        first_unsafe_inserted: 101,
        first_unsafe_computed: 50,
    }
}

fn event(date: i32, next_date: Option<i32>) -> BlockEvent {
    BlockEvent {
        date,
        next_date,
        next_is_first_of_month: false,
        block_count: 1_000,
        unsafe_blocks: 100,
    }
}

#[test]
fn first_block_of_a_later_day_pushes_it() {
    let (next, action) = next_step(&state(), event(10, Some(10)));
    assert_eq!(
        action,
        Action {
            push_day: Some(10),
            parse: false,
            height: 100,
            date: 10,
            block_index: 0,
            is_date_last_block: false,
            end: LoopEnd::SameDay,
        }
    );
    assert_eq!(next.blocks_loop_date, Some(10));
    assert_eq!(next.blocks_loop_i, 1);
    assert_eq!(next.last_day, Some(10));

    let (next, action) = next_step(&next, event(10, Some(11)));
    assert_eq!(action.push_day, None);
    assert!(action.parse);
    assert_eq!(action.height, 101);
    assert!(action.is_date_last_block);
    assert_eq!(action.end, LoopEnd::NextDay);
    assert_eq!(next.height, 102);
    assert_eq!(next.blocks_loop_i, 0);
    assert_eq!(next.blocks_loop_date, None);
}

#[test]
fn a_day_already_kept_is_not_pushed_again() {
    let mut s = state();
    s.last_day = Some(10);
    let (_, action) = next_step(&s, event(10, None));
    assert_eq!(action.push_day, None);
    assert!(action.is_date_last_block);
    assert_eq!(action.end, LoopEnd::EndOfMonth { compute: true });
}

#[test]
fn the_month_ends_on_its_last_day_or_near_the_tip() {
    let mut e = event(10, Some(11));
    e.next_is_first_of_month = true;
    let (_, action) = next_step(&state(), e);
    assert_eq!(action.end, LoopEnd::EndOfMonth { compute: true });

    let mut s = state();
    s.height = 750;
    let (_, action) = next_step(&s, event(10, Some(11)));
    assert_eq!(action.end, LoopEnd::EndOfMonth { compute: true });
}

#[test]
fn a_walk_takes_consecutive_heights_and_pushes_later_days() {
    let events = [
        event(10, Some(10)),
        event(10, Some(11)),
        event(11, Some(11)),
        event(11, None),
    ];
    let mut s = state();
    let mut actions = Vec::new();
    for e in events {
        let (next, action) = next_step(&s, e);
        actions.push(action);
        s = next;
    }
    let heights: Vec<usize> = actions.iter().map(|a| a.height).collect();
    assert_eq!(heights, vec![100, 101, 102, 103]);
    let indexes: Vec<usize> = actions.iter().map(|a| a.block_index).collect();
    assert_eq!(indexes, vec![0, 1, 0, 1]);
    let pushed: Vec<Option<i32>> = actions.iter().map(|a| a.push_day).collect();
    assert_eq!(pushed, vec![Some(10), None, Some(11), None]);
    let parsed: Vec<bool> = actions.iter().map(|a| a.parse).collect();
    assert_eq!(parsed, vec![false, true, true, true]);
    assert_eq!(s.last_day, Some(11));
}

#[test]
fn a_timestamp_falls_on_its_utc_day() {
    assert_eq!(timestamp_to_day(0), 719_163);
    assert_eq!(timestamp_to_day(86_399), 719_163);
    assert_eq!(timestamp_to_day(86_400), 719_164);
    assert_eq!(timestamp_to_day(1_231_006_505), 733_410);
}

#[test]
fn a_block_event_knows_when_the_next_day_starts_a_month() {
    let e = block_event(1_231_006_505, Some(1_233_446_400), 1_000, 100);
    assert_eq!(e.date, 733_410);
    assert_eq!(e.next_date, Some(733_439));
    assert!(e.next_is_first_of_month);
    assert_eq!(e.block_count, 1_000);
    assert_eq!(e.unsafe_blocks, 100);

    let e = block_event(1_231_006_505, Some(1_231_469_665), 1_000, 100);
    assert_eq!(e.next_date, Some(733_416));
    assert!(!e.next_is_first_of_month);

    let e = block_event(1_231_006_505, None, 1_000, 100);
    assert_eq!(e.next_date, None);
    assert!(!e.next_is_first_of_month);
}

#[test]
fn try_parse_block_parses_a_consistent_block_as_parse_block_does() {
    let txs = vec![
        TxSummary { outputs: vec![312_500_000], inputs: vec![] },
        TxSummary {
            outputs: vec![3_000, 1_500],
            inputs: vec![TxInput { block_path: BlockPath::new(0, 0), sats: 4_600 }],
        },
    ];
    let mut dates = two_days();
    let mut sent: BTreeMap<u32, SentData> = BTreeMap::new();
    let totals = try_parse_block(&mut dates, &mut sent, &txs, 160, 738_010).unwrap();

    let mut expected_dates = two_days();
    let mut expected_sent: BTreeMap<u32, SentData> = BTreeMap::new();
    let expected = parse_block(&mut expected_dates, &mut expected_sent, &txs, 160, 738_010);
    assert_eq!(totals.fees, expected.fees);
    assert_eq!(totals.sats_sent, expected.sats_sent);
    assert_eq!(totals.coinbase, 312_500_000);
    assert_eq!(dates.0[0].blocks[0].amount, 400);
    assert_eq!(dates.0[1].blocks[0].amount, expected_dates.0[1].blocks[0].amount);
    assert_eq!(sent, expected_sent);
}

#[test]
fn try_parse_block_refuses_an_input_that_spends_nothing() {
    let mut dates = two_days();
    let mut sent: BTreeMap<u32, SentData> = BTreeMap::new();
    // No block at this path.
    let txs = vec![
        TxSummary { outputs: vec![50], inputs: vec![] },
        TxSummary {
            outputs: vec![10],
            inputs: vec![TxInput { block_path: BlockPath::new(5, 0), sats: 20 }],
        },
    ];
    assert!(try_parse_block(&mut dates, &mut sent, &txs, 160, 738_010).is_none());

    // More sats than the block holds.
    let mut dates = two_days();
    let txs = vec![
        TxSummary { outputs: vec![50], inputs: vec![] },
        TxSummary {
            outputs: vec![10],
            inputs: vec![TxInput { block_path: BlockPath::new(0, 0), sats: 5_001 }],
        },
    ];
    assert!(try_parse_block(&mut dates, &mut sent, &txs, 160, 738_010).is_none());

    // Outputs worth more than the inputs.
    let mut dates = two_days();
    let txs = vec![
        TxSummary { outputs: vec![50], inputs: vec![] },
        TxSummary {
            outputs: vec![5_000],
            inputs: vec![TxInput { block_path: BlockPath::new(0, 0), sats: 20 }],
        },
    ];
    assert!(try_parse_block(&mut dates, &mut sent, &txs, 160, 738_010).is_none());
}

#[test]
fn try_parse_block_needs_a_last_block() {
    let mut dates = DateDataVec::default();
    dates.0.push(DateData::new(738_000, vec![]));
    let mut sent: BTreeMap<u32, SentData> = BTreeMap::new();
    let txs = vec![TxSummary { outputs: vec![50], inputs: vec![] }];
    assert!(try_parse_block(&mut dates, &mut sent, &txs, 0, 738_000).is_none());
}

#[test]
fn push_block_adds_a_block_to_the_last_day() {
    let mut dates = two_days();
    dates.push_block(BlockData::new(161, 2_100, 30));
    assert_eq!(dates.0.len(), 2);
    assert_eq!(dates.0[0].blocks.len(), 1);
    assert_eq!(dates.0[1].blocks.len(), 2);
    assert_eq!(dates.0[1].blocks[1].height, 161);
    assert_eq!(dates.0[1].date, 738_010);
}

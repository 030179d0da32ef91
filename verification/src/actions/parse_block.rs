use std::collections::BTreeMap;

use vstd::prelude::*;

use crate::states::date_data_vec::DateDataVec;
use crate::structs::date_data::{BlockData, BlockPath, DateData};

use super::parse::{record_outputs, sent_at, BlockTotals, SentData, TxTotals};

verus! {

/// An input of a transaction: where the output it spends was created, and
/// the sats it held.
#[derive(Debug, Clone, Copy, PartialEq, Eq, Structural)]
pub struct TxInput {
    pub block_path: BlockPath,
    pub sats: u64,
}

/// A transaction of a block: the sats of each of its outputs, and its inputs.
#[derive(Debug, Clone)]
pub struct TxSummary {
    pub outputs: Vec<u64>,
    pub inputs: Vec<TxInput>,
}

/// The totals of a block, as values.
#[verifier::ext_equal]
pub struct TotalsModel {
    pub coinbase: u64,
    pub satblocks_destroyed: u64,
    pub satdays_destroyed: u64,
    pub sats_sent: u64,
    pub transaction_count: usize,
    pub fees: Seq<u64>,
    pub fees_total: u64,
}

/// What parsing a block changes, as values: the blocks of each day, what was
/// sent by block path key, the totals of the block, and the totals of the
/// transaction being parsed.
#[verifier::ext_equal]
pub struct ParseState {
    pub days: Seq<Seq<BlockData>>,
    pub sent: Map<u32, SentData>,
    pub totals: TotalsModel,
    pub tx: TxTotals,
}

pub open spec fn totals_of(t: BlockTotals) -> TotalsModel {
    TotalsModel {
        coinbase: t.coinbase,
        satblocks_destroyed: t.satblocks_destroyed,
        satdays_destroyed: t.satdays_destroyed,
        sats_sent: t.sats_sent,
        transaction_count: t.transaction_count,
        fees: t.fees@,
        fees_total: t.fees_total,
    }
}

/// The blocks of each day.
pub open spec fn days_of(days: Seq<DateData>) -> Seq<Seq<BlockData>> {
    days.map_values(|d: DateData| d.blocks@)
}

/// The day of each day.
pub open spec fn dates_of(days: Seq<DateData>) -> Seq<i32> {
    days.map_values(|d: DateData| d.date)
}

pub open spec fn zero_tx() -> TxTotals {
    TxTotals { inputs_sum: 0, outputs_sum: 0, spendable_sats: 0, utxo_count: 0 }
}

/// After an output of `sats`: it counts toward the coinbase or the
/// transaction's outputs, and is kept when it is not empty.
pub open spec fn output_step(s: ParseState, sats: u64, coinbase: bool) -> ParseState {
    let totals = if coinbase {
        TotalsModel { coinbase: (s.totals.coinbase + sats) as u64, ..s.totals }
    } else {
        s.totals
    };
    let tx = if coinbase {
        s.tx
    } else {
        TxTotals { outputs_sum: (s.tx.outputs_sum + sats) as u64, ..s.tx }
    };
    let tx = if sats != 0 {
        TxTotals {
            spendable_sats: (tx.spendable_sats + sats) as u64,
            utxo_count: (tx.utxo_count + 1) as u32,
            ..tx
        }
    } else {
        tx
    };
    ParseState { totals, tx, ..s }
}

pub open spec fn output_ok(s: ParseState, sats: u64, coinbase: bool) -> bool {
    &&& coinbase ==> s.totals.coinbase + sats <= u64::MAX
    &&& !coinbase ==> s.tx.outputs_sum + sats <= u64::MAX
    &&& sats != 0 ==> s.tx.spendable_sats + sats <= u64::MAX && s.tx.utxo_count < u32::MAX
}

/// After the kept outputs of the transaction join the last block.
pub open spec fn record_step(s: ParseState) -> ParseState {
    let n = s.days.len() - 1;
    let blocks = s.days[n];
    let block = blocks.last();
    ParseState {
        days: s.days.update(
            n,
            blocks.update(
                blocks.len() - 1,
                BlockData {
                    amount: (block.amount + s.tx.spendable_sats) as u64,
                    spendable_outputs: (block.spendable_outputs + s.tx.utxo_count) as u32,
                    ..block
                },
            ),
        ),
        ..s
    }
}

pub open spec fn record_ok(s: ParseState) -> bool {
    &&& s.days.len() > 0
    &&& s.days.last().len() > 0
    &&& s.days.last().last().amount + s.tx.spendable_sats <= u64::MAX
    &&& s.days.last().last().spendable_outputs + s.tx.utxo_count <= u32::MAX
}

/// After an input spends an output created in the block at its path.
pub open spec fn spend_step(
    s: ParseState,
    input: TxInput,
    height: u32,
    date: i32,
    dates: Seq<i32>,
) -> ParseState {
    let di = input.block_path.date_index as int;
    let bi = input.block_path.block_index as int;
    let block = s.days[di][bi];
    let spent = sent_at(s.sent, input.block_path.spec_key());
    ParseState {
        days: s.days.update(
            di,
            s.days[di].update(
                bi,
                BlockData {
                    amount: (block.amount - input.sats) as u64,
                    spendable_outputs: (block.spendable_outputs - 1) as u32,
                    ..block
                },
            ),
        ),
        sent: s.sent.insert(
            input.block_path.spec_key(),
            SentData {
                volume: (spent.volume + input.sats) as u64,
                count: (spent.count + 1) as u32,
            },
        ),
        totals: TotalsModel {
            satblocks_destroyed: (s.totals.satblocks_destroyed + (height - block.height)
                * input.sats) as u64,
            satdays_destroyed: (s.totals.satdays_destroyed + ((date - dates[di]) as u64)
                * input.sats) as u64,
            ..s.totals
        },
        tx: TxTotals { inputs_sum: (s.tx.inputs_sum + input.sats) as u64, ..s.tx },
    }
}

pub open spec fn spend_ok(
    s: ParseState,
    input: TxInput,
    height: u32,
    date: i32,
    dates: Seq<i32>,
) -> bool {
    let di = input.block_path.date_index as int;
    let bi = input.block_path.block_index as int;
    let block = s.days[di][bi];
    let spent = sent_at(s.sent, input.block_path.spec_key());
    &&& di < s.days.len()
    &&& bi < s.days[di].len()
    &&& block.spendable_outputs > 0
    &&& block.amount >= input.sats
    &&& block.height <= height
    &&& s.tx.inputs_sum + input.sats <= u64::MAX
    &&& spent.volume + input.sats <= u64::MAX
    &&& spent.count < u32::MAX
    &&& s.totals.satblocks_destroyed + (height - block.height) * input.sats <= u64::MAX
    &&& s.totals.satdays_destroyed + ((date - dates[di]) as u64) * input.sats <= u64::MAX
}

/// After the transaction is done: counted, its inputs sent, its fee kept.
pub open spec fn close_step(s: ParseState) -> ParseState {
    let fee = (s.tx.inputs_sum - s.tx.outputs_sum) as u64;
    ParseState {
        totals: TotalsModel {
            transaction_count: (s.totals.transaction_count + 1) as usize,
            sats_sent: (s.totals.sats_sent + s.tx.inputs_sum) as u64,
            fees: s.totals.fees.push(fee),
            fees_total: (s.totals.fees_total + fee) as u64,
            ..s.totals
        },
        ..s
    }
}

pub open spec fn close_ok(s: ParseState) -> bool {
    &&& s.tx.inputs_sum >= s.tx.outputs_sum
    &&& s.totals.transaction_count < usize::MAX
    &&& s.totals.sats_sent + s.tx.inputs_sum <= u64::MAX
    &&& s.totals.fees_total + (s.tx.inputs_sum - s.tx.outputs_sum) <= u64::MAX
}

pub open spec fn outputs_fold(s: ParseState, outputs: Seq<u64>, coinbase: bool) -> ParseState
    decreases outputs.len(),
{
    if outputs.len() == 0 {
        s
    } else {
        output_step(outputs_fold(s, outputs.drop_last(), coinbase), outputs.last(), coinbase)
    }
}

pub open spec fn outputs_ok(s: ParseState, outputs: Seq<u64>, coinbase: bool) -> bool
    decreases outputs.len(),
{
    outputs.len() == 0 || (outputs_ok(s, outputs.drop_last(), coinbase) && output_ok(
        outputs_fold(s, outputs.drop_last(), coinbase),
        outputs.last(),
        coinbase,
    ))
}

pub open spec fn inputs_fold(
    s: ParseState,
    inputs: Seq<TxInput>,
    height: u32,
    date: i32,
    dates: Seq<i32>,
) -> ParseState
    decreases inputs.len(),
{
    if inputs.len() == 0 {
        s
    } else {
        spend_step(
            inputs_fold(s, inputs.drop_last(), height, date, dates),
            inputs.last(),
            height,
            date,
            dates,
        )
    }
}

pub open spec fn inputs_ok(
    s: ParseState,
    inputs: Seq<TxInput>,
    height: u32,
    date: i32,
    dates: Seq<i32>,
) -> bool
    decreases inputs.len(),
{
    inputs.len() == 0 || (inputs_ok(s, inputs.drop_last(), height, date, dates) && spend_ok(
        inputs_fold(s, inputs.drop_last(), height, date, dates),
        inputs.last(),
        height,
        date,
        dates,
    ))
}

/// The state after one transaction: its outputs, then its kept outputs join
/// the last block, then its inputs (none for the coinbase), then it is done.
pub open spec fn tx_step(
    s: ParseState,
    tx: TxSummary,
    coinbase: bool,
    height: u32,
    date: i32,
    dates: Seq<i32>,
) -> ParseState {
    let s1 = outputs_fold(ParseState { tx: zero_tx(), ..s }, tx.outputs@, coinbase);
    let s2 = record_step(s1);
    let s3 = if coinbase {
        s2
    } else {
        inputs_fold(s2, tx.inputs@, height, date, dates)
    };
    close_step(s3)
}

pub open spec fn tx_ok(
    s: ParseState,
    tx: TxSummary,
    coinbase: bool,
    height: u32,
    date: i32,
    dates: Seq<i32>,
) -> bool {
    let s0 = ParseState { tx: zero_tx(), ..s };
    let s1 = outputs_fold(s0, tx.outputs@, coinbase);
    let s2 = record_step(s1);
    let s3 = if coinbase {
        s2
    } else {
        inputs_fold(s2, tx.inputs@, height, date, dates)
    };
    &&& outputs_ok(s0, tx.outputs@, coinbase)
    &&& record_ok(s1)
    &&& !coinbase ==> inputs_ok(s2, tx.inputs@, height, date, dates)
    &&& close_ok(s3)
}

/// The state after the transactions `txs`, the first being the coinbase.
pub open spec fn txs_fold(
    s: ParseState,
    txs: Seq<TxSummary>,
    height: u32,
    date: i32,
    dates: Seq<i32>,
) -> ParseState
    decreases txs.len(),
{
    if txs.len() == 0 {
        s
    } else {
        tx_step(
            txs_fold(s, txs.drop_last(), height, date, dates),
            txs.last(),
            txs.len() == 1,
            height,
            date,
            dates,
        )
    }
}

/// Whether every step of parsing the transactions `txs` can run: no output
/// spent that is not there, and no total that overflows.
pub open spec fn txs_ok(
    s: ParseState,
    txs: Seq<TxSummary>,
    height: u32,
    date: i32,
    dates: Seq<i32>,
) -> bool
    decreases txs.len(),
{
    txs.len() == 0 || (txs_ok(s, txs.drop_last(), height, date, dates) && tx_ok(
        txs_fold(s, txs.drop_last(), height, date, dates),
        txs.last(),
        txs.len() == 1,
        height,
        date,
        dates,
    ))
}

/// Where parsing a block starts: the blocks of each day and what was sent
/// so far, with empty totals.
pub open spec fn start_state(days: Seq<DateData>, sent: Map<u32, SentData>) -> ParseState {
    ParseState {
        days: days_of(days),
        sent,
        totals: TotalsModel {
            coinbase: 0,
            satblocks_destroyed: 0,
            satdays_destroyed: 0,
            sats_sent: 0,
            transaction_count: 0,
            fees: Seq::empty(),
            fees_total: 0,
        },
        tx: zero_tx(),
    }
}

/// The state that the values of the parser stand for.
pub open spec fn state_of(
    totals: BlockTotals,
    tx: TxTotals,
    days: Seq<DateData>,
    sent: Map<u32, SentData>,
) -> ParseState {
    ParseState { days: days_of(days), sent, totals: totals_of(totals), tx }
}

proof fn lemma_outputs_ok_prefix(s: ParseState, outputs: Seq<u64>, coinbase: bool, i: int)
    requires
        outputs_ok(s, outputs, coinbase),
        0 <= i <= outputs.len(),
    ensures
        outputs_ok(s, outputs.take(i), coinbase),
    decreases outputs.len(),
{
    if i == outputs.len() {
        assert(outputs.take(i) =~= outputs);
    } else {
        assert(outputs.drop_last().take(i) =~= outputs.take(i));
        lemma_outputs_ok_prefix(s, outputs.drop_last(), coinbase, i);
    }
}

proof fn lemma_inputs_ok_prefix(
    s: ParseState,
    inputs: Seq<TxInput>,
    height: u32,
    date: i32,
    dates: Seq<i32>,
    i: int,
)
    requires
        inputs_ok(s, inputs, height, date, dates),
        0 <= i <= inputs.len(),
    ensures
        inputs_ok(s, inputs.take(i), height, date, dates),
    decreases inputs.len(),
{
    if i == inputs.len() {
        assert(inputs.take(i) =~= inputs);
    } else {
        assert(inputs.drop_last().take(i) =~= inputs.take(i));
        lemma_inputs_ok_prefix(s, inputs.drop_last(), height, date, dates, i);
    }
}

proof fn lemma_txs_ok_prefix(
    s: ParseState,
    txs: Seq<TxSummary>,
    height: u32,
    date: i32,
    dates: Seq<i32>,
    i: int,
)
    requires
        txs_ok(s, txs, height, date, dates),
        0 <= i <= txs.len(),
    ensures
        txs_ok(s, txs.take(i), height, date, dates),
    decreases txs.len(),
{
    if i == txs.len() {
        assert(txs.take(i) =~= txs);
    } else {
        assert(txs.drop_last().take(i) =~= txs.take(i));
        lemma_txs_ok_prefix(s, txs.drop_last(), height, date, dates, i);
    }
}

proof fn lemma_tx_not_ok(
    s: ParseState,
    txs: Seq<TxSummary>,
    height: u32,
    date: i32,
    dates: Seq<i32>,
    t: int,
)
    requires
        0 <= t < txs.len(),
        !tx_ok(txs_fold(s, txs.take(t), height, date, dates), txs[t], t == 0, height, date, dates),
    ensures
        !txs_ok(s, txs, height, date, dates),
{
    if txs_ok(s, txs, height, date, dates) {
        lemma_txs_ok_prefix(s, txs, height, date, dates, t + 1);
        assert(txs.take(t + 1).drop_last() =~= txs.take(t));
        assert(txs.take(t + 1).last() == txs[t]);
    }
}

proof fn lemma_outputs_not_ok(s: ParseState, outputs: Seq<u64>, coinbase: bool, i: int)
    requires
        0 <= i < outputs.len(),
        !output_ok(outputs_fold(s, outputs.take(i), coinbase), outputs[i], coinbase),
    ensures
        !outputs_ok(s, outputs, coinbase),
{
    if outputs_ok(s, outputs, coinbase) {
        lemma_outputs_ok_prefix(s, outputs, coinbase, i + 1);
        assert(outputs.take(i + 1).drop_last() =~= outputs.take(i));
        assert(outputs.take(i + 1).last() == outputs[i]);
    }
}

proof fn lemma_inputs_not_ok(
    s: ParseState,
    inputs: Seq<TxInput>,
    height: u32,
    date: i32,
    dates: Seq<i32>,
    i: int,
)
    requires
        0 <= i < inputs.len(),
        !spend_ok(inputs_fold(s, inputs.take(i), height, date, dates), inputs[i], height, date, dates),
    ensures
        !inputs_ok(s, inputs, height, date, dates),
{
    if inputs_ok(s, inputs, height, date, dates) {
        lemma_inputs_ok_prefix(s, inputs, height, date, dates, i + 1);
        assert(inputs.take(i + 1).drop_last() =~= inputs.take(i));
        assert(inputs.take(i + 1).last() == inputs[i]);
    }
}

/// Whether `input` can spend the output it points to while the block at
/// `height`, of day `date`, is parsed: `spend_ok` of where parsing stands.
fn spend_fits(
    totals: &BlockTotals,
    tx: &TxTotals,
    date_data_vec: &DateDataVec,
    sent: &BTreeMap<u32, SentData>,
    input: TxInput,
    height: u32,
    date: i32,
) -> (ok: bool)
    ensures
        ok == spend_ok(
            state_of(*totals, *tx, date_data_vec.0@, sent@),
            input,
            height,
            date,
            dates_of(date_data_vec.0@),
        ),
{
    let date_index = input.block_path.date_index as usize;
    let block_index = input.block_path.block_index as usize;
    if date_index >= date_data_vec.0.len() {
        return false;
    }
    let day = &date_data_vec.0[date_index];
    if block_index >= day.blocks.len() {
        return false;
    }
    let block = &day.blocks[block_index];
    if block.spendable_outputs == 0 || block.amount < input.sats || block.height > height {
        return false;
    }
    let key = input.block_path.key();
    let spent = match sent.get(&key) {
        Some(spent) => *spent,
        None => SentData { volume: 0, count: 0 },
    };
    let blocks_old: u64 = (height - block.height) as u64;
    let days_old: i64 = (date as i64) - (day.date as i64);
    let days_old: u64 = days_old as u64;
    let sats: u128 = input.sats as u128;
    let max: u128 = u64::MAX as u128;
    proof {
        let b = blocks_old as u128;
        let d = days_old as u128;
        assert(b * sats <= max * max) by (nonlinear_arith)
            requires
                b <= max,
                sats <= max,
        ;
        assert(d * sats <= max * max) by (nonlinear_arith)
            requires
                d <= max,
                sats <= max,
        ;
        assert(max * max + max < u128::MAX);
    }
    input.sats <= u64::MAX - tx.inputs_sum && input.sats <= u64::MAX - spent.volume && spent.count
        < u32::MAX && (totals.satblocks_destroyed as u128) + (blocks_old as u128) * sats <= max
        && (totals.satdays_destroyed as u128) + (days_old as u128) * sats <= max
}

/// Parses the transactions of a block as `parse_block` does, checking before
/// each step that it can run. It returns `None` exactly when `txs_ok` does not
/// hold, that is when an input spends an output that is not there or a total
/// would overflow; the days and what was sent are then left as they stood when
/// the step that cannot run was met.
pub fn try_parse_block(
    date_data_vec: &mut DateDataVec,
    sent: &mut BTreeMap<u32, SentData>,
    txs: &[TxSummary],
    height: u32,
    date: i32,
) -> (res: Option<BlockTotals>)
    ensures
        res is Some <==> txs_ok(
            start_state(old(date_data_vec).0@, old(sent)@),
            txs@,
            height,
            date,
            dates_of(old(date_data_vec).0@),
        ),
        res matches Some(totals) ==> ({
            let end = txs_fold(
                start_state(old(date_data_vec).0@, old(sent)@),
                txs@,
                height,
                date,
                dates_of(old(date_data_vec).0@),
            );
            &&& days_of(final(date_data_vec).0@) == end.days
            &&& dates_of(final(date_data_vec).0@) == dates_of(old(date_data_vec).0@)
            &&& final(sent)@ == end.sent
            &&& totals_of(totals) == end.totals
        }),
{
    let ghost start = start_state(date_data_vec.0@, sent@);
    let ghost dates = dates_of(date_data_vec.0@);
    let mut totals = BlockTotals {
        coinbase: 0,
        satblocks_destroyed: 0,
        satdays_destroyed: 0,
        sats_sent: 0,
        transaction_count: 0,
        fees: Vec::new(),
        fees_total: 0,
    };
    let mut t: usize = 0;
    while t < txs.len()
        invariant
            0 <= t <= txs@.len(),
            start == start_state(old(date_data_vec).0@, old(sent)@),
            dates == dates_of(old(date_data_vec).0@),
            txs_ok(start, txs@.take(t as int), height, date, dates),
            dates_of(date_data_vec.0@) == dates,
            days_of(date_data_vec.0@) == txs_fold(start, txs@.take(t as int), height, date, dates).days,
            sent@ == txs_fold(start, txs@.take(t as int), height, date, dates).sent,
            totals_of(totals) =~= txs_fold(start, txs@.take(t as int), height, date, dates).totals,
        decreases txs@.len() - t,
    {
        let ghost before = txs_fold(start, txs@.take(t as int), height, date, dates);
        let ghost s0 = ParseState { tx: zero_tx(), ..before };
        let tx = &txs[t];
        let is_coinbase = t == 0;
        proof {
            assert(txs@.take(t + 1).drop_last() =~= txs@.take(t as int));
            assert(txs@.take(t + 1).last() == txs@[t as int]);
        }
        let mut tt = TxTotals { inputs_sum: 0, outputs_sum: 0, spendable_sats: 0, utxo_count: 0 };
        let mut i: usize = 0;
        while i < tx.outputs.len()
            invariant
                0 <= t < txs@.len(),
                *tx == txs@[t as int],
                is_coinbase == (t == 0),
                start == start_state(old(date_data_vec).0@, old(sent)@),
                dates == dates_of(old(date_data_vec).0@),
                before == txs_fold(start, txs@.take(t as int), height, date, dates),
                s0 == (ParseState { tx: zero_tx(), ..before }),
                0 <= i <= tx.outputs@.len(),
                outputs_ok(s0, tx.outputs@.take(i as int), is_coinbase),
                dates_of(date_data_vec.0@) == dates,
                state_of(totals, tt, date_data_vec.0@, sent@) =~= outputs_fold(
                    s0,
                    tx.outputs@.take(i as int),
                    is_coinbase,
                ),
            decreases tx.outputs@.len() - i,
        {
            let sats = tx.outputs[i];
            proof {
                assert(tx.outputs@.take(i + 1).drop_last() =~= tx.outputs@.take(i as int));
                assert(tx.outputs@.take(i + 1).last() == tx.outputs@[i as int]);
            }
            let counted_fits = if is_coinbase {
                sats <= u64::MAX - totals.coinbase
            } else {
                sats <= u64::MAX - tt.outputs_sum
            };
            let kept_fits = sats == 0 || (sats <= u64::MAX - tt.spendable_sats && tt.utxo_count
                < u32::MAX);
            if !(counted_fits && kept_fits) {
                proof {
                    lemma_outputs_not_ok(s0, tx.outputs@, is_coinbase, i as int);
                    lemma_tx_not_ok(start, txs@, height, date, dates, t as int);
                }
                return None;
            }
            totals.count_output(&mut tt, is_coinbase, sats);
            if sats != 0 {
                tt.keep_output(sats);
            }
            i += 1;
        }
        proof {
            assert(tx.outputs@.take(i as int) =~= tx.outputs@);
        }
        let ghost s1 = state_of(totals, tt, date_data_vec.0@, sent@);
        let ghost days_before = date_data_vec.0@;
        let record_fits = match date_data_vec.last_block() {
            Some(block) => block.amount <= u64::MAX - tt.spendable_sats && block.spendable_outputs
                <= u32::MAX - tt.utxo_count,
            None => false,
        };
        proof {
            if days_before.len() > 0 {
                assert(days_of(days_before).last() == days_before.last().blocks@);
            }
        }
        if !record_fits {
            proof {
                lemma_tx_not_ok(start, txs@, height, date, dates, t as int);
            }
            return None;
        }
        record_outputs(date_data_vec, &tt);
        proof {
            assert(days_of(date_data_vec.0@) =~= record_step(s1).days) by {
                let n = days_before.len() - 1;
                assert forall|j: int| 0 <= j < days_before.len() implies #[trigger] days_of(
                    date_data_vec.0@,
                )[j] == record_step(s1).days[j] by {
                    if j != n {
                        assert(date_data_vec.0@[j] == days_before[j]);
                    }
                }
            }
            assert(dates_of(date_data_vec.0@) =~= dates_of(days_before)) by {
                let n = days_before.len() - 1;
                assert forall|j: int| 0 <= j < days_before.len() implies #[trigger] dates_of(
                    date_data_vec.0@,
                )[j] == dates_of(days_before)[j] by {
                    if j != n {
                        assert(date_data_vec.0@[j] == days_before[j]);
                    }
                }
            }
        }
        let ghost s2 = record_step(s1);
        if !is_coinbase {
            let mut k: usize = 0;
            while k < tx.inputs.len()
                invariant
                    0 <= t < txs@.len(),
                    *tx == txs@[t as int],
                    is_coinbase == (t == 0),
                    !is_coinbase,
                    start == start_state(old(date_data_vec).0@, old(sent)@),
                    dates == dates_of(old(date_data_vec).0@),
                    before == txs_fold(start, txs@.take(t as int), height, date, dates),
                    s0 == (ParseState { tx: zero_tx(), ..before }),
                    outputs_ok(s0, tx.outputs@, is_coinbase),
                    s1 == outputs_fold(s0, tx.outputs@, is_coinbase),
                    record_ok(s1),
                    s2 == record_step(s1),
                    0 <= k <= tx.inputs@.len(),
                    inputs_ok(s2, tx.inputs@.take(k as int), height, date, dates),
                    dates_of(date_data_vec.0@) == dates,
                    state_of(totals, tt, date_data_vec.0@, sent@) =~= inputs_fold(
                        s2,
                        tx.inputs@.take(k as int),
                        height,
                        date,
                        dates,
                    ),
                decreases tx.inputs@.len() - k,
            {
                let input = tx.inputs[k];
                let ghost sk = state_of(totals, tt, date_data_vec.0@, sent@);
                let ghost days_before = date_data_vec.0@;
                proof {
                    assert(tx.inputs@.take(k + 1).drop_last() =~= tx.inputs@.take(k as int));
                    assert(tx.inputs@.take(k + 1).last() == tx.inputs@[k as int]);
                }
                if !spend_fits(&totals, &tt, date_data_vec, sent, input, height, date) {
                    proof {
                        lemma_inputs_not_ok(s2, tx.inputs@, height, date, dates, k as int);
                        lemma_tx_not_ok(start, txs@, height, date, dates, t as int);
                    }
                    return None;
                }
                totals.spend_input(
                    &mut tt,
                    date_data_vec,
                    sent,
                    input.block_path,
                    input.sats,
                    height,
                    date,
                );
                proof {
                    let di = input.block_path.date_index as int;
                    assert(days_of(date_data_vec.0@) =~= spend_step(sk, input, height, date, dates).days) by {
                        assert forall|j: int| 0 <= j < days_before.len() implies #[trigger] days_of(
                            date_data_vec.0@,
                        )[j] == spend_step(sk, input, height, date, dates).days[j] by {
                            if j != di {
                                assert(date_data_vec.0@[j] == days_before[j]);
                            }
                        }
                    }
                    assert(dates_of(date_data_vec.0@) =~= dates_of(days_before)) by {
                        assert forall|j: int| 0 <= j < days_before.len() implies #[trigger] dates_of(
                            date_data_vec.0@,
                        )[j] == dates_of(days_before)[j] by {
                            if j != di {
                                assert(date_data_vec.0@[j] == days_before[j]);
                            }
                        }
                    }
                }
                k += 1;
            }
            proof {
                assert(tx.inputs@.take(k as int) =~= tx.inputs@);
            }
        }
        let close_fits = tt.inputs_sum >= tt.outputs_sum && totals.transaction_count < usize::MAX
            && tt.inputs_sum <= u64::MAX - totals.sats_sent && tt.inputs_sum - tt.outputs_sum
            <= u64::MAX - totals.fees_total;
        if !close_fits {
            proof {
                lemma_tx_not_ok(start, txs@, height, date, dates, t as int);
            }
            return None;
        }
        totals.close_tx(&tt);
        t += 1;
    }
    proof {
        assert(txs@.take(t as int) =~= txs@);
    }
    Some(totals)
}

/// Parses the transactions of a block, the first being its coinbase, at
/// `height` and of day `date`, the block being already the last one kept.
///
/// For each transaction: its outputs count toward the coinbase or its
/// outputs, its non-empty outputs join the last block, its inputs (none for
/// the coinbase) spend the outputs they point to, and its fee is kept. The
/// result is exactly `txs_fold` of where it starts.
pub fn parse_block(
    date_data_vec: &mut DateDataVec,
    sent: &mut BTreeMap<u32, SentData>,
    txs: &[TxSummary],
    height: u32,
    date: i32,
) -> (res: BlockTotals)
    requires
        txs_ok(
            start_state(old(date_data_vec).0@, old(sent)@),
            txs@,
            height,
            date,
            dates_of(old(date_data_vec).0@),
        ),
    ensures
        ({
            let end = txs_fold(
                start_state(old(date_data_vec).0@, old(sent)@),
                txs@,
                height,
                date,
                dates_of(old(date_data_vec).0@),
            );
            &&& days_of(final(date_data_vec).0@) == end.days
            &&& dates_of(final(date_data_vec).0@) == dates_of(old(date_data_vec).0@)
            &&& final(sent)@ == end.sent
            &&& totals_of(res) == end.totals
        }),
        res.transaction_count == txs@.len(),
        res.coinbase == if txs@.len() > 0 {
            sats_sum(txs@[0].outputs@)
        } else {
            0
        },
        res.fees@ == fees_of(txs@),
        res.fees_total == fees_sum(txs@),
        res.sats_sent == inputs_sum(block_inputs(txs@)),
        days_total(days_of(final(date_data_vec).0@)) == days_total(days_of(old(date_data_vec).0@))
            + outputs_total(txs@) - inputs_sum(block_inputs(txs@)),
        forall|key: u32|
            #[trigger] sent_at(final(sent)@, key) == (SentData {
                volume: (sent_at(old(sent)@, key).volume + inputs_sats_at(block_inputs(txs@), key)) as u64,
                count: (sent_at(old(sent)@, key).count + inputs_count_at(block_inputs(txs@), key)) as u32,
            }),
{
    let ghost start = start_state(date_data_vec.0@, sent@);
    let ghost dates = dates_of(date_data_vec.0@);
    let totals = match try_parse_block(date_data_vec, sent, txs, height, date) {
        Some(totals) => totals,
        None => {
            proof {
                assert(false);
            }
            BlockTotals {
                coinbase: 0,
                satblocks_destroyed: 0,
                satdays_destroyed: 0,
                sats_sent: 0,
                transaction_count: 0,
                fees: Vec::new(),
                fees_total: 0,
            }
        },
    };
    proof {
        lemma_parse_block_totals(start, txs@, height, date, dates);
        assert(start.totals.fees + fees_of(txs@) =~= fees_of(txs@));
        let e = txs_fold(start, txs@, height, date, dates);
        assert forall|key: u32| #[trigger] sent_at(sent@, key) == (SentData {
            volume: (sent_at(start.sent, key).volume + inputs_sats_at(block_inputs(txs@), key)) as u64,
            count: (sent_at(start.sent, key).count + inputs_count_at(block_inputs(txs@), key)) as u32,
        }) by {
            assert(sent_at(e.sent, key).volume == sent_at(start.sent, key).volume + inputs_sats_at(
                block_inputs(txs@),
                key,
            ));
            assert(sent_at(e.sent, key).count == sent_at(start.sent, key).count + inputs_count_at(
                block_inputs(txs@),
                key,
            ));
        }
    }
    totals
}

/// The sum of sats.
pub open spec fn sats_sum(s: Seq<u64>) -> int
    decreases s.len(),
{
    if s.len() == 0 {
        0
    } else {
        sats_sum(s.drop_last()) + s.last()
    }
}

/// The sats of the inputs `s`.
pub open spec fn inputs_sum(s: Seq<TxInput>) -> int
    decreases s.len(),
{
    if s.len() == 0 {
        0
    } else {
        inputs_sum(s.drop_last()) + s.last().sats
    }
}

/// The sats of the inputs `s` that spend outputs of the block with path key
/// `key`.
pub open spec fn inputs_sats_at(s: Seq<TxInput>, key: u32) -> int
    decreases s.len(),
{
    if s.len() == 0 {
        0
    } else {
        inputs_sats_at(s.drop_last(), key) + if s.last().block_path.spec_key() == key {
            s.last().sats as int
        } else {
            0
        }
    }
}

/// The number of the inputs `s` that spend outputs of the block with path
/// key `key`.
pub open spec fn inputs_count_at(s: Seq<TxInput>, key: u32) -> int
    decreases s.len(),
{
    if s.len() == 0 {
        0
    } else {
        inputs_count_at(s.drop_last(), key) + if s.last().block_path.spec_key() == key {
            1int
        } else {
            0
        }
    }
}

/// The inputs of the transactions `txs` but the first, the coinbase, in
/// order.
pub open spec fn block_inputs(txs: Seq<TxSummary>) -> Seq<TxInput>
    decreases txs.len(),
{
    if txs.len() <= 1 {
        Seq::empty()
    } else {
        block_inputs(txs.drop_last()) + txs.last().inputs@
    }
}

/// The sats of every output of the transactions `txs`.
pub open spec fn outputs_total(txs: Seq<TxSummary>) -> int
    decreases txs.len(),
{
    if txs.len() == 0 {
        0
    } else {
        outputs_total(txs.drop_last()) + sats_sum(txs.last().outputs@)
    }
}

/// The fee of a transaction: what its inputs hold beyond its outputs; none
/// for the coinbase.
pub open spec fn tx_fee(tx: TxSummary, coinbase: bool) -> int {
    if coinbase {
        0
    } else {
        inputs_sum(tx.inputs@) - sats_sum(tx.outputs@)
    }
}

/// The fees of the transactions `txs`, the first being the coinbase.
pub open spec fn fees_of(txs: Seq<TxSummary>) -> Seq<u64> {
    Seq::new(txs.len(), |t: int| tx_fee(txs[t], t == 0) as u64)
}

/// The sum of the fees of the transactions `txs`.
pub open spec fn fees_sum(txs: Seq<TxSummary>) -> int
    decreases txs.len(),
{
    if txs.len() == 0 {
        0
    } else {
        fees_sum(txs.drop_last()) + tx_fee(txs.last(), txs.len() == 1)
    }
}

/// The sats held by the blocks `b`.
pub open spec fn blocks_total(b: Seq<BlockData>) -> int
    decreases b.len(),
{
    if b.len() == 0 {
        0
    } else {
        blocks_total(b.drop_last()) + b.last().amount
    }
}

/// The sats held by the blocks of all days.
pub open spec fn days_total(d: Seq<Seq<BlockData>>) -> int
    decreases d.len(),
{
    if d.len() == 0 {
        0
    } else {
        days_total(d.drop_last()) + blocks_total(d.last())
    }
}

proof fn lemma_blocks_total_update(b: Seq<BlockData>, i: int, x: BlockData)
    requires
        0 <= i < b.len(),
    ensures
        blocks_total(b.update(i, x)) == blocks_total(b) - b[i].amount + x.amount,
    decreases b.len(),
{
    let u = b.update(i, x);
    if i == b.len() - 1 {
        assert(u.drop_last() =~= b.drop_last());
    } else {
        assert(u.drop_last() =~= b.drop_last().update(i, x));
        lemma_blocks_total_update(b.drop_last(), i, x);
    }
}

proof fn lemma_days_total_update(d: Seq<Seq<BlockData>>, i: int, x: Seq<BlockData>)
    requires
        0 <= i < d.len(),
    ensures
        days_total(d.update(i, x)) == days_total(d) - blocks_total(d[i]) + blocks_total(x),
    decreases d.len(),
{
    let u = d.update(i, x);
    if i == d.len() - 1 {
        assert(u.drop_last() =~= d.drop_last());
    } else {
        assert(u.drop_last() =~= d.drop_last().update(i, x));
        lemma_days_total_update(d.drop_last(), i, x);
    }
}

proof fn lemma_inputs_concat(a: Seq<TxInput>, b: Seq<TxInput>, key: u32)
    ensures
        inputs_sum(a + b) == inputs_sum(a) + inputs_sum(b),
        inputs_sats_at(a + b, key) == inputs_sats_at(a, key) + inputs_sats_at(b, key),
        inputs_count_at(a + b, key) == inputs_count_at(a, key) + inputs_count_at(b, key),
    decreases b.len(),
{
    if b.len() == 0 {
        assert(a + b =~= a);
    } else {
        assert((a + b).drop_last() =~= a + b.drop_last());
        lemma_inputs_concat(a, b.drop_last(), key);
    }
}

/// What the outputs of a transaction add: the coinbase or the transaction's
/// outputs, and its kept sats; the days and what was sent stay.
proof fn lemma_outputs_fold(s: ParseState, outputs: Seq<u64>, coinbase: bool)
    requires
        outputs_ok(s, outputs, coinbase),
    ensures
        ({
            let e = outputs_fold(s, outputs, coinbase);
            &&& e.days == s.days
            &&& e.sent == s.sent
            &&& e.totals.coinbase == s.totals.coinbase + if coinbase {
                sats_sum(outputs)
            } else {
                0
            }
            &&& e.tx.outputs_sum == s.tx.outputs_sum + if coinbase {
                0
            } else {
                sats_sum(outputs)
            }
            &&& e.tx.spendable_sats == s.tx.spendable_sats + sats_sum(outputs)
            &&& e.tx.inputs_sum == s.tx.inputs_sum
            &&& e.totals.transaction_count == s.totals.transaction_count
            &&& e.totals.fees == s.totals.fees
            &&& e.totals.fees_total == s.totals.fees_total
            &&& e.totals.sats_sent == s.totals.sats_sent
        }),
    decreases outputs.len(),
{
    if outputs.len() > 0 {
        lemma_outputs_fold(s, outputs.drop_last(), coinbase);
    }
}

/// What the inputs of a transaction take: their sats from the days and into
/// what was sent, by block path key.
proof fn lemma_inputs_fold(
    s: ParseState,
    inputs: Seq<TxInput>,
    height: u32,
    date: i32,
    dates: Seq<i32>,
)
    requires
        inputs_ok(s, inputs, height, date, dates),
    ensures
        ({
            let e = inputs_fold(s, inputs, height, date, dates);
            &&& days_total(e.days) == days_total(s.days) - inputs_sum(inputs)
            &&& e.days.len() == s.days.len()
            &&& forall|j: int| 0 <= j < s.days.len() ==> (#[trigger] e.days[j]).len() == s.days[j].len()
            &&& forall|key: u32|
                #[trigger] sent_at(e.sent, key).volume == sent_at(s.sent, key).volume
                    + inputs_sats_at(inputs, key)
            &&& forall|key: u32|
                #[trigger] sent_at(e.sent, key).count == sent_at(s.sent, key).count
                    + inputs_count_at(inputs, key)
            &&& e.tx.inputs_sum == s.tx.inputs_sum + inputs_sum(inputs)
            &&& e.tx.outputs_sum == s.tx.outputs_sum
            &&& e.totals.coinbase == s.totals.coinbase
            &&& e.totals.transaction_count == s.totals.transaction_count
            &&& e.totals.fees == s.totals.fees
            &&& e.totals.fees_total == s.totals.fees_total
            &&& e.totals.sats_sent == s.totals.sats_sent
        }),
    decreases inputs.len(),
{
    if inputs.len() > 0 {
        let prev = inputs_fold(s, inputs.drop_last(), height, date, dates);
        lemma_inputs_fold(s, inputs.drop_last(), height, date, dates);
        let input = inputs.last();
        let di = input.block_path.date_index as int;
        let bi = input.block_path.block_index as int;
        let block = prev.days[di][bi];
        let nb = BlockData {
            amount: (block.amount - input.sats) as u64,
            spendable_outputs: (block.spendable_outputs - 1) as u32,
            ..block
        };
        lemma_blocks_total_update(prev.days[di], bi, nb);
        lemma_days_total_update(prev.days, di, prev.days[di].update(bi, nb));
        let e = inputs_fold(s, inputs, height, date, dates);
        assert forall|key: u32| #[trigger] sent_at(e.sent, key).volume == sent_at(s.sent, key).volume
            + inputs_sats_at(inputs, key) by {
            assert(sent_at(prev.sent, key).volume == sent_at(s.sent, key).volume + inputs_sats_at(
                inputs.drop_last(),
                key,
            ));
        }
        assert forall|key: u32| #[trigger] sent_at(e.sent, key).count == sent_at(s.sent, key).count
            + inputs_count_at(inputs, key) by {
            assert(sent_at(prev.sent, key).count == sent_at(s.sent, key).count + inputs_count_at(
                inputs.drop_last(),
                key,
            ));
        }
        assert forall|j: int| 0 <= j < s.days.len() implies (#[trigger] e.days[j]).len()
            == s.days[j].len() by {
            assert(prev.days[j].len() == s.days[j].len());
        }
    }
}

/// What one transaction changes in the totals, the days and what was sent.
proof fn lemma_tx_step(
    s: ParseState,
    tx: TxSummary,
    coinbase: bool,
    height: u32,
    date: i32,
    dates: Seq<i32>,
)
    requires
        tx_ok(s, tx, coinbase, height, date, dates),
    ensures
        ({
            let e = tx_step(s, tx, coinbase, height, date, dates);
            let ins = if coinbase {
                Seq::<TxInput>::empty()
            } else {
                tx.inputs@
            };
            &&& e.totals.transaction_count == s.totals.transaction_count + 1
            &&& e.totals.coinbase == s.totals.coinbase + if coinbase {
                sats_sum(tx.outputs@)
            } else {
                0
            }
            &&& e.totals.fees == s.totals.fees.push(tx_fee(tx, coinbase) as u64)
            &&& e.totals.fees_total == s.totals.fees_total + tx_fee(tx, coinbase)
            &&& e.totals.sats_sent == s.totals.sats_sent + inputs_sum(ins)
            &&& days_total(e.days) == days_total(s.days) + sats_sum(tx.outputs@) - inputs_sum(ins)
            &&& e.days.len() == s.days.len()
            &&& forall|j: int| 0 <= j < s.days.len() ==> (#[trigger] e.days[j]).len() == s.days[j].len()
            &&& forall|key: u32|
                #[trigger] sent_at(e.sent, key).volume == sent_at(s.sent, key).volume
                    + inputs_sats_at(ins, key)
            &&& forall|key: u32|
                #[trigger] sent_at(e.sent, key).count == sent_at(s.sent, key).count
                    + inputs_count_at(ins, key)
        }),
{
    let s0 = ParseState { tx: zero_tx(), ..s };
    let s1 = outputs_fold(s0, tx.outputs@, coinbase);
    lemma_outputs_fold(s0, tx.outputs@, coinbase);
    let s2 = record_step(s1);
    let n = s1.days.len() - 1;
    let blocks = s1.days[n];
    let block = blocks.last();
    let nb = BlockData {
        amount: (block.amount + s1.tx.spendable_sats) as u64,
        spendable_outputs: (block.spendable_outputs + s1.tx.utxo_count) as u32,
        ..block
    };
    lemma_blocks_total_update(blocks, blocks.len() - 1, nb);
    lemma_days_total_update(s1.days, n, blocks.update(blocks.len() - 1, nb));
    assert forall|j: int| 0 <= j < s.days.len() implies (#[trigger] s2.days[j]).len()
        == s.days[j].len() by {}
    if !coinbase {
        lemma_inputs_fold(s2, tx.inputs@, height, date, dates);
    } else {
        assert forall|key: u32| #[trigger] inputs_sats_at(Seq::<TxInput>::empty(), key) == 0 by {}
        assert forall|key: u32| #[trigger] inputs_count_at(Seq::<TxInput>::empty(), key) == 0 by {}
    }
}

/// The totals of a block, what it leaves in the days and what it sends:
/// one transaction counted per transaction, the coinbase as the sum of the
/// first transaction's outputs, each transaction's fee (none for the
/// coinbase) and their sum, the sats of the inputs as what is sent, the sats
/// held by the days grown by the outputs and shrunk by the inputs, and what
/// was sent from each block grown by the inputs that spend its outputs.
pub proof fn lemma_parse_block_totals(
    s: ParseState,
    txs: Seq<TxSummary>,
    height: u32,
    date: i32,
    dates: Seq<i32>,
)
    requires
        txs_ok(s, txs, height, date, dates),
    ensures
        ({
            let e = txs_fold(s, txs, height, date, dates);
            &&& e.totals.transaction_count == s.totals.transaction_count + txs.len()
            &&& e.totals.coinbase == s.totals.coinbase + if txs.len() > 0 {
                sats_sum(txs[0].outputs@)
            } else {
                0
            }
            &&& e.totals.fees == s.totals.fees + fees_of(txs)
            &&& e.totals.fees_total == s.totals.fees_total + fees_sum(txs)
            &&& e.totals.sats_sent == s.totals.sats_sent + inputs_sum(block_inputs(txs))
            &&& days_total(e.days) == days_total(s.days) + outputs_total(txs) - inputs_sum(
                block_inputs(txs),
            )
            &&& e.days.len() == s.days.len()
            &&& forall|j: int| 0 <= j < s.days.len() ==> (#[trigger] e.days[j]).len() == s.days[j].len()
            &&& forall|key: u32|
                #[trigger] sent_at(e.sent, key).volume == sent_at(s.sent, key).volume
                    + inputs_sats_at(block_inputs(txs), key)
            &&& forall|key: u32|
                #[trigger] sent_at(e.sent, key).count == sent_at(s.sent, key).count
                    + inputs_count_at(block_inputs(txs), key)
        }),
    decreases txs.len(),
{
    if txs.len() == 0 {
        assert(s.totals.fees + fees_of(txs) =~= s.totals.fees);
    } else {
        let prev = txs_fold(s, txs.drop_last(), height, date, dates);
        lemma_parse_block_totals(s, txs.drop_last(), height, date, dates);
        let coinbase = txs.len() == 1;
        lemma_tx_step(prev, txs.last(), coinbase, height, date, dates);
        let ins = if coinbase {
            Seq::<TxInput>::empty()
        } else {
            txs.last().inputs@
        };
        assert(block_inputs(txs) =~= block_inputs(txs.drop_last()) + ins);
        assert(fees_of(txs) =~= fees_of(txs.drop_last()).push(tx_fee(txs.last(), coinbase) as u64));
        let e = txs_fold(s, txs, height, date, dates);
        assert forall|key: u32| #[trigger] sent_at(e.sent, key).volume == sent_at(s.sent, key).volume
            + inputs_sats_at(block_inputs(txs), key) by {
            lemma_inputs_concat(block_inputs(txs.drop_last()), ins, key);
            assert(sent_at(prev.sent, key).volume == sent_at(s.sent, key).volume + inputs_sats_at(
                block_inputs(txs.drop_last()),
                key,
            ));
        }
        assert forall|key: u32| #[trigger] sent_at(e.sent, key).count == sent_at(s.sent, key).count
            + inputs_count_at(block_inputs(txs), key) by {
            lemma_inputs_concat(block_inputs(txs.drop_last()), ins, key);
            assert(sent_at(prev.sent, key).count == sent_at(s.sent, key).count + inputs_count_at(
                block_inputs(txs.drop_last()),
                key,
            ));
        }
        lemma_inputs_concat(block_inputs(txs.drop_last()), ins, 0);
        assert forall|j: int| 0 <= j < s.days.len() implies (#[trigger] e.days[j]).len()
            == s.days[j].len() by {
            assert(prev.days[j].len() == s.days[j].len());
        }
        if txs.len() > 1 {
            assert(txs.drop_last()[0] == txs[0]);
        }
    }
}

} // verus!

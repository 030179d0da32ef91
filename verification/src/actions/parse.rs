use std::collections::BTreeMap;

use vstd::prelude::*;

use crate::states::date_data_vec::DateDataVec;
use crate::structs::date_data::{BlockData, BlockPath};

verus! {

/// What was sent from outputs of one block: the amount, in sats, and the
/// number of outputs.
#[derive(Debug, Clone, Copy, Default, PartialEq, Eq, Structural)]
pub struct SentData {
    pub volume: u64,
    pub count: u32,
}

impl SentData {
    /// One more output sent, holding `sats`.
    pub fn send(&mut self, sats: u64)
        requires
            old(self).volume + sats <= u64::MAX,
            old(self).count < u32::MAX,
        ensures
            final(self).volume == old(self).volume + sats,
            final(self).count == old(self).count + 1,
    {
        self.volume += sats;
        self.count += 1;
    }
}

/// What was sent, by the key of the path of the block that created the spent
/// outputs.
pub open spec fn sent_at(sent: Map<u32, SentData>, key: u32) -> SentData {
    if sent.contains_key(key) {
        sent[key]
    } else {
        SentData { volume: 0, count: 0 }
    }
}

/// The totals of one transaction being parsed: the sats spent by its inputs
/// and created by its outputs, and the sats and number of the outputs that
/// are kept as unspent.
#[derive(Debug, Clone, Copy, Default, PartialEq, Eq, Structural)]
pub struct TxTotals {
    pub inputs_sum: u64,
    pub outputs_sum: u64,
    pub spendable_sats: u64,
    pub utxo_count: u32,
}

impl TxTotals {
    /// One more output kept as unspent, holding `sats`.
    pub fn keep_output(&mut self, sats: u64)
        requires
            old(self).spendable_sats + sats <= u64::MAX,
            old(self).utxo_count < u32::MAX,
        ensures
            *final(self) == (TxTotals {
                spendable_sats: (old(self).spendable_sats + sats) as u64,
                utxo_count: (old(self).utxo_count + 1) as u32,
                ..*old(self)
            }),
    {
        self.spendable_sats += sats;
        self.utxo_count += 1;
    }
}

/// The totals of one block being parsed.
#[derive(Debug, Default)]
pub struct BlockTotals {
    pub coinbase: u64,
    pub satblocks_destroyed: u64,
    pub satdays_destroyed: u64,
    pub sats_sent: u64,
    pub transaction_count: usize,
    pub fees: Vec<u64>,
    pub fees_total: u64,
}

impl BlockTotals {
    /// An output of `sats` created by a transaction: it counts toward the
    /// coinbase when the transaction is the coinbase, toward the
    /// transaction's outputs otherwise.
    pub fn count_output(&mut self, tx: &mut TxTotals, is_coinbase: bool, sats: u64)
        requires
            is_coinbase ==> old(self).coinbase + sats <= u64::MAX,
            !is_coinbase ==> old(tx).outputs_sum + sats <= u64::MAX,
        ensures
            is_coinbase ==> final(self).coinbase == old(self).coinbase + sats && *final(tx) == *old(tx),
            !is_coinbase ==> final(self).coinbase == old(self).coinbase && *final(tx) == (TxTotals {
                outputs_sum: (old(tx).outputs_sum + sats) as u64,
                ..*old(tx)
            }),
            final(self).satblocks_destroyed == old(self).satblocks_destroyed,
            final(self).satdays_destroyed == old(self).satdays_destroyed,
            final(self).sats_sent == old(self).sats_sent,
            final(self).transaction_count == old(self).transaction_count,
            final(self).fees@ == old(self).fees@,
            final(self).fees_total == old(self).fees_total,
    {
        if is_coinbase {
            self.coinbase += sats;
        } else {
            tx.outputs_sum += sats;
        }
    }

    /// An input spends `input_sats` from an output created in the block at
    /// `block_path`, while the block at `height`, of day `date`, is parsed.
    ///
    /// That block loses the output and its sats, what was sent from it grows,
    /// and the sats destroyed grow by the sats spent times the number of
    /// blocks and of days since they were created.
    pub fn spend_input(
        &mut self,
        tx: &mut TxTotals,
        date_data_vec: &mut DateDataVec,
        sent: &mut BTreeMap<u32, SentData>,
        block_path: BlockPath,
        input_sats: u64,
        height: u32,
        date: i32,
    )
        requires
            block_path.date_index < old(date_data_vec).0@.len(),
            block_path.block_index < old(date_data_vec).0@[block_path.date_index as int].blocks@.len(),
            ({
                let day = old(date_data_vec).0@[block_path.date_index as int];
                let block = day.blocks@[block_path.block_index as int];
                let spent = sent_at(old(sent)@, block_path.spec_key());
                &&& block.spendable_outputs > 0
                &&& block.amount >= input_sats
                &&& block.height <= height
                &&& old(tx).inputs_sum + input_sats <= u64::MAX
                &&& spent.volume + input_sats <= u64::MAX
                &&& spent.count < u32::MAX
                &&& old(self).satblocks_destroyed + (height - block.height) * input_sats
                    <= u64::MAX
                &&& old(self).satdays_destroyed + ((date - day.date) as u64) * input_sats
                    <= u64::MAX
            }),
        ensures
            ({
                let di = block_path.date_index as int;
                let bi = block_path.block_index as int;
                let day = old(date_data_vec).0@[di];
                let block = day.blocks@[bi];
                let spent = sent_at(old(sent)@, block_path.spec_key());
                &&& final(date_data_vec).0@.len() == old(date_data_vec).0@.len()
                &&& forall|i: int|
                    0 <= i < old(date_data_vec).0@.len() && i != di ==> #[trigger] final(date_data_vec).0@[i] == old(date_data_vec).0@[i]
                &&& final(date_data_vec).0@[di].date == day.date
                &&& final(date_data_vec).0@[di].blocks@ == day.blocks@.update(
                    bi,
                    BlockData {
                        amount: (block.amount - input_sats) as u64,
                        spendable_outputs: (block.spendable_outputs - 1) as u32,
                        ..block
                    },
                )
                &&& final(sent)@ == old(sent)@.insert(
                    block_path.spec_key(),
                    SentData {
                        volume: (spent.volume + input_sats) as u64,
                        count: (spent.count + 1) as u32,
                    },
                )
                &&& *final(tx) == (TxTotals {
                    inputs_sum: (old(tx).inputs_sum + input_sats) as u64,
                    ..*old(tx)
                })
                &&& final(self).satblocks_destroyed == old(self).satblocks_destroyed + (height
                    - block.height) * input_sats
                &&& final(self).satdays_destroyed == old(self).satdays_destroyed + ((date
                    - day.date) as u64) * input_sats
                &&& final(self).coinbase == old(self).coinbase
                &&& final(self).sats_sent == old(self).sats_sent
                &&& final(self).transaction_count == old(self).transaction_count
                &&& final(self).fees@ == old(self).fees@
                &&& final(self).fees_total == old(self).fees_total
            }),
    {
        let date_index = block_path.date_index as usize;
        let block_index = block_path.block_index as usize;

        let date_data = &mut date_data_vec.0[date_index];
        let input_date = date_data.date;
        let input_block_data = &mut date_data.blocks[block_index];

        input_block_data.spendable_outputs -= 1;
        input_block_data.amount -= input_sats;
        let input_height = input_block_data.height;

        tx.inputs_sum += input_sats;

        let key = block_path.key();
        let mut spent = match sent.get(&key) {
            Some(spent) => *spent,
            None => SentData { volume: 0, count: 0 },
        };
        spent.send(input_sats);
        sent.insert(key, spent);

        let blocks_old: u64 = (height - input_height) as u64;
        self.satblocks_destroyed += blocks_old * input_sats;

        let days_old: i64 = (date as i64) - (input_date as i64);
        let days_old: u64 = days_old as u64;
        self.satdays_destroyed += days_old * input_sats;
    }

    /// A transaction is done: it is counted, its inputs are sent, and its fee,
    /// what its inputs hold beyond its outputs, is recorded.
    pub fn close_tx(&mut self, tx: &TxTotals)
        requires
            tx.inputs_sum >= tx.outputs_sum,
            old(self).transaction_count < usize::MAX,
            old(self).sats_sent + tx.inputs_sum <= u64::MAX,
            old(self).fees_total + (tx.inputs_sum - tx.outputs_sum) <= u64::MAX,
        ensures
            final(self).transaction_count == old(self).transaction_count + 1,
            final(self).sats_sent == old(self).sats_sent + tx.inputs_sum,
            final(self).fees@ == old(self).fees@.push((tx.inputs_sum - tx.outputs_sum) as u64),
            final(self).fees_total == old(self).fees_total + (tx.inputs_sum - tx.outputs_sum),
            final(self).coinbase == old(self).coinbase,
            final(self).satblocks_destroyed == old(self).satblocks_destroyed,
            final(self).satdays_destroyed == old(self).satdays_destroyed,
    {
        self.transaction_count += 1;
        self.sats_sent += tx.inputs_sum;
        let fee = tx.inputs_sum - tx.outputs_sum;
        self.fees_total += fee;
        self.fees.push(fee);
    }
}

/// What the script of an output says of it.
#[derive(Debug, Clone, Copy, PartialEq, Eq, Structural)]
pub enum ScriptKind {
    /// An `OP_RETURN` output, which can never be spent.
    OpReturn,
    /// Another output that can never be spent.
    ProvablyUnspendable,
    /// An output that may be spent.
    Spendable,
}

/// An output of a block: its value, in sats, and what its script says.
#[derive(Debug, Clone, Copy, PartialEq, Eq, Structural)]
pub struct TxoutSummary {
    pub value: u64,
    pub kind: ScriptKind,
}

/// What the outputs of a block give: for each output, its value when it is
/// worth keeping (none for an empty output), the sats that can never be spent,
/// and the number of `OP_RETURN` outputs.
#[derive(Debug)]
pub struct TxoutsParsingResults {
    pub partial_txout_data_vec: Vec<Option<u64>>,
    pub provably_unspendable: u64,
    pub op_returns: usize,
}

/// The value kept of an output: none when it is empty.
pub open spec fn kept_value(txout: TxoutSummary) -> Option<u64> {
    if txout.value == 0 {
        None
    } else {
        Some(txout.value)
    }
}

/// The sats of the non-empty outputs of `txouts` that can never be spent.
pub open spec fn unspendable_total(txouts: Seq<TxoutSummary>) -> int
    decreases txouts.len(),
{
    if txouts.len() == 0 {
        0
    } else {
        let last = txouts.last();
        unspendable_total(txouts.drop_last()) + if last.value != 0 && last.kind
            != ScriptKind::Spendable {
            last.value as int
        } else {
            0
        }
    }
}

/// The number of non-empty `OP_RETURN` outputs of `txouts`.
pub open spec fn op_return_count(txouts: Seq<TxoutSummary>) -> int
    decreases txouts.len(),
{
    if txouts.len() == 0 {
        0
    } else {
        let last = txouts.last();
        op_return_count(txouts.drop_last()) + if last.value != 0 && last.kind
            == ScriptKind::OpReturn {
            1int
        } else {
            0
        }
    }
}

/// The number of non-empty `OP_RETURN` outputs adds up over the outputs: that
/// of two runs of outputs one after the other is the sum of theirs.
pub proof fn lemma_op_return_count_adds(a: Seq<TxoutSummary>, b: Seq<TxoutSummary>)
    ensures
        op_return_count(a + b) == op_return_count(a) + op_return_count(b),
    decreases b.len(),
{
    if b.len() == 0 {
        assert(a + b =~= a);
    } else {
        lemma_op_return_count_adds(a, b.drop_last());
        assert((a + b).drop_last() =~= a + b.drop_last());
        assert((a + b).last() == b.last());
    }
}

/// No output counts no `OP_RETURN` output, and one output counts one exactly
/// when it is a non-empty `OP_RETURN` output.
pub proof fn lemma_op_return_count_of_one(txout: TxoutSummary)
    ensures
        op_return_count(Seq::empty()) == 0,
        op_return_count(seq![txout]) == if txout.value != 0 && txout.kind == ScriptKind::OpReturn {
            1int
        } else {
            0
        },
{
    let one = seq![txout];
    assert(one.len() == 1 && one.last() == txout);
    assert(one.drop_last() =~= Seq::<TxoutSummary>::empty());
    assert(op_return_count(one.drop_last()) == 0);
    assert(unspendable_total(one.drop_last()) == 0);
}

/// The sats that can never be spent add up over the outputs: those of two runs
/// of outputs one after the other are the sum of theirs.
pub proof fn lemma_unspendable_total_adds(a: Seq<TxoutSummary>, b: Seq<TxoutSummary>)
    ensures
        unspendable_total(a + b) == unspendable_total(a) + unspendable_total(b),
    decreases b.len(),
{
    if b.len() == 0 {
        assert(a + b =~= a);
    } else {
        lemma_unspendable_total_adds(a, b.drop_last());
        assert((a + b).drop_last() =~= a + b.drop_last());
        assert((a + b).last() == b.last());
    }
}

/// No output has no sats that can never be spent, and one output has its
/// value when it is non-empty and cannot be spent (an `OP_RETURN` output or
/// another unspendable one), none otherwise.
pub proof fn lemma_unspendable_total_of_one(txout: TxoutSummary)
    ensures
        unspendable_total(Seq::empty()) == 0,
        unspendable_total(seq![txout]) == if txout.value != 0 && (txout.kind
            == ScriptKind::OpReturn || txout.kind == ScriptKind::ProvablyUnspendable) {
            txout.value as int
        } else {
            0
        },
{
    let one = seq![txout];
    assert(one.len() == 1 && one.last() == txout);
    assert(one.drop_last() =~= Seq::<TxoutSummary>::empty());
    assert(op_return_count(one.drop_last()) == 0);
    assert(unspendable_total(one.drop_last()) == 0);
}

/// The sats that can never be spent only grow with more outputs.
proof fn lemma_unspendable_total_prefix(txouts: Seq<TxoutSummary>, i: int)
    requires
        0 <= i <= txouts.len(),
    ensures
        0 <= unspendable_total(txouts.take(i)) <= unspendable_total(txouts),
    decreases txouts.len() - i,
{
    if i < txouts.len() {
        lemma_unspendable_total_prefix(txouts, i + 1);
        lemma_unspendable_total_nonneg(txouts.take(i));
        assert(txouts.take(i + 1).drop_last() =~= txouts.take(i));
    } else {
        assert(txouts.take(i) =~= txouts);
        lemma_unspendable_total_nonneg(txouts);
    }
}

proof fn lemma_unspendable_total_nonneg(txouts: Seq<TxoutSummary>)
    ensures
        unspendable_total(txouts) >= 0,
    decreases txouts.len(),
{
    if txouts.len() > 0 {
        lemma_unspendable_total_nonneg(txouts.drop_last());
    }
}

/// Goes through the outputs of a block: keeps the value of each non-empty
/// one, adds up the sats that can never be spent, and counts the `OP_RETURN`
/// outputs.
pub fn parse_txouts(txouts: &[TxoutSummary]) -> (res: TxoutsParsingResults)
    requires
        unspendable_total(txouts@) <= u64::MAX,
    ensures
        res.partial_txout_data_vec@ == txouts@.map_values(|t: TxoutSummary| kept_value(t)),
        res.provably_unspendable == unspendable_total(txouts@),
        res.op_returns == op_return_count(txouts@),
{
    let mut partial_txout_data_vec: Vec<Option<u64>> = Vec::new();
    let mut provably_unspendable: u64 = 0;
    let mut op_returns: usize = 0;
    let mut i: usize = 0;
    while i < txouts.len()
        invariant
            i <= txouts@.len(),
            unspendable_total(txouts@) <= u64::MAX,
            partial_txout_data_vec@ == txouts@.take(i as int).map_values(
                |t: TxoutSummary| kept_value(t),
            ),
            provably_unspendable == unspendable_total(txouts@.take(i as int)),
            op_returns == op_return_count(txouts@.take(i as int)),
            op_returns <= i,
        decreases txouts@.len() - i,
    {
        let txout = txouts[i];
        proof {
            assert(txouts@.take(i + 1).drop_last() =~= txouts@.take(i as int));
            lemma_unspendable_total_prefix(txouts@, i + 1);
        }
        if txout.value == 0 {
            partial_txout_data_vec.push(None);
        } else {
            match txout.kind {
                ScriptKind::OpReturn => {
                    op_returns += 1;
                    provably_unspendable += txout.value;
                },
                ScriptKind::ProvablyUnspendable => {
                    provably_unspendable += txout.value;
                },
                ScriptKind::Spendable => {},
            }
            partial_txout_data_vec.push(Some(txout.value));
        }
        i += 1;
        assert(partial_txout_data_vec@ =~= txouts@.take(i as int).map_values(
            |t: TxoutSummary| kept_value(t),
        ));
    }
    assert(txouts@.take(i as int) =~= txouts@);

    TxoutsParsingResults { partial_txout_data_vec, provably_unspendable, op_returns }
}

/// The unspent outputs of a transaction join the last block: its amount grows
/// by their sats, and its number of outputs by their number.
pub fn record_outputs(date_data_vec: &mut DateDataVec, tx: &TxTotals)
    requires
        old(date_data_vec).0@.len() > 0,
        old(date_data_vec).0@.last().blocks@.len() > 0,
        old(date_data_vec).0@.last().blocks@.last().amount + tx.spendable_sats <= u64::MAX,
        old(date_data_vec).0@.last().blocks@.last().spendable_outputs + tx.utxo_count <= u32::MAX,
    ensures
        ({
            let n = old(date_data_vec).0@.len() - 1;
            let day = old(date_data_vec).0@[n];
            let block = day.blocks@.last();
            &&& final(date_data_vec).0@.len() == old(date_data_vec).0@.len()
            &&& forall|i: int| 0 <= i < n ==> #[trigger] final(date_data_vec).0@[i] == old(date_data_vec).0@[i]
            &&& final(date_data_vec).0@[n].date == day.date
            &&& final(date_data_vec).0@[n].blocks@ == day.blocks@.update(
                day.blocks@.len() - 1,
                BlockData {
                    amount: (block.amount + tx.spendable_sats) as u64,
                    spendable_outputs: (block.spendable_outputs + tx.utxo_count) as u32,
                    ..block
                },
            )
        }),
{
    let last_block = date_data_vec.last_mut_block().unwrap();

    last_block.amount += tx.spendable_sats;

    if tx.utxo_count > 0 {
        last_block.spendable_outputs += tx.utxo_count;
    }
}

} // verus!

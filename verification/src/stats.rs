//! The daily statistics: what each one adds up over the transactions of a
//! batch, and the sums themselves.

use crate::cache::{CacheView, DBCaches};
use crate::error::ProcessError;
use crate::ledger::{
    blocks_view, copy_items, outputs_view, transactions_view, Block, BlockStore, BlockView, OutPoint,
    Transaction, TransactionView, TxInput, TxOutput, TxOutputView,
};
use vstd::prelude::*;

verus! {

/// A statistic that is a sum over the transactions of a batch.
#[derive(Clone, Copy, Debug, PartialEq, Eq, Structural)]
pub enum Statistic {
    /// The number of transactions.
    Transactions,
    /// The number of inputs.
    Inputs,
    /// The number of outputs.
    Outputs,
    /// The amount that coinbase transactions pay out.
    Coinbases,
    /// The amount that the inputs spend.
    Volume,
    /// The amount by which, in each transaction that is no coinbase, the
    /// inputs exceed the outputs.
    Fees,
}

/// The sum of the values of some outputs.
pub open spec fn output_total(outputs: Seq<TxOutputView>) -> int
    decreases outputs.len(),
{
    if outputs.len() == 0 {
        0
    } else {
        output_total(outputs.drop_last()) + outputs.last().value
    }
}

/// The sum of the values of the outputs that some inputs spend, by the
/// values that `values` holds for them.
pub open spec fn input_total(inputs: Seq<TxInput>, values: Map<OutPoint, u64>) -> int
    decreases inputs.len(),
{
    if inputs.len() == 0 {
        0
    } else {
        input_total(inputs.drop_last(), values) + values[inputs.last().previous_output]
    }
}

/// Whether `values` holds the value of the output that each input spends.
pub open spec fn inputs_resolved(inputs: Seq<TxInput>, values: Map<OutPoint, u64>) -> bool {
    forall|i: int| 0 <= i < inputs.len() ==> values.contains_key((#[trigger] inputs[i]).previous_output)
}

/// Whether `values` holds the value of the output that each input of each
/// of the transactions spends.
pub open spec fn block_resolved(txs: Seq<TransactionView>, values: Map<OutPoint, u64>) -> bool {
    forall|t: int| 0 <= t < txs.len() ==> inputs_resolved((#[trigger] txs[t]).input, values)
}

/// Whether `values` holds the value of the output that each input of the
/// batch spends.
pub open spec fn batch_resolved(blocks: Seq<BlockView>, values: Map<OutPoint, u64>) -> bool {
    forall|b: int| 0 <= b < blocks.len() ==> block_resolved((#[trigger] blocks[b]).txdata, values)
}

/// Whether the caches alone give the value of the output that each input
/// spends: the value itself, or the transaction with that output.
pub open spec fn inputs_settled(inputs: Seq<TxInput>, cache: CacheView) -> bool {
    forall|i: int| 0 <= i < inputs.len() ==> cache.gives_value((#[trigger] inputs[i]).previous_output)
}

/// Whether the caches alone give the value of the output that each input of
/// each of the transactions spends.
pub open spec fn block_settled(txs: Seq<TransactionView>, cache: CacheView) -> bool {
    forall|t: int| 0 <= t < txs.len() ==> inputs_settled((#[trigger] txs[t]).input, cache)
}

/// Whether the caches alone give the value of the output that each input of
/// the batch spends, so that the store is not asked for any.
pub open spec fn batch_settled(blocks: Seq<BlockView>, cache: CacheView) -> bool {
    forall|b: int| 0 <= b < blocks.len() ==> block_settled((#[trigger] blocks[b]).txdata, cache)
}

/// The inputs of some transactions, one transaction after the other.
pub open spec fn block_inputs(txs: Seq<TransactionView>) -> Seq<TxInput>
    decreases txs.len(),
{
    if txs.len() == 0 {
        Seq::empty()
    } else {
        block_inputs(txs.drop_last()) + txs.last().input
    }
}

/// The inputs of a batch, block after block and transaction after
/// transaction.
pub open spec fn batch_inputs(blocks: Seq<BlockView>) -> Seq<TxInput>
    decreases blocks.len(),
{
    if blocks.len() == 0 {
        Seq::empty()
    } else {
        batch_inputs(blocks.drop_last()) + block_inputs(blocks.last().txdata)
    }
}

/// The inputs of a batch, block after block and transaction after
/// transaction.
pub fn collect_inputs(blocks: &Vec<Block>) -> (inputs: Vec<TxInput>)
    ensures
        inputs@ == batch_inputs(blocks_view(blocks@)),
{
    let ghost all = blocks_view(blocks@);
    let mut inputs: Vec<TxInput> = Vec::new();
    let mut b: usize = 0;
    while b < blocks.len()
        invariant
            b <= blocks.len(),
            all == blocks_view(blocks@),
            inputs@ == batch_inputs(all.take(b as int)),
        decreases blocks.len() - b,
    {
        let txs = &blocks[b].txdata;
        let ghost views = transactions_view(txs@);
        let ghost before = inputs@;
        assert(all[b as int] == blocks@[b as int]@);
        assert(all.take(b + 1).drop_last() == all.take(b as int));
        let mut t: usize = 0;
        while t < txs.len()
            invariant
                t <= txs.len(),
                views == transactions_view(txs@),
                inputs@ == before + block_inputs(views.take(t as int)),
            decreases txs.len() - t,
        {
            assert(views[t as int] == txs@[t as int]@);
            assert(views.take(t + 1).drop_last() == views.take(t as int));
            let mut copy = copy_items(&txs[t].input);
            inputs.append(&mut copy);
            assert(inputs@ == before + block_inputs(views.take(t + 1)));
            t += 1;
        }
        assert(views.take(t as int) == views);
        b += 1;
    }
    assert(all.take(b as int) == all);
    inputs
}

impl Statistic {
    /// Whether the statistic reads the values of spent outputs.
    pub open spec fn reads_values(self) -> bool {
        self == Statistic::Volume || self == Statistic::Fees
    }

    /// What one transaction adds to the statistic.
    pub open spec fn term(self, tx: TransactionView, values: Map<OutPoint, u64>) -> int {
        match self {
            Statistic::Transactions => 1,
            Statistic::Inputs => tx.input.len() as int,
            Statistic::Outputs => tx.output.len() as int,
            Statistic::Coinbases => if tx.input.len() == 0 {
                output_total(tx.output)
            } else {
                0
            },
            Statistic::Volume => input_total(tx.input, values),
            Statistic::Fees => if tx.input.len() == 0 {
                0
            } else {
                input_total(tx.input, values) - output_total(tx.output)
            },
        }
    }

    /// What the transactions of one block add to the statistic.
    pub open spec fn block_total(self, txs: Seq<TransactionView>, values: Map<OutPoint, u64>) -> int
        decreases txs.len(),
    {
        if txs.len() == 0 {
            0
        } else {
            self.block_total(txs.drop_last(), values) + self.term(txs.last(), values)
        }
    }

    /// The statistic of a batch.
    pub open spec fn batch_total(self, blocks: Seq<BlockView>, values: Map<OutPoint, u64>) -> int
        decreases blocks.len(),
    {
        if blocks.len() == 0 {
            0
        } else {
            self.batch_total(blocks.drop_last(), values) + self.block_total(
                blocks.last().txdata,
                values,
            )
        }
    }

    /// Whether what a transaction adds is an amount of 64 bits: not negative
    /// and not above `u64::MAX`.
    pub open spec fn term_fits(self, tx: TransactionView, values: Map<OutPoint, u64>) -> bool {
        0 <= self.term(tx, values) <= u64::MAX
    }

    /// Whether each transaction of a block adds an amount of 64 bits, and the
    /// block's total is one.
    pub open spec fn block_fits(self, txs: Seq<TransactionView>, values: Map<OutPoint, u64>) -> bool {
        &&& forall|t: int| 0 <= t < txs.len() ==> self.term_fits(#[trigger] txs[t], values)
        &&& 0 <= self.block_total(txs, values) <= u64::MAX
    }

    /// Whether each transaction adds an amount of 64 bits, and the total of
    /// each block and that of the batch are such amounts.
    pub open spec fn fits(self, blocks: Seq<BlockView>, values: Map<OutPoint, u64>) -> bool {
        &&& forall|b: int|
            0 <= b < blocks.len() ==> self.block_fits((#[trigger] blocks[b]).txdata, values)
        &&& 0 <= self.batch_total(blocks, values) <= u64::MAX
    }

    /// The statistic of a batch as a result: the total where the values that
    /// it reads are held and everything fits, else the reason why not.
    pub open spec fn outcome(self, blocks: Seq<BlockView>, values: Map<OutPoint, u64>) -> Result<
        u64,
        ProcessError,
    > {
        if self.reads_values() && !batch_resolved(blocks, values) {
            Err(ProcessError::ReferenceNotFound)
        } else if !self.fits(blocks, values) {
            Err(ProcessError::ArithmeticOverflow)
        } else {
            Ok(self.batch_total(blocks, values) as u64)
        }
    }

    /// What one transaction adds to the statistic, or `None` where that is
    /// no amount of 64 bits.
    pub fn measure(self, tx: &Transaction, caches: &DBCaches) -> (amount: Option<u64>)
        requires
            caches.wf(),
            self.reads_values() ==> inputs_resolved(tx@.input, caches@.values),
        ensures
            amount == if self.term_fits(tx@, caches@.values) {
                Some(self.term(tx@, caches@.values) as u64)
            } else {
                None
            },
    {
        match self {
            Statistic::Transactions => Some(1),
            Statistic::Inputs => Some(tx.input.len() as u64),
            Statistic::Outputs => Some(tx.output.len() as u64),
            Statistic::Coinbases => {
                if tx.input.len() == 0 {
                    narrow(output_sum(&tx.output))
                } else {
                    Some(0)
                }
            },
            Statistic::Volume => narrow(input_sum(&tx.input, caches)),
            Statistic::Fees => {
                if tx.input.len() == 0 {
                    Some(0)
                } else {
                    let sent = input_sum(&tx.input, caches);
                    let received = output_sum(&tx.output);
                    if received <= sent {
                        narrow(sent - received)
                    } else {
                        None
                    }
                }
            },
        }
    }

    /// What the transactions of one block add to the statistic, or `None`
    /// where an amount does not fit.
    pub fn block_tally(self, txs: &Vec<Transaction>, caches: &DBCaches) -> (total: Option<u64>)
        requires
            caches.wf(),
            self.reads_values() ==> block_resolved(transactions_view(txs@), caches@.values),
        ensures
            total == if self.block_fits(transactions_view(txs@), caches@.values) {
                Some(self.block_total(transactions_view(txs@), caches@.values) as u64)
            } else {
                None
            },
    {
        let ghost all = transactions_view(txs@);
        let ghost values = caches@.values;
        let mut sum: u128 = 0;
        let mut t: usize = 0;
        while t < txs.len()
            invariant
                t <= txs.len(),
                caches.wf(),
                all == transactions_view(txs@),
                values == caches@.values,
                self.reads_values() ==> block_resolved(all, values),
                sum == self.block_total(all.take(t as int), values),
                sum <= t * 0xFFFF_FFFF_FFFF_FFFF,
                forall|k: int| 0 <= k < t ==> self.term_fits(#[trigger] all[k], values),
            decreases txs.len() - t,
        {
            assert(all[t as int] == txs@[t as int]@);
            assert(all.take(t + 1).drop_last() == all.take(t as int));
            match self.measure(&txs[t], caches) {
                Some(amount) => {
                    sum = sum + amount as u128;
                },
                None => {
                    return None;
                },
            }
            t += 1;
        }
        assert(all.take(t as int) == all);
        narrow(sum)
    }

    /// The statistic of a batch from the values that the caches hold.
    pub fn tally(self, blocks: &Vec<Block>, caches: &DBCaches) -> (result: Result<u64, ProcessError>)
        requires
            caches.wf(),
            self.reads_values() ==> batch_resolved(blocks_view(blocks@), caches@.values),
        ensures
            result == self.outcome(blocks_view(blocks@), caches@.values),
    {
        let ghost all = blocks_view(blocks@);
        let ghost values = caches@.values;
        let mut sum: u128 = 0;
        let mut b: usize = 0;
        while b < blocks.len()
            invariant
                b <= blocks.len(),
                caches.wf(),
                all == blocks_view(blocks@),
                values == caches@.values,
                self.reads_values() ==> batch_resolved(all, values),
                sum == self.batch_total(all.take(b as int), values),
                sum <= b * 0xFFFF_FFFF_FFFF_FFFF,
                forall|k: int| 0 <= k < b ==> self.block_fits((#[trigger] all[k]).txdata, values),
            decreases blocks.len() - b,
        {
            assert(all[b as int] == blocks@[b as int]@);
            assert(all.take(b + 1).drop_last() == all.take(b as int));
            match self.block_tally(&blocks[b].txdata, caches) {
                Some(amount) => {
                    sum = sum + amount as u128;
                },
                None => {
                    return Err(ProcessError::ArithmeticOverflow);
                },
            }
            b += 1;
        }
        assert(all.take(b as int) == all);
        match narrow(sum) {
            Some(total) => Ok(total),
            None => Err(ProcessError::ArithmeticOverflow),
        }
    }

    /// The statistic of a batch. A statistic that reads the values of spent
    /// outputs first resolves every input of the batch against the caches
    /// and the store; the total is then taken from the caches. A reference is
    /// not found only where the caches, after the store was asked, still do
    /// not give the value of an output that is spent.
    pub fn compute<S: BlockStore>(self, blocks: &Vec<Block>, db: &S, caches: &mut DBCaches) -> (result:
        Result<u64, ProcessError>)
        requires
            old(caches).wf(),
        ensures
            final(caches).wf(),
            old(caches)@.extended_by(final(caches)@),
            final(caches)@.blocks == old(caches)@.blocks,
            final(caches)@.dates == old(caches)@.dates,
            !self.reads_values() || batch_resolved(blocks_view(blocks@), old(caches)@.values)
                ==> final(caches)@ == old(caches)@,
            !self.reads_values() || batch_settled(blocks_view(blocks@), old(caches)@) ==> final(caches)@.transactions == old(caches)@.transactions && result != Err::<u64, ProcessError>(
                ProcessError::ReferenceNotFound,
            ),
            result == Err::<u64, ProcessError>(ProcessError::ReferenceNotFound) <==> self.reads_values()
                && !batch_settled(blocks_view(blocks@), final(caches)@),
            result != Err::<u64, ProcessError>(ProcessError::ReferenceNotFound) ==> result
                == self.outcome(blocks_view(blocks@), final(caches)@.values),
    {
        match self {
            Statistic::Volume | Statistic::Fees => {
                match resolve_inputs(blocks, db, caches) {
                    Ok(()) => {},
                    Err(e) => {
                        return Err(e);
                    },
                }
            },
            _ => {},
        }
        proof {
            if self.reads_values() {
                lemma_resolved_is_settled(blocks_view(blocks@), caches@);
            }
        }
        self.tally(blocks, caches)
    }
}

/// The amount as 64 bits, where it fits.
fn narrow(amount: u128) -> (narrowed: Option<u64>)
    ensures
        narrowed == if amount <= u64::MAX {
            Some(amount as u64)
        } else {
            None
        },
{
    if amount <= 0xFFFF_FFFF_FFFF_FFFF {
        Some(amount as u64)
    } else {
        None
    }
}

/// The sum of the values of some outputs.
pub fn output_sum(outputs: &Vec<TxOutput>) -> (total: u128)
    ensures
        total == output_total(outputs_view(outputs@)),
{
    let ghost all = outputs_view(outputs@);
    let mut sum: u128 = 0;
    let mut i: usize = 0;
    while i < outputs.len()
        invariant
            i <= outputs.len(),
            all == outputs_view(outputs@),
            sum == output_total(all.take(i as int)),
            sum <= i * 0xFFFF_FFFF_FFFF_FFFF,
        decreases outputs.len() - i,
    {
        assert(all.take(i + 1).drop_last() == all.take(i as int));
        assert(all[i as int] == outputs@[i as int]@);
        sum = sum + outputs[i].value as u128;
        i += 1;
    }
    assert(all.take(i as int) == all);
    sum
}

/// The sum of the values of the outputs that some inputs spend, by the
/// values that the caches hold for them.
pub fn input_sum(inputs: &Vec<TxInput>, caches: &DBCaches) -> (total: u128)
    requires
        caches.wf(),
        inputs_resolved(inputs@, caches@.values),
    ensures
        total == input_total(inputs@, caches@.values),
{
    let mut sum: u128 = 0;
    let mut i: usize = 0;
    while i < inputs.len()
        invariant
            i <= inputs.len(),
            caches.wf(),
            inputs_resolved(inputs@, caches@.values),
            sum == input_total(inputs@.take(i as int), caches@.values),
            sum <= i * 0xFFFF_FFFF_FFFF_FFFF,
        decreases inputs.len() - i,
    {
        assert(inputs@.take(i + 1).drop_last() == inputs@.take(i as int));
        assert(caches@.values.contains_key(inputs@[i as int].previous_output));
        let outpoint = inputs[i].previous_output;
        if let Some(value) = caches.outpoint_to_value.get(&outpoint) {
            sum = sum + *value as u128;
        }
        i += 1;
    }
    assert(inputs@.take(i as int) == inputs@);
    sum
}

/// A batch whose values the caches hold is one whose values they give.
pub proof fn lemma_resolved_is_settled(blocks: Seq<BlockView>, cache: CacheView)
    requires
        batch_resolved(blocks, cache.values),
    ensures
        batch_settled(blocks, cache),
{
    assert forall|b: int| 0 <= b < blocks.len() implies block_settled(
        (#[trigger] blocks[b]).txdata,
        cache,
    ) by {
        let txs = blocks[b].txdata;
        assert(block_resolved(txs, cache.values));
        assert forall|t: int| 0 <= t < txs.len() implies inputs_settled(
            (#[trigger] txs[t]).input,
            cache,
        ) by {
            let inputs = txs[t].input;
            assert(inputs_resolved(inputs, cache.values));
            assert forall|i: int| 0 <= i < inputs.len() implies cache.gives_value(
                (#[trigger] inputs[i]).previous_output,
            ) by {
                assert(cache.values.contains_key(inputs[i].previous_output));
            }
        }
    }
}

/// Resolves the value of the output that each of the inputs spends.
fn resolve_transaction_inputs<S: BlockStore>(inputs: &Vec<TxInput>, db: &S, caches: &mut DBCaches) -> (result:
    Result<(), ProcessError>)
    requires
        old(caches).wf(),
    ensures
        final(caches).wf(),
        old(caches)@.extended_by(final(caches)@),
        final(caches)@.blocks == old(caches)@.blocks,
        final(caches)@.dates == old(caches)@.dates,
        inputs_resolved(inputs@, old(caches)@.values) ==> final(caches)@ == old(caches)@,
        inputs_settled(inputs@, old(caches)@) ==> result.is_ok() && final(caches)@.transactions
            == old(caches)@.transactions,
        match result {
            Ok(_) => inputs_resolved(inputs@, final(caches)@.values),
            Err(e) => e == ProcessError::ReferenceNotFound && !inputs_settled(
                inputs@,
                final(caches)@,
            ),
        },
{
    let mut i: usize = 0;
    while i < inputs.len()
        invariant
            i <= inputs.len(),
            caches.wf(),
            old(caches)@.extended_by(caches@),
            caches@.blocks == old(caches)@.blocks,
            caches@.dates == old(caches)@.dates,
            inputs_resolved(inputs@, old(caches)@.values) ==> caches@ == old(caches)@,
            inputs_settled(inputs@, old(caches)@) ==> caches@.transactions == old(caches)@.transactions,
            inputs_resolved(inputs@.take(i as int), caches@.values),
        decreases inputs.len() - i,
    {
        let outpoint = inputs[i].previous_output;
        let ghost before = caches@;
        proof {
            old(caches)@.lemma_extension_gives_more(before);
            if inputs_settled(inputs@, old(caches)@) {
                assert(old(caches)@.gives_value(inputs@[i as int].previous_output));
                assert(before.gives_value(outpoint));
            }
        }
        match caches.outpoint_to_value(outpoint.txid, outpoint.vout, db) {
            Ok(_) => {},
            Err(e) => {
                proof {
                    old(caches)@.lemma_extension_chain(before, caches@);
                    assert(!caches@.gives_value(inputs@[i as int].previous_output));
                }
                return Err(e);
            },
        }
        proof {
            old(caches)@.lemma_extension_chain(before, caches@);
            assert forall|k: int| 0 <= k < i + 1 implies caches@.values.contains_key(
                (#[trigger] inputs@.take(i + 1)[k]).previous_output,
            ) by {
                if k < i {
                    assert(before.values.contains_key(inputs@.take(i as int)[k].previous_output));
                }
            }
        }
        i += 1;
    }
    assert(inputs@.take(i as int) == inputs@);
    Ok(())
}

/// Resolves the value of the output that each input of the transactions
/// spends.
fn resolve_block_inputs<S: BlockStore>(txs: &Vec<Transaction>, db: &S, caches: &mut DBCaches) -> (result:
    Result<(), ProcessError>)
    requires
        old(caches).wf(),
    ensures
        final(caches).wf(),
        old(caches)@.extended_by(final(caches)@),
        final(caches)@.blocks == old(caches)@.blocks,
        final(caches)@.dates == old(caches)@.dates,
        block_resolved(transactions_view(txs@), old(caches)@.values) ==> final(caches)@ == old(caches)@,
        block_settled(transactions_view(txs@), old(caches)@) ==> result.is_ok() && final(caches)@.transactions == old(caches)@.transactions,
        match result {
            Ok(_) => block_resolved(transactions_view(txs@), final(caches)@.values),
            Err(e) => e == ProcessError::ReferenceNotFound && !block_settled(
                transactions_view(txs@),
                final(caches)@,
            ),
        },
{
    let ghost all = transactions_view(txs@);
    let mut t: usize = 0;
    while t < txs.len()
        invariant
            t <= txs.len(),
            caches.wf(),
            all == transactions_view(txs@),
            old(caches)@.extended_by(caches@),
            caches@.blocks == old(caches)@.blocks,
            caches@.dates == old(caches)@.dates,
            block_resolved(all, old(caches)@.values) ==> caches@ == old(caches)@,
            block_settled(all, old(caches)@) ==> caches@.transactions == old(caches)@.transactions,
            block_resolved(all.take(t as int), caches@.values),
        decreases txs.len() - t,
    {
        let ghost before = caches@;
        assert(all[t as int] == txs@[t as int]@);
        proof {
            old(caches)@.lemma_extension_gives_more(before);
            if block_settled(all, old(caches)@) {
                assert(inputs_settled(all[t as int].input, old(caches)@));
                assert(inputs_settled(all[t as int].input, before));
            }
            if block_resolved(all, old(caches)@.values) {
                assert(inputs_resolved(all[t as int].input, old(caches)@.values));
            }
        }
        match resolve_transaction_inputs(&txs[t].input, db, caches) {
            Ok(()) => {},
            Err(e) => {
                proof {
                    old(caches)@.lemma_extension_chain(before, caches@);
                    assert(!inputs_settled(all[t as int].input, caches@));
                }
                return Err(e);
            },
        }
        proof {
            old(caches)@.lemma_extension_chain(before, caches@);
            assert forall|k: int| 0 <= k < t + 1 implies inputs_resolved(
                (#[trigger] all.take(t + 1)[k]).input,
                caches@.values,
            ) by {
                if k < t {
                    assert(inputs_resolved(all.take(t as int)[k].input, before.values));
                }
            }
        }
        t += 1;
    }
    assert(all.take(t as int) == all);
    Ok(())
}

/// Resolves the value of the output that each input of a batch spends, so
/// that the caches hold them all. A value that the caches hold costs no call
/// of the store, nor does one whose transaction they hold. It fails only
/// where the caches, after the store was asked, still do not give the value
/// of an output that is spent.
pub fn resolve_inputs<S: BlockStore>(blocks: &Vec<Block>, db: &S, caches: &mut DBCaches) -> (result:
    Result<(), ProcessError>)
    requires
        old(caches).wf(),
    ensures
        final(caches).wf(),
        old(caches)@.extended_by(final(caches)@),
        final(caches)@.blocks == old(caches)@.blocks,
        final(caches)@.dates == old(caches)@.dates,
        batch_resolved(blocks_view(blocks@), old(caches)@.values) ==> final(caches)@ == old(caches)@,
        batch_settled(blocks_view(blocks@), old(caches)@) ==> result.is_ok() && final(caches)@.transactions == old(caches)@.transactions,
        match result {
            Ok(_) => batch_resolved(blocks_view(blocks@), final(caches)@.values),
            Err(e) => e == ProcessError::ReferenceNotFound && !batch_settled(
                blocks_view(blocks@),
                final(caches)@,
            ),
        },
{
    let ghost all = blocks_view(blocks@);
    let mut b: usize = 0;
    while b < blocks.len()
        invariant
            b <= blocks.len(),
            caches.wf(),
            all == blocks_view(blocks@),
            old(caches)@.extended_by(caches@),
            caches@.blocks == old(caches)@.blocks,
            caches@.dates == old(caches)@.dates,
            batch_resolved(all, old(caches)@.values) ==> caches@ == old(caches)@,
            batch_settled(all, old(caches)@) ==> caches@.transactions == old(caches)@.transactions,
            batch_resolved(all.take(b as int), caches@.values),
        decreases blocks.len() - b,
    {
        let ghost before = caches@;
        assert(all[b as int] == blocks@[b as int]@);
        proof {
            old(caches)@.lemma_extension_gives_more(before);
            if batch_settled(all, old(caches)@) {
                assert(block_settled(all[b as int].txdata, old(caches)@));
                assert(block_settled(all[b as int].txdata, before));
            }
            if batch_resolved(all, old(caches)@.values) {
                assert(block_resolved(all[b as int].txdata, old(caches)@.values));
            }
        }
        match resolve_block_inputs(&blocks[b].txdata, db, caches) {
            Ok(()) => {},
            Err(e) => {
                proof {
                    old(caches)@.lemma_extension_chain(before, caches@);
                    assert(!block_settled(all[b as int].txdata, caches@));
                }
                return Err(e);
            },
        }
        proof {
            old(caches)@.lemma_extension_chain(before, caches@);
            assert forall|k: int| 0 <= k < b + 1 implies block_resolved(
                (#[trigger] all.take(b + 1)[k]).txdata,
                caches@.values,
            ) by {
                if k < b {
                    assert(block_resolved(all.take(b as int)[k].txdata, before.values));
                }
            }
        }
        b += 1;
    }
    assert(all.take(b as int) == all);
    Ok(())
}

} // verus!

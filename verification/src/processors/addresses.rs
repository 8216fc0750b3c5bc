//! Movements by address: what a day's inputs take from each address and
//! what its outputs pay to each.

use crate::cache::{CacheView, DBCaches};
use crate::date::CalendarDate;
use crate::error::ProcessError;
use crate::json::entries_view;
use crate::ledger::{
    blocks_view, outputs_view, transactions_view, Block, BlockStore, BlockView, TransactionView,
    TxInput, TxOutput, TxOutputView,
};
use crate::processors::{DailyBlocksProcessor, Processor};
use crate::stats::{batch_inputs, collect_inputs};
use crate::table::Table;
use crate::totals::{credited_all, total_by_key};
use vstd::prelude::*;

verus! {

/// What a day takes from each address and what it pays to each.
#[derive(Debug)]
pub struct AddressesMovement {
    pub from: Table<String, u64>,
    pub to: Table<String, u64>,
}

/// What a movement holds, as two maps.
pub struct MovementView {
    pub from: Map<Seq<char>, u64>,
    pub to: Map<Seq<char>, u64>,
}

impl View for AddressesMovement {
    type V = MovementView;

    open spec fn view(&self) -> MovementView {
        MovementView { from: self.from@, to: self.to@ }
    }
}

/// The processor of this statistic.
pub type AddressesProcessor = Processor<AddressesMovement, AddressesMovement>;

/// The outputs of some transactions, one transaction after the other.
pub open spec fn block_outputs(txs: Seq<TransactionView>) -> Seq<TxOutputView>
    decreases txs.len(),
{
    if txs.len() == 0 {
        Seq::empty()
    } else {
        block_outputs(txs.drop_last()) + txs.last().output
    }
}

/// The outputs of a batch, block after block and transaction after
/// transaction.
pub open spec fn batch_outputs(blocks: Seq<BlockView>) -> Seq<TxOutputView>
    decreases blocks.len(),
{
    if blocks.len() == 0 {
        Seq::empty()
    } else {
        batch_outputs(blocks.drop_last()) + block_outputs(blocks.last().txdata)
    }
}

/// Whether the caches hold the transaction that each input spends from.
pub open spec fn transactions_resolved(inputs: Seq<TxInput>, cache: CacheView) -> bool {
    forall|i: int|
        0 <= i < inputs.len() ==> cache.transactions.contains_key(
            (#[trigger] inputs[i]).previous_output.txid,
        )
}

/// The output that an input spends, by the transaction that the caches hold
/// for it; `None` where that transaction has no output at the index.
pub open spec fn spent_output(input: TxInput, cache: CacheView) -> Option<TxOutputView> {
    let tx = cache.transactions[input.previous_output.txid];
    if input.previous_output.vout < tx.output.len() {
        Some(tx.output[input.previous_output.vout as int])
    } else {
        None
    }
}

/// The outputs that the inputs spend, in order.
pub open spec fn spent_outputs(inputs: Seq<TxInput>, cache: CacheView) -> Seq<TxOutputView> {
    Seq::new(inputs.len(), |i: int| spent_output(inputs[i], cache).unwrap())
}

/// The address and the value of an output that has one address; `None` for
/// an output with none or with several.
pub open spec fn sole_entry(output: TxOutputView) -> Option<(Seq<char>, u64)> {
    if output.addresses.len() == 1 {
        Some((output.addresses[0], output.value))
    } else {
        None
    }
}

/// The address and the value of each output, in order.
pub open spec fn sole_entries(outputs: Seq<TxOutputView>) -> Seq<(Seq<char>, u64)> {
    Seq::new(outputs.len(), |i: int| sole_entry(outputs[i]).unwrap())
}

/// Whether each of the outputs has one address.
pub open spec fn all_sole(outputs: Seq<TxOutputView>) -> bool {
    forall|i: int| 0 <= i < outputs.len() ==> sole_entry(#[trigger] outputs[i]).is_some()
}

/// Whether the caches hold, for each input, the transaction that it spends
/// from, and that transaction has an output at the input's index.
pub open spec fn spent_resolved(inputs: Seq<TxInput>, cache: CacheView) -> bool {
    transactions_resolved(inputs, cache) && forall|i: int|
        0 <= i < inputs.len() ==> spent_output(#[trigger] inputs[i], cache).is_some()
}

/// The movement of a batch by what the caches hold of the store, or the
/// reason why it cannot be said: a spent output that cannot be resolved, then
/// an output without a sole address, then a total that does not fit.
pub open spec fn movement_outcome(blocks: Seq<BlockView>, cache: CacheView) -> Result<
    MovementView,
    ProcessError,
> {
    let inputs = batch_inputs(blocks);
    let spent = spent_outputs(inputs, cache);
    let paid = batch_outputs(blocks);
    if !spent_resolved(inputs, cache) {
        Err(ProcessError::ReferenceNotFound)
    } else if !all_sole(spent) || !all_sole(paid) {
        Err(ProcessError::AddressCount)
    } else {
        match (credited_all(sole_entries(spent)), credited_all(sole_entries(paid))) {
            (Some(from), Some(to)) => Ok(MovementView { from, to }),
            _ => Err(ProcessError::ArithmeticOverflow),
        }
    }
}

/// Adds copies of `more` to the end of `outputs`.
fn append_outputs(outputs: &mut Vec<TxOutput>, more: &Vec<TxOutput>)
    ensures
        outputs_view(final(outputs)@) == outputs_view(old(outputs)@) + outputs_view(more@),
{
    let mut i: usize = 0;
    while i < more.len()
        invariant
            i <= more.len(),
            outputs_view(outputs@) == outputs_view(old(outputs)@) + outputs_view(more@).take(
                i as int,
            ),
        decreases more.len() - i,
    {
        let ghost before = outputs@;
        let copy = more[i].clone();
        outputs.push(copy);
        assert(outputs_view(outputs@) =~= outputs_view(before).push(more@[i as int]@));
        assert(outputs_view(more@).take(i + 1) =~= outputs_view(more@).take(i as int).push(
            more@[i as int]@,
        ));
        i += 1;
    }
    assert(outputs_view(more@).take(i as int) == outputs_view(more@));
}

/// The outputs of a batch, block after block and transaction after
/// transaction.
pub fn collect_outputs(blocks: &Vec<Block>) -> (outputs: Vec<TxOutput>)
    ensures
        outputs_view(outputs@) == batch_outputs(blocks_view(blocks@)),
{
    let ghost all = blocks_view(blocks@);
    let mut outputs: Vec<TxOutput> = Vec::new();
    assert(outputs_view(outputs@) =~= Seq::<TxOutputView>::empty());
    let mut b: usize = 0;
    while b < blocks.len()
        invariant
            b <= blocks.len(),
            all == blocks_view(blocks@),
            outputs_view(outputs@) == batch_outputs(all.take(b as int)),
        decreases blocks.len() - b,
    {
        let txs = &blocks[b].txdata;
        let ghost views = transactions_view(txs@);
        let ghost before = outputs_view(outputs@);
        assert(all[b as int] == blocks@[b as int]@);
        assert(all.take(b + 1).drop_last() == all.take(b as int));
        let mut t: usize = 0;
        while t < txs.len()
            invariant
                t <= txs.len(),
                views == transactions_view(txs@),
                outputs_view(outputs@) == before + block_outputs(views.take(t as int)),
            decreases txs.len() - t,
        {
            assert(views[t as int] == txs@[t as int]@);
            assert(views.take(t + 1).drop_last() == views.take(t as int));
            append_outputs(&mut outputs, &txs[t].output);
            assert(outputs_view(outputs@) == before + block_outputs(views.take(t + 1)));
            t += 1;
        }
        assert(views.take(t as int) == views);
        b += 1;
    }
    assert(all.take(b as int) == all);
    outputs
}

/// Resolves, for each input, the transaction that it spends from.
pub fn resolve_transactions<S: BlockStore>(inputs: &Vec<TxInput>, db: &S, caches: &mut DBCaches) -> (result:
    Result<(), ProcessError>)
    requires
        old(caches).wf(),
    ensures
        final(caches).wf(),
        old(caches)@.extended_by(final(caches)@),
        transactions_resolved(inputs@, old(caches)@) ==> result.is_ok() && final(caches)@ == old(caches)@,
        match result {
            Ok(_) => transactions_resolved(inputs@, final(caches)@),
            Err(e) => e == ProcessError::ReferenceNotFound && !transactions_resolved(
                inputs@,
                old(caches)@,
            ) && !transactions_resolved(inputs@, final(caches)@),
        },
{
    let mut i: usize = 0;
    while i < inputs.len()
        invariant
            i <= inputs.len(),
            caches.wf(),
            old(caches)@.extended_by(caches@),
            transactions_resolved(inputs@, old(caches)@) ==> caches@ == old(caches)@,
            transactions_resolved(inputs@.take(i as int), caches@),
        decreases inputs.len() - i,
    {
        let ghost before = caches@;
        match caches.txid_to_tx(inputs[i].previous_output.txid, db) {
            Ok(_) => {},
            Err(e) => {
                assert(before.extended_by(caches@));
                proof {
                    old(caches)@.lemma_extension_chain(before, caches@);
                }
                assert(!old(caches)@.transactions.contains_key(
                    inputs@[i as int].previous_output.txid,
                ));
                return Err(e);
            },
        }
        proof {
            assert(before.extended_by(caches@));
            old(caches)@.lemma_extension_chain(before, caches@);
            assert forall|k: int| 0 <= k < i + 1 implies caches@.transactions.contains_key(
                (#[trigger] inputs@.take(i + 1)[k]).previous_output.txid,
            ) by {
                if k < i {
                    assert(before.transactions.contains_key(
                        inputs@.take(i as int)[k].previous_output.txid,
                    ));
                }
            }
        }
        i += 1;
    }
    assert(inputs@.take(i as int) == inputs@);
    Ok(())
}

/// The outputs that the inputs spend, from the transactions that the caches
/// hold.
pub fn spent_from_caches(inputs: &Vec<TxInput>, caches: &DBCaches) -> (result: Result<
    Vec<TxOutput>,
    ProcessError,
>)
    requires
        caches.wf(),
        transactions_resolved(inputs@, caches@),
    ensures
        match result {
            Ok(spent) => outputs_view(spent@) == spent_outputs(inputs@, caches@) && forall|i: int|
                0 <= i < inputs@.len() ==> spent_output(#[trigger] inputs@[i], caches@).is_some(),
            Err(e) => e == ProcessError::ReferenceNotFound && exists|i: int|
                0 <= i < inputs@.len() && spent_output(#[trigger] inputs@[i], caches@).is_none(),
        },
{
    let mut spent: Vec<TxOutput> = Vec::new();
    let mut i: usize = 0;
    while i < inputs.len()
        invariant
            i <= inputs.len(),
            caches.wf(),
            transactions_resolved(inputs@, caches@),
            spent@.len() == i,
            forall|k: int|
                0 <= k < i ==> spent_output(#[trigger] inputs@[k], caches@) == Some(spent@[k]@),
        decreases inputs.len() - i,
    {
        let outpoint = inputs[i].previous_output;
        assert(caches@.transactions.contains_key(inputs@[i as int].previous_output.txid));
        let index = outpoint.vout as usize;
        let found = match caches.txid_to_transaction.get(&outpoint.txid) {
            Some(tx) => {
                assert(tx@ == caches@.transactions[outpoint.txid]);
                if index < tx.output.len() {
                    assert(tx@.output[index as int] == tx.output@[index as int]@);
                    Some(tx.output[index].clone())
                } else {
                    None
                }
            },
            None => None,
        };
        match found {
            Some(output) => {
                spent.push(output);
            },
            None => {
                assert(spent_output(inputs@[i as int], caches@).is_none());
                return Err(ProcessError::ReferenceNotFound);
            },
        }
        i += 1;
    }
    assert(outputs_view(spent@) =~= spent_outputs(inputs@, caches@));
    Ok(spent)
}

/// The address and the value of each output, where each has one address.
pub fn entries_of(outputs: &Vec<TxOutput>) -> (result: Result<Vec<(String, u64)>, ProcessError>)
    ensures
        match result {
            Ok(entries) => all_sole(outputs_view(outputs@)) && entries_view(entries@)
                == sole_entries(outputs_view(outputs@)),
            Err(e) => e == ProcessError::AddressCount && !all_sole(outputs_view(outputs@)),
        },
{
    let ghost all = outputs_view(outputs@);
    let mut entries: Vec<(String, u64)> = Vec::new();
    let mut i: usize = 0;
    while i < outputs.len()
        invariant
            i <= outputs.len(),
            all == outputs_view(outputs@),
            entries@.len() == i,
            forall|k: int|
                0 <= k < i ==> sole_entry(#[trigger] all[k]) == Some(
                    (entries@[k].0@, entries@[k].1),
                ),
        decreases outputs.len() - i,
    {
        assert(all[i as int] == outputs@[i as int]@);
        if outputs[i].addresses.len() != 1 {
            assert(sole_entry(all[i as int]).is_none());
            return Err(ProcessError::AddressCount);
        }
        let address = outputs[i].addresses[0].clone();
        assert(all[i as int].addresses[0] == address@);
        entries.push((address, outputs[i].value));
        i += 1;
    }
    assert(entries_view(entries@) =~= sole_entries(all));
    Ok(entries)
}

impl AddressesProcessor {
    /// The processor with an empty map, kept in its file below `path`.
    pub fn new(path: &str) -> (processor: Self)
        ensures
            processor.wf(),
            processor.name@ == "Addresses"@,
            processor.stored() == Map::<Seq<char>, AddressesMovement>::empty(),
            processor.output.root() == path@,
            processor.output.file() == "addresses.json"@,
    {
        Processor::with_output("Addresses", path, "addresses.json")
    }
}

impl DailyBlocksProcessor<AddressesMovement> for AddressesProcessor {
    open spec fn resolved(blocks: Seq<BlockView>, cache: CacheView) -> bool {
        spent_resolved(batch_inputs(blocks), cache)
    }

    open spec fn outcome(blocks: Seq<BlockView>, cache: CacheView, date: CalendarDate) -> Result<
        MovementView,
        ProcessError,
    > {
        movement_outcome(blocks, cache)
    }

    /// What the inputs of a batch take from each address and what its
    /// outputs pay to each. Every output that is spent or made has to have
    /// one address.
    fn process_daily_blocks<S: BlockStore>(
        &self,
        blocks: &Vec<Block>,
        db: &S,
        caches: &mut DBCaches,
        date: &CalendarDate,
    ) -> (result: Result<AddressesMovement, ProcessError>)
        ensures
            result.is_ok() ==> result.unwrap().from.wf() && result.unwrap().to.wf(),
    {
        let inputs = collect_inputs(blocks);
        match resolve_transactions(&inputs, db, caches) {
            Ok(()) => {},
            Err(e) => {
                return Err(e);
            },
        }
        let spent = match spent_from_caches(&inputs, caches) {
            Ok(spent) => spent,
            Err(e) => {
                return Err(e);
            },
        };
        let paid = collect_outputs(blocks);
        let taken = match entries_of(&spent) {
            Ok(entries) => entries,
            Err(e) => {
                return Err(e);
            },
        };
        let given = match entries_of(&paid) {
            Ok(entries) => entries,
            Err(e) => {
                return Err(e);
            },
        };
        let from = match total_by_key(&taken) {
            Ok(from) => from,
            Err(e) => {
                return Err(e);
            },
        };
        let to = match total_by_key(&given) {
            Ok(to) => to,
            Err(e) => {
                return Err(e);
            },
        };
        Ok(AddressesMovement { from, to })
    }
}

} // verus!

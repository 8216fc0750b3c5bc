//! Memoized resolution of references against the ledger store, for the time
//! of one batch.

use crate::date::{timestamp_to_naive_date, utc_date, CalendarDate};
use crate::error::ProcessError;
use crate::ledger::{Block, BlockStore, BlockView, OutPoint, Transaction, TransactionView, Txid};
use crate::table::Table;
use vstd::prelude::*;

verus! {

/// What the caches hold, as four maps.
pub struct CacheView {
    pub transactions: Map<Txid, TransactionView>,
    pub blocks: Map<Txid, BlockView>,
    pub dates: Map<Txid, CalendarDate>,
    pub values: Map<OutPoint, u64>,
}

impl CacheView {
    /// Whether `later` holds every entry of `self`, with the same value, and
    /// the values and dates that it holds beyond them are those that its
    /// transactions and blocks give.
    pub open spec fn extended_by(self, later: CacheView) -> bool {
        &&& self.transactions.submap_of(later.transactions)
        &&& self.blocks.submap_of(later.blocks)
        &&& self.dates.submap_of(later.dates)
        &&& self.values.submap_of(later.values)
        &&& (forall|outpoint: OutPoint| #[trigger]
            later.values.contains_key(outpoint) && !self.values.contains_key(outpoint)
                ==> later.value_is_derived(outpoint))
        &&& (forall|txid: Txid| #[trigger]
            later.dates.contains_key(txid) && !self.dates.contains_key(txid)
                ==> later.date_is_derived(txid))
    }

    /// Whether the value held for an output is the value of that output in
    /// the transaction held for its reference.
    pub open spec fn value_is_derived(self, outpoint: OutPoint) -> bool {
        &&& self.transactions.contains_key(outpoint.txid)
        &&& outpoint.vout < self.transactions[outpoint.txid].output.len()
        &&& self.values[outpoint] == self.transactions[outpoint.txid].output[outpoint.vout as int].value
    }

    /// Whether the date held for a transaction is the date of the timestamp
    /// of the block held for it.
    pub open spec fn date_is_derived(self, txid: Txid) -> bool {
        &&& self.blocks.contains_key(txid)
        &&& self.dates[txid] == utc_date(self.blocks[txid].time)
    }

    /// Whether the caches alone give the value of an output: they hold the
    /// value, or they hold the transaction and it has an output at the index.
    pub open spec fn gives_value(self, outpoint: OutPoint) -> bool {
        self.values.contains_key(outpoint) || (self.transactions.contains_key(outpoint.txid)
            && outpoint.vout < self.transactions[outpoint.txid].output.len())
    }

    /// Whether the caches alone give the date of a transaction: they hold the
    /// date, or they hold the transaction's block.
    pub open spec fn gives_date(self, txid: Txid) -> bool {
        self.dates.contains_key(txid) || self.blocks.contains_key(txid)
    }

    /// Whether `later` holds the transactions and blocks of `self` and no
    /// other: nothing that the store gave has come in between.
    pub open spec fn same_store_part(self, later: CacheView) -> bool {
        self.transactions == later.transactions && self.blocks == later.blocks
    }

    /// What the caches give, an extension of them gives too.
    pub proof fn lemma_extension_gives_more(self, later: CacheView)
        requires
            self.extended_by(later),
        ensures
            forall|outpoint: OutPoint| #[trigger]
                self.gives_value(outpoint) ==> later.gives_value(outpoint),
            forall|txid: Txid| #[trigger] self.gives_date(txid) ==> later.gives_date(txid),
    {
        assert forall|outpoint: OutPoint| #[trigger] self.gives_value(outpoint) implies later.gives_value(
            outpoint,
        ) by {
            if self.values.contains_key(outpoint) {
                assert(self.values.dom().contains(outpoint));
                assert(later.values.dom().contains(outpoint));
            } else {
                assert(self.transactions.dom().contains(outpoint.txid));
                assert(later.transactions.dom().contains(outpoint.txid));
            }
        }
        assert forall|txid: Txid| #[trigger] self.gives_date(txid) implies later.gives_date(txid) by {
            if self.dates.contains_key(txid) {
                assert(self.dates.dom().contains(txid));
                assert(later.dates.dom().contains(txid));
            } else {
                assert(self.blocks.dom().contains(txid));
                assert(later.blocks.dom().contains(txid));
            }
        }
    }

    /// What extends an extension of `self` extends `self`.
    pub proof fn lemma_extension_chain(self, middle: CacheView, later: CacheView)
        requires
            self.extended_by(middle),
            middle.extended_by(later),
        ensures
            self.extended_by(later),
    {
        vstd::map_lib::lemma_submap_of_trans(
            self.transactions,
            middle.transactions,
            later.transactions,
        );
        vstd::map_lib::lemma_submap_of_trans(self.blocks, middle.blocks, later.blocks);
        vstd::map_lib::lemma_submap_of_trans(self.dates, middle.dates, later.dates);
        vstd::map_lib::lemma_submap_of_trans(self.values, middle.values, later.values);
        assert forall|outpoint: OutPoint| #[trigger]
            later.values.contains_key(outpoint) && !self.values.contains_key(
                outpoint,
            ) implies later.value_is_derived(outpoint) by {
            if middle.values.contains_key(outpoint) {
                assert(middle.value_is_derived(outpoint));
                assert(middle.values.dom().contains(outpoint));
                assert(middle.transactions.submap_of(later.transactions));
                assert(middle.transactions.dom().contains(outpoint.txid));
                assert(later.transactions.dom().contains(outpoint.txid));
            }
        }
        assert forall|txid: Txid| #[trigger]
            later.dates.contains_key(txid) && !self.dates.contains_key(
                txid,
            ) implies later.date_is_derived(txid) by {
            if middle.dates.contains_key(txid) {
                assert(middle.date_is_derived(txid));
                assert(middle.dates.dom().contains(txid));
                assert(middle.blocks.submap_of(later.blocks));
                assert(middle.blocks.dom().contains(txid));
                assert(later.blocks.dom().contains(txid));
            }
        }
    }
}

/// Four memo tables, filled while one batch is processed and emptied before
/// the next: the transaction of a reference, the block that holds it, the
/// date of that block, and the value of an output.
pub struct DBCaches {
    pub txid_to_transaction: Table<Txid, Transaction>,
    pub txid_to_block: Table<Txid, Block>,
    pub txid_to_naive_date: Table<Txid, CalendarDate>,
    pub outpoint_to_value: Table<OutPoint, u64>,
}

impl View for DBCaches {
    type V = CacheView;

    open spec fn view(&self) -> CacheView {
        CacheView {
            transactions: self.txid_to_transaction@.map_values(|tx: Transaction| tx@),
            blocks: self.txid_to_block@.map_values(|block: Block| block@),
            dates: self.txid_to_naive_date@,
            values: self.outpoint_to_value@,
        }
    }
}

impl DBCaches {
    /// The invariant of the four tables.
    pub open spec fn wf(&self) -> bool {
        &&& self.txid_to_transaction.wf()
        &&& self.txid_to_block.wf()
        &&& self.txid_to_naive_date.wf()
        &&& self.outpoint_to_value.wf()
    }

    /// Caches that hold nothing.
    pub fn new() -> (caches: Self)
        ensures
            caches.wf(),
            caches@.transactions == Map::<Txid, TransactionView>::empty(),
            caches@.blocks == Map::<Txid, BlockView>::empty(),
            caches@.dates == Map::<Txid, CalendarDate>::empty(),
            caches@.values == Map::<OutPoint, u64>::empty(),
    {
        let caches = DBCaches {
            txid_to_transaction: Table::new(),
            txid_to_block: Table::new(),
            txid_to_naive_date: Table::new(),
            outpoint_to_value: Table::new(),
        };
        assert(caches@.transactions =~= Map::<Txid, TransactionView>::empty());
        assert(caches@.blocks =~= Map::<Txid, BlockView>::empty());
        caches
    }

    /// Empties all four tables.
    pub fn clear(&mut self)
        ensures
            final(self).wf(),
            final(self)@.transactions == Map::<Txid, TransactionView>::empty(),
            final(self)@.blocks == Map::<Txid, BlockView>::empty(),
            final(self)@.dates == Map::<Txid, CalendarDate>::empty(),
            final(self)@.values == Map::<OutPoint, u64>::empty(),
    {
        self.txid_to_transaction.clear();
        self.txid_to_block.clear();
        self.txid_to_naive_date.clear();
        self.outpoint_to_value.clear();
        assert(self@.transactions =~= Map::<Txid, TransactionView>::empty());
        assert(self@.blocks =~= Map::<Txid, BlockView>::empty());
    }

    /// Takes what the store answered for a transaction that the caches did
    /// not hold: a transaction is memoized and handed on, no answer is a
    /// reference that cannot be resolved.
    pub fn memoize_transaction(&mut self, txid: Txid, fetched: Option<Transaction>) -> (result:
        Result<Transaction, ProcessError>)
        requires
            old(self).wf(),
        ensures
            final(self).wf(),
            final(self)@.blocks == old(self)@.blocks,
            final(self)@.dates == old(self)@.dates,
            final(self)@.values == old(self)@.values,
            match fetched {
                Some(tx) => result.is_ok() && result.unwrap()@ == tx@ && final(self)@.transactions
                    == old(self)@.transactions.insert(txid, tx@),
                None => result == Err::<Transaction, ProcessError>(ProcessError::ReferenceNotFound)
                    && final(self)@.transactions == old(self)@.transactions,
            },
    {
        match fetched {
            Some(tx) => {
                let copy = tx.clone();
                self.txid_to_transaction.insert(txid, copy);
                assert(self@.transactions =~= old(self)@.transactions.insert(txid, tx@));
                Ok(tx)
            },
            None => Err(ProcessError::ReferenceNotFound),
        }
    }

    /// Takes what the store answered for the block of a transaction that the
    /// caches did not hold: a block is memoized and handed on, no answer is a
    /// reference that cannot be resolved.
    pub fn memoize_block(&mut self, txid: Txid, fetched: Option<Block>) -> (result: Result<
        Block,
        ProcessError,
    >)
        requires
            old(self).wf(),
        ensures
            final(self).wf(),
            final(self)@.transactions == old(self)@.transactions,
            final(self)@.dates == old(self)@.dates,
            final(self)@.values == old(self)@.values,
            match fetched {
                Some(block) => result.is_ok() && result.unwrap()@ == block@ && final(self)@.blocks
                    == old(self)@.blocks.insert(txid, block@),
                None => result == Err::<Block, ProcessError>(ProcessError::ReferenceNotFound)
                    && final(self)@.blocks == old(self)@.blocks,
            },
    {
        match fetched {
            Some(block) => {
                let copy = block.clone();
                self.txid_to_block.insert(txid, copy);
                assert(self@.blocks =~= old(self)@.blocks.insert(txid, block@));
                Ok(block)
            },
            None => Err(ProcessError::ReferenceNotFound),
        }
    }

    /// The transaction with a reference: the memoized one where there is one,
    /// else the store's, which is then memoized. The caches hold the answer
    /// afterwards, so that asking again gives the same transaction from the
    /// caches alone.
    pub fn txid_to_tx<S: BlockStore>(&mut self, txid: Txid, db: &S) -> (result: Result<
        Transaction,
        ProcessError,
    >)
        requires
            old(self).wf(),
        ensures
            final(self).wf(),
            old(self)@.extended_by(final(self)@),
            final(self)@.blocks == old(self)@.blocks,
            final(self)@.dates == old(self)@.dates,
            final(self)@.values == old(self)@.values,
            old(self)@.transactions.contains_key(txid) ==> result.is_ok() && result.unwrap()@
                == old(self)@.transactions[txid] && final(self)@.transactions == old(self)@.transactions,
            result.is_ok() ==> final(self)@.transactions.contains_key(txid) && final(self)@.transactions[txid] == result.unwrap()@,
            !old(self)@.transactions.contains_key(txid) ==> match result {
                Ok(tx) => final(self)@.transactions == old(self)@.transactions.insert(txid, tx@),
                Err(e) => e == ProcessError::ReferenceNotFound && final(self)@.transactions == old(self)@.transactions,
            },
    {
        if let Some(tx) = self.txid_to_transaction.get(&txid) {
            return Ok(tx.clone());
        }
        let fetched = db.get_transaction(&txid);
        self.memoize_transaction(txid, fetched)
    }

    /// The block that holds a transaction: the memoized one where there is
    /// one, else the store's block at the height that the store gives for the
    /// transaction, which is then memoized.
    pub fn txid_to_block<S: BlockStore>(&mut self, txid: Txid, db: &S) -> (result: Result<
        Block,
        ProcessError,
    >)
        requires
            old(self).wf(),
        ensures
            final(self).wf(),
            old(self)@.extended_by(final(self)@),
            final(self)@.transactions == old(self)@.transactions,
            final(self)@.dates == old(self)@.dates,
            final(self)@.values == old(self)@.values,
            old(self)@.blocks.contains_key(txid) ==> result.is_ok() && result.unwrap()@ == old(self)@.blocks[txid] && final(self)@.blocks == old(self)@.blocks,
            result.is_ok() ==> final(self)@.blocks.contains_key(txid) && final(self)@.blocks[txid]
                == result.unwrap()@,
            !old(self)@.blocks.contains_key(txid) ==> match result {
                Ok(block) => final(self)@.blocks == old(self)@.blocks.insert(txid, block@),
                Err(e) => e == ProcessError::ReferenceNotFound && final(self)@.blocks == old(self)@.blocks,
            },
    {
        if let Some(block) = self.txid_to_block.get(&txid) {
            return Ok(block.clone());
        }
        let fetched = match db.get_height_of_transaction(&txid) {
            Some(height) => db.get_block(height),
            None => None,
        };
        self.memoize_block(txid, fetched)
    }

    /// The date of the block that holds a transaction: the memoized one where
    /// there is one, else the date of the timestamp of the transaction's
    /// block, which is then memoized.
    pub fn txid_to_naive_date<S: BlockStore>(&mut self, txid: Txid, db: &S) -> (result: Result<
        CalendarDate,
        ProcessError,
    >)
        requires
            old(self).wf(),
        ensures
            final(self).wf(),
            old(self)@.extended_by(final(self)@),
            final(self)@.transactions == old(self)@.transactions,
            final(self)@.values == old(self)@.values,
            old(self)@.dates.contains_key(txid) ==> result == Ok::<CalendarDate, ProcessError>(
                old(self)@.dates[txid],
            ) && final(self)@ == old(self)@,
            result.is_ok() ==> final(self)@.dates.contains_key(txid) && final(self)@.dates[txid]
                == result.unwrap(),
            !old(self)@.dates.contains_key(txid) ==> match result {
                Ok(date) => final(self)@.blocks.contains_key(txid) && date == utc_date(
                    final(self)@.blocks[txid].time,
                ) && final(self)@.dates == old(self)@.dates.insert(txid, date),
                Err(e) => e == ProcessError::ReferenceNotFound && final(self)@ == old(self)@
                    && !old(self)@.blocks.contains_key(txid),
            },
            final(self)@.blocks == old(self)@.blocks || (!old(self)@.blocks.contains_key(txid)
                && final(self)@.blocks.contains_key(txid) && final(self)@.blocks == old(self)@.blocks.insert(txid, final(self)@.blocks[txid])),
    {
        if let Some(date) = self.txid_to_naive_date.get(&txid) {
            return Ok(*date);
        }
        match self.txid_to_block(txid, db) {
            Ok(block) => {
                let date = timestamp_to_naive_date(block.time);
                self.txid_to_naive_date.insert(txid, date);
                Ok(date)
            },
            Err(e) => Err(e),
        }
    }

    /// The value of an output of a transaction: the memoized one where there
    /// is one, else the value of that output in the resolved transaction,
    /// which is then memoized. An index past the transaction's outputs is a
    /// reference that cannot be resolved.
    pub fn outpoint_to_value<S: BlockStore>(&mut self, txid: Txid, vout: u32, db: &S) -> (result:
        Result<u64, ProcessError>)
        requires
            old(self).wf(),
        ensures
            final(self).wf(),
            old(self)@.extended_by(final(self)@),
            final(self)@.blocks == old(self)@.blocks,
            final(self)@.dates == old(self)@.dates,
            old(self)@.values.contains_key(OutPoint { txid, vout }) ==> result == Ok::<
                u64,
                ProcessError,
            >(old(self)@.values[OutPoint { txid, vout }]) && final(self)@ == old(self)@,
            result.is_ok() ==> final(self)@.values.contains_key(OutPoint { txid, vout }) && final(self)@.values[OutPoint { txid, vout }] == result.unwrap(),
            !old(self)@.values.contains_key(OutPoint { txid, vout }) ==> match result {
                Ok(value) => final(self)@.transactions.contains_key(txid) && vout < final(self)@.transactions[txid].output.len() && value == final(self)@.transactions[txid].output[vout as int].value && final(self)@.values == old(self)@.values.insert(OutPoint { txid, vout }, value),
                Err(e) => e == ProcessError::ReferenceNotFound && final(self)@.values == old(self)@.values && (final(self)@.transactions.contains_key(txid) ==> vout >= final(self)@.transactions[txid].output.len()),
            },
            final(self)@.transactions == old(self)@.transactions || (!old(self)@.transactions.contains_key(txid) && final(self)@.transactions.contains_key(txid)
                && final(self)@.transactions == old(self)@.transactions.insert(
                txid,
                final(self)@.transactions[txid],
            )),
    {
        let outpoint = OutPoint { txid, vout };
        if let Some(value) = self.outpoint_to_value.get(&outpoint) {
            return Ok(*value);
        }
        match self.txid_to_tx(txid, db) {
            Ok(tx) => {
                let index = vout as usize;
                if index < tx.output.len() {
                    let value = tx.output[index].value;
                    self.outpoint_to_value.insert(outpoint, value);
                    Ok(value)
                } else {
                    Err(ProcessError::ReferenceNotFound)
                }
            },
            Err(e) => Err(e),
        }
    }
}

} // verus!

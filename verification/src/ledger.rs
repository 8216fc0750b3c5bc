//! The ledger's data: blocks, transactions, inputs and outputs, and the
//! read-only store that resolves references to them.

use vstd::prelude::*;

verus! {

/// Stable identifier of a transaction: 256 bits, held as two halves.
#[derive(Clone, Copy, Debug, PartialEq, Eq, Structural)]
pub struct Txid {
    pub hi: u128,
    pub lo: u128,
}

/// One output of a prior transaction, named by reference and index.
#[derive(Clone, Copy, Debug, PartialEq, Eq, Structural)]
pub struct OutPoint {
    pub txid: Txid,
    pub vout: u32,
}

/// An input of a transaction: the prior output that it spends.
#[derive(Clone, Copy, Debug, PartialEq, Eq, Structural)]
pub struct TxInput {
    pub previous_output: OutPoint,
}

/// An output of a transaction: an amount in satoshis and the addresses of
/// its owners, of which there may be none.
#[derive(Debug, PartialEq, Eq)]
pub struct TxOutput {
    pub value: u64,
    pub addresses: Vec<String>,
}

/// A transaction: its reference, its ordered inputs and its ordered outputs.
/// A transaction without inputs is a coinbase.
#[derive(Debug, PartialEq, Eq)]
pub struct Transaction {
    pub txid: Txid,
    pub input: Vec<TxInput>,
    pub output: Vec<TxOutput>,
}

/// A block: its UTC timestamp in seconds since the epoch and its ordered
/// transactions.
#[derive(Debug, PartialEq, Eq)]
pub struct Block {
    pub time: u32,
    pub txdata: Vec<Transaction>,
}

/// What an output holds, as mathematical sequences.
pub struct TxOutputView {
    pub value: u64,
    pub addresses: Seq<Seq<char>>,
}

/// What a transaction holds, as mathematical sequences.
pub struct TransactionView {
    pub txid: Txid,
    pub input: Seq<TxInput>,
    pub output: Seq<TxOutputView>,
}

/// What a block holds, as mathematical sequences.
pub struct BlockView {
    pub time: u32,
    pub txdata: Seq<TransactionView>,
}

impl View for TxOutput {
    type V = TxOutputView;

    open spec fn view(&self) -> TxOutputView {
        TxOutputView { value: self.value, addresses: texts_view(self.addresses@) }
    }
}

impl View for Transaction {
    type V = TransactionView;

    open spec fn view(&self) -> TransactionView {
        TransactionView { txid: self.txid, input: self.input@, output: outputs_view(self.output@) }
    }
}

impl View for Block {
    type V = BlockView;

    open spec fn view(&self) -> BlockView {
        BlockView { time: self.time, txdata: transactions_view(self.txdata@) }
    }
}

/// The characters of each of some strings, in order.
pub open spec fn texts_view(texts: Seq<String>) -> Seq<Seq<char>> {
    Seq::new(texts.len(), |i: int| texts[i]@)
}

/// The views of a sequence of outputs, in order.
pub open spec fn outputs_view(outputs: Seq<TxOutput>) -> Seq<TxOutputView> {
    Seq::new(outputs.len(), |i: int| outputs[i]@)
}

/// The views of a sequence of transactions, in order.
pub open spec fn transactions_view(txs: Seq<Transaction>) -> Seq<TransactionView> {
    Seq::new(txs.len(), |i: int| txs[i]@)
}

/// The views of a sequence of blocks, in order.
pub open spec fn blocks_view(blocks: Seq<Block>) -> Seq<BlockView> {
    Seq::new(blocks.len(), |i: int| blocks[i]@)
}

/// A fresh vector holding the same items in the same order.
pub fn copy_items<T: Copy>(items: &Vec<T>) -> (out: Vec<T>)
    ensures
        out@ == items@,
{
    let mut out: Vec<T> = Vec::new();
    let mut i: usize = 0;
    while i < items.len()
        invariant
            i <= items.len(),
            out@ == items@.take(i as int),
        decreases items.len() - i,
    {
        out.push(items[i]);
        assert(items@.take(i as int).push(items@[i as int]) == items@.take(i + 1));
        i += 1;
    }
    assert(items@.take(items@.len() as int) == items@);
    out
}

impl Clone for TxOutput {
    fn clone(&self) -> (out: Self)
        ensures
            out@ == self@,
    {
        let mut addresses: Vec<String> = Vec::new();
        let mut i: usize = 0;
        while i < self.addresses.len()
            invariant
                i <= self.addresses.len(),
                addresses@.len() == i,
                forall|j: int| 0 <= j < i ==> addresses@[j]@ == self.addresses@[j]@,
            decreases self.addresses.len() - i,
        {
            let address = self.addresses[i].clone();
            addresses.push(address);
            i += 1;
        }
        assert(texts_view(addresses@) =~= texts_view(self.addresses@));
        TxOutput { value: self.value, addresses }
    }
}

impl Clone for Transaction {
    fn clone(&self) -> (out: Self)
        ensures
            out@ == self@,
    {
        let mut output: Vec<TxOutput> = Vec::new();
        let mut i: usize = 0;
        while i < self.output.len()
            invariant
                i <= self.output.len(),
                output@.len() == i,
                forall|j: int| 0 <= j < i ==> output@[j]@ == self.output@[j]@,
            decreases self.output.len() - i,
        {
            let copy = self.output[i].clone();
            output.push(copy);
            i += 1;
        }
        assert(outputs_view(output@) =~= outputs_view(self.output@));
        Transaction { txid: self.txid, input: copy_items(&self.input), output }
    }
}

impl Clone for Block {
    fn clone(&self) -> (out: Self)
        ensures
            out@ == self@,
    {
        let mut txdata: Vec<Transaction> = Vec::new();
        let mut i: usize = 0;
        while i < self.txdata.len()
            invariant
                i <= self.txdata.len(),
                txdata@.len() == i,
                forall|j: int| 0 <= j < i ==> txdata@[j]@ == self.txdata@[j]@,
            decreases self.txdata.len() - i,
        {
            let tx = self.txdata[i].clone();
            txdata.push(tx);
            i += 1;
        }
        assert(transactions_view(txdata@) =~= transactions_view(self.txdata@));
        Block { time: self.time, txdata }
    }
}

/// The read-only ledger store that references are resolved against. Nothing is
/// known of an answer beforehand: `None` says that the store has no such entry.
pub trait BlockStore {
    /// The height of the block that contains the transaction.
    fn get_height_of_transaction(&self, txid: &Txid) -> Option<usize>;

    /// The block at a height.
    fn get_block(&self, height: usize) -> Option<Block>;

    /// The transaction with a reference, with all its outputs.
    fn get_transaction(&self, txid: &Txid) -> Option<Transaction>;
}

} // verus!

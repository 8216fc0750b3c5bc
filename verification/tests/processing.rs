use std::cell::Cell;

use daily_blocks::cache::DBCaches;
use daily_blocks::date::{date_key, timestamp_to_naive_date, CalendarDate};
use daily_blocks::error::ProcessError;
use daily_blocks::group::group_blocks_by_day;
use daily_blocks::ledger::{Block, BlockStore, OutPoint, Transaction, TxInput, TxOutput, Txid};
use daily_blocks::output::Output;
use daily_blocks::processors::counter::{Counter, CounterProcessor};
use daily_blocks::processors::onesteps::{
    BlocksCounterProcessor, CoinbasesCounterProcessor, FeesCounterProcessor,
    InputsCounterProcessor, OutputsCounterProcessor, TransactionsCounterProcessor,
    VolumeCounterProcessor,
};
use daily_blocks::processors::{
    flush_is_due, import_decision, DailyBlocksImporter, DailyBlocksProcessor, ImportOutcome, OutputExporter,
};
use daily_blocks::stats::{resolve_inputs, Statistic};
use daily_blocks::table::Table;

const DAY: u32 = 86_400;
const JAN_1_2021: u32 = 1_609_459_200;

fn txid(n: u128) -> Txid {
    Txid { hi: 0, lo: n }
}

fn input(n: u128, vout: u32) -> TxInput {
    TxInput { previous_output: OutPoint { txid: txid(n), vout } }
}

fn tx(n: u128, inputs: Vec<TxInput>, values: Vec<u64>) -> Transaction {
    Transaction {
        txid: txid(n),
        input: inputs,
        output: values.into_iter().map(|value| TxOutput { value, addresses: vec![] }).collect(),
    }
}

/// A store in memory that counts the calls made to it.
struct Ledger {
    blocks: Vec<Block>,
    calls: Cell<usize>,
}

impl Ledger {
    fn new(blocks: Vec<Block>) -> Self {
        Ledger { blocks, calls: Cell::new(0) }
    }

    fn empty() -> Self {
        Ledger::new(vec![])
    }
}

impl BlockStore for Ledger {
    fn get_height_of_transaction(&self, txid: &Txid) -> Option<usize> {
        self.calls.set(self.calls.get() + 1);
        self.blocks.iter().position(|b| b.txdata.iter().any(|t| t.txid == *txid))
    }

    fn get_block(&self, height: usize) -> Option<Block> {
        self.calls.set(self.calls.get() + 1);
        self.blocks.get(height).cloned()
    }

    fn get_transaction(&self, txid: &Txid) -> Option<Transaction> {
        self.calls.set(self.calls.get() + 1);
        self.blocks.iter().flat_map(|b| b.txdata.iter()).find(|t| t.txid == *txid).cloned()
    }
}

/// Two funding blocks in 2020 and the transactions that later days spend.
fn history() -> Vec<Block> {
    vec![
        Block { time: 1_600_000_000, txdata: vec![tx(1, vec![], vec![600, 400, 50])] },
        Block { time: 1_600_100_000, txdata: vec![tx(2, vec![], vec![7_000])] },
    ]
}

#[test]
fn table_holds_the_last_value_of_a_key() {
    let mut table: Table<Txid, u64> = Table::new();
    assert_eq!(table.len(), 0);
    assert!(table.get(&txid(1)).is_none());
    table.insert(txid(1), 10);
    table.insert(txid(2), 20);
    table.insert(txid(1), 30);
    assert_eq!(table.len(), 2);
    assert_eq!(table.get(&txid(1)), Some(&30));
    assert_eq!(table.get(&txid(2)), Some(&20));
    assert!(table.contains_key(&txid(2)));
    assert!(!table.contains_key(&txid(3)));
    assert_eq!(table.entry_at(0), (&txid(1), &30));
    assert_eq!(table.entry_at(1), (&txid(2), &20));
    table.clear();
    assert_eq!(table.len(), 0);
    assert!(!table.contains_key(&txid(1)));
}

#[test]
fn keys_differ_by_either_half_and_by_index() {
    let mut table: Table<OutPoint, u64> = Table::new();
    table.insert(OutPoint { txid: Txid { hi: 1, lo: 0 }, vout: 0 }, 1);
    table.insert(OutPoint { txid: Txid { hi: 0, lo: 1 }, vout: 0 }, 2);
    table.insert(OutPoint { txid: Txid { hi: 0, lo: 1 }, vout: 1 }, 3);
    assert_eq!(table.len(), 3);
    assert_eq!(table.get(&OutPoint { txid: Txid { hi: 0, lo: 1 }, vout: 1 }), Some(&3));
    assert_eq!(table.get(&OutPoint { txid: Txid { hi: 1, lo: 0 }, vout: 0 }), Some(&1));
    assert!(table.get(&OutPoint { txid: Txid { hi: 1, lo: 1 }, vout: 0 }).is_none());
}

#[test]
fn second_resolution_asks_the_store_nothing() {
    let db = Ledger::new(history());
    let mut caches = DBCaches::new();

    let first = caches.txid_to_tx(txid(1), &db).unwrap();
    assert_eq!(db.calls.get(), 1);
    let second = caches.txid_to_tx(txid(1), &db).unwrap();
    assert_eq!(db.calls.get(), 1);
    assert_eq!(first, second);
    assert_eq!(first, history()[0].txdata[0]);

    let first = caches.txid_to_block(txid(2), &db).unwrap();
    assert_eq!(db.calls.get(), 3);
    let second = caches.txid_to_block(txid(2), &db).unwrap();
    assert_eq!(db.calls.get(), 3);
    assert_eq!(first, second);
    assert_eq!(first, history()[1]);

    let first = caches.txid_to_naive_date(txid(2), &db).unwrap();
    let second = caches.txid_to_naive_date(txid(2), &db).unwrap();
    assert_eq!(db.calls.get(), 3);
    assert_eq!(first, second);
    assert_eq!(first, timestamp_to_naive_date(1_600_100_000));

    let first = caches.outpoint_to_value(txid(1), 1, &db).unwrap();
    let second = caches.outpoint_to_value(txid(1), 1, &db).unwrap();
    assert_eq!(db.calls.get(), 3);
    assert_eq!(first, 400);
    assert_eq!(second, 400);
}

#[test]
fn date_of_a_transaction_costs_two_calls_once() {
    let db = Ledger::new(history());
    let mut caches = DBCaches::new();
    let date = caches.txid_to_naive_date(txid(1), &db).unwrap();
    assert_eq!(date, CalendarDate { year: 2020, month: 9, day: 13 });
    assert_eq!(db.calls.get(), 2);
    assert_eq!(caches.txid_to_naive_date(txid(1), &db), Ok(date));
    assert_eq!(db.calls.get(), 2);
}

#[test]
fn cleared_caches_ask_the_store_again() {
    let db = Ledger::new(history());
    let mut caches = DBCaches::new();
    assert_eq!(caches.outpoint_to_value(txid(1), 0, &db), Ok(600));
    assert_eq!(db.calls.get(), 1);
    caches.clear();
    assert_eq!(caches.txid_to_transaction.len(), 0);
    assert_eq!(caches.outpoint_to_value.len(), 0);
    assert_eq!(caches.outpoint_to_value(txid(1), 0, &db), Ok(600));
    assert_eq!(db.calls.get(), 2);
}

#[test]
fn unknown_reference_is_not_found() {
    let db = Ledger::new(history());
    let mut caches = DBCaches::new();
    assert_eq!(caches.txid_to_tx(txid(9), &db), Err(ProcessError::ReferenceNotFound));
    assert_eq!(caches.txid_to_block(txid(9), &db), Err(ProcessError::ReferenceNotFound));
    assert_eq!(caches.txid_to_naive_date(txid(9), &db), Err(ProcessError::ReferenceNotFound));
    assert_eq!(caches.outpoint_to_value(txid(9), 0, &db), Err(ProcessError::ReferenceNotFound));
    assert_eq!(caches.txid_to_transaction.len(), 0);
    assert_eq!(caches.outpoint_to_value.len(), 0);
}

#[test]
fn output_index_past_the_end_is_not_found() {
    let db = Ledger::new(history());
    let mut caches = DBCaches::new();
    assert_eq!(caches.outpoint_to_value(txid(1), 3, &db), Err(ProcessError::ReferenceNotFound));
    assert_eq!(caches.outpoint_to_value(txid(1), 2, &db), Ok(50));
    assert_eq!(caches.outpoint_to_value.len(), 1);
}

#[test]
fn memoized_answers_are_handed_on() {
    let mut caches = DBCaches::new();
    let t = tx(5, vec![], vec![1, 2]);
    assert_eq!(caches.memoize_transaction(txid(5), Some(t.clone())), Ok(t.clone()));
    assert_eq!(caches.memoize_transaction(txid(6), None), Err(ProcessError::ReferenceNotFound));
    assert_eq!(caches.txid_to_transaction.get(&txid(5)), Some(&t));
    assert!(caches.txid_to_transaction.get(&txid(6)).is_none());
    let b = Block { time: 7, txdata: vec![t] };
    assert_eq!(caches.memoize_block(txid(5), Some(b.clone())), Ok(b.clone()));
    assert_eq!(caches.memoize_block(txid(6), None), Err(ProcessError::ReferenceNotFound));
    assert_eq!(caches.txid_to_block.get(&txid(5)), Some(&b));
}

#[test]
fn coinbase_issuance_of_a_batch() {
    let db = Ledger::new(history());
    let mut caches = DBCaches::new();
    let batch = vec![Block {
        time: JAN_1_2021,
        txdata: vec![tx(10, vec![], vec![625_000_000]), tx(11, vec![input(1, 0)], vec![500])],
    }];
    let processor = CoinbasesCounterProcessor::new("./jsons");
    let date = timestamp_to_naive_date(JAN_1_2021);
    assert_eq!(processor.process_daily_blocks(&batch, &db, &mut caches, &date), Ok(625_000_000));
    assert_eq!(db.calls.get(), 0);
}

#[test]
fn fee_of_one_transaction() {
    let db = Ledger::new(history());
    let mut caches = DBCaches::new();
    let batch = vec![Block {
        time: JAN_1_2021,
        txdata: vec![tx(11, vec![input(1, 0), input(1, 1)], vec![850, 50])],
    }];
    let processor = FeesCounterProcessor::new("./jsons");
    let date = timestamp_to_naive_date(JAN_1_2021);
    assert_eq!(processor.process_daily_blocks(&batch, &db, &mut caches, &date), Ok(100));
    assert_eq!(db.calls.get(), 1);
}

#[test]
fn fee_fails_where_an_input_cannot_be_resolved() {
    let db = Ledger::new(history());
    let mut caches = DBCaches::new();
    let batch = vec![Block {
        time: JAN_1_2021,
        txdata: vec![tx(11, vec![input(1, 0), input(77, 0)], vec![900])],
    }];
    let processor = FeesCounterProcessor::new("./jsons");
    let date = timestamp_to_naive_date(JAN_1_2021);
    assert_eq!(
        processor.process_daily_blocks(&batch, &db, &mut caches, &date),
        Err(ProcessError::ReferenceNotFound)
    );
    let mut processor = processor;
    assert_eq!(
        processor.import_daily_blocks(date, &batch, &db, &mut caches),
        Err(ProcessError::ReferenceNotFound)
    );
    assert_eq!(processor.output.data.len(), 0);
}

#[test]
fn fees_skip_coinbases_and_add_up_over_blocks() {
    let db = Ledger::new(history());
    let mut caches = DBCaches::new();
    let batch = vec![
        Block {
            time: JAN_1_2021,
            txdata: vec![tx(10, vec![], vec![5_000]), tx(11, vec![input(1, 0)], vec![590])],
        },
        Block { time: JAN_1_2021 + 600, txdata: vec![tx(12, vec![input(2, 0)], vec![6_000, 900])] },
    ];
    assert_eq!(Statistic::Fees.compute(&batch, &db, &mut caches), Ok(110));
    assert_eq!(Statistic::Volume.compute(&batch, &db, &mut caches), Ok(7_600));
    assert_eq!(Statistic::Coinbases.compute(&batch, &db, &mut caches), Ok(5_000));
    assert_eq!(Statistic::Transactions.compute(&batch, &db, &mut caches), Ok(3));
    assert_eq!(Statistic::Inputs.compute(&batch, &db, &mut caches), Ok(2));
    assert_eq!(Statistic::Outputs.compute(&batch, &db, &mut caches), Ok(4));
    assert_eq!(db.calls.get(), 2);
}

#[test]
fn outputs_above_inputs_are_no_fee() {
    let db = Ledger::new(history());
    let mut caches = DBCaches::new();
    let batch = vec![Block { time: JAN_1_2021, txdata: vec![tx(11, vec![input(1, 2)], vec![51])] }];
    assert_eq!(
        Statistic::Fees.compute(&batch, &db, &mut caches),
        Err(ProcessError::ArithmeticOverflow)
    );
}

#[test]
fn total_above_64_bits_overflows() {
    let db = Ledger::empty();
    let mut caches = DBCaches::new();
    let batch = vec![Block {
        time: JAN_1_2021,
        txdata: vec![tx(10, vec![], vec![u64::MAX]), tx(11, vec![], vec![1])],
    }];
    assert_eq!(
        Statistic::Coinbases.compute(&batch, &db, &mut caches),
        Err(ProcessError::ArithmeticOverflow)
    );
    let batch = vec![Block { time: JAN_1_2021, txdata: vec![tx(10, vec![], vec![u64::MAX - 1, 1])] }];
    assert_eq!(Statistic::Coinbases.compute(&batch, &db, &mut caches), Ok(u64::MAX));
    let batch = vec![Block { time: JAN_1_2021, txdata: vec![tx(10, vec![], vec![u64::MAX, 1])] }];
    assert_eq!(
        Statistic::Coinbases.compute(&batch, &db, &mut caches),
        Err(ProcessError::ArithmeticOverflow)
    );
}

#[test]
fn empty_batch_adds_up_to_nothing() {
    let db = Ledger::empty();
    let mut caches = DBCaches::new();
    let batch: Vec<Block> = vec![];
    assert_eq!(Statistic::Fees.compute(&batch, &db, &mut caches), Ok(0));
    assert_eq!(Statistic::Transactions.compute(&batch, &db, &mut caches), Ok(0));
    assert_eq!(Statistic::Fees.tally(&batch, &caches), Ok(0));
}

#[test]
fn resolving_a_batch_asks_once_for_each_transaction() {
    let db = Ledger::new(history());
    let mut caches = DBCaches::new();
    let batch = vec![Block {
        time: JAN_1_2021,
        txdata: vec![
            tx(11, vec![input(1, 0), input(1, 1)], vec![1]),
            tx(12, vec![input(1, 2), input(2, 0)], vec![1]),
        ],
    }];
    assert_eq!(resolve_inputs(&batch, &db, &mut caches), Ok(()));
    assert_eq!(db.calls.get(), 2);
    assert_eq!(caches.outpoint_to_value.len(), 4);
    assert_eq!(resolve_inputs(&batch, &db, &mut caches), Ok(()));
    assert_eq!(db.calls.get(), 2);
    assert_eq!(Statistic::Volume.tally(&batch, &caches), Ok(8_050));
    assert_eq!(Statistic::Fees.tally(&batch, &caches), Ok(8_048));
}

#[test]
fn counting_processors_count() {
    let db = Ledger::empty();
    let mut caches = DBCaches::new();
    let batch = vec![
        Block {
            time: JAN_1_2021,
            txdata: vec![tx(10, vec![], vec![1, 2]), tx(11, vec![input(1, 0)], vec![3])],
        },
        Block { time: JAN_1_2021 + 1, txdata: vec![tx(12, vec![input(1, 1), input(2, 0)], vec![])] },
    ];
    let date = timestamp_to_naive_date(JAN_1_2021);
    let blocks = BlocksCounterProcessor::new("p");
    let transactions = TransactionsCounterProcessor::new("p");
    let inputs = InputsCounterProcessor::new("p");
    let outputs = OutputsCounterProcessor::new("p");
    let counter = CounterProcessor::new("p");
    assert_eq!(blocks.process_daily_blocks(&batch, &db, &mut caches, &date), Ok(2));
    assert_eq!(transactions.process_daily_blocks(&batch, &db, &mut caches, &date), Ok(3));
    assert_eq!(inputs.process_daily_blocks(&batch, &db, &mut caches, &date), Ok(3));
    assert_eq!(outputs.process_daily_blocks(&batch, &db, &mut caches, &date), Ok(3));
    assert_eq!(
        counter.process_daily_blocks(&batch, &db, &mut caches, &date),
        Ok(Counter { blocks: 2, transactions: 3, inputs: 3, outputs: 3 })
    );
    assert_eq!(db.calls.get(), 0);
}

#[test]
fn processors_know_their_names_and_files() {
    let p = BlocksCounterProcessor::new("./jsons");
    assert_eq!(p.name, "Counter/Blocks");
    assert_eq!(p.output.path(), "./jsons");
    assert_eq!(p.output.filename(), "counters/blocks.json");
    assert_eq!(p.output.data.len(), 0);
    assert_eq!(TransactionsCounterProcessor::new("a").output.filename(), "counters/transactions.json");
    assert_eq!(InputsCounterProcessor::new("a").output.filename(), "counters/inputs.json");
    assert_eq!(OutputsCounterProcessor::new("a").output.filename(), "counters/outputs.json");
    assert_eq!(CoinbasesCounterProcessor::new("a").output.filename(), "counters/coinbases.json");
    assert_eq!(FeesCounterProcessor::new("a").output.filename(), "counters/fees.json");
    assert_eq!(VolumeCounterProcessor::new("a").output.filename(), "counters/volume.json");
    assert_eq!(CounterProcessor::new("a").output.filename(), "counts.json");
    assert_eq!(FeesCounterProcessor::new("a").name, "Counter/Fees");
    assert_eq!(VolumeCounterProcessor::new("a").name, "Counter/Volume");
    assert_eq!(CounterProcessor::new("a").name, "TQP");
}

#[test]
fn ingest_stores_under_the_date_and_says_when_to_flush() {
    let db = Ledger::new(history());
    let mut caches = DBCaches::new();
    let mut processor = VolumeCounterProcessor::new("./jsons");
    let batch = vec![Block { time: JAN_1_2021, txdata: vec![tx(11, vec![input(2, 0)], vec![1])] }];

    let first = CalendarDate { year: 2021, month: 1, day: 1 };
    assert_eq!(
        processor.import_daily_blocks(first, &batch, &db, &mut caches),
        Ok(ImportOutcome::FlushDue)
    );
    assert_eq!(processor.output.get(&"2021-01-01".to_string()), Some(7_000));

    let second = CalendarDate { year: 2021, month: 1, day: 2 };
    assert_eq!(
        processor.import_daily_blocks(second, &batch, &db, &mut caches),
        Ok(ImportOutcome::Stored)
    );
    let fourteenth = CalendarDate { year: 2021, month: 1, day: 14 };
    assert_eq!(
        processor.import_daily_blocks(fourteenth, &batch, &db, &mut caches),
        Ok(ImportOutcome::FlushDue)
    );
    let fifteenth = CalendarDate { year: 2021, month: 1, day: 15 };
    assert_eq!(
        processor.import_daily_blocks(fifteenth, &batch, &db, &mut caches),
        Ok(ImportOutcome::Stored)
    );
    assert_eq!(processor.output.data.len(), 4);
    assert_eq!(processor.output.get(&"2021-01-14".to_string()), Some(7_000));
    assert_eq!(processor.output.get(&"2021-01-03".to_string()), None);
}

#[test]
fn ingest_of_a_present_date_changes_nothing() {
    let db = Ledger::new(history());
    let mut caches = DBCaches::new();
    let mut processor = VolumeCounterProcessor::new("./jsons");
    let date = CalendarDate { year: 2021, month: 3, day: 5 };
    let batch = vec![Block { time: JAN_1_2021, txdata: vec![tx(11, vec![input(1, 0)], vec![1])] }];
    assert_eq!(
        processor.import_daily_blocks(date, &batch, &db, &mut caches),
        Ok(ImportOutcome::Stored)
    );
    assert_eq!(db.calls.get(), 1);
    caches.clear();

    let other = vec![Block { time: JAN_1_2021, txdata: vec![tx(12, vec![input(2, 0)], vec![1])] }];
    for _ in 0..2 {
        assert_eq!(
            processor.import_daily_blocks(date, &other, &db, &mut caches),
            Ok(ImportOutcome::Skipped)
        );
        assert_eq!(processor.output.get(&"2021-03-05".to_string()), Some(600));
        assert_eq!(processor.output.data.len(), 1);
        assert_eq!(db.calls.get(), 1);
        assert_eq!(caches.outpoint_to_value.len(), 0);
    }
}

#[test]
fn ingest_refuses_a_day_that_the_calendar_lacks() {
    let db = Ledger::empty();
    let mut caches = DBCaches::new();
    let mut processor = BlocksCounterProcessor::new("./jsons");
    let date = CalendarDate { year: 2021, month: 2, day: 30 };
    assert_eq!(
        processor.import_daily_blocks(date, &vec![], &db, &mut caches),
        Err(ProcessError::InvalidDate)
    );
    assert_eq!(processor.output.data.len(), 0);
}

#[test]
fn output_get_put_snapshot() {
    let mut output: Output<u64> = Output::new("root", "file.json");
    assert_eq!(output.get(&"2021-01-01".to_string()), None);
    output.put("2021-01-02".to_string(), 5);
    output.put("2021-01-01".to_string(), 9);
    output.put("2021-01-02".to_string(), 6);
    assert_eq!(output.get(&"2021-01-02".to_string()), Some(6));
    assert_eq!(
        output.snapshot(),
        vec![("2021-01-02".to_string(), 6), ("2021-01-01".to_string(), 9)]
    );
}

#[test]
fn exported_map_is_a_json_object_in_key_order() {
    let mut output: Output<u64> = Output::new("root", "file.json");
    output.put("2021-01-02".to_string(), 5);
    output.put("2021-01-01".to_string(), 9);
    assert_eq!(
        output.export_json().unwrap(),
        "{\n  \"2021-01-01\": 9,\n  \"2021-01-02\": 5\n}"
    );
    let empty: Output<usize> = Output::new("root", "file.json");
    assert_eq!(empty.export_json().unwrap(), "{}");
}

#[test]
fn written_map_read_back_is_the_same_map() {
    let mut output: Output<u64> = Output::new("root", "file.json");
    output.put("2021-01-14".to_string(), u64::MAX);
    output.put("2021-01-01".to_string(), 0);
    output.put("2020-12-31".to_string(), 77);
    let text = output.export_json().unwrap();

    let mut reloaded: Output<u64> = Output::new("root", "file.json");
    assert_eq!(reloaded.import_json(&text), Ok(()));
    assert_eq!(reloaded.data.len(), 3);
    assert_eq!(reloaded.get(&"2021-01-14".to_string()), Some(u64::MAX));
    assert_eq!(reloaded.get(&"2021-01-01".to_string()), Some(0));
    assert_eq!(reloaded.get(&"2020-12-31".to_string()), Some(77));
    assert_eq!(reloaded.export_json().unwrap(), text);
}

#[test]
fn missing_or_empty_file_is_an_empty_map() {
    let mut output: Output<u64> = Output::new("root", "file.json");
    output.put("2021-01-01".to_string(), 1);
    assert_eq!(output.import_json(""), Ok(()));
    assert_eq!(output.data.len(), 0);
    output.put("2021-01-01".to_string(), 1);
    assert_eq!(output.import_json("{}"), Ok(()));
    assert_eq!(output.data.len(), 0);
}

#[test]
fn malformed_file_is_refused_and_the_map_stays() {
    let mut output: Output<u64> = Output::new("root", "file.json");
    output.put("2021-01-01".to_string(), 1);
    assert_eq!(output.import_json("{\"2021-01-01\": "), Err(ProcessError::MalformedPersistedState));
    assert_eq!(output.import_json("[1, 2]"), Err(ProcessError::MalformedPersistedState));
    assert_eq!(
        output.import_json("{\"2021-01-01\": -1}"),
        Err(ProcessError::MalformedPersistedState)
    );
    assert_eq!(
        output.import_json("{\"2021-01-01\": \"one\"}"),
        Err(ProcessError::MalformedPersistedState)
    );
    assert_eq!(output.get(&"2021-01-01".to_string()), Some(1));
    assert_eq!(output.data.len(), 1);
}

/// Five days of blocks, each spending from the history.
fn five_days() -> Vec<Block> {
    let start = 1_610_409_600; // 2021-01-12T00:00:00Z
    vec![
        Block { time: start, txdata: vec![tx(20, vec![input(1, 0)], vec![500])] },
        Block { time: start + 100, txdata: vec![tx(21, vec![input(1, 1)], vec![399])] },
        Block { time: start + DAY, txdata: vec![tx(22, vec![input(2, 0)], vec![6_000])] },
        Block { time: start + 2 * DAY, txdata: vec![tx(23, vec![input(1, 2)], vec![50])] },
        Block { time: start + 3 * DAY, txdata: vec![tx(24, vec![input(1, 0), input(2, 0)], vec![7_000])] },
        Block { time: start + 4 * DAY + 5, txdata: vec![tx(25, vec![input(1, 1)], vec![1])] },
    ]
}

/// Runs the batches through a fee processor; the count of batches computed
/// and the texts written at the checkpoints come back.
fn run(processor: &mut FeesCounterProcessor, db: &Ledger, stop_after_flush: bool) -> (usize, Vec<String>) {
    let mut caches = DBCaches::new();
    let mut computed = 0;
    let mut written = vec![];
    for batch in group_blocks_by_day(five_days()) {
        let date = timestamp_to_naive_date(batch[0].time);
        match processor.import_daily_blocks(date, &batch, db, &mut caches).unwrap() {
            ImportOutcome::Skipped => {}
            ImportOutcome::Stored => computed += 1,
            ImportOutcome::FlushDue => {
                computed += 1;
                written.push(processor.export_output().unwrap());
                if stop_after_flush {
                    return (computed, written);
                }
            }
        }
        caches.clear();
    }
    (computed, written)
}

#[test]
fn restart_after_a_checkpoint_ends_with_the_same_map() {
    let db = Ledger::new(history());

    let mut whole = FeesCounterProcessor::new("./jsons");
    let (computed, written) = run(&mut whole, &db, false);
    assert_eq!(computed, 5);
    assert_eq!(written.len(), 1);

    let mut stopped = FeesCounterProcessor::new("./jsons");
    let (computed, written) = run(&mut stopped, &db, true);
    assert_eq!(computed, 3);
    assert_eq!(stopped.output.data.len(), 3);

    let mut resumed = FeesCounterProcessor::new("./jsons");
    assert_eq!(resumed.import_output(&written[0]), Ok(()));
    let (computed, _) = run(&mut resumed, &db, false);
    assert_eq!(computed, 2);

    assert_eq!(resumed.export_output().unwrap(), whole.export_output().unwrap());
    assert_eq!(resumed.output.get(&"2021-01-12".to_string()), Some(101));
    assert_eq!(resumed.output.get(&"2021-01-13".to_string()), Some(1_000));
    assert_eq!(resumed.output.get(&"2021-01-14".to_string()), Some(0));
    assert_eq!(resumed.output.get(&"2021-01-15".to_string()), Some(600));
    assert_eq!(resumed.output.get(&"2021-01-16".to_string()), Some(399));
    assert_eq!(resumed.output.data.len(), 5);
}

#[test]
fn counts_are_read_back_as_counts() {
    let mut processor = BlocksCounterProcessor::new("./jsons");
    assert_eq!(processor.import_output("{\"2021-01-01\": 144, \"2021-01-02\": 150}"), Ok(()));
    assert_eq!(processor.output.get(&"2021-01-02".to_string()), Some(150));
    let db = Ledger::empty();
    let mut caches = DBCaches::new();
    let date = CalendarDate { year: 2021, month: 1, day: 2 };
    assert_eq!(
        processor.import_daily_blocks(date, &vec![], &db, &mut caches),
        Ok(ImportOutcome::Skipped)
    );
    assert_eq!(
        processor.export_output().unwrap(),
        "{\n  \"2021-01-01\": 144,\n  \"2021-01-02\": 150\n}"
    );
}

#[test]
fn map_is_written_on_the_first_and_the_fourteenth() {
    for day in 1..=31 {
        let date = CalendarDate { year: 2021, month: 1, day };
        assert_eq!(flush_is_due(&date), day == 1 || day == 14);
    }
}

#[test]
fn held_transactions_give_the_values_without_the_store() {
    let db = Ledger::new(history());
    let mut caches = DBCaches::new();
    assert!(caches.txid_to_tx(txid(1), &db).is_ok());
    assert_eq!(db.calls.get(), 1);

    let nowhere = Ledger::empty();
    let batch = vec![Block {
        time: JAN_1_2021,
        txdata: vec![tx(11, vec![input(1, 0), input(1, 1)], vec![850, 50])],
    }];
    assert_eq!(Statistic::Fees.compute(&batch, &nowhere, &mut caches), Ok(100));
    assert_eq!(nowhere.calls.get(), 0);
    assert_eq!(caches.outpoint_to_value.len(), 2);

    let processor = VolumeCounterProcessor::new("./jsons");
    let date = timestamp_to_naive_date(JAN_1_2021);
    assert_eq!(processor.process_daily_blocks(&batch, &nowhere, &mut caches, &date), Ok(1_000));
    assert_eq!(nowhere.calls.get(), 0);
}

#[test]
fn held_transaction_without_the_output_is_not_found() {
    let db = Ledger::new(history());
    let mut caches = DBCaches::new();
    assert!(caches.txid_to_tx(txid(1), &db).is_ok());
    let batch = vec![Block { time: JAN_1_2021, txdata: vec![tx(11, vec![input(1, 3)], vec![1])] }];
    assert_eq!(
        Statistic::Fees.compute(&batch, &db, &mut caches),
        Err(ProcessError::ReferenceNotFound)
    );
    assert_eq!(db.calls.get(), 1);
}

#[test]
fn key_of_a_date_is_its_iso_text() {
    assert_eq!(
        date_key(&CalendarDate { year: 2021, month: 1, day: 2 }),
        Ok("2021-01-02".to_string())
    );
    assert_eq!(
        date_key(&CalendarDate { year: 1970, month: 12, day: 31 }),
        Ok("1970-12-31".to_string())
    );
    assert_eq!(
        date_key(&CalendarDate { year: 2021, month: 2, day: 29 }),
        Err(ProcessError::InvalidDate)
    );
    assert_eq!(
        date_key(&CalendarDate { year: 2021, month: 0, day: 1 }),
        Err(ProcessError::InvalidDate)
    );
}

#[test]
fn present_date_is_skipped_and_new_date_stored() {
    let first = CalendarDate { year: 2021, month: 1, day: 1 };
    let second = CalendarDate { year: 2021, month: 1, day: 2 };
    let fourteenth = CalendarDate { year: 2021, month: 1, day: 14 };
    assert_eq!(import_decision(true, &first), ImportOutcome::Skipped);
    assert_eq!(import_decision(true, &second), ImportOutcome::Skipped);
    assert_eq!(import_decision(false, &first), ImportOutcome::FlushDue);
    assert_eq!(import_decision(false, &second), ImportOutcome::Stored);
    assert_eq!(import_decision(false, &fourteenth), ImportOutcome::FlushDue);
}

#[test]
fn text_reads_back_only_as_the_map_that_it_holds() {
    let mut output: Output<u64> = Output::new("root", "file.json");
    output.put("2021-01-02".to_string(), 5);
    output.put("2021-01-01".to_string(), 9);
    let text = output.export_json().unwrap();
    assert!(output.reads_back(&text));
    assert!(output.reads_back("{\"2021-01-01\": 9, \"2021-01-02\": 5}"));
    assert!(!output.reads_back("{\"2021-01-01\": 9}"));
    assert!(!output.reads_back("{\"2021-01-01\": 9, \"2021-01-02\": 6}"));
    assert!(!output.reads_back("{\"2021-01-01\": 9, \"2021-01-02\": 5, \"2021-01-03\": 0}"));
    assert!(!output.reads_back("{\"2021-01-01\": 9, \"2021-01-02\": -5}"));
    assert!(!output.reads_back("no map"));
    assert!(!output.reads_back(""));
    let empty: Output<u64> = Output::new("root", "file.json");
    assert!(empty.reads_back(""));
    assert!(empty.reads_back("{}"));
    assert!(!empty.reads_back(&text));
}

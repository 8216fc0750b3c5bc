//! The four counts of a day, taken together.

use crate::cache::{CacheView, DBCaches};
use crate::date::CalendarDate;
use crate::error::ProcessError;
use crate::ledger::{Block, BlockStore, BlockView};
use crate::processors::onesteps::{as_count, count_outcome};
use crate::processors::{DailyBlocksProcessor, Processor};
use crate::stats::Statistic;
use vstd::prelude::*;

verus! {

/// How many blocks, transactions, inputs and outputs a day has.
#[derive(Clone, Copy, Debug, PartialEq, Eq, Structural)]
pub struct Counter {
    pub blocks: usize,
    pub transactions: usize,
    pub inputs: usize,
    pub outputs: usize,
}

impl View for Counter {
    type V = Counter;

    open spec fn view(&self) -> Counter {
        *self
    }
}

/// The processor of this statistic.
pub type CounterProcessor = Processor<Counter, Counter>;

/// The four counts of a batch, or the first of the errors that taking them
/// in this order meets: transactions, inputs, outputs.
pub open spec fn counter_outcome(blocks: Seq<BlockView>, cache: CacheView) -> Result<
    Counter,
    ProcessError,
> {
    let transactions = count_outcome(Statistic::Transactions.outcome(blocks, cache.values));
    let inputs = count_outcome(Statistic::Inputs.outcome(blocks, cache.values));
    let outputs = count_outcome(Statistic::Outputs.outcome(blocks, cache.values));
    if transactions.is_err() {
        Err(transactions.unwrap_err())
    } else if inputs.is_err() {
        Err(inputs.unwrap_err())
    } else if outputs.is_err() {
        Err(outputs.unwrap_err())
    } else {
        Ok(
            Counter {
                blocks: blocks.len() as usize,
                transactions: transactions.unwrap(),
                inputs: inputs.unwrap(),
                outputs: outputs.unwrap(),
            },
        )
    }
}

impl CounterProcessor {
    /// The processor with an empty map, kept in its file below `path`.
    pub fn new(path: &str) -> (processor: Self)
        ensures
            processor.wf(),
            processor.name@ == "TQP"@,
            processor.stored() == Map::<Seq<char>, Counter>::empty(),
            processor.output.root() == path@,
            processor.output.file() == "counts.json"@,
    {
        Processor::with_output("TQP", path, "counts.json")
    }
}

impl DailyBlocksProcessor<Counter> for CounterProcessor {
    open spec fn resolved(blocks: Seq<BlockView>, cache: CacheView) -> bool {
        true
    }

    open spec fn outcome(blocks: Seq<BlockView>, cache: CacheView, date: CalendarDate) -> Result<
        Counter,
        ProcessError,
    > {
        counter_outcome(blocks, cache)
    }

    fn process_daily_blocks<S: BlockStore>(
        &self,
        blocks: &Vec<Block>,
        db: &S,
        caches: &mut DBCaches,
        date: &CalendarDate,
    ) -> (result: Result<Counter, ProcessError>) {
        let transactions = match as_count(Statistic::Transactions.tally(blocks, caches)) {
            Ok(n) => n,
            Err(e) => {
                return Err(e);
            },
        };
        let inputs = match as_count(Statistic::Inputs.tally(blocks, caches)) {
            Ok(n) => n,
            Err(e) => {
                return Err(e);
            },
        };
        let outputs = match as_count(Statistic::Outputs.tally(blocks, caches)) {
            Ok(n) => n,
            Err(e) => {
                return Err(e);
            },
        };
        Ok(Counter { blocks: blocks.len(), transactions, inputs, outputs })
    }
}

} // verus!

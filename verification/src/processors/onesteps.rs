//! The statistics that are one number per day.

use crate::cache::{CacheView, DBCaches};
use crate::date::CalendarDate;
use crate::error::ProcessError;
use crate::ledger::{Block, BlockStore, BlockView};
use crate::processors::{DailyBlocksProcessor, Processor};
use crate::stats::{batch_settled, Statistic};
use vstd::prelude::*;

verus! {

/// A total as a count, where it is one.
pub open spec fn count_outcome(total: Result<u64, ProcessError>) -> Result<usize, ProcessError> {
    match total {
        Ok(n) => if n <= usize::MAX {
            Ok(n as usize)
        } else {
            Err(ProcessError::ArithmeticOverflow)
        },
        Err(e) => Err(e),
    }
}

/// A total as a count, where it is one.
pub fn as_count(total: Result<u64, ProcessError>) -> (count: Result<usize, ProcessError>)
    ensures
        count == count_outcome(total),
{
    match total {
        Ok(n) => if n <= usize::MAX as u64 {
            Ok(n as usize)
        } else {
            Err(ProcessError::ArithmeticOverflow)
        },
        Err(e) => Err(e),
    }
}

/// The number of blocks of a day.
pub struct BlocksCounter;

/// The processor of this statistic.
pub type BlocksCounterProcessor = Processor<usize, BlocksCounter>;

impl BlocksCounterProcessor {
    /// The processor with an empty map, kept in its file below `path`.
    pub fn new(path: &str) -> (processor: Self)
        ensures
            processor.wf(),
            processor.name@ == "Counter/Blocks"@,
            processor.stored() == Map::<Seq<char>, usize>::empty(),
            processor.output.root() == path@,
            processor.output.file() == "counters/blocks.json"@,
    {
        Processor::with_output("Counter/Blocks", path, "counters/blocks.json")
    }
}

impl DailyBlocksProcessor<usize> for BlocksCounterProcessor {
    open spec fn resolved(blocks: Seq<BlockView>, cache: CacheView) -> bool {
        true
    }

    open spec fn outcome(blocks: Seq<BlockView>, cache: CacheView, date: CalendarDate) -> Result<
        usize,
        ProcessError,
    > {
        Ok(blocks.len() as usize)
    }

    fn process_daily_blocks<S: BlockStore>(
        &self,
        blocks: &Vec<Block>,
        db: &S,
        caches: &mut DBCaches,
        date: &CalendarDate,
    ) -> (result: Result<usize, ProcessError>) {
        Ok(blocks.len())
    }
}

/// The number of transactions of a day.
pub struct TransactionsCounter;

/// The processor of this statistic.
pub type TransactionsCounterProcessor = Processor<usize, TransactionsCounter>;

impl TransactionsCounterProcessor {
    /// The processor with an empty map, kept in its file below `path`.
    pub fn new(path: &str) -> (processor: Self)
        ensures
            processor.wf(),
            processor.name@ == "Counter/Transactions"@,
            processor.stored() == Map::<Seq<char>, usize>::empty(),
            processor.output.root() == path@,
            processor.output.file() == "counters/transactions.json"@,
    {
        Processor::with_output("Counter/Transactions", path, "counters/transactions.json")
    }
}

impl DailyBlocksProcessor<usize> for TransactionsCounterProcessor {
    open spec fn resolved(blocks: Seq<BlockView>, cache: CacheView) -> bool {
        true
    }

    open spec fn outcome(blocks: Seq<BlockView>, cache: CacheView, date: CalendarDate) -> Result<
        usize,
        ProcessError,
    > {
        count_outcome(Statistic::Transactions.outcome(blocks, cache.values))
    }

    fn process_daily_blocks<S: BlockStore>(
        &self,
        blocks: &Vec<Block>,
        db: &S,
        caches: &mut DBCaches,
        date: &CalendarDate,
    ) -> (result: Result<usize, ProcessError>) {
        as_count(Statistic::Transactions.compute(blocks, db, caches))
    }
}

/// The number of inputs of a day's transactions.
pub struct InputsCounter;

/// The processor of this statistic.
pub type InputsCounterProcessor = Processor<usize, InputsCounter>;

impl InputsCounterProcessor {
    /// The processor with an empty map, kept in its file below `path`.
    pub fn new(path: &str) -> (processor: Self)
        ensures
            processor.wf(),
            processor.name@ == "Counter/Inputs"@,
            processor.stored() == Map::<Seq<char>, usize>::empty(),
            processor.output.root() == path@,
            processor.output.file() == "counters/inputs.json"@,
    {
        Processor::with_output("Counter/Inputs", path, "counters/inputs.json")
    }
}

impl DailyBlocksProcessor<usize> for InputsCounterProcessor {
    open spec fn resolved(blocks: Seq<BlockView>, cache: CacheView) -> bool {
        true
    }

    open spec fn outcome(blocks: Seq<BlockView>, cache: CacheView, date: CalendarDate) -> Result<
        usize,
        ProcessError,
    > {
        count_outcome(Statistic::Inputs.outcome(blocks, cache.values))
    }

    fn process_daily_blocks<S: BlockStore>(
        &self,
        blocks: &Vec<Block>,
        db: &S,
        caches: &mut DBCaches,
        date: &CalendarDate,
    ) -> (result: Result<usize, ProcessError>) {
        as_count(Statistic::Inputs.compute(blocks, db, caches))
    }
}

/// The number of outputs of a day's transactions.
pub struct OutputsCounter;

/// The processor of this statistic.
pub type OutputsCounterProcessor = Processor<usize, OutputsCounter>;

impl OutputsCounterProcessor {
    /// The processor with an empty map, kept in its file below `path`.
    pub fn new(path: &str) -> (processor: Self)
        ensures
            processor.wf(),
            processor.name@ == "Counter/Outputs"@,
            processor.stored() == Map::<Seq<char>, usize>::empty(),
            processor.output.root() == path@,
            processor.output.file() == "counters/outputs.json"@,
    {
        Processor::with_output("Counter/Outputs", path, "counters/outputs.json")
    }
}

impl DailyBlocksProcessor<usize> for OutputsCounterProcessor {
    open spec fn resolved(blocks: Seq<BlockView>, cache: CacheView) -> bool {
        true
    }

    open spec fn outcome(blocks: Seq<BlockView>, cache: CacheView, date: CalendarDate) -> Result<
        usize,
        ProcessError,
    > {
        count_outcome(Statistic::Outputs.outcome(blocks, cache.values))
    }

    fn process_daily_blocks<S: BlockStore>(
        &self,
        blocks: &Vec<Block>,
        db: &S,
        caches: &mut DBCaches,
        date: &CalendarDate,
    ) -> (result: Result<usize, ProcessError>) {
        as_count(Statistic::Outputs.compute(blocks, db, caches))
    }
}

/// The amount that a day's coinbase transactions pay out.
pub struct CoinbasesCounter;

/// The processor of this statistic.
pub type CoinbasesCounterProcessor = Processor<u64, CoinbasesCounter>;

impl CoinbasesCounterProcessor {
    /// The processor with an empty map, kept in its file below `path`.
    pub fn new(path: &str) -> (processor: Self)
        ensures
            processor.wf(),
            processor.name@ == "Counter/Coinbases"@,
            processor.stored() == Map::<Seq<char>, u64>::empty(),
            processor.output.root() == path@,
            processor.output.file() == "counters/coinbases.json"@,
    {
        Processor::with_output("Counter/Coinbases", path, "counters/coinbases.json")
    }
}

impl DailyBlocksProcessor<u64> for CoinbasesCounterProcessor {
    open spec fn resolved(blocks: Seq<BlockView>, cache: CacheView) -> bool {
        true
    }

    open spec fn outcome(blocks: Seq<BlockView>, cache: CacheView, date: CalendarDate) -> Result<
        u64,
        ProcessError,
    > {
        Statistic::Coinbases.outcome(blocks, cache.values)
    }

    fn process_daily_blocks<S: BlockStore>(
        &self,
        blocks: &Vec<Block>,
        db: &S,
        caches: &mut DBCaches,
        date: &CalendarDate,
    ) -> (result: Result<u64, ProcessError>) {
        Statistic::Coinbases.compute(blocks, db, caches)
    }
}

/// The fees of a day: in each transaction that is no coinbase, what the
/// inputs spend less what the outputs pay.
pub struct FeesCounter;

/// The processor of this statistic.
pub type FeesCounterProcessor = Processor<u64, FeesCounter>;

impl FeesCounterProcessor {
    /// The processor with an empty map, kept in its file below `path`.
    pub fn new(path: &str) -> (processor: Self)
        ensures
            processor.wf(),
            processor.name@ == "Counter/Fees"@,
            processor.stored() == Map::<Seq<char>, u64>::empty(),
            processor.output.root() == path@,
            processor.output.file() == "counters/fees.json"@,
    {
        Processor::with_output("Counter/Fees", path, "counters/fees.json")
    }
}

impl DailyBlocksProcessor<u64> for FeesCounterProcessor {
    open spec fn resolved(blocks: Seq<BlockView>, cache: CacheView) -> bool {
        batch_settled(blocks, cache)
    }

    open spec fn outcome(blocks: Seq<BlockView>, cache: CacheView, date: CalendarDate) -> Result<
        u64,
        ProcessError,
    > {
        Statistic::Fees.outcome(blocks, cache.values)
    }

    fn process_daily_blocks<S: BlockStore>(
        &self,
        blocks: &Vec<Block>,
        db: &S,
        caches: &mut DBCaches,
        date: &CalendarDate,
    ) -> (result: Result<u64, ProcessError>) {
        Statistic::Fees.compute(blocks, db, caches)
    }
}

/// The volume of a day: what the inputs of its transactions spend.
pub struct VolumeCounter;

/// The processor of this statistic.
pub type VolumeCounterProcessor = Processor<u64, VolumeCounter>;

impl VolumeCounterProcessor {
    /// The processor with an empty map, kept in its file below `path`.
    pub fn new(path: &str) -> (processor: Self)
        ensures
            processor.wf(),
            processor.name@ == "Counter/Volume"@,
            processor.stored() == Map::<Seq<char>, u64>::empty(),
            processor.output.root() == path@,
            processor.output.file() == "counters/volume.json"@,
    {
        Processor::with_output("Counter/Volume", path, "counters/volume.json")
    }
}

impl DailyBlocksProcessor<u64> for VolumeCounterProcessor {
    open spec fn resolved(blocks: Seq<BlockView>, cache: CacheView) -> bool {
        batch_settled(blocks, cache)
    }

    open spec fn outcome(blocks: Seq<BlockView>, cache: CacheView, date: CalendarDate) -> Result<
        u64,
        ProcessError,
    > {
        Statistic::Volume.outcome(blocks, cache.values)
    }

    fn process_daily_blocks<S: BlockStore>(
        &self,
        blocks: &Vec<Block>,
        db: &S,
        caches: &mut DBCaches,
        date: &CalendarDate,
    ) -> (result: Result<u64, ProcessError>) {
        Statistic::Volume.compute(blocks, db, caches)
    }
}

} // verus!

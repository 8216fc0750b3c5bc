//! Moved satoshis: what a day's inputs spend, by the date on which the
//! spent outputs were made.

use crate::cache::{CacheView, DBCaches};
use crate::error::ProcessError;
use crate::json::entries_view;
use crate::date::CalendarDate;
use crate::ledger::{Block, BlockStore, BlockView, TxInput};
use crate::processors::days_destroyed::{
    ages_resolved, ages_settled, lemma_resolved_ages_are_settled, resolve_ages,
};
use crate::processors::{DailyBlocksProcessor, Processor};
use crate::stats::{batch_inputs, collect_inputs};
use crate::table::Table;
use crate::totals::{credited_all, total_by_key};
use vstd::prelude::*;

verus! {

/// Amounts by date string.
pub type MovedSats = Table<String, u64>;

/// Moved satoshis of a day.
pub struct MovedSatsPhantomData;

/// The processor of this statistic.
pub type MovedSatsProcessor = Processor<MovedSats, MovedSatsPhantomData>;

/// What one input moves: the date string of the day on which the output
/// that it spends was made, and the output's value; `None` where the
/// calendar lacks that day.
pub open spec fn moved_entry(input: TxInput, cache: CacheView) -> Option<(Seq<char>, u64)> {
    match cache.dates[input.previous_output.txid].key() {
        Some(key) => Some((key, cache.values[input.previous_output])),
        None => None,
    }
}

/// What each of the inputs moves, in order.
pub open spec fn moved_entries(inputs: Seq<TxInput>, cache: CacheView) -> Seq<(Seq<char>, u64)> {
    Seq::new(inputs.len(), |i: int| moved_entry(inputs[i], cache).unwrap())
}

/// The amounts that the inputs move, by date string, by what the caches
/// hold of the store, or the reason why they cannot be said.
pub open spec fn moved_outcome(inputs: Seq<TxInput>, cache: CacheView) -> Result<
    Map<Seq<char>, u64>,
    ProcessError,
> {
    if !ages_resolved(inputs, cache) {
        Err(ProcessError::ReferenceNotFound)
    } else if exists|i: int|
        0 <= i < inputs.len() && moved_entry(#[trigger] inputs[i], cache).is_none() {
        Err(ProcessError::InvalidDate)
    } else {
        match credited_all(moved_entries(inputs, cache)) {
            Some(totals) => Ok(totals),
            None => Err(ProcessError::ArithmeticOverflow),
        }
    }
}

/// What each of the inputs moves, from what the caches hold.
pub fn moved_from_caches(inputs: &Vec<TxInput>, caches: &DBCaches) -> (result: Result<
    Vec<(String, u64)>,
    ProcessError,
>)
    requires
        caches.wf(),
        ages_resolved(inputs@, caches@),
    ensures
        match result {
            Ok(entries) => entries_view(entries@) == moved_entries(inputs@, caches@) && forall|
                i: int,
            |
                0 <= i < inputs@.len() ==> moved_entry(#[trigger] inputs@[i], caches@).is_some(),
            Err(e) => e == ProcessError::InvalidDate && exists|i: int|
                0 <= i < inputs@.len() && moved_entry(#[trigger] inputs@[i], caches@).is_none(),
        },
{
    let mut entries: Vec<(String, u64)> = Vec::new();
    let mut i: usize = 0;
    while i < inputs.len()
        invariant
            i <= inputs.len(),
            caches.wf(),
            ages_resolved(inputs@, caches@),
            entries@.len() == i,
            forall|k: int|
                0 <= k < i ==> moved_entry(#[trigger] inputs@[k], caches@) == Some(
                    (entries@[k].0@, entries@[k].1),
                ),
        decreases inputs.len() - i,
    {
        let outpoint = inputs[i].previous_output;
        assert(caches@.values.contains_key(inputs@[i as int].previous_output));
        assert(caches@.dates.contains_key(inputs@[i as int].previous_output.txid));
        let value = match caches.outpoint_to_value.get(&outpoint) {
            Some(value) => *value,
            None => 0,
        };
        let key = match caches.txid_to_naive_date.get(&outpoint.txid) {
            Some(made) => made.iso_string(),
            None => None,
        };
        match key {
            Some(key) => {
                entries.push((key, value));
            },
            None => {
                assert(moved_entry(inputs@[i as int], caches@).is_none());
                return Err(ProcessError::InvalidDate);
            },
        }
        i += 1;
    }
    assert(entries_view(entries@) =~= moved_entries(inputs@, caches@));
    Ok(entries)
}

impl MovedSatsProcessor {
    /// The processor with an empty map, kept in its file below `path`.
    pub fn new(path: &str) -> (processor: Self)
        ensures
            processor.wf(),
            processor.name@ == "Moved sats"@,
            processor.stored() == Map::<Seq<char>, MovedSats>::empty(),
            processor.output.root() == path@,
            processor.output.file() == "satoshis.json"@,
    {
        Processor::with_output("Moved sats", path, "satoshis.json")
    }
}

impl DailyBlocksProcessor<MovedSats> for MovedSatsProcessor {
    open spec fn resolved(blocks: Seq<BlockView>, cache: CacheView) -> bool {
        ages_settled(batch_inputs(blocks), cache)
    }

    open spec fn outcome(blocks: Seq<BlockView>, cache: CacheView, date: CalendarDate) -> Result<
        Map<Seq<char>, u64>,
        ProcessError,
    > {
        moved_outcome(batch_inputs(blocks), cache)
    }

    /// The amounts that the inputs of a batch spend, by the date string of
    /// the day on which each spent output was made.
    fn process_daily_blocks<S: BlockStore>(
        &self,
        blocks: &Vec<Block>,
        db: &S,
        caches: &mut DBCaches,
        date: &CalendarDate,
    ) -> (result: Result<MovedSats, ProcessError>)
        ensures
            result.is_ok() ==> result.unwrap().wf(),
    {
        let inputs = collect_inputs(blocks);
        match resolve_ages(&inputs, db, caches) {
            Ok(()) => {},
            Err(e) => {
                return Err(e);
            },
        }
        proof {
            lemma_resolved_ages_are_settled(inputs@, caches@);
        }
        let entries = match moved_from_caches(&inputs, caches) {
            Ok(entries) => entries,
            Err(e) => {
                return Err(e);
            },
        };
        total_by_key(&entries)
    }
}

} // verus!

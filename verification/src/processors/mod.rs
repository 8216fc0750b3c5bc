//! Processors: each one derives a value from a day's batch of blocks and
//! keeps the values in a map by date that a later run takes up again.

use crate::cache::{CacheView, DBCaches};
use crate::date::{date_key, CalendarDate};
use crate::error::ProcessError;
use crate::ledger::{blocks_view, Block, BlockStore, BlockView};
use crate::output::{
    amounts, import_outcome, imported_amounts, lemma_written_map_reads_back, Amount, Output,
};
use std::marker::PhantomData;
use vstd::prelude::*;

pub mod addresses;
pub mod counter;
pub mod days_destroyed;
pub mod onesteps;
pub mod satoshis;

verus! {

/// A processor of the statistic that the marker `P` names, with values of
/// `T`: its name for messages and its map from dates to values.
pub struct Processor<T, P> {
    pub name: String,
    pub output: Output<T>,
    pub pd: PhantomData<P>,
}

/// What a processor did with a batch.
#[derive(Clone, Copy, Debug, PartialEq, Eq, Structural)]
pub enum ImportOutcome {
    /// The date had a value already: nothing was computed or changed.
    Skipped,
    /// The value of the batch was computed and stored under the date.
    Stored,
    /// As `Stored`, and the map is now to be written to its file.
    FlushDue,
}

/// Whether the map is written out after a value for `date` was stored: on
/// the first and on the fourteenth day of a month.
pub open spec fn flush_due(date: CalendarDate) -> bool {
    date.day == 1 || date.day == 14
}

/// Whether the map is written out after a value for `date` was stored.
pub fn flush_is_due(date: &CalendarDate) -> (due: bool)
    ensures
        due == flush_due(*date),
{
    date.day == 1 || date.day == 14
}

/// What taking in a date comes to, by whether the date has a value already:
/// a date that has one is skipped; a value for a new date is stored, and the
/// map is then written out where that is due.
pub open spec fn import_outcome_for(present: bool, date: CalendarDate) -> ImportOutcome {
    if present {
        ImportOutcome::Skipped
    } else if flush_due(date) {
        ImportOutcome::FlushDue
    } else {
        ImportOutcome::Stored
    }
}

/// What taking in a date comes to, by whether the date has a value already.
pub fn import_decision(present: bool, date: &CalendarDate) -> (outcome: ImportOutcome)
    ensures
        outcome == import_outcome_for(present, *date),
{
    if present {
        ImportOutcome::Skipped
    } else if flush_is_due(date) {
        ImportOutcome::FlushDue
    } else {
        ImportOutcome::Stored
    }
}

/// The map after a date was taken in with the value of its batch: a date
/// that has a value keeps it, a new date gets the value.
pub open spec fn ingested<T>(stored: Map<Seq<char>, T>, key: Seq<char>, value: T) -> Map<
    Seq<char>,
    T,
> {
    if stored.contains_key(key) {
        stored
    } else {
        stored.insert(key, value)
    }
}

/// The map after the days of a run were taken in, in order, each with its
/// date and the value of its batch.
pub open spec fn ingested_all<T>(stored: Map<Seq<char>, T>, days: Seq<(Seq<char>, T)>) -> Map<
    Seq<char>,
    T,
>
    decreases days.len(),
{
    if days.len() == 0 {
        stored
    } else {
        ingested(ingested_all(stored, days.drop_last()), days.last().0, days.last().1)
    }
}

/// A run keeps what the map held and gives each of its days a value.
pub proof fn lemma_run_keeps_and_covers<T>(stored: Map<Seq<char>, T>, days: Seq<(Seq<char>, T)>)
    ensures
        stored.submap_of(ingested_all(stored, days)),
        forall|i: int|
            0 <= i < days.len() ==> ingested_all(stored, days).contains_key((#[trigger] days[i]).0),
    decreases days.len(),
{
    if days.len() > 0 {
        lemma_run_keeps_and_covers(stored, days.drop_last());
        let before = ingested_all(stored, days.drop_last());
        let after = ingested_all(stored, days);
        assert(before.submap_of(after));
        assert forall|k: Seq<char>| stored.dom().contains(k) implies #[trigger] after.dom().contains(
            k,
        ) && stored[k] == after[k] by {
            assert(before.dom().contains(k));
        }
        assert forall|i: int| 0 <= i < days.len() implies ingested_all(stored, days).contains_key(
            (#[trigger] days[i]).0,
        ) by {
            if i < days.len() - 1 {
                assert(days.drop_last()[i] == days[i]);
                assert(before.contains_key(days.drop_last()[i].0));
            }
        }
    }
}

/// A run over days that all have a value changes nothing.
pub proof fn lemma_run_over_present_days<T>(stored: Map<Seq<char>, T>, days: Seq<(Seq<char>, T)>)
    requires
        forall|i: int| 0 <= i < days.len() ==> stored.contains_key((#[trigger] days[i]).0),
    ensures
        ingested_all(stored, days) == stored,
    decreases days.len(),
{
    if days.len() > 0 {
        assert forall|i: int| 0 <= i < days.len() - 1 implies stored.contains_key(
            (#[trigger] days.drop_last()[i]).0,
        ) by {
            assert(days.drop_last()[i] == days[i]);
        }
        lemma_run_over_present_days(stored, days.drop_last());
        assert(stored.contains_key(days[days.len() - 1].0));
    }
}

/// Resuming reaches the same map: a run that was stopped after its first
/// `done` days, and is then made again over all the days from the map that
/// it had reached, ends with the map of a run that was never stopped.
pub proof fn lemma_resumed_run_reaches_same_map<T>(
    stored: Map<Seq<char>, T>,
    days: Seq<(Seq<char>, T)>,
    done: int,
)
    requires
        0 <= done <= days.len(),
    ensures
        ingested_all(ingested_all(stored, days.take(done)), days) == ingested_all(stored, days),
    decreases days.len(),
{
    if done == days.len() {
        assert(days.take(done) == days);
        lemma_run_keeps_and_covers(stored, days);
        lemma_run_over_present_days(ingested_all(stored, days), days);
    } else {
        assert(days.drop_last().take(done) == days.take(done));
        lemma_resumed_run_reaches_same_map(stored, days.drop_last(), done);
    }
}

/// The numbers of a map after a date was taken in are the numbers of the
/// map before, after the date was taken in with the number of its value.
pub proof fn lemma_amounts_of_ingested<T: Amount>(
    stored: Map<Seq<char>, T>,
    key: Seq<char>,
    value: T,
)
    ensures
        amounts(ingested(stored, key, value)) == ingested(amounts(stored), key, value.amount()),
{
    assert(amounts(ingested(stored, key, value)) =~= ingested(
        amounts(stored),
        key,
        value.amount(),
    ));
}

/// Restarting from the written file reaches the same map: a run that was
/// stopped after its first `done` days wrote its map; a map read from that
/// text, after a run over all the days, holds the numbers that a run that
/// was never stopped ends with.
pub proof fn lemma_restart_from_file_reaches_same_map<T: Amount>(
    days: Seq<(Seq<char>, u64)>,
    done: int,
    wrote: Output<T>,
    text: Seq<char>,
    read: Output<T>,
)
    requires
        0 <= done <= days.len(),
        amounts(wrote.data@) == ingested_all(Map::<Seq<char>, u64>::empty(), days.take(done)),
        wrote.written() == Some(text),
        amounts(read.data@) == imported_amounts(text),
    ensures
        ingested_all(amounts(read.data@), days) == ingested_all(
            Map::<Seq<char>, u64>::empty(),
            days,
        ),
{
    lemma_written_map_reads_back(wrote, text, read);
    lemma_resumed_run_reaches_same_map(Map::<Seq<char>, u64>::empty(), days, done);
}

/// A result with the view of its value.
pub open spec fn result_view<T: View>(result: Result<T, ProcessError>) -> Result<T::V, ProcessError> {
    match result {
        Ok(value) => Ok(value@),
        Err(e) => Err(e),
    }
}

/// The views of the values of a map.
pub open spec fn value_views<T: View>(stored: Map<Seq<char>, T>) -> Map<Seq<char>, T::V> {
    stored.map_values(|value: T| value@)
}

/// The statistic of a processor: what it derives from a batch.
pub trait DailyBlocksProcessor<T: View> {
    /// Whether the caches alone give all that the statistic reads of the
    /// store for this batch, so that the store is not asked.
    spec fn resolved(blocks: Seq<BlockView>, cache: CacheView) -> bool;

    /// The value of a batch on a date, by what the caches hold of the store.
    spec fn outcome(blocks: Seq<BlockView>, cache: CacheView, date: CalendarDate) -> Result<
        T::V,
        ProcessError,
    >;

    /// Derives the value of a batch. Only the caches change, and only by
    /// what was resolved on the way. A reference is not found exactly where
    /// the caches, after the store was asked, still do not give all that the
    /// statistic reads; that cannot be where they gave it all beforehand.
    /// Else the result is the statistic's value by what the caches hold
    /// afterwards.
    fn process_daily_blocks<S: BlockStore>(
        &self,
        blocks: &Vec<Block>,
        db: &S,
        caches: &mut DBCaches,
        date: &CalendarDate,
    ) -> (result: Result<T, ProcessError>)
        requires
            old(caches).wf(),
        ensures
            final(caches).wf(),
            old(caches)@.extended_by(final(caches)@),
            Self::resolved(blocks_view(blocks@), old(caches)@) ==> old(caches)@.same_store_part(
                final(caches)@,
            ) && result_view(result) != Err::<T::V, ProcessError>(ProcessError::ReferenceNotFound),
            result_view(result) == Err::<T::V, ProcessError>(ProcessError::ReferenceNotFound)
                <==> !Self::resolved(blocks_view(blocks@), final(caches)@),
            result_view(result) != Err::<T::V, ProcessError>(ProcessError::ReferenceNotFound)
                ==> result_view(result) == Self::outcome(
                blocks_view(blocks@),
                final(caches)@,
                *date,
            ),
    ;
}

impl<T, P> Processor<T, P> {
    /// The invariant of the processor's map.
    pub open spec fn wf(&self) -> bool {
        self.output.wf()
    }

    /// The processor's map, from date strings to values.
    pub open spec fn stored(&self) -> Map<Seq<char>, T> {
        self.output.data@
    }

    /// A processor with an empty map that is kept in `filename` below `path`.
    pub fn with_output(name: &str, path: &str, filename: &str) -> (processor: Self)
        ensures
            processor.wf(),
            processor.name@ == name@,
            processor.stored() == Map::<Seq<char>, T>::empty(),
            processor.output.root() == path@,
            processor.output.file() == filename@,
    {
        Processor { name: name.to_owned(), output: Output::new(path, filename), pd: PhantomData }
    }
}

/// Taking in the batch of a date, once for each date.
pub trait DailyBlocksImporter {
    /// The type of the values that are stored by date.
    type Value;

    /// The invariant of the importer.
    spec fn ready(&self) -> bool;

    /// The map from date strings to values, each value by its view.
    spec fn held(&self) -> Map<Seq<char>, Self::Value>;

    /// Whether the caches alone give all that the value of this batch reads
    /// of the store, so that the store is not asked.
    spec fn store_free(blocks: Seq<BlockView>, cache: CacheView) -> bool;

    /// The value of a batch on a date, by what the caches hold of the store.
    spec fn value_of(blocks: Seq<BlockView>, cache: CacheView, date: CalendarDate) -> Result<
        Self::Value,
        ProcessError,
    >;

    /// Takes in the batch of a date. A date that has a value is skipped:
    /// nothing is computed and nothing changes. Else the value of the batch
    /// is computed and stored under the date, and the outcome says whether
    /// the map is now to be written out. Where the value cannot be computed,
    /// the map stays as it was.
    fn import_daily_blocks<S: BlockStore>(
        &mut self,
        date: CalendarDate,
        blocks: &Vec<Block>,
        db: &S,
        caches: &mut DBCaches,
    ) -> (result: Result<ImportOutcome, ProcessError>)
        requires
            old(self).ready(),
            old(caches).wf(),
        ensures
            final(self).ready(),
            final(caches).wf(),
            old(caches)@.extended_by(final(caches)@),
            Self::store_free(blocks_view(blocks@), old(caches)@) ==> old(caches)@.same_store_part(
                final(caches)@,
            ) && result != Err::<ImportOutcome, ProcessError>(ProcessError::ReferenceNotFound),
            result.is_ok() ==> date.key().is_some() && final(self).held() == ingested(
                old(self).held(),
                date.key().unwrap(),
                Self::value_of(blocks_view(blocks@), final(caches)@, date).unwrap(),
            ),
            match date.key() {
                None => result == Err::<ImportOutcome, ProcessError>(ProcessError::InvalidDate)
                    && final(self).held() == old(self).held() && final(caches)@ == old(caches)@,
                Some(key) => if old(self).held().contains_key(key) {
                    result == Ok::<ImportOutcome, ProcessError>(ImportOutcome::Skipped) && final(self).held() == old(self).held() && final(caches)@ == old(caches)@
                } else {
                    match result {
                        Ok(done) => Self::value_of(blocks_view(blocks@), final(caches)@, date).is_ok()
                            && final(self).held() == old(self).held().insert(
                            key,
                            Self::value_of(blocks_view(blocks@), final(caches)@, date).unwrap(),
                        ) && done == if flush_due(date) {
                            ImportOutcome::FlushDue
                        } else {
                            ImportOutcome::Stored
                        },
                        Err(e) => final(self).held() == old(self).held() && (e
                            == ProcessError::ReferenceNotFound <==> !Self::store_free(
                            blocks_view(blocks@),
                            final(caches)@,
                        )) && (e != ProcessError::ReferenceNotFound ==> Self::value_of(
                            blocks_view(blocks@),
                            final(caches)@,
                            date,
                        ) == Err::<Self::Value, ProcessError>(e)),
                    }
                },
            },
    ;
}

impl<T: View, P> DailyBlocksImporter for Processor<T, P> where
    Processor<T, P>: DailyBlocksProcessor<T>,
 {
    type Value = T::V;

    open spec fn ready(&self) -> bool {
        self.wf()
    }

    open spec fn held(&self) -> Map<Seq<char>, T::V> {
        value_views(self.stored())
    }

    open spec fn store_free(blocks: Seq<BlockView>, cache: CacheView) -> bool {
        <Self as DailyBlocksProcessor<T>>::resolved(blocks, cache)
    }

    open spec fn value_of(blocks: Seq<BlockView>, cache: CacheView, date: CalendarDate) -> Result<
        T::V,
        ProcessError,
    > {
        <Self as DailyBlocksProcessor<T>>::outcome(blocks, cache, date)
    }

    fn import_daily_blocks<S: BlockStore>(
        &mut self,
        date: CalendarDate,
        blocks: &Vec<Block>,
        db: &S,
        caches: &mut DBCaches,
    ) -> (result: Result<ImportOutcome, ProcessError>)
        ensures
            final(self).name == old(self).name,
            final(self).output.root() == old(self).output.root(),
            final(self).output.file() == old(self).output.file(),
    {
        let key = match date_key(&date) {
            Ok(key) => key,
            Err(e) => {
                return Err(e);
            },
        };
        let decision = import_decision(self.output.data.contains_key(&key), &date);
        if decision == ImportOutcome::Skipped {
            return Ok(decision);
        }
        let value = match self.process_daily_blocks(blocks, db, caches, &date) {
            Ok(value) => value,
            Err(e) => {
                return Err(e);
            },
        };
        self.output.data.insert(key, value);
        assert(value_views(self.stored()) =~= value_views(old(self).stored()).insert(key@, value@));
        Ok(decision)
    }
}

/// Writing out the map of a processor.
pub trait OutputExporter {
    /// The invariant of the exporter.
    spec fn exportable(&self) -> bool;

    /// The text that is written for the map: its JSON text, where that reads
    /// back as the map.
    spec fn written_text(&self) -> Option<Seq<char>>;

    /// The map as JSON text, for the file that holds it.
    fn export_output(&self) -> (result: Result<String, ProcessError>)
        requires
            self.exportable(),
        ensures
            match self.written_text() {
                Some(text) => result.is_ok() && result.unwrap()@ == text,
                None => result == Err::<String, ProcessError>(ProcessError::PersistFailure),
            },
    ;
}

impl<T: Amount, P> OutputExporter for Processor<T, P> {
    open spec fn exportable(&self) -> bool {
        self.wf()
    }

    open spec fn written_text(&self) -> Option<Seq<char>> {
        self.output.written()
    }

    fn export_output(&self) -> (result: Result<String, ProcessError>)
        ensures
            result.is_ok() ==> self.output.read_back_by(result.unwrap()@),
    {
        self.output.export_json()
    }
}

/// A processor that takes in batches and writes out its map.
pub trait DailyBlocksImporterPlusOutputExporter: DailyBlocksImporter + OutputExporter {

}

impl<T: Amount, P> DailyBlocksImporterPlusOutputExporter for Processor<T, P> where
    Processor<T, P>: DailyBlocksProcessor<T>,
 {

}

impl<T: Amount, P> Processor<T, P> {
    /// Takes up the map that an earlier run wrote: the text of the
    /// processor's file, or a text without characters where there is none.
    pub fn import_output(&mut self, text: &str) -> (result: Result<(), ProcessError>)
        requires
            old(self).wf(),
        ensures
            final(self).wf(),
            final(self).name == old(self).name,
            final(self).output.root() == old(self).output.root(),
            final(self).output.file() == old(self).output.file(),
            result == import_outcome::<T>(text@),
            result.is_err() ==> final(self).stored() == old(self).stored(),
            result.is_ok() ==> amounts(final(self).stored()) == imported_amounts(text@),
    {
        self.output.import_json(text)
    }
}

} // verus!

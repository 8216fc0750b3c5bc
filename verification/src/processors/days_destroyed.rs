//! Coin days destroyed: for each input of a day, the value that it spends
//! and the age in days of the output that held it.

use crate::cache::{CacheView, DBCaches};
use crate::date::CalendarDate;
use crate::error::ProcessError;
use crate::ledger::{blocks_view, Block, BlockStore, TxInput};
use crate::stats::{batch_inputs, collect_inputs};
use vstd::prelude::*;

verus! {

/// Coin days destroyed on a day.
pub struct DaysDestroyedCounter;

/// Whether the caches hold, for each input, the value of the output that it
/// spends and the date of the transaction that made that output.
pub open spec fn ages_resolved(inputs: Seq<TxInput>, cache: CacheView) -> bool {
    forall|i: int|
        0 <= i < inputs.len() ==> cache.values.contains_key((#[trigger] inputs[i]).previous_output)
            && cache.dates.contains_key(inputs[i].previous_output.txid)
}

/// Whether the caches alone give, for each input, the value of the output
/// that it spends and the date on which that output was made, so that the
/// store is not asked for any.
pub open spec fn ages_settled(inputs: Seq<TxInput>, cache: CacheView) -> bool {
    forall|i: int|
        0 <= i < inputs.len() ==> cache.gives_value((#[trigger] inputs[i]).previous_output)
            && cache.gives_date(inputs[i].previous_output.txid)
}

/// What one input destroys on `date`: the value that it spends and the
/// number of days since the output was made; `None` where the calendar lacks
/// one of the two days.
pub open spec fn input_term(input: TxInput, cache: CacheView, date: CalendarDate) -> Option<
    (u64, i64),
> {
    match date.days_after(cache.dates[input.previous_output.txid]) {
        Some(days) => Some((cache.values[input.previous_output], days)),
        None => None,
    }
}

/// What each of the inputs destroys on `date`, in order, by what the caches
/// hold of the store, or the reason why that cannot be said.
pub open spec fn destroyed_terms(inputs: Seq<TxInput>, cache: CacheView, date: CalendarDate) -> Result<
    Seq<(u64, i64)>,
    ProcessError,
> {
    if !ages_resolved(inputs, cache) {
        Err(ProcessError::ReferenceNotFound)
    } else if exists|i: int|
        0 <= i < inputs.len() && input_term(#[trigger] inputs[i], cache, date).is_none() {
        Err(ProcessError::InvalidDate)
    } else {
        Ok(Seq::new(inputs.len(), |i: int| input_term(inputs[i], cache, date).unwrap()))
    }
}

/// Resolves, for each input, the value of the output that it spends and the
/// date of the transaction that made it. What the caches give costs no call
/// of the store. It fails only where the caches, after the store was asked,
/// still do not give a value or a date.
pub fn resolve_ages<S: BlockStore>(inputs: &Vec<TxInput>, db: &S, caches: &mut DBCaches) -> (result:
    Result<(), ProcessError>)
    requires
        old(caches).wf(),
    ensures
        final(caches).wf(),
        old(caches)@.extended_by(final(caches)@),
        ages_resolved(inputs@, old(caches)@) ==> final(caches)@ == old(caches)@,
        ages_settled(inputs@, old(caches)@) ==> result.is_ok() && old(caches)@.same_store_part(
            final(caches)@,
        ),
        match result {
            Ok(_) => ages_resolved(inputs@, final(caches)@),
            Err(e) => e == ProcessError::ReferenceNotFound && !ages_settled(inputs@, final(caches)@),
        },
{
    let mut i: usize = 0;
    while i < inputs.len()
        invariant
            i <= inputs.len(),
            caches.wf(),
            old(caches)@.extended_by(caches@),
            ages_resolved(inputs@, old(caches)@) ==> caches@ == old(caches)@,
            ages_settled(inputs@, old(caches)@) ==> old(caches)@.same_store_part(caches@),
            ages_resolved(inputs@.take(i as int), caches@),
        decreases inputs.len() - i,
    {
        let outpoint = inputs[i].previous_output;
        let ghost before = caches@;
        proof {
            old(caches)@.lemma_extension_gives_more(before);
            if ages_settled(inputs@, old(caches)@) {
                assert(old(caches)@.gives_value(inputs@[i as int].previous_output));
                assert(old(caches)@.gives_date(inputs@[i as int].previous_output.txid));
                assert(before.gives_value(outpoint));
                assert(before.gives_date(outpoint.txid));
            }
        }
        match caches.outpoint_to_value(outpoint.txid, outpoint.vout, db) {
            Ok(_) => {},
            Err(e) => {
                proof {
                    old(caches)@.lemma_extension_chain(before, caches@);
                    assert(!caches@.gives_value(inputs@[i as int].previous_output));
                }
                return Err(e);
            },
        }
        let ghost middle = caches@;
        proof {
            before.lemma_extension_gives_more(middle);
        }
        match caches.txid_to_naive_date(outpoint.txid, db) {
            Ok(_) => {},
            Err(e) => {
                proof {
                    old(caches)@.lemma_extension_chain(before, middle);
                    old(caches)@.lemma_extension_chain(middle, caches@);
                    assert(!caches@.gives_date(inputs@[i as int].previous_output.txid));
                }
                return Err(e);
            },
        }
        proof {
            old(caches)@.lemma_extension_chain(before, middle);
            old(caches)@.lemma_extension_chain(middle, caches@);
            before.lemma_extension_chain(middle, caches@);
            assert forall|k: int| 0 <= k < i + 1 implies caches@.values.contains_key(
                (#[trigger] inputs@.take(i + 1)[k]).previous_output,
            ) && caches@.dates.contains_key(inputs@.take(i + 1)[k].previous_output.txid) by {
                if k < i {
                    assert(before.values.contains_key(inputs@.take(i as int)[k].previous_output));
                    assert(before.dates.contains_key(
                        inputs@.take(i as int)[k].previous_output.txid,
                    ));
                }
            }
        }
        i += 1;
    }
    assert(inputs@.take(i as int) == inputs@);
    Ok(())
}

/// What each of the inputs destroys on `date`, from what the caches hold.
pub fn terms_from_caches(inputs: &Vec<TxInput>, caches: &DBCaches, date: &CalendarDate) -> (result:
    Result<Vec<(u64, i64)>, ProcessError>)
    requires
        caches.wf(),
        ages_resolved(inputs@, caches@),
    ensures
        match result {
            Ok(terms) => destroyed_terms(inputs@, caches@, *date) == Ok::<
                Seq<(u64, i64)>,
                ProcessError,
            >(terms@),
            Err(e) => destroyed_terms(inputs@, caches@, *date) == Err::<
                Seq<(u64, i64)>,
                ProcessError,
            >(e),
        },
{
    let mut terms: Vec<(u64, i64)> = Vec::new();
    let mut i: usize = 0;
    while i < inputs.len()
        invariant
            i <= inputs.len(),
            caches.wf(),
            ages_resolved(inputs@, caches@),
            terms@.len() == i,
            forall|k: int|
                0 <= k < i ==> input_term(#[trigger] inputs@[k], caches@, *date) == Some(terms@[k]),
        decreases inputs.len() - i,
    {
        let outpoint = inputs[i].previous_output;
        assert(caches@.values.contains_key(inputs@[i as int].previous_output));
        assert(caches@.dates.contains_key(inputs@[i as int].previous_output.txid));
        let value = match caches.outpoint_to_value.get(&outpoint) {
            Some(value) => *value,
            None => 0,
        };
        let made = match caches.txid_to_naive_date.get(&outpoint.txid) {
            Some(made) => *made,
            None => *date,
        };
        match date.days_since(&made) {
            Some(days) => {
                terms.push((value, days));
            },
            None => {
                assert(input_term(inputs@[i as int], caches@, *date).is_none());
                return Err(ProcessError::InvalidDate);
            },
        }
        i += 1;
    }
    assert(terms@ =~= Seq::new(
        inputs@.len(),
        |k: int| input_term(inputs@[k], caches@, *date).unwrap(),
    ));
    Ok(terms)
}

impl DaysDestroyedCounter {
    /// What each input of a batch destroys on `date`, in the order of the
    /// inputs: the value that it spends, in satoshis, and the number of days
    /// since the output was made. Coin days destroyed are the sum, over these
    /// pairs, of the value in coins times the days. A reference is not found
    /// only where the caches, after the store was asked, still do not give a
    /// value or a date.
    pub fn terms<S: BlockStore>(
        blocks: &Vec<Block>,
        db: &S,
        caches: &mut DBCaches,
        date: &CalendarDate,
    ) -> (result: Result<Vec<(u64, i64)>, ProcessError>)
        requires
            old(caches).wf(),
        ensures
            final(caches).wf(),
            old(caches)@.extended_by(final(caches)@),
            ages_resolved(batch_inputs(blocks_view(blocks@)), old(caches)@) ==> final(caches)@
                == old(caches)@,
            ages_settled(batch_inputs(blocks_view(blocks@)), old(caches)@) ==> old(caches)@.same_store_part(final(caches)@) && result != Err::<Vec<(u64, i64)>, ProcessError>(
                ProcessError::ReferenceNotFound,
            ),
            result == Err::<Vec<(u64, i64)>, ProcessError>(ProcessError::ReferenceNotFound)
                <==> !ages_settled(batch_inputs(blocks_view(blocks@)), final(caches)@),
            match result {
                Ok(terms) => destroyed_terms(
                    batch_inputs(blocks_view(blocks@)),
                    final(caches)@,
                    *date,
                ) == Ok::<Seq<(u64, i64)>, ProcessError>(terms@),
                Err(e) => e != ProcessError::ReferenceNotFound ==> destroyed_terms(
                    batch_inputs(blocks_view(blocks@)),
                    final(caches)@,
                    *date,
                ) == Err::<Seq<(u64, i64)>, ProcessError>(e),
            },
    {
        let inputs = collect_inputs(blocks);
        match resolve_ages(&inputs, db, caches) {
            Ok(()) => {},
            Err(e) => {
                return Err(e);
            },
        }
        proof {
            lemma_resolved_ages_are_settled(inputs@, caches@);
        }
        terms_from_caches(&inputs, caches, date)
    }
}

/// Inputs whose values and dates the caches hold are inputs whose values and
/// dates they give.
pub proof fn lemma_resolved_ages_are_settled(inputs: Seq<TxInput>, cache: CacheView)
    requires
        ages_resolved(inputs, cache),
    ensures
        ages_settled(inputs, cache),
{
    assert forall|i: int| 0 <= i < inputs.len() implies cache.gives_value(
        (#[trigger] inputs[i]).previous_output,
    ) && cache.gives_date(inputs[i].previous_output.txid) by {
        assert(cache.values.contains_key(inputs[i].previous_output));
        assert(cache.dates.contains_key(inputs[i].previous_output.txid));
    }
}

} // verus!

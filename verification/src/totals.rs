//! Totals by key: amounts that are credited, one after the other, each to
//! the total of its key.

use crate::error::ProcessError;
use crate::json::entries_view;
use crate::table::Table;
use vstd::prelude::*;

verus! {

/// The totals after `value` was credited to `key`, or `None` where the
/// key's total would pass `u64::MAX`.
pub open spec fn credited(totals: Map<Seq<char>, u64>, key: Seq<char>, value: u64) -> Option<
    Map<Seq<char>, u64>,
> {
    let held = if totals.contains_key(key) {
        totals[key]
    } else {
        0
    };
    if held + value > u64::MAX {
        None
    } else {
        Some(totals.insert(key, (held + value) as u64))
    }
}

/// The totals after each entry's amount was credited to its key, in order,
/// or `None` where a total would pass `u64::MAX`.
pub open spec fn credited_all(entries: Seq<(Seq<char>, u64)>) -> Option<Map<Seq<char>, u64>>
    decreases entries.len(),
{
    if entries.len() == 0 {
        Some(Map::empty())
    } else {
        match credited_all(entries.drop_last()) {
            Some(totals) => credited(totals, entries.last().0, entries.last().1),
            None => None,
        }
    }
}

/// The sum of the amounts of the entries with key `key`.
pub open spec fn key_total(entries: Seq<(Seq<char>, u64)>, key: Seq<char>) -> int
    decreases entries.len(),
{
    if entries.len() == 0 {
        0
    } else {
        key_total(entries.drop_last(), key) + if entries.last().0 == key {
            entries.last().1 as int
        } else {
            0
        }
    }
}

/// Whether an entry has key `key`.
pub open spec fn has_key(entries: Seq<(Seq<char>, u64)>, key: Seq<char>) -> bool {
    exists|i: int| 0 <= i < entries.len() && (#[trigger] entries[i]).0 == key
}

/// The totals hold the keys of the entries and no other, and each key's
/// total is the sum of the amounts of the entries with that key.
pub proof fn lemma_totals_are_sums(entries: Seq<(Seq<char>, u64)>)
    requires
        credited_all(entries).is_some(),
    ensures
        forall|key: Seq<char>| #[trigger]
            credited_all(entries).unwrap().contains_key(key) <==> has_key(entries, key),
        forall|key: Seq<char>| #[trigger]
            credited_all(entries).unwrap().contains_key(key) ==> credited_all(
                entries,
            ).unwrap()[key] == key_total(entries, key),
    decreases entries.len(),
{
    if entries.len() > 0 {
        let shorter = entries.drop_last();
        let last = entries.last();
        lemma_totals_are_sums(shorter);
        let before = credited_all(shorter).unwrap();
        let after = credited_all(entries).unwrap();
        if !has_key(shorter, last.0) {
            lemma_absent_key_totals_nothing(shorter, last.0);
        }
        assert forall|key: Seq<char>| #[trigger] after.contains_key(key) <==> has_key(
            entries,
            key,
        ) by {
            if has_key(shorter, key) {
                let i = choose|i: int| 0 <= i < shorter.len() && (#[trigger] shorter[i]).0 == key;
                assert(entries[i].0 == key);
            }
            if has_key(entries, key) {
                let i = choose|i: int| 0 <= i < entries.len() && (#[trigger] entries[i]).0 == key;
                if i < shorter.len() {
                    assert(shorter[i].0 == key);
                }
            }
            if key == last.0 {
                assert(entries[entries.len() - 1].0 == key);
            }
        }
    }
}

/// A key that no entry has totals nothing.
pub proof fn lemma_absent_key_totals_nothing(entries: Seq<(Seq<char>, u64)>, key: Seq<char>)
    requires
        !has_key(entries, key),
    ensures
        key_total(entries, key) == 0,
    decreases entries.len(),
{
    if entries.len() > 0 {
        assert(entries[entries.len() - 1].0 != key);
        assert forall|i: int| 0 <= i < entries.len() - 1 implies (#[trigger] entries.drop_last()[i]).0
            != key by {
            assert(entries[i].0 != key);
        }
        lemma_absent_key_totals_nothing(entries.drop_last(), key);
    }
}

/// A total that has passed `u64::MAX` after the first `n` entries does not
/// come back.
proof fn lemma_overflow_stays(entries: Seq<(Seq<char>, u64)>, n: int)
    requires
        0 <= n <= entries.len(),
        credited_all(entries.take(n)).is_none(),
    ensures
        credited_all(entries).is_none(),
    decreases entries.len(),
{
    if n == entries.len() {
        assert(entries.take(n) == entries);
    } else {
        assert(entries.drop_last().take(n) == entries.take(n));
        lemma_overflow_stays(entries.drop_last(), n);
    }
}

/// Credits `value` to the total of `key`, unless the total would pass
/// `u64::MAX`: then nothing changes and the answer is `false`.
pub fn credit(totals: &mut Table<String, u64>, key: String, value: u64) -> (done: bool)
    requires
        old(totals).wf(),
    ensures
        final(totals).wf(),
        match credited(old(totals)@, key@, value) {
            Some(after) => done && final(totals)@ == after,
            None => !done && final(totals)@ == old(totals)@,
        },
{
    let held = match totals.get(&key) {
        Some(held) => *held,
        None => 0,
    };
    if value > u64::MAX - held {
        return false;
    }
    totals.insert(key, held + value);
    true
}

/// The totals of the entries by key.
pub fn total_by_key(entries: &Vec<(String, u64)>) -> (result: Result<Table<String, u64>, ProcessError>)
    ensures
        match credited_all(entries_view(entries@)) {
            Some(totals) => result.is_ok() && result.unwrap().wf() && result.unwrap()@ == totals,
            None => result == Err::<Table<String, u64>, ProcessError>(
                ProcessError::ArithmeticOverflow,
            ),
        },
{
    let ghost all = entries_view(entries@);
    let mut totals: Table<String, u64> = Table::new();
    let mut i: usize = 0;
    while i < entries.len()
        invariant
            i <= entries.len(),
            all == entries_view(entries@),
            totals.wf(),
            credited_all(all.take(i as int)) == Some(totals@),
        decreases entries.len() - i,
    {
        assert(all.take(i + 1).drop_last() == all.take(i as int));
        assert(all[i as int] == (entries@[i as int].0@, entries@[i as int].1));
        let key = entries[i].0.clone();
        if !credit(&mut totals, key, entries[i].1) {
            proof {
                lemma_overflow_stays(all, i + 1);
            }
            return Err(ProcessError::ArithmeticOverflow);
        }
        i += 1;
    }
    assert(all.take(i as int) == all);
    Ok(totals)
}

} // verus!

//! The persisted state of one processor: a map from dates to values, with
//! the place of the file that holds it.

use crate::error::ProcessError;
use crate::json::{
    entries_view, json_number_entries, json_text, keys_differ, parse_number_map,
    render_number_map,
};
use crate::table::Table;
use vstd::prelude::*;

verus! {

/// A value that is stored as a JSON number of 64 bits without sign.
pub trait Amount: Copy + View {
    /// The number that stands for the value.
    spec fn amount(self) -> u64;

    /// Whether a number stands for a value of this type.
    spec fn representable(n: u64) -> bool;

    /// The number that stands for the value.
    fn to_u64(self) -> (n: u64)
        ensures
            n == self.amount(),
    ;

    /// The value that a number stands for, if any.
    fn from_u64(n: u64) -> (value: Option<Self>)
        ensures
            match value {
                Some(v) => Self::representable(n) && v.amount() == n,
                None => !Self::representable(n),
            },
    ;
}

impl Amount for u64 {
    open spec fn amount(self) -> u64 {
        self
    }

    open spec fn representable(n: u64) -> bool {
        true
    }

    fn to_u64(self) -> (n: u64) {
        self
    }

    fn from_u64(n: u64) -> (value: Option<Self>) {
        Some(n)
    }
}

impl Amount for usize {
    open spec fn amount(self) -> u64 {
        self as u64
    }

    open spec fn representable(n: u64) -> bool {
        n <= usize::MAX
    }

    fn to_u64(self) -> (n: u64) {
        self as u64
    }

    fn from_u64(n: u64) -> (value: Option<Self>) {
        if n <= usize::MAX as u64 {
            Some(n as usize)
        } else {
            None
        }
    }
}

/// The map that results from taking the entries in order, a later entry
/// replacing an earlier one with the same key.
pub open spec fn entries_map(entries: Seq<(Seq<char>, u64)>) -> Map<Seq<char>, u64>
    decreases entries.len(),
{
    if entries.len() == 0 {
        Map::empty()
    } else {
        entries_map(entries.drop_last()).insert(entries.last().0, entries.last().1)
    }
}

/// Whether each of the numbers stands for a value of `T`.
pub open spec fn all_representable<T: Amount>(entries: Seq<(Seq<char>, u64)>) -> bool {
    forall|i: int| 0 <= i < entries.len() ==> T::representable((#[trigger] entries[i]).1)
}

/// The numbers that stand for the values of a map.
pub open spec fn amounts<T: Amount>(data: Map<Seq<char>, T>) -> Map<Seq<char>, u64> {
    data.map_values(|value: T| value.amount())
}

/// The map of one processor, from date strings to values, and where it is
/// kept: a directory and the file's path below it.
pub struct Output<T> {
    pub path: String,
    pub filename: String,
    pub data: Table<String, T>,
}

impl<T> Output<T> {
    /// The invariant of the map.
    pub open spec fn wf(&self) -> bool {
        self.data.wf()
    }

    /// The directory below which the file is kept.
    pub open spec fn root(&self) -> Seq<char> {
        self.path@
    }

    /// The path of the file below the directory.
    pub open spec fn file(&self) -> Seq<char> {
        self.filename@
    }

    /// An empty map that is kept in `filename` below `path`.
    pub fn new(path: &str, filename: &str) -> (output: Self)
        ensures
            output.wf(),
            output.data@ == Map::<Seq<char>, T>::empty(),
            output.root() == path@,
            output.file() == filename@,
    {
        Output { path: path.to_owned(), filename: filename.to_owned(), data: Table::new() }
    }

    /// The directory below which the file is kept.
    pub fn path(&self) -> (path: &String)
        ensures
            path@ == self.root(),
    {
        &self.path
    }

    /// The path of the file below the directory.
    pub fn filename(&self) -> (filename: &String)
        ensures
            filename@ == self.file(),
    {
        &self.filename
    }
}

impl<T: Amount> Output<T> {
    /// The entries of the map as numbers, in the order in which their keys
    /// first came.
    pub open spec fn amount_entries(&self) -> Seq<(Seq<char>, u64)> {
        Seq::new(
            self.data.key_order().len(),
            |i: int| (self.data.key_order()[i], self.data@[self.data.key_order()[i]].amount()),
        )
    }

    /// The value held for a date string, if any.
    pub fn get(&self, key: &String) -> (found: Option<T>)
        requires
            self.wf(),
        ensures
            found == if self.data@.contains_key(key@) {
                Some(self.data@[key@])
            } else {
                None
            },
    {
        match self.data.get(key) {
            Some(value) => Some(*value),
            None => None,
        }
    }

    /// Holds `value` for the date string `key` from now on.
    pub fn put(&mut self, key: String, value: T)
        requires
            old(self).wf(),
        ensures
            final(self).wf(),
            final(self).data@ == old(self).data@.insert(key@, value),
            final(self).root() == old(self).root(),
            final(self).file() == old(self).file(),
    {
        self.data.insert(key, value);
    }

    /// The entries of the map as numbers, in the order in which their keys
    /// first came. No key comes twice.
    pub fn snapshot(&self) -> (entries: Vec<(String, u64)>)
        requires
            self.wf(),
        ensures
            entries_view(entries@) == self.amount_entries(),
            keys_differ(self.amount_entries()),
            entries_map(self.amount_entries()) == amounts(self.data@),
    {
        let n = self.data.len();
        let mut entries: Vec<(String, u64)> = Vec::new();
        let mut i: usize = 0;
        while i < n
            invariant
                i <= n,
                n == self.data.key_order().len(),
                self.wf(),
                self.data.key_order().no_duplicates(),
                forall|key: Seq<char>|
                    self.data@.contains_key(key) <==> self.data.key_order().contains(key),
                entries_view(entries@) == self.amount_entries().take(i as int),
            decreases n - i,
        {
            let ghost before = entries_view(entries@);
            let (key, value) = self.data.entry_at(i);
            let held = key.clone();
            let number = value.to_u64();
            entries.push((held, number));
            assert(entries_view(entries@) =~= before.push((held@, number)));
            assert(self.amount_entries().take(i + 1) =~= self.amount_entries().take(
                i as int,
            ).push(self.amount_entries()[i as int]));
            i += 1;
        }
        proof {
            let order = self.data.key_order();
            assert forall|a: int, b: int| 0 <= a < b < self.amount_entries().len() implies (
            #[trigger] self.amount_entries()[a]).0 != (#[trigger] self.amount_entries()[b]).0 by {
                assert(order[a] != order[b]);
            }
            assert(self.amount_entries().take(n as int) == self.amount_entries());
            assert(order.take(n as int) == order);
            self.lemma_entries_rebuild_map(n as int);
            assert(amounts(self.data@) =~= amounts(self.data@).restrict(order.to_set()));
        }
        entries
    }

    /// The first `n` entries make up the map, cut down to their keys.
    proof fn lemma_entries_rebuild_map(&self, n: int)
        requires
            0 <= n <= self.data.key_order().len(),
            forall|key: Seq<char>|
                self.data@.contains_key(key) <==> self.data.key_order().contains(key),
        ensures
            entries_map(self.amount_entries().take(n)) == amounts(self.data@).restrict(
                self.data.key_order().take(n).to_set(),
            ),
        decreases n,
    {
        let order = self.data.key_order();
        let entries = self.amount_entries();
        if n == 0 {
            assert(entries_map(entries.take(0)) =~= amounts(self.data@).restrict(
                order.take(0).to_set(),
            ));
        } else {
            self.lemma_entries_rebuild_map(n - 1);
            assert(entries.take(n).drop_last() == entries.take(n - 1));
            assert(order.contains(order[n - 1]));
            let shorter = order.take(n - 1);
            let longer = order.take(n);
            assert forall|key: Seq<char>| longer.to_set().contains(key) <==> (
            shorter.to_set().contains(key) || key == order[n - 1]) by {
                if longer.contains(key) {
                    let j = choose|j: int| 0 <= j < longer.len() && longer[j] == key;
                    if j < n - 1 {
                        assert(shorter[j] == key);
                    }
                }
                if shorter.contains(key) {
                    let j = choose|j: int| 0 <= j < shorter.len() && shorter[j] == key;
                    assert(longer[j] == key);
                }
                if key == order[n - 1] {
                    assert(longer[n - 1] == key);
                }
            }
            assert(entries_map(entries.take(n)) =~= amounts(self.data@).restrict(
                order.take(n).to_set(),
            ));
        }
    }

    /// Whether a text reads back as this map: it is taken as a map with values
    /// of `T`, and the numbers that it holds are those of this map.
    pub open spec fn read_back_by(&self, text: Seq<char>) -> bool {
        import_outcome::<T>(text).is_ok() && imported_amounts(text) == amounts(self.data@)
    }

    /// The text that is written for the map: its JSON text, where that reads
    /// back as the map.
    pub open spec fn written(&self) -> Option<Seq<char>> {
        match json_text(self.amount_entries()) {
            Some(text) => if self.read_back_by(text) {
                Some(text)
            } else {
                None
            },
            None => None,
        }
    }

    /// Whether a text reads back as this map.
    pub fn reads_back(&self, text: &str) -> (same: bool)
        requires
            self.wf(),
        ensures
            same == self.read_back_by(text@),
    {
        let mut numbers: Table<String, u64> = Table::new();
        if !text.is_empty() {
            let entries = match parse_number_map(text) {
                Ok(entries) => entries,
                Err(_) => {
                    return false;
                },
            };
            let ghost all = entries_view(entries@);
            let mut i: usize = 0;
            while i < entries.len()
                invariant
                    i <= entries.len(),
                    numbers.wf(),
                    text@.len() != 0,
                    json_number_entries(text@) == Some(all),
                    all == entries_view(entries@),
                    all_representable::<T>(all.take(i as int)),
                    numbers@ == entries_map(all.take(i as int)),
                decreases entries.len() - i,
            {
                assert(all[i as int] == (entries@[i as int].0@, entries@[i as int].1));
                assert(all.take(i + 1).drop_last() == all.take(i as int));
                if T::from_u64(entries[i].1).is_none() {
                    assert(!T::representable(all[i as int].1));
                    return false;
                }
                let key = entries[i].0.clone();
                numbers.insert(key, entries[i].1);
                assert forall|k: int| 0 <= k < i + 1 implies T::representable(
                    (#[trigger] all.take(i + 1)[k]).1,
                ) by {
                    if k < i {
                        assert(all.take(i as int)[k] == all[k]);
                    }
                }
                i += 1;
            }
            assert(all.take(i as int) == all);
        }
        assert(import_outcome::<T>(text@).is_ok());
        assert(numbers@ == imported_amounts(text@));
        let n = self.data.len();
        let ghost order = self.data.key_order();
        let mut i: usize = 0;
        while i < n
            invariant
                i <= n,
                n == order.len(),
                order == self.data.key_order(),
                self.wf(),
                numbers.wf(),
                import_outcome::<T>(text@).is_ok(),
                numbers@ == imported_amounts(text@),
                forall|key: Seq<char>| self.data@.contains_key(key) <==> order.contains(key),
                forall|k: int|
                    0 <= k < i ==> self.data@.contains_key(#[trigger] order[k])
                        && numbers@.contains_key(order[k]) && numbers@[order[k]]
                        == self.data@[order[k]].amount(),
            decreases n - i,
        {
            let (key, value) = self.data.entry_at(i);
            let found = match numbers.get(key) {
                Some(held) => *held == value.to_u64(),
                None => false,
            };
            if !found {
                assert(amounts(self.data@).contains_key(key@));
                assert(amounts(self.data@)[key@] == self.data@[key@].amount());
                return false;
            }
            i += 1;
        }
        let m = numbers.len();
        let ghost read = numbers.key_order();
        let mut j: usize = 0;
        while j < m
            invariant
                j <= m,
                m == read.len(),
                read == numbers.key_order(),
                self.wf(),
                numbers.wf(),
                import_outcome::<T>(text@).is_ok(),
                numbers@ == imported_amounts(text@),
                order == self.data.key_order(),
                forall|key: Seq<char>| self.data@.contains_key(key) <==> order.contains(key),
                forall|key: Seq<char>| numbers@.contains_key(key) <==> read.contains(key),
                forall|k: int|
                    0 <= k < order.len() ==> self.data@.contains_key(#[trigger] order[k])
                        && numbers@.contains_key(order[k]) && numbers@[order[k]]
                        == self.data@[order[k]].amount(),
                forall|k: int| 0 <= k < j ==> self.data@.contains_key(#[trigger] read[k]),
            decreases m - j,
        {
            let (key, _value) = numbers.entry_at(j);
            if !self.data.contains_key(key) {
                assert(numbers@.contains_key(key@));
                assert(!amounts(self.data@).contains_key(key@));
                return false;
            }
            j += 1;
        }
        proof {
            let wanted = amounts(self.data@);
            assert forall|key: Seq<char>| #[trigger]
                numbers@.dom().contains(key) == wanted.dom().contains(key) by {
                if numbers@.contains_key(key) {
                    assert(read.contains(key));
                    let k = choose|k: int| 0 <= k < read.len() && read[k] == key;
                    assert(self.data@.contains_key(read[k]));
                }
                if self.data@.contains_key(key) {
                    assert(order.contains(key));
                    let k = choose|k: int| 0 <= k < order.len() && order[k] == key;
                    assert(numbers@.contains_key(order[k]));
                }
            }
            assert forall|key: Seq<char>| #[trigger] wanted.dom().contains(key) implies numbers@[key]
                == wanted[key] by {
                assert(self.data@.contains_key(key));
                assert(order.contains(key));
                let k = choose|k: int| 0 <= k < order.len() && order[k] == key;
                assert(numbers@[order[k]] == self.data@[order[k]].amount());
            }
            assert(numbers@ =~= wanted);
        }
        true
    }

    /// The map as JSON text, for the file that holds it. The text is handed
    /// out only where it reads back as the map.
    pub fn export_json(&self) -> (result: Result<String, ProcessError>)
        requires
            self.wf(),
        ensures
            match self.written() {
                Some(text) => result.is_ok() && result.unwrap()@ == text,
                None => result == Err::<String, ProcessError>(ProcessError::PersistFailure),
            },
            result.is_ok() ==> self.read_back_by(result.unwrap()@),
    {
        let entries = self.snapshot();
        match render_number_map(&entries) {
            Ok(text) => {
                if self.reads_back(text.as_str()) {
                    Ok(text)
                } else {
                    Err(ProcessError::PersistFailure)
                }
            },
            Err(_) => Err(ProcessError::PersistFailure),
        }
    }

    /// Replaces the map by the one that a JSON text holds. A text without
    /// characters stands for the empty map. A text that is no map from
    /// strings to values of `T` is malformed, and the map stays as it was.
    pub fn import_json(&mut self, text: &str) -> (result: Result<(), ProcessError>)
        requires
            old(self).wf(),
        ensures
            final(self).wf(),
            final(self).root() == old(self).root(),
            final(self).file() == old(self).file(),
            result == import_outcome::<T>(text@),
            result.is_err() ==> final(self).data@ == old(self).data@,
            result.is_ok() ==> amounts(final(self).data@) == imported_amounts(text@),
    {
        if text.is_empty() {
            self.data = Table::new();
            assert(amounts(self.data@) =~= Map::<Seq<char>, u64>::empty());
            return Ok(());
        }
        let entries = match parse_number_map(text) {
            Ok(entries) => entries,
            Err(_) => {
                return Err(ProcessError::MalformedPersistedState);
            },
        };
        let ghost all = entries_view(entries@);
        let mut data: Table<String, T> = Table::new();
        let mut i: usize = 0;
        while i < entries.len()
            invariant
                i <= entries.len(),
                data.wf(),
                *self == *old(self),
                self.wf(),
                text@.len() != 0,
                json_number_entries(text@) == Some(all),
                all == entries_view(entries@),
                all_representable::<T>(all.take(i as int)),
                amounts(data@) == entries_map(all.take(i as int)),
            decreases entries.len() - i,
        {
            let key = entries[i].0.clone();
            assert(all[i as int] == (entries@[i as int].0@, entries@[i as int].1));
            assert(all.take(i + 1).drop_last() == all.take(i as int));
            match T::from_u64(entries[i].1) {
                Some(value) => {
                    let ghost before = data@;
                    data.insert(key, value);
                    assert(amounts(data@) =~= amounts(before).insert(key@, value.amount()));
                },
                None => {
                    assert(!T::representable(all[i as int].1));
                    return Err(ProcessError::MalformedPersistedState);
                },
            }
            assert forall|k: int| 0 <= k < i + 1 implies T::representable(
                (#[trigger] all.take(i + 1)[k]).1,
            ) by {
                if k < i {
                    assert(all.take(i as int)[k] == all[k]);
                }
            }
            i += 1;
        }
        assert(all.take(i as int) == all);
        self.data = data;
        Ok(())
    }
}

/// A map that was read from the text that another one wrote holds the same
/// numbers under the same dates.
pub proof fn lemma_written_map_reads_back<T: Amount>(
    wrote: Output<T>,
    text: Seq<char>,
    read: Output<T>,
)
    requires
        wrote.written() == Some(text),
        amounts(read.data@) == imported_amounts(text),
    ensures
        import_outcome::<T>(text).is_ok(),
        amounts(read.data@) == amounts(wrote.data@),
{
}

/// Whether a JSON text is taken as the map of a processor with values of
/// `T`, or why not.
pub open spec fn import_outcome<T: Amount>(text: Seq<char>) -> Result<(), ProcessError> {
    if text.len() == 0 {
        Ok(())
    } else {
        match json_number_entries(text) {
            Some(entries) => if all_representable::<T>(entries) {
                Ok(())
            } else {
                Err(ProcessError::MalformedPersistedState)
            },
            None => Err(ProcessError::MalformedPersistedState),
        }
    }
}

/// The map that a JSON text holds, as numbers.
pub open spec fn imported_amounts(text: Seq<char>) -> Map<Seq<char>, u64> {
    if text.len() == 0 {
        Map::empty()
    } else {
        match json_number_entries(text) {
            Some(entries) => entries_map(entries),
            None => Map::empty(),
        }
    }
}

} // verus!

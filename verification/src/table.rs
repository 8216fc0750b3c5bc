//! A small key-value table that keeps its entries in the order in which their
//! keys first came, and finds a key by comparing it with each one held.

use crate::ledger::{OutPoint, Txid};
use vstd::prelude::*;

verus! {

/// A key of a [`Table`]: a value that can be compared with another for
/// equality of what the two stand for.
pub trait TableKey: View + Sized {
    /// Whether the two keys stand for the same thing.
    fn matches(&self, other: &Self) -> (same: bool)
        ensures
            same == (self@ == other@),
    ;
}

impl View for Txid {
    type V = Txid;

    open spec fn view(&self) -> Txid {
        *self
    }
}

impl View for OutPoint {
    type V = OutPoint;

    open spec fn view(&self) -> OutPoint {
        *self
    }
}

impl TableKey for Txid {
    fn matches(&self, other: &Self) -> (same: bool) {
        self.hi == other.hi && self.lo == other.lo
    }
}

impl TableKey for OutPoint {
    fn matches(&self, other: &Self) -> (same: bool) {
        self.txid.matches(&other.txid) && self.vout == other.vout
    }
}

impl TableKey for String {
    fn matches(&self, other: &Self) -> (same: bool) {
        *self == *other
    }
}

/// The index of the entry with key `key`, where `keys` holds it.
pub open spec fn position<K: View>(keys: Seq<K>, key: K::V) -> int {
    choose|i: int| 0 <= i < keys.len() && (#[trigger] keys[i])@ == key
}

/// Whether no two of the keys stand for the same thing.
pub open spec fn distinct_keys<K: View>(keys: Seq<K>) -> bool {
    forall|i: int, j: int|
        0 <= i < j < keys.len() ==> (#[trigger] keys[i])@ != (#[trigger] keys[j])@
}

proof fn lemma_position<K: View>(keys: Seq<K>, key: K::V, i: int)
    requires
        distinct_keys(keys),
        0 <= i < keys.len(),
        keys[i]@ == key,
    ensures
        position(keys, key) == i,
{
    let p = position(keys, key);
    assert(0 <= p < keys.len() && keys[p]@ == key);
    if p < i {
        assert(keys[p]@ != keys[i]@);
    } else if i < p {
        assert(keys[i]@ != keys[p]@);
    }
}

/// A table from keys to values. No key is held twice.
#[derive(Debug)]
pub struct Table<K: TableKey, V> {
    keys: Vec<K>,
    values: Vec<V>,
}

impl<K: TableKey, V> View for Table<K, V> {
    type V = Map<K::V, V>;

    closed spec fn view(&self) -> Map<K::V, V> {
        Map::new(
            |key: K::V| exists|i: int| 0 <= i < self.keys@.len() && (#[trigger] self.keys@[i])@ == key,
            |key: K::V| self.values@[position(self.keys@, key)],
        )
    }
}

impl<K: TableKey, V> Table<K, V> {
    /// The table's invariant: every key has its value, and no key is held
    /// twice.
    pub closed spec fn wf(&self) -> bool {
        self.keys@.len() == self.values@.len() && distinct_keys(self.keys@)
    }

    /// The keys held, in the order in which they first came.
    pub closed spec fn key_order(&self) -> Seq<K::V> {
        Seq::new(self.keys@.len(), |i: int| self.keys@[i]@)
    }

    /// A table without entries.
    pub fn new() -> (table: Self)
        ensures
            table.wf(),
            table@ == Map::<K::V, V>::empty(),
            table.key_order() == Seq::<K::V>::empty(),
    {
        let table = Table { keys: Vec::new(), values: Vec::new() };
        assert(table@ =~= Map::<K::V, V>::empty());
        assert(table.key_order() =~= Seq::<K::V>::empty());
        table
    }

    /// The number of entries. The key order holds each key of the table
    /// once, and no other.
    pub fn len(&self) -> (n: usize)
        requires
            self.wf(),
        ensures
            n == self.key_order().len(),
            self.key_order().no_duplicates(),
            forall|key: K::V| self@.contains_key(key) <==> self.key_order().contains(key),
    {
        proof {
            let order = self.key_order();
            assert forall|key: K::V| self@.contains_key(key) implies order.contains(key) by {
                let i = position(self.keys@, key);
                assert(order[i] == key);
            }
            assert forall|key: K::V| order.contains(key) implies self@.contains_key(key) by {
                let i = choose|i: int| 0 <= i < order.len() && order[i] == key;
                assert(self.keys@[i]@ == key);
            }
        }
        self.keys.len()
    }

    /// The key and the value of the entry at a place of the key order.
    pub fn entry_at(&self, index: usize) -> (entry: (&K, &V))
        requires
            self.wf(),
            index < self.key_order().len(),
        ensures
            entry.0@ == self.key_order()[index as int],
            self@.contains_key(entry.0@),
            *entry.1 == self@[entry.0@],
    {
        proof {
            lemma_position(self.keys@, self.keys@[index as int]@, index as int);
        }
        (&self.keys[index], &self.values[index])
    }

    /// The value held for a key, if any.
    pub fn get(&self, key: &K) -> (found: Option<&V>)
        requires
            self.wf(),
        ensures
            match found {
                Some(value) => self@.contains_key(key@) && *value == self@[key@],
                None => !self@.contains_key(key@),
            },
    {
        let mut i: usize = 0;
        while i < self.keys.len()
            invariant
                i <= self.keys@.len(),
                self.keys@.len() == self.values@.len(),
                distinct_keys(self.keys@),
                forall|j: int| 0 <= j < i ==> (#[trigger] self.keys@[j])@ != key@,
            decreases self.keys@.len() - i,
        {
            if self.keys[i].matches(key) {
                proof {
                    lemma_position(self.keys@, key@, i as int);
                }
                return Some(&self.values[i]);
            }
            i += 1;
        }
        None
    }

    /// Whether a value is held for a key.
    pub fn contains_key(&self, key: &K) -> (held: bool)
        requires
            self.wf(),
        ensures
            held == self@.contains_key(key@),
    {
        self.get(key).is_some()
    }

    /// Holds `value` for `key` from now on, in place of any value held for it
    /// before. A key that is new comes last in the key order.
    pub fn insert(&mut self, key: K, value: V)
        requires
            old(self).wf(),
        ensures
            final(self).wf(),
            final(self)@ == old(self)@.insert(key@, value),
            old(self)@.contains_key(key@) ==> final(self).key_order() == old(self).key_order(),
            !old(self)@.contains_key(key@) ==> final(self).key_order() == old(self).key_order().push(key@),
    {
        let ghost before = *self;
        let mut i: usize = 0;
        while i < self.keys.len()
            invariant
                *self == before,
                before == *old(self),
                i <= self.keys@.len(),
                self.keys@.len() == self.values@.len(),
                distinct_keys(self.keys@),
                forall|j: int| 0 <= j < i ==> (#[trigger] self.keys@[j])@ != key@,
            decreases self.keys@.len() - i,
        {
            if self.keys[i].matches(&key) {
                self.values.set(i, value);
                proof {
                    assert forall|k: K::V| before@.contains_key(k) implies #[trigger] self@[k]
                        == before@.insert(key@, value)[k] by {
                        let p = position(self.keys@, k);
                        if k == key@ {
                            lemma_position(self.keys@, k, i as int);
                        } else {
                            assert(p != i);
                        }
                    }
                    assert(self@ =~= before@.insert(key@, value));
                    assert(self.key_order() =~= before.key_order());
                }
                return ;
            }
            i += 1;
        }
        self.keys.push(key);
        self.values.push(value);
        proof {
            let n = before.keys@.len() as int;
            assert(self.keys@[n]@ == key@);
            assert(distinct_keys(self.keys@)) by {
                assert forall|a: int, b: int| 0 <= a < b < self.keys@.len() implies (
                #[trigger] self.keys@[a])@ != (#[trigger] self.keys@[b])@ by {
                    if b < n {
                        assert(self.keys@[a] == before.keys@[a]);
                        assert(self.keys@[b] == before.keys@[b]);
                    } else {
                        assert(self.keys@[a] == before.keys@[a]);
                    }
                }
            }
            let after = before@.insert(key@, value);
            assert forall|k: K::V| #[trigger] after.contains_key(k) implies self@.contains_key(k)
                && self@[k] == after[k] by {
                if k == key@ {
                    lemma_position(self.keys@, k, n);
                } else {
                    assert(before@.contains_key(k));
                    let p = position(before.keys@, k);
                    assert(before.keys@[p]@ == k);
                    assert(self.keys@[p] == before.keys@[p]);
                    lemma_position(self.keys@, k, p);
                    assert(self.values@[p] == before.values@[p]);
                }
            }
            assert forall|k: K::V| #[trigger] self@.contains_key(k) implies after.contains_key(
                k,
            ) by {
                let p = position(self.keys@, k);
                assert(self.keys@[p]@ == k);
                if p < n {
                    assert(self.keys@[p] == before.keys@[p]);
                    assert(before@.contains_key(k));
                }
            }
            assert(self@ =~= before@.insert(key@, value));
            assert(self.key_order() =~= before.key_order().push(key@));
        }
    }

    /// Drops every entry.
    pub fn clear(&mut self)
        ensures
            final(self).wf(),
            final(self)@ == Map::<K::V, V>::empty(),
            final(self).key_order() == Seq::<K::V>::empty(),
    {
        self.keys.clear();
        self.values.clear();
        proof {
            assert(self@ =~= Map::<K::V, V>::empty());
            assert(self.key_order() =~= Seq::<K::V>::empty());
        }
    }
}

} // verus!

//! An ordered in-memory map from block heights to values.

use vstd::prelude::*;

verus! {

/// Whether the keys of the entries increase strictly.
pub open spec fn ordered<V>(entries: Seq<(u32, V)>) -> bool {
    forall|i: int, j: int| 0 <= i < j < entries.len() ==> (#[trigger] entries[i]).0 < (#[trigger] entries[j]).0
}

/// Whether some entry has the key.
pub open spec fn has_key<V>(entries: Seq<(u32, V)>, key: u32) -> bool {
    exists|i: int| 0 <= i < entries.len() && (#[trigger] entries[i]).0 == key
}

/// The position of the entry with the key, where there is one.
pub open spec fn position<V>(entries: Seq<(u32, V)>, key: u32) -> int {
    choose|i: int| 0 <= i < entries.len() && (#[trigger] entries[i]).0 == key
}

/// The number of entries whose key is below `key`: the position at which an
/// entry with that key stands, or would stand.
pub open spec fn rank<V>(entries: Seq<(u32, V)>, key: u32) -> int
    decreases entries.len(),
{
    if entries.len() == 0 {
        0
    } else {
        rank(entries.drop_last(), key) + if entries.last().0 < key {
            1int
        } else {
            0int
        }
    }
}

/// The entries after `key` is bound to `value`: the entry with that key is
/// replaced, or a new entry is put where the order asks for it.
pub open spec fn inserted<V>(entries: Seq<(u32, V)>, key: u32, value: V) -> Seq<(u32, V)> {
    let at = rank(entries, key);
    if has_key(entries, key) {
        entries.update(at, (key, value))
    } else {
        entries.insert(at, (key, value))
    }
}

/// The entries without the one that has the key.
pub open spec fn removed<V>(entries: Seq<(u32, V)>, key: u32) -> Seq<(u32, V)> {
    if has_key(entries, key) {
        entries.remove(rank(entries, key))
    } else {
        entries
    }
}

/// In ordered entries, the rank of a key splits them: the keys before it are
/// below the key, the keys from it on are not.
pub proof fn lemma_rank_splits<V>(entries: Seq<(u32, V)>, key: u32)
    requires
        ordered(entries),
    ensures
        0 <= rank(entries, key) <= entries.len(),
        forall|i: int| 0 <= i < rank(entries, key) ==> (#[trigger] entries[i]).0 < key,
        forall|i: int| rank(entries, key) <= i < entries.len() ==> (#[trigger] entries[i]).0 >= key,
    decreases entries.len(),
{
    if entries.len() > 0 {
        let front = entries.drop_last();
        assert forall|i: int, j: int| 0 <= i < j < front.len() implies (#[trigger] front[i]).0 < (
        #[trigger] front[j]).0 by {
            assert(front[i] == entries[i] && front[j] == entries[j]);
        }
        lemma_rank_splits(front, key);
        let r = rank(front, key);
        assert forall|i: int| 0 <= i < rank(entries, key) implies (#[trigger] entries[i]).0 < key by {
            if i < front.len() {
                assert(entries[i] == front[i]);
                if i >= r {
                    assert(entries.last().0 < key);
                    assert(entries[i].0 < entries[entries.len() - 1].0);
                }
            }
        }
        assert forall|i: int| rank(entries, key) <= i < entries.len() implies (
        #[trigger] entries[i]).0 >= key by {
            if i < front.len() {
                assert(entries[i] == front[i]);
                if entries.last().0 < key {
                    if r < front.len() {
                        assert(front[r].0 >= key);
                        assert(entries[r].0 < entries[entries.len() - 1].0);
                    }
                }
            }
        }
    }
}

/// In ordered entries, the entry with a key stands at the key's rank.
pub proof fn lemma_rank_finds<V>(entries: Seq<(u32, V)>, key: u32, at: int)
    requires
        ordered(entries),
        0 <= at < entries.len(),
        entries[at].0 == key,
    ensures
        rank(entries, key) == at,
        position(entries, key) == at,
        has_key(entries, key),
{
    lemma_rank_splits(entries, key);
    let r = rank(entries, key);
    if r > at {
        assert(entries[at].0 < key);
    }
    if r < at {
        assert(entries[r].0 >= key);
        assert(entries[r].0 < entries[at].0);
    }
    let p = position(entries, key);
    if p < at {
        assert(entries[p].0 < entries[at].0);
    }
    if at < p {
        assert(entries[at].0 < entries[p].0);
    }
}

/// A key above every key of ordered entries goes to the end.
pub proof fn lemma_insert_above<V>(entries: Seq<(u32, V)>, key: u32, value: V)
    requires
        ordered(entries),
        forall|i: int| 0 <= i < entries.len() ==> (#[trigger] entries[i]).0 < key,
    ensures
        !has_key(entries, key),
        inserted(entries, key, value) == entries.push((key, value)),
        ordered(entries.push((key, value))),
{
    lemma_rank_splits(entries, key);
    let r = rank(entries, key);
    if r < entries.len() {
        assert(entries[r].0 >= key);
    }
    assert(entries.insert(r, (key, value)) =~= entries.push((key, value)));
}

/// Binding a key keeps the entries ordered, binds the key, and leaves the
/// other keys as they were.
pub proof fn lemma_inserted<V>(entries: Seq<(u32, V)>, key: u32, value: V)
    requires
        ordered(entries),
    ensures
        ordered(inserted(entries, key, value)),
        has_key(inserted(entries, key, value), key),
        inserted(entries, key, value)[rank(entries, key)] == (key, value),
        forall|other: u32|
            other != key ==> (has_key(inserted(entries, key, value), other) <==> has_key(
                entries,
                other,
            )),
{
    lemma_rank_splits(entries, key);
    let at = rank(entries, key);
    let after = inserted(entries, key, value);
    if has_key(entries, key) {
        lemma_rank_finds(entries, key, position(entries, key));
        assert forall|i: int, j: int| 0 <= i < j < after.len() implies (#[trigger] after[i]).0 < (
        #[trigger] after[j]).0 by {
            assert(entries[i].0 < entries[j].0);
        }
        assert forall|other: u32| other != key implies (has_key(after, other) <==> has_key(
            entries,
            other,
        )) by {
            if has_key(after, other) {
                let i = position(after, other);
                assert(entries[i].0 == other);
            }
            if has_key(entries, other) {
                let i = position(entries, other);
                assert(after[i].0 == other);
            }
        }
    } else {
        if at < entries.len() {
            assert(entries[at].0 != key);
        }
        assert forall|i: int, j: int| 0 <= i < j < after.len() implies (#[trigger] after[i]).0 < (
        #[trigger] after[j]).0 by {
            let a = if i < at { i } else { i - 1 };
            let b = if j < at { j } else { j - 1 };
            if i != at && j != at {
                assert(entries[a].0 < entries[b].0);
            } else if i == at {
                assert(entries[b].0 >= key);
                assert(entries[b].0 != key);
            } else {
                assert(entries[a].0 < key);
            }
        }
        assert forall|other: u32| other != key implies (has_key(after, other) <==> has_key(
            entries,
            other,
        )) by {
            if has_key(after, other) {
                let i = position(after, other);
                let a = if i < at { i } else { i - 1 };
                assert(entries[a].0 == other);
            }
            if has_key(entries, other) {
                let i = position(entries, other);
                let a = if i < at { i } else { i + 1 };
                assert(after[a].0 == other);
            }
        }
    }
    assert(after[at].0 == key);
}

/// A map from block heights to values that keeps its entries in the order of
/// their heights.
#[derive(Debug, PartialEq, Eq)]
pub struct MemoryMap<V> {
    entries: Vec<(u32, V)>,
}

impl<V> MemoryMap<V> {
    /// The entries, in the order of their keys.
    pub closed spec fn entries(&self) -> Seq<(u32, V)> {
        self.entries@
    }

    /// The keys increase strictly: each key is bound once.
    pub open spec fn wf(&self) -> bool {
        ordered(self.entries())
    }

    /// The empty map.
    pub fn new() -> (map: Self)
        ensures
            map.entries() == Seq::<(u32, V)>::empty(),
            map.wf(),
    {
        MemoryMap { entries: Vec::new() }
    }

    /// The number of entries.
    pub fn len(&self) -> (n: usize)
        ensures
            n == self.entries().len(),
    {
        self.entries.len()
    }

    /// The key of the entry at a position.
    pub fn key_at(&self, at: usize) -> (key: u32)
        requires
            at < self.entries().len(),
        ensures
            key == self.entries()[at as int].0,
    {
        self.entries[at].0
    }

    /// The value of the entry at a position.
    pub fn value_at(&self, at: usize) -> (value: &V)
        requires
            at < self.entries().len(),
        ensures
            *value == self.entries()[at as int].1,
    {
        &self.entries[at].1
    }

    /// The position of the entry with the key, if there is one.
    pub fn index_of(&self, key: u32) -> (found: Option<usize>)
        requires
            self.wf(),
        ensures
            found is Some <==> has_key(self.entries(), key),
            found matches Some(at) ==> at < self.entries().len() && self.entries()[at as int].0 == key
                && at == rank(self.entries(), key) && at == position(self.entries(), key),
    {
        let mut i: usize = 0;
        while i < self.entries.len()
            invariant
                i <= self.entries@.len(),
                self.wf(),
                forall|k: int| 0 <= k < i ==> (#[trigger] self.entries@[k]).0 != key,
            decreases self.entries@.len() - i,
        {
            if self.entries[i].0 == key {
                proof {
                    lemma_rank_finds(self.entries@, key, i as int);
                }
                return Some(i);
            }
            i += 1;
        }
        None
    }

    /// Whether the key is bound.
    pub fn contains_key(&self, key: u32) -> (found: bool)
        requires
            self.wf(),
        ensures
            found == has_key(self.entries(), key),
    {
        self.index_of(key).is_some()
    }

    /// The value that the key is bound to, if it is bound.
    pub fn get(&self, key: u32) -> (value: Option<&V>)
        requires
            self.wf(),
        ensures
            value is Some <==> has_key(self.entries(), key),
            value matches Some(v) ==> *v == self.entries()[position(self.entries(), key)].1,
    {
        match self.index_of(key) {
            Some(at) => Some(&self.entries[at].1),
            None => None,
        }
    }

    /// The highest key, if the map has an entry.
    pub fn last_key(&self) -> (key: Option<u32>)
        requires
            self.wf(),
        ensures
            key is Some <==> self.entries().len() > 0,
            key matches Some(k) ==> k == self.entries().last().0 && forall|i: int|
                0 <= i < self.entries().len() ==> (#[trigger] self.entries()[i]).0 <= k,
    {
        let n = self.entries.len();
        if n == 0 {
            None
        } else {
            Some(self.entries[n - 1].0)
        }
    }

    /// Binds the key to the value. A key that was bound is bound anew.
    pub fn insert(&mut self, key: u32, value: V)
        requires
            old(self).wf(),
        ensures
            final(self).wf(),
            final(self).entries() == inserted(old(self).entries(), key, value),
    {
        let mut at: usize = 0;
        proof {
            lemma_rank_splits(self.entries@, key);
        }
        while at < self.entries.len() && self.entries[at].0 < key
            invariant
                at <= self.entries@.len(),
                self.entries@ == old(self).entries@,
                forall|k: int| 0 <= k < at ==> (#[trigger] self.entries@[k]).0 < key,
            decreases self.entries@.len() - at,
        {
            at += 1;
        }
        proof {
            let r = rank(self.entries@, key);
            if r < at {
                assert(self.entries@[r].0 >= key);
            }
            if at < r {
                assert(self.entries@[at as int].0 < key);
            }
            lemma_inserted(self.entries@, key, value);
        }
        if at < self.entries.len() && self.entries[at].0 == key {
            proof {
                lemma_rank_finds(self.entries@, key, at as int);
            }
            self.entries.set(at, (key, value));
        } else {
            proof {
                if has_key(self.entries@, key) {
                    let p = position(self.entries@, key);
                    lemma_rank_finds(self.entries@, key, p);
                }
            }
            self.entries.insert(at, (key, value));
        }
    }

    /// Unbinds the key and returns the value it was bound to, if it was bound.
    pub fn remove(&mut self, key: u32) -> (value: Option<V>)
        requires
            old(self).wf(),
        ensures
            final(self).wf(),
            final(self).entries() == removed(old(self).entries(), key),
            value is Some <==> has_key(old(self).entries(), key),
            value matches Some(v) ==> v == old(self).entries()[position(old(self).entries(), key)].1,
            !has_key(final(self).entries(), key),
    {
        match self.index_of(key) {
            Some(at) => {
                let ghost before = self.entries@;
                let entry = self.entries.remove(at);
                proof {
                    let after = self.entries@;
                    assert forall|i: int, j: int| 0 <= i < j < after.len() implies (
                    #[trigger] after[i]).0 < (#[trigger] after[j]).0 by {
                        let a = if i < at { i } else { i + 1 };
                        let b = if j < at { j } else { j + 1 };
                        assert(before[a].0 < before[b].0);
                    }
                    if has_key(after, key) {
                        let i = position(after, key);
                        let a = if i < at { i } else { i + 1 };
                        assert(before[a].0 == key);
                        if a < at {
                            assert(before[a].0 < before[at as int].0);
                        } else {
                            assert(before[at as int].0 < before[a].0);
                        }
                    }
                }
                Some(entry.1)
            },
            None => None,
        }
    }
}

} // verus!

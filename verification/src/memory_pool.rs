//! The pool of unconfirmed transactions.
//!
//! The pool keeps each transaction under its id, in the order in which the
//! transactions came, in an `IndexMap`. What is claimed of the `IndexMap` is
//! stated on the wrappers below and not proved; everything else is.

use vstd::prelude::*;
use indexmap::IndexMap;
use std::collections::hash_map::RandomState;
use crate::field::Field;
use crate::transaction::{transaction_views, Transaction, TransactionView, Transactions};

verus! {

/// `indexmap::IndexMap`, of which Verus sees nothing but the name.
#[verifier::external_type_specification]
#[verifier::external_body]
#[verifier::reject_recursive_types(K)]
#[verifier::reject_recursive_types(V)]
#[verifier::reject_recursive_types(S)]
pub struct ExIndexMap<K, V, S>(IndexMap<K, V, S>);

/// The key-value pairs that the map holds, in the map's order.
pub uninterp spec fn pool_entries(map: IndexMap<(u128, u128), Transaction, RandomState>) -> Seq<
    ((u128, u128), Transaction),
>;

/// Whether one of the pairs has the key.
pub open spec fn holds_key(entries: Seq<((u128, u128), Transaction)>, key: (u128, u128)) -> bool {
    exists|i: int| 0 <= i < entries.len() && (#[trigger] entries[i]).0 == key
}

/// `IndexMap::new`: the new map holds no pair.
#[verifier::external_body]
fn map_new() -> (map: IndexMap<(u128, u128), Transaction, RandomState>)
    ensures
        pool_entries(map) == Seq::<((u128, u128), Transaction)>::empty(),
{
    IndexMap::new()
}

/// `IndexMap::len`: the number of pairs.
#[verifier::external_body]
fn map_len(map: &IndexMap<(u128, u128), Transaction, RandomState>) -> (n: usize)
    ensures
        n == pool_entries(*map).len(),
{
    map.len()
}

/// `IndexMap::contains_key`: whether a pair with an equal key is in the map.
#[verifier::external_body]
fn map_contains_key(map: &IndexMap<(u128, u128), Transaction, RandomState>, key: &(u128, u128)) -> (found:
    bool)
    ensures
        found == holds_key(pool_entries(*map), *key),
{
    map.contains_key(key)
}

/// `IndexMap::get_index`: the value of the pair at the index, and nothing for
/// an index that is not below the number of pairs.
#[verifier::external_body]
fn map_get_index(map: &IndexMap<(u128, u128), Transaction, RandomState>, index: usize) -> (value:
    Option<&Transaction>)
    ensures
        index < pool_entries(*map).len() ==> value == Some(&pool_entries(*map)[index as int].1),
        index >= pool_entries(*map).len() ==> value is None,
{
    match map.get_index(index) {
        Some((_, transaction)) => Some(transaction),
        None => None,
    }
}

/// `IndexMap::insert`: where no pair has an equal key, the new pair is put
/// last in the order and nothing is returned; where one has, it keeps its
/// key and its place, takes the new value, and the old value is returned.
#[verifier::external_body]
fn map_insert(
    map: &mut IndexMap<(u128, u128), Transaction, RandomState>,
    key: (u128, u128),
    value: Transaction,
) -> (previous: Option<Transaction>)
    ensures
        match previous {
            None => !holds_key(pool_entries(*old(map)), key) && pool_entries(*final(map))
                == pool_entries(*old(map)).push((key, value)),
            Some(replaced) => exists|i: int|
                0 <= i < pool_entries(*old(map)).len() && (#[trigger] pool_entries(*old(map))[i])
                    == (key, replaced) && pool_entries(*final(map)) == pool_entries(
                    *old(map),
                ).update(i, (key, value)),
        },
{
    map.insert(key, value)
}

/// `IndexMap::shift_remove`: where a pair has an equal key, it is taken out,
/// the pairs that follow move up and keep their order, and its value is
/// returned; where none has, the map stays as it is and nothing is returned.
#[verifier::external_body]
fn map_shift_remove(map: &mut IndexMap<(u128, u128), Transaction, RandomState>, key: &(u128, u128)) -> (removed:
    Option<Transaction>)
    ensures
        match removed {
            None => !holds_key(pool_entries(*old(map)), *key) && pool_entries(*final(map))
                == pool_entries(*old(map)),
            Some(taken) => exists|i: int|
                0 <= i < pool_entries(*old(map)).len() && (#[trigger] pool_entries(*old(map))[i])
                    == (*key, taken) && pool_entries(*final(map)) == pool_entries(*old(map)).remove(
                    i,
                ),
        },
{
    map.shift_remove(key)
}

/// The key that a transaction id is kept under.
pub open spec fn key_of(id: Field) -> (u128, u128) {
    (id.lo, id.hi)
}

/// Whether a transaction of the pool has the id.
pub open spec fn pool_has(pool: Seq<TransactionView>, id: Field) -> bool {
    exists|i: int| 0 <= i < pool.len() && (#[trigger] pool[i]).id == id
}

/// No two transactions of the pool have the same id.
pub open spec fn unique_ids(pool: Seq<TransactionView>) -> bool {
    forall|i: int, j: int|
        0 <= i < pool.len() && 0 <= j < pool.len() && i != j ==> (#[trigger] pool[i]).id != (
        #[trigger] pool[j]).id
}

/// The pool without the transactions whose id is among `ids`; the others keep
/// their order.
pub open spec fn without_ids(pool: Seq<TransactionView>, ids: Seq<Field>) -> Seq<TransactionView>
    decreases pool.len(),
{
    if pool.len() == 0 {
        pool
    } else {
        let rest = without_ids(pool.drop_last(), ids);
        if ids.contains(pool.last().id) {
            rest
        } else {
            rest.push(pool.last())
        }
    }
}

/// Taking out no id leaves the pool as it is.
pub proof fn lemma_without_none(pool: Seq<TransactionView>)
    ensures
        without_ids(pool, Seq::empty()) == pool,
    decreases pool.len(),
{
    if pool.len() > 0 {
        lemma_without_none(pool.drop_last());
        assert(pool.drop_last().push(pool.last()) == pool);
    }
}

/// Taking out an id that no transaction has leaves the pool as it is.
pub proof fn lemma_without_absent(pool: Seq<TransactionView>, id: Field)
    requires
        !pool_has(pool, id),
    ensures
        without_ids(pool, seq![id]) == pool,
    decreases pool.len(),
{
    if pool.len() > 0 {
        let front = pool.drop_last();
        assert forall|i: int| 0 <= i < front.len() implies (#[trigger] front[i]).id != id by {
            assert(pool[i] == front[i]);
        }
        lemma_without_absent(front, id);
        assert(pool[pool.len() - 1].id != id);
        assert(seq![id][0] == id);
        assert(front.push(pool.last()) == pool);
    }
}

/// Taking out the id of the transaction at `at` removes that transaction,
/// where ids are unique.
pub proof fn lemma_without_one(pool: Seq<TransactionView>, at: int)
    requires
        unique_ids(pool),
        0 <= at < pool.len(),
    ensures
        without_ids(pool, seq![pool[at].id]) == pool.remove(at),
    decreases pool.len(),
{
    let id = pool[at].id;
    let front = pool.drop_last();
    let last = pool.len() - 1;
    assert(seq![id][0] == id);
    assert forall|i: int, j: int|
        0 <= i < front.len() && 0 <= j < front.len() && i != j implies (#[trigger] front[i]).id != (
    #[trigger] front[j]).id by {
        assert(front[i] == pool[i] && front[j] == pool[j]);
    }
    if at == last {
        assert forall|i: int| 0 <= i < front.len() implies (#[trigger] front[i]).id != id by {
            assert(front[i] == pool[i]);
        }
        lemma_without_absent(front, id);
        assert(pool.remove(at) == front);
    } else {
        assert(pool[last].id != pool[at].id);
        assert(front[at] == pool[at]);
        lemma_without_one(front, at);
        assert(front.remove(at).push(pool.last()) == pool.remove(at));
    }
}

/// Taking out one more id is taking it out of what was left.
pub proof fn lemma_without_more(pool: Seq<TransactionView>, ids: Seq<Field>, id: Field)
    ensures
        without_ids(without_ids(pool, ids), seq![id]) == without_ids(pool, ids.push(id)),
    decreases pool.len(),
{
    if pool.len() > 0 {
        let front = pool.drop_last();
        let t = pool.last();
        lemma_without_more(front, ids, id);
        assert(seq![id][0] == id);
        if ids.contains(t.id) {
            let k = choose|k: int| 0 <= k < ids.len() && ids[k] == t.id;
            assert(ids.push(id)[k] == t.id);
        } else {
            let kept = without_ids(front, ids);
            assert(kept.push(t).drop_last() == kept);
            if t.id == id {
                assert(ids.push(id)[ids.len() as int] == id);
            } else {
                if ids.push(id).contains(t.id) {
                    let k = choose|k: int| 0 <= k < ids.push(id).len() && ids.push(id)[k] == t.id;
                    assert(ids[k] == t.id);
                }
            }
        }
    }
}

/// What is left of a pool with unique ids has unique ids, and holds no
/// transaction that was taken out.
pub proof fn lemma_without_keeps(pool: Seq<TransactionView>, ids: Seq<Field>)
    ensures
        forall|i: int|
            0 <= i < without_ids(pool, ids).len() ==> pool_has(
                pool,
                (#[trigger] without_ids(pool, ids)[i]).id,
            ) && !ids.contains(without_ids(pool, ids)[i].id),
        unique_ids(pool) ==> unique_ids(without_ids(pool, ids)),
    decreases pool.len(),
{
    if pool.len() > 0 {
        let front = pool.drop_last();
        let left = without_ids(pool, ids);
        let rest = without_ids(front, ids);
        lemma_without_keeps(front, ids);
        assert forall|i: int| 0 <= i < left.len() implies pool_has(pool, (#[trigger] left[i]).id)
            && !ids.contains(left[i].id) by {
            if i < rest.len() {
                let k = choose|k: int| 0 <= k < front.len() && (#[trigger] front[k]).id == rest[i].id;
                assert(pool[k].id == rest[i].id);
            } else {
                assert(pool[pool.len() - 1].id == left[i].id);
            }
        }
        if unique_ids(pool) {
            assert forall|i: int, j: int|
                0 <= i < front.len() && 0 <= j < front.len() && i != j implies (#[trigger] front[i]).id
                != (#[trigger] front[j]).id by {
                assert(front[i] == pool[i] && front[j] == pool[j]);
            }
            assert forall|i: int, j: int|
                0 <= i < left.len() && 0 <= j < left.len() && i != j implies (#[trigger] left[i]).id
                != (#[trigger] left[j]).id by {
                if i < rest.len() && j < rest.len() {
                } else {
                    let low = if i < j { i } else { j };
                    let k = choose|k: int| 0 <= k < front.len() && (#[trigger] front[k]).id == rest[low].id;
                    assert(pool[k].id != pool[pool.len() - 1].id);
                }
            }
        }
    }
}

/// The unconfirmed transactions, each under its id, in the order in which
/// they came.
pub struct MemoryPool {
    map: IndexMap<(u128, u128), Transaction, RandomState>,
}

impl View for MemoryPool {
    type V = Seq<TransactionView>;

    closed spec fn view(&self) -> Seq<TransactionView> {
        Seq::new(pool_entries(self.map).len(), |i: int| pool_entries(self.map)[i].1@)
    }
}

impl MemoryPool {
    /// Each transaction is kept under its own id.
    pub closed spec fn keyed(&self) -> bool {
        forall|i: int|
            0 <= i < pool_entries(self.map).len() ==> (#[trigger] pool_entries(self.map)[i]).0 == key_of(
                pool_entries(self.map)[i].1.id,
            )
    }

    /// Each transaction is kept under its own id, and no id is kept twice.
    pub open spec fn wf(&self) -> bool {
        self.keyed() && unique_ids(self@)
    }

    /// The empty pool.
    pub fn new() -> (pool: MemoryPool)
        ensures
            pool@ == Seq::<TransactionView>::empty(),
            pool.wf(),
    {
        MemoryPool { map: map_new() }
    }

    /// The number of transactions in the pool.
    pub fn len(&self) -> (n: usize)
        ensures
            n == self@.len(),
    {
        map_len(&self.map)
    }

    /// Whether the pool holds a transaction with the id.
    pub fn contains(&self, id: &Field) -> (found: bool)
        requires
            self.wf(),
        ensures
            found == pool_has(self@, *id),
    {
        let found = map_contains_key(&self.map, &(id.lo, id.hi));
        proof {
            let entries = pool_entries(self.map);
            if found {
                let i = choose|i: int| 0 <= i < entries.len() && (#[trigger] entries[i]).0 == key_of(*id);
                assert(self@[i].id == *id);
            }
            if pool_has(self@, *id) {
                let i = choose|i: int| 0 <= i < self@.len() && (#[trigger] self@[i]).id == *id;
                assert(entries[i].0 == key_of(*id));
            }
        }
        found
    }

    /// The transaction at a position of the pool's order, if the pool has
    /// that many.
    pub fn get(&self, at: usize) -> (transaction: Option<&Transaction>)
        ensures
            transaction is Some <==> at < self@.len(),
            transaction matches Some(t) ==> t@ == self@[at as int],
    {
        map_get_index(&self.map, at)
    }

    /// Puts the transaction last in the pool, unless the pool holds one with
    /// the same id: then the pool stays as it is and `false` is returned.
    pub fn add(&mut self, transaction: Transaction) -> (added: bool)
        requires
            old(self).wf(),
        ensures
            final(self).wf(),
            added == !pool_has(old(self)@, transaction@.id),
            added ==> final(self)@ == old(self)@.push(transaction@),
            !added ==> final(self)@ == old(self)@,
    {
        let id = transaction.id;
        if self.contains(&id) {
            return false;
        }
        let ghost before = pool_entries(self.map);
        let ghost pool = self@;
        let ghost added = transaction@;
        let previous = map_insert(&mut self.map, (id.lo, id.hi), transaction);
        proof {
            if previous is Some {
                let i = choose|i: int|
                    0 <= i < before.len() && (#[trigger] before[i]) == (key_of(id), previous->Some_0);
                assert(pool[i].id == id);
            }
            assert(self@ =~= pool.push(added));
            assert forall|i: int, j: int|
                0 <= i < self@.len() && 0 <= j < self@.len() && i != j implies (#[trigger] self@[i]).id
                != (#[trigger] self@[j]).id by {
                if i < pool.len() && j < pool.len() {
                    assert(pool[i].id != pool[j].id);
                } else if i < pool.len() {
                    assert(pool[i].id != id);
                } else {
                    assert(pool[j].id != id);
                }
            }
        }
        true
    }

    /// Takes the transaction with the id out of the pool, if there is one. The
    /// others keep their order.
    pub fn remove(&mut self, id: &Field)
        requires
            old(self).wf(),
        ensures
            final(self).wf(),
            final(self)@ == without_ids(old(self)@, seq![*id]),
    {
        let ghost before = pool_entries(self.map);
        let ghost pool = self@;
        let removed = map_shift_remove(&mut self.map, &(id.lo, id.hi));
        proof {
            match removed {
                None => {
                    if pool_has(pool, *id) {
                        let i = choose|i: int| 0 <= i < pool.len() && (#[trigger] pool[i]).id == *id;
                        assert(before[i].0 == key_of(*id));
                    }
                    lemma_without_absent(pool, *id);
                    assert(self@ =~= pool);
                },
                Some(taken) => {
                    let i = choose|i: int|
                        0 <= i < before.len() && (#[trigger] before[i]) == (key_of(*id), taken)
                            && pool_entries(self.map) == before.remove(i);
                    assert(before[i].0 == key_of(before[i].1.id));
                    assert(pool[i].id == *id);
                    lemma_without_one(pool, i);
                    assert(self@ =~= pool.remove(i));
                    lemma_without_keeps(pool, seq![*id]);
                    let after = pool_entries(self.map);
                    assert forall|k: int| 0 <= k < after.len() implies (#[trigger] after[k]).0 == key_of(
                        after[k].1.id,
                    ) by {
                        let a = if k < i { k } else { k + 1 };
                        assert(after[k] == before[a]);
                    }
                },
            }
        }
    }

    /// Takes the transactions with the given ids out of the pool. The others
    /// keep their order.
    pub fn remove_all(&mut self, ids: &Vec<Field>)
        requires
            old(self).wf(),
        ensures
            final(self).wf(),
            final(self)@ == without_ids(old(self)@, ids@),
    {
        proof {
            lemma_without_none(self@);
            assert(ids@.take(0) == Seq::<Field>::empty());
        }
        let mut j: usize = 0;
        while j < ids.len()
            invariant
                j <= ids@.len(),
                self.wf(),
                self@ == without_ids(old(self)@, ids@.take(j as int)),
            decreases ids@.len() - j,
        {
            proof {
                lemma_without_more(old(self)@, ids@.take(j as int), ids@[j as int]);
                assert(ids@.take(j as int).push(ids@[j as int]) == ids@.take(j + 1));
            }
            self.remove(&ids[j]);
            j += 1;
        }
        assert(ids@.take(j as int) == ids@);
    }

    /// Copies of the transactions of the pool, in the pool's order.
    pub fn transactions(&self) -> (transactions: Transactions)
        ensures
            transactions@ == self@,
    {
        let mut list: Vec<Transaction> = Vec::new();
        let n = self.len();
        let mut i: usize = 0;
        while i < n
            invariant
                i <= n,
                n == self@.len(),
                list@.len() == i,
                forall|k: int| 0 <= k < i ==> (#[trigger] list@[k])@ == self@[k],
            decreases n - i,
        {
            if let Some(transaction) = self.get(i) {
                list.push(transaction.clone());
            }
            i += 1;
        }
        assert(transaction_views(list@) =~= self@);
        Transactions::new(list)
    }
}

} // verus!

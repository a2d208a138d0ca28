//! What holds of every ledger.

use vstd::prelude::*;
use vstd::seq_lib::lemma_no_dup_in_concat;
use crate::block::BlockView;
use crate::error::LedgerError;
use crate::field::Field;
use crate::memory_map::has_key;
use crate::model::{
    aligned, chain, first_gap, lemma_next_block_is_above, replay_blocks, shares, LedgerView,
};
use crate::state_path::{creates, sole_creator, transaction_ids_of};
use crate::transaction::{
    all_ids, lemma_all_ids_contains, lemma_all_ids_push, Identified, IdKind, TransactionView,
};
use crate::vm::VmView;

verus! {

/// The tip is the latest block: the block that is committed at the current
/// height is the last of the chain, and its hash is the current hash.
pub proof fn lemma_tip_is_latest_block(ledger: LedgerView)
    requires
        ledger.wf(),
        ledger.blocks.len() > 0,
    ensures
        ledger.block_at(ledger.current_height) == Some(ledger.blocks.last()),
        ledger.block_at(ledger.current_height)->Some_0.block_hash == ledger.current_hash,
{
    let blocks = ledger.blocks;
    let last = blocks.len() - 1;
    assert(blocks[last].height() == ledger.current_height);
    let at = ledger.index_of_height(ledger.current_height);
    if at < last {
        assert(blocks[at].height() < blocks[last].height());
    }
}

/// Of two committed blocks, the higher one is the younger one, and its round
/// is not less. Where the round of the lower one is positive, the round of
/// the higher one is greater.
pub proof fn lemma_higher_blocks_are_younger(ledger: LedgerView, lower: u32, higher: u32)
    requires
        ledger.wf(),
        ledger.has_height(lower),
        ledger.has_height(higher),
        lower < higher,
    ensures
        ledger.block_at(lower)->Some_0.timestamp() < ledger.block_at(higher)->Some_0.timestamp(),
        ledger.block_at(lower)->Some_0.round() <= ledger.block_at(higher)->Some_0.round(),
        ledger.block_at(lower)->Some_0.round() > 0 ==> ledger.block_at(lower)->Some_0.round()
            < ledger.block_at(higher)->Some_0.round(),
{
    let a = ledger.index_of_height(lower);
    let b = ledger.index_of_height(higher);
    if b < a {
        assert(ledger.blocks[b].height() < ledger.blocks[a].height());
    }
    assert(ledger.blocks[a].height() < ledger.blocks[b].height());
}

/// A block, once committed, is immutable: after a commit the new block is
/// found at its height, and every block that was committed before is found
/// at its height as it was.
pub proof fn lemma_committed_blocks_stay(
    ledger: LedgerView,
    block: BlockView,
    verified: bool,
    height: u32,
)
    requires
        ledger.wf(),
        ledger.add_next_block(block, verified) is Ok,
    ensures
        ledger.add_next_block(block, verified)->Ok_0.block_at(block.height()) == Some(block),
        ledger.has_height(height) ==> ledger.add_next_block(block, verified)->Ok_0.block_at(height)
            == ledger.block_at(height),
{
    let next = ledger.add_next_block(block, verified)->Ok_0;
    let n = ledger.blocks.len() as int;
    lemma_next_block_is_above(ledger, block, verified);
    assert(next.blocks[n] == block);
    assert(next.has_height(block.height()));
    let found = next.index_of_height(block.height());
    if found < n {
        assert(next.blocks[found].height() < next.blocks[n].height());
    }
    if ledger.has_height(height) {
        let at = ledger.index_of_height(height);
        assert(next.blocks[at] == ledger.blocks[at]);
        assert(next.has_height(height));
        let again = next.index_of_height(height);
        if again < at {
            assert(next.blocks[again].height() < next.blocks[at].height());
        }
        if at < again {
            assert(next.blocks[at].height() < next.blocks[again].height());
        }
    }
}

/// The leaves of the block tree are the hashes of the committed blocks, in
/// the order of their heights: the state root, which is the root over those
/// leaves, is the root over all committed block hashes.
pub proof fn lemma_block_tree_holds_the_block_hashes(ledger: LedgerView)
    requires
        ledger.wf(),
    ensures
        ledger.block_tree.len() == ledger.blocks.len(),
        forall|i: int|
            0 <= i < ledger.blocks.len() ==> ledger.block_tree[i] == (#[trigger] ledger.blocks[i]).block_hash,
        forall|height: u32|
            ledger.has_height(height) ==> ledger.has_block_hash(
                (#[trigger] ledger.block_at(height))->Some_0.block_hash,
            ),
{
    assert forall|height: u32| ledger.has_height(height) implies ledger.has_block_hash(
        (#[trigger] ledger.block_at(height))->Some_0.block_hash,
    ) by {
        let at = ledger.index_of_height(height);
        assert(ledger.block_tree[at] == ledger.blocks[at].block_hash);
    }
}

/// No identifier of a kind is committed twice after a block is committed,
/// where none was committed twice before and the block holds none twice.
pub proof fn lemma_committed_ids_stay_unique(
    ledger: LedgerView,
    block: BlockView,
    verified: bool,
    kind: IdKind,
)
    requires
        ledger.wf(),
        ledger.ids(kind).no_duplicates(),
        block.ids(kind).no_duplicates(),
        ledger.add_next_block(block, verified) is Ok,
    ensures
        ledger.add_next_block(block, verified)->Ok_0.ids(kind) == ledger.ids(kind) + block.ids(kind),
        ledger.add_next_block(block, verified)->Ok_0.ids(kind).no_duplicates(),
{
    let committed = ledger.ids(kind);
    let held = block.ids(kind);
    lemma_all_ids_push(ledger.blocks, block, kind);
    assert(!shares(held, committed));
    assert forall|i: int, j: int| 0 <= i < committed.len() && 0 <= j < held.len() implies committed[i]
        != held[j] by {
        if committed[i] == held[j] {
            assert(committed.contains(held[j]));
        }
    }
    lemma_no_dup_in_concat(committed, held);
}

/// The ledger that is replayed from the maps of a ledger is that ledger with
/// an empty pool: the same tip, the same block tree, the same blocks and the
/// same state of the finalizer. This holds where the ledger has committed a
/// block at every height up to the latest.
pub proof fn lemma_replay_equivalence(ledger: LedgerView, genesis: BlockView)
    requires
        ledger.wf(),
        ledger.blocks.len() > 0,
        forall|i: int| 0 <= i < ledger.blocks.len() ==> (#[trigger] ledger.blocks[i]).height() == i,
    ensures
        LedgerView::from_maps(
            ledger.previous_hashes(),
            ledger.headers(),
            ledger.transactions(),
            ledger.signatures(),
            genesis,
            ledger.current_hash,
        ) == Ok::<LedgerView, LedgerError>(LedgerView { memory_pool: Seq::empty(), ..ledger }),
{
    let p = ledger.previous_hashes();
    let h = ledger.headers();
    let t = ledger.transactions();
    let s = ledger.signatures();
    let blocks = ledger.blocks;
    let last = blocks.len() - 1;
    let top = p.last().0;
    assert(h[last].0 == top && t[last].0 == top && s[last].0 == top);
    assert(has_key(h, top) && has_key(t, top) && has_key(s, top));
    assert(aligned(p, h, t, s));
    let replayed = chain(p, h, t, s, ledger.current_hash);
    assert(replayed =~= blocks) by {
        assert forall|i: int| 0 <= i < blocks.len() implies replayed[i] == blocks[i] by {
            if i + 1 < blocks.len() {
                assert(blocks[i + 1].previous_hash == blocks[i].block_hash);
            }
        }
    }
    assert(first_gap(p) is None) by {
        assert forall|i: int| 0 <= i < p.len() implies (#[trigger] p[i]).0 == i by {
            assert(blocks[i].height() == i);
        }
    }
}

/// An identifier that two values of a sequence hold is held twice by the sequence.
pub proof fn lemma_held_twice<T: Identified>(items: Seq<T>, kind: IdKind, id: Field, a: int, b: int)
    requires
        0 <= a < b < items.len(),
        items[a].ids(kind).contains(id),
        items[b].ids(kind).contains(id),
    ensures
        !all_ids(items, kind).no_duplicates(),
    decreases items.len(),
{
    let front = items.drop_last();
    let ids = all_ids(front, kind);
    let held = items.last().ids(kind);
    let all = all_ids(items, kind);
    if b == items.len() - 1 {
        lemma_all_ids_contains(front, kind, id);
        assert(front[a] == items[a]);
        let x = choose|x: int| 0 <= x < ids.len() && ids[x] == id;
        let y = choose|y: int| 0 <= y < held.len() && held[y] == id;
        assert(all[x] == id);
        assert(all[ids.len() + y] == id);
    } else {
        assert(front[a] == items[a] && front[b] == items[b]);
        lemma_held_twice(front, kind, id, a, b);
        let (x, y) = choose|x: int, y: int|
            0 <= x < ids.len() && 0 <= y < ids.len() && x != y && ids[x] == ids[y];
        assert(all[x] == all[y]);
    }
}

/// Where a sequence holds no identifier twice, none of its values does.
pub proof fn lemma_each_holds_once<T: Identified>(items: Seq<T>, kind: IdKind, at: int)
    requires
        0 <= at < items.len(),
        all_ids(items, kind).no_duplicates(),
    ensures
        items[at].ids(kind).no_duplicates(),
    decreases items.len(),
{
    let front = items.drop_last();
    let ids = all_ids(front, kind);
    let held = items.last().ids(kind);
    let all = all_ids(items, kind);
    if at == items.len() - 1 {
        assert forall|x: int, y: int| 0 <= x < held.len() && 0 <= y < held.len() && x != y implies held[x]
            != held[y] by {
            assert(all[ids.len() + x] == held[x]);
            assert(all[ids.len() + y] == held[y]);
        }
    } else {
        assert forall|x: int, y: int| 0 <= x < ids.len() && 0 <= y < ids.len() && x != y implies ids[x]
            != ids[y] by {
            assert(all[x] == ids[x] && all[y] == ids[y]);
        }
        assert(front[at] == items[at]);
        lemma_each_holds_once(front, kind, at);
    }
}

/// Every committed commitment has a place: where no commitment and no
/// transaction id is committed twice, the search for a committed commitment
/// succeeds.
pub proof fn lemma_committed_commitment_has_a_place(ledger: LedgerView, commitment: Field)
    requires
        ledger.ids(IdKind::Commitment).no_duplicates(),
        ledger.ids(IdKind::TransactionId).no_duplicates(),
        ledger.ids(IdKind::Commitment).contains(commitment),
    ensures
        ledger.locate(commitment) is Ok,
{
    let kind = IdKind::Commitment;
    let blocks = ledger.blocks;
    lemma_all_ids_contains(blocks, kind, commitment);
    let i = choose|i: int| 0 <= i < blocks.len() && (#[trigger] blocks[i]).ids(kind).contains(commitment);
    let txs = blocks[i].transactions;
    lemma_all_ids_contains(txs, kind, commitment);
    let j = choose|j: int| 0 <= j < txs.len() && (#[trigger] txs[j]).ids(kind).contains(commitment);
    let tx = txs[j];
    assert(ledger.holds(commitment, i, j));
    lemma_each_holds_once(blocks, kind, i);
    lemma_each_holds_once(txs, kind, j);
    assert forall|i2: int, j2: int| #[trigger] ledger.holds(commitment, i2, j2) implies i2 == i && j2
        == j by {
        let txs2 = blocks[i2].transactions;
        if i2 != i {
            lemma_all_ids_contains(txs2, kind, commitment);
            assert(txs2[j2].ids(kind).contains(commitment));
            assert(blocks[i2].ids(kind).contains(commitment));
            if i2 < i {
                lemma_held_twice(blocks, kind, commitment, i2, i);
            } else {
                lemma_held_twice(blocks, kind, commitment, i, i2);
            }
        } else if j2 != j {
            if j2 < j {
                lemma_held_twice(txs, kind, commitment, j2, j);
            } else {
                lemma_held_twice(txs, kind, commitment, j, j2);
            }
        }
    }
    assert(ledger.sole_holder(commitment, i, j));
    let (ci, cj) = choose|a: int, b: int| #[trigger] ledger.sole_holder(commitment, a, b);
    assert(ledger.sole_holder(commitment, ci, cj));
    assert(ci == i && cj == j);
    // No other block holds a transaction with the id.
    assert(transaction_ids_of(txs)[j] == tx.id);
    assert(ledger.holds_transaction(tx.id, i));
    assert forall|i2: int| #[trigger] ledger.holds_transaction(tx.id, i2) implies i2 == i by {
        if i2 != i {
            let txs2 = blocks[i2].transactions;
            let j2 = choose|j2: int| 0 <= j2 < txs2.len() && transaction_ids_of(txs2)[j2] == tx.id;
            assert(txs2[j2].ids(IdKind::TransactionId)[0] == tx.id);
            assert(txs[j].ids(IdKind::TransactionId)[0] == tx.id);
            lemma_all_ids_contains(txs2, IdKind::TransactionId, tx.id);
            lemma_all_ids_contains(txs, IdKind::TransactionId, tx.id);
            assert(blocks[i2].ids(IdKind::TransactionId).contains(tx.id));
            assert(blocks[i].ids(IdKind::TransactionId).contains(tx.id));
            if i2 < i {
                lemma_held_twice(blocks, IdKind::TransactionId, tx.id, i2, i);
            } else {
                lemma_held_twice(blocks, IdKind::TransactionId, tx.id, i, i2);
            }
        }
    }
    assert(ledger.sole_block(tx.id, i));
    // One transition creates the commitment, and no other.
    lemma_all_ids_contains(tx.transitions, kind, commitment);
    let k = choose|k: int|
        0 <= k < tx.transitions.len() && (#[trigger] tx.transitions[k]).ids(kind).contains(commitment);
    assert(creates(tx, commitment, k));
    assert forall|k2: int| #[trigger] creates(tx, commitment, k2) implies k2 == k by {
        if k2 != k {
            assert(tx.transitions[k2].ids(kind).contains(commitment));
            if k2 < k {
                lemma_held_twice(tx.transitions, kind, commitment, k2, k);
            } else {
                lemma_held_twice(tx.transitions, kind, commitment, k, k2);
            }
        }
    }
    assert(sole_creator(tx, commitment, k));
}

/// The finalizer has spent the serial numbers of the transactions it was
/// given, in their order, after those it had spent before.
pub proof fn lemma_replay_spends(vm: VmView, txs: Seq<TransactionView>)
    requires
        vm.replay(txs) is Ok,
    ensures
        vm.replay(txs)->Ok_0.serial_numbers == vm.serial_numbers + all_ids(txs, IdKind::SerialNumber),
    decreases txs.len(),
{
    if txs.len() > 0 {
        lemma_replay_spends(vm, txs.drop_last());
        let before = all_ids(txs.drop_last(), IdKind::SerialNumber);
        let spent = txs.last().ids(IdKind::SerialNumber);
        assert((vm.serial_numbers + before) + spent == vm.serial_numbers + (before + spent));
    } else {
        assert(vm.serial_numbers + Seq::<Field>::empty() == vm.serial_numbers);
    }
}

/// The finalizer has spent the serial numbers of the blocks it was given.
pub proof fn lemma_replay_blocks_spends(vm: VmView, blocks: Seq<BlockView>)
    requires
        replay_blocks(vm, blocks) is Ok,
    ensures
        replay_blocks(vm, blocks)->Ok_0.serial_numbers == vm.serial_numbers + all_ids(
            blocks,
            IdKind::SerialNumber,
        ),
    decreases blocks.len(),
{
    if blocks.len() > 0 {
        lemma_replay_blocks_spends(vm, blocks.drop_last());
        lemma_replay_spends(replay_blocks(vm, blocks.drop_last())->Ok_0, blocks.last().transactions);
        let before = all_ids(blocks.drop_last(), IdKind::SerialNumber);
        let spent = blocks.last().ids(IdKind::SerialNumber);
        assert((vm.serial_numbers + before) + spent == vm.serial_numbers + (before + spent));
    } else {
        assert(vm.serial_numbers + Seq::<Field>::empty() == vm.serial_numbers);
    }
}

/// No serial number is committed twice: the committed serial numbers are
/// those that the finalizer has spent, and it spends none twice.
pub proof fn lemma_committed_serial_numbers_are_unique(ledger: LedgerView)
    requires
        ledger.wf(),
    ensures
        ledger.ids(IdKind::SerialNumber) == ledger.vm.serial_numbers,
        ledger.ids(IdKind::SerialNumber).no_duplicates(),
{
    lemma_replay_blocks_spends(VmView::empty(), ledger.blocks);
    assert(Seq::<Field>::empty() + ledger.ids(IdKind::SerialNumber) == ledger.ids(
        IdKind::SerialNumber,
    ));
}

} // verus!

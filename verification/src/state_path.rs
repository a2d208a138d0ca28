//! State paths: where a commitment stands in the ledger.
//!
//! A state path binds a commitment to the state root through five trees: the
//! transition that creates the commitment, the transaction that holds the
//! transition, the transactions of the block, the header of the block, and
//! the block tree. The ledger finds the one place where the commitment stands
//! and names the leaf of each tree; the hashing layer computes the paths from
//! those leaves, and the ledger puts the state path together.

use vstd::prelude::*;
use crate::block::{BlockView, Header, HeaderLeaf};
use crate::memory_map::MemoryMap;
use crate::error::LedgerError;
use crate::field::Field;
use crate::ledger::{entry_views, Ledger};
use crate::model::LedgerView;
use crate::transaction::{
    contains_field, Identified, IdKind, Transaction, TransactionView, Transactions, TransitionView,
};

verus! {

/// A leaf of a transition's tree: the commitment or serial number at an
/// index among the outputs or the inputs of the transition.
#[derive(Clone, Copy, Debug, PartialEq, Eq, Structural)]
pub struct TransitionLeaf {
    pub index: usize,
    pub is_input: bool,
    pub id: Field,
}

/// A leaf of a transaction's tree: the id of the transition at an index.
#[derive(Clone, Copy, Debug, PartialEq, Eq, Structural)]
pub struct TransactionLeaf {
    pub index: usize,
    pub id: Field,
}

/// A Merkle path, as the hashing layer computed it.
#[derive(Debug, PartialEq, Eq)]
pub struct MerklePath {
    pub leaf_index: u64,
    pub siblings: Vec<Field>,
}

/// The place of a commitment in the ledger.
#[derive(Clone, Copy, Debug, PartialEq, Eq, Structural)]
pub struct CommitmentLocation {
    /// The height of the block that holds the commitment.
    pub height: u32,
    /// The id of the transaction that holds the commitment.
    pub transaction_id: Field,
    /// The first position of that id among the transactions of the block.
    pub transaction_index: usize,
    /// The leaf of the transaction's tree: the id of the transition that
    /// creates the commitment, at its first position among the transitions.
    pub transaction_leaf: TransactionLeaf,
    /// The leaf of the transition's tree: the commitment, at its first
    /// position among the commitments of the transition.
    pub transition_leaf: TransitionLeaf,
    /// The leaf of the header's tree that holds the transactions root.
    pub header_leaf: HeaderLeaf,
}

/// What the hashing layer computed for a located commitment: the state root
/// with the path of the latest block in the block tree, the root of the
/// block's header with the path of the transactions root in it, and the paths
/// of the transaction, the transition and the commitment in their trees.
#[derive(Debug, PartialEq, Eq)]
pub struct PathWitness {
    pub state_root: Field,
    pub block_path: MerklePath,
    pub header_root: Field,
    pub header_path: MerklePath,
    pub transactions_path: MerklePath,
    pub transaction_path: MerklePath,
    pub transition_path: MerklePath,
}

/// The proof that a commitment is anchored in the state root.
#[derive(Debug, PartialEq, Eq)]
pub struct StatePath {
    pub state_root: Field,
    pub block_path: MerklePath,
    pub block_hash: Field,
    pub previous_block_hash: Field,
    pub header_root: Field,
    pub header_path: MerklePath,
    pub header_leaf: HeaderLeaf,
    pub transactions_path: MerklePath,
    pub transaction_id: Field,
    pub transaction_path: MerklePath,
    pub transaction_leaf: TransactionLeaf,
    pub transition_path: MerklePath,
    pub transition_leaf: TransitionLeaf,
}

/// The first position at which the sequence holds the identifier, where it
/// holds it.
pub open spec fn first_position(ids: Seq<Field>, id: Field) -> int {
    choose|i: int| 0 <= i < ids.len() && ids[i] == id && forall|k: int| 0 <= k < i ==> ids[k] != id
}

/// The ids of the transactions, in order.
pub open spec fn transaction_ids_of(transactions: Seq<TransactionView>) -> Seq<Field> {
    Seq::new(transactions.len(), |j: int| transactions[j].id)
}

/// The ids of the transitions, in order.
pub open spec fn transition_ids_of(transitions: Seq<TransitionView>) -> Seq<Field> {
    Seq::new(transitions.len(), |k: int| transitions[k].id)
}

/// Whether the transition at the position creates the commitment.
pub open spec fn creates(transaction: TransactionView, commitment: Field, transition: int) -> bool {
    0 <= transition < transaction.transitions.len()
        && transaction.transitions[transition].commitments.contains(commitment)
}

impl LedgerView {
    /// Whether the transaction at the position of the block at the position
    /// holds the commitment.
    pub open spec fn holds(self, commitment: Field, block: int, transaction: int) -> bool {
        0 <= block < self.blocks.len() && 0 <= transaction < self.blocks[block].transactions.len()
            && self.blocks[block].transactions[transaction].ids(IdKind::Commitment).contains(
            commitment,
        )
    }

    /// Whether a transaction of the block at the position has the id.
    pub open spec fn holds_transaction(self, id: Field, block: int) -> bool {
        0 <= block < self.blocks.len() && transaction_ids_of(self.blocks[block].transactions).contains(
            id,
        )
    }

    /// Whether the transaction at the position of the block at the position
    /// holds the commitment, and no other committed transaction does.
    pub open spec fn sole_holder(self, commitment: Field, block: int, transaction: int) -> bool {
        self.holds(commitment, block, transaction) && forall|i: int, j: int| #[trigger]
            self.holds(commitment, i, j) ==> i == block && j == transaction
    }

    /// Whether the block at the position holds a transaction with the id, and
    /// no other block does.
    pub open spec fn sole_block(self, id: Field, block: int) -> bool {
        self.holds_transaction(id, block) && forall|i: int| #[trigger]
            self.holds_transaction(id, i) ==> i == block
    }

    /// The place of the commitment in the ledger, or why it has none: not
    /// exactly one committed transaction holds the commitment, or not exactly
    /// one block holds a transaction with the id of that transaction, or not
    /// exactly one transition of that transaction creates the commitment.
    pub open spec fn locate(self, commitment: Field) -> Result<CommitmentLocation, LedgerError> {
        if !(exists|i: int, j: int| #[trigger] self.sole_holder(commitment, i, j)) {
            Err(LedgerError::CommitmentNotUnique)
        } else {
            let (i, j) = choose|i: int, j: int| #[trigger] self.sole_holder(commitment, i, j);
            let block = self.blocks[i];
            let transaction = block.transactions[j];
            if !self.sole_block(transaction.id, i) {
                Err(LedgerError::TransactionNotUnique)
            } else if !(exists|k: int| #[trigger] sole_creator(transaction, commitment, k)) {
                Err(LedgerError::TransitionNotUnique)
            } else {
                let k = choose|k: int| #[trigger] sole_creator(transaction, commitment, k);
                Ok(place(block, transaction, k, commitment))
            }
        }
    }
}

/// Whether the transition at the position creates the commitment, and no
/// other transition of the transaction does.
pub open spec fn sole_creator(transaction: TransactionView, commitment: Field, transition: int) -> bool {
    creates(transaction, commitment, transition) && forall|k: int| #[trigger]
        creates(transaction, commitment, k) ==> k == transition
}

/// The place of a commitment that the transition at the position, of the
/// transaction, of the block, creates.
pub open spec fn place(
    block: BlockView,
    transaction: TransactionView,
    transition: int,
    commitment: Field,
) -> CommitmentLocation {
    CommitmentLocation {
        height: block.height(),
        transaction_id: transaction.id,
        transaction_index: first_position(transaction_ids_of(block.transactions), transaction.id) as usize,
        transaction_leaf: TransactionLeaf {
            index: first_position(
                transition_ids_of(transaction.transitions),
                transaction.transitions[transition].id,
            ) as usize,
            id: transaction.transitions[transition].id,
        },
        transition_leaf: TransitionLeaf {
            index: first_position(transaction.transitions[transition].commitments, commitment) as usize,
            is_input: false,
            id: commitment,
        },
        header_leaf: block.header.transactions_leaf(),
    }
}

/// What a search for the one marked position found.
pub enum Scan {
    /// No position is marked.
    Nothing,
    /// The position is marked, and no other.
    One(usize),
    /// Two positions at least are marked.
    Many,
}

/// Searches the marks for the one that is set.
pub fn unique_mark(marks: &Vec<bool>) -> (scan: Scan)
    ensures
        match scan {
            Scan::Nothing => forall|k: int| 0 <= k < marks@.len() ==> !marks@[k],
            Scan::One(at) => at < marks@.len() && marks@[at as int] && forall|k: int|
                0 <= k < marks@.len() && marks@[k] ==> k == at,
            Scan::Many => exists|a: int, b: int|
                0 <= a < b < marks@.len() && marks@[a] && marks@[b],
        },
{
    let mut found: Option<usize> = None;
    let mut i: usize = 0;
    while i < marks.len()
        invariant
            i <= marks@.len(),
            match found {
                None => forall|k: int| 0 <= k < i ==> !marks@[k],
                Some(at) => at < i && marks@[at as int] && forall|k: int|
                    0 <= k < i && marks@[k] ==> k == at,
            },
        decreases marks@.len() - i,
    {
        if marks[i] {
            match found {
                Some(at) => {
                    assert(marks@[at as int] && marks@[i as int]);
                    return Scan::Many;
                },
                None => {
                    found = Some(i);
                },
            }
        }
        i += 1;
    }
    match found {
        None => Scan::Nothing,
        Some(at) => Scan::One(at),
    }
}

/// The first position at which the list holds the identifier.
pub fn first_index_of(list: &Vec<Field>, id: &Field) -> (at: usize)
    requires
        list@.contains(*id),
    ensures
        at < list@.len(),
        at == first_position(list@, *id),
        list@[at as int] == *id,
        forall|k: int| 0 <= k < at ==> list@[k] != *id,
{
    let n = list.len();
    let mut i: usize = 0;
    proof {
        let w = choose|w: int| 0 <= w < list@.len() && list@[w] == *id;
        assert(0 <= w);
    }
    while list[i] != *id
        invariant
            n == list@.len(),
            i < list@.len(),
            list@.contains(*id),
            forall|k: int| 0 <= k < i ==> list@[k] != *id,
        decreases list@.len() - i,
    {
        proof {
            let w = choose|w: int| 0 <= w < list@.len() && list@[w] == *id;
            assert(w != i);
            if w < i {
                assert(list@[w] != *id);
            }
        }
        i += 1;
    }
    proof {
        let chosen = first_position(list@, *id);
        if chosen < i {
            assert(list@[chosen] == *id);
        }
        if i < chosen {
            assert(list@[i as int] == *id);
        }
    }
    i
}

/// The ids of the transactions, in order.
pub fn transaction_ids(transactions: &Transactions) -> (ids: Vec<Field>)
    ensures
        ids@ == transaction_ids_of(transactions@),
{
    let mut ids: Vec<Field> = Vec::new();
    let mut j: usize = 0;
    while j < transactions.transactions.len()
        invariant
            j <= transactions.transactions@.len(),
            ids@.len() == j,
            forall|k: int| 0 <= k < j ==> ids@[k] == transactions@[k].id,
        decreases transactions.transactions@.len() - j,
    {
        ids.push(transactions.transactions[j].id);
        j += 1;
    }
    assert(ids@ =~= transaction_ids_of(transactions@));
    ids
}

/// The ids of the transitions of the transaction, in order.
pub fn transition_ids(transaction: &Transaction) -> (ids: Vec<Field>)
    ensures
        ids@ == transition_ids_of(transaction@.transitions),
{
    let mut ids: Vec<Field> = Vec::new();
    let mut k: usize = 0;
    while k < transaction.transitions.len()
        invariant
            k <= transaction.transitions@.len(),
            ids@.len() == k,
            forall|x: int| 0 <= x < k ==> ids@[x] == transaction@.transitions[x].id,
        decreases transaction.transitions@.len() - k,
    {
        ids.push(transaction.transitions[k].id);
        k += 1;
    }
    assert(ids@ =~= transition_ids_of(transaction@.transitions));
    ids
}

/// Marks the transactions that hold the commitment.
pub fn mark_holders(transactions: &Transactions, commitment: &Field) -> (marks: Vec<bool>)
    ensures
        marks@.len() == transactions@.len(),
        forall|j: int|
            0 <= j < marks@.len() ==> marks@[j] == transactions@[j].ids(IdKind::Commitment).contains(
                *commitment,
            ),
{
    let mut marks: Vec<bool> = Vec::new();
    let mut j: usize = 0;
    while j < transactions.transactions.len()
        invariant
            j <= transactions.transactions@.len(),
            marks@.len() == j,
            forall|k: int|
                0 <= k < j ==> marks@[k] == transactions@[k].ids(IdKind::Commitment).contains(
                    *commitment,
                ),
        decreases transactions.transactions@.len() - j,
    {
        let held = transactions.transactions[j].commitments();
        marks.push(contains_field(&held, commitment));
        j += 1;
    }
    marks
}

/// Marks the transitions of the transaction that create the commitment.
pub fn mark_creators(transaction: &Transaction, commitment: &Field) -> (marks: Vec<bool>)
    ensures
        marks@.len() == transaction@.transitions.len(),
        forall|k: int| 0 <= k < marks@.len() ==> marks@[k] == creates(transaction@, *commitment, k),
{
    let mut marks: Vec<bool> = Vec::new();
    let mut k: usize = 0;
    while k < transaction.transitions.len()
        invariant
            k <= transaction.transitions@.len(),
            marks@.len() == k,
            forall|x: int| 0 <= x < k ==> marks@[x] == creates(transaction@, *commitment, x),
        decreases transaction.transitions@.len() - k,
    {
        marks.push(contains_field(&transaction.transitions[k].commitments, commitment));
        k += 1;
    }
    marks
}

impl LedgerView {
    /// The state path of a located commitment: what the hashing layer
    /// computed, the hash of the latest block and of its parent, and the
    /// leaves of the place.
    pub open spec fn state_path(self, location: CommitmentLocation, witness: PathWitness) -> StatePath {
        StatePath {
            state_root: witness.state_root,
            block_path: witness.block_path,
            block_hash: self.current_hash,
            previous_block_hash: self.blocks.last().previous_hash,
            header_root: witness.header_root,
            header_path: witness.header_path,
            header_leaf: location.header_leaf,
            transactions_path: witness.transactions_path,
            transaction_id: location.transaction_id,
            transaction_path: witness.transaction_path,
            transaction_leaf: location.transaction_leaf,
            transition_path: witness.transition_path,
            transition_leaf: location.transition_leaf,
        }
    }
}

/// The place of the commitment that the transition at `which` of the
/// transaction at `inside` of the given transactions creates.
fn name_place(
    transactions: &Transactions,
    inside: usize,
    which: usize,
    commitment: &Field,
    header: &Header,
    Ghost(block): Ghost<BlockView>,
) -> (location: CommitmentLocation)
    requires
        block.transactions == transactions@,
        block.header == *header,
        inside < transactions@.len(),
        creates(transactions@[inside as int], *commitment, which as int),
    ensures
        location == place(block, transactions@[inside as int], which as int, *commitment),
{
    let transaction = &transactions.transactions[inside];
    let transition = &transaction.transitions[which];
    let ghost tx = transactions@[inside as int];
    proof {
        assert(tx == transaction@);
        assert(tx.transitions[which as int] == transition@);
        assert(transaction_ids_of(transactions@)[inside as int] == tx.id);
        assert(transition_ids_of(tx.transitions)[which as int] == transition.id);
    }
    let transaction_index = first_index_of(&transaction_ids(transactions), &transaction.id);
    let transition_index = first_index_of(&transition_ids(transaction), &transition.id);
    let leaf_index = first_index_of(&transition.commitments, commitment);
    CommitmentLocation {
        height: header.height(),
        transaction_id: transaction.id,
        transaction_index,
        transaction_leaf: TransactionLeaf { index: transition_index, id: transition.id },
        transition_leaf: TransitionLeaf { index: leaf_index, is_input: false, id: *commitment },
        header_leaf: header.to_transactions_leaf(),
    }
}

/// Finds the one transition of the transaction that creates the commitment.
fn find_creator(transaction: &Transaction, commitment: &Field) -> (found: Option<usize>)
    ensures
        match found {
            Some(which) => sole_creator(transaction@, *commitment, which as int),
            None => !exists|k: int| #[trigger] sole_creator(transaction@, *commitment, k),
        },
{
    let creators = mark_creators(transaction, commitment);
    match unique_mark(&creators) {
        Scan::One(which) => {
            assert forall|k: int| #[trigger]
                creates(transaction@, *commitment, k) implies k == which by {
                assert(creators@[k]);
            }
            Some(which)
        },
        Scan::Nothing => {
            assert forall|k: int| !#[trigger] sole_creator(transaction@, *commitment, k) by {
                if creates(transaction@, *commitment, k) {
                    assert(creators@[k]);
                }
            }
            None
        },
        Scan::Many => {
            proof {
                let (a, b) = choose|a: int, b: int|
                    0 <= a < b < creators@.len() && creators@[a] && creators@[b];
                assert(creates(transaction@, *commitment, a) && creates(transaction@, *commitment, b));
                assert forall|k: int| !#[trigger] sole_creator(transaction@, *commitment, k) by {
                    if k == a {
                        assert(creates(transaction@, *commitment, b));
                    } else {
                        assert(creates(transaction@, *commitment, a));
                    }
                }
            }
            None
        },
    }
}

impl Ledger {
    /// The committed transactions, block by block, are those of the ledger's value.
    proof fn lemma_transactions(&self, map: &MemoryMap<Transactions>, headers: &MemoryMap<Header>)
        requires
            self.wf(),
            entry_views(map.entries()) == self@.transactions(),
            headers.entries() == self@.headers(),
        ensures
            map.entries().len() == self@.blocks.len(),
            headers.entries().len() == self@.blocks.len(),
            forall|i: int|
                0 <= i < self@.blocks.len() ==> (#[trigger] self@.blocks[i]).transactions
                    == map.entries()[i].1@ && self@.blocks[i].header == headers.entries()[i].1,
    {
        let ledger = self@;
        let blocks = ledger.blocks;
        assert(entry_views(map.entries()).len() == ledger.transactions().len());
        assert(headers.entries().len() == ledger.headers().len());
        assert forall|i: int| 0 <= i < blocks.len() implies (#[trigger] blocks[i]).transactions
            == map.entries()[i].1@ && blocks[i].header == headers.entries()[i].1 by {
            assert(entry_views(map.entries())[i].1 == map.entries()[i].1@);
            assert(ledger.transactions()[i].1 == blocks[i].transactions);
            assert(ledger.headers()[i].1 == blocks[i].header);
        }
    }

    /// Finds the one committed transaction that holds the commitment: the
    /// position of its block and its position in the block.
    fn find_holder(&self, commitment: &Field) -> (found: Option<(usize, usize)>)
        requires
            self.wf(),
        ensures
            match found {
                Some((at, inside)) => self@.sole_holder(*commitment, at as int, inside as int),
                None => !exists|i: int, j: int| #[trigger] self@.sole_holder(*commitment, i, j),
            },
    {
        let map = self.transactions();
        let headers = self.headers();
        let ghost ledger = self@;
        let ghost blocks = ledger.blocks;
        proof {
            self.lemma_transactions(map, headers);
        }
        let n = map.len();
        let mut holding: Vec<bool> = Vec::new();
        let mut i: usize = 0;
        while i < n
            invariant
                i <= n,
                n == blocks.len(),
                n == map.entries().len(),
                blocks == ledger.blocks,
                forall|x: int|
                    0 <= x < blocks.len() ==> (#[trigger] blocks[x]).transactions == map.entries()[x].1@,
                holding@.len() == i,
                forall|x: int|
                    0 <= x < i ==> holding@[x] == exists|j: int| #[trigger]
                        ledger.holds(*commitment, x, j),
            decreases n - i,
        {
            let marks = mark_holders(map.value_at(i), commitment);
            let some = match unique_mark(&marks) {
                Scan::Nothing => false,
                _ => true,
            };
            proof {
                let x = i as int;
                if some {
                    let j = choose|j: int| 0 <= j < marks@.len() && marks@[j];
                    assert(ledger.holds(*commitment, x, j));
                } else {
                    assert forall|j: int| !#[trigger] ledger.holds(*commitment, x, j) by {
                        if 0 <= j < marks@.len() {
                            assert(!marks@[j]);
                        }
                    }
                }
            }
            holding.push(some);
            i += 1;
        }
        let at = match unique_mark(&holding) {
            Scan::One(at) => at,
            Scan::Nothing => {
                proof {
                    assert forall|i2: int, j2: int| !#[trigger] ledger.holds(*commitment, i2, j2) by {
                        if 0 <= i2 < holding@.len() {
                            assert(!holding@[i2]);
                        }
                    }
                }
                return None;
            },
            Scan::Many => {
                proof {
                    let (a, b) = choose|a: int, b: int|
                        0 <= a < b < holding@.len() && holding@[a] && holding@[b];
                    let ja = choose|j: int| #[trigger] ledger.holds(*commitment, a, j);
                    let jb = choose|j: int| #[trigger] ledger.holds(*commitment, b, j);
                    assert(ledger.holds(*commitment, a, ja) && ledger.holds(*commitment, b, jb));
                }
                return None;
            },
        };
        let marks = mark_holders(map.value_at(at), commitment);
        match unique_mark(&marks) {
            Scan::One(inside) => {
                proof {
                    assert(ledger.holds(*commitment, at as int, inside as int));
                    assert forall|i2: int, j2: int| #[trigger]
                        ledger.holds(*commitment, i2, j2) implies i2 == at && j2 == inside by {
                        assert(holding@[i2]);
                        assert(marks@[j2]);
                    }
                }
                Some((at, inside))
            },
            Scan::Nothing => {
                proof {
                    let j = choose|j: int| #[trigger] ledger.holds(*commitment, at as int, j);
                    assert(marks@[j]);
                }
                None
            },
            Scan::Many => {
                proof {
                    let (a, b) = choose|a: int, b: int|
                        0 <= a < b < marks@.len() && marks@[a] && marks@[b];
                    assert(ledger.holds(*commitment, at as int, a) && ledger.holds(
                        *commitment,
                        at as int,
                        b,
                    ));
                }
                None
            },
        }
    }

    /// Whether the block at the position is the one block that holds a
    /// transaction with the id.
    fn is_sole_block(&self, id: &Field, at: usize) -> (sole: bool)
        requires
            self.wf(),
        ensures
            sole == self@.sole_block(*id, at as int),
    {
        let map = self.transactions();
        let headers = self.headers();
        let ghost ledger = self@;
        let ghost blocks = ledger.blocks;
        proof {
            self.lemma_transactions(map, headers);
        }
        let n = map.len();
        let mut listing: Vec<bool> = Vec::new();
        let mut i: usize = 0;
        while i < n
            invariant
                i <= n,
                n == blocks.len(),
                n == map.entries().len(),
                blocks == ledger.blocks,
                forall|x: int|
                    0 <= x < blocks.len() ==> (#[trigger] blocks[x]).transactions == map.entries()[x].1@,
                listing@.len() == i,
                forall|x: int| 0 <= x < i ==> listing@[x] == ledger.holds_transaction(*id, x),
            decreases n - i,
        {
            let ids = transaction_ids(map.value_at(i));
            listing.push(contains_field(&ids, id));
            i += 1;
        }
        match unique_mark(&listing) {
            Scan::One(found) => {
                proof {
                    if found == at {
                        assert forall|i2: int| #[trigger]
                            ledger.holds_transaction(*id, i2) implies i2 == at by {
                            assert(listing@[i2]);
                        }
                    } else {
                        if ledger.holds_transaction(*id, at as int) {
                            assert(listing@[at as int]);
                        }
                    }
                }
                found == at
            },
            Scan::Nothing => {
                proof {
                    if ledger.holds_transaction(*id, at as int) {
                        assert(listing@[at as int]);
                    }
                }
                false
            },
            Scan::Many => {
                proof {
                    let (a, b) = choose|a: int, b: int|
                        0 <= a < b < listing@.len() && listing@[a] && listing@[b];
                    assert(ledger.holds_transaction(*id, a) && ledger.holds_transaction(*id, b));
                }
                false
            },
        }
    }

    /// Finds the one place where the commitment stands in the ledger.
    pub fn find_commitment(&self, commitment: &Field) -> (result: Result<
        CommitmentLocation,
        LedgerError,
    >)
        requires
            self.wf(),
        ensures
            result == self@.locate(*commitment),
    {
        // Find the transaction that contains the record commitment.
        let (at, inside) = match self.find_holder(commitment) {
            Some(found) => found,
            None => {
                return Err(LedgerError::CommitmentNotUnique);
            },
        };
        let map = self.transactions();
        let headers = self.headers();
        let ghost ledger = self@;
        let ghost block = ledger.blocks[at as int];
        let ghost tx = block.transactions[inside as int];
        proof {
            self.lemma_transactions(map, headers);
            let (ci, cj) = choose|i: int, j: int| #[trigger] ledger.sole_holder(*commitment, i, j);
            assert(ledger.sole_holder(*commitment, ci, cj));
            assert(ledger.holds(*commitment, at as int, inside as int));
            assert(ci == at && cj == inside);
        }
        let transactions = map.value_at(at);
        let transaction = &transactions.transactions[inside];
        assert(tx == transaction@);
        // Find the block height that contains the record transaction id.
        if !self.is_sole_block(&transaction.id, at) {
            return Err(LedgerError::TransactionNotUnique);
        }
        // Find the transition that contains the record commitment.
        let which = match find_creator(transaction, commitment) {
            Some(which) => which,
            None => {
                return Err(LedgerError::TransitionNotUnique);
            },
        };
        proof {
            let chosen = choose|k: int| #[trigger] sole_creator(tx, *commitment, k);
            assert(sole_creator(tx, *commitment, chosen));
            assert(creates(tx, *commitment, which as int));
            assert(chosen == which);
        }
        // Name the leaves.
        Ok(name_place(transactions, inside, which, commitment, headers.value_at(at), Ghost(block)))
    }

    /// Returns a state path for the given commitment. `witness` holds what
    /// the hashing layer computed for the place of the commitment.
    pub fn to_state_path(&self, commitment: &Field, witness: PathWitness) -> (result: Result<
        StatePath,
        LedgerError,
    >)
        requires
            self.wf(),
        ensures
            match self@.locate(*commitment) {
                Ok(location) => result matches Ok(path) && path == self@.state_path(location, witness),
                Err(e) => result matches Err(error) && error == e,
            },
    {
        let location = match self.find_commitment(commitment) {
            Ok(location) => location,
            Err(e) => {
                return Err(e);
            },
        };
        proof {
            self.lemma_wf();
            crate::laws::lemma_tip_is_latest_block(self@);
        }
        // Construct the block path.
        let latest_block_hash = self.latest_hash();
        let previous_block_hash = match self.get_previous_hash(self.latest_height()) {
            Ok(hash) => hash,
            Err(e) => {
                return Err(e);
            },
        };
        Ok(
            StatePath {
                state_root: witness.state_root,
                block_path: witness.block_path,
                block_hash: latest_block_hash,
                previous_block_hash,
                header_root: witness.header_root,
                header_path: witness.header_path,
                header_leaf: location.header_leaf,
                transactions_path: witness.transactions_path,
                transaction_id: location.transaction_id,
                transaction_path: witness.transaction_path,
                transaction_leaf: location.transaction_leaf,
                transition_path: witness.transition_path,
                transition_leaf: location.transition_leaf,
            },
        )
    }
}

} // verus!

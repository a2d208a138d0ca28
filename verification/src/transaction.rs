//! Transitions, transactions and the identifiers they carry.
//!
//! A transaction is a deployment or an execution; it holds transitions, and
//! each transition spends serial numbers and creates commitments and nonces
//! under a transition public key. The ledger admits each identifier once, so
//! this module says which identifiers a value holds, and in which order.

use vstd::prelude::*;
use crate::field::Field;

verus! {

/// Where an input record of a transition claims to come from.
#[derive(Clone, Copy, Debug, PartialEq, Eq, Structural)]
pub enum Origin {
    /// A commitment that the ledger already holds.
    Commitment(Field),
    /// An earlier state root.
    StateRoot(Field),
}

/// The kinds of identifier that the ledger admits once only.
#[derive(Clone, Copy, Debug, PartialEq, Eq, Structural)]
pub enum IdKind {
    TransactionId,
    TransitionPublicKey,
    SerialNumber,
    Commitment,
    Nonce,
}

/// The name of a program and of the network it is deployed on, each packed
/// into a field element.
#[derive(Clone, Copy, Debug, PartialEq, Eq, Structural)]
pub struct ProgramID {
    pub name: Field,
    pub network: Field,
}

/// What a transaction does.
#[derive(Clone, Copy, Debug, PartialEq, Eq, Structural)]
pub enum TransactionKind {
    /// Deploys the named program.
    Deployment(ProgramID),
    /// Executes functions of deployed programs.
    Execution,
}

/// A value that holds identifiers and origins.
pub trait Identified {
    /// The identifiers of the given kind that the value holds, in order.
    spec fn ids(&self, kind: IdKind) -> Seq<Field>;

    /// The origins that the value holds, in order.
    spec fn origins(&self) -> Seq<Origin>;
}

/// The identifiers of a kind that a sequence of values holds: those of the
/// first value, then those of the second, and so on.
pub open spec fn all_ids<T: Identified>(items: Seq<T>, kind: IdKind) -> Seq<Field>
    decreases items.len(),
{
    if items.len() == 0 {
        Seq::empty()
    } else {
        all_ids(items.drop_last(), kind) + items.last().ids(kind)
    }
}

/// The origins that a sequence of values holds, in order.
pub open spec fn all_origins<T: Identified>(items: Seq<T>) -> Seq<Origin>
    decreases items.len(),
{
    if items.len() == 0 {
        Seq::empty()
    } else {
        all_origins(items.drop_last()) + items.last().origins()
    }
}

/// The first `n + 1` values hold what the first `n` hold, followed by what
/// the value at `n` holds.
pub proof fn lemma_all_ids_step<T: Identified>(items: Seq<T>, n: int, kind: IdKind)
    requires
        0 <= n < items.len(),
    ensures
        all_ids(items.take(n + 1), kind) == all_ids(items.take(n), kind) + items[n].ids(kind),
        all_origins(items.take(n + 1)) == all_origins(items.take(n)) + items[n].origins(),
{
    assert(items.take(n + 1).drop_last() == items.take(n));
}

/// A sequence with one more value holds what it held before, followed by what
/// the new value holds.
pub proof fn lemma_all_ids_push<T: Identified>(items: Seq<T>, item: T, kind: IdKind)
    ensures
        all_ids(items.push(item), kind) == all_ids(items, kind) + item.ids(kind),
        all_origins(items.push(item)) == all_origins(items) + item.origins(),
{
    assert(items.push(item).drop_last() == items);
}

/// An identifier is held by a sequence exactly when one of its values holds it.
pub proof fn lemma_all_ids_contains<T: Identified>(items: Seq<T>, kind: IdKind, id: Field)
    ensures
        all_ids(items, kind).contains(id) <==> exists|i: int|
            0 <= i < items.len() && (#[trigger] items[i]).ids(kind).contains(id),
    decreases items.len(),
{
    if items.len() > 0 {
        let front = items.drop_last();
        lemma_all_ids_contains(front, kind, id);
        let held = items.last().ids(kind);
        if all_ids(items, kind).contains(id) {
            let k = choose|k: int| 0 <= k < all_ids(items, kind).len() && all_ids(items, kind)[k] == id;
            if k < all_ids(front, kind).len() {
                assert(all_ids(front, kind)[k] == id);
                let i = choose|i: int| 0 <= i < front.len() && (#[trigger] front[i]).ids(kind).contains(id);
                assert(items[i].ids(kind).contains(id));
            } else {
                assert(held[k - all_ids(front, kind).len()] == id);
                assert(items[items.len() - 1].ids(kind).contains(id));
            }
        }
        if exists|i: int| 0 <= i < items.len() && (#[trigger] items[i]).ids(kind).contains(id) {
            let i = choose|i: int| 0 <= i < items.len() && (#[trigger] items[i]).ids(kind).contains(id);
            if i < front.len() {
                assert(front[i].ids(kind).contains(id));
                let k = choose|k: int| 0 <= k < all_ids(front, kind).len() && all_ids(front, kind)[k] == id;
                assert(all_ids(items, kind)[k] == id);
            } else {
                let k = choose|k: int| 0 <= k < held.len() && held[k] == id;
                assert(all_ids(items, kind)[all_ids(front, kind).len() + k] == id);
            }
        }
    }
}

/// A transition as a mathematical value.
pub struct TransitionView {
    pub id: Field,
    pub tpk: Field,
    pub serial_numbers: Seq<Field>,
    pub origins: Seq<Origin>,
    pub commitments: Seq<Field>,
    pub nonces: Seq<Field>,
}

impl Identified for TransitionView {
    /// A transition holds its public key, the serial numbers it spends and the
    /// commitments and nonces it creates. It holds no transaction id.
    open spec fn ids(&self, kind: IdKind) -> Seq<Field> {
        match kind {
            IdKind::TransactionId => Seq::empty(),
            IdKind::TransitionPublicKey => seq![self.tpk],
            IdKind::SerialNumber => self.serial_numbers,
            IdKind::Commitment => self.commitments,
            IdKind::Nonce => self.nonces,
        }
    }

    open spec fn origins(&self) -> Seq<Origin> {
        self.origins
    }
}

/// A transaction as a mathematical value.
pub struct TransactionView {
    pub id: Field,
    pub kind: TransactionKind,
    pub transitions: Seq<TransitionView>,
}

impl Identified for TransactionView {
    /// A transaction holds its own id and what its transitions hold.
    open spec fn ids(&self, kind: IdKind) -> Seq<Field> {
        if kind == IdKind::TransactionId {
            seq![self.id]
        } else {
            all_ids(self.transitions, kind)
        }
    }

    open spec fn origins(&self) -> Seq<Origin> {
        all_origins(self.transitions)
    }
}

/// One step of a program: the records it spends and the records it creates.
#[derive(Debug, PartialEq, Eq)]
pub struct Transition {
    pub id: Field,
    /// The transition public key.
    pub tpk: Field,
    /// The serial numbers of the records that the transition spends.
    pub serial_numbers: Vec<Field>,
    /// Where each spent record claims to come from.
    pub origins: Vec<Origin>,
    /// The commitments of the records that the transition creates.
    pub commitments: Vec<Field>,
    /// The nonces of the records that the transition creates.
    pub nonces: Vec<Field>,
}

impl View for Transition {
    type V = TransitionView;

    open spec fn view(&self) -> TransitionView {
        TransitionView {
            id: self.id,
            tpk: self.tpk,
            serial_numbers: self.serial_numbers@,
            origins: self.origins@,
            commitments: self.commitments@,
            nonces: self.nonces@,
        }
    }
}

impl Clone for Transition {
    fn clone(&self) -> (copy: Self)
        ensures
            copy@ == self@,
    {
        Transition {
            id: self.id,
            tpk: self.tpk,
            serial_numbers: self.serial_numbers.clone(),
            origins: self.origins.clone(),
            commitments: self.commitments.clone(),
            nonces: self.nonces.clone(),
        }
    }
}

/// Appends the elements of `more` to `list`.
pub fn append_fields(list: &mut Vec<Field>, more: &Vec<Field>)
    ensures
        final(list)@ == old(list)@ + more@,
{
    let mut i: usize = 0;
    while i < more.len()
        invariant
            i <= more@.len(),
            list@ == old(list)@ + more@.take(i as int),
        decreases more@.len() - i,
    {
        list.push(more[i]);
        i += 1;
    }
    assert(more@.take(i as int) == more@);
}

/// Appends the elements of `more` to `list`.
pub fn append_origins(list: &mut Vec<Origin>, more: &Vec<Origin>)
    ensures
        final(list)@ == old(list)@ + more@,
{
    let mut i: usize = 0;
    while i < more.len()
        invariant
            i <= more@.len(),
            list@ == old(list)@ + more@.take(i as int),
        decreases more@.len() - i,
    {
        list.push(more[i]);
        i += 1;
    }
    assert(more@.take(i as int) == more@);
}

/// Whether `list` holds `id`.
pub fn contains_field(list: &Vec<Field>, id: &Field) -> (found: bool)
    ensures
        found == list@.contains(*id),
{
    let mut i: usize = 0;
    while i < list.len()
        invariant
            i <= list@.len(),
            forall|k: int| 0 <= k < i ==> list@[k] != *id,
        decreases list@.len() - i,
    {
        if list[i] == *id {
            return true;
        }
        i += 1;
    }
    false
}

impl Transition {
    /// The identifiers of the given kind that the transition holds.
    pub fn ids(&self, kind: IdKind) -> (list: Vec<Field>)
        ensures
            list@ == self@.ids(kind),
    {
        match kind {
            IdKind::TransactionId => Vec::new(),
            IdKind::TransitionPublicKey => {
                let mut list: Vec<Field> = Vec::new();
                list.push(self.tpk);
                list
            },
            IdKind::SerialNumber => self.serial_numbers.clone(),
            IdKind::Commitment => self.commitments.clone(),
            IdKind::Nonce => self.nonces.clone(),
        }
    }
}

/// The values of a sequence of transitions.
pub open spec fn transition_views(transitions: Seq<Transition>) -> Seq<TransitionView> {
    Seq::new(transitions.len(), |i: int| transitions[i]@)
}

/// The values of a sequence of transactions.
pub open spec fn transaction_views(transactions: Seq<Transaction>) -> Seq<TransactionView> {
    Seq::new(transactions.len(), |i: int| transactions[i]@)
}

/// A deployment or an execution, with the transitions it is made of.
#[derive(Debug, PartialEq, Eq)]
pub struct Transaction {
    pub id: Field,
    pub kind: TransactionKind,
    pub transitions: Vec<Transition>,
}

impl View for Transaction {
    type V = TransactionView;

    open spec fn view(&self) -> TransactionView {
        TransactionView {
            id: self.id,
            kind: self.kind,
            transitions: transition_views(self.transitions@),
        }
    }
}

impl Clone for Transaction {
    fn clone(&self) -> (copy: Self)
        ensures
            copy@ == self@,
    {
        let mut transitions: Vec<Transition> = Vec::new();
        let mut i: usize = 0;
        while i < self.transitions.len()
            invariant
                i <= self.transitions@.len(),
                transitions@.len() == i,
                transition_views(transitions@) == transition_views(self.transitions@).take(i as int),
            decreases self.transitions@.len() - i,
        {
            let copy = self.transitions[i].clone();
            let ghost before = transitions@;
            transitions.push(copy);
            assert forall|k: int| 0 <= k <= i implies #[trigger] transition_views(transitions@)[k]
                == transition_views(self.transitions@)[k] by {
                if k < i {
                    assert(transition_views(before)[k] == transition_views(self.transitions@).take(
                        i as int,
                    )[k]);
                }
            }
            i += 1;
        }
        assert(transition_views(self.transitions@).take(i as int) == transition_views(
            self.transitions@,
        ));
        Transaction { id: self.id, kind: self.kind, transitions }
    }
}

impl Transaction {
    /// The transaction's id.
    pub fn id(&self) -> (id: Field)
        ensures
            id == self@.id,
    {
        self.id
    }

    /// The identifiers of the given kind that the transaction holds.
    pub fn ids(&self, kind: IdKind) -> (list: Vec<Field>)
        ensures
            list@ == self@.ids(kind),
    {
        let mut list: Vec<Field> = Vec::new();
        if kind == IdKind::TransactionId {
            list.push(self.id);
            return list;
        }
        let ghost views = transition_views(self.transitions@);
        let mut i: usize = 0;
        while i < self.transitions.len()
            invariant
                i <= self.transitions@.len(),
                views == transition_views(self.transitions@),
                list@ == all_ids(views.take(i as int), kind),
            decreases self.transitions@.len() - i,
        {
            let held = self.transitions[i].ids(kind);
            proof {
                lemma_all_ids_step(views, i as int, kind);
            }
            append_fields(&mut list, &held);
            i += 1;
        }
        assert(views.take(i as int) == views);
        list
    }

    /// The origins that the transaction's transitions hold.
    pub fn origins(&self) -> (list: Vec<Origin>)
        ensures
            list@ == self@.origins(),
    {
        let mut list: Vec<Origin> = Vec::new();
        let ghost views = transition_views(self.transitions@);
        let mut i: usize = 0;
        while i < self.transitions.len()
            invariant
                i <= self.transitions@.len(),
                views == transition_views(self.transitions@),
                list@ == all_origins(views.take(i as int)),
            decreases self.transitions@.len() - i,
        {
            proof {
                lemma_all_ids_step(views, i as int, IdKind::Commitment);
            }
            append_origins(&mut list, &self.transitions[i].origins);
            i += 1;
        }
        assert(views.take(i as int) == views);
        list
    }

    /// The transition public keys of the transaction.
    pub fn transition_public_keys(&self) -> (list: Vec<Field>)
        ensures
            list@ == self@.ids(IdKind::TransitionPublicKey),
    {
        self.ids(IdKind::TransitionPublicKey)
    }

    /// The serial numbers that the transaction spends.
    pub fn serial_numbers(&self) -> (list: Vec<Field>)
        ensures
            list@ == self@.ids(IdKind::SerialNumber),
    {
        self.ids(IdKind::SerialNumber)
    }

    /// The commitments that the transaction creates.
    pub fn commitments(&self) -> (list: Vec<Field>)
        ensures
            list@ == self@.ids(IdKind::Commitment),
    {
        self.ids(IdKind::Commitment)
    }

    /// The nonces that the transaction creates.
    pub fn nonces(&self) -> (list: Vec<Field>)
        ensures
            list@ == self@.ids(IdKind::Nonce),
    {
        self.ids(IdKind::Nonce)
    }
}

/// The transactions of a block, in order.
#[derive(Debug, PartialEq, Eq)]
pub struct Transactions {
    pub transactions: Vec<Transaction>,
}

impl View for Transactions {
    type V = Seq<TransactionView>;

    open spec fn view(&self) -> Seq<TransactionView> {
        transaction_views(self.transactions@)
    }
}

impl Clone for Transactions {
    fn clone(&self) -> (copy: Self)
        ensures
            copy@ == self@,
    {
        let mut transactions: Vec<Transaction> = Vec::new();
        let mut i: usize = 0;
        while i < self.transactions.len()
            invariant
                i <= self.transactions@.len(),
                transactions@.len() == i,
                transaction_views(transactions@) == transaction_views(self.transactions@).take(
                    i as int,
                ),
            decreases self.transactions@.len() - i,
        {
            let copy = self.transactions[i].clone();
            let ghost before = transactions@;
            transactions.push(copy);
            assert forall|k: int| 0 <= k <= i implies #[trigger] transaction_views(transactions@)[k]
                == transaction_views(self.transactions@)[k] by {
                if k < i {
                    assert(transaction_views(before)[k] == transaction_views(
                        self.transactions@,
                    ).take(i as int)[k]);
                }
            }
            i += 1;
        }
        assert(transaction_views(self.transactions@).take(i as int) == transaction_views(
            self.transactions@,
        ));
        Transactions { transactions }
    }
}

impl Transactions {
    /// The given transactions as the transactions of a block.
    pub fn new(transactions: Vec<Transaction>) -> (list: Transactions)
        ensures
            list@ == transaction_views(transactions@),
            list.transactions == transactions,
    {
        Transactions { transactions }
    }

    /// The number of transactions.
    pub fn len(&self) -> (n: usize)
        ensures
            n == self@.len(),
    {
        self.transactions.len()
    }

    /// The identifiers of the given kind that the transactions hold, in order.
    pub fn ids(&self, kind: IdKind) -> (list: Vec<Field>)
        ensures
            list@ == all_ids(self@, kind),
    {
        let mut list: Vec<Field> = Vec::new();
        let mut i: usize = 0;
        while i < self.transactions.len()
            invariant
                i <= self.transactions@.len(),
                list@ == all_ids(self@.take(i as int), kind),
            decreases self.transactions@.len() - i,
        {
            let held = self.transactions[i].ids(kind);
            proof {
                lemma_all_ids_step(self@, i as int, kind);
            }
            append_fields(&mut list, &held);
            i += 1;
        }
        assert(self@.take(i as int) == self@);
        list
    }

    /// The origins that the transactions hold, in order.
    pub fn origins(&self) -> (list: Vec<Origin>)
        ensures
            list@ == all_origins(self@),
    {
        let mut list: Vec<Origin> = Vec::new();
        let mut i: usize = 0;
        while i < self.transactions.len()
            invariant
                i <= self.transactions@.len(),
                list@ == all_origins(self@.take(i as int)),
            decreases self.transactions@.len() - i,
        {
            let held = self.transactions[i].origins();
            proof {
                lemma_all_ids_step(self@, i as int, IdKind::Commitment);
            }
            append_origins(&mut list, &held);
            i += 1;
        }
        assert(self@.take(i as int) == self@);
        list
    }

    /// Whether one of the transactions holds the identifier.
    pub fn contains_id(&self, kind: IdKind, id: &Field) -> (found: bool)
        ensures
            found == all_ids(self@, kind).contains(*id),
    {
        let list = self.ids(kind);
        contains_field(&list, id)
    }
}

} // verus!

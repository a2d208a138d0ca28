//! The finalizer: the state that committed transactions leave behind.
//!
//! A deployment adds a program, and is refused where the program exists. Every
//! transaction spends its serial numbers, and is refused where one of them was
//! spent before. A transaction that was refused leaves the state as it was.

use vstd::prelude::*;
use crate::field::Field;
use crate::transaction::{
    contains_field, Identified, IdKind, ProgramID, Transaction, TransactionKind, TransactionView,
    Transactions,
};

verus! {

/// Why the finalizer refuses a transaction.
#[derive(Clone, Copy, Debug, PartialEq, Eq, Structural)]
pub enum VmError {
    /// The program that the transaction deploys is deployed already.
    ProgramExists,
    /// A serial number of the transaction was spent before, or is spent twice
    /// by the transaction itself.
    DoubleSpend,
}

/// The finalizer's state as a mathematical value.
pub struct VmView {
    /// The deployed programs, in the order of their deployment.
    pub programs: Seq<ProgramID>,
    /// The spent serial numbers, in the order in which they were spent.
    pub serial_numbers: Seq<Field>,
}

impl VmView {
    /// The state before any transaction.
    pub open spec fn empty() -> VmView {
        VmView { programs: Seq::empty(), serial_numbers: Seq::empty() }
    }

    /// No program is deployed twice and no serial number is spent twice.
    pub open spec fn wf(self) -> bool {
        self.programs.no_duplicates() && self.serial_numbers.no_duplicates()
    }

    /// The programs after the transaction.
    pub open spec fn programs_after(self, tx: TransactionView) -> Seq<ProgramID> {
        match tx.kind {
            TransactionKind::Deployment(program) => self.programs.push(program),
            TransactionKind::Execution => self.programs,
        }
    }

    /// The state that the transaction leaves, or why it is refused.
    pub open spec fn finalize(self, tx: TransactionView) -> Result<VmView, VmError> {
        let spent = self.serial_numbers + tx.ids(IdKind::SerialNumber);
        if tx.kind matches TransactionKind::Deployment(program) && self.programs.contains(program) {
            Err(VmError::ProgramExists)
        } else if !spent.no_duplicates() {
            Err(VmError::DoubleSpend)
        } else {
            Ok(VmView { programs: self.programs_after(tx), serial_numbers: spent })
        }
    }

    /// The state that the transactions leave when they are finalized in order,
    /// or why the first one that is refused is refused.
    pub open spec fn replay(self, txs: Seq<TransactionView>) -> Result<VmView, VmError>
        decreases txs.len(),
    {
        if txs.len() == 0 {
            Ok(self)
        } else {
            match self.replay(txs.drop_last()) {
                Ok(vm) => vm.finalize(txs.last()),
                Err(e) => Err(e),
            }
        }
    }
}

/// Finalizing keeps the state well formed.
pub proof fn lemma_finalize_wf(vm: VmView, tx: TransactionView)
    requires
        vm.wf(),
        vm.finalize(tx) is Ok,
    ensures
        vm.finalize(tx)->Ok_0.wf(),
{
    let after = vm.finalize(tx)->Ok_0;
    if tx.kind is Deployment {
        let program = tx.kind->Deployment_0;
        assert(!vm.programs.contains(program));
        assert forall|i: int, j: int|
            0 <= i < after.programs.len() && 0 <= j < after.programs.len() && i != j implies after.programs[i]
            != after.programs[j] by {
            if i < vm.programs.len() && j < vm.programs.len() {
            } else if i < vm.programs.len() {
                assert(vm.programs.contains(vm.programs[i]));
            } else {
                assert(vm.programs.contains(vm.programs[j]));
            }
        }
    }
}

/// Replaying keeps the state well formed.
pub proof fn lemma_replay_wf(vm: VmView, txs: Seq<TransactionView>)
    requires
        vm.wf(),
        vm.replay(txs) is Ok,
    ensures
        vm.replay(txs)->Ok_0.wf(),
    decreases txs.len(),
{
    if txs.len() > 0 {
        lemma_replay_wf(vm, txs.drop_last());
        lemma_finalize_wf(vm.replay(txs.drop_last())->Ok_0, txs.last());
    }
}

/// Replaying the first `n + 1` transactions is replaying the first `n` and
/// then finalizing the one at `n`.
pub proof fn lemma_replay_step(vm: VmView, txs: Seq<TransactionView>, n: int)
    requires
        0 <= n < txs.len(),
    ensures
        vm.replay(txs.take(n + 1)) == match vm.replay(txs.take(n)) {
            Ok(next) => next.finalize(txs[n]),
            Err(e) => Err(e),
        },
{
    assert(txs.take(n + 1).drop_last() == txs.take(n));
}

/// Finalizing is not idempotent: a transaction that deploys a program or
/// spends a serial number is refused the second time.
pub proof fn lemma_finalize_twice_fails(vm: VmView, tx: TransactionView)
    requires
        vm.wf(),
        vm.finalize(tx) is Ok,
        tx.kind is Deployment || tx.ids(IdKind::SerialNumber).len() > 0,
    ensures
        vm.finalize(tx)->Ok_0.finalize(tx) is Err,
{
    let after = vm.finalize(tx)->Ok_0;
    if tx.kind is Deployment {
        let program = tx.kind->Deployment_0;
        assert(after.programs[vm.programs.len() as int] == program);
        assert(after.programs.contains(program));
    } else {
        let spends = tx.ids(IdKind::SerialNumber);
        let twice = after.serial_numbers + spends;
        let first = vm.serial_numbers.len() as int;
        let second = after.serial_numbers.len() as int;
        assert(twice[first] == spends[0]);
        assert(twice[second] == spends[0]);
        assert(!twice.no_duplicates());
    }
}

/// The finalizer.
#[derive(Debug, PartialEq, Eq)]
pub struct VM {
    programs: Vec<ProgramID>,
    serial_numbers: Vec<Field>,
}

impl View for VM {
    type V = VmView;

    closed spec fn view(&self) -> VmView {
        VmView { programs: self.programs@, serial_numbers: self.serial_numbers@ }
    }
}

impl Clone for VM {
    fn clone(&self) -> (copy: Self)
        ensures
            copy@ == self@,
    {
        VM { programs: self.programs.clone(), serial_numbers: self.serial_numbers.clone() }
    }
}

impl VM {
    /// A finalizer that has seen no transaction.
    pub fn new() -> (vm: VM)
        ensures
            vm@ == VmView::empty(),
            vm@.wf(),
    {
        VM { programs: Vec::new(), serial_numbers: Vec::new() }
    }

    /// Whether the program is deployed.
    pub fn contains_program(&self, program: &ProgramID) -> (found: bool)
        ensures
            found == self@.programs.contains(*program),
    {
        let mut i: usize = 0;
        while i < self.programs.len()
            invariant
                i <= self.programs@.len(),
                forall|k: int| 0 <= k < i ==> self.programs@[k] != *program,
            decreases self.programs@.len() - i,
        {
            if self.programs[i] == *program {
                return true;
            }
            i += 1;
        }
        false
    }

    /// Whether the serial number is spent.
    pub fn contains_serial_number(&self, serial_number: &Field) -> (found: bool)
        ensures
            found == self@.serial_numbers.contains(*serial_number),
    {
        contains_field(&self.serial_numbers, serial_number)
    }

    /// Applies the transaction to the state, or refuses it and leaves the
    /// state as it was.
    #[verifier::loop_isolation(false)]
    pub fn finalize(&mut self, transaction: &Transaction) -> (result: Result<(), VmError>)
        requires
            old(self)@.wf(),
        ensures
            final(self)@.wf(),
            match old(self)@.finalize(transaction@) {
                Ok(next) => result is Ok && final(self)@ == next,
                Err(e) => result == Err::<(), VmError>(e) && final(self)@ == old(self)@,
            },
    {
        if let TransactionKind::Deployment(program) = &transaction.kind {
            if self.contains_program(program) {
                return Err(VmError::ProgramExists);
            }
        }
        let spends = transaction.ids(IdKind::SerialNumber);
        let mut staged = self.serial_numbers.clone();
        let ghost spent = self.serial_numbers@;
        let ghost all = spent + spends@;
        let mut j: usize = 0;
        while j < spends.len()
            invariant
                j <= spends@.len(),
                all == spent + spends@,
                staged@ == spent + spends@.take(j as int),
                staged@.no_duplicates(),
            decreases spends@.len() - j,
        {
            if contains_field(&staged, &spends[j]) {
                proof {
                    let k = choose|k: int| 0 <= k < staged@.len() && staged@[k] == spends@[j as int];
                    assert(all[k] == staged@[k]);
                    assert(all[spent.len() + j] == spends@[j as int]);
                }
                return Err(VmError::DoubleSpend);
            }
            let ghost before = staged@;
            staged.push(spends[j]);
            proof {
                assert(staged@ =~= spent + spends@.take(j + 1));
                assert forall|a: int, b: int|
                    0 <= a < staged@.len() && 0 <= b < staged@.len() && a != b implies staged@[a]
                    != staged@[b] by {
                    if a < before.len() && b < before.len() {
                    } else if a < before.len() {
                        assert(before.contains(before[a]));
                    } else {
                        assert(before.contains(before[b]));
                    }
                }
            }
            j += 1;
        }
        proof {
            assert(spends@.take(j as int) == spends@);
            lemma_finalize_wf(self@, transaction@);
        }
        self.serial_numbers = staged;
        if let TransactionKind::Deployment(program) = &transaction.kind {
            self.programs.push(*program);
        }
        Ok(())
    }

    /// Finalizes the transactions in order. Where one of them is refused, the
    /// state stays as it was before the first.
    #[verifier::loop_isolation(false)]
    pub fn finalize_all(&mut self, transactions: &Transactions) -> (result: Result<(), VmError>)
        requires
            old(self)@.wf(),
        ensures
            final(self)@.wf(),
            match old(self)@.replay(transactions@) {
                Ok(next) => result is Ok && final(self)@ == next,
                Err(e) => result == Err::<(), VmError>(e) && final(self)@ == old(self)@,
            },
    {
        let mut staged = self.clone();
        let mut i: usize = 0;
        while i < transactions.transactions.len()
            invariant
                i <= transactions.transactions@.len(),
                staged@.wf(),
                self@ == old(self)@,
                self@.replay(transactions@.take(i as int)) == Ok::<VmView, VmError>(staged@),
            decreases transactions.transactions@.len() - i,
        {
            proof {
                lemma_replay_step(self@, transactions@, i as int);
            }
            match staged.finalize(&transactions.transactions[i]) {
                Ok(()) => {},
                Err(e) => {
                    proof {
                        lemma_replay_fails_on(self@, transactions@, i as int + 1);
                    }
                    return Err(e);
                },
            }
            i += 1;
        }
        assert(transactions@.take(i as int) == transactions@);
        *self = staged;
        Ok(())
    }
}

/// Once replaying a prefix of the transactions is refused, replaying all of
/// them is refused for the same reason.
pub proof fn lemma_replay_fails_on(vm: VmView, txs: Seq<TransactionView>, n: int)
    requires
        0 <= n <= txs.len(),
        vm.replay(txs.take(n)) is Err,
    ensures
        vm.replay(txs) == vm.replay(txs.take(n)),
    decreases txs.len() - n,
{
    if n < txs.len() {
        lemma_replay_step(vm, txs, n);
        lemma_replay_fails_on(vm, txs, n + 1);
    } else {
        assert(txs.take(n) == txs);
    }
}

} // verus!

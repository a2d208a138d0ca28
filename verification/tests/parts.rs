use zkledger::block::{Block, Header, Metadata, Signature};
use zkledger::block_tree::{BlockTree, BLOCKS_DEPTH};
use zkledger::error::{ErrorKind, LedgerError};
use zkledger::field::Field;
use zkledger::ledger::Ledger;
use zkledger::memory_map::MemoryMap;
use zkledger::memory_pool::MemoryPool;
use zkledger::public_variables::PublicVariables;
use zkledger::state_path::{
    first_index_of, unique_mark, CommitmentLocation, MerklePath, PathWitness, Scan, TransactionLeaf,
    TransitionLeaf,
};
use zkledger::transaction::{
    IdKind, Origin, ProgramID, Transaction, TransactionKind, Transactions, Transition,
};
use zkledger::vm::{VmError, VM};

fn f(n: u128) -> Field {
    Field::new(n, 0)
}

fn transition(id: u128, commitments: Vec<Field>) -> Transition {
    Transition {
        id: f(id),
        tpk: f(id + 1),
        serial_numbers: vec![f(id + 2)],
        origins: vec![Origin::Commitment(f(id + 3)), Origin::StateRoot(f(id + 4))],
        commitments,
        nonces: vec![f(id + 5), f(id + 6)],
    }
}

/// A transition that names no origin.
fn bare(id: u128, commitments: Vec<Field>) -> Transition {
    Transition { origins: vec![], ..transition(id, commitments) }
}

fn execution(id: u128, transitions: Vec<Transition>) -> Transaction {
    Transaction { id: f(id), kind: TransactionKind::Execution, transitions }
}

fn block(hash: u128, previous_hash: Field, height: u32, transactions: Vec<Transaction>) -> Block {
    let metadata = Metadata::new(3, height as u64, height, u64::MAX, u64::MAX, 100 + height as i64);
    let header = Header::from(f(0), f(hash + 1), metadata);
    let signature = Signature { challenge: f(1), response: f(2), pk_sig: f(3), pr_sig: f(4) };
    Block::from(previous_hash, header, Transactions::new(transactions), signature, f(hash))
}

fn witness() -> PathWitness {
    let path = |n: u64| MerklePath { leaf_index: n, siblings: vec![f(n as u128)] };
    PathWitness {
        state_root: f(9000),
        block_path: path(1),
        header_root: f(9001),
        header_path: path(2),
        transactions_path: path(3),
        transaction_path: path(4),
        transition_path: path(5),
    }
}

#[test]
fn field_elements_are_their_halves() {
    assert_eq!(Field::zero(), Field { lo: 0, hi: 0 });
    assert_eq!(Field::new(3, 4), Field { lo: 3, hi: 4 });
    assert_eq!(Field::from_u8(255), Field { lo: 255, hi: 0 });
    assert_ne!(Field::new(3, 4), Field::new(4, 3));
}

#[test]
fn public_variables_pack_the_position_before_the_root() {
    let root = Field::new(77, 88);
    let variables = PublicVariables::new(9, &root);
    assert_eq!(variables.record_position, 9);
    assert_eq!(variables.local_data_root, root);
    assert_eq!(variables.to_field_elements(), vec![Field { lo: 9, hi: 0 }, root]);
    assert_eq!(PublicVariables::new(0, &root).to_field_elements()[0], Field::zero());
    assert_eq!(PublicVariables::default(), PublicVariables::new(0, &Field::default()));
}

#[test]
fn the_block_tree_keeps_its_leaves_in_order() {
    assert_eq!(BLOCKS_DEPTH, 32);
    let mut tree = BlockTree::new();
    assert_eq!(tree.len(), 0);
    assert!(tree.append(f(5)));
    assert!(tree.append(f(3)));
    assert_eq!(tree.leaves(), &vec![f(5), f(3)]);
    assert!(tree.contains(&f(3)));
    assert!(!tree.contains(&f(4)));
    let again = BlockTree::from_leaves(vec![f(5), f(3)]).unwrap();
    assert_eq!(again, tree);
    assert_eq!(again.clone().len(), 2);
}

#[test]
fn the_map_keeps_its_entries_in_the_order_of_their_heights() {
    let mut map: MemoryMap<Field> = MemoryMap::new();
    assert_eq!(map.last_key(), None);
    map.insert(5, f(50));
    map.insert(1, f(10));
    map.insert(3, f(30));
    assert_eq!(map.len(), 3);
    assert_eq!((map.key_at(0), map.key_at(1), map.key_at(2)), (1, 3, 5));
    assert_eq!(map.value_at(1), &f(30));
    assert_eq!(map.last_key(), Some(5));
    assert_eq!(map.index_of(3), Some(1));
    assert_eq!(map.index_of(4), None);
    assert!(map.contains_key(5));
    assert!(!map.contains_key(0));
    assert_eq!(map.get(1), Some(&f(10)));
    assert_eq!(map.get(2), None);

    // A key that is bound is bound anew, in its place.
    map.insert(3, f(31));
    assert_eq!(map.len(), 3);
    assert_eq!(map.get(3), Some(&f(31)));
    assert_eq!(map.key_at(1), 3);

    assert_eq!(map.remove(1), Some(f(10)));
    assert_eq!(map.remove(1), None);
    assert_eq!(map.len(), 2);
    assert_eq!((map.key_at(0), map.key_at(1)), (3, 5));
    map.insert(0, f(0));
    map.insert(u32::MAX, f(9));
    assert_eq!(map.key_at(0), 0);
    assert_eq!(map.last_key(), Some(u32::MAX));
}

#[test]
fn the_pool_keeps_its_transactions_in_the_order_they_came() {
    let mut pool = MemoryPool::new();
    assert_eq!(pool.len(), 0);
    assert!(pool.get(0).is_none());
    assert!(pool.add(execution(3, vec![])));
    assert!(pool.add(execution(1, vec![])));
    assert!(pool.add(execution(2, vec![])));
    // An id that is in the pool is not taken again.
    assert!(!pool.add(execution(1, vec![transition(10, vec![])])));
    assert_eq!(pool.len(), 3);
    assert_eq!(pool.get(1).unwrap(), &execution(1, vec![]));
    assert_eq!(pool.transactions().ids(IdKind::TransactionId), vec![f(3), f(1), f(2)]);
    assert!(pool.contains(&f(2)));
    assert!(!pool.contains(&f(4)));
    // Ids differ by either half.
    assert!(!pool.contains(&Field::new(2, 1)));
    assert!(pool.add(Transaction { id: Field::new(2, 1), kind: TransactionKind::Execution, transitions: vec![] }));

    pool.remove(&f(3));
    assert_eq!(pool.transactions().ids(IdKind::TransactionId), vec![f(1), f(2), Field::new(2, 1)]);
    pool.remove(&f(3));
    assert_eq!(pool.len(), 3);
    pool.remove_all(&vec![f(2), f(7), f(1)]);
    assert_eq!(pool.transactions().ids(IdKind::TransactionId), vec![Field::new(2, 1)]);
    assert!(pool.get(1).is_none());
}

#[test]
fn values_hold_their_identifiers_in_order() {
    let a = transition(10, vec![f(100), f(101)]);
    let b = transition(20, vec![]);
    let c = transition(30, vec![f(102)]);
    assert_eq!(a.ids(IdKind::TransactionId), vec![]);
    assert_eq!(a.ids(IdKind::TransitionPublicKey), vec![f(11)]);
    assert_eq!(a.ids(IdKind::SerialNumber), vec![f(12)]);
    assert_eq!(a.ids(IdKind::Commitment), vec![f(100), f(101)]);
    assert_eq!(a.ids(IdKind::Nonce), vec![f(15), f(16)]);

    let first = execution(1, vec![a, b]);
    let second = execution(2, vec![c]);
    assert_eq!(first.id(), f(1));
    assert_eq!(first.ids(IdKind::TransactionId), vec![f(1)]);
    assert_eq!(first.transition_public_keys(), vec![f(11), f(21)]);
    assert_eq!(first.serial_numbers(), vec![f(12), f(22)]);
    assert_eq!(first.commitments(), vec![f(100), f(101)]);
    assert_eq!(first.nonces(), vec![f(15), f(16), f(25), f(26)]);
    assert_eq!(
        first.origins(),
        vec![
            Origin::Commitment(f(13)),
            Origin::StateRoot(f(14)),
            Origin::Commitment(f(23)),
            Origin::StateRoot(f(24))
        ]
    );

    let all = block(1, Field::zero(), 0, vec![first.clone(), second.clone()]);
    assert_eq!(all.transaction_ids(), vec![f(1), f(2)]);
    assert_eq!(all.transition_public_keys(), vec![f(11), f(21), f(31)]);
    assert_eq!(all.serial_numbers(), vec![f(12), f(22), f(32)]);
    assert_eq!(all.commitments(), vec![f(100), f(101), f(102)]);
    assert_eq!(all.nonces(), vec![f(15), f(16), f(25), f(26), f(35), f(36)]);
    assert_eq!(all.ids(IdKind::Commitment), all.commitments());
    assert_eq!(all.origins().len(), 6);
    assert_eq!(all.origins()[4], Origin::Commitment(f(33)));
    assert!(all.transactions().contains_id(IdKind::Commitment, &f(102)));
    assert!(!all.transactions().contains_id(IdKind::Commitment, &f(12)));
    assert_eq!(all.transactions().len(), 2);
    assert_eq!(all.clone(), all);
    assert_eq!(all.header().to_transactions_leaf().index, 1);
    assert_eq!(all.header().to_transactions_leaf().id, f(2));
    assert_eq!((all.height(), all.round(), all.timestamp()), (0, 0, 100));
}

#[test]
fn the_finalizer_refuses_what_it_has_seen() {
    let program = ProgramID { name: f(1), network: f(3) };
    let deployment = Transaction {
        id: f(1),
        kind: TransactionKind::Deployment(program),
        transitions: vec![transition(10, vec![])],
    };
    let mut vm = VM::new();
    assert!(!vm.contains_program(&program));
    assert_eq!(vm.finalize(&deployment), Ok(()));
    assert!(vm.contains_program(&program));
    assert!(vm.contains_serial_number(&f(12)));
    let seen = vm.clone();
    // The same deployment again, and the same program under other serial numbers.
    assert_eq!(vm.finalize(&deployment), Err(VmError::ProgramExists));
    let mut other = deployment.clone();
    other.transitions = vec![transition(20, vec![])];
    assert_eq!(vm.finalize(&other), Err(VmError::ProgramExists));
    assert_eq!(vm, seen);

    // An execution that spends what was spent, and one that spends twice.
    let spent = execution(2, vec![transition(10, vec![])]);
    assert_eq!(vm.finalize(&spent), Err(VmError::DoubleSpend));
    let twice = execution(3, vec![transition(30, vec![]), transition(30, vec![])]);
    assert_eq!(vm.finalize(&twice), Err(VmError::DoubleSpend));
    assert_eq!(vm, seen);
    assert!(!vm.contains_serial_number(&f(32)));

    let fresh = execution(4, vec![transition(40, vec![])]);
    assert_eq!(vm.finalize(&fresh), Ok(()));
    assert_eq!(vm.finalize(&fresh), Err(VmError::DoubleSpend));

    // An execution that spends nothing is taken as often as it comes.
    let free = execution(5, vec![]);
    assert_eq!(vm.finalize(&free), Ok(()));
    assert_eq!(vm.finalize(&free), Ok(()));
}

#[test]
fn the_finalizer_takes_all_transactions_or_none() {
    let mut vm = VM::new();
    let good = Transactions::new(vec![
        execution(1, vec![transition(10, vec![])]),
        execution(2, vec![transition(20, vec![])]),
    ]);
    assert_eq!(vm.finalize_all(&good), Ok(()));
    assert!(vm.contains_serial_number(&f(12)) && vm.contains_serial_number(&f(22)));
    let seen = vm.clone();
    let bad = Transactions::new(vec![
        execution(3, vec![transition(30, vec![])]),
        execution(4, vec![transition(20, vec![])]),
    ]);
    assert_eq!(vm.finalize_all(&bad), Err(VmError::DoubleSpend));
    assert_eq!(vm, seen);
    assert!(!vm.contains_serial_number(&f(32)));
}

#[test]
fn searches_find_the_one_mark_and_the_first_position() {
    assert!(matches!(unique_mark(&vec![]), Scan::Nothing));
    assert!(matches!(unique_mark(&vec![false, false]), Scan::Nothing));
    assert!(matches!(unique_mark(&vec![false, true, false]), Scan::One(1)));
    assert!(matches!(unique_mark(&vec![true, false, true]), Scan::Many));
    assert_eq!(first_index_of(&vec![f(1), f(2), f(1), f(2)], &f(2)), 1);
    assert_eq!(first_index_of(&vec![f(1), f(2)], &f(1)), 0);
}

#[test]
fn a_commitment_is_found_where_it_stands() {
    let genesis = block(1000, Field::zero(), 0, vec![execution(1, vec![bare(10, vec![f(100)])])]);
    let second = block(
        2000,
        f(1000),
        1,
        vec![
            execution(2, vec![transition(20, vec![f(200)])]),
            execution(3, vec![transition(30, vec![f(300)]), transition(40, vec![f(400), f(401), f(402)])]),
        ],
    );
    let mut ledger = Ledger::from_genesis(&genesis, true).unwrap();
    // The origins of the second block name nothing that is committed.
    let mut second = second;
    for transaction in second.transactions.transactions.iter_mut() {
        for transition in transaction.transitions.iter_mut() {
            transition.origins = vec![Origin::Commitment(f(100))];
        }
    }
    ledger.add_next_block(&second, true).unwrap();

    let location = ledger.find_commitment(&f(402)).unwrap();
    assert_eq!(
        location,
        CommitmentLocation {
            height: 1,
            transaction_id: f(3),
            transaction_index: 1,
            transaction_leaf: TransactionLeaf { index: 1, id: f(40) },
            transition_leaf: TransitionLeaf { index: 2, is_input: false, id: f(402) },
            header_leaf: second.header().to_transactions_leaf(),
        }
    );
    assert_eq!(ledger.find_commitment(&f(100)).unwrap().height, 0);

    let path = ledger.to_state_path(&f(402), witness()).unwrap();
    assert_eq!(path.state_root, f(9000));
    assert_eq!(path.block_path, witness().block_path);
    assert_eq!(path.block_hash, f(2000));
    assert_eq!(path.previous_block_hash, f(1000));
    assert_eq!(path.header_root, f(9001));
    assert_eq!(path.header_path, witness().header_path);
    assert_eq!(path.header_leaf, location.header_leaf);
    assert_eq!(path.transactions_path, witness().transactions_path);
    assert_eq!(path.transaction_id, f(3));
    assert_eq!(path.transaction_path, witness().transaction_path);
    assert_eq!(path.transaction_leaf, location.transaction_leaf);
    assert_eq!(path.transition_path, witness().transition_path);
    assert_eq!(path.transition_leaf, location.transition_leaf);

    // A commitment of an earlier block is anchored in the latest block, too.
    let early = ledger.to_state_path(&f(100), witness()).unwrap();
    assert_eq!(early.block_hash, f(2000));
    assert_eq!(early.previous_block_hash, f(1000));
    assert_eq!(early.header_leaf.id, genesis.header().transactions_root);
}

#[test]
fn a_commitment_without_one_place_has_no_state_path() {
    // Nothing holds the commitment.
    let genesis = block(1000, Field::zero(), 0, vec![execution(1, vec![bare(10, vec![f(100)])])]);
    let ledger = Ledger::from_genesis(&genesis, true).unwrap();
    let error = ledger.find_commitment(&f(7)).unwrap_err();
    assert_eq!(error, LedgerError::CommitmentNotUnique);
    assert_eq!(error.kind(), ErrorKind::StateCorruption);
    assert_eq!(ledger.to_state_path(&f(7), witness()).err(), Some(LedgerError::CommitmentNotUnique));
    // A serial number is no commitment.
    assert_eq!(ledger.find_commitment(&f(12)), Err(LedgerError::CommitmentNotUnique));

    // Two transactions of one block hold the commitment.
    let plain = |v: Vec<Transaction>| Ledger::from_genesis(&block(1000, Field::zero(), 0, v), true).unwrap();
    let double = plain(vec![
        execution(1, vec![bare(10, vec![f(100)])]),
        execution(2, vec![bare(20, vec![f(100)])]),
    ]);
    assert_eq!(double.find_commitment(&f(100)), Err(LedgerError::CommitmentNotUnique));

    // Two transitions of the transaction create the commitment.
    let twice = plain(vec![execution(1, vec![bare(10, vec![f(100)]), bare(20, vec![f(100)])])]);
    assert_eq!(twice.find_commitment(&f(100)), Err(LedgerError::TransitionNotUnique));

    // One transition creates it twice: the first position is named.
    let repeated = plain(vec![execution(1, vec![bare(10, vec![f(5), f(100), f(100)])])]);
    assert_eq!(repeated.find_commitment(&f(100)).unwrap().transition_leaf.index, 1);

    // Two transactions of one block have the id, one of them holds the
    // commitment: the first position of the id is named.
    let same_id = plain(vec![
        execution(1, vec![bare(10, vec![f(5)])]),
        execution(1, vec![bare(20, vec![f(100)])]),
    ]);
    let location = same_id.find_commitment(&f(100)).unwrap();
    assert_eq!(location.transaction_index, 0);
    assert_eq!(location.transaction_leaf, TransactionLeaf { index: 0, id: f(20) });
}

#[test]
fn a_transaction_in_two_blocks_has_no_state_path() {
    let first = block(1000, Field::zero(), 0, vec![execution(1, vec![bare(10, vec![f(100)])])]);
    let second = block(2000, f(1000), 1, vec![execution(1, vec![bare(20, vec![f(200)])])]);
    // Replayed maps may hold what no commit would admit.
    let mut p = MemoryMap::new();
    let mut h = MemoryMap::new();
    let mut t = MemoryMap::new();
    let mut s = MemoryMap::new();
    for b in [&first, &second] {
        p.insert(b.height(), b.previous_hash());
        h.insert(b.height(), *b.header());
        t.insert(b.height(), b.transactions().clone());
        s.insert(b.height(), *b.signature());
    }
    let ledger = Ledger::from_maps(p, h, t, s, &first, f(2000)).unwrap();
    assert_eq!(ledger.find_commitment(&f(200)), Err(LedgerError::TransactionNotUnique));
    assert_eq!(ledger.to_state_path(&f(100), witness()).err(), Some(LedgerError::TransactionNotUnique));
}

#[test]
fn errors_have_their_kinds() {
    assert_eq!(LedgerError::IncorrectPreviousHash.kind(), ErrorKind::Validation);
    assert_eq!(LedgerError::BlockHashExists.kind(), ErrorKind::Validation);
    assert_eq!(LedgerError::IncorrectHeight.kind(), ErrorKind::Validation);
    assert_eq!(LedgerError::HeightExists.kind(), ErrorKind::Validation);
    assert_eq!(LedgerError::IncorrectRound.kind(), ErrorKind::Validation);
    assert_eq!(LedgerError::TimestampNotAfterLatest.kind(), ErrorKind::Validation);
    assert_eq!(LedgerError::IdExists(IdKind::Nonce).kind(), ErrorKind::Validation);
    assert_eq!(LedgerError::MissingOrigin.kind(), ErrorKind::Validation);
    assert_eq!(LedgerError::InvalidBlock.kind(), ErrorKind::Validation);
    assert_eq!(LedgerError::Finalize(VmError::ProgramExists).kind(), ErrorKind::Validation);
    assert_eq!(LedgerError::Exhausted.kind(), ErrorKind::Validation);
    assert_eq!(LedgerError::UnsupportedOrigin.kind(), ErrorKind::UnsupportedFeature);
    assert_eq!(LedgerError::PoolReject(IdKind::Commitment).kind(), ErrorKind::PoolReject);
    assert_eq!(LedgerError::MissingBlock(3).kind(), ErrorKind::StateCorruption);
    assert_eq!(LedgerError::CommitmentNotUnique.kind(), ErrorKind::StateCorruption);
    assert_eq!(LedgerError::TransactionNotUnique.kind(), ErrorKind::StateCorruption);
    assert_eq!(LedgerError::TransitionNotUnique.kind(), ErrorKind::StateCorruption);
    assert_eq!(LedgerError::Corrupt.kind(), ErrorKind::StateCorruption);
}

#[test]
fn errors_carry_a_message() {
    assert_eq!(
        LedgerError::IncorrectPreviousHash.message(),
        "The given block has an incorrect previous block hash"
    );
    assert_eq!(LedgerError::InvalidBlock.message(), "The given block is invalid");
    assert_eq!(LedgerError::UnsupportedOrigin.message(), "State roots are currently not supported (yet)");
    assert_eq!(
        LedgerError::PoolReject(IdKind::TransactionId).message(),
        "The transaction already exists in the memory pool"
    );
    assert_eq!(
        LedgerError::PoolReject(IdKind::Nonce).message(),
        LedgerError::IdExists(IdKind::Nonce).message()
    );
    assert_ne!(
        LedgerError::Finalize(VmError::DoubleSpend).message(),
        LedgerError::Finalize(VmError::ProgramExists).message()
    );
    assert!(!LedgerError::MissingBlock(4).message().is_empty());
}

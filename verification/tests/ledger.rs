use zkledger::block::{Block, Header, Metadata, Signature};
use zkledger::error::{ErrorKind, LedgerError};
use zkledger::field::Field;
use zkledger::ledger::Ledger;
use zkledger::memory_map::MemoryMap;
use zkledger::state_path::{MerklePath, PathWitness};
use zkledger::transaction::{
    IdKind, Origin, ProgramID, Transaction, TransactionKind, Transactions, Transition,
};
use zkledger::vm::VmError;

fn f(n: u128) -> Field {
    Field::new(n, 0)
}

fn sample_signature(n: u128) -> Signature {
    Signature { challenge: f(n), response: f(n + 1), pk_sig: f(n + 2), pr_sig: f(n + 3) }
}

/// A stand-in for the hashing layer: mixes the parts into one element.
fn digest(parts: &[Field]) -> Field {
    let mut lo: u128 = 0x9e37_79b9_7f4a_7c15;
    let mut hi: u128 = 0xc2b2_ae3d_27d4_eb4f;
    for part in parts {
        lo = lo.rotate_left(13) ^ part.lo.wrapping_mul(0x1000_0000_01b3);
        hi = hi.rotate_left(29) ^ part.hi.wrapping_add(lo);
    }
    Field::new(lo, hi)
}

fn block_hash(previous_hash: Field, header: &Header, signature: &Signature) -> Field {
    digest(&[
        previous_hash,
        header.previous_state_root,
        header.transactions_root,
        f(header.metadata.height as u128),
        f(header.metadata.round as u128),
        f(header.metadata.timestamp as u128),
        signature.challenge,
    ])
}

fn state_root(ledger: &Ledger) -> Field {
    digest(ledger.to_block_tree().leaves())
}

fn sample_genesis_block() -> Block {
    let transition = Transition {
        id: f(11),
        tpk: f(12),
        serial_numbers: vec![],
        origins: vec![],
        commitments: vec![f(101), f(102)],
        nonces: vec![f(201), f(202)],
    };
    let transaction =
        Transaction { id: f(10), kind: TransactionKind::Execution, transitions: vec![transition] };
    let transactions = Transactions::new(vec![transaction]);
    let metadata = Metadata::new(3, 0, 0, u64::MAX, u64::MAX, 1_600_000_000);
    let header = Header::from(f(0), digest(&[f(10)]), metadata);
    let signature = sample_signature(900);
    let hash = block_hash(Field::zero(), &header, &signature);
    Block::from(Field::zero(), header, transactions, signature, hash)
}

fn sample_genesis_ledger() -> Ledger {
    // Sample the genesis block.
    let genesis = sample_genesis_block();
    // Initialize the ledger with the genesis block.
    let ledger = Ledger::from_genesis(&genesis, true).unwrap();
    assert_eq!(0, ledger.latest_height());
    assert_eq!(genesis.hash(), ledger.latest_hash());
    assert_eq!(genesis.round(), ledger.latest_round());
    assert_eq!(genesis, ledger.get_block(0).unwrap());
    ledger
}

fn sample_deployment_transaction() -> Transaction {
    let fee = Transition {
        id: f(21),
        tpk: f(22),
        serial_numbers: vec![f(301)],
        origins: vec![Origin::Commitment(f(101))],
        commitments: vec![f(103)],
        nonces: vec![f(203)],
    };
    Transaction {
        id: f(20),
        kind: TransactionKind::Deployment(ProgramID { name: f(7777), network: f(3) }),
        transitions: vec![fee],
    }
}

fn sample_execution_transaction() -> Transaction {
    let transition = Transition {
        id: f(31),
        tpk: f(32),
        serial_numbers: vec![f(302)],
        origins: vec![Origin::Commitment(f(102))],
        commitments: vec![f(104), f(105)],
        nonces: vec![f(204), f(205)],
    };
    Transaction { id: f(30), kind: TransactionKind::Execution, transitions: vec![transition] }
}

fn propose_and_sign(ledger: &Ledger) -> Block {
    let transactions = ledger.memory_pool().transactions();
    let transactions_root = digest(&transactions.ids(IdKind::TransactionId));
    let proposal = ledger.propose_next_block(state_root(ledger), transactions_root).unwrap();
    let signature = sample_signature(950);
    let hash = block_hash(proposal.previous_hash, &proposal.header, &signature);
    proposal.into_block(signature, hash)
}

fn sample_witness(ledger: &Ledger) -> PathWitness {
    let path = |n: u64| MerklePath { leaf_index: n, siblings: vec![f(n as u128), f(1)] };
    PathWitness {
        state_root: state_root(ledger),
        block_path: path(ledger.latest_height() as u64),
        header_root: f(5000),
        header_path: path(1),
        transactions_path: path(0),
        transaction_path: path(0),
        transition_path: path(0),
    }
}

#[test]
fn test_from_genesis() {
    // Load the genesis block.
    let genesis = sample_genesis_block();

    // Initialize a ledger with the genesis block.
    let ledger = Ledger::from_genesis(&genesis, true).unwrap();
    assert_eq!(ledger.latest_hash(), genesis.hash());
    assert_eq!(ledger.latest_height(), genesis.height());
    assert_eq!(ledger.latest_round(), genesis.round());
    assert_eq!(ledger.latest_block().unwrap(), genesis);
}

#[test]
fn test_from_maps() {
    // Load the genesis block.
    let genesis = sample_genesis_block();

    // Initialize a ledger without the genesis block.
    let ledger = Ledger::from_maps(
        MemoryMap::new(),
        MemoryMap::new(),
        MemoryMap::new(),
        MemoryMap::new(),
        &genesis,
        genesis.hash(),
    )
    .unwrap();
    assert_eq!(ledger.latest_hash(), genesis.hash());
    assert_eq!(ledger.latest_height(), genesis.height());
    assert_eq!(ledger.latest_round(), genesis.round());
    assert_eq!(ledger.latest_block().unwrap(), genesis);

    // Initialize the ledger with the genesis block.
    let mut previous_hashes = MemoryMap::new();
    previous_hashes.insert(genesis.height(), genesis.previous_hash());
    let mut headers = MemoryMap::new();
    headers.insert(genesis.height(), *genesis.header());
    let mut transactions = MemoryMap::new();
    transactions.insert(genesis.height(), genesis.transactions().clone());
    let mut signatures = MemoryMap::new();
    signatures.insert(genesis.height(), *genesis.signature());
    let ledger =
        Ledger::from_maps(previous_hashes, headers, transactions, signatures, &genesis, genesis.hash())
            .unwrap();
    assert_eq!(ledger.latest_hash(), genesis.hash());
    assert_eq!(ledger.latest_height(), genesis.height());
    assert_eq!(ledger.latest_round(), genesis.round());
    assert_eq!(ledger.latest_block().unwrap(), genesis);
}

#[test]
fn test_state_path() {
    // Initialize the ledger with the genesis block.
    let ledger = sample_genesis_ledger();
    // Retrieve the genesis block.
    let genesis = ledger.get_block(0).unwrap();

    // Construct the state path.
    let commitments = genesis.commitments();
    let commitment = commitments[0];

    let state_path = ledger.to_state_path(&commitment, sample_witness(&ledger)).unwrap();
    assert_eq!(state_path.state_root, state_root(&ledger));
    assert_eq!(state_path.block_hash, ledger.latest_hash());
    assert_eq!(state_path.previous_block_hash, Field::zero());
    assert_eq!(state_path.transaction_id, f(10));
    assert_eq!(state_path.transition_leaf.id, f(101));
    assert_eq!(state_path.transition_leaf.index, 0);
    assert!(!state_path.transition_leaf.is_input);
    assert_eq!(state_path.transaction_leaf.id, f(11));
    assert_eq!(state_path.header_leaf.index, 1);
    assert_eq!(state_path.header_leaf.id, genesis.header().transactions_root);
}

#[test]
fn test_ledger_deployment() {
    // Sample the genesis ledger.
    let mut ledger = sample_genesis_ledger();

    // Add a transaction to the memory pool.
    let transaction = sample_deployment_transaction();
    ledger.add_to_memory_pool(transaction.clone()).unwrap();

    // Propose the next block.
    let next_block = propose_and_sign(&ledger);

    // Construct a next block.
    ledger.add_next_block(&next_block, true).unwrap();
    assert_eq!(ledger.latest_height(), 1);
    assert_eq!(ledger.latest_hash(), next_block.hash());

    // Ensure that the VM can't re-deploy the same program.
    let mut vm = ledger.vm().clone();
    assert!(vm.finalize(&transaction).is_err());
    assert_eq!(vm.finalize(&transaction), Err(VmError::ProgramExists));
    // Ensure that the ledger cannot add the same transaction.
    assert!(ledger.add_to_memory_pool(transaction).is_err());
}

#[test]
fn test_ledger_execution() {
    // Sample the genesis ledger.
    let mut ledger = sample_genesis_ledger();

    // Add a transaction to the memory pool.
    let transaction = sample_execution_transaction();
    ledger.add_to_memory_pool(transaction.clone()).unwrap();

    // Propose the next block.
    let next_block = propose_and_sign(&ledger);

    // Construct a next block.
    ledger.add_next_block(&next_block, true).unwrap();
    assert_eq!(ledger.latest_height(), 1);
    assert_eq!(ledger.latest_hash(), next_block.hash());

    // Ensure that the ledger cannot add the same transaction.
    assert!(ledger.add_to_memory_pool(transaction).is_err());
}

#[test]
fn proposal_follows_the_tip_and_holds_the_pool_in_order() {
    let mut ledger = sample_genesis_ledger();
    ledger.add_to_memory_pool(sample_execution_transaction()).unwrap();
    ledger.add_to_memory_pool(sample_deployment_transaction()).unwrap();
    let proposal = ledger.propose_next_block_at(f(1), f(2), 1_700_000_000).unwrap();
    assert_eq!(proposal.previous_hash, ledger.latest_hash());
    assert_eq!(proposal.header.previous_state_root, f(1));
    assert_eq!(proposal.header.transactions_root, f(2));
    assert_eq!(proposal.header.metadata, Metadata::new(3, 1, 1, u64::MAX, u64::MAX, 1_700_000_000));
    assert_eq!(proposal.transactions.ids(IdKind::TransactionId), vec![f(30), f(20)]);
    // The pool is left as it was.
    assert_eq!(ledger.memory_pool().len(), 2);
}

#[test]
fn proposal_with_the_wall_clock_differs_in_the_timestamp_only() {
    let ledger = sample_genesis_ledger();
    let proposal = ledger.propose_next_block(f(1), f(2)).unwrap();
    let timestamp = proposal.header.metadata.timestamp;
    assert!(timestamp > 1_600_000_000);
    assert_eq!(proposal, ledger.propose_next_block_at(f(1), f(2), timestamp).unwrap());
}

#[test]
fn targets_are_the_greatest() {
    let genesis = sample_genesis_block();
    assert_eq!(Ledger::compute_coinbase_target(genesis.header(), 5, 1), u64::MAX);
    assert_eq!(Ledger::compute_proof_target(genesis.header(), 5, 1), u64::MAX);
}

#[test]
fn commit_removes_the_block_transactions_from_the_pool_and_keeps_the_order() {
    let mut ledger = sample_genesis_ledger();
    let other = |id: u128| Transaction {
        id: f(id),
        kind: TransactionKind::Execution,
        transitions: vec![Transition {
            id: f(id + 1),
            tpk: f(id + 2),
            serial_numbers: vec![f(id + 3)],
            origins: vec![],
            commitments: vec![f(id + 4)],
            nonces: vec![f(id + 5)],
        }],
    };
    ledger.add_to_memory_pool(other(1000)).unwrap();
    ledger.add_to_memory_pool(sample_execution_transaction()).unwrap();
    ledger.add_to_memory_pool(other(2000)).unwrap();
    ledger.add_to_memory_pool(other(3000)).unwrap();
    assert_eq!(ledger.memory_pool().len(), 4);
    assert_eq!(ledger.memory_pool().get(1).unwrap().id, f(30));
    assert!(ledger.memory_pool().get(4).is_none());

    // A block that holds the second and the third transaction of the pool.
    let transactions = Transactions::new(vec![sample_execution_transaction(), other(2000)]);
    let metadata = Metadata::new(3, 1, 1, u64::MAX, u64::MAX, 1_600_000_100);
    let header = Header::from(state_root(&ledger), f(1), metadata);
    let signature = sample_signature(5);
    let hash = block_hash(ledger.latest_hash(), &header, &signature);
    let block = Block::from(ledger.latest_hash(), header, transactions, signature, hash);
    ledger.add_next_block(&block, true).unwrap();

    assert_eq!(ledger.memory_pool().len(), 2);
    assert_eq!(ledger.memory_pool().transactions().ids(IdKind::TransactionId), vec![f(1000), f(3000)]);
    assert!(ledger.memory_pool().contains(&f(1000)));
    assert!(!ledger.memory_pool().contains(&f(30)));
    assert!(!ledger.memory_pool().contains(&f(2000)));
}

#[test]
fn pool_refuses_what_it_holds_and_what_is_committed() {
    let mut ledger = sample_genesis_ledger();
    let make = |id: u128, tpk: u128, sn: u128, cm: u128, nonce: u128| Transaction {
        id: f(id),
        kind: TransactionKind::Execution,
        transitions: vec![Transition {
            id: f(id + 1),
            tpk: f(tpk),
            serial_numbers: vec![f(sn)],
            origins: vec![],
            commitments: vec![f(cm)],
            nonces: vec![f(nonce)],
        }],
    };
    // Commit a block with a serial number, so that every kind is committed.
    ledger.add_to_memory_pool(sample_execution_transaction()).unwrap();
    let block = propose_and_sign(&ledger);
    ledger.add_next_block(&block, true).unwrap();

    ledger.add_to_memory_pool(make(40, 41, 42, 43, 44)).unwrap();
    let rejected = ledger.add_to_memory_pool(make(40, 51, 52, 53, 54)).unwrap_err();
    assert_eq!(rejected, LedgerError::PoolReject(IdKind::TransactionId));
    assert_eq!(rejected.kind(), ErrorKind::PoolReject);
    assert_eq!(
        ledger.add_to_memory_pool(make(50, 12, 52, 53, 54)),
        Err(LedgerError::PoolReject(IdKind::TransitionPublicKey))
    );
    assert_eq!(
        ledger.add_to_memory_pool(make(50, 51, 302, 53, 54)),
        Err(LedgerError::PoolReject(IdKind::SerialNumber))
    );
    assert_eq!(
        ledger.add_to_memory_pool(make(50, 51, 52, 101, 54)),
        Err(LedgerError::PoolReject(IdKind::Commitment))
    );
    assert_eq!(
        ledger.add_to_memory_pool(make(50, 51, 52, 53, 201)),
        Err(LedgerError::PoolReject(IdKind::Nonce))
    );
    // A committed transaction id is no reason to refuse, and collisions
    // inside the pool beyond the id are tolerated.
    ledger.add_to_memory_pool(make(10, 41, 42, 43, 44)).unwrap();
    assert_eq!(ledger.memory_pool().len(), 2);
    assert_eq!(ledger.memory_pool().transactions().ids(IdKind::TransactionId), vec![f(40), f(10)]);
}

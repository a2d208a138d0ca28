use zkledger::block::{Block, Header, Metadata, Signature};
use zkledger::error::{ErrorKind, LedgerError};
use zkledger::field::Field;
use zkledger::ledger::{Ledger, OutputRecordsFilter, PrivateKey};
use zkledger::memory_map::MemoryMap;
use zkledger::transaction::{
    IdKind, Origin, ProgramID, Transaction, TransactionKind, Transactions, Transition,
};
use zkledger::vm::VmError;

fn f(n: u128) -> Field {
    Field::new(n, 0)
}

fn signature() -> Signature {
    Signature { challenge: f(1), response: f(2), pk_sig: f(3), pr_sig: f(4) }
}

fn transition(base: u128, origins: Vec<Origin>) -> Transition {
    Transition {
        id: f(base + 1),
        tpk: f(base + 2),
        serial_numbers: vec![f(base + 3)],
        origins,
        commitments: vec![f(base + 4), f(base + 5)],
        nonces: vec![f(base + 6)],
    }
}

fn execution(base: u128, origins: Vec<Origin>) -> Transaction {
    Transaction { id: f(base), kind: TransactionKind::Execution, transitions: vec![transition(base, origins)] }
}

fn block(
    hash: u128,
    previous_hash: Field,
    height: u32,
    round: u64,
    timestamp: i64,
    transactions: Vec<Transaction>,
) -> Block {
    let metadata = Metadata::new(3, round, height, u64::MAX, u64::MAX, timestamp);
    let header = Header::from(f(0), f(hash + 1), metadata);
    Block::from(previous_hash, header, Transactions::new(transactions), signature(), f(hash))
}

fn genesis() -> Block {
    block(1000, Field::zero(), 0, 0, 100, vec![execution(10, vec![])])
}

/// Genesis, then blocks at heights 1 and 2 with rounds 1 and 2.
fn chain_of_three() -> (Ledger, Vec<Block>) {
    let first = genesis();
    let second = block(2000, f(1000), 1, 1, 200, vec![execution(20, vec![Origin::Commitment(f(14))])]);
    let third = block(3000, f(2000), 2, 2, 300, vec![execution(30, vec![Origin::Commitment(f(24))])]);
    let mut ledger = Ledger::from_genesis(&first, true).unwrap();
    ledger.add_next_block(&second, true).unwrap();
    ledger.add_next_block(&third, true).unwrap();
    (ledger, vec![first, second, third])
}

fn next(transactions: Vec<Transaction>) -> Block {
    block(4000, f(3000), 3, 3, 400, transactions)
}

#[test]
fn a_valid_next_block_passes_every_check() {
    let (ledger, _) = chain_of_three();
    let candidate = next(vec![execution(40, vec![Origin::Commitment(f(34))])]);
    assert_eq!(ledger.check_next_block(&candidate, true), Ok(()));
}

#[test]
fn checks_fail_in_their_order() {
    let (ledger, _) = chain_of_three();
    let good = vec![execution(40, vec![])];

    // The previous hash comes first, before anything else that is wrong.
    let wrong_parent = block(3000, f(2000), 7, 9, 0, good.clone());
    assert_eq!(ledger.check_next_block(&wrong_parent, false), Err(LedgerError::IncorrectPreviousHash));

    let known_hash = block(2000, f(3000), 7, 9, 0, good.clone());
    assert_eq!(ledger.check_next_block(&known_hash, false), Err(LedgerError::BlockHashExists));

    let wrong_height = block(4000, f(3000), 4, 9, 0, good.clone());
    assert_eq!(ledger.check_next_block(&wrong_height, false), Err(LedgerError::IncorrectHeight));
    let known_height = block(4000, f(3000), 2, 9, 0, good.clone());
    assert_eq!(ledger.check_next_block(&known_height, false), Err(LedgerError::IncorrectHeight));

    let wrong_round = block(4000, f(3000), 3, 2, 0, good.clone());
    assert_eq!(ledger.check_next_block(&wrong_round, false), Err(LedgerError::IncorrectRound));

    let same_time = block(4000, f(3000), 3, 3, 300, good.clone());
    assert_eq!(ledger.check_next_block(&same_time, false), Err(LedgerError::TimestampNotAfterLatest));
    let earlier = block(4000, f(3000), 3, 3, 299, good.clone());
    assert_eq!(ledger.check_next_block(&earlier, false), Err(LedgerError::TimestampNotAfterLatest));

    let mut known = execution(40, vec![]);
    known.id = f(20);
    known.transitions[0].tpk = f(12);
    assert_eq!(
        ledger.check_next_block(&next(vec![known]), false),
        Err(LedgerError::IdExists(IdKind::TransactionId))
    );

    let mut known = execution(40, vec![Origin::StateRoot(f(1))]);
    known.transitions[0].tpk = f(12);
    assert_eq!(
        ledger.check_next_block(&next(vec![known]), false),
        Err(LedgerError::IdExists(IdKind::TransitionPublicKey))
    );

    let mut known = execution(40, vec![Origin::Commitment(f(999))]);
    known.transitions[0].serial_numbers = vec![f(13)];
    assert_eq!(ledger.check_next_block(&next(vec![known]), false), Err(LedgerError::MissingOrigin));

    let mut known = execution(40, vec![]);
    known.transitions[0].serial_numbers = vec![f(41), f(23)];
    known.transitions[0].commitments = vec![f(14)];
    assert_eq!(
        ledger.check_next_block(&next(vec![known]), false),
        Err(LedgerError::IdExists(IdKind::SerialNumber))
    );

    let mut known = execution(40, vec![]);
    known.transitions[0].commitments = vec![f(44), f(35)];
    known.transitions[0].nonces = vec![f(16)];
    assert_eq!(
        ledger.check_next_block(&next(vec![known]), false),
        Err(LedgerError::IdExists(IdKind::Commitment))
    );

    let mut known = execution(40, vec![]);
    known.transitions[0].nonces = vec![f(46), f(26)];
    assert_eq!(
        ledger.check_next_block(&next(vec![known]), false),
        Err(LedgerError::IdExists(IdKind::Nonce))
    );

    assert_eq!(ledger.check_next_block(&next(good.clone()), false), Err(LedgerError::InvalidBlock));
    assert_eq!(ledger.check_next_block(&next(good), true), Ok(()));
}

#[test]
fn the_first_origin_that_cannot_be_admitted_decides() {
    let (ledger, _) = chain_of_three();
    let state_root_first =
        next(vec![execution(40, vec![Origin::Commitment(f(14)), Origin::StateRoot(f(1)), Origin::Commitment(f(999))])]);
    let error = ledger.check_next_block(&state_root_first, true).unwrap_err();
    assert_eq!(error, LedgerError::UnsupportedOrigin);
    assert_eq!(error.kind(), ErrorKind::UnsupportedFeature);

    let missing_first = next(vec![
        execution(40, vec![Origin::Commitment(f(15))]),
        execution(50, vec![Origin::Commitment(f(999)), Origin::StateRoot(f(1))]),
    ]);
    let error = ledger.check_next_block(&missing_first, true).unwrap_err();
    assert_eq!(error, LedgerError::MissingOrigin);
    assert_eq!(error.kind(), ErrorKind::Validation);

    assert_eq!(ledger.first_invalid_origin(&vec![Origin::Commitment(f(14))]), None);
    assert_eq!(
        ledger.first_invalid_origin(&vec![Origin::Commitment(f(14)), Origin::StateRoot(f(7))]),
        Some(Origin::StateRoot(f(7)))
    );
}

#[test]
fn any_height_follows_a_genesis_block_at_height_zero() {
    let mut ledger = Ledger::from_genesis(&genesis(), true).unwrap();
    // The latest height is zero, so the height of the next block is free,
    // and so is its round, the latest round being zero.
    let far = block(2000, f(1000), 5, 0, 200, vec![]);
    assert_eq!(ledger.check_next_block(&far, true), Ok(()));
    // The height zero is taken.
    let again = block(2000, f(1000), 0, 0, 200, vec![]);
    assert_eq!(ledger.check_next_block(&again, true), Err(LedgerError::HeightExists));
    ledger.add_next_block(&far, true).unwrap();
    assert_eq!(ledger.latest_height(), 5);
    assert!(ledger.contains_height(0));
    assert!(ledger.contains_height(5));
    assert!(!ledger.contains_height(1));
    assert_eq!(ledger.get_block(1), Err(LedgerError::MissingBlock(1)));
    // From now on the height follows.
    let six = block(3000, f(2000), 6, 7, 300, vec![]);
    ledger.add_next_block(&six, true).unwrap();
    let eight = block(4000, f(3000), 8, 8, 400, vec![]);
    assert_eq!(ledger.check_next_block(&eight, true), Err(LedgerError::IncorrectHeight));
}

#[test]
fn the_first_block_has_height_zero_and_names_the_zero_hash() {
    let high = block(1000, Field::zero(), 1, 0, 100, vec![]);
    assert_eq!(Ledger::from_genesis(&high, true).err(), Some(LedgerError::MissingBlock(0)));
    let parent = block(1000, f(5), 0, 0, 100, vec![]);
    assert_eq!(Ledger::from_genesis(&parent, true).err(), Some(LedgerError::IncorrectPreviousHash));
    assert_eq!(Ledger::from_genesis(&genesis(), false).err(), Some(LedgerError::InvalidBlock));
    // A genesis block cannot name an origin: nothing is committed before it.
    let origin = block(1000, Field::zero(), 0, 0, 100, vec![execution(10, vec![Origin::Commitment(f(14))])]);
    assert_eq!(Ledger::from_genesis(&origin, true).err(), Some(LedgerError::MissingOrigin));
}

#[test]
fn no_height_and_no_round_follows_the_greatest() {
    let mut ledger = Ledger::from_genesis(&genesis(), true).unwrap();
    let top = block(2000, f(1000), u32::MAX, u64::MAX, 200, vec![]);
    ledger.add_next_block(&top, true).unwrap();
    assert_eq!(ledger.latest_height(), u32::MAX);
    assert_eq!(ledger.latest_round(), u64::MAX);
    let after = block(3000, f(2000), 0, 0, 300, vec![]);
    assert_eq!(ledger.check_next_block(&after, true), Err(LedgerError::IncorrectHeight));
    assert_eq!(ledger.propose_next_block_at(f(1), f(2), 300).err(), Some(LedgerError::Exhausted));
}

#[test]
fn a_refused_block_leaves_the_ledger_as_it_was() {
    let (mut ledger, blocks) = chain_of_three();
    ledger.add_to_memory_pool(execution(40, vec![])).unwrap();

    // The finalizer refuses the second transaction: it spends what the first spends.
    let mut twice = execution(50, vec![]);
    twice.transitions[0].serial_numbers = vec![f(43)];
    let refused = next(vec![execution(40, vec![]), twice]);
    assert_eq!(ledger.check_next_block(&refused, true), Ok(()));
    let error = ledger.add_next_block(&refused, true).unwrap_err();
    assert_eq!(error, LedgerError::Finalize(VmError::DoubleSpend));
    assert_eq!(error.kind(), ErrorKind::Validation);

    assert_eq!(ledger.latest_height(), 2);
    assert_eq!(ledger.latest_round(), 2);
    assert_eq!(ledger.latest_hash(), f(3000));
    assert_eq!(ledger.to_block_tree().leaves(), &vec![f(1000), f(2000), f(3000)]);
    assert_eq!(ledger.latest_block().unwrap(), blocks[2]);
    assert_eq!(ledger.get_block(3), Err(LedgerError::MissingBlock(3)));
    assert_eq!(ledger.memory_pool().len(), 1);
    assert!(ledger.memory_pool().contains(&f(40)));
    assert!(!ledger.vm().contains_serial_number(&f(43)));
    assert!(!ledger.contains_transaction_id(&f(40)));

    // A block that fails a check leaves it as it was, too.
    assert_eq!(ledger.add_next_block(&next(vec![]), false), Err(LedgerError::InvalidBlock));
    assert_eq!(ledger.latest_height(), 2);
    assert_eq!(ledger.previous_hashes().len(), 3);
    assert_eq!(ledger.headers().len(), 3);
    assert_eq!(ledger.transactions().len(), 3);
    assert_eq!(ledger.signatures().len(), 3);
}

#[test]
fn committed_blocks_are_found_again_with_their_hashes() {
    let (ledger, blocks) = chain_of_three();
    for (height, committed) in blocks.iter().enumerate() {
        let found = ledger.get_block(height as u32).unwrap();
        assert_eq!(&found, committed);
        assert_eq!(ledger.get_header(height as u32).unwrap(), *committed.header());
        assert_eq!(ledger.get_previous_hash(height as u32).unwrap(), committed.previous_hash());
        assert_eq!(ledger.get_signature(height as u32).unwrap(), *committed.signature());
        assert_eq!(&ledger.get_transactions(height as u32).unwrap(), committed.transactions());
        assert!(ledger.contains_block_hash(&committed.hash()));
    }
    // The current hash is the hash of the block at the current height.
    assert_eq!(ledger.latest_hash(), ledger.get_block(ledger.latest_height()).unwrap().hash());
    assert_eq!(ledger.to_block_tree().leaves(), &vec![f(1000), f(2000), f(3000)]);
    assert_eq!(ledger.to_block_tree().len(), 3);
    assert!(!ledger.contains_block_hash(&f(4000)));
    assert_eq!(ledger.get_header(9), Err(LedgerError::MissingBlock(9)));
    assert_eq!(ledger.get_block(9).unwrap_err().kind(), ErrorKind::StateCorruption);
}

#[test]
fn later_blocks_are_higher_and_younger() {
    let (ledger, _) = chain_of_three();
    for lower in 0..3u32 {
        for higher in (lower + 1)..3u32 {
            let a = ledger.get_header(lower).unwrap();
            let b = ledger.get_header(higher).unwrap();
            assert!(a.timestamp() < b.timestamp());
            assert!(a.round() <= b.round());
            if a.round() > 0 {
                assert!(a.round() < b.round());
            }
        }
    }
}

#[test]
fn committed_identifiers_are_in_the_indices() {
    let (ledger, _) = chain_of_three();
    for base in [10u128, 20, 30] {
        assert!(ledger.contains_transaction_id(&f(base)));
        assert!(ledger.contains_transition_public_key(&f(base + 2)));
        assert!(ledger.contains_serial_number(&f(base + 3)));
        assert!(ledger.contains_commitment(&f(base + 4)));
        assert!(ledger.contains_commitment(&f(base + 5)));
        assert!(ledger.contains_nonce(&f(base + 6)));
        // An identifier of one kind is not one of another kind.
        assert!(!ledger.contains_commitment(&f(base + 3)));
        assert!(!ledger.contains_id(IdKind::Nonce, &f(base)));
    }
    assert!(!ledger.contains_transaction_id(&f(40)));
    assert!(ledger.contains_any(IdKind::Commitment, &vec![f(1), f(25)]));
    assert!(!ledger.contains_any(IdKind::Commitment, &vec![f(1), f(2)]));
    assert!(ledger.vm().contains_serial_number(&f(23)));
}

#[test]
fn no_identifier_is_committed_twice() {
    let (ledger, blocks) = chain_of_three();
    for kind in [
        IdKind::TransactionId,
        IdKind::TransitionPublicKey,
        IdKind::SerialNumber,
        IdKind::Commitment,
        IdKind::Nonce,
    ] {
        let mut committed: Vec<Field> = Vec::new();
        for block in &blocks {
            committed.extend(block.ids(kind));
        }
        assert!(!committed.is_empty());
        for (at, id) in committed.iter().enumerate() {
            assert!(ledger.contains_id(kind, id));
            assert!(!committed[..at].contains(id));
        }
    }
}

fn dump(ledger: &Ledger) -> (MemoryMap<Field>, MemoryMap<Header>, MemoryMap<Transactions>, MemoryMap<Signature>) {
    let mut previous_hashes = MemoryMap::new();
    let mut headers = MemoryMap::new();
    let mut transactions = MemoryMap::new();
    let mut signatures = MemoryMap::new();
    for at in 0..ledger.previous_hashes().len() {
        let height = ledger.previous_hashes().key_at(at);
        previous_hashes.insert(height, *ledger.previous_hashes().value_at(at));
        headers.insert(ledger.headers().key_at(at), *ledger.headers().value_at(at));
        transactions.insert(ledger.transactions().key_at(at), ledger.transactions().value_at(at).clone());
        signatures.insert(ledger.signatures().key_at(at), *ledger.signatures().value_at(at));
    }
    (previous_hashes, headers, transactions, signatures)
}

#[test]
fn replaying_the_maps_gives_the_same_ledger() {
    let (mut ledger, blocks) = chain_of_three();
    ledger.add_to_memory_pool(execution(40, vec![])).unwrap();
    let (p, h, t, s) = dump(&ledger);
    let replayed = Ledger::from_maps(p, h, t, s, &genesis(), ledger.latest_hash()).unwrap();
    assert_eq!(replayed.latest_hash(), ledger.latest_hash());
    assert_eq!(replayed.latest_height(), ledger.latest_height());
    assert_eq!(replayed.latest_round(), ledger.latest_round());
    assert_eq!(replayed.to_block_tree(), ledger.to_block_tree());
    assert_eq!(replayed.vm(), ledger.vm());
    for (height, committed) in blocks.iter().enumerate() {
        assert_eq!(&replayed.get_block(height as u32).unwrap(), committed);
    }
    // The pool is not part of the maps.
    assert_eq!(replayed.memory_pool().len(), 0);
    // The replayed ledger goes on as the other does.
    let candidate = next(vec![execution(40, vec![Origin::Commitment(f(34))])]);
    assert_eq!(replayed.check_next_block(&candidate, true), Ok(()));
}

#[test]
fn replay_refuses_maps_that_hold_no_chain() {
    let (ledger, _) = chain_of_three();

    // A height is missing at the top of another map.
    let (p, mut h, t, s) = dump(&ledger);
    h.remove(2);
    assert_eq!(
        Ledger::from_maps(p, h, t, s, &genesis(), f(3000)).err(),
        Some(LedgerError::MissingBlock(2))
    );

    // A height is missing below the top.
    let (mut p, mut h, mut t, mut s) = dump(&ledger);
    p.remove(1);
    h.remove(1);
    t.remove(1);
    s.remove(1);
    assert_eq!(
        Ledger::from_maps(p, h, t, s, &genesis(), f(3000)).err(),
        Some(LedgerError::MissingBlock(1))
    );

    // The maps do not bind the same heights.
    let (p, h, t, mut s) = dump(&ledger);
    s.remove(0);
    let error = Ledger::from_maps(p, h, t, s, &genesis(), f(3000)).err().unwrap();
    assert_eq!(error, LedgerError::Corrupt);
    assert_eq!(error.kind(), ErrorKind::StateCorruption);

    // A header stands at a height that is not its own.
    let (p, mut h, t, s) = dump(&ledger);
    let misplaced = *h.value_at(1);
    h.insert(2, misplaced);
    assert_eq!(Ledger::from_maps(p, h, t, s, &genesis(), f(3000)).err(), Some(LedgerError::Corrupt));

    // The blocks are not in the order of their timestamps.
    let (p, mut h, t, s) = dump(&ledger);
    let mut late = *h.value_at(1);
    late.metadata.timestamp = 300;
    h.insert(1, late);
    assert_eq!(Ledger::from_maps(p, h, t, s, &genesis(), f(3000)).err(), Some(LedgerError::Corrupt));

    // The finalizer refuses a transaction.
    let (p, h, mut t, s) = dump(&ledger);
    t.insert(2, Transactions::new(vec![execution(20, vec![])]));
    assert_eq!(
        Ledger::from_maps(p, h, t, s, &genesis(), f(3000)).err(),
        Some(LedgerError::Finalize(VmError::DoubleSpend))
    );

    // Previous hashes are missing altogether, though the rest is there.
    let (_, h, t, s) = dump(&ledger);
    assert_eq!(
        Ledger::from_maps(MemoryMap::new(), h, t, s, &genesis(), f(3000)).err(),
        Some(LedgerError::Corrupt)
    );

    // With empty maps the genesis block must have height zero.
    let high = block(1000, Field::zero(), 4, 0, 100, vec![]);
    assert_eq!(
        Ledger::from_maps(MemoryMap::new(), MemoryMap::new(), MemoryMap::new(), MemoryMap::new(), &high, f(1))
            .err(),
        Some(LedgerError::MissingBlock(0))
    );
}

#[test]
fn the_latest_parts_are_those_at_the_greatest_height() {
    let (ledger, blocks) = chain_of_three();
    let (p, h, _, s) = dump(&ledger);
    assert_eq!(
        Ledger::latest_parts(&p, &h, &s),
        Some((f(2000), *blocks[2].header(), *blocks[2].signature()))
    );
    let (p, mut h, _, s) = dump(&ledger);
    h.remove(2);
    assert_eq!(Ledger::latest_parts(&p, &h, &s), None);
    assert_eq!(Ledger::latest_parts(&MemoryMap::new(), &h, &s), None);
}

#[test]
fn empty_maps_give_the_ledger_of_the_genesis_block() {
    let first = genesis();
    let from_maps = Ledger::from_maps(
        MemoryMap::new(),
        MemoryMap::new(),
        MemoryMap::new(),
        MemoryMap::new(),
        &first,
        f(77),
    )
    .unwrap();
    let from_genesis = Ledger::from_genesis(&first, true).unwrap();
    assert_eq!(from_maps.latest_hash(), from_genesis.latest_hash());
    assert_eq!(from_maps.latest_height(), from_genesis.latest_height());
    assert_eq!(from_maps.latest_round(), from_genesis.latest_round());
    assert_eq!(from_maps.get_block(0), from_genesis.get_block(0));
    assert_eq!(from_maps.to_block_tree(), from_genesis.to_block_tree());
    assert_eq!(from_maps.vm(), from_genesis.vm());
    assert_eq!(from_maps.to_block_tree().leaves(), &vec![f(1000)]);
}

#[test]
fn a_deployment_is_committed_once() {
    let mut ledger = Ledger::from_genesis(&genesis(), true).unwrap();
    let program = ProgramID { name: f(500), network: f(3) };
    let deploy = |id: u128| Transaction {
        id: f(id),
        kind: TransactionKind::Deployment(program),
        transitions: vec![transition(id, vec![])],
    };
    let first = block(2000, f(1000), 1, 1, 200, vec![deploy(60)]);
    ledger.add_next_block(&first, true).unwrap();
    assert!(ledger.vm().contains_program(&program));
    let second = block(3000, f(2000), 2, 2, 300, vec![deploy(70)]);
    assert_eq!(ledger.check_next_block(&second, true), Ok(()));
    assert_eq!(ledger.add_next_block(&second, true), Err(LedgerError::Finalize(VmError::ProgramExists)));
    assert_eq!(ledger.latest_height(), 1);
}

#[test]
fn filters_let_records_through_by_whether_they_are_spent() {
    let key = PrivateKey { seed: f(9) };
    assert!(OutputRecordsFilter::All.lets_through(true));
    assert!(OutputRecordsFilter::All.lets_through(false));
    assert!(OutputRecordsFilter::Spent(key).lets_through(true));
    assert!(!OutputRecordsFilter::Spent(key).lets_through(false));
    assert!(!OutputRecordsFilter::Unspent(key).lets_through(true));
    assert!(OutputRecordsFilter::Unspent(key).lets_through(false));
}

//! The ledger: the chain of committed blocks, kept in four maps from heights,
//! with its tip, the block tree, the pool and the finalizer.

use vstd::prelude::*;
use crate::block::{Block, BlockView, Header, Metadata, Proposal, Signature};
use crate::clock::unix_timestamp_now;
use crate::block_tree::{BlockTree, BLOCKS_CAPACITY};
use crate::error::LedgerError;
use crate::field::Field;
use crate::memory_map::{has_key, lemma_insert_above, lemma_rank_finds, position, MemoryMap};
use crate::memory_pool::MemoryPool;
use crate::model::{
    aligned, chain, first_gap, first_invalid_origin, hashes, in_order, invalid_origin,
    lemma_add_next_block_wf, lemma_add_to_memory_pool_wf, lemma_from_maps_wf,
    lemma_next_block_is_above, lemma_replay_blocks_fails_on, replay_blocks, shares, LedgerView,
};
use crate::transaction::{
    all_ids, lemma_all_ids_step, IdKind, Identified, Origin, Transaction, TransactionView,
    Transactions,
};
use crate::vm::{VmError, VmView, VM};

verus! {

/// The entries of the transactions map as mathematical values.
pub open spec fn entry_views(entries: Seq<(u32, Transactions)>) -> Seq<(u32, Seq<TransactionView>)> {
    Seq::new(entries.len(), |i: int| (entries[i].0, entries[i].1@))
}

/// The private key of an account.
#[derive(Clone, Copy, Debug, PartialEq, Eq, Structural)]
pub struct PrivateKey {
    pub seed: Field,
}

/// Which output records of an account are asked for.
#[derive(Clone, Copy, Debug, PartialEq, Eq, Structural)]
pub enum OutputRecordsFilter {
    /// Returns all output records associated with the account.
    All,
    /// Returns only output records associated with the account that are **spent**.
    Spent(PrivateKey),
    /// Returns only output records associated with the account that are **not spent**.
    Unspent(PrivateKey),
}

impl OutputRecordsFilter {
    /// Whether the filter lets a record through, given whether the record is spent.
    pub open spec fn admits(self, spent: bool) -> bool {
        match self {
            OutputRecordsFilter::All => true,
            OutputRecordsFilter::Spent(_) => spent,
            OutputRecordsFilter::Unspent(_) => !spent,
        }
    }

    /// Decides whether the filter lets a record through. `spent` says whether
    /// the serial number of the record under the key is committed.
    pub fn lets_through(&self, spent: bool) -> (through: bool)
        ensures
            through == self.admits(spent),
    {
        match self {
            OutputRecordsFilter::All => true,
            OutputRecordsFilter::Spent(_) => spent,
            OutputRecordsFilter::Unspent(_) => !spent,
        }
    }
}

/// The ledger.
pub struct Ledger {
    /// The current block hash.
    current_hash: Field,
    /// The current block height.
    current_height: u32,
    /// The current round number.
    current_round: u64,
    /// The current block tree.
    block_tree: BlockTree,
    /// The map of previous block hashes.
    previous_hashes: MemoryMap<Field>,
    /// The map of block headers.
    headers: MemoryMap<Header>,
    /// The map of block transactions.
    transactions: MemoryMap<Transactions>,
    /// The map of block signatures.
    signatures: MemoryMap<Signature>,
    /// The memory pool of unconfirmed transactions.
    memory_pool: MemoryPool,
    /// The VM state.
    vm: VM,
}

impl View for Ledger {
    type V = LedgerView;

    closed spec fn view(&self) -> LedgerView {
        LedgerView {
            current_hash: self.current_hash,
            current_height: self.current_height,
            current_round: self.current_round,
            block_tree: self.block_tree@,
            blocks: chain(
                self.previous_hashes.entries(),
                self.headers.entries(),
                entry_views(self.transactions.entries()),
                self.signatures.entries(),
                self.current_hash,
            ),
            memory_pool: self.memory_pool@,
            vm: self.vm@,
        }
    }
}

impl Ledger {
    /// The four maps hold the same heights in order, each header at its own
    /// height, and the ledger that they hold is well formed.
    pub closed spec fn wf(&self) -> bool {
        &&& self.previous_hashes.wf()
        &&& self.headers.wf()
        &&& self.transactions.wf()
        &&& self.signatures.wf()
        &&& aligned(
            self.previous_hashes.entries(),
            self.headers.entries(),
            entry_views(self.transactions.entries()),
            self.signatures.entries(),
        )
        &&& self.block_tree.wf()
        &&& self.memory_pool.wf()
        &&& self@.wf()
    }

    /// A well-formed ledger holds a well-formed value.
    pub proof fn lemma_wf(&self)
        requires
            self.wf(),
        ensures
            self@.wf(),
    {
    }

    /// The maps bind a height exactly when a block is committed at it, and
    /// bind it at the block's position in the chain.
    proof fn lemma_heights(&self, height: u32)
        requires
            self.wf(),
        ensures
            has_key(self.previous_hashes.entries(), height) == self@.has_height(height),
            has_key(self.headers.entries(), height) == self@.has_height(height),
            has_key(self.transactions.entries(), height) == self@.has_height(height),
            has_key(self.signatures.entries(), height) == self@.has_height(height),
            self@.has_height(height) ==> {
                &&& position(self.previous_hashes.entries(), height) == self@.index_of_height(height)
                &&& position(self.headers.entries(), height) == self@.index_of_height(height)
                &&& position(self.transactions.entries(), height) == self@.index_of_height(height)
                &&& position(self.signatures.entries(), height) == self@.index_of_height(height)
            },
    {
        let blocks = self@.blocks;
        let p = self.previous_hashes.entries();
        let h = self.headers.entries();
        let t = self.transactions.entries();
        let s = self.signatures.entries();
        let tv = entry_views(t);
        assert forall|i: int| 0 <= i < blocks.len() implies (#[trigger] blocks[i]).height() == p[i].0
            && p[i].0 == h[i].0 && p[i].0 == t[i].0 && p[i].0 == s[i].0 by {
            assert(tv[i].0 == h[i].1.metadata.height);
        }
        if self@.has_height(height) {
            let at = self@.index_of_height(height);
            assert(blocks[at].height() == p[at].0);
            lemma_rank_finds(p, height, at);
            lemma_rank_finds(h, height, at);
            lemma_rank_finds(t, height, at);
            lemma_rank_finds(s, height, at);
        }
        if has_key(p, height) {
            let at = position(p, height);
            assert(blocks[at].height() == height);
        }
        if has_key(h, height) {
            let at = position(h, height);
            assert(blocks[at].height() == height);
        }
        if has_key(t, height) {
            let at = position(t, height);
            assert(blocks[at].height() == height);
        }
        if has_key(s, height) {
            let at = position(s, height);
            assert(blocks[at].height() == height);
        }
    }

    /// The ledger before the genesis block.
    fn empty() -> (ledger: Ledger)
        ensures
            ledger.wf(),
            ledger@ == LedgerView::empty(),
    {
        let ledger = Ledger {
            current_hash: Field::zero(),
            current_height: 0,
            current_round: 0,
            block_tree: BlockTree::new(),
            previous_hashes: MemoryMap::new(),
            headers: MemoryMap::new(),
            transactions: MemoryMap::new(),
            signatures: MemoryMap::new(),
            memory_pool: MemoryPool::new(),
            vm: VM::new(),
        };
        assert(ledger@.blocks =~= Seq::<BlockView>::empty());
        assert(hashes(ledger@.blocks) =~= Seq::<Field>::empty());
        ledger
    }

    /// Initializes a new instance of `Ledger` with the given genesis block.
    /// `verified` says whether the genesis block passed verification.
    pub fn from_genesis(genesis: &Block, verified: bool) -> (result: Result<Ledger, LedgerError>)
        ensures
            match LedgerView::empty().add_next_block(genesis@, verified) {
                Ok(next) => result matches Ok(ledger) && ledger@ == next && ledger.wf(),
                Err(e) => result matches Err(error) && error == e,
            },
    {
        let mut ledger = Ledger::empty();
        match ledger.add_next_block(genesis, verified) {
            Ok(()) => Ok(ledger),
            Err(e) => Err(e),
        }
    }

    /// Returns the VM.
    pub fn vm(&self) -> (vm: &VM)
        ensures
            vm@ == self@.vm,
    {
        &self.vm
    }

    /// Returns the block tree.
    pub fn to_block_tree(&self) -> (tree: &BlockTree)
        ensures
            tree@ == self@.block_tree,
    {
        &self.block_tree
    }

    /// Returns the memory pool.
    pub fn memory_pool(&self) -> (pool: &MemoryPool)
        ensures
            pool@ == self@.memory_pool,
    {
        &self.memory_pool
    }

    /// Returns the latest block hash.
    pub fn latest_hash(&self) -> (hash: Field)
        ensures
            hash == self@.current_hash,
    {
        self.current_hash
    }

    /// Returns the latest block height.
    pub fn latest_height(&self) -> (height: u32)
        ensures
            height == self@.current_height,
    {
        self.current_height
    }

    /// Returns the latest round number.
    pub fn latest_round(&self) -> (round: u64)
        ensures
            round == self@.current_round,
    {
        self.current_round
    }

    /// Returns the block at the given height.
    pub fn get_block(&self, height: u32) -> (result: Result<Block, LedgerError>)
        requires
            self.wf(),
        ensures
            match self@.block_at(height) {
                Some(block) => result matches Ok(found) && found@ == block,
                None => result matches Err(e) && e == LedgerError::MissingBlock(height),
            },
    {
        proof {
            self.lemma_heights(height);
        }
        match self.previous_hashes.index_of(height) {
            None => Err(LedgerError::MissingBlock(height)),
            Some(at) => {
                let n = self.previous_hashes.len();
                let block_hash = if at + 1 < n {
                    *self.previous_hashes.value_at(at + 1)
                } else {
                    self.current_hash
                };
                assert(entry_views(self.transactions.entries())[at as int].1
                    == self.transactions.entries()[at as int].1@);
                Ok(
                    Block {
                        block_hash,
                        previous_hash: *self.previous_hashes.value_at(at),
                        header: *self.headers.value_at(at),
                        transactions: self.transactions.value_at(at).clone(),
                        signature: *self.signatures.value_at(at),
                    },
                )
            },
        }
    }

    /// Returns the latest block.
    pub fn latest_block(&self) -> (result: Result<Block, LedgerError>)
        requires
            self.wf(),
        ensures
            match self@.block_at(self@.current_height) {
                Some(block) => result matches Ok(found) && found@ == block,
                None => result matches Err(e) && e == LedgerError::MissingBlock(self@.current_height),
            },
    {
        self.get_block(self.current_height)
    }

    /// Returns the header of the block at the given height.
    pub fn get_header(&self, height: u32) -> (result: Result<Header, LedgerError>)
        requires
            self.wf(),
        ensures
            match self@.block_at(height) {
                Some(block) => result == Ok::<Header, LedgerError>(block.header),
                None => result == Err::<Header, LedgerError>(LedgerError::MissingBlock(height)),
            },
    {
        proof {
            self.lemma_heights(height);
        }
        match self.headers.get(height) {
            Some(header) => Ok(*header),
            None => Err(LedgerError::MissingBlock(height)),
        }
    }

    /// Returns the hash of the parent of the block at the given height.
    pub fn get_previous_hash(&self, height: u32) -> (result: Result<Field, LedgerError>)
        requires
            self.wf(),
        ensures
            match self@.block_at(height) {
                Some(block) => result == Ok::<Field, LedgerError>(block.previous_hash),
                None => result == Err::<Field, LedgerError>(LedgerError::MissingBlock(height)),
            },
    {
        proof {
            self.lemma_heights(height);
        }
        match self.previous_hashes.get(height) {
            Some(hash) => Ok(*hash),
            None => Err(LedgerError::MissingBlock(height)),
        }
    }

    /// Returns the transactions of the block at the given height.
    pub fn get_transactions(&self, height: u32) -> (result: Result<Transactions, LedgerError>)
        requires
            self.wf(),
        ensures
            match self@.block_at(height) {
                Some(block) => result matches Ok(found) && found@ == block.transactions,
                None => result matches Err(e) && e == LedgerError::MissingBlock(height),
            },
    {
        proof {
            self.lemma_heights(height);
        }
        match self.transactions.index_of(height) {
            Some(at) => {
                assert(entry_views(self.transactions.entries())[at as int].1
                    == self.transactions.entries()[at as int].1@);
                Ok(self.transactions.value_at(at).clone())
            },
            None => Err(LedgerError::MissingBlock(height)),
        }
    }

    /// Returns the signature of the block at the given height.
    pub fn get_signature(&self, height: u32) -> (result: Result<Signature, LedgerError>)
        requires
            self.wf(),
        ensures
            match self@.block_at(height) {
                Some(block) => result == Ok::<Signature, LedgerError>(block.signature),
                None => result == Err::<Signature, LedgerError>(LedgerError::MissingBlock(height)),
            },
    {
        proof {
            self.lemma_heights(height);
        }
        match self.signatures.get(height) {
            Some(signature) => Ok(*signature),
            None => Err(LedgerError::MissingBlock(height)),
        }
    }

    /// Returns `true` if a committed block has the given hash.
    pub fn contains_block_hash(&self, block_hash: &Field) -> (found: bool)
        ensures
            found == self@.has_block_hash(*block_hash),
    {
        self.block_tree.contains(block_hash)
    }

    /// Returns `true` if a block is committed at the given height.
    pub fn contains_height(&self, height: u32) -> (found: bool)
        requires
            self.wf(),
        ensures
            found == self@.has_height(height),
    {
        proof {
            self.lemma_heights(height);
        }
        self.previous_hashes.contains_key(height)
    }

    /// Returns `true` if the identifier of the given kind is committed.
    pub fn contains_id(&self, kind: IdKind, id: &Field) -> (found: bool)
        requires
            self.wf(),
        ensures
            found == self@.ids(kind).contains(*id),
    {
        let ghost blocks = self@.blocks;
        let n = self.transactions.len();
        let mut i: usize = 0;
        while i < n
            invariant
                self.wf(),
                blocks == self@.blocks,
                n == blocks.len(),
                n == self.transactions.entries().len(),
                i <= n,
                !all_ids(blocks.take(i as int), kind).contains(*id),
            decreases n - i,
        {
            let held = self.transactions.value_at(i).contains_id(kind, id);
            proof {
                lemma_all_ids_step(blocks, i as int, kind);
                assert(entry_views(self.transactions.entries())[i as int].1
                    == self.transactions.entries()[i as int].1@);
                assert(blocks[i as int].ids(kind) == all_ids(
                    self.transactions.entries()[i as int].1@,
                    kind,
                ));
                let before = all_ids(blocks.take(i as int), kind);
                let here = blocks[i as int].ids(kind);
                if held {
                    let k = choose|k: int| 0 <= k < here.len() && here[k] == *id;
                    assert((before + here)[before.len() + k] == *id);
                    crate::transaction::lemma_all_ids_contains(blocks, kind, *id);
                    crate::transaction::lemma_all_ids_contains(blocks.take(i + 1), kind, *id);
                    let w = choose|w: int|
                        0 <= w < blocks.take(i + 1).len() && (#[trigger] blocks.take(i + 1)[w]).ids(
                            kind,
                        ).contains(*id);
                    assert(blocks[w].ids(kind).contains(*id));
                } else {
                    if (before + here).contains(*id) {
                        let k = choose|k: int| 0 <= k < (before + here).len() && (before + here)[k] == *id;
                        if k < before.len() {
                            assert(before[k] == *id);
                        } else {
                            assert(here[k - before.len()] == *id);
                        }
                    }
                }
            }
            if held {
                return true;
            }
            i += 1;
        }
        assert(blocks.take(i as int) == blocks);
        false
    }

    /// Returns `true` if the given transaction id is committed.
    pub fn contains_transaction_id(&self, transaction_id: &Field) -> (found: bool)
        requires
            self.wf(),
        ensures
            found == self@.ids(IdKind::TransactionId).contains(*transaction_id),
    {
        self.contains_id(IdKind::TransactionId, transaction_id)
    }

    /// Returns `true` if the given transition public key is committed.
    pub fn contains_transition_public_key(&self, tpk: &Field) -> (found: bool)
        requires
            self.wf(),
        ensures
            found == self@.ids(IdKind::TransitionPublicKey).contains(*tpk),
    {
        self.contains_id(IdKind::TransitionPublicKey, tpk)
    }

    /// Returns `true` if the given serial number is committed.
    pub fn contains_serial_number(&self, serial_number: &Field) -> (found: bool)
        requires
            self.wf(),
        ensures
            found == self@.ids(IdKind::SerialNumber).contains(*serial_number),
    {
        self.contains_id(IdKind::SerialNumber, serial_number)
    }

    /// Returns `true` if the given commitment is committed.
    pub fn contains_commitment(&self, commitment: &Field) -> (found: bool)
        requires
            self.wf(),
        ensures
            found == self@.ids(IdKind::Commitment).contains(*commitment),
    {
        self.contains_id(IdKind::Commitment, commitment)
    }

    /// Returns `true` if the given nonce is committed.
    pub fn contains_nonce(&self, nonce: &Field) -> (found: bool)
        requires
            self.wf(),
        ensures
            found == self@.ids(IdKind::Nonce).contains(*nonce),
    {
        self.contains_id(IdKind::Nonce, nonce)
    }

    /// Returns `true` if one of the given identifiers is committed as an
    /// identifier of the given kind.
    pub fn contains_any(&self, kind: IdKind, ids: &Vec<Field>) -> (found: bool)
        requires
            self.wf(),
        ensures
            found == shares(ids@, self@.ids(kind)),
    {
        let mut i: usize = 0;
        while i < ids.len()
            invariant
                self.wf(),
                i <= ids@.len(),
                forall|k: int| 0 <= k < i ==> !self@.ids(kind).contains(#[trigger] ids@[k]),
            decreases ids@.len() - i,
        {
            if self.contains_id(kind, &ids[i]) {
                return true;
            }
            i += 1;
        }
        false
    }

    /// Returns the first of the given origins that cannot be admitted: one
    /// that names a commitment that is not committed, or a state root.
    pub fn first_invalid_origin(&self, origins: &Vec<Origin>) -> (invalid: Option<Origin>)
        requires
            self.wf(),
        ensures
            invalid == first_invalid_origin(origins@, self@.ids(IdKind::Commitment)),
    {
        let ghost committed = self@.ids(IdKind::Commitment);
        let mut i: usize = 0;
        assert(origins@.skip(0) == origins@);
        while i < origins.len()
            invariant
                self.wf(),
                committed == self@.ids(IdKind::Commitment),
                i <= origins@.len(),
                first_invalid_origin(origins@, committed) == first_invalid_origin(
                    origins@.skip(i as int),
                    committed,
                ),
            decreases origins@.len() - i,
        {
            let origin = origins[i];
            let invalid = match origin {
                Origin::Commitment(commitment) => !self.contains_commitment(&commitment),
                Origin::StateRoot(_) => true,
            };
            proof {
                assert(origins@.skip(i as int)[0] == origin);
                assert(origins@.skip(i as int).drop_first() == origins@.skip(i + 1));
                assert(invalid == invalid_origin(origin, committed));
            }
            if invalid {
                return Some(origin);
            }
            i += 1;
        }
        None
    }

    /// Checks the given block is valid next block. `verified` says whether
    /// the block passed verification against the finalizer.
    pub fn check_next_block(&self, block: &Block, verified: bool) -> (result: Result<(), LedgerError>)
        requires
            self.wf(),
        ensures
            result == self@.check_next_block(block@, verified),
    {
        // Ensure the previous block hash is correct.
        if self.current_hash != block.previous_hash() {
            return Err(LedgerError::IncorrectPreviousHash);
        }
        // Ensure the block hash does not already exist.
        if self.contains_block_hash(&block.hash()) {
            return Err(LedgerError::BlockHashExists);
        }
        // Ensure the next block height is correct.
        if self.current_height > 0 && (self.current_height == u32::MAX || self.current_height + 1
            != block.height()) {
            return Err(LedgerError::IncorrectHeight);
        }
        // Ensure the block height does not already exist.
        if self.contains_height(block.height()) {
            return Err(LedgerError::HeightExists);
        }
        // Ensure the next round is correct.
        if self.current_round > 0 && (self.current_round == u64::MAX || self.current_round + 1
            != block.round()) {
            return Err(LedgerError::IncorrectRound);
        }
        // Ensure the next block timestamp is after the current block timestamp.
        if block.height() > 0 {
            match self.get_header(self.current_height) {
                Err(e) => {
                    return Err(e);
                },
                Ok(latest) => {
                    if block.timestamp() <= latest.timestamp() {
                        return Err(LedgerError::TimestampNotAfterLatest);
                    }
                },
            }
        }
        // Ensure the transactions in the block do not already exist.
        if self.contains_any(IdKind::TransactionId, &block.transaction_ids()) {
            return Err(LedgerError::IdExists(IdKind::TransactionId));
        }
        // Ensure the ledger does not already contain a given transition public key.
        if self.contains_any(IdKind::TransitionPublicKey, &block.transition_public_keys()) {
            return Err(LedgerError::IdExists(IdKind::TransitionPublicKey));
        }
        // Ensure that the origins are valid.
        match self.first_invalid_origin(&block.origins()) {
            Some(Origin::Commitment(_)) => {
                return Err(LedgerError::MissingOrigin);
            },
            Some(Origin::StateRoot(_)) => {
                return Err(LedgerError::UnsupportedOrigin);
            },
            None => {},
        }
        // Ensure the ledger does not already contain a given serial number.
        if self.contains_any(IdKind::SerialNumber, &block.serial_numbers()) {
            return Err(LedgerError::IdExists(IdKind::SerialNumber));
        }
        // Ensure the ledger does not already contain a given commitment.
        if self.contains_any(IdKind::Commitment, &block.commitments()) {
            return Err(LedgerError::IdExists(IdKind::Commitment));
        }
        // Ensure the ledger does not already contain a given nonce.
        if self.contains_any(IdKind::Nonce, &block.nonces()) {
            return Err(LedgerError::IdExists(IdKind::Nonce));
        }
        // Ensure the block is valid.
        if !verified {
            return Err(LedgerError::InvalidBlock);
        }
        Ok(())
    }

    /// Adds the given block as the next block in the chain. Either the block
    /// is committed in full, or the ledger stays as it was.
    pub fn add_next_block(&mut self, block: &Block, verified: bool) -> (result: Result<
        (),
        LedgerError,
    >)
        requires
            old(self).wf(),
        ensures
            final(self).wf(),
            match old(self)@.add_next_block(block@, verified) {
                Ok(next) => result is Ok && final(self)@ == next,
                Err(e) => result == Err::<(), LedgerError>(e) && final(self)@ == old(self)@,
            },
    {
        // Ensure the given block is a valid next block.
        if let Err(e) = self.check_next_block(block, verified) {
            return Err(e);
        }
        // Finalize the transactions on a copy of the finalizer.
        let mut vm = self.vm.clone();
        if let Err(e) = vm.finalize_all(block.transactions()) {
            return Err(LedgerError::Finalize(e));
        }
        let ghost before = self@;
        let ghost after = before.add_next_block(block@, verified)->Ok_0;
        let ghost p = self.previous_hashes.entries();
        let ghost h = self.headers.entries();
        let ghost t = self.transactions.entries();
        let ghost s = self.signatures.entries();
        let height = block.height();
        let transactions = block.transactions().clone();
        proof {
            lemma_next_block_is_above(before, block@, verified);
            lemma_add_next_block_wf(before, block@, verified);
            let next = before.blocks.push(block@);
            assert forall|i: int|
                #![trigger p[i]]
                #![trigger h[i]]
                #![trigger t[i]]
                #![trigger s[i]]
                0 <= i < p.len() implies p[i].0 < height && h[i].0 < height && t[i].0 < height
                && s[i].0 < height by {
                assert(entry_views(t)[i].0 == h[i].1.metadata.height);
                assert(before.blocks[i].height() == h[i].1.metadata.height);
                assert(next[i].height() < next[p.len() as int].height());
            }
            lemma_insert_above(p, height, block.previous_hash);
            lemma_insert_above(h, height, block.header);
            lemma_insert_above(t, height, transactions);
            lemma_insert_above(s, height, block.signature);
            assert(next.len() <= 0x1_0000_0000) by {
                lemma_heights_bound(next, next.len() - 1);
            }
        }
        // Update the blocks.
        self.current_hash = block.hash();
        self.current_height = height;
        self.current_round = block.round();
        self.block_tree.append(block.hash());
        self.previous_hashes.insert(height, block.previous_hash());
        self.headers.insert(height, *block.header());
        self.transactions.insert(height, transactions);
        self.signatures.insert(height, *block.signature());
        // Update the VM.
        self.vm = vm;
        // Clear the memory pool of these transactions.
        self.memory_pool.remove_all(&block.transaction_ids());
        proof {
            let tv = entry_views(self.transactions.entries());
            assert(tv =~= entry_views(t).push((height, block@.transactions)));
            assert(self@.blocks =~= before.blocks.push(block@)) by {
                assert forall|i: int| 0 <= i < self@.blocks.len() implies self@.blocks[i]
                    == before.blocks.push(block@)[i] by {
                    if i < p.len() {
                        assert(before.blocks[i].previous_hash == p[i].1);
                    }
                }
            }
            assert(self@ == after);
        }
        Ok(())
    }

    /// Appends the given transaction to the memory pool.
    pub fn add_to_memory_pool(&mut self, transaction: Transaction) -> (result: Result<
        (),
        LedgerError,
    >)
        requires
            old(self).wf(),
        ensures
            final(self).wf(),
            match old(self)@.add_to_memory_pool(transaction@) {
                Ok(next) => result is Ok && final(self)@ == next,
                Err(e) => result == Err::<(), LedgerError>(e) && final(self)@ == old(self)@,
            },
    {
        // Ensure the transaction does not already exist.
        if self.memory_pool.contains(&transaction.id()) {
            return Err(LedgerError::PoolReject(IdKind::TransactionId));
        }
        // Ensure the ledger does not already contain a given transition public key.
        if self.contains_any(IdKind::TransitionPublicKey, &transaction.transition_public_keys()) {
            return Err(LedgerError::PoolReject(IdKind::TransitionPublicKey));
        }
        // Ensure the ledger does not already contain a given serial number.
        if self.contains_any(IdKind::SerialNumber, &transaction.serial_numbers()) {
            return Err(LedgerError::PoolReject(IdKind::SerialNumber));
        }
        // Ensure the ledger does not already contain a given commitment.
        if self.contains_any(IdKind::Commitment, &transaction.commitments()) {
            return Err(LedgerError::PoolReject(IdKind::Commitment));
        }
        // Ensure the ledger does not already contain a given nonce.
        if self.contains_any(IdKind::Nonce, &transaction.nonces()) {
            return Err(LedgerError::PoolReject(IdKind::Nonce));
        }
        proof {
            lemma_add_to_memory_pool_wf(self@, transaction@);
        }
        // Insert the transaction to the memory pool.
        self.memory_pool.add(transaction);
        Ok(())
    }

    /// Returns the map of previous block hashes.
    pub fn previous_hashes(&self) -> (map: &MemoryMap<Field>)
        requires
            self.wf(),
        ensures
            map.wf(),
            map.entries() == self@.previous_hashes(),
    {
        proof {
            assert forall|i: int| 0 <= i < self@.blocks.len() implies self.previous_hashes.entries()[i]
                == self@.previous_hashes()[i] by {
                assert(self.previous_hashes.entries()[i].0 == self.headers.entries()[i].1.metadata.height);
            }
            assert(self.previous_hashes.entries() =~= self@.previous_hashes());
        }
        &self.previous_hashes
    }

    /// Returns the map of block headers.
    pub fn headers(&self) -> (map: &MemoryMap<Header>)
        requires
            self.wf(),
        ensures
            map.wf(),
            map.entries() == self@.headers(),
    {
        proof {
            assert forall|i: int| 0 <= i < self@.blocks.len() implies self.headers.entries()[i]
                == self@.headers()[i] by {
                assert(self.headers.entries()[i].0 == self.headers.entries()[i].1.metadata.height);
            }
            assert(self.headers.entries() =~= self@.headers());
        }
        &self.headers
    }

    /// Returns the map of block transactions.
    pub fn transactions(&self) -> (map: &MemoryMap<Transactions>)
        requires
            self.wf(),
        ensures
            map.wf(),
            entry_views(map.entries()) == self@.transactions(),
    {
        proof {
            let views = entry_views(self.transactions.entries());
            assert forall|i: int| 0 <= i < self@.blocks.len() implies views[i] == self@.transactions()[i] by {
                assert(views[i].0 == self.headers.entries()[i].1.metadata.height);
            }
            assert(views =~= self@.transactions());
        }
        &self.transactions
    }

    /// Returns the map of block signatures.
    pub fn signatures(&self) -> (map: &MemoryMap<Signature>)
        requires
            self.wf(),
        ensures
            map.wf(),
            map.entries() == self@.signatures(),
    {
        proof {
            assert forall|i: int| 0 <= i < self@.blocks.len() implies self.signatures.entries()[i]
                == self@.signatures()[i] by {
                assert(self.signatures.entries()[i].0 == self.headers.entries()[i].1.metadata.height);
            }
            assert(self.signatures.entries() =~= self@.signatures());
        }
        &self.signatures
    }

    /// Returns the expected coinbase target given the previous block and
    /// expected next block details: the greatest target, which stands in for
    /// a difficulty rule.
    pub fn compute_coinbase_target(
        _anchor_block_header: &Header,
        _block_timestamp: i64,
        _block_height: u32,
    ) -> (target: u64)
        ensures
            target == u64::MAX,
    {
        u64::MAX
    }

    /// Returns the expected proof target given the previous block and
    /// expected next block details: the greatest target, which stands in for
    /// a difficulty rule.
    pub fn compute_proof_target(
        _anchor_block_header: &Header,
        _block_timestamp: i64,
        _block_height: u32,
    ) -> (target: u64)
        ensures
            target == u64::MAX,
    {
        u64::MAX
    }

    /// Whether `result` is what the ledger proposes at the given time.
    pub open spec fn proposes(
        &self,
        state_root: Field,
        transactions_root: Field,
        timestamp: i64,
        result: Result<Proposal, LedgerError>,
    ) -> bool {
        match self@.propose_next_block(state_root, transactions_root, timestamp) {
            Ok(proposal) => result matches Ok(found) && found@ == proposal,
            Err(e) => result matches Err(error) && error == e,
        }
    }

    /// Returns a candidate for the next block in the ledger, with the given
    /// timestamp. `state_root` is the root of the block tree and
    /// `transactions_root` the root of the transactions of the pool.
    pub fn propose_next_block_at(
        &self,
        state_root: Field,
        transactions_root: Field,
        timestamp: i64,
    ) -> (result: Result<Proposal, LedgerError>)
        requires
            self.wf(),
        ensures
            self.proposes(state_root, transactions_root, timestamp, result),
    {
        // Construct the transactions for the block.
        let transactions = self.memory_pool.transactions();
        // Fetch the latest block.
        let block = match self.latest_block() {
            Ok(block) => block,
            Err(e) => {
                return Err(e);
            },
        };
        if block.round() == u64::MAX || block.height() == u32::MAX {
            return Err(LedgerError::Exhausted);
        }
        let round = block.round() + 1;
        let height = block.height() + 1;
        let coinbase_target = Self::compute_coinbase_target(block.header(), timestamp, height);
        let proof_target = Self::compute_proof_target(block.header(), timestamp, height);
        // Construct the metadata.
        let metadata = Metadata::new(
            block.header().metadata.network,
            round,
            height,
            coinbase_target,
            proof_target,
            timestamp,
        );
        // Construct the header.
        let header = Header::from(state_root, transactions_root, metadata);
        Ok(Proposal { previous_hash: block.hash(), header, transactions })
    }

    /// Returns a candidate for the next block in the ledger, with the time of
    /// the wall clock as its timestamp. `state_root` is the root of the block
    /// tree and `transactions_root` the root of the transactions of the pool.
    pub fn propose_next_block(&self, state_root: Field, transactions_root: Field) -> (result: Result<
        Proposal,
        LedgerError,
    >)
        requires
            self.wf(),
        ensures
            exists|timestamp: i64| self.proposes(state_root, transactions_root, timestamp, result),
    {
        let timestamp = unix_timestamp_now();
        let result = self.propose_next_block_at(state_root, transactions_root, timestamp);
        assert(self.proposes(state_root, transactions_root, timestamp, result));
        result
    }

    /// The ledger that holds the genesis block alone, without the checks of
    /// a next block.
    fn from_genesis_unchecked(genesis: &Block) -> (result: Result<Ledger, LedgerError>)
        ensures
            match LedgerView::from_genesis_unchecked(genesis@) {
                Ok(next) => result matches Ok(ledger) && ledger@ == next && ledger.wf(),
                Err(e) => result matches Err(error) && error == e,
            },
    {
        let mut vm = VM::new();
        if let Err(e) = vm.finalize_all(genesis.transactions()) {
            return Err(LedgerError::Finalize(e));
        }
        if genesis.height() != 0 {
            return Err(LedgerError::MissingBlock(0));
        }
        let mut ledger = Ledger::empty();
        let transactions = genesis.transactions().clone();
        proof {
            lemma_insert_above(Seq::<(u32, Field)>::empty(), 0, genesis.previous_hash);
            lemma_insert_above(Seq::<(u32, Header)>::empty(), 0, genesis.header);
            lemma_insert_above(Seq::<(u32, Transactions)>::empty(), 0, transactions);
            lemma_insert_above(Seq::<(u32, Signature)>::empty(), 0, genesis.signature);
        }
        ledger.current_hash = genesis.hash();
        ledger.current_height = genesis.height();
        ledger.current_round = genesis.round();
        ledger.block_tree.append(genesis.hash());
        ledger.previous_hashes.insert(genesis.height(), genesis.previous_hash());
        ledger.headers.insert(genesis.height(), *genesis.header());
        ledger.transactions.insert(genesis.height(), transactions);
        ledger.signatures.insert(genesis.height(), *genesis.signature());
        ledger.vm = vm;
        proof {
            let next = LedgerView::from_genesis_unchecked(genesis@)->Ok_0;
            let views = entry_views(ledger.transactions.entries());
            assert(views[0].1 == genesis@.transactions);
            assert(ledger@.blocks =~= seq![genesis@]);
            assert(ledger@.block_tree =~= seq![genesis@.block_hash]);
            assert(ledger@ == next);
            lemma_from_maps_wf(
                Seq::empty(),
                Seq::empty(),
                Seq::empty(),
                Seq::empty(),
                genesis@,
                genesis@.block_hash,
            );
        }
        Ok(ledger)
    }

    /// The parts of the block at the greatest height of which its hash is the
    /// fingerprint: the hash of its parent, its header and its signature.
    /// Nothing where the maps do not hold them.
    pub fn latest_parts(
        previous_hashes: &MemoryMap<Field>,
        headers: &MemoryMap<Header>,
        signatures: &MemoryMap<Signature>,
    ) -> (parts: Option<(Field, Header, Signature)>)
        requires
            previous_hashes.wf(),
            headers.wf(),
            signatures.wf(),
        ensures
            parts is Some <==> previous_hashes.entries().len() > 0 && has_key(
                headers.entries(),
                previous_hashes.entries().last().0,
            ) && has_key(signatures.entries(), previous_hashes.entries().last().0),
            parts matches Some((previous_hash, header, signature)) ==> {
                let top = previous_hashes.entries().last().0;
                &&& previous_hash == previous_hashes.entries().last().1
                &&& header == headers.entries()[position(headers.entries(), top)].1
                &&& signature == signatures.entries()[position(signatures.entries(), top)].1
            },
    {
        let n = previous_hashes.len();
        if n == 0 {
            return None;
        }
        let top = previous_hashes.key_at(n - 1);
        match (headers.get(top), signatures.get(top)) {
            (Some(header), Some(signature)) => Some(
                (*previous_hashes.value_at(n - 1), *header, *signature),
            ),
            _ => None,
        }
    }

    /// Initializes a new instance of `Ledger` from the given maps. `genesis`
    /// is the genesis block, which is taken where the maps are empty, and
    /// `latest_hash` is the hash of the block at the greatest height, which is
    /// taken where they are not.
    pub fn from_maps(
        previous_hashes: MemoryMap<Field>,
        headers: MemoryMap<Header>,
        transactions: MemoryMap<Transactions>,
        signatures: MemoryMap<Signature>,
        genesis: &Block,
        latest_hash: Field,
    ) -> (result: Result<Ledger, LedgerError>)
        requires
            previous_hashes.wf(),
            headers.wf(),
            transactions.wf(),
            signatures.wf(),
        ensures
            match LedgerView::from_maps(
                previous_hashes.entries(),
                headers.entries(),
                entry_views(transactions.entries()),
                signatures.entries(),
                genesis@,
                latest_hash,
            ) {
                Ok(next) => result matches Ok(ledger) && ledger@ == next && ledger.wf(),
                Err(e) => result matches Err(error) && error == e,
            },
    {
        let ghost p = previous_hashes.entries();
        let ghost h = headers.entries();
        let ghost t = entry_views(transactions.entries());
        let ghost s = signatures.entries();
        let ghost blocks = chain(p, h, t, s, latest_hash);
        // Fetch the latest height.
        let top = match previous_hashes.last_key() {
            Some(height) => height,
            None => {
                // If there are no previous hashes, add the genesis block.
                if headers.len() != 0 || transactions.len() != 0 || signatures.len() != 0 {
                    return Err(LedgerError::Corrupt);
                }
                return Ledger::from_genesis_unchecked(genesis);
            },
        };
        // Fetch the latest block.
        proof {
            assert forall|height: u32| has_key(t, height) == has_key(transactions.entries(), height) by {
                if has_key(t, height) {
                    let i = position(t, height);
                    assert(transactions.entries()[i].0 == height);
                }
                if has_key(transactions.entries(), height) {
                    let i = position(transactions.entries(), height);
                    assert(t[i].0 == height);
                }
            }
        }
        if !(headers.contains_key(top) && transactions.contains_key(top) && signatures.contains_key(
            top,
        )) {
            return Err(LedgerError::MissingBlock(top));
        }
        if !maps_aligned(&previous_hashes, &headers, &transactions, &signatures) {
            return Err(LedgerError::Corrupt);
        }
        proof {
            assert forall|i: int| 0 <= i < blocks.len() implies (#[trigger] blocks[i]).transactions
                == transactions.entries()[i].1@ && blocks[i].header == h[i].1 by {
                assert(t[i].1 == transactions.entries()[i].1@);
            }
        }
        // Load each transaction into the VM.
        let vm = match replay_all(&transactions, Ghost(blocks)) {
            Ok(vm) => vm,
            Err(e) => {
                return Err(LedgerError::Finalize(e));
            },
        };
        // Check the existence of every block.
        if let Some(height) = find_gap(&previous_hashes) {
            return Err(LedgerError::MissingBlock(height));
        }
        if !headers_in_order(&headers, Ghost(blocks)) {
            return Err(LedgerError::Corrupt);
        }
        // Generate the block tree.
        proof {
            lemma_heights_bound(blocks, blocks.len() - 1);
            lemma_from_maps_wf(p, h, t, s, genesis@, latest_hash);
        }
        let block_tree = tree_of(&previous_hashes, latest_hash, Ghost(blocks));
        // Set the current hash, height, and round.
        let latest = *headers.value_at(headers.len() - 1);
        let ledger = Ledger {
            current_hash: latest_hash,
            current_height: latest.height(),
            current_round: latest.round(),
            block_tree,
            previous_hashes,
            headers,
            transactions,
            signatures,
            memory_pool: MemoryPool::new(),
            vm,
        };
        assert(ledger@.blocks == blocks);
        Ok(ledger)
    }
}

/// Whether the four maps bind the same heights, each header at its own.
fn maps_aligned(
    previous_hashes: &MemoryMap<Field>,
    headers: &MemoryMap<Header>,
    transactions: &MemoryMap<Transactions>,
    signatures: &MemoryMap<Signature>,
) -> (ok: bool)
    ensures
        ok == aligned(
            previous_hashes.entries(),
            headers.entries(),
            entry_views(transactions.entries()),
            signatures.entries(),
        ),
{
    let n = previous_hashes.len();
    if headers.len() != n || transactions.len() != n || signatures.len() != n {
        return false;
    }
    let ghost p = previous_hashes.entries();
    let ghost h = headers.entries();
    let ghost t = entry_views(transactions.entries());
    let ghost s = signatures.entries();
    let mut i: usize = 0;
    while i < n
        invariant
            i <= n,
            n == p.len(),
            n == h.len(),
            n == t.len(),
            n == s.len(),
            p == previous_hashes.entries(),
            h == headers.entries(),
            t == entry_views(transactions.entries()),
            s == signatures.entries(),
            forall|k: int|
                #![trigger p[k]]
                #![trigger h[k]]
                #![trigger t[k]]
                #![trigger s[k]]
                0 <= k < i ==> {
                    &&& p[k].0 == h[k].1.metadata.height
                    &&& h[k].0 == h[k].1.metadata.height
                    &&& t[k].0 == h[k].1.metadata.height
                    &&& s[k].0 == h[k].1.metadata.height
                },
        decreases n - i,
    {
        let height = headers.value_at(i).height();
        assert(t[i as int].0 == transactions.entries()[i as int].0);
        if previous_hashes.key_at(i) != height || headers.key_at(i) != height || transactions.key_at(
            i,
        ) != height || signatures.key_at(i) != height {
            assert(!(p[i as int].0 == h[i as int].1.metadata.height && h[i as int].0
                == h[i as int].1.metadata.height && t[i as int].0 == h[i as int].1.metadata.height
                && s[i as int].0 == h[i as int].1.metadata.height));
            return false;
        }
        i += 1;
    }
    true
}

/// The first position at which the map does not bind the position itself.
fn find_gap(previous_hashes: &MemoryMap<Field>) -> (gap: Option<u32>)
    requires
        previous_hashes.wf(),
    ensures
        match first_gap(previous_hashes.entries()) {
            Some(height) => gap == Some(height as u32) && 0 <= height <= u32::MAX,
            None => gap is None,
        },
{
    let ghost p = previous_hashes.entries();
    let n = previous_hashes.len();
    let mut i: usize = 0;
    while i < n
        invariant
            i <= n,
            n == p.len(),
            p == previous_hashes.entries(),
            previous_hashes.wf(),
            forall|k: int| 0 <= k < i ==> (#[trigger] p[k]).0 == k,
        decreases n - i,
    {
        if previous_hashes.key_at(i) as u64 != i as u64 {
            proof {
                if i > 0 {
                    assert(p[i - 1].0 < p[i as int].0);
                }
                assert(p[i as int].0 != i);
                let found = first_gap(p)->Some_0;
                if found < i {
                    assert(p[found].0 == found);
                }
            }
            return Some(i as u32);
        }
        i += 1;
    }
    None
}

/// Whether the blocks, whose headers the map holds, are in order.
fn headers_in_order(headers: &MemoryMap<Header>, Ghost(blocks): Ghost<Seq<BlockView>>) -> (ok: bool)
    requires
        blocks.len() == headers.entries().len(),
        forall|i: int| 0 <= i < blocks.len() ==> (#[trigger] blocks[i]).header == headers.entries()[i].1,
    ensures
        ok == in_order(blocks),
{
    let n = headers.len();
    if n == 0 {
        return true;
    }
    let mut i: usize = 1;
    while i < n
        invariant
            1 <= i <= n,
            n == blocks.len(),
            n == headers.entries().len(),
            forall|k: int| 0 <= k < blocks.len() ==> (#[trigger] blocks[k]).header == headers.entries()[k].1,
            in_order(blocks.take(i as int)),
        decreases n - i,
    {
        let earlier = headers.value_at(i - 1);
        let later = headers.value_at(i);
        let ghost a = blocks[i - 1];
        let ghost b = blocks[i as int];
        if !(earlier.height() < later.height() && earlier.timestamp() < later.timestamp()
            && earlier.round() <= later.round() && (earlier.round() == 0 || earlier.round()
            < later.round())) {
            assert(!(a.height() < b.height() && a.timestamp() < b.timestamp() && a.round()
                <= b.round() && (a.round() > 0 ==> a.round() < b.round())));
            return false;
        }
        proof {
            let before = blocks.take(i as int);
            let after = blocks.take(i + 1);
            assert forall|x: int, y: int| 0 <= x < y < after.len() implies {
                &&& (#[trigger] after[x]).height() < (#[trigger] after[y]).height()
                &&& after[x].timestamp() < after[y].timestamp()
                &&& after[x].round() <= after[y].round()
                &&& after[x].round() > 0 ==> after[x].round() < after[y].round()
            } by {
                if y < i {
                    assert(before[x].height() < before[y].height());
                } else if x < i - 1 {
                    assert(before[x].height() < before[i - 1].height());
                }
            }
        }
        i += 1;
    }
    assert(blocks.take(i as int) == blocks);
    true
}

/// The block tree over the hashes of the blocks: the parent that each block
/// after the first names, and the hash of the last.
fn tree_of(previous_hashes: &MemoryMap<Field>, latest_hash: Field, Ghost(blocks): Ghost<
    Seq<BlockView>,
>) -> (tree: BlockTree)
    requires
        0 < previous_hashes.entries().len() <= BLOCKS_CAPACITY,
        blocks.len() == previous_hashes.entries().len(),
        forall|i: int, j: int|
            0 <= i && j == i + 1 && j < blocks.len() ==> (#[trigger] blocks[i]).block_hash == (
            #[trigger] previous_hashes.entries()[j]).1,
        blocks.last().block_hash == latest_hash,
    ensures
        tree@ == hashes(blocks),
        tree.wf(),
{
    let n = previous_hashes.len();
    let mut tree = BlockTree::new();
    let mut i: usize = 1;
    while i < n
        invariant
            1 <= i <= n,
            n <= BLOCKS_CAPACITY,
            n == blocks.len(),
            n == previous_hashes.entries().len(),
            forall|a: int, b: int|
                0 <= a && b == a + 1 && b < blocks.len() ==> (#[trigger] blocks[a]).block_hash == (
                #[trigger] previous_hashes.entries()[b]).1,
            tree.wf(),
            tree@.len() == i - 1,
            forall|k: int| 0 <= k < i - 1 ==> tree@[k] == (#[trigger] blocks[k]).block_hash,
        decreases n - i,
    {
        tree.append(*previous_hashes.value_at(i));
        proof {
            assert(blocks[i - 1].block_hash == previous_hashes.entries()[i as int].1);
        }
        i += 1;
    }
    tree.append(latest_hash);
    assert(tree@ =~= hashes(blocks));
    tree
}

/// Finalizes the transactions of the blocks, which the map holds, in order.
fn replay_all(transactions: &MemoryMap<Transactions>, Ghost(blocks): Ghost<Seq<BlockView>>) -> (result:
    Result<VM, VmError>)
    requires
        blocks.len() == transactions.entries().len(),
        forall|i: int|
            0 <= i < blocks.len() ==> (#[trigger] blocks[i]).transactions == transactions.entries()[i].1@,
    ensures
        match replay_blocks(VmView::empty(), blocks) {
            Ok(vm) => result matches Ok(found) && found@ == vm && vm.wf(),
            Err(e) => result matches Err(error) && error == e,
        },
{
    let mut vm = VM::new();
    let n = transactions.len();
    let mut i: usize = 0;
    assert(blocks.take(0) == Seq::<BlockView>::empty());
    while i < n
        invariant
            i <= n,
            n == blocks.len(),
            n == transactions.entries().len(),
            forall|k: int|
                0 <= k < blocks.len() ==> (#[trigger] blocks[k]).transactions
                    == transactions.entries()[k].1@,
            vm@.wf(),
            replay_blocks(VmView::empty(), blocks.take(i as int)) == Ok::<VmView, VmError>(vm@),
        decreases n - i,
    {
        proof {
            assert(blocks.take(i + 1).drop_last() == blocks.take(i as int));
            assert(blocks.take(i + 1).last() == blocks[i as int]);
        }
        if let Err(e) = vm.finalize_all(transactions.value_at(i)) {
            proof {
                lemma_replay_blocks_fails_on(VmView::empty(), blocks, i + 1);
            }
            return Err(e);
        }
        i += 1;
    }
    assert(blocks.take(i as int) == blocks);
    Ok(vm)
}

/// Heights that increase strictly from zero on are at least their positions.
pub proof fn lemma_heights_bound(blocks: Seq<BlockView>, at: int)
    requires
        crate::model::in_order(blocks),
        0 <= at < blocks.len(),
    ensures
        blocks[at].height() >= at,
    decreases at,
{
    if at > 0 {
        lemma_heights_bound(blocks, at - 1);
        assert(blocks[at - 1].height() < blocks[at].height());
    }
}

} // verus!

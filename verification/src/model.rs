//! The ledger as a mathematical value, and what its operations do to it.
//!
//! The ledger is a chain of committed blocks with a tip, the leaves of the
//! block tree, a pool of unconfirmed transactions and the state of the
//! finalizer. Every operation of the ledger is stated here as a function on
//! that value; the executable ledger is proved to do the same.

use vstd::prelude::*;
use crate::block::{BlockView, Header, Metadata, ProposalView, Signature};
use crate::memory_map::has_key;
use crate::error::LedgerError;
use crate::field::Field;
use crate::memory_pool::{pool_has, unique_ids, without_ids};
use crate::transaction::{all_ids, Identified, IdKind, Origin, TransactionView};
use crate::vm::{VmError, VmView};

verus! {

/// The hashes of the blocks, in order.
pub open spec fn hashes(blocks: Seq<BlockView>) -> Seq<Field> {
    Seq::new(blocks.len(), |i: int| blocks[i].block_hash)
}

/// Whether an element of `ids` is among `committed`.
pub open spec fn shares(ids: Seq<Field>, committed: Seq<Field>) -> bool {
    exists|i: int| 0 <= i < ids.len() && committed.contains(#[trigger] ids[i])
}

/// Whether an origin cannot be admitted: it names a commitment that is not
/// committed, or it names a state root.
pub open spec fn invalid_origin(origin: Origin, commitments: Seq<Field>) -> bool {
    match origin {
        Origin::Commitment(commitment) => !commitments.contains(commitment),
        Origin::StateRoot(_) => true,
    }
}

/// The first origin that cannot be admitted, if there is one.
pub open spec fn first_invalid_origin(origins: Seq<Origin>, commitments: Seq<Field>) -> Option<Origin>
    decreases origins.len(),
{
    if origins.len() == 0 {
        None
    } else if invalid_origin(origins[0], commitments) {
        Some(origins[0])
    } else {
        first_invalid_origin(origins.drop_first(), commitments)
    }
}

/// The state that the transactions of the blocks leave when they are
/// finalized block by block, or why the first one that is refused is refused.
pub open spec fn replay_blocks(vm: VmView, blocks: Seq<BlockView>) -> Result<VmView, VmError>
    decreases blocks.len(),
{
    if blocks.len() == 0 {
        Ok(vm)
    } else {
        match replay_blocks(vm, blocks.drop_last()) {
            Ok(next) => next.replay(blocks.last().transactions),
            Err(e) => Err(e),
        }
    }
}

/// A later block is higher and younger than an earlier one, and its round is
/// not less; where the round of the earlier one is positive, it is greater.
pub open spec fn in_order(blocks: Seq<BlockView>) -> bool {
    forall|i: int, j: int|
        0 <= i < j < blocks.len() ==> {
            &&& (#[trigger] blocks[i]).height() < (#[trigger] blocks[j]).height()
            &&& blocks[i].timestamp() < blocks[j].timestamp()
            &&& blocks[i].round() <= blocks[j].round()
            &&& blocks[i].round() > 0 ==> blocks[i].round() < blocks[j].round()
        }
}

/// Each block but the first names the hash of the block before it as its parent.
pub open spec fn linked(blocks: Seq<BlockView>) -> bool {
    forall|i: int, j: int|
        0 <= i && j == i + 1 && j < blocks.len() ==> (#[trigger] blocks[j]).previous_hash == (
        #[trigger] blocks[i]).block_hash
}

/// The blocks that four maps from heights hold together, where `tip_hash` is
/// the hash of the last of them: the hash of every other block is the parent
/// that the block after it names.
pub open spec fn chain(
    previous_hashes: Seq<(u32, Field)>,
    headers: Seq<(u32, Header)>,
    transactions: Seq<(u32, Seq<TransactionView>)>,
    signatures: Seq<(u32, Signature)>,
    tip_hash: Field,
) -> Seq<BlockView> {
    Seq::new(
        previous_hashes.len(),
        |i: int|
            BlockView {
                block_hash: if i + 1 < previous_hashes.len() {
                    previous_hashes[i + 1].1
                } else {
                    tip_hash
                },
                previous_hash: previous_hashes[i].1,
                header: headers[i].1,
                transactions: transactions[i].1,
                signature: signatures[i].1,
            },
    )
}

/// The four maps hold the same heights, and each header stands at its own height.
pub open spec fn aligned(
    previous_hashes: Seq<(u32, Field)>,
    headers: Seq<(u32, Header)>,
    transactions: Seq<(u32, Seq<TransactionView>)>,
    signatures: Seq<(u32, Signature)>,
) -> bool {
    &&& headers.len() == previous_hashes.len()
    &&& transactions.len() == previous_hashes.len()
    &&& signatures.len() == previous_hashes.len()
    &&& forall|i: int|
        #![trigger previous_hashes[i]]
        #![trigger headers[i]]
        #![trigger transactions[i]]
        #![trigger signatures[i]]
        0 <= i < previous_hashes.len() ==> {
            &&& previous_hashes[i].0 == headers[i].1.metadata.height
            &&& headers[i].0 == headers[i].1.metadata.height
            &&& transactions[i].0 == headers[i].1.metadata.height
            &&& signatures[i].0 == headers[i].1.metadata.height
        }
}

/// The first position at which the entries do not bind the position itself,
/// if there is one. In ordered entries that is the least height that is not
/// bound though a greater one is.
pub open spec fn first_gap<V>(entries: Seq<(u32, V)>) -> Option<int> {
    if exists|i: int| 0 <= i < entries.len() && (#[trigger] entries[i]).0 != i {
        Some(
            choose|i: int|
                0 <= i < entries.len() && (#[trigger] entries[i]).0 != i && forall|k: int|
                    0 <= k < i ==> (#[trigger] entries[k]).0 == k,
        )
    } else {
        None
    }
}

/// The ledger as a mathematical value.
pub struct LedgerView {
    /// The hash of the latest block.
    pub current_hash: Field,
    /// The height of the latest block.
    pub current_height: u32,
    /// The round of the latest block.
    pub current_round: u64,
    /// The leaves of the block tree.
    pub block_tree: Seq<Field>,
    /// The committed blocks, in the order of their heights.
    pub blocks: Seq<BlockView>,
    /// The unconfirmed transactions, in the order in which they came.
    pub memory_pool: Seq<TransactionView>,
    /// The state of the finalizer.
    pub vm: VmView,
}

impl LedgerView {
    /// The ledger before the genesis block.
    pub open spec fn empty() -> LedgerView {
        LedgerView {
            current_hash: Field { lo: 0, hi: 0 },
            current_height: 0,
            current_round: 0,
            block_tree: Seq::empty(),
            blocks: Seq::empty(),
            memory_pool: Seq::empty(),
            vm: VmView::empty(),
        }
    }

    /// What holds of every ledger.
    ///
    /// The tip is the latest block. The first block has height zero. The
    /// blocks are in order and linked. The leaves of the block tree are the
    /// hashes of the committed blocks, in order. The finalizer is in the state
    /// that the committed transactions leave. No id is in the pool twice.
    pub open spec fn wf(self) -> bool {
        &&& if self.blocks.len() == 0 {
            self == LedgerView { memory_pool: self.memory_pool, ..LedgerView::empty() }
        } else {
            &&& self.current_hash == self.blocks.last().block_hash
            &&& self.current_height == self.blocks.last().height()
            &&& self.current_round == self.blocks.last().round()
            &&& self.blocks[0].height() == 0
        }
        &&& in_order(self.blocks)
        &&& linked(self.blocks)
        &&& self.block_tree == hashes(self.blocks)
        &&& replay_blocks(VmView::empty(), self.blocks) == Ok::<VmView, VmError>(self.vm)
        &&& self.vm.wf()
        &&& unique_ids(self.memory_pool)
    }

    /// Whether a committed block has the hash.
    pub open spec fn has_block_hash(self, hash: Field) -> bool {
        self.block_tree.contains(hash)
    }

    /// Whether a block is committed at the height.
    pub open spec fn has_height(self, height: u32) -> bool {
        exists|i: int| 0 <= i < self.blocks.len() && (#[trigger] self.blocks[i]).height() == height
    }

    /// The position in the chain of the block at the height, where one is
    /// committed there.
    pub open spec fn index_of_height(self, height: u32) -> int {
        choose|i: int| 0 <= i < self.blocks.len() && (#[trigger] self.blocks[i]).height() == height
    }

    /// The block that is committed at the height, if there is one.
    pub open spec fn block_at(self, height: u32) -> Option<BlockView> {
        if self.has_height(height) {
            Some(self.blocks[self.index_of_height(height)])
        } else {
            None
        }
    }

    /// The committed identifiers of a kind, in the order of the chain.
    pub open spec fn ids(self, kind: IdKind) -> Seq<Field> {
        all_ids(self.blocks, kind)
    }

    /// The kind of record identifier that is both among the given ones and
    /// committed, if there is one: the first of serial number, commitment and
    /// nonce.
    pub open spec fn first_record_collision(
        self,
        serial_numbers: Seq<Field>,
        commitments: Seq<Field>,
        nonces: Seq<Field>,
    ) -> Option<IdKind> {
        if shares(serial_numbers, self.ids(IdKind::SerialNumber)) {
            Some(IdKind::SerialNumber)
        } else if shares(commitments, self.ids(IdKind::Commitment)) {
            Some(IdKind::Commitment)
        } else if shares(nonces, self.ids(IdKind::Nonce)) {
            Some(IdKind::Nonce)
        } else {
            None
        }
    }

    /// Whether the block may be the next block, and if not, the first check
    /// that it fails. `verified` says whether the block passed verification.
    pub open spec fn check_next_block(self, block: BlockView, verified: bool) -> Result<
        (),
        LedgerError,
    > {
        if self.current_hash != block.previous_hash {
            Err(LedgerError::IncorrectPreviousHash)
        } else if self.has_block_hash(block.block_hash) {
            Err(LedgerError::BlockHashExists)
        } else if self.current_height > 0 && self.current_height + 1 != block.height() {
            Err(LedgerError::IncorrectHeight)
        } else if self.has_height(block.height()) {
            Err(LedgerError::HeightExists)
        } else if self.current_round > 0 && self.current_round + 1 != block.round() {
            Err(LedgerError::IncorrectRound)
        } else if block.height() > 0 && self.block_at(self.current_height) is None {
            Err(LedgerError::MissingBlock(self.current_height))
        } else if block.height() > 0 && block.timestamp() <= self.block_at(
            self.current_height,
        )->Some_0.timestamp() {
            Err(LedgerError::TimestampNotAfterLatest)
        } else if shares(block.ids(IdKind::TransactionId), self.ids(IdKind::TransactionId)) {
            Err(LedgerError::IdExists(IdKind::TransactionId))
        } else if shares(
            block.ids(IdKind::TransitionPublicKey),
            self.ids(IdKind::TransitionPublicKey),
        ) {
            Err(LedgerError::IdExists(IdKind::TransitionPublicKey))
        } else {
            match first_invalid_origin(block.origins(), self.ids(IdKind::Commitment)) {
                Some(Origin::Commitment(_)) => Err(LedgerError::MissingOrigin),
                Some(Origin::StateRoot(_)) => Err(LedgerError::UnsupportedOrigin),
                None => match self.first_record_collision(
                    block.ids(IdKind::SerialNumber),
                    block.ids(IdKind::Commitment),
                    block.ids(IdKind::Nonce),
                ) {
                    Some(kind) => Err(LedgerError::IdExists(kind)),
                    None => if !verified {
                        Err(LedgerError::InvalidBlock)
                    } else {
                        Ok(())
                    },
                },
            }
        }
    }

    /// The ledger after the block is committed, or why the block is refused:
    /// it fails a check, or the finalizer refuses one of its transactions.
    pub open spec fn add_next_block(self, block: BlockView, verified: bool) -> Result<
        LedgerView,
        LedgerError,
    > {
        match self.check_next_block(block, verified) {
            Err(e) => Err(e),
            Ok(()) => match self.vm.replay(block.transactions) {
                Err(e) => Err(LedgerError::Finalize(e)),
                Ok(vm) => Ok(
                    LedgerView {
                        current_hash: block.block_hash,
                        current_height: block.height(),
                        current_round: block.round(),
                        block_tree: self.block_tree.push(block.block_hash),
                        blocks: self.blocks.push(block),
                        memory_pool: without_ids(self.memory_pool, block.ids(IdKind::TransactionId)),
                        vm,
                    },
                ),
            },
        }
    }

    /// The candidate for the next block that the ledger proposes at the given
    /// time: it follows the latest block in height and round, holds the
    /// transactions of the pool in their order, and carries the targets that
    /// stand in for a difficulty rule. Nothing is proposed where the ledger has
    /// no block, or where no round or no height is left.
    pub open spec fn propose_next_block(
        self,
        state_root: Field,
        transactions_root: Field,
        timestamp: i64,
    ) -> Result<ProposalView, LedgerError> {
        match self.block_at(self.current_height) {
            None => Err(LedgerError::MissingBlock(self.current_height)),
            Some(latest) => if latest.round() == u64::MAX || latest.height() == u32::MAX {
                Err(LedgerError::Exhausted)
            } else {
                Ok(
                    ProposalView {
                        previous_hash: latest.block_hash,
                        header: Header {
                            previous_state_root: state_root,
                            transactions_root,
                            metadata: Metadata {
                                network: latest.header.metadata.network,
                                round: (latest.round() + 1) as u64,
                                height: (latest.height() + 1) as u32,
                                coinbase_target: u64::MAX,
                                proof_target: u64::MAX,
                                timestamp,
                            },
                        },
                        transactions: self.memory_pool,
                    },
                )
            },
        }
    }

    /// The ledger that holds the genesis block alone, as it is built when the
    /// maps are empty: or why it is not built.
    pub open spec fn from_genesis_unchecked(genesis: BlockView) -> Result<LedgerView, LedgerError> {
        match VmView::empty().replay(genesis.transactions) {
            Err(e) => Err(LedgerError::Finalize(e)),
            Ok(vm) => if genesis.height() != 0 {
                Err(LedgerError::MissingBlock(0))
            } else {
                Ok(
                    LedgerView {
                        current_hash: genesis.block_hash,
                        current_height: genesis.height(),
                        current_round: genesis.round(),
                        block_tree: seq![genesis.block_hash],
                        blocks: seq![genesis],
                        memory_pool: Seq::empty(),
                        vm,
                    },
                )
            },
        }
    }

    /// The ledger that the four maps hold, where `latest_hash` is the hash of
    /// the block at the greatest height, or why they hold none.
    ///
    /// Where no previous hash is bound, the ledger holds the genesis block
    /// alone. Else the block at the greatest height must be there, the maps
    /// must bind the same heights, each header at its own, the finalizer
    /// must accept every transaction in order, every height up to the
    /// greatest must be bound, and the blocks must be in order.
    pub open spec fn from_maps(
        previous_hashes: Seq<(u32, Field)>,
        headers: Seq<(u32, Header)>,
        transactions: Seq<(u32, Seq<TransactionView>)>,
        signatures: Seq<(u32, Signature)>,
        genesis: BlockView,
        latest_hash: Field,
    ) -> Result<LedgerView, LedgerError> {
        let blocks = chain(previous_hashes, headers, transactions, signatures, latest_hash);
        if previous_hashes.len() == 0 {
            if headers.len() != 0 || transactions.len() != 0 || signatures.len() != 0 {
                Err(LedgerError::Corrupt)
            } else {
                LedgerView::from_genesis_unchecked(genesis)
            }
        } else if !(has_key(headers, previous_hashes.last().0) && has_key(
            transactions,
            previous_hashes.last().0,
        ) && has_key(signatures, previous_hashes.last().0)) {
            Err(LedgerError::MissingBlock(previous_hashes.last().0))
        } else if !aligned(previous_hashes, headers, transactions, signatures) {
            Err(LedgerError::Corrupt)
        } else {
            match replay_blocks(VmView::empty(), blocks) {
                Err(e) => Err(LedgerError::Finalize(e)),
                Ok(vm) => match first_gap(previous_hashes) {
                    Some(height) => Err(LedgerError::MissingBlock(height as u32)),
                    None => if !in_order(blocks) {
                        Err(LedgerError::Corrupt)
                    } else {
                        Ok(
                            LedgerView {
                                current_hash: latest_hash,
                                current_height: blocks.last().height(),
                                current_round: blocks.last().round(),
                                block_tree: hashes(blocks),
                                blocks,
                                memory_pool: Seq::empty(),
                                vm,
                            },
                        )
                    },
                },
            }
        }
    }

    /// The map of previous block hashes.
    pub open spec fn previous_hashes(self) -> Seq<(u32, Field)> {
        Seq::new(self.blocks.len(), |i: int| (self.blocks[i].height(), self.blocks[i].previous_hash))
    }

    /// The map of block headers.
    pub open spec fn headers(self) -> Seq<(u32, Header)> {
        Seq::new(self.blocks.len(), |i: int| (self.blocks[i].height(), self.blocks[i].header))
    }

    /// The map of block transactions.
    pub open spec fn transactions(self) -> Seq<(u32, Seq<TransactionView>)> {
        Seq::new(self.blocks.len(), |i: int| (self.blocks[i].height(), self.blocks[i].transactions))
    }

    /// The map of block signatures.
    pub open spec fn signatures(self) -> Seq<(u32, Signature)> {
        Seq::new(self.blocks.len(), |i: int| (self.blocks[i].height(), self.blocks[i].signature))
    }

    /// Whether the transaction may enter the pool, and if not, why: the pool
    /// holds its id, or the ledger has committed one of its transition public
    /// keys, serial numbers, commitments or nonces.
    pub open spec fn check_transaction(self, transaction: TransactionView) -> Result<(), LedgerError> {
        if pool_has(self.memory_pool, transaction.id) {
            Err(LedgerError::PoolReject(IdKind::TransactionId))
        } else if shares(
            transaction.ids(IdKind::TransitionPublicKey),
            self.ids(IdKind::TransitionPublicKey),
        ) {
            Err(LedgerError::PoolReject(IdKind::TransitionPublicKey))
        } else {
            match self.first_record_collision(
                transaction.ids(IdKind::SerialNumber),
                transaction.ids(IdKind::Commitment),
                transaction.ids(IdKind::Nonce),
            ) {
                Some(kind) => Err(LedgerError::PoolReject(kind)),
                None => Ok(()),
            }
        }
    }

    /// The ledger after the transaction entered the pool, or why it is refused.
    pub open spec fn add_to_memory_pool(self, transaction: TransactionView) -> Result<
        LedgerView,
        LedgerError,
    > {
        match self.check_transaction(transaction) {
            Err(e) => Err(e),
            Ok(()) => Ok(LedgerView { memory_pool: self.memory_pool.push(transaction), ..self }),
        }
    }
}


/// A block that passes the checks stands above the chain: it is higher and
/// younger than every committed block, its round is not less, and it names
/// the latest block as its parent. The first block has height zero.
pub proof fn lemma_next_block_is_above(ledger: LedgerView, block: BlockView, verified: bool)
    requires
        ledger.wf(),
        ledger.check_next_block(block, verified) is Ok,
    ensures
        in_order(ledger.blocks.push(block)),
        linked(ledger.blocks.push(block)),
        ledger.blocks.push(block)[0].height() == 0,
        !ledger.block_tree.contains(block.block_hash),
        verified,
{
    let blocks = ledger.blocks;
    let n = blocks.len() as int;
    let next = blocks.push(block);
    if n == 0 {
        assert(!ledger.has_height(0));
    } else {
        let last = blocks[n - 1];
        assert forall|i: int| 0 <= i < n implies {
            &&& (#[trigger] blocks[i]).height() < block.height()
            &&& blocks[i].timestamp() < block.timestamp()
            &&& blocks[i].round() <= block.round()
            &&& blocks[i].round() > 0 ==> blocks[i].round() < block.round()
        } by {
            if i < n - 1 {
                assert(blocks[i].height() < blocks[n - 1].height());
            }
            if ledger.current_height == 0 {
                assert(blocks[0].height() <= blocks[i].height());
                assert(i == 0 && n == 1) by {
                    if n > 1 {
                        assert(blocks[0].height() < blocks[n - 1].height());
                    }
                }
                assert(blocks[0].height() != block.height());
            }
            assert(block.height() > 0);
            assert(ledger.has_height(ledger.current_height));
            let at = ledger.index_of_height(ledger.current_height);
            assert(at == n - 1) by {
                if at < n - 1 {
                    assert(blocks[at].height() < blocks[n - 1].height());
                }
            }
        }
        assert forall|i: int, j: int| 0 <= i < j < next.len() implies {
            &&& (#[trigger] next[i]).height() < (#[trigger] next[j]).height()
            &&& next[i].timestamp() < next[j].timestamp()
            &&& next[i].round() <= next[j].round()
            &&& next[i].round() > 0 ==> next[i].round() < next[j].round()
        } by {
            if j < n {
                assert(blocks[i].height() < blocks[j].height());
            } else {
                assert(blocks[i].height() < block.height());
            }
        }
        assert forall|i: int, j: int| 0 <= i && j == i + 1 && j < next.len() implies (
        #[trigger] next[j]).previous_hash == (#[trigger] next[i]).block_hash by {
            if j < n {
                assert(blocks[j].previous_hash == blocks[i].block_hash);
            }
        }
    }
    assert(next[0].height() == 0);
}

/// Committing a block keeps the ledger well formed.
pub proof fn lemma_add_next_block_wf(ledger: LedgerView, block: BlockView, verified: bool)
    requires
        ledger.wf(),
        ledger.add_next_block(block, verified) is Ok,
    ensures
        ledger.add_next_block(block, verified)->Ok_0.wf(),
{
    let after = ledger.add_next_block(block, verified)->Ok_0;
    lemma_next_block_is_above(ledger, block, verified);
    assert(after.blocks.drop_last() == ledger.blocks);
    assert(after.block_tree == hashes(after.blocks));
    crate::vm::lemma_replay_wf(ledger.vm, block.transactions);
    crate::memory_pool::lemma_without_keeps(ledger.memory_pool, block.ids(IdKind::TransactionId));
}

/// A transaction that enters the pool keeps the ledger well formed.
pub proof fn lemma_add_to_memory_pool_wf(ledger: LedgerView, transaction: TransactionView)
    requires
        ledger.wf(),
        ledger.add_to_memory_pool(transaction) is Ok,
    ensures
        ledger.add_to_memory_pool(transaction)->Ok_0.wf(),
{
    let after = ledger.add_to_memory_pool(transaction)->Ok_0;
    let pool = ledger.memory_pool;
    assert forall|i: int, j: int|
        0 <= i < after.memory_pool.len() && 0 <= j < after.memory_pool.len() && i != j implies (
    #[trigger] after.memory_pool[i]).id != (#[trigger] after.memory_pool[j]).id by {
        if i < pool.len() && j < pool.len() {
            assert(pool[i].id != pool[j].id);
        } else if i < pool.len() {
            assert(pool[i].id != transaction.id);
        } else {
            assert(pool[j].id != transaction.id);
        }
    }
}

/// The ledger that maps hold is well formed.
pub proof fn lemma_from_maps_wf(
    previous_hashes: Seq<(u32, Field)>,
    headers: Seq<(u32, Header)>,
    transactions: Seq<(u32, Seq<TransactionView>)>,
    signatures: Seq<(u32, Signature)>,
    genesis: BlockView,
    latest_hash: Field,
)
    requires
        LedgerView::from_maps(
            previous_hashes,
            headers,
            transactions,
            signatures,
            genesis,
            latest_hash,
        ) is Ok,
    ensures
        LedgerView::from_maps(
            previous_hashes,
            headers,
            transactions,
            signatures,
            genesis,
            latest_hash,
        )->Ok_0.wf(),
{
    let ledger = LedgerView::from_maps(
        previous_hashes,
        headers,
        transactions,
        signatures,
        genesis,
        latest_hash,
    )->Ok_0;
    if previous_hashes.len() == 0 {
        assert(ledger.blocks.drop_last() == Seq::<BlockView>::empty());
        assert(replay_blocks(VmView::empty(), Seq::<BlockView>::empty()) == Ok::<VmView, VmError>(
            VmView::empty(),
        ));
        crate::vm::lemma_replay_wf(VmView::empty(), genesis.transactions);
        assert(ledger.block_tree == hashes(ledger.blocks));
    } else {
        lemma_replay_blocks_wf(VmView::empty(), ledger.blocks);
        assert(previous_hashes[0].0 == 0);
    }
}

/// Replaying blocks keeps the state of the finalizer well formed.
pub proof fn lemma_replay_blocks_wf(vm: VmView, blocks: Seq<BlockView>)
    requires
        vm.wf(),
        replay_blocks(vm, blocks) is Ok,
    ensures
        replay_blocks(vm, blocks)->Ok_0.wf(),
    decreases blocks.len(),
{
    if blocks.len() > 0 {
        lemma_replay_blocks_wf(vm, blocks.drop_last());
        crate::vm::lemma_replay_wf(
            replay_blocks(vm, blocks.drop_last())->Ok_0,
            blocks.last().transactions,
        );
    }
}

/// Once replaying a prefix of the blocks is refused, replaying all of them
/// is refused for the same reason.
pub proof fn lemma_replay_blocks_fails_on(vm: VmView, blocks: Seq<BlockView>, n: int)
    requires
        0 <= n <= blocks.len(),
        replay_blocks(vm, blocks.take(n)) is Err,
    ensures
        replay_blocks(vm, blocks) == replay_blocks(vm, blocks.take(n)),
    decreases blocks.len() - n,
{
    if n < blocks.len() {
        assert(blocks.take(n + 1).drop_last() == blocks.take(n));
        lemma_replay_blocks_fails_on(vm, blocks, n + 1);
    } else {
        assert(blocks.take(n) == blocks);
    }
}

} // verus!

//! Blocks and their headers.

use vstd::prelude::*;
use crate::field::Field;
use crate::transaction::{all_ids, all_origins, Identified, IdKind, Origin, TransactionView, Transactions};

verus! {

/// The numbers that place a block in the chain.
#[derive(Clone, Copy, Debug, PartialEq, Eq, Structural)]
pub struct Metadata {
    pub network: u16,
    pub round: u64,
    pub height: u32,
    pub coinbase_target: u64,
    pub proof_target: u64,
    /// Seconds since the Unix epoch, UTC.
    pub timestamp: i64,
}

/// The header of a block: the state root that its parent left, the root of
/// its transactions, and its metadata.
#[derive(Clone, Copy, Debug, PartialEq, Eq, Structural)]
pub struct Header {
    pub previous_state_root: Field,
    pub transactions_root: Field,
    pub metadata: Metadata,
}

/// A leaf of the header's tree.
#[derive(Clone, Copy, Debug, PartialEq, Eq, Structural)]
pub struct HeaderLeaf {
    pub index: u8,
    pub id: Field,
}

/// The signature of the block's proposer over the block hash.
#[derive(Clone, Copy, Debug, PartialEq, Eq, Structural)]
pub struct Signature {
    pub challenge: Field,
    pub response: Field,
    pub pk_sig: Field,
    pub pr_sig: Field,
}

impl Metadata {
    pub fn new(
        network: u16,
        round: u64,
        height: u32,
        coinbase_target: u64,
        proof_target: u64,
        timestamp: i64,
    ) -> (metadata: Metadata)
        ensures
            metadata == (Metadata {
                network,
                round,
                height,
                coinbase_target,
                proof_target,
                timestamp,
            }),
    {
        Metadata { network, round, height, coinbase_target, proof_target, timestamp }
    }
}

impl Header {
    /// The index of the leaf that holds the transactions root.
    pub open spec fn transactions_leaf(self) -> HeaderLeaf {
        HeaderLeaf { index: 1, id: self.transactions_root }
    }

    pub fn from(previous_state_root: Field, transactions_root: Field, metadata: Metadata) -> (header:
        Header)
        ensures
            header == (Header { previous_state_root, transactions_root, metadata }),
    {
        Header { previous_state_root, transactions_root, metadata }
    }

    pub fn height(&self) -> (height: u32)
        ensures
            height == self.metadata.height,
    {
        self.metadata.height
    }

    pub fn round(&self) -> (round: u64)
        ensures
            round == self.metadata.round,
    {
        self.metadata.round
    }

    pub fn timestamp(&self) -> (timestamp: i64)
        ensures
            timestamp == self.metadata.timestamp,
    {
        self.metadata.timestamp
    }

    /// The leaf of the header's tree that holds the transactions root.
    pub fn to_transactions_leaf(&self) -> (leaf: HeaderLeaf)
        ensures
            leaf == self.transactions_leaf(),
    {
        HeaderLeaf { index: 1, id: self.transactions_root }
    }
}

/// A block as a mathematical value.
pub struct BlockView {
    pub block_hash: Field,
    pub previous_hash: Field,
    pub header: Header,
    pub transactions: Seq<TransactionView>,
    pub signature: Signature,
}

impl BlockView {
    pub open spec fn height(self) -> u32 {
        self.header.metadata.height
    }

    pub open spec fn round(self) -> u64 {
        self.header.metadata.round
    }

    pub open spec fn timestamp(self) -> i64 {
        self.header.metadata.timestamp
    }
}

impl Identified for BlockView {
    /// A block holds what its transactions hold.
    open spec fn ids(&self, kind: IdKind) -> Seq<Field> {
        all_ids(self.transactions, kind)
    }

    open spec fn origins(&self) -> Seq<Origin> {
        all_origins(self.transactions)
    }
}

/// A block: the hash of its parent, its header, its transactions and the
/// proposer's signature, together with the block hash, which is the
/// fingerprint of the parent's hash, the header and the signature.
#[derive(Debug, PartialEq, Eq)]
pub struct Block {
    pub block_hash: Field,
    pub previous_hash: Field,
    pub header: Header,
    pub transactions: Transactions,
    pub signature: Signature,
}

impl View for Block {
    type V = BlockView;

    open spec fn view(&self) -> BlockView {
        BlockView {
            block_hash: self.block_hash,
            previous_hash: self.previous_hash,
            header: self.header,
            transactions: self.transactions@,
            signature: self.signature,
        }
    }
}

impl Clone for Block {
    fn clone(&self) -> (copy: Self)
        ensures
            copy@ == self@,
    {
        Block {
            block_hash: self.block_hash,
            previous_hash: self.previous_hash,
            header: self.header,
            transactions: self.transactions.clone(),
            signature: self.signature,
        }
    }
}

impl Block {
    /// Puts a block together from its parts and its hash.
    pub fn from(
        previous_hash: Field,
        header: Header,
        transactions: Transactions,
        signature: Signature,
        block_hash: Field,
    ) -> (block: Block)
        ensures
            block@ == (BlockView {
                block_hash,
                previous_hash,
                header,
                transactions: transactions@,
                signature,
            }),
    {
        Block { block_hash, previous_hash, header, transactions, signature }
    }

    pub fn hash(&self) -> (hash: Field)
        ensures
            hash == self@.block_hash,
    {
        self.block_hash
    }

    pub fn previous_hash(&self) -> (hash: Field)
        ensures
            hash == self@.previous_hash,
    {
        self.previous_hash
    }

    pub fn header(&self) -> (header: &Header)
        ensures
            *header == self@.header,
    {
        &self.header
    }

    pub fn transactions(&self) -> (transactions: &Transactions)
        ensures
            transactions@ == self@.transactions,
    {
        &self.transactions
    }

    pub fn signature(&self) -> (signature: &Signature)
        ensures
            *signature == self@.signature,
    {
        &self.signature
    }

    pub fn height(&self) -> (height: u32)
        ensures
            height == self@.height(),
    {
        self.header.metadata.height
    }

    pub fn round(&self) -> (round: u64)
        ensures
            round == self@.round(),
    {
        self.header.metadata.round
    }

    pub fn timestamp(&self) -> (timestamp: i64)
        ensures
            timestamp == self@.timestamp(),
    {
        self.header.metadata.timestamp
    }

    /// The identifiers of the given kind that the block holds, in order.
    pub fn ids(&self, kind: IdKind) -> (list: Vec<Field>)
        ensures
            list@ == self@.ids(kind),
    {
        self.transactions.ids(kind)
    }

    /// The origins that the block holds, in order.
    pub fn origins(&self) -> (list: Vec<Origin>)
        ensures
            list@ == self@.origins(),
    {
        self.transactions.origins()
    }

    pub fn transaction_ids(&self) -> (list: Vec<Field>)
        ensures
            list@ == self@.ids(IdKind::TransactionId),
    {
        self.transactions.ids(IdKind::TransactionId)
    }

    pub fn transition_public_keys(&self) -> (list: Vec<Field>)
        ensures
            list@ == self@.ids(IdKind::TransitionPublicKey),
    {
        self.transactions.ids(IdKind::TransitionPublicKey)
    }

    pub fn serial_numbers(&self) -> (list: Vec<Field>)
        ensures
            list@ == self@.ids(IdKind::SerialNumber),
    {
        self.transactions.ids(IdKind::SerialNumber)
    }

    pub fn commitments(&self) -> (list: Vec<Field>)
        ensures
            list@ == self@.ids(IdKind::Commitment),
    {
        self.transactions.ids(IdKind::Commitment)
    }

    pub fn nonces(&self) -> (list: Vec<Field>)
        ensures
            list@ == self@.ids(IdKind::Nonce),
    {
        self.transactions.ids(IdKind::Nonce)
    }
}

/// A candidate for the next block as a mathematical value.
pub struct ProposalView {
    pub previous_hash: Field,
    pub header: Header,
    pub transactions: Seq<TransactionView>,
}

/// A candidate for the next block: a block that is not yet signed.
#[derive(Debug, PartialEq, Eq)]
pub struct Proposal {
    pub previous_hash: Field,
    pub header: Header,
    pub transactions: Transactions,
}

impl View for Proposal {
    type V = ProposalView;

    open spec fn view(&self) -> ProposalView {
        ProposalView {
            previous_hash: self.previous_hash,
            header: self.header,
            transactions: self.transactions@,
        }
    }
}

impl Proposal {
    /// The block that the candidate becomes with the proposer's signature
    /// and the block hash.
    pub fn into_block(self, signature: Signature, block_hash: Field) -> (block: Block)
        ensures
            block@ == (BlockView {
                block_hash,
                previous_hash: self@.previous_hash,
                header: self@.header,
                transactions: self@.transactions,
                signature,
            }),
    {
        Block {
            block_hash,
            previous_hash: self.previous_hash,
            header: self.header,
            transactions: self.transactions,
            signature,
        }
    }
}

} // verus!

//! The errors of the ledger.

use vstd::prelude::*;
use crate::transaction::IdKind;
use crate::vm::VmError;

verus! {

/// Why the ledger refuses a block, a transaction or a query.
#[derive(Clone, Copy, Debug, PartialEq, Eq, Structural)]
pub enum LedgerError {
    /// The block does not name the latest block as its parent.
    IncorrectPreviousHash,
    /// The hash of the block is that of a committed block.
    BlockHashExists,
    /// The height of the block does not follow the latest height.
    IncorrectHeight,
    /// A block is committed at the height of the block.
    HeightExists,
    /// The round of the block does not follow the latest round.
    IncorrectRound,
    /// The timestamp of the block is not after that of the latest block.
    TimestampNotAfterLatest,
    /// An identifier of that kind, held by the block, is committed already.
    IdExists(IdKind),
    /// An origin of the block names a commitment that is not committed.
    MissingOrigin,
    /// An origin of the block names a state root, which is not supported.
    UnsupportedOrigin,
    /// The block did not pass verification.
    InvalidBlock,
    /// The finalizer refused a transaction.
    Finalize(VmError),
    /// The pool holds a transaction with the same id (`TransactionId`), or an
    /// identifier of that kind, held by the transaction, is committed already.
    PoolReject(IdKind),
    /// No block is committed at that height.
    MissingBlock(u32),
    /// Not exactly one committed transaction holds the commitment.
    CommitmentNotUnique,
    /// Not exactly one committed block holds the transaction.
    TransactionNotUnique,
    /// Not exactly one transition of the transaction holds the commitment.
    TransitionNotUnique,
    /// The maps do not hold a chain of blocks.
    Corrupt,
    /// No round or no height is left after the latest.
    Exhausted,
}

/// What a caller can do about an error.
#[derive(Clone, Copy, Debug, PartialEq, Eq, Structural)]
pub enum ErrorKind {
    /// The block failed a check: drop the block.
    Validation,
    /// The ledger contradicts itself: stop.
    StateCorruption,
    /// The transaction collides with the pool or the ledger: drop the transaction.
    PoolReject,
    /// The block uses a feature that is not supported: drop the block.
    UnsupportedFeature,
}

impl LedgerError {
    /// The kind of the error.
    pub open spec fn spec_kind(self) -> ErrorKind {
        match self {
            LedgerError::PoolReject(_) => ErrorKind::PoolReject,
            LedgerError::UnsupportedOrigin => ErrorKind::UnsupportedFeature,
            LedgerError::MissingBlock(_) => ErrorKind::StateCorruption,
            LedgerError::CommitmentNotUnique => ErrorKind::StateCorruption,
            LedgerError::TransactionNotUnique => ErrorKind::StateCorruption,
            LedgerError::TransitionNotUnique => ErrorKind::StateCorruption,
            LedgerError::Corrupt => ErrorKind::StateCorruption,
            _ => ErrorKind::Validation,
        }
    }

    /// The kind of the error.
    pub fn kind(&self) -> (kind: ErrorKind)
        ensures
            kind == self.spec_kind(),
    {
        match self {
            LedgerError::PoolReject(_) => ErrorKind::PoolReject,
            LedgerError::UnsupportedOrigin => ErrorKind::UnsupportedFeature,
            LedgerError::MissingBlock(_) => ErrorKind::StateCorruption,
            LedgerError::CommitmentNotUnique => ErrorKind::StateCorruption,
            LedgerError::TransactionNotUnique => ErrorKind::StateCorruption,
            LedgerError::TransitionNotUnique => ErrorKind::StateCorruption,
            LedgerError::Corrupt => ErrorKind::StateCorruption,
            _ => ErrorKind::Validation,
        }
    }

    /// What the error says to a reader.
    pub open spec fn spec_message(self) -> Seq<char> {
        match self {
            LedgerError::IncorrectPreviousHash => "The given block has an incorrect previous block hash"@,
            LedgerError::BlockHashExists => "The block hash already exists in the ledger"@,
            LedgerError::IncorrectHeight => "The given block has an incorrect block height"@,
            LedgerError::HeightExists => "The block height already exists in the ledger"@,
            LedgerError::IncorrectRound => "The given block has an incorrect round number"@,
            LedgerError::TimestampNotAfterLatest => "The given block timestamp is before the current timestamp"@,
            LedgerError::IdExists(IdKind::TransactionId) => "A transaction already exists in the ledger"@,
            LedgerError::IdExists(IdKind::TransitionPublicKey) => "A transition public key already exists in the ledger"@,
            LedgerError::IdExists(IdKind::SerialNumber) => "A serial number already exists in the ledger"@,
            LedgerError::IdExists(IdKind::Commitment) => "A commitment already exists in the ledger"@,
            LedgerError::IdExists(IdKind::Nonce) => "A nonce already exists in the ledger"@,
            LedgerError::MissingOrigin => "The given transaction references a non-existent commitment"@,
            LedgerError::UnsupportedOrigin => "State roots are currently not supported (yet)"@,
            LedgerError::InvalidBlock => "The given block is invalid"@,
            LedgerError::Finalize(VmError::ProgramExists) => "The program is deployed already"@,
            LedgerError::Finalize(VmError::DoubleSpend) => "A serial number is spent twice"@,
            LedgerError::PoolReject(IdKind::TransactionId) => "The transaction already exists in the memory pool"@,
            LedgerError::PoolReject(IdKind::TransitionPublicKey) => "A transition public key already exists in the ledger"@,
            LedgerError::PoolReject(IdKind::SerialNumber) => "A serial number already exists in the ledger"@,
            LedgerError::PoolReject(IdKind::Commitment) => "A commitment already exists in the ledger"@,
            LedgerError::PoolReject(IdKind::Nonce) => "A nonce already exists in the ledger"@,
            LedgerError::MissingBlock(_) => "A block is missing from the ledger"@,
            LedgerError::CommitmentNotUnique => "Not exactly one transaction is associated with the commitment"@,
            LedgerError::TransactionNotUnique => "Not exactly one block height is associated with the transaction id"@,
            LedgerError::TransitionNotUnique => "Not exactly one transition is associated with the commitment"@,
            LedgerError::Corrupt => "The maps do not hold a chain of blocks"@,
            LedgerError::Exhausted => "No round or no height is left after the latest block"@,
        }
    }

    /// What the error says to a reader.
    pub fn message(&self) -> (message: &'static str)
        ensures
            message@ == self.spec_message(),
    {
        match self {
            LedgerError::IncorrectPreviousHash => "The given block has an incorrect previous block hash",
            LedgerError::BlockHashExists => "The block hash already exists in the ledger",
            LedgerError::IncorrectHeight => "The given block has an incorrect block height",
            LedgerError::HeightExists => "The block height already exists in the ledger",
            LedgerError::IncorrectRound => "The given block has an incorrect round number",
            LedgerError::TimestampNotAfterLatest => "The given block timestamp is before the current timestamp",
            LedgerError::IdExists(IdKind::TransactionId) => "A transaction already exists in the ledger",
            LedgerError::IdExists(IdKind::TransitionPublicKey) => "A transition public key already exists in the ledger",
            LedgerError::IdExists(IdKind::SerialNumber) => "A serial number already exists in the ledger",
            LedgerError::IdExists(IdKind::Commitment) => "A commitment already exists in the ledger",
            LedgerError::IdExists(IdKind::Nonce) => "A nonce already exists in the ledger",
            LedgerError::MissingOrigin => "The given transaction references a non-existent commitment",
            LedgerError::UnsupportedOrigin => "State roots are currently not supported (yet)",
            LedgerError::InvalidBlock => "The given block is invalid",
            LedgerError::Finalize(VmError::ProgramExists) => "The program is deployed already",
            LedgerError::Finalize(VmError::DoubleSpend) => "A serial number is spent twice",
            LedgerError::PoolReject(IdKind::TransactionId) => "The transaction already exists in the memory pool",
            LedgerError::PoolReject(IdKind::TransitionPublicKey) => "A transition public key already exists in the ledger",
            LedgerError::PoolReject(IdKind::SerialNumber) => "A serial number already exists in the ledger",
            LedgerError::PoolReject(IdKind::Commitment) => "A commitment already exists in the ledger",
            LedgerError::PoolReject(IdKind::Nonce) => "A nonce already exists in the ledger",
            LedgerError::MissingBlock(_) => "A block is missing from the ledger",
            LedgerError::CommitmentNotUnique => "Not exactly one transaction is associated with the commitment",
            LedgerError::TransactionNotUnique => "Not exactly one block height is associated with the transaction id",
            LedgerError::TransitionNotUnique => "Not exactly one transition is associated with the commitment",
            LedgerError::Corrupt => "The maps do not hold a chain of blocks",
            LedgerError::Exhausted => "No round or no height is left after the latest block",
        }
    }
}

} // verus!

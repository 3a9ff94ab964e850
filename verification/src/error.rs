use vstd::prelude::*;

verus! {

/// Every way an operation of the node can fail.
#[derive(Clone, Copy, Debug, PartialEq, Eq, Structural)]
pub enum ChainError {
    /// The key-value store reported a failure.
    KVError,
    /// Bytes or text that should hold a value do not.
    Corrupt,
    /// The system clock is set before the epoch.
    Clock,
    /// A transaction handed in for mining does not verify.
    InvalidTx,
    /// The spendable outputs do not add up to the requested amount.
    InsufficientFunds,
    /// No transaction or block with the requested identity exists.
    NotFound,
    /// An input refers to a previous output that is not available.
    MissingPrev,
    /// A peer could not be reached.
    Network,
    /// The shared node state could not be locked.
    Lock,
    /// Bytes that should be text are not valid UTF-8.
    BadUtf8,
    /// No nonce in range gives the block a hash that meets the target.
    MiningAborted,
}

impl ChainError {
    /// A short description, for logs and the command line.
    pub fn message(&self) -> (text: &'static str)
        ensures
            text@ == error_text(*self),
    {
        match self {
            ChainError::KVError => "key-value store failure",
            ChainError::Corrupt => "malformed data",
            ChainError::Clock => "system clock is before the epoch",
            ChainError::InvalidTx => "ERROR: Invalid transaction",
            ChainError::InsufficientFunds => "Not Enough balance",
            ChainError::NotFound => "Transaction is not found",
            ChainError::MissingPrev => "ERROR: Previous transaction is not correct",
            ChainError::Network => "peer unreachable",
            ChainError::Lock => "node state lock poisoned",
            ChainError::BadUtf8 => "text is not valid UTF-8",
            ChainError::MiningAborted => "no nonce meets the target",
        }
    }
}

/// The text that `ChainError::message` returns for each error.
pub open spec fn error_text(e: ChainError) -> Seq<char> {
    match e {
        ChainError::KVError => "key-value store failure"@,
        ChainError::Corrupt => "malformed data"@,
        ChainError::Clock => "system clock is before the epoch"@,
        ChainError::InvalidTx => "ERROR: Invalid transaction"@,
        ChainError::InsufficientFunds => "Not Enough balance"@,
        ChainError::NotFound => "Transaction is not found"@,
        ChainError::MissingPrev => "ERROR: Previous transaction is not correct"@,
        ChainError::Network => "peer unreachable"@,
        ChainError::Lock => "node state lock poisoned"@,
        ChainError::BadUtf8 => "text is not valid UTF-8"@,
        ChainError::MiningAborted => "no nonce meets the target"@,
    }
}

} // verus!

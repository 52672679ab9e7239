//! Why an operation on the chain database fails.

use vstd::prelude::*;

verus! {

/// The class of an error.
#[derive(Clone, Copy, Debug, PartialEq, Eq, Structural)]
pub enum ErrorKind {
    NotFound,
    InvalidInput,
    Other,
}

/// Why an operation on the chain database fails.
#[derive(Debug)]
pub enum ChainError {
    /// No header has the number asked for.
    NotFound,
    /// More than one header has the number asked for.
    ChainFork,
    /// No block has the number asked for.
    BlockNotFound,
    /// More than one block has the number asked for. The lines list the candidates.
    ForkFound { report: Vec<String> },
    /// There is no header under the hash.
    BlockHeaderNotFound,
    /// Nothing leads from the transaction to a block.
    MappingNotFound,
    /// The transaction is not where it should be.
    TransactionNotFound,
    /// The transaction belongs to a block that is still there.
    LinkedToBlock,
    /// The store could not be read or written.
    Database(String),
    /// Stored bytes are not an encoded message.
    Decode(String),
}

impl ChainError {
    /// The class of the error; none for an error that the store or the decoder raised.
    pub open spec fn error_kind(self) -> Option<ErrorKind> {
        match self {
            ChainError::NotFound => Some(ErrorKind::Other),
            ChainError::ChainFork => Some(ErrorKind::Other),
            ChainError::BlockNotFound => Some(ErrorKind::NotFound),
            ChainError::ForkFound { .. } => Some(ErrorKind::Other),
            ChainError::BlockHeaderNotFound => Some(ErrorKind::NotFound),
            ChainError::MappingNotFound => Some(ErrorKind::NotFound),
            ChainError::TransactionNotFound => Some(ErrorKind::NotFound),
            ChainError::LinkedToBlock => Some(ErrorKind::InvalidInput),
            ChainError::Database(_) => None,
            ChainError::Decode(_) => None,
        }
    }

    /// The text of the error.
    pub open spec fn error_text(self) -> Seq<char> {
        match self {
            ChainError::NotFound => "not found"@,
            ChainError::ChainFork => "chain fork"@,
            ChainError::BlockNotFound => "block not found"@,
            ChainError::ForkFound { .. } => "fork found"@,
            ChainError::BlockHeaderNotFound => "block header not found"@,
            ChainError::MappingNotFound => "transaction block mapping not found"@,
            ChainError::TransactionNotFound => "transaction not found"@,
            ChainError::LinkedToBlock =>
                "transaction is linked to a block, please delete the block first"@,
            ChainError::Database(text) => text@,
            ChainError::Decode(text) => text@,
        }
    }

    /// The class of the error; none for an error that the store or the decoder raised.
    pub fn kind(&self) -> (kind: Option<ErrorKind>)
        ensures
            kind == self.error_kind(),
    {
        match self {
            ChainError::NotFound => Some(ErrorKind::Other),
            ChainError::ChainFork => Some(ErrorKind::Other),
            ChainError::BlockNotFound => Some(ErrorKind::NotFound),
            ChainError::ForkFound { .. } => Some(ErrorKind::Other),
            ChainError::BlockHeaderNotFound => Some(ErrorKind::NotFound),
            ChainError::MappingNotFound => Some(ErrorKind::NotFound),
            ChainError::TransactionNotFound => Some(ErrorKind::NotFound),
            ChainError::LinkedToBlock => Some(ErrorKind::InvalidInput),
            ChainError::Database(_) => None,
            ChainError::Decode(_) => None,
        }
    }

    /// The text of the error.
    pub fn message(&self) -> (text: String)
        ensures
            text@ == self.error_text(),
    {
        match self {
            ChainError::NotFound => "not found".to_owned(),
            ChainError::ChainFork => "chain fork".to_owned(),
            ChainError::BlockNotFound => "block not found".to_owned(),
            ChainError::ForkFound { .. } => "fork found".to_owned(),
            ChainError::BlockHeaderNotFound => "block header not found".to_owned(),
            ChainError::MappingNotFound => "transaction block mapping not found".to_owned(),
            ChainError::TransactionNotFound => "transaction not found".to_owned(),
            ChainError::LinkedToBlock =>
                "transaction is linked to a block, please delete the block first".to_owned(),
            ChainError::Database(text) => text.clone(),
            ChainError::Decode(text) => text.clone(),
        }
    }
}

} // verus!

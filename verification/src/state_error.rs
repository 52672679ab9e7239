//! Why an operation on the state database fails.

use crate::chain_error::ErrorKind;
use vstd::prelude::*;

verus! {

/// Why an operation on the state database fails.
#[derive(Debug)]
pub enum StateError {
    /// Layers are not searched.
    CacheDisabled,
    /// There is no layer to write to.
    NoLayersFound,
    /// There is no layer to discard.
    NoLayers,
    /// The store could not be read.
    Read(String),
    /// The store could not be written.
    Write(String),
    /// The text of an address does not parse.
    Address(String),
    /// The genesis configuration makes no block.
    GenesisBlock(String),
}

impl StateError {
    /// The class of the error; none for one that was raised outside: by the store on a write,
    /// by the address parser, or on making the genesis block.
    pub open spec fn error_kind(self) -> Option<ErrorKind> {
        match self {
            StateError::CacheDisabled => Some(ErrorKind::NotFound),
            StateError::NoLayersFound => Some(ErrorKind::Other),
            StateError::NoLayers => Some(ErrorKind::NotFound),
            StateError::Read(_) => Some(ErrorKind::Other),
            StateError::Write(_) => None,
            StateError::Address(_) => None,
            StateError::GenesisBlock(_) => None,
        }
    }

    /// The text of the error.
    pub open spec fn error_text(self) -> Seq<char> {
        match self {
            StateError::CacheDisabled => "cache disabled"@,
            StateError::NoLayersFound => "no db layers found"@,
            StateError::NoLayers => "no layers"@,
            StateError::Read(text) => text@,
            StateError::Write(text) => text@,
            StateError::Address(text) => text@,
            StateError::GenesisBlock(text) => text@,
        }
    }

    /// The class of the error; none for one that was raised outside: by the store on a write,
    /// by the address parser, or on making the genesis block.
    pub fn kind(&self) -> (kind: Option<ErrorKind>)
        ensures
            kind == self.error_kind(),
    {
        match self {
            StateError::CacheDisabled => Some(ErrorKind::NotFound),
            StateError::NoLayersFound => Some(ErrorKind::Other),
            StateError::NoLayers => Some(ErrorKind::NotFound),
            StateError::Read(_) => Some(ErrorKind::Other),
            StateError::Write(_) => None,
            StateError::Address(_) => None,
            StateError::GenesisBlock(_) => None,
        }
    }

    /// The text of the error.
    pub fn message(&self) -> (text: String)
        ensures
            text@ == self.error_text(),
    {
        match self {
            StateError::CacheDisabled => "cache disabled".to_owned(),
            StateError::NoLayersFound => "no db layers found".to_owned(),
            StateError::NoLayers => "no layers".to_owned(),
            StateError::Read(text) => text.clone(),
            StateError::Write(text) => text.clone(),
            StateError::Address(text) => text.clone(),
            StateError::GenesisBlock(text) => text.clone(),
        }
    }
}

} // verus!

//! Blocks and transactions next to their hashes. The messages themselves are opaque here:
//! their encoded bytes on the way into the store, whatever they decode to on the way out.

use crate::hash::H256;
use vstd::prelude::*;

verus! {

/// A block header and the hash of its block.
#[derive(Debug)]
pub struct IndexedBlockHeader<H> {
    pub hash: H256,
    pub raw: H,
}

impl<H> IndexedBlockHeader<H> {
    pub fn new(hash: H256, raw: H) -> (header: IndexedBlockHeader<H>)
        ensures
            header.hash == hash,
            header.raw == raw,
    {
        IndexedBlockHeader { hash, raw }
    }
}

/// A transaction and its hash.
#[derive(Debug)]
pub struct IndexedTransaction<T> {
    pub hash: H256,
    pub raw: T,
}

impl<T> IndexedTransaction<T> {
    pub fn new(hash: H256, raw: T) -> (txn: IndexedTransaction<T>)
        ensures
            txn.hash == hash,
            txn.raw == raw,
    {
        IndexedTransaction { hash, raw }
    }
}

/// A block: its header and its transactions, in order.
#[derive(Debug)]
pub struct IndexedBlock<H, T> {
    pub header: IndexedBlockHeader<H>,
    pub transactions: Vec<IndexedTransaction<T>>,
}

/// A block on its way into the store.
pub type EncodedBlock = IndexedBlock<Vec<u8>, Vec<u8>>;

impl<H, T> IndexedBlock<H, T> {
    pub fn new(header: IndexedBlockHeader<H>, transactions: Vec<IndexedTransaction<T>>) -> (block:
        IndexedBlock<H, T>)
        ensures
            block.header == header,
            block.transactions == transactions,
    {
        IndexedBlock { header, transactions }
    }

    /// The hash of the block.
    pub fn hash(&self) -> (hash: &H256)
        ensures
            *hash == self.header.hash,
    {
        &self.header.hash
    }
}

} // verus!

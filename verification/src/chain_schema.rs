//! The columns, records and keys of the chain database.

use crate::codec::{be_bytes, lemma_be_digits_len, write_u64_be};
use crate::hash::H256;
use crate::settings::{descriptor_views, ColumnDescriptor, DescriptorView};
use crate::store::{BoundView, GetRequest, ScanBound, ScanRequest};
use vstd::prelude::*;

verus! {

/// A column of the chain database.
#[derive(Clone, Copy, Debug, PartialEq, Eq, Structural)]
pub enum ChainColumn {
    /// Single records, each under its name.
    Default,
    /// block hash => header
    BlockHeader,
    /// block hash, transaction index, transaction hash => transaction
    Transaction,
    /// transaction hash => block hash, transaction index
    TransactionBlock,
}

impl ChainColumn {
    /// The name that the store knows the column by.
    pub open spec fn column_name(self) -> Seq<char> {
        match self {
            ChainColumn::Default => "default"@,
            ChainColumn::BlockHeader => "block-header"@,
            ChainColumn::Transaction => "transaction"@,
            ChainColumn::TransactionBlock => "transaction-block"@,
        }
    }

    /// The name that the store knows the column by.
    pub fn name(&self) -> (name: &'static str)
        ensures
            name@ == self.column_name(),
    {
        match self {
            ChainColumn::Default => "default",
            ChainColumn::BlockHeader => "block-header",
            ChainColumn::Transaction => "transaction",
            ChainColumn::TransactionBlock => "transaction-block",
        }
    }
}

/// The columns that the chain database is created with.
pub open spec fn chain_columns() -> Seq<DescriptorView> {
    seq![
        DescriptorView::small("default"@),
        DescriptorView {
            max_write_buffer_number: Some(6),
            ..DescriptorView::plain("block-header"@)
        },
        DescriptorView {
            prefix_len: Some(32),
            max_write_buffer_number: Some(6),
            ..DescriptorView::plain("transaction"@)
        },
        DescriptorView {
            max_write_buffer_number: Some(6),
            ..DescriptorView::plain("transaction-block"@)
        },
    ]
}

/// The columns that the chain database is created with.
pub fn col_descs_for_chain_db() -> (columns: Vec<ColumnDescriptor>)
    ensures
        descriptor_views(columns@) == chain_columns(),
{
    let mut columns: Vec<ColumnDescriptor> = Vec::new();
    columns.push(ColumnDescriptor::small("default"));
    columns.push(ColumnDescriptor::plain("block-header").with_write_buffers(6));
    columns.push(ColumnDescriptor::plain("transaction").with_prefix(32).with_write_buffers(6));
    columns.push(ColumnDescriptor::plain("transaction-block").with_write_buffers(6));
    assert(descriptor_views(columns@) =~= chain_columns());
    columns
}

/// Every column that an operation names is among those the database is created with.
pub proof fn law_chain_columns_exist(column: ChainColumn)
    ensures
        exists|i: int|
            0 <= i < chain_columns().len() && (#[trigger] chain_columns()[i]).name
                == column.column_name(),
{
    let i: int = match column {
        ChainColumn::Default => 0,
        ChainColumn::BlockHeader => 1,
        ChainColumn::Transaction => 2,
        ChainColumn::TransactionBlock => 3,
    };
    assert(chain_columns()[i].name == column.column_name());
}

/// A single record of the default column.
#[derive(Clone, Copy, Debug, PartialEq, Eq, Structural)]
pub enum Record {
    NodeId,
    BlockHeight,
    ParentHashVerified,
    MerkleTreeVerified,
}

impl Record {
    /// The name that the record is stored under.
    pub open spec fn record_name(self) -> Seq<char> {
        match self {
            Record::NodeId => "NODE_ID"@,
            Record::BlockHeight => "BLOCK_HEIGHT"@,
            Record::ParentHashVerified => "PARENT_HASH_VERIFIED"@,
            Record::MerkleTreeVerified => "MERKLE_TREE_VERIFIED"@,
        }
    }

    /// The key of the record: its name, one byte to a character.
    pub open spec fn record_key(self) -> Seq<u8> {
        Seq::new(self.record_name().len(), |i: int| self.record_name()[i] as u8)
    }

    /// The name that the record is stored under.
    pub fn name(&self) -> (name: &'static str)
        ensures
            name@ == self.record_name(),
    {
        match self {
            Record::NodeId => "NODE_ID",
            Record::BlockHeight => "BLOCK_HEIGHT",
            Record::ParentHashVerified => "PARENT_HASH_VERIFIED",
            Record::MerkleTreeVerified => "MERKLE_TREE_VERIFIED",
        }
    }

    /// The key of the record.
    pub fn key(&self) -> (key: Vec<u8>)
        ensures
            key@ == self.record_key(),
    {
        let name = self.name();
        proof {
            reveal_strlit("NODE_ID");
            reveal_strlit("BLOCK_HEIGHT");
            reveal_strlit("PARENT_HASH_VERIFIED");
            reveal_strlit("MERKLE_TREE_VERIFIED");
            assert(name.is_ascii());
            vstd::string::is_ascii_spec_bytes(name);
        }
        let key = vstd::slice::slice_to_vec(name.as_bytes());
        assert(key@ =~= self.record_key());
        key
    }

    /// The read of the record.
    pub fn request(&self) -> (request: GetRequest<ChainColumn>)
        ensures
            request.column == ChainColumn::Default,
            request.key@ == self.record_key(),
    {
        GetRequest { column: ChainColumn::Default, key: self.key() }
    }
}

/// Different records have different keys.
pub proof fn law_records_are_apart(a: Record, b: Record)
    requires
        a != b,
    ensures
        a.record_key() != b.record_key(),
{
    reveal_strlit("NODE_ID");
    reveal_strlit("BLOCK_HEIGHT");
    reveal_strlit("PARENT_HASH_VERIFIED");
    reveal_strlit("MERKLE_TREE_VERIFIED");
    if a.record_key().len() == b.record_key().len() {
        assert(a.record_key()[0] != b.record_key()[0]);
    }
}

/// `n` bytes of zero.
pub open spec fn zeros(n: nat) -> Seq<u8> {
    Seq::new(n, |i: int| 0u8)
}

/// The first hash that a block of this number can have.
pub open spec fn first_hash(num: u64) -> Seq<u8> {
    be_bytes(num) + zeros(24)
}

/// The key of the transaction at `index` of the block `block`.
pub open spec fn transaction_key(block: Seq<u8>, index: u64, txn: Seq<u8>) -> Seq<u8> {
    block + be_bytes(index) + txn
}

/// The value that leads from a transaction to its place: the block and the index there.
pub open spec fn mapping_value(block: Seq<u8>, index: u64) -> Seq<u8> {
    block + be_bytes(index)
}

/// The read of a block header.
pub fn header_request(hash: &H256) -> (request: GetRequest<ChainColumn>)
    ensures
        request.column == ChainColumn::BlockHeader,
        request.key@ == hash@,
{
    GetRequest {
        column: ChainColumn::BlockHeader,
        key: vstd::slice::slice_to_vec(hash.as_bytes()),
    }
}

/// The read that finds where a transaction is.
pub fn mapping_request(id: &H256) -> (request: GetRequest<ChainColumn>)
    ensures
        request.column == ChainColumn::TransactionBlock,
        request.key@ == id@,
{
    GetRequest {
        column: ChainColumn::TransactionBlock,
        key: vstd::slice::slice_to_vec(id.as_bytes()),
    }
}

/// The scan over the headers of the blocks of one number.
pub fn headers_request(num: u64) -> (request: ScanRequest<ChainColumn>)
    ensures
        request.column == ChainColumn::BlockHeader,
        request.from@ == first_hash(num),
        request.bound@ == BoundView::Prefix(be_bytes(num)),
{
    let mut from: Vec<u8> = vec![0u8; 32];
    write_u64_be(from.as_mut_slice(), num);
    proof {
        lemma_be_digits_len(num as nat, 8);
        assert(from@ =~= first_hash(num));
    }
    ScanRequest {
        column: ChainColumn::BlockHeader,
        from,
        bound: ScanBound::Prefix(crate::codec::encode_number(num)),
    }
}

/// The scan over the transactions of a block.
pub fn transactions_request(hash: &H256) -> (request: ScanRequest<ChainColumn>)
    ensures
        request.column == ChainColumn::Transaction,
        request.from@ == hash@,
        request.bound@ == BoundView::Prefix(hash@),
{
    ScanRequest {
        column: ChainColumn::Transaction,
        from: vstd::slice::slice_to_vec(hash.as_bytes()),
        bound: ScanBound::Prefix(vstd::slice::slice_to_vec(hash.as_bytes())),
    }
}

/// The scan over the transactions of all blocks of one number.
pub fn transactions_by_number_request(num: i64) -> (request: ScanRequest<ChainColumn>)
    requires
        num != -1,
    ensures
        request.column == ChainColumn::Transaction,
        request.from@ == be_bytes(num as u64),
        request.bound@ == BoundView::Below(be_bytes((num as u64 + 1) as u64)),
{
    let n = num as u64;
    assert(n == num as u64);
    assert(num != -1 ==> (num as u64) != 0xffff_ffff_ffff_ffffu64) by (bit_vector);
    ScanRequest {
        column: ChainColumn::Transaction,
        from: crate::codec::encode_number(n),
        bound: ScanBound::Below(crate::codec::encode_number(n + 1)),
    }
}

} // verus!

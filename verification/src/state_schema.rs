//! The columns of the state database.

use crate::settings::{descriptor_views, ColumnDescriptor, DescriptorView};
use vstd::prelude::*;

verus! {

pub const COL_DEFAULT: usize = 0;

/// Account, with account resource.
pub const COL_ACCOUNT: usize = 1;

pub const COL_RESOURCE_DELEGATION: usize = 2;

pub const COL_RESOURCE_DELEGATION_INDEX: usize = 3;

pub const COL_VOTES: usize = 4;

pub const COL_CONTRACT: usize = 5;

pub const COL_CONTRACT_CODE: usize = 6;

pub const COL_CONTRACT_STORAGE: usize = 7;

pub const COL_WITNESS: usize = 8;

pub const COL_PROPOSAL: usize = 9;

pub const COL_ASSET: usize = 10;

pub const COL_TRANSACTION_RECEIPT: usize = 11;

pub const COL_INTERNAL_TRANSACTION: usize = 12;

pub const COL_TRANSACTION_LOG: usize = 13;

pub const COL_ACCOUNT_INDEX: usize = 14;

pub const COL_VOTER_REWARD: usize = 15;

pub const COL_EXCHANGE: usize = 16;

/// The number of columns.
pub const COLUMN_COUNT: usize = 17;

/// The columns that the state database is created with. A column's index is its place here.
pub open spec fn state_columns() -> Seq<DescriptorView> {
    seq![
        DescriptorView::small("default"@),
        // address => account
        DescriptorView::plain("account"@),
        // from address, to address => resource delegation
        DescriptorView::plain("resource-delegation"@),
        // to address => from addresses
        DescriptorView::plain("resource-delegation-index"@),
        // address => votes
        DescriptorView::plain("account-votes"@),
        // address => contract
        DescriptorView::plain("contract"@),
        // address => code
        DescriptorView::plain("contract-code"@),
        // contract address, storage key => word
        DescriptorView { prefix_len: Some(32), ..DescriptorView::plain("contract-storage"@) },
        // address => witness
        DescriptorView::small("witness"@),
        // id => proposal
        DescriptorView::small("proposal"@),
        // id => asset
        DescriptorView::plain("asset"@),
        // transaction hash => receipt
        DescriptorView::plain("transaction-receipt"@),
        // transaction hash => internal transaction
        DescriptorView::plain("internal-transaction"@),
        // address, topic, indexed parameters => transaction
        DescriptorView { prefix_len: Some(32), ..DescriptorView::plain("transaction-log"@) },
        // account name => address
        DescriptorView { uncompressed: true, ..DescriptorView::plain("account-index"@) },
        DescriptorView::plain("voter-reward"@),
        DescriptorView::plain("exchange"@),
    ]
}

/// The columns that the state database is created with.
pub fn col_descs_for_state_db() -> (columns: Vec<ColumnDescriptor>)
    ensures
        descriptor_views(columns@) == state_columns(),
{
    let mut columns: Vec<ColumnDescriptor> = Vec::new();
    columns.push(ColumnDescriptor::small("default"));
    columns.push(ColumnDescriptor::plain("account"));
    columns.push(ColumnDescriptor::plain("resource-delegation"));
    columns.push(ColumnDescriptor::plain("resource-delegation-index"));
    columns.push(ColumnDescriptor::plain("account-votes"));
    columns.push(ColumnDescriptor::plain("contract"));
    columns.push(ColumnDescriptor::plain("contract-code"));
    columns.push(ColumnDescriptor::plain("contract-storage").with_prefix(32));
    columns.push(ColumnDescriptor::small("witness"));
    columns.push(ColumnDescriptor::small("proposal"));
    columns.push(ColumnDescriptor::plain("asset"));
    columns.push(ColumnDescriptor::plain("transaction-receipt"));
    columns.push(ColumnDescriptor::plain("internal-transaction"));
    columns.push(ColumnDescriptor::plain("transaction-log").with_prefix(32));
    columns.push(ColumnDescriptor::plain("account-index").without_compression());
    columns.push(ColumnDescriptor::plain("voter-reward"));
    columns.push(ColumnDescriptor::plain("exchange"));
    assert(descriptor_views(columns@) =~= state_columns());
    columns
}

/// The name of the column with this index.
pub open spec fn state_column_name(index: int) -> Seq<char> {
    state_columns()[index].name
}

/// The texts of the names are those of the columns, in order.
pub open spec fn are_column_names(names: Seq<String>) -> bool {
    &&& names.len() == COLUMN_COUNT
    &&& forall|i: int| 0 <= i < names.len() ==> (#[trigger] names[i])@ == state_column_name(i)
}

/// The names of the columns, each at its index.
pub fn state_column_names() -> (names: Vec<String>)
    ensures
        are_column_names(names@),
{
    let columns = col_descs_for_state_db();
    let mut names: Vec<String> = Vec::new();
    let mut i: usize = 0;
    proof {
        assert(descriptor_views(columns@).len() == columns@.len());
        assert(state_columns().len() == COLUMN_COUNT);
    }
    while i < columns.len()
        invariant
            i <= columns@.len(),
            columns@.len() == COLUMN_COUNT,
            names@.len() == i,
            descriptor_views(columns@) == state_columns(),
            forall|j: int| 0 <= j < i ==> (#[trigger] names@[j])@ == state_column_name(j),
        decreases columns@.len() - i,
    {
        assert(descriptor_views(columns@)[i as int] == columns@[i as int]@);
        names.push(columns[i].name.to_owned());
        i += 1;
    }
    names
}

/// Each column constant is the index of the column it is named for.
pub proof fn law_column_indices()
    ensures
        state_columns().len() == COLUMN_COUNT,
        state_column_name(COL_DEFAULT as int) == "default"@,
        state_column_name(COL_ACCOUNT as int) == "account"@,
        state_column_name(COL_RESOURCE_DELEGATION as int) == "resource-delegation"@,
        state_column_name(COL_RESOURCE_DELEGATION_INDEX as int) == "resource-delegation-index"@,
        state_column_name(COL_VOTES as int) == "account-votes"@,
        state_column_name(COL_CONTRACT as int) == "contract"@,
        state_column_name(COL_CONTRACT_CODE as int) == "contract-code"@,
        state_column_name(COL_CONTRACT_STORAGE as int) == "contract-storage"@,
        state_column_name(COL_WITNESS as int) == "witness"@,
        state_column_name(COL_PROPOSAL as int) == "proposal"@,
        state_column_name(COL_ASSET as int) == "asset"@,
        state_column_name(COL_TRANSACTION_RECEIPT as int) == "transaction-receipt"@,
        state_column_name(COL_INTERNAL_TRANSACTION as int) == "internal-transaction"@,
        state_column_name(COL_TRANSACTION_LOG as int) == "transaction-log"@,
        state_column_name(COL_ACCOUNT_INDEX as int) == "account-index"@,
        state_column_name(COL_VOTER_REWARD as int) == "voter-reward"@,
        state_column_name(COL_EXCHANGE as int) == "exchange"@,
{
}

} // verus!

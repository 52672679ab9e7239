//! Storage rules of a block chain node: how blocks, transactions and account state are laid
//! out in an ordered key-value store, and what is read back from it.

pub mod answers;
pub mod batch;
pub mod block;
pub mod chain_calls;
pub mod chain_db;
pub mod chain_error;
pub mod chain_invariant;
pub mod chain_laws;
pub mod chain_schema;
pub mod codec;
pub mod genesis;
pub mod genesis_calls;
pub mod hash;
pub mod node_id;
pub mod overlay;
pub mod report;
pub mod settings;
pub mod state_calls;
pub mod state_db;
pub mod state_error;
pub mod state_laws;
pub mod state_schema;
pub mod store;

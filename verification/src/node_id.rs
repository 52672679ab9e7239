//! The identity under which a node is known to its peers.

use crate::batch::BatchOp;
use crate::chain_db::{record_op, ChainDB};
use crate::chain_schema::{ChainColumn, Record};
use crate::store::Fetched;
use rand::Rng;
use vstd::prelude::*;
use vstd::slice::slice_to_vec;

verus! {

/// The identity with this tail: 32 times the letter A, then the tail.
pub open spec fn node_id(tail: Seq<u8>) -> Seq<u8> {
    Seq::new(32, |i: int| 65u8) + tail
}

/// `id` is an identity with some tail of 32 bytes.
pub open spec fn is_node_id(id: Seq<u8>) -> bool {
    exists|tail: Seq<u8>| tail.len() == 32 && id == #[trigger] node_id(tail)
}

/// Calls `rand::Rng::fill` on `rand::thread_rng()`: every byte of `buf` becomes a random one,
/// and their number stays. Which bytes come is chance and left open.
#[verifier::external_body]
pub(crate) fn fill_random(buf: &mut [u8])
    ensures
        final(buf)@.len() == old(buf)@.len(),
{
    rand::thread_rng().fill(buf)
}

/// The identity with this tail.
pub fn node_id_with_tail(tail: &[u8]) -> (id: Vec<u8>)
    requires
        tail@.len() == 32,
    ensures
        id@ == node_id(tail@),
{
    let mut id: Vec<u8> = vec![65u8; 32];
    id.extend_from_slice(tail);
    assert(id@ =~= node_id(tail@));
    id
}

/// The write that stores an identity.
pub fn node_id_record(id: &Vec<u8>) -> (op: BatchOp<ChainColumn>)
    ensures
        op@ == record_op(Record::NodeId, id@),
{
    BatchOp::Put {
        column: ChainColumn::Default,
        key: Record::NodeId.key(),
        value: slice_to_vec(id.as_slice()),
    }
}

impl ChainDB {
    /// A new identity with a random tail, and the write that stores it.
    pub fn reset_node_id() -> (fresh: (Vec<u8>, BatchOp<ChainColumn>))
        ensures
            is_node_id(fresh.0@),
            fresh.1@ == record_op(Record::NodeId, fresh.0@),
    {
        let mut tail: Vec<u8> = vec![65u8; 32];
        fill_random(tail.as_mut_slice());
        let id = node_id_with_tail(tail.as_slice());
        let op = node_id_record(&id);
        (id, op)
    }

    /// The stored identity, out of the record [`Record::NodeId`]. Where there is none, or it
    /// cannot be read, a new one, and the write that stores it.
    pub fn get_node_id(stored: Fetched<Vec<u8>>) -> (found: (Vec<u8>, Option<BatchOp<ChainColumn>>))
        ensures
            match stored {
                Ok(Some(id)) => found.0 == id && found.1 is None,
                _ => is_node_id(found.0@) && (found.1 matches Some(op) && op@ == record_op(
                    Record::NodeId,
                    found.0@,
                )),
            },
    {
        match stored {
            Ok(Some(id)) => (id, None),
            _ => {
                let (id, op) = ChainDB::reset_node_id();
                (id, Some(op))
            },
        }
    }
}

} // verus!

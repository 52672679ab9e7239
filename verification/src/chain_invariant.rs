//! What every operation on the chain database keeps.

use crate::answers::{is_answer, is_scan, law_prefix_scan_is_exact, verbatim};
use crate::batch::{apply_op, apply_ops};
use crate::block::EncodedBlock;
use crate::chain_db::{
    deletion_ops, keys_have_len, number_readable, record_op, transaction_keys_whole,
};
use crate::chain_laws::{
    column_keys_have_len, inserted, last_of_its_hash, law_deleted_transaction_is_gone,
    law_header_scan_is_exact, law_insert_stores_the_block, lemma_key_parts, own_key, same_at,
    ChainStore,
};
use crate::chain_schema::{first_hash, law_records_are_apart, ChainColumn, Record};
use crate::codec::{be_bytes, lemma_be_round_trip};
use crate::hash::{lemma_hash_len, H256};
use crate::store::{keys_reach, taken, BoundView, Fetched, Row};
use vstd::prelude::*;

verus! {

broadcast use lemma_hash_len;

/// A record that holds a number.
pub open spec fn is_number_record(record: Record) -> bool {
    record != Record::NodeId
}

/// The database is well formed: headers are stored under hashes, transactions under their
/// places, places under hashes; every place leads to a stored transaction; number records
/// hold numbers.
pub open spec fn well_formed(store: ChainStore) -> bool {
    &&& column_keys_have_len(store, ChainColumn::BlockHeader, 32)
    &&& column_keys_have_len(store, ChainColumn::Transaction, 72)
    &&& column_keys_have_len(store, ChainColumn::TransactionBlock, 32)
    &&& forall|hash: Seq<u8>|
        #![trigger store.contains_key((ChainColumn::TransactionBlock, hash))]
        store.contains_key((ChainColumn::TransactionBlock, hash)) ==> {
            let place = store[(ChainColumn::TransactionBlock, hash)];
            place.len() == 40 && store.contains_key((ChainColumn::Transaction, place + hash))
        }
    &&& forall|record: Record|
        is_number_record(record) && store.contains_key(
            (ChainColumn::Default, #[trigger] record.record_key()),
        ) ==> store[(ChainColumn::Default, record.record_key())].len() == 8
}

/// An empty database is well formed.
pub proof fn law_empty_is_well_formed()
    ensures
        well_formed(ChainStore::empty()),
{
}

/// The last place of a hash in a block.
proof fn lemma_last_place(block: EncodedBlock, hash: Seq<u8>, n: int) -> (i: int)
    requires
        0 <= n <= block.transactions@.len(),
        exists|j: int| 0 <= j < n && (#[trigger] block.transactions@[j]).hash@ == hash,
    ensures
        0 <= i < n,
        block.transactions@[i].hash@ == hash,
        last_of_its_hash(block, i, n),
    decreases n,
{
    if block.transactions@[n - 1].hash@ == hash {
        n - 1
    } else {
        let i = lemma_last_place(block, hash, n - 1);
        assert forall|j: int| i < j < n implies (#[trigger] block.transactions@[j]).hash@
            != block.transactions@[i].hash@ by {
            if j < n - 1 {
                assert(last_of_its_hash(block, i, n - 1));
            }
        }
        i
    }
}

/// Inserting a block keeps the database well formed.
pub proof fn law_insert_keeps_well_formed(store: ChainStore, block: EncodedBlock)
    requires
        well_formed(store),
    ensures
        well_formed(inserted(store, block)),
{
    let after = inserted(store, block);
    let n = block.transactions@.len() as int;
    law_insert_stores_the_block(store, block);
    assert forall|key: Seq<u8>| #[trigger]
        after.contains_key((ChainColumn::BlockHeader, key)) implies key.len() == 32 by {
        if key != block.header.hash@ {
            assert(same_at(store, after, ChainColumn::BlockHeader, key));
        }
    }
    assert forall|key: Seq<u8>| #[trigger]
        after.contains_key((ChainColumn::Transaction, key)) implies key.len() == 72 by {
        if exists|i: int| 0 <= i < n && key == #[trigger] own_key(block, i) {
            let i = choose|i: int| 0 <= i < n && key == #[trigger] own_key(block, i);
            lemma_key_parts(block.header.hash@, i as u64, block.transactions@[i].hash@);
        } else {
            assert(same_at(store, after, ChainColumn::Transaction, key));
        }
    }
    assert forall|hash: Seq<u8>| #[trigger]
        after.contains_key((ChainColumn::TransactionBlock, hash)) implies hash.len() == 32 && {
        let place = after[(ChainColumn::TransactionBlock, hash)];
        place.len() == 40 && after.contains_key((ChainColumn::Transaction, place + hash))
    } by {
        if exists|j: int| 0 <= j < n && (#[trigger] block.transactions@[j]).hash@ == hash {
            let i = lemma_last_place(block, hash, n);
            lemma_key_parts(block.header.hash@, i as u64, hash);
            assert(after.contains_key((ChainColumn::Transaction, own_key(block, i))));
        } else {
            assert(same_at(store, after, ChainColumn::TransactionBlock, hash));
            let place = store[(ChainColumn::TransactionBlock, hash)];
            let key = place + hash;
            if !exists|i: int| 0 <= i < n && key == #[trigger] own_key(block, i) {
                assert(same_at(store, after, ChainColumn::Transaction, key));
            }
        }
    }
    assert forall|record: Record|
        is_number_record(record) && after.contains_key(
            (ChainColumn::Default, #[trigger] record.record_key()),
        ) implies after[(ChainColumn::Default, record.record_key())].len() == 8 by {
        assert(same_at(store, after, ChainColumn::Default, record.record_key()));
    }
}

/// Writing a number record keeps the database well formed.
pub proof fn law_number_write_keeps_well_formed(store: ChainStore, record: Record, num: u64)
    requires
        well_formed(store),
    ensures
        well_formed(apply_op(store, record_op(record, be_bytes(num)))),
{
    lemma_be_round_trip(num);
    let after = apply_op(store, record_op(record, be_bytes(num)));
    lemma_record_write_keeps_rest(store, record, be_bytes(num));
    assert forall|other: Record|
        is_number_record(other) && after.contains_key(
            (ChainColumn::Default, #[trigger] other.record_key()),
        ) implies after[(ChainColumn::Default, other.record_key())].len() == 8 by {
        if other != record {
            law_records_are_apart(record, other);
        }
    }
}

/// Writing the node's identity keeps the database well formed, whatever the identity is.
pub proof fn law_node_id_write_keeps_well_formed(store: ChainStore, id: Seq<u8>)
    requires
        well_formed(store),
    ensures
        well_formed(apply_op(store, record_op(Record::NodeId, id))),
{
    let after = apply_op(store, record_op(Record::NodeId, id));
    lemma_record_write_keeps_rest(store, Record::NodeId, id);
    assert forall|other: Record|
        is_number_record(other) && after.contains_key(
            (ChainColumn::Default, #[trigger] other.record_key()),
        ) implies after[(ChainColumn::Default, other.record_key())].len() == 8 by {
        law_records_are_apart(Record::NodeId, other);
    }
}

proof fn lemma_record_write_keeps_rest(store: ChainStore, record: Record, value: Seq<u8>)
    requires
        well_formed(store),
    ensures
        ({
            let after = apply_op(store, record_op(record, value));
            &&& column_keys_have_len(after, ChainColumn::BlockHeader, 32)
            &&& column_keys_have_len(after, ChainColumn::Transaction, 72)
            &&& column_keys_have_len(after, ChainColumn::TransactionBlock, 32)
            &&& forall|hash: Seq<u8>|
                #![trigger after.contains_key((ChainColumn::TransactionBlock, hash))]
                after.contains_key((ChainColumn::TransactionBlock, hash)) ==> {
                    let place = after[(ChainColumn::TransactionBlock, hash)];
                    place.len() == 40 && after.contains_key(
                        (ChainColumn::Transaction, place + hash),
                    )
                }
        }),
{
    let after = apply_op(store, record_op(record, value));
    assert forall|key: Seq<u8>| #[trigger]
        after.contains_key((ChainColumn::BlockHeader, key)) implies key.len() == 32 by {
        assert(store.contains_key((ChainColumn::BlockHeader, key)));
    }
    assert forall|key: Seq<u8>| #[trigger]
        after.contains_key((ChainColumn::Transaction, key)) implies key.len() == 72 by {
        assert(store.contains_key((ChainColumn::Transaction, key)));
    }
    assert forall|hash: Seq<u8>| #[trigger]
        after.contains_key((ChainColumn::TransactionBlock, hash)) implies hash.len() == 32 && {
        let place = after[(ChainColumn::TransactionBlock, hash)];
        place.len() == 40 && after.contains_key((ChainColumn::Transaction, place + hash))
    } by {
        assert(store.contains_key((ChainColumn::TransactionBlock, hash)));
    }
}

/// Deleting a transaction from the place that is stored for it keeps the database well
/// formed.
pub proof fn law_deletion_keeps_well_formed(store: ChainStore, hash: Seq<u8>)
    requires
        well_formed(store),
        store.contains_key((ChainColumn::TransactionBlock, hash)),
    ensures
        well_formed(
            apply_ops(store, deletion_ops(store[(ChainColumn::TransactionBlock, hash)], hash)),
        ),
{
    let gone = store[(ChainColumn::TransactionBlock, hash)];
    let after = apply_ops(store, deletion_ops(gone, hash));
    law_deleted_transaction_is_gone(store, gone, hash);
    assert forall|key: Seq<u8>| #[trigger]
        after.contains_key((ChainColumn::BlockHeader, key)) implies key.len() == 32 by {
        assert(same_at(store, after, ChainColumn::BlockHeader, key));
    }
    assert forall|key: Seq<u8>| #[trigger]
        after.contains_key((ChainColumn::Transaction, key)) implies key.len() == 72 by {
        assert(same_at(store, after, ChainColumn::Transaction, key));
    }
    assert forall|other: Seq<u8>| #[trigger]
        after.contains_key((ChainColumn::TransactionBlock, other)) implies other.len() == 32 && {
        let place = after[(ChainColumn::TransactionBlock, other)];
        place.len() == 40 && after.contains_key((ChainColumn::Transaction, place + other))
    } by {
        assert(same_at(store, after, ChainColumn::TransactionBlock, other));
        let place = store[(ChainColumn::TransactionBlock, other)];
        assert(place + other != gone + hash) by {
            assert((place + other).skip(40) =~= other);
            assert((gone + hash).skip(40) =~= hash);
        }
        assert(same_at(store, after, ChainColumn::Transaction, place + other));
    }
    assert forall|record: Record|
        is_number_record(record) && after.contains_key(
            (ChainColumn::Default, #[trigger] record.record_key()),
        ) implies after[(ChainColumn::Default, record.record_key())].len() == 8 by {
        assert(same_at(store, after, ChainColumn::Default, record.record_key()));
    }
}

/// On a well formed database number records hold numbers.
pub proof fn law_numbers_are_readable(store: ChainStore, record: Record, stored: Fetched<Vec<u8>>)
    requires
        well_formed(store),
        is_number_record(record),
        is_answer(stored, store, ChainColumn::Default, record.record_key(), verbatim()),
    ensures
        number_readable(stored),
{
}

/// On a well formed database the place of a transaction is a block hash and an index, and
/// the transaction is there.
pub proof fn law_places_are_whole(store: ChainStore, id: Seq<u8>, mapping: Fetched<Vec<u8>>)
    requires
        well_formed(store),
        is_answer(mapping, store, ChainColumn::TransactionBlock, id, verbatim()),
    ensures
        mapping matches Ok(Some(place)) ==> place@.len() == 40 && store.contains_key(
            (ChainColumn::Transaction, place@ + id),
        ),
{
}

/// On a well formed database the headers of a number are stored under hashes.
pub proof fn law_header_keys_are_whole<V>(
    store: ChainStore,
    num: u64,
    items: Seq<Option<Row<V>>>,
    reads: spec_fn(Seq<u8>, V) -> bool,
)
    requires
        well_formed(store),
        is_scan(items, store, ChainColumn::BlockHeader, first_hash(num), reads),
    ensures
        keys_reach(items, BoundView::Prefix(be_bytes(num)), 8),
        keys_have_len(taken(items, BoundView::Prefix(be_bytes(num))), 32),
{
    law_header_scan_is_exact(store, num, items, reads);
}

/// On a well formed database the rows of a block have keys of a block hash, an index and a
/// transaction hash.
pub proof fn law_transaction_keys_are_whole<T>(
    store: ChainStore,
    hash: H256,
    items: Seq<Option<Row<Result<T, String>>>>,
    reads: spec_fn(Seq<u8>, Result<T, String>) -> bool,
)
    requires
        well_formed(store),
        is_scan(items, store, ChainColumn::Transaction, hash@, reads),
    ensures
        keys_have_len(taken(items, BoundView::Prefix(hash@)), 72),
        transaction_keys_whole(taken(items, BoundView::Prefix(hash@))),
{
    assert(hash@.take(32) =~= hash@);
    law_prefix_scan_is_exact(items, store, ChainColumn::Transaction, hash@, hash@, reads);
}

} // verus!

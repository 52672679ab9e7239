//! What calls of the chain database's operations answer, over the store that they read and
//! write.

use crate::answers::{
    decoded, is_answer, is_scan, law_failed_reads_are_passed_over, law_prefix_scan_is_exact,
    lemma_taken_initial, row_keys, verbatim,
};
use crate::batch::{
    apply_op, apply_ops, lemma_apply_concat, lemma_apply_push, op_views, BatchOp, OpView,
};
use crate::block::{EncodedBlock, IndexedBlock, IndexedBlockHeader, IndexedTransaction};
use crate::chain_db::{
    block_ops, decoded_transactions, deletion_ops, hash_views, hashes_in_keys, header_views,
    headers_in, transaction_ops, txn_views, ChainDB, PendingBlock, PendingDeletion,
    PendingHeader, PendingTransaction,
};
use crate::chain_error::{ChainError, ErrorKind};
use crate::chain_laws::{
    block_transactions, inserted, last_of_its_hash, law_header_scan_is_exact,
    law_height_is_read_back, law_insert_stores_the_block, law_inserted_block_is_found_by_number,
    law_inserted_block_is_read_back, law_inserted_hashes_are_listed,
    law_inserted_transaction_is_found, law_number_is_read_back, law_number_scan_is_a_prefix_scan,
    own_key, own_rows_only, same_at, ChainStore,
};
use crate::chain_schema::{
    chain_columns, col_descs_for_chain_db, header_request, headers_request,
    law_records_are_apart, mapping_request, transactions_by_number_request, transactions_request,
    ChainColumn, Record,
};
use crate::codec::{be_bytes, has_prefix, lemma_be_round_trip, lemma_lex_irreflexive, lex_lt};
use crate::hash::{lemma_hash_len, H256};
use crate::node_id::{node_id, node_id_record, node_id_with_tail};
use crate::report::{
    decimal_text, fork_lines, fork_report, hex_text, line_texts, row_bytes, StoredHeader,
};
use crate::settings::{descriptor_views, ColumnDescriptor, DbSettings};
use crate::store::{taken, BoundView, Fetched, GetRequest, Row, ScanBound, ScanRequest};
use vstd::prelude::*;

verus! {

broadcast use lemma_hash_len;

/// The store after a batch.
pub open spec fn written(store: ChainStore, batch: Seq<BatchOp<ChainColumn>>) -> ChainStore {
    apply_ops(store, op_views(batch))
}

/// The store's headers are stored under hashes.
pub open spec fn headers_under_hashes(store: ChainStore) -> bool {
    forall|key: Seq<u8>| #[trigger]
        store.contains_key((ChainColumn::BlockHeader, key)) ==> key.len() == 32
}

/// A block of this number is stored under `key`.
pub open spec fn has_number(store: ChainStore, key: Seq<u8>, num: u64) -> bool {
    store.contains_key((ChainColumn::BlockHeader, key)) && has_prefix(key, be_bytes(num))
}

/// A stored header as its bytes and what they decode to.
pub open spec fn with_bytes<H>(decode: spec_fn(Seq<u8>) -> Result<H, String>) -> spec_fn(
    Seq<u8>,
    StoredHeader<H>,
) -> bool {
    |bytes: Seq<u8>, header: StoredHeader<H>|
        header.bytes@ == bytes && header.message == decode(bytes)
}

/// The batch stores the `i`th transaction of a block under block hash, index and its own hash,
/// and block hash and index under its own hash.
pub open spec fn stores_transaction(
    batch: Seq<BatchOp<ChainColumn>>,
    block: EncodedBlock,
    i: int,
) -> bool {
    let txn = block.transactions@[i];
    let place = block.header.hash@ + be_bytes(i as u64);
    &&& match batch[1 + 2 * i] {
        BatchOp::Put { column, key, value } => column == ChainColumn::Transaction && key@ == place
            + txn.hash@ && value@ == txn.raw@,
        BatchOp::Delete { .. } => false,
    }
    &&& match batch[2 + 2 * i] {
        BatchOp::Put { column, key, value } => column == ChainColumn::TransactionBlock && key@
            == txn.hash@ && value@ == place,
        BatchOp::Delete { .. } => false,
    }
}

/// The parts of the batch that stores a block: the header under the block's hash, then for
/// each transaction itself under block hash, index and its own hash, and block hash and index
/// under its own hash.
pub proof fn law_batch_of_a_block(block: EncodedBlock, batch: Vec<BatchOp<ChainColumn>>)
    requires
        call_ensures(ChainDB::insert_block, (&block,), batch),
    ensures
        batch@.len() == 1 + 2 * block.transactions@.len(),
        batch@[0] matches BatchOp::Put { column, key, value } && column == ChainColumn::BlockHeader
            && key@ == block.header.hash@ && value@ == block.header.raw@,
        forall|i: int|
            0 <= i < block.transactions@.len() ==> #[trigger] stores_transaction(batch@, block, i),
{
    let n = block.transactions@.len();
    let views = op_views(batch@);
    lemma_transaction_ops_len(block, n);
    assert(views == block_ops(block));
    assert(views.len() == batch@.len());
    assert(views[0] == batch@[0]@);
    assert forall|i: int| 0 <= i < n implies #[trigger] stores_transaction(batch@, block, i) by {
        lemma_transaction_ops_at(block, n, i);
        assert(views[1 + 2 * i] == batch@[1 + 2 * i]@);
        assert(views[2 + 2 * i] == batch@[2 + 2 * i]@);
        assert(views[1 + 2 * i] == transaction_ops(block, n)[2 * i]);
        assert(views[2 + 2 * i] == transaction_ops(block, n)[2 * i + 1]);
    }
}

proof fn lemma_transaction_ops_len(block: EncodedBlock, n: nat)
    ensures
        transaction_ops(block, n).len() == 2 * n,
    decreases n,
{
    if n > 0 {
        lemma_transaction_ops_len(block, (n - 1) as nat);
    }
}

proof fn lemma_transaction_ops_at(block: EncodedBlock, n: nat, i: int)
    requires
        0 <= i < n,
    ensures
        ({
            let txn = block.transactions@[i];
            let place = block.header.hash@ + be_bytes(i as u64);
            &&& transaction_ops(block, n)[2 * i] == OpView::Put {
                column: ChainColumn::Transaction,
                key: place + txn.hash@,
                value: txn.raw@,
            }
            &&& transaction_ops(block, n)[2 * i + 1] == OpView::Put {
                column: ChainColumn::TransactionBlock,
                key: txn.hash@,
                value: place,
            }
        }),
    decreases n,
{
    lemma_transaction_ops_len(block, (n - 1) as nat);
    if i < n - 1 {
        lemma_transaction_ops_at(block, (n - 1) as nat, i);
    }
}

/// After the batch of a block has been written, the store holds the block's header under its
/// hash and each transaction under block hash, index and its own hash. Of the places stored
/// under a transaction's hash the last in the block counts. Nothing else has changed.
pub proof fn law_block_is_inserted(
    store: ChainStore,
    block: EncodedBlock,
    batch: Vec<BatchOp<ChainColumn>>,
)
    requires
        call_ensures(ChainDB::insert_block, (&block,), batch),
    ensures
        ({
            let after = written(store, batch@);
            let hash = block.header.hash@;
            let n = block.transactions@.len();
            &&& after.contains_key((ChainColumn::BlockHeader, hash))
            &&& after[(ChainColumn::BlockHeader, hash)] == block.header.raw@
            &&& forall|i: int|
                0 <= i < n ==> {
                    let txn = #[trigger] block.transactions@[i];
                    let at = (ChainColumn::Transaction, hash + be_bytes(i as u64) + txn.hash@);
                    after.contains_key(at) && after[at] == txn.raw@
                }
            &&& forall|i: int|
                0 <= i < n && (forall|j: int|
                    i < j < n ==> (#[trigger] block.transactions@[j]).hash@
                        != block.transactions@[i].hash@) ==> {
                    let at = (
                        ChainColumn::TransactionBlock,
                        (#[trigger] block.transactions@[i]).hash@,
                    );
                    after.contains_key(at) && after[at] == hash + be_bytes(i as u64)
                }
            &&& forall|key: Seq<u8>|
                key != hash ==> #[trigger] same_at(store, after, ChainColumn::BlockHeader, key)
            &&& forall|key: Seq<u8>|
                (forall|i: int|
                    0 <= i < n ==> key != hash + be_bytes(i as u64) + (
                    #[trigger] block.transactions@[i]).hash@) ==> #[trigger] same_at(
                    store,
                    after,
                    ChainColumn::Transaction,
                    key,
                )
            &&& forall|key: Seq<u8>|
                (forall|i: int| 0 <= i < n ==> key != (#[trigger] block.transactions@[i]).hash@)
                    ==> #[trigger] same_at(store, after, ChainColumn::TransactionBlock, key)
            &&& forall|key: Seq<u8>| #[trigger] same_at(store, after, ChainColumn::Default, key)
        }),
{
    law_insert_stores_the_block(store, block);
    let after = written(store, batch@);
    assert(after == inserted(store, block));
    let hash = block.header.hash@;
    let n = block.transactions@.len();
    assert forall|i: int| 0 <= i < n implies {
        let txn = #[trigger] block.transactions@[i];
        let at = (ChainColumn::Transaction, hash + be_bytes(i as u64) + txn.hash@);
        after.contains_key(at) && after[at] == txn.raw@
    } by {
        let own = own_key(block, i);
        assert(after.contains_key((ChainColumn::Transaction, own)));
    }
    assert forall|i: int|
        0 <= i < n && (forall|j: int|
            i < j < n ==> (#[trigger] block.transactions@[j]).hash@
                != block.transactions@[i].hash@) implies {
        let at = (ChainColumn::TransactionBlock, (#[trigger] block.transactions@[i]).hash@);
        after.contains_key(at) && after[at] == hash + be_bytes(i as u64)
    } by {
        assert(last_of_its_hash(block, i, n as int));
    }
    assert forall|key: Seq<u8>|
        (forall|i: int|
            0 <= i < n ==> key != hash + be_bytes(i as u64) + (
            #[trigger] block.transactions@[i]).hash@) implies #[trigger] same_at(
        store,
        after,
        ChainColumn::Transaction,
        key,
    ) by {
        assert forall|i: int| 0 <= i < n implies key != #[trigger] own_key(block, i) by {
            let txn = block.transactions@[i];
            assert(key != hash + be_bytes(i as u64) + txn.hash@);
        }
    }
}

/// `read` is the block that was stored.
pub open spec fn is_the_block<H, T>(
    read: IndexedBlock<H, T>,
    block: EncodedBlock,
    decode_header: spec_fn(Seq<u8>) -> Result<H, String>,
    decode: spec_fn(Seq<u8>) -> Result<T, String>,
) -> bool {
    &&& read.header.hash@ == block.header.hash@
    &&& decode_header(block.header.raw@) == Ok::<_, String>(read.header.raw)
    &&& read.transactions@.len() == block.transactions@.len()
    &&& forall|i: int|
        0 <= i < block.transactions@.len() ==> {
            &&& (#[trigger] read.transactions@[i]).hash@ == block.transactions@[i].hash@
            &&& decode(block.transactions@[i].raw@) == Ok::<_, String>(read.transactions@[i].raw)
        }
}

/// All messages of a block decode.
pub open spec fn block_decodes<H, T>(
    block: EncodedBlock,
    decode_header: spec_fn(Seq<u8>) -> Result<H, String>,
    decode: spec_fn(Seq<u8>) -> Result<T, String>,
) -> bool {
    &&& decode_header(block.header.raw@) is Ok
    &&& forall|i: int|
        0 <= i < block.transactions@.len() ==> decode(
            (#[trigger] block.transactions@[i]).raw@,
        ) is Ok
}

/// The block that the scan over an inserted block's transactions completes.
proof fn lemma_completed<H, T>(
    store: ChainStore,
    block: EncodedBlock,
    header: IndexedBlockHeader<H>,
    items: Vec<Option<Row<Result<T, String>>>>,
    read: Result<IndexedBlock<H, T>, ChainError>,
    decode_header: spec_fn(Seq<u8>) -> Result<H, String>,
    decode: spec_fn(Seq<u8>) -> Result<T, String>,
)
    requires
        own_rows_only(store, block, block.header.hash@),
        block_decodes(block, decode_header, decode),
        header.hash@ == block.header.hash@,
        decode_header(block.header.raw@) == Ok::<_, String>(header.raw),
        is_scan(
            items@,
            inserted(store, block),
            ChainColumn::Transaction,
            block.header.hash@,
            decoded(decode),
        ),
        call_ensures(ChainDB::get_block_from_header::<H, T>, (header, items), read),
    ensures
        read matches Ok(found) && is_the_block(found, block, decode_header, decode),
{
    law_insert_stores_the_block(store, block);
    let fetched: Fetched<Result<H, String>> = Ok(Some(decode_header(block.header.raw@)));
    law_inserted_block_is_read_back(store, block, fetched, items@, decode_header, decode);
    let want = block_transactions(block, decode);
    assert(read is Ok);
    let found = read->Ok_0;
    assert(txn_views(found.transactions@) == want);
    assert(txn_views(found.transactions@).len() == found.transactions@.len());
    assert forall|i: int| 0 <= i < block.transactions@.len() implies {
        &&& (#[trigger] found.transactions@[i]).hash@ == block.transactions@[i].hash@
        &&& decode(block.transactions@[i].raw@) == Ok::<_, String>(found.transactions@[i].raw)
    } by {
        assert(want[i] == txn_views(found.transactions@)[i]);
        assert(txn_views(found.transactions@)[i] == (
            found.transactions@[i].hash@,
            found.transactions@[i].raw,
        ));
        assert(decode(block.transactions@[i].raw@) is Ok);
    }
}

/// A block that was inserted and is the only one of its number is read back by its number:
/// the scan that is asked for next, answered by the store, completes the block with its
/// header and all its transactions, in order.
pub proof fn law_inserted_block_is_read_by_number<H, T>(
    store: ChainStore,
    block: EncodedBlock,
    batch: Vec<BatchOp<ChainColumn>>,
    num: u64,
    request: ScanRequest<ChainColumn>,
    items: Vec<Option<Row<StoredHeader<H>>>>,
    found: Result<PendingBlock<H>, ChainError>,
    txn_items: Vec<Option<Row<Result<T, String>>>>,
    read: Result<IndexedBlock<H, T>, ChainError>,
    decode_header: spec_fn(Seq<u8>) -> Result<H, String>,
    decode: spec_fn(Seq<u8>) -> Result<T, String>,
)
    requires
        call_ensures(ChainDB::insert_block, (&block,), batch),
        headers_under_hashes(store),
        has_prefix(block.header.hash@, be_bytes(num)),
        forall|key: Seq<u8>| #[trigger]
            has_number(store, key, num) ==> key == block.header.hash@,
        own_rows_only(store, block, block.header.hash@),
        block_decodes(block, decode_header, decode),
        call_ensures(headers_request, (num,), request),
        is_scan(
            items@,
            written(store, batch@),
            request.column,
            request.from@,
            with_bytes(decode_header),
        ),
        call_ensures(ChainDB::get_block_by_number::<H>, (num, items), found),
        found matches Ok(pending) ==> is_scan(
            txn_items@,
            written(store, batch@),
            pending.request.column,
            pending.request.from@,
            decoded(decode),
        ) && call_ensures(
            ChainDB::get_block_from_header::<H, T>,
            (pending.header, txn_items),
            read,
        ),
    ensures
        found matches Ok(pending) && pending.request.bound@ == BoundView::Prefix(
            block.header.hash@,
        ),
        read matches Ok(complete) && is_the_block(complete, block, decode_header, decode),
{
    let after = written(store, batch@);
    assert(after == inserted(store, block));
    assert forall|key: Seq<u8>| #[trigger]
        store.contains_key((ChainColumn::BlockHeader, key)) && has_prefix(
            key,
            be_bytes(num),
        ) implies key == block.header.hash@ by {
        assert(has_number(store, key, num));
    }
    law_inserted_block_is_found_by_number(store, block, num, items@, with_bytes(decode_header));
    lemma_completed(
        store,
        block,
        found->Ok_0.header,
        txn_items,
        read,
        decode_header,
        decode,
    );
}

/// A block that was inserted is read back by its hash, under either name of the operation:
/// the scan that is asked for next, answered by the store, completes the block with its
/// header and all its transactions, in order.
pub proof fn law_inserted_block_is_read_by_hash<H, T>(
    store: ChainStore,
    block: EncodedBlock,
    batch: Vec<BatchOp<ChainColumn>>,
    request: GetRequest<ChainColumn>,
    header: Fetched<Result<H, String>>,
    found: Result<PendingBlock<H>, ChainError>,
    txn_items: Vec<Option<Row<Result<T, String>>>>,
    read: Result<IndexedBlock<H, T>, ChainError>,
    decode_header: spec_fn(Seq<u8>) -> Result<H, String>,
    decode: spec_fn(Seq<u8>) -> Result<T, String>,
)
    requires
        call_ensures(ChainDB::insert_block, (&block,), batch),
        own_rows_only(store, block, block.header.hash@),
        block_decodes(block, decode_header, decode),
        call_ensures(header_request, (&block.header.hash,), request),
        is_answer(
            header,
            written(store, batch@),
            request.column,
            request.key@,
            decoded(decode_header),
        ),
        call_ensures(ChainDB::get_block_by_id::<H>, (&block.header.hash, header), found)
            || call_ensures(ChainDB::get_block_by_hash::<H>, (&block.header.hash, header), found),
        found matches Ok(pending) ==> is_scan(
            txn_items@,
            written(store, batch@),
            pending.request.column,
            pending.request.from@,
            decoded(decode),
        ) && call_ensures(
            ChainDB::get_block_from_header::<H, T>,
            (pending.header, txn_items),
            read,
        ),
    ensures
        found matches Ok(pending) && pending.request.bound@ == BoundView::Prefix(
            block.header.hash@,
        ),
        read matches Ok(complete) && is_the_block(complete, block, decode_header, decode),
{
    let after = written(store, batch@);
    assert(after == inserted(store, block));
    law_insert_stores_the_block(store, block);
    assert(header == Ok::<_, String>(Some(decode_header(block.header.raw@))));
    lemma_completed(
        store,
        block,
        found->Ok_0.header,
        txn_items,
        read,
        decode_header,
        decode,
    );
}

/// The rows of a scan from a prefix on are its first entries, as many as have the prefix.
proof fn lemma_rows_are_first<V>(
    items: Seq<Option<Row<V>>>,
    store: ChainStore,
    column: ChainColumn,
    prefix: Seq<u8>,
    reads: spec_fn(Seq<u8>, V) -> bool,
)
    requires
        is_scan(items, store, column, prefix, reads),
    ensures
        ({
            let rows = taken(items, BoundView::Prefix(prefix));
            &&& rows.len() <= items.len()
            &&& forall|i: int| 0 <= i < rows.len() ==> Some(#[trigger] rows[i]) == items[i]
            &&& forall|i: int|
                0 <= i < items.len() ==> (has_prefix((#[trigger] items[i])->0.key@, prefix) <==> i
                    < rows.len())
        }),
{
    let bound = BoundView::Prefix(prefix);
    let rows = taken(items, bound);
    let m = lemma_taken_initial(items, bound);
    assert(prefix.take(prefix.len() as int) =~= prefix);
    law_prefix_scan_is_exact(items, store, column, prefix, prefix, reads);
    assert forall|i: int| 0 <= i < items.len() implies (has_prefix(
        (#[trigger] items[i])->0.key@,
        prefix,
    ) <==> i < rows.len()) by {
        let key = items[i]->0.key@;
        if i < m {
            assert(bound.admits(key));
        } else if has_prefix(key, prefix) {
            assert(row_keys(rows).contains(key));
            let j = choose|j: int| 0 <= j < rows.len() && row_keys(rows)[j] == key;
            assert(rows[j] == items[j]->0);
            assert(lex_lt(items[j]->0.key@, items[i]->0.key@));
            lemma_lex_irreflexive(key);
        }
    }
    assert forall|i: int| 0 <= i < rows.len() implies Some(#[trigger] rows[i]) == items[i] by {
        assert(items[i] is Some);
    }
}

/// The headers of a number are all stored headers of that number, each once and in order of
/// their hashes, each with what the bytes under its own hash decode to.
pub proof fn law_headers_of_a_number_are_listed<H>(
    store: ChainStore,
    num: u64,
    request: ScanRequest<ChainColumn>,
    items: Vec<Option<Row<Result<H, String>>>>,
    headers: Vec<IndexedBlockHeader<H>>,
    decode: spec_fn(Seq<u8>) -> Result<H, String>,
)
    requires
        headers_under_hashes(store),
        forall|key: Seq<u8>| #[trigger]
            has_number(store, key, num) ==> decode(
                store[(ChainColumn::BlockHeader, key)],
            ) is Ok,
        call_ensures(headers_request, (num,), request),
        is_scan(items@, store, request.column, request.from@, decoded(decode)),
        call_ensures(ChainDB::get_block_headers_by_number::<H>, (num, items), headers),
    ensures
        forall|i: int|
            0 <= i < headers@.len() ==> {
                let hash = (#[trigger] headers@[i]).hash@;
                &&& has_number(store, hash, num)
                &&& decode(store[(ChainColumn::BlockHeader, hash)]) == Ok::<_, String>(
                    headers@[i].raw,
                )
            },
        forall|i: int, j: int|
            0 <= i < j < headers@.len() ==> lex_lt(
                (#[trigger] headers@[i]).hash@,
                (#[trigger] headers@[j]).hash@,
            ),
        forall|key: Seq<u8>| #[trigger]
            has_number(store, key, num) ==> exists|i: int|
                0 <= i < headers@.len() && (#[trigger] headers@[i]).hash@ == key,
{
    law_header_scan_is_exact(store, num, items@, decoded(decode));
    let rows = taken(items@, BoundView::Prefix(be_bytes(num)));
    lemma_headers_are_rows(rows, headers@);
    assert forall|i: int| 0 <= i < headers@.len() implies {
        let hash = (#[trigger] headers@[i]).hash@;
        &&& has_number(store, hash, num)
        &&& decode(store[(ChainColumn::BlockHeader, hash)]) == Ok::<_, String>(headers@[i].raw)
    } by {
        let row = rows[i];
        assert(has_number(store, row.key@, num));
    }
    assert forall|i: int, j: int| 0 <= i < j < headers@.len() implies lex_lt(
        (#[trigger] headers@[i]).hash@,
        (#[trigger] headers@[j]).hash@,
    ) by {
        assert(lex_lt(row_keys(rows)[i], row_keys(rows)[j]));
    }
    assert forall|key: Seq<u8>| #[trigger] has_number(store, key, num) implies exists|i: int|
        0 <= i < headers@.len() && (#[trigger] headers@[i]).hash@ == key by {
        assert(row_keys(rows).contains(key));
        let i = choose|i: int| 0 <= i < rows.len() && row_keys(rows)[i] == key;
        assert(headers@[i].hash@ == key);
    }
}

proof fn lemma_headers_are_rows<H>(
    rows: Seq<Row<Result<H, String>>>,
    headers: Seq<IndexedBlockHeader<H>>,
)
    requires
        header_views(headers) == headers_in(rows),
    ensures
        headers.len() == rows.len(),
        forall|i: int|
            0 <= i < headers.len() ==> {
                &&& (#[trigger] headers[i]).hash@ == rows[i].key@
                &&& headers[i].raw == rows[i].value->Ok_0
            },
{
    assert(header_views(headers).len() == headers.len());
    assert(headers_in(rows).len() == rows.len());
    assert forall|i: int| 0 <= i < headers.len() implies {
        &&& (#[trigger] headers[i]).hash@ == rows[i].key@
        &&& headers[i].raw == rows[i].value->Ok_0
    } by {
        assert(header_views(headers)[i] == headers_in(rows)[i]);
    }
}

/// The header of a number: none is stored, several are, or it is the one stored, with what
/// its bytes decode to.
pub proof fn law_header_of_a_number<H>(
    store: ChainStore,
    num: i64,
    request: ScanRequest<ChainColumn>,
    items: Vec<Option<Row<Result<H, String>>>>,
    res: Result<IndexedBlockHeader<H>, ChainError>,
    decode: spec_fn(Seq<u8>) -> Result<H, String>,
)
    requires
        headers_under_hashes(store),
        forall|key: Seq<u8>| #[trigger]
            has_number(store, key, num as u64) ==> decode(
                store[(ChainColumn::BlockHeader, key)],
            ) is Ok,
        call_ensures(headers_request, (num as u64,), request),
        is_scan(items@, store, request.column, request.from@, decoded(decode)),
        call_ensures(ChainDB::get_block_header_by_number::<H>, (num, items), res),
    ensures
        match res {
            Ok(header) => {
                &&& has_number(store, header.hash@, num as u64)
                &&& decode(store[(ChainColumn::BlockHeader, header.hash@)]) == Ok::<_, String>(
                    header.raw,
                )
                &&& forall|key: Seq<u8>| #[trigger]
                    has_number(store, key, num as u64) ==> key == header.hash@
            },
            Err(ChainError::NotFound) => forall|key: Seq<u8>|
                !#[trigger] has_number(store, key, num as u64),
            Err(ChainError::ChainFork) => exists|a: Seq<u8>, b: Seq<u8>|
                a != b && #[trigger] has_number(store, a, num as u64) && #[trigger] has_number(
                    store,
                    b,
                    num as u64,
                ),
            Err(_) => false,
        },
{
    let n = num as u64;
    law_header_scan_is_exact(store, n, items@, decoded(decode));
    let rows = taken(items@, BoundView::Prefix(be_bytes(n)));
    let found = headers_in(rows);
    assert(found.len() == rows.len());
    assert forall|key: Seq<u8>| #[trigger] has_number(store, key, n) implies exists|i: int|
        0 <= i < rows.len() && (#[trigger] rows[i]).key@ == key by {
        assert(row_keys(rows).contains(key));
        let i = choose|i: int| 0 <= i < rows.len() && row_keys(rows)[i] == key;
        assert(rows[i].key@ == key);
    }
    if rows.len() == 1 {
        assert(found[0] == (rows[0].key@, rows[0].value->Ok_0));
        assert(has_number(store, rows[0].key@, n));
    } else if rows.len() > 1 {
        assert(has_number(store, rows[0].key@, n) && has_number(store, rows[1].key@, n));
        assert(lex_lt(row_keys(rows)[0], row_keys(rows)[1]));
        lemma_lex_irreflexive(rows[0].key@);
    }
}

/// The block of a number: none is stored, several are, its header does not decode, or its
/// transactions are asked for next. The operation for the first block is that of number 0.
pub proof fn law_block_of_a_number<H>(
    store: ChainStore,
    num: u64,
    request: ScanRequest<ChainColumn>,
    items: Vec<Option<Row<StoredHeader<H>>>>,
    res: Result<PendingBlock<H>, ChainError>,
    decode: spec_fn(Seq<u8>) -> Result<H, String>,
)
    requires
        headers_under_hashes(store),
        call_ensures(headers_request, (num,), request),
        is_scan(items@, store, request.column, request.from@, with_bytes(decode)),
        call_ensures(ChainDB::get_block_by_number::<H>, (num, items), res) || (num == 0
            && call_ensures(ChainDB::get_genesis_block::<H>, (items,), res)),
    ensures
        match res {
            Ok(pending) => {
                let hash = pending.header.hash@;
                &&& has_number(store, hash, num)
                &&& decode(store[(ChainColumn::BlockHeader, hash)]) == Ok::<_, String>(
                    pending.header.raw,
                )
                &&& forall|key: Seq<u8>| #[trigger] has_number(store, key, num) ==> key == hash
                &&& pending.request.column == ChainColumn::Transaction
                &&& pending.request.from@ == hash
                &&& pending.request.bound@ == BoundView::Prefix(hash)
            },
            Err(ChainError::Decode(e)) => exists|key: Seq<u8>|
                {
                    &&& #[trigger] has_number(store, key, num)
                    &&& decode(store[(ChainColumn::BlockHeader, key)]) == Err::<H, _>(e)
                    &&& forall|other: Seq<u8>| #[trigger]
                        has_number(store, other, num) ==> other == key
                },
            Err(ChainError::BlockNotFound) => forall|key: Seq<u8>|
                !#[trigger] has_number(store, key, num),
            Err(ChainError::ForkFound { report }) => report@.len() > 3 && exists|
                a: Seq<u8>,
                b: Seq<u8>,
            |
                a != b && #[trigger] has_number(store, a, num) && #[trigger] has_number(
                    store,
                    b,
                    num,
                ),
            Err(_) => false,
        },
{
    law_header_scan_is_exact(store, num, items@, with_bytes(decode));
    let rows = taken(items@, BoundView::Prefix(be_bytes(num)));
    assert forall|key: Seq<u8>| #[trigger] has_number(store, key, num) implies exists|i: int|
        0 <= i < rows.len() && (#[trigger] rows[i]).key@ == key by {
        assert(row_keys(rows).contains(key));
        let i = choose|i: int| 0 <= i < rows.len() && row_keys(rows)[i] == key;
        assert(rows[i].key@ == key);
    }
    if rows.len() == 1 {
        assert(has_number(store, rows[0].key@, num));
    } else if rows.len() > 1 {
        assert(has_number(store, rows[0].key@, num) && has_number(store, rows[1].key@, num));
        assert(lex_lt(row_keys(rows)[0], row_keys(rows)[1]));
        lemma_lex_irreflexive(rows[0].key@);
        lemma_report_lines(num, row_bytes(rows));
        assert(row_bytes(rows).len() == rows.len());
        let report = res->Err_0->report;
        assert(line_texts(report@).len() == report@.len());
    }
}

/// Where a line of a report stands and what it says.
proof fn lemma_report_lines(num: u64, rows: Seq<(Seq<u8>, Seq<u8>)>)
    ensures
        fork_lines(num, rows).len() == 1 + 2 * rows.len(),
        fork_lines(num, rows)[0] == "multiple blocks found for same number: "@ + decimal_text(
            num as nat,
        ),
        forall|i: int|
            0 <= i < rows.len() ==> {
                &&& fork_lines(num, rows)[1 + 2 * i] == "  => "@ + hex_text(
                    (#[trigger] rows[i]).0,
                )
                &&& fork_lines(num, rows)[2 + 2 * i] == "  => "@ + hex_text(rows[i].1)
            },
    decreases rows.len(),
{
    if rows.len() > 0 {
        let fewer = rows.drop_last();
        lemma_report_lines(num, fewer);
        assert forall|i: int| 0 <= i < rows.len() implies {
            &&& fork_lines(num, rows)[1 + 2 * i] == "  => "@ + hex_text((#[trigger] rows[i]).0)
            &&& fork_lines(num, rows)[2 + 2 * i] == "  => "@ + hex_text(rows[i].1)
        } by {
            if i < fewer.len() {
                assert(fewer[i] == rows[i]);
            }
        }
    }
}

/// A report has a line with the number, then for every row, in order, a line with its key and
/// one with its bytes.
pub proof fn law_rows_are_reported<H>(
    num: u64,
    rows: Vec<Row<StoredHeader<H>>>,
    lines: Vec<String>,
)
    requires
        call_ensures(fork_report::<H>, (num, &rows), lines),
    ensures
        lines@.len() == 1 + 2 * rows@.len(),
        lines@[0]@ == "multiple blocks found for same number: "@ + decimal_text(num as nat),
        forall|i: int|
            0 <= i < rows@.len() ==> {
                &&& lines@[1 + 2 * i]@ == "  => "@ + hex_text((#[trigger] rows@[i]).key@)
                &&& lines@[2 + 2 * i]@ == "  => "@ + hex_text(rows@[i].value.bytes@)
            },
{
    let pairs = row_bytes(rows@);
    lemma_report_lines(num, pairs);
    let texts = line_texts(lines@);
    assert(texts.len() == lines@.len());
    assert(pairs.len() == rows@.len());
    assert(texts[0] == lines@[0]@);
    assert forall|i: int| 0 <= i < rows@.len() implies {
        &&& lines@[1 + 2 * i]@ == "  => "@ + hex_text((#[trigger] rows@[i]).key@)
        &&& lines@[2 + 2 * i]@ == "  => "@ + hex_text(rows@[i].value.bytes@)
    } by {
        assert(pairs[i] == (rows@[i].key@, rows@[i].value.bytes@));
        assert(texts[1 + 2 * i] == lines@[1 + 2 * i]@);
        assert(texts[2 + 2 * i] == lines@[2 + 2 * i]@);
    }
}

/// The report on a fork: a line with the number, then for every stored header of the number,
/// in order, a line with its key and one with its bytes.
pub proof fn law_fork_is_reported<H>(
    num: u64,
    items: Vec<Option<Row<StoredHeader<H>>>>,
    report: Vec<String>,
)
    requires
        call_ensures(
            ChainDB::get_block_by_number::<H>,
            (num, items),
            Err(ChainError::ForkFound { report }),
        ),
    ensures
        ({
            let rows = taken(items@, BoundView::Prefix(be_bytes(num)));
            &&& rows.len() > 1
            &&& report@.len() == 1 + 2 * rows.len()
            &&& report@[0]@ == "multiple blocks found for same number: "@ + decimal_text(
                num as nat,
            )
            &&& forall|i: int|
                0 <= i < rows.len() ==> {
                    &&& report@[1 + 2 * i]@ == "  => "@ + hex_text((#[trigger] rows[i]).key@)
                    &&& report@[2 + 2 * i]@ == "  => "@ + hex_text(rows[i].value.bytes@)
                }
        }),
{
    let rows = taken(items@, BoundView::Prefix(be_bytes(num)));
    let pairs = row_bytes(rows);
    lemma_report_lines(num, pairs);
    let texts = line_texts(report@);
    assert(texts == fork_lines(num, pairs));
    assert(texts.len() == report@.len());
    assert(pairs.len() == rows.len());
    assert(texts[0] == report@[0]@);
    assert forall|i: int| 0 <= i < rows.len() implies {
        &&& report@[1 + 2 * i]@ == "  => "@ + hex_text((#[trigger] rows[i]).key@)
        &&& report@[2 + 2 * i]@ == "  => "@ + hex_text(rows[i].value.bytes@)
    } by {
        assert(pairs[i] == (rows[i].key@, rows[i].value.bytes@));
        assert(texts[1 + 2 * i] == report@[1 + 2 * i]@);
        assert(texts[2 + 2 * i] == report@[2 + 2 * i]@);
    }
}

/// A number is reported present exactly if some stored block has it.
pub proof fn law_number_is_present<V>(
    store: ChainStore,
    num: u64,
    request: ScanRequest<ChainColumn>,
    items: Vec<Option<Row<V>>>,
    yes: bool,
    reads: spec_fn(Seq<u8>, V) -> bool,
)
    requires
        headers_under_hashes(store),
        call_ensures(headers_request, (num,), request),
        is_scan(items@, store, request.column, request.from@, reads),
        call_ensures(ChainDB::has_block_number::<V>, (num, items), yes),
    ensures
        yes <==> exists|key: Seq<u8>| #[trigger] has_number(store, key, num),
{
    law_header_scan_is_exact(store, num, items@, reads);
    let rows = taken(items@, BoundView::Prefix(be_bytes(num)));
    if rows.len() > 0 {
        assert(has_number(store, rows[0].key@, num));
    }
    if exists|key: Seq<u8>| #[trigger] has_number(store, key, num) {
        let key = choose|key: Seq<u8>| #[trigger] has_number(store, key, num);
        assert(row_keys(rows).contains(key));
    }
}

/// A block is reported present exactly if its header is stored, whether it is asked for by
/// its hash or as a whole. A read that fails counts as absence.
pub proof fn law_block_is_present<H, T, V>(
    store: ChainStore,
    block: IndexedBlock<H, T>,
    by_hash: GetRequest<ChainColumn>,
    as_whole: GetRequest<ChainColumn>,
    header: Fetched<V>,
    yes: bool,
    reads: spec_fn(Seq<u8>, V) -> bool,
)
    requires
        call_ensures(header_request, (&block.header.hash,), by_hash),
        call_ensures(ChainDB::has_block::<H, T>, (&block,), as_whole),
        call_ensures(ChainDB::has_block_id::<V>, (&header,), yes),
    ensures
        as_whole.column == by_hash.column,
        as_whole.key@ == by_hash.key@,
        is_answer(header, store, by_hash.column, by_hash.key@, reads) ==> yes
            == store.contains_key((ChainColumn::BlockHeader, block.header.hash@)),
        header is Err ==> !yes,
{
}

/// The header under a hash is what the bytes stored there decode to; else it is not found,
/// does not decode, or could not be read.
pub proof fn law_header_is_read<H>(
    store: ChainStore,
    hash: H256,
    request: GetRequest<ChainColumn>,
    header: Fetched<Result<H, String>>,
    res: Result<IndexedBlockHeader<H>, ChainError>,
    decode: spec_fn(Seq<u8>) -> Result<H, String>,
)
    requires
        call_ensures(header_request, (&hash,), request),
        header is Ok ==> is_answer(header, store, request.column, request.key@, decoded(decode)),
        call_ensures(ChainDB::get_block_header::<H>, (&hash, header), res),
    ensures
        ({
            let at = (ChainColumn::BlockHeader, hash@);
            match res {
                Ok(found) => header is Ok && store.contains_key(at) && found.hash@ == hash@
                    && decode(store[at]) == Ok::<_, String>(found.raw),
                Err(ChainError::Database(e)) => header == Err::<Option<Result<H, String>>, _>(e),
                Err(ChainError::Decode(e)) => header is Ok && store.contains_key(at) && decode(
                    store[at],
                ) == Err::<H, _>(e),
                Err(ChainError::BlockHeaderNotFound) => header is Ok && !store.contains_key(at),
                Err(_) => false,
            }
        }),
{
}

proof fn lemma_decoded<T>(rows: Seq<Row<Result<T, String>>>)
    ensures
        match decoded_transactions(rows) {
            Ok(txns) => txns.len() == rows.len() && forall|i: int|
                0 <= i < rows.len() ==> (#[trigger] rows[i]).value == Ok::<_, String>(txns[i].1)
                    && txns[i].0 == rows[i].key@.skip(40),
            Err(e) => exists|i: int|
                0 <= i < rows.len() && (#[trigger] rows[i]).value == Err::<T, _>(e) && forall|j: int|
                    0 <= j < i ==> (#[trigger] rows[j]).value is Ok,
        },
    decreases rows.len(),
{
    if rows.len() > 0 {
        let fewer = rows.drop_last();
        lemma_decoded(fewer);
        match decoded_transactions(fewer) {
            Err(e) => {
                let i = choose|i: int|
                    0 <= i < fewer.len() && (#[trigger] fewer[i]).value == Err::<T, _>(e)
                        && forall|j: int| 0 <= j < i ==> (#[trigger] fewer[j]).value is Ok;
                assert(rows[i].value == Err::<T, _>(e));
                assert forall|j: int| 0 <= j < i implies (#[trigger] rows[j]).value is Ok by {
                    assert(fewer[j].value is Ok);
                }
            },
            Ok(txns) => {
                assert forall|j: int| 0 <= j < fewer.len() implies (
                #[trigger] rows[j]).value is Ok by {
                    assert(fewer[j].value == Ok::<_, String>(txns[j].1));
                }
                let last = rows[rows.len() - 1];
                if last.value is Ok {
                    let all = decoded_transactions(rows)->Ok_0;
                    assert forall|i: int| 0 <= i < rows.len() implies (#[trigger] rows[i]).value
                        == Ok::<_, String>(all[i].1) && all[i].0 == rows[i].key@.skip(40) by {
                        if i < fewer.len() {
                            assert(fewer[i] == rows[i]);
                            assert(all[i] == txns[i]);
                        }
                    }
                }
            },
        }
    }
}

/// What the transaction under the key of the `i`th entry decodes to.
pub open spec fn message_at<T>(
    store: ChainStore,
    items: Seq<Option<Row<Result<T, String>>>>,
    i: int,
    decode: spec_fn(Seq<u8>) -> Result<T, String>,
) -> Result<T, String> {
    decode(store[(ChainColumn::Transaction, items[i]->0.key@)])
}

/// The transactions are the first entries of the scan, as many as begin with the hash: the
/// hash of each stands at the end of its key, and each is what its bytes decode to.
pub open spec fn are_the_transactions<T>(
    store: ChainStore,
    hash: Seq<u8>,
    items: Seq<Option<Row<Result<T, String>>>>,
    txns: Seq<IndexedTransaction<T>>,
    decode: spec_fn(Seq<u8>) -> Result<T, String>,
) -> bool {
    &&& txns.len() <= items.len()
    &&& forall|i: int|
        0 <= i < items.len() ==> (has_prefix((#[trigger] items[i])->0.key@, hash) <==> i
            < txns.len())
    &&& forall|i: int|
        0 <= i < txns.len() ==> {
            let key = items[i]->0.key@;
            &&& (#[trigger] txns[i]).hash@ == key.subrange(40, key.len() as int)
            &&& message_at(store, items, i, decode) == Ok::<_, String>(txns[i].raw)
        }
}

/// The `i`th entry begins with the hash and is the first that does not decode.
pub open spec fn is_first_failure<T>(
    store: ChainStore,
    hash: Seq<u8>,
    items: Seq<Option<Row<Result<T, String>>>>,
    i: int,
    e: String,
    decode: spec_fn(Seq<u8>) -> Result<T, String>,
) -> bool {
    &&& 0 <= i < items.len()
    &&& has_prefix(items[i]->0.key@, hash)
    &&& message_at(store, items, i, decode) == Err::<T, _>(e)
    &&& forall|j: int| 0 <= j < i ==> (#[trigger] message_at(store, items, j, decode)) is Ok
}

/// The transactions of a block are those that the store holds under its hash, in order. The
/// first that does not decode fails them all.
pub proof fn law_transactions_are_read<T>(
    store: ChainStore,
    hash: H256,
    request: ScanRequest<ChainColumn>,
    items: Vec<Option<Row<Result<T, String>>>>,
    res: Result<Vec<IndexedTransaction<T>>, ChainError>,
    decode: spec_fn(Seq<u8>) -> Result<T, String>,
)
    requires
        call_ensures(transactions_request, (&hash,), request),
        is_scan(items@, store, request.column, request.from@, decoded(decode)),
        call_ensures(ChainDB::get_block_transactions::<T>, (&hash, items), res),
    ensures
        request.column == ChainColumn::Transaction,
        match res {
            Ok(txns) => are_the_transactions(store, hash@, items@, txns@, decode),
            Err(ChainError::Decode(e)) => exists|i: int| #[trigger]
                is_first_failure(store, hash@, items@, i, e, decode),
            Err(_) => false,
        },
{
    let rows = taken(items@, BoundView::Prefix(hash@));
    lemma_rows_are_first(items@, store, ChainColumn::Transaction, hash@, decoded(decode));
    lemma_decoded(rows);
    assert forall|i: int| 0 <= i < rows.len() implies (#[trigger] rows[i]).value == message_at(
        store,
        items@,
        i,
        decode,
    ) by {
        assert(Some(rows[i]) == items@[i]);
    }
    match res {
        Ok(txns) => {
            lemma_txn_rows(rows, txns@);
            assert forall|i: int| 0 <= i < txns@.len() implies {
                let key = items@[i]->0.key@;
                &&& (#[trigger] txns@[i]).hash@ == key.subrange(40, key.len() as int)
                &&& message_at(store, items@, i, decode) == Ok::<_, String>(txns@[i].raw)
            } by {
                let row = rows[i];
                assert(Some(row) == items@[i]);
            }
        },
        Err(e) => {
            let text = e->Decode_0;
            let i = choose|i: int|
                0 <= i < rows.len() && (#[trigger] rows[i]).value == Err::<T, _>(text)
                    && forall|j: int| 0 <= j < i ==> (#[trigger] rows[j]).value is Ok;
            assert(has_prefix(items@[i]->0.key@, hash@));
            assert forall|j: int| 0 <= j < i implies (
            #[trigger] message_at(store, items@, j, decode)) is Ok by {
                assert(rows[j].value is Ok);
            }
            assert(is_first_failure(store, hash@, items@, i, text, decode));
        },
    }
}

proof fn lemma_txn_rows<T>(rows: Seq<Row<Result<T, String>>>, txns: Seq<IndexedTransaction<T>>)
    requires
        decoded_transactions(rows) == Ok::<_, String>(txn_views(txns)),
    ensures
        txns.len() == rows.len(),
        forall|i: int|
            0 <= i < rows.len() ==> {
                &&& (#[trigger] rows[i]).value == Ok::<_, String>(txns[i].raw)
                &&& txns[i].hash@ == rows[i].key@.skip(40)
            },
{
    lemma_decoded(rows);
    let views = txn_views(txns);
    assert(views.len() == txns.len());
    assert forall|i: int| 0 <= i < rows.len() implies {
        &&& (#[trigger] rows[i]).value == Ok::<_, String>(txns[i].raw)
        &&& txns[i].hash@ == rows[i].key@.skip(40)
    } by {
        assert(views[i] == (txns[i].hash@, txns[i].raw));
    }
}

/// Completing a block from its header reads its transactions, and keeps the header.
pub proof fn law_block_is_completed<H, T>(
    header: IndexedBlockHeader<H>,
    items: Vec<Option<Row<Result<T, String>>>>,
    block: Result<IndexedBlock<H, T>, ChainError>,
    txns: Result<Vec<IndexedTransaction<T>>, ChainError>,
)
    requires
        call_ensures(ChainDB::get_block_from_header::<H, T>, (header, items), block),
        call_ensures(ChainDB::get_block_transactions::<T>, (&header.hash, items), txns),
    ensures
        block is Ok <==> txns is Ok,
        block matches Err(e) ==> txns == Err::<Vec<IndexedTransaction<T>>, _>(e),
        block matches Ok(found) ==> {
            &&& found.header == header
            &&& found.transactions@.len() == txns->Ok_0@.len()
            &&& forall|i: int|
                0 <= i < found.transactions@.len() ==> {
                    &&& (#[trigger] found.transactions@[i]).hash@ == txns->Ok_0@[i].hash@
                    &&& found.transactions@[i].raw == txns->Ok_0@[i].raw
                }
        },
{
    if block is Ok {
        let found = block->Ok_0.transactions@;
        let listed = txns->Ok_0@;
        assert(txn_views(found) == txn_views(listed));
        assert(txn_views(found).len() == found.len());
        assert(txn_views(listed).len() == listed.len());
        assert forall|i: int| 0 <= i < found.len() implies {
            &&& (#[trigger] found[i]).hash@ == listed[i].hash@
            &&& found[i].raw == listed[i].raw
        } by {
            assert(txn_views(found)[i] == (found[i].hash@, found[i].raw));
            assert(txn_views(listed)[i] == (listed[i].hash@, listed[i].raw));
        }
    }
}

proof fn lemma_hashes<V>(rows: Seq<Row<V>>, hashes: Seq<H256>)
    requires
        hash_views(hashes) == hashes_in_keys(rows),
    ensures
        hashes.len() == rows.len(),
        forall|i: int|
            0 <= i < hashes.len() ==> (#[trigger] hashes[i])@ == rows[i].key@.skip(40),
{
    assert(hash_views(hashes).len() == hashes.len());
    assert(hashes_in_keys(rows).len() == rows.len());
    assert forall|i: int| 0 <= i < hashes.len() implies (#[trigger] hashes[i])@
        == rows[i].key@.skip(40) by {
        assert(hash_views(hashes)[i] == hashes_in_keys(rows)[i]);
    }
}

/// `hashes` stand at the ends of the keys of the first entries of a scan, as many as begin
/// with `prefix`.
pub open spec fn are_listed<V>(
    hashes: Seq<H256>,
    items: Seq<Option<Row<V>>>,
    prefix: Seq<u8>,
) -> bool {
    &&& hashes.len() <= items.len()
    &&& forall|i: int|
        0 <= i < items.len() ==> (has_prefix((#[trigger] items[i])->0.key@, prefix) <==> i
            < hashes.len())
    &&& forall|i: int|
        0 <= i < hashes.len() ==> (#[trigger] hashes[i])@ == items[i]->0.key@.subrange(
            40,
            items[i]->0.key@.len() as int,
        )
}

/// The hashes of a block's transactions are listed in the order in which the store holds the
/// transactions, all of them and no others.
pub proof fn law_hashes_of_a_block_are_listed<V>(
    store: ChainStore,
    hash: H256,
    request: ScanRequest<ChainColumn>,
    items: Vec<Option<Row<V>>>,
    res: Result<Vec<H256>, ChainError>,
    reads: spec_fn(Seq<u8>, V) -> bool,
)
    requires
        call_ensures(transactions_request, (&hash,), request),
        is_scan(items@, store, request.column, request.from@, reads),
        call_ensures(
            ChainDB::get_transaction_hashes_by_block_hash::<V>,
            (&hash, items),
            res,
        ),
    ensures
        request.column == ChainColumn::Transaction,
        res matches Ok(hashes) && are_listed(hashes@, items@, hash@),
{
    let rows = taken(items@, BoundView::Prefix(hash@));
    lemma_rows_are_first(items@, store, ChainColumn::Transaction, hash@, reads);
    lemma_hashes(rows, res->Ok_0@);
    assert forall|i: int| 0 <= i < res->Ok_0@.len() implies (#[trigger] res->Ok_0@[i])@
        == items@[i]->0.key@.subrange(40, items@[i]->0.key@.len() as int) by {
        let row = rows[i];
        assert(Some(row) == items@[i]);
    }
}

/// The hashes of the transactions of all blocks of a number are listed in the order in which
/// the store holds the transactions, all of them and no others.
pub proof fn law_hashes_of_a_number_are_listed<V>(
    store: ChainStore,
    num: i64,
    request: ScanRequest<ChainColumn>,
    items: Vec<Option<Row<V>>>,
    res: Result<Vec<H256>, ChainError>,
    reads: spec_fn(Seq<u8>, V) -> bool,
)
    requires
        num != -1,
        forall|key: Seq<u8>| #[trigger]
            store.contains_key((ChainColumn::Transaction, key)) ==> key.len() == 72,
        call_ensures(transactions_by_number_request, (num,), request),
        is_scan(items@, store, request.column, request.from@, reads),
        call_ensures(
            ChainDB::get_transaction_hashes_by_block_number::<V>,
            (num, items),
            res,
        ),
    ensures
        request.column == ChainColumn::Transaction,
        res matches Ok(hashes) && are_listed(hashes@, items@, be_bytes(num as u64)),
{
    let prefix = be_bytes(num as u64);
    let rows = taken(items@, BoundView::Prefix(prefix));
    law_number_scan_is_a_prefix_scan(store, num, items@, reads);
    lemma_rows_are_first(items@, store, ChainColumn::Transaction, prefix, reads);
    lemma_hashes(rows, res->Ok_0@);
    assert forall|i: int| 0 <= i < res->Ok_0@.len() implies (#[trigger] res->Ok_0@[i])@
        == items@[i]->0.key@.subrange(40, items@[i]->0.key@.len() as int) by {
        let row = rows[i];
        assert(Some(row) == items@[i]);
    }
}

/// The hashes of an inserted block's transactions are listed in the order of the block.
pub proof fn law_hashes_of_an_inserted_block<V>(
    store: ChainStore,
    block: EncodedBlock,
    batch: Vec<BatchOp<ChainColumn>>,
    request: ScanRequest<ChainColumn>,
    items: Vec<Option<Row<V>>>,
    res: Result<Vec<H256>, ChainError>,
    reads: spec_fn(Seq<u8>, V) -> bool,
)
    requires
        call_ensures(ChainDB::insert_block, (&block,), batch),
        own_rows_only(store, block, block.header.hash@),
        call_ensures(transactions_request, (&block.header.hash,), request),
        is_scan(items@, written(store, batch@), request.column, request.from@, reads),
        call_ensures(
            ChainDB::get_transaction_hashes_by_block_hash::<V>,
            (&block.header.hash, items),
            res,
        ),
    ensures
        res matches Ok(hashes) && hashes@.len() == block.transactions@.len() && forall|i: int|
            0 <= i < hashes@.len() ==> (#[trigger] hashes@[i])@ == block.transactions@[i].hash@,
{
    assert(written(store, batch@) == inserted(store, block));
    law_inserted_hashes_are_listed(store, block, items@, reads);
    let hashes = res->Ok_0@;
    assert(hash_views(hashes).len() == hashes.len());
    assert forall|i: int| 0 <= i < hashes.len() implies (#[trigger] hashes[i])@
        == block.transactions@[i].hash@ by {
        assert(hash_views(hashes)[i] == hashes[i]@);
    }
}

/// A transaction of an inserted block is found by its hash: the read that is asked for next,
/// answered by the store, gives what its bytes decode to. Its index is its place in the block,
/// and its block is the one inserted, whose header is found through it.
pub proof fn law_inserted_transaction_is_read<H, T>(
    store: ChainStore,
    block: EncodedBlock,
    batch: Vec<BatchOp<ChainColumn>>,
    i: int,
    id: H256,
    request: GetRequest<ChainColumn>,
    mapping: Fetched<Vec<u8>>,
    pending: Result<PendingTransaction, ChainError>,
    stored: Fetched<Result<T, String>>,
    txn: Result<IndexedTransaction<T>, ChainError>,
    index: Result<i32, ChainError>,
    hash: Result<H256, ChainError>,
    pending_header: Result<PendingHeader, ChainError>,
    stored_header: Fetched<Result<H, String>>,
    header: Result<IndexedBlockHeader<H>, ChainError>,
    decode_header: spec_fn(Seq<u8>) -> Result<H, String>,
    decode: spec_fn(Seq<u8>) -> Result<T, String>,
)
    requires
        call_ensures(ChainDB::insert_block, (&block,), batch),
        0 <= i < block.transactions@.len(),
        forall|j: int|
            i < j < block.transactions@.len() ==> (#[trigger] block.transactions@[j]).hash@
                != block.transactions@[i].hash@,
        id@ == block.transactions@[i].hash@,
        block_decodes(block, decode_header, decode),
        call_ensures(mapping_request, (&id,), request),
        is_answer(mapping, written(store, batch@), request.column, request.key@, verbatim()),
        call_ensures(ChainDB::get_transaction_by_id, (&id, mapping), pending),
        pending matches Ok(p) ==> is_answer(
            stored,
            written(store, batch@),
            p.request.column,
            p.request.key@,
            decoded(decode),
        ) && call_ensures(PendingTransaction::finish::<T>, (p, stored), txn),
        call_ensures(ChainDB::get_transaction_index, (mapping,), index),
        call_ensures(ChainDB::get_transaction_block_hash, (mapping,), hash),
        call_ensures(ChainDB::get_block_header_by_transaction_hash, (mapping,), pending_header),
        pending_header matches Ok(p) ==> is_answer(
            stored_header,
            written(store, batch@),
            p.request.column,
            p.request.key@,
            decoded(decode_header),
        ) && call_ensures(PendingHeader::finish::<H>, (p, stored_header), header),
    ensures
        txn matches Ok(found) && found.hash@ == id@ && decode(block.transactions@[i].raw@) == Ok::<
            _,
            String,
        >(found.raw),
        i <= i32::MAX ==> index == Ok::<_, ChainError>(i as i32),
        hash matches Ok(found) && found@ == block.header.hash@,
        header matches Ok(found) && found.hash@ == block.header.hash@ && decode_header(
            block.header.raw@,
        ) == Ok::<_, String>(found.raw),
{
    let after = written(store, batch@);
    assert(after == inserted(store, block));
    assert(last_of_its_hash(block, i, block.transactions@.len() as int));
    law_inserted_transaction_is_found(store, block, i, mapping);
    assert(decode(block.transactions@[i].raw@) is Ok);
}

/// A transaction that is not stored is not found, and a failed read is reported as such, by
/// every operation that starts from a transaction's hash.
pub proof fn law_missing_transaction_is_not_found<T>(
    store: ChainStore,
    id: H256,
    txn: IndexedTransaction<T>,
    request: GetRequest<ChainColumn>,
    mapping: Fetched<Vec<u8>>,
    pending: Result<PendingTransaction, ChainError>,
    index: Result<i32, ChainError>,
    hash: Result<H256, ChainError>,
    header: Result<PendingHeader, ChainError>,
    deletion: Result<PendingDeletion, ChainError>,
)
    requires
        call_ensures(mapping_request, (&id,), request),
        mapping is Ok ==> is_answer(mapping, store, request.column, request.key@, verbatim()),
        call_ensures(ChainDB::get_transaction_by_id, (&id, mapping), pending),
        call_ensures(ChainDB::get_transaction_index, (mapping,), index),
        call_ensures(ChainDB::get_transaction_block_hash, (mapping,), hash),
        call_ensures(ChainDB::get_block_header_by_transaction_hash, (mapping,), header),
        call_ensures(ChainDB::delete_transaction::<T>, (&txn, mapping), deletion),
    ensures
        mapping is Ok && !store.contains_key((ChainColumn::TransactionBlock, id@)) ==> {
            &&& pending == Err::<PendingTransaction, _>(ChainError::MappingNotFound)
            &&& index == Err::<i32, _>(ChainError::MappingNotFound)
            &&& hash == Err::<H256, _>(ChainError::MappingNotFound)
            &&& header == Err::<PendingHeader, _>(ChainError::MappingNotFound)
            &&& deletion == Err::<PendingDeletion, _>(ChainError::MappingNotFound)
        },
        mapping matches Err(e) ==> {
            &&& pending == Err::<PendingTransaction, _>(ChainError::Database(e))
            &&& index == Err::<i32, _>(ChainError::Database(e))
            &&& hash == Err::<H256, _>(ChainError::Database(e))
            &&& header == Err::<PendingHeader, _>(ChainError::Database(e))
            &&& deletion == Err::<PendingDeletion, _>(ChainError::Database(e))
        },
        mapping is Ok && store.contains_key((ChainColumn::TransactionBlock, id@)) ==> pending is Ok
            && index is Ok && hash is Ok && header is Ok && deletion is Ok,
{
}

/// The second read for a transaction: it gives the message, or tells that the transaction is
/// missing, does not decode or could not be read.
pub proof fn law_transaction_is_finished<T>(
    store: ChainStore,
    pending: PendingTransaction,
    stored: Fetched<Result<T, String>>,
    res: Result<IndexedTransaction<T>, ChainError>,
    decode: spec_fn(Seq<u8>) -> Result<T, String>,
)
    requires
        stored is Ok ==> is_answer(
            stored,
            store,
            pending.request.column,
            pending.request.key@,
            decoded(decode),
        ),
        call_ensures(PendingTransaction::finish::<T>, (pending, stored), res),
    ensures
        ({
            let at = (pending.request.column, pending.request.key@);
            match res {
                Ok(txn) => stored is Ok && store.contains_key(at) && txn.hash@ == pending.id@
                    && decode(store[at]) == Ok::<_, String>(txn.raw),
                Err(ChainError::Database(e)) => stored == Err::<Option<Result<T, String>>, _>(e),
                Err(ChainError::Decode(e)) => stored is Ok && store.contains_key(at) && decode(
                    store[at],
                ) == Err::<T, _>(e),
                Err(ChainError::TransactionNotFound) => stored is Ok && !store.contains_key(at),
                Err(_) => false,
            }
        }),
{
}

/// The deletion of a transaction whose block is gone adds two writes to the batch, behind
/// what it held: afterwards the transaction is not at its place and no place is under its
/// hash, and nothing else has changed. While the block is stored, or cannot be looked for,
/// the batch stays as it was.
pub proof fn law_transaction_is_deleted<T, V>(
    store: ChainStore,
    txn: IndexedTransaction<T>,
    place: Vec<u8>,
    pending: Result<PendingDeletion, ChainError>,
    header: Fetched<V>,
    wb: &mut Vec<BatchOp<ChainColumn>>,
    res: Result<(), ChainError>,
    reads: spec_fn(Seq<u8>, V) -> bool,
)
    requires
        call_ensures(ChainDB::delete_transaction::<T>, (&txn, Ok(Some(place))), pending),
        pending matches Ok(p) ==> (header is Ok ==> is_answer(
            header,
            store,
            p.request.column,
            p.request.key@,
            reads,
        )) && call_ensures(PendingDeletion::finish::<V>, (p, header, wb), res),
    ensures
        pending is Ok,
        ({
            let linked = store.contains_key((ChainColumn::BlockHeader, place@.take(32)));
            let before = written(store, old(wb)@);
            let after = written(store, final(wb)@);
            match header {
                Err(e) => res == Err::<(), _>(ChainError::Database(e)) && final(wb)@ == old(wb)@,
                Ok(_) => if linked {
                    res == Err::<(), _>(ChainError::LinkedToBlock) && final(wb)@ == old(wb)@
                } else {
                    &&& res is Ok
                    &&& after == before.remove((ChainColumn::Transaction, place@ + txn.hash@)).remove(
                        (ChainColumn::TransactionBlock, txn.hash@),
                    )
                },
            }
        }),
{
    let before = written(store, old(wb)@);
    let ops = deletion_ops(place@, txn.hash@);
    if header is Ok && !store.contains_key((ChainColumn::BlockHeader, place@.take(32))) {
        lemma_apply_concat(store, op_views(old(wb)@), ops);
        lemma_apply_push(before, Seq::empty(), ops[0]);
        lemma_apply_push(before, Seq::empty().push(ops[0]), ops[1]);
        assert(ops =~= Seq::empty().push(ops[0]).push(ops[1]));
    }
}

/// A height that was set is read back, whatever was stored before.
pub proof fn law_set_height_is_read(
    store: ChainStore,
    height: i64,
    op: BatchOp<ChainColumn>,
    request: GetRequest<ChainColumn>,
    stored: Fetched<Vec<u8>>,
    read: i64,
)
    requires
        call_ensures(ChainDB::force_update_block_height, (height,), op),
        call_ensures(Record::request, (&Record::BlockHeight,), request),
        is_answer(stored, written(store, seq![op]), request.column, request.key@, verbatim()),
        call_ensures(ChainDB::get_block_height, (&stored,), read),
    ensures
        read == height,
{
    lemma_one_write(store, op);
    law_height_is_read_back(store, height, stored);
}

proof fn lemma_one_write(store: ChainStore, op: BatchOp<ChainColumn>)
    ensures
        written(store, seq![op]) == apply_op(store, op@),
{
    assert(op_views(seq![op]) =~= Seq::empty().push(op@));
    lemma_apply_push(store, Seq::empty(), op@);
}

/// An update raises the height to the given one if that is greater, and else writes nothing:
/// afterwards the greater of the two is read.
pub proof fn law_updated_height_is_the_greater(
    store: ChainStore,
    height: i64,
    before: Fetched<Vec<u8>>,
    read_before: i64,
    op: Option<BatchOp<ChainColumn>>,
    request: GetRequest<ChainColumn>,
    after: Fetched<Vec<u8>>,
    read_after: i64,
)
    requires
        height >= 0,
        call_ensures(Record::request, (&Record::BlockHeight,), request),
        is_answer(before, store, request.column, request.key@, verbatim()),
        call_ensures(ChainDB::get_block_height, (&before,), read_before),
        call_ensures(ChainDB::update_block_height, (height, &before), op),
        is_answer(
            after,
            match op {
                Some(put) => written(store, seq![put]),
                None => store,
            },
            request.column,
            request.key@,
            verbatim(),
        ),
        call_ensures(ChainDB::get_block_height, (&after,), read_after),
    ensures
        op is Some <==> height > read_before,
        read_after == if height > read_before {
            height
        } else {
            read_before
        },
{
    match op {
        Some(put) => {
            lemma_one_write(store, put);
            law_height_is_read_back(store, height, after);
        },
        None => {
            assert(before->Ok_0 is Some == after->Ok_0 is Some);
        },
    }
}

/// A number that was noted is read back, each of the two under its own record; writing one
/// changes neither the other nor the height.
pub proof fn law_noted_numbers_are_read(
    store: ChainStore,
    num: u64,
    parent_op: BatchOp<ChainColumn>,
    merkle_op: BatchOp<ChainColumn>,
    parent_request: GetRequest<ChainColumn>,
    merkle_request: GetRequest<ChainColumn>,
    height_request: GetRequest<ChainColumn>,
    parent: Fetched<Vec<u8>>,
    merkle: Fetched<Vec<u8>>,
    parent_read: u64,
    merkle_read: u64,
)
    requires
        call_ensures(ChainDB::update_parent_hash_verified_block_number, (num,), parent_op),
        call_ensures(ChainDB::update_merkle_tree_verified_block_number, (num,), merkle_op),
        call_ensures(Record::request, (&Record::ParentHashVerified,), parent_request),
        call_ensures(Record::request, (&Record::MerkleTreeVerified,), merkle_request),
        call_ensures(Record::request, (&Record::BlockHeight,), height_request),
        is_answer(
            parent,
            written(store, seq![parent_op]),
            parent_request.column,
            parent_request.key@,
            verbatim(),
        ),
        is_answer(
            merkle,
            written(store, seq![merkle_op]),
            merkle_request.column,
            merkle_request.key@,
            verbatim(),
        ),
        call_ensures(ChainDB::get_parent_hash_verified_block_number, (&parent,), parent_read),
        call_ensures(ChainDB::get_merkle_tree_verified_block_number, (&merkle,), merkle_read),
    ensures
        parent_read == num,
        merkle_read == num,
        same_at(
            store,
            written(store, seq![parent_op]),
            ChainColumn::Default,
            merkle_request.key@,
        ),
        same_at(
            store,
            written(store, seq![merkle_op]),
            ChainColumn::Default,
            parent_request.key@,
        ),
        same_at(
            store,
            written(store, seq![parent_op]),
            ChainColumn::Default,
            height_request.key@,
        ),
        same_at(
            store,
            written(store, seq![merkle_op]),
            ChainColumn::Default,
            height_request.key@,
        ),
{
    lemma_one_write(store, parent_op);
    lemma_one_write(store, merkle_op);
    law_number_is_read_back(store, Record::ParentHashVerified, num, parent);
    law_number_is_read_back(store, Record::MerkleTreeVerified, num, merkle);
    law_records_are_apart(Record::ParentHashVerified, Record::MerkleTreeVerified);
    law_records_are_apart(Record::ParentHashVerified, Record::BlockHeight);
    law_records_are_apart(Record::MerkleTreeVerified, Record::BlockHeight);
}

/// A record that is missing or cannot be read counts as 0; one that holds more than a number
/// is read at its head.
pub proof fn law_numbers_are_read(
    stored: Fetched<Vec<u8>>,
    num: u64,
    tail: Seq<u8>,
    height: i64,
    parent: u64,
    merkle: u64,
)
    requires
        call_ensures(ChainDB::get_block_height, (&stored,), height),
        call_ensures(ChainDB::get_parent_hash_verified_block_number, (&stored,), parent),
        call_ensures(ChainDB::get_merkle_tree_verified_block_number, (&stored,), merkle),
    ensures
        stored is Err || stored->Ok_0 is None ==> height == 0 && parent == 0 && merkle == 0,
        (stored matches Ok(Some(raw)) && raw@ == be_bytes(num) + tail) ==> parent == num && merkle
            == num && (num <= i64::MAX ==> height == num),
{
    lemma_be_round_trip(num);
    if stored is Ok && stored->Ok_0 is Some {
        let raw = stored->Ok_0->0@;
        if raw == be_bytes(num) + tail {
            assert(raw.take(8) =~= be_bytes(num));
        }
    }
    assert((0u64 as i64) == 0) by (bit_vector);
    assert(num <= 0x7fff_ffff_ffff_ffffu64 ==> (num as i64) as u64 == num) by (bit_vector);
    assert(num <= 0x7fff_ffff_ffff_ffffu64 ==> (num as i64) >= 0) by (bit_vector);
}

/// The scan for the highest block is the one over the headers of the number at which the
/// height stands.
pub proof fn law_highest_block_is_at_the_height(
    stored: Fetched<Vec<u8>>,
    height: i64,
    highest: (u64, ScanRequest<ChainColumn>),
    request: ScanRequest<ChainColumn>,
)
    requires
        call_ensures(ChainDB::get_block_height, (&stored,), height),
        call_ensures(ChainDB::highest_block, (&stored,), highest),
        call_ensures(headers_request, (highest.0,), request),
    ensures
        highest.0 == height as u64,
        highest.1.column == request.column,
        highest.1.from@ == request.from@,
        highest.1.bound@ == request.bound@,
{
}

/// An identity that was made is 64 bytes long, begins with 32 times the letter A, and is read
/// back, once it has been written, without a new one being made.
pub proof fn law_identity_is_kept(
    store: ChainStore,
    made: (Vec<u8>, BatchOp<ChainColumn>),
    request: GetRequest<ChainColumn>,
    stored: Fetched<Vec<u8>>,
    found: (Vec<u8>, Option<BatchOp<ChainColumn>>),
)
    requires
        call_ensures(ChainDB::reset_node_id, (), made),
        call_ensures(Record::request, (&Record::NodeId,), request),
        is_answer(stored, written(store, seq![made.1]), request.column, request.key@, verbatim()),
        call_ensures(ChainDB::get_node_id, (stored,), found),
    ensures
        made.0@.len() == 64,
        forall|i: int| 0 <= i < 32 ==> #[trigger] made.0@[i] == 65,
        found.0@ == made.0@,
        found.1 is None,
{
    lemma_one_write(store, made.1);
    let tail = choose|tail: Seq<u8>| tail.len() == 32 && made.0@ == #[trigger] node_id(tail);
    assert(made.0@ == node_id(tail));
}

/// Where no identity is stored, or it cannot be read, one is made and is to be written.
pub proof fn law_missing_identity_is_made(
    store: ChainStore,
    stored: Fetched<Vec<u8>>,
    found: (Vec<u8>, Option<BatchOp<ChainColumn>>),
    request: GetRequest<ChainColumn>,
)
    requires
        !(stored matches Ok(Some(_))),
        call_ensures(Record::request, (&Record::NodeId,), request),
        call_ensures(ChainDB::get_node_id, (stored,), found),
    ensures
        found.0@.len() == 64,
        forall|i: int| 0 <= i < 32 ==> #[trigger] found.0@[i] == 65,
        found.1 matches Some(op) && written(store, seq![op]) == store.insert(
            (request.column, request.key@),
            found.0@,
        ),
{
    let tail = choose|tail: Seq<u8>| tail.len() == 32 && found.0@ == #[trigger] node_id(tail);
    assert(found.0@ == node_id(tail));
    lemma_one_write(store, found.1->0);
}

/// An identity is its head of 32 times the letter A and its tail, and is written as it is.
pub proof fn law_identity_has_its_tail(
    store: ChainStore,
    tail: &[u8],
    id: Vec<u8>,
    op: BatchOp<ChainColumn>,
    at: GetRequest<ChainColumn>,
)
    requires
        tail@.len() == 32,
        call_ensures(node_id_with_tail, (tail,), id),
        call_ensures(node_id_record, (&id,), op),
        call_ensures(Record::request, (&Record::NodeId,), at),
    ensures
        written(store, seq![op]) == store.insert((at.column, at.key@), id@),
        id@.len() == 64,
        forall|i: int| 0 <= i < 32 ==> #[trigger] id@[i] == 65,
        forall|i: int| 32 <= i < 64 ==> #[trigger] id@[i] == tail@[i - 32],
{
    lemma_one_write(store, op);
}

/// Errors that were raised outside keep their text, and only they have no class.
pub proof fn law_errors_keep_their_text(
    error: ChainError,
    kind: Option<ErrorKind>,
    message: String,
)
    requires
        call_ensures(ChainError::kind, (&error,), kind),
        call_ensures(ChainError::message, (&error,), message),
    ensures
        error matches ChainError::Database(text) ==> message@ == text@,
        error matches ChainError::Decode(text) ==> message@ == text@,
        kind is None <==> error is Database || error is Decode,
        kind == Some(ErrorKind::InvalidInput) <==> error is LinkedToBlock,
        kind == Some(ErrorKind::NotFound) <==> error is BlockNotFound
            || error is BlockHeaderNotFound || error is MappingNotFound
            || error is TransactionNotFound,
{
}

/// The column at this index of the chain database: small records, headers, transactions
/// indexed by their block's hash, or the places of transactions.
pub open spec fn is_chain_column(column: ColumnDescriptor, index: int) -> bool {
    &&& column.name@ == if index == 0 {
        "default"@
    } else if index == 1 {
        "block-header"@
    } else if index == 2 {
        "transaction"@
    } else {
        "transaction-block"@
    }
    &&& column.num_levels == (if index == 0 {
        Some(2i32)
    } else {
        None
    })
    &&& column.uncompressed == (index == 0)
    &&& column.prefix_len == (if index == 2 {
        Some(32usize)
    } else {
        None
    })
    &&& column.max_write_buffer_number == (if index == 0 {
        None
    } else {
        Some(6i32)
    })
}

/// The chain database is opened with four columns, those that are described. It lists
/// neither headers nor blocks.
pub proof fn law_chain_database_is_opened<H, T>(
    db: ChainDB,
    columns: Vec<ColumnDescriptor>,
    settings: DbSettings,
    headers: Vec<IndexedBlockHeader<H>>,
    blocks: Vec<IndexedBlock<H, T>>,
)
    requires
        call_ensures(ChainDB::new, (), db),
        call_ensures(col_descs_for_chain_db, (), columns),
        call_ensures(DbSettings::detect, (), settings),
        call_ensures(ChainDB::block_headers::<H>, (&db,), headers),
        call_ensures(ChainDB::blocks::<H, T>, (&db,), blocks),
    ensures
        db.settings.create_if_missing && db.settings.create_missing_column_families,
        db.settings.max_open_files == 1024,
        settings.create_if_missing && settings.create_missing_column_families,
        settings.max_open_files == 1024,
        db.columns@.len() == 4,
        forall|i: int| 0 <= i < 4 ==> is_chain_column(#[trigger] db.columns@[i], i),
        columns@.len() == 4,
        forall|i: int| 0 <= i < 4 ==> is_chain_column(#[trigger] columns@[i], i),
        headers@.len() == 0,
        blocks@.len() == 0,
{
    lemma_chain_columns(db.columns@);
    lemma_chain_columns(columns@);
}

proof fn lemma_chain_columns(columns: Seq<ColumnDescriptor>)
    requires
        descriptor_views(columns) == chain_columns(),
    ensures
        columns.len() == 4,
        forall|i: int| 0 <= i < 4 ==> is_chain_column(#[trigger] columns[i], i),
{
    let views = descriptor_views(columns);
    assert(views.len() == columns.len());
    assert forall|i: int| 0 <= i < 4 implies is_chain_column(#[trigger] columns[i], i) by {
        assert(views[i] == columns[i]@);
    }
}

/// Blocks, headers and transactions are made of the parts that they are given.
pub proof fn law_blocks_keep_their_parts<H, T>(
    hash: H256,
    raw: H,
    message: T,
    header: IndexedBlockHeader<H>,
    txn: IndexedTransaction<T>,
    txns: Vec<IndexedTransaction<T>>,
    block: IndexedBlock<H, T>,
    shown: &H256,
)
    requires
        call_ensures(IndexedBlockHeader::<H>::new, (hash, raw), header),
        call_ensures(IndexedTransaction::<T>::new, (hash, message), txn),
        call_ensures(IndexedBlock::<H, T>::new, (header, txns), block),
        call_ensures(IndexedBlock::<H, T>::hash, (&block,), shown),
    ensures
        header.hash@ == hash@ && header.raw == raw,
        txn.hash@ == hash@ && txn.raw == message,
        block.header.hash@ == hash@ && block.header.raw == raw,
        block.transactions@ == txns@,
        shown@ == hash@,
{
}

/// A record is stored in the default column, under the letters of its name.
pub proof fn law_records_have_their_keys(
    record: Record,
    request: GetRequest<ChainColumn>,
    key: Vec<u8>,
    record_name: &'static str,
    column: ChainColumn,
    name: &'static str,
)
    requires
        call_ensures(Record::request, (&record,), request),
        call_ensures(Record::key, (&record,), key),
        call_ensures(Record::name, (&record,), record_name),
        call_ensures(ChainColumn::name, (&column,), name),
    ensures
        request.column == ChainColumn::Default,
        key@ == request.key@,
        record_name@.len() == request.key@.len(),
        forall|i: int|
            0 <= i < record_name@.len() ==> #[trigger] record_name@[i] as int == request.key@[i],
        request.key@ == match record {
            Record::NodeId => seq![78u8, 79, 68, 69, 95, 73, 68],
            Record::BlockHeight => seq![66u8, 76, 79, 67, 75, 95, 72, 69, 73, 71, 72, 84],
            Record::ParentHashVerified => seq![
                80u8, 65, 82, 69, 78, 84, 95, 72, 65, 83, 72, 95, 86, 69, 82, 73, 70, 73, 69, 68,
            ],
            Record::MerkleTreeVerified => seq![
                77u8, 69, 82, 75, 76, 69, 95, 84, 82, 69, 69, 95, 86, 69, 82, 73, 70, 73, 69, 68,
            ],
        },
        name@ == match column {
            ChainColumn::Default => "default"@,
            ChainColumn::BlockHeader => "block-header"@,
            ChainColumn::Transaction => "transaction"@,
            ChainColumn::TransactionBlock => "transaction-block"@,
        },
{
    reveal_strlit("NODE_ID");
    reveal_strlit("BLOCK_HEIGHT");
    reveal_strlit("PARENT_HASH_VERIFIED");
    reveal_strlit("MERKLE_TREE_VERIFIED");
}

/// What the requests ask for: the column, where the read is or the scan starts, and how far
/// the scan goes.
pub proof fn law_requests_ask_for(
    hash: H256,
    num: u64,
    signed: i64,
    header: GetRequest<ChainColumn>,
    mapping: GetRequest<ChainColumn>,
    headers: ScanRequest<ChainColumn>,
    transactions: ScanRequest<ChainColumn>,
    by_number: ScanRequest<ChainColumn>,
)
    requires
        signed != -1,
        call_ensures(header_request, (&hash,), header),
        call_ensures(mapping_request, (&hash,), mapping),
        call_ensures(headers_request, (num,), headers),
        call_ensures(transactions_request, (&hash,), transactions),
        call_ensures(transactions_by_number_request, (signed,), by_number),
    ensures
        header.column == ChainColumn::BlockHeader && header.key@ == hash@,
        mapping.column == ChainColumn::TransactionBlock && mapping.key@ == hash@,
        headers.column == ChainColumn::BlockHeader,
        headers.from@.len() == 32,
        headers.from@.take(8) == be_bytes(num),
        forall|i: int| 8 <= i < 32 ==> #[trigger] headers.from@[i] == 0,
        headers.bound matches ScanBound::Prefix(p) && p@ == be_bytes(num),
        transactions.column == ChainColumn::Transaction && transactions.from@ == hash@,
        transactions.bound matches ScanBound::Prefix(p) && p@ == hash@,
        by_number.column == ChainColumn::Transaction && by_number.from@ == be_bytes(signed as u64),
        by_number.bound matches ScanBound::Below(u) && u@ == be_bytes((signed as u64 + 1) as u64),
{
    lemma_be_round_trip(num);
    assert(headers.from@.take(8) =~= be_bytes(num));
}

/// The block under a hash: no header is stored there, it does not decode, it could not be
/// read, or the block's transactions are asked for next.
pub proof fn law_block_of_a_hash<H>(
    store: ChainStore,
    hash: H256,
    request: GetRequest<ChainColumn>,
    header: Fetched<Result<H, String>>,
    res: Result<PendingBlock<H>, ChainError>,
    decode: spec_fn(Seq<u8>) -> Result<H, String>,
)
    requires
        call_ensures(header_request, (&hash,), request),
        header is Ok ==> is_answer(header, store, request.column, request.key@, decoded(decode)),
        call_ensures(ChainDB::get_block_by_id::<H>, (&hash, header), res) || call_ensures(
            ChainDB::get_block_by_hash::<H>,
            (&hash, header),
            res,
        ),
    ensures
        ({
            let at = (ChainColumn::BlockHeader, hash@);
            match res {
                Ok(pending) => header is Ok && store.contains_key(at) && pending.header.hash@
                    == hash@ && decode(store[at]) == Ok::<_, String>(pending.header.raw)
                    && pending.request.column == ChainColumn::Transaction
                    && pending.request.from@ == hash@ && pending.request.bound@
                    == BoundView::Prefix(hash@),
                Err(ChainError::Database(e)) => header == Err::<Option<Result<H, String>>, _>(e),
                Err(ChainError::Decode(e)) => header is Ok && store.contains_key(at) && decode(
                    store[at],
                ) == Err::<H, _>(e),
                Err(ChainError::BlockHeaderNotFound) => header is Ok && !store.contains_key(at),
                Err(_) => false,
            }
        }),
{
}

/// The second read for the header of a transaction's block: it gives the message, or tells
/// that the header is missing, does not decode or could not be read.
pub proof fn law_header_is_finished<H>(
    store: ChainStore,
    pending: PendingHeader,
    header: Fetched<Result<H, String>>,
    res: Result<IndexedBlockHeader<H>, ChainError>,
    decode: spec_fn(Seq<u8>) -> Result<H, String>,
)
    requires
        header is Ok ==> is_answer(
            header,
            store,
            pending.request.column,
            pending.request.key@,
            decoded(decode),
        ),
        call_ensures(PendingHeader::finish::<H>, (pending, header), res),
    ensures
        ({
            let at = (pending.request.column, pending.request.key@);
            match res {
                Ok(found) => header is Ok && store.contains_key(at) && found.hash@
                    == pending.hash@ && decode(store[at]) == Ok::<_, String>(found.raw),
                Err(ChainError::Database(e)) => header == Err::<Option<Result<H, String>>, _>(e),
                Err(ChainError::Decode(e)) => header is Ok && store.contains_key(at) && decode(
                    store[at],
                ) == Err::<H, _>(e),
                Err(ChainError::BlockHeaderNotFound) => header is Ok && !store.contains_key(at),
                Err(_) => false,
            }
        }),
{
}

/// How a stored place is taken apart: its first 32 bytes are the block's hash, under which
/// the block's header is asked for, the next eight the index, and the whole, followed by the
/// transaction's hash, is the transaction's key.
pub proof fn law_place_is_taken_apart(
    id: H256,
    place: Vec<u8>,
    n: u64,
    pending: Result<PendingTransaction, ChainError>,
    index: Result<i32, ChainError>,
    hash: Result<H256, ChainError>,
    header: Result<PendingHeader, ChainError>,
)
    requires
        place@.len() >= 40,
        place@.subrange(32, 40) == be_bytes(n),
        call_ensures(ChainDB::get_transaction_by_id, (&id, Ok(Some(place))), pending),
        call_ensures(ChainDB::get_transaction_index, (Ok(Some(place)),), index),
        call_ensures(ChainDB::get_transaction_block_hash, (Ok(Some(place)),), hash),
        call_ensures(
            ChainDB::get_block_header_by_transaction_hash,
            (Ok(Some(place)),),
            header,
        ),
    ensures
        pending matches Ok(p) && p.id@ == id@ && p.request.column == ChainColumn::Transaction
            && p.request.key@ == place@ + id@,
        index matches Ok(i) && i == n as i32,
        hash matches Ok(h) && h@ == place@.subrange(0, 32),
        header matches Ok(p) && p.hash@ == place@.subrange(0, 32) && p.request.column
            == ChainColumn::BlockHeader && p.request.key@ == place@.subrange(0, 32),
{
    lemma_be_round_trip(n);
    assert(place@.take(32) =~= place@.subrange(0, 32));
}

/// What the writes of records do: the value of one key of the default column, and nothing
/// else. The height is written only if it is above the one that was read, which is 0 where
/// none can be read.
pub proof fn law_records_are_written(
    store: ChainStore,
    height: i64,
    num: u64,
    stored: Fetched<Vec<u8>>,
    read: i64,
    update: Option<BatchOp<ChainColumn>>,
    force: BatchOp<ChainColumn>,
    parent: BatchOp<ChainColumn>,
    merkle: BatchOp<ChainColumn>,
    made: (Vec<u8>, BatchOp<ChainColumn>),
    height_at: GetRequest<ChainColumn>,
    parent_at: GetRequest<ChainColumn>,
    merkle_at: GetRequest<ChainColumn>,
    id_at: GetRequest<ChainColumn>,
)
    requires
        height >= 0,
        call_ensures(Record::request, (&Record::BlockHeight,), height_at),
        call_ensures(Record::request, (&Record::ParentHashVerified,), parent_at),
        call_ensures(Record::request, (&Record::MerkleTreeVerified,), merkle_at),
        call_ensures(Record::request, (&Record::NodeId,), id_at),
        call_ensures(ChainDB::get_block_height, (&stored,), read),
        call_ensures(ChainDB::update_block_height, (height, &stored), update),
        call_ensures(ChainDB::force_update_block_height, (height,), force),
        call_ensures(ChainDB::update_parent_hash_verified_block_number, (num,), parent),
        call_ensures(ChainDB::update_merkle_tree_verified_block_number, (num,), merkle),
        call_ensures(ChainDB::reset_node_id, (), made),
    ensures
        update is Some <==> height > read,
        update matches Some(op) ==> written(store, seq![op]) == store.insert(
            (height_at.column, height_at.key@),
            be_bytes(height as u64),
        ),
        written(store, seq![force]) == store.insert(
            (height_at.column, height_at.key@),
            be_bytes(height as u64),
        ),
        written(store, seq![parent]) == store.insert(
            (parent_at.column, parent_at.key@),
            be_bytes(num),
        ),
        written(store, seq![merkle]) == store.insert(
            (merkle_at.column, merkle_at.key@),
            be_bytes(num),
        ),
        written(store, seq![made.1]) == store.insert((id_at.column, id_at.key@), made.0@),
{
    lemma_one_write(store, force);
    lemma_one_write(store, parent);
    lemma_one_write(store, merkle);
    lemma_one_write(store, made.1);
    if update is Some {
        lemma_one_write(store, update->0);
    }
}

/// Transactions whose hashes and messages agree.
pub open spec fn same_transactions<T>(
    a: Seq<IndexedTransaction<T>>,
    b: Seq<IndexedTransaction<T>>,
) -> bool {
    &&& a.len() == b.len()
    &&& forall|i: int|
        0 <= i < a.len() ==> (#[trigger] a[i]).hash@ == b[i].hash@ && a[i].raw == b[i].raw
}

/// Entries of a scan that could not be read are passed over: every operation answers as if
/// they were not there.
pub proof fn law_failed_reads_do_not_count<T>(
    hash: H256,
    num: i64,
    items: Vec<Option<Row<Result<T, String>>>>,
    clean: Vec<Option<Row<Result<T, String>>>>,
    txns_a: Result<Vec<IndexedTransaction<T>>, ChainError>,
    txns_b: Result<Vec<IndexedTransaction<T>>, ChainError>,
    hashes_a: Result<Vec<H256>, ChainError>,
    hashes_b: Result<Vec<H256>, ChainError>,
    by_number_a: Result<Vec<H256>, ChainError>,
    by_number_b: Result<Vec<H256>, ChainError>,
    headers_a: Vec<IndexedBlockHeader<T>>,
    headers_b: Vec<IndexedBlockHeader<T>>,
    present_a: bool,
    present_b: bool,
)
    requires
        num != -1,
        clean@ == items@.filter(|item: Option<Row<Result<T, String>>>| item is Some),
        call_ensures(ChainDB::get_block_transactions::<T>, (&hash, items), txns_a),
        call_ensures(ChainDB::get_block_transactions::<T>, (&hash, clean), txns_b),
        call_ensures(
            ChainDB::get_transaction_hashes_by_block_hash::<Result<T, String>>,
            (&hash, items),
            hashes_a,
        ),
        call_ensures(
            ChainDB::get_transaction_hashes_by_block_hash::<Result<T, String>>,
            (&hash, clean),
            hashes_b,
        ),
        call_ensures(
            ChainDB::get_transaction_hashes_by_block_number::<Result<T, String>>,
            (num, items),
            by_number_a,
        ),
        call_ensures(
            ChainDB::get_transaction_hashes_by_block_number::<Result<T, String>>,
            (num, clean),
            by_number_b,
        ),
        call_ensures(
            ChainDB::get_block_headers_by_number::<T>,
            (num as u64, items),
            headers_a,
        ),
        call_ensures(
            ChainDB::get_block_headers_by_number::<T>,
            (num as u64, clean),
            headers_b,
        ),
        call_ensures(
            ChainDB::has_block_number::<Result<T, String>>,
            (num as u64, items),
            present_a,
        ),
        call_ensures(
            ChainDB::has_block_number::<Result<T, String>>,
            (num as u64, clean),
            present_b,
        ),
    ensures
        match txns_a {
            Ok(a) => txns_b matches Ok(b) && same_transactions(a@, b@),
            Err(e) => txns_b == Err::<Vec<IndexedTransaction<T>>, _>(e),
        },
        hashes_a matches Ok(a) && hashes_b matches Ok(b) && same_hashes(a@, b@),
        by_number_a matches Ok(a) && by_number_b matches Ok(b) && same_hashes(a@, b@),
        headers_a@.len() == headers_b@.len(),
        forall|i: int|
            0 <= i < headers_a@.len() ==> (#[trigger] headers_a@[i]).hash@ == headers_b@[i].hash@
                && headers_a@[i].raw == headers_b@[i].raw,
        present_a == present_b,
{
    let under = BoundView::Prefix(hash@);
    let below = BoundView::Below(be_bytes((num as u64 + 1) as u64));
    let of_number = BoundView::Prefix(be_bytes(num as u64));
    law_failed_reads_are_passed_over(items@, clean@, under);
    law_failed_reads_are_passed_over(items@, clean@, below);
    law_failed_reads_are_passed_over(items@, clean@, of_number);
    lemma_hashes(taken(items@, under), hashes_a->Ok_0@);
    lemma_hashes(taken(items@, under), hashes_b->Ok_0@);
    lemma_hashes(taken(items@, below), by_number_a->Ok_0@);
    lemma_hashes(taken(items@, below), by_number_b->Ok_0@);
    lemma_headers_are_rows(taken(items@, of_number), headers_a@);
    lemma_headers_are_rows(taken(items@, of_number), headers_b@);
    if txns_a is Ok {
        lemma_txn_rows(taken(items@, under), txns_a->Ok_0@);
        lemma_txn_rows(taken(items@, under), txns_b->Ok_0@);
        let a = txns_a->Ok_0@;
        let b = txns_b->Ok_0@;
        let rows = taken(items@, under);
        assert forall|i: int| 0 <= i < a.len() implies (#[trigger] a[i]).hash@ == b[i].hash@
            && a[i].raw == b[i].raw by {
            assert(rows[i].value == Ok::<_, String>(a[i].raw));
        }
    }
}

/// Equal hashes.
pub open spec fn same_hashes(a: Seq<H256>, b: Seq<H256>) -> bool {
    &&& a.len() == b.len()
    &&& forall|i: int| 0 <= i < a.len() ==> (#[trigger] a[i])@ == b[i]@
}

/// The same of the block of a number: found, missing, forked or undecodable alike.
pub proof fn law_failed_reads_do_not_hide_a_block<H>(
    num: u64,
    items: Vec<Option<Row<StoredHeader<H>>>>,
    clean: Vec<Option<Row<StoredHeader<H>>>>,
    a: Result<PendingBlock<H>, ChainError>,
    b: Result<PendingBlock<H>, ChainError>,
)
    requires
        clean@ == items@.filter(|item: Option<Row<StoredHeader<H>>>| item is Some),
        call_ensures(ChainDB::get_block_by_number::<H>, (num, items), a),
        call_ensures(ChainDB::get_block_by_number::<H>, (num, clean), b),
    ensures
        match (a, b) {
            (Ok(p), Ok(q)) => p.header.hash@ == q.header.hash@ && p.header.raw == q.header.raw
                && p.request.column == q.request.column && p.request.from@ == q.request.from@
                && p.request.bound@ == q.request.bound@,
            (Err(ChainError::ForkFound { report: r }), Err(ChainError::ForkFound { report: s })) => {
                &&& r@.len() == s@.len()
                &&& forall|i: int| 0 <= i < r@.len() ==> (#[trigger] r@[i])@ == s@[i]@
            },
            (Err(e), Err(f)) => e == f,
            _ => false,
        },
{
    law_failed_reads_are_passed_over(items@, clean@, BoundView::Prefix(be_bytes(num)));
    if a is Err && a->Err_0 is ForkFound {
        let r = a->Err_0->report;
        let s = b->Err_0->report;
        assert(line_texts(r@).len() == r@.len());
        assert(line_texts(s@).len() == s@.len());
        assert forall|i: int| 0 <= i < r@.len() implies (#[trigger] r@[i])@ == s@[i]@ by {
            assert(line_texts(r@)[i] == r@[i]@);
            assert(line_texts(s@)[i] == s@[i]@);
        }
    }
}

/// A hash is its 32 bytes, however it was made.
pub proof fn law_hash_is_its_bytes(
    bytes: [u8; 32],
    src: &[u8],
    a: H256,
    b: H256,
    shown_a: &[u8],
    shown_b: &[u8],
)
    requires
        src@.len() == 32,
        call_ensures(H256::new, (bytes,), a),
        call_ensures(H256::from_slice, (src,), b),
        call_ensures(H256::as_bytes, (&a,), shown_a),
        call_ensures(H256::as_bytes, (&b,), shown_b),
    ensures
        shown_a@ == bytes@,
        shown_b@ == src@,
{
}

} // verus!

//! What holds of the chain database as a whole: what is read back of what was written.

use crate::answers::{
    ascending, decoded, is_answer, is_scan, law_prefix_scan_is_exact, lemma_ascending_unique,
    lemma_taken_initial, row_keys, verbatim,
};
use crate::batch::{apply_op, apply_ops, lemma_apply_concat, lemma_apply_push};
use crate::block::EncodedBlock;
use crate::chain_db::{
    block_ops, decodable, decoded_transactions, deletion_ops, hashes_in_keys, keys_have_len,
    number_readable, record_op, stored_number, transaction_keys_whole, transaction_ops,
};
use crate::chain_schema::{
    first_hash, law_records_are_apart, mapping_value, transaction_key, zeros, ChainColumn,
    Record,
};
use crate::codec::{
    be_bytes, be_value, has_prefix, lemma_be_bytes_injective, lemma_be_bytes_order,
    lemma_be_round_trip, lemma_eight_bytes_are_a_number, lemma_lex_append, lemma_lex_extend,
    lemma_lex_irreflexive, lemma_prefix_not_before, lemma_prefix_of_concat, lex_lt, lex_lt_at,
};
use crate::hash::lemma_hash_len;
use crate::store::{keys_reach, taken, BoundView, Fetched, Row, Store};
use vstd::prelude::*;

verus! {

broadcast use lemma_hash_len;

/// The contents of a chain database.
pub type ChainStore = Store<ChainColumn>;

/// The database after a block has been inserted.
pub open spec fn inserted(store: ChainStore, block: EncodedBlock) -> ChainStore {
    apply_ops(store, block_ops(block))
}

/// The key of the `i`th transaction of a block.
pub open spec fn own_key(block: EncodedBlock, i: int) -> Seq<u8> {
    transaction_key(block.header.hash@, i as u64, block.transactions@[i].hash@)
}

/// No other transaction is stored under the prefix than the block's own.
pub open spec fn own_rows_only(store: ChainStore, block: EncodedBlock, prefix: Seq<u8>) -> bool {
    forall|key: Seq<u8>| #[trigger]
        store.contains_key((ChainColumn::Transaction, key)) && has_prefix(key, prefix)
            ==> exists|i: int|
            0 <= i < block.transactions@.len() && key == #[trigger] own_key(block, i)
}

/// The hash of the `i`th transaction does not come again in the block.
pub open spec fn last_of_its_hash(block: EncodedBlock, i: int, n: int) -> bool {
    forall|j: int|
        i < j < n ==> (#[trigger] block.transactions@[j]).hash@ != block.transactions@[i].hash@
}

proof fn lemma_block_len(block: EncodedBlock)
    ensures
        block.transactions@.len() <= u64::MAX,
{
    assert(block.transactions.len() == block.transactions@.len());
}

/// The parts of a transaction's key.
pub proof fn lemma_key_parts(block: Seq<u8>, index: u64, txn: Seq<u8>)
    requires
        block.len() == 32,
        txn.len() == 32,
    ensures
        transaction_key(block, index, txn).len() == 72,
        transaction_key(block, index, txn).take(32) == block,
        transaction_key(block, index, txn).subrange(32, 40) == be_bytes(index),
        transaction_key(block, index, txn).skip(40) == txn,
        transaction_key(block, index, txn) == mapping_value(block, index) + txn,
        has_prefix(transaction_key(block, index, txn), block),
        mapping_value(block, index).len() == 40,
        mapping_value(block, index).take(32) == block,
        mapping_value(block, index).subrange(32, 40) == be_bytes(index),
{
    lemma_be_round_trip(index);
    let key = transaction_key(block, index, txn);
    assert(key.take(32) =~= block);
    assert(key.subrange(32, 40) =~= be_bytes(index));
    assert(key.skip(40) =~= txn);
    assert(mapping_value(block, index).take(32) =~= block);
    assert(mapping_value(block, index).subrange(32, 40) =~= be_bytes(index));
}

/// Transactions at different places have different keys, ordered as the places are.
proof fn lemma_own_keys_ascend(block: EncodedBlock, i: int, j: int)
    requires
        0 <= i < j < block.transactions@.len(),
    ensures
        lex_lt(own_key(block, i), own_key(block, j)),
        own_key(block, i) != own_key(block, j),
{
    lemma_block_len(block);
    let hash = block.header.hash@;
    let (a, b) = (be_bytes(i as u64), be_bytes(j as u64));
    let (s, t) = (block.transactions@[i].hash@, block.transactions@[j].hash@);
    lemma_be_round_trip(i as u64);
    lemma_be_round_trip(j as u64);
    lemma_be_bytes_order(i as u64, j as u64);
    lemma_lex_append(a, b, s, t);
    lemma_lex_extend(hash, a + s, b + t);
    assert(own_key(block, i) =~= hash + (a + s));
    assert(own_key(block, j) =~= hash + (b + t));
    lemma_lex_irreflexive(own_key(block, i));
}

/// What the writes of the first `n` transactions do to each column.
proof fn lemma_transaction_ops(store: ChainStore, block: EncodedBlock, n: nat)
    requires
        n <= block.transactions@.len(),
    ensures
        ({
            let after = apply_ops(store, transaction_ops(block, n));
            &&& forall|i: int|
                0 <= i < n ==> after.contains_key(
                    (ChainColumn::Transaction, #[trigger] own_key(block, i)),
                ) && after[(ChainColumn::Transaction, own_key(block, i))]
                    == block.transactions@[i].raw@
            &&& forall|key: Seq<u8>|
                (forall|i: int| 0 <= i < n ==> key != #[trigger] own_key(block, i)) ==> same_at(
                    store,
                    after,
                    ChainColumn::Transaction,
                    key,
                )
            &&& forall|i: int|
                0 <= i < n && #[trigger] last_of_its_hash(block, i, n as int) ==> {
                    let at = (ChainColumn::TransactionBlock, block.transactions@[i].hash@);
                    after.contains_key(at) && after[at] == mapping_value(
                        block.header.hash@,
                        i as u64,
                    )
                }
            &&& forall|key: Seq<u8>|
                (forall|i: int| 0 <= i < n ==> key != (#[trigger] block.transactions@[i]).hash@)
                    ==> same_at(store, after, ChainColumn::TransactionBlock, key)
            &&& forall|key: Seq<u8>| same_at(store, after, ChainColumn::BlockHeader, key)
            &&& forall|key: Seq<u8>| same_at(store, after, ChainColumn::Default, key)
        }),
    decreases n,
{
    if n > 0 {
        let m = (n - 1) as nat;
        lemma_transaction_ops(store, block, m);
        lemma_block_len(block);
        let before = apply_ops(store, transaction_ops(block, m));
        let after = apply_ops(store, transaction_ops(block, n));
        let txn = block.transactions@[m as int];
        let ops = transaction_ops(block, n);
        let place = mapping_value(block.header.hash@, m as u64);
        let earlier = transaction_ops(block, m);
        lemma_apply_push(store, earlier, ops[ops.len() - 2]);
        lemma_apply_push(store, earlier.push(ops[ops.len() - 2]), ops[ops.len() - 1]);
        assert(ops =~= earlier.push(ops[ops.len() - 2]).push(ops[ops.len() - 1]));
        assert(after =~= before.insert(
            (ChainColumn::Transaction, own_key(block, m as int)),
            txn.raw@,
        ).insert((ChainColumn::TransactionBlock, txn.hash@), place));
        assert forall|i: int| 0 <= i < n implies after.contains_key(
            (ChainColumn::Transaction, #[trigger] own_key(block, i)),
        ) && after[(ChainColumn::Transaction, own_key(block, i))]
            == block.transactions@[i].raw@ by {
            if i < m {
                lemma_own_keys_ascend(block, i, m as int);
            }
        }
        assert forall|key: Seq<u8>|
            (forall|i: int| 0 <= i < n ==> key != #[trigger] own_key(block, i)) implies same_at(
            store,
            after,
            ChainColumn::Transaction,
            key,
        ) by {
            assert(key != own_key(block, m as int));
            assert(same_at(store, before, ChainColumn::Transaction, key));
        }
        assert forall|i: int| 0 <= i < n && #[trigger] last_of_its_hash(block, i, n as int) implies {
            let at = (ChainColumn::TransactionBlock, block.transactions@[i].hash@);
            after.contains_key(at) && after[at] == mapping_value(block.header.hash@, i as u64)
        } by {
            if i < m {
                assert(block.transactions@[m as int].hash@ != block.transactions@[i].hash@);
                assert(last_of_its_hash(block, i, m as int));
            }
        }
        assert forall|key: Seq<u8>|
            (forall|i: int| 0 <= i < n ==> key != (#[trigger] block.transactions@[i]).hash@) implies same_at(
            store,
            after,
            ChainColumn::TransactionBlock,
            key,
        ) by {
            assert(key != block.transactions@[m as int].hash@);
            assert(same_at(store, before, ChainColumn::TransactionBlock, key));
        }
        assert forall|key: Seq<u8>| same_at(store, after, ChainColumn::BlockHeader, key) by {
            assert(same_at(store, before, ChainColumn::BlockHeader, key));
        }
        assert forall|key: Seq<u8>| same_at(store, after, ChainColumn::Default, key) by {
            assert(same_at(store, before, ChainColumn::Default, key));
        }
    }
}

/// The two databases hold the same under this key.
pub open spec fn same_at(a: ChainStore, b: ChainStore, column: ChainColumn, key: Seq<u8>) -> bool {
    &&& a.contains_key((column, key)) == b.contains_key((column, key))
    &&& a.contains_key((column, key)) ==> a[(column, key)] == b[(column, key)]
}

/// Inserting a block stores its header under its hash, each of its transactions under its
/// place and each place under the transaction's hash, and changes nothing else.
pub proof fn law_insert_stores_the_block(store: ChainStore, block: EncodedBlock)
    ensures
        inserted(store, block).contains_key((ChainColumn::BlockHeader, block.header.hash@)),
        inserted(store, block)[(ChainColumn::BlockHeader, block.header.hash@)]
            == block.header.raw@,
        forall|i: int|
            0 <= i < block.transactions@.len() ==> inserted(store, block).contains_key(
                (ChainColumn::Transaction, #[trigger] own_key(block, i)),
            ) && inserted(store, block)[(ChainColumn::Transaction, own_key(block, i))]
                == block.transactions@[i].raw@,
        forall|i: int|
            0 <= i < block.transactions@.len() && #[trigger] last_of_its_hash(
                block,
                i,
                block.transactions@.len() as int,
            ) ==> {
                let at = (ChainColumn::TransactionBlock, block.transactions@[i].hash@);
                inserted(store, block).contains_key(at) && inserted(store, block)[at]
                    == mapping_value(block.header.hash@, i as u64)
            },
        forall|key: Seq<u8>|
            key != block.header.hash@ ==> same_at(
                store,
                inserted(store, block),
                ChainColumn::BlockHeader,
                key,
            ),
        forall|key: Seq<u8>|
            (forall|i: int| 0 <= i < block.transactions@.len() ==> key != #[trigger] own_key(block, i))
                ==> same_at(store, inserted(store, block), ChainColumn::Transaction, key),
        forall|key: Seq<u8>|
            (forall|i: int|
                0 <= i < block.transactions@.len() ==> key != (#[trigger] block.transactions@[i]).hash@)
                ==> same_at(store, inserted(store, block), ChainColumn::TransactionBlock, key),
        forall|key: Seq<u8>| same_at(store, inserted(store, block), ChainColumn::Default, key),
{
    let all = block_ops(block);
    let rest = transaction_ops(block, block.transactions@.len());
    let first = all.take(1);
    assert(all =~= first + rest);
    lemma_apply_concat(store, first, rest);
    lemma_apply_push(store, Seq::empty(), all[0]);
    assert(first =~= Seq::empty().push(all[0]));
    let with_header = store.insert(
        (ChainColumn::BlockHeader, block.header.hash@),
        block.header.raw@,
    );
    assert(apply_ops(store, first) =~= with_header);
    lemma_transaction_ops(with_header, block, block.transactions@.len());
    let after = inserted(store, block);
    assert(same_at(with_header, after, ChainColumn::BlockHeader, block.header.hash@));
    assert forall|key: Seq<u8>| key != block.header.hash@ implies same_at(
        store,
        after,
        ChainColumn::BlockHeader,
        key,
    ) by {
        assert(same_at(with_header, after, ChainColumn::BlockHeader, key));
    }
    assert forall|key: Seq<u8>|
        (forall|i: int| 0 <= i < block.transactions@.len() ==> key != #[trigger] own_key(block, i)) implies same_at(
        store,
        after,
        ChainColumn::Transaction,
        key,
    ) by {
        assert(same_at(with_header, after, ChainColumn::Transaction, key));
    }
    assert forall|key: Seq<u8>|
        (forall|i: int|
            0 <= i < block.transactions@.len() ==> key != (#[trigger] block.transactions@[i]).hash@) implies same_at(
        store,
        after,
        ChainColumn::TransactionBlock,
        key,
    ) by {
        assert(same_at(with_header, after, ChainColumn::TransactionBlock, key));
    }
    assert forall|key: Seq<u8>| same_at(store, after, ChainColumn::Default, key) by {
        assert(same_at(with_header, after, ChainColumn::Default, key));
    }
}

/// The rows that a scan over a beginning of a block's hash yields once the block has been
/// inserted and no other is stored under that beginning.
proof fn lemma_rows_of_inserted<V>(
    store: ChainStore,
    block: EncodedBlock,
    prefix: Seq<u8>,
    items: Seq<Option<Row<V>>>,
    reads: spec_fn(Seq<u8>, V) -> bool,
)
    requires
        has_prefix(block.header.hash@, prefix),
        own_rows_only(store, block, prefix),
        is_scan(items, inserted(store, block), ChainColumn::Transaction, prefix, reads),
    ensures
        ({
            let rows = taken(items, BoundView::Prefix(prefix));
            &&& rows.len() == block.transactions@.len()
            &&& forall|i: int|
                0 <= i < rows.len() ==> {
                    &&& (#[trigger] rows[i]).key@ == own_key(block, i)
                    &&& reads(block.transactions@[i].raw@, rows[i].value)
                }
        }),
{
    let hash = block.header.hash@;
    let n = block.transactions@.len();
    let after = inserted(store, block);
    let rows = taken(items, BoundView::Prefix(prefix));
    law_insert_stores_the_block(store, block);
    assert(prefix.take(prefix.len() as int) =~= prefix);
    law_prefix_scan_is_exact(items, after, ChainColumn::Transaction, prefix, prefix, reads);
    let keys = row_keys(rows);
    let own = Seq::new(n, |i: int| own_key(block, i));
    assert forall|i: int, j: int| 0 <= i < j < own.len() implies lex_lt(
        #[trigger] own[i],
        #[trigger] own[j],
    ) by {
        lemma_own_keys_ascend(block, i, j);
    }
    assert forall|key: Seq<u8>| keys.contains(key) <==> own.contains(key) by {
        if keys.contains(key) {
            let i = choose|i: int| 0 <= i < keys.len() && keys[i] == key;
            assert(rows[i].key@ == key);
            if forall|j: int| 0 <= j < n ==> key != #[trigger] own_key(block, j) {
                assert(same_at(store, after, ChainColumn::Transaction, key));
                assert(store.contains_key((ChainColumn::Transaction, key)));
            }
            let j = choose|j: int| 0 <= j < n && key == #[trigger] own_key(block, j);
            assert(own[j] == key);
        }
        if own.contains(key) {
            let j = choose|j: int| 0 <= j < own.len() && own[j] == key;
            assert(key == own_key(block, j));
            lemma_key_parts(hash, j as u64, block.transactions@[j].hash@);
            assert(key.take(prefix.len() as int) =~= key.take(32).take(prefix.len() as int));
            lemma_prefix_not_before(prefix, key);
            assert(after.contains_key((ChainColumn::Transaction, key)));
        }
    }
    lemma_ascending_unique(keys, own);
    assert forall|i: int| 0 <= i < rows.len() implies {
        &&& (#[trigger] rows[i]).key@ == own_key(block, i)
        &&& reads(block.transactions@[i].raw@, rows[i].value)
    } by {
        assert(keys[i] == own[i]);
    }
}

/// The transactions of a block, each with what its bytes decode to.
pub open spec fn block_transactions<T>(
    block: EncodedBlock,
    decode: spec_fn(Seq<u8>) -> Result<T, String>,
) -> Seq<(Seq<u8>, T)> {
    Seq::new(
        block.transactions@.len(),
        |i: int|
            (block.transactions@[i].hash@, decode(block.transactions@[i].raw@)->Ok_0),
    )
}

/// Decoding the rows of a block's transactions gives the transactions.
proof fn lemma_decode_own_rows<T>(
    block: EncodedBlock,
    rows: Seq<Row<Result<T, String>>>,
    decode: spec_fn(Seq<u8>) -> Result<T, String>,
)
    requires
        rows.len() <= block.transactions@.len(),
        forall|i: int|
            0 <= i < rows.len() ==> {
                &&& (#[trigger] rows[i]).key@ == own_key(block, i)
                &&& rows[i].value == decode(block.transactions@[i].raw@)
                &&& rows[i].value is Ok
            },
    ensures
        decoded_transactions(rows) == Ok::<_, String>(
            block_transactions(block, decode).take(rows.len() as int),
        ),
        transaction_keys_whole(rows),
    decreases rows.len(),
{
    let want = block_transactions(block, decode);
    assert forall|n: int| 0 < n <= rows.len() && #[trigger] decodable(rows, n) implies rows[n
        - 1].key@.len() == 72 by {
        let i = n - 1;
        lemma_key_parts(block.header.hash@, i as u64, block.transactions@[i].hash@);
        assert(rows[i].key@ == own_key(block, i));
    }
    if rows.len() == 0 {
        assert(want.take(0) =~= Seq::empty());
    } else {
        let i = rows.len() - 1;
        let earlier = rows.drop_last();
        lemma_decode_own_rows(block, earlier, decode);
        lemma_key_parts(block.header.hash@, i as u64, block.transactions@[i].hash@);
        assert(rows.last() == rows[i]);
        assert(want.take(rows.len() as int) =~= want.take(i).push(want[i]));
    }
}

/// A block that has been inserted is read back: its header under its hash, and under its
/// header all its transactions in their order.
pub proof fn law_inserted_block_is_read_back<H, T>(
    store: ChainStore,
    block: EncodedBlock,
    header: Fetched<Result<H, String>>,
    items: Seq<Option<Row<Result<T, String>>>>,
    decode_header: spec_fn(Seq<u8>) -> Result<H, String>,
    decode: spec_fn(Seq<u8>) -> Result<T, String>,
)
    requires
        own_rows_only(store, block, block.header.hash@),
        forall|i: int|
            0 <= i < block.transactions@.len() ==> decode(
                (#[trigger] block.transactions@[i]).raw@,
            ) is Ok,
        is_answer(
            header,
            inserted(store, block),
            ChainColumn::BlockHeader,
            block.header.hash@,
            decoded(decode_header),
        ),
        is_scan(
            items,
            inserted(store, block),
            ChainColumn::Transaction,
            block.header.hash@,
            decoded(decode),
        ),
    ensures
        header == Ok::<_, String>(Some(decode_header(block.header.raw@))),
        transaction_keys_whole(taken(items, BoundView::Prefix(block.header.hash@))),
        decoded_transactions(taken(items, BoundView::Prefix(block.header.hash@))) == Ok::<
            _,
            String,
        >(block_transactions(block, decode)),
{
    law_insert_stores_the_block(store, block);
    assert(block.header.hash@.take(32) =~= block.header.hash@);
    lemma_rows_of_inserted(store, block, block.header.hash@, items, decoded(decode));
    let rows = taken(items, BoundView::Prefix(block.header.hash@));
    lemma_decode_own_rows(block, rows, decode);
    let want = block_transactions(block, decode);
    assert(want.take(rows.len() as int) =~= want);
}

/// The hashes of the transactions of a block that has been inserted are listed in order.
pub proof fn law_inserted_hashes_are_listed<V>(
    store: ChainStore,
    block: EncodedBlock,
    items: Seq<Option<Row<V>>>,
    reads: spec_fn(Seq<u8>, V) -> bool,
)
    requires
        own_rows_only(store, block, block.header.hash@),
        is_scan(
            items,
            inserted(store, block),
            ChainColumn::Transaction,
            block.header.hash@,
            reads,
        ),
    ensures
        keys_have_len(taken(items, BoundView::Prefix(block.header.hash@)), 72),
        hashes_in_keys(taken(items, BoundView::Prefix(block.header.hash@))) == block_hashes(block),
{
    let hash = block.header.hash@;
    assert(hash.take(32) =~= hash);
    lemma_rows_of_inserted(store, block, hash, items, reads);
    lemma_hashes_of_own_rows(block, taken(items, BoundView::Prefix(hash)));
}

/// The hashes of the transactions of a block.
pub open spec fn block_hashes(block: EncodedBlock) -> Seq<Seq<u8>> {
    Seq::new(block.transactions@.len(), |i: int| block.transactions@[i].hash@)
}

proof fn lemma_hashes_of_own_rows<V>(block: EncodedBlock, rows: Seq<Row<V>>)
    requires
        rows.len() == block.transactions@.len(),
        forall|i: int| 0 <= i < rows.len() ==> (#[trigger] rows[i]).key@ == own_key(block, i),
    ensures
        keys_have_len(rows, 72),
        hashes_in_keys(rows) == block_hashes(block),
{
    assert forall|i: int| 0 <= i < rows.len() implies (#[trigger] rows[i]).key@.len() == 72
        && rows[i].key@.skip(40) == block.transactions@[i].hash@ by {
        lemma_key_parts(block.header.hash@, i as u64, block.transactions@[i].hash@);
    }
    assert(hashes_in_keys(rows) =~= block_hashes(block));
}

/// All keys of a column have this length.
pub open spec fn column_keys_have_len(store: ChainStore, column: ChainColumn, n: nat) -> bool {
    forall|key: Seq<u8>| #[trigger] store.contains_key((column, key)) ==> key.len() == n
}

proof fn lemma_keys_reach_scan<V>(
    all: Seq<Option<Row<V>>>,
    bound: BoundView,
    n: nat,
)
    requires
        forall|i: int|
            0 <= i < all.len() ==> ((#[trigger] all[i]) matches Some(row) ==> row.key@.len() >= n),
    ensures
        keys_reach(all, bound, n),
    decreases all.len(),
{
    if all.len() > 0 {
        let rest = all.skip(1);
        assert forall|i: int| 0 <= i < rest.len() implies ((#[trigger] rest[i]) matches Some(row)
            ==> row.key@.len() >= n) by {
            assert(rest[i] == all[i + 1]);
        }
        lemma_keys_reach_scan(rest, bound, n);
        assert(all[0] matches Some(row) ==> row.key@.len() >= n);
    }
}

/// Bounds that agree on every key that the scan comes by yield the same.
proof fn lemma_taken_agree<V>(items: Seq<Option<Row<V>>>, a: BoundView, b: BoundView)
    requires
        forall|i: int|
            0 <= i < items.len() ==> ((#[trigger] items[i]) matches Some(row) ==> a.admits(row.key@)
                == b.admits(row.key@)),
    ensures
        taken(items, a) == taken(items, b),
    decreases items.len(),
{
    if items.len() > 0 {
        let rest = items.skip(1);
        assert forall|i: int| 0 <= i < rest.len() implies ((#[trigger] rest[i]) matches Some(row)
            ==> a.admits(row.key@) == b.admits(row.key@)) by {
            assert(rest[i] == items[i + 1]);
        }
        lemma_taken_agree(rest, a, b);
        assert(items[0] matches Some(row) ==> a.admits(row.key@) == b.admits(row.key@));
    }
}

/// From the keys of a number on, those below the next number are those of the number.
proof fn lemma_below_next_number(num: u64, key: Seq<u8>)
    requires
        num < u64::MAX,
        key.len() >= 8,
        !lex_lt(key, be_bytes(num)),
    ensures
        BoundView::Below(be_bytes((num + 1) as u64)).admits(key) == has_prefix(key, be_bytes(num)),
{
    let head = key.take(8);
    let next = (num + 1) as u64;
    lemma_be_round_trip(num);
    lemma_be_round_trip(next);
    let n = lemma_eight_bytes_are_a_number(head);
    lemma_be_bytes_order(n, num);
    lemma_be_bytes_order(n, next);
    if n < num {
        assert(be_bytes(num) + Seq::<u8>::empty() =~= be_bytes(num));
        assert(head + key.skip(8) =~= key);
        lemma_lex_append(head, be_bytes(num), key.skip(8), Seq::empty());
    }
    lemma_be_bytes_injective(n, num);
}

/// A scan over the transactions of a number yields those, and only those, whose block has
/// that number.
pub proof fn law_number_scan_is_a_prefix_scan<V>(
    store: ChainStore,
    num: i64,
    items: Seq<Option<Row<V>>>,
    reads: spec_fn(Seq<u8>, V) -> bool,
)
    requires
        num != -1,
        column_keys_have_len(store, ChainColumn::Transaction, 72),
        is_scan(items, store, ChainColumn::Transaction, be_bytes(num as u64), reads),
    ensures
        keys_reach(items, BoundView::Below(be_bytes((num as u64 + 1) as u64)), 8),
        keys_have_len(taken(items, BoundView::Below(be_bytes((num as u64 + 1) as u64))), 72),
        taken(items, BoundView::Below(be_bytes((num as u64 + 1) as u64))) == taken(
            items,
            BoundView::Prefix(be_bytes(num as u64)),
        ),
{
    let n = num as u64;
    assert(num != -1 ==> (num as u64) != 0xffff_ffff_ffff_ffffu64) by (bit_vector);
    let below = BoundView::Below(be_bytes((n + 1) as u64));
    let prefix = BoundView::Prefix(be_bytes(n));
    assert forall|i: int| 0 <= i < items.len() implies ((#[trigger] items[i]) matches Some(row)
        ==> below.admits(row.key@) == prefix.admits(row.key@)) by {
        lemma_below_next_number(n, items[i]->0.key@);
    }
    lemma_taken_agree(items, below, prefix);
    lemma_keys_reach_scan(items, below, 8);
    let m = lemma_taken_initial(items, below);
    assert forall|i: int| 0 <= i < taken(items, below).len() implies (#[trigger] taken(
        items,
        below,
    )[i]).key@.len() == 72 by {
        assert(items[i] is Some);
    }
}

/// The hashes of the transactions of a block that has been inserted are listed under its
/// number, if no other block of that number has any.
pub proof fn law_inserted_hashes_are_listed_by_number<V>(
    store: ChainStore,
    block: EncodedBlock,
    num: i64,
    items: Seq<Option<Row<V>>>,
    reads: spec_fn(Seq<u8>, V) -> bool,
)
    requires
        num != -1,
        has_prefix(block.header.hash@, be_bytes(num as u64)),
        own_rows_only(store, block, be_bytes(num as u64)),
        column_keys_have_len(store, ChainColumn::Transaction, 72),
        is_scan(
            items,
            inserted(store, block),
            ChainColumn::Transaction,
            be_bytes(num as u64),
            reads,
        ),
    ensures
        hashes_in_keys(taken(items, BoundView::Below(be_bytes((num as u64 + 1) as u64))))
            == block_hashes(block),
{
    let after = inserted(store, block);
    law_insert_stores_the_block(store, block);
    assert forall|key: Seq<u8>| #[trigger]
        after.contains_key((ChainColumn::Transaction, key)) implies key.len() == 72 by {
        if exists|i: int| 0 <= i < block.transactions@.len() && key == #[trigger] own_key(block, i) {
            let i = choose|i: int|
                0 <= i < block.transactions@.len() && key == #[trigger] own_key(block, i);
            lemma_key_parts(block.header.hash@, i as u64, block.transactions@[i].hash@);
        } else {
            assert(same_at(store, after, ChainColumn::Transaction, key));
        }
    }
    law_number_scan_is_a_prefix_scan(after, num, items, reads);
    lemma_rows_of_inserted(store, block, be_bytes(num as u64), items, reads);
    lemma_hashes_of_own_rows(block, taken(items, BoundView::Prefix(be_bytes(num as u64))));
}

/// After an insertion the block is present, and of the others those that were.
pub proof fn law_inserted_block_is_present<V>(
    store: ChainStore,
    block: EncodedBlock,
    id: Seq<u8>,
    header: Fetched<V>,
    reads: spec_fn(Seq<u8>, V) -> bool,
)
    requires
        is_answer(header, inserted(store, block), ChainColumn::BlockHeader, id, reads),
    ensures
        (header matches Ok(Some(_))) <==> (id == block.header.hash@ || store.contains_key(
            (ChainColumn::BlockHeader, id),
        )),
{
    law_insert_stores_the_block(store, block);
    if id != block.header.hash@ {
        assert(same_at(store, inserted(store, block), ChainColumn::BlockHeader, id));
    }
}

/// A transaction of a block that has been inserted is found by its hash: the place stored
/// under it is the block and the index there, the key built from the place is the
/// transaction's, and the block's header is stored under the hash in the place.
pub proof fn law_inserted_transaction_is_found(
    store: ChainStore,
    block: EncodedBlock,
    i: int,
    mapping: Fetched<Vec<u8>>,
)
    requires
        0 <= i < block.transactions@.len(),
        last_of_its_hash(block, i, block.transactions@.len() as int),
        is_answer(
            mapping,
            inserted(store, block),
            ChainColumn::TransactionBlock,
            block.transactions@[i].hash@,
            verbatim(),
        ),
    ensures
        mapping matches Ok(Some(place)) && {
            let after = inserted(store, block);
            let txn = block.transactions@[i];
            &&& place@.len() == 40
            &&& place@.take(32) == block.header.hash@
            &&& be_value(place@.subrange(32, 40)) == i
            &&& i <= i32::MAX ==> (be_value(place@.subrange(32, 40)) as u64) as i32 == i
            &&& after.contains_key((ChainColumn::Transaction, place@ + txn.hash@))
            &&& after[(ChainColumn::Transaction, place@ + txn.hash@)] == txn.raw@
            &&& after.contains_key((ChainColumn::BlockHeader, place@.take(32)))
            &&& after[(ChainColumn::BlockHeader, place@.take(32))] == block.header.raw@
        },
{
    law_insert_stores_the_block(store, block);
    lemma_block_len(block);
    let txn = block.transactions@[i];
    lemma_key_parts(block.header.hash@, i as u64, txn.hash@);
    lemma_be_round_trip(i as u64);
    assert(inserted(store, block).contains_key((ChainColumn::Transaction, own_key(block, i))));
    let n = i as u64;
    assert(n <= 0x7fff_ffff ==> (n as i32) as u64 == n) by (bit_vector);
}

/// A scan over the headers of a number yields the stored blocks of that number in order of
/// their hashes, and nothing else.
pub proof fn law_header_scan_is_exact<V>(
    store: ChainStore,
    num: u64,
    items: Seq<Option<Row<V>>>,
    reads: spec_fn(Seq<u8>, V) -> bool,
)
    requires
        column_keys_have_len(store, ChainColumn::BlockHeader, 32),
        is_scan(items, store, ChainColumn::BlockHeader, first_hash(num), reads),
    ensures
        ({
            let rows = taken(items, BoundView::Prefix(be_bytes(num)));
            &&& keys_reach(items, BoundView::Prefix(be_bytes(num)), 8)
            &&& keys_have_len(rows, 32)
            &&& ascending(row_keys(rows))
            &&& forall|i: int|
                0 <= i < rows.len() ==> {
                    &&& has_prefix((#[trigger] rows[i]).key@, be_bytes(num))
                    &&& store.contains_key((ChainColumn::BlockHeader, rows[i].key@))
                    &&& reads(store[(ChainColumn::BlockHeader, rows[i].key@)], rows[i].value)
                }
            &&& forall|key: Seq<u8>| #[trigger]
                store.contains_key((ChainColumn::BlockHeader, key)) && has_prefix(
                    key,
                    be_bytes(num),
                ) ==> row_keys(rows).contains(key)
        }),
{
    let prefix = be_bytes(num);
    let from = first_hash(num);
    let bound = BoundView::Prefix(prefix);
    let rows = taken(items, bound);
    lemma_be_round_trip(num);
    lemma_prefix_of_concat(prefix, zeros(24));
    law_prefix_scan_is_exact(items, store, ChainColumn::BlockHeader, from, prefix, reads);
    lemma_keys_reach_scan(items, bound, 8);
    assert forall|key: Seq<u8>| #[trigger]
        store.contains_key((ChainColumn::BlockHeader, key)) && has_prefix(key, prefix) implies row_keys(
        rows,
    ).contains(key) by {
        assert forall|k: int| !lex_lt_at(key, from, k) by {
            if lex_lt_at(key, from, k) && k < 8 {
                assert(key[k] == key.take(8)[k]);
            }
        }
        assert(!lex_lt(key, from));
    }
}

/// The number of a single stored block leads to that block.
pub proof fn law_single_block_is_found_by_number<V>(
    store: ChainStore,
    num: u64,
    hash: Seq<u8>,
    items: Seq<Option<Row<V>>>,
    reads: spec_fn(Seq<u8>, V) -> bool,
)
    requires
        column_keys_have_len(store, ChainColumn::BlockHeader, 32),
        is_scan(items, store, ChainColumn::BlockHeader, first_hash(num), reads),
        store.contains_key((ChainColumn::BlockHeader, hash)),
        has_prefix(hash, be_bytes(num)),
        forall|key: Seq<u8>| #[trigger]
            store.contains_key((ChainColumn::BlockHeader, key)) && has_prefix(key, be_bytes(num))
                ==> key == hash,
    ensures
        ({
            let rows = taken(items, BoundView::Prefix(be_bytes(num)));
            &&& rows.len() == 1
            &&& rows[0].key@ == hash
            &&& reads(store[(ChainColumn::BlockHeader, hash)], rows[0].value)
        }),
{
    law_header_scan_is_exact(store, num, items, reads);
    let rows = taken(items, BoundView::Prefix(be_bytes(num)));
    let keys = row_keys(rows);
    assert(keys.contains(hash));
    if rows.len() > 1 {
        assert(rows[0].key@ == hash && rows[1].key@ == hash);
        assert(lex_lt(keys[0], keys[1]));
        lemma_lex_irreflexive(hash);
    }
    assert(rows[0].key@ == hash);
}

/// A block that has been inserted is found by its number, if no other block has it.
pub proof fn law_inserted_block_is_found_by_number<V>(
    store: ChainStore,
    block: EncodedBlock,
    num: u64,
    items: Seq<Option<Row<V>>>,
    reads: spec_fn(Seq<u8>, V) -> bool,
)
    requires
        column_keys_have_len(store, ChainColumn::BlockHeader, 32),
        has_prefix(block.header.hash@, be_bytes(num)),
        forall|key: Seq<u8>| #[trigger]
            store.contains_key((ChainColumn::BlockHeader, key)) && has_prefix(key, be_bytes(num))
                ==> key == block.header.hash@,
        is_scan(
            items,
            inserted(store, block),
            ChainColumn::BlockHeader,
            first_hash(num),
            reads,
        ),
    ensures
        ({
            let rows = taken(items, BoundView::Prefix(be_bytes(num)));
            &&& rows.len() == 1
            &&& rows[0].key@ == block.header.hash@
            &&& reads(block.header.raw@, rows[0].value)
        }),
{
    let after = inserted(store, block);
    law_insert_stores_the_block(store, block);
    assert forall|key: Seq<u8>| #[trigger]
        after.contains_key((ChainColumn::BlockHeader, key)) implies key.len() == 32 && (has_prefix(
        key,
        be_bytes(num),
    ) ==> key == block.header.hash@) by {
        if key != block.header.hash@ {
            assert(same_at(store, after, ChainColumn::BlockHeader, key));
        }
    }
    law_single_block_is_found_by_number(after, num, block.header.hash@, items, reads);
}

/// Two stored blocks of one number are both found under it.
pub proof fn law_fork_is_seen<V>(
    store: ChainStore,
    num: u64,
    a: Seq<u8>,
    b: Seq<u8>,
    items: Seq<Option<Row<V>>>,
    reads: spec_fn(Seq<u8>, V) -> bool,
)
    requires
        column_keys_have_len(store, ChainColumn::BlockHeader, 32),
        is_scan(items, store, ChainColumn::BlockHeader, first_hash(num), reads),
        a != b,
        store.contains_key((ChainColumn::BlockHeader, a)) && has_prefix(a, be_bytes(num)),
        store.contains_key((ChainColumn::BlockHeader, b)) && has_prefix(b, be_bytes(num)),
    ensures
        taken(items, BoundView::Prefix(be_bytes(num))).len() > 1,
{
    law_header_scan_is_exact(store, num, items, reads);
    let keys = row_keys(taken(items, BoundView::Prefix(be_bytes(num))));
    assert(keys.contains(a));
    assert(keys.contains(b));
}

/// A number is found exactly if some stored block has it.
pub proof fn law_number_is_found_if_stored<V>(
    store: ChainStore,
    num: u64,
    items: Seq<Option<Row<V>>>,
    reads: spec_fn(Seq<u8>, V) -> bool,
)
    requires
        column_keys_have_len(store, ChainColumn::BlockHeader, 32),
        is_scan(items, store, ChainColumn::BlockHeader, first_hash(num), reads),
    ensures
        taken(items, BoundView::Prefix(be_bytes(num))).len() > 0 <==> exists|key: Seq<u8>| #[trigger]
            store.contains_key((ChainColumn::BlockHeader, key)) && has_prefix(key, be_bytes(num)),
{
    law_header_scan_is_exact(store, num, items, reads);
    let rows = taken(items, BoundView::Prefix(be_bytes(num)));
    if rows.len() > 0 {
        assert(store.contains_key((ChainColumn::BlockHeader, rows[0].key@)));
    }
    if exists|key: Seq<u8>| #[trigger]
        store.contains_key((ChainColumn::BlockHeader, key)) && has_prefix(key, be_bytes(num)) {
        let key = choose|key: Seq<u8>| #[trigger]
            store.contains_key((ChainColumn::BlockHeader, key)) && has_prefix(key, be_bytes(num));
        assert(row_keys(rows).contains(key));
    }
}

/// A deletion takes out the transaction and what leads to its place, and nothing else.
pub proof fn law_deleted_transaction_is_gone(store: ChainStore, place: Seq<u8>, hash: Seq<u8>)
    ensures
        ({
            let after = apply_ops(store, deletion_ops(place, hash));
            &&& !after.contains_key((ChainColumn::Transaction, place + hash))
            &&& !after.contains_key((ChainColumn::TransactionBlock, hash))
            &&& forall|key: Seq<u8>|
                key != place + hash ==> same_at(store, after, ChainColumn::Transaction, key)
            &&& forall|key: Seq<u8>|
                key != hash ==> same_at(store, after, ChainColumn::TransactionBlock, key)
            &&& forall|key: Seq<u8>| same_at(store, after, ChainColumn::BlockHeader, key)
            &&& forall|key: Seq<u8>| same_at(store, after, ChainColumn::Default, key)
        }),
{
    let ops = deletion_ops(place, hash);
    lemma_apply_push(store, Seq::empty(), ops[0]);
    lemma_apply_push(store, Seq::empty().push(ops[0]), ops[1]);
    assert(ops =~= Seq::empty().push(ops[0]).push(ops[1]));
}

/// A height is read back as it was set, whatever it was before.
pub proof fn law_height_is_read_back(store: ChainStore, height: i64, stored: Fetched<Vec<u8>>)
    requires
        is_answer(
            stored,
            apply_op(store, record_op(Record::BlockHeight, be_bytes(height as u64))),
            ChainColumn::Default,
            Record::BlockHeight.record_key(),
            verbatim(),
        ),
    ensures
        number_readable(stored),
        stored_number(stored) as i64 == height,
{
    law_number_is_read_back(store, Record::BlockHeight, height as u64, stored);
    assert((height as u64) as i64 == height) by (bit_vector);
}

/// A number record is read back as it was written.
pub proof fn law_number_is_read_back(
    store: ChainStore,
    record: Record,
    num: u64,
    stored: Fetched<Vec<u8>>,
)
    requires
        is_answer(
            stored,
            apply_op(store, record_op(record, be_bytes(num))),
            ChainColumn::Default,
            record.record_key(),
            verbatim(),
        ),
    ensures
        number_readable(stored),
        stored_number(stored) == num,
{
    lemma_be_round_trip(num);
}

/// Writing a record leaves all others, and the other columns, as they were.
pub proof fn law_record_write_is_local(
    store: ChainStore,
    record: Record,
    value: Seq<u8>,
    other: Record,
)
    requires
        other != record,
    ensures
        same_at(
            store,
            apply_op(store, record_op(record, value)),
            ChainColumn::Default,
            other.record_key(),
        ),
        forall|column: ChainColumn, key: Seq<u8>|
            column != ChainColumn::Default ==> same_at(
                store,
                apply_op(store, record_op(record, value)),
                column,
                key,
            ),
{
    law_records_are_apart(record, other);
}

/// An identity is read back as it was written.
pub proof fn law_node_id_is_read_back(store: ChainStore, id: Seq<u8>, stored: Fetched<Vec<u8>>)
    requires
        is_answer(
            stored,
            apply_op(store, record_op(Record::NodeId, id)),
            ChainColumn::Default,
            Record::NodeId.record_key(),
            verbatim(),
        ),
    ensures
        stored matches Ok(Some(bytes)) && bytes@ == id,
{
}

/// A block that has been inserted, and whose number has been made the height, is the highest
/// block, if no other block has its number.
pub proof fn law_highest_block_is_found<V>(
    store: ChainStore,
    block: EncodedBlock,
    height: i64,
    stored: Fetched<Vec<u8>>,
    items: Seq<Option<Row<V>>>,
    reads: spec_fn(Seq<u8>, V) -> bool,
)
    requires
        column_keys_have_len(store, ChainColumn::BlockHeader, 32),
        has_prefix(block.header.hash@, be_bytes(height as u64)),
        forall|key: Seq<u8>| #[trigger]
            store.contains_key((ChainColumn::BlockHeader, key)) && has_prefix(
                key,
                be_bytes(height as u64),
            ) ==> key == block.header.hash@,
        is_answer(
            stored,
            apply_op(
                inserted(store, block),
                record_op(Record::BlockHeight, be_bytes(height as u64)),
            ),
            ChainColumn::Default,
            Record::BlockHeight.record_key(),
            verbatim(),
        ),
        is_scan(
            items,
            apply_op(
                inserted(store, block),
                record_op(Record::BlockHeight, be_bytes(height as u64)),
            ),
            ChainColumn::BlockHeader,
            first_hash((stored_number(stored) as i64) as u64),
            reads,
        ),
    ensures
        ({
            let num = (stored_number(stored) as i64) as u64;
            let rows = taken(items, BoundView::Prefix(be_bytes(num)));
            &&& num == height as u64
            &&& rows.len() == 1
            &&& rows[0].key@ == block.header.hash@
            &&& reads(block.header.raw@, rows[0].value)
        }),
{
    let num = height as u64;
    let after = inserted(store, block);
    let written = apply_op(after, record_op(Record::BlockHeight, be_bytes(num)));
    law_height_is_read_back(after, height, stored);
    law_insert_stores_the_block(store, block);
    assert forall|key: Seq<u8>| #[trigger]
        written.contains_key((ChainColumn::BlockHeader, key)) implies key.len() == 32 && (
    has_prefix(key, be_bytes(num)) ==> key == block.header.hash@) by {
        assert(after.contains_key((ChainColumn::BlockHeader, key)));
        if key != block.header.hash@ {
            assert(same_at(store, after, ChainColumn::BlockHeader, key));
        }
    }
    law_single_block_is_found_by_number(written, num, block.header.hash@, items, reads);
}

/// The height after an update out of `before`.
pub open spec fn height_after(before: i64, height: i64) -> i64 {
    if height > before {
        height
    } else {
        before
    }
}

/// An update never lowers the height: afterwards it is the greater of the stored one and the
/// one given.
pub proof fn law_height_never_falls(
    store: ChainStore,
    height: i64,
    before: Fetched<Vec<u8>>,
    after: Fetched<Vec<u8>>,
)
    requires
        height >= 0,
        number_readable(before),
        is_answer(
            before,
            store,
            ChainColumn::Default,
            Record::BlockHeight.record_key(),
            verbatim(),
        ),
        is_answer(
            after,
            if height > stored_number(before) as i64 {
                apply_op(store, record_op(Record::BlockHeight, be_bytes(height as u64)))
            } else {
                store
            },
            ChainColumn::Default,
            Record::BlockHeight.record_key(),
            verbatim(),
        ),
    ensures
        number_readable(after),
        stored_number(after) as i64 == height_after(stored_number(before) as i64, height),
        stored_number(after) as i64 >= stored_number(before) as i64,
{
    if height > stored_number(before) as i64 {
        law_height_is_read_back(store, height, after);
    }
}

} // verus!

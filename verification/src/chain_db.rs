//! Operations on the chain database. The store is outside: an operation names what is to be
//! read, takes what the read answered, and names the next read, the writes or the result.

use crate::batch::{op_views, BatchOp, OpView};
use crate::block::{EncodedBlock, IndexedBlock, IndexedBlockHeader, IndexedTransaction};
use crate::chain_error::ChainError;
use crate::chain_schema::{
    chain_columns, col_descs_for_chain_db, header_request, headers_request, mapping_value,
    transaction_key, transactions_by_number_request, transactions_request, ChainColumn, Record,
};
use crate::codec::{be_bytes, be_value, decode_number, encode_number};
use crate::hash::{lemma_hash_len, H256};
use crate::report::{fork_lines, fork_report, line_texts, row_bytes, StoredHeader};
use crate::settings::{descriptor_views, settings_for, ColumnDescriptor, DbSettings};
use crate::store::{
    keys_reach, lemma_keys_reach_zero, taken, BoundView, Fetched, GetRequest, Row, ScanBound,
    ScanRequest,
};
use vstd::prelude::*;
use vstd::slice::{slice_subrange, slice_to_vec};

verus! {

broadcast use lemma_hash_len;

/// Outcome of a consistency check over the stored chain.
#[derive(Debug)]
pub enum CheckResult {
    /// Nothing is wrong.
    Intact,
    /// Two blocks have this number.
    ForkAt(u64),
    /// The block of this number does not follow from the one before it.
    BreakAt(u64),
}

/// The chain database: how it is opened, and the operations on it.
#[derive(Debug)]
pub struct ChainDB {
    pub settings: DbSettings,
    pub columns: Vec<ColumnDescriptor>,
}

/// A number record that was read is long enough to hold a number.
pub open spec fn number_readable(stored: Fetched<Vec<u8>>) -> bool {
    stored matches Ok(Some(raw)) ==> raw@.len() >= 8
}

/// The number that a record holds; 0 where it is missing or cannot be read.
pub open spec fn stored_number(stored: Fetched<Vec<u8>>) -> u64 {
    match stored {
        Ok(Some(raw)) => be_value(raw@.take(8)) as u64,
        _ => 0,
    }
}

/// The write of a record.
pub open spec fn record_op(record: Record, value: Seq<u8>) -> OpView<ChainColumn> {
    OpView::Put { column: ChainColumn::Default, key: record.record_key(), value }
}

/// The writes that store the first `n` transactions of a block: each under its place in the
/// block, and its place under its hash.
pub open spec fn transaction_ops(block: EncodedBlock, n: nat) -> Seq<OpView<ChainColumn>>
    decreases n,
{
    if n == 0 {
        Seq::empty()
    } else {
        let i = (n - 1) as u64;
        let hash = block.header.hash@;
        let txn = block.transactions@[n - 1];
        transaction_ops(block, (n - 1) as nat).push(
            OpView::Put {
                column: ChainColumn::Transaction,
                key: transaction_key(hash, i, txn.hash@),
                value: txn.raw@,
            },
        ).push(
            OpView::Put {
                column: ChainColumn::TransactionBlock,
                key: txn.hash@,
                value: mapping_value(hash, i),
            },
        )
    }
}

/// The writes that store a block: the header, then the transactions in order.
pub open spec fn block_ops(block: EncodedBlock) -> Seq<OpView<ChainColumn>> {
    seq![
        OpView::Put {
            column: ChainColumn::BlockHeader,
            key: block.header.hash@,
            value: block.header.raw@,
        },
    ] + transaction_ops(block, block.transactions@.len())
}

/// Hashes and messages of transactions.
pub open spec fn txn_views<T>(txns: Seq<IndexedTransaction<T>>) -> Seq<(Seq<u8>, T)> {
    txns.map_values(|t: IndexedTransaction<T>| (t.hash@, t.raw))
}

/// The hashes, as bytes.
pub open spec fn hash_views(hashes: Seq<H256>) -> Seq<Seq<u8>> {
    hashes.map_values(|h: H256| h@)
}

/// The transactions that rows of the transaction column hold, or the first decoding error.
/// The hash of a transaction stands behind the block hash and the index in its key.
pub open spec fn decoded_transactions<T>(rows: Seq<Row<Result<T, String>>>) -> Result<
    Seq<(Seq<u8>, T)>,
    String,
>
    decreases rows.len(),
{
    if rows.len() == 0 {
        Ok(Seq::empty())
    } else {
        match decoded_transactions(rows.drop_last()) {
            Err(e) => Err(e),
            Ok(txns) => match rows.last().value {
                Err(e) => Err(e),
                Ok(txn) => Ok(txns.push((rows.last().key@.skip(40), txn))),
            },
        }
    }
}

/// The first `n` rows hold messages that decode.
pub open spec fn decodable<T>(rows: Seq<Row<Result<T, String>>>, n: int) -> bool {
    forall|j: int| 0 <= j < n ==> (#[trigger] rows[j]).value is Ok
}

/// The rows before the first undecodable one have keys of a block hash, an index and a hash.
pub open spec fn transaction_keys_whole<T>(rows: Seq<Row<Result<T, String>>>) -> bool {
    forall|n: int|
        0 < n <= rows.len() && #[trigger] decodable(rows, n) ==> rows[n - 1].key@.len() == 72
}

/// All keys have this length.
pub open spec fn keys_have_len<V>(rows: Seq<Row<V>>, n: nat) -> bool {
    forall|i: int| 0 <= i < rows.len() ==> (#[trigger] rows[i]).key@.len() == n
}

/// The bytes behind the block hash and the index in each key.
pub open spec fn hashes_in_keys<V>(rows: Seq<Row<V>>) -> Seq<Seq<u8>> {
    rows.map_values(|r: Row<V>| r.key@.skip(40))
}

/// A block whose header has been read; its transactions are to be scanned next.
#[derive(Debug)]
pub struct PendingBlock<H> {
    pub header: IndexedBlockHeader<H>,
    pub request: ScanRequest<ChainColumn>,
}

/// A transaction whose place is known; it is to be read next.
#[derive(Debug)]
pub struct PendingTransaction {
    pub id: H256,
    pub request: GetRequest<ChainColumn>,
}

/// A transaction's block whose hash is known; its header is to be read next.
#[derive(Debug)]
pub struct PendingHeader {
    pub hash: H256,
    pub request: GetRequest<ChainColumn>,
}

/// A transaction that is to go, once the header of its block has been looked for.
#[derive(Debug)]
pub struct PendingDeletion {
    pub hash: H256,
    /// Where the transaction is: its block's hash and its index there.
    pub place: Vec<u8>,
    pub request: GetRequest<ChainColumn>,
}

impl<H> PendingBlock<H> {
    /// The request asks for the transactions of the block.
    pub open spec fn asks_for_transactions(self) -> bool {
        &&& self.request.column == ChainColumn::Transaction
        &&& self.request.from@ == self.header.hash@
        &&& self.request.bound@ == BoundView::Prefix(self.header.hash@)
    }

    fn new(header: IndexedBlockHeader<H>) -> (pending: PendingBlock<H>)
        ensures
            pending.header == header,
            pending.asks_for_transactions(),
    {
        let request = transactions_request(&header.hash);
        PendingBlock { header, request }
    }
}

/// The transactions that a scan over a block's rows yields, or the first decoding error.
fn transactions_from<T>(hash: &H256, items: Vec<Option<Row<Result<T, String>>>>) -> (res: Result<
    Vec<IndexedTransaction<T>>,
    ChainError,
>)
    requires
        transaction_keys_whole(taken(items@, BoundView::Prefix(hash@))),
    ensures
        match decoded_transactions(taken(items@, BoundView::Prefix(hash@))) {
            Ok(txns) => res matches Ok(found) && txn_views(found@) == txns,
            Err(e) => res == Err::<Vec<IndexedTransaction<T>>, _>(ChainError::Decode(e)),
        },
{
    let bound = ScanBound::Prefix(slice_to_vec(hash.as_bytes()));
    proof {
        lemma_keys_reach_zero(items@, bound@);
    }
    let rows = bound.collect(items);
    let ghost all = rows@;
    let mut found: Vec<IndexedTransaction<T>> = Vec::new();
    assert(txn_views(found@) =~= Seq::<(Seq<u8>, T)>::empty());
    assert(all.take(0) =~= Seq::<Row<Result<T, String>>>::empty());
    for row in it: rows
        invariant
            it.seq() == all,
            transaction_keys_whole(all),
            all == taken(items@, BoundView::Prefix(hash@)),
            decodable(all, it.index() as int),
            decoded_transactions(all.take(it.index() as int)) == Ok::<_, String>(
                txn_views(found@),
            ),
    {
        let ghost i = it.index() as int;
        let ghost head = all.take(i + 1);
        proof {
            assert(head.drop_last() =~= all.take(i));
            assert(head.last() == all[i]);
        }
        match row.value {
            Err(e) => {
                proof {
                    lemma_decoding_stops(all, i + 1, e);
                }
                return Err(ChainError::Decode(e));
            },
            Ok(txn) => {
                assert(decodable(all, i + 1));
                let id = H256::from_slice(slice_subrange(row.key.as_slice(), 40, row.key.len()));
                let ghost before = found@;
                found.push(IndexedTransaction::new(id, txn));
                proof {
                    assert(row.key@.skip(40) =~= row.key@.subrange(40, row.key@.len() as int));
                    assert(txn_views(found@) =~= txn_views(before).push((row.key@.skip(40), txn)));
                }
            },
        }
    }
    assert(all.take(all.len() as int) =~= all);
    Ok(found)
}

/// An error in the first rows is the error of all of them.
proof fn lemma_decoding_stops<T>(rows: Seq<Row<Result<T, String>>>, n: int, e: String)
    requires
        0 <= n <= rows.len(),
        decoded_transactions(rows.take(n)) == Err::<Seq<(Seq<u8>, T)>, _>(e),
    ensures
        decoded_transactions(rows) == Err::<Seq<(Seq<u8>, T)>, _>(e),
    decreases rows.len(),
{
    if n == rows.len() {
        assert(rows.take(n) =~= rows);
    } else {
        assert(rows.drop_last().take(n) =~= rows.take(n));
        lemma_decoding_stops(rows.drop_last(), n, e);
    }
}

/// The hashes that keys of the transaction column end with.
fn hashes_from<V>(rows: &Vec<Row<V>>) -> (hashes: Vec<H256>)
    requires
        keys_have_len(rows@, 72),
    ensures
        hash_views(hashes@) == hashes_in_keys(rows@),
{
    let mut hashes: Vec<H256> = Vec::new();
    let mut i: usize = 0;
    while i < rows.len()
        invariant
            i <= rows@.len(),
            hashes@.len() == i,
            keys_have_len(rows@, 72),
            forall|j: int| 0 <= j < i ==> (#[trigger] hashes@[j])@ == rows@[j].key@.skip(40),
        decreases rows@.len() - i,
    {
        let key = rows[i].key.as_slice();
        assert(key@.skip(40) =~= key@.subrange(40, key@.len() as int));
        hashes.push(H256::from_slice(slice_subrange(key, 40, key.len())));
        i += 1;
    }
    assert(hash_views(hashes@) =~= hashes_in_keys(rows@));
    hashes
}

/// What the read that leads from a transaction to its place answered.
fn place_of(mapping: Fetched<Vec<u8>>) -> (place: Result<Vec<u8>, ChainError>)
    ensures
        match mapping {
            Err(e) => place == Err::<Vec<u8>, _>(ChainError::Database(e)),
            Ok(None) => place == Err::<Vec<u8>, _>(ChainError::MappingNotFound),
            Ok(Some(p)) => place == Ok::<_, ChainError>(p),
        },
{
    match mapping {
        Err(e) => Err(ChainError::Database(e)),
        Ok(None) => Err(ChainError::MappingNotFound),
        Ok(Some(p)) => Ok(p),
    }
}

impl ChainDB {
    /// How the database is opened on this machine.
    pub fn new() -> (db: ChainDB)
        ensures
            exists|cpus: usize| cpus >= 1 && db.settings == #[trigger] settings_for(cpus),
            descriptor_views(db.columns@) == chain_columns(),
    {
        ChainDB { settings: DbSettings::detect(), columns: col_descs_for_chain_db() }
    }

    /// The height of the chain, out of the record [`Record::BlockHeight`].
    pub fn get_block_height(stored: &Fetched<Vec<u8>>) -> (height: i64)
        requires
            number_readable(*stored),
        ensures
            height == stored_number(*stored) as i64,
    {
        match stored {
            Ok(Some(raw)) => {
                let n = decode_number(raw.as_slice());
                #[verifier::truncate]
                (n as i64)
            },
            _ => 0,
        }
    }

    /// The write that raises the height, if `height` is above the stored one.
    pub fn update_block_height(height: i64, stored: &Fetched<Vec<u8>>) -> (op: Option<
        BatchOp<ChainColumn>,
    >)
        requires
            height >= 0,
            number_readable(*stored),
        ensures
            if height > stored_number(*stored) as i64 {
                op matches Some(put) && put@ == record_op(
                    Record::BlockHeight,
                    be_bytes(height as u64),
                )
            } else {
                op is None
            },
    {
        if height > ChainDB::get_block_height(stored) {
            Some(ChainDB::force_update_block_height(height))
        } else {
            None
        }
    }

    /// The write that sets the height, whatever it was.
    pub fn force_update_block_height(height: i64) -> (op: BatchOp<ChainColumn>)
        ensures
            op@ == record_op(Record::BlockHeight, be_bytes(height as u64)),
    {
        let n = #[verifier::truncate] (height as u64);
        number_record(Record::BlockHeight, n)
    }

    /// The number up to which parent hashes have been verified, out of the record
    /// [`Record::ParentHashVerified`].
    pub fn get_parent_hash_verified_block_number(stored: &Fetched<Vec<u8>>) -> (num: u64)
        requires
            number_readable(*stored),
        ensures
            num == stored_number(*stored),
    {
        number_in(stored)
    }

    /// The write that notes up to which number parent hashes have been verified.
    pub fn update_parent_hash_verified_block_number(num: u64) -> (op: BatchOp<ChainColumn>)
        ensures
            op@ == record_op(Record::ParentHashVerified, be_bytes(num)),
    {
        number_record(Record::ParentHashVerified, num)
    }

    /// The number up to which Merkle trees have been verified, out of the record
    /// [`Record::MerkleTreeVerified`].
    pub fn get_merkle_tree_verified_block_number(stored: &Fetched<Vec<u8>>) -> (num: u64)
        requires
            number_readable(*stored),
        ensures
            num == stored_number(*stored),
    {
        number_in(stored)
    }

    /// The write that notes up to which number Merkle trees have been verified.
    pub fn update_merkle_tree_verified_block_number(num: u64) -> (op: BatchOp<ChainColumn>)
        ensures
            op@ == record_op(Record::MerkleTreeVerified, be_bytes(num)),
    {
        number_record(Record::MerkleTreeVerified, num)
    }

    /// The batch that stores a block.
    pub fn insert_block(block: &EncodedBlock) -> (batch: Vec<BatchOp<ChainColumn>>)
        ensures
            op_views(batch@) == block_ops(*block),
    {
        let mut batch: Vec<BatchOp<ChainColumn>> = Vec::new();
        let hash = block.hash().as_bytes();
        batch.push(
            BatchOp::Put {
                column: ChainColumn::BlockHeader,
                key: slice_to_vec(hash),
                value: slice_to_vec(block.header.raw.as_slice()),
            },
        );
        let ghost first = op_views(batch@);
        assert(op_views(batch@) =~= first + transaction_ops(*block, 0));
        let mut i: usize = 0;
        while i < block.transactions.len()
            invariant
                i <= block.transactions@.len(),
                hash@ == block.header.hash@,
                op_views(batch@) == first + transaction_ops(*block, i as nat),
            decreases block.transactions@.len() - i,
        {
            let txn = &block.transactions[i];
            let index = encode_number(i as u64);

            // block hash, transaction index, transaction hash => transaction
            let mut key: Vec<u8> = slice_to_vec(hash);
            key.extend_from_slice(index.as_slice());
            key.extend_from_slice(txn.hash.as_bytes());
            assert(key@ =~= transaction_key(hash@, i as u64, txn.hash@));

            // transaction hash => block hash, transaction index
            let mut place: Vec<u8> = slice_to_vec(hash);
            place.extend_from_slice(index.as_slice());
            assert(place@ =~= mapping_value(hash@, i as u64));

            let ghost before = batch@;
            batch.push(
                BatchOp::Put {
                    column: ChainColumn::Transaction,
                    key,
                    value: slice_to_vec(txn.raw.as_slice()),
                },
            );
            batch.push(
                BatchOp::Put {
                    column: ChainColumn::TransactionBlock,
                    key: slice_to_vec(txn.hash.as_bytes()),
                    value: place,
                },
            );
            proof {
                assert(op_views(batch@) =~= op_views(before).push(batch@[before.len() as int]@).push(
                    batch@[before.len() as int + 1]@,
                ));
                assert(op_views(batch@) =~= first + transaction_ops(*block, (i + 1) as nat));
            }
            i += 1;
        }
        assert(first =~= seq![
            OpView::Put {
                column: ChainColumn::BlockHeader,
                key: block.header.hash@,
                value: block.header.raw@,
            },
        ]);
        batch
    }

    /// Whether there is a block, by what the read of its header answered.
    pub fn has_block_id<V>(header: &Fetched<V>) -> (yes: bool)
        ensures
            yes == (*header matches Ok(Some(_))),
    {
        match header {
            Ok(Some(_)) => true,
            _ => false,
        }
    }

    /// The read that tells whether a block is stored; [`ChainDB::has_block_id`] takes the answer.
    pub fn has_block<H, T>(block: &IndexedBlock<H, T>) -> (request: GetRequest<ChainColumn>)
        ensures
            request.column == ChainColumn::BlockHeader,
            request.key@ == block.header.hash@,
    {
        header_request(&block.header.hash)
    }

    /// Whether some block has this number, by a scan over the headers of that number.
    pub fn has_block_number<V>(num: u64, items: Vec<Option<Row<V>>>) -> (yes: bool)
        ensures
            yes == (taken(items@, BoundView::Prefix(be_bytes(num))).len() > 0),
    {
        let bound = headers_request(num).bound;
        proof {
            lemma_keys_reach_zero(items@, bound@);
        }
        bound.collect(items).len() > 0
    }

    /// The block of a header, with the transactions that the scan over its rows yields.
    pub fn get_block_from_header<H, T>(
        header: IndexedBlockHeader<H>,
        items: Vec<Option<Row<Result<T, String>>>>,
    ) -> (res: Result<IndexedBlock<H, T>, ChainError>)
        requires
            transaction_keys_whole(taken(items@, BoundView::Prefix(header.hash@))),
        ensures
            match decoded_transactions(taken(items@, BoundView::Prefix(header.hash@))) {
                Ok(txns) => res matches Ok(block) && block.header == header && txn_views(
                    block.transactions@,
                ) == txns,
                Err(e) => res == Err::<IndexedBlock<H, T>, _>(ChainError::Decode(e)),
            },
    {
        match transactions_from(&header.hash, items) {
            Ok(txns) => Ok(IndexedBlock::new(header, txns)),
            Err(e) => Err(e),
        }
    }

    /// The transactions of a block, by a scan over its rows.
    pub fn get_block_transactions<T>(hash: &H256, items: Vec<Option<Row<Result<T, String>>>>) -> (res:
        Result<Vec<IndexedTransaction<T>>, ChainError>)
        requires
            transaction_keys_whole(taken(items@, BoundView::Prefix(hash@))),
        ensures
            match decoded_transactions(taken(items@, BoundView::Prefix(hash@))) {
                Ok(txns) => res matches Ok(found) && txn_views(found@) == txns,
                Err(e) => res == Err::<Vec<IndexedTransaction<T>>, _>(ChainError::Decode(e)),
            },
    {
        transactions_from(hash, items)
    }

    /// The hashes of the transactions of all blocks of one number, by a scan over their rows.
    pub fn get_transaction_hashes_by_block_number<V>(num: i64, items: Vec<Option<Row<V>>>) -> (res:
        Result<Vec<H256>, ChainError>)
        requires
            num != -1,
            keys_reach(items@, BoundView::Below(be_bytes((num as u64 + 1) as u64)), 8),
            keys_have_len(taken(items@, BoundView::Below(be_bytes((num as u64 + 1) as u64))), 72),
        ensures
            res matches Ok(hashes) && hash_views(hashes@) == hashes_in_keys(
                taken(items@, BoundView::Below(be_bytes((num as u64 + 1) as u64))),
            ),
    {
        let bound = transactions_by_number_request(num).bound;
        proof {
            crate::codec::lemma_be_round_trip((num as u64 + 1) as u64);
        }
        let rows = bound.collect(items);
        Ok(hashes_from(&rows))
    }

    /// The hashes of the transactions of a block, by a scan over its rows.
    pub fn get_transaction_hashes_by_block_hash<V>(hash: &H256, items: Vec<Option<Row<V>>>) -> (res:
        Result<Vec<H256>, ChainError>)
        requires
            keys_have_len(taken(items@, BoundView::Prefix(hash@)), 72),
        ensures
            res matches Ok(hashes) && hash_views(hashes@) == hashes_in_keys(
                taken(items@, BoundView::Prefix(hash@)),
            ),
    {
        let bound = transactions_request(hash).bound;
        proof {
            lemma_keys_reach_zero(items@, bound@);
        }
        let rows = bound.collect(items);
        Ok(hashes_from(&rows))
    }

    /// The headers of the blocks of one number, by a scan over them. There are several where
    /// the chain forks.
    pub fn get_block_headers_by_number<H>(
        num: u64,
        items: Vec<Option<Row<Result<H, String>>>>,
    ) -> (headers: Vec<IndexedBlockHeader<H>>)
        requires
            headers_whole(num, items@),
        ensures
            header_views(headers@) == headers_in(taken(items@, BoundView::Prefix(be_bytes(num)))),
    {
        let bound = headers_request(num).bound;
        proof {
            lemma_keys_reach_zero(items@, bound@);
        }
        let rows = bound.collect(items);
        let ghost all = rows@;
        let mut headers: Vec<IndexedBlockHeader<H>> = Vec::new();
        for row in it: rows
            invariant
                it.seq() == all,
                headers@.len() == it.index(),
                forall|j: int|
                    0 <= j < all.len() ==> (#[trigger] all[j]).key@.len() == 32 && all[j].value is Ok,
                forall|j: int|
                    0 <= j < headers@.len() ==> (#[trigger] headers@[j]).hash@ == all[j].key@
                        && headers@[j].raw == all[j].value->Ok_0,
        {
            let ghost i = it.index() as int;
            assert(row == all[i]);
            match row.value {
                Ok(raw) => {
                    headers.push(
                        IndexedBlockHeader::new(H256::from_slice(row.key.as_slice()), raw),
                    );
                },
                Err(_) => {
                    assert(false);
                },
            }
        }
        assert(header_views(headers@) =~= headers_in(all));
        headers
    }

    /// The header of the one block of a number.
    pub fn get_block_header_by_number<H>(
        num: i64,
        items: Vec<Option<Row<Result<H, String>>>>,
    ) -> (res: Result<IndexedBlockHeader<H>, ChainError>)
        requires
            headers_whole(num as u64, items@),
        ensures
            ({
                let found = headers_in(taken(items@, BoundView::Prefix(be_bytes(num as u64))));
                if found.len() == 0 {
                    res == Err::<IndexedBlockHeader<H>, _>(ChainError::NotFound)
                } else if found.len() > 1 {
                    res == Err::<IndexedBlockHeader<H>, _>(ChainError::ChainFork)
                } else {
                    res matches Ok(header) && (header.hash@, header.raw) == found[0]
                }
            }),
    {
        let n = #[verifier::truncate] (num as u64);
        let mut headers = ChainDB::get_block_headers_by_number(n, items);
        let ghost views = header_views(headers@);
        if headers.len() > 1 {
            return Err(ChainError::ChainFork);
        }
        match headers.pop() {
            None => Err(ChainError::NotFound),
            Some(header) => {
                assert(views[0] == (header.hash@, header.raw));
                Ok(header)
            },
        }
    }

    /// The header under a hash, by what its read answered.
    pub fn get_block_header<H>(hash: &H256, header: Fetched<Result<H, String>>) -> (res: Result<
        IndexedBlockHeader<H>,
        ChainError,
    >)
        ensures
            match header {
                Err(e) => res == Err::<IndexedBlockHeader<H>, _>(ChainError::Database(e)),
                Ok(None) => res == Err::<IndexedBlockHeader<H>, _>(ChainError::BlockHeaderNotFound),
                Ok(Some(Err(e))) => res == Err::<IndexedBlockHeader<H>, _>(ChainError::Decode(e)),
                Ok(Some(Ok(raw))) => res matches Ok(found) && found.hash == *hash && found.raw
                    == raw,
            },
    {
        match header {
            Err(e) => Err(ChainError::Database(e)),
            Ok(None) => Err(ChainError::BlockHeaderNotFound),
            Ok(Some(Err(e))) => Err(ChainError::Decode(e)),
            Ok(Some(Ok(raw))) => Ok(IndexedBlockHeader::new(*hash, raw)),
        }
    }

    /// The one block of a number, as far as a scan over the headers of that number tells.
    pub fn get_block_by_number<H>(num: u64, items: Vec<Option<Row<StoredHeader<H>>>>) -> (res:
        Result<PendingBlock<H>, ChainError>)
        requires
            header_keys_whole(num, items@),
        ensures
            found_by_number(num, taken(items@, BoundView::Prefix(be_bytes(num))), res),
    {
        let bound = headers_request(num).bound;
        proof {
            lemma_keys_reach_zero(items@, bound@);
        }
        let mut found = bound.collect(items);
        if found.len() > 1 {
            return Err(ChainError::ForkFound { report: fork_report(num, &found) });
        }
        match found.pop() {
            None => Err(ChainError::BlockNotFound),
            Some(row) => {
                let hash = H256::from_slice(row.key.as_slice());
                match row.value.message {
                    Err(e) => Err(ChainError::Decode(e)),
                    Ok(raw) => Ok(PendingBlock::new(IndexedBlockHeader::new(hash, raw))),
                }
            },
        }
    }

    /// The block under a hash, as far as the read of its header tells.
    pub fn get_block_by_id<H>(id: &H256, header: Fetched<Result<H, String>>) -> (res: Result<
        PendingBlock<H>,
        ChainError,
    >)
        ensures
            found_by_id(*id, header, res),
    {
        match ChainDB::get_block_header(id, header) {
            Err(e) => Err(e),
            Ok(header) => Ok(PendingBlock::new(header)),
        }
    }

    /// The block under a hash, as far as the read of its header tells.
    pub fn get_block_by_hash<H>(hash: &H256, header: Fetched<Result<H, String>>) -> (res: Result<
        PendingBlock<H>,
        ChainError,
    >)
        ensures
            found_by_id(*hash, header, res),
    {
        ChainDB::get_block_by_id(hash, header)
    }

    /// The first block, as far as a scan over the headers of number 0 tells.
    pub fn get_genesis_block<H>(items: Vec<Option<Row<StoredHeader<H>>>>) -> (res: Result<
        PendingBlock<H>,
        ChainError,
    >)
        requires
            header_keys_whole(0, items@),
        ensures
            found_by_number(0, taken(items@, BoundView::Prefix(be_bytes(0))), res),
    {
        ChainDB::get_block_by_number(0, items)
    }

    /// The scan over the headers of the highest number, which the record
    /// [`Record::BlockHeight`] holds; [`ChainDB::get_block_by_number`] takes what it yields.
    pub fn highest_block(stored: &Fetched<Vec<u8>>) -> (highest: (u64, ScanRequest<ChainColumn>))
        requires
            number_readable(*stored),
        ensures
            highest.0 == (stored_number(*stored) as i64) as u64,
            highest.1.column == ChainColumn::BlockHeader,
            highest.1.from@ == crate::chain_schema::first_hash(highest.0),
            highest.1.bound@ == BoundView::Prefix(be_bytes(highest.0)),
    {
        let height = ChainDB::get_block_height(stored);
        let num = #[verifier::truncate] (height as u64);
        (num, headers_request(num))
    }

    /// A transaction, as far as the read that leads to its place tells.
    pub fn get_transaction_by_id(id: &H256, mapping: Fetched<Vec<u8>>) -> (res: Result<
        PendingTransaction,
        ChainError,
    >)
        ensures
            match mapping {
                Err(e) => res == Err::<PendingTransaction, _>(ChainError::Database(e)),
                Ok(None) => res == Err::<PendingTransaction, _>(ChainError::MappingNotFound),
                Ok(Some(place)) => res matches Ok(pending) && pending.id == *id
                    && pending.request.column == ChainColumn::Transaction && pending.request.key@
                    == place@ + id@,
            },
    {
        match place_of(mapping) {
            Err(e) => Err(e),
            Ok(place) => {
                let mut key: Vec<u8> = place;
                let ghost before = key@;
                key.extend_from_slice(id.as_bytes());
                assert(key@ =~= before + id@);
                Ok(
                    PendingTransaction {
                        id: *id,
                        request: GetRequest { column: ChainColumn::Transaction, key },
                    },
                )
            },
        }
    }

    /// The index of a transaction in its block.
    pub fn get_transaction_index(mapping: Fetched<Vec<u8>>) -> (res: Result<i32, ChainError>)
        requires
            mapping matches Ok(Some(place)) ==> place@.len() >= 40,
        ensures
            match mapping {
                Err(e) => res == Err::<i32, _>(ChainError::Database(e)),
                Ok(None) => res == Err::<i32, _>(ChainError::MappingNotFound),
                Ok(Some(place)) => res == Ok::<_, ChainError>(
                    (be_value(place@.subrange(32, 40)) as u64) as i32,
                ),
            },
    {
        match place_of(mapping) {
            Err(e) => Err(e),
            Ok(place) => {
                let tail = slice_subrange(place.as_slice(), 32, place.len());
                assert(tail@.take(8) =~= place@.subrange(32, 40));
                let index = decode_number(tail);
                Ok(#[verifier::truncate] (index as i32))
            },
        }
    }

    /// The hash of the block that a transaction is in.
    pub fn get_transaction_block_hash(mapping: Fetched<Vec<u8>>) -> (res: Result<H256, ChainError>)
        requires
            mapping matches Ok(Some(place)) ==> place@.len() >= 32,
        ensures
            match mapping {
                Err(e) => res == Err::<H256, _>(ChainError::Database(e)),
                Ok(None) => res == Err::<H256, _>(ChainError::MappingNotFound),
                Ok(Some(place)) => res matches Ok(hash) && hash@ == place@.take(32),
            },
    {
        match place_of(mapping) {
            Err(e) => Err(e),
            Ok(place) => {
                assert(place@.subrange(0, 32) =~= place@.take(32));
                Ok(H256::from_slice(slice_subrange(place.as_slice(), 0, 32)))
            },
        }
    }

    /// The header of the block that a transaction is in, as far as the read that leads to the
    /// transaction's place tells.
    pub fn get_block_header_by_transaction_hash(mapping: Fetched<Vec<u8>>) -> (res: Result<
        PendingHeader,
        ChainError,
    >)
        requires
            mapping matches Ok(Some(place)) ==> place@.len() >= 32,
        ensures
            match mapping {
                Err(e) => res == Err::<PendingHeader, _>(ChainError::Database(e)),
                Ok(None) => res == Err::<PendingHeader, _>(ChainError::MappingNotFound),
                Ok(Some(place)) => res matches Ok(pending) && pending.hash@ == place@.take(32)
                    && pending.request.column == ChainColumn::BlockHeader && pending.request.key@
                    == place@.take(32),
            },
    {
        match ChainDB::get_transaction_block_hash(mapping) {
            Err(e) => Err(e),
            Ok(hash) => {
                let request = header_request(&hash);
                Ok(PendingHeader { hash, request })
            },
        }
    }

    /// The deletion of a transaction, as far as the read that leads to its place tells.
    pub fn delete_transaction<T>(txn: &IndexedTransaction<T>, mapping: Fetched<Vec<u8>>) -> (res:
        Result<PendingDeletion, ChainError>)
        requires
            mapping matches Ok(Some(place)) ==> place@.len() >= 32,
        ensures
            match mapping {
                Err(e) => res == Err::<PendingDeletion, _>(ChainError::Database(e)),
                Ok(None) => res == Err::<PendingDeletion, _>(ChainError::MappingNotFound),
                Ok(Some(place)) => res matches Ok(pending) && pending.hash == txn.hash
                    && pending.place == place && pending.request.column == ChainColumn::BlockHeader
                    && pending.request.key@ == place@.take(32),
            },
    {
        match place_of(mapping) {
            Err(e) => Err(e),
            Ok(place) => {
                assert(place@.subrange(0, 32) =~= place@.take(32));
                let key = slice_to_vec(slice_subrange(place.as_slice(), 0, 32));
                Ok(
                    PendingDeletion {
                        hash: txn.hash,
                        place,
                        request: GetRequest { column: ChainColumn::BlockHeader, key },
                    },
                )
            },
        }
    }

    /// The headers of the stored blocks: none are listed.
    pub fn block_headers<H>(&self) -> (headers: Vec<IndexedBlockHeader<H>>)
        ensures
            headers@.len() == 0,
    {
        Vec::new()
    }

    /// The stored blocks: none are listed.
    pub fn blocks<H, T>(&self) -> (blocks: Vec<IndexedBlock<H, T>>)
        ensures
            blocks@.len() == 0,
    {
        Vec::new()
    }
}

impl PendingTransaction {
    /// The transaction, by what its read answered.
    pub fn finish<T>(self, stored: Fetched<Result<T, String>>) -> (res: Result<
        IndexedTransaction<T>,
        ChainError,
    >)
        ensures
            match stored {
                Err(e) => res == Err::<IndexedTransaction<T>, _>(ChainError::Database(e)),
                Ok(None) => res == Err::<IndexedTransaction<T>, _>(ChainError::TransactionNotFound),
                Ok(Some(Err(e))) => res == Err::<IndexedTransaction<T>, _>(ChainError::Decode(e)),
                Ok(Some(Ok(raw))) => res matches Ok(txn) && txn.hash == self.id && txn.raw == raw,
            },
    {
        match stored {
            Err(e) => Err(ChainError::Database(e)),
            Ok(None) => Err(ChainError::TransactionNotFound),
            Ok(Some(Err(e))) => Err(ChainError::Decode(e)),
            Ok(Some(Ok(raw))) => Ok(IndexedTransaction::new(self.id, raw)),
        }
    }
}

impl PendingHeader {
    /// The header, by what its read answered.
    pub fn finish<H>(self, header: Fetched<Result<H, String>>) -> (res: Result<
        IndexedBlockHeader<H>,
        ChainError,
    >)
        ensures
            match header {
                Err(e) => res == Err::<IndexedBlockHeader<H>, _>(ChainError::Database(e)),
                Ok(None) => res == Err::<IndexedBlockHeader<H>, _>(ChainError::BlockHeaderNotFound),
                Ok(Some(Err(e))) => res == Err::<IndexedBlockHeader<H>, _>(ChainError::Decode(e)),
                Ok(Some(Ok(raw))) => res matches Ok(found) && found.hash == self.hash && found.raw
                    == raw,
            },
    {
        ChainDB::get_block_header(&self.hash, header)
    }
}

/// The writes that take a transaction out: itself, and what leads to its place.
pub open spec fn deletion_ops(place: Seq<u8>, hash: Seq<u8>) -> Seq<OpView<ChainColumn>> {
    seq![
        OpView::Delete { column: ChainColumn::Transaction, key: place + hash },
        OpView::Delete { column: ChainColumn::TransactionBlock, key: hash },
    ]
}

impl PendingDeletion {
    /// Adds the deletion to the batch if the block of the transaction is gone.
    pub fn finish<V>(self, header: Fetched<V>, wb: &mut Vec<BatchOp<ChainColumn>>) -> (res: Result<
        (),
        ChainError,
    >)
        ensures
            match header {
                Err(e) => res == Err::<(), _>(ChainError::Database(e)) && final(wb)@ == old(wb)@,
                Ok(Some(_)) => res == Err::<(), _>(ChainError::LinkedToBlock) && final(wb)@
                    == old(wb)@,
                Ok(None) => res is Ok && op_views(final(wb)@) == op_views(old(wb)@) + deletion_ops(
                    self.place@,
                    self.hash@,
                ),
            },
    {
        match header {
            Err(e) => Err(ChainError::Database(e)),
            Ok(Some(_)) => Err(ChainError::LinkedToBlock),
            Ok(None) => {
                let mut key: Vec<u8> = self.place;
                let ghost place = key@;
                key.extend_from_slice(self.hash.as_bytes());
                assert(key@ =~= place + self.hash@);
                wb.push(BatchOp::Delete { column: ChainColumn::Transaction, key });
                wb.push(
                    BatchOp::Delete {
                        column: ChainColumn::TransactionBlock,
                        key: slice_to_vec(self.hash.as_bytes()),
                    },
                );
                assert(op_views(wb@) =~= op_views(old(wb)@) + deletion_ops(
                    self.place@,
                    self.hash@,
                ));
                Ok(())
            },
        }
    }
}

/// Hashes and messages of headers.
pub open spec fn header_views<H>(headers: Seq<IndexedBlockHeader<H>>) -> Seq<(Seq<u8>, H)> {
    headers.map_values(|h: IndexedBlockHeader<H>| (h.hash@, h.raw))
}

/// The headers that decodable rows of the header column hold.
pub open spec fn headers_in<H>(rows: Seq<Row<Result<H, String>>>) -> Seq<(Seq<u8>, H)> {
    rows.map_values(|r: Row<Result<H, String>>| (r.key@, r.value->Ok_0))
}

/// The scan over the headers of a number comes by keys that hold a number, and those it
/// yields are hashes with decodable headers.
pub open spec fn headers_whole<H>(num: u64, items: Seq<Option<Row<Result<H, String>>>>) -> bool {
    let bound = BoundView::Prefix(be_bytes(num));
    &&& keys_reach(items, bound, 8)
    &&& forall|i: int|
        0 <= i < taken(items, bound).len() ==> (#[trigger] taken(items, bound)[i]).key@.len() == 32
            && taken(items, bound)[i].value is Ok
}

/// The scan over the headers of a number comes by keys that hold a number, and if it yields
/// one key alone, that one is a hash.
pub open spec fn header_keys_whole<V>(num: u64, items: Seq<Option<Row<V>>>) -> bool {
    let bound = BoundView::Prefix(be_bytes(num));
    &&& keys_reach(items, bound, 8)
    &&& taken(items, bound).len() == 1 ==> taken(items, bound)[0].key@.len() == 32
}

/// What the rows of a number say of the one block of that number.
pub open spec fn found_by_number<H>(
    num: u64,
    rows: Seq<Row<StoredHeader<H>>>,
    res: Result<PendingBlock<H>, ChainError>,
) -> bool {
    if rows.len() == 0 {
        res == Err::<PendingBlock<H>, _>(ChainError::BlockNotFound)
    } else if rows.len() > 1 {
        res matches Err(ChainError::ForkFound { report }) && line_texts(report@) == fork_lines(
            num,
            row_bytes(rows),
        )
    } else {
        match rows[0].value.message {
            Err(e) => res == Err::<PendingBlock<H>, _>(ChainError::Decode(e)),
            Ok(raw) => res matches Ok(pending) && pending.header.hash@ == rows[0].key@
                && pending.header.raw == raw && pending.asks_for_transactions(),
        }
    }
}

/// What the read of a header says of the block under that hash.
pub open spec fn found_by_id<H>(
    id: H256,
    header: Fetched<Result<H, String>>,
    res: Result<PendingBlock<H>, ChainError>,
) -> bool {
    match header {
        Err(e) => res == Err::<PendingBlock<H>, _>(ChainError::Database(e)),
        Ok(None) => res == Err::<PendingBlock<H>, _>(ChainError::BlockHeaderNotFound),
        Ok(Some(Err(e))) => res == Err::<PendingBlock<H>, _>(ChainError::Decode(e)),
        Ok(Some(Ok(raw))) => res matches Ok(pending) && pending.header.hash == id
            && pending.header.raw == raw && pending.asks_for_transactions(),
    }
}

/// The number that a record holds; 0 where it is missing or cannot be read.
fn number_in(stored: &Fetched<Vec<u8>>) -> (num: u64)
    requires
        number_readable(*stored),
    ensures
        num == stored_number(*stored),
{
    match stored {
        Ok(Some(raw)) => decode_number(raw.as_slice()),
        _ => 0,
    }
}

/// The write of a record that holds a number.
fn number_record(record: Record, num: u64) -> (op: BatchOp<ChainColumn>)
    ensures
        op@ == record_op(record, be_bytes(num)),
{
    BatchOp::Put { column: ChainColumn::Default, key: record.key(), value: encode_number(num) }
}

} // verus!

use chain_store::batch::BatchOp;
use chain_store::block::{EncodedBlock, IndexedBlock, IndexedBlockHeader, IndexedTransaction};
use chain_store::chain_db::{ChainDB, CheckResult};
use chain_store::chain_error::{ChainError, ErrorKind};
use chain_store::chain_schema::{
    header_request, headers_request, mapping_request, transactions_by_number_request,
    transactions_request, ChainColumn, Record,
};
use chain_store::hash::H256;
use chain_store::node_id::node_id_with_tail;
use chain_store::report::StoredHeader;
use chain_store::store::{Fetched, GetRequest, Row, ScanBound, ScanRequest};
use std::collections::BTreeMap;

type Memory = BTreeMap<(&'static str, Vec<u8>), Vec<u8>>;

fn write(store: &mut Memory, ops: Vec<BatchOp<ChainColumn>>) {
    for op in ops {
        match op {
            BatchOp::Put { column, key, value } => {
                store.insert((column.name(), key), value);
            }
            BatchOp::Delete { column, key } => {
                store.remove(&(column.name(), key));
            }
        }
    }
}

fn read(store: &Memory, request: &GetRequest<ChainColumn>) -> Fetched<Vec<u8>> {
    Ok(store.get(&(request.column.name(), request.key.clone())).cloned())
}

fn scan(store: &Memory, request: &ScanRequest<ChainColumn>) -> Vec<Option<Row<Vec<u8>>>> {
    let name = request.column.name();
    let mut items = Vec::new();
    for ((column, key), value) in store.range((name, request.from.clone())..) {
        if *column != name {
            break;
        }
        let item = Some(Row { key: key.clone(), value: value.clone() });
        let more = request.bound.wants_more(&item);
        items.push(item);
        if !more {
            break;
        }
    }
    items
}

fn text(bytes: Vec<u8>) -> Result<String, String> {
    String::from_utf8(bytes).map_err(|_| "not a message".to_string())
}

fn decoded(items: Vec<Option<Row<Vec<u8>>>>) -> Vec<Option<Row<Result<String, String>>>> {
    items
        .into_iter()
        .map(|item| item.map(|row| Row { key: row.key, value: text(row.value) }))
        .collect()
}

fn headers(items: Vec<Option<Row<Vec<u8>>>>) -> Vec<Option<Row<StoredHeader<String>>>> {
    items
        .into_iter()
        .map(|item| {
            item.map(|row| Row {
                key: row.key,
                value: StoredHeader { bytes: row.value.clone(), message: text(row.value) },
            })
        })
        .collect()
}

fn header(fetched: Fetched<Vec<u8>>) -> Fetched<Result<String, String>> {
    fetched.map(|found| found.map(text))
}

/// A hash that holds a number in its first eight bytes.
fn hash(num: u64, fill: u8) -> H256 {
    let mut bytes = [fill; 32];
    bytes[..8].copy_from_slice(&num.to_be_bytes());
    H256::new(bytes)
}

fn txn(fill: u8, raw: &str) -> IndexedTransaction<Vec<u8>> {
    IndexedTransaction::new(H256::new([fill; 32]), raw.as_bytes().to_vec())
}

fn block(num: u64, fill: u8, raw: &str, txns: Vec<IndexedTransaction<Vec<u8>>>) -> EncodedBlock {
    let header = IndexedBlockHeader::new(hash(num, fill), raw.as_bytes().to_vec());
    IndexedBlock::new(header, txns)
}

fn sample() -> (Memory, EncodedBlock) {
    let mut store = Memory::new();
    let other = block(6, 7, "header six", vec![txn(0x61, "earlier")]);
    write(&mut store, ChainDB::insert_block(&other));
    let later = block(8, 7, "header eight", vec![txn(0x81, "later")]);
    write(&mut store, ChainDB::insert_block(&later));
    let own = block(7, 7, "header seven", vec![txn(0x72, "first"), txn(0x71, "second")]);
    write(&mut store, ChainDB::insert_block(&own));
    (store, own)
}

fn by_number(store: &Memory, num: u64) -> Result<(H256, String), ChainError> {
    let items = headers(scan(store, &headers_request(num)));
    ChainDB::get_block_by_number(num, items).map(|p| (p.header.hash, p.header.raw))
}

#[test]
fn the_batch_of_a_block_is_laid_out_as_documented() {
    let own = block(1, 0xbb, "h", vec![txn(0x11, "a"), txn(0x22, "b")]);
    let ops = ChainDB::insert_block(&own);
    let id = hash(1, 0xbb).as_bytes().to_vec();
    let place = |i: u8| [&id[..], &[0, 0, 0, 0, 0, 0, 0, i]].concat();
    let expected = vec![
        ("block-header", id.clone(), b"h".to_vec()),
        ("transaction", [place(0), vec![0x11; 32]].concat(), b"a".to_vec()),
        ("transaction-block", vec![0x11; 32], place(0)),
        ("transaction", [place(1), vec![0x22; 32]].concat(), b"b".to_vec()),
        ("transaction-block", vec![0x22; 32], place(1)),
    ];
    assert_eq!(ops.len(), expected.len());
    for (op, (name, k, v)) in ops.into_iter().zip(expected) {
        match op {
            BatchOp::Put { column, key, value } => {
                assert_eq!((column.name(), key, value), (name, k, v));
            }
            BatchOp::Delete { .. } => panic!("nothing is deleted"),
        }
    }
}

#[test]
fn a_block_without_transactions_is_one_write() {
    let ops = ChainDB::insert_block(&block(1, 2, "h", vec![]));
    assert_eq!(ops.len(), 1);
}

#[test]
fn an_inserted_block_is_read_back_by_its_hash() {
    let (store, own) = sample();
    let id = *own.hash();
    let pending =
        ChainDB::get_block_by_id(&id, header(read(&store, &header_request(&id)))).unwrap();
    let items = decoded(scan(&store, &pending.request));
    let found = ChainDB::get_block_from_header(pending.header, items).unwrap();
    assert_eq!(found.hash().as_bytes(), id.as_bytes());
    assert_eq!(found.header.raw, "header seven");
    let txns: Vec<(Vec<u8>, String)> = found
        .transactions
        .into_iter()
        .map(|t| (t.hash.as_bytes().to_vec(), t.raw))
        .collect();
    assert_eq!(
        txns,
        vec![(vec![0x72; 32], "first".to_string()), (vec![0x71; 32], "second".to_string())]
    );
    let again = ChainDB::get_block_by_hash(&id, header(read(&store, &header_request(&id))));
    assert_eq!(again.unwrap().header.raw, "header seven");
}

#[test]
fn transactions_keep_their_order_in_a_large_block() {
    let mut store = Memory::new();
    let txns: Vec<_> = (0..300u32)
        .map(|i| {
            let mut bytes = [0u8; 32];
            bytes[..4].copy_from_slice(&(!i).to_be_bytes());
            IndexedTransaction::new(H256::new(bytes), i.to_string().into_bytes())
        })
        .collect();
    let own = block(3, 3, "h", txns);
    write(&mut store, ChainDB::insert_block(&own));
    let items = decoded(scan(&store, &transactions_request(own.hash())));
    let found = ChainDB::get_block_transactions(own.hash(), items).unwrap();
    let raws: Vec<String> = found.into_iter().map(|t| t.raw).collect();
    let expected: Vec<String> = (0..300).map(|i| i.to_string()).collect();
    assert_eq!(raws, expected);
}

#[test]
fn hashes_are_listed_by_block_and_by_number() {
    let (store, own) = sample();
    let items = scan(&store, &transactions_request(own.hash()));
    let by_hash = ChainDB::get_transaction_hashes_by_block_hash(own.hash(), items).unwrap();
    let items = scan(&store, &transactions_by_number_request(7));
    let by_number = ChainDB::get_transaction_hashes_by_block_number(7, items).unwrap();
    for hashes in [by_hash, by_number] {
        let bytes: Vec<&[u8]> = hashes.iter().map(|h| h.as_bytes()).collect();
        assert_eq!(bytes, vec![&[0x72; 32][..], &[0x71; 32][..]]);
    }
}

#[test]
fn the_scan_by_number_covers_all_blocks_of_the_number() {
    let (mut store, _) = sample();
    write(&mut store, ChainDB::insert_block(&block(7, 9, "fork", vec![txn(0x99, "t")])));
    let request = transactions_by_number_request(7);
    assert_eq!(request.from, vec![0, 0, 0, 0, 0, 0, 0, 7]);
    assert!(matches!(&request.bound, ScanBound::Below(b) if *b == vec![0, 0, 0, 0, 0, 0, 0, 8]));
    let hashes =
        ChainDB::get_transaction_hashes_by_block_number(7, scan(&store, &request)).unwrap();
    let firsts: Vec<u8> = hashes.iter().map(|h| h.as_bytes()[0]).collect();
    assert_eq!(firsts, vec![0x72, 0x71, 0x99]);
}

#[test]
fn a_block_is_found_by_its_number() {
    let (store, own) = sample();
    let (found, raw) = by_number(&store, 7).unwrap();
    assert_eq!(found.as_bytes(), own.hash().as_bytes());
    assert_eq!(raw, "header seven");
    assert!(ChainDB::has_block_number(7, scan(&store, &headers_request(7))));
    assert!(!ChainDB::has_block_number(9, scan(&store, &headers_request(9))));
    let items = decoded(scan(&store, &headers_request(6)));
    let six = ChainDB::get_block_header_by_number(6, items).unwrap();
    assert_eq!(six.raw, "header six");
}

#[test]
fn a_number_without_a_block_is_not_found() {
    let (store, _) = sample();
    let error = by_number(&store, 9).unwrap_err();
    assert!(matches!(error, ChainError::BlockNotFound));
    assert_eq!(error.kind(), Some(ErrorKind::NotFound));
    assert_eq!(error.message(), "block not found");
    let items = decoded(scan(&store, &headers_request(9)));
    let error = ChainDB::get_block_header_by_number(9, items).unwrap_err();
    assert!(matches!(error, ChainError::NotFound));
    assert_eq!(error.kind(), Some(ErrorKind::Other));
    assert_eq!(error.message(), "not found");
}

#[test]
fn a_fork_is_reported_with_its_candidates() {
    let mut store = Memory::new();
    write(&mut store, ChainDB::insert_block(&block(10, 0xab, "A", vec![])));
    write(&mut store, ChainDB::insert_block(&block(10, 0xcd, "z", vec![])));
    let error = by_number(&store, 10).unwrap_err();
    assert_eq!(error.kind(), Some(ErrorKind::Other));
    assert_eq!(error.message(), "fork found");
    match error {
        ChainError::ForkFound { report } => {
            assert_eq!(
                report,
                vec![
                    "multiple blocks found for same number: 10".to_string(),
                    format!("  => 000000000000000a{}", "ab".repeat(24)),
                    "  => 41".to_string(),
                    format!("  => 000000000000000a{}", "cd".repeat(24)),
                    "  => 7a".to_string(),
                ]
            );
        }
        other => panic!("{:?}", other),
    }
    let items = decoded(scan(&store, &headers_request(10)));
    assert_eq!(ChainDB::get_block_headers_by_number(10, items).len(), 2);
    let items = decoded(scan(&store, &headers_request(10)));
    let error = ChainDB::get_block_header_by_number(10, items).unwrap_err();
    assert!(matches!(error, ChainError::ChainFork));
    assert_eq!(error.kind(), Some(ErrorKind::Other));
    assert_eq!(error.message(), "chain fork");
}

#[test]
fn the_genesis_block_has_number_zero() {
    let mut store = Memory::new();
    write(&mut store, ChainDB::insert_block(&block(0, 1, "genesis", vec![])));
    write(&mut store, ChainDB::insert_block(&block(1, 1, "one", vec![])));
    let items = headers(scan(&store, &headers_request(0)));
    assert_eq!(ChainDB::get_genesis_block(items).unwrap().header.raw, "genesis");
}

#[test]
fn the_highest_block_is_the_one_at_the_height() {
    let (mut store, _) = sample();
    write(&mut store, vec![ChainDB::force_update_block_height(8)]);
    let (num, request) = ChainDB::highest_block(&read(&store, &Record::BlockHeight.request()));
    assert_eq!(num, 8);
    let items = headers(scan(&store, &request));
    assert_eq!(ChainDB::get_block_by_number(num, items).unwrap().header.raw, "header eight");
}

#[test]
fn presence_is_told_by_the_header() {
    let (store, own) = sample();
    assert!(ChainDB::has_block_id(&read(&store, &ChainDB::has_block(&own))));
    let missing = block(7, 8, "", vec![]);
    assert!(!ChainDB::has_block_id(&read(&store, &ChainDB::has_block(&missing))));
    assert!(!ChainDB::has_block_id::<Vec<u8>>(&Err("disk".to_string())));
}

#[test]
fn entries_that_cannot_be_read_are_passed_over() {
    let (store, own) = sample();
    let mut items = decoded(scan(&store, &transactions_request(own.hash())));
    items.insert(1, None);
    let found = ChainDB::get_block_transactions(own.hash(), items).unwrap();
    assert_eq!(found.len(), 2);
}

#[test]
fn an_undecodable_transaction_fails_the_block() {
    let mut store = Memory::new();
    let bad = IndexedTransaction::new(H256::new([1; 32]), vec![0xff]);
    let own = block(4, 4, "h", vec![txn(2, "fine"), bad]);
    write(&mut store, ChainDB::insert_block(&own));
    let items = decoded(scan(&store, &transactions_request(own.hash())));
    let error = ChainDB::get_block_transactions(own.hash(), items).unwrap_err();
    assert_eq!(error.kind(), None);
    assert_eq!(error.message(), "not a message");
    assert!(matches!(error, ChainError::Decode(_)));
}

#[test]
fn an_undecodable_header_fails_the_block() {
    let mut store = Memory::new();
    let header_only = IndexedBlock::new(IndexedBlockHeader::new(hash(4, 4), vec![0xff]), vec![]);
    write(&mut store, ChainDB::insert_block(&header_only));
    assert!(matches!(by_number(&store, 4), Err(ChainError::Decode(_))));
    let id = hash(4, 4);
    let fetched = header(read(&store, &header_request(&id)));
    assert!(matches!(ChainDB::get_block_by_id(&id, fetched), Err(ChainError::Decode(_))));
}

#[test]
fn a_header_is_read_by_its_hash() {
    let (store, own) = sample();
    let found =
        ChainDB::get_block_header(own.hash(), header(read(&store, &header_request(own.hash()))));
    assert_eq!(found.unwrap().raw, "header seven");
    let id = hash(7, 1);
    let error = ChainDB::get_block_header(&id, header(read(&store, &header_request(&id))));
    let error = error.unwrap_err();
    assert_eq!(error.kind(), Some(ErrorKind::NotFound));
    assert_eq!(error.message(), "block header not found");
    let error = ChainDB::get_block_header::<String>(&id, Err("disk".to_string())).unwrap_err();
    assert!(matches!(error, ChainError::Database(_)));
    assert_eq!((error.kind(), error.message()), (None, "disk".to_string()));
}

#[test]
fn a_transaction_is_found_by_its_hash() {
    let (store, own) = sample();
    let id = H256::new([0x71; 32]);
    let mapping = || read(&store, &mapping_request(&id));
    let pending = ChainDB::get_transaction_by_id(&id, mapping()).unwrap();
    let found = pending.request;
    let stored = header(read(&store, &found));
    let pending = ChainDB::get_transaction_by_id(&id, mapping()).unwrap();
    let txn = pending.finish(stored).unwrap();
    assert_eq!((txn.hash.as_bytes(), txn.raw), (id.as_bytes(), "second".to_string()));
    assert_eq!(ChainDB::get_transaction_index(mapping()).unwrap(), 1);
    let in_block = ChainDB::get_transaction_block_hash(mapping()).unwrap();
    assert_eq!(in_block.as_bytes(), own.hash().as_bytes());
    let pending = ChainDB::get_block_header_by_transaction_hash(mapping()).unwrap();
    let stored = header(read(&store, &pending.request));
    let found = pending.finish(stored).unwrap();
    assert_eq!(found.hash.as_bytes(), own.hash().as_bytes());
    assert_eq!(found.raw, "header seven");
}

#[test]
fn an_unknown_transaction_is_not_found() {
    let (store, _) = sample();
    let id = H256::new([5; 32]);
    let mapping = || read(&store, &mapping_request(&id));
    let error = ChainDB::get_transaction_by_id(&id, mapping()).unwrap_err();
    assert_eq!(error.kind(), Some(ErrorKind::NotFound));
    assert_eq!(error.message(), "transaction block mapping not found");
    assert!(matches!(ChainDB::get_transaction_index(mapping()), Err(ChainError::MappingNotFound)));
    assert!(ChainDB::get_transaction_block_hash(mapping()).is_err());
    assert!(ChainDB::get_block_header_by_transaction_hash(mapping()).is_err());
    let failed = ChainDB::get_transaction_index(Err("disk".to_string()));
    assert!(matches!(failed, Err(ChainError::Database(_))));
}

#[test]
fn a_transaction_that_is_not_at_its_place_is_not_found() {
    let (mut store, own) = sample();
    let id = H256::new([0x71; 32]);
    let pending =
        ChainDB::get_transaction_by_id(&id, read(&store, &mapping_request(&id))).unwrap();
    let expected = [own.hash().as_bytes(), &[0, 0, 0, 0, 0, 0, 0, 1], &[0x71; 32]].concat();
    assert_eq!(pending.request.key, expected);
    store.remove(&("transaction", expected));
    let stored = header(read(&store, &pending.request));
    let error = pending.finish(stored).unwrap_err();
    assert_eq!(error.kind(), Some(ErrorKind::NotFound));
    assert_eq!(error.message(), "transaction not found");
}

#[test]
fn a_transaction_of_a_stored_block_is_not_deleted() {
    let (store, own) = sample();
    let txn = &own.transactions[0];
    let pending = ChainDB::delete_transaction(txn, read(&store, &mapping_request(&txn.hash)));
    let pending = pending.unwrap();
    let stored = read(&store, &pending.request);
    let mut wb = Vec::new();
    let error = pending.finish(stored, &mut wb).unwrap_err();
    assert_eq!(error.kind(), Some(ErrorKind::InvalidInput));
    assert_eq!(
        error.message(),
        "transaction is linked to a block, please delete the block first"
    );
    assert!(wb.is_empty());
}

#[test]
fn a_transaction_without_its_block_is_deleted() {
    let (mut store, own) = sample();
    store.remove(&("block-header", own.hash().as_bytes().to_vec()));
    let before = store.len();
    let txn = &own.transactions[0];
    let pending = ChainDB::delete_transaction(txn, read(&store, &mapping_request(&txn.hash)));
    let pending = pending.unwrap();
    let stored = read(&store, &pending.request);
    let mut wb = Vec::new();
    pending.finish(stored, &mut wb).unwrap();
    assert_eq!(wb.len(), 2);
    write(&mut store, wb);
    assert_eq!(store.len(), before - 2);
    let again = ChainDB::delete_transaction(txn, read(&store, &mapping_request(&txn.hash)));
    assert!(matches!(again, Err(ChainError::MappingNotFound)));
    let items = decoded(scan(&store, &transactions_request(own.hash())));
    let left = ChainDB::get_block_transactions(own.hash(), items).unwrap();
    assert_eq!(left.len(), 1);
    assert_eq!(left[0].raw, "second");
}

#[test]
fn a_failed_look_for_the_block_deletes_nothing() {
    let (store, own) = sample();
    let txn = &own.transactions[0];
    let pending = ChainDB::delete_transaction(txn, read(&store, &mapping_request(&txn.hash)));
    let mut wb = Vec::new();
    let res = pending.unwrap().finish::<Vec<u8>>(Err("disk".to_string()), &mut wb);
    assert!(matches!(res, Err(ChainError::Database(_))));
    assert!(wb.is_empty());
}

#[test]
fn the_height_only_rises() {
    let mut store = Memory::new();
    let stored = |store: &Memory| read(store, &Record::BlockHeight.request());
    assert_eq!(ChainDB::get_block_height(&stored(&store)), 0);
    for (height, expected) in [(0, 0), (5, 5), (3, 5), (5, 5), (9, 9)] {
        let op = ChainDB::update_block_height(height, &stored(&store));
        write(&mut store, op.into_iter().collect());
        assert_eq!(ChainDB::get_block_height(&stored(&store)), expected);
    }
    write(&mut store, vec![ChainDB::force_update_block_height(2)]);
    assert_eq!(ChainDB::get_block_height(&stored(&store)), 2);
    write(&mut store, vec![ChainDB::force_update_block_height(-3)]);
    assert_eq!(ChainDB::get_block_height(&stored(&store)), -3);
}

#[test]
fn a_height_that_cannot_be_read_counts_as_zero() {
    let failed: Fetched<Vec<u8>> = Err("disk".to_string());
    assert_eq!(ChainDB::get_block_height(&failed), 0);
    assert!(ChainDB::update_block_height(0, &failed).is_none());
    assert!(ChainDB::update_block_height(1, &failed).is_some());
}

#[test]
fn verified_numbers_are_kept_apart() {
    let mut store = Memory::new();
    write(&mut store, vec![ChainDB::update_parent_hash_verified_block_number(11)]);
    write(&mut store, vec![ChainDB::update_merkle_tree_verified_block_number(u64::MAX)]);
    let parent = read(&store, &Record::ParentHashVerified.request());
    assert_eq!(ChainDB::get_parent_hash_verified_block_number(&parent), 11);
    let merkle = read(&store, &Record::MerkleTreeVerified.request());
    assert_eq!(ChainDB::get_merkle_tree_verified_block_number(&merkle), u64::MAX);
    let height = read(&store, &Record::BlockHeight.request());
    assert_eq!(ChainDB::get_block_height(&height), 0);
    assert!(ChainDB::get_merkle_tree_verified_block_number(&Ok(None)) == 0);
    assert!(ChainDB::get_parent_hash_verified_block_number(&Ok(None)) == 0);
}

#[test]
fn records_are_stored_under_their_names() {
    assert_eq!(Record::NodeId.key(), b"NODE_ID".to_vec());
    assert_eq!(Record::BlockHeight.key(), b"BLOCK_HEIGHT".to_vec());
    assert_eq!(Record::ParentHashVerified.key(), b"PARENT_HASH_VERIFIED".to_vec());
    assert_eq!(Record::MerkleTreeVerified.key(), b"MERKLE_TREE_VERIFIED".to_vec());
}

#[test]
fn a_node_keeps_its_identity() {
    let mut store = Memory::new();
    let (id, op) = ChainDB::get_node_id(read(&store, &Record::NodeId.request()));
    assert_eq!(id.len(), 64);
    assert_eq!(&id[..32], &[b'A'; 32]);
    assert_ne!(&id[32..], &[b'A'; 32]);
    write(&mut store, op.into_iter().collect());
    let (again, op) = ChainDB::get_node_id(read(&store, &Record::NodeId.request()));
    assert_eq!(again, id);
    assert!(op.is_none());
}

#[test]
fn a_new_identity_is_random() {
    let (a, op) = ChainDB::reset_node_id();
    let (b, _) = ChainDB::reset_node_id();
    assert_ne!(a, b);
    match op {
        BatchOp::Put { column, key, value } => {
            assert_eq!((column.name(), key, value), ("default", b"NODE_ID".to_vec(), a));
        }
        BatchOp::Delete { .. } => panic!("nothing is deleted"),
    }
    let (fresh, op) = ChainDB::get_node_id(Err("disk".to_string()));
    assert_eq!(fresh.len(), 64);
    assert!(op.is_some());
}

#[test]
fn an_identity_is_a_head_and_a_tail() {
    assert_eq!(node_id_with_tail(&[9; 32]), [[b'A'; 32], [9; 32]].concat());
}

#[test]
fn the_chain_database_has_four_columns() {
    let db = ChainDB::new();
    let names: Vec<&str> = db.columns.iter().map(|c| c.name).collect();
    assert_eq!(names, vec!["default", "block-header", "transaction", "transaction-block"]);
    assert_eq!(db.columns[0].num_levels, Some(2));
    assert!(db.columns[0].uncompressed);
    assert_eq!(db.columns[2].prefix_len, Some(32));
    let buffers: Vec<_> = db.columns.iter().map(|c| c.max_write_buffer_number).collect();
    assert_eq!(buffers, vec![None, Some(6), Some(6), Some(6)]);
    assert!(db.settings.create_if_missing && db.settings.create_missing_column_families);
    assert!(db.settings.parallelism >= 1);
    assert_eq!(db.settings.max_open_files, 1024);
    assert!(db.block_headers::<String>().is_empty());
    assert!(db.blocks::<String, String>().is_empty());
}

#[test]
fn check_results_name_the_number() {
    assert_eq!(format!("{:?}", CheckResult::ForkAt(3)), "ForkAt(3)");
    assert_eq!(format!("{:?}", CheckResult::BreakAt(4)), "BreakAt(4)");
    assert_eq!(format!("{:?}", CheckResult::Intact), "Intact");
}

#[test]
fn a_scan_stops_at_the_first_key_out_of_bounds() {
    let (store, own) = sample();
    let request = transactions_request(own.hash());
    let mut items = scan(&store, &request);
    assert_eq!(items.len(), 3);
    let all = request.bound.collect(scan(&store, &request));
    items.push(Some(Row { key: own.hash().as_bytes().to_vec(), value: vec![] }));
    let cut = request.bound.collect(items);
    assert_eq!(all.len(), 2);
    assert_eq!(cut.len(), 2);
}

#[test]
fn inserting_a_block_again_changes_nothing() {
    let (mut store, own) = sample();
    let before = store.clone();
    write(&mut store, ChainDB::insert_block(&own));
    assert_eq!(store, before);
}

#[test]
fn keys_stay_whole() {
    let (mut store, own) = sample();
    store.remove(&("block-header", own.hash().as_bytes().to_vec()));
    let txn = &own.transactions[1];
    let pending = ChainDB::delete_transaction(txn, read(&store, &mapping_request(&txn.hash)));
    let pending = pending.unwrap();
    let stored = read(&store, &pending.request);
    let mut wb = vec![ChainDB::force_update_block_height(6), ChainDB::reset_node_id().1];
    pending.finish(stored, &mut wb).unwrap();
    write(&mut store, wb);
    for ((column, key), value) in &store {
        match *column {
            "block-header" => assert_eq!(key.len(), 32),
            "transaction" => assert_eq!(key.len(), 72),
            "transaction-block" => {
                assert_eq!((key.len(), value.len()), (32, 40));
                let place = [&value[..], &key[..]].concat();
                assert!(store.contains_key(&("transaction", place)));
            }
            _ => assert!(key == b"NODE_ID" || value.len() == 8),
        }
    }
}

#[test]
fn two_transactions_of_one_hash_share_the_later_place() {
    let mut store = Memory::new();
    let own = block(2, 2, "h", vec![txn(5, "a"), txn(6, "b"), txn(5, "c")]);
    write(&mut store, ChainDB::insert_block(&own));
    let mapping = read(&store, &mapping_request(&H256::new([5; 32])));
    assert_eq!(ChainDB::get_transaction_index(mapping).unwrap(), 2);
}

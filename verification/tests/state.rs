use chain_store::batch::BatchOp;
use chain_store::chain_error::ErrorKind;
use chain_store::genesis::{
    AccountResource, AccountType, Address, ChainConstants, DynamicProperty, EncodedEntry, GenesisAlloc,
    GenesisBlock, GenesisConfig, GenesisEntry, GenesisStep, GenesisWitness,
};
use chain_store::hash::H256;
use chain_store::overlay::{
    column_request, key_request, prefix_request, Finalization, FinalizeStep, OverlayDB,
    OverlayWriteBatch,
};
use chain_store::state_db::StateDB;
use chain_store::state_error::StateError;
use chain_store::state_schema::{
    col_descs_for_state_db, COL_ACCOUNT, COL_ACCOUNT_INDEX, COL_ASSET, COL_CONTRACT,
    COL_CONTRACT_CODE, COL_CONTRACT_STORAGE, COL_DEFAULT, COL_EXCHANGE,
    COL_INTERNAL_TRANSACTION, COL_PROPOSAL, COL_RESOURCE_DELEGATION,
    COL_RESOURCE_DELEGATION_INDEX, COL_TRANSACTION_LOG, COL_TRANSACTION_RECEIPT,
    COL_VOTER_REWARD, COL_VOTES, COL_WITNESS,
};
use chain_store::store::{Fetched, GetRequest, Row, ScanRequest};
use std::collections::BTreeMap;

type Memory = BTreeMap<(usize, Vec<u8>), Vec<u8>>;

fn write(store: &mut Memory, layer: OverlayWriteBatch) {
    for op in layer.into_ops() {
        match op {
            BatchOp::Put { column, key, value } => {
                store.insert((column, key), value);
            }
            BatchOp::Delete { column, key } => {
                store.remove(&(column, key));
            }
        }
    }
}

fn read(store: &Memory, request: GetRequest<usize>) -> Fetched<Vec<u8>> {
    Ok(store.get(&(request.column, request.key)).cloned())
}

fn scan(store: &Memory, request: &ScanRequest<usize>) -> Vec<Option<Row<Vec<u8>>>> {
    let mut items = Vec::new();
    for ((column, key), value) in store.range((request.column, request.from.clone())..) {
        if *column != request.column {
            break;
        }
        let item = Some(Row { key: key.clone(), value: value.clone() });
        let more = request.bound.wants_more(&item);
        items.push(item);
        if !more {
            break;
        }
    }
    items
}

fn flush(store: &mut Memory, db: &mut StateDB) {
    while let Some(layer) = db.finalize_layer() {
        write(store, layer);
    }
}

/// Writes the layers of a run until the write number `fail_at` fails.
fn run(store: &mut Memory, mut run: Finalization, fail_at: usize) -> Result<(), StateError> {
    let mut last = Ok(());
    let mut written = 0;
    loop {
        match run.step(last) {
            FinalizeStep::Finished(outcome) => return outcome,
            FinalizeStep::Write(layer) => {
                if written == fail_at {
                    last = Err("disk full".to_string());
                } else {
                    write(store, layer);
                    last = Ok(());
                }
                written += 1;
            }
        }
    }
}

fn put(db: &mut OverlayDB, key: &[u8], value: &[u8]) {
    let mut layer = OverlayWriteBatch::new();
    layer.put(COL_VOTES, key, value);
    db.push_layer(layer);
}

#[test]
fn columns_stand_at_their_indices() {
    let db = StateDB::new();
    let expected = [
        (COL_DEFAULT, "default"),
        (COL_ACCOUNT, "account"),
        (COL_RESOURCE_DELEGATION, "resource-delegation"),
        (COL_RESOURCE_DELEGATION_INDEX, "resource-delegation-index"),
        (COL_VOTES, "account-votes"),
        (COL_CONTRACT, "contract"),
        (COL_CONTRACT_CODE, "contract-code"),
        (COL_CONTRACT_STORAGE, "contract-storage"),
        (COL_WITNESS, "witness"),
        (COL_PROPOSAL, "proposal"),
        (COL_ASSET, "asset"),
        (COL_TRANSACTION_RECEIPT, "transaction-receipt"),
        (COL_INTERNAL_TRANSACTION, "internal-transaction"),
        (COL_TRANSACTION_LOG, "transaction-log"),
        (COL_ACCOUNT_INDEX, "account-index"),
        (COL_VOTER_REWARD, "voter-reward"),
        (COL_EXCHANGE, "exchange"),
    ];
    assert_eq!(db.columns().len(), expected.len());
    for (i, (index, name)) in expected.into_iter().enumerate() {
        assert_eq!(index, i);
        assert_eq!(db.get_cf(index), name);
        assert_eq!(db.columns()[index].name, name);
    }
    assert!(db.settings().parallelism >= 1);
    assert_eq!(db.settings().max_open_files, 1024);
}

#[test]
fn state_columns_are_tuned() {
    let columns = col_descs_for_state_db();
    for (i, column) in columns.iter().enumerate() {
        let small = i == COL_DEFAULT || i == COL_WITNESS || i == COL_PROPOSAL;
        assert_eq!(column.num_levels, if small { Some(2) } else { None });
        assert_eq!(column.uncompressed, small || i == COL_ACCOUNT_INDEX);
        let indexed = i == COL_CONTRACT_STORAGE || i == COL_TRANSACTION_LOG;
        assert_eq!(column.prefix_len, if indexed { Some(32) } else { None });
        assert_eq!(column.max_write_buffer_number, None);
    }
}

#[test]
fn a_value_that_was_put_is_read_back_after_finalizing() {
    let mut store = Memory::new();
    let mut db = StateDB::new();
    db.new_layer();
    db.put_key(COL_ACCOUNT, b"k", b"old").unwrap();
    db.put_key(COL_ACCOUNT, b"k", b"new").unwrap();
    let before = db.get(read(&store, key_request(COL_ACCOUNT, b"k"))).unwrap();
    assert_eq!(before, None);
    flush(&mut store, &mut db);
    let after = db.get(read(&store, key_request(COL_ACCOUNT, b"k"))).unwrap();
    assert_eq!(after, Some(b"new".to_vec()));
    assert_eq!(db.get(read(&store, key_request(COL_ASSET, b"k"))).unwrap(), None);
    assert_eq!(store.len(), 1);
}

#[test]
fn a_deleted_key_is_gone_after_finalizing() {
    let mut store = Memory::new();
    store.insert((COL_ASSET, b"a".to_vec()), b"1".to_vec());
    store.insert((COL_ASSET, b"b".to_vec()), b"2".to_vec());
    let mut db = StateDB::new();
    db.new_layer();
    db.delete_key(COL_ASSET, b"a").unwrap();
    flush(&mut store, &mut db);
    assert_eq!(store.into_keys().collect::<Vec<_>>(), vec![(COL_ASSET, b"b".to_vec())]);
}

#[test]
fn without_a_layer_nothing_can_be_written() {
    let mut db = StateDB::new();
    let error = db.put_key(COL_ACCOUNT, b"k", b"v").unwrap_err();
    assert!(matches!(error, StateError::NoLayersFound));
    assert_eq!(error.kind(), Some(ErrorKind::Other));
    assert_eq!(error.message(), "no db layers found");
    assert!(matches!(db.delete_key(COL_ACCOUNT, b"k"), Err(StateError::NoLayersFound)));
    let none: Vec<Option<Row<Vec<u8>>>> = Vec::new();
    let res = db.delete_by_prefix(COL_ACCOUNT, b"k", none);
    assert!(matches!(res, Err(StateError::NoLayersFound)));
    assert!(db.finalize_layer().is_none());
    let error = db.discard_last_layer().unwrap_err();
    assert!(matches!(error, StateError::NoLayers));
    assert_eq!(error.kind(), Some(ErrorKind::NotFound));
    assert_eq!(error.message(), "no layers");
}

#[test]
fn a_new_layer_takes_the_writes() {
    let mut db = StateDB::new();
    db.new_layer().put(COL_VOTES, b"a", b"1");
    db.new_layer().put(COL_VOTES, b"b", b"2");
    db.put_key(COL_VOTES, b"c", b"3").unwrap();
    let oldest = db.finalize_layer().unwrap();
    assert_eq!(oldest.ops().len(), 1);
    let newest = db.finalize_layer().unwrap();
    assert_eq!(newest.ops().len(), 2);
    assert!(db.finalize_layer().is_none());
}

#[test]
fn a_discarded_layer_leaves_those_below() {
    let mut store = Memory::new();
    let mut db = StateDB::new();
    db.new_layer().put(COL_VOTES, b"a", b"1");
    db.new_layer().put(COL_VOTES, b"a", b"2");
    db.discard_last_layer().unwrap();
    flush(&mut store, &mut db);
    assert_eq!(store[&(COL_VOTES, b"a".to_vec())], b"1".to_vec());
}

#[test]
fn newer_layers_win() {
    let mut store = Memory::new();
    let mut db = StateDB::new();
    db.new_layer().put(COL_VOTES, b"a", b"1");
    db.new_layer().put(COL_VOTES, b"a", b"2");
    db.new_layer().delete(COL_VOTES, b"b");
    flush(&mut store, &mut db);
    assert_eq!(store[&(COL_VOTES, b"a".to_vec())], b"2".to_vec());
}

#[test]
fn a_prefix_is_deleted_and_nothing_else() {
    let mut store = Memory::new();
    for key in ["a", "ab", "abc", "ac", "b"] {
        store.insert((COL_CONTRACT_STORAGE, key.as_bytes().to_vec()), vec![]);
    }
    store.insert((COL_TRANSACTION_LOG, b"ab".to_vec()), vec![]);
    let mut db = StateDB::new();
    db.new_layer();
    let request = prefix_request(COL_CONTRACT_STORAGE, b"ab");
    assert_eq!(request.from, b"ab".to_vec());
    let items = scan(&store, &request);
    assert_eq!(items.len(), 3);
    db.delete_by_prefix(COL_CONTRACT_STORAGE, b"ab", items).unwrap();
    flush(&mut store, &mut db);
    let left: Vec<(usize, Vec<u8>)> = store.into_keys().collect();
    assert_eq!(
        left,
        vec![
            (COL_CONTRACT_STORAGE, b"a".to_vec()),
            (COL_CONTRACT_STORAGE, b"ac".to_vec()),
            (COL_CONTRACT_STORAGE, b"b".to_vec()),
            (COL_TRANSACTION_LOG, b"ab".to_vec()),
        ]
    );
}

#[test]
fn the_overlay_deletes_a_prefix_only_into_a_layer() {
    let mut db = OverlayDB::new();
    let row = || vec![Some(Row { key: b"ab".to_vec(), value: () })];
    let res = db.delete_by_prefix(COL_VOTES, b"a", row());
    assert!(matches!(res, Err(StateError::NoLayersFound)));
    let none: Vec<Option<Row<()>>> = Vec::new();
    assert!(db.delete_by_prefix(COL_VOTES, b"a", none).is_ok());
    db.push_layer(OverlayWriteBatch::with_capacity(1));
    assert!(db.delete_by_prefix(COL_VOTES, b"a", row()).is_ok());
    assert!(db.delete(COL_VOTES, b"x").is_ok());
    let mut store = Memory::new();
    store.insert((COL_VOTES, b"ab".to_vec()), vec![]);
    store.insert((COL_VOTES, b"x".to_vec()), vec![]);
    store.insert((COL_VOTES, b"y".to_vec()), vec![]);
    run(&mut store, db.finalize_layers(), usize::MAX).unwrap();
    assert_eq!(store.len(), 1);
}

#[test]
fn reads_pass_the_layers_by() {
    let db = StateDB::new();
    let found: Fetched<i64> = Ok(Some(5));
    assert_eq!(db.get(found).unwrap(), Some(5));
    assert_eq!(db.get_skipped(3, Ok(Some(5))).unwrap(), Some(5));
    assert_eq!(db.must_get(Ok(Some(6))), 6);
    assert_eq!(db.must_get_skipped(1, Ok(Some(7))), 7);
    let failed: Fetched<i64> = Err("disk".to_string());
    let error = db.get(failed).unwrap_err();
    assert!(matches!(error, StateError::Read(_)));
    assert_eq!(error.kind(), Some(ErrorKind::Other));
    assert_eq!(error.message(), "disk");
    assert!(db.get_skipped::<i64>(0, Err("disk".to_string())).is_err());
}

#[test]
fn a_number_is_increased() {
    let mut store = Memory::new();
    let key = b"next-id";
    store.insert((COL_DEFAULT, key.to_vec()), 41i64.to_be_bytes().to_vec());
    let number = |store: &Memory| {
        read(store, key_request(COL_DEFAULT, key)).map(|found| {
            found.map(|raw| i64::from_be_bytes([
                raw[0], raw[1], raw[2], raw[3], raw[4], raw[5], raw[6], raw[7],
            ]))
        })
    };
    let mut db = StateDB::new();
    let pending = db.incr_key(COL_DEFAULT, key, number(&store)).unwrap();
    assert_eq!(pending.value(), 42);
    let refused = pending.finish(&mut db, &42i64.to_be_bytes());
    assert!(matches!(refused, Err(StateError::NoLayersFound)));
    db.new_layer();
    let pending = db.incr_key(COL_DEFAULT, key, number(&store)).unwrap();
    let encoded = pending.value().to_be_bytes();
    assert_eq!(pending.finish(&mut db, &encoded).unwrap(), 42);
    flush(&mut store, &mut db);
    assert_eq!(number(&store), Ok(Some(42)));
    let failed = db.incr_key(COL_DEFAULT, key, Err("disk".to_string()));
    assert!(matches!(failed, Err(StateError::Read(_))));
}

#[test]
fn entries_are_listed_where_their_keys_parse() {
    let mut store = Memory::new();
    for key in ["a1", "ax", "a2", "b3"] {
        store.insert((COL_PROPOSAL, key.as_bytes().to_vec()), key.as_bytes().to_vec());
    }
    store.insert((COL_ASSET, b"a9".to_vec()), vec![]);
    let parse = |items: Vec<Option<Row<Vec<u8>>>>| {
        items
            .into_iter()
            .map(|item| {
                item.map(|row| {
                    let digit = row.key[1];
                    let value = if digit.is_ascii_digit() { Some(digit - b'0') } else { None };
                    Row { key: row.key, value }
                })
            })
            .collect::<Vec<_>>()
    };
    let db = StateDB::new();
    let all = parse(scan(&store, &column_request(COL_PROPOSAL)));
    assert_eq!(db.for_each(all), vec![1, 2, 3]);
    let some = parse(scan(&store, &prefix_request(COL_PROPOSAL, b"a")));
    assert_eq!(db.for_each_by_prefix(b"a", some), vec![1, 2]);
}

#[test]
fn rows_are_listed_in_order() {
    let mut store = Memory::new();
    for key in ["b", "ab", "aa", "c"] {
        store.insert((COL_VOTES, key.as_bytes().to_vec()), vec![]);
    }
    let db = OverlayDB::new();
    let keys = |rows: Vec<Row<Vec<u8>>>| rows.into_iter().map(|r| r.key).collect::<Vec<_>>();
    let mut items = scan(&store, &column_request(COL_VOTES));
    items.insert(2, None);
    let all = keys(db.for_each(items));
    assert_eq!(all, vec![b"aa".to_vec(), b"ab".to_vec(), b"b".to_vec(), b"c".to_vec()]);
    let some = keys(db.for_each_by_prefix(b"a", scan(&store, &prefix_request(COL_VOTES, b"a"))));
    assert_eq!(some, vec![b"aa".to_vec(), b"ab".to_vec()]);
    assert_eq!(db.get_by_prefix(COL_VOTES, b"a"), None);
}

#[test]
fn layers_are_not_searched() {
    let mut layer = OverlayWriteBatch::new();
    layer.put(COL_VOTES, b"a", b"1");
    let error = layer.get(b"a").unwrap_err();
    assert!(matches!(error, StateError::CacheDisabled));
    assert_eq!(error.kind(), Some(ErrorKind::NotFound));
    assert_eq!(error.message(), "cache disabled");
    assert_eq!(layer.get_by_prefix(b"a"), None);
    assert!(layer.iter().is_empty());
    assert!(layer.iter_with_prefix(b"a").is_empty());
}

#[test]
fn all_layers_are_finalized_in_order() {
    let mut db = OverlayDB::new();
    put(&mut db, b"a", b"1");
    put(&mut db, b"a", b"2");
    let mut third = OverlayWriteBatch::new();
    third.delete(COL_VOTES, b"b");
    db.write(third).unwrap();
    assert_eq!(db.len(), 3);
    let mut store = Memory::new();
    store.insert((COL_VOTES, b"b".to_vec()), vec![]);
    run(&mut store, db.finalize_layers(), usize::MAX).unwrap();
    assert_eq!(db.len(), 0);
    assert_eq!(store.len(), 1);
    assert_eq!(store[&(COL_VOTES, b"a".to_vec())], b"2".to_vec());
}

#[test]
fn a_failed_write_ends_the_run() {
    let mut db = OverlayDB::new();
    put(&mut db, b"a", b"1");
    put(&mut db, b"b", b"2");
    put(&mut db, b"c", b"3");
    let mut store = Memory::new();
    let error = run(&mut store, db.finalize_layers(), 1).unwrap_err();
    assert!(matches!(error, StateError::Write(_)));
    assert_eq!((error.kind(), error.message()), (None, "disk full".to_string()));
    assert_eq!(store.into_keys().collect::<Vec<_>>(), vec![(COL_VOTES, b"a".to_vec())]);
    assert_eq!(db.len(), 0);
}

#[test]
fn discarded_layers_do_not_reach_the_store() {
    let mut db = OverlayDB::new();
    put(&mut db, b"a", b"1");
    put(&mut db, b"b", b"2");
    db.discard_layers().unwrap();
    let mut store = Memory::new();
    run(&mut store, db.finalize_layers(), usize::MAX).unwrap();
    assert!(store.is_empty());
}

const CONSTANTS: ChainConstants =
    ChainConstants { default_brokerage_rate: 20, num_of_block_filled_slots: 128 };

fn address(fill: u8) -> Result<Address, String> {
    Ok(Address { bytes: vec![fill; 21] })
}

fn config() -> GenesisConfig {
    GenesisConfig {
        timestamp: 17,
        witnesses: vec![
            GenesisWitness { address: address(1), url: "http://one".to_string(), votes: 100 },
            GenesisWitness { address: address(2), url: "http://two".to_string(), votes: 99 },
        ],
        allocs: vec![GenesisAlloc {
            address: address(3),
            name: "Zion".to_string(),
            balance: 1_000,
        }],
        block: Ok(GenesisBlock { hash: H256::new([7; 32]), timestamp: 18 }),
    }
}

#[test]
fn the_genesis_configuration_makes_its_entries() {
    let (entries, outcome) = StateDB::apply_genesis_config(&config(), &CONSTANTS);
    outcome.unwrap();
    assert_eq!(entries.len(), 11);
    match &entries[2] {
        GenesisEntry::Witness(key, w) => {
            assert_eq!((&key.bytes, &w.address), (&vec![2; 21], &vec![2; 21]));
            assert_eq!((w.url.as_str(), w.vote_count), ("http://two", 99));
            assert_eq!((w.brokerage, w.is_active), (20, true));
        }
        other => panic!("{:?}", other),
    }
    match &entries[3] {
        GenesisEntry::Account(key, a) => {
            assert_eq!(key.bytes, vec![2; 21]);
            assert_eq!((a.name.as_str(), a.balance, a.creation_time), ("", 0, 17));
            assert_eq!(a.account_type, AccountType::Normal);
            assert_eq!(a.resource, Some(AccountResource::Default));
        }
        other => panic!("{:?}", other),
    }
    match &entries[4] {
        GenesisEntry::Account(key, a) => {
            assert_eq!(key.bytes, vec![3; 21]);
            assert_eq!((a.name.as_str(), a.balance, a.creation_time), ("Zion", 1_000, 17));
            assert_eq!(a.account_type, AccountType::Normal);
            assert_eq!(a.resource, Some(AccountResource::Default));
        }
        other => panic!("{:?}", other),
    }
    match &entries[5] {
        GenesisEntry::AccountIndex(name, account) => {
            assert_eq!((name.as_str(), &account.bytes), ("Zion", &vec![3; 21]));
        }
        other => panic!("{:?}", other),
    }
    match &entries[6] {
        GenesisEntry::LatestBlockHash(hash) => assert_eq!(hash.as_bytes(), &[7; 32]),
        other => panic!("{:?}", other),
    }
    assert!(matches!(
        entries[7],
        GenesisEntry::Property(DynamicProperty::LatestBlockNumber, 0)
    ));
    assert!(matches!(
        entries[8],
        GenesisEntry::Property(DynamicProperty::LatestBlockTimestamp, 18)
    ));
    assert!(matches!(
        entries[9],
        GenesisEntry::Property(DynamicProperty::LatestSolidBlockNumber, 0)
    ));
    match &entries[10] {
        GenesisEntry::BlockFilledSlots(slots) => assert_eq!(*slots, vec![1; 128]),
        other => panic!("{:?}", other),
    }
}

#[test]
fn an_address_that_does_not_parse_ends_the_genesis() {
    let mut genesis = config();
    genesis.witnesses[1].address = Err("bad witness".to_string());
    let (entries, outcome) = StateDB::apply_genesis_config(&genesis, &CONSTANTS);
    assert_eq!(entries.len(), 2);
    let error = outcome.unwrap_err();
    assert!(matches!(error, StateError::Address(_)));
    assert_eq!((error.kind(), error.message()), (None, "bad witness".to_string()));

    let mut genesis = config();
    genesis.allocs[0].address = Err("bad account".to_string());
    let (entries, outcome) = StateDB::apply_genesis_config(&genesis, &CONSTANTS);
    assert_eq!(entries.len(), 4);
    assert_eq!(outcome.unwrap_err().message(), "bad account");
}

#[test]
fn a_configuration_without_a_block_ends_the_genesis() {
    let mut genesis = config();
    genesis.block = Err("no block".to_string());
    let (entries, outcome) = StateDB::apply_genesis_config(&genesis, &CONSTANTS);
    assert_eq!(entries.len(), 6);
    let error = outcome.unwrap_err();
    assert!(matches!(error, StateError::GenesisBlock(_)));
    assert_eq!((error.kind(), error.message()), (None, "no block".to_string()));
}

fn entry(column: usize, key: &[u8], value: &[u8]) -> EncodedEntry {
    EncodedEntry { column, key: key.to_vec(), value: value.to_vec() }
}

/// A readable stand-in for the encoding of entries.
fn encode(made: &GenesisEntry) -> EncodedEntry {
    match made {
        GenesisEntry::Witness(key, w) => {
            entry(COL_WITNESS, &key.bytes, format!("{} {}", w.url, w.vote_count).as_bytes())
        }
        GenesisEntry::Account(key, a) => {
            let text = format!("{} {} {:?}", a.name, a.balance, a.resource);
            entry(COL_ACCOUNT, &key.bytes, text.as_bytes())
        }
        GenesisEntry::AccountIndex(name, account) => {
            entry(COL_ACCOUNT_INDEX, name.as_bytes(), &account.bytes)
        }
        GenesisEntry::LatestBlockHash(hash) => entry(COL_DEFAULT, b"hash", hash.as_bytes()),
        GenesisEntry::Property(key, value) => {
            entry(COL_DEFAULT, format!("{:?}", key).as_bytes(), &value.to_be_bytes())
        }
        GenesisEntry::BlockFilledSlots(slots) => entry(COL_DEFAULT, b"slots", slots),
    }
}

#[test]
fn an_empty_database_is_initialised_once() {
    let mut store = Memory::new();
    store.insert((COL_ASSET, b"kept".to_vec()), b"1".to_vec());
    let mut db = StateDB::new();
    db.new_layer().put(COL_DEFAULT, b"waiting", b"1");
    let defaults =
        vec![entry(COL_DEFAULT, b"version", b"1"), entry(COL_DEFAULT, b"LatestBlockNumber", b"-")];
    let mut genesis = config();
    genesis.allocs.push(GenesisAlloc {
        address: address(1),
        name: "One".to_string(),
        balance: 5,
    });
    match db.init_genesis(Ok(None), &defaults, &genesis, &CONSTANTS, encode).unwrap() {
        GenesisStep::Finalize(layers) => run(&mut store, layers, usize::MAX).unwrap(),
        other => panic!("{:?}", other),
    }
    assert!(db.finalize_layer().is_none());
    let at = |col: usize, key: &[u8]| store[&(col, key.to_vec())].clone();
    assert_eq!(at(COL_DEFAULT, b"version"), b"1".to_vec());
    assert_eq!(at(COL_DEFAULT, b"waiting"), b"1".to_vec());
    assert_eq!(at(COL_ASSET, b"kept"), b"1".to_vec());
    assert_eq!(at(COL_DEFAULT, b"LatestBlockNumber"), vec![0; 8]);
    assert_eq!(at(COL_DEFAULT, b"LatestBlockTimestamp"), 18i64.to_be_bytes().to_vec());
    assert_eq!(at(COL_DEFAULT, b"hash"), vec![7; 32]);
    assert_eq!(at(COL_DEFAULT, b"slots"), vec![1; 128]);
    assert_eq!(at(COL_WITNESS, &[1; 21]), b"http://one 100".to_vec());
    assert_eq!(at(COL_ACCOUNT, &[1; 21]), b"One 5 Some(Default)".to_vec());
    assert_eq!(at(COL_ACCOUNT, &[2; 21]), b" 0 Some(Default)".to_vec());
    assert_eq!(at(COL_ACCOUNT, &[3; 21]), b"Zion 1000 Some(Default)".to_vec());
    assert_eq!(at(COL_ACCOUNT_INDEX, b"Zion"), vec![3; 21]);
    assert_eq!(store.len(), 15);
    match db.init_genesis(Ok(Some(1)), &defaults, &genesis, &CONSTANTS, encode).unwrap() {
        GenesisStep::AlreadyInited(version) => assert_eq!(version, 1),
        other => panic!("{:?}", other),
    }
    assert!(db.finalize_layer().is_none());
}

#[test]
fn a_failed_genesis_stays_in_a_layer() {
    let mut db = StateDB::new();
    let defaults = vec![entry(COL_DEFAULT, b"version", b"1")];
    let mut genesis = config();
    genesis.allocs[0].address = Err("bad".to_string());
    let res = db.init_genesis(Ok(None), &defaults, &genesis, &CONSTANTS, encode);
    assert_eq!(res.unwrap_err().message(), "bad");
    assert_eq!(db.finalize_layer().unwrap().ops().len(), 5);
    assert!(db.finalize_layer().is_none());
    let failed =
        db.init_genesis(Err("disk".to_string()), &defaults, &config(), &CONSTANTS, encode);
    assert!(matches!(failed, Err(StateError::Read(_))));
    assert!(db.finalize_layer().is_none());
}

#[test]
fn increments_that_wait_in_layers_give_the_same_number() {
    let mut db = StateDB::new();
    db.new_layer();
    let first = db.incr_key(COL_DEFAULT, b"id", Ok(Some(4))).unwrap();
    assert_eq!(first.finish(&mut db, b"5").unwrap(), 5);
    let second = db.incr_key(COL_DEFAULT, b"id", Ok(Some(4))).unwrap();
    assert_eq!(second.finish(&mut db, b"5").unwrap(), 5);
}

#[test]
fn a_key_that_only_waits_in_a_layer_outlives_a_deletion_by_prefix() {
    let mut store = Memory::new();
    store.insert((COL_ASSET, b"pa".to_vec()), vec![]);
    let mut db = StateDB::new();
    db.new_layer().put(COL_ASSET, b"pb", b"waiting");
    db.new_layer();
    let items = scan(&store, &prefix_request(COL_ASSET, b"p"));
    db.delete_by_prefix(COL_ASSET, b"p", items).unwrap();
    flush(&mut store, &mut db);
    assert_eq!(store.into_keys().collect::<Vec<_>>(), vec![(COL_ASSET, b"pb".to_vec())]);
}

#[test]
fn layers_may_be_finalized_one_by_one_or_together() {
    let layer = |key: &[u8], value: &[u8]| {
        let mut layer = OverlayWriteBatch::new();
        layer.put(COL_VOTES, key, value);
        layer.delete(COL_VOTES, b"gone");
        layer
    };
    let mut together = Memory::new();
    let mut db = OverlayDB::new();
    db.push_layer(layer(b"a", b"1"));
    db.push_layer(layer(b"a", b"2"));
    db.push_layer(layer(b"gone", b"3"));
    run(&mut together, db.finalize_layers(), usize::MAX).unwrap();
    let mut apart = Memory::new();
    for (key, value) in [(b"a".to_vec(), b"1"), (b"a".to_vec(), b"2"), (b"gone".to_vec(), b"3")] {
        db.push_layer(layer(&key, value));
        run(&mut apart, db.finalize_layers(), usize::MAX).unwrap();
    }
    assert_eq!(together, apart);
}

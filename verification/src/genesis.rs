//! The first contents of the state database.

use crate::batch::OpView;
use crate::hash::H256;
use crate::overlay::{with_writes, Finalization};
use crate::state_db::StateDB;
use crate::state_error::StateError;
use crate::state_schema::COLUMN_COUNT;
use crate::store::Fetched;
use vstd::prelude::*;

verus! {

/// An account address, as its bytes.
#[derive(Debug)]
pub struct Address {
    pub bytes: Vec<u8>,
}

impl Address {
    fn copy(&self) -> (address: Address)
        ensures
            address.bytes@ == self.bytes@,
    {
        Address { bytes: vstd::slice::slice_to_vec(self.bytes.as_slice()) }
    }
}

/// A witness that the chain starts with. The address is what its text parses to.
#[derive(Debug)]
pub struct GenesisWitness {
    pub address: Result<Address, String>,
    pub url: String,
    pub votes: i64,
}

/// An account that the chain starts with. The address is what its text parses to.
#[derive(Debug)]
pub struct GenesisAlloc {
    pub address: Result<Address, String>,
    pub name: String,
    pub balance: i64,
}

/// The first block, as far as the state refers to it.
#[derive(Debug)]
pub struct GenesisBlock {
    pub hash: H256,
    pub timestamp: i64,
}

/// What the chain starts with.
#[derive(Debug)]
pub struct GenesisConfig {
    pub timestamp: i64,
    pub witnesses: Vec<GenesisWitness>,
    pub allocs: Vec<GenesisAlloc>,
    /// The block that this configuration makes, or why it makes none.
    pub block: Result<GenesisBlock, String>,
}

/// Constants of the chain that its first state depends on.
#[derive(Clone, Copy, Debug)]
pub struct ChainConstants {
    pub default_brokerage_rate: i32,
    pub num_of_block_filled_slots: usize,
}

/// A stored witness. Fields that are not listed have their default values.
#[derive(Debug)]
pub struct Witness {
    pub address: Vec<u8>,
    pub url: String,
    pub vote_count: i64,
    pub brokerage: i32,
    pub is_active: bool,
}

/// The type of an account.
#[derive(Clone, Copy, Debug, PartialEq, Eq, Structural)]
pub enum AccountType {
    Normal,
}

/// The resource record of an account.
#[derive(Clone, Copy, Debug, PartialEq, Eq, Structural)]
pub enum AccountResource {
    /// The record whose fields all have their default values.
    Default,
}

/// A stored account. Fields that are not listed have their default values.
#[derive(Debug)]
pub struct Account {
    pub name: String,
    pub balance: i64,
    pub creation_time: i64,
    pub account_type: AccountType,
    /// The resource record, where there is one.
    pub resource: Option<AccountResource>,
}

/// A property of the chain that the first state sets.
#[derive(Clone, Copy, Debug, PartialEq, Eq, Structural)]
pub enum DynamicProperty {
    LatestBlockNumber,
    LatestBlockTimestamp,
    LatestSolidBlockNumber,
}

/// One entry of the first state: what is stored under which key.
#[derive(Debug)]
pub enum GenesisEntry {
    Witness(Address, Witness),
    Account(Address, Account),
    AccountIndex(String, Address),
    LatestBlockHash(H256),
    Property(DynamicProperty, i64),
    BlockFilledSlots(Vec<u8>),
}

/// [`GenesisEntry`] over sequences.
pub enum EntryView {
    Witness {
        key: Seq<u8>,
        address: Seq<u8>,
        url: Seq<char>,
        vote_count: i64,
        brokerage: i32,
        is_active: bool,
    },
    Account {
        key: Seq<u8>,
        name: Seq<char>,
        balance: i64,
        creation_time: i64,
        account_type: AccountType,
        resource: Option<AccountResource>,
    },
    AccountIndex { name: Seq<char>, account: Seq<u8> },
    LatestBlockHash(Seq<u8>),
    Property(DynamicProperty, i64),
    BlockFilledSlots(Seq<u8>),
}

impl View for GenesisEntry {
    type V = EntryView;

    open spec fn view(&self) -> EntryView {
        match self {
            GenesisEntry::Witness(key, w) => EntryView::Witness {
                key: key.bytes@,
                address: w.address@,
                url: w.url@,
                vote_count: w.vote_count,
                brokerage: w.brokerage,
                is_active: w.is_active,
            },
            GenesisEntry::Account(key, a) => EntryView::Account {
                key: key.bytes@,
                name: a.name@,
                balance: a.balance,
                creation_time: a.creation_time,
                account_type: a.account_type,
                resource: a.resource,
            },
            GenesisEntry::AccountIndex(key, address) => EntryView::AccountIndex {
                name: key@,
                account: address.bytes@,
            },
            GenesisEntry::LatestBlockHash(hash) => EntryView::LatestBlockHash(hash@),
            GenesisEntry::Property(key, value) => EntryView::Property(*key, *value),
            GenesisEntry::BlockFilledSlots(slots) => EntryView::BlockFilledSlots(slots@),
        }
    }
}

/// The entries, by their views.
pub open spec fn entry_views(entries: Seq<GenesisEntry>) -> Seq<EntryView> {
    entries.map_values(|e: GenesisEntry| e@)
}

/// The entry of a witness: active, with its votes and the default brokerage rate.
pub open spec fn witness_entry(
    genesis: GenesisConfig,
    constants: ChainConstants,
    i: int,
) -> EntryView {
    let w = genesis.witnesses@[i];
    EntryView::Witness {
        key: w.address->Ok_0.bytes@,
        address: w.address->Ok_0.bytes@,
        url: w.url@,
        vote_count: w.votes,
        brokerage: constants.default_brokerage_rate,
        is_active: true,
    }
}

/// The account of a witness: without name or balance, with an empty resource record.
pub open spec fn account_of_witness(genesis: GenesisConfig, i: int) -> EntryView {
    EntryView::Account {
        key: genesis.witnesses@[i].address->Ok_0.bytes@,
        name: Seq::empty(),
        balance: 0,
        creation_time: genesis.timestamp,
        account_type: AccountType::Normal,
        resource: Some(AccountResource::Default),
    }
}

/// An account with its name and balance, and an empty resource record.
pub open spec fn account_of_alloc(genesis: GenesisConfig, i: int) -> EntryView {
    let a = genesis.allocs@[i];
    EntryView::Account {
        key: a.address->Ok_0.bytes@,
        name: a.name@,
        balance: a.balance,
        creation_time: genesis.timestamp,
        account_type: AccountType::Normal,
        resource: Some(AccountResource::Default),
    }
}

/// The address of an account under its name.
pub open spec fn index_of_alloc(genesis: GenesisConfig, i: int) -> EntryView {
    let a = genesis.allocs@[i];
    EntryView::AccountIndex { name: a.name@, account: a.address->Ok_0.bytes@ }
}

/// The entries of the first `n` witnesses.
pub open spec fn witness_entries(
    genesis: GenesisConfig,
    constants: ChainConstants,
    n: nat,
) -> Seq<EntryView>
    decreases n,
{
    if n == 0 {
        Seq::empty()
    } else {
        witness_entries(genesis, constants, (n - 1) as nat).push(
            witness_entry(genesis, constants, n - 1),
        ).push(account_of_witness(genesis, n - 1))
    }
}

/// The entries of the first `n` accounts.
pub open spec fn alloc_entries(genesis: GenesisConfig, n: nat) -> Seq<EntryView>
    decreases n,
{
    if n == 0 {
        Seq::empty()
    } else {
        alloc_entries(genesis, (n - 1) as nat).push(account_of_alloc(genesis, n - 1)).push(
            index_of_alloc(genesis, n - 1),
        )
    }
}

/// The entries that refer to the first block, and the record of filled slots, all filled.
pub open spec fn block_entries(block: GenesisBlock, constants: ChainConstants) -> Seq<EntryView> {
    seq![
        EntryView::LatestBlockHash(block.hash@),
        EntryView::Property(DynamicProperty::LatestBlockNumber, 0),
        EntryView::Property(DynamicProperty::LatestBlockTimestamp, block.timestamp),
        EntryView::Property(DynamicProperty::LatestSolidBlockNumber, 0),
        EntryView::BlockFilledSlots(
            Seq::new(constants.num_of_block_filled_slots as nat, |i: int| 1u8),
        ),
    ]
}

/// The parsed addresses of the witnesses.
pub open spec fn witness_addresses(genesis: GenesisConfig) -> Seq<Result<Address, String>> {
    genesis.witnesses@.map_values(|w: GenesisWitness| w.address)
}

/// The parsed addresses of the accounts.
pub open spec fn alloc_addresses(genesis: GenesisConfig) -> Seq<Result<Address, String>> {
    genesis.allocs@.map_values(|a: GenesisAlloc| a.address)
}

/// The number of addresses before the first that does not parse, or of all.
pub open spec fn parsed_len(addresses: Seq<Result<Address, String>>) -> nat
    decreases addresses.len(),
{
    if addresses.len() == 0 {
        0
    } else {
        let before = parsed_len(addresses.drop_last());
        if before == addresses.len() - 1 && addresses.last() is Ok {
            addresses.len()
        } else {
            before
        }
    }
}

/// The entries of the first state: witnesses, accounts and the block, in this order, up to
/// the first failure.
pub open spec fn genesis_entries(genesis: GenesisConfig, constants: ChainConstants) -> Seq<
    EntryView,
> {
    let w = parsed_len(witness_addresses(genesis));
    let a = parsed_len(alloc_addresses(genesis));
    if w < genesis.witnesses@.len() {
        witness_entries(genesis, constants, w)
    } else if a < genesis.allocs@.len() {
        witness_entries(genesis, constants, w) + alloc_entries(genesis, a)
    } else {
        witness_entries(genesis, constants, w) + alloc_entries(genesis, a) + match genesis.block {
            Ok(block) => block_entries(block, constants),
            Err(_) => Seq::empty(),
        }
    }
}

/// How making the first state ends: with the first witness or account whose address does not
/// parse, with a configuration that makes no block, or well.
pub open spec fn genesis_outcome(genesis: GenesisConfig) -> Result<(), StateError> {
    let w = parsed_len(witness_addresses(genesis));
    let a = parsed_len(alloc_addresses(genesis));
    if w < genesis.witnesses@.len() {
        Err(StateError::Address(witness_addresses(genesis)[w as int]->Err_0))
    } else if a < genesis.allocs@.len() {
        Err(StateError::Address(alloc_addresses(genesis)[a as int]->Err_0))
    } else {
        match genesis.block {
            Ok(_) => Ok(()),
            Err(e) => Err(StateError::GenesisBlock(e)),
        }
    }
}

pub proof fn lemma_parsed_len(addresses: Seq<Result<Address, String>>, k: int)
    requires
        0 <= k <= addresses.len(),
        forall|i: int| 0 <= i < k ==> (#[trigger] addresses[i]) is Ok,
        k < addresses.len() ==> addresses[k] is Err,
    ensures
        parsed_len(addresses) == k,
    decreases addresses.len(),
{
    if addresses.len() > 0 {
        let before = addresses.drop_last();
        if k == addresses.len() {
            assert(addresses[k - 1] is Ok);
            lemma_parsed_len(before, k - 1);
        } else {
            lemma_parsed_len(before, k);
        }
    }
}

/// An encoded entry: the value that is stored under a key of a column.
#[derive(Debug)]
pub struct EncodedEntry {
    pub column: usize,
    pub key: Vec<u8>,
    pub value: Vec<u8>,
}

/// The writes of these entries, in order.
pub open spec fn entry_writes(entries: Seq<EncodedEntry>) -> Seq<OpView<usize>> {
    entries.map_values(
        |e: EncodedEntry| OpView::Put { column: e.column, key: e.key@, value: e.value@ },
    )
}

/// Every entry belongs to a column of the state database.
pub open spec fn columns_exist(entries: Seq<EncodedEntry>) -> bool {
    forall|i: int| 0 <= i < entries.len() ==> (#[trigger] entries[i]).column < COLUMN_COUNT
}

/// `encode` takes any entry, and what it makes of it belongs to a column of the state
/// database.
pub open spec fn encodes_entries<F: Fn(&GenesisEntry) -> EncodedEntry>(encode: F) -> bool {
    &&& forall|entry: GenesisEntry| #[trigger] call_requires(encode, (&entry,))
    &&& forall|entry: GenesisEntry, encoded: EncodedEntry| #[trigger]
        call_ensures(encode, (&entry,), encoded) ==> encoded.column < COLUMN_COUNT
}

/// Each of `entries` is what `encode` makes of the planned entry at its place.
pub open spec fn is_encoding<F: Fn(&GenesisEntry) -> EncodedEntry>(
    encode: F,
    plan: Seq<GenesisEntry>,
    entries: Seq<EncodedEntry>,
) -> bool {
    &&& entries.len() == plan.len()
    &&& forall|i: int|
        0 <= i < plan.len() ==> call_ensures(encode, (&plan[i],), #[trigger] entries[i])
}

/// The writes of a layer are those of the defaults, then those of the encoded entries that
/// the genesis configuration makes.
pub open spec fn is_genesis_layer<F: Fn(&GenesisEntry) -> EncodedEntry>(
    layer: Seq<OpView<usize>>,
    defaults: Seq<EncodedEntry>,
    genesis: GenesisConfig,
    constants: ChainConstants,
    encode: F,
) -> bool {
    exists|plan: Seq<GenesisEntry>, entries: Seq<EncodedEntry>| #[trigger]
        is_encoding(encode, plan, entries) && entry_views(plan) == genesis_entries(
            genesis,
            constants,
        ) && layer == entry_writes(defaults) + entry_writes(entries)
}

/// `after` are the layers `before` with the first contents in one more on top.
pub open spec fn is_genesis_on_top<F: Fn(&GenesisEntry) -> EncodedEntry>(
    before: Seq<Seq<OpView<usize>>>,
    after: Seq<Seq<OpView<usize>>>,
    defaults: Seq<EncodedEntry>,
    genesis: GenesisConfig,
    constants: ChainConstants,
    encode: F,
) -> bool {
    &&& after.len() == before.len() + 1
    &&& after.drop_last() == before
    &&& is_genesis_layer(after.last(), defaults, genesis, constants, encode)
}

/// What `encode` makes of each planned entry.
fn encode_all<F: Fn(&GenesisEntry) -> EncodedEntry>(plan: &Vec<GenesisEntry>, encode: F) -> (entries:
    Vec<EncodedEntry>)
    requires
        encodes_entries(encode),
    ensures
        is_encoding(encode, plan@, entries@),
        columns_exist(entries@),
{
    let mut entries: Vec<EncodedEntry> = Vec::new();
    let mut i: usize = 0;
    while i < plan.len()
        invariant
            i <= plan@.len(),
            entries@.len() == i,
            encodes_entries(encode),
            columns_exist(entries@),
            forall|j: int|
                0 <= j < i ==> call_ensures(encode, (&plan@[j],), #[trigger] entries@[j]),
        decreases plan@.len() - i,
    {
        let entry = &plan[i];
        assert(call_requires(encode, (entry,)));
        let encoded = encode(entry);
        entries.push(encoded);
        i += 1;
    }
    entries
}

/// What is to be done to give the database its first contents.
#[derive(Debug)]
pub enum GenesisStep {
    /// Nothing: the database has contents of this version.
    AlreadyInited(i64),
    /// Write these layers to the store.
    Finalize(Finalization),
}

impl StateDB {
    /// The entries of the first state in the order in which they are stored, and how making them
    /// ends. The entries made before a failure are kept.
    pub fn apply_genesis_config(genesis: &GenesisConfig, constants: &ChainConstants) -> (plan: (
        Vec<GenesisEntry>,
        Result<(), StateError>,
    ))
        ensures
            entry_views(plan.0@) == genesis_entries(*genesis, *constants),
            plan.1 == genesis_outcome(*genesis),
    {
        let mut entries: Vec<GenesisEntry> = Vec::new();
        let mut i: usize = 0;
        assert(entry_views(entries@) =~= Seq::<EntryView>::empty());
        while i < genesis.witnesses.len()
            invariant
                i <= genesis.witnesses@.len(),
                forall|j: int| 0 <= j < i ==> (#[trigger] witness_addresses(*genesis)[j]) is Ok,
                entry_views(entries@) == witness_entries(*genesis, *constants, i as nat),
            decreases genesis.witnesses@.len() - i,
        {
            let witness = &genesis.witnesses[i];
            assert(witness_addresses(*genesis)[i as int] == witness.address);
            match &witness.address {
                Err(e) => {
                    proof {
                        lemma_parsed_len(witness_addresses(*genesis), i as int);
                    }
                    return (entries, Err(StateError::Address(e.clone())));
                },
                Ok(address) => {
                    let ghost before = entries@;
                    entries.push(
                        GenesisEntry::Witness(
                            address.copy(),
                            Witness {
                                address: address.copy().bytes,
                                url: witness.url.clone(),
                                vote_count: witness.votes,
                                brokerage: constants.default_brokerage_rate,
                                is_active: true,
                            },
                        ),
                    );
                    entries.push(
                        GenesisEntry::Account(
                            address.copy(),
                            Account {
                                name: String::new(),
                                balance: 0,
                                creation_time: genesis.timestamp,
                                account_type: AccountType::Normal,
                            resource: Some(AccountResource::Default),
                            },
                        ),
                    );
                    assert(entry_views(entries@) =~= entry_views(before).push(
                        entries@[before.len() as int]@,
                    ).push(entries@[before.len() as int + 1]@));
                },
            }
            i += 1;
        }
        proof {
            lemma_parsed_len(witness_addresses(*genesis), i as int);
        }
        let ghost witnesses = entry_views(entries@);
        let mut k: usize = 0;
        assert(entry_views(entries@) =~= witnesses + alloc_entries(*genesis, 0));
        while k < genesis.allocs.len()
            invariant
                k <= genesis.allocs@.len(),
                i == genesis.witnesses@.len(),
                parsed_len(witness_addresses(*genesis)) == i,
                witnesses == witness_entries(*genesis, *constants, i as nat),
                forall|j: int| 0 <= j < k ==> (#[trigger] alloc_addresses(*genesis)[j]) is Ok,
                entry_views(entries@) == witnesses + alloc_entries(*genesis, k as nat),
            decreases genesis.allocs@.len() - k,
        {
            let alloc = &genesis.allocs[k];
            assert(alloc_addresses(*genesis)[k as int] == alloc.address);
            match &alloc.address {
                Err(e) => {
                    proof {
                        lemma_parsed_len(alloc_addresses(*genesis), k as int);
                    }
                    return (entries, Err(StateError::Address(e.clone())));
                },
                Ok(address) => {
                    let ghost before = entries@;
                    entries.push(
                        GenesisEntry::Account(
                            address.copy(),
                            Account {
                                name: alloc.name.clone(),
                                balance: alloc.balance,
                                creation_time: genesis.timestamp,
                                account_type: AccountType::Normal,
                            resource: Some(AccountResource::Default),
                            },
                        ),
                    );
                    entries.push(GenesisEntry::AccountIndex(alloc.name.clone(), address.copy()));
                    assert(entry_views(entries@) =~= entry_views(before).push(
                        entries@[before.len() as int]@,
                    ).push(entries@[before.len() as int + 1]@));
                    assert(entry_views(entries@) =~= witnesses + alloc_entries(
                        *genesis,
                        (k + 1) as nat,
                    ));
                },
            }
            k += 1;
        }
        proof {
            lemma_parsed_len(alloc_addresses(*genesis), k as int);
        }
        let ghost made = entry_views(entries@);
        match &genesis.block {
            Err(e) => {
                assert(made + Seq::<EntryView>::empty() =~= made);
                (entries, Err(StateError::GenesisBlock(e.clone())))
            },
            Ok(block) => {
                entries.push(GenesisEntry::LatestBlockHash(block.hash));
                entries.push(GenesisEntry::Property(DynamicProperty::LatestBlockNumber, 0));
                entries.push(
                    GenesisEntry::Property(DynamicProperty::LatestBlockTimestamp, block.timestamp),
                );
                entries.push(GenesisEntry::Property(DynamicProperty::LatestSolidBlockNumber, 0));
                let slots: Vec<u8> = vec![1u8; constants.num_of_block_filled_slots];
                assert(slots@ =~= Seq::new(constants.num_of_block_filled_slots as nat, |j: int| 1u8));
                entries.push(GenesisEntry::BlockFilledSlots(slots));
                assert(entry_views(entries@) =~= made + block_entries(*block, *constants));
                (entries, Ok(()))
            },
        }
    }

    /// Adds the writes of the entries to the newest layer.
    fn put_entries(&mut self, entries: &Vec<EncodedEntry>)
        requires
            old(self).wf(),
            old(self)@.len() > 0,
            columns_exist(entries@),
        ensures
            final(self).wf(),
            final(self)@ == with_writes(old(self)@, entry_writes(entries@)),
    {
        let ghost before = self@;
        let ghost writes = entry_writes(entries@);
        let mut i: usize = 0;
        proof {
            assert(before.last() + writes.take(0) =~= before.last());
            assert(with_writes(before, writes.take(0)) =~= before);
        }
        while i < entries.len()
            invariant
                i <= entries@.len(),
                before.len() > 0,
                writes == entry_writes(entries@),
                columns_exist(entries@),
                self.wf(),
                self@ == with_writes(before, writes.take(i as int)),
            decreases entries@.len() - i,
        {
            let entry = &entries[i];
            let _ = self.put_key(entry.column, entry.key.as_slice(), entry.value.as_slice());
            proof {
                let done = writes.take(i as int);
                let op = writes[i as int];
                assert(writes.take(i + 1) =~= done.push(op));
                assert(before.last() + done + seq![op] =~= before.last() + done.push(op));
                assert(with_writes(with_writes(before, done), seq![op]) =~= with_writes(
                    before,
                    done.push(op),
                ));
            }
            i += 1;
        }
        assert(writes.take(writes.len() as int) =~= writes);
    }

    /// Gives an empty database its first contents, by what the read of its version answered.
    /// They are `defaults`, the default parameters and properties, and what the genesis
    /// configuration makes, each entry turned into bytes by `encode`. If making them fails,
    /// what was made stays behind in a new layer; if not, all layers are to be written.
    pub fn init_genesis<F: Fn(&GenesisEntry) -> EncodedEntry>(
        &mut self,
        db_version: Fetched<i64>,
        defaults: &Vec<EncodedEntry>,
        genesis: &GenesisConfig,
        constants: &ChainConstants,
        encode: F,
    ) -> (res: Result<GenesisStep, StateError>)
        requires
            old(self).wf(),
            db_version matches Ok(None) ==> columns_exist(defaults@) && encodes_entries(encode),
        ensures
            final(self).wf(),
            match db_version {
                Err(e) => res == Err::<GenesisStep, _>(StateError::Read(e)) && final(self)@
                    == old(self)@,
                Ok(Some(version)) => res == Ok::<_, StateError>(GenesisStep::AlreadyInited(version))
                    && final(self)@ == old(self)@,
                Ok(None) => match genesis_outcome(*genesis) {
                    Err(e) => res == Err::<GenesisStep, _>(e) && is_genesis_on_top(
                        old(self)@,
                        final(self)@,
                        defaults@,
                        *genesis,
                        *constants,
                        encode,
                    ),
                    Ok(()) => (res matches Ok(GenesisStep::Finalize(run)) && is_genesis_on_top(
                        old(self)@,
                        run@,
                        defaults@,
                        *genesis,
                        *constants,
                        encode,
                    )) && final(self)@ == Seq::<Seq<OpView<usize>>>::empty(),
                },
            },
    {
        let ghost before = self@;
        match self.get(db_version) {
            Err(e) => {
                return Err(e);
            },
            Ok(Some(version)) => {
                return Ok(GenesisStep::AlreadyInited(version));
            },
            Ok(None) => {},
        }
        let (plan, outcome) = StateDB::apply_genesis_config(genesis, constants);
        let entries = encode_all(&plan, encode);
        let _ = self.new_layer();
        self.put_entries(defaults);
        self.put_entries(&entries);
        proof {
            let first = entry_writes(defaults@);
            let second = entry_writes(entries@);
            assert(Seq::<OpView<usize>>::empty() + first + second =~= first + second);
            assert(self@ =~= before.push(first + second));
            assert(self@.drop_last() =~= before);
            assert(is_encoding(encode, plan@, entries@));
            assert(is_genesis_layer(self@.last(), defaults@, *genesis, *constants, encode));
        }
        match outcome {
            Err(e) => Err(e),
            Ok(()) => Ok(GenesisStep::Finalize(self.finalize_layers())),
        }
    }
}

/// A first state is made exactly if the addresses of all witnesses and accounts parse and
/// the configuration makes a block.
pub proof fn law_genesis_succeeds(genesis: GenesisConfig)
    ensures
        genesis_outcome(genesis) is Ok <==> {
            &&& forall|i: int|
                0 <= i < genesis.witnesses@.len() ==> (
                #[trigger] genesis.witnesses@[i]).address is Ok
            &&& forall|i: int|
                0 <= i < genesis.allocs@.len() ==> (#[trigger] genesis.allocs@[i]).address is Ok
            &&& genesis.block is Ok
        },
{
    let ws = witness_addresses(genesis);
    let aa = alloc_addresses(genesis);
    lemma_parsed_prefix(ws);
    lemma_parsed_prefix(aa);
    assert forall|i: int| 0 <= i < ws.len() implies ws[i]
        == (#[trigger] genesis.witnesses@[i]).address by {}
    assert forall|i: int| 0 <= i < aa.len() implies aa[i]
        == (#[trigger] genesis.allocs@[i]).address by {}
    let w = parsed_len(ws) as int;
    let a = parsed_len(aa) as int;
    if w < ws.len() {
        assert(genesis.witnesses@[w].address is Err);
    }
    if a < aa.len() {
        assert(genesis.allocs@[a].address is Err);
    }
}

proof fn lemma_parsed_prefix(addresses: Seq<Result<Address, String>>)
    ensures
        parsed_len(addresses) <= addresses.len(),
        forall|i: int| 0 <= i < parsed_len(addresses) ==> (#[trigger] addresses[i]) is Ok,
        parsed_len(addresses) < addresses.len() ==> addresses[parsed_len(addresses) as int] is Err,
    decreases addresses.len(),
{
    if addresses.len() > 0 {
        lemma_parsed_prefix(addresses.drop_last());
        assert forall|i: int| 0 <= i < parsed_len(addresses) implies (
        #[trigger] addresses[i]) is Ok by {
            if i < addresses.len() - 1 {
                assert(addresses.drop_last()[i] is Ok);
            }
        }
    }
}

pub proof fn lemma_witness_entries(genesis: GenesisConfig, constants: ChainConstants, n: nat, i: int)
    requires
        0 <= i < n <= genesis.witnesses@.len(),
    ensures
        witness_entries(genesis, constants, n).len() == 2 * n,
        witness_entries(genesis, constants, n)[2 * i] == witness_entry(genesis, constants, i),
        witness_entries(genesis, constants, n)[2 * i + 1] == account_of_witness(genesis, i),
    decreases n,
{
    lemma_witness_entries_len(genesis, constants, (n - 1) as nat);
    if i < n - 1 {
        lemma_witness_entries(genesis, constants, (n - 1) as nat, i);
    }
}

pub proof fn lemma_witness_entries_len(genesis: GenesisConfig, constants: ChainConstants, n: nat)
    ensures
        witness_entries(genesis, constants, n).len() == 2 * n,
    decreases n,
{
    if n > 0 {
        lemma_witness_entries_len(genesis, constants, (n - 1) as nat);
    }
}

pub proof fn lemma_alloc_entries(genesis: GenesisConfig, n: nat, i: int)
    requires
        0 <= i < n <= genesis.allocs@.len(),
    ensures
        alloc_entries(genesis, n)[2 * i] == account_of_alloc(genesis, i),
        alloc_entries(genesis, n)[2 * i + 1] == index_of_alloc(genesis, i),
    decreases n,
{
    lemma_alloc_entries_len(genesis, (n - 1) as nat);
    if i < n - 1 {
        lemma_alloc_entries(genesis, (n - 1) as nat, i);
    }
}

pub proof fn lemma_alloc_entries_len(genesis: GenesisConfig, n: nat)
    ensures
        alloc_entries(genesis, n).len() == 2 * n,
    decreases n,
{
    if n > 0 {
        lemma_alloc_entries_len(genesis, (n - 1) as nat);
    }
}

/// A first state that is made holds two entries for every witness, then two for every
/// account, then five on the first block and the slots; nothing else.
pub proof fn law_genesis_is_complete(genesis: GenesisConfig, constants: ChainConstants)
    requires
        genesis_outcome(genesis) is Ok,
    ensures
        ({
            let entries = genesis_entries(genesis, constants);
            let w = 2 * genesis.witnesses@.len();
            let a = 2 * genesis.allocs@.len();
            &&& entries.len() == w + a + 5
            &&& forall|i: int|
                0 <= i < genesis.witnesses@.len() ==> {
                    &&& entries[2 * i] == #[trigger] witness_entry(genesis, constants, i)
                    &&& entries[2 * i + 1] == account_of_witness(genesis, i)
                }
            &&& forall|i: int|
                0 <= i < genesis.allocs@.len() ==> {
                    &&& entries[w + 2 * i] == #[trigger] account_of_alloc(genesis, i)
                    &&& entries[w + 2 * i + 1] == index_of_alloc(genesis, i)
                }
            &&& entries.skip((w + a) as int) == block_entries(genesis.block->Ok_0, constants)
        }),
{
    lemma_parsed_prefix(witness_addresses(genesis));
    lemma_parsed_prefix(alloc_addresses(genesis));
    let nw = genesis.witnesses@.len();
    let na = genesis.allocs@.len();
    lemma_witness_entries_len(genesis, constants, nw);
    lemma_alloc_entries_len(genesis, na);
    let witnesses = witness_entries(genesis, constants, nw);
    let accounts = alloc_entries(genesis, na);
    let entries = genesis_entries(genesis, constants);
    assert(entries == witnesses + accounts + block_entries(genesis.block->Ok_0, constants));
    assert forall|i: int| 0 <= i < nw implies {
        &&& entries[2 * i] == #[trigger] witness_entry(genesis, constants, i)
        &&& entries[2 * i + 1] == account_of_witness(genesis, i)
    } by {
        lemma_witness_entries(genesis, constants, nw, i);
    }
    assert forall|i: int| 0 <= i < na implies {
        &&& entries[2 * nw + 2 * i] == #[trigger] account_of_alloc(genesis, i)
        &&& entries[2 * nw + 2 * i + 1] == index_of_alloc(genesis, i)
    } by {
        lemma_alloc_entries(genesis, na, i);
    }
    assert(entries.skip((2 * nw + 2 * na) as int) =~= block_entries(
        genesis.block->Ok_0,
        constants,
    ));
}

/// The entry stores the account of this address.
pub open spec fn is_account_at(entry: EntryView, address: Seq<u8>) -> bool {
    entry matches EntryView::Account { key, .. } && key == address
}

/// What an entry of a first state is, by its place.
proof fn lemma_entry_at(genesis: GenesisConfig, constants: ChainConstants, j: int)
    requires
        genesis_outcome(genesis) is Ok,
        0 <= j < genesis_entries(genesis, constants).len(),
    ensures
        ({
            let entry = genesis_entries(genesis, constants)[j];
            let w = 2 * genesis.witnesses@.len();
            let a = 2 * genesis.allocs@.len();
            if j < w {
                if j % 2 == 0 {
                    entry == witness_entry(genesis, constants, j / 2)
                } else {
                    entry == account_of_witness(genesis, j / 2)
                }
            } else if j < w + a {
                if j % 2 == 0 {
                    entry == account_of_alloc(genesis, (j - w) / 2)
                } else {
                    entry == index_of_alloc(genesis, (j - w) / 2)
                }
            } else {
                !(entry is Account)
            }
        }),
{
    law_genesis_is_complete(genesis, constants);
    let entries = genesis_entries(genesis, constants);
    let w = 2 * genesis.witnesses@.len() as int;
    let a = 2 * genesis.allocs@.len() as int;
    if j < w {
        let e = witness_entry(genesis, constants, j / 2);
        assert(entries[2 * (j / 2)] == e);
    } else if j < w + a {
        let e = account_of_alloc(genesis, (j - w) / 2);
        assert(entries[w + 2 * ((j - w) / 2)] == e);
    } else {
        assert(entries.skip(w + a)[j - w - a] == entries[j]);
    }
}

/// Every witness gets an account of its own: without name or balance, made at the time of
/// the configuration, of the normal type, with an empty resource record. If no account of the
/// configuration has its address, no other account is stored there.
pub proof fn law_witness_has_an_account(
    genesis: GenesisConfig,
    constants: ChainConstants,
    i: int,
)
    requires
        genesis_outcome(genesis) is Ok,
        0 <= i < genesis.witnesses@.len(),
        forall|k: int|
            0 <= k < genesis.allocs@.len() ==> (
            #[trigger] genesis.allocs@[k]).address->Ok_0.bytes@
                != genesis.witnesses@[i].address->Ok_0.bytes@,
    ensures
        ({
            let entries = genesis_entries(genesis, constants);
            let address = genesis.witnesses@[i].address->Ok_0.bytes@;
            &&& entries.contains(account_of_witness(genesis, i))
            &&& is_account_at(account_of_witness(genesis, i), address)
            &&& forall|j: int|
                0 <= j < entries.len() && is_account_at(#[trigger] entries[j], address)
                    ==> entries[j] == account_of_witness(genesis, i)
        }),
{
    law_genesis_is_complete(genesis, constants);
    let entries = genesis_entries(genesis, constants);
    let address = genesis.witnesses@[i].address->Ok_0.bytes@;
    let own = witness_entry(genesis, constants, i);
    assert(entries[2 * i + 1] == account_of_witness(genesis, i));
    assert forall|j: int|
        0 <= j < entries.len() && is_account_at(#[trigger] entries[j], address) implies entries[j]
        == account_of_witness(genesis, i) by {
        lemma_entry_at(genesis, constants, j);
        let w = 2 * genesis.witnesses@.len() as int;
        if j >= w && j < w + 2 * genesis.allocs@.len() && j % 2 == 0 {
            let alloc = genesis.allocs@[(j - w) / 2];
            assert(alloc.address->Ok_0.bytes@ != address);
        }
    }
}

/// An account of the configuration is stored with its name and balance, made at the time of
/// the configuration, of the normal type, with an empty resource record. It comes after that
/// of a witness with the same address, and if no later account of the configuration has its
/// address, no other account is stored there afterwards.
pub proof fn law_alloc_account_comes_last(
    genesis: GenesisConfig,
    constants: ChainConstants,
    k: int,
)
    requires
        genesis_outcome(genesis) is Ok,
        0 <= k < genesis.allocs@.len(),
        forall|l: int|
            k < l < genesis.allocs@.len() ==> (
            #[trigger] genesis.allocs@[l]).address->Ok_0.bytes@
                != genesis.allocs@[k].address->Ok_0.bytes@,
    ensures
        ({
            let entries = genesis_entries(genesis, constants);
            let address = genesis.allocs@[k].address->Ok_0.bytes@;
            let at = 2 * genesis.witnesses@.len() + 2 * k;
            &&& 0 <= at < entries.len()
            &&& entries[at] == account_of_alloc(genesis, k)
            &&& is_account_at(entries[at], address)
            &&& forall|j: int| at < j < entries.len() ==> !is_account_at(#[trigger] entries[j], address)
        }),
{
    law_genesis_is_complete(genesis, constants);
    let entries = genesis_entries(genesis, constants);
    let address = genesis.allocs@[k].address->Ok_0.bytes@;
    let w = 2 * genesis.witnesses@.len() as int;
    let at = w + 2 * k;
    let own = account_of_alloc(genesis, k);
    assert(entries[at] == own);
    assert forall|j: int| at < j < entries.len() implies !is_account_at(
        #[trigger] entries[j],
        address,
    ) by {
        lemma_entry_at(genesis, constants, j);
        if j < w + 2 * genesis.allocs@.len() && j % 2 == 0 {
            let alloc = genesis.allocs@[(j - w) / 2];
            assert(alloc.address->Ok_0.bytes@ != address);
        }
    }
}

} // verus!

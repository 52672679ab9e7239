//! What the genesis configuration makes of a state database, field by field.

use crate::batch::OpView;
use crate::genesis::{
    alloc_addresses, block_entries, entry_views, entry_writes, genesis_entries, genesis_outcome,
    is_encoding, lemma_alloc_entries, lemma_alloc_entries_len, lemma_parsed_len,
    lemma_witness_entries, lemma_witness_entries_len, witness_addresses, AccountResource,
    AccountType, ChainConstants, DynamicProperty, EncodedEntry, GenesisBlock, GenesisConfig,
    GenesisEntry, GenesisStep, GenesisWitness,
};
use crate::state_db::StateDB;
use crate::state_error::StateError;
use vstd::prelude::*;

verus! {

/// The first `w` witnesses have addresses that parse, and the next, if there is one, has not.
pub open spec fn witnesses_parse(genesis: GenesisConfig, w: int) -> bool {
    &&& 0 <= w <= genesis.witnesses@.len()
    &&& forall|i: int| 0 <= i < w ==> (#[trigger] genesis.witnesses@[i]).address is Ok
    &&& w < genesis.witnesses@.len() ==> genesis.witnesses@[w].address is Err
}

/// The first `a` accounts have addresses that parse, and the next, if there is one, has not.
pub open spec fn allocs_parse(genesis: GenesisConfig, a: int) -> bool {
    &&& 0 <= a <= genesis.allocs@.len()
    &&& forall|i: int| 0 <= i < a ==> (#[trigger] genesis.allocs@[i]).address is Ok
    &&& a < genesis.allocs@.len() ==> genesis.allocs@[a].address is Err
}

/// The entry stores a witness under its address: with its address, url and votes as they are
/// configured, the default brokerage rate, and active.
pub open spec fn is_witness(
    entry: GenesisEntry,
    witness: GenesisWitness,
    constants: ChainConstants,
) -> bool {
    match (entry, witness.address) {
        (GenesisEntry::Witness(key, stored), Ok(address)) => {
            &&& key.bytes@ == address.bytes@
            &&& stored.address@ == address.bytes@
            &&& stored.url@ == witness.url@
            &&& stored.vote_count == witness.votes
            &&& stored.brokerage == constants.default_brokerage_rate
            &&& stored.is_active
        },
        _ => false,
    }
}

/// The entry stores an account under this address, with this name and balance, made at this
/// time, of the normal type and with an empty resource record.
pub open spec fn is_account(
    entry: GenesisEntry,
    address: Seq<u8>,
    name: Seq<char>,
    balance: int,
    time: i64,
) -> bool {
    match entry {
        GenesisEntry::Account(key, stored) => {
            &&& key.bytes@ == address
            &&& stored.name@ == name
            &&& stored.balance == balance
            &&& stored.creation_time == time
            &&& stored.account_type == AccountType::Normal
            &&& stored.resource == Some(AccountResource::Default)
        },
        _ => false,
    }
}

/// The entry stores the address of an account under its name.
pub open spec fn is_index(entry: GenesisEntry, name: Seq<char>, address: Seq<u8>) -> bool {
    match entry {
        GenesisEntry::AccountIndex(key, stored) => key@ == name && stored.bytes@ == address,
        _ => false,
    }
}

/// The five entries from `at` on say which block is the latest, that its number is 0 and is
/// solid, when it was made, and that all slots are filled.
pub open spec fn is_first_block(
    entries: Seq<GenesisEntry>,
    at: int,
    block: GenesisBlock,
    constants: ChainConstants,
) -> bool {
    &&& match entries[at] {
        GenesisEntry::LatestBlockHash(hash) => hash@ == block.hash@,
        _ => false,
    }
    &&& entries[at + 1] == GenesisEntry::Property(DynamicProperty::LatestBlockNumber, 0)
    &&& entries[at + 2] == GenesisEntry::Property(
        DynamicProperty::LatestBlockTimestamp,
        block.timestamp,
    )
    &&& entries[at + 3] == GenesisEntry::Property(DynamicProperty::LatestSolidBlockNumber, 0)
    &&& match entries[at + 4] {
        GenesisEntry::BlockFilledSlots(slots) => slots@.len()
            == constants.num_of_block_filled_slots && forall|i: int|
            0 <= i < slots@.len() ==> #[trigger] slots@[i] == 1,
        _ => false,
    }
}

/// The entries that a configuration makes, against the configuration itself. The first `w`
/// witnesses make two each. If these are all, the first `a` accounts make two each, and if
/// these are all too, the block makes five. Nothing else is made, and the first witness or
/// account that does not parse, or the block that cannot be made, is the error.
pub proof fn law_configuration_makes_its_entries(
    genesis: GenesisConfig,
    constants: ChainConstants,
    plan: (Vec<GenesisEntry>, Result<(), StateError>),
    w: int,
    a: int,
)
    requires
        call_ensures(StateDB::apply_genesis_config, (&genesis, &constants), plan),
        witnesses_parse(genesis, w),
        allocs_parse(genesis, a),
    ensures
        ({
            let entries = plan.0@;
            let all_w = w == genesis.witnesses@.len();
            let all_a = a == genesis.allocs@.len();
            &&& entries.len() == 2 * w + (if all_w {
                2 * a + (if all_a && genesis.block is Ok {
                    5int
                } else {
                    0
                })
            } else {
                0
            })
            &&& forall|i: int|
                0 <= i < w ==> is_witness(
                    entries[2 * i],
                    #[trigger] genesis.witnesses@[i],
                    constants,
                ) && is_account(
                    entries[2 * i + 1],
                    genesis.witnesses@[i].address->Ok_0.bytes@,
                    Seq::empty(),
                    0,
                    genesis.timestamp,
                )
            &&& all_w ==> forall|i: int|
                0 <= i < a ==> is_account(
                    entries[2 * w + 2 * i],
                    (#[trigger] genesis.allocs@[i]).address->Ok_0.bytes@,
                    genesis.allocs@[i].name@,
                    genesis.allocs@[i].balance as int,
                    genesis.timestamp,
                ) && is_index(
                    entries[2 * w + 2 * i + 1],
                    genesis.allocs@[i].name@,
                    genesis.allocs@[i].address->Ok_0.bytes@,
                )
            &&& all_w && all_a && genesis.block is Ok ==> is_first_block(
                entries,
                2 * w + 2 * a,
                genesis.block->Ok_0,
                constants,
            )
            &&& plan.1 == if !all_w {
                Err::<(), _>(StateError::Address(genesis.witnesses@[w].address->Err_0))
            } else if !all_a {
                Err(StateError::Address(genesis.allocs@[a].address->Err_0))
            } else {
                match genesis.block {
                    Ok(_) => Ok(()),
                    Err(e) => Err(StateError::GenesisBlock(e)),
                }
            }
        }),
{
    let entries = plan.0@;
    let views = entry_views(entries);
    let nw = genesis.witnesses@.len();
    let na = genesis.allocs@.len();
    let ws = witness_addresses(genesis);
    let aa = alloc_addresses(genesis);
    assert forall|i: int| 0 <= i < w implies (#[trigger] ws[i]) is Ok by {
        assert(genesis.witnesses@[i].address is Ok);
    }
    assert forall|i: int| 0 <= i < a implies (#[trigger] aa[i]) is Ok by {
        assert(genesis.allocs@[i].address is Ok);
    }
    lemma_parsed_len(ws, w);
    lemma_parsed_len(aa, a);
    lemma_witness_entries_len(genesis, constants, w as nat);
    lemma_alloc_entries_len(genesis, a as nat);
    assert(views == genesis_entries(genesis, constants));
    assert(views.len() == entries.len());
    assert forall|i: int| 0 <= i < w implies is_witness(
        entries[2 * i],
        #[trigger] genesis.witnesses@[i],
        constants,
    ) && is_account(
        entries[2 * i + 1],
        genesis.witnesses@[i].address->Ok_0.bytes@,
        Seq::empty(),
        0,
        genesis.timestamp,
    ) by {
        lemma_witness_entries(genesis, constants, w as nat, i);
        assert(views[2 * i] == entries[2 * i]@);
        assert(views[2 * i + 1] == entries[2 * i + 1]@);
        assert(genesis.witnesses@[i].address is Ok);
    }
    if w == nw {
        assert forall|i: int| 0 <= i < a implies is_account(
            entries[2 * w + 2 * i],
            (#[trigger] genesis.allocs@[i]).address->Ok_0.bytes@,
            genesis.allocs@[i].name@,
            genesis.allocs@[i].balance as int,
            genesis.timestamp,
        ) && is_index(
            entries[2 * w + 2 * i + 1],
            genesis.allocs@[i].name@,
            genesis.allocs@[i].address->Ok_0.bytes@,
        ) by {
            lemma_alloc_entries(genesis, a as nat, i);
            assert(views[2 * w + 2 * i] == entries[2 * w + 2 * i]@);
            assert(views[2 * w + 2 * i + 1] == entries[2 * w + 2 * i + 1]@);
        }
        if a == na && genesis.block is Ok {
            let at = 2 * w + 2 * a;
            let tail = block_entries(genesis.block->Ok_0, constants);
            assert(views[at] == tail[0] && views[at] == entries[at]@);
            assert(views[at + 1] == tail[1] && views[at + 1] == entries[at + 1]@);
            assert(views[at + 2] == tail[2] && views[at + 2] == entries[at + 2]@);
            assert(views[at + 3] == tail[3] && views[at + 3] == entries[at + 3]@);
            assert(views[at + 4] == tail[4] && views[at + 4] == entries[at + 4]@);
        }
    }
}

/// The same of the entries as the contract of the initialisation speaks of them: each is the
/// image of what [`law_configuration_makes_its_entries`] describes.
pub proof fn law_entries_are_imaged(
    genesis: GenesisConfig,
    constants: ChainConstants,
    plan: (Vec<GenesisEntry>, Result<(), StateError>),
)
    requires
        call_ensures(StateDB::apply_genesis_config, (&genesis, &constants), plan),
    ensures
        genesis_entries(genesis, constants).len() == plan.0@.len(),
        genesis_outcome(genesis) == plan.1,
        forall|i: int|
            0 <= i < plan.0@.len() ==> genesis_entries(genesis, constants)[i] == (
            #[trigger] plan.0@[i])@,
{
    let views = entry_views(plan.0@);
    assert(views.len() == plan.0@.len());
    assert forall|i: int| 0 <= i < plan.0@.len() implies genesis_entries(genesis, constants)[i] == (
    #[trigger] plan.0@[i])@ by {
        assert(views[i] == plan.0@[i]@);
    }
}

/// The image of an entry holds all of its fields: entries with the same image store the same
/// under the same key.
pub proof fn law_images_tell_entries_apart(a: GenesisEntry, b: GenesisEntry)
    requires
        a@ == b@,
    ensures
        match (a, b) {
            (GenesisEntry::Witness(ka, va), GenesisEntry::Witness(kb, vb)) => ka.bytes@ == kb.bytes@
                && va.address@ == vb.address@ && va.url@ == vb.url@ && va.vote_count
                == vb.vote_count && va.brokerage == vb.brokerage && va.is_active == vb.is_active,
            (GenesisEntry::Account(ka, va), GenesisEntry::Account(kb, vb)) => ka.bytes@ == kb.bytes@
                && va.name@ == vb.name@ && va.balance == vb.balance && va.creation_time
                == vb.creation_time && va.account_type == vb.account_type && va.resource
                == vb.resource,
            (GenesisEntry::AccountIndex(ka, va), GenesisEntry::AccountIndex(kb, vb)) => ka@ == kb@
                && va.bytes@ == vb.bytes@,
            (GenesisEntry::LatestBlockHash(va), GenesisEntry::LatestBlockHash(vb)) => va@ == vb@,
            (GenesisEntry::Property(ka, va), GenesisEntry::Property(kb, vb)) => ka == kb && va
                == vb,
            (GenesisEntry::BlockFilledSlots(va), GenesisEntry::BlockFilledSlots(vb)) => va@ == vb@,
            _ => false,
        },
{
}

/// What is made of a database, by what the read of its version answered: one that has a
/// version, or cannot be read, is left as it is; of an empty one all waiting layers and the
/// first contents are to be written, and if making them fails, they stay behind on top.
pub proof fn law_initialisation_ends<F: Fn(&GenesisEntry) -> EncodedEntry>(
    db: &mut StateDB,
    db_version: Result<Option<i64>, String>,
    defaults: Vec<EncodedEntry>,
    genesis: GenesisConfig,
    constants: ChainConstants,
    encode: F,
    plan: (Vec<GenesisEntry>, Result<(), StateError>),
    res: Result<GenesisStep, StateError>,
)
    requires
        call_ensures(StateDB::apply_genesis_config, (&genesis, &constants), plan),
        call_ensures(
            StateDB::init_genesis::<F>,
            (db, db_version, &defaults, &genesis, &constants, encode),
            res,
        ),
    ensures
        match db_version {
            Err(e) => res == Err::<GenesisStep, _>(StateError::Read(e)) && final(db)@ == old(db)@,
            Ok(Some(version)) => res == Ok::<_, StateError>(GenesisStep::AlreadyInited(version))
                && final(db)@ == old(db)@,
            Ok(None) => match plan.1 {
                Err(e) => res == Err::<GenesisStep, _>(e) && is_made(
                    old(db)@,
                    final(db)@,
                    defaults@,
                    plan.0@,
                    encode,
                ),
                Ok(()) => (res matches Ok(GenesisStep::Finalize(run)) && is_made(
                    old(db)@,
                    run@,
                    defaults@,
                    plan.0@,
                    encode,
                )) && final(db)@.len() == 0,
            },
        },
{
    if db_version is Ok && db_version->Ok_0 is None {
        law_entries_are_imaged(genesis, constants, plan);
        let layers = match plan.1 {
            Err(_) => final(db)@,
            Ok(()) => res->Ok_0->Finalize_0@,
        };
        let (made, entries) = choose|made: Seq<GenesisEntry>, entries: Seq<EncodedEntry>| #[trigger]
            is_encoding(encode, made, entries) && entry_views(made) == genesis_entries(
                genesis,
                constants,
            ) && layers.last() == entry_writes(defaults@) + entry_writes(entries);
        assert(entry_views(made).len() == made.len());
        assert forall|i: int| 0 <= i < defaults@.len() implies layers.last()[i] == put_of(
            #[trigger] defaults@[i],
        ) by {
            assert(entry_writes(defaults@)[i] == put_of(defaults@[i]));
        }
        let n = defaults@.len() as int;
        assert forall|i: int| 0 <= i < plan.0@.len() implies #[trigger] is_put_of_entry(
            layers.last()[n + i],
            plan.0@[i],
            encode,
        ) by {
            assert(entry_views(made)[i] == made[i]@);
            assert(call_ensures(encode, (&made[i],), entries[i]));
            assert(entry_writes(entries)[i] == put_of(entries[i]));
            assert(layers.last()[n + i] == put_of(entries[i]));
            assert(made[i]@ == plan.0@[i]@);
        }
    }
}

/// The write of an encoded entry.
pub open spec fn put_of(entry: EncodedEntry) -> OpView<usize> {
    OpView::Put { column: entry.column, key: entry.key@, value: entry.value@ }
}

/// The write is that of what `encode` makes of an entry with this image.
pub open spec fn is_put_of_entry<F: Fn(&GenesisEntry) -> EncodedEntry>(
    op: OpView<usize>,
    entry: GenesisEntry,
    encode: F,
) -> bool {
    exists|same: GenesisEntry, encoded: EncodedEntry|
        same@ == entry@ && #[trigger] call_ensures(encode, (&same,), encoded) && op == put_of(
            encoded,
        )
}

/// The layers are those that were there and one more, which writes the defaults and then each
/// of the entries as it is encoded, and nothing else.
pub open spec fn is_made<F: Fn(&GenesisEntry) -> EncodedEntry>(
    before: Seq<Seq<OpView<usize>>>,
    after: Seq<Seq<OpView<usize>>>,
    defaults: Seq<EncodedEntry>,
    entries: Seq<GenesisEntry>,
    encode: F,
) -> bool {
    &&& after.len() == before.len() + 1
    &&& forall|i: int| 0 <= i < before.len() ==> after[i] == #[trigger] before[i]
    &&& after.last().len() == defaults.len() + entries.len()
    &&& forall|i: int|
        0 <= i < defaults.len() ==> after.last()[i] == put_of(#[trigger] defaults[i])
    &&& forall|i: int|
        0 <= i < entries.len() ==> #[trigger] is_put_of_entry(
            after.last()[defaults.len() + i],
            entries[i],
            encode,
        )
}

} // verus!

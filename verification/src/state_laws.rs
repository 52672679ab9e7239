//! What holds of the state database as a whole: how the layers reach the store.

use crate::answers::{decoded, is_answer, is_scan, law_prefix_scan_is_exact, row_keys, verbatim};
use crate::batch::{apply_ops, lemma_apply_concat, lemma_apply_push, OpView};
use crate::codec::{has_prefix, lemma_prefix_not_before};
use crate::genesis::{
    entry_views, entry_writes, genesis_entries, is_encoding, is_genesis_on_top, ChainConstants,
    EncodedEntry, EntryView, GenesisConfig, GenesisEntry,
};
use crate::overlay::{row_deletions, with_writes};
use crate::store::{taken, BoundView, Fetched, Row, Store};
use vstd::prelude::*;

verus! {

/// The contents of a state database.
pub type StateStore = Store<usize>;

/// The writes that wait above the store, the oldest layer first.
pub type Layers = Seq<Seq<OpView<usize>>>;

/// The store after the layers have been written to it, from the oldest on.
pub open spec fn flushed(store: StateStore, layers: Layers) -> StateStore
    decreases layers.len(),
{
    if layers.len() == 0 {
        store
    } else {
        apply_ops(flushed(store, layers.drop_last()), layers.last())
    }
}

/// Layers that are discarded leave the store as it was.
pub proof fn law_discarded_layers_leave_no_trace(store: StateStore)
    ensures
        flushed(store, Layers::empty()) == store,
{
}

/// A new layer that is discarded again, with all its writes, leaves the layers below it as
/// they were.
pub proof fn law_discarding_undoes_a_layer(
    store: StateStore,
    layers: Layers,
    layer: Seq<OpView<usize>>,
)
    ensures
        layers.push(layer).drop_last() == layers,
        flushed(store, layers.push(layer).drop_last()) == flushed(store, layers),
{
    assert(layers.push(layer).drop_last() =~= layers);
}

/// A new layer without writes changes nothing of what reaches the store.
pub proof fn law_empty_layer_is_neutral(store: StateStore, layers: Layers)
    ensures
        flushed(store, layers.push(Seq::empty())) == flushed(store, layers),
{
    assert(layers.push(Seq::empty()).drop_last() =~= layers);
}

/// Writing the oldest layer now and the others later comes to the same as writing all of
/// them later.
pub proof fn law_oldest_layer_may_go_first(store: StateStore, layers: Layers)
    requires
        layers.len() > 0,
    ensures
        flushed(apply_ops(store, layers[0]), layers.skip(1)) == flushed(store, layers),
    decreases layers.len(),
{
    let rest = layers.skip(1);
    if rest.len() == 0 {
        assert(layers.last() == layers[0]);
        assert(flushed(store, layers.drop_last()) == store);
    } else {
        let shorter = layers.drop_last();
        law_oldest_layer_may_go_first(store, shorter);
        assert(shorter.skip(1) =~= rest.drop_last());
        assert(shorter[0] == layers[0]);
    }
}

/// When a run over all layers has written the first `n` of them, the layer that it hands out
/// next is the one that belongs on top of what the store then holds; after the last one the
/// store holds what all layers come to. A run that ends at a failed write leaves what the
/// layers before it come to.
pub proof fn law_finalization_goes_layer_by_layer(store: StateStore, layers: Layers, n: int)
    requires
        0 <= n <= layers.len(),
    ensures
        n == 0 ==> flushed(store, layers.take(n)) == store && layers.skip(n) == layers,
        n < layers.len() ==> {
            &&& layers.skip(n).len() > 0
            &&& apply_ops(flushed(store, layers.take(n)), layers.skip(n)[0]) == flushed(
                store,
                layers.take(n + 1),
            )
            &&& layers.skip(n).skip(1) == layers.skip(n + 1)
        },
        n == layers.len() ==> {
            &&& layers.skip(n).len() == 0
            &&& flushed(store, layers.take(n)) == flushed(store, layers)
        },
{
    if n < layers.len() {
        assert(layers.take(n + 1).drop_last() =~= layers.take(n));
        assert(layers.skip(n).skip(1) =~= layers.skip(n + 1));
    } else {
        assert(layers.take(n) =~= layers);
    }
    if n == 0 {
        assert(layers.skip(n) =~= layers);
    }
}

/// Writes that are added to the newest layer come last of all when the layers are written.
pub proof fn law_added_writes_come_last(
    store: StateStore,
    layers: Layers,
    ops: Seq<OpView<usize>>,
)
    requires
        layers.len() > 0,
    ensures
        flushed(store, with_writes(layers, ops)) == apply_ops(flushed(store, layers), ops),
{
    let after = with_writes(layers, ops);
    assert(after.drop_last() =~= layers.drop_last());
    assert(after.last() == layers.last() + ops);
    lemma_apply_concat(flushed(store, layers.drop_last()), layers.last(), ops);
}

/// A value that is put is read back once the layers have been written, and nothing else has
/// changed; what was put before under that key is gone.
pub proof fn law_put_is_read_back(
    store: StateStore,
    layers: Layers,
    col: usize,
    key: Seq<u8>,
    value: Seq<u8>,
)
    requires
        layers.len() > 0,
    ensures
        flushed(store, with_writes(layers, seq![OpView::Put { column: col, key, value }]))
            == flushed(store, layers).insert((col, key), value),
        forall|stored: Fetched<Vec<u8>>| #[trigger]
            is_answer(
                stored,
                flushed(store, with_writes(layers, seq![OpView::Put { column: col, key, value }])),
                col,
                key,
                verbatim(),
            ) ==> (stored matches Ok(Some(bytes)) && bytes@ == value),
{
    let op = OpView::Put { column: col, key, value };
    law_added_writes_come_last(store, layers, seq![op]);
    let before = flushed(store, layers);
    lemma_apply_push(before, Seq::empty(), op);
    assert(Seq::empty().push(op) =~= seq![op]);
}

/// A number that was increased is read back as the increased number once the layers have
/// been written, if its bytes decode to it.
pub proof fn law_increment_is_read_back(
    store: StateStore,
    layers: Layers,
    col: usize,
    key: Seq<u8>,
    increased: i64,
    encoded: Seq<u8>,
    decode: spec_fn(Seq<u8>) -> i64,
    stored: Fetched<i64>,
)
    requires
        layers.len() > 0,
        decode(encoded) == increased,
        is_answer(
            stored,
            flushed(
                store,
                with_writes(layers, seq![OpView::Put { column: col, key, value: encoded }]),
            ),
            col,
            key,
            decoded(decode),
        ),
    ensures
        stored == Ok::<_, String>(Some(increased)),
{
    law_put_is_read_back(store, layers, col, key, encoded);
}

/// A key that is deleted is not found once the layers have been written, and nothing else
/// has changed.
pub proof fn law_deleted_key_is_gone(store: StateStore, layers: Layers, col: usize, key: Seq<u8>)
    requires
        layers.len() > 0,
    ensures
        flushed(store, with_writes(layers, seq![OpView::Delete { column: col, key }])) == flushed(
            store,
            layers,
        ).remove((col, key)),
        forall|stored: Fetched<Vec<u8>>| #[trigger]
            is_answer(
                stored,
                flushed(store, with_writes(layers, seq![OpView::Delete { column: col, key }])),
                col,
                key,
                verbatim(),
            ) ==> (stored matches Ok(None)),
{
    let op = OpView::Delete { column: col, key };
    law_added_writes_come_last(store, layers, seq![op]);
    let before = flushed(store, layers);
    lemma_apply_push(before, Seq::empty(), op);
    assert(Seq::empty().push(op) =~= seq![op]);
}

/// What the deletions of these rows leave of a store.
proof fn lemma_row_deletions<V>(
    store: StateStore,
    col: usize,
    rows: Seq<Row<V>>,
    c: usize,
    key: Seq<u8>,
)
    ensures
        ({
            let after = apply_ops(store, row_deletions(col, rows));
            if c == col && row_keys(rows).contains(key) {
                !after.contains_key((c, key))
            } else {
                &&& after.contains_key((c, key)) == store.contains_key((c, key))
                &&& after.contains_key((c, key)) ==> after[(c, key)] == store[(c, key)]
            }
        }),
    decreases rows.len(),
{
    if rows.len() > 0 {
        let fewer = rows.drop_last();
        lemma_row_deletions(store, col, fewer, c, key);
        assert(row_deletions(col, rows).drop_last() =~= row_deletions(col, fewer));
        let keys = row_keys(rows);
        assert(row_keys(fewer) =~= keys.drop_last());
        if keys.contains(key) && !row_keys(fewer).contains(key) {
            let i = choose|i: int| 0 <= i < keys.len() && keys[i] == key;
            if i < keys.len() - 1 {
                assert(row_keys(fewer)[i] == key);
            }
        }
        if row_keys(fewer).contains(key) {
            let i = choose|i: int| 0 <= i < fewer.len() && row_keys(fewer)[i] == key;
            assert(keys[i] == key);
        }
        if keys.last() == key {
            assert(keys[keys.len() - 1] == key);
        }
    }
}

/// A deletion by prefix, once the layers have been written, has removed every key with the
/// prefix that the store held when it was made, and nothing else. A key that only waited in
/// a layer then is not found by the scan and stays.
pub proof fn law_prefix_is_deleted<V>(
    store: StateStore,
    layers: Layers,
    col: usize,
    prefix: Seq<u8>,
    items: Seq<Option<Row<V>>>,
    reads: spec_fn(Seq<u8>, V) -> bool,
)
    requires
        layers.len() > 0,
        is_scan(items, store, col, prefix, reads),
    ensures
        ({
            let deletions = row_deletions(col, taken(items, BoundView::Prefix(prefix)));
            let before = flushed(store, layers);
            let after = flushed(store, with_writes(layers, deletions));
            forall|c: usize, key: Seq<u8>|
                #![trigger after.contains_key((c, key))]
                if c == col && has_prefix(key, prefix) && store.contains_key((col, key)) {
                    !after.contains_key((c, key))
                } else {
                    &&& after.contains_key((c, key)) == before.contains_key((c, key))
                    &&& after.contains_key((c, key)) ==> after[(c, key)] == before[(c, key)]
                }
        }),
{
    let rows = taken(items, BoundView::Prefix(prefix));
    let deletions = row_deletions(col, rows);
    let before = flushed(store, layers);
    let after = flushed(store, with_writes(layers, deletions));
    law_added_writes_come_last(store, layers, deletions);
    assert(prefix.take(prefix.len() as int) =~= prefix);
    law_prefix_scan_is_exact(items, store, col, prefix, prefix, reads);
    assert forall|c: usize, key: Seq<u8>|
        #![trigger after.contains_key((c, key))]
        if c == col && has_prefix(key, prefix) && store.contains_key((col, key)) {
            !after.contains_key((c, key))
        } else {
            &&& after.contains_key((c, key)) == before.contains_key((c, key))
            &&& after.contains_key((c, key)) ==> after[(c, key)] == before[(c, key)]
        } by {
        lemma_row_deletions(before, col, rows, c, key);
        let found = row_keys(rows).contains(key);
        if found {
            let i = choose|i: int| 0 <= i < rows.len() && row_keys(rows)[i] == key;
            assert(rows[i].key@ == key);
        }
        if has_prefix(key, prefix) && store.contains_key((col, key)) {
            lemma_prefix_not_before(prefix, key);
        }
    }
}

/// After a deletion by prefix into layers that held no writes, no key with the prefix is
/// left, and every other key is as it was.
pub proof fn law_prefix_is_emptied<V>(
    store: StateStore,
    col: usize,
    prefix: Seq<u8>,
    items: Seq<Option<Row<V>>>,
    reads: spec_fn(Seq<u8>, V) -> bool,
)
    requires
        is_scan(items, store, col, prefix, reads),
    ensures
        ({
            let deletions = row_deletions(col, taken(items, BoundView::Prefix(prefix)));
            let after = flushed(store, with_writes(seq![Seq::empty()], deletions));
            forall|c: usize, key: Seq<u8>|
                #![trigger after.contains_key((c, key))]
                if c == col && has_prefix(key, prefix) {
                    !after.contains_key((c, key))
                } else {
                    &&& after.contains_key((c, key)) == store.contains_key((c, key))
                    &&& after.contains_key((c, key)) ==> after[(c, key)] == store[(c, key)]
                }
        }),
{
    let layers: Layers = seq![Seq::empty()];
    assert(layers =~= Layers::empty().push(Seq::empty()));
    law_empty_layer_is_neutral(store, Layers::empty());
    law_prefix_is_deleted(store, layers, col, prefix, items, reads);
}

/// The last of the entries under its key.
pub open spec fn last_of_its_key(entries: Seq<EncodedEntry>, i: int) -> bool {
    forall|j: int|
        i < j < entries.len() ==> ((#[trigger] entries[j]).column, entries[j].key@) != (
            entries[i].column,
            entries[i].key@,
        )
}

proof fn lemma_entries_written(store: StateStore, entries: Seq<EncodedEntry>)
    ensures
        ({
            let after = apply_ops(store, entry_writes(entries));
            &&& forall|i: int|
                0 <= i < entries.len() && #[trigger] last_of_its_key(entries, i) ==> {
                    &&& after.contains_key((entries[i].column, entries[i].key@))
                    &&& after[(entries[i].column, entries[i].key@)] == entries[i].value@
                }
            &&& forall|c: usize, key: Seq<u8>|
                #![trigger after.contains_key((c, key))]
                (forall|j: int|
                    0 <= j < entries.len() ==> ((#[trigger] entries[j]).column, entries[j].key@)
                        != (c, key)) ==> {
                    &&& after.contains_key((c, key)) == store.contains_key((c, key))
                    &&& after.contains_key((c, key)) ==> after[(c, key)] == store[(c, key)]
                }
        }),
    decreases entries.len(),
{
    if entries.len() > 0 {
        let fewer = entries.drop_last();
        let last = entries.last();
        lemma_entries_written(store, fewer);
        assert(entry_writes(entries).drop_last() =~= entry_writes(fewer));
        let before = apply_ops(store, entry_writes(fewer));
        let after = apply_ops(store, entry_writes(entries));
        assert(after == before.insert((last.column, last.key@), last.value@));
        assert forall|i: int|
            0 <= i < entries.len() && #[trigger] last_of_its_key(entries, i) implies {
            &&& after.contains_key((entries[i].column, entries[i].key@))
            &&& after[(entries[i].column, entries[i].key@)] == entries[i].value@
        } by {
            if i < entries.len() - 1 {
                assert(fewer[i] == entries[i]);
                assert forall|j: int| i < j < fewer.len() implies (
                    (#[trigger] fewer[j]).column,
                    fewer[j].key@,
                ) != (fewer[i].column, fewer[i].key@) by {
                    assert(entries[j] == fewer[j]);
                }
                assert(last_of_its_key(fewer, i));
                assert((entries[entries.len() - 1].column, entries[entries.len() - 1].key@) != (
                    entries[i].column,
                    entries[i].key@,
                ));
            }
        }
        assert forall|c: usize, key: Seq<u8>|
            #![trigger after.contains_key((c, key))]
            (forall|j: int|
                0 <= j < entries.len() ==> ((#[trigger] entries[j]).column, entries[j].key@) != (
                    c,
                    key,
                )) implies {
            &&& after.contains_key((c, key)) == store.contains_key((c, key))
            &&& after.contains_key((c, key)) ==> after[(c, key)] == store[(c, key)]
        } by {
            assert(entries[entries.len() - 1] == last);
            assert forall|j: int| 0 <= j < fewer.len() implies (
                (#[trigger] fewer[j]).column,
                fewer[j].key@,
            ) != (c, key) by {
                assert(entries[j] == fewer[j]);
            }
            assert(before.contains_key((c, key)) == store.contains_key((c, key)));
        }
    }
}

/// Once the first contents of a database have been written, and before them the layers that
/// were waiting, each entry is read back unless a later one has its key, and every other key
/// is as the waiting layers leave it. So the database counts as initialised from then on if
/// one of the entries is its version.
pub proof fn law_genesis_is_read_back(
    store: StateStore,
    layers: Layers,
    defaults: Seq<EncodedEntry>,
    entries: Seq<EncodedEntry>,
)
    ensures
        ({
            let layer = entry_writes(defaults) + entry_writes(entries);
            let before = flushed(store, layers);
            let after = flushed(store, layers.push(layer));
            let all = defaults + entries;
            &&& forall|i: int|
                0 <= i < all.len() && #[trigger] last_of_its_key(all, i) ==> {
                    &&& after.contains_key((all[i].column, all[i].key@))
                    &&& after[(all[i].column, all[i].key@)] == all[i].value@
                }
            &&& forall|c: usize, key: Seq<u8>|
                #![trigger after.contains_key((c, key))]
                (forall|j: int|
                    0 <= j < all.len() ==> ((#[trigger] all[j]).column, all[j].key@) != (c, key))
                    ==> {
                    &&& after.contains_key((c, key)) == before.contains_key((c, key))
                    &&& after.contains_key((c, key)) ==> after[(c, key)] == before[(c, key)]
                }
        }),
{
    let layer = entry_writes(defaults) + entry_writes(entries);
    let all = defaults + entries;
    assert(layers.push(layer).drop_last() =~= layers);
    assert(entry_writes(all) =~= layer);
    lemma_entries_written(flushed(store, layers), all);
}

/// Where an entry goes and the bytes that are stored there.
pub type Encoding = spec_fn(EntryView) -> (usize, Seq<u8>, Seq<u8>);

/// `encode` makes of every entry what `encoding` says.
pub open spec fn encodes_as<F: Fn(&GenesisEntry) -> EncodedEntry>(
    encode: F,
    encoding: Encoding,
) -> bool {
    forall|entry: GenesisEntry, encoded: EncodedEntry| #[trigger]
        call_ensures(encode, (&entry,), encoded) ==> (
            encoded.column,
            encoded.key@,
            encoded.value@,
        ) == encoding(entry@)
}

/// The column and the key of an entry.
pub open spec fn place_of_entry(encoding: Encoding, entry: EntryView) -> (usize, Seq<u8>) {
    (encoding(entry).0, encoding(entry).1)
}

/// No later entry goes where the `i`th goes.
pub open spec fn last_at_its_place(encoding: Encoding, plan: Seq<EntryView>, i: int) -> bool {
    forall|j: int|
        i < j < plan.len() ==> place_of_entry(encoding, #[trigger] plan[j]) != place_of_entry(
            encoding,
            plan[i],
        )
}

/// No entry goes to this place.
pub open spec fn none_at(encoding: Encoding, plan: Seq<EntryView>, at: (usize, Seq<u8>)) -> bool {
    forall|j: int| 0 <= j < plan.len() ==> place_of_entry(encoding, #[trigger] plan[j]) != at
}

/// No default is stored at this place.
pub open spec fn no_default_at(defaults: Seq<EncodedEntry>, at: (usize, Seq<u8>)) -> bool {
    forall|j: int|
        0 <= j < defaults.len() ==> ((#[trigger] defaults[j]).column, defaults[j].key@) != at
}

/// Once the layers of an initialisation have been written, the store holds what the genesis
/// configuration makes: each of its entries that no later one overwrites, then the defaults
/// that it does not overwrite; every other key is as the waiting layers leave it.
pub proof fn law_genesis_configuration_is_stored<F: Fn(&GenesisEntry) -> EncodedEntry>(
    store: StateStore,
    waiting: Layers,
    layers: Layers,
    defaults: Seq<EncodedEntry>,
    genesis: GenesisConfig,
    constants: ChainConstants,
    encode: F,
    encoding: Encoding,
)
    requires
        is_genesis_on_top(waiting, layers, defaults, genesis, constants, encode),
        encodes_as(encode, encoding),
    ensures
        ({
            let plan = genesis_entries(genesis, constants);
            let before = flushed(store, waiting);
            let after = flushed(store, layers);
            &&& forall|i: int|
                0 <= i < plan.len() && #[trigger] last_at_its_place(encoding, plan, i) ==> {
                    &&& after.contains_key(place_of_entry(encoding, plan[i]))
                    &&& after[place_of_entry(encoding, plan[i])] == encoding(plan[i]).2
                }
            &&& forall|i: int|
                0 <= i < defaults.len() && #[trigger] last_of_its_key(defaults, i) && none_at(
                    encoding,
                    plan,
                    (defaults[i].column, defaults[i].key@),
                ) ==> {
                    &&& after.contains_key((defaults[i].column, defaults[i].key@))
                    &&& after[(defaults[i].column, defaults[i].key@)] == defaults[i].value@
                }
            &&& forall|at: (usize, Seq<u8>)| #[trigger]
                none_at(encoding, plan, at) && no_default_at(defaults, at) ==> {
                    &&& after.contains_key(at) == before.contains_key(at)
                    &&& after.contains_key(at) ==> after[at] == before[at]
                }
        }),
{
    let plan = genesis_entries(genesis, constants);
    let before = flushed(store, waiting);
    let after = flushed(store, layers);
    let (made, entries) = choose|made: Seq<GenesisEntry>, entries: Seq<EncodedEntry>| #[trigger]
        is_encoding(encode, made, entries) && entry_views(made) == plan && layers.last()
            == entry_writes(defaults) + entry_writes(entries);
    assert(layers =~= waiting.push(layers.last()));
    law_genesis_is_read_back(store, waiting, defaults, entries);
    let all = defaults + entries;
    let n = defaults.len() as int;
    assert(entries.len() == plan.len()) by {
        assert(entry_views(made).len() == made.len());
    }
    assert forall|j: int| 0 <= j < plan.len() implies all[n + j] == entries[j] && (
        entries[j].column,
        entries[j].key@,
        entries[j].value@,
    ) == encoding(#[trigger] plan[j]) by {
        assert(entry_views(made)[j] == made[j]@);
        assert(call_ensures(encode, (&made[j],), entries[j]));
    }
    assert forall|i: int| 0 <= i < plan.len() && #[trigger] last_at_its_place(
        encoding,
        plan,
        i,
    ) implies {
        &&& after.contains_key(place_of_entry(encoding, plan[i]))
        &&& after[place_of_entry(encoding, plan[i])] == encoding(plan[i]).2
    } by {
        assert(all[n + i] == entries[i]);
        assert forall|j: int| n + i < j < all.len() implies (
            (#[trigger] all[j]).column,
            all[j].key@,
        ) != (all[n + i].column, all[n + i].key@) by {
            let p = plan[j - n];
            assert(place_of_entry(encoding, p) != place_of_entry(encoding, plan[i]));
        }
        assert(last_of_its_key(all, n + i));
    }
    assert forall|i: int|
        0 <= i < defaults.len() && #[trigger] last_of_its_key(defaults, i) && none_at(
            encoding,
            plan,
            (defaults[i].column, defaults[i].key@),
        ) implies {
        &&& after.contains_key((defaults[i].column, defaults[i].key@))
        &&& after[(defaults[i].column, defaults[i].key@)] == defaults[i].value@
    } by {
        assert(all[i] == defaults[i]);
        assert forall|j: int| i < j < all.len() implies ((#[trigger] all[j]).column, all[j].key@)
            != (all[i].column, all[i].key@) by {
            if j < n {
                assert(all[j] == defaults[j]);
            } else {
                let p = plan[j - n];
                assert(place_of_entry(encoding, p) != (defaults[i].column, defaults[i].key@));
            }
        }
        assert(last_of_its_key(all, i));
    }
    assert forall|at: (usize, Seq<u8>)| #[trigger]
        none_at(encoding, plan, at) && no_default_at(defaults, at) implies {
        &&& after.contains_key(at) == before.contains_key(at)
        &&& after.contains_key(at) ==> after[at] == before[at]
    } by {
        assert forall|j: int| 0 <= j < all.len() implies (
            (#[trigger] all[j]).column,
            all[j].key@,
        ) != at by {
            if j < n {
                assert(all[j] == defaults[j]);
            } else {
                let p = plan[j - n];
                assert(place_of_entry(encoding, p) != at);
            }
        }
        assert(after.contains_key((at.0, at.1)) == before.contains_key((at.0, at.1)));
    }
}

} // verus!

//! What calls of the state database's operations answer and do, over the store below them.

use crate::answers::{
    decoded, is_answer, is_scan, law_column_scan_is_exact, law_failed_reads_are_passed_over,
    law_prefix_scan_is_exact, lemma_taken_initial, row_keys,
};
use crate::batch::{apply_ops, op_views, BatchOp, OpView};
use crate::chain_error::ErrorKind;
use crate::codec::{has_prefix, lemma_lex_irreflexive, lemma_prefix_not_before, lex_lt};
use crate::overlay::{
    column_request, key_request, prefix_request, row_deletions, with_writes, Finalization,
    FinalizeStep, OverlayDB, OverlayWriteBatch,
};
use crate::settings::{descriptor_views, ColumnDescriptor, DbSettings};
use crate::state_db::{parsed_entries, PendingIncrement, StateDB};
use crate::state_error::StateError;
use crate::state_laws::{
    flushed, law_deleted_key_is_gone, law_oldest_layer_may_go_first, law_prefix_is_deleted,
    law_put_is_read_back, Layers, StateStore,
};
use crate::state_schema::{col_descs_for_state_db, state_column_names, state_columns};
use crate::store::{taken, BoundView, Fetched, GetRequest, Row, ScanBound, ScanRequest};
use vstd::prelude::*;

verus! {

/// A layer without writes has none.
pub proof fn law_new_layer_is_empty(
    cap: usize,
    a: OverlayWriteBatch,
    b: OverlayWriteBatch,
    ops_a: Vec<BatchOp<usize>>,
    ops_b: Vec<BatchOp<usize>>,
)
    requires
        call_ensures(OverlayWriteBatch::new, (), a),
        call_ensures(OverlayWriteBatch::with_capacity, (cap,), b),
        call_ensures(OverlayWriteBatch::into_ops, (a,), ops_a),
        call_ensures(OverlayWriteBatch::into_ops, (b,), ops_b),
    ensures
        ops_a@.len() == 0,
        ops_b@.len() == 0,
{
    assert(op_views(ops_a@).len() == ops_a@.len());
    assert(op_views(ops_b@).len() == ops_b@.len());
}

/// A put goes behind the writes of a layer, with its column, key and value, and leaves them
/// as they were.
pub proof fn law_layer_takes_a_put(
    wb: &mut OverlayWriteBatch,
    col: usize,
    key: &[u8],
    value: &[u8],
    ops: Vec<BatchOp<usize>>,
    later: OverlayWriteBatch,
    later_ops: Vec<BatchOp<usize>>,
)
    requires
        call_ensures(OverlayWriteBatch::put, (wb, col, key, value), ()),
        call_ensures(OverlayWriteBatch::into_ops, (*old(wb),), ops),
        call_ensures(OverlayWriteBatch::into_ops, (later,), later_ops),
    ensures
        later == *final(wb) ==> {
            &&& later_ops@.len() == ops@.len() + 1
            &&& forall|i: int| 0 <= i < ops@.len() ==> (#[trigger] later_ops@[i])@ == ops@[i]@
            &&& later_ops@.last() matches BatchOp::Put { column, key: k, value: v } && column == col
                && k@ == key@ && v@ == value@
        },
{
    if later == *final(wb) {
        lemma_views(ops@);
        lemma_views(later_ops@);
        let n = ops@.len() as int;
        assert(later_ops@.len() == n + 1);
        assert(op_views(later_ops@)[n] == later_ops@[n]@);
        assert forall|i: int| 0 <= i < n implies (#[trigger] later_ops@[i])@ == ops@[i]@ by {
            assert(op_views(later_ops@)[i] == op_views(ops@)[i]);
        }
    }
}

/// A deletion goes behind the writes of a layer, with its column and key, and leaves them as
/// they were.
pub proof fn law_layer_takes_a_deletion(
    wb: &mut OverlayWriteBatch,
    col: usize,
    key: &[u8],
    ops: Vec<BatchOp<usize>>,
    later: OverlayWriteBatch,
    later_ops: Vec<BatchOp<usize>>,
)
    requires
        call_ensures(OverlayWriteBatch::delete, (wb, col, key), ()),
        call_ensures(OverlayWriteBatch::into_ops, (*old(wb),), ops),
        call_ensures(OverlayWriteBatch::into_ops, (later,), later_ops),
    ensures
        later == *final(wb) ==> {
            &&& later_ops@.len() == ops@.len() + 1
            &&& forall|i: int| 0 <= i < ops@.len() ==> (#[trigger] later_ops@[i])@ == ops@[i]@
            &&& later_ops@.last() matches BatchOp::Delete { column, key: k } && column == col && k@
                == key@
        },
{
    if later == *final(wb) {
        lemma_views(ops@);
        lemma_views(later_ops@);
        let n = ops@.len() as int;
        assert(later_ops@.len() == n + 1);
        assert(op_views(later_ops@)[n] == later_ops@[n]@);
        assert forall|i: int| 0 <= i < n implies (#[trigger] later_ops@[i])@ == ops@[i]@ by {
            assert(op_views(later_ops@)[i] == op_views(ops@)[i]);
        }
    }
}

proof fn lemma_views(ops: Seq<BatchOp<usize>>)
    ensures
        op_views(ops).len() == ops.len(),
        forall|i: int| 0 <= i < ops.len() ==> op_views(ops)[i] == (#[trigger] ops[i])@,
{
}

/// The writes that are shown are those that are handed over.
pub proof fn law_writes_are_shown(
    wb: OverlayWriteBatch,
    shown: &Vec<BatchOp<usize>>,
    ops: Vec<BatchOp<usize>>,
)
    requires
        call_ensures(OverlayWriteBatch::ops, (&wb,), shown),
        call_ensures(OverlayWriteBatch::into_ops, (wb,), ops),
    ensures
        shown@.len() == ops@.len(),
        forall|i: int| 0 <= i < ops@.len() ==> (#[trigger] shown@[i])@ == ops@[i]@,
        forall|store: StateStore| #[trigger]
            apply_ops(store, wb@) == apply_ops(store, op_views(ops@)),
{
    lemma_views(shown@);
    lemma_views(ops@);
    assert forall|i: int| 0 <= i < ops@.len() implies (#[trigger] shown@[i])@ == ops@[i]@ by {
        assert(op_views(shown@)[i] == op_views(ops@)[i]);
    }
}

/// All layers but the newest are as they were, and the newest has kept what it held and got
/// `added` writes.
pub open spec fn only_newest_grew(before: Layers, after: Layers, added: nat) -> bool {
    &&& before.len() > 0
    &&& after.len() == before.len()
    &&& forall|i: int| 0 <= i < before.len() - 1 ==> after[i] == #[trigger] before[i]
    &&& after.last().len() == before.last().len() + added
    &&& after.last().take(before.last().len() as int) == before.last()
}

proof fn lemma_newest_grew(before: Layers, ops: Seq<OpView<usize>>)
    requires
        before.len() > 0,
    ensures
        only_newest_grew(before, with_writes(before, ops), ops.len()),
{
    let after = with_writes(before, ops);
    assert(after.last() == before.last() + ops);
    assert(after.last().take(before.last().len() as int) =~= before.last());
}

/// A put goes to the newest layer: what the layers come to then has the value under the key,
/// and all else as before. Without a layer it is refused and nothing changes.
pub proof fn law_put_is_carried_out(
    store: StateStore,
    db: &mut StateDB,
    col: usize,
    key: &[u8],
    value: &[u8],
    res: Result<(), StateError>,
)
    requires
        call_ensures(StateDB::put_key, (db, col, key, value), res),
    ensures
        old(db)@.len() == 0 ==> res == Err::<(), _>(StateError::NoLayersFound) && final(db)@.len()
            == 0,
        old(db)@.len() > 0 ==> {
            &&& res is Ok
            &&& only_newest_grew(old(db)@, final(db)@, 1)
            &&& flushed(store, final(db)@) == flushed(store, old(db)@).insert((col, key@), value@)
        },
{
    if old(db)@.len() > 0 {
        lemma_newest_grew(
            old(db)@,
            seq![OpView::Put { column: col, key: key@, value: value@ }],
        );
        law_put_is_read_back(store, old(db)@, col, key@, value@);
    }
}

/// A deletion goes to the newest layer: what the layers come to then lacks the key, and has
/// all else as before. Without a layer it is refused and nothing changes. The state database
/// and its layers agree on this.
pub proof fn law_deletion_is_carried_out(
    store: StateStore,
    db: &mut StateDB,
    layers: &mut OverlayDB,
    col: usize,
    key: &[u8],
    res: Result<(), StateError>,
    other: Result<(), StateError>,
)
    requires
        call_ensures(StateDB::delete_key, (db, col, key), res),
        call_ensures(OverlayDB::delete, (layers, col, key), other),
    ensures
        old(db)@.len() == 0 ==> res == Err::<(), _>(StateError::NoLayersFound) && final(db)@.len()
            == 0,
        old(layers)@.len() == 0 ==> other == Err::<(), _>(StateError::NoLayersFound) && final(
            layers)@.len() == 0,
        old(db)@.len() > 0 ==> {
            &&& res is Ok
            &&& only_newest_grew(old(db)@, final(db)@, 1)
            &&& flushed(store, final(db)@) == flushed(store, old(db)@).remove((col, key@))
        },
        old(layers)@.len() > 0 ==> {
            &&& other is Ok
            &&& only_newest_grew(old(layers)@, final(layers)@, 1)
            &&& flushed(store, final(layers)@) == flushed(store, old(layers)@).remove((col, key@))
        },
{
    let ops = seq![OpView::Delete { column: col, key: key@ }];
    if old(db)@.len() > 0 {
        lemma_newest_grew(old(db)@, ops);
        law_deleted_key_is_gone(store, old(db)@, col, key@);
    }
    if old(layers)@.len() > 0 {
        lemma_newest_grew(old(layers)@, ops);
        law_deleted_key_is_gone(store, old(layers)@, col, key@);
    }
}

/// What a deletion by prefix makes of what the layers come to: the keys of the column with
/// the prefix that the store held are gone, all else is as before.
pub open spec fn prefix_is_gone(
    store: StateStore,
    before: StateStore,
    after: StateStore,
    col: usize,
    prefix: Seq<u8>,
) -> bool {
    forall|c: usize, key: Seq<u8>|
        #![trigger after.contains_key((c, key))]
        if c == col && has_prefix(key, prefix) && store.contains_key((col, key)) {
            !after.contains_key((c, key))
        } else {
            &&& after.contains_key((c, key)) == before.contains_key((c, key))
            &&& after.contains_key((c, key)) ==> after[(c, key)] == before[(c, key)]
        }
}

/// A deletion by prefix takes every key with the prefix out that the store holds, and no
/// other. Without a layer it is refused and nothing changes.
pub proof fn law_prefix_deletion_is_carried_out<V>(
    store: StateStore,
    db: &mut StateDB,
    col: usize,
    prefix: &[u8],
    request: ScanRequest<usize>,
    items: Vec<Option<Row<V>>>,
    res: Result<(), StateError>,
    reads: spec_fn(Seq<u8>, V) -> bool,
)
    requires
        call_ensures(prefix_request, (col, prefix), request),
        is_scan(items@, store, request.column, request.from@, reads),
        call_ensures(StateDB::delete_by_prefix::<V>, (db, col, prefix, items), res),
    ensures
        old(db)@.len() == 0 ==> res == Err::<(), _>(StateError::NoLayersFound) && final(db)@.len()
            == 0,
        old(db)@.len() > 0 ==> res is Ok && prefix_is_gone(
            store,
            flushed(store, old(db)@),
            flushed(store, final(db)@),
            col,
            prefix@,
        ) && only_newest_grew(
            old(db)@,
            final(db)@,
            taken(items@, BoundView::Prefix(prefix@)).len(),
        ),
{
    if old(db)@.len() > 0 {
        let deletions = row_deletions(col, taken(items@, BoundView::Prefix(prefix@)));
        assert(deletions.len() == taken(items@, BoundView::Prefix(prefix@)).len());
        lemma_newest_grew(old(db)@, deletions);
        law_prefix_is_deleted(store, old(db)@, col, prefix@, items@, reads);
    }
}

/// The same of the layers alone, which without a layer refuse only if there is a key to
/// delete.
pub proof fn law_overlay_prefix_deletion<V>(
    store: StateStore,
    layers: &mut OverlayDB,
    col: usize,
    prefix: &[u8],
    request: ScanRequest<usize>,
    items: Vec<Option<Row<V>>>,
    res: Result<(), StateError>,
    reads: spec_fn(Seq<u8>, V) -> bool,
)
    requires
        call_ensures(prefix_request, (col, prefix), request),
        is_scan(items@, store, request.column, request.from@, reads),
        call_ensures(OverlayDB::delete_by_prefix::<V>, (layers, col, prefix, items), res),
    ensures
        old(layers)@.len() == 0 ==> final(layers)@.len() == 0 && match res {
            Ok(()) => forall|key: Seq<u8>|
                !(#[trigger] store.contains_key((col, key)) && has_prefix(key, prefix@)),
            Err(e) => e == StateError::NoLayersFound && exists|key: Seq<u8>| #[trigger]
                store.contains_key((col, key)) && has_prefix(key, prefix@),
        },
        old(layers)@.len() > 0 ==> res is Ok && prefix_is_gone(
            store,
            flushed(store, old(layers)@),
            flushed(store, final(layers)@),
            col,
            prefix@,
        ) && only_newest_grew(
            old(layers)@,
            final(layers)@,
            taken(items@, BoundView::Prefix(prefix@)).len(),
        ),
{
    let rows = taken(items@, BoundView::Prefix(prefix@));
    let deletions = row_deletions(col, rows);
    assert(deletions.len() == rows.len());
    if old(layers)@.len() > 0 {
        lemma_newest_grew(old(layers)@, deletions);
        law_prefix_is_deleted(store, old(layers)@, col, prefix@, items@, reads);
    } else {
        assert(prefix@.take(prefix@.len() as int) =~= prefix@);
        law_prefix_scan_is_exact(items@, store, col, prefix@, prefix@, reads);
        if rows.len() > 0 {
            assert(store.contains_key((col, rows[0].key@)));
        } else {
            assert forall|key: Seq<u8>|
                !(#[trigger] store.contains_key((col, key)) && has_prefix(key, prefix@)) by {
                if store.contains_key((col, key)) && has_prefix(key, prefix@) {
                    lemma_prefix_not_before(prefix@, key);
                    assert(row_keys(rows).contains(key));
                }
            }
        }
    }
}

/// A new layer goes on top, and what is written to it comes last of all.
pub proof fn law_new_layer_is_on_top(
    store: StateStore,
    db: &mut StateDB,
    layer: &mut OverlayWriteBatch,
)
    requires
        call_ensures(StateDB::new_layer, (db,), layer),
    ensures
        old(layer)@.len() == 0,
        final(db)@.len() == old(db)@.len() + 1,
        forall|i: int| 0 <= i < old(db)@.len() ==> final(db)@[i] == #[trigger] old(db)@[i],
        flushed(store, final(db)@) == apply_ops(flushed(store, old(db)@), final(layer)@),
{
    assert(final(db)@.drop_last() =~= old(db)@);
}

/// The oldest layer is handed out to be written: written now, with the others later, it comes
/// to the same as all of them later. Without layers there is none.
pub proof fn law_oldest_layer_is_finalized(
    store: StateStore,
    db: &mut StateDB,
    layer: Option<OverlayWriteBatch>,
)
    requires
        call_ensures(StateDB::finalize_layer, (db,), layer),
    ensures
        layer is Some <==> old(db)@.len() > 0,
        layer matches Some(wb) ==> {
            &&& final(db)@.len() == old(db)@.len() - 1
            &&& flushed(apply_ops(store, wb@), final(db)@) == flushed(store, old(db)@)
            &&& forall|i: int| 0 <= i < final(db)@.len() ==> (#[trigger] final(db)@[i]) == old(
                db)@[i + 1]
        },
        layer is None ==> final(db)@.len() == 0,
{
    if old(db)@.len() > 0 {
        law_oldest_layer_may_go_first(store, old(db)@);
    }
}

/// Discarding drops the newest layer and no other; without layers it is refused.
pub proof fn law_newest_layer_is_discarded(db: &mut StateDB, res: Result<(), StateError>)
    requires
        call_ensures(StateDB::discard_last_layer, (db,), res),
    ensures
        old(db)@.len() == 0 ==> res == Err::<(), _>(StateError::NoLayers) && final(db)@.len() == 0,
        old(db)@.len() > 0 ==> {
            &&& res is Ok
            &&& final(db)@.len() == old(db)@.len() - 1
            &&& forall|i: int| 0 <= i < final(db)@.len() ==> (#[trigger] final(db)@[i]) == old(
                db)@[i]
        },
{
}

/// Layers that are pushed or written to the overlay wait on top of it; the count tells how
/// many wait; discarding drops them all.
pub proof fn law_layers_wait(
    pushed: &mut OverlayDB,
    written: &mut OverlayDB,
    discarded: &mut OverlayDB,
    wb: OverlayWriteBatch,
    n: usize,
    write: Result<(), StateError>,
    discard: Result<(), StateError>,
)
    requires
        call_ensures(OverlayDB::push_layer, (pushed, wb), ()),
        call_ensures(OverlayDB::write, (written, wb), write),
        call_ensures(OverlayDB::discard_layers, (discarded,), discard),
        call_ensures(OverlayDB::len, (&*old(pushed),), n),
    ensures
        n == old(pushed)@.len(),
        final(pushed)@.len() == old(pushed)@.len() + 1,
        final(pushed)@.last() == wb@,
        forall|i: int| 0 <= i < old(pushed)@.len() ==> final(pushed)@[i] == #[trigger] old(
            pushed)@[i],
        write is Ok,
        final(written)@.len() == old(written)@.len() + 1,
        final(written)@.last() == wb@,
        forall|i: int| 0 <= i < old(written)@.len() ==> final(written)@[i] == #[trigger] old(
            written)@[i],
        discard is Ok,
        final(discarded)@.len() == 0,
{
}

/// A run over all layers takes them off the overlay, and each step of it either hands out the
/// layer that belongs on the store next or ends: well when none is left, with the error when
/// a write has failed, and then no layer is handed out any more.
pub proof fn law_run_goes_layer_by_layer(
    store: StateStore,
    layers: &mut OverlayDB,
    begun: Finalization,
    run: &mut Finalization,
    last: Result<(), String>,
    step: FinalizeStep,
)
    requires
        call_ensures(OverlayDB::finalize_layers, (layers,), begun),
        call_ensures(Finalization::step, (run, last), step),
    ensures
        begun@ == old(layers)@,
        final(layers)@.len() == 0,
        match step {
            FinalizeStep::Write(wb) => {
                &&& last is Ok
                &&& old(run)@.len() > 0
                &&& final(run)@.len() == old(run)@.len() - 1
                &&& flushed(apply_ops(store, wb@), final(run)@) == flushed(store, old(run)@)
            },
            FinalizeStep::Finished(Ok(())) => last is Ok && old(run)@.len() == 0
                && final(run)@.len() == 0,
            FinalizeStep::Finished(Err(e)) => last is Err && e == StateError::Write(
                last->Err_0,
            ) && final(run)@.len() == 0,
        },
{
    if last is Ok && old(run)@.len() > 0 {
        law_oldest_layer_may_go_first(store, old(run)@);
    }
}

/// A read gives what the store holds under the key, whatever waits in layers and however
/// many of them are to be skipped; a read that fails is reported as such.
pub proof fn law_reads_answer_from_the_store<T>(
    store: StateStore,
    db: StateDB,
    layers: OverlayDB,
    n: usize,
    col: usize,
    key: &[u8],
    request: GetRequest<usize>,
    stored: Fetched<T>,
    got: Result<Option<T>, StateError>,
    skipped: Result<Option<T>, StateError>,
    layer_got: Result<Option<T>, StateError>,
    layer_skipped: Result<Option<T>, StateError>,
    decode: spec_fn(Seq<u8>) -> T,
)
    requires
        call_ensures(key_request, (col, key), request),
        stored is Ok ==> is_answer(stored, store, request.column, request.key@, decoded(decode)),
        call_ensures(StateDB::get::<T>, (&db, stored), got),
        call_ensures(StateDB::get_skipped::<T>, (&db, n, stored), skipped),
        call_ensures(OverlayDB::get::<T>, (&layers, stored), layer_got),
        call_ensures(OverlayDB::get_skipped::<T>, (&layers, n, stored), layer_skipped),
    ensures
        skipped == got,
        layer_got == got,
        layer_skipped == got,
        match stored {
            Ok(_) => got == Ok::<_, StateError>(
                if store.contains_key((col, key@)) {
                    Some(decode(store[(col, key@)]))
                } else {
                    None
                },
            ),
            Err(e) => got == Err::<Option<T>, _>(StateError::Read(e)),
        },
{
}

/// A read of a key that must be there gives what the store holds under it.
pub proof fn law_required_reads_answer<T>(
    store: StateStore,
    db: StateDB,
    n: usize,
    col: usize,
    key: &[u8],
    request: GetRequest<usize>,
    stored: Fetched<T>,
    got: T,
    skipped: T,
    decode: spec_fn(Seq<u8>) -> T,
)
    requires
        store.contains_key((col, key@)),
        call_ensures(key_request, (col, key), request),
        is_answer(stored, store, request.column, request.key@, decoded(decode)),
        call_ensures(StateDB::must_get::<T>, (&db, stored), got),
        call_ensures(StateDB::must_get_skipped::<T>, (&db, n, stored), skipped),
    ensures
        got == decode(store[(col, key@)]),
        skipped == decode(store[(col, key@)]),
{
}

/// An increment reads the stored number, answers with the next, and puts that one's bytes
/// under the key.
pub proof fn law_number_is_increased(
    store: StateStore,
    db: &mut StateDB,
    col: usize,
    key: &[u8],
    stored: Fetched<i64>,
    pending: Result<PendingIncrement, StateError>,
    shown: i64,
    encoded: &[u8],
    res: Result<i64, StateError>,
)
    requires
        call_ensures(StateDB::incr_key, (&*old(db), col, key, stored), pending),
        pending matches Ok(p) ==> call_ensures(PendingIncrement::value, (&p,), shown)
            && call_ensures(PendingIncrement::finish, (p, db, encoded), res),
    ensures
        stored matches Err(e) ==> pending == Err::<PendingIncrement, _>(StateError::Read(e)),
        stored matches Ok(Some(number)) ==> {
            &&& pending is Ok
            &&& shown == number + 1
            &&& old(db)@.len() == 0 ==> res == Err::<i64, _>(StateError::NoLayersFound) && final(
                db)@.len() == 0
            &&& old(db)@.len() > 0 ==> {
                &&& res matches Ok(increased) && increased == number + 1
                &&& flushed(store, final(db)@) == flushed(store, old(db)@).insert(
                    (col, key@),
                    encoded@,
                )
                &&& only_newest_grew(old(db)@, final(db)@, 1)
            }
        },
{
    if stored is Ok && stored->Ok_0 is Some && old(db)@.len() > 0 {
        lemma_newest_grew(
            old(db)@,
            seq![OpView::Put { column: col, key: key@, value: encoded@ }],
        );
        law_put_is_read_back(store, old(db)@, col, key@, encoded@);
    }
}

/// `entries` are the values of the first `n` of the items that have one, in order: each item
/// with a value contributes it at the place that the values before it leave, and there are
/// no others.
pub open spec fn lists_values<E>(
    entries: Seq<E>,
    items: Seq<Option<Row<Option<E>>>>,
    n: int,
) -> bool {
    entries == items.take(n).filter(|item: Option<Row<Option<E>>>| item->0.value is Some).map_values(
        |item: Option<Row<Option<E>>>| item->0.value->0,
    )
}

proof fn lemma_lists_values<E>(
    rows: Seq<Row<Option<E>>>,
    items: Seq<Option<Row<Option<E>>>>,
)
    requires
        rows.len() <= items.len(),
        forall|i: int| 0 <= i < rows.len() ==> Some(#[trigger] rows[i]) == items[i],
    ensures
        lists_values(parsed_entries(rows), items, rows.len() as int),
        (forall|i: int| 0 <= i < rows.len() ==> (#[trigger] items[i])->0.value is Some)
            ==> parsed_entries(rows).len() == rows.len() && forall|i: int|
            0 <= i < rows.len() ==> #[trigger] parsed_entries(rows)[i] == items[i]->0.value->0,
    decreases rows.len(),
{
    reveal(Seq::filter);
    let has = |item: Option<Row<Option<E>>>| item->0.value is Some;
    let value = |item: Option<Row<Option<E>>>| item->0.value->0;
    let n = rows.len() as int;
    let head = items.take(n);
    if n == 0 {
        assert(head.filter(has).map_values(value) =~= Seq::empty());
    } else {
        let fewer = rows.drop_last();
        assert forall|i: int| 0 <= i < fewer.len() implies Some(#[trigger] fewer[i]) == items[i] by {
            assert(fewer[i] == rows[i]);
        }
        lemma_lists_values(fewer, items);
        assert(head.drop_last() =~= items.take(n - 1));
        assert(head.last() == items[n - 1]);
        assert(Some(rows[n - 1]) == items[n - 1]);
        let before = items.take(n - 1).filter(has);
        if has(head.last()) {
            assert(before.push(head.last()).map_values(value) =~= before.map_values(value).push(
                value(head.last()),
            ));
        }
    }
}

/// Listing a column gives the value of every key of the column whose key parses, each once
/// and in the order of the keys.
pub proof fn law_column_is_listed<E>(
    store: StateStore,
    db: StateDB,
    layers: OverlayDB,
    col: usize,
    request: ScanRequest<usize>,
    items: Vec<Option<Row<Option<E>>>>,
    entries: Vec<E>,
    rows: Vec<Row<Option<E>>>,
    reads: spec_fn(Seq<u8>, Option<E>) -> bool,
)
    requires
        call_ensures(column_request, (col,), request),
        is_scan(items@, store, request.column, request.from@, reads),
        call_ensures(StateDB::for_each::<E>, (&db, items), entries),
        call_ensures(OverlayDB::for_each::<Option<E>>, (&layers, items), rows),
    ensures
        request.column == col,
        lists_values(entries@, items@, items@.len() as int),
        (forall|i: int| 0 <= i < items@.len() ==> (#[trigger] items@[i])->0.value is Some)
            ==> entries@.len() == items@.len() && forall|i: int|
            0 <= i < items@.len() ==> #[trigger] entries@[i] == items@[i]->0.value->0,
        rows@.len() == items@.len(),
        forall|i: int| 0 <= i < rows@.len() ==> Some(#[trigger] rows@[i]) == items@[i],
        forall|key: Seq<u8>| #[trigger]
            store.contains_key((col, key)) ==> exists|i: int|
                0 <= i < rows@.len() && (#[trigger] rows@[i]).key@ == key,
{
    law_column_scan_is_exact(items@, store, col, reads);
    let taken_rows = taken(items@, BoundView::All);
    lemma_lists_values(taken_rows, items@);
}

/// Listing a prefix gives the value of every key of the column that begins with it and
/// parses, each once and in the order of the keys.
pub proof fn law_prefix_is_listed<E>(
    store: StateStore,
    db: StateDB,
    layers: OverlayDB,
    col: usize,
    prefix: &[u8],
    request: ScanRequest<usize>,
    items: Vec<Option<Row<Option<E>>>>,
    entries: Vec<E>,
    rows: Vec<Row<Option<E>>>,
    reads: spec_fn(Seq<u8>, Option<E>) -> bool,
)
    requires
        call_ensures(prefix_request, (col, prefix), request),
        is_scan(items@, store, request.column, request.from@, reads),
        call_ensures(StateDB::for_each_by_prefix::<E>, (&db, prefix, items), entries),
        call_ensures(
            OverlayDB::for_each_by_prefix::<Option<E>>,
            (&layers, prefix, items),
            rows,
        ),
    ensures
        request.column == col,
        rows@.len() <= items@.len(),
        forall|i: int|
            0 <= i < items@.len() ==> (has_prefix((#[trigger] items@[i])->0.key@, prefix@) <==> i
                < rows@.len()),
        forall|i: int| 0 <= i < rows@.len() ==> Some(#[trigger] rows@[i]) == items@[i],
        lists_values(entries@, items@, rows@.len() as int),
        (forall|i: int| 0 <= i < rows@.len() ==> (#[trigger] items@[i])->0.value is Some)
            ==> entries@.len() == rows@.len() && forall|i: int|
            0 <= i < rows@.len() ==> #[trigger] entries@[i] == items@[i]->0.value->0,
        forall|key: Seq<u8>| #[trigger]
            store.contains_key((col, key)) && has_prefix(key, prefix@) ==> exists|i: int|
                0 <= i < rows@.len() && (#[trigger] rows@[i]).key@ == key,
{
    let bound = BoundView::Prefix(prefix@);
    let m = lemma_taken_initial(items@, bound);
    assert(prefix@.take(prefix@.len() as int) =~= prefix@);
    law_prefix_scan_is_exact(items@, store, col, prefix@, prefix@, reads);
    assert forall|i: int| 0 <= i < rows@.len() implies Some(#[trigger] rows@[i]) == items@[i] by {
        assert(items@[i] is Some);
    }
    assert forall|i: int| 0 <= i < items@.len() implies (has_prefix(
        (#[trigger] items@[i])->0.key@,
        prefix@,
    ) <==> i < rows@.len()) by {
        let key = items@[i]->0.key@;
        if i < m {
            assert(bound.admits(key));
        } else if has_prefix(key, prefix@) {
            assert(row_keys(rows@).contains(key));
            let j = choose|j: int| 0 <= j < rows@.len() && row_keys(rows@)[j] == key;
            assert(rows@[j] == items@[j]->0);
            assert(lex_lt(items@[j]->0.key@, items@[i]->0.key@));
            lemma_lex_irreflexive(key);
        }
    }
    lemma_lists_values(rows@, items@);
    assert forall|key: Seq<u8>| #[trigger]
        store.contains_key((col, key)) && has_prefix(key, prefix@) implies exists|i: int|
        0 <= i < rows@.len() && (#[trigger] rows@[i]).key@ == key by {
        lemma_prefix_not_before(prefix@, key);
        assert(row_keys(rows@).contains(key));
        let i = choose|i: int| 0 <= i < rows@.len() && row_keys(rows@)[i] == key;
        assert(rows@[i].key@ == key);
    }
}

/// Layers are not searched: a read of one is refused, and nothing is found or listed in it.
pub proof fn law_layers_are_not_searched(
    wb: OverlayWriteBatch,
    layers: OverlayDB,
    col: usize,
    key: &[u8],
    got: Result<Option<Vec<u8>>, StateError>,
    found: Option<Vec<u8>>,
    listed: Vec<Row<Vec<u8>>>,
    listed_by_prefix: Vec<Row<Vec<u8>>>,
    found_below: Option<Vec<u8>>,
)
    requires
        call_ensures(OverlayWriteBatch::get, (&wb, key), got),
        call_ensures(OverlayWriteBatch::get_by_prefix, (&wb, key), found),
        call_ensures(OverlayWriteBatch::iter, (&wb,), listed),
        call_ensures(OverlayWriteBatch::iter_with_prefix, (&wb, key), listed_by_prefix),
        call_ensures(OverlayDB::get_by_prefix, (&layers, col, key), found_below),
    ensures
        got == Err::<Option<Vec<u8>>, _>(StateError::CacheDisabled),
        found is None,
        listed@.len() == 0,
        listed_by_prefix@.len() == 0,
        found_below is None,
{
}

/// Errors that were raised outside keep their text; those of writes, addresses and the
/// genesis block have no class.
pub proof fn law_state_errors_keep_their_text(
    error: StateError,
    kind: Option<ErrorKind>,
    message: String,
)
    requires
        call_ensures(StateError::kind, (&error,), kind),
        call_ensures(StateError::message, (&error,), message),
    ensures
        error matches StateError::Read(text) ==> message@ == text@ && kind == Some(
            ErrorKind::Other,
        ),
        error matches StateError::Write(text) ==> message@ == text@ && kind is None,
        error matches StateError::Address(text) ==> message@ == text@ && kind is None,
        error matches StateError::GenesisBlock(text) ==> message@ == text@ && kind is None,
        kind == Some(ErrorKind::NotFound) <==> error is CacheDisabled || error is NoLayers,
{
}

/// The name of a state column by its index.
pub open spec fn name_at(index: int) -> Seq<char> {
    if index == 0 {
        "default"@
    } else if index == 1 {
        "account"@
    } else if index == 2 {
        "resource-delegation"@
    } else if index == 3 {
        "resource-delegation-index"@
    } else if index == 4 {
        "account-votes"@
    } else if index == 5 {
        "contract"@
    } else if index == 6 {
        "contract-code"@
    } else if index == 7 {
        "contract-storage"@
    } else if index == 8 {
        "witness"@
    } else if index == 9 {
        "proposal"@
    } else if index == 10 {
        "asset"@
    } else if index == 11 {
        "transaction-receipt"@
    } else if index == 12 {
        "internal-transaction"@
    } else if index == 13 {
        "transaction-log"@
    } else if index == 14 {
        "account-index"@
    } else if index == 15 {
        "voter-reward"@
    } else {
        "exchange"@
    }
}

/// The column at this index of the state database: three are small, two indexed by 32 bytes
/// of their keys, and one more is not compressed.
pub open spec fn is_state_column(column: ColumnDescriptor, index: int) -> bool {
    let small = index == 0 || index == 8 || index == 9;
    &&& column.name@ == name_at(index)
    &&& column.num_levels == (if small {
        Some(2i32)
    } else {
        None
    })
    &&& column.uncompressed == (small || index == 14)
    &&& column.prefix_len == (if index == 7 || index == 13 {
        Some(32usize)
    } else {
        None
    })
    &&& column.max_write_buffer_number is None
}

/// The state database is opened with 17 columns, those that are described, each at its index
/// under its name.
pub proof fn law_state_database_is_opened(
    db: StateDB,
    columns: &Vec<ColumnDescriptor>,
    described: Vec<ColumnDescriptor>,
    names: Vec<String>,
    settings: DbSettings,
    index: usize,
    name: &str,
)
    requires
        call_ensures(StateDB::columns, (&db,), columns),
        call_ensures(col_descs_for_state_db, (), described),
        call_ensures(state_column_names, (), names),
        call_ensures(StateDB::settings, (&db,), settings),
        index < 17,
        call_ensures(StateDB::get_cf, (&db, index), name),
    ensures
        settings.create_if_missing,
        settings.create_missing_column_families,
        settings.max_open_files == 1024,
        name@ == name_at(index as int),
        columns@.len() == 17,
        forall|i: int| 0 <= i < 17 ==> is_state_column(#[trigger] columns@[i], i),
        described@.len() == 17,
        forall|i: int| 0 <= i < 17 ==> is_state_column(#[trigger] described@[i], i),
        names@.len() == 17,
        forall|i: int| 0 <= i < 17 ==> (#[trigger] names@[i])@ == name_at(i),
{
    lemma_state_columns(columns@);
    lemma_state_columns(described@);
    assert forall|i: int| 0 <= i < 17 implies (#[trigger] names@[i])@ == name_at(i) by {
        assert(names@[i]@ == state_columns()[i].name);
    }
    assert(state_columns()[index as int].name == name_at(index as int));
}

proof fn lemma_state_columns(columns: Seq<ColumnDescriptor>)
    requires
        descriptor_views(columns) == state_columns(),
    ensures
        columns.len() == 17,
        forall|i: int| 0 <= i < 17 ==> is_state_column(#[trigger] columns[i], i),
{
    let views = descriptor_views(columns);
    assert(views.len() == columns.len());
    assert forall|i: int| 0 <= i < 17 implies is_state_column(#[trigger] columns[i], i) by {
        assert(views[i] == columns[i]@);
    }
}

/// A new database has no layers, and neither has a new overlay.
pub proof fn law_new_databases_have_no_layers(db: StateDB, layers: OverlayDB, n: usize)
    requires
        call_ensures(StateDB::new, (), db),
        call_ensures(OverlayDB::new, (), layers),
        call_ensures(OverlayDB::len, (&layers,), n),
    ensures
        db.wf(),
        db@.len() == 0,
        layers@.len() == 0,
        n == 0,
{
}

/// What the requests ask for: the column, where the read is or the scan starts, and how far
/// the scan goes.
pub proof fn law_state_requests_ask_for(
    col: usize,
    key: &[u8],
    read: GetRequest<usize>,
    column: ScanRequest<usize>,
    prefix: ScanRequest<usize>,
)
    requires
        call_ensures(key_request, (col, key), read),
        call_ensures(column_request, (col,), column),
        call_ensures(prefix_request, (col, key), prefix),
    ensures
        read.column == col && read.key@ == key@,
        column.column == col && column.from@.len() == 0 && column.bound is All,
        prefix.column == col && prefix.from@ == key@,
        prefix.bound matches ScanBound::Prefix(p) && p@ == key@,
{
}

/// Entries of a scan that could not be read are passed over: every operation answers, and
/// deletes, as if they were not there.
pub proof fn law_failed_state_reads_do_not_count<E>(
    db: StateDB,
    layers: OverlayDB,
    prefix: &[u8],
    col: usize,
    items: Vec<Option<Row<Option<E>>>>,
    clean: Vec<Option<Row<Option<E>>>>,
    all_a: Vec<E>,
    all_b: Vec<E>,
    some_a: Vec<E>,
    some_b: Vec<E>,
    rows_a: Vec<Row<Option<E>>>,
    rows_b: Vec<Row<Option<E>>>,
    under_a: Vec<Row<Option<E>>>,
    under_b: Vec<Row<Option<E>>>,
    db_a: &mut StateDB,
    db_b: &mut StateDB,
    res_a: Result<(), StateError>,
    res_b: Result<(), StateError>,
)
    requires
        clean@ == items@.filter(|item: Option<Row<Option<E>>>| item is Some),
        call_ensures(StateDB::for_each::<E>, (&db, items), all_a),
        call_ensures(StateDB::for_each::<E>, (&db, clean), all_b),
        call_ensures(StateDB::for_each_by_prefix::<E>, (&db, prefix, items), some_a),
        call_ensures(StateDB::for_each_by_prefix::<E>, (&db, prefix, clean), some_b),
        call_ensures(OverlayDB::for_each::<Option<E>>, (&layers, items), rows_a),
        call_ensures(OverlayDB::for_each::<Option<E>>, (&layers, clean), rows_b),
        call_ensures(
            OverlayDB::for_each_by_prefix::<Option<E>>,
            (&layers, prefix, items),
            under_a,
        ),
        call_ensures(
            OverlayDB::for_each_by_prefix::<Option<E>>,
            (&layers, prefix, clean),
            under_b,
        ),
        old(db_a)@ == old(db_b)@,
        call_ensures(
            StateDB::delete_by_prefix::<Option<E>>,
            (db_a, col, prefix, items),
            res_a,
        ),
        call_ensures(
            StateDB::delete_by_prefix::<Option<E>>,
            (db_b, col, prefix, clean),
            res_b,
        ),
    ensures
        all_a@ == all_b@,
        some_a@ == some_b@,
        rows_a@ == rows_b@,
        under_a@ == under_b@,
        res_a is Ok <==> res_b is Ok,
        res_a is Err ==> res_a == res_b,
        final(db_a)@ == final(db_b)@,
{
    law_failed_reads_are_passed_over(items@, clean@, BoundView::All);
    law_failed_reads_are_passed_over(items@, clean@, BoundView::Prefix(prefix@));
}

/// The settings follow the number of processors, and the builders of a column change what
/// they are named for and nothing else.
pub proof fn law_settings_are_built(
    cpus: usize,
    settings: DbSettings,
    name: &'static str,
    len: usize,
    count: i32,
    column: ColumnDescriptor,
    plain: ColumnDescriptor,
    small: ColumnDescriptor,
    prefixed: ColumnDescriptor,
    buffered: ColumnDescriptor,
    uncompressed: ColumnDescriptor,
)
    requires
        call_ensures(DbSettings::with_cpus, (cpus,), settings),
        call_ensures(ColumnDescriptor::plain, (name,), plain),
        call_ensures(ColumnDescriptor::small, (name,), small),
        call_ensures(ColumnDescriptor::with_prefix, (column, len), prefixed),
        call_ensures(ColumnDescriptor::with_write_buffers, (column, count), buffered),
        call_ensures(ColumnDescriptor::without_compression, (column,), uncompressed),
    ensures
        settings.create_if_missing && settings.create_missing_column_families,
        settings.max_open_files == 1024,
        cpus <= i32::MAX ==> settings.parallelism == cpus,
        plain.name@ == name@ && plain.num_levels is None && !plain.uncompressed && plain.prefix_len
            is None && plain.max_write_buffer_number is None,
        small.name@ == name@ && small.num_levels == Some(2i32) && small.uncompressed
            && small.prefix_len is None && small.max_write_buffer_number is None,
        prefixed.name@ == column.name@ && prefixed.num_levels == column.num_levels
            && prefixed.uncompressed == column.uncompressed && prefixed.prefix_len == Some(len)
            && prefixed.max_write_buffer_number == column.max_write_buffer_number,
        buffered.name@ == column.name@ && buffered.num_levels == column.num_levels
            && buffered.uncompressed == column.uncompressed && buffered.prefix_len
            == column.prefix_len && buffered.max_write_buffer_number == Some(count),
        uncompressed.name@ == column.name@ && uncompressed.num_levels == column.num_levels
            && uncompressed.uncompressed && uncompressed.prefix_len == column.prefix_len
            && uncompressed.max_write_buffer_number == column.max_write_buffer_number,
{
}

} // verus!

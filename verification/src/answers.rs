//! What reads and scans of a store answer.

use crate::codec::{
    has_prefix, law_prefix_is_the_first_bytes, lemma_lex_asymmetric, lemma_lex_irreflexive,
    lemma_lex_total, lemma_lex_transitive, lemma_prefix_not_before, lemma_prefix_segment, lex_lt,
};
use crate::store::{taken, BoundView, Fetched, Row, ScanBound, Store};
use vstd::prelude::*;

verus! {

/// `fetched` is what a read of this key answers when it does not fail: nothing, or a value
/// that `reads` relates to the bytes stored.
pub open spec fn is_answer<C, V>(
    fetched: Fetched<V>,
    store: Store<C>,
    column: C,
    key: Seq<u8>,
    reads: spec_fn(Seq<u8>, V) -> bool,
) -> bool {
    match fetched {
        Ok(Some(value)) => store.contains_key((column, key)) && reads(store[(column, key)], value),
        Ok(None) => !store.contains_key((column, key)),
        Err(_) => false,
    }
}

/// The value is the bytes themselves.
pub open spec fn verbatim() -> spec_fn(Seq<u8>, Vec<u8>) -> bool {
    |bytes: Seq<u8>, value: Vec<u8>| value@ == bytes
}

/// The value is what the bytes decode to.
pub open spec fn decoded<V>(decode: spec_fn(Seq<u8>) -> V) -> spec_fn(Seq<u8>, V) -> bool {
    |bytes: Seq<u8>, value: V| value == decode(bytes)
}

/// `items` are what an ascending scan of `column` that starts at `from` comes by when no
/// read fails: every key from `from` on, each once, in order, with a value that `reads`
/// relates to the bytes stored.
pub open spec fn is_scan<C, V>(
    items: Seq<Option<Row<V>>>,
    store: Store<C>,
    column: C,
    from: Seq<u8>,
    reads: spec_fn(Seq<u8>, V) -> bool,
) -> bool {
    &&& forall|i: int|
        0 <= i < items.len() ==> {
            &&& (#[trigger] items[i]) is Some
            &&& store.contains_key((column, items[i]->0.key@))
            &&& reads(store[(column, items[i]->0.key@)], items[i]->0.value)
            &&& !lex_lt(items[i]->0.key@, from)
        }
    &&& forall|i: int, j: int|
        0 <= i < j < items.len() ==> lex_lt(
            (#[trigger] items[i])->0.key@,
            (#[trigger] items[j])->0.key@,
        )
    &&& forall|key: Seq<u8>| #[trigger]
        store.contains_key((column, key)) && !lex_lt(key, from) ==> exists|i: int|
            0 <= i < items.len() && (#[trigger] items[i])->0.key@ == key
}

/// Strictly ascending.
pub open spec fn ascending(keys: Seq<Seq<u8>>) -> bool {
    forall|i: int, j: int| 0 <= i < j < keys.len() ==> lex_lt(#[trigger] keys[i], #[trigger] keys[j])
}

/// Two ascending sequences of the same keys are equal.
pub proof fn lemma_ascending_unique(a: Seq<Seq<u8>>, b: Seq<Seq<u8>>)
    requires
        ascending(a),
        ascending(b),
        forall|k: Seq<u8>| a.contains(k) <==> b.contains(k),
    ensures
        a == b,
{
    if a.len() <= b.len() {
        lemma_ascending_agree(a, b, a.len() as int);
        if a.len() < b.len() {
            let k = b[a.len() as int];
            assert(b.contains(k));
            let i = choose|i: int| 0 <= i < a.len() && a[i] == k;
            assert(a[i] == b[i]);
            assert(lex_lt(b[i], b[a.len() as int]));
            lemma_lex_irreflexive(k);
        }
    } else {
        lemma_ascending_agree(b, a, b.len() as int);
        let k = a[b.len() as int];
        assert(a.contains(k));
        let i = choose|i: int| 0 <= i < b.len() && b[i] == k;
        assert(b[i] == a[i]);
        assert(lex_lt(a[i], a[b.len() as int]));
        lemma_lex_irreflexive(k);
    }
    assert(a =~= b);
}

proof fn lemma_ascending_agree(a: Seq<Seq<u8>>, b: Seq<Seq<u8>>, n: int)
    requires
        ascending(a),
        ascending(b),
        forall|k: Seq<u8>| a.contains(k) <==> b.contains(k),
        0 <= n <= a.len() <= b.len(),
    ensures
        forall|i: int| 0 <= i < n ==> a[i] == b[i],
    decreases n,
{
    if n > 0 {
        let i = n - 1;
        lemma_ascending_agree(a, b, i);
        assert(a.contains(a[i]));
        assert(b.contains(b[i]));
        let j = choose|j: int| 0 <= j < b.len() && b[j] == a[i];
        let k = choose|k: int| 0 <= k < a.len() && a[k] == b[i];
        if j < i {
            assert(a[j] == b[j]);
            assert(lex_lt(a[j], a[i]));
            lemma_lex_irreflexive(a[i]);
        } else if j > i {
            assert(lex_lt(b[i], b[j]));
            if k < i {
                assert(a[k] == b[k]);
                assert(lex_lt(b[k], b[i]));
                lemma_lex_irreflexive(b[i]);
            } else if k > i {
                assert(lex_lt(a[i], a[k]));
                lemma_lex_asymmetric(a[i], b[i]);
            } else {
                lemma_lex_irreflexive(a[i]);
            }
        }
    }
}

/// The keys of the rows.
pub open spec fn row_keys<V>(rows: Seq<Row<V>>) -> Seq<Seq<u8>> {
    rows.map_values(|r: Row<V>| r.key@)
}

/// A scan without failed reads yields an initial part of what it comes by.
pub proof fn lemma_taken_initial<V>(items: Seq<Option<Row<V>>>, bound: BoundView) -> (m: int)
    requires
        forall|i: int| 0 <= i < items.len() ==> (#[trigger] items[i]) is Some,
    ensures
        0 <= m <= items.len(),
        taken(items, bound) == Seq::new(m as nat, |i: int| items[i]->0),
        forall|i: int| 0 <= i < m ==> bound.admits((#[trigger] items[i])->0.key@),
        m < items.len() ==> !bound.admits(items[m]->0.key@),
    decreases items.len(),
{
    if items.len() == 0 {
        assert(taken(items, bound) =~= Seq::new(0, |i: int| items[i]->0));
        0
    } else {
        let first = items[0];
        assert(first is Some);
        if bound.admits(first->0.key@) {
            let rest = items.skip(1);
            let k = lemma_taken_initial(rest, bound);
            let m = k + 1;
            assert(taken(items, bound) =~= Seq::new(m as nat, |i: int| items[i]->0));
            assert forall|i: int| 0 <= i < m implies bound.admits(
                (#[trigger] items[i])->0.key@,
            ) by {
                if i > 0 {
                    assert(rest[i - 1] == items[i]);
                }
            }
            if m < items.len() {
                assert(rest[k] == items[m]);
            }
            m
        } else {
            assert(taken(items, bound) =~= Seq::new(0, |i: int| items[i]->0));
            0
        }
    }
}

/// A scan over a prefix yields every stored key with that prefix from its start on, each
/// once and in order, and nothing else.
pub proof fn law_prefix_scan_is_exact<C, V>(
    items: Seq<Option<Row<V>>>,
    store: Store<C>,
    column: C,
    from: Seq<u8>,
    prefix: Seq<u8>,
    reads: spec_fn(Seq<u8>, V) -> bool,
)
    requires
        is_scan(items, store, column, from, reads),
        has_prefix(from, prefix),
    ensures
        ({
            let rows = taken(items, BoundView::Prefix(prefix));
            &&& ascending(row_keys(rows))
            &&& forall|i: int|
                0 <= i < rows.len() ==> {
                    &&& has_prefix((#[trigger] rows[i]).key@, prefix)
                    &&& !lex_lt(rows[i].key@, from)
                    &&& store.contains_key((column, rows[i].key@))
                    &&& reads(store[(column, rows[i].key@)], rows[i].value)
                }
            &&& forall|key: Seq<u8>| #[trigger]
                store.contains_key((column, key)) && has_prefix(key, prefix) && !lex_lt(key, from)
                    ==> row_keys(rows).contains(key)
        }),
{
    let bound = BoundView::Prefix(prefix);
    let rows = taken(items, bound);
    let m = lemma_taken_initial(items, bound);
    assert forall|i: int| 0 <= i < rows.len() implies {
        &&& has_prefix((#[trigger] rows[i]).key@, prefix)
        &&& !lex_lt(rows[i].key@, from)
        &&& store.contains_key((column, rows[i].key@))
        &&& reads(store[(column, rows[i].key@)], rows[i].value)
    } by {
        assert(rows[i] == items[i]->0);
        assert(bound.admits(items[i]->0.key@));
    }
    assert forall|i: int, j: int| 0 <= i < j < row_keys(rows).len() implies lex_lt(
        #[trigger] row_keys(rows)[i],
        #[trigger] row_keys(rows)[j],
    ) by {
        assert(rows[i] == items[i]->0);
        assert(rows[j] == items[j]->0);
    }
    assert forall|key: Seq<u8>| #[trigger]
        store.contains_key((column, key)) && has_prefix(key, prefix) && !lex_lt(key, from) implies row_keys(
        rows,
    ).contains(key) by {
        let i = choose|i: int| 0 <= i < items.len() && (#[trigger] items[i])->0.key@ == key;
        if i >= m {
            let stop = items[m]->0.key@;
            assert(!bound.admits(stop));
            assert(items[m] is Some);
            lemma_not_before_prefix(from, prefix, stop);
            lemma_prefix_segment(prefix, key, stop);
            if i == m {
                lemma_lex_irreflexive(key);
            } else {
                assert(lex_lt(items[m]->0.key@, items[i]->0.key@));
                lemma_lex_asymmetric(key, stop);
            }
        }
        assert(rows[i] == items[i]->0);
        assert(row_keys(rows)[i] == key);
    }
}

/// What does not precede a key with a prefix does not precede the prefix.
proof fn lemma_not_before_prefix(from: Seq<u8>, prefix: Seq<u8>, key: Seq<u8>)
    requires
        has_prefix(from, prefix),
        !lex_lt(key, from),
    ensures
        !lex_lt(key, prefix),
{
    lemma_prefix_not_before(prefix, from);
    lemma_lex_total(prefix, from);
    if lex_lt(key, prefix) && lex_lt(prefix, from) {
        lemma_lex_transitive(key, prefix, from);
    }
}

/// Which keys the bounds admit.
pub proof fn law_bounds_admit(bytes: Seq<u8>, key: Seq<u8>)
    ensures
        BoundView::All.admits(key),
        BoundView::Prefix(bytes).admits(key) <==> bytes.len() <= key.len() && forall|i: int|
            0 <= i < bytes.len() ==> #[trigger] key[i] == bytes[i],
        bytes.len() <= key.len() ==> (BoundView::Below(bytes).admits(key) <==> lex_lt(
            key.subrange(0, bytes.len() as int),
            bytes,
        )),
{
    law_prefix_is_the_first_bytes(key, bytes);
}

/// The bound of a scan is over.
pub open spec fn stopped<V>(items: Seq<Option<Row<V>>>, bound: BoundView) -> bool {
    exists|i: int|
        0 <= i < items.len() && (#[trigger] items[i]) is Some && !bound.admits(items[i]->0.key@)
}

/// What one more entry adds to a scan: nothing once an entry out of bounds has been met,
/// nothing if it could not be read or is itself out of bounds, and else its row, at the end.
pub proof fn law_scan_goes_entry_by_entry<V>(
    items: Seq<Option<Row<V>>>,
    next: Option<Row<V>>,
    bound: BoundView,
)
    ensures
        taken(Seq::<Option<Row<V>>>::empty(), bound).len() == 0,
        stopped(items, bound) ==> taken(items.push(next), bound) == taken(items, bound),
        !stopped(items, bound) ==> match next {
            None => taken(items.push(next), bound) == taken(items, bound),
            Some(row) => if bound.admits(row.key@) {
                taken(items.push(next), bound) == taken(items, bound).push(row)
            } else {
                taken(items.push(next), bound) == taken(items, bound)
            },
        },
    decreases items.len(),
{
    let longer = items.push(next);
    if items.len() == 0 {
        assert(longer.skip(1) =~= Seq::<Option<Row<V>>>::empty());
        assert(taken(longer.skip(1), bound).len() == 0);
        assert(taken(longer, bound) =~= match next {
            None => Seq::empty(),
            Some(row) => if bound.admits(row.key@) {
                seq![row]
            } else {
                Seq::empty()
            },
        });
    } else {
        let rest = items.skip(1);
        assert(longer.skip(1) =~= rest.push(next));
        assert(longer[0] == items[0]);
        law_scan_goes_entry_by_entry(rest, next, bound);
        let first_stops = items[0] is Some && !bound.admits(items[0]->0.key@);
        assert(stopped(items, bound) == (first_stops || stopped(rest, bound))) by {
            if stopped(items, bound) && !first_stops {
                let i = choose|i: int|
                    0 <= i < items.len() && (#[trigger] items[i]) is Some && !bound.admits(
                        items[i]->0.key@,
                    );
                assert(rest[i - 1] == items[i]);
            }
            if stopped(rest, bound) {
                let i = choose|i: int|
                    0 <= i < rest.len() && (#[trigger] rest[i]) is Some && !bound.admits(
                        rest[i]->0.key@,
                    );
                assert(items[i + 1] == rest[i]);
            }
            if first_stops {
                assert(items[0] is Some);
            }
        }
        match items[0] {
            None => {},
            Some(row) => {
                if bound.admits(row.key@) {
                    match next {
                        None => {},
                        Some(last) => {
                            assert(seq![row] + taken(rest, bound).push(last) =~= (seq![row]
                                + taken(rest, bound)).push(last));
                        },
                    }
                }
            },
        }
    }
}

/// The rows that are collected are those of the scan, whose bound is what it says.
pub proof fn law_rows_are_collected<V>(
    bound: ScanBound,
    items: Vec<Option<Row<V>>>,
    rows: Vec<Row<V>>,
    prefix: Seq<u8>,
)
    requires
        call_ensures(ScanBound::collect::<V>, (&bound, items), rows),
    ensures
        rows@ == taken(items@, bound@),
        bound@ == BoundView::Prefix(prefix) <==> (bound matches ScanBound::Prefix(p) && p@
            == prefix),
        bound@ == BoundView::Below(prefix) <==> (bound matches ScanBound::Below(u) && u@ == prefix),
        bound@ == BoundView::All <==> bound is All,
{
}

/// A scan goes on after an entry unless the entry is out of bounds.
pub proof fn law_scan_goes_on<V>(
    bound: ScanBound,
    item: Option<Row<V>>,
    more: bool,
    key: &[u8],
    admitted: bool,
)
    requires
        call_ensures(ScanBound::admits, (&bound, key), admitted),
        call_ensures(ScanBound::wants_more::<V>, (&bound, &item), more),
    ensures
        more == !stopped(seq![item], bound@),
        admitted == match bound {
            ScanBound::All => true,
            ScanBound::Prefix(p) => has_prefix(key@, p@),
            ScanBound::Below(u) => lex_lt(key@.take(u@.len() as int), u@),
        },
{
    let items = seq![item];
    if !more {
        assert(items[0] is Some);
    }
}

/// A scan over a whole column yields each of its keys once, in order, with its value, and
/// nothing else.
pub proof fn law_column_scan_is_exact<C, V>(
    items: Seq<Option<Row<V>>>,
    store: Store<C>,
    column: C,
    reads: spec_fn(Seq<u8>, V) -> bool,
)
    requires
        is_scan(items, store, column, Seq::empty(), reads),
    ensures
        ({
            let rows = taken(items, BoundView::All);
            &&& rows.len() == items.len()
            &&& forall|i: int|
                0 <= i < rows.len() ==> {
                    &&& Some(#[trigger] rows[i]) == items[i]
                    &&& store.contains_key((column, rows[i].key@))
                    &&& reads(store[(column, rows[i].key@)], rows[i].value)
                }
            &&& forall|i: int, j: int|
                0 <= i < j < rows.len() ==> lex_lt(
                    (#[trigger] rows[i]).key@,
                    (#[trigger] rows[j]).key@,
                )
            &&& forall|key: Seq<u8>| #[trigger]
                store.contains_key((column, key)) ==> exists|i: int|
                    0 <= i < rows.len() && (#[trigger] rows[i]).key@ == key
        }),
{
    let rows = taken(items, BoundView::All);
    let m = lemma_taken_initial(items, BoundView::All);
    assert forall|i: int| 0 <= i < rows.len() implies {
        &&& Some(#[trigger] rows[i]) == items[i]
        &&& store.contains_key((column, rows[i].key@))
        &&& reads(store[(column, rows[i].key@)], rows[i].value)
    } by {
        assert(items[i] is Some);
    }
    assert forall|i: int, j: int| 0 <= i < j < rows.len() implies lex_lt(
        (#[trigger] rows[i]).key@,
        (#[trigger] rows[j]).key@,
    ) by {
        assert(lex_lt(items[i]->0.key@, items[j]->0.key@));
    }
    assert forall|key: Seq<u8>| #[trigger]
        store.contains_key((column, key)) implies exists|i: int|
        0 <= i < rows.len() && (#[trigger] rows[i]).key@ == key by {
        assert(!lex_lt(key, Seq::<u8>::empty()));
        let i = choose|i: int| 0 <= i < items.len() && (#[trigger] items[i])->0.key@ == key;
        assert(rows[i].key@ == key);
    }
}

/// Entries that could not be read are passed over: leaving them out changes nothing.
pub proof fn law_failed_reads_are_passed_over<V>(
    items: Seq<Option<Row<V>>>,
    clean: Seq<Option<Row<V>>>,
    bound: BoundView,
)
    requires
        clean == items.filter(|item: Option<Row<V>>| item is Some),
    ensures
        taken(items, bound) == taken(clean, bound),
    decreases items.len(),
{
    reveal(Seq::filter);
    let is_read = |item: Option<Row<V>>| item is Some;
    if items.len() > 0 {
        let before = items.drop_last();
        let kept = before.filter(is_read);
        law_failed_reads_are_passed_over(before, kept, bound);
        assert(items =~= before.push(items.last()));
        law_scan_goes_entry_by_entry(before, items.last(), bound);
        lemma_stopped_filter(before, kept, bound);
        if items.last() is Some {
            law_scan_goes_entry_by_entry(kept, items.last(), bound);
        }
    }
}

proof fn lemma_stopped_filter<V>(
    items: Seq<Option<Row<V>>>,
    clean: Seq<Option<Row<V>>>,
    bound: BoundView,
)
    requires
        clean == items.filter(|item: Option<Row<V>>| item is Some),
    ensures
        stopped(items, bound) == stopped(clean, bound),
    decreases items.len(),
{
    reveal(Seq::filter);
    let is_read = |item: Option<Row<V>>| item is Some;
    if items.len() > 0 {
        let before = items.drop_last();
        let kept = before.filter(is_read);
        lemma_stopped_filter(before, kept, bound);
        lemma_stopped_push(before, items.last(), bound);
        assert(items =~= before.push(items.last()));
        if items.last() is Some {
            lemma_stopped_push(kept, items.last(), bound);
        }
    }
}

proof fn lemma_stopped_push<V>(
    items: Seq<Option<Row<V>>>,
    next: Option<Row<V>>,
    bound: BoundView,
)
    ensures
        stopped(items.push(next), bound) == (stopped(items, bound) || (next is Some
            && !bound.admits(next->0.key@))),
{
    let longer = items.push(next);
    if stopped(longer, bound) {
        let i = choose|i: int|
            0 <= i < longer.len() && (#[trigger] longer[i]) is Some && !bound.admits(
                longer[i]->0.key@,
            );
        if i < items.len() {
            assert(items[i] == longer[i]);
        }
    }
    if stopped(items, bound) {
        let i = choose|i: int|
            0 <= i < items.len() && (#[trigger] items[i]) is Some && !bound.admits(
                items[i]->0.key@,
            );
        assert(longer[i] == items[i]);
    }
    assert(longer[items.len() as int] == next);
}

} // verus!

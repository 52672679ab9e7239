//! What an ordered key-value store is asked and what it answers: single reads, scans and
//! batches of writes. The store itself lives outside; [`Store`] is its mathematical image.

use crate::codec::{has_prefix, lex_lt, precedes, starts_with};
use vstd::prelude::*;

verus! {

/// The contents of a store: the value of each key of each column.
pub type Store<C> = Map<(C, Seq<u8>), Seq<u8>>;

/// What a single read answers: a value, nothing under that key, or the store's error text.
pub type Fetched<V> = Result<Option<V>, String>;

/// A single read.
#[derive(Debug)]
pub struct GetRequest<C> {
    pub column: C,
    pub key: Vec<u8>,
}

/// An ascending scan that starts at `from` and goes on as long as `bound` admits the keys.
#[derive(Debug)]
pub struct ScanRequest<C> {
    pub column: C,
    pub from: Vec<u8>,
    pub bound: ScanBound,
}

/// One entry that a scan came by.
#[derive(Debug)]
pub struct Row<V> {
    pub key: Vec<u8>,
    pub value: V,
}

/// How far a scan goes.
#[derive(Debug)]
pub enum ScanBound {
    /// To the end of the column.
    All,
    /// Over the keys that begin with these bytes.
    Prefix(Vec<u8>),
    /// Over the keys whose leading bytes precede these, which are of the same number.
    Below(Vec<u8>),
}

/// [`ScanBound`] over byte sequences.
pub enum BoundView {
    All,
    Prefix(Seq<u8>),
    Below(Seq<u8>),
}

impl View for ScanBound {
    type V = BoundView;

    open spec fn view(&self) -> BoundView {
        match self {
            ScanBound::All => BoundView::All,
            ScanBound::Prefix(p) => BoundView::Prefix(p@),
            ScanBound::Below(u) => BoundView::Below(u@),
        }
    }
}

impl BoundView {
    /// The scan goes on over this key.
    pub open spec fn admits(self, key: Seq<u8>) -> bool {
        match self {
            BoundView::All => true,
            BoundView::Prefix(p) => has_prefix(key, p),
            BoundView::Below(u) => lex_lt(key.take(u.len() as int), u),
        }
    }

    /// The number of leading bytes of a key that the bound looks at.
    pub open spec fn head_len(self) -> nat {
        match self {
            BoundView::Below(u) => u.len(),
            _ => 0,
        }
    }
}

/// The rows that a scan yields. Entries that could not be read are passed over; the first
/// entry that the bound does not admit ends the scan.
pub open spec fn taken<V>(items: Seq<Option<Row<V>>>, bound: BoundView) -> Seq<Row<V>>
    decreases items.len(),
{
    if items.len() == 0 {
        Seq::empty()
    } else {
        match items[0] {
            None => taken(items.skip(1), bound),
            Some(row) => if bound.admits(row.key@) {
                seq![row] + taken(items.skip(1), bound)
            } else {
                Seq::empty()
            },
        }
    }
}

/// Every key that the scan looks at, the one that ends it included, has `n` bytes or more.
pub open spec fn keys_reach<V>(items: Seq<Option<Row<V>>>, bound: BoundView, n: nat) -> bool
    decreases items.len(),
{
    items.len() == 0 || match items[0] {
        None => keys_reach(items.skip(1), bound, n),
        Some(row) => row.key@.len() >= n && (bound.admits(row.key@) ==> keys_reach(
            items.skip(1),
            bound,
            n,
        )),
    }
}

impl ScanBound {
    /// Whether the scan goes on over this key.
    pub fn admits(&self, key: &[u8]) -> (yes: bool)
        requires
            key@.len() >= self@.head_len(),
        ensures
            yes == self@.admits(key@),
    {
        match self {
            ScanBound::All => true,
            ScanBound::Prefix(p) => starts_with(key, p.as_slice()),
            ScanBound::Below(u) => {
                let head = vstd::slice::slice_subrange(key, 0, u.len());
                assert(head@ =~= key@.take(u@.len() as int));
                precedes(head, u.as_slice())
            },
        }
    }

    /// Whether anything after `item` can still belong to the scan.
    pub fn wants_more<V>(&self, item: &Option<Row<V>>) -> (more: bool)
        requires
            item matches Some(row) ==> row.key@.len() >= self@.head_len(),
        ensures
            more == (item matches Some(row) ==> self@.admits(row.key@)),
    {
        match item {
            None => true,
            Some(row) => self.admits(row.key.as_slice()),
        }
    }

    /// The rows that the scan yields out of the entries it came by.
    pub fn collect<V>(&self, items: Vec<Option<Row<V>>>) -> (rows: Vec<Row<V>>)
        requires
            keys_reach(items@, self@, self@.head_len()),
        ensures
            rows@ == taken(items@, self@),
    {
        let mut rows: Vec<Row<V>> = Vec::new();
        let mut open: bool = true;
        let ghost all = items@;
        proof {
            assert(all.skip(0) =~= all);
            assert(rows@ + taken(all, self@) =~= taken(all, self@));
        }
        for item in it: items
            invariant
                it.seq() == all,
                open ==> rows@ + taken(all.skip(it.index() as int), self@) == taken(all, self@),
                open ==> keys_reach(all.skip(it.index() as int), self@, self@.head_len()),
                !open ==> rows@ == taken(all, self@),
        {
            let ghost i = it.index() as int;
            proof {
                assert(all.skip(i)[0] == all[i]);
                assert(all.skip(i).skip(1) =~= all.skip(i + 1));
            }
            if open {
                match item {
                    None => {},
                    Some(row) => {
                        if self.admits(row.key.as_slice()) {
                            let ghost before = rows@;
                            let ghost rest = taken(all.skip(i + 1), self@);
                            rows.push(row);
                            assert(before + (seq![row] + rest) =~= rows@ + rest);
                        } else {
                            open = false;
                            assert(rows@ + Seq::<Row<V>>::empty() =~= rows@);
                        }
                    },
                }
            }
        }
        proof {
            assert(all.skip(all.len() as int).len() == 0);
            assert(rows@ + Seq::<Row<V>>::empty() =~= rows@);
        }
        rows
    }
}

/// Any key has at least no bytes.
pub proof fn lemma_keys_reach_zero<V>(items: Seq<Option<Row<V>>>, bound: BoundView)
    ensures
        keys_reach(items, bound, 0),
    decreases items.len(),
{
    if items.len() > 0 {
        lemma_keys_reach_zero(items.skip(1), bound);
    }
}

/// A scan may stop reading at the first entry that its bound does not admit: nothing behind
/// it adds a row.
pub proof fn law_scan_may_stop<V>(items: Seq<Option<Row<V>>>, bound: BoundView, n: int)
    requires
        0 <= n < items.len(),
        items[n] matches Some(row) && !bound.admits(row.key@),
    ensures
        taken(items, bound) == taken(items.take(n + 1), bound),
    decreases items.len(),
{
    let head = items.take(n + 1);
    assert(head[0] == items[0]);
    if n > 0 {
        assert(items.skip(1).take(n) =~= head.skip(1));
        assert(items.skip(1)[n - 1] == items[n]);
        law_scan_may_stop(items.skip(1), bound, n - 1);
    }
}

} // verus!

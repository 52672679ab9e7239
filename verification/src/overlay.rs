//! Layers of writes that wait above a store. The newest layer takes the writes; layers leave
//! for the store from the oldest on, or are discarded.

use crate::batch::{op_views, BatchOp, OpView};
use crate::state_error::StateError;
use crate::store::{
    lemma_keys_reach_zero, taken, BoundView, Fetched, GetRequest, Row, ScanBound, ScanRequest,
};
use std::collections::VecDeque;
use vstd::prelude::*;
use vstd::slice::slice_to_vec;

verus! {

/// One layer: a batch of writes. Columns are given by their index.
#[derive(Debug)]
pub struct OverlayWriteBatch {
    ops: Vec<BatchOp<usize>>,
}

impl View for OverlayWriteBatch {
    type V = Seq<OpView<usize>>;

    closed spec fn view(&self) -> Seq<OpView<usize>> {
        op_views(self.ops@)
    }
}

impl OverlayWriteBatch {
    /// A layer without writes.
    pub fn new() -> (wb: OverlayWriteBatch)
        ensures
            wb@ == Seq::<OpView<usize>>::empty(),
    {
        let wb = OverlayWriteBatch { ops: Vec::new() };
        assert(wb@ =~= Seq::<OpView<usize>>::empty());
        wb
    }

    /// A layer without writes. The capacity is a hint and not used.
    pub fn with_capacity(_cap: usize) -> (wb: OverlayWriteBatch)
        ensures
            wb@ == Seq::<OpView<usize>>::empty(),
    {
        OverlayWriteBatch::new()
    }

    /// The writes, in order.
    pub fn ops(&self) -> (ops: &Vec<BatchOp<usize>>)
        ensures
            op_views(ops@) == self@,
    {
        &self.ops
    }

    /// The writes, in order.
    pub fn into_ops(self) -> (ops: Vec<BatchOp<usize>>)
        ensures
            op_views(ops@) == self@,
    {
        self.ops
    }

    /// Adds the write of a value.
    pub fn put(&mut self, col: usize, key: &[u8], value: &[u8])
        ensures
            final(self)@ == old(self)@.push(
                OpView::Put { column: col, key: key@, value: value@ },
            ),
    {
        self.ops.push(
            BatchOp::Put { column: col, key: slice_to_vec(key), value: slice_to_vec(value) },
        );
        assert(self@ =~= old(self)@.push(OpView::Put { column: col, key: key@, value: value@ }));
    }

    /// Adds the deletion of a key.
    pub fn delete(&mut self, col: usize, key: &[u8])
        ensures
            final(self)@ == old(self)@.push(OpView::Delete { column: col, key: key@ }),
    {
        self.ops.push(BatchOp::Delete { column: col, key: slice_to_vec(key) });
        assert(self@ =~= old(self)@.push(OpView::Delete { column: col, key: key@ }));
    }

    /// Layers are not searched: the read is always refused.
    pub fn get(&self, _key: &[u8]) -> (res: Result<Option<Vec<u8>>, StateError>)
        ensures
            res == Err::<Option<Vec<u8>>, _>(StateError::CacheDisabled),
    {
        Err(StateError::CacheDisabled)
    }

    /// Layers are not searched: nothing is found.
    pub fn get_by_prefix(&self, _prefix: &[u8]) -> (value: Option<Vec<u8>>)
        ensures
            value is None,
    {
        None
    }

    /// Layers are not searched: nothing is listed.
    pub fn iter(&self) -> (rows: Vec<Row<Vec<u8>>>)
        ensures
            rows@.len() == 0,
    {
        Vec::new()
    }

    /// Layers are not searched: nothing is listed.
    pub fn iter_with_prefix(&self, _prefix: &[u8]) -> (rows: Vec<Row<Vec<u8>>>)
        ensures
            rows@.len() == 0,
    {
        Vec::new()
    }
}

/// The layers above a store, the oldest first.
#[derive(Debug)]
pub struct OverlayDB {
    layers: VecDeque<OverlayWriteBatch>,
}

/// The writes of each layer.
pub open spec fn layer_views(layers: Seq<OverlayWriteBatch>) -> Seq<Seq<OpView<usize>>> {
    layers.map_values(|wb: OverlayWriteBatch| wb@)
}

impl View for OverlayDB {
    type V = Seq<Seq<OpView<usize>>>;

    closed spec fn view(&self) -> Seq<Seq<OpView<usize>>> {
        layer_views(self.layers@)
    }
}

/// The deletions of the keys of these rows, in order.
pub open spec fn row_deletions<V>(col: usize, rows: Seq<Row<V>>) -> Seq<OpView<usize>> {
    rows.map_values(|r: Row<V>| OpView::Delete { column: col, key: r.key@ })
}

/// The layers with these writes added to the newest.
pub open spec fn with_writes(
    layers: Seq<Seq<OpView<usize>>>,
    ops: Seq<OpView<usize>>,
) -> Seq<Seq<OpView<usize>>> {
    layers.update(layers.len() - 1, layers.last() + ops)
}

/// Calls `VecDeque::back_mut`: a mutable reference to the last element, or none where there
/// is no element. What is written through it becomes the last element.
#[verifier::external_body]
pub(crate) fn deque_back_mut<T>(deque: &mut VecDeque<T>) -> (last: Option<&mut T>)
    ensures
        old(deque)@.len() == 0 ==> last is None && final(deque)@ == old(deque)@,
        old(deque)@.len() > 0 ==> last is Some && *last->0 == old(deque)@.last()
            && final(deque)@ == old(deque)@.update(old(deque)@.len() - 1, *final(last->0)),
{
    deque.back_mut()
}

/// The read of one key.
pub fn key_request(col: usize, key: &[u8]) -> (request: GetRequest<usize>)
    ensures
        request.column == col,
        request.key@ == key@,
{
    GetRequest { column: col, key: slice_to_vec(key) }
}

/// The scan over a whole column.
pub fn column_request(col: usize) -> (request: ScanRequest<usize>)
    ensures
        request.column == col,
        request.from@ == Seq::<u8>::empty(),
        request.bound@ == BoundView::All,
{
    ScanRequest { column: col, from: Vec::new(), bound: ScanBound::All }
}

/// The scan over the keys of a column that begin with `prefix`.
pub fn prefix_request(col: usize, prefix: &[u8]) -> (request: ScanRequest<usize>)
    ensures
        request.column == col,
        request.from@ == prefix@,
        request.bound@ == BoundView::Prefix(prefix@),
{
    ScanRequest {
        column: col,
        from: slice_to_vec(prefix),
        bound: ScanBound::Prefix(slice_to_vec(prefix)),
    }
}

impl OverlayDB {
    /// No layers.
    pub fn new() -> (db: OverlayDB)
        ensures
            db@ == Seq::<Seq<OpView<usize>>>::empty(),
    {
        let db = OverlayDB { layers: VecDeque::with_capacity(9) };
        assert(db@ =~= Seq::<Seq<OpView<usize>>>::empty());
        db
    }

    /// The number of layers.
    pub fn len(&self) -> (n: usize)
        ensures
            n == self@.len(),
    {
        self.layers.len()
    }

    /// Puts a layer on top. It waits there; nothing is written to the store.
    pub fn write(&mut self, wb: OverlayWriteBatch) -> (res: Result<(), StateError>)
        ensures
            res is Ok,
            final(self)@ == old(self)@.push(wb@),
    {
        self.push_layer(wb);
        Ok(())
    }

    /// Puts a layer on top.
    pub fn push_layer(&mut self, wb: OverlayWriteBatch)
        ensures
            final(self)@ == old(self)@.push(wb@),
    {
        self.layers.push_back(wb);
        assert(self@ =~= old(self)@.push(wb@));
    }

    /// The newest layer.
    pub(crate) fn last_layer(&mut self) -> (layer: Option<&mut OverlayWriteBatch>)
        ensures
            old(self)@.len() == 0 ==> layer is None && final(self)@ == old(self)@,
            old(self)@.len() > 0 ==> layer is Some && layer->0@ == old(self)@.last() && final(self)@
                == old(self)@.update(old(self)@.len() - 1, final(layer->0)@),
    {
        deque_back_mut(&mut self.layers)
    }

    /// Takes the oldest layer.
    pub(crate) fn pop_oldest(&mut self) -> (layer: Option<OverlayWriteBatch>)
        ensures
            old(self)@.len() == 0 ==> layer is None && final(self)@ == old(self)@,
            old(self)@.len() > 0 ==> (layer matches Some(wb) && wb@ == old(self)@[0])
                && final(self)@ == old(self)@.skip(1),
    {
        let layer = self.layers.pop_front();
        proof {
            if old(self)@.len() > 0 {
                assert(self@ =~= old(self)@.skip(1));
            }
        }
        layer
    }

    /// Takes the newest layer.
    pub(crate) fn pop_newest(&mut self) -> (layer: Option<OverlayWriteBatch>)
        ensures
            old(self)@.len() == 0 ==> layer is None && final(self)@ == old(self)@,
            old(self)@.len() > 0 ==> (layer matches Some(wb) && wb@ == old(self)@.last())
                && final(self)@ == old(self)@.drop_last(),
    {
        let layer = self.layers.pop_back();
        proof {
            if old(self)@.len() > 0 {
                assert(self@ =~= old(self)@.drop_last());
            }
        }
        layer
    }

    /// Takes all layers, to be written to the store one after the other.
    pub fn finalize_layers(&mut self) -> (run: Finalization)
        ensures
            final(self)@ == Seq::<Seq<OpView<usize>>>::empty(),
            run@ == old(self)@,
    {
        let mut queue: VecDeque<OverlayWriteBatch> = VecDeque::new();
        queue.append(&mut self.layers);
        assert(self@ =~= Seq::<Seq<OpView<usize>>>::empty());
        assert(queue@ =~= old(self).layers@);
        Finalization { queue }
    }

    /// Drops all layers.
    pub fn discard_layers(&mut self) -> (res: Result<(), StateError>)
        ensures
            res is Ok,
            final(self)@ == Seq::<Seq<OpView<usize>>>::empty(),
    {
        self.layers.clear();
        assert(self@ =~= Seq::<Seq<OpView<usize>>>::empty());
        Ok(())
    }

    /// The value of a key, by what its read answered. The layers are not searched.
    pub fn get<T>(&self, stored: Fetched<T>) -> (res: Result<Option<T>, StateError>)
        ensures
            match stored {
                Ok(value) => res == Ok::<_, StateError>(value),
                Err(e) => res == Err::<Option<T>, _>(StateError::Read(e)),
            },
    {
        match stored {
            Ok(value) => Ok(value),
            Err(e) => Err(StateError::Read(e)),
        }
    }

    /// The value of a key, by what its read answered. The layers are not searched, so the
    /// number of layers to skip has no effect.
    pub fn get_skipped<T>(&self, _n: usize, stored: Fetched<T>) -> (res: Result<
        Option<T>,
        StateError,
    >)
        ensures
            match stored {
                Ok(value) => res == Ok::<_, StateError>(value),
                Err(e) => res == Err::<Option<T>, _>(StateError::Read(e)),
            },
    {
        self.get(stored)
    }

    /// Nothing is found by prefix.
    pub fn get_by_prefix(&self, _col: usize, _prefix: &[u8]) -> (value: Option<Vec<u8>>)
        ensures
            value is None,
    {
        None
    }

    /// The rows of a column, out of what a scan from its beginning came by.
    pub fn for_each<V>(&self, items: Vec<Option<Row<V>>>) -> (rows: Vec<Row<V>>)
        ensures
            rows@ == taken(items@, BoundView::All),
    {
        proof {
            lemma_keys_reach_zero(items@, BoundView::All);
        }
        ScanBound::All.collect(items)
    }

    /// The rows with a prefix, out of what a scan from the prefix on came by.
    pub fn for_each_by_prefix<V>(&self, prefix: &[u8], items: Vec<Option<Row<V>>>) -> (rows: Vec<
        Row<V>,
    >)
        ensures
            rows@ == taken(items@, BoundView::Prefix(prefix@)),
    {
        let bound = ScanBound::Prefix(slice_to_vec(prefix));
        proof {
            lemma_keys_reach_zero(items@, bound@);
        }
        bound.collect(items)
    }

    /// Adds the write of a value to the newest layer.
    pub(crate) fn put(&mut self, col: usize, key: &[u8], value: &[u8]) -> (res: Result<
        (),
        StateError,
    >)
        ensures
            if old(self)@.len() == 0 {
                res == Err::<(), _>(StateError::NoLayersFound) && final(self)@ == old(self)@
            } else {
                res is Ok && final(self)@ == with_writes(
                    old(self)@,
                    seq![OpView::Put { column: col, key: key@, value: value@ }],
                )
            },
    {
        match self.last_layer() {
            None => Err(StateError::NoLayersFound),
            Some(wb) => {
                wb.put(col, key, value);
                proof {
                    let op = OpView::Put { column: col, key: key@, value: value@ };
                    assert(old(self)@.last() + seq![op] =~= old(self)@.last().push(op));
                }
                Ok(())
            },
        }
    }

    /// Adds the deletion of a key to the newest layer.
    pub fn delete(&mut self, col: usize, key: &[u8]) -> (res: Result<(), StateError>)
        ensures
            if old(self)@.len() == 0 {
                res == Err::<(), _>(StateError::NoLayersFound) && final(self)@ == old(self)@
            } else {
                res is Ok && final(self)@ == with_writes(
                    old(self)@,
                    seq![OpView::Delete { column: col, key: key@ }],
                )
            },
    {
        match self.last_layer() {
            None => Err(StateError::NoLayersFound),
            Some(wb) => {
                wb.delete(col, key);
                proof {
                    let op = OpView::Delete { column: col, key: key@ };
                    assert(old(self)@.last() + seq![op] =~= old(self)@.last().push(op));
                }
                Ok(())
            },
        }
    }

    /// Adds the deletion of every key with a prefix to the newest layer, out of what a scan
    /// from the prefix on came by. Where there are such keys and no layer, it fails.
    pub fn delete_by_prefix<V>(
        &mut self,
        col: usize,
        prefix: &[u8],
        items: Vec<Option<Row<V>>>,
    ) -> (res: Result<(), StateError>)
        ensures
            ({
                let rows = taken(items@, BoundView::Prefix(prefix@));
                if old(self)@.len() == 0 {
                    &&& final(self)@ == old(self)@
                    &&& rows.len() == 0 ==> res is Ok
                    &&& rows.len() > 0 ==> res == Err::<(), _>(StateError::NoLayersFound)
                } else {
                    res is Ok && final(self)@ == with_writes(
                        old(self)@,
                        row_deletions(col, rows),
                    )
                }
            }),
    {
        let rows = self.for_each_by_prefix(prefix, items);
        let ghost before = self@;
        let ghost dels = row_deletions(col, rows@);
        let mut i: usize = 0;
        proof {
            if before.len() > 0 {
                assert(before.last() + dels.take(0) =~= before.last());
                assert(with_writes(before, dels.take(0)) =~= before);
            }
        }
        while i < rows.len()
            invariant
                i <= rows@.len(),
                before == old(self)@,
                dels == row_deletions(col, rows@),
                rows@ == taken(items@, BoundView::Prefix(prefix@)),
                before.len() == 0 ==> self@ == before && i == 0,
                before.len() > 0 ==> self@ == with_writes(before, dels.take(i as int)),
            decreases rows@.len() - i,
        {
            match self.delete(col, rows[i].key.as_slice()) {
                Err(e) => {
                    return Err(e);
                },
                Ok(()) => {},
            }
            proof {
                let done = dels.take(i as int);
                let op = OpView::Delete { column: col, key: rows@[i as int].key@ };
                assert(dels.take(i + 1) =~= done.push(op));
                assert(before.last() + done + seq![op] =~= before.last() + done.push(op));
                assert(with_writes(with_writes(before, done), seq![op]) =~= with_writes(
                    before,
                    done.push(op),
                ));
            }
            i += 1;
        }
        assert(dels.take(dels.len() as int) =~= dels);
        Ok(())
    }
}

/// Layers on their way to the store, the oldest first.
#[derive(Debug)]
pub struct Finalization {
    queue: VecDeque<OverlayWriteBatch>,
}

impl View for Finalization {
    type V = Seq<Seq<OpView<usize>>>;

    closed spec fn view(&self) -> Seq<Seq<OpView<usize>>> {
        layer_views(self.queue@)
    }
}

/// What is to be done next.
#[derive(Debug)]
pub enum FinalizeStep {
    /// Write this layer to the store and report how that went.
    Write(OverlayWriteBatch),
    /// Nothing more; this is the outcome.
    Finished(Result<(), StateError>),
}

impl Finalization {
    /// The next step, given how the last write went (`Ok` at the start). The first failed
    /// write ends the run, and the layers behind it are dropped.
    pub fn step(&mut self, last: Result<(), String>) -> (step: FinalizeStep)
        ensures
            match last {
                Err(e) => step == FinalizeStep::Finished(Err(StateError::Write(e)))
                    && final(self)@ == Seq::<Seq<OpView<usize>>>::empty(),
                Ok(()) => if old(self)@.len() == 0 {
                    step == FinalizeStep::Finished(Ok(())) && final(self)@ == old(self)@
                } else {
                    (step matches FinalizeStep::Write(wb) && wb@ == old(self)@[0]) && final(self)@
                        == old(self)@.skip(1)
                },
            },
    {
        match last {
            Err(e) => {
                self.queue.clear();
                assert(self@ =~= Seq::<Seq<OpView<usize>>>::empty());
                FinalizeStep::Finished(Err(StateError::Write(e)))
            },
            Ok(()) => match self.queue.pop_front() {
                None => FinalizeStep::Finished(Ok(())),
                Some(wb) => {
                    assert(self@ =~= old(self)@.skip(1));
                    FinalizeStep::Write(wb)
                },
            },
        }
    }
}

} // verus!

//! Batches of writes and their effect on a store.

use crate::store::Store;
use vstd::prelude::*;

verus! {

/// One write. A batch is a sequence of them, carried out in order and all together.
#[derive(Debug)]
pub enum BatchOp<C> {
    Put { column: C, key: Vec<u8>, value: Vec<u8> },
    Delete { column: C, key: Vec<u8> },
}

/// [`BatchOp`] over byte sequences.
pub enum OpView<C> {
    Put { column: C, key: Seq<u8>, value: Seq<u8> },
    Delete { column: C, key: Seq<u8> },
}

impl<C> View for BatchOp<C> {
    type V = OpView<C>;

    open spec fn view(&self) -> OpView<C> {
        match self {
            BatchOp::Put { column, key, value } => OpView::Put {
                column: *column,
                key: key@,
                value: value@,
            },
            BatchOp::Delete { column, key } => OpView::Delete { column: *column, key: key@ },
        }
    }
}

/// The writes of a batch, in order.
pub open spec fn op_views<C>(ops: Seq<BatchOp<C>>) -> Seq<OpView<C>> {
    ops.map_values(|op: BatchOp<C>| op@)
}

/// The store after one write.
pub open spec fn apply_op<C>(store: Store<C>, op: OpView<C>) -> Store<C> {
    match op {
        OpView::Put { column, key, value } => store.insert((column, key), value),
        OpView::Delete { column, key } => store.remove((column, key)),
    }
}

/// The store after a batch.
pub open spec fn apply_ops<C>(store: Store<C>, ops: Seq<OpView<C>>) -> Store<C>
    decreases ops.len(),
{
    if ops.len() == 0 {
        store
    } else {
        apply_op(apply_ops(store, ops.drop_last()), ops.last())
    }
}

/// A write at the end of a batch is carried out last.
pub proof fn lemma_apply_push<C>(store: Store<C>, ops: Seq<OpView<C>>, op: OpView<C>)
    ensures
        apply_ops(store, ops.push(op)) == apply_op(apply_ops(store, ops), op),
{
    assert(ops.push(op).drop_last() =~= ops);
}

/// Two batches in a row have the effect of their concatenation.
pub proof fn lemma_apply_concat<C>(store: Store<C>, first: Seq<OpView<C>>, second: Seq<OpView<C>>)
    ensures
        apply_ops(store, first + second) == apply_ops(apply_ops(store, first), second),
    decreases second.len(),
{
    if second.len() == 0 {
        assert(first + second =~= first);
    } else {
        assert((first + second).drop_last() =~= first + second.drop_last());
        lemma_apply_concat(store, first, second.drop_last());
    }
}

/// The key that a write is about.
pub open spec fn op_target<C>(op: OpView<C>) -> (C, Seq<u8>) {
    match op {
        OpView::Put { column, key, .. } => (column, key),
        OpView::Delete { column, key } => (column, key),
    }
}

/// Some write of the batch is about this key.
pub open spec fn touches<C>(ops: Seq<OpView<C>>, at: (C, Seq<u8>)) -> bool {
    exists|i: int| 0 <= i < ops.len() && op_target(#[trigger] ops[i]) == at
}

/// A batch decides on its own what is stored under the keys that it is about, and leaves the
/// others as they were.
pub proof fn law_batch_is_local<C>(
    store: Store<C>,
    other: Store<C>,
    ops: Seq<OpView<C>>,
    at: (C, Seq<u8>),
)
    ensures
        ({
            let after = apply_ops(store, ops);
            if touches(ops, at) {
                let elsewhere = apply_ops(other, ops);
                &&& after.contains_key(at) == elsewhere.contains_key(at)
                &&& after.contains_key(at) ==> after[at] == elsewhere[at]
            } else {
                &&& after.contains_key(at) == store.contains_key(at)
                &&& after.contains_key(at) ==> after[at] == store[at]
            }
        }),
    decreases ops.len(),
{
    if ops.len() > 0 {
        let fewer = ops.drop_last();
        law_batch_is_local(store, other, fewer, at);
        if op_target(ops.last()) == at {
            assert(op_target(ops[ops.len() - 1]) == at);
        } else if touches(ops, at) {
            let i = choose|i: int| 0 <= i < ops.len() && op_target(#[trigger] ops[i]) == at;
            assert(op_target(fewer[i]) == at);
        } else if touches(fewer, at) {
            let i = choose|i: int| 0 <= i < fewer.len() && op_target(#[trigger] fewer[i]) == at;
            assert(op_target(ops[i]) == at);
        }
    }
}

/// A batch that is carried out a second time changes nothing.
pub proof fn law_batch_is_idempotent<C>(store: Store<C>, ops: Seq<OpView<C>>)
    ensures
        apply_ops(apply_ops(store, ops), ops) == apply_ops(store, ops),
{
    let once = apply_ops(store, ops);
    let twice = apply_ops(once, ops);
    assert forall|at: (C, Seq<u8>)| #[trigger]
        twice.contains_key(at) == once.contains_key(at) && (once.contains_key(at) ==> twice[at]
            == once[at]) by {
        law_batch_is_local(once, store, ops, at);
    }
    assert(twice =~= once);
}

/// What a batch does, write by write: a put sets the value of its key, a deletion takes its
/// key out, and each acts on what the writes before it left.
pub proof fn law_batch_goes_write_by_write<C>(
    store: Store<C>,
    batch: Seq<BatchOp<C>>,
    next: BatchOp<C>,
)
    ensures
        apply_ops(store, op_views(Seq::<BatchOp<C>>::empty())) == store,
        ({
            let before = apply_ops(store, op_views(batch));
            let after = apply_ops(store, op_views(batch.push(next)));
            match next {
                BatchOp::Put { column, key, value } => after == before.insert(
                    (column, key@),
                    value@,
                ),
                BatchOp::Delete { column, key } => after == before.remove((column, key@)),
            }
        }),
{
    assert(op_views(batch.push(next)) =~= op_views(batch).push(next@));
    lemma_apply_push(store, op_views(batch), next@);
}

} // verus!

//! The writer-private operation log: pending mutation records and their
//! meaning as functions over the logical contents of a buffer.

use vstd::prelude::*;

verus! {

/// Marker for a value cell that is *not* responsible for destroying its
/// value: the twin cell in the other buffer copy (or the pending log entry
/// that will mint that twin) carries the responsibility instead.
pub struct NoDrop;

/// One pending mutation, recorded by the writer between publishes.
///
/// An `Insert` additionally carries the ghost identity of the logical value
/// it introduces, so that the cell it creates in each buffer copy can be
/// traced back to the same insertion when reasoning about destruction.
pub enum Op<K, V, M> {
    Insert(K, V, Ghost<nat>),
    Delete(K),
    SetMeta(M),
    MarkReady,
}

impl<K, V, M> Op<K, V, M> {
    /// The identity of the value a pending `Insert` still has to hand over
    /// to the buffer that absorbs it second.
    pub open spec fn pending_id(self) -> Option<nat> {
        match self {
            Op::Insert(_, _, id) => Some(id@),
            _ => None,
        }
    }
}

/// The effect of one operation on the key-value contents of a buffer.
pub open spec fn apply_op_data<K, V, M>(m: Map<K, V>, op: Op<K, V, M>) -> Map<K, V> {
    match op {
        Op::Insert(k, v, _) => m.insert(k, v),
        Op::Delete(k) => m.remove(k),
        Op::SetMeta(_) => m,
        Op::MarkReady => m,
    }
}

/// The effect of one operation on a buffer's metadata.
pub open spec fn apply_op_meta<K, V, M>(meta: M, op: Op<K, V, M>) -> M {
    match op {
        Op::SetMeta(m) => m,
        _ => meta,
    }
}

/// The effect of one operation on a buffer's readiness flag.
pub open spec fn apply_op_ready<K, V, M>(ready: bool, op: Op<K, V, M>) -> bool {
    match op {
        Op::MarkReady => true,
        _ => ready,
    }
}

/// The net effect of a whole operation sequence on the key-value contents,
/// applied in order.
pub open spec fn apply_ops_data<K, V, M>(m: Map<K, V>, ops: Seq<Op<K, V, M>>) -> Map<K, V>
    decreases ops.len(),
{
    if ops.len() == 0 {
        m
    } else {
        apply_ops_data(apply_op_data(m, ops[0]), ops.drop_first())
    }
}

/// The net effect of a whole operation sequence on the metadata.
pub open spec fn apply_ops_meta<K, V, M>(meta: M, ops: Seq<Op<K, V, M>>) -> M
    decreases ops.len(),
{
    if ops.len() == 0 {
        meta
    } else {
        apply_ops_meta(apply_op_meta(meta, ops[0]), ops.drop_first())
    }
}

/// The net effect of a whole operation sequence on the readiness flag.
pub open spec fn apply_ops_ready<K, V, M>(ready: bool, ops: Seq<Op<K, V, M>>) -> bool
    decreases ops.len(),
{
    if ops.len() == 0 {
        ready
    } else {
        apply_ops_ready(apply_op_ready(ready, ops[0]), ops.drop_first())
    }
}

/// Appending one operation to the log and then applying the whole log is the
/// same as applying the old log and then the new operation.
pub proof fn lemma_apply_ops_data_push<K, V, M>(
    m: Map<K, V>,
    ops: Seq<Op<K, V, M>>,
    op: Op<K, V, M>,
)
    ensures
        apply_ops_data(m, ops.push(op)) == apply_op_data(apply_ops_data(m, ops), op),
    decreases ops.len(),
{
    if ops.len() == 0 {
        assert(ops.push(op)[0] == op);
        assert(ops.push(op).drop_first() =~= Seq::<Op<K, V, M>>::empty());
        assert(apply_ops_data(apply_op_data(m, op), Seq::<Op<K, V, M>>::empty()) == apply_op_data(m, op));
    } else {
        assert(ops.push(op)[0] == ops[0]);
        assert(ops.push(op).drop_first() =~= ops.drop_first().push(op));
        lemma_apply_ops_data_push(apply_op_data(m, ops[0]), ops.drop_first(), op);
    }
}

/// The metadata analogue of [`lemma_apply_ops_data_push`].
pub proof fn lemma_apply_ops_meta_push<K, V, M>(meta: M, ops: Seq<Op<K, V, M>>, op: Op<K, V, M>)
    ensures
        apply_ops_meta(meta, ops.push(op)) == apply_op_meta(apply_ops_meta(meta, ops), op),
    decreases ops.len(),
{
    if ops.len() == 0 {
        assert(ops.push(op)[0] == op);
        assert(ops.push(op).drop_first() =~= Seq::<Op<K, V, M>>::empty());
        assert(apply_ops_meta(apply_op_meta(meta, op), Seq::<Op<K, V, M>>::empty()) == apply_op_meta(meta, op));
    } else {
        assert(ops.push(op)[0] == ops[0]);
        assert(ops.push(op).drop_first() =~= ops.drop_first().push(op));
        lemma_apply_ops_meta_push(apply_op_meta(meta, ops[0]), ops.drop_first(), op);
    }
}

/// The readiness analogue of [`lemma_apply_ops_data_push`].
pub proof fn lemma_apply_ops_ready_push<K, V, M>(
    ready: bool,
    ops: Seq<Op<K, V, M>>,
    op: Op<K, V, M>,
)
    ensures
        apply_ops_ready(ready, ops.push(op)) == apply_op_ready(apply_ops_ready(ready, ops), op),
    decreases ops.len(),
{
    if ops.len() == 0 {
        assert(ops.push(op)[0] == op);
        assert(ops.push(op).drop_first() =~= Seq::<Op<K, V, M>>::empty());
        assert(apply_ops_ready(apply_op_ready(ready, op), Seq::<Op<K, V, M>>::empty()) == apply_op_ready(ready, op));
    } else {
        assert(ops.push(op)[0] == ops[0]);
        assert(ops.push(op).drop_first() =~= ops.drop_first().push(op));
        lemma_apply_ops_ready_push(apply_op_ready(ready, ops[0]), ops.drop_first(), op);
    }
}

/// Readiness is monotone: once a buffer is ready, no operation unsets it.
pub proof fn lemma_ready_monotone<K, V, M>(ops: Seq<Op<K, V, M>>)
    ensures
        apply_ops_ready(true, ops) == true,
    decreases ops.len(),
{
    if ops.len() != 0 {
        lemma_ready_monotone::<K, V, M>(ops.drop_first());
    }
}

/// A sequence that contains a `MarkReady` operation leaves the buffer ready,
/// whatever it started from.
pub proof fn lemma_ready_after_mark<K, V, M>(ready: bool, ops: Seq<Op<K, V, M>>)
    requires
        exists|i: int| 0 <= i < ops.len() && ops[i] is MarkReady,
    ensures
        apply_ops_ready(ready, ops) == true,
    decreases ops.len(),
{
    let i = choose|i: int| 0 <= i < ops.len() && ops[i] is MarkReady;
    if i == 0 {
        lemma_ready_monotone::<K, V, M>(ops.drop_first());
    } else {
        assert(ops.drop_first()[i - 1] is MarkReady);
        lemma_ready_after_mark(apply_op_ready(ready, ops[0]), ops.drop_first());
    }
}

} // verus!

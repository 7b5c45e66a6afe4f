//! Routing of operations to their logical streams, with one plan store
//! shared by every stream of a device.

use vstd::prelude::*;
use crate::ir::{keys, views, OperationRecord, OperationView, TensorNode, TensorStatus};
use crate::store::{ExecutionPlan, ExecutionPlanStore};
use crate::stream::{
    best_match, drain_model, explored_at, explored_from, extends, scheduled, segment_views, shapes,
    DrainedSegment, Explorer, OperationStream, PlanShape,
};
use crate::ir::OperationKey;
use crate::store::ExecutionPlanId;

verus! {

/// The identifier of a logical stream.
pub type StreamId = u64;

/// Operation `o` touches tensor `t`.
pub open spec fn touches(o: OperationView, t: u64) -> bool {
    exists|a: int| 0 <= a < o.tensors.len() && o.tensors[a].id == t
}

/// Some buffered operation touches a tensor that `op` touches.
pub open spec fn shares_tensor(buf: Seq<OperationRecord>, op: OperationRecord) -> bool {
    exists|i: int, a: int|
        0 <= i < buf.len() && 0 <= a < op.tensors@.len() && touches(buf[i]@, op.tensors@[a].id)
}

fn touches_exec(o: &OperationRecord, t: u64) -> (r: bool)
    ensures
        r == touches(o@, t),
{
    let mut a: usize = 0;
    while a < o.tensors.len()
        invariant
            a <= o.tensors@.len(),
            forall|b: int| 0 <= b < a ==> o@.tensors[b].id != t,
        decreases o.tensors@.len() - a,
    {
        if o.tensors[a].id == t {
            assert(o@.tensors[a as int].id == t);
            return true;
        }
        a = a + 1;
    }
    false
}

fn shares_tensor_exec(buf: &Vec<OperationRecord>, op: &OperationRecord) -> (r: bool)
    ensures
        r == shares_tensor(buf@, *op),
{
    let mut i: usize = 0;
    while i < buf.len()
        invariant
            i <= buf@.len(),
            forall|j: int, a: int|
                0 <= j < i && 0 <= a < op.tensors@.len() ==> !touches(buf@[j]@, op.tensors@[a].id),
        decreases buf@.len() - i,
    {
        let mut a: usize = 0;
        while a < op.tensors.len()
            invariant
                i < buf@.len(),
                a <= op.tensors@.len(),
                forall|j: int, b: int|
                    0 <= j < i && 0 <= b < op.tensors@.len() ==> !touches(buf@[j]@, op.tensors@[b].id),
                forall|b: int| 0 <= b < a ==> !touches(buf@[i as int]@, op.tensors@[b].id),
            decreases op.tensors@.len() - a,
        {
            if touches_exec(&buf[i], op.tensors[a].id) {
                return true;
            }
            a = a + 1;
        }
        i = i + 1;
    }
    false
}

struct StreamEntry {
    id: StreamId,
    stream: OperationStream,
}

/// The segments run when one stream was drained.
pub struct StreamDrain {
    pub stream: StreamId,
    pub segments: Vec<DrainedSegment>,
}

/// What registering an operation did: the streams drained first, and the
/// plan that recognizes the buffer it joined.
pub struct Registration {
    pub drained: Vec<StreamDrain>,
    pub matched: Option<ExecutionPlanId>,
}

/// The streams that the drains ran on, in order.
pub open spec fn drained_ids(d: Seq<StreamDrain>) -> Seq<StreamId> {
    d.map_values(|x: StreamDrain| x.stream)
}

/// The plans after draining each buffer of `bufs` in turn.
pub open spec fn drain_all(plans: Seq<PlanShape>, bufs: Seq<Seq<OperationKey>>) -> Seq<PlanShape>
    decreases bufs.len(),
{
    if bufs.len() == 0 {
        plans
    } else {
        drain_model(drain_all(plans, bufs.drop_last()), bufs.last(), 0).0
    }
}

/// Every logical stream of a device, and the plans they share.
pub struct MultiStream<O> {
    streams: Vec<StreamEntry>,
    store: ExecutionPlanStore<O>,
}

/// Among the first `k` streams, those other than `id` whose buffer shares a
/// tensor with `op`, in stream order.
pub open spec fn sharing_upto<O>(ms: MultiStream<O>, id: StreamId, op: OperationRecord, k: int) -> Seq<StreamId>
    decreases k,
{
    if k <= 0 || k > ms.stream_ids().len() {
        Seq::empty()
    } else {
        let x = ms.stream_ids()[k - 1];
        sharing_upto(ms, id, op, k - 1) + if x != id && shares_tensor(ms.buffered(x), op) {
            seq![x]
        } else {
            Seq::empty()
        }
    }
}

/// The streams other than `id` whose buffer shares a tensor with `op`, in
/// stream order.
pub open spec fn sharing_streams<O>(ms: MultiStream<O>, id: StreamId, op: OperationRecord) -> Seq<StreamId> {
    sharing_upto(ms, id, op, ms.stream_ids().len() as int)
}

/// The keys of the buffers of the streams `ids`.
pub open spec fn drained_buffers<O>(ms: MultiStream<O>, ids: Seq<StreamId>) -> Seq<Seq<OperationKey>> {
    ids.map_values(|x: StreamId| keys(views(ms.buffered(x))))
}

impl<O> MultiStream<O> {
    /// Stream ids are unique, and the store is well formed with every plan
    /// replaying each of its operations once.
    pub closed spec fn wf(&self) -> bool {
        &&& forall|i: int, j: int|
            0 <= i < j < self.streams@.len() ==> self.streams@[i].id != self.streams@[j].id
        &&& self.store.wf()
        &&& scheduled(self.store@)
    }

    /// The stored plans.
    pub closed spec fn plans(&self) -> Seq<ExecutionPlan<O>> {
        self.store@
    }

    /// The number of streams that have been used.
    pub open spec fn stream_count(&self) -> nat {
        self.stream_ids().len()
    }

    /// The operations buffered on stream `id`; nothing for a stream never used.
    pub closed spec fn buffered(&self, id: StreamId) -> Seq<OperationRecord> {
        if exists|i: int| 0 <= i < self.streams@.len() && self.streams@[i].id == id {
            self.streams@[choose|i: int| 0 <= i < self.streams@.len() && self.streams@[i].id == id].stream@
        } else {
            Seq::empty()
        }
    }

    proof fn lemma_buffered_at(&self, i: int)
        requires
            self.wf(),
            0 <= i < self.streams@.len(),
        ensures
            self.buffered(self.streams@[i].id) == self.streams@[i].stream@,
    {
        let id = self.streams@[i].id;
        let c = choose|c: int| 0 <= c < self.streams@.len() && self.streams@[c].id == id;
        if c != i {
            if c < i {
                assert(self.streams@[c].id != self.streams@[i].id);
            } else {
                assert(self.streams@[i].id != self.streams@[c].id);
            }
        }
    }

    /// No stream, no plan.
    pub fn new() -> (r: MultiStream<O>)
        ensures
            r.wf(),
            r.plans().len() == 0,
            r.stream_count() == 0,
            forall|id: StreamId| r.buffered(id).len() == 0,
    {
        MultiStream { streams: Vec::new(), store: ExecutionPlanStore::new() }
    }

    fn position(&self, id: StreamId) -> (r: Option<usize>)
        ensures
            r matches Some(i) ==> i < self.streams@.len() && self.streams@[i as int].id == id,
            r is None ==> forall|i: int| 0 <= i < self.streams@.len() ==> self.streams@[i].id != id,
    {
        let mut i: usize = 0;
        while i < self.streams.len()
            invariant
                i <= self.streams@.len(),
                forall|j: int| 0 <= j < i ==> self.streams@[j].id != id,
            decreases self.streams@.len() - i,
        {
            if self.streams[i].id == id {
                return Some(i);
            }
            i = i + 1;
        }
        None
    }

    /// The ids of the streams that have been used, in order of first use.
    pub closed spec fn stream_ids(&self) -> Seq<StreamId> {
        self.streams@.map_values(|e: StreamEntry| e.id)
    }

    /// The buffered operations of each stream that has been used, in order of
    /// first use.
    pub fn debug_all_operation_queues(&self) -> (r: Vec<(StreamId, &Vec<OperationRecord>)>)
        requires
            self.wf(),
        ensures
            r@.len() == self.stream_ids().len(),
            forall|k: int|
                0 <= k < r@.len() ==> (#[trigger] r@[k]).0 == self.stream_ids()[k] && r@[k].1@
                    == self.buffered(self.stream_ids()[k]),
    {
        let mut r: Vec<(StreamId, &Vec<OperationRecord>)> = Vec::new();
        let mut i: usize = 0;
        while i < self.streams.len()
            invariant
                self.wf(),
                i <= self.streams@.len(),
                r@.len() == i,
                forall|k: int|
                    0 <= k < i ==> (#[trigger] r@[k]).0 == self.stream_ids()[k] && r@[k].1@
                        == self.buffered(self.stream_ids()[k]),
            decreases self.streams@.len() - i,
        {
            proof {
                self.lemma_buffered_at(i as int);
            }
            r.push((self.streams[i].id, self.streams[i].stream.operations()));
            i = i + 1;
        }
        r
    }

    /// The plan store shared by the streams.
    pub fn debug_execution_plans(&self) -> (r: &ExecutionPlanStore<O>)
        ensures
            r@ == self.plans(),
    {
        &self.store
    }

    /// The operations buffered on stream `id`, if it has been used.
    pub fn debug_operation_queue(&self, id: StreamId) -> (r: Option<&Vec<OperationRecord>>)
        requires
            self.wf(),
        ensures
            r matches Some(q) ==> q@ == self.buffered(id),
            r is None ==> self.buffered(id).len() == 0,
    {
        match self.position(id) {
            Some(i) => {
                proof {
                    self.lemma_buffered_at(i as int);
                }
                Some(self.streams[i].stream.operations())
            },
            None => None,
        }
    }

    /// Registers `op` on stream `id`. First every other stream whose buffer
    /// shares a tensor with `op` is drained, in stream order; the drains are
    /// returned. Then `op` joins the buffer of `id`, and the plan that
    /// recognizes that buffer without a sync, if any, is returned with them.
    pub fn register<E: Explorer<O>>(&mut self, id: StreamId, op: OperationRecord, explorer: &mut E) -> (r: Registration)
        requires
            old(self).wf(),
            old(self).plans().len() + old(self).stream_count() < usize::MAX,
        ensures
            final(self).wf(),
            final(self).buffered(id) == old(self).buffered(id).push(op),
            forall|x: StreamId|
                x != id ==> #[trigger] final(self).buffered(x) == if shares_tensor(old(self).buffered(x), op) {
                    Seq::<OperationRecord>::empty()
                } else {
                    old(self).buffered(x)
                },
            drained_ids(r.drained@) == sharing_streams(*old(self), id, op),
            forall|k: int|
                0 <= k < r.drained@.len() ==> segment_views((#[trigger] r.drained@[k]).segments@) == drain_model(
                    drain_all(
                        shapes(old(self).plans()),
                        drained_buffers(*old(self), sharing_streams(*old(self), id, op)).take(k),
                    ),
                    drained_buffers(*old(self), sharing_streams(*old(self), id, op))[k],
                    0,
                ).1,
            shapes(final(self).plans()) == drain_all(
                shapes(old(self).plans()),
                drained_buffers(*old(self), sharing_streams(*old(self), id, op)),
            ),
            extends(old(self).plans(), final(self).plans()),
            scheduled(final(self).plans()),
            forall|i: int| #![trigger final(self).plans()[i]]
                old(self).plans().len() <= i < final(self).plans().len() ==> exists|k: int|
                    0 <= k < r.drained@.len() && explored_at(
                        final(self).plans()[i],
                        old(self).buffered(#[trigger] r.drained@[k].stream),
                    ),
            r.matched matches Some(p) ==> best_match(
                shapes(final(self).plans()),
                keys(views(final(self).buffered(id))),
                false,
            ) == Some(p as int),
            r.matched is None ==> best_match(
                shapes(final(self).plans()),
                keys(views(final(self).buffered(id))),
                false,
            ) is None,
    {
        let ghost old_self = *self;
        let ghost p0 = shapes(old_self.store@);
        let mut drained: Vec<StreamDrain> = Vec::new();
        let mut i: usize = 0;
        proof {
            assert(drained_ids(drained@) =~= Seq::<StreamId>::empty());
            assert(drained_buffers(old_self, sharing_upto(old_self, id, op, 0)) =~= Seq::<Seq<OperationKey>>::empty());
        }
        while i < self.streams.len()
            invariant
                self.wf(),
                self.streams@.len() == old_self.streams@.len(),
                forall|j: int| 0 <= j < self.streams@.len() ==> self.streams@[j].id == old_self.streams@[j].id,
                i <= self.streams@.len(),
                forall|j: int| i <= j < self.streams@.len() ==> self.streams@[j] == old_self.streams@[j],
                forall|j: int|
                    0 <= j < i ==> (#[trigger] self.streams@[j]).stream@ == if self.streams@[j].id != id
                        && shares_tensor(old_self.streams@[j].stream@, op) {
                        Seq::<OperationRecord>::empty()
                    } else {
                        old_self.streams@[j].stream@
                    },
                old_self.wf(),
                extends(old_self.store@, self.store@),
                drained@.len() <= i,
                self.store@.len() <= old_self.store@.len() + drained@.len(),
                old_self.store@.len() + old_self.streams@.len() < usize::MAX,
                drained_ids(drained@) == sharing_upto(old_self, id, op, i as int),
                shapes(self.store@) == drain_all(p0, drained_buffers(old_self, drained_ids(drained@))),
                forall|k: int|
                    0 <= k < drained@.len() ==> segment_views((#[trigger] drained@[k]).segments@) == drain_model(
                        drain_all(p0, drained_buffers(old_self, drained_ids(drained@)).take(k)),
                        drained_buffers(old_self, drained_ids(drained@))[k],
                        0,
                    ).1,
                forall|m: int| #![trigger self.store@[m]]
                    old_self.store@.len() <= m < self.store@.len() ==> exists|k: int|
                        0 <= k < drained@.len() && explored_at(
                            self.store@[m],
                            old_self.buffered(#[trigger] drained@[k].stream),
                        ),
            decreases self.streams@.len() - i,
        {
            proof {
                old_self.lemma_buffered_at(i as int);
                assert(old_self.stream_ids()[i as int] == old_self.streams@[i as int].id);
            }
            if self.streams[i].id != id && shares_tensor_exec(self.streams[i].stream.operations(), &op) {
                let ghost before = *self;
                let ghost before_drained = drained@;
                let ghost bufs = drained_buffers(old_self, drained_ids(before_drained));
                let ghost b = keys(views(old_self.streams@[i as int].stream@));
                let mut entry = self.streams.remove(i);
                let segments = entry.stream.drain(&mut self.store, explorer);
                let stream = entry.id;
                self.streams.insert(i, entry);
                drained.push(StreamDrain { stream, segments });
                proof {
                    assert(forall|j: int| 0 <= j < self.streams@.len() && j != i ==> self.streams@[j] == before.streams@[j]);
                    assert(forall|j: int| 0 <= j < self.streams@.len() ==> self.streams@[j].id == before.streams@[j].id);
                    assert(forall|k: int| 0 <= k < before_drained.len() ==> drained@[k] == before_drained[k]);
                    assert(drained_ids(drained@) =~= drained_ids(before_drained).push(stream));
                    assert(drained_buffers(old_self, drained_ids(drained@)) =~= bufs.push(b));
                    assert(bufs.push(b).drop_last() =~= bufs);
                    assert(bufs.push(b).take(before_drained.len() as int) =~= bufs);
                    assert forall|k: int| 0 <= k < drained@.len() implies segment_views((#[trigger] drained@[k]).segments@) == drain_model(
                        drain_all(p0, drained_buffers(old_self, drained_ids(drained@)).take(k)),
                        drained_buffers(old_self, drained_ids(drained@))[k],
                        0,
                    ).1 by {
                        if k < before_drained.len() {
                            assert(bufs.push(b).take(k) =~= bufs.take(k));
                        }
                    }
                    assert forall|m: int| #![trigger self.store@[m]]
                        old_self.store@.len() <= m < self.store@.len() implies exists|k: int|
                            0 <= k < drained@.len() && explored_at(
                                self.store@[m],
                                old_self.buffered(#[trigger] drained@[k].stream),
                            ) by {
                        if m < before.store@.len() {
                            let k = choose|k: int|
                                0 <= k < before_drained.len() && explored_at(
                                    before.store@[m],
                                    old_self.buffered(#[trigger] before_drained[k].stream),
                                );
                            assert(drained@[k] == before_drained[k]);
                        } else {
                            let k = before_drained.len() as int;
                            assert(drained@[k].stream == old_self.streams@[i as int].id);
                            assert(explored_at(self.store@[m], old_self.buffered(drained@[k].stream)));
                        }
                    }
                }
            }
            i = i + 1;
        }
        let ghost mid = *self;
        proof {
            assert(sharing_upto(old_self, id, op, i as int) == sharing_streams(old_self, id, op));
        }
        let matched = match self.position(id) {
            Some(p) => {
                let mut entry = self.streams.remove(p);
                let matched = entry.stream.register(op, &self.store);
                self.streams.insert(p, entry);
                proof {
                    assert(forall|j: int| 0 <= j < self.streams@.len() && j != p ==> self.streams@[j] == mid.streams@[j]);
                    assert(forall|j: int| 0 <= j < self.streams@.len() ==> self.streams@[j].id == old_self.streams@[j].id);
                    assert(self.wf());
                    self.lemma_buffered_at(p as int);
                    assert forall|x: StreamId| #[trigger] self.buffered(x) == if x == id {
                        old_self.buffered(id).push(op)
                    } else if shares_tensor(old_self.buffered(x), op) {
                        Seq::<OperationRecord>::empty()
                    } else {
                        old_self.buffered(x)
                    } by {
                        if exists|j: int| 0 <= j < self.streams@.len() && self.streams@[j].id == x {
                            let j = choose|j: int| 0 <= j < self.streams@.len() && self.streams@[j].id == x;
                            self.lemma_buffered_at(j);
                            old_self.lemma_buffered_at(j);
                            if j != p {
                                assert(self.streams@[j] == mid.streams@[j]);
                            }
                        } else {
                            assert(self.streams@[p as int].id == id);
                            assert forall|m: int| 0 <= m < old_self.streams@.len() implies old_self.streams@[m].id != x by {
                                assert(self.streams@[m].id == old_self.streams@[m].id);
                            }
                        }
                    }
                }
                matched
            },
            None => {
                let mut stream = OperationStream::new();
                let matched = stream.register(op, &self.store);
                self.streams.push(StreamEntry { id, stream });
                proof {
                    let last = mid.streams@.len() as int;
                    assert(forall|j: int| 0 <= j < mid.streams@.len() ==> self.streams@[j] == mid.streams@[j]);
                    assert(self.wf());
                    assert forall|m: int| 0 <= m < old_self.streams@.len() implies old_self.streams@[m].id != id by {
                        assert(mid.streams@[m].id == old_self.streams@[m].id);
                    }
                    self.lemma_buffered_at(last);
                    assert(self.streams@[last].stream@ =~= Seq::<OperationRecord>::empty().push(op));
                    assert forall|x: StreamId| #[trigger] self.buffered(x) == if x == id {
                        old_self.buffered(id).push(op)
                    } else if shares_tensor(old_self.buffered(x), op) {
                        Seq::<OperationRecord>::empty()
                    } else {
                        old_self.buffered(x)
                    } by {
                        if x == id {
                        } else if exists|j: int| 0 <= j < self.streams@.len() && self.streams@[j].id == x {
                            let j = choose|j: int| 0 <= j < self.streams@.len() && self.streams@[j].id == x;
                            self.lemma_buffered_at(j);
                            old_self.lemma_buffered_at(j);
                        } else {
                            assert forall|m: int| 0 <= m < old_self.streams@.len() implies old_self.streams@[m].id != x by {
                                assert(self.streams@[m].id == old_self.streams@[m].id);
                            }
                        }
                    }
                }
                matched
            },
        };
        Registration { drained, matched }
    }

    /// Records that `tensor` was read out of stream `id`. Once a tensor that
    /// the stream may mutate in place has been read out and nothing is left
    /// buffered on the stream, the stream holds no more work and is
    /// forgotten; otherwise nothing changes.
    pub fn mark_read(&mut self, id: StreamId, tensor: &TensorNode)
        requires
            old(self).wf(),
        ensures
            final(self).wf(),
            final(self).plans() == old(self).plans(),
            forall|x: StreamId| #[trigger] final(self).buffered(x) == old(self).buffered(x),
            if tensor.status == TensorStatus::ReadWrite && old(self).buffered(id).len() == 0
                && old(self).stream_ids().contains(id) {
                exists|p: int|
                    0 <= p < old(self).stream_ids().len() && old(self).stream_ids()[p] == id
                        && final(self).stream_ids() == old(self).stream_ids().remove(p)
            } else {
                final(self).stream_ids() == old(self).stream_ids()
            },
    {
        let ghost old_self = *self;
        if tensor.status != TensorStatus::ReadWrite {
            return;
        }
        match self.position(id) {
            Some(i) => {
                proof {
                    self.lemma_buffered_at(i as int);
                    assert(old_self.stream_ids()[i as int] == id);
                }
                if self.streams[i].stream.operations().len() == 0 {
                    self.streams.remove(i);
                    proof {
                        assert(self.stream_ids() =~= old_self.stream_ids().remove(i as int));
                        assert(self.wf());
                        assert forall|x: StreamId| #[trigger] self.buffered(x) == old_self.buffered(x) by {
                            if exists|j: int| 0 <= j < self.streams@.len() && self.streams@[j].id == x {
                                let j = choose|j: int| 0 <= j < self.streams@.len() && self.streams@[j].id == x;
                                self.lemma_buffered_at(j);
                                if j < i {
                                    old_self.lemma_buffered_at(j);
                                } else {
                                    old_self.lemma_buffered_at(j + 1);
                                }
                            } else if x != id {
                                assert forall|m: int| 0 <= m < old_self.streams@.len() implies old_self.streams@[m].id != x by {
                                    if m < i {
                                        assert(self.streams@[m] == old_self.streams@[m]);
                                    } else if m > i {
                                        assert(self.streams@[m - 1] == old_self.streams@[m]);
                                    }
                                }
                            }
                        }
                    }
                } else {
                    assert(old_self.buffered(id).len() != 0);
                }
            },
            None => {
                assert(!old_self.stream_ids().contains(id)) by {
                    if old_self.stream_ids().contains(id) {
                        let j = choose|j: int| 0 <= j < old_self.stream_ids().len() && old_self.stream_ids()[j] == id;
                        assert(old_self.streams@[j].id == id);
                    }
                }
            },
        }
    }

    /// Drains stream `id` alone: every operation buffered on it is run, and
    /// no other stream changes.
    pub fn drain<E: Explorer<O>>(&mut self, id: StreamId, explorer: &mut E) -> (r: Vec<DrainedSegment>)
        requires
            old(self).wf(),
            old(self).plans().len() < usize::MAX,
        ensures
            final(self).wf(),
            final(self).stream_count() == old(self).stream_count(),
            final(self).buffered(id).len() == 0,
            forall|x: StreamId| x != id ==> #[trigger] final(self).buffered(x) == old(self).buffered(x),
            extends(old(self).plans(), final(self).plans()),
            final(self).plans().len() <= old(self).plans().len() + 1,
            shapes(final(self).plans()) == drain_model(
                shapes(old(self).plans()),
                keys(views(old(self).buffered(id))),
                0,
            ).0,
            segment_views(r@) == drain_model(
                shapes(old(self).plans()),
                keys(views(old(self).buffered(id))),
                0,
            ).1,
            old(self).buffered(id).len() == 0 ==> r@.len() == 0 && final(self).plans() == old(self).plans(),
            scheduled(final(self).plans()),
            explored_from(old(self).plans().len() as int, final(self).plans(), old(self).buffered(id)),
    {
        let ghost old_self = *self;
        match self.position(id) {
            Some(i) => {
                proof {
                    self.lemma_buffered_at(i as int);
                }
                let mut entry = self.streams.remove(i);
                let segments = entry.stream.drain(&mut self.store, explorer);
                self.streams.insert(i, entry);
                proof {
                    assert(forall|j: int| 0 <= j < self.streams@.len() && j != i ==> self.streams@[j] == old_self.streams@[j]);
                    assert(forall|j: int| 0 <= j < self.streams@.len() ==> self.streams@[j].id == old_self.streams@[j].id);
                    assert(self.wf());
                    self.lemma_buffered_at(i as int);
                    assert forall|x: StreamId| x != id implies #[trigger] self.buffered(x) == old_self.buffered(x) by {
                        if exists|j: int| 0 <= j < self.streams@.len() && self.streams@[j].id == x {
                            let j = choose|j: int| 0 <= j < self.streams@.len() && self.streams@[j].id == x;
                            self.lemma_buffered_at(j);
                            old_self.lemma_buffered_at(j);
                        }
                    }
                }
                segments
            },
            None => {
                proof {
                    assert(keys(views(old_self.buffered(id))) =~= Seq::empty());
                }
                Vec::new()
            },
        }
    }
}

} // verus!

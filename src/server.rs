//! The fusion server of one device: the streams and plans, with summaries
//! for tooling.

use vstd::prelude::*;
use crate::ir::{keys, views, OperationRecord, TensorNode, TensorStatus};
use crate::router::{
    drain_all, drained_buffers, drained_ids, shares_tensor, sharing_streams, MultiStream,
    Registration, StreamId,
};
use crate::store::{summarizes, ExecutionPlanStore, ExecutionPlanSummary};
use crate::stream::{
    best_match, drain_model, explored_at, explored_from, extends, scheduled, segment_views, shapes,
    DrainedSegment, Explorer,
};

verus! {

/// Summary information about the current fusion state.
#[derive(Debug, Clone)]
pub struct FusionDebugSummary {
    pub stream_count: usize,
    pub total_operations: usize,
    pub execution_plan_count: usize,
    pub execution_plan_summaries: Vec<ExecutionPlanSummary>,
}

/// The number of operations buffered over the first `k` streams of `ids`.
pub open spec fn total_buffered<O>(streams: MultiStream<O>, ids: Seq<StreamId>, k: int) -> nat
    decreases k,
{
    if k <= 0 || k > ids.len() {
        0
    } else {
        total_buffered(streams, ids, k - 1) + streams.buffered(ids[k - 1]).len()
    }
}

/// The streams and plans of one device.
pub struct FusionServer<O> {
    pub streams: MultiStream<O>,
}

impl<O> FusionServer<O> {
    pub open spec fn wf(&self) -> bool {
        self.streams.wf()
    }

    /// A server with no stream and no plan.
    pub fn new() -> (r: FusionServer<O>)
        ensures
            r.wf(),
            r.streams.plans().len() == 0,
            r.streams.stream_count() == 0,
    {
        FusionServer { streams: MultiStream::new() }
    }

    /// Registers an operation on a stream. Every other stream that buffered
    /// an operation on one of its tensors is drained first, in stream order;
    /// the result lists those drains, and the plan that recognizes the
    /// buffer the operation joined.
    pub fn register<E: Explorer<O>>(&mut self, stream: StreamId, repr: OperationRecord, explorer: &mut E) -> (r: Registration)
        requires
            old(self).wf(),
            old(self).streams.plans().len() + old(self).streams.stream_count() < usize::MAX,
        ensures
            final(self).wf(),
            final(self).streams.buffered(stream) == old(self).streams.buffered(stream).push(repr),
            forall|x: StreamId|
                x != stream ==> #[trigger] final(self).streams.buffered(x) == if shares_tensor(
                    old(self).streams.buffered(x),
                    repr,
                ) {
                    Seq::<OperationRecord>::empty()
                } else {
                    old(self).streams.buffered(x)
                },
            drained_ids(r.drained@) == sharing_streams(old(self).streams, stream, repr),
            forall|k: int|
                0 <= k < r.drained@.len() ==> segment_views((#[trigger] r.drained@[k]).segments@) == drain_model(
                    drain_all(
                        shapes(old(self).streams.plans()),
                        drained_buffers(old(self).streams, sharing_streams(old(self).streams, stream, repr)).take(k),
                    ),
                    drained_buffers(old(self).streams, sharing_streams(old(self).streams, stream, repr))[k],
                    0,
                ).1,
            shapes(final(self).streams.plans()) == drain_all(
                shapes(old(self).streams.plans()),
                drained_buffers(old(self).streams, sharing_streams(old(self).streams, stream, repr)),
            ),
            extends(old(self).streams.plans(), final(self).streams.plans()),
            scheduled(final(self).streams.plans()),
            forall|i: int| #![trigger final(self).streams.plans()[i]]
                old(self).streams.plans().len() <= i < final(self).streams.plans().len() ==> exists|k: int|
                    0 <= k < r.drained@.len() && explored_at(
                        final(self).streams.plans()[i],
                        old(self).streams.buffered(#[trigger] r.drained@[k].stream),
                    ),
            r.matched matches Some(p) ==> best_match(
                shapes(final(self).streams.plans()),
                keys(views(final(self).streams.buffered(stream))),
                false,
            ) == Some(p as int),
            r.matched is None ==> best_match(
                shapes(final(self).streams.plans()),
                keys(views(final(self).streams.buffered(stream))),
                false,
            ) is None,
    {
        self.streams.register(stream, repr, explorer)
    }

    /// Runs every operation buffered on stream `id`; no other stream changes.
    pub fn drain_stream<E: Explorer<O>>(&mut self, id: StreamId, explorer: &mut E) -> (r: Vec<DrainedSegment>)
        requires
            old(self).wf(),
            old(self).streams.plans().len() < usize::MAX,
        ensures
            final(self).wf(),
            final(self).streams.buffered(id).len() == 0,
            forall|x: StreamId| x != id ==> #[trigger] final(self).streams.buffered(x) == old(self).streams.buffered(x),
            extends(old(self).streams.plans(), final(self).streams.plans()),
            final(self).streams.plans().len() <= old(self).streams.plans().len() + 1,
            shapes(final(self).streams.plans()) == drain_model(
                shapes(old(self).streams.plans()),
                keys(views(old(self).streams.buffered(id))),
                0,
            ).0,
            segment_views(r@) == drain_model(
                shapes(old(self).streams.plans()),
                keys(views(old(self).streams.buffered(id))),
                0,
            ).1,
            old(self).streams.buffered(id).len() == 0 ==> r@.len() == 0 && final(self).streams.plans()
                == old(self).streams.plans(),
            scheduled(final(self).streams.plans()),
            explored_from(
                old(self).streams.plans().len() as int,
                final(self).streams.plans(),
                old(self).streams.buffered(id),
            ),
    {
        self.streams.drain(id, explorer)
    }

    /// Records that `tensor` was read out of stream `id`; a stream with
    /// nothing buffered is forgotten once a tensor it may mutate in place has
    /// been read out.
    pub fn mark_read(&mut self, id: StreamId, tensor: &TensorNode)
        requires
            old(self).wf(),
        ensures
            final(self).wf(),
            final(self).streams.plans() == old(self).streams.plans(),
            forall|x: StreamId| #[trigger] final(self).streams.buffered(x) == old(self).streams.buffered(x),
            if tensor.status == TensorStatus::ReadWrite && old(self).streams.buffered(id).len() == 0
                && old(self).streams.stream_ids().contains(id) {
                exists|p: int|
                    0 <= p < old(self).streams.stream_ids().len() && old(self).streams.stream_ids()[p] == id
                        && final(self).streams.stream_ids() == old(self).streams.stream_ids().remove(p)
            } else {
                final(self).streams.stream_ids() == old(self).streams.stream_ids()
            },
    {
        self.streams.mark_read(id, tensor)
    }

    /// The operations buffered on a stream, as registered.
    pub fn debug_pre_optimized(&self, stream_id: StreamId) -> (r: Option<&Vec<OperationRecord>>)
        requires
            self.wf(),
        ensures
            r matches Some(q) ==> q@ == self.streams.buffered(stream_id),
            r is None ==> self.streams.buffered(stream_id).len() == 0,
    {
        self.streams.debug_operation_queue(stream_id)
    }

    /// The operations buffered on each stream, in order of first use.
    pub fn debug_all_pre_optimized(&self) -> (r: Vec<(StreamId, &Vec<OperationRecord>)>)
        requires
            self.wf(),
        ensures
            r@.len() == self.streams.stream_ids().len(),
            forall|k: int|
                0 <= k < r@.len() ==> (#[trigger] r@[k]).0 == self.streams.stream_ids()[k] && r@[k].1@
                    == self.streams.buffered(self.streams.stream_ids()[k]),
    {
        self.streams.debug_all_operation_queues()
    }

    /// The stored execution plans.
    pub fn debug_post_optimized(&self) -> (r: &ExecutionPlanStore<O>)
        ensures
            r@ == self.streams.plans(),
    {
        self.streams.debug_execution_plans()
    }

    /// Counts of streams, buffered operations and plans, with a summary of
    /// each plan. The operation count saturates at `usize::MAX`.
    pub fn debug_fusion_summary(&self) -> (r: FusionDebugSummary)
        requires
            self.wf(),
        ensures
            r.stream_count == self.streams.stream_count(),
            r.total_operations == if total_buffered(
                self.streams,
                self.streams.stream_ids(),
                self.streams.stream_count() as int,
            ) > usize::MAX {
                usize::MAX as nat
            } else {
                total_buffered(self.streams, self.streams.stream_ids(), self.streams.stream_count() as int)
            },
            r.execution_plan_count == self.streams.plans().len(),
            r.execution_plan_summaries@.len() == self.streams.plans().len(),
            forall|i: int|
                0 <= i < r.execution_plan_summaries@.len() ==> summarizes(
                    #[trigger] r.execution_plan_summaries@[i],
                    i,
                    self.streams.plans()[i],
                ),
    {
        let pre_optimized = self.debug_all_pre_optimized();
        let post_optimized = self.debug_post_optimized();
        let ghost ids = self.streams.stream_ids();
        let mut total: usize = 0;
        let mut i: usize = 0;
        while i < pre_optimized.len()
            invariant
                pre_optimized@.len() == ids.len(),
                ids == self.streams.stream_ids(),
                forall|k: int|
                    0 <= k < pre_optimized@.len() ==> (#[trigger] pre_optimized@[k]).0 == ids[k]
                        && pre_optimized@[k].1@ == self.streams.buffered(ids[k]),
                i <= pre_optimized@.len(),
                total == if total_buffered(self.streams, ids, i as int) > usize::MAX {
                    usize::MAX as nat
                } else {
                    total_buffered(self.streams, ids, i as int)
                },
            decreases pre_optimized@.len() - i,
        {
            let len = pre_optimized[i].1.len();
            total = total.saturating_add(len);
            i = i + 1;
        }
        FusionDebugSummary {
            stream_count: pre_optimized.len(),
            total_operations: total,
            execution_plan_count: post_optimized.debug_plan_count(),
            execution_plan_summaries: post_optimized.debug_summary(),
        }
    }
}

} // verus!

//! One logical stream: it buffers operations and, when drained, runs them
//! through stored plans, exploring a new plan where none applies.

use vstd::prelude::*;
use crate::index::SearchQuery;
use crate::ir::{
    duplicate_from, keys, keys_match_at, views, OperationKey, OperationRecord, OperationView,
};
use crate::store::{
    increasing, trigger_key, ExecutionPlan, ExecutionPlanId, ExecutionPlanStore, ExecutionTrigger,
    TriggerKey,
};
use crate::strategy::{
    identity_indices, identity_order, is_schedule_for, order_of, BlockOptimization, ExecutionStrategy,
};

verus! {

/// What matching needs of a stored plan: the keys of its operations and of
/// its triggers.
pub struct PlanShape {
    pub ops: Seq<OperationKey>,
    pub triggers: Seq<TriggerKey>,
}

pub open spec fn plan_shape<O>(p: ExecutionPlan<O>) -> PlanShape {
    PlanShape {
        ops: keys(views(p.operations@)),
        triggers: p.triggers@.map_values(|t: crate::store::ExecutionTrigger| trigger_key(t)),
    }
}

pub open spec fn shapes<O>(plans: Seq<ExecutionPlan<O>>) -> Seq<PlanShape> {
    plans.map_values(|p: ExecutionPlan<O>| plan_shape(p))
}

/// Whether a trigger fires for a matched prefix; `sync` tells whether the
/// stream is being synchronized.
pub open spec fn fires(t: TriggerKey, prefix: Seq<OperationKey>, sync: bool) -> bool {
    match t {
        TriggerKey::OnOperations(ops) => ops == prefix,
        TriggerKey::OnSync => sync,
        TriggerKey::Always => true,
    }
}

/// A plan recognizes the start of a buffer: its operations have the keys of
/// a non-empty prefix of the buffer, and one of its triggers fires for that
/// prefix.
pub open spec fn recognizes(p: PlanShape, buf: Seq<OperationKey>, sync: bool) -> bool {
    let n = p.ops.len();
    &&& 0 < n <= buf.len()
    &&& p.ops == buf.subrange(0, n as int)
    &&& exists|i: int| 0 <= i < p.triggers.len() && fires(p.triggers[i], buf.subrange(0, n as int), sync)
}

/// Plan `id` is the one to use for the start of `buf`: it recognizes it, and
/// every other plan that does covers fewer operations, or as many with a
/// higher id.
pub open spec fn is_best(plans: Seq<PlanShape>, buf: Seq<OperationKey>, sync: bool, id: int) -> bool {
    &&& 0 <= id < plans.len()
    &&& recognizes(plans[id], buf, sync)
    &&& forall|j: int|
        0 <= j < plans.len() && recognizes(#[trigger] plans[j], buf, sync) ==> plans[j].ops.len() < plans[id].ops.len()
            || (plans[j].ops.len() == plans[id].ops.len() && id <= j)
}

/// The plan to use for the start of `buf`, if any recognizes it.
pub open spec fn best_match(plans: Seq<PlanShape>, buf: Seq<OperationKey>, sync: bool) -> Option<int> {
    if exists|id: int| is_best(plans, buf, sync, id) {
        Some(choose|id: int| is_best(plans, buf, sync, id))
    } else {
        None
    }
}

/// The plan that exploring `buf` stores, as far as matching is concerned.
pub open spec fn explored_shape(buf: Seq<OperationKey>) -> PlanShape {
    PlanShape { ops: buf, triggers: seq![TriggerKey::OnOperations(buf)] }
}

/// Draining `buf` (found at `offset` in the stream) against `plans`: the plans
/// afterwards, and the segments run, each as (plan id, offset, length). From
/// the start, the best plan is used while one recognizes what is left; the
/// rest is explored as one new plan.
pub open spec fn drain_model(plans: Seq<PlanShape>, buf: Seq<OperationKey>, offset: int) -> (Seq<PlanShape>, Seq<(int, int, int)>)
    decreases buf.len(),
{
    if buf.len() == 0 {
        (plans, Seq::empty())
    } else {
        match best_match(plans, buf, true) {
            Some(id) => {
                let n = plans[id].ops.len() as int;
                if 0 < n <= buf.len() {
                    let rest = drain_model(plans, buf.subrange(n, buf.len() as int), offset + n);
                    (rest.0, seq![(id, offset, n)] + rest.1)
                } else {
                    (plans, Seq::empty())
                }
            },
            None => (plans.push(explored_shape(buf)), seq![(plans.len() as int, offset, buf.len() as int)]),
        }
    }
}

pub proof fn lemma_best_unique(plans: Seq<PlanShape>, buf: Seq<OperationKey>, sync: bool, id: int)
    requires
        is_best(plans, buf, sync, id),
    ensures
        best_match(plans, buf, sync) == Some(id),
{
    let c = choose|c: int| is_best(plans, buf, sync, c);
    assert(is_best(plans, buf, sync, c));
    assert(recognizes(plans[c], buf, sync));
    assert(recognizes(plans[id], buf, sync));
}

pub proof fn lemma_no_match(plans: Seq<PlanShape>, buf: Seq<OperationKey>, sync: bool)
    requires
        forall|j: int| 0 <= j < plans.len() ==> !recognizes(#[trigger] plans[j], buf, sync),
    ensures
        best_match(plans, buf, sync) is None,
{
}

/// Where some plan recognizes the buffer, a best one exists.
pub proof fn lemma_best_exists(plans: Seq<PlanShape>, buf: Seq<OperationKey>, sync: bool, j: int)
    requires
        0 <= j < plans.len(),
        recognizes(plans[j], buf, sync),
    ensures
        exists|id: int| is_best(plans, buf, sync, id),
    decreases buf.len() - plans[j].ops.len(), j,
{
    if !is_best(plans, buf, sync, j) {
        let k = choose|k: int|
            0 <= k < plans.len() && recognizes(#[trigger] plans[k], buf, sync) && !(plans[k].ops.len()
                < plans[j].ops.len() || (plans[k].ops.len() == plans[j].ops.len() && j <= k));
        lemma_best_exists(plans, buf, sync, k);
    }
}

/// Where no plan is best, none recognizes the buffer.
pub proof fn lemma_none_recognizes(plans: Seq<PlanShape>, buf: Seq<OperationKey>, sync: bool)
    requires
        best_match(plans, buf, sync) is None,
    ensures
        forall|j: int| 0 <= j < plans.len() ==> !recognizes(#[trigger] plans[j], buf, sync),
{
    assert forall|j: int| 0 <= j < plans.len() implies !recognizes(#[trigger] plans[j], buf, sync) by {
        if recognizes(plans[j], buf, sync) {
            lemma_best_exists(plans, buf, sync, j);
        }
    }
}

/// A drain stores at most one new plan: the exploration of a non-empty rest
/// that no earlier plan recognized.
pub proof fn lemma_drain_adds_at_most_one(plans: Seq<PlanShape>, buf: Seq<OperationKey>, offset: int)
    ensures
        ({
            let t = drain_model(plans, buf, offset).0;
            t == plans || {
                &&& t == plans.push(explored_shape(t.last().ops))
                &&& t.last().ops.len() > 0
                &&& forall|j: int| 0 <= j < plans.len() ==> !recognizes(#[trigger] plans[j], t.last().ops, true)
            }
        }),
    decreases buf.len(),
{
    if buf.len() > 0 {
        match best_match(plans, buf, true) {
            Some(id) => {
                let n = plans[id].ops.len() as int;
                if 0 < n <= buf.len() {
                    lemma_drain_adds_at_most_one(plans, buf.subrange(n, buf.len() as int), offset + n);
                }
            },
            None => {
                lemma_none_recognizes(plans, buf, true);
                let t = plans.push(explored_shape(buf));
                assert(t.last() == explored_shape(buf));
            },
        }
    }
}

/// Draining the same keys a second time changes no plan.
proof fn lemma_redrain_is_fixed_point(plans: Seq<PlanShape>, buf: Seq<OperationKey>, o1: int, o2: int)
    ensures
        drain_model(drain_model(plans, buf, o1).0, buf, o2).0 == drain_model(plans, buf, o1).0,
    decreases buf.len(),
{
    let t = drain_model(plans, buf, o1).0;
    if buf.len() == 0 {
        return;
    }
    match best_match(plans, buf, true) {
        Some(id) => {
            assert(is_best(plans, buf, true, id));
            let n = plans[id].ops.len() as int;
            let c = buf.subrange(n, buf.len() as int);
            lemma_drain_adds_at_most_one(plans, c, o1 + n);
            lemma_redrain_is_fixed_point(plans, c, o1 + n, o2 + n);
            assert(t == drain_model(plans, c, o1 + n).0);
            assert forall|j: int|
                0 <= j < t.len() && recognizes(#[trigger] t[j], buf, true) implies t[j].ops.len() < t[id].ops.len()
                    || (t[j].ops.len() == t[id].ops.len() && id <= j) by {
                if j >= plans.len() {
                    let r = t.last().ops;
                    assert(t[j] == explored_shape(r));
                    if r.len() > n {
                        assert(r == buf.subrange(0, r.len() as int));
                        assert(r.subrange(0, n) =~= buf.subrange(0, n));
                        let i = choose|i: int|
                            0 <= i < plans[id].triggers.len() && fires(plans[id].triggers[i], buf.subrange(0, n), true);
                        assert(fires(plans[id].triggers[i], r.subrange(0, n), true));
                        assert(recognizes(plans[id], r, true));
                    }
                }
            }
            assert(t[id] == plans[id]);
            assert(is_best(t, buf, true, id));
            lemma_best_unique(t, buf, true, id);
            assert(drain_model(t, buf, o2).0 == drain_model(t, c, o2 + n).0);
        },
        None => {
            lemma_none_recognizes(plans, buf, true);
            let q = plans.len() as int;
            assert(t[q] == explored_shape(buf));
            assert(buf.subrange(0, buf.len() as int) =~= buf);
            assert(fires(t[q].triggers[0], buf.subrange(0, buf.len() as int), true));
            assert(recognizes(t[q], buf, true));
            assert(is_best(t, buf, true, q));
            lemma_best_unique(t, buf, true, q);
            let e = buf.subrange(buf.len() as int, buf.len() as int);
            assert(e.len() == 0);
            assert(drain_model(t, e, o2 + buf.len()).0 == t);
            assert(drain_model(t, buf, o2).0 == drain_model(t, e, o2 + buf.len()).0);
        },
    }
}

/// A sequence of operations drained a second time, under other tensor ids
/// but with the same kinds, operations, shapes, dtypes and statuses, reuses
/// the plans that the first drain left: the second drain stores no plan.
pub proof fn lemma_replay_reuses_plans<O>(plans: Seq<ExecutionPlan<O>>, s1: Seq<OperationView>, s2: Seq<OperationView>)
    requires
        keys(s1) == keys(s2),
    ensures
        drain_model(drain_model(shapes(plans), keys(s1), 0).0, keys(s2), 0).0 == drain_model(
            shapes(plans),
            keys(s1),
            0,
        ).0,
{
    lemma_redrain_is_fixed_point(shapes(plans), keys(s1), 0, 0);
}

/// Every stored plan's strategy replays each of its operations exactly once.
pub open spec fn scheduled<O>(plans: Seq<ExecutionPlan<O>>) -> bool {
    forall|i: int|
        0 <= i < plans.len() ==> is_schedule_for(
            (#[trigger] plans[i]).optimization.strategy,
            plans[i].operations@.len(),
        )
}

/// `b` holds the plans of `a` under the same ids, then possibly more.
pub open spec fn extends<O>(a: Seq<ExecutionPlan<O>>, b: Seq<ExecutionPlan<O>>) -> bool {
    &&& a.len() <= b.len()
    &&& forall|i: int| 0 <= i < a.len() ==> b[i] == a[i]
}

/// The keys of the operations of `buf` from `start` on.
pub open spec fn keys_from(buf: Seq<OperationRecord>, start: int) -> Seq<OperationKey> {
    keys(views(buf)).subrange(start, buf.len() as int)
}

/// Proposes how a block of operations should run; it may find nothing to
/// fuse.
pub trait Explorer<O> {
    fn explore(&mut self, operations: &Vec<OperationRecord>) -> Option<BlockOptimization<O>>;
}

/// A contiguous run of drained operations, executed through one plan.
#[derive(Clone, Copy, Debug, PartialEq, Eq, Structural)]
pub struct DrainedSegment {
    pub plan: ExecutionPlanId,
    pub offset: usize,
    pub len: usize,
}

impl View for DrainedSegment {
    type V = (int, int, int);

    open spec fn view(&self) -> (int, int, int) {
        (self.plan as int, self.offset as int, self.len as int)
    }
}

pub open spec fn segment_views(s: Seq<DrainedSegment>) -> Seq<(int, int, int)> {
    s.map_values(|x: DrainedSegment| x@)
}

fn fires_at(t: &ExecutionTrigger, buf: &Vec<OperationRecord>, start: usize, n: usize, sync: bool) -> (r: bool)
    requires
        start + n <= buf@.len(),
    ensures
        r == fires(trigger_key(*t), keys(views(buf@)).subrange(start as int, start + n), sync),
{
    match t {
        ExecutionTrigger::OnOperations(ops) => {
            assert(keys(views(ops@)).len() == ops@.len());
            ops.len() == n && keys_match_at(ops, buf, start)
        },
        ExecutionTrigger::OnSync => sync,
        ExecutionTrigger::Always => true,
    }
}

/// Whether plan `id` recognizes the operations of `buf` from `start` on.
fn recognizes_at<O>(store: &ExecutionPlanStore<O>, id: ExecutionPlanId, buf: &Vec<OperationRecord>, start: usize, sync: bool) -> (r: bool)
    requires
        id < store@.len(),
        start <= buf@.len(),
    ensures
        r == recognizes(plan_shape(store@[id as int]), keys_from(buf@, start as int), sync),
{
    let plan = store.get_unchecked(id);
    let n = plan.operations.len();
    let ghost kb = keys_from(buf@, start as int);
    let ghost sh = plan_shape(*plan);
    if n == 0 || n > buf.len() - start {
        return false;
    }
    assert(kb.subrange(0, n as int) =~= keys(views(buf@)).subrange(start as int, start + n));
    if !keys_match_at(&plan.operations, buf, start) {
        return false;
    }
    let mut i: usize = 0;
    while i < plan.triggers.len()
        invariant
            sh == plan_shape(*plan),
            id < store@.len(),
            *plan == store@[id as int],
            kb == keys_from(buf@, start as int),
            0 < n <= kb.len(),
            sh.ops.len() == n,
            sh.ops == kb.subrange(0, n as int),
            kb.subrange(0, n as int) == keys(views(buf@)).subrange(start as int, start + n),
            start + n <= buf@.len(),
            i <= plan.triggers@.len(),
            forall|j: int| 0 <= j < i ==> !fires(sh.triggers[j], kb.subrange(0, n as int), sync),
        decreases plan.triggers@.len() - i,
    {
        if fires_at(&plan.triggers[i], buf, start, n, sync) {
            assert(sh.triggers[i as int] == trigger_key(plan.triggers@[i as int]));
            assert(fires(sh.triggers[i as int], kb.subrange(0, n as int), sync));
            assert(sh == plan_shape(store@[id as int]));
            assert(recognizes(sh, kb, sync));
            return true;
        }
        i = i + 1;
    }
    false
}

/// The plan to use for the operations of `buf` from `start` on.
fn select_plan<O>(store: &ExecutionPlanStore<O>, buf: &Vec<OperationRecord>, start: usize, sync: bool) -> (r: Option<ExecutionPlanId>)
    requires
        store.wf(),
        start < buf@.len(),
    ensures
        r matches Some(id) ==> best_match(shapes(store@), keys_from(buf@, start as int), sync) == Some(id as int),
        r is None ==> best_match(shapes(store@), keys_from(buf@, start as int), sync) is None,
{
    let ghost sh = shapes(store@);
    let ghost kb = keys_from(buf@, start as int);
    let query = SearchQuery::PlansStartingWith(&buf[start]);
    let candidates = store.find(query);
    let mut best: Option<ExecutionPlanId> = None;
    let mut best_len: usize = 0;
    let mut i: usize = 0;
    while i < candidates.len()
        invariant
            sh == shapes(store@),
            kb == keys_from(buf@, start as int),
            start < buf@.len(),
            increasing(candidates@),
            forall|id: usize| candidates@.contains(id) ==> id < store@.len(),
            i <= candidates@.len(),
            best matches Some(b) ==> {
                &&& b < store@.len()
                &&& recognizes(sh[b as int], kb, sync)
                &&& best_len == sh[b as int].ops.len()
                &&& exists|c: int| 0 <= c < i && candidates@[c] == b
            },
            forall|c: int| 0 <= c < i && recognizes(sh[candidates@[c] as int], kb, sync) ==> (best matches Some(b) && {
                let j = candidates@[c];
                sh[j as int].ops.len() < best_len || (sh[j as int].ops.len() == best_len && b <= j)
            }),
        decreases candidates@.len() - i,
    {
        let id = candidates[i];
        assert(candidates@.contains(id));
        if recognizes_at(store, id, buf, start, sync) {
            let len = store.get_unchecked(id).operations.len();
            if best.is_none() || len > best_len {
                proof {
                    assert forall|c: int| 0 <= c < i + 1 && recognizes(sh[candidates@[c] as int], kb, sync) implies {
                        let j = candidates@[c];
                        sh[j as int].ops.len() < len || (sh[j as int].ops.len() == len && id <= j)
                    } by {
                        if c < i {
                            assert(candidates@[c] < candidates@[i as int]);
                        }
                    }
                }
                best = Some(id);
                best_len = len;
            } else {
                proof {
                    let b = best->0;
                    let cb = choose|c: int| 0 <= c < i && candidates@[c] == b;
                    assert(candidates@[cb] < candidates@[i as int]);
                }
            }
        }
        i = i + 1;
    }
    match best {
        Some(b) => {
            proof {
                assert forall|j: int| 0 <= j < sh.len() && recognizes(#[trigger] sh[j], kb, sync) implies sh[j].ops.len()
                    < sh[b as int].ops.len() || (sh[j].ops.len() == sh[b as int].ops.len() && b <= j) by {
                    assert(keys(views(buf@))[start as int] == kb[0]);
                    assert(sh[j].ops[0] == kb[0]);
                    assert(crate::store::selects(query, store@[j]));
                    assert(candidates@.contains(j as usize));
                    let c = choose|c: int| 0 <= c < candidates@.len() && candidates@[c] == j as usize;
                }
                assert(is_best(sh, kb, sync, b as int));
                lemma_best_unique(sh, kb, sync, b as int);
            }
            Some(b)
        },
        None => {
            proof {
                assert forall|j: int| 0 <= j < sh.len() implies !recognizes(#[trigger] sh[j], kb, sync) by {
                    if recognizes(sh[j], kb, sync) {
                        assert(keys(views(buf@))[start as int] == kb[0]);
                        assert(sh[j].ops[0] == kb[0]);
                        assert(crate::store::selects(query, store@[j]));
                        assert(candidates@.contains(j as usize));
                        let c = choose|c: int| 0 <= c < candidates@.len() && candidates@[c] == j as usize;
                    }
                }
                lemma_no_match(sh, kb, sync);
            }
            None
        },
    }
}

/// `r` is the block stored for `n` explored operations given what the
/// explorer proposed: the proposal where it replays each operation once,
/// else each operation on its own, in order.
pub open spec fn is_block_for<O>(proposal: Option<BlockOptimization<O>>, n: nat, r: BlockOptimization<O>) -> bool {
    match proposal {
        Some(b) if is_schedule_for(b.strategy, n) => r == b,
        _ => r.strategy is Operations && order_of(r.strategy) == identity_order(n),
    }
}

/// The block to store for `n` explored operations, given what the explorer
/// proposed.
pub fn checked_block<O>(proposal: Option<BlockOptimization<O>>, n: usize) -> (r: BlockOptimization<O>)
    ensures
        is_block_for(proposal, n as nat, r),
        is_schedule_for(r.strategy, n as nat),
{
    match proposal {
        Some(block) => {
            if block.strategy.is_schedule(n) {
                return block;
            }
        },
        None => {},
    }
    BlockOptimization { strategy: ExecutionStrategy::unfused(n), ordering: identity_indices(n) }
}

/// Plan `p` was explored from the end of `buf`: its operations are the last
/// ones of `buf`, and its block is what `checked_block` returns for some
/// proposal.
pub open spec fn explored_at<O>(p: ExecutionPlan<O>, buf: Seq<OperationRecord>) -> bool {
    &&& views(p.operations@) == views(buf).subrange(buf.len() - p.operations@.len(), buf.len() as int)
    &&& exists|b: Option<BlockOptimization<O>>| is_block_for(b, p.operations@.len(), p.optimization)
}

/// Each plan of `plans` from `from` on was explored from the end of `buf`.
pub open spec fn explored_from<O>(from: int, plans: Seq<ExecutionPlan<O>>, buf: Seq<OperationRecord>) -> bool {
    forall|i: int| from <= i < plans.len() ==> explored_at(#[trigger] plans[i], buf)
}

/// The operations buffered on one logical stream.
pub struct OperationStream {
    buffer: Vec<OperationRecord>,
}

impl View for OperationStream {
    type V = Seq<OperationRecord>;

    closed spec fn view(&self) -> Seq<OperationRecord> {
        self.buffer@
    }
}

impl OperationStream {
    /// A stream with nothing buffered.
    pub fn new() -> (r: OperationStream)
        ensures
            r@.len() == 0,
    {
        OperationStream { buffer: Vec::new() }
    }

    /// The buffered operations, in registration order.
    pub fn operations(&self) -> (r: &Vec<OperationRecord>)
        ensures
            r@ == self@,
    {
        &self.buffer
    }

    /// Buffers an operation; nothing runs. Returns the stored plan, if any,
    /// that already recognizes the buffered operations without a sync.
    pub fn register<O>(&mut self, op: OperationRecord, store: &ExecutionPlanStore<O>) -> (r: Option<ExecutionPlanId>)
        requires
            store.wf(),
        ensures
            final(self)@ == old(self)@.push(op),
            r matches Some(id) ==> best_match(shapes(store@), keys(views(final(self)@)), false) == Some(id as int),
            r is None ==> best_match(shapes(store@), keys(views(final(self)@)), false) is None,
    {
        self.buffer.push(op);
        assert(keys_from(self.buffer@, 0) =~= keys(views(self.buffer@)));
        select_plan(store, &self.buffer, 0, false)
    }

    /// Runs every buffered operation: from the start, through the best stored
    /// plan while one recognizes what is left, and the rest through a plan
    /// newly explored and stored. Returns the segments in order; the buffer
    /// is empty afterwards.
    pub fn drain<O, E: Explorer<O>>(&mut self, store: &mut ExecutionPlanStore<O>, explorer: &mut E) -> (r: Vec<DrainedSegment>)
        requires
            old(store).wf(),
            scheduled(old(store)@),
            old(store)@.len() < usize::MAX,
        ensures
            final(self)@.len() == 0,
            final(store).wf(),
            scheduled(final(store)@),
            extends(old(store)@, final(store)@),
            final(store)@.len() <= old(store)@.len() + 1,
            shapes(final(store)@) == drain_model(shapes(old(store)@), keys(views(old(self)@)), 0).0,
            segment_views(r@) == drain_model(shapes(old(store)@), keys(views(old(self)@)), 0).1,
            forall|i: int|
                old(store)@.len() <= i < final(store)@.len() ==> views((#[trigger] final(store)@[i]).operations@)
                    == views(old(self)@).subrange(
                    old(self)@.len() - final(store)@[i].operations@.len(),
                    old(self)@.len() as int,
                ),
            forall|i: int|
                old(store)@.len() <= i < final(store)@.len() ==> exists|p: Option<BlockOptimization<O>>|
                    is_block_for(p, (#[trigger] final(store)@[i]).operations@.len(), final(store)@[i].optimization),
            old(self)@.len() == 0 ==> r@.len() == 0 && final(store)@ == old(store)@,
    {
        let ghost plans0 = store@;
        let ghost kb = keys(views(self.buffer@));
        let ghost model = drain_model(shapes(plans0), kb, 0);
        let n = self.buffer.len();
        let mut segments: Vec<DrainedSegment> = Vec::new();
        let mut start: usize = 0;
        assert(kb.subrange(0, n as int) =~= kb);
        while start < n
            invariant
                n == self.buffer@.len(),
                kb == keys(views(self.buffer@)),
                model == drain_model(shapes(plans0), kb, 0),
                start <= n,
                store.wf(),
                scheduled(store@),
                extends(plans0, store@),
                store@.len() <= plans0.len() + 1,
                store@.len() == plans0.len() + 1 ==> start == n,
                plans0.len() < usize::MAX,
                forall|i: int|
                    plans0.len() <= i < store@.len() ==> views((#[trigger] store@[i]).operations@)
                        == views(self.buffer@).subrange(n - store@[i].operations@.len(), n as int),
                forall|i: int|
                    plans0.len() <= i < store@.len() ==> exists|p: Option<BlockOptimization<O>>|
                        is_block_for(p, (#[trigger] store@[i]).operations@.len(), store@[i].optimization),
                drain_model(shapes(store@), kb.subrange(start as int, n as int), start as int).0 == model.0,
                segment_views(segments@) + drain_model(shapes(store@), kb.subrange(start as int, n as int), start as int).1
                    == model.1,
            decreases n - start,
        {
            let ghost rest = kb.subrange(start as int, n as int);
            assert(keys_from(self.buffer@, start as int) == rest);
            match select_plan(store, &self.buffer, start, true) {
                Some(id) => {
                    let len = store.get_unchecked(id).operations.len();
                    let ghost sh = shapes(store@);
                    assert(is_best(sh, rest, true, id as int));
                    assert(sh[id as int].ops.len() == len);
                    assert(rest.subrange(len as int, rest.len() as int) =~= kb.subrange(start + len, n as int));
                    let ghost before = segment_views(segments@);
                    segments.push(DrainedSegment { plan: id, offset: start, len });
                    assert(segment_views(segments@) =~= before.push((id as int, start as int, len as int)));
                    let ghost next = drain_model(sh, kb.subrange(start + len, n as int), start + len);
                    assert(drain_model(sh, rest, start as int).1 == seq![(id as int, start as int, len as int)] + next.1);
                    assert(before + (seq![(id as int, start as int, len as int)] + next.1) =~= before.push((id as int, start as int, len as int)) + next.1);
                    start = start + len;
                },
                None => {
                    let ghost sh = shapes(store@);
                    let operations = duplicate_from(&self.buffer, start);
                    let trigger_ops = duplicate_from(&self.buffer, start);
                    let proposal = explorer.explore(&operations);
                    let count = n - start;
                    let ghost proposed = proposal;
                    let optimization = checked_block(proposal, count);
                    let mut triggers: Vec<ExecutionTrigger> = Vec::new();
                    triggers.push(ExecutionTrigger::OnOperations(trigger_ops));
                    let plan = ExecutionPlan { operations, triggers, optimization };
                    proof {
                        assert(keys(views(self.buffer@).subrange(start as int, n as int)) =~= rest);
                        assert(plan_shape(plan).triggers =~= seq![TriggerKey::OnOperations(rest)]);
                        assert(plan_shape(plan) == explored_shape(rest));
                    }
                    let ghost before = segment_views(segments@);
                    let id = store.add(plan);
                    assert(shapes(store@) =~= sh.push(explored_shape(rest)));
                    assert(is_block_for(proposed, store@[id as int].operations@.len(), store@[id as int].optimization));
                    segments.push(DrainedSegment { plan: id, offset: start, len: count });
                    assert(segment_views(segments@) =~= before.push((id as int, start as int, count as int)));
                    let ghost e = kb.subrange(n as int, n as int);
                    assert(drain_model(shapes(store@), e, n as int) == (shapes(store@), Seq::<(int, int, int)>::empty()));
                    assert(before + seq![(id as int, start as int, count as int)] =~= segment_views(segments@) + Seq::<(int, int, int)>::empty());
                    start = n;
                },
            }
        }
        self.buffer = Vec::new();
        segments
    }
}

} // verus!

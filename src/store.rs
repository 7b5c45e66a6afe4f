//! The append-only store of execution plans discovered on one device.

use vstd::prelude::*;
use crate::index::{ExecutionPlanIndex, InsertQuery, SearchQuery};
use crate::ir::{
    duplicate_all, keys, same_records, kind_name, op_key, operation_type_name, same_keys, views, OperationKey,
    OperationRecord, OperationView,
};
use crate::strategy::{BlockOptimization, ExecutionStrategy};

verus! {

/// Declares serde_json's error type, so that `debug_to_json` keeps its
/// `Result` signature; nothing is assumed of its values.
#[verifier::external_type_specification]
#[verifier::external_body]
pub struct ExJsonError(serde_json::Error);

/// The unique identifier of a stored plan: its insertion index.
pub type ExecutionPlanId = usize;

/// When a stored plan may be used.
#[derive(Debug)]
pub enum ExecutionTrigger {
    /// When the operations the plan covers are exactly these.
    OnOperations(Vec<OperationRecord>),
    /// When the stream is synchronized.
    OnSync,
    /// Unconditionally.
    Always,
}

/// What identifies a trigger: an `OnOperations` trigger by the keys of its
/// operations.
pub enum TriggerKey {
    OnOperations(Seq<OperationKey>),
    OnSync,
    Always,
}

pub open spec fn trigger_key(t: ExecutionTrigger) -> TriggerKey {
    match t {
        ExecutionTrigger::OnOperations(ops) => TriggerKey::OnOperations(keys(views(ops@))),
        ExecutionTrigger::OnSync => TriggerKey::OnSync,
        ExecutionTrigger::Always => TriggerKey::Always,
    }
}

/// A trigger as a value: an `OnOperations` trigger by the views of its
/// operations, tensor ids included.
pub enum TriggerView {
    OnOperations(Seq<OperationView>),
    OnSync,
    Always,
}

impl View for ExecutionTrigger {
    type V = TriggerView;

    open spec fn view(&self) -> TriggerView {
        match *self {
            ExecutionTrigger::OnOperations(ops) => TriggerView::OnOperations(views(ops@)),
            ExecutionTrigger::OnSync => TriggerView::OnSync,
            ExecutionTrigger::Always => TriggerView::Always,
        }
    }
}

impl ExecutionTrigger {
    /// Whether two triggers are equal, tensor ids included.
    pub fn equals(&self, other: &ExecutionTrigger) -> (r: bool)
        ensures
            r == (self@ == other@),
    {
        match (self, other) {
            (ExecutionTrigger::OnOperations(a), ExecutionTrigger::OnOperations(b)) => same_records(a, b),
            (ExecutionTrigger::OnSync, ExecutionTrigger::OnSync) => true,
            (ExecutionTrigger::Always, ExecutionTrigger::Always) => true,
            _ => false,
        }
    }

    /// Whether two triggers have the same key.
    pub fn same_as(&self, other: &ExecutionTrigger) -> (r: bool)
        ensures
            r == (trigger_key(*self) == trigger_key(*other)),
    {
        match (self, other) {
            (ExecutionTrigger::OnOperations(a), ExecutionTrigger::OnOperations(b)) => same_keys(a, b),
            (ExecutionTrigger::OnSync, ExecutionTrigger::OnSync) => true,
            (ExecutionTrigger::Always, ExecutionTrigger::Always) => true,
            _ => false,
        }
    }
}

/// The outcome of an exploration, kept for reuse.
#[derive(Debug)]
pub struct ExecutionPlan<O> {
    /// The operations that the exploration was made over.
    pub operations: Vec<OperationRecord>,
    /// When this plan may be used; any one of them suffices.
    pub triggers: Vec<ExecutionTrigger>,
    /// How the operations are to be executed.
    pub optimization: BlockOptimization<O>,
}

/// `ts` with `t` added, unless a trigger equal to `t` is there already.
pub open spec fn with_trigger(ts: Seq<ExecutionTrigger>, t: ExecutionTrigger) -> Seq<ExecutionTrigger> {
    if exists|i: int| 0 <= i < ts.len() && ts[i]@ == t@ {
        ts
    } else {
        ts.push(t)
    }
}

/// Adding the same trigger a second time leaves the trigger set as the
/// first addition left it.
pub proof fn lemma_add_trigger_idempotent(ts: Seq<ExecutionTrigger>, t1: ExecutionTrigger, t2: ExecutionTrigger)
    requires
        t1@ == t2@,
    ensures
        with_trigger(with_trigger(ts, t1), t2) == with_trigger(ts, t1),
{
    let once = with_trigger(ts, t1);
    if !(exists|i: int| 0 <= i < ts.len() && ts[i]@ == t1@) {
        assert(once[ts.len() as int]@ == t2@);
    }
}

/// The key of the first operation of a plan.
pub open spec fn first_key<O>(p: ExecutionPlan<O>) -> OperationKey {
    op_key(p.operations@[0]@)
}

/// The operations of `p` have the keys of a prefix of `buf`.
pub open spec fn covers_prefix<O>(p: ExecutionPlan<O>, buf: Seq<OperationView>) -> bool {
    let n = p.operations@.len();
    &&& 0 < n <= buf.len()
    &&& keys(views(p.operations@)) == keys(buf.subrange(0, n as int))
}

/// The operations of `p` have the keys of a prefix of `buf`, of all of it
/// when `exact`.
pub open spec fn fits<O>(p: ExecutionPlan<O>, buf: Seq<OperationView>, exact: bool) -> bool {
    &&& covers_prefix(p, buf)
    &&& exact ==> p.operations@.len() == buf.len()
}

/// Whether a query selects plan `p`.
pub open spec fn selects<O>(q: SearchQuery, p: ExecutionPlan<O>) -> bool {
    match q {
        SearchQuery::PlansStartingWith(op) => first_key(p) == op_key(op@),
        SearchQuery::PlansMatchingPrefixOf(ops) => fits(p, views(ops@), false),
        SearchQuery::PlansWithOperations(ops) => fits(p, views(ops@), true),
    }
}

/// A strictly increasing sequence of ids.
pub open spec fn increasing(s: Seq<usize>) -> bool {
    forall|a: int, b: int| 0 <= a < b < s.len() ==> s[a] < s[b]
}

/// Summary information about an execution plan.
#[derive(Debug, Clone)]
pub struct ExecutionPlanSummary {
    pub id: usize,
    pub operation_count: usize,
    pub trigger_count: usize,
}

/// Summary information about an execution plan, with the category of each of
/// its operations.
#[derive(Debug, Clone)]
pub struct ExecutionPlanSummaryWithOps {
    pub id: usize,
    pub operation_count: usize,
    pub trigger_count: usize,
    pub operation_types: Vec<String>,
}

/// Detailed information about an execution plan, as text.
#[derive(Debug, Clone)]
pub struct ExecutionPlanDetails {
    pub id: usize,
    pub operation_count: usize,
    pub operations: Vec<String>,
    pub trigger_count: usize,
    pub triggers: Vec<String>,
    pub optimization_info: String,
}

/// A stored plan with access to its strategy.
#[derive(Debug)]
pub struct ExecutionPlanOptimization<'a, O> {
    pub id: usize,
    pub operation_count: usize,
    pub operations: Vec<OperationRecord>,
    pub optimization_strategy: &'a ExecutionStrategy<O>,
}

/// The summary of plan `p` stored under `id`.
pub open spec fn summarizes<O>(s: ExecutionPlanSummary, id: int, p: ExecutionPlan<O>) -> bool {
    &&& s.id == id
    &&& s.operation_count == p.operations@.len()
    &&& s.trigger_count == p.triggers@.len()
}

/// The store that holds every exploration made on a device.
pub struct ExecutionPlanStore<O> {
    plans: Vec<ExecutionPlan<O>>,
    index: ExecutionPlanIndex,
}

impl<O> View for ExecutionPlanStore<O> {
    type V = Seq<ExecutionPlan<O>>;

    closed spec fn view(&self) -> Seq<ExecutionPlan<O>> {
        self.plans@
    }
}

impl<O> Default for ExecutionPlanStore<O> {
    fn default() -> (r: ExecutionPlanStore<O>)
        ensures
            r.wf(),
            r@ == Seq::<ExecutionPlan<O>>::empty(),
    {
        ExecutionPlanStore::new()
    }
}

impl<O> ExecutionPlanStore<O> {
    /// The index holds every plan under the key of its first operation, and
    /// nothing else, in id order.
    pub closed spec fn index_consistent(&self) -> bool {
        &&& self.index.wf()
        &&& forall|k: OperationKey| #[trigger] increasing(self.index.ids_for(k))
        &&& forall|k: OperationKey, j: int|
            0 <= j < self.index.ids_for(k).len() ==> {
                let id = #[trigger] self.index.ids_for(k)[j];
                &&& id < self.plans@.len()
                &&& self.plans@[id as int].operations@.len() > 0
                &&& first_key(self.plans@[id as int]) == k
            }
        &&& forall|id: int|
            0 <= id < self.plans@.len() ==> self.index.ids_for(first_key(#[trigger] self.plans@[id])).contains(
                id as usize,
            )
    }

    /// Every plan covers at least one operation, and the index is up to date.
    pub open spec fn wf(&self) -> bool {
        &&& self@.len() <= usize::MAX
        &&& self.index_consistent()
        &&& forall|i: int| 0 <= i < self@.len() ==> (#[trigger] self@[i]).operations@.len() > 0
    }

    /// An empty store.
    pub fn new() -> (r: ExecutionPlanStore<O>)
        ensures
            r.wf(),
            r@ == Seq::<ExecutionPlan<O>>::empty(),
    {
        ExecutionPlanStore { plans: Vec::new(), index: ExecutionPlanIndex::new() }
    }

    /// The ids of the plans that the query selects, in increasing order.
    pub fn find(&self, query: SearchQuery) -> (r: Vec<ExecutionPlanId>)
        requires
            self.wf(),
        ensures
            increasing(r@),
            forall|id: usize| r@.contains(id) <==> (id < self@.len() && selects(query, self@[id as int])),
    {
        match query {
            SearchQuery::PlansStartingWith(op) => {
                let r = self.index.find(SearchQuery::PlansStartingWith(op));
                proof {
                    let k = op_key(op@);
                    assert forall|id: usize| r@.contains(id) <==> (id < self@.len() && selects(query, self@[id as int])) by {
                        if id < self@.len() && selects(query, self@[id as int]) {
                            assert(self.index.ids_for(first_key(self.plans@[id as int])).contains(id));
                        }
                        if r@.contains(id) {
                            let j = choose|j: int| 0 <= j < r@.len() && r@[j] == id;
                            assert(self.index.ids_for(k)[j] == id);
                        }
                    }
                }
                r
            },
            SearchQuery::PlansMatchingPrefixOf(ops) => self.find_fitting(ops, false),
            SearchQuery::PlansWithOperations(ops) => self.find_fitting(ops, true),
        }
    }

    /// The ids of the plans whose operations have the keys of a prefix of
    /// `ops` (of all of `ops` when `exact`), in increasing order.
    fn find_fitting(&self, ops: &Vec<OperationRecord>, exact: bool) -> (r: Vec<ExecutionPlanId>)
        requires
            self.wf(),
        ensures
            increasing(r@),
            forall|id: usize| r@.contains(id) <==> (id < self@.len() && fits(self@[id as int], views(ops@), exact)),
    {
        let candidates = self.index.find(SearchQuery::PlansMatchingPrefixOf(ops));
        let ghost buf = views(ops@);
        let mut r: Vec<ExecutionPlanId> = Vec::new();
        let mut i: usize = 0;
        while i < candidates.len()
            invariant
                self.wf(),
                buf == views(ops@),
                ops@.len() > 0 ==> candidates@ == self.index.ids_for(op_key(ops@[0]@)),
                ops@.len() == 0 ==> candidates@.len() == 0,
                i <= candidates@.len(),
                increasing(r@),
                forall|a: int| 0 <= a < r@.len() ==> exists|b: int| 0 <= b < i && candidates@[b] == #[trigger] r@[a],
                forall|id: usize| r@.contains(id) ==> (id < self@.len() && fits(self@[id as int], buf, exact)),
                forall|b: int| 0 <= b < i ==> (fits(self@[candidates@[b] as int], buf, exact) ==> r@.contains(#[trigger] candidates@[b])),
            decreases candidates@.len() - i,
        {
            let id = candidates[i];
            proof {
                assert(self.index.ids_for(op_key(ops@[0]@))[i as int] == id);
            }
            let plan = &self.plans[id];
            if plan.operations.len() <= ops.len() && (!exact || plan.operations.len() == ops.len())
                && self.prefix_matches(id, ops) {
                let ghost before = r@;
                r.push(id);
                proof {
                    assert forall|a: int, b: int| 0 <= a < b < r@.len() implies r@[a] < r@[b] by {
                        if b == r@.len() - 1 && a < b {
                            let c = choose|c: int| 0 <= c < i && candidates@[c] == #[trigger] before[a];
                            assert(increasing(self.index.ids_for(op_key(ops@[0]@))));
                        }
                    }
                    assert forall|a: int| 0 <= a < r@.len() implies exists|b: int| 0 <= b < i + 1 && candidates@[b] == #[trigger] r@[a] by {
                        if a < before.len() {
                            let c = choose|c: int| 0 <= c < i && candidates@[c] == #[trigger] before[a];
                            assert(candidates@[c] == r@[a]);
                        } else {
                            assert(candidates@[i as int] == r@[a]);
                        }
                    }
                    assert forall|id2: usize| r@.contains(id2) implies (id2 < self@.len() && fits(self@[id2 as int], buf, exact)) by {
                        if id2 != id {
                            assert(before.contains(id2));
                        }
                    }
                    assert forall|b: int| 0 <= b < i + 1 implies (fits(self@[candidates@[b] as int], buf, exact) ==> r@.contains(#[trigger] candidates@[b])) by {
                        if b < i {
                            if fits(self@[candidates@[b] as int], buf, exact) {
                                let c = choose|c: int| 0 <= c < before.len() && before[c] == candidates@[b];
                                assert(r@[c] == candidates@[b]);
                            }
                        } else {
                            assert(r@[r@.len() - 1] == candidates@[b]);
                        }
                    }
                }
            }
            i = i + 1;
        }
        proof {
            assert forall|id: usize| r@.contains(id) <==> (id < self@.len() && fits(self@[id as int], buf, exact)) by {
                if id < self@.len() && fits(self@[id as int], buf, exact) {
                    let p = self@[id as int];
                    assert(keys(views(p.operations@))[0] == keys(buf.subrange(0, p.operations@.len() as int))[0]);
                    assert(self.index.ids_for(first_key(self.plans@[id as int])).contains(id));
                    let j = choose|j: int| 0 <= j < candidates@.len() && candidates@[j] == id;
                }
            }
        }
        r
    }

    /// Stores a plan under the next id, which it returns. A plan without
    /// operations is a caller's error, ruled out by the precondition.
    pub fn add(&mut self, exploration: ExecutionPlan<O>) -> (r: ExecutionPlanId)
        requires
            old(self).wf(),
            exploration.operations@.len() > 0,
            old(self)@.len() < usize::MAX,
        ensures
            final(self).wf(),
            r == old(self)@.len(),
            final(self)@ == old(self)@.push(exploration),
    {
        let id = self.plans.len();
        let ghost old_store = *self;
        self.index.insert(InsertQuery::NewPlan { operations: &exploration.operations, id });
        self.plans.push(exploration);
        proof {
            let k0 = first_key(exploration);
            assert forall|k: OperationKey| #[trigger] increasing(self.index.ids_for(k)) by {
                assert(increasing(old_store.index.ids_for(k)));
                if k == k0 {
                    assert forall|j: int| 0 <= j < old_store.index.ids_for(k).len() implies
                        old_store.index.ids_for(k)[j] < id by {
                        let x = old_store.index.ids_for(k)[j];
                    }
                }
            }
            assert forall|k: OperationKey, j: int|
                0 <= j < self.index.ids_for(k).len() implies {
                    let x = #[trigger] self.index.ids_for(k)[j];
                    &&& x < self.plans@.len()
                    &&& self.plans@[x as int].operations@.len() > 0
                    &&& first_key(self.plans@[x as int]) == k
                } by {
                if j < old_store.index.ids_for(k).len() {
                    let x = old_store.index.ids_for(k)[j];
                    assert(self.index.ids_for(k)[j] == x);
                }
            }
            assert forall|i: int| 0 <= i < self.plans@.len() implies self.index.ids_for(
                first_key(#[trigger] self.plans@[i]),
            ).contains(i as usize) by {
                if i < old_store.plans@.len() {
                    assert(self.plans@[i] == old_store.plans@[i]);
                    let k = first_key(self.plans@[i]);
                    let j = choose|j: int| 0 <= j < old_store.index.ids_for(k).len() && old_store.index.ids_for(k)[j] == i as usize;
                    assert(self.index.ids_for(k)[j] == i as usize);
                } else {
                    let k = first_key(self.plans@[i]);
                    assert(self.index.ids_for(k).last() == id);
                }
            }
        }
        id
    }

    /// The plan stored under `id`.
    pub fn get_unchecked(&self, id: ExecutionPlanId) -> (r: &ExecutionPlan<O>)
        requires
            id < self@.len(),
        ensures
            *r == self@[id as int],
    {
        &self.plans[id]
    }

    /// Mutable access to the plan stored under `id`.
    pub fn get_mut_unchecked(&mut self, id: ExecutionPlanId) -> (r: &mut ExecutionPlan<O>)
        requires
            id < old(self)@.len(),
        ensures
            *r == old(self)@[id as int],
            final(self)@ == old(self)@.update(id as int, *final(r)),
            old(self).wf() && final(r).operations == old(self)@[id as int].operations ==> final(self).wf(),
    {
        proof {
            assert(forall|k: OperationKey| self.index.ids_for(k) == old(self).index.ids_for(k));
        }
        &mut self.plans[id]
    }

    /// Adds a trigger to plan `id`, unless an equal one is there.
    pub fn add_trigger(&mut self, id: ExecutionPlanId, trigger: ExecutionTrigger)
        requires
            old(self).wf(),
            id < old(self)@.len(),
        ensures
            final(self).wf(),
            final(self)@.len() == old(self)@.len(),
            forall|i: int| 0 <= i < old(self)@.len() && i != id ==> final(self)@[i] == old(self)@[i],
            final(self)@[id as int].operations == old(self)@[id as int].operations,
            final(self)@[id as int].optimization == old(self)@[id as int].optimization,
            final(self)@[id as int].triggers@ == with_trigger(old(self)@[id as int].triggers@, trigger),
    {
        let ghost old_store = *self;
        let mut i: usize = 0;
        while i < self.plans[id].triggers.len()
            invariant
                *self == old_store,
                self.wf(),
                id < self.plans@.len(),
                i <= self.plans@[id as int].triggers@.len(),
                forall|j: int| 0 <= j < i ==> self.plans@[id as int].triggers@[j]@ != trigger@,
            decreases self.plans@[id as int].triggers@.len() - i,
        {
            if self.plans[id].triggers[i].equals(&trigger) {
                return;
            }
            i = i + 1;
        }
        let mut plan = self.plans.remove(id);
        plan.triggers.push(trigger);
        self.plans.insert(id, plan);
        assert(self.plans@ =~= old_store.plans@.update(id as int, plan));
        proof {
            assert forall|j: int| 0 <= j < self.plans@.len() implies first_key(#[trigger] self.plans@[j]) == first_key(old_store.plans@[j]) by {}
        }
    }

    /// The number of stored plans.
    pub fn debug_plan_count(&self) -> (r: usize)
        ensures
            r == self@.len(),
    {
        self.plans.len()
    }

    /// Every stored plan, by id.
    pub fn debug_plans(&self) -> (r: &Vec<ExecutionPlan<O>>)
        ensures
            r@ == self@,
    {
        &self.plans
    }

    /// The JSON answer given to a request for the stored plans: their
    /// serialization is not offered, which the answer says.
    pub fn debug_to_json(&self) -> (r: Result<String, serde_json::Error>)
        ensures
            r matches Ok(s) && s@ == "{\"error\": \"Serialization not yet implemented for ExecutionPlan\"}"@,
    {
        Ok(String::from_str("{\"error\": \"Serialization not yet implemented for ExecutionPlan\"}"))
    }

    /// Each stored plan, by id, with a copy of its operations and access to
    /// its strategy.
    pub fn debug_optimizations(&self) -> (r: Vec<ExecutionPlanOptimization<'_, O>>)
        ensures
            r@.len() == self@.len(),
            forall|i: int|
                0 <= i < r@.len() ==> {
                    let e = #[trigger] r@[i];
                    &&& e.id == i
                    &&& e.operation_count == self@[i].operations@.len()
                    &&& views(e.operations@) == views(self@[i].operations@)
                    &&& *e.optimization_strategy == self@[i].optimization.strategy
                },
    {
        let mut r: Vec<ExecutionPlanOptimization<'_, O>> = Vec::new();
        let mut i: usize = 0;
        while i < self.plans.len()
            invariant
                i <= self@.len(),
                r@.len() == i,
                forall|k: int|
                    0 <= k < i ==> {
                        let e = #[trigger] r@[k];
                        &&& e.id == k
                        &&& e.operation_count == self@[k].operations@.len()
                        &&& views(e.operations@) == views(self@[k].operations@)
                        &&& *e.optimization_strategy == self@[k].optimization.strategy
                    },
            decreases self@.len() - i,
        {
            let plan = &self.plans[i];
            r.push(ExecutionPlanOptimization {
                id: i,
                operation_count: plan.operations.len(),
                operations: duplicate_all(&plan.operations),
                optimization_strategy: &plan.optimization.strategy,
            });
            i = i + 1;
        }
        r
    }

    /// A summary of each stored plan, by id.
    pub fn debug_summary(&self) -> (r: Vec<ExecutionPlanSummary>)
        ensures
            r@.len() == self@.len(),
            forall|i: int| 0 <= i < r@.len() ==> summarizes(#[trigger] r@[i], i, self@[i]),
    {
        let mut r: Vec<ExecutionPlanSummary> = Vec::new();
        let mut i: usize = 0;
        while i < self.plans.len()
            invariant
                i <= self@.len(),
                r@.len() == i,
                forall|j: int| 0 <= j < i ==> summarizes(#[trigger] r@[j], j, self@[j]),
            decreases self@.len() - i,
        {
            let plan = &self.plans[i];
            r.push(ExecutionPlanSummary {
                id: i,
                operation_count: plan.operations.len(),
                trigger_count: plan.triggers.len(),
            });
            i = i + 1;
        }
        r
    }

    /// A summary of each stored plan, by id, with the category name of each
    /// of its operations.
    pub fn debug_summary_with_operations(&self) -> (r: Vec<ExecutionPlanSummaryWithOps>)
        ensures
            r@.len() == self@.len(),
            forall|i: int|
                0 <= i < r@.len() ==> {
                    let s = #[trigger] r@[i];
                    let p = self@[i];
                    &&& s.id == i
                    &&& s.operation_count == p.operations@.len()
                    &&& s.trigger_count == p.triggers@.len()
                    &&& s.operation_types@.len() == p.operations@.len()
                    &&& forall|j: int|
                        0 <= j < p.operations@.len() ==> s.operation_types@[j]@ == kind_name(
                            p.operations@[j].kind,
                        )
                },
    {
        let mut r: Vec<ExecutionPlanSummaryWithOps> = Vec::new();
        let mut i: usize = 0;
        while i < self.plans.len()
            invariant
                i <= self@.len(),
                r@.len() == i,
                forall|a: int|
                    0 <= a < i ==> {
                        let s = #[trigger] r@[a];
                        let p = self@[a];
                        &&& s.id == a
                        &&& s.operation_count == p.operations@.len()
                        &&& s.trigger_count == p.triggers@.len()
                        &&& s.operation_types@.len() == p.operations@.len()
                        &&& forall|j: int|
                            0 <= j < p.operations@.len() ==> s.operation_types@[j]@ == kind_name(
                                p.operations@[j].kind,
                            )
                    },
            decreases self@.len() - i,
        {
            let plan = &self.plans[i];
            let mut names: Vec<String> = Vec::new();
            let mut j: usize = 0;
            while j < plan.operations.len()
                invariant
                    plan == self@[i as int],
                    j <= plan.operations@.len(),
                    names@.len() == j,
                    forall|b: int| 0 <= b < j ==> names@[b]@ == kind_name(plan.operations@[b].kind),
                decreases plan.operations@.len() - j,
            {
                names.push(operation_type_name(plan.operations[j].kind));
                j = j + 1;
            }
            r.push(ExecutionPlanSummaryWithOps {
                id: i,
                operation_count: plan.operations.len(),
                trigger_count: plan.triggers.len(),
                operation_types: names,
            });
            i = i + 1;
        }
        r
    }

    /// Whether the operations of plan `id` have the keys of a prefix of `ops`.
    fn prefix_matches(&self, id: ExecutionPlanId, ops: &Vec<OperationRecord>) -> (r: bool)
        requires
            id < self@.len(),
            self@[id as int].operations@.len() <= ops@.len(),
        ensures
            r == (keys(views(self@[id as int].operations@)) == keys(views(ops@).subrange(0, self@[id as int].operations@.len() as int))),
    {
        let plan_ops = &self.plans[id].operations;
        assert(plan_ops@ == self@[id as int].operations@);
        let ghost n = plan_ops@.len() as int;
        let ghost ka = keys(views(plan_ops@));
        let ghost kb = keys(views(ops@).subrange(0, n));
        let mut i: usize = 0;
        while i < plan_ops.len()
            invariant
                n == plan_ops@.len(),
                plan_ops@ == self@[id as int].operations@,
                n <= ops@.len(),
                ka == keys(views(plan_ops@)),
                kb == keys(views(ops@).subrange(0, n)),
                ka.len() == n && kb.len() == n,
                i <= n,
                forall|j: int| 0 <= j < i ==> ka[j] == kb[j],
            decreases n - i,
        {
            if !plan_ops[i].same_key(&ops[i]) {
                assert(ka[i as int] != kb[i as int]);
                assert(ka != kb);
                return false;
            }
            i = i + 1;
        }
        assert(ka =~= kb);
        true
    }
}

} // verus!

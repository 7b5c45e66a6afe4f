//! How a finalized plan is run: one fused optimization, the operations one at
//! a time, or a composition of both.

use vstd::prelude::*;
use crate::ir::copy_usizes;

verus! {

broadcast use vstd::std_specs::vec::group_vec_axioms;

/// How a list of operations should be executed. Every `ordering` holds
/// indices into the list of operations that the strategy was chosen for.
#[derive(Debug)]
pub enum ExecutionStrategy<O> {
    /// A fused optimization, running the operations at `ordering` in that order.
    Optimization { opt: O, ordering: Vec<usize> },
    /// No optimization: each operation at `ordering` runs on its own, in order.
    Operations { ordering: Vec<usize> },
    /// The sub-strategies, one after the other.
    Composed(Vec<Box<ExecutionStrategy<O>>>),
}

/// The outcome of exploring a block of operations.
#[derive(Debug)]
pub struct BlockOptimization<O> {
    pub strategy: ExecutionStrategy<O>,
    pub ordering: Vec<usize>,
}

/// One unit of backend work.
pub enum StepView<O> {
    /// Run a fused optimization over the operations at these indices.
    Fused(O, Seq<usize>),
    /// Run the operation at this index on its own.
    Single(usize),
}

/// One unit of backend work, borrowed from a strategy.
pub enum ExecutionStep<'a, O> {
    Fused { opt: &'a O, ordering: &'a Vec<usize> },
    Single { index: usize },
}

impl<'a, O> View for ExecutionStep<'a, O> {
    type V = StepView<O>;

    open spec fn view(&self) -> StepView<O> {
        match *self {
            ExecutionStep::Fused { opt, ordering } => StepView::Fused(*opt, ordering@),
            ExecutionStep::Single { index } => StepView::Single(index),
        }
    }
}

/// The number of sub-strategies of a composition (none for the others).
pub open spec fn part_count<O>(s: ExecutionStrategy<O>) -> nat {
    match s {
        ExecutionStrategy::Composed(subs) => subs@.len(),
        _ => 0,
    }
}

/// The work that running `s` performs, in order.
pub open spec fn steps_of<O>(s: ExecutionStrategy<O>) -> Seq<StepView<O>>
    decreases s, part_count(s) + 1,
{
    match s {
        ExecutionStrategy::Optimization { opt, ordering } => seq![StepView::Fused(opt, ordering@)],
        ExecutionStrategy::Operations { ordering } => ordering@.map_values(
            |i: usize| StepView::Single(i),
        ),
        ExecutionStrategy::Composed(subs) => steps_upto(s, subs@.len() as int),
    }
}

/// The work of the first `k` sub-strategies of a composition.
pub open spec fn steps_upto<O>(s: ExecutionStrategy<O>, k: int) -> Seq<StepView<O>>
    decreases s, k,
{
    match s {
        ExecutionStrategy::Composed(subs) => {
            if 0 < k <= subs@.len() {
                steps_upto(s, k - 1) + steps_of(*subs@[k - 1])
            } else {
                Seq::empty()
            }
        },
        _ => Seq::empty(),
    }
}

/// The indices of the operations in the order that running `s` replays them.
pub open spec fn order_of<O>(s: ExecutionStrategy<O>) -> Seq<usize>
    decreases s, part_count(s) + 1,
{
    match s {
        ExecutionStrategy::Optimization { ordering, .. } => ordering@,
        ExecutionStrategy::Operations { ordering } => ordering@,
        ExecutionStrategy::Composed(subs) => order_upto(s, subs@.len() as int),
    }
}

/// The replay order of the first `k` sub-strategies of a composition.
pub open spec fn order_upto<O>(s: ExecutionStrategy<O>, k: int) -> Seq<usize>
    decreases s, k,
{
    match s {
        ExecutionStrategy::Composed(subs) => {
            if 0 < k <= subs@.len() {
                order_upto(s, k - 1) + order_of(*subs@[k - 1])
            } else {
                Seq::empty()
            }
        },
        _ => Seq::empty(),
    }
}

/// Every index that `s` replays is below `n`.
pub open spec fn within<O>(s: ExecutionStrategy<O>, n: nat) -> bool {
    forall|k: int| 0 <= k < order_of(s).len() ==> order_of(s)[k] < n
}

/// `s` replays each of the indices `0..n` exactly once.
pub open spec fn is_schedule_for<O>(s: ExecutionStrategy<O>, n: nat) -> bool {
    &&& order_of(s).len() == n
    &&& order_of(s).no_duplicates()
    &&& within(s, n)
}

/// The sequence `0, 1, ..., n - 1`.
pub open spec fn identity_order(n: nat) -> Seq<usize> {
    Seq::new(n, |i: int| i as usize)
}

/// The sequence `0, 1, ..., n - 1` as a vector.
pub fn identity_indices(n: usize) -> (r: Vec<usize>)
    ensures
        r@ == identity_order(n as nat),
{
    let mut r: Vec<usize> = Vec::new();
    let mut i: usize = 0;
    while i < n
        invariant
            i <= n,
            r@ == identity_order(i as nat),
        decreases n - i,
    {
        r.push(i);
        i = i + 1;
        assert(r@ =~= identity_order(i as nat));
    }
    r
}

impl<O> ExecutionStrategy<O> {
    /// The strategy that runs each of `n` operations on its own, in order.
    pub fn unfused(n: usize) -> (r: ExecutionStrategy<O>)
        ensures
            r is Operations,
            order_of(r) == identity_order(n as nat),
            is_schedule_for(r, n as nat),
    {
        let r = ExecutionStrategy::Operations { ordering: identity_indices(n) };
        assert(identity_order(n as nat).no_duplicates());
        r
    }

    /// The indices of the operations in the order that running the strategy
    /// replays them.
    pub fn execution_order(&self) -> (r: Vec<usize>)
        ensures
            r@ == order_of(*self),
        decreases self,
    {
        match self {
            ExecutionStrategy::Optimization { ordering, .. } => copy_usizes(ordering),
            ExecutionStrategy::Operations { ordering } => copy_usizes(ordering),
            ExecutionStrategy::Composed(subs) => {
                let mut r: Vec<usize> = Vec::new();
                let mut i: usize = 0;
                while i < subs.len()
                    invariant
                        *self == ExecutionStrategy::<O>::Composed(*subs),
                        i <= subs@.len(),
                        r@ == order_upto(*self, i as int),
                    decreases subs@.len() - i,
                {
                    let mut part = subs[i].execution_order();
                    r.append(&mut part);
                    i = i + 1;
                }
                r
            },
        }
    }

    /// The work that running the strategy performs, in order.
    pub fn execution_steps(&self) -> (r: Vec<ExecutionStep<'_, O>>)
        ensures
            r@.map_values(|x: ExecutionStep<'_, O>| x@) == steps_of(*self),
        decreases self,
    {
        match self {
            ExecutionStrategy::Optimization { opt, ordering } => {
                let mut r: Vec<ExecutionStep<'_, O>> = Vec::new();
                r.push(ExecutionStep::Fused { opt, ordering });
                assert(r@.map_values(|x: ExecutionStep<'_, O>| x@) =~= steps_of(*self));
                r
            },
            ExecutionStrategy::Operations { ordering } => {
                let mut r: Vec<ExecutionStep<'_, O>> = Vec::new();
                let mut i: usize = 0;
                while i < ordering.len()
                    invariant
                        i <= ordering@.len(),
                        r@.len() == i,
                        forall|j: int| 0 <= j < i ==> r@[j]@ == StepView::<O>::Single(ordering@[j]),
                    decreases ordering@.len() - i,
                {
                    r.push(ExecutionStep::Single { index: ordering[i] });
                    i = i + 1;
                }
                assert(r@.map_values(|x: ExecutionStep<'_, O>| x@) =~= steps_of(*self));
                r
            },
            ExecutionStrategy::Composed(subs) => {
                let mut r: Vec<ExecutionStep<'_, O>> = Vec::new();
                let mut i: usize = 0;
                while i < subs.len()
                    invariant
                        *self == ExecutionStrategy::<O>::Composed(*subs),
                        i <= subs@.len(),
                        r@.map_values(|x: ExecutionStep<'_, O>| x@) == steps_upto(*self, i as int),
                    decreases subs@.len() - i,
                {
                    let sub: &ExecutionStrategy<O> = &subs[i];
                    proof {
                        assert(decreases_to!(*self => *sub));
                    }
                    let mut part = sub.execution_steps();
                    let ghost before = r@;
                    r.append(&mut part);
                    i = i + 1;
                    assert(r@.map_values(|x: ExecutionStep<'_, O>| x@) =~= before.map_values(
                        |x: ExecutionStep<'_, O>| x@,
                    ) + steps_of(*subs@[i - 1]));
                }
                r
            },
        }
    }

    /// Whether the strategy replays each of the indices `0..n` exactly once.
    pub fn is_schedule(&self, n: usize) -> (r: bool)
        ensures
            r == is_schedule_for(*self, n as nat),
    {
        let order = self.execution_order();
        if order.len() != n {
            return false;
        }
        let mut seen: Vec<bool> = Vec::new();
        let mut j: usize = 0;
        while j < n
            invariant
                j <= n,
                seen@.len() == j,
                forall|k: int| 0 <= k < j ==> !seen@[k],
            decreases n - j,
        {
            seen.push(false);
            j = j + 1;
        }
        let mut i: usize = 0;
        while i < order.len()
            invariant
                order@ == order_of(*self),
                order@.len() == n,
                seen@.len() == n,
                i <= n,
                forall|a: int| 0 <= a < i ==> order@[a] < n,
                forall|a: int, b: int| 0 <= a < b < i ==> order@[a] != order@[b],
                forall|x: int| 0 <= x < n ==> (seen@[x] <==> exists|a: int| 0 <= a < i && order@[a] == x),
            decreases n - i,
        {
            let x = order[i];
            if x >= n {
                assert(!within(*self, n as nat));
                return false;
            }
            if seen[x] {
                let ghost a = choose|a: int| 0 <= a < i && order@[a] == x;
                assert(order@[a] == order@[i as int]);
                assert(!order@.no_duplicates());
                return false;
            }
            seen.set(x, true);
            i = i + 1;
        }
        true
    }
}

/// Running a composition performs the work of its parts, one after the other
/// in their listed order.
pub proof fn lemma_composed_runs_parts_in_order<O>(subs: Vec<Box<ExecutionStrategy<O>>>)
    ensures
        steps_of(ExecutionStrategy::Composed(subs)) == subs@.map_values(
            |b: Box<ExecutionStrategy<O>>| steps_of(*b),
        ).flatten(),
{
    let s = ExecutionStrategy::Composed(subs);
    let parts = subs@.map_values(|b: Box<ExecutionStrategy<O>>| steps_of(*b));
    lemma_steps_upto_flatten(subs, subs@.len() as int);
    assert(parts.subrange(0, subs@.len() as int) =~= parts);
    parts.lemma_flatten_and_flatten_alt_are_equivalent();
}

proof fn lemma_steps_upto_flatten<O>(subs: Vec<Box<ExecutionStrategy<O>>>, k: int)
    requires
        0 <= k <= subs@.len(),
    ensures
        steps_upto(ExecutionStrategy::Composed(subs), k) == subs@.map_values(
            |b: Box<ExecutionStrategy<O>>| steps_of(*b),
        ).subrange(0, k).flatten_alt(),
    decreases k,
{
    let parts = subs@.map_values(|b: Box<ExecutionStrategy<O>>| steps_of(*b));
    if k > 0 {
        lemma_steps_upto_flatten(subs, k - 1);
        assert(parts.subrange(0, k).drop_last() =~= parts.subrange(0, k - 1));
    } else {
        assert(parts.subrange(0, k) =~= Seq::<Seq<StepView<O>>>::empty());
    }
}

} // verus!

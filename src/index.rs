//! Lookup from an operation to the plans whose sequence starts with it.

use vstd::prelude::*;
use crate::ir::{copy_usizes, op_key, OperationKey, OperationRecord};

verus! {

/// The plans whose first operation has the key of `first`, by id in
/// insertion order.
struct IndexBucket {
    first: OperationRecord,
    ids: Vec<usize>,
}

/// An index over the operations of stored plans. It can always be rebuilt by
/// inserting every plan again in id order.
pub struct ExecutionPlanIndex {
    buckets: Vec<IndexBucket>,
}

/// What to insert into the index.
pub enum InsertQuery<'a> {
    /// A plan with these operations, stored under this id.
    NewPlan { operations: &'a Vec<OperationRecord>, id: usize },
}

/// What to look up in the index.
pub enum SearchQuery<'a> {
    /// The plans whose first operation has the key of this one.
    PlansStartingWith(&'a OperationRecord),
    /// The plans whose whole sequence has the keys of a prefix of this one.
    PlansMatchingPrefixOf(&'a Vec<OperationRecord>),
    /// The plans whose whole sequence has the keys of exactly this one.
    PlansWithOperations(&'a Vec<OperationRecord>),
}

impl ExecutionPlanIndex {
    /// No two buckets share a key.
    pub closed spec fn wf(&self) -> bool {
        forall|i: int, j: int|
            0 <= i < j < self.buckets@.len() ==> op_key(self.buckets@[i].first@) != op_key(
                self.buckets@[j].first@,
            )
    }

    /// The ids stored under key `k`, in insertion order.
    pub closed spec fn ids_for(&self, k: OperationKey) -> Seq<usize> {
        if exists|i: int| 0 <= i < self.buckets@.len() && op_key(self.buckets@[i].first@) == k {
            self.buckets@[choose|i: int|
                0 <= i < self.buckets@.len() && op_key(self.buckets@[i].first@) == k].ids@
        } else {
            Seq::empty()
        }
    }

    proof fn lemma_ids_for_bucket(&self, i: int)
        requires
            self.wf(),
            0 <= i < self.buckets@.len(),
        ensures
            self.ids_for(op_key(self.buckets@[i].first@)) == self.buckets@[i].ids@,
    {
        let k = op_key(self.buckets@[i].first@);
        let c = choose|c: int| 0 <= c < self.buckets@.len() && op_key(self.buckets@[c].first@) == k;
        if c != i {
            if c < i {
                assert(op_key(self.buckets@[c].first@) != op_key(self.buckets@[i].first@));
            } else {
                assert(op_key(self.buckets@[i].first@) != op_key(self.buckets@[c].first@));
            }
        }
    }

    /// An empty index.
    pub fn new() -> (r: ExecutionPlanIndex)
        ensures
            r.wf(),
            forall|k: OperationKey| r.ids_for(k) == Seq::<usize>::empty(),
    {
        ExecutionPlanIndex { buckets: Vec::new() }
    }

    fn bucket_of(&self, op: &OperationRecord) -> (r: Option<usize>)
        requires
            self.wf(),
        ensures
            r matches Some(i) ==> i < self.buckets@.len() && op_key(self.buckets@[i as int].first@)
                == op_key(op@),
            r is None ==> forall|i: int|
                0 <= i < self.buckets@.len() ==> op_key(self.buckets@[i].first@) != op_key(op@),
    {
        let mut i: usize = 0;
        while i < self.buckets.len()
            invariant
                i <= self.buckets@.len(),
                forall|j: int| 0 <= j < i ==> op_key(self.buckets@[j].first@) != op_key(op@),
            decreases self.buckets@.len() - i,
        {
            if self.buckets[i].first.same_key(op) {
                return Some(i);
            }
            i = i + 1;
        }
        None
    }

    /// The ids stored under the key of the first operation that the query
    /// names, in insertion order; nothing for an empty prefix query.
    pub fn find(&self, query: SearchQuery) -> (r: Vec<usize>)
        requires
            self.wf(),
        ensures
            query matches SearchQuery::PlansStartingWith(op) ==> r@ == self.ids_for(op_key(op@)),
            query matches SearchQuery::PlansWithOperations(ops) ==> r@ == if ops@.len() > 0 {
                self.ids_for(op_key(ops@[0]@))
            } else {
                Seq::<usize>::empty()
            },
            query matches SearchQuery::PlansMatchingPrefixOf(ops) ==> r@ == if ops@.len() > 0 {
                self.ids_for(op_key(ops@[0]@))
            } else {
                Seq::<usize>::empty()
            },
    {
        let op = match query {
            SearchQuery::PlansStartingWith(op) => op,
            SearchQuery::PlansMatchingPrefixOf(ops) | SearchQuery::PlansWithOperations(ops) => {
                if ops.len() == 0 {
                    return Vec::new();
                }
                &ops[0]
            },
        };
        match self.bucket_of(op) {
            Some(i) => {
                proof {
                    self.lemma_ids_for_bucket(i as int);
                }
                copy_usizes(&self.buckets[i].ids)
            },
            None => Vec::new(),
        }
    }

    /// Registers a sequence of operations under an id.
    pub fn insert(&mut self, query: InsertQuery)
        requires
            old(self).wf(),
            query matches InsertQuery::NewPlan { operations, .. } && operations@.len() > 0,
        ensures
            final(self).wf(),
            query matches InsertQuery::NewPlan { operations, id } && forall|k: OperationKey|
                #[trigger] final(self).ids_for(k) == if k == op_key(operations@[0]@) {
                    old(self).ids_for(k).push(id)
                } else {
                    old(self).ids_for(k)
                },
    {
        match query {
            InsertQuery::NewPlan { operations, id } => {
                let ghost k0 = op_key(operations@[0]@);
                let ghost old_index = *self;
                match self.bucket_of(&operations[0]) {
                    Some(i) => {
                        let mut bucket = self.buckets.remove(i);
                        bucket.ids.push(id);
                        self.buckets.insert(i, bucket);
                        assert(self.buckets@ =~= old_index.buckets@.update(
                            i as int,
                            self.buckets@[i as int],
                        ));
                        assert(forall|j: int|
                            0 <= j < self.buckets@.len() ==> self.buckets@[j].first
                                == old_index.buckets@[j].first);
                        assert(self.wf());
                        proof {
                            old_index.lemma_ids_for_bucket(i as int);
                            self.lemma_ids_for_bucket(i as int);
                            assert forall|k: OperationKey| #[trigger]
                                self.ids_for(k) == if k == k0 {
                                    old_index.ids_for(k).push(id)
                                } else {
                                    old_index.ids_for(k)
                                } by {
                                if k != k0 {
                                    if exists|j: int|
                                        0 <= j < self.buckets@.len() && op_key(
                                            self.buckets@[j].first@,
                                        ) == k {
                                        let j = choose|j: int|
                                            0 <= j < self.buckets@.len() && op_key(
                                                self.buckets@[j].first@,
                                            ) == k;
                                        old_index.lemma_ids_for_bucket(j);
                                        self.lemma_ids_for_bucket(j);
                                    }
                                }
                            }
                        }
                    },
                    None => {
                        let mut ids: Vec<usize> = Vec::new();
                        ids.push(id);
                        let first = operations[0].duplicate();
                        self.buckets.push(IndexBucket { first, ids });
                        let n = self.buckets.len() - 1;
                        assert(forall|j: int|
                            0 <= j < n ==> self.buckets@[j] == old_index.buckets@[j]);
                        assert(self.wf());
                        proof {
                            self.lemma_ids_for_bucket(n as int);
                            assert(ids@ =~= Seq::<usize>::empty().push(id));
                            assert forall|k: OperationKey| #[trigger]
                                self.ids_for(k) == if k == k0 {
                                    old_index.ids_for(k).push(id)
                                } else {
                                    old_index.ids_for(k)
                                } by {
                                if k != k0 {
                                    if exists|j: int|
                                        0 <= j < self.buckets@.len() && op_key(
                                            self.buckets@[j].first@,
                                        ) == k {
                                        let j = choose|j: int|
                                            0 <= j < self.buckets@.len() && op_key(
                                                self.buckets@[j].first@,
                                            ) == k;
                                        old_index.lemma_ids_for_bucket(j);
                                        self.lemma_ids_for_bucket(j);
                                    }
                                }
                            }
                        }
                    },
                }
            },
        }
    }
}

} // verus!

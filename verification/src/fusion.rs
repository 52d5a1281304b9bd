//! The optimizations found for streams of tensor operations, indexed by the
//! operation that starts them.
use vstd::prelude::*;
use std::collections::HashMap;
use crate::autodiff::graph::copy_positions;

verus! {

broadcast use vstd::std_specs::hash::group_hash_axioms;

/// The description of a tensor operation, by its canonical code.
#[derive(Clone, Copy, Debug, PartialEq, Eq, Structural)]
pub struct TensorOpsDescription {
    pub code: u64,
}

/// The position of an optimization in [`StreamOptimizations`].
pub type OptimizationId = usize;

/// An optimization of a stream of operations, and the operations after which
/// it may end.
#[derive(Debug)]
pub struct OptimizationItem<O> {
    pub stream: Vec<TensorOpsDescription>,
    pub end_conditions: Vec<TensorOpsDescription>,
    pub value: O,
}

/// The positions of the optimizations whose stream starts with `ops`, in order.
pub open spec fn starting_with<O>(
    items: Seq<OptimizationItem<O>>,
    ops: TensorOpsDescription,
) -> Seq<usize>
    decreases items.len(),
{
    if items.len() == 0 {
        Seq::empty()
    } else {
        let prev = starting_with(items.drop_last(), ops);
        let s = items.last().stream@;
        if s.len() > 0 && s[0] == ops {
            prev.push((items.len() - 1) as usize)
        } else {
            prev
        }
    }
}

/// For each operation, by its code, the optimizations that start with it.
#[derive(Default)]
pub struct Starters {
    starters: HashMap<u64, Vec<OptimizationId>>,
}

impl Starters {
    /// The optimizations that start with `ops`.
    pub closed spec fn lookup(&self, ops: TensorOpsDescription) -> Seq<usize> {
        if self.starters@.contains_key(ops.code) {
            self.starters@[ops.code]@
        } else {
            Seq::empty()
        }
    }

    pub fn new() -> (r: Self)
        ensures
            forall|ops: TensorOpsDescription| #[trigger] r.lookup(ops) == Seq::<usize>::empty(),
    {
        Starters { starters: HashMap::new() }
    }

    /// The optimizations that start with `ops`.
    pub fn get(&self, ops: &TensorOpsDescription) -> (r: Vec<OptimizationId>)
        ensures
            r@ == self.lookup(*ops),
    {
        match self.starters.get(&ops.code) {
            Some(ids) => copy_positions(ids),
            None => Vec::new(),
        }
    }

    /// Record that the optimization `new_id` starts with `ops`.
    pub fn insert(&mut self, ops: &TensorOpsDescription, new_id: OptimizationId)
        ensures
            final(self).lookup(*ops) == old(self).lookup(*ops).push(new_id),
            forall|o: TensorOpsDescription| o != *ops ==> #[trigger] final(self).lookup(o) == old(self).lookup(o),
    {
        let mut ids = match self.starters.remove(&ops.code) {
            Some(ids) => ids,
            None => Vec::new(),
        };
        ids.push(new_id);
        self.starters.insert(ops.code, ids);
        proof {
            assert forall|o: TensorOpsDescription| o != *ops implies #[trigger] self.lookup(o)
                == old(self).lookup(o) by {
                assert(o.code != ops.code);
            }
        }
    }
}

/// The optimizations found so far, with the operations that start them.
pub struct StreamOptimizations<O> {
    pub optimizations: Vec<OptimizationItem<O>>,
    pub starters: Starters,
}

impl<O> StreamOptimizations<O> {
    /// Every optimization has a stream, and the starters list, for every
    /// operation, the optimizations that start with it.
    pub open spec fn wf(&self) -> bool {
        &&& forall|i: int|
            0 <= i < self.optimizations@.len() ==> (#[trigger] self.optimizations@[i]).stream@.len()
                > 0
        &&& forall|ops: TensorOpsDescription| #[trigger]
            self.starters.lookup(ops) == starting_with(self.optimizations@, ops)
    }

    pub fn new() -> (r: Self)
        ensures
            r.wf(),
            r.optimizations@.len() == 0,
    {
        let r = StreamOptimizations { optimizations: Vec::new(), starters: Starters::new() };
        proof {
            assert forall|ops: TensorOpsDescription| #[trigger]
                r.starters.lookup(ops) == starting_with(r.optimizations@, ops) by {}
        }
        r
    }

    /// The optimizations whose stream starts with `ops`, in the order they
    /// were added.
    pub fn find_starting_with(&self, ops: &TensorOpsDescription) -> (r: Vec<OptimizationId>)
        requires
            self.wf(),
        ensures
            r@ == starting_with(self.optimizations@, *ops),
    {
        self.starters.get(ops)
    }

    /// The optimization at `id`, to change.
    pub fn get_mut_unchecked<'a>(&'a mut self, id: OptimizationId) -> (r: &'a mut OptimizationItem<O>)
        requires
            id < old(self).optimizations@.len(),
        ensures
            *r == old(self).optimizations@[id as int],
            final(self).optimizations@ == old(self).optimizations@.update(id as int, *final(r)),
            final(self).starters == old(self).starters,
    {
        &mut self.optimizations[id]
    }

    /// The optimization at `id`.
    pub fn get_unchecked<'a>(&'a self, id: OptimizationId) -> (r: &'a OptimizationItem<O>)
        requires
            id < self.optimizations@.len(),
        ensures
            *r == self.optimizations@[id as int],
    {
        &self.optimizations[id]
    }

    /// Add an optimization; it gets the next position.
    pub fn add(&mut self, optimization: OptimizationItem<O>) -> (new_id: OptimizationId)
        requires
            old(self).wf(),
            optimization.stream@.len() > 0,
        ensures
            final(self).wf(),
            new_id == old(self).optimizations@.len(),
            final(self).optimizations@ == old(self).optimizations@.push(optimization),
    {
        let new_id = self.optimizations.len();
        let first = optimization.stream[0];
        self.starters.insert(&first, new_id);
        let ghost before = self.optimizations@;
        self.optimizations.push(optimization);
        proof {
            assert(self.optimizations@.drop_last() == before);
            assert forall|ops: TensorOpsDescription| #[trigger]
                self.starters.lookup(ops) == starting_with(self.optimizations@, ops) by {}
        }
        new_id
    }

    /// Add a new end condition for an optimization.
    pub fn add_end_condition(&mut self, id: OptimizationId, end_condition: TensorOpsDescription)
        requires
            old(self).wf(),
            id < old(self).optimizations@.len(),
        ensures
            final(self).wf(),
            final(self).optimizations@.len() == old(self).optimizations@.len(),
            final(self).optimizations@[id as int].end_conditions@
                == old(self).optimizations@[id as int].end_conditions@.push(end_condition),
            final(self).optimizations@[id as int].stream == old(self).optimizations@[id as int].stream,
            final(self).optimizations@[id as int].value == old(self).optimizations@[id as int].value,
            forall|j: int|
                0 <= j < old(self).optimizations@.len() && j != id
                    ==> #[trigger] final(self).optimizations@[j] == old(self).optimizations@[j],
    {
        let ghost before = self.optimizations@;
        let item = &mut self.optimizations[id];
        item.end_conditions.push(end_condition);
        proof {
            assert forall|ops: TensorOpsDescription| #[trigger]
                starting_with(self.optimizations@, ops) == starting_with(before, ops) by {
                lemma_starting_with_same_streams(self.optimizations@, before, ops);
            }
        }
    }
}

/// The starting operations only depend on the streams.
proof fn lemma_starting_with_same_streams<O>(
    a: Seq<OptimizationItem<O>>,
    b: Seq<OptimizationItem<O>>,
    ops: TensorOpsDescription,
)
    requires
        a.len() == b.len(),
        forall|i: int| 0 <= i < a.len() ==> (#[trigger] a[i]).stream == b[i].stream,
    ensures
        starting_with(a, ops) == starting_with(b, ops),
    decreases a.len(),
{
    if a.len() > 0 {
        lemma_starting_with_same_streams(a.drop_last(), b.drop_last(), ops);
    }
}

/// The optimizations found for an operation are exactly those whose stream
/// starts with it, each once, in the order they were added.
pub proof fn law_starting_with_exact<O>(items: Seq<OptimizationItem<O>>, ops: TensorOpsDescription)
    requires
        items.len() <= usize::MAX,
    ensures
        forall|k: int|
            #![trigger starting_with(items, ops)[k]]
            0 <= k < starting_with(items, ops).len() ==> {
                let i = starting_with(items, ops)[k] as int;
                &&& i < items.len()
                &&& items[i].stream@.len() > 0
                &&& items[i].stream@[0] == ops
            },
        forall|k: int, j: int|
            0 <= k < j < starting_with(items, ops).len() ==> #[trigger] starting_with(items, ops)[k]
                < #[trigger] starting_with(items, ops)[j],
        forall|i: int|
            0 <= i < items.len() && (#[trigger] items[i]).stream@.len() > 0 && items[i].stream@[0]
                == ops ==> starting_with(items, ops).contains(i as usize),
    decreases items.len(),
{
    if items.len() > 0 {
        let prev_items = items.drop_last();
        law_starting_with_exact(prev_items, ops);
        let prev = starting_with(prev_items, ops);
        let last = (items.len() - 1) as usize;
        assert forall|i: int|
            0 <= i < items.len() && (#[trigger] items[i]).stream@.len() > 0 && items[i].stream@[0]
                == ops implies starting_with(items, ops).contains(i as usize) by {
            if i < items.len() - 1 {
                assert(prev_items[i] == items[i]);
                let k = choose|k: int| 0 <= k < prev.len() && prev[k] == i as usize;
                assert(starting_with(items, ops)[k] == i as usize);
            } else {
                assert(starting_with(items, ops)[starting_with(items, ops).len() - 1] == last);
            }
        }
    }
}

/// Adding an optimization appends its position to those found by its first
/// operation and leaves those found by any other operation as they were.
pub proof fn law_add_then_find<O>(
    items: Seq<OptimizationItem<O>>,
    added: OptimizationItem<O>,
    ops: TensorOpsDescription,
)
    requires
        added.stream@.len() > 0,
    ensures
        starting_with(items.push(added), ops) == if added.stream@[0] == ops {
            starting_with(items, ops).push(items.len() as usize)
        } else {
            starting_with(items, ops)
        },
{
    assert(items.push(added).drop_last() =~= items);
}

} // verus!

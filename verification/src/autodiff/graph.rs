//! The graph of recorded operations and the order of the backward pass.
//!
//! Nodes live in an arena ([`Graph`]); a node names its parents (the nodes it
//! was computed from) by their position in the arena. A node's order is one
//! more than the largest order of its parents, so orders decrease strictly
//! from a node to its parents and the graph has no cycle.
use vstd::prelude::*;
use crate::tensor::{ones_view, shape_fits, Tensor, TensorView};

verus! {

/// A recorded operation's node.
#[derive(Debug)]
pub struct GraphNode {
    pub id: u64,
    pub order: usize,
    pub parents: Vec<usize>,
}

/// All the nodes of a computation.
#[derive(Debug)]
pub struct Graph {
    pub nodes: Vec<GraphNode>,
}

pub open spec fn node_order(g: Graph, v: usize) -> nat {
    g.nodes@[v as int].order as nat
}

pub open spec fn parents_of(g: Graph, v: usize) -> Seq<usize> {
    g.nodes@[v as int].parents@
}

/// Every parent exists and has a smaller order than its child.
pub open spec fn well_formed(g: Graph) -> bool {
    forall|v: int, j: int|
        0 <= v < g.nodes@.len() && 0 <= j < g.nodes@[v].parents@.len() ==> {
            &&& (#[trigger] g.nodes@[v].parents@[j]) < g.nodes@.len()
            &&& g.nodes@[g.nodes@[v].parents@[j] as int].order < g.nodes@[v].order
        }
}

/// `u` has a nonzero order and `v` as a parent.
pub open spec fn parent_edge(g: Graph, u: usize, v: usize) -> bool {
    &&& (u as int) < g.nodes@.len()
    &&& node_order(g, u) > 0
    &&& parents_of(g, u).contains(v)
}

/// `v` is reached from `start` in at most `k` steps; a step goes from a node
/// of nonzero order to one of its parents.
pub open spec fn reaches(g: Graph, start: Seq<usize>, v: usize, k: nat) -> bool
    decreases k,
{
    if k == 0 {
        start.contains(v)
    } else {
        reaches(g, start, v, (k - 1) as nat) || exists|u: usize| #[trigger]
            parent_edge(g, u, v) && reaches(g, start, u, (k - 1) as nat)
    }
}

/// `v` is reached from `start`.
pub open spec fn reachable(g: Graph, start: Seq<usize>, v: usize) -> bool {
    exists|k: nat| #[trigger] reaches(g, start, v, k)
}

/// The node from which a backward pass starts: its identifier, its order,
/// its parents, the value it holds and its gradient, once set.
#[derive(Debug)]
pub struct BackwardNode {
    pub id: u64,
    pub order: usize,
    pub parents: Vec<usize>,
    pub value: Tensor<i64>,
    pub grad: Option<Tensor<i64>>,
}

/// The node of a forward pass: its identifier, its order, its parents and
/// the value it computed.
#[derive(Debug)]
pub struct ForwardNode {
    pub id: u64,
    pub order: usize,
    pub parents: Vec<usize>,
    pub value: Tensor<i64>,
}

/// The schedule of a backward pass from a node with the parents `start`:
/// every node reached from `start`, through nodes of nonzero order, that has
/// a nonzero order, each once, from the highest order to the lowest.
pub open spec fn is_schedule(g: Graph, start: Seq<usize>, schedule: Seq<usize>) -> bool {
    &&& forall|i: int|
        0 <= i < schedule.len() ==> {
            &&& (#[trigger] schedule[i] as int) < g.nodes@.len()
            &&& node_order(g, schedule[i]) > 0
        }
    &&& forall|i: int, j: int|
        0 <= i < j < schedule.len() ==> #[trigger] schedule[i] != #[trigger] schedule[j]
    &&& forall|i: int, j: int|
        0 <= i < j < schedule.len() ==> node_order(g, #[trigger] schedule[i]) >= node_order(
            g,
            #[trigger] schedule[j],
        )
    &&& forall|v: usize|
        (v as int) < g.nodes@.len() ==> (schedule.contains(v) <==> (node_order(g, v) > 0
            && reachable(g, start, v)))
}

/// Whether a node is at order `b`.
pub open spec fn at_order(g: Graph, b: int) -> spec_fn(usize) -> bool {
    |v: usize| node_order(g, v) == b
}

/// Whether a node is not visited yet.
pub open spec fn unvisited(visited: Seq<bool>) -> spec_fn(usize) -> bool {
    |v: usize| !visited[v as int]
}

/// One step of the search for the nodes of a backward pass, over the nodes
/// still to look at (the next one last), the nodes visited and the nodes
/// found so far, in order: the next node is taken; unless its order is zero,
/// its parents not visited yet are put to look at, in their order, and the
/// node, when it was not visited yet, is visited and found.
pub open spec fn search_step(
    g: Graph,
    state: (Seq<usize>, Seq<bool>, Seq<usize>),
) -> (Seq<usize>, Seq<bool>, Seq<usize>) {
    let (stack, visited, found) = state;
    if stack.len() == 0 {
        state
    } else {
        let node = stack.last();
        let rest = stack.drop_last();
        if node_order(g, node) == 0 {
            (rest, visited, found)
        } else {
            let pushed = rest + parents_of(g, node).filter(unvisited(visited));
            if visited[node as int] {
                (pushed, visited, found)
            } else {
                (pushed, visited.update(node as int, true), found.push(node))
            }
        }
    }
}

/// The state of the search from `start` after `steps` steps.
pub open spec fn search(g: Graph, start: Seq<usize>, steps: nat) -> (Seq<usize>, Seq<bool>, Seq<usize>)
    decreases steps,
{
    if steps == 0 {
        (start, Seq::new(g.nodes@.len(), |i: int| false), Seq::empty())
    } else {
        search_step(g, search(g, start, (steps - 1) as nat))
    }
}

/// The nodes of `found` of each order from `top - 1` down to zero, those of
/// one order in the order they were found.
pub open spec fn by_order_desc(g: Graph, found: Seq<usize>, top: nat) -> Seq<usize>
    decreases top,
{
    if top == 0 {
        Seq::empty()
    } else {
        found.filter(at_order(g, top - 1)) + by_order_desc(g, found, (top - 1) as nat)
    }
}

/// `schedule` runs the nodes of each order in the order the search from
/// `start` finds them, once it has looked at every node; `top` bounds the
/// orders.
pub open spec fn in_found_order(g: Graph, start: Seq<usize>, schedule: Seq<usize>, top: nat) -> bool {
    exists|steps: nat|
        #![trigger search(g, start, steps)]
        search(g, start, steps).0.len() == 0 && schedule == by_order_desc(
            g,
            search(g, start, steps).2,
            top,
        )
}

/// A backward step run: the root's, with the gradient it was given, or that
/// of a node of the graph.
pub enum BackwardStep {
    Root(TensorView<i64>),
    Node(usize),
}

/// The steps of the nodes of a schedule, in order.
pub open spec fn node_steps(schedule: Seq<usize>) -> Seq<BackwardStep> {
    schedule.map_values(|v: usize| BackwardStep::Node(v))
}

/// The recorded operations of a graph, whose backward steps a backward pass
/// runs, and the gradients they gather.
pub trait BackwardOps {
    /// The gradients gathered.
    type Grads;

    /// The steps run so far, in order.
    spec fn steps(&self) -> Seq<BackwardStep>;

    /// Whether `grads` are the gradients the steps run so far have gathered.
    spec fn gathered(&self, grads: Self::Grads) -> bool;

    /// Run the backward step of the root, whose gradient is `grad`.
    fn root_step(&mut self, grad: &Tensor<i64>)
        ensures
            final(self).steps() == old(self).steps().push(BackwardStep::Root(grad@)),
    ;

    /// Run the backward step of the node at position `node` of the graph.
    fn node_step(&mut self, node: usize)
        ensures
            final(self).steps() == old(self).steps().push(BackwardStep::Node(node)),
    ;

    /// The gradients gathered.
    fn gradients(&self) -> (r: Self::Grads)
        ensures
            self.gathered(r),
    ;
}

/// A step run, as kept by [`StepTrace`].
#[derive(Debug)]
pub enum StepCall {
    Root(Tensor<i64>),
    Node(usize),
}

/// The step a call stands for.
pub open spec fn step_of(c: StepCall) -> BackwardStep {
    match c {
        StepCall::Root(t) => BackwardStep::Root(t@),
        StepCall::Node(v) => BackwardStep::Node(v),
    }
}

/// Operations that only keep the trace of the steps run; what they gather
/// is the nodes stepped, in order.
pub struct StepTrace {
    pub calls: Vec<StepCall>,
}

impl StepTrace {
    /// No step run yet.
    pub fn new() -> (r: Self)
        ensures
            r.steps() == Seq::<BackwardStep>::empty(),
    {
        let r = StepTrace { calls: Vec::new() };
        assert(r.steps() =~= Seq::<BackwardStep>::empty());
        r
    }
}

/// The nodes among the calls, in order.
pub open spec fn stepped_nodes(calls: Seq<StepCall>) -> Seq<usize>
    decreases calls.len(),
{
    if calls.len() == 0 {
        Seq::empty()
    } else {
        let prev = stepped_nodes(calls.drop_last());
        match calls.last() {
            StepCall::Node(v) => prev.push(v),
            StepCall::Root(_) => prev,
        }
    }
}

impl BackwardOps for StepTrace {
    type Grads = Vec<usize>;

    open spec fn steps(&self) -> Seq<BackwardStep> {
        self.calls@.map_values(|c: StepCall| step_of(c))
    }

    open spec fn gathered(&self, grads: Vec<usize>) -> bool {
        grads@ == stepped_nodes(self.calls@)
    }

    fn root_step(&mut self, grad: &Tensor<i64>) {
        self.calls.push(StepCall::Root(grad.duplicate()));
        assert(self.steps() =~= old(self).steps().push(BackwardStep::Root(grad@)));
    }

    fn node_step(&mut self, node: usize) {
        self.calls.push(StepCall::Node(node));
        assert(self.steps() =~= old(self).steps().push(BackwardStep::Node(node)));
    }

    fn gradients(&self) -> (r: Vec<usize>) {
        let mut r: Vec<usize> = Vec::new();
        let mut k: usize = 0;
        while k < self.calls.len()
            invariant
                k <= self.calls@.len(),
                r@ == stepped_nodes(self.calls@.take(k as int)),
            decreases self.calls@.len() - k,
        {
            assert(self.calls@.take(k + 1).drop_last() =~= self.calls@.take(k as int));
            match &self.calls[k] {
                StepCall::Node(v) => r.push(*v),
                StepCall::Root(_) => {},
            }
            k = k + 1;
        }
        assert(self.calls@.take(k as int) =~= self.calls@);
        r
    }
}

/// A copy of a list of positions.
pub fn copy_positions(v: &Vec<usize>) -> (r: Vec<usize>)
    ensures
        r@ == v@,
{
    let mut r: Vec<usize> = Vec::new();
    let mut k: usize = 0;
    while k < v.len()
        invariant
            k <= v.len(),
            r@ == v@.take(k as int),
        decreases v.len() - k,
    {
        r.push(v[k]);
        k = k + 1;
        assert(r@ =~= v@.take(k as int));
    }
    assert(v@.take(v.len() as int) =~= v@);
    r
}

/// The largest number of parents of a node.
pub open spec fn max_degree(nodes: Seq<GraphNode>) -> nat
    decreases nodes.len(),
{
    if nodes.len() == 0 {
        0
    } else {
        let prev = max_degree(nodes.drop_last());
        let d = nodes.last().parents@.len();
        if d > prev {
            d
        } else {
            prev
        }
    }
}

proof fn lemma_max_degree(nodes: Seq<GraphNode>, v: int)
    requires
        0 <= v < nodes.len(),
    ensures
        nodes[v].parents@.len() <= max_degree(nodes),
    decreases nodes.len(),
{
    if v < nodes.len() - 1 {
        lemma_max_degree(nodes.drop_last(), v);
        assert(nodes.drop_last()[v] == nodes[v]);
    }
}

/// `w` to the power `e`.
pub open spec fn weight(w: nat, e: nat) -> nat
    decreases e,
{
    if e == 0 {
        1
    } else {
        w * weight(w, (e - 1) as nat)
    }
}

proof fn lemma_weight_positive(w: nat, e: nat)
    requires
        w >= 1,
    ensures
        weight(w, e) >= 1,
    decreases e,
{
    if e > 0 {
        lemma_weight_positive(w, (e - 1) as nat);
        let x = weight(w, (e - 1) as nat);
        assert(w * x >= 1) by (nonlinear_arith)
            requires
                w >= 1,
                x >= 1,
        ;
    }
}

proof fn lemma_weight_monotonic(w: nat, a: nat, b: nat)
    requires
        w >= 1,
        a <= b,
    ensures
        1 <= weight(w, a) <= weight(w, b),
    decreases b,
{
    lemma_weight_positive(w, a);
    if a < b {
        lemma_weight_monotonic(w, a, (b - 1) as nat);
        let x = weight(w, (b - 1) as nat);
        assert(w * x >= x) by (nonlinear_arith)
            requires
                w >= 1,
                x >= 1,
        ;
    }
}

/// Sum over the stack of `w` to the power of each node's order: a node of
/// order `k` pushes at most `w - 1` parents, each of order below `k`.
pub open spec fn stack_measure(g: Graph, w: nat, s: Seq<usize>) -> nat
    decreases s.len(),
{
    if s.len() == 0 {
        0
    } else {
        stack_measure(g, w, s.drop_last()) + weight(w, node_order(g, s.last()))
    }
}

/// The positions visited are those of the buckets; each once, in the bucket
/// of its order.
spec fn buckets_match(g: Graph, visited: Seq<bool>, buckets: Seq<Vec<usize>>) -> bool {
    &&& forall|b: int, i: int|
        0 <= b < buckets.len() && 0 <= i < buckets[b]@.len() ==> {
            &&& (#[trigger] buckets[b]@[i] as int) < visited.len()
            &&& visited[buckets[b]@[i] as int]
            &&& node_order(g, buckets[b]@[i]) == b
        }
    &&& forall|v: int|
        0 <= v < visited.len() && #[trigger] visited[v] ==> (node_order(g, v as usize) as int)
            < buckets.len()
    &&& forall|v: int|
        0 <= v < visited.len() && #[trigger] visited[v] ==> exists|i: int|
            0 <= i < buckets[node_order(g, v as usize) as int]@.len()
                && #[trigger] buckets[node_order(g, v as usize) as int]@[i] == v as usize
    &&& forall|b: int, i: int, j: int|
        0 <= b < buckets.len() && 0 <= i < j < buckets[b]@.len() ==> #[trigger] buckets[b]@[i]
            != #[trigger] buckets[b]@[j]
}

impl BackwardNode {
    /// The backward node of a forward node: the same identifier, order,
    /// parents and value, and no gradient yet.
    pub fn from_node(node: &ForwardNode) -> (r: Self)
        ensures
            r.id == node.id,
            r.order == node.order,
            r.parents@ == node.parents@,
            r.value@ == node.value@,
            r.grad is None,
    {
        BackwardNode {
            id: node.id,
            order: node.order,
            parents: copy_positions(&node.parents),
            value: node.value.duplicate(),
            grad: None,
        }
    }

    /// Run the backward pass from this node: its gradient is set to ones of
    /// its value's shape and its own step runs with it; then every node of
    /// the [schedule](Self::schedule) steps once, in order, so that a node
    /// steps before all of its parents. The result is the gradients the steps
    /// gathered.
    pub fn backward<O: BackwardOps>(&mut self, graph: &Graph, ops: &mut O) -> (r: O::Grads)
        requires
            well_formed(*graph),
            old(self).order < usize::MAX,
            shape_fits(old(self).value.shape@),
            forall|j: int|
                0 <= j < old(self).parents@.len() ==> {
                    &&& (#[trigger] old(self).parents@[j]) < graph.nodes@.len()
                    &&& graph.nodes@[old(self).parents@[j] as int].order < old(self).order
                },
        ensures
            final(self).id == old(self).id,
            final(self).order == old(self).order,
            final(self).parents@ == old(self).parents@,
            final(self).value@ == old(self).value@,
            final(self).grad matches Some(g) && g@ == ones_view(
                old(self).value.shape@,
                old(self).value.device,
            ),
            ({
                let before = old(ops).steps();
                let after = final(ops).steps();
                &&& after.len() > before.len()
                &&& after.take(before.len() as int) == before
                &&& after[before.len() as int] == BackwardStep::Root(
                    ones_view(old(self).value.shape@, old(self).value.device),
                )
                &&& exists|schedule: Seq<usize>|
                    is_schedule(*graph, old(self).parents@, schedule) && in_found_order(
                        *graph,
                        old(self).parents@,
                        schedule,
                        (old(self).order + 1) as nat,
                    ) && #[trigger] node_steps(schedule) == after.skip(before.len() + 1 as int)
            }),
            final(ops).gathered(r),
    {
        let grad = Tensor::ones(&self.value.shape, self.value.device);
        ops.root_step(&grad);
        self.grad = Some(grad);
        let ghost before = old(ops).steps();
        let ghost mid = ops.steps();
        let schedule = self.schedule(graph);
        let mut k: usize = 0;
        while k < schedule.len()
            invariant
                k <= schedule@.len(),
                ops.steps() == mid + node_steps(schedule@.take(k as int)),
            decreases schedule@.len() - k,
        {
            ops.node_step(schedule[k]);
            k = k + 1;
            assert(node_steps(schedule@.take(k as int)) =~= node_steps(
                schedule@.take(k - 1),
            ).push(BackwardStep::Node(schedule@[k - 1])));
        }
        proof {
            let after = ops.steps();
            assert(schedule@.take(k as int) =~= schedule@);
            assert(after.take(before.len() as int) =~= before);
            assert(after.skip(before.len() + 1 as int) =~= node_steps(schedule@));
        }
        ops.gradients()
    }

    /// The order in which the backward steps run: every node reached from this
    /// one's parents, through nodes of nonzero order, that has a nonzero
    /// order, each once, from the highest order to the lowest, and the nodes
    /// of one order in the order the depth-first [search](search) from the
    /// parents finds them; a node thus runs before all of its parents.
    pub fn schedule(&self, graph: &Graph) -> (schedule: Vec<usize>)
        requires
            well_formed(*graph),
            self.order < usize::MAX,
            forall|j: int|
                0 <= j < self.parents@.len() ==> {
                    &&& (#[trigger] self.parents@[j]) < graph.nodes@.len()
                    &&& graph.nodes@[self.parents@[j] as int].order < self.order
                },
        ensures
            is_schedule(*graph, self.parents@, schedule@),
            in_found_order(*graph, self.parents@, schedule@, (self.order + 1) as nat),
    {
        let n = graph.nodes.len();
        let ghost g = *graph;
        let ghost start = self.parents@;
        let ghost w: nat = max_degree(graph.nodes@) + 1;

        let mut visited: Vec<bool> = Vec::new();
        let mut k: usize = 0;
        while k < n
            invariant
                k <= n,
                n == graph.nodes@.len(),
                visited@.len() == k,
                forall|i: int| 0 <= i < k ==> !visited@[i],
            decreases n - k,
        {
            visited.push(false);
            k = k + 1;
        }

        let mut nodes: Vec<Vec<usize>> = Vec::new();
        let mut b: usize = 0;
        while b < self.order + 1
            invariant
                b <= self.order + 1,
                self.order < usize::MAX,
                nodes@.len() == b,
                forall|i: int| 0 <= i < b ==> (#[trigger] nodes@[i])@.len() == 0,
            decreases self.order + 1 - b,
        {
            nodes.push(Vec::new());
            b = b + 1;
        }

        let mut parents = copy_positions(&self.parents);
        proof {
            assert forall|j: int| 0 <= j < parents@.len() implies reaches(
                g,
                start,
                #[trigger] parents@[j],
                0,
            ) by {
                assert(start[j] == parents@[j]);
            }
        }
        let ghost mut steps: nat = 0;
        let ghost mut found: Seq<usize> = Seq::empty();
        proof {
            assert(visited@ =~= search(g, start, 0).1);
            assert(parents@ =~= start);
            assert forall|b: int| 0 <= b < nodes@.len() implies (#[trigger] nodes@[b])@
                == found.filter(at_order(g, b)) by {
                lemma_filter_empty(at_order(g, b));
                assert(nodes@[b]@ =~= Seq::<usize>::empty());
            }
        }

        loop
            invariant_except_break
                n == graph.nodes@.len(),
                g == *graph,
                well_formed(g),
                start == self.parents@,
                w == max_degree(g.nodes@) + 1,
                visited@.len() == n,
                nodes@.len() == self.order + 1,
                self.order < usize::MAX,
                buckets_match(g, visited@, nodes@),
                search(g, start, steps) == (parents@, visited@, found),
                forall|b: int| 0 <= b < nodes@.len() ==> (#[trigger] nodes@[b])@ == found.filter(at_order(g, b)),
                forall|j: int| 0 <= j < start.len() ==> (#[trigger] start[j] as int) < n,
                forall|j: int|
                    0 <= j < parents@.len() ==> {
                        &&& (#[trigger] parents@[j] as int) < n
                        &&& node_order(g, parents@[j]) < self.order
                        &&& reachable(g, start, parents@[j])
                    },
                forall|v: int|
                    0 <= v < n && #[trigger] visited@[v] ==> node_order(g, v as usize) > 0
                        && reachable(g, start, v as usize),
                forall|v: int, j: int|
                    0 <= v < n && visited@[v] && 0 <= j < parents_of(g, v as usize).len() ==> {
                        let u = #[trigger] parents_of(g, v as usize)[j];
                        visited@[u as int] || parents@.contains(u) || node_order(g, u) == 0
                    },
                forall|j: int|
                    0 <= j < start.len() ==> {
                        let u = #[trigger] start[j];
                        visited@[u as int] || parents@.contains(u) || node_order(g, u) == 0
                    },
            ensures
                parents@.len() == 0,
                visited@.len() == n,
                nodes@.len() == self.order + 1,
                buckets_match(g, visited@, nodes@),
                search(g, start, steps) == (parents@, visited@, found),
                forall|b: int| 0 <= b < nodes@.len() ==> (#[trigger] nodes@[b])@ == found.filter(at_order(g, b)),
                forall|v: int|
                    0 <= v < n && #[trigger] visited@[v] ==> node_order(g, v as usize) > 0
                        && reachable(g, start, v as usize),
                forall|v: int, j: int|
                    0 <= v < n && visited@[v] && 0 <= j < parents_of(g, v as usize).len() ==> {
                        let u = #[trigger] parents_of(g, v as usize)[j];
                        visited@[u as int] || node_order(g, u) == 0
                    },
                forall|j: int|
                    0 <= j < start.len() ==> {
                        let u = #[trigger] start[j];
                        visited@[u as int] || node_order(g, u) == 0
                    },
            decreases stack_measure(g, w, parents@),
        {
            let ghost before = parents@;
            let ghost vis_before = visited@;
            match parents.pop() {
                Some(node) => {
                    let ghost rest = parents@;
                    proof {
                        assert(before.drop_last() == rest);
                        assert(before.last() == node);
                        assert(before[before.len() - 1] == node);
                    }
                    let order = graph.nodes[node].order;

                    if order == 0 {
                        proof {
                            lemma_stack_after_pop(g, visited@, before, start);
                            steps = steps + 1;
                        }
                        continue;
                    }
                    let ghost k_order = node_order(g, node);
                    proof {
                        lemma_max_degree(g.nodes@, node as int);
                    }

                    let node_parents = &graph.nodes[node].parents;
                    let mut j: usize = 0;
                    while j < node_parents.len()
                        invariant
                            n == graph.nodes@.len(),
                            g == *graph,
                            well_formed(g),
                            (node as int) < n,
                            node_parents@ == parents_of(g, node),
                            k_order == node_order(g, node),
                            k_order > 0,
                            j <= node_parents@.len(),
                            node_parents@.len() <= max_degree(g.nodes@),
                            w == max_degree(g.nodes@) + 1,
                            visited@.len() == n,
                            rest.len() <= parents@.len(),
                            parents@.take(rest.len() as int) == rest,
                            visited@ == vis_before,
                            parents@ == rest + node_parents@.take(j as int).filter(unvisited(vis_before)),
                            forall|i: int|
                                rest.len() <= i < parents@.len() ==> node_parents@.contains(
                                    #[trigger] parents@[i],
                                ),
                            parents@.len() - rest.len() <= j,
                            stack_measure(g, w, parents@) <= stack_measure(g, w, rest) + j * weight(
                                w,
                                (k_order - 1) as nat,
                            ),
                            forall|i: int|
                                0 <= i < j ==> visited@[node_parents@[i] as int]
                                    || parents@.contains(#[trigger] node_parents@[i]),
                        decreases node_parents@.len() - j,
                    {
                        let parent = node_parents[j];
                        proof {
                            assert(node_parents@[j as int] == parents_of(g, node)[j as int]);
                            assert(g.nodes@[node as int].parents@[j as int] == parent);
                        }
                        if !visited[parent] {
                            let ghost pre = parents@;
                            parents.push(parent);
                            proof {
                                assert(node_parents@.take(j + 1) =~= node_parents@.take(j as int).push(parent));
                                lemma_filter_push(node_parents@.take(j as int), parent, unvisited(vis_before));
                                assert(parents@ =~= rest + node_parents@.take(j + 1).filter(unvisited(vis_before)));
                                assert(parents@.drop_last() == pre);
                                lemma_weight_monotonic(
                                    w,
                                    node_order(g, parent),
                                    (k_order - 1) as nat,
                                );
                                assert(parents@.take(rest.len() as int) =~= rest);
                                assert forall|i: int|
                                    rest.len() <= i < parents@.len() implies node_parents@.contains(
                                    #[trigger] parents@[i],
                                ) by {
                                    if i < pre.len() {
                                        assert(parents@[i] == pre[i]);
                                    } else {
                                        assert(node_parents@[j as int] == parent);
                                    }
                                }
                                assert forall|i: int| 0 <= i < j + 1 implies visited@[node_parents@[i] as int]
                                    || parents@.contains(#[trigger] node_parents@[i]) by {
                                    if i < j {
                                        if pre.contains(node_parents@[i]) {
                                            let q = choose|q: int| 0 <= q < pre.len() && pre[q] == node_parents@[i];
                                            assert(parents@[q] == pre[q]);
                                        }
                                    } else {
                                        assert(parents@[parents@.len() - 1] == parent);
                                    }
                                }
                                assert(stack_measure(g, w, parents@) <= stack_measure(g, w, rest) + (
                                j + 1) * weight(w, (k_order - 1) as nat)) by (nonlinear_arith)
                                    requires
                                        stack_measure(g, w, parents@) == stack_measure(g, w, pre)
                                            + weight(w, node_order(g, parent)),
                                        weight(w, node_order(g, parent)) <= weight(
                                            w,
                                            (k_order - 1) as nat,
                                        ),
                                        stack_measure(g, w, pre) <= stack_measure(g, w, rest) + j
                                            * weight(w, (k_order - 1) as nat),
                                ;
                            }
                        } else {
                            proof {
                                assert(node_parents@.take(j + 1) =~= node_parents@.take(j as int).push(parent));
                                lemma_filter_push(node_parents@.take(j as int), parent, unvisited(vis_before));
                                assert(stack_measure(g, w, parents@) <= stack_measure(g, w, rest) + (
                                j + 1) * weight(w, (k_order - 1) as nat)) by (nonlinear_arith)
                                    requires
                                        stack_measure(g, w, parents@) <= stack_measure(g, w, rest)
                                            + j * weight(w, (k_order - 1) as nat),
                                ;
                            }
                        }
                        j = j + 1;
                    }

                    proof {
                        assert(node_parents@.take(node_parents@.len() as int) =~= node_parents@);
                    }
                    if order < nodes.len() {
                        if !visited[node] {
                            visited.set(node, true);
                            let ghost old_nodes = nodes@;
                            let bucket = &mut nodes[order];
                            bucket.push(node);
                            proof {
                                assert(visited@.update(node as int, false) =~= vis_before);
                                lemma_bucket_insert(g, visited@, old_nodes, nodes@, node);
                                let old_found = found;
                                found = found.push(node);
                                assert forall|b: int| 0 <= b < nodes@.len() implies (#[trigger] nodes@[b])@
                                    == found.filter(at_order(g, b)) by {
                                    lemma_filter_push(old_found, node, at_order(g, b));
                                    if b != order {
                                        assert(nodes@[b] == old_nodes[b]);
                                    }
                                }
                            }
                        }
                    }
                    proof {
                        assert(visited@ =~= vis_before.update(node as int, true));
                        lemma_stack_after_expand(
                            g,
                            vis_before,
                            visited@,
                            before,
                            rest,
                            parents@,
                            node,
                            start,
                            w,
                            self.order as nat,
                        );
                        steps = steps + 1;
                    }
                },
                None => {
                    break;
                },
            }
        }

        let mut schedule: Vec<usize> = Vec::new();
        let mut i: usize = self.order + 1;
        proof {
            assert(by_order_desc(g, found, (self.order + 1) as nat) =~= schedule@ + by_order_desc(
                g,
                found,
                (self.order + 1) as nat,
            ));
        }
        while i > 0
            invariant
                i <= self.order + 1,
                nodes@.len() == self.order + 1,
                forall|b: int| 0 <= b < nodes@.len() ==> (#[trigger] nodes@[b])@ == found.filter(at_order(g, b)),
                by_order_desc(g, found, (self.order + 1) as nat) == schedule@ + by_order_desc(g, found, i as nat),
                visited@.len() == n,
                n == graph.nodes@.len(),
                buckets_match(g, visited@, nodes@),
                forall|q: int|
                    0 <= q < schedule@.len() ==> {
                        &&& (#[trigger] schedule@[q] as int) < n
                        &&& visited@[schedule@[q] as int]
                        &&& node_order(g, schedule@[q]) >= i
                    },
                forall|q: int, r: int|
                    0 <= q < r < schedule@.len() ==> #[trigger] schedule@[q] != #[trigger] schedule@[r],
                forall|q: int, r: int|
                    0 <= q < r < schedule@.len() ==> node_order(g, #[trigger] schedule@[q]) >= node_order(
                        g,
                        #[trigger] schedule@[r],
                    ),
                forall|v: int|
                    0 <= v < n && visited@[v] && node_order(g, v as usize) >= i ==> #[trigger] schedule@.contains(
                        v as usize,
                    ),
            decreases i,
        {
            i = i - 1;
            let bucket = &nodes[i];
            let ghost before = schedule@;
            let mut q: usize = 0;
            while q < bucket.len()
                invariant
                    q <= bucket@.len(),
                    (i as int) < nodes@.len(),
                    *bucket == nodes@[i as int],
                    nodes@.len() == self.order + 1,
                    bucket@ == found.filter(at_order(g, i as int)),
                    by_order_desc(g, found, (self.order + 1) as nat) == before + by_order_desc(g, found, (i + 1) as nat),
                    visited@.len() == n,
                    n == graph.nodes@.len(),
                    buckets_match(g, visited@, nodes@),
                    schedule@.len() == before.len() + q,
                    schedule@.take(before.len() as int) == before,
                    forall|r: int| 0 <= r < q ==> schedule@[before.len() + r] == bucket@[r],
                    forall|p: int|
                        0 <= p < before.len() ==> {
                            &&& (#[trigger] before[p] as int) < n
                            &&& visited@[before[p] as int]
                            &&& node_order(g, before[p]) >= i + 1
                        },
                    forall|p: int, r: int|
                        0 <= p < r < before.len() ==> #[trigger] before[p] != #[trigger] before[r],
                    forall|p: int, r: int|
                        0 <= p < r < before.len() ==> node_order(g, #[trigger] before[p])
                            >= node_order(g, #[trigger] before[r]),
                decreases bucket@.len() - q,
            {
                schedule.push(bucket[q]);
                q = q + 1;
                proof {
                    assert(schedule@.take(before.len() as int) =~= before);
                }
            }
            proof {
                lemma_schedule_step(g, visited@, nodes@, before, schedule@, i as int, n as int);
                assert(schedule@ =~= before + bucket@);
                assert(by_order_desc(g, found, (self.order + 1) as nat) =~= schedule@ + by_order_desc(
                    g,
                    found,
                    i as nat,
                ));
            }
        }
        proof {
            lemma_final_schedule(g, visited@, start, schedule@, n as int);
            assert(schedule@ =~= by_order_desc(g, found, (self.order + 1) as nat));
            assert(search(g, start, steps).0.len() == 0);
        }
        schedule
    }
}

/// Filtering a sequence with one more item at its end.
proof fn lemma_filter_push<A>(s: Seq<A>, x: A, pred: spec_fn(A) -> bool)
    ensures
        s.push(x).filter(pred) == (if pred(x) {
            s.filter(pred).push(x)
        } else {
            s.filter(pred)
        }),
{
    reveal(Seq::filter);
    assert(s.push(x).drop_last() =~= s);
}

/// Filtering the empty sequence.
proof fn lemma_filter_empty<A>(pred: spec_fn(A) -> bool)
    ensures
        Seq::<A>::empty().filter(pred) == Seq::<A>::empty(),
{
    reveal(Seq::filter);
}

proof fn lemma_stack_measure_pop(g: Graph, w: nat, s: Seq<usize>)
    requires
        s.len() > 0,
    ensures
        stack_measure(g, w, s) == stack_measure(g, w, s.drop_last()) + weight(
            w,
            node_order(g, s.last()),
        ),
{
}

/// Popping a node of order zero keeps every invariant and lowers the measure.
proof fn lemma_stack_after_pop(g: Graph, visited: Seq<bool>, before: Seq<usize>, start: Seq<usize>)
    requires
        before.len() > 0,
        node_order(g, before.last()) == 0,
        forall|v: int, j: int|
            0 <= v < visited.len() && visited[v] && 0 <= j < parents_of(g, v as usize).len() ==> {
                let u = #[trigger] parents_of(g, v as usize)[j];
                visited[u as int] || before.contains(u) || node_order(g, u) == 0
            },
        forall|j: int|
            0 <= j < start.len() ==> {
                let u = #[trigger] start[j];
                visited[u as int] || before.contains(u) || node_order(g, u) == 0
            },
    ensures
        forall|v: int, j: int|
            0 <= v < visited.len() && visited[v] && 0 <= j < parents_of(g, v as usize).len() ==> {
                let u = #[trigger] parents_of(g, v as usize)[j];
                visited[u as int] || before.drop_last().contains(u) || node_order(g, u) == 0
            },
        forall|j: int|
            0 <= j < start.len() ==> {
                let u = #[trigger] start[j];
                visited[u as int] || before.drop_last().contains(u) || node_order(g, u) == 0
            },
        forall|j: int| 0 <= j < before.drop_last().len() ==> #[trigger] before.drop_last()[j] == before[j],
        forall|w: nat| stack_measure(g, w, before.drop_last()) < stack_measure(g, w, before),
{
    let rest = before.drop_last();
    assert forall|u: usize| before.contains(u) && node_order(g, u) != 0 implies rest.contains(u) by {
        let q = choose|q: int| 0 <= q < before.len() && before[q] == u;
        if q < before.len() - 1 {
            assert(rest[q] == u);
        }
    }
    assert forall|w: nat| stack_measure(g, w, rest) < stack_measure(g, w, before) by {
        lemma_stack_measure_pop(g, w, before);
        lemma_weight_positive(if w == 0 { 1 } else { w }, 0);
    }
}

/// Marking a node visited and adding it to the bucket of its order.
proof fn lemma_bucket_insert(
    g: Graph,
    visited: Seq<bool>,
    old_nodes: Seq<Vec<usize>>,
    nodes: Seq<Vec<usize>>,
    node: usize,
)
    requires
        (node as int) < visited.len(),
        visited[node as int],
        (node_order(g, node) as int) < old_nodes.len(),
        nodes.len() == old_nodes.len(),
        nodes[node_order(g, node) as int]@ == old_nodes[node_order(g, node) as int]@.push(node),
        forall|b: int| 0 <= b < nodes.len() && b != node_order(g, node) ==> nodes[b] == old_nodes[b],
        buckets_match(g, visited.update(node as int, false), old_nodes),
    ensures
        buckets_match(g, visited, nodes),
{
    let old_visited = visited.update(node as int, false);
    let ob = node_order(g, node) as int;
    assert forall|v: int| 0 <= v < visited.len() && #[trigger] visited[v] implies (node_order(
        g,
        v as usize,
    ) as int) < nodes.len() by {
        if v != node as int {
            assert(old_visited[v]);
        }
    }
    assert forall|b: int, i: int| 0 <= b < nodes.len() && 0 <= i < nodes[b]@.len() implies {
        &&& (#[trigger] nodes[b]@[i] as int) < visited.len()
        &&& visited[nodes[b]@[i] as int]
        &&& node_order(g, nodes[b]@[i]) == b
    } by {
        if !(b == ob && i == old_nodes[b]@.len()) {
            assert(nodes[b]@[i] == old_nodes[b]@[i]);
            assert(old_visited[old_nodes[b]@[i] as int]);
        }
    }
    assert forall|v: int| 0 <= v < visited.len() && #[trigger] visited[v] implies exists|i: int|
        0 <= i < nodes[node_order(g, v as usize) as int]@.len()
            && #[trigger] nodes[node_order(g, v as usize) as int]@[i] == v as usize by {
        if v == node as int {
            let i = old_nodes[ob]@.len() as int;
            assert(nodes[ob]@[i] == node);
        } else {
            assert(old_visited[v]);
            let b = node_order(g, v as usize) as int;
            let i = choose|i: int| 0 <= i < old_nodes[b]@.len() && #[trigger] old_nodes[b]@[i] == v as usize;
            if b == ob {
                assert(nodes[b]@[i] == old_nodes[b]@[i]);
            } else {
                assert(nodes[b] == old_nodes[b]);
            }
            assert(nodes[b]@[i] == v as usize);
        }
    }
    assert forall|b: int, i: int, j: int|
        0 <= b < nodes.len() && 0 <= i < j < nodes[b]@.len() implies #[trigger] nodes[b]@[i]
        != #[trigger] nodes[b]@[j] by {
        if b == ob && j == old_nodes[b]@.len() {
            assert(nodes[b]@[i] == old_nodes[b]@[i]);
            assert(old_visited[old_nodes[b]@[i] as int]);
        } else {
            assert(nodes[b]@[i] == old_nodes[b]@[i]);
            assert(nodes[b]@[j] == old_nodes[b]@[j]);
        }
    }
}

/// After a node of nonzero order is popped, its unvisited parents pushed and
/// itself visited: every invariant holds and the measure went down.
proof fn lemma_stack_after_expand(
    g: Graph,
    vis_before: Seq<bool>,
    visited: Seq<bool>,
    before: Seq<usize>,
    rest: Seq<usize>,
    after: Seq<usize>,
    node: usize,
    start: Seq<usize>,
    w: nat,
    root_order: nat,
)
    requires
        well_formed(g),
        before.len() > 0,
        rest == before.drop_last(),
        node == before.last(),
        vis_before.len() == g.nodes@.len(),
        (node as int) < g.nodes@.len(),
        visited == vis_before.update(node as int, true),
        node_order(g, node) > 0,
        w == max_degree(g.nodes@) + 1,
        parents_of(g, node).len() <= max_degree(g.nodes@),
        after.take(rest.len() as int) == rest,
        rest.len() <= after.len(),
        after.len() - rest.len() <= parents_of(g, node).len(),
        forall|i: int|
            rest.len() <= i < after.len() ==> parents_of(g, node).contains(#[trigger] after[i]),
        stack_measure(g, w, after) <= stack_measure(g, w, rest) + parents_of(g, node).len()
            * weight(w, (node_order(g, node) - 1) as nat),
        forall|i: int|
            0 <= i < parents_of(g, node).len() ==> vis_before[parents_of(g, node)[i] as int]
                || after.contains(#[trigger] parents_of(g, node)[i]),
        forall|j: int|
            0 <= j < before.len() ==> {
                &&& (#[trigger] before[j] as int) < g.nodes@.len()
                &&& node_order(g, before[j]) < root_order
                &&& reachable(g, start, before[j])
            },
        forall|v: int|
            0 <= v < vis_before.len() && #[trigger] vis_before[v] ==> node_order(g, v as usize) > 0
                && reachable(g, start, v as usize),
        forall|v: int, j: int|
            0 <= v < vis_before.len() && vis_before[v] && 0 <= j < parents_of(g, v as usize).len() ==> {
                let u = #[trigger] parents_of(g, v as usize)[j];
                vis_before[u as int] || before.contains(u) || node_order(g, u) == 0
            },
        forall|j: int|
            0 <= j < start.len() ==> {
                let u = #[trigger] start[j];
                vis_before[u as int] || before.contains(u) || node_order(g, u) == 0
            },
        forall|j: int| 0 <= j < start.len() ==> (#[trigger] start[j] as int) < g.nodes@.len(),
    ensures
        forall|j: int|
            0 <= j < after.len() ==> {
                &&& (#[trigger] after[j] as int) < g.nodes@.len()
                &&& node_order(g, after[j]) < root_order
                &&& reachable(g, start, after[j])
            },
        forall|v: int|
            0 <= v < visited.len() && #[trigger] visited[v] ==> node_order(g, v as usize) > 0
                && reachable(g, start, v as usize),
        forall|v: int, j: int|
            0 <= v < visited.len() && visited[v] && 0 <= j < parents_of(g, v as usize).len() ==> {
                let u = #[trigger] parents_of(g, v as usize)[j];
                visited[u as int] || after.contains(u) || node_order(g, u) == 0
            },
        forall|j: int|
            0 <= j < start.len() ==> {
                let u = #[trigger] start[j];
                visited[u as int] || after.contains(u) || node_order(g, u) == 0
            },
        stack_measure(g, w, after) < stack_measure(g, w, before),
{
    let ps = parents_of(g, node);
    assert(before[before.len() - 1] == node);
    assert forall|q: int| 0 <= q < rest.len() implies after[q] == rest[q] by {
        assert(after.take(rest.len() as int)[q] == after[q]);
    }
    // a node of the old stack other than the popped one is still there
    assert forall|u: usize| before.contains(u) && u != node implies after.contains(u) by {
        let q = choose|q: int| 0 <= q < before.len() && before[q] == u;
        if q < before.len() - 1 {
            assert(rest[q] == u);
            assert(after[q] == u);
        }
    }
    // the popped node is reachable
    assert(reachable(g, start, node));
    let kn = choose|k: nat| #[trigger] reaches(g, start, node, k);
    // the pushed nodes are reachable parents of the popped node
    assert forall|j: int| 0 <= j < after.len() implies {
        &&& (#[trigger] after[j] as int) < g.nodes@.len()
        &&& node_order(g, after[j]) < root_order
        &&& reachable(g, start, after[j])
    } by {
        if j < rest.len() {
            assert(after[j] == rest[j]);
            assert(rest[j] == before[j]);
        } else {
            let u = after[j];
            assert(ps.contains(u));
            let t = choose|t: int| 0 <= t < ps.len() && ps[t] == u;
            assert(g.nodes@[node as int].parents@[t] == u);
            assert(parents_of(g, node).contains(u));
            lemma_reaches_step(g, start, node, u, kn);
        }
    }
    assert forall|v: int| 0 <= v < visited.len() && #[trigger] visited[v] implies node_order(
        g,
        v as usize,
    ) > 0 && reachable(g, start, v as usize) by {
        if v != node as int {
            assert(vis_before[v]);
        }
    }
    // the popped node's parents are visited or on the stack
    assert forall|v: int, j: int|
        0 <= v < visited.len() && visited[v] && 0 <= j < parents_of(g, v as usize).len() implies {
        let u = #[trigger] parents_of(g, v as usize)[j];
        visited[u as int] || after.contains(u) || node_order(g, u) == 0
    } by {
        let u = parents_of(g, v as usize)[j];
        if v == node as int {
            assert(ps[j] == u);
            if vis_before[u as int] {
                assert(visited[u as int]);
            }
        } else {
            assert(vis_before[v]);
            if vis_before[u as int] {
                assert(visited[u as int]);
            } else if u == node {
                assert(visited[u as int]);
            }
        }
    }
    assert forall|j: int| 0 <= j < start.len() implies {
        let u = #[trigger] start[j];
        visited[u as int] || after.contains(u) || node_order(g, u) == 0
    } by {
        let u = start[j];
        if vis_before[u as int] {
            assert(visited[u as int]);
        } else if u == node {
            assert(visited[u as int]);
        }
    }
    // the measure
    let top = weight(w, (node_order(g, node) - 1) as nat);
    let d = ps.len();
    lemma_stack_measure_pop(g, w, before);
    assert(weight(w, node_order(g, node)) == w * top);
    lemma_weight_positive(w, (node_order(g, node) - 1) as nat);
    assert(d * top < w * top) by (nonlinear_arith)
        requires
            d < w,
            top >= 1,
    ;
}

proof fn lemma_reaches_step(g: Graph, start: Seq<usize>, u: usize, v: usize, k: nat)
    requires
        (u as int) < g.nodes@.len(),
        reaches(g, start, u, k),
        node_order(g, u) > 0,
        parents_of(g, u).contains(v),
    ensures
        reaches(g, start, v, k + 1),
{
    assert(parent_edge(g, u, v));
    let k1: nat = k + 1;
    assert((k1 - 1) as nat == k);
    assert(reaches(g, start, u, (k1 - 1) as nat));
}

/// One more bucket appended to the schedule.
proof fn lemma_schedule_step(
    g: Graph,
    visited: Seq<bool>,
    nodes: Seq<Vec<usize>>,
    before: Seq<usize>,
    after: Seq<usize>,
    i: int,
    n: int,
)
    requires
        0 <= i < nodes.len(),
        visited.len() == n,
        buckets_match(g, visited, nodes),
        after.len() == before.len() + nodes[i]@.len(),
        after.take(before.len() as int) == before,
        forall|r: int| 0 <= r < nodes[i]@.len() ==> after[before.len() + r] == nodes[i]@[r],
        forall|p: int|
            0 <= p < before.len() ==> {
                &&& (#[trigger] before[p] as int) < n
                &&& visited[before[p] as int]
                &&& node_order(g, before[p]) >= i + 1
            },
        forall|p: int, r: int| 0 <= p < r < before.len() ==> #[trigger] before[p] != #[trigger] before[r],
        forall|p: int, r: int|
            0 <= p < r < before.len() ==> node_order(g, #[trigger] before[p]) >= node_order(
                g,
                #[trigger] before[r],
            ),
        forall|v: int|
            0 <= v < n && visited[v] && node_order(g, v as usize) >= i + 1 ==> #[trigger] before.contains(
                v as usize,
            ),
    ensures
        forall|q: int|
            0 <= q < after.len() ==> {
                &&& (#[trigger] after[q] as int) < n
                &&& visited[after[q] as int]
                &&& node_order(g, after[q]) >= i
            },
        forall|q: int, r: int| 0 <= q < r < after.len() ==> #[trigger] after[q] != #[trigger] after[r],
        forall|q: int, r: int|
            0 <= q < r < after.len() ==> node_order(g, #[trigger] after[q]) >= node_order(
                g,
                #[trigger] after[r],
            ),
        forall|v: int|
            0 <= v < n && visited[v] && node_order(g, v as usize) >= i ==> #[trigger] after.contains(
                v as usize,
            ),
{
    let bl = before.len() as int;
    assert forall|q: int| 0 <= q < bl implies after[q] == before[q] by {
        assert(after.take(bl)[q] == after[q]);
    }
    assert forall|q: int| 0 <= q < after.len() implies {
        &&& (#[trigger] after[q] as int) < n
        &&& visited[after[q] as int]
        &&& node_order(g, after[q]) >= i
    } by {
        if q < bl {
            assert(after[q] == before[q]);
        } else {
            assert(after[q] == nodes[i]@[q - bl]);
        }
    }
    assert forall|q: int, r: int| 0 <= q < r < after.len() implies #[trigger] after[q]
        != #[trigger] after[r] by {
        if r < bl {
            assert(after[q] == before[q]);
            assert(after[r] == before[r]);
        } else if q < bl {
            assert(after[q] == before[q]);
            assert(after[r] == nodes[i]@[r - bl]);
        } else {
            assert(after[q] == nodes[i]@[q - bl]);
            assert(after[r] == nodes[i]@[r - bl]);
        }
    }
    assert forall|q: int, r: int| 0 <= q < r < after.len() implies node_order(
        g,
        #[trigger] after[q],
    ) >= node_order(g, #[trigger] after[r]) by {
        if r < bl {
            assert(after[q] == before[q]);
            assert(after[r] == before[r]);
        } else if q < bl {
            assert(after[q] == before[q]);
            assert(after[r] == nodes[i]@[r - bl]);
        } else {
            assert(after[q] == nodes[i]@[q - bl]);
            assert(after[r] == nodes[i]@[r - bl]);
        }
    }
    assert forall|v: int|
        0 <= v < n && visited[v] && node_order(g, v as usize) >= i implies #[trigger] after.contains(
        v as usize,
    ) by {
        if node_order(g, v as usize) >= i + 1 {
            assert(before.contains(v as usize));
            let q = choose|q: int| 0 <= q < before.len() && before[q] == v as usize;
            assert(after[q] == before[q]) by {
                assert(after.take(bl)[q] == after[q]);
            }
            assert(after[q] == v as usize);
        } else {
            let t = choose|t: int|
                0 <= t < nodes[node_order(g, v as usize) as int]@.len()
                    && #[trigger] nodes[node_order(g, v as usize) as int]@[t] == v as usize;
            assert(after[bl + t] == v as usize);
        }
    }
}

/// What is reached through nodes of nonzero order is visited, or of order zero.
proof fn lemma_reached_visited(g: Graph, visited: Seq<bool>, start: Seq<usize>, v: usize, k: nat)
    requires
        visited.len() == g.nodes@.len(),
        well_formed(g),
        forall|j: int| 0 <= j < start.len() ==> (#[trigger] start[j] as int) < g.nodes@.len(),
        reaches(g, start, v, k),
        forall|x: int, j: int|
            0 <= x < visited.len() && visited[x] && 0 <= j < parents_of(g, x as usize).len() ==> {
                let u = #[trigger] parents_of(g, x as usize)[j];
                visited[u as int] || node_order(g, u) == 0
            },
        forall|j: int|
            0 <= j < start.len() ==> {
                let u = #[trigger] start[j];
                visited[u as int] || node_order(g, u) == 0
            },
        forall|x: int| 0 <= x < visited.len() && #[trigger] visited[x] ==> node_order(g, x as usize) > 0,
    ensures
        (v as int) < g.nodes@.len(),
        visited[v as int] || node_order(g, v) == 0,
    decreases k,
{
    if k == 0 {
        let j = choose|j: int| 0 <= j < start.len() && start[j] == v;
        assert(start[j] == v);
    } else if reaches(g, start, v, (k - 1) as nat) {
        lemma_reached_visited(g, visited, start, v, (k - 1) as nat);
    } else {
        let u = choose|u: usize| #[trigger] parent_edge(g, u, v) && reaches(g, start, u, (k - 1) as nat);
        lemma_reached_visited(g, visited, start, u, (k - 1) as nat);
        let j = choose|j: int| 0 <= j < parents_of(g, u).len() && parents_of(g, u)[j] == v;
        assert(parents_of(g, u)[j] == v);
    }
}

/// The schedule holds exactly the reachable nodes of nonzero order.
proof fn lemma_final_schedule(g: Graph, visited: Seq<bool>, start: Seq<usize>, schedule: Seq<usize>, n: int)
    requires
        n == g.nodes@.len(),
        visited.len() == n,
        well_formed(g),
        forall|j: int| 0 <= j < start.len() ==> (#[trigger] start[j] as int) < n,
        forall|q: int|
            0 <= q < schedule.len() ==> {
                &&& (#[trigger] schedule[q] as int) < n
                &&& visited[schedule[q] as int]
                &&& node_order(g, schedule[q]) >= 0
            },
        forall|v: int|
            0 <= v < n && visited[v] && node_order(g, v as usize) >= 0 ==> #[trigger] schedule.contains(
                v as usize,
            ),
        forall|v: int|
            0 <= v < n && #[trigger] visited[v] ==> node_order(g, v as usize) > 0 && reachable(
                g,
                start,
                v as usize,
            ),
        forall|x: int, j: int|
            0 <= x < n && visited[x] && 0 <= j < parents_of(g, x as usize).len() ==> {
                let u = #[trigger] parents_of(g, x as usize)[j];
                visited[u as int] || node_order(g, u) == 0
            },
        forall|j: int|
            0 <= j < start.len() ==> {
                let u = #[trigger] start[j];
                visited[u as int] || node_order(g, u) == 0
            },
    ensures
        forall|i: int|
            0 <= i < schedule.len() ==> {
                &&& (#[trigger] schedule[i] as int) < n
                &&& node_order(g, schedule[i]) > 0
            },
        forall|v: usize|
            (v as int) < n ==> (schedule.contains(v) <==> (node_order(g, v) > 0 && reachable(
                g,
                start,
                v,
            ))),
{
    assert forall|i: int| 0 <= i < schedule.len() implies {
        &&& (#[trigger] schedule[i] as int) < n
        &&& node_order(g, schedule[i]) > 0
    } by {
        assert(visited[schedule[i] as int]);
    }
    assert forall|v: usize| (v as int) < n implies (schedule.contains(v) <==> (node_order(g, v) > 0
        && reachable(g, start, v))) by {
        if schedule.contains(v) {
            let q = choose|q: int| 0 <= q < schedule.len() && schedule[q] == v;
            assert(visited[schedule[q] as int]);
        }
        if node_order(g, v) > 0 && reachable(g, start, v) {
            let k = choose|k: nat| #[trigger] reaches(g, start, v, k);
            lemma_reached_visited(g, visited, start, v, k);
            assert(visited[v as int]);
        }
    }
}

} // verus!

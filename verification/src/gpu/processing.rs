//! Optimization of the variables and operations of a compiled scope.
use vstd::prelude::*;
use crate::gpu::dialect::{
    merge_reads, Operation, Procedure, ReadGlobalWithLayout, ReadGlobalWithLayoutView, Variable,
};

verus! {

/// Information necessary when compiling a scope.
pub struct ScopeProcessing {
    /// The variable declarations.
    pub variables: Vec<Variable>,
    /// The operations.
    pub operations: Vec<Operation>,
}

/// The layout of an operation when it is a read of globals with a layout.
pub open spec fn read_layout_of(op: Operation) -> Option<Variable> {
    match op {
        Operation::Procedure(Procedure::ReadGlobalWithLayout(p)) => Some(p.layout),
        _ => None,
    }
}

/// A read of no global, with the given layout.
pub open spec fn empty_read(layout: Variable) -> ReadGlobalWithLayoutView {
    ReadGlobalWithLayoutView { globals: Seq::empty(), layout, outs: Seq::empty() }
}

/// All the reads of `ops` with layout `layout`, merged in order into one.
pub open spec fn reads_with_layout(ops: Seq<Operation>, layout: Variable) -> ReadGlobalWithLayoutView
    decreases ops.len(),
{
    if ops.len() == 0 {
        empty_read(layout)
    } else {
        let prev = reads_with_layout(ops.drop_last(), layout);
        match ops.last() {
            Operation::Procedure(Procedure::ReadGlobalWithLayout(p)) => if p.layout == layout {
                ReadGlobalWithLayoutView {
                    globals: prev.globals + p.globals@,
                    layout,
                    outs: prev.outs + p.outs@,
                }
            } else {
                prev
            },
            _ => prev,
        }
    }
}

/// Whether some operation of `ops` reads with layout `layout`.
pub open spec fn has_read_with_layout(ops: Seq<Operation>, layout: Variable) -> bool {
    exists|k: int| 0 <= k < ops.len() && #[trigger] read_layout_of(ops[k]) == Some(layout)
}

/// The positions in `ops` of the reads with layout `layout`, in order.
pub open spec fn positions_with_layout(ops: Seq<Operation>, layout: Variable) -> Seq<usize>
    decreases ops.len(),
{
    if ops.len() == 0 {
        Seq::empty()
    } else {
        let prev = positions_with_layout(ops.drop_last(), layout);
        if read_layout_of(ops.last()) == Some(layout) {
            prev.push((ops.len() - 1) as usize)
        } else {
            prev
        }
    }
}

/// The distinct layouts of the reads of `ops`, in order of first occurrence.
pub open spec fn layouts_in_order(ops: Seq<Operation>) -> Seq<Variable>
    decreases ops.len(),
{
    if ops.len() == 0 {
        Seq::empty()
    } else {
        let prev = layouts_in_order(ops.drop_last());
        match read_layout_of(ops.last()) {
            Some(l) => if prev.contains(l) {
                prev
            } else {
                prev.push(l)
            },
            None => prev,
        }
    }
}

/// What stands at a position of the optimized operations: an operation kept
/// from a given position, or the merge of all the reads of a layout.
pub enum Slot {
    Keep(int),
    Merged(Variable),
}

/// The optimized operations, slot by slot: every operation that is not a read
/// with a layout is kept; the first read with a given layout is replaced by
/// the merge of all the reads with that layout; the others are dropped.
pub open spec fn merge_plan(ops: Seq<Operation>) -> Seq<Slot>
    decreases ops.len(),
{
    if ops.len() == 0 {
        Seq::empty()
    } else {
        let prev = merge_plan(ops.drop_last());
        match read_layout_of(ops.last()) {
            Some(l) => if has_read_with_layout(ops.drop_last(), l) {
                prev
            } else {
                prev.push(Slot::Merged(l))
            },
            None => prev.push(Slot::Keep(ops.len() - 1)),
        }
    }
}

/// Whether `op` is what `slot` asks for, given the operations `ops` before
/// optimization.
pub open spec fn slot_holds(op: Operation, slot: Slot, ops: Seq<Operation>) -> bool {
    match slot {
        Slot::Keep(k) => 0 <= k < ops.len() && op == ops[k],
        Slot::Merged(l) => match op {
            Operation::Procedure(Procedure::ReadGlobalWithLayout(p)) => p@ == reads_with_layout(
                ops,
                l,
            ),
            _ => false,
        },
    }
}

/// The operations `out` are the optimization of `ops`.
pub open spec fn is_merged_operations(out: Seq<Operation>, ops: Seq<Operation>) -> bool {
    let plan = merge_plan(ops);
    &&& out.len() == plan.len()
    &&& forall|j: int| 0 <= j < out.len() ==> slot_holds(#[trigger] out[j], plan[j], ops)
}

proof fn lemma_take_step(ops: Seq<Operation>, n: int)
    requires
        0 <= n < ops.len(),
    ensures
        ops.take(n + 1).drop_last() == ops.take(n),
        ops.take(n + 1).last() == ops[n],
        ops.take(n + 1).len() == n + 1,
{
    assert(ops.take(n + 1).drop_last() =~= ops.take(n));
}

proof fn lemma_has_read_step(ops: Seq<Operation>, layout: Variable)
    requires
        ops.len() > 0,
    ensures
        has_read_with_layout(ops, layout) <==> (has_read_with_layout(ops.drop_last(), layout)
            || read_layout_of(ops.last()) == Some(layout)),
{
    let prev = ops.drop_last();
    if has_read_with_layout(ops, layout) {
        let k = choose|k: int| 0 <= k < ops.len() && #[trigger] read_layout_of(ops[k]) == Some(layout);
        if k < ops.len() - 1 {
            assert(prev[k] == ops[k]);
        }
    }
    if has_read_with_layout(prev, layout) {
        let k = choose|k: int| 0 <= k < prev.len() && #[trigger] read_layout_of(prev[k]) == Some(layout);
    }
}

/// The layouts listed are exactly the layouts read, each once.
proof fn lemma_layouts(ops: Seq<Operation>)
    ensures
        forall|l: Variable| #[trigger]
            layouts_in_order(ops).contains(l) <==> has_read_with_layout(ops, l),
        forall|i: int, j: int|
            0 <= i < j < layouts_in_order(ops).len() ==> layouts_in_order(ops)[i]
                != layouts_in_order(ops)[j],
    decreases ops.len(),
{
    if ops.len() > 0 {
        lemma_layouts(ops.drop_last());
        assert forall|l: Variable| #[trigger]
            layouts_in_order(ops).contains(l) <==> has_read_with_layout(ops, l) by {
            lemma_has_read_step(ops, l);
            let prev = layouts_in_order(ops.drop_last());
            match read_layout_of(ops.last()) {
                Some(m) => {
                    if !prev.contains(m) {
                        assert(prev.push(m)[prev.len() as int] == m);
                        if prev.push(m).contains(l) {
                            let k = choose|k: int| 0 <= k < prev.push(m).len() && prev.push(m)[k] == l;
                            if k < prev.len() {
                                assert(prev[k] == l);
                            }
                        }
                        if prev.contains(l) {
                            let k = choose|k: int| 0 <= k < prev.len() && prev[k] == l;
                            assert(prev.push(m)[k] == l);
                        }
                    }
                },
                None => {},
            }
        }
        let prev = layouts_in_order(ops.drop_last());
        if let Some(m) = read_layout_of(ops.last()) {
            if !prev.contains(m) {
                assert forall|i: int, j: int|
                    0 <= i < j < prev.push(m).len() implies prev.push(m)[i] != prev.push(m)[j] by {
                    if j == prev.len() {
                        assert(prev.push(m)[i] == prev[i]);
                    }
                }
            }
        }
    }
}

proof fn lemma_reads_layout(ops: Seq<Operation>, layout: Variable)
    ensures
        reads_with_layout(ops, layout).layout == layout,
    decreases ops.len(),
{
    if ops.len() > 0 {
        lemma_reads_layout(ops.drop_last(), layout);
    }
}

/// A layout that is never read gathers nothing.
proof fn lemma_absent_layout(ops: Seq<Operation>, layout: Variable)
    requires
        !has_read_with_layout(ops, layout),
    ensures
        reads_with_layout(ops, layout) == empty_read(layout),
        positions_with_layout(ops, layout).len() == 0,
    decreases ops.len(),
{
    if ops.len() > 0 {
        lemma_has_read_step(ops, layout);
        lemma_absent_layout(ops.drop_last(), layout);
    }
}

/// The positions of the reads with a layout: increasing, in bounds, exactly
/// those of the reads with that layout.
proof fn lemma_positions(ops: Seq<Operation>, layout: Variable)
    requires
        ops.len() <= usize::MAX,
    ensures
        ({
            let pos = positions_with_layout(ops, layout);
            &&& forall|i: int| 0 <= i < pos.len() ==> (#[trigger] pos[i]) < ops.len()
            &&& forall|i: int|
                0 <= i < pos.len() ==> read_layout_of(ops[#[trigger] pos[i] as int]) == Some(layout)
            &&& forall|i: int, j: int| 0 <= i < j < pos.len() ==> pos[i] < pos[j]
            &&& forall|k: int|
                0 <= k < ops.len() && read_layout_of(#[trigger] ops[k]) == Some(layout)
                    ==> pos.contains(k as usize)
        }),
    decreases ops.len(),
{
    if ops.len() > 0 {
        let prev_ops = ops.drop_last();
        lemma_positions(prev_ops, layout);
        let prev = positions_with_layout(prev_ops, layout);
        let pos = positions_with_layout(ops, layout);
        assert forall|i: int| 0 <= i < pos.len() implies read_layout_of(
            ops[#[trigger] pos[i] as int],
        ) == Some(layout) by {}
        assert forall|k: int|
            0 <= k < ops.len() && read_layout_of(#[trigger] ops[k]) == Some(layout) implies pos.contains(
            k as usize,
        ) by {
            if k < ops.len() - 1 {
                assert(prev_ops[k] == ops[k]);
                let i = choose|i: int| 0 <= i < prev.len() && prev[i] == k as usize;
                assert(pos[i] == k as usize);
            } else {
                assert(pos[pos.len() - 1] == k as usize);
            }
        }
    }
}

/// A read with a layout listed in the positions of that layout: it is the
/// first of them exactly when no earlier operation reads with that layout.
proof fn lemma_first_position(ops: Seq<Operation>, layout: Variable, p: int)
    requires
        ops.len() <= usize::MAX,
        0 <= p < ops.len(),
        read_layout_of(ops[p]) == Some(layout),
    ensures
        positions_with_layout(ops, layout).len() > 0,
        (positions_with_layout(ops, layout)[0] == p as usize) <==> !has_read_with_layout(
            ops.take(p),
            layout,
        ),
{
    lemma_positions(ops, layout);
    let pos = positions_with_layout(ops, layout);
    let i = choose|i: int| 0 <= i < pos.len() && pos[i] == p as usize;
    if pos[0] == p as usize {
        if has_read_with_layout(ops.take(p), layout) {
            let k = choose|k: int|
                0 <= k < ops.take(p).len() && #[trigger] read_layout_of(ops.take(p)[k]) == Some(
                    layout,
                );
            let j = choose|j: int| 0 <= j < pos.len() && pos[j] == k as usize;
        }
    } else {
        let k = pos[0] as int;
        assert(read_layout_of(ops.take(p)[k]) == Some(layout));
    }
}

/// Reads with the same layout are grouped; `positions[k]` are the positions of
/// the group.
struct MergedProc {
    proc: ReadGlobalWithLayout,
    positions: Vec<usize>,
}

struct Optimization {
    merged_procs: Vec<MergedProc>,
}

impl Optimization {
    /// The groups are those of the first `n` operations of `ops`.
    spec fn groups_of(&self, ops: Seq<Operation>, n: int) -> bool {
        let prefix = ops.take(n);
        let layouts = layouts_in_order(prefix);
        &&& self.merged_procs@.len() == layouts.len()
        &&& forall|g: int|
            0 <= g < self.merged_procs@.len() ==> {
                &&& (#[trigger] self.merged_procs@[g]).proc@ == reads_with_layout(
                    prefix,
                    layouts[g],
                )
                &&& self.merged_procs@[g].positions@ == positions_with_layout(prefix, layouts[g])
            }
    }

    /// Add the read at `position` (the operation `ops[position]`) to its group.
    fn register(&mut self, proc: &ReadGlobalWithLayout, position: usize, Ghost(ops): Ghost<Seq<Operation>>)
        requires
            old(self).groups_of(ops, position as int),
            0 <= position < ops.len(),
            ops.len() <= usize::MAX,
            ops[position as int] == Operation::Procedure(Procedure::ReadGlobalWithLayout(*proc)),
        ensures
            final(self).groups_of(ops, position + 1),
    {
        let ghost n = position as int;
        let ghost prefix = ops.take(n);
        let ghost next = ops.take(n + 1);
        proof {
            lemma_take_step(ops, n);
            lemma_layouts(prefix);
            lemma_layouts(next);
        }
        let ghost layout = proc.layout;
        let ghost layouts = layouts_in_order(prefix);
        let mut k: usize = 0;
        while k < self.merged_procs.len()
            invariant
                self.groups_of(ops, n),
                k <= self.merged_procs@.len(),
                0 <= n < ops.len(),
                ops.len() <= usize::MAX,
                position == n,
                prefix == ops.take(n),
                next == ops.take(n + 1),
                next.drop_last() == prefix,
                next.last() == ops[n],
                layouts == layouts_in_order(prefix),
                layout == proc.layout,
                ops[n] == Operation::Procedure(Procedure::ReadGlobalWithLayout(*proc)),
                forall|g: int| 0 <= g < k ==> layouts[g] != layout,
                forall|l: Variable| #[trigger] layouts.contains(l) <==> has_read_with_layout(prefix, l),
                forall|i: int, j: int| 0 <= i < j < layouts.len() ==> layouts[i] != layouts[j],
            decreases self.merged_procs@.len() - k,
        {
            let merged = self.merged_procs[k].proc.try_merge(proc);
            match merged {
                Some(m) => {
                    let ghost old_procs = self.merged_procs@;
                    let mp = &mut self.merged_procs[k];
                    mp.proc = m;
                    mp.positions.push(position);
                    proof {
                        lemma_reads_layout(prefix, layouts[k as int]);
                        assert forall|g: int| 0 <= g < self.merged_procs@.len() implies {
                            &&& (#[trigger] self.merged_procs@[g]).proc@ == reads_with_layout(
                                next,
                                layouts[g],
                            )
                            &&& self.merged_procs@[g].positions@ == positions_with_layout(
                                next,
                                layouts[g],
                            )
                        } by {}
                    }
                    return;
                },
                None => {
                    proof {
                        lemma_reads_layout(prefix, layouts[k as int]);
                    }
                },
            }
            k = k + 1;
        }
        proof {
            assert(!layouts.contains(layout)) by {
                if layouts.contains(layout) {
                    let g = choose|g: int| 0 <= g < layouts.len() && layouts[g] == layout;
                }
            }
            lemma_absent_layout(prefix, layout);
        }
        let ghost old_procs = self.merged_procs@;
        let mut positions: Vec<usize> = Vec::new();
        positions.push(position);
        self.merged_procs.push(MergedProc { proc: proc.duplicate(), positions });
        proof {
            assert forall|g: int| 0 <= g < self.merged_procs@.len() implies {
                &&& (#[trigger] self.merged_procs@[g]).proc@ == reads_with_layout(
                    next,
                    layouts_in_order(next)[g],
                )
                &&& self.merged_procs@[g].positions@ == positions_with_layout(
                    next,
                    layouts_in_order(next)[g],
                )
            } by {
                if g >= old_procs.len() {
                    let r = reads_with_layout(next, layout);
                    assert(r.globals =~= proc.globals@);
                    assert(r.outs =~= proc.outs@);
                    assert(positions_with_layout(next, layout) =~= seq![position]);
                }
            }
        }
    }
}

/// `v` in reverse order.
fn reversed<T>(v: Vec<T>) -> (r: Vec<T>)
    ensures
        r@ == v@.reverse(),
{
    let mut v = v;
    let ghost orig = v@;
    let mut r: Vec<T> = Vec::new();
    while v.len() > 0
        invariant
            v@ == orig.take(v@.len() as int),
            r@ == orig.skip(v@.len() as int).reverse(),
            v@.len() <= orig.len(),
        decreases v@.len(),
    {
        let x = v.pop().unwrap();
        r.push(x);
        proof {
            assert(v@ =~= orig.take(v@.len() as int));
            assert(r@ =~= orig.skip(v@.len() as int).reverse());
        }
    }
    assert(orig.skip(0) =~= orig);
    r
}

impl ScopeProcessing {
    /// Optimize the [variables](Variable) and [operations](Operation): all the
    /// reads of globals that share a layout are merged into the first of them.
    ///
    /// This should be called once right after the creation of the type.
    pub fn optimize(self) -> (r: Self)
        requires
            self.operations@.len() <= usize::MAX,
        ensures
            r.variables@ == self.variables@,
            is_merged_operations(r.operations@, self.operations@),
    {
        self.merge_read_global_with_layout()
    }

    /// Merge all compatible [read global with layout procedures](ReadGlobalWithLayout).
    fn merge_read_global_with_layout(self) -> (r: Self)
        ensures
            r.variables@ == self.variables@,
            is_merged_operations(r.operations@, self.operations@),
    {
        let ghost ops = self.operations@;
        let mut optimization = Optimization { merged_procs: Vec::new() };
        let len = self.operations.len();
        let mut position: usize = 0;
        while position < len
            invariant
                len == self.operations@.len(),
                ops == self.operations@,
                position <= len,
                optimization.groups_of(ops, position as int),
            decreases len - position,
        {
            match &self.operations[position] {
                Operation::Procedure(Procedure::ReadGlobalWithLayout(proc)) => {
                    optimization.register(proc, position, Ghost(ops));
                },
                _ => {
                    proof {
                        lemma_take_step(ops, position as int);
                        let next = ops.take(position + 1);
                        let prefix = ops.take(position as int);
                        assert forall|g: int| 0 <= g < optimization.merged_procs@.len() implies {
                            &&& (#[trigger] optimization.merged_procs@[g]).proc@ == reads_with_layout(
                                next,
                                layouts_in_order(next)[g],
                            )
                            &&& optimization.merged_procs@[g].positions@ == positions_with_layout(
                                next,
                                layouts_in_order(next)[g],
                            )
                        } by {}
                    }
                },
            }
            position = position + 1;
        }
        assert(ops.take(len as int) =~= ops);

        if optimization.merged_procs.len() == 0 {
            proof {
                lemma_no_reads_plan(ops);
            }
            return self;
        }
        let ScopeProcessing { variables, operations } = self;
        let mut remaining = reversed(operations);
        let mut out: Vec<Operation> = Vec::new();
        let ghost layouts = layouts_in_order(ops);
        proof {
            lemma_layouts(ops);
        }
        let mut position: usize = 0;
        while position < len
            invariant
                len == ops.len(),
                position <= len,
                remaining@ == ops.skip(position as int).reverse(),
                optimization.groups_of(ops, len as int),
                ops.take(len as int) == ops,
                layouts == layouts_in_order(ops),
                forall|l: Variable| #[trigger] layouts.contains(l) <==> has_read_with_layout(ops, l),
                forall|i: int, j: int| 0 <= i < j < layouts.len() ==> layouts[i] != layouts[j],
                out@.len() == merge_plan(ops.take(position as int)).len(),
                forall|j: int|
                    0 <= j < out@.len() ==> slot_holds(
                        #[trigger] out@[j],
                        merge_plan(ops.take(position as int))[j],
                        ops,
                    ),
            decreases len - position,
        {
            let ghost p = position as int;
            proof {
                lemma_take_step(ops, p);
            }
            let operation = remaining.pop().unwrap();
            proof {
                assert(remaining@ =~= ops.skip(p + 1).reverse());
            }
            let ghost out_before = out@;
            let mut is_merged_op = false;
            let mut g: usize = 0;
            while g < optimization.merged_procs.len()
                invariant
                    optimization.groups_of(ops, len as int),
                    ops.take(len as int) == ops,
                    len == ops.len(),
                    0 <= p < len,
                    p == position as int,
                    operation == ops[p],
                    g <= optimization.merged_procs@.len(),
                    layouts == layouts_in_order(ops),
                    forall|l: Variable| #[trigger] layouts.contains(l) <==> has_read_with_layout(ops, l),
                    forall|i: int, j: int| 0 <= i < j < layouts.len() ==> layouts[i] != layouts[j],
                    is_merged_op <==> exists|h: int|
                        0 <= h < g && read_layout_of(ops[p]) == Some(#[trigger] layouts[h]),
                    out@.len() == out_before.len() || out@.len() == out_before.len() + 1,
                    out@.take(out_before.len() as int) == out_before,
                    out@.len() == out_before.len() + 1 <==> exists|h: int|
                        0 <= h < g && read_layout_of(ops[p]) == Some(#[trigger] layouts[h])
                            && !has_read_with_layout(ops.take(p), layouts[h]),
                    out@.len() == out_before.len() + 1 ==> (read_layout_of(ops[p]) matches Some(l)
                        && slot_holds(out@[out_before.len() as int], Slot::Merged(l), ops)),
                decreases optimization.merged_procs@.len() - g,
            {
                let mp = &optimization.merged_procs[g];
                let ghost l = layouts[g as int];
                let ghost pos = positions_with_layout(ops, l);
                proof {
                    lemma_positions(ops, l);
                    if read_layout_of(ops[p]) == Some(l) {
                        lemma_first_position(ops, l, p);
                    }
                    assert(has_read_with_layout(ops, l)) by {
                        assert(layouts.contains(l));
                    }
                    if pos.len() == 0 {
                        let k = choose|k: int| 0 <= k < ops.len() && #[trigger] read_layout_of(ops[k]) == Some(l);
                    }
                }
                let first = mp.positions[0] == position;
                if first {
                    let ghost before_push = out@;
                    proof {
                        if before_push.len() == out_before.len() + 1 {
                            let h = choose|h: int|
                                0 <= h < g && read_layout_of(ops[p]) == Some(#[trigger] layouts[h])
                                    && !has_read_with_layout(ops.take(p), layouts[h]);
                        }
                    }
                    out.push(Operation::Procedure(Procedure::ReadGlobalWithLayout(mp.proc.duplicate())));
                    is_merged_op = true;
                    proof {
                        assert(out@.take(out_before.len() as int) =~= out_before);
                    }
                }
                let contained = contains_position(&mp.positions, position);
                if contained {
                    is_merged_op = true;
                }
                proof {
                    if contained {
                        let i = choose|i: int| 0 <= i < pos.len() && pos[i] == position;
                    }
                }
                g = g + 1;
            }
            proof {
                if let Some(l) = read_layout_of(ops[p]) {
                    assert(layouts.contains(l));
                    let h = choose|h: int| 0 <= h < layouts.len() && layouts[h] == l;
                }
            }
            if !is_merged_op {
                out.push(operation);
            }
            proof {
                let next_plan = merge_plan(ops.take(p + 1));
                assert forall|j: int| 0 <= j < out@.len() implies slot_holds(
                    #[trigger] out@[j],
                    next_plan[j],
                    ops,
                ) by {
                    if j < out_before.len() {
                        assert(out@[j] == out_before[j]);
                    }
                }
            }
            position = position + 1;
        }
        ScopeProcessing { variables, operations: out }
    }
}

/// Whether `positions` holds `position`.
fn contains_position(positions: &Vec<usize>, position: usize) -> (r: bool)
    ensures
        r == positions@.contains(position),
{
    let mut k: usize = 0;
    while k < positions.len()
        invariant
            k <= positions@.len(),
            forall|i: int| 0 <= i < k ==> positions@[i] != position,
        decreases positions@.len() - k,
    {
        if positions[k] == position {
            return true;
        }
        k = k + 1;
    }
    false
}

/// Without any read with a layout, the optimization keeps every operation.
proof fn lemma_no_reads_plan(ops: Seq<Operation>)
    requires
        layouts_in_order(ops).len() == 0,
    ensures
        is_merged_operations(ops, ops),
{
    lemma_layouts(ops);
    assert forall|l: Variable| !has_read_with_layout(ops, l) by {
        assert(!layouts_in_order(ops).contains(l));
    }
    lemma_keep_all(ops, ops.len() as int);
    assert(ops.take(ops.len() as int) =~= ops);
}

proof fn lemma_keep_all(ops: Seq<Operation>, n: int)
    requires
        0 <= n <= ops.len(),
        forall|l: Variable| !has_read_with_layout(ops, l),
    ensures
        merge_plan(ops.take(n)).len() == n,
        forall|j: int| 0 <= j < n ==> #[trigger] merge_plan(ops.take(n))[j] == Slot::Keep(j),
    decreases n,
{
    if n > 0 {
        lemma_keep_all(ops, n - 1);
        lemma_take_step(ops, n - 1);
        if let Some(l) = read_layout_of(ops[n - 1]) {
            assert(has_read_with_layout(ops, l));
        }
    }
}

/// Operations among which no read of globals with a layout stands come back
/// from the optimization unchanged.
pub proof fn law_no_reads_unchanged(ops: Seq<Operation>, out: Seq<Operation>)
    requires
        forall|k: int| 0 <= k < ops.len() ==> read_layout_of(#[trigger] ops[k]) is None,
        is_merged_operations(out, ops),
    ensures
        out == ops,
{
    assert forall|l: Variable| !has_read_with_layout(ops, l) by {
        if has_read_with_layout(ops, l) {
            let k = choose|k: int| 0 <= k < ops.len() && #[trigger] read_layout_of(ops[k]) == Some(l);
            assert(read_layout_of(ops[k]) is None);
        }
    }
    lemma_keep_all(ops, ops.len() as int);
    assert(ops.take(ops.len() as int) =~= ops);
    assert forall|j: int| 0 <= j < out.len() implies out[j] == ops[j] by {
        assert(merge_plan(ops)[j] == Slot::Keep(j));
    }
    assert(out =~= ops);
}

/// The read an operation is, when it is a read with a layout.
pub open spec fn read_of(op: Operation) -> Option<ReadGlobalWithLayoutView> {
    match op {
        Operation::Procedure(Procedure::ReadGlobalWithLayout(p)) => Some(p@),
        _ => None,
    }
}

/// Every read with a layout of `ops` has one output per global.
pub open spec fn reads_paired(ops: Seq<Operation>) -> bool {
    forall|k: int|
        0 <= k < ops.len() ==> match #[trigger] read_of(ops[k]) {
            Some(p) => p.globals.len() == p.outs.len(),
            None => true,
        }
}

/// How many globals the reads of `ops` with layout `layout` read, together.
pub open spec fn count_globals(ops: Seq<Operation>, layout: Variable) -> nat
    decreases ops.len(),
{
    if ops.len() == 0 {
        0
    } else {
        count_globals(ops.drop_last(), layout) + match read_of(ops.last()) {
            Some(p) => if p.layout == layout {
                p.globals.len()
            } else {
                0
            },
            None => 0,
        }
    }
}

/// `op` is a read with layout `layout` of `n` globals into `n` outputs that
/// reads `global` into `out` at position `q`.
pub open spec fn reads_at(op: Operation, layout: Variable, n: nat, q: int, global: Variable, out: Variable) -> bool {
    match read_of(op) {
        Some(m) => {
            &&& m.layout == layout
            &&& m.globals.len() == n
            &&& m.outs.len() == n
            &&& m.globals[q] == global
            &&& m.outs[q] == out
        },
        None => false,
    }
}

proof fn lemma_paired_prefix(ops: Seq<Operation>)
    requires
        ops.len() > 0,
        reads_paired(ops),
    ensures
        reads_paired(ops.drop_last()),
{
    let prev = ops.drop_last();
    assert forall|k: int| 0 <= k < prev.len() implies match #[trigger] read_of(prev[k]) {
        Some(p) => p.globals.len() == p.outs.len(),
        None => true,
    } by {
        assert(prev[k] == ops[k]);
        assert(read_of(ops[k]) == read_of(prev[k]));
    }
}

/// With paired reads, the merge of the reads of a layout has as many
/// globals as outputs: as many as those reads read together.
proof fn lemma_merged_len(ops: Seq<Operation>, layout: Variable)
    requires
        reads_paired(ops),
    ensures
        reads_with_layout(ops, layout).globals.len() == count_globals(ops, layout),
        reads_with_layout(ops, layout).outs.len() == count_globals(ops, layout),
    decreases ops.len(),
{
    if ops.len() > 0 {
        lemma_paired_prefix(ops);
        lemma_merged_len(ops.drop_last(), layout);
        assert(read_of(ops[ops.len() - 1]) == read_of(ops.last()));
    }
}

/// Global `i` of the read at position `k` stands, with its output, at
/// position `c + i` of the merge of the reads of its layout, where `c` counts
/// the globals the reads of that layout before `k` read.
proof fn lemma_merged_position(ops: Seq<Operation>, layout: Variable, k: int, i: int)
    requires
        reads_paired(ops),
        0 <= k < ops.len(),
        read_of(ops[k]) is Some,
        read_of(ops[k])->Some_0.layout == layout,
        0 <= i < read_of(ops[k])->Some_0.globals.len(),
    ensures
        ({
            let p = read_of(ops[k])->Some_0;
            let c = count_globals(ops.take(k), layout);
            let m = reads_with_layout(ops, layout);
            &&& c + i < count_globals(ops, layout)
            &&& m.globals[c + i] == p.globals[i]
            &&& m.outs[c + i] == p.outs[i]
        }),
    decreases ops.len(),
{
    let n = ops.len() as int;
    let prev = ops.drop_last();
    let p = read_of(ops[k])->Some_0;
    lemma_paired_prefix(ops);
    lemma_merged_len(prev, layout);
    assert(read_of(ops[n - 1]) == read_of(ops.last()));
    assert(p.globals.len() == p.outs.len());
    if k < n - 1 {
        assert(prev[k] == ops[k]);
        assert(ops.take(k) =~= prev.take(k));
        lemma_merged_position(prev, layout, k, i);
    } else {
        assert(ops.take(k) =~= prev);
    }
}

/// `ops` has a read with layout `layout`, so its optimization has a slot for
/// the merge of the reads of that layout.
proof fn lemma_plan_merged(ops: Seq<Operation>, layout: Variable)
    requires
        has_read_with_layout(ops, layout),
    ensures
        merge_plan(ops).contains(Slot::Merged(layout)),
    decreases ops.len(),
{
    let prev = ops.drop_last();
    lemma_has_read_step(ops, layout);
    let plan = merge_plan(ops);
    if has_read_with_layout(prev, layout) {
        lemma_plan_merged(prev, layout);
        let q = choose|q: int| 0 <= q < merge_plan(prev).len() && merge_plan(prev)[q] == Slot::Merged(layout);
        assert(plan[q] == merge_plan(prev)[q]);
    } else {
        assert(plan.last() == Slot::Merged(layout));
        assert(plan[plan.len() - 1] == Slot::Merged(layout));
    }
}

/// Optimizing keeps each global read with the output it had: when every read
/// has one output per global, global `i` of the read at position `k` is read
/// into the same output by the merged read of its layout, at position
/// `c + i`, where `c` counts the globals that the reads of that layout before
/// `k` read; the merged read reads all the globals of its layout, one output
/// each.
pub proof fn law_optimize_keeps_pairs(ops: Seq<Operation>, out: Seq<Operation>, k: int, i: int)
    requires
        is_merged_operations(out, ops),
        reads_paired(ops),
        0 <= k < ops.len(),
        read_of(ops[k]) is Some,
        0 <= i < read_of(ops[k])->Some_0.globals.len(),
    ensures
        ({
            let p = read_of(ops[k])->Some_0;
            exists|j: int|
                0 <= j < out.len() && #[trigger] reads_at(
                    out[j],
                    p.layout,
                    count_globals(ops, p.layout),
                    count_globals(ops.take(k), p.layout) + i,
                    p.globals[i],
                    p.outs[i],
                )
        }),
{
    let p = read_of(ops[k])->Some_0;
    let l = p.layout;
    assert(read_layout_of(ops[k]) == Some(l));
    lemma_plan_merged(ops, l);
    let plan = merge_plan(ops);
    let j = choose|j: int| 0 <= j < plan.len() && plan[j] == Slot::Merged(l);
    assert(slot_holds(out[j], plan[j], ops));
    lemma_merged_len(ops, l);
    lemma_merged_position(ops, l, k, i);
    let m = reads_with_layout(ops, l);
    assert(read_of(out[j]) == Some(m));
    lemma_reads_layout(ops, l);
    assert(m.layout == l);
    assert(reads_at(
        out[j],
        l,
        count_globals(ops, l),
        count_globals(ops.take(k), l) + i,
        p.globals[i],
        p.outs[i],
    ));
}

/// Two operations that are the same, or reads with a layout that read the
/// same globals into the same outputs.
pub open spec fn same_op(a: Operation, b: Operation) -> bool {
    a == b || (a matches Operation::Procedure(Procedure::ReadGlobalWithLayout(p))
        && b matches Operation::Procedure(Procedure::ReadGlobalWithLayout(q)) && p@ == q@)
}

/// No two reads of `ops` have the same layout.
pub open spec fn distinct_reads(ops: Seq<Operation>) -> bool {
    forall|i: int, j: int|
        0 <= i < j < ops.len() && (#[trigger] read_layout_of(ops[i])) is Some ==> read_layout_of(
            ops[i],
        ) != #[trigger] read_layout_of(ops[j])
}

/// The layout a merged slot stands for.
pub open spec fn merged_layout(slot: Slot) -> Option<Variable> {
    match slot {
        Slot::Merged(l) => Some(l),
        Slot::Keep(_) => None,
    }
}

/// A kept slot holds an operation that is no read with a layout; a merged
/// slot stands for a layout that is read; merged slots have distinct layouts.
proof fn lemma_plan_slots(ops: Seq<Operation>)
    ensures
        forall|j: int|
            0 <= j < merge_plan(ops).len() ==> match #[trigger] merge_plan(ops)[j] {
                Slot::Keep(k) => 0 <= k < ops.len() && read_layout_of(ops[k]) is None,
                Slot::Merged(l) => has_read_with_layout(ops, l),
            },
        forall|i: int, j: int|
            0 <= i < j < merge_plan(ops).len() && (#[trigger] merged_layout(merge_plan(ops)[i]))
                is Some ==> merged_layout(merge_plan(ops)[i]) != #[trigger] merged_layout(
                merge_plan(ops)[j],
            ),
    decreases ops.len(),
{
    if ops.len() > 0 {
        let prev_ops = ops.drop_last();
        lemma_plan_slots(prev_ops);
        let prev = merge_plan(prev_ops);
        assert forall|l: Variable| has_read_with_layout(prev_ops, l) implies has_read_with_layout(
            ops,
            l,
        ) by {
            lemma_has_read_step(ops, l);
        }
        assert forall|k: int| 0 <= k < prev_ops.len() implies prev_ops[k] == ops[k] by {}
        if let Some(l) = read_layout_of(ops.last()) {
            lemma_has_read_step(ops, l);
            if !has_read_with_layout(prev_ops, l) {
                assert forall|i: int, j: int|
                    0 <= i < j < merge_plan(ops).len() && (#[trigger] merged_layout(merge_plan(ops)[i]))
                        is Some implies merged_layout(merge_plan(ops)[i]) != #[trigger] merged_layout(
                        merge_plan(ops)[j],
                    ) by {
                    assert(merge_plan(ops)[i] == prev[i]);
                    if j == prev.len() {
                        if let Slot::Merged(a) = prev[i] {
                            assert(has_read_with_layout(prev_ops, a));
                        }
                    } else {
                        assert(merge_plan(ops)[j] == prev[j]);
                    }
                }
            }
        }
    }
}

/// Without two reads of the same layout, every read is its own merge and
/// every other operation is kept.
proof fn lemma_plan_distinct(xs: Seq<Operation>)
    requires
        distinct_reads(xs),
    ensures
        merge_plan(xs).len() == xs.len(),
        forall|j: int|
            0 <= j < xs.len() ==> #[trigger] merge_plan(xs)[j] == match read_layout_of(xs[j]) {
                Some(l) => Slot::Merged(l),
                None => Slot::Keep(j),
            },
    decreases xs.len(),
{
    if xs.len() > 0 {
        let prev = xs.drop_last();
        assert(distinct_reads(prev)) by {
            assert forall|i: int, j: int|
                0 <= i < j < prev.len() && (#[trigger] read_layout_of(prev[i])) is Some implies read_layout_of(
                    prev[i],
                ) != #[trigger] read_layout_of(prev[j]) by {
                assert(prev[i] == xs[i] && prev[j] == xs[j]);
            }
        }
        lemma_plan_distinct(prev);
        if let Some(l) = read_layout_of(xs.last()) {
            if has_read_with_layout(prev, l) {
                let k = choose|k: int| 0 <= k < prev.len() && #[trigger] read_layout_of(prev[k]) == Some(l);
                assert(prev[k] == xs[k]);
                assert(read_layout_of(xs[k]) != read_layout_of(xs[xs.len() - 1]));
            }
        }
        assert forall|j: int| 0 <= j < xs.len() - 1 implies prev[j] == xs[j] by {}
    }
}

/// Without two reads of the same layout, the merge of the reads with the
/// layout of the read at `j` is that read.
proof fn lemma_single_read(xs: Seq<Operation>, j: int, p: ReadGlobalWithLayout, n: int)
    requires
        distinct_reads(xs),
        0 <= j < xs.len(),
        0 <= n <= xs.len(),
        xs[j] == Operation::Procedure(Procedure::ReadGlobalWithLayout(p)),
    ensures
        reads_with_layout(xs.take(n), p.layout) == if n > j {
            p@
        } else {
            empty_read(p.layout)
        },
    decreases n,
{
    if n > 0 {
        lemma_single_read(xs, j, p, n - 1);
        lemma_take_step(xs, n - 1);
        let prev = reads_with_layout(xs.take(n - 1), p.layout);
        if n - 1 == j {
            assert(prev.globals + p.globals@ =~= p.globals@);
            assert(prev.outs + p.outs@ =~= p.outs@);
        } else if n - 1 > j {
            assert(read_layout_of(xs[j]) != read_layout_of(xs[n - 1]));
        } else {
            if let Some(m) = read_layout_of(xs[n - 1]) {
                assert(read_layout_of(xs[n - 1]) != read_layout_of(xs[j]));
            }
        }
    }
}

/// Optimizing the optimized operations changes nothing more: the result has
/// the same operations, a merged read reading the same globals into the
/// same outputs.
pub proof fn law_optimize_idempotent(
    ops: Seq<Operation>,
    out: Seq<Operation>,
    out2: Seq<Operation>,
)
    requires
        is_merged_operations(out, ops),
        is_merged_operations(out2, out),
    ensures
        out2.len() == out.len(),
        forall|j: int| 0 <= j < out.len() ==> same_op(#[trigger] out2[j], out[j]),
{
    let plan = merge_plan(ops);
    lemma_plan_slots(ops);
    assert forall|j: int|
        0 <= j < out.len() && (#[trigger] read_layout_of(out[j])) is Some implies plan[j] matches Slot::Merged(
            l,
        ) && read_layout_of(out[j]) == Some(l) by {
        assert(slot_holds(out[j], plan[j], ops));
        match plan[j] {
            Slot::Keep(k) => {},
            Slot::Merged(l) => {
                lemma_reads_layout(ops, l);
            },
        }
    }
    assert(distinct_reads(out)) by {
        assert forall|i: int, j: int|
            0 <= i < j < out.len() && (#[trigger] read_layout_of(out[i])) is Some implies read_layout_of(
                out[i],
            ) != #[trigger] read_layout_of(out[j]) by {
            assert(read_layout_of(out[i]) == merged_layout(plan[i]));
            if read_layout_of(out[j]) is Some {
                assert(read_layout_of(out[j]) == merged_layout(plan[j]));
            }
        }
    }
    lemma_plan_distinct(out);
    assert forall|j: int| 0 <= j < out.len() implies same_op(#[trigger] out2[j], out[j]) by {
        assert(slot_holds(out2[j], merge_plan(out)[j], out));
        match out[j] {
            Operation::Procedure(Procedure::ReadGlobalWithLayout(p)) => {
                lemma_single_read(out, j, p, out.len() as int);
                assert(out.take(out.len() as int) =~= out);
            },
            _ => {},
        }
    }
}

} // verus!

//! Expansion of global reads into operations.
use vstd::prelude::*;
use crate::gpu::dialect::{
    item_of, lanes, next_local, BinaryOperator, Elem, Item, Loop, Metadata, Operation, Operator,
    Procedure, RangeLoop, ReadGlobalAlgo, ReadGlobalWithLayoutAlgo, Scope, UnaryOperator,
    Variable,
};

verus! {

/// The unsigned scalar item used for every index.
pub open spec fn index_item() -> Item {
    Item::Scalar(Elem::UInt)
}

/// An unsigned integer constant.
pub open spec fn uint_const(value: u64) -> Variable {
    Variable::ConstantScalar(value, Elem::UInt)
}

pub open spec fn op_binary(op: Operator) -> Operation {
    Operation::Operator(op)
}

/// The operations of one iteration of the layout loop, over dimension `i`:
/// the index of the invocation in the layout of `algo.layout` is translated
/// into an offset in `algo.global` and added to `index`.
pub open spec fn layout_loop_body(
    algo: ReadGlobalWithLayoutAlgo,
    i: Variable,
    index: Variable,
    offset: Variable,
    stride: Variable,
    stride_layout: Variable,
    shape: Variable,
    tmp: Variable,
) -> Seq<Operation> {
    seq![
        Operation::Metadata(Metadata::Stride { dim: i, var: algo.global, out: stride }),
        Operation::Metadata(Metadata::Stride { dim: i, var: algo.layout, out: stride_layout }),
        Operation::Metadata(Metadata::Shape { dim: i, var: algo.global, out: shape }),
        Operation::Operator(Operator::Mul(BinaryOperator { lhs: Variable::Id, rhs: offset, out: tmp })),
        Operation::Operator(Operator::Div(BinaryOperator { lhs: tmp, rhs: stride_layout, out: tmp })),
        Operation::Operator(Operator::Modulo(BinaryOperator { lhs: tmp, rhs: shape, out: tmp })),
        Operation::Operator(Operator::Mul(BinaryOperator { lhs: tmp, rhs: stride, out: tmp })),
        Operation::Operator(Operator::Add(BinaryOperator { lhs: index, rhs: tmp, out: index })),
    ]
}

/// The code that reads `algo.global` at the position of the invocation in
/// the layout of `algo.layout`, in a scope of depth `d` that had `n` locals:
/// the reset of the index, a loop over the rank whose body is
/// [`layout_loop_body`], the division by the vectorization, and the read.
pub open spec fn read_with_layout_code(
    ops: Seq<Operation>,
    algo: ReadGlobalWithLayoutAlgo,
    d: u8,
    n: nat,
) -> bool {
    let index = next_local(d, n, index_item());
    let tmp = next_local(d, n + 1, index_item());
    let offset = uint_const(lanes(item_of(algo.global)));
    &&& ops.len() == 4
    &&& ops[0] == Operation::Operator(
        Operator::AssignLocal(UnaryOperator { input: uint_const(0), out: index }),
    )
    &&& ops[2] == Operation::Operator(
        Operator::Div(BinaryOperator { lhs: index, rhs: offset, out: tmp }),
    )
    &&& ops[3] == Operation::Operator(
        Operator::Index(BinaryOperator { lhs: algo.global, rhs: tmp, out: algo.out }),
    )
    &&& ops[1] matches Operation::Loop(Loop::Range(r)) && {
        let cd = (d + 1) as u8;
        let i = next_local(cd, 0, index_item());
        let stride = next_local(cd, 1, index_item());
        let stride_layout = next_local(cd, 2, index_item());
        let shape = next_local(cd, 3, index_item());
        let t = next_local(cd, 4, index_item());
        &&& r.i == i
        &&& r.start == uint_const(0)
        &&& r.end == Variable::Rank
        &&& r.scope.depth == cd
        &&& r.scope.locals@ == seq![i, stride, stride_layout, shape, t]
        &&& r.scope.operations@ == layout_loop_body(
            algo,
            i,
            index,
            offset,
            stride,
            stride_layout,
            shape,
            t,
        )
    }
}

/// Register the read of `algo.global` at the invocation index.
pub fn generate_read_global(scope: &mut Scope, algo: ReadGlobalAlgo)
    ensures
        final(scope).operations@ == old(scope).operations@.push(
            Operation::Operator(
                Operator::Index(BinaryOperator { lhs: algo.global, rhs: Variable::Id, out: algo.out }),
            ),
        ),
        final(scope).locals@ == old(scope).locals@,
        final(scope).depth == old(scope).depth,
{
    scope.register(
        Operation::Operator(
            Operator::Index(BinaryOperator { lhs: algo.global, rhs: Variable::Id, out: algo.out }),
        ),
    );
}

/// Register the read of `algo.global` at the position that the invocation
/// index has in the layout of `algo.layout`.
///
/// Two locals are declared in `scope` (the accumulated index, then the index
/// divided by the vectorization of the global) and four operations registered:
/// the reset of the index, a loop over the rank whose body is
/// [`layout_loop_body`], the division, and the indexed read.
pub fn generate_read_global_with_layout(scope: &mut Scope, algo: ReadGlobalWithLayoutAlgo)
    requires
        old(scope).locals@.len() + 2 < u16::MAX,
        old(scope).depth < u8::MAX,
    ensures
        final(scope).depth == old(scope).depth,
        final(scope).locals@ == old(scope).locals@.push(
            next_local(old(scope).depth, old(scope).locals@.len(), index_item()),
        ).push(next_local(old(scope).depth, old(scope).locals@.len() + 1, index_item())),
        final(scope).operations@.len() == old(scope).operations@.len() + 4,
        final(scope).operations@.take(old(scope).operations@.len() as int) == old(
            scope,
        ).operations@,
        read_with_layout_code(
            final(scope).operations@.skip(old(scope).operations@.len() as int),
            algo,
            old(scope).depth,
            old(scope).locals@.len(),
        ),
{
    let ghost old_ops = scope.operations@;
    let index_item_ty = Item::Scalar(Elem::UInt);
    let index_local = scope.create_local(index_item_ty);
    let start = Variable::ConstantScalar(0, Elem::UInt);

    scope.register(
        Operation::Operator(
            Operator::AssignLocal(
                UnaryOperator { input: Variable::ConstantScalar(0, Elem::UInt), out: index_local },
            ),
        ),
    );

    let offset = match algo.global.item() {
        Item::Vec4(_) => 4,
        Item::Vec3(_) => 3,
        Item::Vec2(_) => 2,
        Item::Scalar(_) => 1,
    };
    let offset = Variable::ConstantScalar(offset, Elem::UInt);

    let mut op = RangeLoop::new(scope, start, Variable::Rank);
    let i = op.i;
    let stride = op.scope.create_local(index_item_ty);
    let stride_layout = op.scope.create_local(index_item_ty);
    let shape = op.scope.create_local(index_item_ty);
    let tmp = op.scope.create_local(index_item_ty);

    op.scope.register(Operation::Metadata(Metadata::Stride { dim: i, var: algo.global, out: stride }));
    op.scope.register(
        Operation::Metadata(Metadata::Stride { dim: i, var: algo.layout, out: stride_layout }),
    );
    op.scope.register(Operation::Metadata(Metadata::Shape { dim: i, var: algo.global, out: shape }));
    op.scope.register(
        Operation::Operator(Operator::Mul(BinaryOperator { lhs: Variable::Id, rhs: offset, out: tmp })),
    );
    op.scope.register(
        Operation::Operator(Operator::Div(BinaryOperator { lhs: tmp, rhs: stride_layout, out: tmp })),
    );
    op.scope.register(
        Operation::Operator(Operator::Modulo(BinaryOperator { lhs: tmp, rhs: shape, out: tmp })),
    );
    op.scope.register(
        Operation::Operator(Operator::Mul(BinaryOperator { lhs: tmp, rhs: stride, out: tmp })),
    );
    op.scope.register(
        Operation::Operator(
            Operator::Add(BinaryOperator { lhs: index_local, rhs: tmp, out: index_local }),
        ),
    );
    assert(op.scope.locals@ =~= seq![i, stride, stride_layout, shape, tmp]);
    assert(op.scope.operations@ =~= layout_loop_body(
        algo,
        i,
        index_local,
        offset,
        stride,
        stride_layout,
        shape,
        tmp,
    ));

    scope.register(Operation::Loop(Loop::Range(op)));
    let tmp = scope.create_local(index_item_ty);
    scope.register(
        Operation::Operator(Operator::Div(BinaryOperator { lhs: index_local, rhs: offset, out: tmp })),
    );
    scope.register(
        Operation::Operator(
            Operator::Index(BinaryOperator { lhs: algo.global, rhs: tmp, out: algo.out }),
        ),
    );
    assert(scope.operations@.take(old_ops.len() as int) =~= old_ops);
    let ghost code = scope.operations@.skip(old_ops.len() as int);
    assert(code[1] == scope.operations@[old_ops.len() as int + 1]);
    assert(code[0] == scope.operations@[old_ops.len() as int]);
    assert(code[2] == scope.operations@[old_ops.len() as int + 2]);
    assert(code[3] == scope.operations@[old_ops.len() as int + 3]);
}

/// What one invocation of a kernel reads: its index, the rank of the
/// tensors, their strides and shapes by dimension, and the items of the
/// global arrays by position.
pub struct Invocation {
    pub id: int,
    pub rank: int,
    pub stride: spec_fn(Variable, int) -> int,
    pub shape: spec_fn(Variable, int) -> int,
    pub item: spec_fn(Variable, int) -> int,
}

/// The value of a variable, given the values of the locals.
pub open spec fn value_of(inv: Invocation, vals: Map<Variable, int>, v: Variable) -> int {
    match v {
        Variable::Id => inv.id,
        Variable::Rank => inv.rank,
        Variable::ConstantScalar(c, _) => c as int,
        _ => vals[v],
    }
}

/// The values after an operator or a metadata read runs; other operations
/// change nothing here.
pub open spec fn run_simple(inv: Invocation, vals: Map<Variable, int>, op: Operation) -> Map<
    Variable,
    int,
> {
    match op {
        Operation::Operator(o) => match o {
            Operator::Add(b) => vals.insert(
                b.out,
                value_of(inv, vals, b.lhs) + value_of(inv, vals, b.rhs),
            ),
            Operator::Mul(b) => vals.insert(
                b.out,
                value_of(inv, vals, b.lhs) * value_of(inv, vals, b.rhs),
            ),
            Operator::Div(b) => vals.insert(
                b.out,
                value_of(inv, vals, b.lhs) / value_of(inv, vals, b.rhs),
            ),
            Operator::Modulo(b) => vals.insert(
                b.out,
                value_of(inv, vals, b.lhs) % value_of(inv, vals, b.rhs),
            ),
            Operator::Index(b) => vals.insert(b.out, (inv.item)(b.lhs, value_of(inv, vals, b.rhs))),
            Operator::AssignLocal(u) => vals.insert(u.out, value_of(inv, vals, u.input)),
        },
        Operation::Metadata(Metadata::Stride { dim, var, out }) => vals.insert(
            out,
            (inv.stride)(var, value_of(inv, vals, dim)),
        ),
        Operation::Metadata(Metadata::Shape { dim, var, out }) => vals.insert(
            out,
            (inv.shape)(var, value_of(inv, vals, dim)),
        ),
        _ => vals,
    }
}

/// The values after operators and metadata reads run in order.
pub open spec fn run_simple_ops(inv: Invocation, vals: Map<Variable, int>, ops: Seq<Operation>) -> Map<
    Variable,
    int,
>
    decreases ops.len(),
{
    if ops.len() == 0 {
        vals
    } else {
        run_simple(inv, run_simple_ops(inv, vals, ops.drop_last()), ops.last())
    }
}

/// The values after `count` iterations of a loop with index `i` from
/// `from`, whose body holds operators and metadata reads.
pub open spec fn run_range(
    inv: Invocation,
    vals: Map<Variable, int>,
    i: Variable,
    body: Seq<Operation>,
    from: int,
    count: nat,
) -> Map<Variable, int>
    decreases count,
{
    if count == 0 {
        vals
    } else {
        run_range(
            inv,
            run_simple_ops(inv, vals.insert(i, from), body),
            i,
            body,
            from + 1,
            (count - 1) as nat,
        )
    }
}

/// The values after an operation runs: a range loop runs its body, made of
/// operators and metadata reads, for each index from its start to its end.
pub open spec fn run_op(inv: Invocation, vals: Map<Variable, int>, op: Operation) -> Map<
    Variable,
    int,
> {
    match op {
        Operation::Loop(Loop::Range(r)) => {
            let start = value_of(inv, vals, r.start);
            let end = value_of(inv, vals, r.end);
            if start < end {
                run_range(inv, vals, r.i, r.scope.operations@, start, (end - start) as nat)
            } else {
                vals
            }
        },
        _ => run_simple(inv, vals, op),
    }
}

/// The values after operations run in order.
pub open spec fn run_ops(inv: Invocation, vals: Map<Variable, int>, ops: Seq<Operation>) -> Map<
    Variable,
    int,
>
    decreases ops.len(),
{
    if ops.len() == 0 {
        vals
    } else {
        run_op(inv, run_ops(inv, vals, ops.drop_last()), ops.last())
    }
}

/// The position, in `algo.global`, of the element that the invocation's
/// element `id * w` has in the layout of `algo.layout`, over the first `k`
/// dimensions.
pub open spec fn layout_position(inv: Invocation, algo: ReadGlobalWithLayoutAlgo, w: int, k: nat) -> int
    decreases k,
{
    if k == 0 {
        0
    } else {
        let d = k - 1;
        layout_position(inv, algo, w, (k - 1) as nat) + ((inv.id * w / (inv.stride)(algo.layout, d))
            % (inv.shape)(algo.global, d)) * (inv.stride)(algo.global, d)
    }
}

/// One iteration of the layout loop adds the dimension's term to the index.
proof fn lemma_layout_body(
    inv: Invocation,
    vals: Map<Variable, int>,
    algo: ReadGlobalWithLayoutAlgo,
    d: u8,
    n: nat,
    k: nat,
)
    requires
        d < u8::MAX,
        n < u16::MAX,
        vals[next_local(d, n, index_item())] == layout_position(
            inv,
            algo,
            lanes(item_of(algo.global)) as int,
            k,
        ),
    ensures
        ({
            let cd = (d + 1) as u8;
            let i = next_local(cd, 0, index_item());
            let index = next_local(d, n, index_item());
            let body = layout_loop_body(
                algo,
                i,
                index,
                uint_const(lanes(item_of(algo.global))),
                next_local(cd, 1, index_item()),
                next_local(cd, 2, index_item()),
                next_local(cd, 3, index_item()),
                next_local(cd, 4, index_item()),
            );
            run_simple_ops(inv, vals.insert(i, k as int), body)[index] == layout_position(
                inv,
                algo,
                lanes(item_of(algo.global)) as int,
                k + 1,
            )
        }),
{
    let cd = (d + 1) as u8;
    let i = next_local(cd, 0, index_item());
    let index = next_local(d, n, index_item());
    let stride = next_local(cd, 1, index_item());
    let stride_layout = next_local(cd, 2, index_item());
    let shape = next_local(cd, 3, index_item());
    let t = next_local(cd, 4, index_item());
    let w = lanes(item_of(algo.global)) as int;
    let body = layout_loop_body(algo, i, index, uint_const(lanes(item_of(algo.global))), stride, stride_layout, shape, t);
    let v0 = vals.insert(i, k as int);
    let v1 = run_simple(inv, v0, body[0]);
    let v2 = run_simple(inv, v1, body[1]);
    let v3 = run_simple(inv, v2, body[2]);
    let v4 = run_simple(inv, v3, body[3]);
    let v5 = run_simple(inv, v4, body[4]);
    let v6 = run_simple(inv, v5, body[5]);
    let v7 = run_simple(inv, v6, body[6]);
    let v8 = run_simple(inv, v7, body[7]);
    assert(run_simple_ops(inv, v0, body.take(0)) == v0);
    assert(body.take(1).drop_last() =~= body.take(0));
    assert(body.take(2).drop_last() =~= body.take(1));
    assert(body.take(3).drop_last() =~= body.take(2));
    assert(body.take(4).drop_last() =~= body.take(3));
    assert(body.take(5).drop_last() =~= body.take(4));
    assert(body.take(6).drop_last() =~= body.take(5));
    assert(body.take(7).drop_last() =~= body.take(6));
    assert(body.take(8).drop_last() =~= body.take(7));
    assert(body.take(8) =~= body);
    assert(run_simple_ops(inv, v0, body.take(1)) == v1);
    assert(run_simple_ops(inv, v0, body.take(2)) == v2);
    assert(run_simple_ops(inv, v0, body.take(3)) == v3);
    assert(run_simple_ops(inv, v0, body.take(4)) == v4);
    assert(run_simple_ops(inv, v0, body.take(5)) == v5);
    assert(run_simple_ops(inv, v0, body.take(6)) == v6);
    assert(run_simple_ops(inv, v0, body.take(7)) == v7);
    assert(run_simple_ops(inv, v0, body.take(8)) == v8);
    assert(v4[t] == inv.id * w);
    assert(v5[t] == inv.id * w / (inv.stride)(algo.layout, k as int));
    assert(v6[t] == (inv.id * w / (inv.stride)(algo.layout, k as int)) % (inv.shape)(algo.global, k as int));
    assert(v8[index] == vals[index] + v7[t]);
}

/// Running the layout loop `c` times from index `k` adds the terms of those
/// dimensions to the index.
proof fn lemma_layout_loop(
    inv: Invocation,
    vals: Map<Variable, int>,
    algo: ReadGlobalWithLayoutAlgo,
    d: u8,
    n: nat,
    k: nat,
    c: nat,
)
    requires
        d < u8::MAX,
        n < u16::MAX,
        vals[next_local(d, n, index_item())] == layout_position(
            inv,
            algo,
            lanes(item_of(algo.global)) as int,
            k,
        ),
    ensures
        ({
            let cd = (d + 1) as u8;
            let i = next_local(cd, 0, index_item());
            let index = next_local(d, n, index_item());
            let body = layout_loop_body(
                algo,
                i,
                index,
                uint_const(lanes(item_of(algo.global))),
                next_local(cd, 1, index_item()),
                next_local(cd, 2, index_item()),
                next_local(cd, 3, index_item()),
                next_local(cd, 4, index_item()),
            );
            run_range(inv, vals, i, body, k as int, c)[index] == layout_position(
                inv,
                algo,
                lanes(item_of(algo.global)) as int,
                k + c,
            )
        }),
    decreases c,
{
    if c > 0 {
        let cd = (d + 1) as u8;
        let i = next_local(cd, 0, index_item());
        let index = next_local(d, n, index_item());
        let body = layout_loop_body(
            algo,
            i,
            index,
            uint_const(lanes(item_of(algo.global))),
            next_local(cd, 1, index_item()),
            next_local(cd, 2, index_item()),
            next_local(cd, 3, index_item()),
            next_local(cd, 4, index_item()),
        );
        lemma_layout_body(inv, vals, algo, d, n, k);
        let next = run_simple_ops(inv, vals.insert(i, k as int), body);
        lemma_layout_loop(inv, next, algo, d, n, k + 1, (c - 1) as nat);
    }
}

/// The generated code reads, into `algo.out`, the item of `algo.global` at
/// the position that the invocation's element has in the layout of
/// `algo.layout`: with `w` the vectorization of the global, the position of
/// element `id * w` in the layout, translated to the global's strides and
/// divided by `w`. Arithmetic is on integers, without wrapping.
pub proof fn law_read_global_with_layout(
    inv: Invocation,
    vals: Map<Variable, int>,
    ops: Seq<Operation>,
    algo: ReadGlobalWithLayoutAlgo,
    d: u8,
    n: nat,
)
    requires
        read_with_layout_code(ops, algo, d, n),
        d < u8::MAX,
        n + 1 < u16::MAX,
    ensures
        run_ops(inv, vals, ops)[algo.out] == (inv.item)(
            algo.global,
            layout_position(
                inv,
                algo,
                lanes(item_of(algo.global)) as int,
                if inv.rank > 0 { inv.rank as nat } else { 0 },
            ) / (lanes(item_of(algo.global)) as int),
        ),
{
    let index = next_local(d, n, index_item());
    let w = lanes(item_of(algo.global)) as int;
    let rank: nat = if inv.rank > 0 { inv.rank as nat } else { 0 };
    assert(ops.take(1).drop_last() =~= ops.take(0));
    assert(ops.take(2).drop_last() =~= ops.take(1));
    assert(ops.take(3).drop_last() =~= ops.take(2));
    assert(ops.take(4).drop_last() =~= ops.take(3));
    assert(ops.take(4) =~= ops);
    let v1 = run_ops(inv, vals, ops.take(1));
    assert(v1[index] == 0);
    let v2 = run_ops(inv, vals, ops.take(2));
    if let Operation::Loop(Loop::Range(_)) = ops[1] {
        lemma_layout_loop(inv, v1, algo, d, n, 0, rank);
    }
    assert(v2[index] == layout_position(inv, algo, w, rank));
    let tmp = next_local(d, n + 1, index_item());
    let v3 = run_ops(inv, vals, ops.take(3));
    assert(v3 == run_op(inv, v2, ops[2]));
    assert(v3[tmp] == layout_position(inv, algo, w, rank) / w);
    assert(run_ops(inv, vals, ops) == run_op(inv, v3, ops[3]));
}

/// The variable an operation writes, for an operation that is neither a loop
/// nor a read with a layout.
pub open spec fn output_of(op: Operation) -> Option<Variable> {
    match op {
        Operation::Operator(o) => Some(
            match o {
                Operator::Add(b) => b.out,
                Operator::Mul(b) => b.out,
                Operator::Div(b) => b.out,
                Operator::Modulo(b) => b.out,
                Operator::Index(b) => b.out,
                Operator::AssignLocal(u) => u.out,
            },
        ),
        Operation::Metadata(m) => Some(
            match m {
                Metadata::Stride { out, .. } => out,
                Metadata::Shape { out, .. } => out,
            },
        ),
        Operation::Procedure(Procedure::ReadGlobal(a)) => Some(a.out),
        _ => None,
    }
}

/// The locals that the code reading with a layout declares, in a scope of
/// depth `d` that had `n` locals: two in that scope, five in its loop's.
pub open spec fn read_with_layout_locals(d: u8, n: nat) -> Set<Variable> {
    let cd = (d + 1) as u8;
    set![
        next_local(d, n, index_item()),
        next_local(d, n + 1, index_item()),
        next_local(cd, 0, index_item()),
        next_local(cd, 1, index_item()),
        next_local(cd, 2, index_item()),
        next_local(cd, 3, index_item()),
        next_local(cd, 4, index_item()),
    ]
}

/// The code that reads with a layout writes only `algo.out` and the locals it
/// declares: each operation outside the loop, the loop's counter and each
/// operation of its body writes one of them, and only the last operation
/// writes `algo.out` when `algo.out` is not one of those locals. Any other
/// variable, `algo.global` and `algo.layout` among them, is only read.
pub proof fn law_read_global_with_layout_writes(
    ops: Seq<Operation>,
    algo: ReadGlobalWithLayoutAlgo,
    d: u8,
    n: nat,
)
    requires
        read_with_layout_code(ops, algo, d, n),
    ensures
        ({
            let fresh = read_with_layout_locals(d, n);
            &&& output_of(ops[0]) == Some(next_local(d, n, index_item()))
            &&& output_of(ops[2]) == Some(next_local(d, n + 1, index_item()))
            &&& output_of(ops[3]) == Some(algo.out)
            &&& ops[1] matches Operation::Loop(Loop::Range(r)) && {
                &&& fresh.contains(r.i)
                &&& forall|k: int|
                    0 <= k < r.scope.operations@.len() ==> ((#[trigger] output_of(
                        r.scope.operations@[k],
                    )) matches Some(v) && fresh.contains(v))
            }
            &&& !fresh.contains(algo.out) ==> output_of(ops[0]) != Some(algo.out) && output_of(
                ops[2],
            ) != Some(algo.out)
            &&& forall|v: Variable|
                !fresh.contains(v) && v != algo.out ==> {
                    &&& output_of(ops[0]) != Some(v)
                    &&& output_of(ops[2]) != Some(v)
                    &&& output_of(ops[3]) != Some(v)
                    &&& ops[1] matches Operation::Loop(Loop::Range(r)) && r.i != v && forall|k: int|
                        0 <= k < r.scope.operations@.len() ==> #[trigger] output_of(
                            r.scope.operations@[k],
                        ) != Some(v)
                }
        }),
{
    let fresh = read_with_layout_locals(d, n);
    let cd = (d + 1) as u8;
    assert(fresh.contains(next_local(d, n, index_item())));
    assert(fresh.contains(next_local(d, n + 1, index_item())));
    assert(fresh.contains(next_local(cd, 0, index_item())));
    assert(fresh.contains(next_local(cd, 1, index_item())));
    assert(fresh.contains(next_local(cd, 2, index_item())));
    assert(fresh.contains(next_local(cd, 3, index_item())));
    assert(fresh.contains(next_local(cd, 4, index_item())));
}

} // verus!

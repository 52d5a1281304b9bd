use burn::gpu::algorithm::{generate_read_global, generate_read_global_with_layout};
use burn::gpu::dialect::{
    BinaryOperator, Elem, Item, Loop, Metadata, Operation, Operator, Procedure, RangeLoop,
    ReadGlobalAlgo, ReadGlobalWithLayout, ReadGlobalWithLayoutAlgo, Scope, UnaryOperator, Variable,
};
use burn::gpu::processing::ScopeProcessing;

fn input(i: u16) -> Variable {
    Variable::GlobalInputArray(i, Item::Scalar(Elem::Float))
}

fn read(globals: Vec<u16>, layout: u16, outs: Vec<u16>) -> Operation {
    Operation::Procedure(Procedure::ReadGlobalWithLayout(ReadGlobalWithLayout {
        globals: globals.into_iter().map(input).collect(),
        layout: input(layout),
        outs: outs.into_iter().map(|o| Variable::Local(o, Item::Scalar(Elem::Float), 0)).collect(),
    }))
}

fn add() -> Operation {
    Operation::Operator(Operator::Add(BinaryOperator {
        lhs: Variable::Id,
        rhs: Variable::Rank,
        out: Variable::Local(9, Item::Scalar(Elem::UInt), 0),
    }))
}

fn reads_of(op: &Operation) -> Option<(Vec<Variable>, Variable, Vec<Variable>)> {
    match op {
        Operation::Procedure(Procedure::ReadGlobalWithLayout(p)) => {
            Some((p.globals.clone(), p.layout, p.outs.clone()))
        }
        _ => None,
    }
}

#[test]
fn reads_with_the_same_layout_merge_into_the_first() {
    let processing = ScopeProcessing {
        variables: vec![input(0)],
        operations: vec![read(vec![1], 0, vec![1]), add(), read(vec![2], 0, vec![2]), read(vec![3], 5, vec![3])],
    };
    let optimized = processing.optimize();
    assert_eq!(optimized.variables, vec![input(0)]);
    assert_eq!(optimized.operations.len(), 3);
    let (globals, layout, outs) = reads_of(&optimized.operations[0]).unwrap();
    assert_eq!(globals, vec![input(1), input(2)]);
    assert_eq!(layout, input(0));
    assert_eq!(outs.len(), 2);
    assert!(reads_of(&optimized.operations[1]).is_none());
    let (globals, layout, _) = reads_of(&optimized.operations[2]).unwrap();
    assert_eq!(globals, vec![input(3)]);
    assert_eq!(layout, input(5));
}

#[test]
fn scope_without_reads_is_unchanged() {
    let shape = Operation::Metadata(Metadata::Shape {
        dim: Variable::Id,
        var: input(1),
        out: Variable::Local(3, Item::Scalar(Elem::UInt), 0),
    });
    let processing = ScopeProcessing { variables: vec![input(0)], operations: vec![add(), shape, add()] };
    let optimized = processing.optimize();
    assert_eq!(optimized.variables, vec![input(0)]);
    assert_eq!(optimized.operations.len(), 3);
    for k in [0, 2] {
        match &optimized.operations[k] {
            Operation::Operator(Operator::Add(b)) => {
                assert_eq!(b.lhs, Variable::Id);
                assert_eq!(b.rhs, Variable::Rank);
                assert_eq!(b.out, Variable::Local(9, Item::Scalar(Elem::UInt), 0));
            }
            _ => panic!("the addition stays in place"),
        }
    }
    match &optimized.operations[1] {
        Operation::Metadata(Metadata::Shape { dim, var, out }) => {
            assert_eq!((*dim, *var, *out), (Variable::Id, input(1), Variable::Local(3, Item::Scalar(Elem::UInt), 0)));
        }
        _ => panic!("the metadata stays in place"),
    }
}

#[test]
fn try_merge_needs_the_same_layout() {
    let a = ReadGlobalWithLayout { globals: vec![input(1)], layout: input(0), outs: vec![] };
    let b = ReadGlobalWithLayout { globals: vec![input(2)], layout: input(0), outs: vec![] };
    let c = ReadGlobalWithLayout { globals: vec![input(3)], layout: input(7), outs: vec![] };
    assert_eq!(a.try_merge(&b).unwrap().globals, vec![input(1), input(2)]);
    assert!(a.try_merge(&c).is_none());
}

#[test]
fn read_global_indexes_at_the_invocation() {
    let mut scope = Scope::root();
    let out = scope.create_local(Item::Vec4(Elem::Float));
    generate_read_global(&mut scope, ReadGlobalAlgo { global: input(0), out });
    assert_eq!(scope.operations.len(), 1);
    match &scope.operations[0] {
        Operation::Operator(Operator::Index(b)) => {
            assert_eq!(b.lhs, input(0));
            assert_eq!(b.rhs, Variable::Id);
            assert_eq!(b.out, out);
        }
        _ => panic!("not an index"),
    }
}

#[test]
fn read_global_with_layout_loops_over_the_rank() {
    let mut scope = Scope::root();
    let out = scope.create_local(Item::Scalar(Elem::Float));
    let global = Variable::GlobalInputArray(0, Item::Vec4(Elem::Float));
    let layout = Variable::GlobalOutputArray(0, Item::Vec4(Elem::Float));
    generate_read_global_with_layout(&mut scope, ReadGlobalWithLayoutAlgo { global, layout, out });
    let index = Variable::Local(1, Item::Scalar(Elem::UInt), 0);
    let tmp = Variable::Local(2, Item::Scalar(Elem::UInt), 0);
    assert_eq!(scope.locals, vec![out, index, tmp]);
    assert_eq!(scope.operations.len(), 4);
    match &scope.operations[0] {
        Operation::Operator(Operator::AssignLocal(UnaryOperator { input, out })) => {
            assert_eq!(*input, Variable::ConstantScalar(0, Elem::UInt));
            assert_eq!(*out, index);
        }
        _ => panic!("not an assignment"),
    }
    match &scope.operations[1] {
        Operation::Loop(Loop::Range(r)) => {
            assert_eq!(r.end, Variable::Rank);
            assert_eq!(r.scope.depth, 1);
            assert_eq!(r.scope.locals.len(), 5);
            assert_eq!(r.scope.operations.len(), 8);
            match &r.scope.operations[0] {
                Operation::Metadata(Metadata::Stride { dim, var, .. }) => {
                    assert_eq!(*dim, r.i);
                    assert_eq!(*var, global);
                }
                _ => panic!("not a stride"),
            }
        }
        _ => panic!("not a loop"),
    }
    match &scope.operations[2] {
        Operation::Operator(Operator::Div(b)) => {
            assert_eq!(b.lhs, index);
            assert_eq!(b.rhs, Variable::ConstantScalar(4, Elem::UInt));
            assert_eq!(b.out, tmp);
        }
        _ => panic!("not a division"),
    }
    match &scope.operations[3] {
        Operation::Operator(Operator::Index(b)) => {
            assert_eq!((b.lhs, b.rhs, b.out), (global, tmp, out));
        }
        _ => panic!("not an index"),
    }
}

#[test]
fn range_loop_declares_its_index_first() {
    let parent = Scope::root();
    let r = RangeLoop::new(&parent, Variable::ConstantScalar(0, Elem::UInt), Variable::Rank);
    assert_eq!(r.i, Variable::Local(0, Item::Scalar(Elem::UInt), 1));
    assert_eq!(r.scope.locals, vec![r.i]);
    let child = parent.child();
    assert_eq!(child.depth, 1);
    assert_eq!(Variable::GlobalScalar(0, Elem::Int).item(), Item::Scalar(Elem::Int));
}

fn output_of(op: &Operation) -> Option<Variable> {
    match op {
        Operation::Operator(o) => Some(match o {
            Operator::Add(b) | Operator::Mul(b) | Operator::Div(b) | Operator::Modulo(b) | Operator::Index(b) => b.out,
            Operator::AssignLocal(u) => u.out,
        }),
        Operation::Metadata(Metadata::Stride { out, .. }) | Operation::Metadata(Metadata::Shape { out, .. }) => Some(*out),
        Operation::Procedure(Procedure::ReadGlobal(a)) => Some(a.out),
        _ => None,
    }
}

#[test]
fn read_global_with_layout_keeps_earlier_ops_and_writes_only_its_locals_and_out() {
    let mut scope = Scope::root();
    scope.register(add());
    let out = scope.create_local(Item::Scalar(Elem::Float));
    let global = Variable::GlobalInputArray(0, Item::Vec2(Elem::Float));
    let layout = Variable::GlobalInputArray(1, Item::Vec2(Elem::Float));
    generate_read_global_with_layout(&mut scope, ReadGlobalWithLayoutAlgo { global, layout, out });
    assert_eq!(scope.operations.len(), 5);
    assert_eq!(output_of(&scope.operations[0]), Some(Variable::Local(9, Item::Scalar(Elem::UInt), 0)));
    let index = Variable::Local(1, Item::Scalar(Elem::UInt), 0);
    let tmp = Variable::Local(2, Item::Scalar(Elem::UInt), 0);
    assert_eq!(output_of(&scope.operations[1]), Some(index));
    assert_eq!(output_of(&scope.operations[3]), Some(tmp));
    assert_eq!(output_of(&scope.operations[4]), Some(out));
    match &scope.operations[2] {
        Operation::Loop(Loop::Range(r)) => {
            for op in &r.scope.operations {
                let written = output_of(op).unwrap();
                let fresh = matches!(written, Variable::Local(_, _, 1)) || written == index;
                assert!(fresh);
                assert_ne!(written, global);
                assert_ne!(written, layout);
                assert_ne!(written, out);
            }
        }
        _ => panic!("not a loop"),
    }
}

//! The kernel dialect: variables, operators, procedures and scopes.
//!
//! A [`Scope`] records, in order, the operations of a kernel body and the local
//! variables it declares. Constants carry integer values: every constant that
//! the passes below create is an unsigned index or size.
use vstd::prelude::*;

verus! {

/// Scalar element kinds.
#[derive(Clone, Copy, Debug, PartialEq, Eq, Structural)]
pub enum Elem {
    Float,
    Int,
    UInt,
    Bool,
}

/// A scalar or a vector of two to four lanes.
#[derive(Clone, Copy, Debug, PartialEq, Eq, Structural)]
pub enum Item {
    Vec4(Elem),
    Vec3(Elem),
    Vec2(Elem),
    Scalar(Elem),
}

/// Number of lanes of an item.
pub open spec fn lanes(item: Item) -> u64 {
    match item {
        Item::Vec4(_) => 4,
        Item::Vec3(_) => 3,
        Item::Vec2(_) => 2,
        Item::Scalar(_) => 1,
    }
}

/// A value that operations read or write.
#[derive(Clone, Copy, Debug, PartialEq, Eq, Structural)]
pub enum Variable {
    GlobalInputArray(u16, Item),
    GlobalOutputArray(u16, Item),
    GlobalScalar(u16, Elem),
    /// A local: its index in the declaring scope, its item and the scope's depth.
    Local(u16, Item, u8),
    ConstantScalar(u64, Elem),
    /// The invocation index.
    Id,
    /// The rank of the tensors of the kernel.
    Rank,
}

/// The item that a variable holds.
pub open spec fn item_of(v: Variable) -> Item {
    match v {
        Variable::GlobalInputArray(_, item) => item,
        Variable::GlobalOutputArray(_, item) => item,
        Variable::GlobalScalar(_, elem) => Item::Scalar(elem),
        Variable::Local(_, item, _) => item,
        Variable::ConstantScalar(_, elem) => Item::Scalar(elem),
        Variable::Id => Item::Scalar(Elem::UInt),
        Variable::Rank => Item::Scalar(Elem::UInt),
    }
}

impl Variable {
    /// The item of this variable.
    pub fn item(&self) -> (r: Item)
        ensures
            r == item_of(*self),
    {
        match self {
            Variable::GlobalInputArray(_, item) => *item,
            Variable::GlobalOutputArray(_, item) => *item,
            Variable::GlobalScalar(_, elem) => Item::Scalar(*elem),
            Variable::Local(_, item, _) => *item,
            Variable::ConstantScalar(_, elem) => Item::Scalar(*elem),
            Variable::Id => Item::Scalar(Elem::UInt),
            Variable::Rank => Item::Scalar(Elem::UInt),
        }
    }
}

#[derive(Clone, Copy, Debug, PartialEq, Eq, Structural)]
pub struct BinaryOperator {
    pub lhs: Variable,
    pub rhs: Variable,
    pub out: Variable,
}

#[derive(Clone, Copy, Debug, PartialEq, Eq, Structural)]
pub struct UnaryOperator {
    pub input: Variable,
    pub out: Variable,
}

#[derive(Clone, Copy, Debug, PartialEq, Eq, Structural)]
pub enum Operator {
    Add(BinaryOperator),
    Mul(BinaryOperator),
    Div(BinaryOperator),
    Modulo(BinaryOperator),
    Index(BinaryOperator),
    AssignLocal(UnaryOperator),
}

#[derive(Clone, Copy, Debug, PartialEq, Eq, Structural)]
pub enum Metadata {
    /// The stride of `var` along dimension `dim`, written to `out`.
    Stride { dim: Variable, var: Variable, out: Variable },
    /// The size of `var` along dimension `dim`, written to `out`.
    Shape { dim: Variable, var: Variable, out: Variable },
}

/// Read the global `global` at the invocation index into `out`.
#[derive(Clone, Copy, Debug, PartialEq, Eq, Structural)]
pub struct ReadGlobalAlgo {
    pub global: Variable,
    pub out: Variable,
}

/// Read the global `global` into `out` at the position of the invocation in the
/// layout of `layout`.
#[derive(Clone, Copy, Debug, PartialEq, Eq, Structural)]
pub struct ReadGlobalWithLayoutAlgo {
    pub global: Variable,
    pub layout: Variable,
    pub out: Variable,
}

/// Read several globals, all following the layout of `layout`; `globals[k]` is
/// read into `outs[k]`.
#[derive(Debug)]
pub struct ReadGlobalWithLayout {
    pub globals: Vec<Variable>,
    pub layout: Variable,
    pub outs: Vec<Variable>,
}

/// The plain value of a [`ReadGlobalWithLayout`].
pub struct ReadGlobalWithLayoutView {
    pub globals: Seq<Variable>,
    pub layout: Variable,
    pub outs: Seq<Variable>,
}

impl View for ReadGlobalWithLayout {
    type V = ReadGlobalWithLayoutView;

    open spec fn view(&self) -> ReadGlobalWithLayoutView {
        ReadGlobalWithLayoutView { globals: self.globals@, layout: self.layout, outs: self.outs@ }
    }
}

/// The merge of two reads: defined when they share their layout, and then
/// reads the globals of `a` followed by those of `b`.
pub open spec fn merge_reads(a: ReadGlobalWithLayoutView, b: ReadGlobalWithLayoutView) -> Option<
    ReadGlobalWithLayoutView,
> {
    if a.layout == b.layout {
        Some(
            ReadGlobalWithLayoutView {
                globals: a.globals + b.globals,
                layout: a.layout,
                outs: a.outs + b.outs,
            },
        )
    } else {
        None
    }
}

/// Merging two reads of the same layout keeps each global with its output:
/// the merge reads the globals of `a` and then those of `b`, and writes them
/// to the outputs of `a` and then those of `b`, position by position; so
/// when each read has one output per global, global `k` of the merge is read
/// into output `k`, which is the output that global had in its own read.
pub proof fn law_merge_keeps_pairs(a: ReadGlobalWithLayoutView, b: ReadGlobalWithLayoutView)
    requires
        a.layout == b.layout,
    ensures
        merge_reads(a, b) is Some,
        ({
            let m = merge_reads(a, b)->Some_0;
            &&& m.layout == a.layout
            &&& m.globals.len() == a.globals.len() + b.globals.len()
            &&& m.outs.len() == a.outs.len() + b.outs.len()
            &&& forall|k: int| 0 <= k < a.globals.len() ==> m.globals[k] == #[trigger] a.globals[k]
            &&& forall|k: int| 0 <= k < a.outs.len() ==> m.outs[k] == #[trigger] a.outs[k]
            &&& forall|k: int|
                0 <= k < b.globals.len() ==> m.globals[a.globals.len() + k] == #[trigger] b.globals[k]
            &&& forall|k: int| 0 <= k < b.outs.len() ==> m.outs[a.outs.len() + k] == #[trigger] b.outs[k]
            &&& a.globals.len() == a.outs.len() && b.globals.len() == b.outs.len() ==> {
                &&& m.globals.len() == m.outs.len()
                &&& forall|k: int|
                    0 <= k < m.globals.len() ==> (k < a.globals.len() && #[trigger] m.globals[k]
                        == a.globals[k] && m.outs[k] == a.outs[k]) || (a.globals.len() <= k
                        && m.globals[k] == b.globals[k - a.globals.len()] && m.outs[k]
                        == b.outs[k - a.globals.len()])
            }
        }),
{
}

/// A copy of a list of variables.
pub fn copy_variables(v: &Vec<Variable>) -> (r: Vec<Variable>)
    ensures
        r@ == v@,
{
    let mut r: Vec<Variable> = Vec::new();
    let mut k: usize = 0;
    while k < v.len()
        invariant
            k <= v.len(),
            r@ == v@.take(k as int),
        decreases v.len() - k,
    {
        r.push(v[k]);
        k = k + 1;
        assert(r@ =~= v@.take(k as int));
    }
    assert(v@.take(v.len() as int) =~= v@);
    r
}

/// `a` followed by `b`.
fn concat_variables(a: &Vec<Variable>, b: &Vec<Variable>) -> (r: Vec<Variable>)
    ensures
        r@ == a@ + b@,
{
    let mut r = copy_variables(a);
    let mut k: usize = 0;
    while k < b.len()
        invariant
            k <= b.len(),
            r@ == a@ + b@.take(k as int),
        decreases b.len() - k,
    {
        r.push(b[k]);
        k = k + 1;
        assert(r@ =~= a@ + b@.take(k as int));
    }
    assert(b@.take(b.len() as int) =~= b@);
    r
}

impl ReadGlobalWithLayout {
    /// A copy of this read.
    pub fn duplicate(&self) -> (r: Self)
        ensures
            r@ == self@,
    {
        ReadGlobalWithLayout {
            globals: copy_variables(&self.globals),
            layout: self.layout,
            outs: copy_variables(&self.outs),
        }
    }

    /// Merge two reads into one; only reads that share their layout merge.
    pub fn try_merge(&self, other: &Self) -> (r: Option<Self>)
        ensures
            match r {
                Some(m) => merge_reads(self@, other@) == Some(m@),
                None => merge_reads(self@, other@) is None,
            },
    {
        if self.layout != other.layout {
            return None;
        }
        Some(
            ReadGlobalWithLayout {
                globals: concat_variables(&self.globals, &other.globals),
                layout: self.layout,
                outs: concat_variables(&self.outs, &other.outs),
            },
        )
    }
}

#[derive(Debug)]
pub enum Procedure {
    ReadGlobalWithLayout(ReadGlobalWithLayout),
    ReadGlobal(ReadGlobalAlgo),
}

/// A loop of `i` from `start` to `end` over the operations of `scope`.
#[derive(Debug)]
pub struct RangeLoop {
    pub i: Variable,
    pub start: Variable,
    pub end: Variable,
    pub scope: Scope,
}

#[derive(Debug)]
pub enum Loop {
    Range(RangeLoop),
}

#[derive(Debug)]
pub enum Operation {
    Operator(Operator),
    Procedure(Procedure),
    Metadata(Metadata),
    Loop(Loop),
}

/// The operations and the local declarations of a kernel body.
#[derive(Debug)]
pub struct Scope {
    pub depth: u8,
    pub operations: Vec<Operation>,
    pub locals: Vec<Variable>,
}

/// The local that a scope of depth `depth` with `n` locals declares next.
pub open spec fn next_local(depth: u8, n: nat, item: Item) -> Variable {
    Variable::Local(n as u16, item, depth)
}

impl Scope {
    /// The outermost scope of a kernel: no operation, no local.
    pub fn root() -> (r: Scope)
        ensures
            r.depth == 0,
            r.operations@.len() == 0,
            r.locals@.len() == 0,
    {
        Scope { depth: 0, operations: Vec::new(), locals: Vec::new() }
    }

    /// A new scope nested in this one.
    pub fn child(&self) -> (r: Scope)
        requires
            self.depth < u8::MAX,
        ensures
            r.depth == self.depth + 1,
            r.operations@.len() == 0,
            r.locals@.len() == 0,
    {
        Scope { depth: self.depth + 1, operations: Vec::new(), locals: Vec::new() }
    }

    /// Declare a new local of the given item.
    pub fn create_local(&mut self, item: Item) -> (r: Variable)
        requires
            old(self).locals@.len() < u16::MAX,
        ensures
            r == next_local(old(self).depth, old(self).locals@.len(), item),
            final(self).locals@ == old(self).locals@.push(r),
            final(self).operations@ == old(self).operations@,
            final(self).depth == old(self).depth,
    {
        let index = self.locals.len() as u16;
        let local = Variable::Local(index, item, self.depth);
        self.locals.push(local);
        local
    }

    /// Append an operation.
    pub fn register(&mut self, operation: Operation)
        ensures
            final(self).operations@ == old(self).operations@.push(operation),
            final(self).locals@ == old(self).locals@,
            final(self).depth == old(self).depth,
    {
        self.operations.push(operation);
    }
}

impl RangeLoop {
    /// A loop over a fresh scope nested in `parent`, whose first local is the
    /// loop index.
    pub fn new(parent: &Scope, start: Variable, end: Variable) -> (r: RangeLoop)
        requires
            parent.depth < u8::MAX,
        ensures
            r.scope.depth == parent.depth + 1,
            r.i == next_local((parent.depth + 1) as u8, 0, Item::Scalar(Elem::UInt)),
            r.scope.locals@ == seq![r.i],
            r.scope.operations@.len() == 0,
            r.start == start,
            r.end == end,
    {
        let mut scope = parent.child();
        let i = scope.create_local(Item::Scalar(Elem::UInt));
        assert(scope.locals@ =~= seq![i]);
        RangeLoop { i, start, end, scope }
    }
}

} // verus!

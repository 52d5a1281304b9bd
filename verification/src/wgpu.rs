//! Kernel settings, graphics APIs, and the metadata handed to compute kernels.
use vstd::prelude::*;
use vstd::string::*;
use std::marker::PhantomData;
use crate::tensor::Device;

verus! {

/// The layout of a tensor on a device: its dimensions and its strides.
#[derive(Debug)]
pub struct WgpuTensor {
    pub shape: Vec<usize>,
    pub strides: Vec<usize>,
    pub device: Device,
}

/// The values, each truncated to 32 bits.
pub open spec fn to_u32s(v: Seq<usize>) -> Seq<u32> {
    Seq::new(v.len(), |i: int| v[i] as u32)
}

/// The strides of the tensors, one tensor after the other.
pub open spec fn all_strides(tensors: Seq<WgpuTensor>) -> Seq<u32>
    decreases tensors.len(),
{
    if tensors.len() == 0 {
        Seq::empty()
    } else {
        all_strides(tensors.drop_last()) + to_u32s(tensors.last().strides@)
    }
}

/// The dimensions of the tensors, one tensor after the other.
pub open spec fn all_shapes(tensors: Seq<WgpuTensor>) -> Seq<u32>
    decreases tensors.len(),
{
    if tensors.len() == 0 {
        Seq::empty()
    } else {
        all_shapes(tensors.drop_last()) + to_u32s(tensors.last().shape@)
    }
}

/// The metadata of tensors of rank `rank`: the rank, then the strides of each
/// tensor, then the dimensions of each tensor.
pub open spec fn info_of(tensors: Seq<WgpuTensor>, rank: usize) -> Seq<u32> {
    seq![rank as u32] + all_strides(tensors) + all_shapes(tensors)
}

/// Every tensor has `rank` dimensions and strides.
pub open spec fn has_rank(tensors: Seq<WgpuTensor>, rank: usize) -> bool {
    forall|t: int|
        0 <= t < tensors.len() ==> (#[trigger] tensors[t]).shape@.len() == rank
            && tensors[t].strides@.len() == rank
}

/// The strides of the tensors come one tensor after the other: stride `d` of
/// tensor `t` stands at `t * rank + d`.
proof fn lemma_all_strides(tensors: Seq<WgpuTensor>, rank: usize)
    requires
        has_rank(tensors, rank),
    ensures
        all_strides(tensors).len() == tensors.len() * rank,
        forall|t: int, d: int|
            0 <= t < tensors.len() && 0 <= d < rank ==> all_strides(tensors)[t * rank + d]
                == #[trigger] tensors[t].strides@[d] as u32,
    decreases tensors.len(),
{
    if tensors.len() == 0 {
        assert(tensors.len() * rank == 0);
    } else {
        let n = tensors.len() as int;
        let prev = tensors.drop_last();
        assert forall|t: int| 0 <= t < prev.len() implies (#[trigger] prev[t]).shape@.len() == rank
            && prev[t].strides@.len() == rank by {
            assert(prev[t] == tensors[t]);
        }
        lemma_all_strides(prev, rank);
        let a = all_strides(prev);
        assert(tensors[n - 1].shape@.len() == rank && tensors[n - 1].strides@.len() == rank);
        assert(all_strides(tensors) == a + to_u32s(tensors.last().strides@));
        let last = tensors.last();
        assert(a.len() + rank == n * rank) by (nonlinear_arith)
            requires
                a.len() == (n - 1) * rank,
        ;
        assert forall|t: int, d: int| 0 <= t < n && 0 <= d < rank implies all_strides(tensors)[t * rank + d]
            == #[trigger] tensors[t].strides@[d] as u32 by {
            if t < n - 1 {
                assert(t * rank + d < (n - 1) * rank) by (nonlinear_arith)
                    requires
                        0 <= t < n - 1,
                        0 <= d < rank,
                ;
                assert(0 <= t * rank) by (nonlinear_arith)
                    requires
                        0 <= t,
                ;
                assert(prev[t] == tensors[t]);
            } else {
                assert(t * rank + d == a.len() + d);
            }
        }
    }
}

/// The dimensions of the tensors come one tensor after the other: dimension
/// `d` of tensor `t` stands at `t * rank + d`.
proof fn lemma_all_shapes(tensors: Seq<WgpuTensor>, rank: usize)
    requires
        has_rank(tensors, rank),
    ensures
        all_shapes(tensors).len() == tensors.len() * rank,
        forall|t: int, d: int|
            0 <= t < tensors.len() && 0 <= d < rank ==> all_shapes(tensors)[t * rank + d]
                == #[trigger] tensors[t].shape@[d] as u32,
    decreases tensors.len(),
{
    if tensors.len() == 0 {
        assert(tensors.len() * rank == 0);
    } else {
        let n = tensors.len() as int;
        let prev = tensors.drop_last();
        assert forall|t: int| 0 <= t < prev.len() implies (#[trigger] prev[t]).shape@.len() == rank
            && prev[t].strides@.len() == rank by {
            assert(prev[t] == tensors[t]);
        }
        lemma_all_shapes(prev, rank);
        let a = all_shapes(prev);
        assert(tensors[n - 1].shape@.len() == rank && tensors[n - 1].strides@.len() == rank);
        assert(all_shapes(tensors) == a + to_u32s(tensors.last().shape@));
        assert(a.len() + rank == n * rank) by (nonlinear_arith)
            requires
                a.len() == (n - 1) * rank,
        ;
        assert forall|t: int, d: int| 0 <= t < n && 0 <= d < rank implies all_shapes(tensors)[t * rank + d]
            == #[trigger] tensors[t].shape@[d] as u32 by {
            if t < n - 1 {
                assert(t * rank + d < (n - 1) * rank) by (nonlinear_arith)
                    requires
                        0 <= t < n - 1,
                        0 <= d < rank,
                ;
                assert(0 <= t * rank) by (nonlinear_arith)
                    requires
                        0 <= t,
                ;
                assert(prev[t] == tensors[t]);
            } else {
                assert(t * rank + d == a.len() + d);
            }
        }
    }
}

/// The metadata of tensors of rank `rank`, position by position: the rank
/// first; then stride `d` of tensor `t` at `1 + t * rank + d`, the tensors
/// in the order given; then dimension `d` of tensor `t` at
/// `1 + (n + t) * rank + d`, with `n` the number of tensors.
pub proof fn law_info_positions(tensors: Seq<WgpuTensor>, rank: usize)
    requires
        has_rank(tensors, rank),
    ensures
        info_of(tensors, rank).len() == 1 + 2 * tensors.len() * rank,
        info_of(tensors, rank)[0] == rank as u32,
        forall|t: int, d: int|
            0 <= t < tensors.len() && 0 <= d < rank ==> info_of(tensors, rank)[1 + t * rank + d]
                == #[trigger] tensors[t].strides@[d] as u32,
        forall|t: int, d: int|
            0 <= t < tensors.len() && 0 <= d < rank ==> info_of(tensors, rank)[1 + (tensors.len()
                + t) * rank + d] == #[trigger] tensors[t].shape@[d] as u32,
{
    lemma_all_strides(tensors, rank);
    lemma_all_shapes(tensors, rank);
    let n = tensors.len() as int;
    let s = all_strides(tensors);
    let h = all_shapes(tensors);
    let info = info_of(tensors, rank);
    assert(info == seq![rank as u32] + s + h);
    assert(1 + n * rank + n * rank == 1 + 2 * n * rank) by (nonlinear_arith);
    assert forall|t: int, d: int| 0 <= t < n && 0 <= d < rank implies info[1 + t * rank + d]
        == #[trigger] tensors[t].strides@[d] as u32 by {
        assert(0 <= t * rank + d < n * rank) by (nonlinear_arith)
            requires
                0 <= t < n,
                0 <= d < rank,
        ;
    }
    assert forall|t: int, d: int| 0 <= t < n && 0 <= d < rank implies info[1 + (n + t) * rank + d]
        == #[trigger] tensors[t].shape@[d] as u32 by {
        assert((n + t) * rank + d == n * rank + (t * rank + d)) by (nonlinear_arith);
        assert(0 <= t * rank + d < n * rank) by (nonlinear_arith)
            requires
                0 <= t < n,
                0 <= d < rank,
        ;
    }
}

/// Push the values of `v`, each truncated to 32 bits.
fn push_u32s(info: &mut Vec<u32>, v: &Vec<usize>)
    ensures
        final(info)@ == old(info)@ + to_u32s(v@),
{
    let ghost start = info@;
    let mut d: usize = 0;
    while d < v.len()
        invariant
            d <= v@.len(),
            info@ == start + to_u32s(v@.take(d as int)),
        decreases v@.len() - d,
    {
        info.push(v[d] as u32);
        d = d + 1;
        assert(info@ =~= start + to_u32s(v@.take(d as int)));
    }
    assert(v@.take(v@.len() as int) =~= v@);
}

/// Create a vector containing the dimension, strides and shape of tensors.
///
/// With two tensors (lhs, rhs): the rank, the strides of lhs, the strides of
/// rhs, the shape of lhs, the shape of rhs.
pub fn build_info(tensors: &Vec<&WgpuTensor>, rank: usize) -> (info: Vec<u32>)
    requires
        has_rank(tensors@.map_values(|t: &WgpuTensor| *t), rank),
    ensures
        info@ == info_of(tensors@.map_values(|t: &WgpuTensor| *t), rank),
        info@.len() == 1 + 2 * tensors@.len() * rank,
        info@[0] == rank as u32,
        forall|t: int, d: int|
            0 <= t < tensors@.len() && 0 <= d < rank ==> info@[1 + t * rank + d]
                == #[trigger] tensors@[t].strides@[d] as u32,
        forall|t: int, d: int|
            0 <= t < tensors@.len() && 0 <= d < rank ==> info@[1 + (tensors@.len() + t) * rank + d]
                == #[trigger] tensors@[t].shape@[d] as u32,
{
    let ghost ts = tensors@.map_values(|t: &WgpuTensor| *t);
    let mut info: Vec<u32> = Vec::new();
    info.push(rank as u32);
    let mut t: usize = 0;
    while t < tensors.len()
        invariant
            t <= tensors@.len(),
            ts == tensors@.map_values(|t: &WgpuTensor| *t),
            info@ == seq![rank as u32] + all_strides(ts.take(t as int)),
        decreases tensors@.len() - t,
    {
        push_u32s(&mut info, &tensors[t].strides);
        proof {
            assert(ts.take(t + 1).drop_last() =~= ts.take(t as int));
        }
        t = t + 1;
    }
    let ghost after_strides = info@;
    assert(ts.take(t as int) =~= ts);
    let mut t: usize = 0;
    while t < tensors.len()
        invariant
            t <= tensors@.len(),
            ts == tensors@.map_values(|t: &WgpuTensor| *t),
            after_strides == seq![rank as u32] + all_strides(ts),
            info@ == after_strides + all_shapes(ts.take(t as int)),
        decreases tensors@.len() - t,
    {
        push_u32s(&mut info, &tensors[t].shape);
        proof {
            assert(ts.take(t + 1).drop_last() =~= ts.take(t as int));
        }
        t = t + 1;
    }
    assert(ts.take(t as int) =~= ts);
    proof {
        law_info_positions(ts, rank);
        assert forall|t: int, d: int| 0 <= t < tensors@.len() && 0 <= d < rank implies info@[1 + t * rank + d]
            == #[trigger] tensors@[t].strides@[d] as u32 by {
            assert(ts[t] == *tensors@[t]);
            assert(info@[1 + t * rank + d] == ts[t].strides@[d] as u32);
        }
        assert forall|t: int, d: int| 0 <= t < tensors@.len() && 0 <= d < rank implies info@[1 + (
        tensors@.len() + t) * rank + d] == #[trigger] tensors@[t].shape@[d] as u32 by {
            assert(ts[t] == *tensors@[t]);
            assert(info@[1 + (ts.len() + t) * rank + d] == ts[t].shape@[d] as u32);
        }
    }
    info
}

/// The dimensions of the output of an element-wise operation: the larger of
/// the two dimensions, dimension by dimension.
pub open spec fn broadcast_shape(lhs: Seq<usize>, rhs: Seq<usize>) -> Seq<usize> {
    Seq::new(lhs.len(), |i: int| if lhs[i] >= rhs[i] { lhs[i] } else { rhs[i] })
}

/// Whether every value fits in 32 bits.
pub open spec fn fits_u32(v: Seq<usize>) -> bool {
    forall|i: int| 0 <= i < v.len() ==> #[trigger] v[i] <= u32::MAX
}

/// The output dimensions of an element-wise operation on two tensors of the
/// same rank on the same device.
pub fn binary_elemwise_shape(lhs: &WgpuTensor, rhs: &WgpuTensor) -> (r: Vec<usize>)
    requires
        lhs.shape@.len() == rhs.shape@.len(),
    ensures
        r@ == broadcast_shape(lhs.shape@, rhs.shape@),
{
    let mut r: Vec<usize> = Vec::new();
    let mut i: usize = 0;
    while i < lhs.shape.len()
        invariant
            i <= lhs.shape@.len(),
            lhs.shape@.len() == rhs.shape@.len(),
            r@ == broadcast_shape(lhs.shape@, rhs.shape@).take(i as int),
        decreases lhs.shape@.len() - i,
    {
        let a = lhs.shape[i];
        let b = rhs.shape[i];
        r.push(if a >= b { a } else { b });
        i = i + 1;
        assert(r@ =~= broadcast_shape(lhs.shape@, rhs.shape@).take(i as int));
    }
    assert(broadcast_shape(lhs.shape@, rhs.shape@).take(i as int) =~= broadcast_shape(
        lhs.shape@,
        rhs.shape@,
    ));
    r
}

/// The product of the dimensions from position `i` on.
pub open spec fn size_from(shape: Seq<usize>, i: int) -> int
    decreases shape.len() - i,
{
    if i < 0 || i >= shape.len() {
        1
    } else {
        shape[i] * size_from(shape, i + 1)
    }
}

/// The strides of a contiguous tensor of dimensions `shape`: each the product
/// of the dimensions after it. `None` when one of them does not fit in a
/// `usize`.
pub fn contiguous_strides(shape: &Vec<usize>) -> (r: Option<Vec<usize>>)
    ensures
        match r {
            Some(strides) => strides@.len() == shape@.len() && forall|i: int|
                0 <= i < shape@.len() ==> strides@[i] == size_from(shape@, i + 1),
            None => exists|i: int| 1 <= i <= shape@.len() && #[trigger] size_from(shape@, i) > usize::MAX,
        },
{
    let n = shape.len();
    let mut strides: Vec<usize> = Vec::new();
    let mut k: usize = 0;
    while k < n
        invariant
            k <= n,
            n == shape@.len(),
            strides@.len() == k,
            forall|j: int| 0 <= j < k ==> strides@[j] == 1,
        decreases n - k,
    {
        strides.push(1);
        k = k + 1;
    }
    if n == 0 {
        return Some(strides);
    }
    let mut i: usize = n - 1;
    while i > 0
        invariant
            i < n,
            n == shape@.len(),
            strides@.len() == n,
            forall|j: int| i <= j < n ==> strides@[j] == size_from(shape@, j + 1),
        decreases i,
    {
        match strides[i].checked_mul(shape[i]) {
            Some(s) => {
                strides.set(i - 1, s);
                i = i - 1;
            },
            None => {
                assert(size_from(shape@, i as int) == shape@[i as int] * size_from(shape@, i + 1));
                assert(strides@[i as int] * shape@[i as int] == shape@[i as int] * strides@[i as int]) by (nonlinear_arith);
                return None;
            },
        }
    }
    Some(strides)
}

/// The metadata of an element-wise operation: the rank, the strides of lhs
/// and rhs, the dimensions of lhs and rhs; every value must fit in 32 bits.
pub fn binary_elemwise_info(lhs: &WgpuTensor, rhs: &WgpuTensor) -> (info: Vec<u32>)
    requires
        lhs.device == rhs.device,
        lhs.shape@.len() == lhs.strides@.len(),
        rhs.shape@.len() == lhs.shape@.len(),
        rhs.strides@.len() == lhs.shape@.len(),
        lhs.shape@.len() <= u32::MAX,
        fits_u32(lhs.strides@),
        fits_u32(rhs.strides@),
        fits_u32(lhs.shape@),
        fits_u32(rhs.shape@),
    ensures
        info@ == seq![lhs.shape@.len() as u32] + to_u32s(lhs.strides@) + to_u32s(rhs.strides@)
            + to_u32s(lhs.shape@) + to_u32s(rhs.shape@),
{
    let mut info: Vec<u32> = Vec::new();
    info.push(lhs.shape.len() as u32);
    push_u32s(&mut info, &lhs.strides);
    push_u32s(&mut info, &rhs.strides);
    push_u32s(&mut info, &lhs.shape);
    push_u32s(&mut info, &rhs.shape);
    info
}

/// The metadata of an in-place element-wise operation: the rank, the strides
/// of rhs, the dimensions of rhs; every value must fit in 32 bits.
pub fn binary_elemwise_inplace_info(lhs: &WgpuTensor, rhs: &WgpuTensor) -> (info: Vec<u32>)
    requires
        lhs.device == rhs.device,
        rhs.shape@.len() == lhs.shape@.len(),
        rhs.strides@.len() == lhs.shape@.len(),
        lhs.shape@.len() <= u32::MAX,
        fits_u32(rhs.strides@),
        fits_u32(rhs.shape@),
    ensures
        info@ == seq![lhs.shape@.len() as u32] + to_u32s(rhs.strides@) + to_u32s(rhs.shape@),
{
    let mut info: Vec<u32> = Vec::new();
    info.push(lhs.shape.len() as u32);
    push_u32s(&mut info, &rhs.strides);
    push_u32s(&mut info, &rhs.shape);
    info
}

/// The graphics backends a device may use.
#[derive(Clone, Copy, Debug, PartialEq, Eq, Structural)]
pub enum GraphicsBackend {
    Vulkan,
    Metal,
    Gl,
    Dx11,
    Dx12,
    BrowserWebGpu,
}

/// A graphics API: its identifier and its backend.
pub trait GraphicsAPI {
    fn id() -> u32;

    fn backend() -> GraphicsBackend;
}

#[derive(Default, Debug, Clone)]
pub struct Vulkan;

#[derive(Default, Debug, Clone)]
pub struct Metal;

#[derive(Default, Debug, Clone)]
pub struct OpenGL;

#[derive(Default, Debug, Clone)]
pub struct Dx11;

#[derive(Default, Debug, Clone)]
pub struct Dx12;

#[derive(Default, Debug, Clone)]
pub struct WebGPU;

impl GraphicsAPI for Vulkan {
    fn id() -> (r: u32)
        ensures
            r == 1,
    {
        1
    }

    fn backend() -> (r: GraphicsBackend)
        ensures
            r == GraphicsBackend::Vulkan,
    {
        GraphicsBackend::Vulkan
    }
}

impl GraphicsAPI for Metal {
    fn id() -> (r: u32)
        ensures
            r == 2,
    {
        2
    }

    fn backend() -> (r: GraphicsBackend)
        ensures
            r == GraphicsBackend::Metal,
    {
        GraphicsBackend::Metal
    }
}

impl GraphicsAPI for OpenGL {
    fn id() -> (r: u32)
        ensures
            r == 3,
    {
        3
    }

    fn backend() -> (r: GraphicsBackend)
        ensures
            r == GraphicsBackend::Gl,
    {
        GraphicsBackend::Gl
    }
}

impl GraphicsAPI for Dx11 {
    fn id() -> (r: u32)
        ensures
            r == 4,
    {
        4
    }

    fn backend() -> (r: GraphicsBackend)
        ensures
            r == GraphicsBackend::Dx11,
    {
        GraphicsBackend::Dx11
    }
}

impl GraphicsAPI for Dx12 {
    fn id() -> (r: u32)
        ensures
            r == 5,
    {
        5
    }

    fn backend() -> (r: GraphicsBackend)
        ensures
            r == GraphicsBackend::Dx12,
    {
        GraphicsBackend::Dx12
    }
}

impl GraphicsAPI for WebGPU {
    fn id() -> (r: u32)
        ensures
            r == 6,
    {
        6
    }

    fn backend() -> (r: GraphicsBackend)
        ensures
            r == GraphicsBackend::BrowserWebGpu,
    {
        GraphicsBackend::BrowserWebGpu
    }
}

/// A kernel source and the values to substitute in it, by name, in the order
/// they were registered.
pub struct SourceTemplate {
    pub source: String,
    pub names: Vec<String>,
    pub values: Vec<String>,
}

/// The text of each string.
pub open spec fn texts(v: Seq<String>) -> Seq<Seq<char>> {
    v.map_values(|t: String| t@)
}

/// A kernel source and its substitutions, as text.
pub struct SourceTemplateView {
    pub source: Seq<char>,
    pub names: Seq<Seq<char>>,
    pub values: Seq<Seq<char>>,
}

impl View for SourceTemplate {
    type V = SourceTemplateView;

    open spec fn view(&self) -> SourceTemplateView {
        SourceTemplateView {
            source: self.source@,
            names: texts(self.names@),
            values: texts(self.values@),
        }
    }
}

impl SourceTemplate {
    /// A template with nothing registered.
    pub fn new(source: String) -> (r: Self)
        ensures
            r@ == (SourceTemplateView { source: source@, names: seq![], values: seq![] }),
    {
        let r = SourceTemplate { source, names: Vec::new(), values: Vec::new() };
        assert(r@.names =~= seq![]);
        assert(r@.values =~= seq![]);
        r
    }

    /// Register the value substituted for `name`.
    pub fn register(self, name: String, value: String) -> (r: Self)
        ensures
            r@ == (SourceTemplateView {
                source: self@.source,
                names: self@.names.push(name@),
                values: self@.values.push(value@),
            }),
    {
        let mut r = self;
        r.names.push(name);
        r.values.push(value);
        assert(r@.names =~= self@.names.push(name@));
        assert(r@.values =~= self@.values.push(value@));
        r
    }
}

/// The name of an element type in kernel sources.
pub trait WgpuElement {
    /// The name.
    spec fn name_spec() -> Seq<char>;

    fn elem_name() -> (r: String)
        ensures
            r@ == Self::name_spec(),
    ;
}

impl WgpuElement for i32 {
    open spec fn name_spec() -> Seq<char> {
        "i32"@
    }

    fn elem_name() -> (r: String) {
        "i32".to_owned()
    }
}

impl WgpuElement for u32 {
    open spec fn name_spec() -> Seq<char> {
        "u32"@
    }

    fn elem_name() -> (r: String) {
        "u32".to_owned()
    }
}

/// Generate kernel source code from a fixed template.
pub trait StaticKernelGenerator {
    /// The template of the kernel.
    spec fn template() -> SourceTemplateView;

    /// Generate the source code.
    fn source() -> (r: SourceTemplate)
        ensures
            r@ == Self::template(),
    ;
}

/// Generate kernel source code from a template and settings known when it
/// runs.
pub trait DynamicKernelGenerator {
    /// Generate the source code.
    fn source(self) -> SourceTemplate;
}

/// Generate kernel source code by replacing some information using templating.
pub struct KernelSettings<
    K,
    E,
    I,
    const WORKGROUP_X_SIZE: usize,
    const WORKGROUP_Y_SIZE: usize,
    const WORKGROUP_Z_SIZE: usize,
> {
    pub _k: PhantomData<K>,
    pub _e: PhantomData<E>,
    pub _i: PhantomData<I>,
}

/// The names registered by kernel settings, in order.
pub open spec fn settings_names() -> Seq<Seq<char>> {
    seq![
        "workgroup_size_x"@,
        "workgroup_size_y"@,
        "workgroup_size_z"@,
        "elem"@,
        "int"@,
    ]
}

/// The template `base` with the settings registered after its own values:
/// the three workgroup sizes, in decimal, the element type and the integer
/// type.
pub open spec fn with_settings(
    base: SourceTemplateView,
    x: nat,
    y: nat,
    z: nat,
    elem: Seq<char>,
    integer: Seq<char>,
) -> SourceTemplateView {
    SourceTemplateView {
        source: base.source,
        names: base.names + settings_names(),
        values: base.values + seq![decimal(x), decimal(y), decimal(z), elem, integer],
    }
}

/// The character of the decimal digit `d`.
pub open spec fn digit_char(d: nat) -> char {
    if d == 0 {
        '0'
    } else if d == 1 {
        '1'
    } else if d == 2 {
        '2'
    } else if d == 3 {
        '3'
    } else if d == 4 {
        '4'
    } else if d == 5 {
        '5'
    } else if d == 6 {
        '6'
    } else if d == 7 {
        '7'
    } else if d == 8 {
        '8'
    } else {
        '9'
    }
}

/// The decimal writing of `n`, without leading zeros.
pub open spec fn decimal(n: nat) -> Seq<char>
    decreases n,
{
    if n < 10 {
        seq![digit_char(n)]
    } else {
        decimal(n / 10).push(digit_char(n % 10))
    }
}

/// The decimal digit `d`, written.
fn digit_str(d: usize) -> (r: &'static str)
    requires
        d < 10,
    ensures
        r@ == seq![digit_char(d as nat)],
{
    proof {
        reveal_strlit("0");
        reveal_strlit("1");
        reveal_strlit("2");
        reveal_strlit("3");
        reveal_strlit("4");
        reveal_strlit("5");
        reveal_strlit("6");
        reveal_strlit("7");
        reveal_strlit("8");
        reveal_strlit("9");
    }
    if d == 0 {
        "0"
    } else if d == 1 {
        "1"
    } else if d == 2 {
        "2"
    } else if d == 3 {
        "3"
    } else if d == 4 {
        "4"
    } else if d == 5 {
        "5"
    } else if d == 6 {
        "6"
    } else if d == 7 {
        "7"
    } else if d == 8 {
        "8"
    } else {
        "9"
    }
}

/// The decimal writing of `n`, as `usize`'s `to_string` gives it.
pub fn decimal_string(n: usize) -> (r: String)
    ensures
        r@ == decimal(n as nat),
    decreases n,
{
    if n < 10 {
        let mut s = String::new();
        s.append(digit_str(n));
        assert(s@ =~= decimal(n as nat));
        s
    } else {
        let mut s = decimal_string(n / 10);
        s.append(digit_str(n % 10));
        assert(s@ =~= decimal(n as nat));
        s
    }
}

fn register_settings(
    base: SourceTemplate,
    x: usize,
    y: usize,
    z: usize,
    elem: String,
    integer: String,
) -> (r: SourceTemplate)
    ensures
        r@ == with_settings(base@, x as nat, y as nat, z as nat, elem@, integer@),
{
    let ghost b = base@;
    proof {
        reveal_strlit("workgroup_size_x");
        reveal_strlit("workgroup_size_y");
        reveal_strlit("workgroup_size_z");
        reveal_strlit("elem");
        reveal_strlit("int");
    }
    let r = base.register("workgroup_size_x".to_owned(), decimal_string(x)).register(
        "workgroup_size_y".to_owned(),
        decimal_string(y),
    ).register("workgroup_size_z".to_owned(), decimal_string(z)).register("elem".to_owned(), elem).register(
        "int".to_owned(),
        integer,
    );
    assert(r@.names =~= b.names + settings_names());
    assert(r@.values =~= b.values + seq![
        decimal(x as nat),
        decimal(y as nat),
        decimal(z as nat),
        elem@,
        integer@,
    ]);
    r
}

impl<
    K: StaticKernelGenerator,
    E: WgpuElement,
    I: WgpuElement,
    const WORKGROUP_X_SIZE: usize,
    const WORKGROUP_Y_SIZE: usize,
    const WORKGROUP_Z_SIZE: usize,
> KernelSettings<K, E, I, WORKGROUP_X_SIZE, WORKGROUP_Y_SIZE, WORKGROUP_Z_SIZE> {
    /// The source of `K` with the workgroup sizes and the element types
    /// registered.
    pub fn source() -> (r: SourceTemplate)
        ensures
            r@ == with_settings(
                K::template(),
                WORKGROUP_X_SIZE as nat,
                WORKGROUP_Y_SIZE as nat,
                WORKGROUP_Z_SIZE as nat,
                E::name_spec(),
                I::name_spec(),
            ),
    {
        let base = K::source();
        register_settings(
            base,
            WORKGROUP_X_SIZE,
            WORKGROUP_Y_SIZE,
            WORKGROUP_Z_SIZE,
            E::elem_name(),
            I::elem_name(),
        )
    }
}

/// Generate kernel source code by replacing some information using templating,
/// with workgroup sizes known when it runs.
pub struct DynamicKernelSettings<K, E, I> {
    pub workgroup_x_size: usize,
    pub workgroup_y_size: usize,
    pub workgroup_z_size: usize,
    pub _k: PhantomData<K>,
    pub _e: PhantomData<E>,
    pub _i: PhantomData<I>,
}

impl<K, E, I> DynamicKernelSettings<K, E, I> {
    pub fn new(workgroup_x_size: usize, workgroup_y_size: usize, workgroup_z_size: usize) -> (r: Self)
        ensures
            r.workgroup_x_size == workgroup_x_size,
            r.workgroup_y_size == workgroup_y_size,
            r.workgroup_z_size == workgroup_z_size,
    {
        DynamicKernelSettings {
            workgroup_x_size,
            workgroup_y_size,
            workgroup_z_size,
            _k: PhantomData,
            _e: PhantomData,
            _i: PhantomData,
        }
    }
}

impl<K: StaticKernelGenerator, E: WgpuElement, I: WgpuElement> DynamicKernelGenerator for DynamicKernelSettings<
    K,
    E,
    I,
> {
    /// The source of `K` with the workgroup sizes and the element types
    /// registered.
    fn source(self) -> (r: SourceTemplate)
        ensures
            r@ == with_settings(
                K::template(),
                self.workgroup_x_size as nat,
                self.workgroup_y_size as nat,
                self.workgroup_z_size as nat,
                E::name_spec(),
                I::name_spec(),
            ),
    {
        register_settings(
            K::source(),
            self.workgroup_x_size,
            self.workgroup_y_size,
            self.workgroup_z_size,
            E::elem_name(),
            I::elem_name(),
        )
    }
}

/// Key for all autotune-enabled operations.
#[derive(Hash, Eq, PartialEq, Debug, Clone)]
pub enum WgpuAutotuneKey<M, R> {
    /// Key for matmul operation.
    Matmul(M),
    /// Key for reduce operations.
    Reduce(R),
}

/// The number of invocations of a workgroup along each axis.
#[derive(Debug, Clone, Copy, PartialEq, Eq, Structural)]
pub struct WorkGroupSize {
    pub x: u32,
    pub y: u32,
    pub z: u32,
}

/// How a kernel template is rendered: the workgroup size, and the element
/// and integer types it is written for.
#[derive(Debug, Clone)]
pub struct RenderOptions {
    pub workgroup_size: WorkGroupSize,
    pub elem: Option<String>,
    pub int: Option<String>,
}

/// A binary element-wise kernel, made from its render options.
pub trait BinaryElemwiseOps: Sized {
    fn template(options: RenderOptions) -> Self;
}

/// The render options of a binary element-wise kernel on elements `E`:
/// workgroups of 256 invocations, and no integer type.
pub fn binary_elemwise_options<E: WgpuElement>() -> (r: RenderOptions)
    ensures
        r.workgroup_size == (WorkGroupSize { x: 256, y: 1, z: 1 }),
        r.elem matches Some(e) && e@ == E::name_spec(),
        r.int is None,
{
    RenderOptions { workgroup_size: WorkGroupSize { x: 256, y: 1, z: 1 }, elem: Some(E::elem_name()), int: None }
}

} // verus!

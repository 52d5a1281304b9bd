//! Dense tensors: a shape, the values in row-major order, and a device.
use vstd::prelude::*;

verus! {

/// The device a tensor lives on.
#[derive(Clone, Copy, Debug, PartialEq, Eq, Structural)]
pub struct Device {
    pub index: usize,
}

/// The number of elements of a tensor of the given dimensions.
pub open spec fn shape_size(dims: Seq<usize>) -> nat
    decreases dims.len(),
{
    if dims.len() == 0 {
        1
    } else {
        shape_size(dims.drop_last()) * (dims.last() as nat)
    }
}

/// Every partial product of the dimensions, taken from the first, fits in a
/// `usize`.
pub open spec fn shape_fits(dims: Seq<usize>) -> bool {
    forall|k: int| 0 <= k <= dims.len() ==> #[trigger] shape_size(dims.take(k)) <= usize::MAX
}

/// The number of elements of a tensor of the given dimensions.
pub fn num_elements(dims: &Vec<usize>) -> (r: usize)
    requires
        shape_fits(dims@),
    ensures
        r == shape_size(dims@),
{
    let mut r: usize = 1;
    let mut k: usize = 0;
    while k < dims.len()
        invariant
            k <= dims@.len(),
            r == shape_size(dims@.take(k as int)),
            shape_fits(dims@),
        decreases dims@.len() - k,
    {
        proof {
            assert(dims@.take(k + 1).drop_last() =~= dims@.take(k as int));
            assert(shape_size(dims@.take(k + 1)) <= usize::MAX);
        }
        r = r * dims[k];
        k = k + 1;
    }
    assert(dims@.take(dims@.len() as int) =~= dims@);
    r
}

/// A copy of a sequence of copyable values.
pub fn copy_vec<E: Copy>(v: &Vec<E>) -> (r: Vec<E>)
    ensures
        r@ == v@,
{
    let mut r: Vec<E> = Vec::new();
    let mut k: usize = 0;
    while k < v.len()
        invariant
            k <= v@.len(),
            r@ == v@.take(k as int),
        decreases v@.len() - k,
    {
        r.push(v[k]);
        k = k + 1;
        assert(r@ =~= v@.take(k as int));
    }
    assert(v@.take(v@.len() as int) =~= v@);
    r
}

/// The serializable content of a tensor: its values and its shape.
#[derive(Debug)]
pub struct Data<E> {
    pub value: Vec<E>,
    pub shape: Vec<usize>,
}

/// A tensor: its dimensions, its values in row-major order, its device.
#[derive(Debug)]
pub struct Tensor<E> {
    pub shape: Vec<usize>,
    pub values: Vec<E>,
    pub device: Device,
}

pub struct TensorView<E> {
    pub shape: Seq<usize>,
    pub values: Seq<E>,
    pub device: Device,
}

impl<E> View for Tensor<E> {
    type V = TensorView<E>;

    open spec fn view(&self) -> TensorView<E> {
        TensorView { shape: self.shape@, values: self.values@, device: self.device }
    }
}

/// A tensor whose number of values is that of its shape.
pub open spec fn well_shaped<E>(t: TensorView<E>) -> bool {
    t.values.len() == shape_size(t.shape)
}

impl<E: Copy> Tensor<E> {
    /// A copy of this tensor.
    pub fn duplicate(&self) -> (r: Self)
        ensures
            r@ == self@,
    {
        Tensor { shape: copy_vec(&self.shape), values: copy_vec(&self.values), device: self.device }
    }

    /// The dimensions of this tensor.
    pub fn dims(&self) -> (r: Vec<usize>)
        ensures
            r@ == self.shape@,
    {
        copy_vec(&self.shape)
    }

    /// The device of this tensor.
    pub fn device(&self) -> (r: Device)
        ensures
            r == self.device,
    {
        self.device
    }

    /// The same values on another device.
    pub fn to_device(self, device: Device) -> (r: Self)
        ensures
            r@ == (TensorView { device, ..self@ }),
    {
        Tensor { shape: self.shape, values: self.values, device }
    }

    /// The data of this tensor.
    pub fn to_data(&self) -> (r: Data<E>)
        ensures
            r.value@ == self.values@,
            r.shape@ == self.shape@,
    {
        Data { value: copy_vec(&self.values), shape: copy_vec(&self.shape) }
    }

    /// The tensor holding the given data on the given device.
    pub fn from_data_device(data: Data<E>, device: Device) -> (r: Self)
        ensures
            r@ == (TensorView { shape: data.shape@, values: data.value@, device }),
    {
        Tensor { shape: data.shape, values: data.value, device }
    }
}

/// The element-wise sums of two sequences of the same length.
pub open spec fn add_values(a: Seq<i64>, b: Seq<i64>) -> Seq<i64> {
    Seq::new(a.len(), |i: int| (a[i] + b[i]) as i64)
}

/// Two sequences whose element-wise sums fit.
pub open spec fn sums_fit(a: Seq<i64>, b: Seq<i64>) -> bool {
    &&& a.len() == b.len()
    &&& forall|i: int| 0 <= i < a.len() ==> i64::MIN <= #[trigger] a[i] + b[i] <= i64::MAX
}

/// The tensor of ones of the given shape and device.
pub open spec fn ones_view(shape: Seq<usize>, device: Device) -> TensorView<i64> {
    TensorView { shape, values: Seq::new(shape_size(shape), |i: int| 1i64), device }
}

impl Tensor<i64> {
    /// A tensor of the given shape filled with ones.
    pub fn ones(shape: &Vec<usize>, device: Device) -> (r: Self)
        requires
            shape_fits(shape@),
        ensures
            r@ == ones_view(shape@, device),
    {
        let n = num_elements(shape);
        let mut values: Vec<i64> = Vec::new();
        let mut k: usize = 0;
        while k < n
            invariant
                k <= n,
                values@.len() == k,
                forall|i: int| 0 <= i < k ==> values@[i] == 1i64,
            decreases n - k,
        {
            values.push(1);
            k = k + 1;
        }
        let r = Tensor { shape: copy_vec(shape), values, device };
        assert(r.values@ =~= Seq::new(shape_size(shape@), |i: int| 1i64));
        r
    }

    /// The element-wise sum of two tensors of the same shape; the shape and the
    /// device are those of `self`.
    pub fn add(&self, other: &Self) -> (r: Self)
        requires
            sums_fit(self.values@, other.values@),
        ensures
            r@ == (TensorView { values: add_values(self.values@, other.values@), ..self@ }),
    {
        let mut values: Vec<i64> = Vec::new();
        let mut k: usize = 0;
        while k < self.values.len()
            invariant
                k <= self.values@.len(),
                sums_fit(self.values@, other.values@),
                values@ == add_values(self.values@, other.values@).take(k as int),
            decreases self.values@.len() - k,
        {
            let a = self.values[k];
            let b = other.values[k];
            values.push(a + b);
            k = k + 1;
            assert(values@ =~= add_values(self.values@, other.values@).take(k as int));
        }
        assert(add_values(self.values@, other.values@).take(k as int) =~= add_values(
            self.values@,
            other.values@,
        ));
        Tensor { shape: copy_vec(&self.shape), values, device: self.device }
    }
}

} // verus!

//! Tensors that record the operations applied to them.
use vstd::prelude::*;
use crate::tensor::{copy_vec, Data, Tensor, TensorView};

verus! {

/// The forward node of a tensor: its identifier, its order in the graph and
/// its value.
#[derive(Debug)]
pub struct ForwardNodeRef<E> {
    pub id: u64,
    pub order: usize,
    pub value: Tensor<E>,
}

/// Marker of the kind of an autodiff tensor.
#[derive(Clone, Copy, Debug, PartialEq, Eq, Structural)]
pub struct ADKind;

/// A tensor with the node that records how it was computed.
#[derive(Debug)]
pub struct ADTensor<E> {
    pub node: ForwardNodeRef<E>,
    pub shape: Vec<usize>,
    pub kind: ADKind,
}

impl<E: Copy> ADTensor<E> {
    /// A tensor that starts a graph: its node, of order zero, holds a copy of
    /// the tensor. Node identifiers are drawn at random by the graph, so the
    /// caller passes the one drawn.
    pub fn from_tensor(tensor: Tensor<E>, id: u64) -> (r: Self)
        ensures
            r.node.id == id,
            r.node.order == 0,
            r.node.value@ == tensor@,
            r.shape@ == tensor.shape@,
    {
        let shape = copy_vec(&tensor.shape);
        let node = ForwardNodeRef { id, order: 0, value: tensor };
        ADTensor { node, shape, kind: ADKind }
    }

    /// A tensor with the shape and kind of this one, and another node.
    pub fn from_existing(&self, node: ForwardNodeRef<E>) -> (r: Self)
        ensures
            r.node == node,
            r.shape@ == self.shape@,
            r.kind == self.kind,
    {
        let shape = copy_vec(&self.shape);
        let kind = self.kind;
        ADTensor { node, shape, kind }
    }

    /// The value of this tensor.
    pub fn tensor(&self) -> (r: Tensor<E>)
        ensures
            r@ == self.node.value@,
    {
        self.node.value.duplicate()
    }

    /// The shape of this tensor.
    pub fn shape(&self) -> (r: &Vec<usize>)
        ensures
            r@ == self.shape@,
    {
        &self.shape
    }

    /// The data of this tensor's value.
    pub fn to_data(&self) -> (r: Data<E>)
        ensures
            r.value@ == self.node.value.values@,
            r.shape@ == self.node.value.shape@,
    {
        self.tensor().to_data()
    }

    /// The data of this tensor's value, consuming it.
    pub fn into_data(self) -> (r: Data<E>)
        ensures
            r.value@ == self.node.value.values@,
            r.shape@ == self.node.value.shape@,
    {
        self.tensor().to_data()
    }
}

} // verus!

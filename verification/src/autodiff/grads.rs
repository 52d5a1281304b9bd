//! The gradients gathered during a backward pass, by node.
use vstd::prelude::*;
use std::collections::HashMap;
use crate::tensor::{add_values, ones_view, shape_fits, sums_fit, Tensor, TensorView};
use crate::autodiff::tensor::ADTensor;

verus! {

broadcast use vstd::std_specs::hash::group_hash_axioms;

/// Whether, and until when, a node's gradient is kept.
#[derive(Clone, Copy, Debug, PartialEq, Eq, Structural)]
pub enum Requirement {
    /// The gradient is kept after the backward pass.
    Grad,
    /// The gradient is only needed during the backward pass.
    GradInBackward,
    /// The node is not tracked.
    NotTracked,
}

/// What the gradients know of a node.
#[derive(Clone, Copy, Debug, PartialEq, Eq, Structural)]
pub struct NodeRef {
    pub id: u64,
    pub requirement: Requirement,
}

/// Gradients container used during the backward pass.
pub struct Gradients {
    container: HashMap<u64, Tensor<i64>>,
}

impl View for Gradients {
    type V = Map<u64, TensorView<i64>>;

    closed spec fn view(&self) -> Map<u64, TensorView<i64>> {
        self.container@.map_values(|t: Tensor<i64>| t@)
    }
}

/// The gradient registered for a node that already has `old`: the sum of the
/// new value and the old one.
pub open spec fn accumulated(value: TensorView<i64>, old: TensorView<i64>) -> TensorView<i64> {
    TensorView { values: add_values(value.values, old.values), ..value }
}

/// The gradients after registering `value` for `id`.
pub open spec fn registered(
    grads: Map<u64, TensorView<i64>>,
    id: u64,
    value: TensorView<i64>,
) -> Map<u64, TensorView<i64>> {
    if grads.contains_key(id) {
        grads.insert(id, accumulated(value, grads[id]))
    } else {
        grads.insert(id, value)
    }
}

impl Gradients {
    /// The gradients of a backward pass from `root_node`: the root's gradient
    /// is a tensor of ones of the root tensor's shape.
    pub fn new(root_node: NodeRef, root_tensor: &Tensor<i64>) -> (r: Self)
        requires
            shape_fits(root_tensor.shape@),
        ensures
            r@ == Map::<u64, TensorView<i64>>::empty().insert(
                root_node.id,
                ones_view(root_tensor.shape@, root_tensor.device),
            ),
    {
        let mut gradients = Gradients { container: HashMap::new() };
        proof {
            assert(gradients@ =~= Map::<u64, TensorView<i64>>::empty());
        }
        gradients.register(root_node, Tensor::ones(&root_tensor.shape, root_tensor.device));
        proof {
            assert(gradients@ =~= Map::<u64, TensorView<i64>>::empty().insert(
                root_node.id,
                ones_view(root_tensor.shape@, root_tensor.device),
            ));
        }
        gradients
    }

    /// Consume the gradient for a given node: with [`Requirement::Grad`] the
    /// gradient stays, with [`Requirement::GradInBackward`] it is removed.
    ///
    /// Each tensor should be consumed exactly 1 time if its gradient is only required during the
    /// backward pass.
    pub fn consume(&mut self, node: &NodeRef) -> (r: Tensor<i64>)
        requires
            node.requirement != Requirement::NotTracked,
            old(self)@.contains_key(node.id),
        ensures
            r@ == old(self)@[node.id],
            node.requirement == Requirement::Grad ==> final(self)@ == old(self)@,
            node.requirement == Requirement::GradInBackward ==> final(self)@ == old(self)@.remove(
                node.id,
            ),
    {
        match node.requirement {
            Requirement::Grad => {
                let t = self.container.get(&node.id).unwrap();
                t.duplicate()
            },
            _ => {
                let t = self.container.remove(&node.id).unwrap();
                proof {
                    assert(self@ =~= old(self)@.remove(node.id));
                }
                t
            },
        }
    }

    /// The gradient of a tensor, when one was registered.
    pub fn get<E>(&self, tensor: &ADTensor<E>) -> (r: Option<Tensor<i64>>)
        ensures
            match r {
                Some(t) => self@.contains_key(tensor.node.id) && t@ == self@[tensor.node.id],
                None => !self@.contains_key(tensor.node.id),
            },
    {
        match self.container.get(&tensor.node.id) {
            Some(t) => Some(t.duplicate()),
            None => None,
        }
    }

    /// Register a gradient for a node; a gradient already registered for it is
    /// added to the new one.
    pub fn register(&mut self, node: NodeRef, value: Tensor<i64>)
        requires
            old(self)@.contains_key(node.id) ==> sums_fit(
                value.values@,
                old(self)@[node.id].values,
            ),
        ensures
            final(self)@ == registered(old(self)@, node.id, value@),
    {
        match self.container.remove(&node.id) {
            Some(tensor_old) => {
                let sum = value.add(&tensor_old);
                self.container.insert(node.id, sum);
                proof {
                    assert(self@ =~= registered(old(self)@, node.id, value@));
                }
            },
            None => {
                self.container.insert(node.id, value);
                proof {
                    assert(self@ =~= registered(old(self)@, node.id, value@));
                }
            },
        }
    }
}

/// Registering a gradient for a node that has none makes it the node's
/// gradient; registering one for a node that has one adds the two; the other
/// nodes keep what they had.
pub proof fn law_register(
    grads: Map<u64, TensorView<i64>>,
    id: u64,
    value: TensorView<i64>,
    other: u64,
)
    requires
        other != id,
    ensures
        registered(grads, id, value).contains_key(id),
        !grads.contains_key(id) ==> registered(grads, id, value)[id] == value,
        grads.contains_key(id) ==> registered(grads, id, value)[id].values == add_values(
            value.values,
            grads[id].values,
        ),
        registered(grads, id, value).contains_key(other) == grads.contains_key(other),
        grads.contains_key(other) ==> registered(grads, id, value)[other] == grads[other],
{
}

/// Two gradients registered for a node that had none add up.
pub proof fn law_register_twice(
    grads: Map<u64, TensorView<i64>>,
    id: u64,
    first: TensorView<i64>,
    second: TensorView<i64>,
)
    requires
        !grads.contains_key(id),
    ensures
        registered(registered(grads, id, first), id, second)[id].values == add_values(
            second.values,
            first.values,
        ),
{
}

} // verus!

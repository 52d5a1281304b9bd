use burn::autodiff::grads::{Gradients, NodeRef, Requirement};
use burn::autodiff::graph::{BackwardNode, ForwardNode, Graph, GraphNode, StepCall, StepTrace};
use burn::autodiff::tensor::{ADTensor, ForwardNodeRef};
use burn::tensor::{Device, Tensor};

fn t(shape: Vec<usize>, values: Vec<i64>) -> Tensor<i64> {
    Tensor { shape, values, device: Device { index: 0 } }
}

#[test]
fn root_gradient_is_ones_of_the_root_shape() {
    let root = NodeRef { id: 7, requirement: Requirement::Grad };
    let mut grads = Gradients::new(root, &t(vec![2, 3], vec![9; 6]));
    let g = grads.consume(&root);
    assert_eq!(g.shape, vec![2, 3]);
    assert_eq!(g.values, vec![1i64; 6]);
}

#[test]
fn registered_gradients_accumulate() {
    let root = NodeRef { id: 1, requirement: Requirement::Grad };
    let mut grads = Gradients::new(root, &t(vec![1], vec![0]));
    let node = NodeRef { id: 2, requirement: Requirement::GradInBackward };
    grads.register(node, t(vec![3], vec![1, 2, 3]));
    grads.register(node, t(vec![3], vec![10, 20, 30]));
    let g = grads.consume(&node);
    assert_eq!(g.values, vec![11i64, 22, 33]);
}

#[test]
fn consumed_gradient_in_backward_is_removed() {
    let root = NodeRef { id: 1, requirement: Requirement::Grad };
    let mut grads = Gradients::new(root, &t(vec![2], vec![0, 0]));
    let node = NodeRef { id: 5, requirement: Requirement::GradInBackward };
    grads.register(node, t(vec![2], vec![4, 5]));
    let tensor = ADTensor::from_tensor(t(vec![2], vec![0, 0]), 5);
    assert!(grads.get(&tensor).is_some());
    let g = grads.consume(&node);
    assert_eq!(g.values, vec![4i64, 5]);
    assert!(grads.get(&tensor).is_none());
}

#[test]
fn consumed_gradient_that_is_kept_stays() {
    let root = NodeRef { id: 3, requirement: Requirement::Grad };
    let mut grads = Gradients::new(root, &t(vec![2], vec![5, 5]));
    let first = grads.consume(&root);
    let second = grads.consume(&root);
    assert_eq!(first.values, second.values);
    let tensor = ADTensor::from_tensor(t(vec![2], vec![5, 5]), 3);
    assert_eq!(grads.get(&tensor).unwrap().values, vec![1i64, 1]);
}

#[test]
fn gradient_of_an_unknown_tensor_is_none() {
    let root = NodeRef { id: 3, requirement: Requirement::Grad };
    let grads = Gradients::new(root, &t(vec![1], vec![5]));
    let tensor = ADTensor::from_tensor(t(vec![1], vec![5]), 4);
    assert!(grads.get(&tensor).is_none());
}

#[test]
fn autodiff_tensor_keeps_its_value() {
    let a = ADTensor::from_tensor(t(vec![2, 2], vec![1, 2, 3, 4]), 11);
    assert_eq!(a.node.id, 11);
    assert_eq!(a.node.order, 0);
    assert_eq!(a.shape(), &vec![2usize, 2]);
    assert_eq!(a.tensor().values, vec![1i64, 2, 3, 4]);
    let data = a.to_data();
    assert_eq!(data.value, vec![1i64, 2, 3, 4]);
    assert_eq!(data.shape, vec![2usize, 2]);
    let b = a.from_existing(ForwardNodeRef { id: 12, order: 1, value: t(vec![2, 2], vec![0, 0, 0, 0]) });
    assert_eq!(b.node.id, 12);
    assert_eq!(b.shape, vec![2usize, 2]);
    assert_eq!(b.into_data().value, vec![0i64; 4]);
}

fn node(id: u64, order: usize, parents: Vec<usize>) -> GraphNode {
    GraphNode { id, order, parents }
}

#[test]
fn backward_runs_children_before_parents() {
    let graph = Graph {
        nodes: vec![
            node(10, 0, vec![]),
            node(11, 0, vec![]),
            node(12, 1, vec![0, 1]),
            node(13, 2, vec![2, 0]),
        ],
    };
    let root = BackwardNode::from_node(&ForwardNode {
        id: 14,
        order: 3,
        parents: vec![3, 2],
        value: t(vec![2], vec![5, 6]),
    });
    assert_eq!(root.parents, vec![3, 2]);
    assert_eq!(root.value.values, vec![5i64, 6]);
    assert!(root.grad.is_none());
    assert_eq!(root.schedule(&graph), vec![3usize, 2]);
}

#[test]
fn backward_visits_each_node_once() {
    let graph = Graph {
        nodes: vec![
            node(0, 0, vec![]),
            node(1, 1, vec![0]),
            node(2, 1, vec![0]),
            node(3, 2, vec![1, 2]),
            node(4, 3, vec![3, 1]),
        ],
    };
    let root = BackwardNode { id: 5, order: 4, parents: vec![4, 3, 1], value: t(vec![1], vec![0]), grad: None };
    let schedule = root.schedule(&graph);
    assert_eq!(schedule.len(), 4);
    assert_eq!(schedule[0], 4);
    assert_eq!(schedule[1], 3);
    let mut last_two = vec![schedule[2], schedule[3]];
    last_two.sort();
    assert_eq!(last_two, vec![1, 2]);
}

#[test]
fn backward_of_leaves_only_is_empty() {
    let graph = Graph { nodes: vec![node(0, 0, vec![]), node(1, 0, vec![])] };
    let root = BackwardNode { id: 2, order: 1, parents: vec![0, 1], value: t(vec![1], vec![0]), grad: None };
    assert!(root.schedule(&graph).is_empty());
}

#[test]
fn backward_sets_ones_then_steps_root_and_each_node_once() {
    let graph = Graph {
        nodes: vec![
            node(10, 0, vec![]),
            node(11, 0, vec![]),
            node(12, 1, vec![0, 1]),
            node(13, 2, vec![2, 0]),
        ],
    };
    let mut root = BackwardNode::from_node(&ForwardNode {
        id: 14,
        order: 3,
        parents: vec![3, 2],
        value: t(vec![2, 2], vec![7, 8, 9, 10]),
    });
    let mut ops = StepTrace::new();
    let stepped = root.backward(&graph, &mut ops);
    assert_eq!(root.grad.as_ref().unwrap().values, vec![1i64; 4]);
    assert_eq!(root.grad.as_ref().unwrap().shape, vec![2usize, 2]);
    assert_eq!(stepped, vec![3usize, 2]);
    assert_eq!(ops.calls.len(), 3);
    match &ops.calls[0] {
        StepCall::Root(g) => assert_eq!(g.values, vec![1i64; 4]),
        StepCall::Node(_) => panic!("the root steps first"),
    }
    assert!(matches!(ops.calls[1], StepCall::Node(3)));
    assert!(matches!(ops.calls[2], StepCall::Node(2)));
}

#[test]
fn backward_runs_nodes_of_one_order_in_the_order_found() {
    let graph = Graph { nodes: vec![node(0, 1, vec![]), node(1, 1, vec![])] };
    let root = BackwardNode { id: 2, order: 2, parents: vec![0, 1], value: t(vec![1], vec![0]), grad: None };
    assert_eq!(root.schedule(&graph), vec![1usize, 0]);

    let graph = Graph {
        nodes: vec![
            node(0, 0, vec![]),
            node(1, 1, vec![0]),
            node(2, 1, vec![0]),
            node(3, 2, vec![1, 2]),
            node(4, 3, vec![3, 1]),
        ],
    };
    let root = BackwardNode { id: 5, order: 4, parents: vec![4, 3, 1], value: t(vec![1], vec![0]), grad: None };
    assert_eq!(root.schedule(&graph), vec![4usize, 3, 1, 2]);
}

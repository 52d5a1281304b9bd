use burn::fusion::{OptimizationItem, StreamOptimizations, TensorOpsDescription};

fn ops(code: u64) -> TensorOpsDescription {
    TensorOpsDescription { code }
}

fn item(stream: Vec<u64>, value: &str) -> OptimizationItem<String> {
    OptimizationItem {
        stream: stream.into_iter().map(ops).collect(),
        end_conditions: Vec::new(),
        value: value.to_string(),
    }
}

#[test]
fn added_optimizations_are_found_by_their_first_operation() {
    let mut optims: StreamOptimizations<String> = StreamOptimizations::new();
    assert!(optims.find_starting_with(&ops(1)).is_empty());
    let a = optims.add(item(vec![1, 2], "a"));
    let b = optims.add(item(vec![3], "b"));
    let c = optims.add(item(vec![1, 4, 5], "c"));
    assert_eq!((a, b, c), (0, 1, 2));
    assert_eq!(optims.find_starting_with(&ops(1)), vec![0, 2]);
    assert_eq!(optims.find_starting_with(&ops(3)), vec![1]);
    assert!(optims.find_starting_with(&ops(2)).is_empty());
    assert_eq!(optims.get_unchecked(2).value, "c");
}

#[test]
fn end_conditions_are_appended() {
    let mut optims: StreamOptimizations<u32> = StreamOptimizations::new();
    let id = optims.add(OptimizationItem { stream: vec![ops(8)], end_conditions: Vec::new(), value: 1 });
    optims.add_end_condition(id, ops(9));
    optims.add_end_condition(id, ops(10));
    assert_eq!(optims.get_unchecked(id).end_conditions, vec![ops(9), ops(10)]);
    assert_eq!(optims.find_starting_with(&ops(8)), vec![0]);
}

#[test]
fn optimization_can_be_changed_in_place() {
    let mut optims: StreamOptimizations<u32> = StreamOptimizations::new();
    let id = optims.add(OptimizationItem { stream: vec![ops(1)], end_conditions: Vec::new(), value: 1 });
    optims.get_mut_unchecked(id).value = 42;
    assert_eq!(optims.get_unchecked(id).value, 42);
}

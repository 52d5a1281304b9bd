use burn::ndarray_shape::{batch_matmul_shape, batch_pairs, batch_size, matmul_shape, reshape_dims};
use burn::tensor::num_elements;

#[test]
fn batch_size_is_the_product_of_the_leading_dimensions() {
    assert_eq!(batch_size(&vec![2, 3, 4, 5]), 6);
    assert_eq!(batch_size(&vec![4, 5]), 1);
}

#[test]
fn tensors_are_viewed_as_batches_of_matrices() {
    assert_eq!(reshape_dims(&vec![7]), vec![1, 1, 7]);
    assert_eq!(reshape_dims(&vec![3, 4]), vec![1, 3, 4]);
    assert_eq!(reshape_dims(&vec![2, 3, 4, 5]), vec![6, 4, 5]);
}

#[test]
fn product_shape_takes_rows_of_lhs_and_columns_of_rhs() {
    assert_eq!(matmul_shape(&vec![2, 3], &vec![3, 4]), vec![2, 4]);
    assert_eq!(matmul_shape(&vec![5, 2, 3], &vec![1, 3, 4]), vec![5, 2, 4]);
    assert_eq!(matmul_shape(&vec![1, 2, 3], &vec![5, 3, 4]), vec![5, 2, 4]);
}

#[test]
fn number_of_elements() {
    assert_eq!(num_elements(&vec![2, 3, 4]), 24);
    assert_eq!(num_elements(&vec![]), 1);
    assert_eq!(num_elements(&vec![3, 0]), 0);
}

#[test]
fn batches_of_the_same_size_pair_up() {
    assert_eq!(batch_pairs(3, 3), vec![(0, 0), (1, 1), (2, 2)]);
    assert_eq!(batch_pairs(0, 0), vec![]);
}

#[test]
fn a_single_matrix_is_broadcast() {
    assert_eq!(batch_pairs(1, 3), vec![(0, 0), (0, 1), (0, 2)]);
    assert_eq!(batch_pairs(2, 1), vec![(0, 0), (1, 0)]);
    assert_eq!(batch_pairs(1, 1), vec![(0, 0)]);
}

#[test]
fn batched_product_keeps_lhs_dimensions_but_the_last() {
    assert_eq!(batch_matmul_shape(&vec![4, 2, 3], &vec![4, 3, 7]), vec![4, 2, 7]);
    assert_eq!(batch_matmul_shape(&vec![5], &vec![9]), vec![9]);
}

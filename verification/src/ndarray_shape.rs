//! The shapes of batched matrix products on dense arrays.
use vstd::prelude::*;
use crate::tensor::{shape_size, shape_fits};

verus! {

/// The number of matrices of a tensor: the product of all its dimensions but
/// the last two.
pub fn batch_size(dims: &Vec<usize>) -> (r: usize)
    requires
        dims@.len() >= 2,
        shape_fits(dims@.take(dims@.len() - 2)),
    ensures
        r == shape_size(dims@.take(dims@.len() - 2)),
{
    let n = dims.len() - 2;
    let ghost batch = dims@.take(n as int);
    let mut num_batch: usize = 1;
    let mut i: usize = 0;
    while i < n
        invariant
            n == dims@.len() - 2,
            i <= n,
            batch == dims@.take(n as int),
            shape_fits(batch),
            num_batch == shape_size(batch.take(i as int)),
        decreases n - i,
    {
        proof {
            assert(batch.take(i + 1).drop_last() =~= batch.take(i as int));
            assert(shape_size(batch.take(i + 1)) <= usize::MAX);
        }
        num_batch = num_batch * dims[i];
        i = i + 1;
    }
    assert(batch.take(n as int) =~= batch);
    num_batch
}

/// The three dimensions a tensor is viewed with for a batched product: one
/// row of its only dimension, or its batch size and its two last dimensions.
pub open spec fn matrix_dims(dims: Seq<usize>) -> Seq<usize> {
    if dims.len() < 2 {
        seq![1, 1, dims[0]]
    } else {
        seq![
            shape_size(dims.take(dims.len() - 2)) as usize,
            dims[dims.len() - 2],
            dims[dims.len() - 1],
        ]
    }
}

/// The three dimensions a tensor is reshaped to for a batched product.
pub fn reshape_dims(dims: &Vec<usize>) -> (r: Vec<usize>)
    requires
        dims@.len() >= 1,
        dims@.len() >= 2 ==> shape_fits(dims@.take(dims@.len() - 2)),
    ensures
        r@ == matrix_dims(dims@),
{
    let mut r: Vec<usize> = Vec::new();
    if dims.len() < 2 {
        r.push(1);
        r.push(1);
        r.push(dims[0]);
    } else {
        let batch = batch_size(dims);
        let d = dims.len();
        r.push(batch);
        r.push(dims[d - 2]);
        r.push(dims[d - 1]);
    }
    assert(r@ =~= matrix_dims(dims@));
    r
}

/// The dimensions of the product of `lhs` by `rhs`: those of the operand with
/// the larger batch (of `rhs` on a tie), with the rows of `lhs` and the columns
/// of `rhs` last.
pub open spec fn matmul_dims(lhs: Seq<usize>, rhs: Seq<usize>) -> Seq<usize> {
    let l = matrix_dims(lhs);
    let r = matrix_dims(rhs);
    let base = if l[0] > r[0] { lhs } else { rhs };
    base.update(base.len() - 2, l[1]).update(base.len() - 1, r[2])
}

/// The dimensions of the product of two tensors of the same rank, at least two.
pub fn matmul_shape(lhs: &Vec<usize>, rhs: &Vec<usize>) -> (r: Vec<usize>)
    requires
        lhs@.len() >= 2,
        rhs@.len() == lhs@.len(),
        shape_fits(lhs@.take(lhs@.len() - 2)),
        shape_fits(rhs@.take(rhs@.len() - 2)),
    ensures
        r@ == matmul_dims(lhs@, rhs@),
{
    let l = reshape_dims(lhs);
    let r = reshape_dims(rhs);
    let batch_size_lhs = l[0];
    let m = l[1];
    let batch_size_rhs = r[0];
    let n = r[2];
    let mut shape_out = if batch_size_lhs > batch_size_rhs {
        crate::tensor::copy_vec(lhs)
    } else {
        crate::tensor::copy_vec(rhs)
    };
    let d = shape_out.len();
    shape_out.set(d - 2, m);
    shape_out.set(d - 1, n);
    shape_out
}

/// The matrices multiplied for the `b`-th product of a batch: an operand
/// holding a single matrix is broadcast to every product.
pub open spec fn batch_pair(lhs_batches: nat, rhs_batches: nat, b: int) -> (usize, usize) {
    (
        if lhs_batches == 1 { 0 } else { b as usize },
        if rhs_batches == 1 { 0 } else { b as usize },
    )
}

/// The pairs of matrices multiplied by a batched product of `lhs_batches`
/// matrices by `rhs_batches` matrices: with as many matrices on each side,
/// the matrices of the same position; otherwise one side holds a single
/// matrix, which is broadcast, and there are as many products as matrices on
/// the other side.
pub fn batch_pairs(lhs_batches: usize, rhs_batches: usize) -> (pairs: Vec<(usize, usize)>)
    requires
        lhs_batches == rhs_batches || (lhs_batches == 1 && rhs_batches > 0) || (rhs_batches == 1
            && lhs_batches > 0),
    ensures
        pairs@.len() == if lhs_batches >= rhs_batches { lhs_batches } else { rhs_batches },
        forall|b: int|
            0 <= b < pairs@.len() ==> #[trigger] pairs@[b] == batch_pair(
                lhs_batches as nat,
                rhs_batches as nat,
                b,
            ),
        forall|b: int|
            0 <= b < pairs@.len() ==> (#[trigger] pairs@[b]).0 < lhs_batches && pairs@[b].1
                < rhs_batches,
{
    let batch_size = if lhs_batches >= rhs_batches { lhs_batches } else { rhs_batches };
    let mut pairs: Vec<(usize, usize)> = Vec::new();
    let mut b: usize = 0;
    while b < batch_size
        invariant
            b <= batch_size,
            batch_size == if lhs_batches >= rhs_batches { lhs_batches } else { rhs_batches },
            pairs@.len() == b,
            forall|k: int|
                0 <= k < b ==> #[trigger] pairs@[k] == batch_pair(
                    lhs_batches as nat,
                    rhs_batches as nat,
                    k,
                ),
        decreases batch_size - b,
    {
        let l = if lhs_batches == 1 { 0 } else { b };
        let r = if rhs_batches == 1 { 0 } else { b };
        pairs.push((l, r));
        b = b + 1;
    }
    pairs
}

/// The dimensions of a batched product of matrices: those of `lhs`, with the
/// columns of `rhs` last.
pub fn batch_matmul_shape(lhs: &Vec<usize>, rhs: &Vec<usize>) -> (r: Vec<usize>)
    requires
        lhs@.len() >= 1,
        rhs@.len() == lhs@.len(),
    ensures
        r@ == lhs@.update(lhs@.len() - 1, rhs@[rhs@.len() - 1]),
{
    let mut shape = crate::tensor::copy_vec(lhs);
    let d = shape.len();
    shape.set(d - 1, rhs[d - 1]);
    shape
}

} // verus!

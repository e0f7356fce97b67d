//! Sequential dense multiplication: the reference inner-product definition
//! that both entry points are held to.
//!
//! The product's cell `(i, j)` is the dot product of row `i` of the left
//! operand and column `j` of the right operand, accumulated in index order
//! `k = 0, 1, ...` starting from `+0.0` (bit pattern zero) — the accumulation
//! order is part of the definition, since double addition does not
//! reassociate.

use crate::matrix::Matrix;
use crate::matrix::MatrixError;
use crate::matrix::MatrixView;
use crate::scalar::dbl_add;
use crate::scalar::dbl_add_bits;
use crate::scalar::dbl_mul;
use crate::scalar::dbl_mul_bits;
use vstd::arithmetic::div_mod::lemma_fundamental_div_mod_converse;
use vstd::prelude::*;

verus! {

/// The first `k` terms of the dot product of row `i` of `a` and column `j`
/// of `b`, folded left from the pattern of `+0.0` in index order.
pub open spec fn dot_prefix(a: MatrixView, b: MatrixView, i: int, j: int, k: int) -> u64
    decreases k,
{
    if k <= 0 {
        0u64
    } else {
        dbl_add_bits(
            dot_prefix(a, b, i, j, k - 1),
            dbl_mul_bits(a.entry(i, k - 1), b.entry(k - 1, j)),
        )
    }
}

/// The full dot product defining the product's cell `(i, j)`.
pub open spec fn cell_bits(a: MatrixView, b: MatrixView, i: int, j: int) -> u64 {
    dot_prefix(a, b, i, j, a.cols as int)
}

/// The product matrix: shape `(a.rows, b.cols)`, each cell the dot product
/// of the matching row and column.
pub open spec fn spec_multiply(a: MatrixView, b: MatrixView) -> MatrixView {
    MatrixView {
        rows: a.rows,
        cols: b.cols,
        data: Seq::new(
            a.rows * b.cols,
            |e: int| cell_bits(a, b, e / b.cols as int, e % b.cols as int),
        ),
    }
}

/// Row-major index arithmetic: cell `(i, j)` of a matrix with `c` columns
/// sits at flat index `i * c + j`, and that index decomposes back to
/// `(i, j)`.
pub proof fn lemma_row_major(c: int, i: int, j: int)
    requires
        0 < c,
        0 <= i,
        0 <= j < c,
    ensures
        (i * c + j) / c == i,
        (i * c + j) % c == j,
{
    lemma_fundamental_div_mod_converse(i * c + j, c, i, j);
}

/// Flat indices within an `r` by `c` matrix stay below `r * c`.
pub proof fn lemma_flat_index_bound(r: int, c: int, i: int, j: int)
    requires
        0 <= i < r,
        0 <= j < c,
    ensures
        0 <= i * c + j < r * c,
{
    assert(0 <= i * c + j < r * c) by (nonlinear_arith)
        requires
            0 <= i < r,
            0 <= j < c,
    ;
}

/// The dot product of row `i` of `a` and column `j` of `b`, accumulated in
/// index order.
pub(crate) fn dot(a: &Matrix, b: &Matrix, i: usize, j: usize) -> (r: u64)
    requires
        a@.wf(),
        b@.wf(),
        a@.cols == b@.rows,
        i < a@.rows,
        j < b@.cols,
    ensures
        r == cell_bits(a@, b@, i as int, j as int),
{
    let inner = a.shape().1;
    let bcols = b.shape().1;
    let mut sum: u64 = 0;
    for k in 0..inner
        invariant
            a@.wf(),
            b@.wf(),
            a@.cols == b@.rows,
            i < a@.rows,
            j < b@.cols,
            inner == a@.cols,
            bcols == b@.cols,
            sum == dot_prefix(a@, b@, i as int, j as int, k as int),
    {
        proof {
            a.lemma_data_bounded();
            b.lemma_data_bounded();
            lemma_flat_index_bound(a@.rows as int, a@.cols as int, i as int, k as int);
            lemma_flat_index_bound(b@.rows as int, b@.cols as int, k as int, j as int);
        }
        let left = a.entry_at(i * inner + k);
        let right = b.entry_at(k * bcols + j);
        sum = dbl_add(sum, dbl_mul(left, right));
    }
    sum
}

/// Sequential multiplication: the single-threaded triple loop, rejecting
/// operands whose inner dimensions differ.
pub fn multiply(a: &Matrix, b: &Matrix) -> (r: Result<Matrix, MatrixError>)
    requires
        a@.wf(),
        b@.wf(),
        a@.rows * b@.cols <= usize::MAX,
    ensures
        r is Ok <==> a@.cols == b@.rows,
        r matches Ok(c) ==> c@ == spec_multiply(a@, b@) && c@.wf(),
        r matches Ok(c) ==> c@.rows == a@.rows && c@.cols == b@.cols,
        r is Err ==> r == Err::<Matrix, MatrixError>(MatrixError::DimensionMismatch),
{
    let a_shape = a.shape();
    let b_shape = b.shape();
    if a_shape.1 != b_shape.0 {
        return Err(MatrixError::DimensionMismatch);
    }
    let crows = a_shape.0;
    let ccols = b_shape.1;
    let ghost product = spec_multiply(a@, b@);
    proof {
        assert(crows * ccols == product.data.len());
    }
    let mut data: Vec<u64> = Vec::new();
    for i in 0..crows
        invariant
            a@.wf(),
            b@.wf(),
            a@.cols == b@.rows,
            crows == a@.rows,
            ccols == b@.cols,
            crows * ccols <= usize::MAX,
            product == spec_multiply(a@, b@),
            data@.len() == i * ccols,
            forall|e: int| 0 <= e < data@.len() ==> data@[e] == product.data[e],
    {
        for j in 0..ccols
            invariant
                a@.wf(),
                b@.wf(),
                a@.cols == b@.rows,
                i < crows,
                crows == a@.rows,
                ccols == b@.cols,
                crows * ccols <= usize::MAX,
                product == spec_multiply(a@, b@),
                data@.len() == i * ccols + j,
                forall|e: int| 0 <= e < data@.len() ==> data@[e] == product.data[e],
        {
            proof {
                lemma_flat_index_bound(crows as int, ccols as int, i as int, j as int);
                lemma_row_major(ccols as int, i as int, j as int);
            }
            let value = dot(a, b, i, j);
            data.push(value);
            proof {
                assert(data@[i * ccols + j] == product.data[i * ccols + j]);
            }
        }
        proof {
            assert((i + 1) * ccols == i * ccols + ccols) by (nonlinear_arith);
        }
    }
    let m = Matrix::from_parts(crows, ccols, data);
    proof {
        assert(m@.data =~= product.data);
        assert(m@ =~= product);
    }
    Ok(m)
}

} // verus!

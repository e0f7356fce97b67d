//! The parallel multiply engine: partitions the output cells into contiguous
//! ranges, hands one worker to each range, and collects every worker's
//! partial results into the output buffer before returning.
//!
//! Both input matrices are shared read-only across all workers — no worker
//! ever sees a mutable alias. Each worker computes the cells of its own
//! range with the same inner-product definition as the sequential path; the
//! collector then writes each partial result at its row-major position, one
//! writer filling disjoint ranges, so every cell is written exactly once
//! before the caller observes the result. The fan-out call returns only
//! after every worker has finished; a worker failure re-raises in the caller
//! rather than leaving zero-filled cells behind.

use crate::matrix::Matrix;
use crate::matrix::MatrixError;
use crate::matrix::MatrixView;
use crate::multiply::cell_bits;
use crate::multiply::dot;
use crate::multiply::multiply;
use crate::multiply::spec_multiply;
use crate::partition::lemma_partition_chain;
use crate::partition::partition;
use crate::partition::partition_chain;
use rayon::iter::IndexedParallelIterator;
use rayon::iter::IntoParallelRefIterator;
use rayon::iter::ParallelIterator;
use vstd::arithmetic::div_mod::lemma_fundamental_div_mod;
use vstd::arithmetic::div_mod::lemma_mod_pos_bound;
use vstd::prelude::*;

verus! {

/// One partial result: the value of exactly one output cell, produced by
/// exactly one worker.
#[derive(Clone, Copy)]
pub(crate) struct MatrixElement {
    pub(crate) row: usize,
    pub(crate) col: usize,
    pub(crate) value: u64,
}

/// A partial result is correct for flat output index `e`: it names the cell
/// `(e / cols, e % cols)` and carries that cell's dot product.
pub(crate) open spec fn elem_ok(a: MatrixView, b: MatrixView, e: int, el: MatrixElement) -> bool {
    &&& el.row == e / b.cols as int
    &&& el.col == e % b.cols as int
    &&& el.value == cell_bits(a, b, el.row as int, el.col as int)
}

/// A worker's whole output is correct for the range `[start, end)`: one
/// partial result per cell, in range order.
pub(crate) open spec fn range_results_ok(
    a: MatrixView,
    b: MatrixView,
    start: int,
    end: int,
    ret: Vec<MatrixElement>,
) -> bool {
    &&& ret@.len() == end - start
    &&& forall|idx: int| 0 <= idx < ret@.len() ==> elem_ok(a, b, start + idx, #[trigger] ret@[idx])
}

/// The output cells settled once the first `t` ranges have been collected:
/// everything before the end of range `t - 1`.
pub(crate) open spec fn covered_upto(ranges: Seq<(usize, usize)>, t: int) -> int {
    if t <= 0 {
        0
    } else {
        ranges[t - 1].1 as int
    }
}

/// A worker's job: the partial results for every flat output index in
/// `[start, end)`, in order.
pub(crate) fn compute_range(a: &Matrix, b: &Matrix, start: usize, end: usize) -> (out: Vec<
    MatrixElement,
>)
    requires
        a@.wf(),
        b@.wf(),
        a@.cols == b@.rows,
        start <= end,
        end <= a@.rows * b@.cols,
    ensures
        range_results_ok(a@, b@, start as int, end as int, out),
{
    let ccols = b.shape().1;
    let mut out: Vec<MatrixElement> = Vec::new();
    for e in start..end
        invariant
            a@.wf(),
            b@.wf(),
            a@.cols == b@.rows,
            ccols == b@.cols,
            start <= e <= end,
            end <= a@.rows * b@.cols,
            out@.len() == e - start,
            forall|idx: int|
                0 <= idx < out@.len() ==> elem_ok(a@, b@, start as int + idx, #[trigger] out@[idx]),
    {
        proof {
            if ccols == 0 {
                assert(a@.rows * b@.cols == 0) by (nonlinear_arith)
                    requires
                        b@.cols == 0,
                ;
            }
        }
        let row = e / ccols;
        let col = e % ccols;
        proof {
            lemma_fundamental_div_mod(e as int, ccols as int);
            lemma_mod_pos_bound(e as int, ccols as int);
            assert(row < a@.rows) by (nonlinear_arith)
                requires
                    e < a@.rows * b@.cols,
                    ccols == b@.cols,
                    e as int == ccols as int * row as int + col as int,
                    0 <= col < ccols,
                    0 <= row,
            ;
        }
        let value = dot(a, b, row, col);
        out.push(MatrixElement { row, col, value });
    }
    out
}

/// Relies on rayon's `par_iter().map(..).collect()` over a `Vec`: the
/// collected vector has one element per range, in the ranges' order, and
/// each element is what the mapped call returns for its range — here the
/// verified worker `compute_range`, whose contract therefore holds of every
/// element. Workers read the two matrices concurrently through shared
/// references; a worker panic is re-raised by `collect` in the caller.
#[verifier::external_body]
fn run_workers(a: &Matrix, b: &Matrix, ranges: &Vec<(usize, usize)>) -> (out: Vec<
    Vec<MatrixElement>,
>)
    requires
        a@.wf(),
        b@.wf(),
        a@.cols == b@.rows,
        forall|t: int|
            0 <= t < ranges@.len() ==> (#[trigger] ranges@[t]).0 <= ranges@[t].1 <= a@.rows
                * b@.cols,
    ensures
        out@.len() == ranges@.len(),
        forall|t: int|
            0 <= t < out@.len() ==> range_results_ok(
                a@,
                b@,
                ranges@[t].0 as int,
                ranges@[t].1 as int,
                #[trigger] out@[t],
            ),
{
    ranges.par_iter().map(|rg| compute_range(a, b, rg.0, rg.1)).collect()
}

/// Parallel multiplication: the same result as the sequential path, computed
/// by one worker per partition range over shared read-only inputs. A request
/// of one thread runs the sequential path itself.
pub fn multi_threaded_multiply(a: &Matrix, b: &Matrix, threads: usize) -> (r: Result<
    Matrix,
    MatrixError,
>)
    requires
        a@.wf(),
        b@.wf(),
        a@.rows * b@.cols <= usize::MAX,
    ensures
        r is Ok <==> a@.cols == b@.rows,
        r matches Ok(c) ==> c@ == spec_multiply(a@, b@) && c@.wf(),
        r matches Ok(c) ==> c@.rows == a@.rows && c@.cols == b@.cols,
        r is Err ==> r == Err::<Matrix, MatrixError>(MatrixError::DimensionMismatch),
{
    let a_shape = a.shape();
    let b_shape = b.shape();
    if a_shape.1 != b_shape.0 {
        return Err(MatrixError::DimensionMismatch);
    }
    if threads == 1 {
        return multiply(a, b);
    }
    let crows = a_shape.0;
    let ccols = b_shape.1;
    let total = crows * ccols;
    let ghost product = spec_multiply(a@, b@);
    proof {
        assert(product.data.len() == total);
    }
    if total == 0 {
        let m = Matrix::from_parts(crows, ccols, Vec::new());
        proof {
            assert(m@.data =~= product.data);
            assert(m@ =~= product);
        }
        return Ok(m);
    }
    let ranges = partition(total, threads);
    proof {
        lemma_partition_chain(total as nat, threads as nat);
    }
    let results = run_workers(a, b, &ranges);
    // The collector: write each worker's partial results at their row-major
    // positions; the ranges are disjoint and contiguous, so after the last
    // range every cell holds its final value.
    let mut data: Vec<u64> = Vec::new();
    for z in 0..total
        invariant
            data@.len() == z,
    {
        data.push(0u64);
    }
    let nranges = results.len();
    for t in 0..nranges
        invariant
            a@.wf(),
            b@.wf(),
            a@.cols == b@.rows,
            crows == a@.rows,
            ccols == b@.cols,
            total == crows * ccols,
            1 <= total <= usize::MAX,
            product == spec_multiply(a@, b@),
            product.data.len() == total,
            nranges == results@.len(),
            nranges == ranges@.len(),
            partition_chain(ranges@, total as int),
            forall|u: int|
                0 <= u < nranges ==> range_results_ok(
                    a@,
                    b@,
                    ranges@[u].0 as int,
                    ranges@[u].1 as int,
                    #[trigger] results@[u],
                ),
            data@.len() == total,
            forall|e: int| 0 <= e < covered_upto(ranges@, t as int) ==> data@[e]
                == product.data[e],
    {
        let ghost start_m = ranges@[t as int].0 as int;
        let ghost end_m = ranges@[t as int].1 as int;
        let ret = &results[t];
        let n = ret.len();
        proof {
            assert(range_results_ok(a@, b@, start_m, end_m, *ret));
            assert(covered_upto(ranges@, t as int) == start_m);
        }
        for idx in 0..n
            invariant
                ccols == b@.cols,
                total == crows * ccols,
                1 <= total <= usize::MAX,
                product == spec_multiply(a@, b@),
                product.data.len() == total,
                n == ret@.len(),
                range_results_ok(a@, b@, start_m, end_m, *ret),
                0 <= start_m,
                start_m + n == end_m,
                end_m <= total,
                data@.len() == total,
                forall|e: int| 0 <= e < start_m + idx ==> data@[e] == product.data[e],
        {
            let el = ret[idx];
            let ghost e = start_m + idx;
            proof {
                assert(elem_ok(a@, b@, e, el));
                if ccols == 0 {
                    assert(total == 0) by (nonlinear_arith)
                        requires
                            ccols == 0,
                            total == crows * ccols,
                    ;
                }
                lemma_fundamental_div_mod(e, ccols as int);
                lemma_mod_pos_bound(e, ccols as int);
                assert(el.row as int * ccols as int == ccols as int * el.row as int) by (nonlinear_arith);
                assert(el.row as int * ccols as int + el.col as int == e);
            }
            let pos = el.row * ccols + el.col;
            data.set(pos, el.value);
            proof {
                assert(data@[e] == product.data[e]) by {
                    assert(product.data[e] == cell_bits(
                        a@,
                        b@,
                        e / b@.cols as int,
                        e % b@.cols as int,
                    ));
                }
            }
        }
    }
    proof {
        assert(covered_upto(ranges@, nranges as int) == total);
        assert(data@ =~= product.data);
    }
    let m = Matrix::from_parts(crows, ccols, data);
    proof {
        assert(m@ =~= product);
    }
    Ok(m)
}

/// Equivalence of the two entry points: their contracts pin any successful
/// result to the same product matrix, so the parallel engine's flat data,
/// shape included, is exactly the sequential path's.
pub proof fn lemma_threaded_equals_sequential(
    a: MatrixView,
    b: MatrixView,
    sequential: MatrixView,
    threaded: MatrixView,
)
    requires
        sequential == spec_multiply(a, b),
        threaded == spec_multiply(a, b),
    ensures
        threaded.data == sequential.data,
        threaded.rows == sequential.rows,
        threaded.cols == sequential.cols,
{
}

} // verus!

//! The matrix container: a rectangular, row-major buffer of IEEE-754 double
//! bit patterns, immutable after construction.

use vstd::prelude::*;

verus! {

/// The errors the multiplication core distinguishes.
#[derive(Clone, Copy, Debug, PartialEq, Eq, Structural)]
pub enum MatrixError {
    /// The flat data handed to the constructor does not hold exactly
    /// `rows * columns` entries.
    ConstructionMismatch,
    /// The operands of a multiplication have incompatible shapes:
    /// the left matrix's column count differs from the right matrix's
    /// row count. A failed worker, by contrast, re-raises in the caller
    /// rather than surfacing as an error value, as the reference
    /// single-threaded path has no worker to lose.
    DimensionMismatch,
}

/// The mathematical value of a matrix: its shape and the row-major sequence
/// of its entries' bit patterns.
pub ghost struct MatrixView {
    pub rows: nat,
    pub cols: nat,
    pub data: Seq<u64>,
}

impl MatrixView {
    /// The buffer holds exactly one entry per cell.
    pub open spec fn wf(self) -> bool {
        self.data.len() == self.rows * self.cols
    }

    /// The entry of cell `(i, j)`, row-major.
    pub open spec fn entry(self, i: int, j: int) -> u64 {
        self.data[i * self.cols + j]
    }
}

/// A dense 2-D matrix of doubles, held as the row-major sequence of their
/// 64-bit patterns.
#[derive(Debug)]
pub struct Matrix {
    pub(crate) rows: usize,
    pub(crate) columns: usize,
    pub(crate) data: Vec<u64>,
}

impl View for Matrix {
    type V = MatrixView;

    closed spec fn view(&self) -> MatrixView {
        MatrixView {
            rows: self.rows as nat,
            cols: self.columns as nat,
            data: self.data@,
        }
    }
}

impl Clone for Matrix {
    /// A deep copy: an independent buffer with the same shape and entries.
    fn clone(&self) -> (res: Matrix)
        ensures
            res@ == self@,
    {
        let mut buffer: Vec<u64> = Vec::new();
        let n = self.data.len();
        for i in 0..n
            invariant
                buffer@ =~= self.data@.subrange(0, i as int),
                n == self.data@.len(),
        {
            buffer.push(self.data[i]);
        }
        proof {
            assert(buffer@ =~= self.data@);
        }
        let res = Matrix { rows: self.rows, columns: self.columns, data: buffer };
        proof {
            assert(res@ =~= self@);
        }
        res
    }
}

impl Matrix {
    /// Any matrix's buffer is held in memory, so its length fits in `usize`.
    pub proof fn lemma_data_bounded(&self)
        ensures
            self@.data.len() <= usize::MAX,
    {
        vstd::std_specs::vec::axiom_spec_len(&self.data);
    }

    /// Wraps an already-built row-major buffer; the caller is responsible
    /// for the shape matching the buffer.
    pub(crate) fn from_parts(rows: usize, columns: usize, data: Vec<u64>) -> (m: Matrix)
        ensures
            m@ == (MatrixView { rows: rows as nat, cols: columns as nat, data: data@ }),
    {
        Matrix { rows, columns, data }
    }

    /// The entry at a flat row-major index.
    pub(crate) fn entry_at(&self, idx: usize) -> (r: u64)
        requires
            idx < self@.data.len(),
        ensures
            r == self@.data[idx as int],
    {
        self.data[idx]
    }

    /// Builds a matrix from row-major flat data; rejects data whose length is
    /// not exactly `rows * columns`.
    pub fn new(rows: usize, columns: usize, data: &Vec<u64>) -> (r: Result<Matrix, MatrixError>)
        ensures
            r is Ok <==> data@.len() == rows * columns,
            r matches Ok(m) ==> m@ == (MatrixView {
                rows: rows as nat,
                cols: columns as nat,
                data: data@,
            }) && m@.wf(),
            r is Err ==> r == Err::<Matrix, MatrixError>(MatrixError::ConstructionMismatch),
    {
        let n = data.len();
        let cells = match rows.checked_mul(columns) {
            Some(c) => c,
            None => {
                return Err(MatrixError::ConstructionMismatch);
            },
        };
        if n != cells {
            return Err(MatrixError::ConstructionMismatch);
        }
        let mut buffer: Vec<u64> = Vec::new();
        for i in 0..n
            invariant
                buffer@ =~= data@.subrange(0, i as int),
                n == data@.len(),
        {
            buffer.push(data[i]);
        }
        proof {
            assert(buffer@ =~= data@);
        }
        let m = Matrix { rows, columns, data: buffer };
        proof {
            assert(m@ =~= (MatrixView { rows: rows as nat, cols: columns as nat, data: data@ }));
        }
        Ok(m)
    }

    /// Structural equality: same shape and the same bit pattern in every cell.
    pub fn compare(&self, other: &Matrix) -> (r: bool)
        ensures
            r <==> self@ == other@,
    {
        if self.rows != other.rows || self.columns != other.columns {
            proof {
                assert(self@ != other@);
            }
            return false;
        }
        if self.data.len() != other.data.len() {
            proof {
                assert(self@.data.len() != other@.data.len());
            }
            return false;
        }
        let n = self.data.len();
        for i in 0..n
            invariant
                n == self.data@.len(),
                n == other.data@.len(),
                forall|k: int| 0 <= k < i ==> self.data@[k] == other.data@[k],
        {
            if self.data[i] != other.data[i] {
                proof {
                    assert(self@.data[i as int] != other@.data[i as int]);
                }
                return false;
            }
        }
        proof {
            assert(self.data@ =~= other.data@);
            assert(self@ =~= other@);
        }
        true
    }

    /// The shape `(rows, columns)`.
    pub fn shape(&self) -> (r: (usize, usize))
        ensures
            r.0 == self@.rows,
            r.1 == self@.cols,
    {
        (self.rows, self.columns)
    }

    /// The row-major flat sequence of entry bit patterns, as an independent
    /// copy.
    pub fn data(&self) -> (r: Vec<u64>)
        ensures
            r@ == self@.data,
    {
        let copy = self.clone();
        copy.data
    }
}

} // verus!

use vstd::prelude::*;

use vstd::pervasive::VecAdditionalExecFns;

use crate::error::MatrixError;
use crate::matrix::Matrix;

verus! {

/// The rows of a row-major flat buffer `flat`, read as an `nrows` by `ncols`
/// grid: entry `(i, j)` of the grid is `flat[i * ncols + j]`.
pub open spec fn row_major_rows<T>(nrows: nat, ncols: nat, flat: Seq<T>) -> Seq<Seq<T>> {
    Seq::new(nrows, |i: int| Seq::new(ncols, |j: int| flat[i * ncols + j]))
}

/// The transpose of a view `r` whose rows all have length `ncols`: column `j`
/// of `r` becomes row `j` of the result.
pub open spec fn transpose_rows<T>(r: Seq<Seq<T>>, ncols: nat) -> Seq<Seq<T>> {
    Seq::new(ncols, |j: int| Seq::new(r.len(), |i: int| r[i][j]))
}

/// Entry `(i, j)` of a row-major flat buffer whose rows have length `ncols`.
pub open spec fn grid_entry<T>(flat: Seq<T>, ncols: nat, i: int, j: int) -> T {
    flat[i * ncols + j]
}

proof fn lemma_row_major_index(nrows: int, ncols: int, i: int, j: int)
    by (nonlinear_arith)
    requires
        0 <= i < nrows,
        0 <= j < ncols,
    ensures
        0 <= i * ncols + j,
        i * ncols + j < nrows * ncols,
{
}

proof fn lemma_row_major_injective(ncols: int, i1: int, j1: int, i2: int, j2: int)
    by (nonlinear_arith)
    requires
        0 <= i1,
        0 <= i2,
        0 <= j1 < ncols,
        0 <= j2 < ncols,
        i1 * ncols + j1 == i2 * ncols + j2,
    ensures
        i1 == i2,
        j1 == j2,
{
}

/// A dense matrix in row-major storage: the concrete backend of this crate.
///
/// The grid has `num_rows() * num_cols()` entries held flat in `flat()`;
/// entry `(i, j)` is `flat()[i * num_cols() + j]`. All operations either
/// return a fresh value or mutate in place completely — a failed operation
/// leaves the receiver untouched.
#[derive(Clone, Debug, PartialEq)]
pub struct DenseMatrix<T> {
    nrows: usize,
    ncols: usize,
    data: Vec<T>,
}

impl<T: Copy> DenseMatrix<T> {
    /// The backing buffer, row by row.
    pub closed spec fn flat(&self) -> Seq<T> {
        self.data@
    }

    /// Entry `(i, j)` of the grid.
    pub open spec fn entry(&self, i: int, j: int) -> T {
        self.flat()[i * self.num_cols() + j]
    }
}

impl<T: Copy> Matrix for DenseMatrix<T> {
    type Elem = T;

    open spec fn rows(&self) -> Seq<Seq<T>> {
        row_major_rows(self.num_rows(), self.num_cols(), self.flat())
    }

    closed spec fn num_rows(&self) -> nat {
        self.nrows as nat
    }

    closed spec fn num_cols(&self) -> nat {
        self.ncols as nat
    }

    closed spec fn well_formed(&self) -> bool {
        self.data@.len() == self.nrows * self.ncols
    }

    proof fn lemma_shape(&self) {
    }

    fn shape(&self) -> (s: (usize, usize)) {
        (self.nrows, self.ncols)
    }

    fn get_row_as_vec(&self, row: usize) -> (v: Vec<T>) {
        let n: usize = self.data.len();
        let mut v: Vec<T> = Vec::new();
        let mut j: usize = 0;
        while j < self.ncols
            invariant
                self.well_formed(),
                row < self.num_rows(),
                n == self.flat().len(),
                j <= self.ncols,
                v@.len() == j,
                forall|k: int| 0 <= k < j ==> #[trigger] v@[k] == self.entry(row as int, k),
            decreases self.ncols - j,
        {
            proof {
                lemma_row_major_index(self.nrows as int, self.ncols as int, row as int, j as int);
            }
            v.push(self.data[row * self.ncols + j]);
            j += 1;
        }
        proof {
            assert forall|k: int| 0 <= k < v@.len() implies v@[k] == self.rows()[row as int][k] by {
                assert(v@[k] == self.entry(row as int, k));
            }
            assert(v@ =~= self.rows()[row as int]);
        }
        v
    }
}

impl<T: Copy> DenseMatrix<T> {
    /// An `nrows` by `ncols` matrix over the given row-major buffer, or
    /// `DimensionMismatch` exactly when the buffer's length is not
    /// `nrows * ncols`.
    pub fn from_vec(nrows: usize, ncols: usize, data: Vec<T>) -> (r: Result<Self, MatrixError>)
        ensures
            data@.len() == nrows * ncols ==> {
                &&& r matches Ok(m)
                &&& m.well_formed()
                &&& m.num_rows() == nrows
                &&& m.num_cols() == ncols
                &&& m.flat() == data@
            },
            data@.len() != nrows * ncols ==> {
                &&& r matches Err(e)
                &&& e == MatrixError::DimensionMismatch
            },
    {
        let len: usize = data.len();
        let ok = match nrows.checked_mul(ncols) {
            Some(total) => len == total,
            None => false,
        };
        if ok {
            Ok(DenseMatrix { nrows, ncols, data })
        } else {
            Err(MatrixError::DimensionMismatch)
        }
    }

    /// An `nrows` by `ncols` matrix with every entry equal to `value`.
    pub fn fill(nrows: usize, ncols: usize, value: T) -> (m: Self)
        requires
            nrows * ncols <= usize::MAX,
        ensures
            m.well_formed(),
            m.num_rows() == nrows,
            m.num_cols() == ncols,
            forall|i: int, j: int|
                0 <= i < nrows && 0 <= j < ncols ==> #[trigger] m.entry(i, j) == value,
    {
        let total: usize = nrows * ncols;
        let mut data: Vec<T> = Vec::new();
        let mut k: usize = 0;
        while k < total
            invariant
                k <= total,
                data@.len() == k,
                forall|p: int| 0 <= p < k ==> data@[p] == value,
            decreases total - k,
        {
            data.push(value);
            k += 1;
        }
        let m = DenseMatrix { nrows, ncols, data };
        proof {
            assert forall|i: int, j: int|
                0 <= i < nrows && 0 <= j < ncols implies #[trigger] m.entry(i, j) == value by {
                lemma_row_major_index(nrows as int, ncols as int, i, j);
            }
        }
        m
    }

    /// A square `size` by `size` matrix holding `diag_value` on the main
    /// diagonal and `off_value` everywhere else; the shape an identity
    /// matrix takes for a numeric scalar type.
    pub fn diagonal(size: usize, diag_value: T, off_value: T) -> (m: Self)
        requires
            size * size <= usize::MAX,
        ensures
            m.well_formed(),
            m.num_rows() == size,
            m.num_cols() == size,
            forall|i: int, j: int|
                0 <= i < size && 0 <= j < size ==> #[trigger] m.entry(i, j) == (if i == j {
                    diag_value
                } else {
                    off_value
                }),
    {
        let mut m = Self::fill(size, size, off_value);
        let mut d: usize = 0;
        while d < size
            invariant
                m.well_formed(),
                m.num_rows() == size,
                m.num_cols() == size,
                d <= size,
                forall|i: int, j: int|
                    0 <= i < size && 0 <= j < size ==> #[trigger] m.entry(i, j) == (if i == j && i
                        < d {
                        diag_value
                    } else {
                        off_value
                    }),
            decreases size - d,
        {
            let _ = m.set(d, d, diag_value);
            d += 1;
        }
        m
    }

    /// Entry `(row, col)`, or `IndexOutOfBounds` exactly when the position
    /// lies outside the shape.
    pub fn get(&self, row: usize, col: usize) -> (r: Result<T, MatrixError>)
        requires
            self.well_formed(),
        ensures
            row < self.num_rows() && col < self.num_cols() ==> {
                &&& r matches Ok(x)
                &&& x == self.entry(row as int, col as int)
            },
            !(row < self.num_rows() && col < self.num_cols()) ==> {
                &&& r matches Err(e)
                &&& e == MatrixError::IndexOutOfBounds
            },
    {
        if row < self.nrows && col < self.ncols {
            // the buffer length bounds the flat index, so the index arithmetic
            // below cannot overflow
            let n: usize = self.data.len();
            proof {
                lemma_row_major_index(self.nrows as int, self.ncols as int, row as int, col as int);
            }
            Ok(self.data[row * self.ncols + col])
        } else {
            Err(MatrixError::IndexOutOfBounds)
        }
    }

    /// Writes `x` at `(row, col)`, or reports `IndexOutOfBounds` exactly when
    /// the position lies outside the shape, leaving the matrix untouched.
    pub fn set(&mut self, row: usize, col: usize, x: T) -> (r: Result<(), MatrixError>)
        requires
            old(self).well_formed(),
        ensures
            final(self).well_formed(),
            final(self).num_rows() == old(self).num_rows(),
            final(self).num_cols() == old(self).num_cols(),
            row < old(self).num_rows() && col < old(self).num_cols() ==> {
                &&& r is Ok
                &&& forall|i: int, j: int|
                    0 <= i < old(self).num_rows() && 0 <= j < old(self).num_cols()
                        ==> #[trigger] final(self).entry(i, j) == (if i == row && j == col {
                        x
                    } else {
                        old(self).entry(i, j)
                    })
            },
            !(row < old(self).num_rows() && col < old(self).num_cols()) ==> {
                &&& r matches Err(e)
                &&& e == MatrixError::IndexOutOfBounds
                &&& *final(self) == *old(self)
            },
    {
        if row < self.nrows && col < self.ncols {
            // the buffer length bounds the flat index, so the index arithmetic
            // below cannot overflow
            let n: usize = self.data.len();
            proof {
                lemma_row_major_index(self.nrows as int, self.ncols as int, row as int, col as int);
            }
            let idx: usize = row * self.ncols + col;
            self.data.set(idx, x);
            proof {
                assert forall|i: int, j: int|
                    0 <= i < old(self).num_rows() && 0 <= j < old(self).num_cols()
                        implies #[trigger] self.entry(i, j) == (if i == row && j == col {
                    x
                } else {
                    old(self).entry(i, j)
                }) by {
                    lemma_row_major_index(self.nrows as int, self.ncols as int, i, j);
                    if self.entry(i, j) != old(self).entry(i, j) {
                        lemma_row_major_injective(
                            self.ncols as int,
                            i,
                            j,
                            row as int,
                            col as int,
                        );
                    }
                }
            }
            Ok(())
        } else {
            Err(MatrixError::IndexOutOfBounds)
        }
    }

    /// The backing row-major buffer, copied out flat, row by row.
    pub fn to_raw_vector(&self) -> (v: Vec<T>)
        requires
            self.well_formed(),
        ensures
            v@ == self.flat(),
    {
        let n: usize = self.data.len();
        let mut v: Vec<T> = Vec::new();
        let mut k: usize = 0;
        while k < n
            invariant
                n == self.flat().len(),
                k <= n,
                v@.len() == k,
                forall|p: int| 0 <= p < k ==> #[trigger] v@[p] == self.flat()[p],
            decreases n - k,
        {
            v.push(self.data[k]);
            k += 1;
        }
        proof {
            assert(v@ =~= self.flat());
        }
        v
    }

    /// Column `col`, materialized as an owned vector of entries in row order.
    pub fn get_col_as_vec(&self, col: usize) -> (v: Vec<T>)
        requires
            self.well_formed(),
            col < self.num_cols(),
        ensures
            v@.len() == self.num_rows(),
            forall|i: int|
                0 <= i < self.num_rows() ==> #[trigger] v@[i] == self.entry(i, col as int),
    {
        let n: usize = self.data.len();
        let mut v: Vec<T> = Vec::new();
        let mut i: usize = 0;
        while i < self.nrows
            invariant
                self.well_formed(),
                col < self.num_cols(),
                n == self.flat().len(),
                i <= self.nrows,
                v@.len() == i,
                forall|k: int| 0 <= k < i ==> #[trigger] v@[k] == self.entry(k, col as int),
            decreases self.nrows - i,
        {
            proof {
                lemma_row_major_index(self.nrows as int, self.ncols as int, i as int, col as int);
            }
            v.push(self.data[i * self.ncols + col]);
            i += 1;
        }
        v
    }

    /// A new matrix of the same shape whose entry `(i, j)` is produced by
    /// `f` from the receiver's entry `(i, j)`: the elementwise layer that
    /// derived unary operations (negation, absolute value, scalar
    /// arithmetic) build on.
    pub fn map_entries<F: Fn(T) -> T>(&self, f: F) -> (r: Self)
        requires
            self.well_formed(),
            forall|i: int, j: int|
                0 <= i < self.num_rows() && 0 <= j < self.num_cols() ==> call_requires(
                    f,
                    (#[trigger] self.entry(i, j),),
                ),
        ensures
            r.well_formed(),
            r.num_rows() == self.num_rows(),
            r.num_cols() == self.num_cols(),
            forall|i: int, j: int|
                0 <= i < self.num_rows() && 0 <= j < self.num_cols() ==> call_ensures(
                    f,
                    (self.entry(i, j),),
                    #[trigger] r.entry(i, j),
                ),
    {
        let n: usize = self.data.len();
        let nc: usize = self.ncols;
        let mut data: Vec<T> = Vec::new();
        let mut i: usize = 0;
        while i < self.nrows
            invariant
                self.well_formed(),
                n == self.flat().len(),
                nc == self.num_cols(),
                forall|x: int, y: int|
                    0 <= x < self.num_rows() && 0 <= y < self.num_cols() ==> call_requires(
                        f,
                        (#[trigger] self.entry(x, y),),
                    ),
                i <= self.nrows,
                data@.len() == i * self.num_cols(),
                forall|x: int, y: int|
                    0 <= x < i && 0 <= y < nc ==> call_ensures(
                        f,
                        (self.entry(x, y),),
                        #[trigger] grid_entry(data@, nc as nat, x, y),
                    ),
            decreases self.nrows - i,
        {
            let mut j: usize = 0;
            while j < nc
                invariant
                    self.well_formed(),
                    n == self.flat().len(),
                    nc == self.num_cols(),
                    forall|x: int, y: int|
                        0 <= x < self.num_rows() && 0 <= y < self.num_cols() ==> call_requires(
                            f,
                            (#[trigger] self.entry(x, y),),
                        ),
                    i < self.nrows,
                    j <= nc,
                    data@.len() == i * self.num_cols() + j,
                    forall|x: int, y: int|
                        0 <= x < i && 0 <= y < nc ==> call_ensures(
                            f,
                            (self.entry(x, y),),
                            #[trigger] grid_entry(data@, nc as nat, x, y),
                        ),
                    forall|y: int|
                        0 <= y < j ==> call_ensures(
                            f,
                            (self.entry(i as int, y),),
                            #[trigger] grid_entry(data@, nc as nat, i as int, y),
                        ),
                decreases nc - j,
            {
                let ghost data0 = data@;
                proof {
                    lemma_row_major_index(self.nrows as int, self.ncols as int, i as int, j as int);
                    assert(call_requires(f, (self.entry(i as int, j as int),)));
                }
                let v = f(self.data[i * nc + j]);
                data.push(v);
                proof {
                    assert forall|x: int, y: int|
                        0 <= x < i && 0 <= y < nc implies call_ensures(
                        f,
                        (self.entry(x, y),),
                        #[trigger] grid_entry(data@, nc as nat, x, y),
                    ) by {
                        lemma_row_major_index(i as int, nc as int, x, y);
                        assert(call_ensures(
                            f,
                            (self.entry(x, y),),
                            grid_entry(data0, nc as nat, x, y),
                        ));
                    }
                    assert forall|y: int|
                        0 <= y < j + 1 implies call_ensures(
                        f,
                        (self.entry(i as int, y),),
                        #[trigger] grid_entry(data@, nc as nat, i as int, y),
                    ) by {
                        if y < j {
                            assert(call_ensures(
                                f,
                                (self.entry(i as int, y),),
                                grid_entry(data0, nc as nat, i as int, y),
                            ));
                        }
                    }
                }
                j += 1;
            }
            proof {
                lemma_mul_succ(i as int, nc as int);
            }
            i += 1;
        }
        let r = DenseMatrix { nrows: self.nrows, ncols: self.ncols, data };
        proof {
            assert forall|i: int, j: int|
                0 <= i < self.num_rows() && 0 <= j < self.num_cols() implies call_ensures(
                f,
                (self.entry(i, j),),
                #[trigger] r.entry(i, j),
            ) by {
                lemma_row_major_index(self.nrows as int, self.ncols as int, i, j);
                assert(call_ensures(f, (self.entry(i, j),), grid_entry(r.flat(), nc as nat, i, j)));
            }
        }
        r
    }

    /// A new matrix whose entry `(i, j)` is produced by `f` from the two
    /// operands' entries `(i, j)`, or `DimensionMismatch` exactly when the
    /// shapes differ: the elementwise layer that derived binary operations
    /// (addition, subtraction, multiplication, division) build on.
    pub fn zip_entries<F: Fn(T, T) -> T>(&self, other: &Self, f: F) -> (r: Result<
        Self,
        MatrixError,
    >)
        requires
            self.well_formed(),
            other.well_formed(),
            forall|i: int, j: int|
                0 <= i < self.num_rows() && 0 <= j < self.num_cols() && self.num_rows()
                    == other.num_rows() && self.num_cols() == other.num_cols() ==> call_requires(
                    f,
                    (#[trigger] self.entry(i, j), #[trigger] other.entry(i, j)),
                ),
        ensures
            self.num_rows() == other.num_rows() && self.num_cols() == other.num_cols() ==> {
                &&& r matches Ok(s)
                &&& s.well_formed()
                &&& s.num_rows() == self.num_rows()
                &&& s.num_cols() == self.num_cols()
                &&& forall|i: int, j: int|
                    0 <= i < self.num_rows() && 0 <= j < self.num_cols() ==> call_ensures(
                        f,
                        (self.entry(i, j), other.entry(i, j)),
                        #[trigger] s.entry(i, j),
                    )
            },
            !(self.num_rows() == other.num_rows() && self.num_cols() == other.num_cols()) ==> {
                &&& r matches Err(e)
                &&& e == MatrixError::DimensionMismatch
            },
    {
        if !(self.nrows == other.nrows && self.ncols == other.ncols) {
            return Err(MatrixError::DimensionMismatch);
        }
        let n: usize = self.data.len();
        let nc: usize = self.ncols;
        let mut data: Vec<T> = Vec::new();
        let mut i: usize = 0;
        while i < self.nrows
            invariant
                self.well_formed(),
                other.well_formed(),
                self.num_rows() == other.num_rows(),
                self.num_cols() == other.num_cols(),
                n == self.flat().len(),
                nc == self.num_cols(),
                forall|x: int, y: int|
                    0 <= x < self.num_rows() && 0 <= y < self.num_cols() ==> call_requires(
                        f,
                        (#[trigger] self.entry(x, y), #[trigger] other.entry(x, y)),
                    ),
                i <= self.nrows,
                data@.len() == i * self.num_cols(),
                forall|x: int, y: int|
                    0 <= x < i && 0 <= y < nc ==> call_ensures(
                        f,
                        (self.entry(x, y), other.entry(x, y)),
                        #[trigger] grid_entry(data@, nc as nat, x, y),
                    ),
            decreases self.nrows - i,
        {
            let mut j: usize = 0;
            while j < nc
                invariant
                    self.well_formed(),
                    other.well_formed(),
                    self.num_rows() == other.num_rows(),
                    self.num_cols() == other.num_cols(),
                    n == self.flat().len(),
                    nc == self.num_cols(),
                    forall|x: int, y: int|
                        0 <= x < self.num_rows() && 0 <= y < self.num_cols() ==> call_requires(
                            f,
                            (#[trigger] self.entry(x, y), #[trigger] other.entry(x, y)),
                        ),
                    i < self.nrows,
                    j <= nc,
                    data@.len() == i * self.num_cols() + j,
                    forall|x: int, y: int|
                        0 <= x < i && 0 <= y < nc ==> call_ensures(
                            f,
                            (self.entry(x, y), other.entry(x, y)),
                            #[trigger] grid_entry(data@, nc as nat, x, y),
                        ),
                    forall|y: int|
                        0 <= y < j ==> call_ensures(
                            f,
                            (self.entry(i as int, y), other.entry(i as int, y)),
                            #[trigger] grid_entry(data@, nc as nat, i as int, y),
                        ),
                decreases nc - j,
            {
                let ghost data0 = data@;
                proof {
                    lemma_row_major_index(self.nrows as int, self.ncols as int, i as int, j as int);
                    assert(call_requires(
                        f,
                        (self.entry(i as int, j as int), other.entry(i as int, j as int)),
                    ));
                }
                let v = f(self.data[i * nc + j], other.data[i * nc + j]);
                data.push(v);
                proof {
                    assert forall|x: int, y: int|
                        0 <= x < i && 0 <= y < nc implies call_ensures(
                        f,
                        (self.entry(x, y), other.entry(x, y)),
                        #[trigger] grid_entry(data@, nc as nat, x, y),
                    ) by {
                        lemma_row_major_index(i as int, nc as int, x, y);
                        assert(call_ensures(
                            f,
                            (self.entry(x, y), other.entry(x, y)),
                            grid_entry(data0, nc as nat, x, y),
                        ));
                    }
                    assert forall|y: int|
                        0 <= y < j + 1 implies call_ensures(
                        f,
                        (self.entry(i as int, y), other.entry(i as int, y)),
                        #[trigger] grid_entry(data@, nc as nat, i as int, y),
                    ) by {
                        if y < j {
                            assert(call_ensures(
                                f,
                                (self.entry(i as int, y), other.entry(i as int, y)),
                                grid_entry(data0, nc as nat, i as int, y),
                            ));
                        }
                    }
                }
                j += 1;
            }
            proof {
                lemma_mul_succ(i as int, nc as int);
            }
            i += 1;
        }
        let s = DenseMatrix { nrows: self.nrows, ncols: self.ncols, data };
        proof {
            assert forall|i: int, j: int|
                0 <= i < self.num_rows() && 0 <= j < self.num_cols() implies call_ensures(
                f,
                (self.entry(i, j), other.entry(i, j)),
                #[trigger] s.entry(i, j),
            ) by {
                lemma_row_major_index(self.nrows as int, self.ncols as int, i, j);
                assert(call_ensures(
                    f,
                    (self.entry(i, j), other.entry(i, j)),
                    grid_entry(s.flat(), nc as nat, i, j),
                ));
            }
        }
        Ok(s)
    }

    /// The transpose: row and column roles swap, entry `(i, j)` of the
    /// result being entry `(j, i)` of the receiver. No entry is altered.
    pub fn transpose(&self) -> (t: Self)
        requires
            self.well_formed(),
        ensures
            t.well_formed(),
            t.num_rows() == self.num_cols(),
            t.num_cols() == self.num_rows(),
            forall|i: int, j: int|
                0 <= i < self.num_cols() && 0 <= j < self.num_rows() ==> #[trigger] t.entry(i, j)
                    == self.entry(j, i),
            t.rows() == transpose_rows(self.rows(), self.num_cols()),
    {
        let n: usize = self.data.len();
        let mut data2: Vec<T> = Vec::new();
        let mut p: usize = 0;
        while p < self.ncols
            invariant
                self.well_formed(),
                n == self.flat().len(),
                p <= self.ncols,
                data2@.len() == p * self.num_rows(),
                forall|x: int, y: int|
                    0 <= x < p && 0 <= y < self.num_rows() ==> #[trigger] grid_entry(
                        data2@,
                        self.num_rows(),
                        x,
                        y,
                    ) == self.entry(y, x),
            decreases self.ncols - p,
        {
            let mut q: usize = 0;
            while q < self.nrows
                invariant
                    self.well_formed(),
                    n == self.flat().len(),
                    p < self.ncols,
                    q <= self.nrows,
                    data2@.len() == p * self.num_rows() + q,
                    forall|x: int, y: int|
                        0 <= x < p && 0 <= y < self.num_rows() ==> #[trigger] grid_entry(
                            data2@,
                            self.num_rows(),
                            x,
                            y,
                        ) == self.entry(y, x),
                    forall|y: int|
                        0 <= y < q ==> #[trigger] grid_entry(data2@, self.num_rows(), p as int, y)
                            == self.entry(y, p as int),
                decreases self.nrows - q,
            {
                let ghost data0 = data2@;
                proof {
                    lemma_row_major_index(self.nrows as int, self.ncols as int, q as int, p as int);
                }
                data2.push(self.data[q * self.ncols + p]);
                proof {
                    assert forall|x: int, y: int|
                        0 <= x < p && 0 <= y < self.num_rows() implies #[trigger] grid_entry(
                        data2@,
                        self.num_rows(),
                        x,
                        y,
                    ) == self.entry(y, x) by {
                        lemma_row_major_index(p as int, self.nrows as int, x, y);
                        assert(grid_entry(data0, self.num_rows(), x, y) == self.entry(y, x));
                    }
                    assert forall|y: int|
                        0 <= y < q + 1 implies #[trigger] grid_entry(
                        data2@,
                        self.num_rows(),
                        p as int,
                        y,
                    ) == self.entry(y, p as int) by {
                        if y < q {
                            assert(grid_entry(data0, self.num_rows(), p as int, y) == self.entry(
                                y,
                                p as int,
                            ));
                        }
                    }
                }
                q += 1;
            }
            proof {
                lemma_mul_succ(p as int, self.num_rows() as int);
            }
            p += 1;
        }
        let t = DenseMatrix { nrows: self.ncols, ncols: self.nrows, data: data2 };
        proof {
            assert forall|i: int, j: int|
                0 <= i < self.num_cols() && 0 <= j < self.num_rows() implies #[trigger] t.entry(
                i,
                j,
            ) == self.entry(j, i) by {
                lemma_row_major_index(self.ncols as int, self.nrows as int, i, j);
                assert(grid_entry(t.flat(), self.num_rows(), i, j) == self.entry(j, i));
            }
            assert forall|jj: int|
                0 <= jj < t.rows().len() implies t.rows()[jj] == transpose_rows(
                self.rows(),
                self.num_cols(),
            )[jj] by {
                assert forall|ii: int|
                    0 <= ii < self.num_rows() implies t.rows()[jj][ii] == transpose_rows(
                    self.rows(),
                    self.num_cols(),
                )[jj][ii] by {
                    assert(t.entry(jj, ii) == self.entry(ii, jj));
                }
                assert(t.rows()[jj] =~= transpose_rows(self.rows(), self.num_cols())[jj]);
            }
            assert(t.rows() =~= transpose_rows(self.rows(), self.num_cols()));
        }
        t
    }

    /// A single-row matrix over the given vector of entries.
    pub fn from_row_vector(vec: Vec<T>) -> (m: Self)
        ensures
            m.well_formed(),
            m.num_rows() == 1,
            m.num_cols() == vec@.len(),
            m.flat() == vec@,
            m.rows() == seq![vec@],
    {
        let ncols: usize = vec.len();
        let m = DenseMatrix { nrows: 1, ncols, data: vec };
        proof {
            assert(m.rows()[0] =~= m.flat());
            assert(m.rows() =~= seq![m.flat()]);
        }
        m
    }

    /// The backing row-major buffer, consuming the matrix; for a single-row
    /// matrix this is exactly that row, so `from_row_vector` rebuilds the
    /// matrix from it unchanged.
    pub fn to_row_vector(self) -> (v: Vec<T>)
        requires
            self.well_formed(),
        ensures
            v@ == self.flat(),
            self.num_rows() == 1 ==> v@ == self.rows()[0],
    {
        proof {
            if self.num_rows() == 1 {
                assert(self.flat().len() == 1 * self.num_cols());
                assert forall|k: int|
                    0 <= k < self.num_cols() implies self.rows()[0][k] == self.flat()[k] by {
                    assert(self.rows()[0][k] == self.flat()[0 * self.num_cols() + k]);
                }
                assert(self.rows()[0] =~= self.flat());
            }
        }
        self.data
    }

    /// The same entries in the same row-major order under a new shape, or
    /// `DimensionMismatch` exactly when the new shape does not hold the same
    /// number of entries.
    pub fn reshape(&self, nrows: usize, ncols: usize) -> (r: Result<Self, MatrixError>)
        requires
            self.well_formed(),
        ensures
            nrows * ncols == self.flat().len() ==> {
                &&& r matches Ok(m)
                &&& m.well_formed()
                &&& m.num_rows() == nrows
                &&& m.num_cols() == ncols
                &&& m.flat() == self.flat()
            },
            nrows * ncols != self.flat().len() ==> {
                &&& r matches Err(e)
                &&& e == MatrixError::DimensionMismatch
            },
    {
        let len: usize = self.data.len();
        let ok = match nrows.checked_mul(ncols) {
            Some(total) => len == total,
            None => false,
        };
        if ok {
            let data = self.to_raw_vector();
            Ok(DenseMatrix { nrows, ncols, data })
        } else {
            Err(MatrixError::DimensionMismatch)
        }
    }

    /// The vertical concatenation: the rows of the receiver followed by the
    /// rows of `other`, or `DimensionMismatch` exactly when the column
    /// counts differ.
    pub fn v_stack(&self, other: &Self) -> (r: Result<Self, MatrixError>)
        requires
            self.well_formed(),
            other.well_formed(),
            self.num_cols() == other.num_cols() ==> self.num_rows() + other.num_rows()
                <= usize::MAX,
        ensures
            self.num_cols() == other.num_cols() ==> {
                &&& r matches Ok(s)
                &&& s.well_formed()
                &&& s.num_rows() == self.num_rows() + other.num_rows()
                &&& s.num_cols() == self.num_cols()
                &&& s.rows() == self.rows() + other.rows()
            },
            self.num_cols() != other.num_cols() ==> {
                &&& r matches Err(e)
                &&& e == MatrixError::DimensionMismatch
            },
    {
        if self.ncols != other.ncols {
            return Err(MatrixError::DimensionMismatch);
        }
        let onr: usize = other.data.len();
        let mut data = self.to_raw_vector();
        let mut k: usize = 0;
        while k < onr
            invariant
                other.well_formed(),
                onr == other.flat().len(),
                k <= onr,
                data@ == self.flat() + other.flat().take(k as int),
            decreases onr - k,
        {
            data.push(other.data[k]);
            proof {
                assert(data@ =~= self.flat() + other.flat().take(k as int + 1));
            }
            k += 1;
        }
        proof {
            assert(other.flat().take(onr as int) =~= other.flat());
        }
        let s = DenseMatrix {
            nrows: self.nrows + other.nrows,
            ncols: self.ncols,
            data,
        };
        proof {
            let snr = self.num_rows() as int;
            let onrows = other.num_rows() as int;
            let nc = self.num_cols() as int;
            lemma_mul_add(snr, onrows, nc);
            assert forall|i: int|
                0 <= i < s.rows().len() implies s.rows()[i] == (self.rows() + other.rows())[i] by {
                if i < snr {
                    assert forall|j: int|
                        0 <= j < nc implies s.rows()[i][j] == self.rows()[i][j] by {
                        lemma_row_major_index(snr, nc, i, j);
                    }
                    assert(s.rows()[i] =~= self.rows()[i]);
                } else {
                    assert forall|j: int|
                        0 <= j < nc implies s.rows()[i][j] == other.rows()[i - snr][j] by {
                        lemma_row_major_index(onrows, nc, i - snr, j);
                        lemma_mul_sub(i, snr, nc);
                        assert(i * nc + j - self.flat().len() == (i - snr) * nc + j);
                    }
                    assert(s.rows()[i] =~= other.rows()[i - snr]);
                }
            }
            assert(s.rows() =~= self.rows() + other.rows());
        }
        Ok(s)
    }

    /// The horizontal concatenation: each row of the receiver followed by
    /// the matching row of `other`, or `DimensionMismatch` exactly when the
    /// row counts differ.
    pub fn h_stack(&self, other: &Self) -> (r: Result<Self, MatrixError>)
        requires
            self.well_formed(),
            other.well_formed(),
            self.num_rows() == other.num_rows() ==> self.num_cols() + other.num_cols()
                <= usize::MAX,
        ensures
            self.num_rows() == other.num_rows() ==> {
                &&& r matches Ok(s)
                &&& s.well_formed()
                &&& s.num_rows() == self.num_rows()
                &&& s.num_cols() == self.num_cols() + other.num_cols()
                &&& s.rows().len() == self.num_rows()
                &&& forall|i: int|
                    0 <= i < self.num_rows() ==> #[trigger] s.rows()[i] == self.rows()[i]
                        + other.rows()[i]
            },
            self.num_rows() != other.num_rows() ==> {
                &&& r matches Err(e)
                &&& e == MatrixError::DimensionMismatch
            },
    {
        if self.nrows != other.nrows {
            return Err(MatrixError::DimensionMismatch);
        }
        let sn: usize = self.data.len();
        let on: usize = other.data.len();
        let newc: usize = self.ncols + other.ncols;
        let ghost snc = self.num_cols() as int;
        let ghost onc = other.num_cols() as int;
        let ghost nr = self.num_rows() as int;
        let mut data: Vec<T> = Vec::new();
        let mut i: usize = 0;
        while i < self.nrows
            invariant
                self.well_formed(),
                other.well_formed(),
                self.num_rows() == other.num_rows(),
                sn == self.flat().len(),
                on == other.flat().len(),
                newc == snc + onc,
                snc == self.num_cols(),
                onc == other.num_cols(),
                nr == self.num_rows(),
                i <= nr,
                data@.len() == i * newc,
                forall|x: int, y: int|
                    0 <= x < i && 0 <= y < newc ==> #[trigger] grid_entry(data@, newc as nat, x, y)
                        == (if y < snc {
                        self.entry(x, y)
                    } else {
                        other.entry(x, y - snc)
                    }),
            decreases self.nrows - i,
        {
            let mut j: usize = 0;
            while j < newc
                invariant
                    self.well_formed(),
                    other.well_formed(),
                    self.num_rows() == other.num_rows(),
                    sn == self.flat().len(),
                    on == other.flat().len(),
                    newc == snc + onc,
                    snc == self.num_cols(),
                    onc == other.num_cols(),
                    nr == self.num_rows(),
                    i < nr,
                    j <= newc,
                    data@.len() == i * newc + j,
                    forall|x: int, y: int|
                        0 <= x < i && 0 <= y < newc ==> #[trigger] grid_entry(
                            data@,
                            newc as nat,
                            x,
                            y,
                        ) == (if y < snc {
                            self.entry(x, y)
                        } else {
                            other.entry(x, y - snc)
                        }),
                    forall|y: int|
                        0 <= y < j ==> #[trigger] grid_entry(data@, newc as nat, i as int, y) == (
                        if y < snc {
                            self.entry(i as int, y)
                        } else {
                            other.entry(i as int, y - snc)
                        }),
                decreases newc - j,
            {
                let ghost data0 = data@;
                if j < self.ncols {
                    proof {
                        lemma_row_major_index(nr, snc, i as int, j as int);
                    }
                    data.push(self.data[i * self.ncols + j]);
                } else {
                    proof {
                        lemma_row_major_index(nr, onc, i as int, j as int - snc);
                    }
                    data.push(other.data[i * other.ncols + (j - self.ncols)]);
                }
                proof {
                    assert forall|x: int, y: int|
                        0 <= x < i && 0 <= y < newc implies #[trigger] grid_entry(
                        data@,
                        newc as nat,
                        x,
                        y,
                    ) == (if y < snc {
                        self.entry(x, y)
                    } else {
                        other.entry(x, y - snc)
                    }) by {
                        lemma_row_major_index(i as int, newc as int, x, y);
                        assert(grid_entry(data0, newc as nat, x, y) == (if y < snc {
                            self.entry(x, y)
                        } else {
                            other.entry(x, y - snc)
                        }));
                    }
                    assert forall|y: int|
                        0 <= y < j + 1 implies #[trigger] grid_entry(
                        data@,
                        newc as nat,
                        i as int,
                        y,
                    ) == (if y < snc {
                        self.entry(i as int, y)
                    } else {
                        other.entry(i as int, y - snc)
                    }) by {
                        if y < j {
                            assert(grid_entry(data0, newc as nat, i as int, y) == (if y < snc {
                                self.entry(i as int, y)
                            } else {
                                other.entry(i as int, y - snc)
                            }));
                        }
                    }
                }
                j += 1;
            }
            proof {
                lemma_mul_succ(i as int, newc as int);
            }
            i += 1;
        }
        let s = DenseMatrix { nrows: self.nrows, ncols: newc, data };
        proof {
            assert forall|i: int|
                0 <= i < self.num_rows() implies #[trigger] s.rows()[i] == self.rows()[i]
                + other.rows()[i] by {
                assert forall|j: int|
                    0 <= j < newc implies s.rows()[i][j] == (self.rows()[i] + other.rows()[i])[j]
                    by {
                    lemma_row_major_index(nr, newc as int, i, j);
                    assert(grid_entry(s.flat(), newc as nat, i, j) == (if j < snc {
                        self.entry(i, j)
                    } else {
                        other.entry(i, j - snc)
                    }));
                }
                assert(s.rows()[i] =~= self.rows()[i] + other.rows()[i]);
            }
        }
        Ok(s)
    }

    /// The sub-matrix selected by the half-open row range `rows` and column
    /// range `cols`, or `IndexOutOfBounds` exactly when either range is
    /// reversed or reaches past the shape.
    pub fn slice(
        &self,
        rows: core::ops::Range<usize>,
        cols: core::ops::Range<usize>,
    ) -> (r: Result<Self, MatrixError>)
        requires
            self.well_formed(),
        ensures
            rows.start <= rows.end && rows.end <= self.num_rows() && cols.start <= cols.end
                && cols.end <= self.num_cols() ==> {
                &&& r matches Ok(s)
                &&& s.well_formed()
                &&& s.num_rows() == rows.end - rows.start
                &&& s.num_cols() == cols.end - cols.start
                &&& forall|i: int, j: int|
                    0 <= i < rows.end - rows.start && 0 <= j < cols.end - cols.start
                        ==> #[trigger] s.entry(i, j) == self.entry(i + rows.start, j + cols.start)
            },
            !(rows.start <= rows.end && rows.end <= self.num_rows() && cols.start <= cols.end
                && cols.end <= self.num_cols()) ==> {
                &&& r matches Err(e)
                &&& e == MatrixError::IndexOutOfBounds
            },
    {
        if !(rows.start <= rows.end && rows.end <= self.nrows && cols.start <= cols.end
            && cols.end <= self.ncols) {
            return Err(MatrixError::IndexOutOfBounds);
        }
        let n: usize = self.data.len();
        let rs: usize = rows.start;
        let cs: usize = cols.start;
        let newr: usize = rows.end - rows.start;
        let newc: usize = cols.end - cols.start;
        let mut data: Vec<T> = Vec::new();
        let mut i: usize = 0;
        while i < newr
            invariant
                self.well_formed(),
                n == self.flat().len(),
                rs + newr <= self.num_rows(),
                cs + newc <= self.num_cols(),
                i <= newr,
                data@.len() == i * newc,
                forall|x: int, y: int|
                    0 <= x < i && 0 <= y < newc ==> #[trigger] grid_entry(data@, newc as nat, x, y)
                        == self.entry(x + rs, y + cs),
            decreases newr - i,
        {
            let mut j: usize = 0;
            while j < newc
                invariant
                    self.well_formed(),
                    n == self.flat().len(),
                    rs + newr <= self.num_rows(),
                    cs + newc <= self.num_cols(),
                    i < newr,
                    j <= newc,
                    data@.len() == i * newc + j,
                    forall|x: int, y: int|
                        0 <= x < i && 0 <= y < newc ==> #[trigger] grid_entry(
                            data@,
                            newc as nat,
                            x,
                            y,
                        ) == self.entry(x + rs, y + cs),
                    forall|y: int|
                        0 <= y < j ==> #[trigger] grid_entry(data@, newc as nat, i as int, y)
                            == self.entry(i + rs, y + cs),
                decreases newc - j,
            {
                let ghost data0 = data@;
                proof {
                    lemma_row_major_index(
                        self.nrows as int,
                        self.ncols as int,
                        i as int + rs,
                        j as int + cs,
                    );
                }
                data.push(self.data[(i + rs) * self.ncols + (j + cs)]);
                proof {
                    assert forall|x: int, y: int|
                        0 <= x < i && 0 <= y < newc implies #[trigger] grid_entry(
                        data@,
                        newc as nat,
                        x,
                        y,
                    ) == self.entry(x + rs, y + cs) by {
                        lemma_row_major_index(i as int, newc as int, x, y);
                        assert(grid_entry(data0, newc as nat, x, y) == self.entry(x + rs, y + cs));
                    }
                    assert forall|y: int|
                        0 <= y < j + 1 implies #[trigger] grid_entry(
                        data@,
                        newc as nat,
                        i as int,
                        y,
                    ) == self.entry(i + rs, y + cs) by {
                        if y < j {
                            assert(grid_entry(data0, newc as nat, i as int, y) == self.entry(
                                i + rs,
                                y + cs,
                            ));
                        }
                    }
                }
                j += 1;
            }
            proof {
                lemma_mul_succ(i as int, newc as int);
            }
            i += 1;
        }
        let s = DenseMatrix { nrows: newr, ncols: newc, data };
        proof {
            assert forall|i: int, j: int|
                0 <= i < newr && 0 <= j < newc implies #[trigger] s.entry(i, j) == self.entry(
                i + rs,
                j + cs,
            ) by {
                lemma_row_major_index(newr as int, newc as int, i, j);
                assert(grid_entry(s.flat(), newc as nat, i, j) == self.entry(i + rs, j + cs));
            }
        }
        Ok(s)
    }

    /// Overwrites the receiver with the entries of `other`, or reports
    /// `DimensionMismatch` exactly when the shapes differ, leaving the
    /// receiver untouched.
    pub fn copy_from(&mut self, other: &Self) -> (r: Result<(), MatrixError>)
        requires
            old(self).well_formed(),
            other.well_formed(),
        ensures
            final(self).well_formed(),
            old(self).num_rows() == other.num_rows() && old(self).num_cols() == other.num_cols()
                ==> {
                &&& r is Ok
                &&& final(self).num_rows() == other.num_rows()
                &&& final(self).num_cols() == other.num_cols()
                &&& final(self).flat() == other.flat()
            },
            !(old(self).num_rows() == other.num_rows() && old(self).num_cols()
                == other.num_cols()) ==> {
                &&& r matches Err(e)
                &&& e == MatrixError::DimensionMismatch
                &&& *final(self) == *old(self)
            },
    {
        if self.nrows == other.nrows && self.ncols == other.ncols {
            self.data = other.to_raw_vector();
            Ok(())
        } else {
            Err(MatrixError::DimensionMismatch)
        }
    }
}

proof fn lemma_mul_succ(a: int, b: int)
    by (nonlinear_arith)
    ensures
        (a + 1) * b == a * b + b,
{
}

proof fn lemma_mul_add(a: int, b: int, c: int)
    by (nonlinear_arith)
    ensures
        (a + b) * c == a * c + b * c,
{
}

proof fn lemma_mul_sub(a: int, b: int, c: int)
    by (nonlinear_arith)
    ensures
        (a - b) * c == a * c - b * c,
{
}

/// Transposing twice reproduces the original view exactly: for a rectangular
/// view `r` whose rows all have length `ncols`, no entry is created, lost or
/// altered by the double transposition.
pub proof fn lemma_transpose_involutive<T>(r: Seq<Seq<T>>, ncols: nat)
    requires
        forall|i: int| 0 <= i < r.len() ==> (#[trigger] r[i]).len() == ncols,
    ensures
        transpose_rows(transpose_rows(r, ncols), r.len()) == r,
{
    let t = transpose_rows(r, ncols);
    let tt = transpose_rows(t, r.len());
    assert forall|i: int| 0 <= i < r.len() implies tt[i] == r[i] by {
        assert forall|j: int| 0 <= j < ncols implies tt[i][j] == r[i][j] by {
            assert(t[j][i] == r[i][j]);
        }
        assert(tt[i] =~= r[i]);
    }
    assert(tt =~= r);
}

/// Round trip through a row vector: a matrix rebuilt over the buffer that
/// `to_row_vector` hands out reproduces a single-row matrix exactly, its
/// view included.
pub proof fn lemma_row_vector_round_trip<T: Copy>(m: DenseMatrix<T>, rebuilt: DenseMatrix<T>)
    requires
        m.well_formed(),
        m.num_rows() == 1,
        rebuilt.well_formed(),
        rebuilt.num_rows() == 1,
        rebuilt.num_cols() == m.flat().len(),
        rebuilt.flat() == m.flat(),
    ensures
        rebuilt.num_cols() == m.num_cols(),
        rebuilt.rows() == m.rows(),
{
    assert(m.flat().len() == 1 * m.num_cols());
    assert forall|i: int| 0 <= i < 1 implies rebuilt.rows()[i] == m.rows()[i] by {
        assert forall|j: int|
            0 <= j < m.num_cols() implies rebuilt.rows()[0][j] == m.rows()[0][j] by {
            assert(rebuilt.rows()[0][j] == rebuilt.flat()[0 * rebuilt.num_cols() + j]);
            assert(m.rows()[0][j] == m.flat()[0 * m.num_cols() + j]);
        }
        assert(rebuilt.rows()[0] =~= m.rows()[0]);
    }
    assert(rebuilt.rows() =~= m.rows());
}

} // verus!

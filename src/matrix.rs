//! A dense matrix stored as one row-major sequence.
use vstd::prelude::*;

use crate::error::Error;
use crate::kernel::{accumulates_to, zipped_by};
use crate::vector::{accumulate, zip_vecs, Vector};

verus! {

/// `data` read as a row-major grid with `cols` columns: the entry at `(i, j)`.
pub open spec fn at<T>(data: Seq<T>, cols: int, i: int, j: int) -> T {
    data[i * cols + j]
}

/// Row `i` of a row-major grid: `cols` entries.
pub open spec fn row_of<T>(data: Seq<T>, cols: int, i: int) -> Seq<T> {
    Seq::new(cols as nat, |k: int| at(data, cols, i, k))
}

/// Column `j` of a row-major grid of `rows` rows.
pub open spec fn column_of<T>(data: Seq<T>, rows: int, cols: int, j: int) -> Seq<T> {
    Seq::new(rows as nat, |k: int| at(data, cols, k, j))
}

/// The flat index of `(i, j)` lies inside a `rows` by `cols` grid.
pub proof fn lemma_index_in_grid(i: int, j: int, rows: int, cols: int)
    requires
        0 <= i < rows,
        0 <= j < cols,
    ensures
        0 <= i * cols + j < rows * cols,
        i * cols + j + 1 <= (i + 1) * cols,
{
    assert(0 <= i * cols + j < rows * cols && i * cols + j + 1 <= (i + 1) * cols) by (nonlinear_arith)
        requires
            0 <= i < rows,
            0 <= j < cols,
    ;
}

/// A dense `rows` by `cols` matrix of scalars of type `T`, stored row after
/// row in `data`.
#[derive(Debug, Clone)]
pub struct Matrix<T> {
    pub rows: usize,
    pub cols: usize,
    pub data: Vec<T>,
}

impl<T> Matrix<T> {
    /// The backing sequence holds exactly `rows * cols` entries, a count that
    /// fits in a `usize`.
    pub open spec fn wf(&self) -> bool {
        &&& self.data@.len() == self.rows * self.cols
        &&& self.rows * self.cols <= usize::MAX
    }

    /// The entry at row `i`, column `j`.
    pub open spec fn entry(&self, i: int, j: int) -> T {
        at(self.data@, self.cols as int, i, j)
    }

    pub open spec fn row(&self, i: int) -> Seq<T> {
        row_of(self.data@, self.cols as int, i)
    }

    pub open spec fn column(&self, j: int) -> Seq<T> {
        column_of(self.data@, self.rows as int, self.cols as int, j)
    }

    /// `t` is this matrix with rows and columns swapped.
    pub open spec fn is_transposed_by(&self, t: Matrix<T>) -> bool {
        &&& t.wf()
        &&& t.rows == self.cols
        &&& t.cols == self.rows
        &&& forall|i: int, j: int|
            0 <= i < self.cols && 0 <= j < self.rows ==> #[trigger] t.entry(i, j) == self.entry(j, i)
    }
}

impl<T: Copy> Matrix<T> {
    /// A `rows` by `cols` matrix with every entry equal to `value`.
    pub fn new(rows: usize, cols: usize, value: T) -> (r: Matrix<T>)
        requires
            rows * cols <= usize::MAX,
        ensures
            r.wf(),
            r.rows == rows,
            r.cols == cols,
            r.data@ == Seq::new((rows * cols) as nat, |_i: int| value),
    {
        let n = rows * cols;
        let v = Vector::new(n, value);
        Matrix { rows, cols, data: v.data }
    }

    /// The `len` by `len` identity: `one` on the diagonal, `zero` elsewhere.
    pub fn identity(len: usize, zero: T, one: T) -> (r: Matrix<T>)
        requires
            len * len <= usize::MAX,
        ensures
            r.wf(),
            r.rows == len,
            r.cols == len,
            forall|i: int, j: int|
                0 <= i < len && 0 <= j < len ==> #[trigger] r.entry(i, j) == (if i == j {
                    one
                } else {
                    zero
                }),
    {
        let mut data: Vec<T> = Vec::with_capacity(len * len);
        let mut i: usize = 0;
        while i < len
            invariant
                i <= len,
                len * len <= usize::MAX,
                data@.len() == i * len,
                forall|a: int, b: int|
                    0 <= a < i && 0 <= b < len ==> #[trigger] at(data@, len as int, a, b) == (if a
                        == b {
                        one
                    } else {
                        zero
                    }),
            decreases len - i,
        {
            let mut j: usize = 0;
            while j < len
                invariant
                    i < len,
                    j <= len,
                    len * len <= usize::MAX,
                    data@.len() == i * len + j,
                    forall|a: int, b: int|
                        0 <= a < i && 0 <= b < len ==> #[trigger] at(data@, len as int, a, b) == (
                        if a == b {
                            one
                        } else {
                            zero
                        }),
                    forall|b: int|
                        0 <= b < j ==> #[trigger] at(data@, len as int, i as int, b) == (if i == b {
                            one
                        } else {
                            zero
                        }),
                decreases len - j,
            {
                proof {
                    lemma_index_in_grid(i as int, j as int, len as int, len as int);
                }
                let ghost before = data@;
                if i == j {
                    data.push(one);
                } else {
                    data.push(zero);
                }
                proof {
                    assert forall|a: int, b: int| 0 <= a < i && 0 <= b < len implies #[trigger] at(
                        data@,
                        len as int,
                        a,
                        b,
                    ) == at(before, len as int, a, b) by {
                        lemma_index_in_grid(a, b, i as int, len as int);
                    }
                    assert forall|b: int| 0 <= b <= j implies #[trigger] at(
                        data@,
                        len as int,
                        i as int,
                        b,
                    ) == (if i == b {
                        one
                    } else {
                        zero
                    }) by {
                        if b < j {
                            assert(at(data@, len as int, i as int, b) == at(
                                before,
                                len as int,
                                i as int,
                                b,
                            ));
                        }
                    }
                }
                j += 1;
            }
            proof {
                assert(data@.len() == (i + 1) * len) by (nonlinear_arith)
                    requires
                        data@.len() == i * len + len,
                ;
            }
            i += 1;
        }
        Matrix { rows: len, cols: len, data }
    }

    /// The pair `(rows, cols)`.
    pub fn shape(&self) -> (r: (usize, usize))
        ensures
            r == (self.rows, self.cols),
    {
        (self.rows, self.cols)
    }
    /// The entry at `(row, col)`, or `None` outside the matrix.
    pub fn get(&self, row: usize, col: usize) -> (r: Option<T>)
        requires
            self.wf(),
        ensures
            r == (if row < self.rows && col < self.cols {
                Some(self.entry(row as int, col as int))
            } else {
                None
            }),
    {
        if row >= self.rows || col >= self.cols {
            return None;
        }
        proof {
            lemma_index_in_grid(row as int, col as int, self.rows as int, self.cols as int);
        }
        Some(self.data[row * self.cols + col])
    }

    /// Writes `s` at `(row, col)`; outside the matrix it fails with
    /// `MatrixIndexOutOfBounds` and leaves the matrix as it was.
    pub fn set(&mut self, row: usize, col: usize, s: T) -> (r: Result<(), Error>)
        requires
            old(self).wf(),
        ensures
            final(self).wf(),
            final(self).rows == old(self).rows,
            final(self).cols == old(self).cols,
            row < old(self).rows && col < old(self).cols ==> r == Ok::<(), Error>(())
                && final(self).data@ == old(self).data@.update(row * old(self).cols + col, s),
            !(row < old(self).rows && col < old(self).cols) ==> r == Err::<(), Error>(
                Error::MatrixIndexOutOfBounds,
            ) && final(self).data@ == old(self).data@,
    {
        if row >= self.rows || col >= self.cols {
            return Err(Error::MatrixIndexOutOfBounds);
        }
        proof {
            lemma_index_in_grid(row as int, col as int, self.rows as int, self.cols as int);
        }
        let idx = row * self.cols + col;
        self.data.set(idx, s);
        Ok(())
    }

    /// A new matrix with rows and columns swapped; `self` is not changed.
    pub fn transpose(&self) -> (r: Matrix<T>)
        requires
            self.wf(),
        ensures
            self.is_transposed_by(r),
    {
        let rows = self.rows;
        let cols = self.cols;
        let mut data: Vec<T> = Vec::with_capacity(self.data.len());
        let mut i: usize = 0;
        while i < cols
            invariant
                self.wf(),
                rows == self.rows,
                cols == self.cols,
                rows * cols <= usize::MAX,
                i <= cols,
                data@.len() == i * rows,
                forall|a: int, b: int|
                    0 <= a < i && 0 <= b < rows ==> #[trigger] at(data@, rows as int, a, b)
                        == self.entry(b, a),
            decreases cols - i,
        {
            let mut j: usize = 0;
            while j < rows
                invariant
                    self.wf(),
                    rows == self.rows,
                    cols == self.cols,
                    rows * cols <= usize::MAX,
                    i < cols,
                    j <= rows,
                    data@.len() == i * rows + j,
                    forall|a: int, b: int|
                        0 <= a < i && 0 <= b < rows ==> #[trigger] at(data@, rows as int, a, b)
                            == self.entry(b, a),
                    forall|b: int|
                        0 <= b < j ==> #[trigger] at(data@, rows as int, i as int, b)
                            == self.entry(b, i as int),
                decreases rows - j,
            {
                proof {
                    lemma_index_in_grid(j as int, i as int, rows as int, cols as int);
                    lemma_index_in_grid(i as int, j as int, cols as int, rows as int);
                }
                let ghost before = data@;
                data.push(self.data[j * cols + i]);
                proof {
                    assert forall|a: int, b: int| 0 <= a < i && 0 <= b < rows implies #[trigger] at(
                        data@,
                        rows as int,
                        a,
                        b,
                    ) == at(before, rows as int, a, b) by {
                        lemma_index_in_grid(a, b, i as int, rows as int);
                    }
                    assert forall|b: int| 0 <= b <= j implies #[trigger] at(
                        data@,
                        rows as int,
                        i as int,
                        b,
                    ) == self.entry(b, i as int) by {
                        if b < j {
                            assert(at(data@, rows as int, i as int, b) == at(
                                before,
                                rows as int,
                                i as int,
                                b,
                            ));
                        }
                    }
                }
                j += 1;
            }
            proof {
                assert(data@.len() == (i + 1) * rows) by (nonlinear_arith)
                    requires
                        data@.len() == i * rows + rows,
                ;
            }
            i += 1;
        }
        proof {
            assert(cols * rows == rows * cols) by (nonlinear_arith);
        }
        Matrix { rows: cols, cols: rows, data }
    }
    /// Combines two matrices of the same shape entry by entry with `f`
    /// (`+` or `-`, for instance). Shapes that differ give `MatDimensionMismatch`.
    pub fn zip_with<F: Fn(T, T) -> T>(&self, other: &Matrix<T>, f: F) -> (r: Result<
        Matrix<T>,
        Error,
    >)
        requires
            self.wf(),
            other.wf(),
            forall|x: T, y: T| f.requires((x, y)),
        ensures
            (self.rows != other.rows || self.cols != other.cols) ==> r == Err::<Matrix<T>, Error>(
                Error::MatDimensionMismatch,
            ),
            (self.rows == other.rows && self.cols == other.cols) ==> r is Ok && r->Ok_0.wf()
                && r->Ok_0.rows == self.rows && r->Ok_0.cols == self.cols && zipped_by(
                f,
                self.data@,
                other.data@,
                r->Ok_0.data@,
            ),
    {
        if self.rows != other.rows || self.cols != other.cols {
            return Err(Error::MatDimensionMismatch);
        }
        let data = zip_vecs(&self.data, &other.data, &f);
        Ok(Matrix { rows: self.rows, cols: self.cols, data })
    }

    /// The product with a column vector: entry `i` accumulates `step(acc, a, b)`
    /// from `zero` over row `i` and `vec`, left to right (with
    /// `acc + a * b`: the ordinary product). A vector whose length is not the
    /// column count gives `MatDimensionMismatch`.
    pub fn vec_mul<F: Fn(T, T, T) -> T>(&self, vec: &Vector<T>, zero: T, step: F) -> (r: Result<
        Vector<T>,
        Error,
    >)
        requires
            self.wf(),
            forall|acc: T, x: T, y: T| step.requires((acc, x, y)),
        ensures
            self.cols != vec@.len() ==> r == Err::<Vector<T>, Error>(Error::MatDimensionMismatch),
            self.cols == vec@.len() ==> r is Ok && r->Ok_0@.len() == self.rows && forall|i: int|
                0 <= i < self.rows ==> accumulates_to(
                    step,
                    zero,
                    self.row(i),
                    vec@,
                    #[trigger] r->Ok_0@[i],
                ),
    {
        if self.cols != vec.len() {
            return Err(Error::MatDimensionMismatch);
        }
        let rows = self.rows;
        let cols = self.cols;
        let mut out: Vec<T> = Vec::with_capacity(rows);
        let mut i: usize = 0;
        while i < rows
            invariant
                self.wf(),
                rows == self.rows,
                cols == self.cols,
                cols == vec@.len(),
                rows * cols <= usize::MAX,
                i <= rows,
                out@.len() == i,
                forall|acc: T, x: T, y: T| step.requires((acc, x, y)),
                forall|a: int|
                    0 <= a < i ==> accumulates_to(step, zero, self.row(a), vec@, #[trigger] out@[a]),
            decreases rows - i,
        {
            let row = self.row_vec(i);
            let v = accumulate(&row, &vec.data, zero, &step);
            out.push(v);
            i += 1;
        }
        Ok(Vector { data: out })
    }

    /// The matrix product: entry `(i, j)` accumulates `step(acc, a, b)` from
    /// `zero` over row `i` of `self` and column `j` of `other`, left to right
    /// (with `acc + a * b`: the ordinary product). When `self`'s column count is
    /// not `other`'s row count the result is `MatDimensionMismatch`.
    pub fn mat_mul<F: Fn(T, T, T) -> T>(&self, other: &Matrix<T>, zero: T, step: F) -> (r: Result<
        Matrix<T>,
        Error,
    >)
        requires
            self.wf(),
            other.wf(),
            self.rows * other.cols <= usize::MAX,
            forall|acc: T, x: T, y: T| step.requires((acc, x, y)),
        ensures
            self.cols != other.rows ==> r == Err::<Matrix<T>, Error>(Error::MatDimensionMismatch),
            self.cols == other.rows ==> r is Ok && r->Ok_0.wf() && r->Ok_0.rows == self.rows
                && r->Ok_0.cols == other.cols && forall|i: int, j: int|
                0 <= i < self.rows && 0 <= j < other.cols ==> accumulates_to(
                    step,
                    zero,
                    self.row(i),
                    other.column(j),
                    #[trigger] r->Ok_0.entry(i, j),
                ),
    {
        if self.cols != other.rows {
            return Err(Error::MatDimensionMismatch);
        }
        let rows = self.rows;
        let ocols = other.cols;
        let mut data: Vec<T> = Vec::with_capacity(rows * ocols);
        let mut i: usize = 0;
        while i < rows
            invariant
                self.wf(),
                other.wf(),
                rows == self.rows,
                ocols == other.cols,
                self.cols == other.rows,
                rows * ocols <= usize::MAX,
                i <= rows,
                data@.len() == i * ocols,
                forall|acc: T, x: T, y: T| step.requires((acc, x, y)),
                forall|a: int, b: int|
                    0 <= a < i && 0 <= b < ocols ==> accumulates_to(
                        step,
                        zero,
                        self.row(a),
                        other.column(b),
                        #[trigger] at(data@, ocols as int, a, b),
                    ),
            decreases rows - i,
        {
            let row = self.row_vec(i);
            let mut j: usize = 0;
            while j < ocols
                invariant
                    self.wf(),
                    other.wf(),
                    rows == self.rows,
                    ocols == other.cols,
                    self.cols == other.rows,
                    rows * ocols <= usize::MAX,
                    i < rows,
                    j <= ocols,
                    row@ == self.row(i as int),
                    data@.len() == i * ocols + j,
                    forall|acc: T, x: T, y: T| step.requires((acc, x, y)),
                    forall|a: int, b: int|
                        0 <= a < i && 0 <= b < ocols ==> accumulates_to(
                            step,
                            zero,
                            self.row(a),
                            other.column(b),
                            #[trigger] at(data@, ocols as int, a, b),
                        ),
                    forall|b: int|
                        0 <= b < j ==> accumulates_to(
                            step,
                            zero,
                            self.row(i as int),
                            other.column(b),
                            #[trigger] at(data@, ocols as int, i as int, b),
                        ),
                decreases ocols - j,
            {
                let col = other.column_vec(j);
                let v = accumulate(&row, &col, zero, &step);
                proof {
                    lemma_index_in_grid(i as int, j as int, rows as int, ocols as int);
                }
                let ghost before = data@;
                data.push(v);
                proof {
                    assert forall|a: int, b: int| 0 <= a < i && 0 <= b < ocols implies #[trigger] at(
                        data@,
                        ocols as int,
                        a,
                        b,
                    ) == at(before, ocols as int, a, b) by {
                        lemma_index_in_grid(a, b, i as int, ocols as int);
                    }
                    assert forall|b: int| 0 <= b <= j implies accumulates_to(
                        step,
                        zero,
                        self.row(i as int),
                        other.column(b),
                        #[trigger] at(data@, ocols as int, i as int, b),
                    ) by {
                        if b < j {
                            assert(at(data@, ocols as int, i as int, b) == at(
                                before,
                                ocols as int,
                                i as int,
                                b,
                            ));
                        }
                    }
                }
                j += 1;
            }
            proof {
                assert(data@.len() == (i + 1) * ocols) by (nonlinear_arith)
                    requires
                        data@.len() == i * ocols + ocols,
                ;
            }
            i += 1;
        }
        Ok(Matrix { rows, cols: ocols, data })
    }

    /// Row `i`, copied out.
    fn row_vec(&self, i: usize) -> (r: Vec<T>)
        requires
            self.wf(),
            i < self.rows,
        ensures
            r@ == self.row(i as int),
    {
        let cols = self.cols;
        let mut out: Vec<T> = Vec::with_capacity(cols);
        let mut k: usize = 0;
        while k < cols
            invariant
                self.wf(),
                cols == self.cols,
                i < self.rows,
                k <= cols,
                out@.len() == k,
                forall|c: int| 0 <= c < k ==> #[trigger] out@[c] == self.entry(i as int, c),
            decreases cols - k,
        {
            proof {
                lemma_index_in_grid(i as int, k as int, self.rows as int, cols as int);
            }
            out.push(self.data[i * cols + k]);
            k += 1;
        }
        assert(out@ =~= self.row(i as int));
        out
    }

    /// Column `j`, copied out.
    fn column_vec(&self, j: usize) -> (r: Vec<T>)
        requires
            self.wf(),
            j < self.cols,
        ensures
            r@ == self.column(j as int),
    {
        let rows = self.rows;
        let cols = self.cols;
        let mut out: Vec<T> = Vec::with_capacity(rows);
        let mut k: usize = 0;
        while k < rows
            invariant
                self.wf(),
                cols == self.cols,
                rows == self.rows,
                j < cols,
                k <= rows,
                out@.len() == k,
                forall|c: int| 0 <= c < k ==> #[trigger] out@[c] == self.entry(c, j as int),
            decreases rows - k,
        {
            proof {
                lemma_index_in_grid(k as int, j as int, rows as int, cols as int);
            }
            out.push(self.data[k * cols + j]);
            k += 1;
        }
        assert(out@ =~= self.column(j as int));
        out
    }
}

/// Transposing a matrix twice gives it back, entry for entry.
pub proof fn lemma_transpose_twice<T>(a: Matrix<T>, t: Matrix<T>, tt: Matrix<T>)
    requires
        a.wf(),
        a.is_transposed_by(t),
        t.is_transposed_by(tt),
    ensures
        tt.rows == a.rows,
        tt.cols == a.cols,
        tt.data@ == a.data@,
{
    let cols = a.cols as int;
    assert forall|x: int| 0 <= x < a.data@.len() implies #[trigger] tt.data@[x] == a.data@[x] by {
        let i = x / cols;
        let j = x % cols;
        let rows = a.rows as int;
        assert(cols > 0) by (nonlinear_arith)
            requires
                0 <= x < rows * cols,
                rows >= 0,
                cols >= 0,
        ;
        vstd::arithmetic::div_mod::lemma_fundamental_div_mod(x, cols);
        assert(0 <= j < cols);
        assert(0 <= i < rows) by (nonlinear_arith)
            requires
                x == cols * i + j,
                0 <= j < cols,
                0 <= x < rows * cols,
        ;
        assert(x == i * cols + j) by (nonlinear_arith)
            requires
                x == cols * i + j,
        ;
        assert(tt.entry(i, j) == t.entry(j, i));
        assert(t.entry(j, i) == a.entry(i, j));
    }
    assert(tt.data@ =~= a.data@);
}

} // verus!

//! Dense matrices of fixed-point numbers, stored row by row.
use vstd::prelude::*;
use crate::error::GeomError;
use crate::fixed::{abs, fx, fx_i128, in_range, LIMIT, ONE};

verus! {

/// Largest number of rows or columns of a matrix.
pub const MAX_DIM: usize = 65536;

/// A `rows` x `cols` matrix; `values[row][col]` holds the entry.
#[derive(Clone, Debug)]
pub struct Matrix {
    values: Vec<Vec<i64>>,
    cols: usize,
    rows: usize,
}

/// The entries of a vector of rows.
pub open spec fn rows_view(rows: Seq<Vec<i64>>) -> Seq<Seq<i64>> {
    rows.map_values(|row: Vec<i64>| row@)
}

/// `sum over j < k of a[r][j] * b[j][c]`.
pub open spec fn dot_sum(a: Seq<Seq<i64>>, b: Seq<Seq<i64>>, r: int, c: int, k: int) -> int
    decreases k,
{
    if k <= 0 {
        0
    } else {
        dot_sum(a, b, r, c, k - 1) + a[r][k - 1] * b[k - 1][c]
    }
}

/// Entry `(r, c)` of the product of `a` (with `n` columns) and `b`.
pub open spec fn product_entry(a: Seq<Seq<i64>>, b: Seq<Seq<i64>>, n: int, r: int, c: int) -> int {
    fx(dot_sum(a, b, r, c, n))
}

/// A grid of `rows` rows of `cols` entries each.
pub open spec fn has_shape(m: Seq<Seq<i64>>, cols: int, rows: int) -> bool {
    m.len() == rows && forall|r: int| 0 <= r < rows ==> #[trigger] m[r].len() == cols
}

/// Every entry of the grid lies in the representable range.
pub open spec fn all_in_range(m: Seq<Seq<i64>>) -> bool {
    forall|r: int, c: int|
        0 <= r < m.len() && 0 <= c < m[r].len() ==> in_range(#[trigger] m[r][c] as int)
}

/// Every entry of the product of `a` and `b` lies in the representable range.
pub open spec fn product_in_range(a: Seq<Seq<i64>>, b: Seq<Seq<i64>>, n: int, rows: int, cols: int) -> bool {
    forall|r: int, c: int|
        0 <= r < rows && 0 <= c < cols ==> in_range(#[trigger] product_entry(a, b, n, r, c))
}

/// Every entry sum of `a` and `b` lies in the representable range.
pub open spec fn sum_in_range(a: Seq<Seq<i64>>, b: Seq<Seq<i64>>, rows: int, cols: int) -> bool {
    forall|r: int, c: int|
        0 <= r < rows && 0 <= c < cols ==> in_range(#[trigger] a[r][c] + b[r][c])
}

impl Matrix {
    pub closed spec fn view(&self) -> Seq<Seq<i64>> {
        rows_view(self.values@)
    }

    pub closed spec fn spec_cols(&self) -> nat {
        self.cols as nat
    }

    pub closed spec fn spec_rows(&self) -> nat {
        self.rows as nat
    }

    /// The shape is consistent, bounded, and every entry is in range.
    pub open spec fn wf(&self) -> bool {
        &&& has_shape(self@, self.spec_cols() as int, self.spec_rows() as int)
        &&& self.spec_cols() <= MAX_DIM
        &&& self.spec_rows() <= MAX_DIM
        &&& all_in_range(self@)
    }

    pub fn cols(&self) -> (r: usize)
        ensures
            r == self.spec_cols(),
    {
        self.cols
    }

    pub fn rows(&self) -> (r: usize)
        ensures
            r == self.spec_rows(),
    {
        self.rows
    }

    /// A zero matrix of `size[0]` columns and `size[1]` rows.
    pub fn new(size: Vec<usize>) -> (r: Matrix)
        requires
            size@.len() >= 2,
            size@[0] <= MAX_DIM,
            size@[1] <= MAX_DIM,
        ensures
            r.wf(),
            r.spec_cols() == size@[0],
            r.spec_rows() == size@[1],
            forall|i: int, j: int| 0 <= i < size@[1] && 0 <= j < size@[0] ==> #[trigger] r@[i][j] == 0,
    {
        let cols = size[0];
        let rows = size[1];
        let mut values: Vec<Vec<i64>> = Vec::new();
        let mut i: usize = 0;
        while i < rows
            invariant
                i <= rows,
                values@.len() == i,
                forall|k: int| 0 <= k < i ==> #[trigger] values@[k]@.len() == cols,
                forall|k: int, j: int| 0 <= k < i && 0 <= j < cols ==> #[trigger] values@[k]@[j] == 0,
            decreases rows - i,
        {
            let row: Vec<i64> = zero_row(cols);
            values.push(row);
            i = i + 1;
        }
        Matrix { values, cols, rows }
    }

    /// The matrix whose rows are `arr`; all rows must have one length.
    pub fn from_arr(arr: Vec<Vec<i64>>) -> (r: Result<Matrix, GeomError>)
        requires
            arr@.len() > 0,
            arr@.len() <= MAX_DIM,
            arr@[0]@.len() <= MAX_DIM,
        ensures
            !has_shape(rows_view(arr@), arr@[0]@.len() as int, arr@.len() as int)
                <==> r == Err::<Matrix, GeomError>(GeomError::ShapeMismatch),
            has_shape(rows_view(arr@), arr@[0]@.len() as int, arr@.len() as int)
                && !all_in_range(rows_view(arr@))
                <==> r == Err::<Matrix, GeomError>(GeomError::OutOfRange),
            has_shape(rows_view(arr@), arr@[0]@.len() as int, arr@.len() as int)
                && all_in_range(rows_view(arr@)) ==> r is Ok,
            r is Ok ==> r->Ok_0.wf() && r->Ok_0@ == rows_view(arr@)
                && r->Ok_0.spec_cols() == arr@[0]@.len() && r->Ok_0.spec_rows() == arr@.len(),
    {
        let rows = arr.len();
        let cols = arr[0].len();
        let ghost m = rows_view(arr@);
        let mut i: usize = 0;
        while i < rows
            invariant
                i <= rows,
                rows == arr@.len(),
                m == rows_view(arr@),
                forall|k: int| 0 <= k < i ==> #[trigger] m[k].len() == cols,
                cols == arr@[0]@.len(),
            decreases rows - i,
        {
            if arr[i].len() != cols {
                assert(m[i as int] == arr@[i as int]@);
                return Err(GeomError::ShapeMismatch);
            }
            i = i + 1;
        }
        let mut i: usize = 0;
        while i < rows
            invariant
                i <= rows,
                rows == arr@.len(),
                m == rows_view(arr@),
                has_shape(m, cols as int, rows as int),
                cols == arr@[0]@.len(),
                forall|k: int, j: int| 0 <= k < i && 0 <= j < m[k].len() ==> in_range(#[trigger] m[k][j] as int),
            decreases rows - i,
        {
            let mut j: usize = 0;
            while j < cols
                invariant
                    j <= cols,
                    i < rows,
                    rows == arr@.len(),
                    m == rows_view(arr@),
                    has_shape(m, cols as int, rows as int),
                    cols == arr@[0]@.len(),
                    forall|k: int, l: int| 0 <= k < i && 0 <= l < m[k].len() ==> in_range(#[trigger] m[k][l] as int),
                    forall|l: int| 0 <= l < j ==> in_range(#[trigger] m[i as int][l] as int),
                decreases cols - j,
            {
                assert(m[i as int].len() == cols);
                let v = arr[i][j];
                if v < -LIMIT || v > LIMIT {
                    assert(m[i as int] == arr@[i as int]@);
                    return Err(GeomError::OutOfRange);
                }
                j = j + 1;
            }
            i = i + 1;
        }
        Ok(Matrix { values: arr, cols, rows })
    }
}

impl Matrix {
    /// The entry in row `row` and column `col`, which must lie in the shape.
    pub fn at(&self, row: usize, col: usize) -> (r: i64)
        requires
            self.wf(),
            row < self.spec_rows(),
            col < self.spec_cols(),
        ensures
            r == self@[row as int][col as int],
            in_range(r as int),
    {
        assert(self@[row as int] == self.values@[row as int]@);
        self.values[row][col]
    }

    /// The entry at column `p[0]`, row `p[1]`.
    pub fn get(&self, p: &Vec<usize>) -> (r: Result<i64, GeomError>)
        requires
            self.wf(),
        ensures
            p@.len() < 2 || p@[0] >= self.spec_cols() || p@[1] >= self.spec_rows()
                <==> r == Err::<i64, GeomError>(GeomError::IndexOutOfBounds),
            p@.len() >= 2 && p@[0] < self.spec_cols() && p@[1] < self.spec_rows() ==> r is Ok,
            r is Ok ==> r->Ok_0 == self@[p@[1] as int][p@[0] as int],
    {
        if p.len() < 2 || p[0] >= self.cols || p[1] >= self.rows {
            return Err(GeomError::IndexOutOfBounds);
        }
        assert(self@[p@[1] as int] == self.values@[p@[1] as int]@);
        Ok(self.values[p[1]][p[0]])
    }

    /// Overwrites the entry at column `p[0]`, row `p[1]`; on an error the
    /// matrix is left as it was.
    pub fn set(&mut self, p: &Vec<usize>, v: i64) -> (r: Result<(), GeomError>)
        requires
            old(self).wf(),
        ensures
            final(self).wf(),
            final(self).spec_cols() == old(self).spec_cols(),
            final(self).spec_rows() == old(self).spec_rows(),
            p@.len() < 2 || p@[0] >= old(self).spec_cols() || p@[1] >= old(self).spec_rows()
                <==> r == Err::<(), GeomError>(GeomError::IndexOutOfBounds),
            !(p@.len() < 2 || p@[0] >= old(self).spec_cols() || p@[1] >= old(self).spec_rows())
                && !in_range(v as int) <==> r == Err::<(), GeomError>(GeomError::OutOfRange),
            !(p@.len() < 2 || p@[0] >= old(self).spec_cols() || p@[1] >= old(self).spec_rows())
                && in_range(v as int) ==> r is Ok,
            r is Err ==> final(self)@ == old(self)@,
            r is Ok ==> final(self)@ == old(self)@.update(
                p@[1] as int,
                old(self)@[p@[1] as int].update(p@[0] as int, v),
            ),
    {
        if p.len() < 2 || p[0] >= self.cols || p[1] >= self.rows {
            return Err(GeomError::IndexOutOfBounds);
        }
        if v < -LIMIT || v > LIMIT {
            return Err(GeomError::OutOfRange);
        }
        let c = p[0];
        let r = p[1];
        let ghost before = self@;
        assert(before[r as int] == self.values@[r as int]@);
        let mut row = copy_row(&self.values[r]);
        row.set(c, v);
        self.values.set(r, row);
        proof {
            assert(self@ =~= before.update(r as int, before[r as int].update(c as int, v)));
            assert(has_shape(self@, self.spec_cols() as int, self.spec_rows() as int)) by {
                assert forall|k: int| 0 <= k < self.rows implies #[trigger] self@[k].len() == self.cols by {
                    assert(before[k].len() == self.cols);
                }
            }
            assert forall|i: int, j: int| 0 <= i < self@.len() && 0 <= j < self@[i].len()
                implies in_range(#[trigger] self@[i][j] as int) by {
                if i != r as int || j != c as int {
                    assert(self@[i][j] == before[i][j]);
                }
            }
        }
        Ok(())
    }

    /// The entry-wise sum; both operands must have one shape.
    pub fn add(&self, other: &Matrix) -> (r: Result<Matrix, GeomError>)
        requires
            self.wf(),
            other.wf(),
        ensures
            self.spec_cols() != other.spec_cols() || self.spec_rows() != other.spec_rows()
                <==> r == Err::<Matrix, GeomError>(GeomError::ShapeMismatch),
            self.spec_cols() == other.spec_cols() && self.spec_rows() == other.spec_rows()
                && !sum_in_range(self@, other@, self.spec_rows() as int, self.spec_cols() as int)
                <==> r == Err::<Matrix, GeomError>(GeomError::OutOfRange),
            self.spec_cols() == other.spec_cols() && self.spec_rows() == other.spec_rows()
                && sum_in_range(self@, other@, self.spec_rows() as int, self.spec_cols() as int) ==> r is Ok,
            r is Ok ==> r->Ok_0.wf() && r->Ok_0.spec_cols() == self.spec_cols()
                && r->Ok_0.spec_rows() == self.spec_rows()
                && forall|i: int, j: int| 0 <= i < self.spec_rows() && 0 <= j < self.spec_cols()
                    ==> #[trigger] r->Ok_0@[i][j] == self@[i][j] + other@[i][j],
    {
        if self.cols != other.cols || self.rows != other.rows {
            return Err(GeomError::ShapeMismatch);
        }
        let mut values: Vec<Vec<i64>> = Vec::new();
        let mut i: usize = 0;
        while i < self.rows
            invariant
                self.wf(),
                other.wf(),
                self.cols == other.cols,
                self.rows == other.rows,
                i <= self.rows,
                values@.len() == i,
                forall|k: int| 0 <= k < i ==> #[trigger] values@[k]@.len() == self.cols,
                forall|k: int, j: int| 0 <= k < i && 0 <= j < self.cols
                    ==> #[trigger] values@[k]@[j] == self@[k][j] + other@[k][j]
                        && in_range(values@[k]@[j] as int),
            decreases self.rows - i,
        {
            let mut row: Vec<i64> = Vec::new();
            let mut j: usize = 0;
            while j < self.cols
                invariant
                    self.wf(),
                    other.wf(),
                    self.cols == other.cols,
                    self.rows == other.rows,
                    i < self.rows,
                    j <= self.cols,
                    row@.len() == j,
                    values@.len() == i,
                    forall|k: int| 0 <= k < i ==> #[trigger] values@[k]@.len() == self.cols,
                    forall|k: int, l: int| 0 <= k < i && 0 <= l < self.cols
                        ==> #[trigger] values@[k]@[l] == self@[k][l] + other@[k][l]
                            && in_range(values@[k]@[l] as int),
                    forall|l: int| 0 <= l < j ==> #[trigger] row@[l] == self@[i as int][l] + other@[i as int][l]
                        && in_range(row@[l] as int),
                decreases self.cols - j,
            {
                assert(self@[i as int] == self.values@[i as int]@);
                assert(other@[i as int] == other.values@[i as int]@);
                assert(self@[i as int].len() == self.cols && other@[i as int].len() == self.cols);
                let a = self.values[i][j];
                let b = other.values[i][j];
                assert(in_range(self@[i as int][j as int] as int));
                assert(in_range(other@[i as int][j as int] as int));
                let s = a + b;
                if s < -LIMIT || s > LIMIT {
                    assert(!in_range(self@[i as int][j as int] + other@[i as int][j as int]));
                    return Err(GeomError::OutOfRange);
                }
                row.push(s);
                j = j + 1;
            }
            values.push(row);
            proof {
                assert forall|k: int, l: int| 0 <= k <= i && 0 <= l < self.cols
                    implies #[trigger] values@[k]@[l] == self@[k][l] + other@[k][l]
                        && in_range(values@[k]@[l] as int) by {
                    if k < i as int {
                    }
                }
            }
            i = i + 1;
        }
        let out = Matrix { values, cols: self.cols, rows: self.rows };
        proof {
            assert forall|k: int, l: int| 0 <= k < self.spec_rows() && 0 <= l < self.spec_cols()
                implies in_range(#[trigger] (self@[k][l] + other@[k][l])) by {
                assert(out@[k] == out.values@[k]@);
                assert(values@[k]@[l] == self@[k][l] + other@[k][l]);
            }
            assert forall|k: int, l: int| 0 <= k < out@.len() && 0 <= l < out@[k].len()
                implies in_range(#[trigger] out@[k][l] as int) by {
                assert(out@[k] == out.values@[k]@);
            }
            assert forall|k: int, l: int| 0 <= k < self.spec_rows() && 0 <= l < self.spec_cols()
                implies #[trigger] out@[k][l] == self@[k][l] + other@[k][l] by {
                assert(out@[k] == out.values@[k]@);
            }
        }
        Ok(out)
    }
}

impl Matrix {
    /// The matrix with rows and columns swapped: `out[r][c] == in[c][r]`.
    pub fn transpose(self) -> (r: Matrix)
        requires
            self.wf(),
        ensures
            r.wf(),
            r.spec_cols() == self.spec_rows(),
            r.spec_rows() == self.spec_cols(),
            forall|i: int, j: int| 0 <= i < self.spec_cols() && 0 <= j < self.spec_rows()
                ==> #[trigger] r@[i][j] == self@[j][i],
    {
        let mut values: Vec<Vec<i64>> = Vec::new();
        let mut i: usize = 0;
        while i < self.cols
            invariant
                self.wf(),
                i <= self.cols,
                values@.len() == i,
                forall|k: int| 0 <= k < i ==> #[trigger] values@[k]@.len() == self.rows,
                forall|k: int, j: int| 0 <= k < i && 0 <= j < self.rows
                    ==> #[trigger] values@[k]@[j] == self@[j][k],
            decreases self.cols - i,
        {
            let mut row: Vec<i64> = Vec::new();
            let mut j: usize = 0;
            while j < self.rows
                invariant
                    self.wf(),
                    i < self.cols,
                    j <= self.rows,
                    row@.len() == j,
                    forall|l: int| 0 <= l < j ==> #[trigger] row@[l] == self@[l][i as int],
                decreases self.rows - j,
            {
                assert(self@[j as int] == self.values@[j as int]@);
                row.push(self.values[j][i]);
                j = j + 1;
            }
            values.push(row);
            i = i + 1;
        }
        let out = Matrix { values, cols: self.rows, rows: self.cols };
        proof {
            assert forall|k: int, l: int| 0 <= k < out@.len() && 0 <= l < out@[k].len()
                implies in_range(#[trigger] out@[k][l] as int) by {
                assert(out@[k] == out.values@[k]@);
                assert(self@[l].len() == self.cols);
            }
            assert forall|k: int, l: int| 0 <= k < self.spec_cols() && 0 <= l < self.spec_rows()
                implies #[trigger] out@[k][l] == self@[l][k] by {
                assert(out@[k] == out.values@[k]@);
            }
        }
        out
    }

    /// The matrix product `self * other`, of `other`'s columns and `self`'s
    /// rows; `self` must have as many columns as `other` has rows.
    pub fn dot(&self, other: &Self) -> (r: Result<Matrix, GeomError>)
        requires
            self.wf(),
            other.wf(),
        ensures
            self.spec_cols() != other.spec_rows() <==> r == Err::<Matrix, GeomError>(GeomError::ShapeMismatch),
            self.spec_cols() == other.spec_rows() && !product_in_range(
                self@,
                other@,
                self.spec_cols() as int,
                self.spec_rows() as int,
                other.spec_cols() as int,
            ) <==> r == Err::<Matrix, GeomError>(GeomError::OutOfRange),
            self.spec_cols() == other.spec_rows() && product_in_range(
                self@,
                other@,
                self.spec_cols() as int,
                self.spec_rows() as int,
                other.spec_cols() as int,
            ) ==> r is Ok,
            r is Ok ==> r->Ok_0.wf() && r->Ok_0.spec_cols() == other.spec_cols()
                && r->Ok_0.spec_rows() == self.spec_rows()
                && forall|i: int, j: int| 0 <= i < self.spec_rows() && 0 <= j < other.spec_cols()
                    ==> #[trigger] r->Ok_0@[i][j] == product_entry(self@, other@, self.spec_cols() as int, i, j),
    {
        if self.cols != other.rows {
            return Err(GeomError::ShapeMismatch);
        }
        let ghost n = self.cols as int;
        let mut values: Vec<Vec<i64>> = Vec::new();
        let mut i: usize = 0;
        while i < self.rows
            invariant
                self.wf(),
                other.wf(),
                self.cols == other.rows,
                n == self.cols,
                i <= self.rows,
                values@.len() == i,
                forall|k: int| 0 <= k < i ==> #[trigger] values@[k]@.len() == other.cols,
                forall|k: int, j: int| 0 <= k < i && 0 <= j < other.cols
                    ==> #[trigger] values@[k]@[j] == product_entry(self@, other@, n, k, j)
                        && in_range(values@[k]@[j] as int),
            decreases self.rows - i,
        {
            let mut row: Vec<i64> = Vec::new();
            let mut j: usize = 0;
            while j < other.cols
                invariant
                    self.wf(),
                    other.wf(),
                    self.cols == other.rows,
                    n == self.cols,
                    i < self.rows,
                    j <= other.cols,
                    row@.len() == j,
                    values@.len() == i,
                    forall|k: int| 0 <= k < i ==> #[trigger] values@[k]@.len() == other.cols,
                    forall|k: int, l: int| 0 <= k < i && 0 <= l < other.cols
                        ==> #[trigger] values@[k]@[l] == product_entry(self@, other@, n, k, l)
                            && in_range(values@[k]@[l] as int),
                    forall|l: int| 0 <= l < j ==> #[trigger] row@[l] == product_entry(self@, other@, n, i as int, l)
                        && in_range(row@[l] as int),
                decreases other.cols - j,
            {
                let sum = dot_entry(self, other, i, j);
                let q = fx_i128(sum);
                if q < -(LIMIT as i128) || q > LIMIT as i128 {
                    assert(!in_range(product_entry(self@, other@, n, i as int, j as int)));
                    return Err(GeomError::OutOfRange);
                }
                row.push(q as i64);
                j = j + 1;
            }
            values.push(row);
            proof {
                assert forall|k: int, l: int| 0 <= k <= i && 0 <= l < other.cols
                    implies #[trigger] values@[k]@[l] == product_entry(self@, other@, n, k, l)
                        && in_range(values@[k]@[l] as int) by {
                    if k < i as int {
                    }
                }
            }
            i = i + 1;
        }
        let out = Matrix { values, cols: other.cols, rows: self.rows };
        proof {
            assert forall|k: int, l: int| 0 <= k < self.spec_rows() && 0 <= l < other.spec_cols()
                implies in_range(#[trigger] product_entry(self@, other@, n, k, l)) by {
                assert(values@[k]@[l] == product_entry(self@, other@, n, k, l));
            }
            assert forall|k: int, l: int| 0 <= k < out@.len() && 0 <= l < out@[k].len()
                implies in_range(#[trigger] out@[k][l] as int) by {
                assert(out@[k] == out.values@[k]@);
            }
            assert forall|k: int, l: int| 0 <= k < self.spec_rows() && 0 <= l < other.spec_cols()
                implies #[trigger] out@[k][l] == product_entry(self@, other@, n, k, l) by {
                assert(out@[k] == out.values@[k]@);
            }
        }
        Ok(out)
    }
}

/// `sum over k of a[r][k] * b[k][c]`, exactly.
fn dot_entry(a: &Matrix, b: &Matrix, r: usize, c: usize) -> (s: i128)
    requires
        a.wf(),
        b.wf(),
        a.spec_cols() == b.spec_rows(),
        r < a.spec_rows(),
        c < b.spec_cols(),
    ensures
        s == dot_sum(a@, b@, r as int, c as int, a.spec_cols() as int),
        abs(s as int) <= 0x1_0000_0000_0000_0000_0000,
{
    let mut sum: i128 = 0;
    let mut k: usize = 0;
    assert(a@[r as int] == a.values@[r as int]@);
    while k < a.cols
        invariant
            a.wf(),
            b.wf(),
            a.spec_cols() == b.spec_rows(),
            r < a.spec_rows(),
            c < b.spec_cols(),
            a@[r as int] == a.values@[r as int]@,
            k <= a.cols,
            sum == dot_sum(a@, b@, r as int, c as int, k as int),
            abs(sum as int) <= k * 0x1_0000_0000_0000_0000,
        decreases a.cols - k,
    {
        assert(b@[k as int] == b.values@[k as int]@);
        assert(b@[k as int].len() == b.cols);
        let x = a.values[r][k];
        let y = b.values[k][c];
        assert(in_range(x as int) && in_range(y as int));
        proof {
            assert(abs(x as int * y as int) <= 0x1_0000_0000_0000_0000) by (nonlinear_arith)
                requires -LIMIT <= x <= LIMIT, -LIMIT <= y <= LIMIT;
            assert((k + 1) * 0x1_0000_0000_0000_0000 <= 0x1_0000_0000_0000_0000_0000) by (nonlinear_arith)
                requires k < 65536;
        }
        sum = sum + (x as i128) * (y as i128);
        k = k + 1;
    }
    assert(a.cols * 0x1_0000_0000_0000_0000 <= 0x1_0000_0000_0000_0000_0000) by (nonlinear_arith)
        requires a.cols <= 65536;
    sum
}

impl Matrix {
    /// The `size[0]` x `size[1]` matrix (columns, rows) whose entry at column
    /// `c`, row `r` is `func(vec![c, r])`; a value out of range is reported.
    pub fn from_fn<F: Fn(Vec<usize>) -> i64>(size: Vec<usize>, func: F) -> (r: Result<Matrix, GeomError>)
        requires
            size@.len() >= 2,
            size@[0] <= MAX_DIM,
            size@[1] <= MAX_DIM,
            forall|p: Vec<usize>| #[trigger] func.requires((p,)),
        ensures
            (forall|p: Vec<usize>, v: i64| #[trigger] func.ensures((p,), v) ==> in_range(v as int)) ==> r is Ok,
            r is Err ==> r == Err::<Matrix, GeomError>(GeomError::OutOfRange)
                && exists|p: Vec<usize>, v: i64| #[trigger] func.ensures((p,), v) && !in_range(v as int),
            r is Ok ==> r->Ok_0.wf() && r->Ok_0.spec_cols() == size@[0] && r->Ok_0.spec_rows() == size@[1]
                && forall|i: int| 0 <= i < size@[1] ==> row_made_by(#[trigger] r->Ok_0@[i], func, size@[0] as int, i),
    {
        let cols = size[0];
        let rows = size[1];
        let mut values: Vec<Vec<i64>> = Vec::new();
        let mut i: usize = 0;
        while i < rows
            invariant
                i <= rows,
                cols == size@[0],
                rows == size@[1],
                cols <= MAX_DIM,
                values@.len() == i,
                forall|p: Vec<usize>| #[trigger] func.requires((p,)),
                forall|k: int| 0 <= k < i ==> row_made_by(values@[k]@, func, cols as int, k),
            decreases rows - i,
        {
            let mut row: Vec<i64> = Vec::new();
            let mut j: usize = 0;
            while j < cols
                invariant
                    i < rows,
                    j <= cols,
                    cols == size@[0],
                    rows == size@[1],
                    cols <= MAX_DIM,
                    values@.len() == i,
                    forall|k: int| 0 <= k < i ==> row_made_by(values@[k]@, func, cols as int, k),
                    row@.len() == j,
                    forall|p: Vec<usize>| #[trigger] func.requires((p,)),
                    forall|l: int| #![trigger row@[l]] 0 <= l < j ==> in_range(row@[l] as int)
                        && exists|p: Vec<usize>| #![trigger func.ensures((p,), row@[l])]
                            p@ == seq![l as usize, i] && func.ensures((p,), row@[l]),
                decreases cols - j,
            {
                let p = vec![j, i];
                let ghost pg = p;
                let v = func(p);
                if v < -LIMIT || v > LIMIT {
                    assert(func.ensures((pg,), v) && !in_range(v as int));
                    return Err(GeomError::OutOfRange);
                }
                let ghost old_row = row@;
                row.push(v);
                proof {
                    assert(pg@ =~= seq![j as usize, i]);
                    assert forall|l: int| #![trigger row@[l]] 0 <= l < j + 1 implies in_range(row@[l] as int)
                        && exists|q: Vec<usize>| #![trigger func.ensures((q,), row@[l])]
                            q@ == seq![l as usize, i] && func.ensures((q,), row@[l]) by {
                        if l < j as int {
                            assert(row@[l] == old_row[l]);
                            assert(in_range(old_row[l] as int));
                        } else {
                            assert(row@[l] == v);
                            assert(pg@ == seq![l as usize, i]);
                            assert(func.ensures((pg,), row@[l]));
                        }
                    }
                }
                j = j + 1;
            }
            assert((i as int) as usize == i);
            assert(row_made_by(row@, func, cols as int, i as int));
            values.push(row);
            assert forall|k: int| 0 <= k < i + 1 implies row_made_by(values@[k]@, func, cols as int, k) by {
                if k == i as int {
                    assert(values@[k] == row);
                }
            }
            i = i + 1;
        }
        let out = Matrix { values, cols, rows };
        proof {
            assert forall|k: int| 0 <= k < rows implies #[trigger] out@[k] == values@[k]@ && row_made_by(out@[k], func, cols as int, k) by {
                assert(out@[k] == out.values@[k]@);
            }
            assert forall|k: int, l: int| 0 <= k < out@.len() && 0 <= l < out@[k].len()
                implies in_range(#[trigger] out@[k][l] as int) by {
                assert(row_made_by(out@[k], func, cols as int, k));
            }
            assert forall|k: int| 0 <= k < rows implies #[trigger] out@[k].len() == cols by {
                assert(row_made_by(out@[k], func, cols as int, k));
            }
            assert(has_shape(out@, cols as int, rows as int));
            assert(out.wf());
            assert(out.spec_cols() == size@[0] && out.spec_rows() == size@[1]);
        }
        Ok(out)
    }
}

/// `row` holds, at each column `l`, a value that `func` may return for `vec![l, k]`,
/// each in range.
pub open spec fn row_made_by<F: Fn(Vec<usize>) -> i64>(row: Seq<i64>, func: F, cols: int, k: int) -> bool {
    &&& row.len() == cols
    &&& forall|l: int| #![trigger row[l]] 0 <= l < cols ==> in_range(row[l] as int)
        && exists|p: Vec<usize>| #![trigger func.ensures((p,), row[l])]
            p@ == seq![l as usize, k as usize] && func.ensures((p,), row[l])
}

/// The matrix whose rows are `a`: shorthand for `Matrix::from_arr`.
pub fn arr(a: Vec<Vec<i64>>) -> (r: Result<Matrix, GeomError>)
    requires
        a@.len() > 0,
        a@.len() <= MAX_DIM,
        a@[0]@.len() <= MAX_DIM,
    ensures
        !has_shape(rows_view(a@), a@[0]@.len() as int, a@.len() as int)
            <==> r == Err::<Matrix, GeomError>(GeomError::ShapeMismatch),
        has_shape(rows_view(a@), a@[0]@.len() as int, a@.len() as int)
            && !all_in_range(rows_view(a@)) <==> r == Err::<Matrix, GeomError>(GeomError::OutOfRange),
        has_shape(rows_view(a@), a@[0]@.len() as int, a@.len() as int)
            && all_in_range(rows_view(a@)) ==> r is Ok,
        r is Ok ==> r->Ok_0.wf() && r->Ok_0@ == rows_view(a@)
            && r->Ok_0.spec_cols() == a@[0]@.len() && r->Ok_0.spec_rows() == a@.len(),
{
    Matrix::from_arr(a)
}

fn copy_row(v: &Vec<i64>) -> (r: Vec<i64>)
    ensures
        r@ == v@,
{
    let mut row: Vec<i64> = Vec::new();
    let mut j: usize = 0;
    while j < v.len()
        invariant
            j <= v@.len(),
            row@ == v@.subrange(0, j as int),
        decreases v@.len() - j,
    {
        row.push(v[j]);
        j = j + 1;
        assert(row@ =~= v@.subrange(0, j as int));
    }
    assert(row@ =~= v@);
    row
}

fn zero_row(n: usize) -> (r: Vec<i64>)
    ensures
        r@.len() == n,
        forall|j: int| 0 <= j < n ==> #[trigger] r@[j] == 0,
{
    let mut row: Vec<i64> = Vec::new();
    let mut j: usize = 0;
    while j < n
        invariant
            j <= n,
            row@.len() == j,
            forall|k: int| 0 <= k < j ==> #[trigger] row@[k] == 0,
        decreases n - j,
    {
        row.push(0);
        j = j + 1;
    }
    row
}

} // verus!

//! Homogeneous 4x4 transforms applied to points.
use vstd::prelude::*;
use crate::error::GeomError;
use crate::fixed::{abs, fx, fx_i128, in_range, tdiv, LIMIT, ONE};
use crate::matrix::{has_shape, all_in_range, product_entry, product_in_range, rows_view, Matrix};
use crate::vec3::Vec3;

verus! {

/// The 4x4 grid whose entry `(i, j)` is `f(i, j)`.
pub open spec fn grid4(f: spec_fn(int, int) -> i64) -> Seq<Seq<i64>> {
    Seq::new(4, |i: int| Seq::new(4, |j: int| f(i, j)))
}

/// The identity, in fixed point.
pub open spec fn identity_grid() -> Seq<Seq<i64>> {
    grid4(|i: int, j: int| if i == j { ONE } else { 0 })
}

/// The translation by `v`: the identity with `v` in its last column.
pub open spec fn translation_grid(v: (int, int, int)) -> Seq<Seq<i64>> {
    grid4(
        |i: int, j: int|
            if j == 3 && i == 0 {
                v.0 as i64
            } else if j == 3 && i == 1 {
                v.1 as i64
            } else if j == 3 && i == 2 {
                v.2 as i64
            } else if i == j {
                ONE
            } else {
                0
            },
    )
}

/// A rotation about the x axis, from the cosine `c` and sine `s` of its angle.
pub open spec fn rot_x_grid(c: i64, s: i64) -> Seq<Seq<i64>> {
    grid4(
        |i: int, j: int|
            if (i == 1 && j == 1) || (i == 2 && j == 2) {
                c
            } else if i == 1 && j == 2 {
                (-s) as i64
            } else if i == 2 && j == 1 {
                s
            } else if i == j {
                ONE
            } else {
                0
            },
    )
}

/// A rotation about the y axis, from the cosine `c` and sine `s` of its angle.
pub open spec fn rot_y_grid(c: i64, s: i64) -> Seq<Seq<i64>> {
    grid4(
        |i: int, j: int|
            if (i == 0 && j == 0) || (i == 2 && j == 2) {
                c
            } else if i == 0 && j == 2 {
                s
            } else if i == 2 && j == 0 {
                (-s) as i64
            } else if i == j {
                ONE
            } else {
                0
            },
    )
}

/// A rotation about the z axis, from the cosine `c` and sine `s` of its angle.
pub open spec fn rot_z_grid(c: i64, s: i64) -> Seq<Seq<i64>> {
    grid4(
        |i: int, j: int|
            if (i == 0 && j == 0) || (i == 1 && j == 1) {
                c
            } else if i == 0 && j == 1 {
                (-s) as i64
            } else if i == 1 && j == 0 {
                s
            } else if i == j {
                ONE
            } else {
                0
            },
    )
}

/// `m` with its translation column (rows 0 to 2 of column 3) replaced by `v`.
pub open spec fn with_position(m: Seq<Seq<i64>>, v: (int, int, int)) -> Seq<Seq<i64>> {
    m.update(0, m[0].update(3, v.0 as i64))
        .update(1, m[1].update(3, v.1 as i64))
        .update(2, m[2].update(3, v.2 as i64))
}

/// Row `i` of `m` times the homogeneous column `(x, y, z, 1)`, before rescaling.
pub open spec fn row_times_point(m: Seq<Seq<i64>>, i: int, p: (int, int, int)) -> int {
    m[i][0] * p.0 + m[i][1] * p.1 + m[i][2] * p.2 + m[i][3] * ONE
}

/// The point `p` carried by the matrix `m`, with the homogeneous component dropped.
pub open spec fn apply_grid(m: Seq<Seq<i64>>, p: (int, int, int)) -> (int, int, int) {
    (fx(row_times_point(m, 0, p)), fx(row_times_point(m, 1, p)), fx(row_times_point(m, 2, p)))
}

/// The product of two 4x4 grids.
pub open spec fn compose_grid(a: Seq<Seq<i64>>, b: Seq<Seq<i64>>) -> Seq<Seq<i64>> {
    grid4(|i: int, j: int| product_entry(a, b, 4, i, j) as i64)
}

/// An object's pose: a 4x4 homogeneous matrix, applied to column points.
#[derive(Clone, Debug)]
pub struct Transform {
    pub mat: Matrix,
}

impl Transform {
    /// The matrix is a well-formed 4x4 matrix.
    pub open spec fn wf(&self) -> bool {
        self.mat.wf() && self.mat.spec_cols() == 4 && self.mat.spec_rows() == 4
    }

    pub open spec fn view(&self) -> Seq<Seq<i64>> {
        self.mat@
    }

    /// The identity transform.
    pub fn new() -> (r: Self)
        ensures
            r.wf(),
            r@ == identity_grid(),
    {
        let mat = square4(vec![
            vec![ONE, 0, 0, 0],
            vec![0, ONE, 0, 0],
            vec![0, 0, ONE, 0],
            vec![0, 0, 0, ONE],
        ]);
        proof {
            lemma_grid_eq(mat@, identity_grid());
        }
        Transform { mat }
    }

    /// Right-multiplies the matrix by `delta`; on an error it is left as it was.
    fn compose(&mut self, delta: &Matrix) -> (r: Result<(), GeomError>)
        requires
            old(self).wf(),
            delta.wf(),
            delta.spec_cols() == 4,
            delta.spec_rows() == 4,
        ensures
            final(self).wf(),
            !product_in_range(old(self)@, delta@, 4, 4, 4) <==> r == Err::<(), GeomError>(GeomError::OutOfRange),
            product_in_range(old(self)@, delta@, 4, 4, 4) ==> r is Ok,
            r is Err ==> final(self)@ == old(self)@,
            r is Ok ==> final(self)@ == compose_grid(old(self)@, delta@),
    {
        match self.mat.dot(delta) {
            Ok(m) => {
                proof {
                    assert(m@.len() == 4);
                    assert forall|i: int| 0 <= i < 4 implies #[trigger] m@[i] =~= compose_grid(self@, delta@)[i] by {
                        assert(m@[i].len() == 4);
                        assert forall|j: int| 0 <= j < 4 implies m@[i][j] == #[trigger] compose_grid(self@, delta@)[i][j] by {
                            assert(m@[i][j] == product_entry(self@, delta@, 4, i, j));
                        }
                    }
                    assert(m@ =~= compose_grid(self@, delta@));
                }
                self.mat = m;
                Ok(())
            },
            Err(e) => Err(e),
        }
    }

    /// Composes a translation by `v` onto the transform: `M' = M * T(v)`.
    pub fn translate(&mut self, v: Vec3) -> (r: Result<(), GeomError>)
        requires
            old(self).wf(),
            v.wf(),
        ensures
            final(self).wf(),
            !product_in_range(old(self)@, translation_grid(v@), 4, 4, 4)
                <==> r == Err::<(), GeomError>(GeomError::OutOfRange),
            product_in_range(old(self)@, translation_grid(v@), 4, 4, 4) ==> r is Ok,
            r is Err ==> final(self)@ == old(self)@,
            r is Ok ==> final(self)@ == compose_grid(old(self)@, translation_grid(v@)),
    {
        let delta = square4(vec![
            vec![ONE, 0, 0, v.x],
            vec![0, ONE, 0, v.y],
            vec![0, 0, ONE, v.z],
            vec![0, 0, 0, ONE],
        ]);
        proof {
            lemma_grid_eq(delta@, translation_grid(v@));
        }
        self.compose(&delta)
    }

    /// Composes a rotation about the x axis, given the cosine `c` and sine `s`
    /// of its angle: `M' = M * Rx`.
    pub fn rot_x(&mut self, c: i64, s: i64) -> (r: Result<(), GeomError>)
        requires
            old(self).wf(),
            in_range(c as int),
            in_range(s as int),
        ensures
            final(self).wf(),
            !product_in_range(old(self)@, rot_x_grid(c, s), 4, 4, 4)
                <==> r == Err::<(), GeomError>(GeomError::OutOfRange),
            product_in_range(old(self)@, rot_x_grid(c, s), 4, 4, 4) ==> r is Ok,
            r is Err ==> final(self)@ == old(self)@,
            r is Ok ==> final(self)@ == compose_grid(old(self)@, rot_x_grid(c, s)),
    {
        let ns: i64 = -s;
        let delta = square4(vec![
            vec![ONE, 0, 0, 0],
            vec![0, c, ns, 0],
            vec![0, s, c, 0],
            vec![0, 0, 0, ONE],
        ]);
        proof {
            lemma_grid_eq(delta@, rot_x_grid(c, s));
        }
        self.compose(&delta)
    }

    /// Composes a rotation about the y axis, given the cosine `c` and sine `s`
    /// of its angle: `M' = M * Ry`.
    pub fn rot_y(&mut self, c: i64, s: i64) -> (r: Result<(), GeomError>)
        requires
            old(self).wf(),
            in_range(c as int),
            in_range(s as int),
        ensures
            final(self).wf(),
            !product_in_range(old(self)@, rot_y_grid(c, s), 4, 4, 4)
                <==> r == Err::<(), GeomError>(GeomError::OutOfRange),
            product_in_range(old(self)@, rot_y_grid(c, s), 4, 4, 4) ==> r is Ok,
            r is Err ==> final(self)@ == old(self)@,
            r is Ok ==> final(self)@ == compose_grid(old(self)@, rot_y_grid(c, s)),
    {
        let ns: i64 = -s;
        let delta = square4(vec![
            vec![c, 0, s, 0],
            vec![0, ONE, 0, 0],
            vec![ns, 0, c, 0],
            vec![0, 0, 0, ONE],
        ]);
        proof {
            lemma_grid_eq(delta@, rot_y_grid(c, s));
        }
        self.compose(&delta)
    }

    /// Composes a rotation about the z axis, given the cosine `c` and sine `s`
    /// of its angle: `M' = M * Rz`.
    pub fn rot_z(&mut self, c: i64, s: i64) -> (r: Result<(), GeomError>)
        requires
            old(self).wf(),
            in_range(c as int),
            in_range(s as int),
        ensures
            final(self).wf(),
            !product_in_range(old(self)@, rot_z_grid(c, s), 4, 4, 4)
                <==> r == Err::<(), GeomError>(GeomError::OutOfRange),
            product_in_range(old(self)@, rot_z_grid(c, s), 4, 4, 4) ==> r is Ok,
            r is Err ==> final(self)@ == old(self)@,
            r is Ok ==> final(self)@ == compose_grid(old(self)@, rot_z_grid(c, s)),
    {
        let ns: i64 = -s;
        let delta = square4(vec![
            vec![c, ns, 0, 0],
            vec![s, c, 0, 0],
            vec![0, 0, ONE, 0],
            vec![0, 0, 0, ONE],
        ]);
        proof {
            lemma_grid_eq(delta@, rot_z_grid(c, s));
        }
        self.compose(&delta)
    }
}

impl Transform {
    /// Overwrites the translation column with `v`, keeping the rest of the
    /// matrix (the orientation) as it is.
    pub fn set_pos(&mut self, v: Vec3)
        requires
            old(self).wf(),
            v.wf(),
        ensures
            final(self).wf(),
            final(self)@ == with_position(old(self)@, v@),
    {
        let ghost m0 = self@;
        let r0 = self.mat.set(&vec![3, 0], v.x);
        let ghost m1 = self@;
        let r1 = self.mat.set(&vec![3, 1], v.y);
        let ghost m2 = self@;
        let r2 = self.mat.set(&vec![3, 2], v.z);
        assert(r0 is Ok && r1 is Ok && r2 is Ok);
        assert(self@ =~= with_position(m0, v@));
    }

    /// Carries the point `p` by the transform: `(x, y, z, 1)` times the matrix,
    /// with the homogeneous component dropped.
    pub fn apply_to_vector(&self, p: &Vec3) -> (r: Vec3)
        requires
            self.wf(),
            p.wf(),
        ensures
            r@ == apply_grid(self@, p@),
            crate::vec3::in_wide3(r@),
    {
        Vec3 {
            x: self.row_times(0, p),
            y: self.row_times(1, p),
            z: self.row_times(2, p),
        }
    }

    pub(crate) fn row_times(&self, i: usize, p: &Vec3) -> (r: i64)
        requires
            self.wf(),
            p.wf(),
            i < 4,
        ensures
            r == fx(row_times_point(self@, i as int, p@)),
            -0x4_0000_0000_0000 <= r <= 0x4_0000_0000_0000,
    {
        let a = self.mat.at(i, 0);
        let b = self.mat.at(i, 1);
        let c = self.mat.at(i, 2);
        let d = self.mat.at(i, 3);
        proof {
            lemma_prod_bound(a as int, p.x as int);
            lemma_prod_bound(b as int, p.y as int);
            lemma_prod_bound(c as int, p.z as int);
            lemma_prod_bound(d as int, ONE as int);
        }
        let s: i128 = (a as i128) * (p.x as i128) + (b as i128) * (p.y as i128)
            + (c as i128) * (p.z as i128) + (d as i128) * (ONE as i128);
        let q = fx_i128(s);
        proof {
            crate::fixed::lemma_tdiv_bound(s as int, ONE as int);
            assert(abs(s as int) / (ONE as int) <= 0x4_0000_0000_0000) by (nonlinear_arith)
                requires abs(s as int) <= 0x4_0000_0000_0000_0000;
        }
        q as i64
    }
}

proof fn lemma_prod_bound(a: int, b: int)
    requires
        in_range(a),
        in_range(b),
    ensures
        abs(a * b) <= 0x1_0000_0000_0000_0000,
{
    assert(abs(a * b) <= 0x1_0000_0000_0000_0000) by (nonlinear_arith)
        requires -LIMIT <= a <= LIMIT, -LIMIT <= b <= LIMIT;
}

/// The transpose of a 4x4 grid.
pub open spec fn transpose_grid(m: Seq<Seq<i64>>) -> Seq<Seq<i64>> {
    grid4(|i: int, j: int| m[j][i])
}

/// `c` and `s` form a unit vector to fixed-point precision: `c*c + s*s`
/// rescales to exactly one.
pub open spec fn unit_pair(c: i64, s: i64) -> bool {
    fx(c * c + s * s) == ONE
}

proof fn lemma_fx_one_times(x: int)
    ensures
        fx(ONE * x) == x,
        fx(x * ONE) == x,
{
    crate::fixed::lemma_tdiv_exact(x, ONE as int);
    assert(ONE * x == x * ONE) by (nonlinear_arith);
}

proof fn lemma_dot4(a: Seq<Seq<i64>>, b: Seq<Seq<i64>>, i: int, j: int)
    ensures
        crate::matrix::dot_sum(a, b, i, j, 4)
            == a[i][0] * b[0][j] + a[i][1] * b[1][j] + a[i][2] * b[2][j] + a[i][3] * b[3][j],
{
    reveal_with_fuel(crate::matrix::dot_sum, 5);
}

/// The identity transform leaves every point where it is.
pub proof fn lemma_identity_apply(p: (int, int, int))
    ensures
        apply_grid(identity_grid(), p) == p,
{
    let m = identity_grid();
    lemma_row_point(m, 0, p);
    lemma_row_point(m, 1, p);
    lemma_row_point(m, 2, p);
    lemma_fx_one_times(p.0);
    lemma_fx_one_times(p.1);
    lemma_fx_one_times(p.2);
}

/// Rows of the identity pick out one coordinate.
proof fn lemma_row_point(m: Seq<Seq<i64>>, i: int, p: (int, int, int))
    requires
        m == identity_grid(),
        0 <= i < 3,
    ensures
        row_times_point(m, i, p) == (if i == 0 { p.0 } else if i == 1 { p.1 } else { p.2 }) * ONE,
{
    assert(m[i][3] == 0);
    if i == 0 {
        let (e0, e1, e2, e3) = (m[0][0] as int, m[0][1] as int, m[0][2] as int, m[0][3] as int);
        assert(e0 == ONE && e1 == 0 && e2 == 0 && e3 == 0);
        assert(e0 * p.0 + e1 * p.1 + e2 * p.2 + e3 * ONE == p.0 * ONE) by (nonlinear_arith)
            requires e0 == ONE, e1 == 0, e2 == 0, e3 == 0;
    } else if i == 1 {
        let (e0, e1, e2, e3) = (m[1][0] as int, m[1][1] as int, m[1][2] as int, m[1][3] as int);
        assert(e0 == 0 && e1 == ONE && e2 == 0 && e3 == 0);
        assert(e0 * p.0 + e1 * p.1 + e2 * p.2 + e3 * ONE == p.1 * ONE) by (nonlinear_arith)
            requires e0 == 0, e1 == ONE, e2 == 0, e3 == 0;
    } else {
        let (e0, e1, e2, e3) = (m[2][0] as int, m[2][1] as int, m[2][2] as int, m[2][3] as int);
        assert(e0 == 0 && e1 == 0 && e2 == ONE && e3 == 0);
        assert(e0 * p.0 + e1 * p.1 + e2 * p.2 + e3 * ONE == p.2 * ONE) by (nonlinear_arith)
            requires e0 == 0, e1 == 0, e2 == ONE, e3 == 0;
    }
}

/// A sum weighted by one row or column of the identity picks out one term.
proof fn lemma_one_hot(x: int, a0: int, a1: int, a2: int, a3: int, k: int)
    requires
        0 <= k < 4,
        x == (if k == 0 { a0 } else if k == 1 { a1 } else if k == 2 { a2 } else { a3 }),
    ensures
        (if k == 0 { ONE as int } else { 0 }) * a0 + (if k == 1 { ONE as int } else { 0 }) * a1
            + (if k == 2 { ONE as int } else { 0 }) * a2 + (if k == 3 { ONE as int } else { 0 }) * a3
            == x * ONE,
        a0 * (if k == 0 { ONE as int } else { 0 }) + a1 * (if k == 1 { ONE as int } else { 0 })
            + a2 * (if k == 2 { ONE as int } else { 0 }) + a3 * (if k == 3 { ONE as int } else { 0 })
            == x * ONE,
{
}

/// The identity is a left and a right identity of composition.
pub proof fn lemma_identity_compose(m: Seq<Seq<i64>>)
    requires
        has_shape(m, 4, 4),
    ensures
        compose_grid(identity_grid(), m) == m,
        compose_grid(m, identity_grid()) == m,
{
    let id = identity_grid();
    assert forall|i: int, j: int| 0 <= i < 4 && 0 <= j < 4 implies
        #[trigger] compose_grid(id, m)[i][j] == m[i][j]
        && compose_grid(m, id)[i][j] == m[i][j] by {
        assert(m[i].len() == 4);
        lemma_dot4(id, m, i, j);
        lemma_dot4(m, id, i, j);
        lemma_one_hot(m[i][j] as int, m[i][0] as int, m[i][1] as int, m[i][2] as int, m[i][3] as int, j);
        lemma_one_hot(m[i][j] as int, m[0][j] as int, m[1][j] as int, m[2][j] as int, m[3][j] as int, i);
        lemma_fx_one_times(m[i][j] as int);
    }
    assert(compose_grid(id, m) =~~= m);
    assert(compose_grid(m, id) =~~= m);
}

/// Entry `(i, j)` of the product of two 4x4 grids.
proof fn lemma_entry(a: Seq<Seq<i64>>, b: Seq<Seq<i64>>, i: int, j: int)
    requires
        0 <= i < 4,
        0 <= j < 4,
    ensures
        compose_grid(a, b)[i][j] == fx(
            a[i][0] * b[0][j] + a[i][1] * b[1][j] + a[i][2] * b[2][j] + a[i][3] * b[3][j],
        ) as i64,
{
    lemma_dot4(a, b, i, j);
}

/// Where the product of `a` and `b` has `ONE * d` at entry `(i, j)`, with `d`
/// the identity's entry, the composition equals the identity.
proof fn lemma_is_identity(a: Seq<Seq<i64>>, b: Seq<Seq<i64>>)
    requires
        forall|i: int, j: int| 0 <= i < 4 && 0 <= j < 4 && i != j ==> #[trigger] prod4(a, b, i, j) == 0,
        forall|i: int| 0 <= i < 4 ==> fx(#[trigger] prod4(a, b, i, i)) == ONE,
    ensures
        compose_grid(a, b) == identity_grid(),
{
    let id = identity_grid();
    lemma_fx_one_times(0);
    assert forall|i: int, j: int| 0 <= i < 4 && 0 <= j < 4 implies
        #[trigger] compose_grid(a, b)[i][j] == id[i][j] by {
        lemma_entry(a, b, i, j);
        assert(prod4(a, b, i, j) == a[i][0] * b[0][j] + a[i][1] * b[1][j] + a[i][2] * b[2][j] + a[i][3] * b[3][j]);
    }
    assert(compose_grid(a, b) =~~= id);
}

/// Entry `(i, j)` of the product of two 4x4 grids, before rescaling.
spec fn prod4(a: Seq<Seq<i64>>, b: Seq<Seq<i64>>, i: int, j: int) -> int {
    a[i][0] * b[0][j] + a[i][1] * b[1][j] + a[i][2] * b[2][j] + a[i][3] * b[3][j]
}

/// A rotation about any axis, from a unit cosine/sine pair, times its own
/// transpose is the identity: the rotation matrices are orthogonal.
pub proof fn lemma_rotations_orthogonal(c: i64, s: i64)
    requires
        in_range(c as int),
        in_range(s as int),
        unit_pair(c, s),
    ensures
        compose_grid(rot_x_grid(c, s), transpose_grid(rot_x_grid(c, s))) == identity_grid(),
        compose_grid(rot_y_grid(c, s), transpose_grid(rot_y_grid(c, s))) == identity_grid(),
        compose_grid(rot_z_grid(c, s), transpose_grid(rot_z_grid(c, s))) == identity_grid(),
{
    lemma_rot_orthogonal_x(c, s);
    lemma_rot_orthogonal_y(c, s);
    lemma_rot_orthogonal_z(c, s);
}

/// The products that a cosine/sine pair gives in a rotation times its transpose.
proof fn lemma_pair_products(c: i64, s: i64)
    requires
        in_range(c as int),
        in_range(s as int),
        unit_pair(c, s),
    ensures
        fx(ONE * ONE) == ONE,
        c * s - s * c == 0,
        s * c - c * s == 0,
        c * (-s) + s * c == 0,
        s * c + c * (-s) == 0,
        c * s + (-s) * c == 0,
        (-s) * c + c * s == 0,
        fx(c * c + s * s) == ONE,
        fx(s * s + c * c) == ONE,
        fx(c * c + (-s) * (-s)) == ONE,
        fx((-s) * (-s) + c * c) == ONE,
        ((-s) as i64) == -s,
{
    lemma_fx_one_times(ONE as int);
    assert(c * s - s * c == 0) by (nonlinear_arith);
    assert(s * c - c * s == 0) by (nonlinear_arith);
    assert(c * (-s) + s * c == 0) by (nonlinear_arith);
    assert(s * c + c * (-s) == 0) by (nonlinear_arith);
    assert(c * s + (-s) * c == 0) by (nonlinear_arith);
    assert((-s) * c + c * s == 0) by (nonlinear_arith);
    assert(c * c + s * s == s * s + c * c) by (nonlinear_arith);
    assert(c * c + (-s) * (-s) == c * c + s * s) by (nonlinear_arith);
    assert((-s) * (-s) + c * c == c * c + s * s) by (nonlinear_arith);
}

/// Row `i` of a 4x4 grid.
spec fn row4(g: Seq<Seq<i64>>, i: int) -> (int, int, int, int) {
    (g[i][0] as int, g[i][1] as int, g[i][2] as int, g[i][3] as int)
}

spec fn dot4(a: (int, int, int, int), b: (int, int, int, int)) -> int {
    a.0 * b.0 + a.1 * b.1 + a.2 * b.2 + a.3 * b.3
}

/// A grid whose rows are pairwise orthogonal and each of unit length (to
/// fixed-point precision) times its transpose is the identity.
proof fn lemma_orthonormal_rows(g: Seq<Seq<i64>>)
    requires
        dot4(row4(g, 0), row4(g, 1)) == 0 && dot4(row4(g, 0), row4(g, 2)) == 0
            && dot4(row4(g, 0), row4(g, 3)) == 0,
        dot4(row4(g, 1), row4(g, 2)) == 0 && dot4(row4(g, 1), row4(g, 3)) == 0
            && dot4(row4(g, 2), row4(g, 3)) == 0,
        fx(dot4(row4(g, 0), row4(g, 0))) == ONE && fx(dot4(row4(g, 1), row4(g, 1))) == ONE,
        fx(dot4(row4(g, 2), row4(g, 2))) == ONE && fx(dot4(row4(g, 3), row4(g, 3))) == ONE,
    ensures
        compose_grid(g, transpose_grid(g)) == identity_grid(),
{
    let t = transpose_grid(g);
    assert forall|i: int, j: int| 0 <= i < 4 && 0 <= j < 4 implies
        #[trigger] prod4(g, t, i, j) == dot4(row4(g, i), row4(g, j)) && dot4(row4(g, i), row4(g, j))
            == dot4(row4(g, j), row4(g, i)) by {
        assert(t[0][j] == g[j][0] && t[1][j] == g[j][1] && t[2][j] == g[j][2] && t[3][j] == g[j][3]);
    }
    assert forall|i: int, j: int| 0 <= i < 4 && 0 <= j < 4 && i != j implies #[trigger] prod4(g, t, i, j) == 0 by {
        assert(prod4(g, t, i, j) == prod4(g, t, j, i));
        if i > j {
            assert(prod4(g, t, j, i) == dot4(row4(g, j), row4(g, i)));
        }
    }
    lemma_is_identity(g, t);
}

/// A grid with pairwise orthogonal rows times its transpose is diagonal,
/// with each row's rescaled squared length on the diagonal.
proof fn lemma_gram_entries(
    g: Seq<Seq<i64>>,
    e00: int,
    e01: int,
    e02: int,
    e03: int,
    e10: int,
    e11: int,
    e12: int,
    e13: int,
    e20: int,
    e21: int,
    e22: int,
    e23: int,
    e30: int,
    e31: int,
    e32: int,
    e33: int,
)
    requires
        g[0][0] == e00 && g[0][1] == e01 && g[0][2] == e02 && g[0][3] == e03,
        g[1][0] == e10 && g[1][1] == e11 && g[1][2] == e12 && g[1][3] == e13,
        g[2][0] == e20 && g[2][1] == e21 && g[2][2] == e22 && g[2][3] == e23,
        g[3][0] == e30 && g[3][1] == e31 && g[3][2] == e32 && g[3][3] == e33,
        e00 * e10 + e01 * e11 + e02 * e12 + e03 * e13 == 0,
        e00 * e20 + e01 * e21 + e02 * e22 + e03 * e23 == 0,
        e00 * e30 + e01 * e31 + e02 * e32 + e03 * e33 == 0,
        e10 * e20 + e11 * e21 + e12 * e22 + e13 * e23 == 0,
        e10 * e30 + e11 * e31 + e12 * e32 + e13 * e33 == 0,
        e20 * e30 + e21 * e31 + e22 * e32 + e23 * e33 == 0,
    ensures
        compose_grid(g, transpose_grid(g))[0][0] == fx(e00 * e00 + e01 * e01 + e02 * e02 + e03 * e03) as i64,
        compose_grid(g, transpose_grid(g))[1][1] == fx(e10 * e10 + e11 * e11 + e12 * e12 + e13 * e13) as i64,
        compose_grid(g, transpose_grid(g))[2][2] == fx(e20 * e20 + e21 * e21 + e22 * e22 + e23 * e23) as i64,
        compose_grid(g, transpose_grid(g))[3][3] == fx(e30 * e30 + e31 * e31 + e32 * e32 + e33 * e33) as i64,
        forall|i: int, j: int| 0 <= i < 4 && 0 <= j < 4 && i != j ==> #[trigger] compose_grid(g, transpose_grid(g))[i][j] == 0,
{
    let t = transpose_grid(g);
    assert forall|i: int, j: int| 0 <= i < 4 && 0 <= j < 4 implies
        #[trigger] prod4(g, t, i, j) == dot4(row4(g, i), row4(g, j)) && dot4(row4(g, i), row4(g, j))
            == dot4(row4(g, j), row4(g, i)) by {
        assert(t[0][j] == g[j][0] && t[1][j] == g[j][1] && t[2][j] == g[j][2] && t[3][j] == g[j][3]);
    }
    lemma_fx_one_times(0);
    assert forall|i: int, j: int| 0 <= i < 4 && 0 <= j < 4 && i != j implies
        #[trigger] compose_grid(g, t)[i][j] == 0 by {
        lemma_entry(g, t, i, j);
        assert(prod4(g, t, i, j) == prod4(g, t, j, i));
        if i > j {
            assert(prod4(g, t, j, i) == dot4(row4(g, j), row4(g, i)));
        }
    }
    lemma_entry(g, t, 0, 0);
    lemma_entry(g, t, 1, 1);
    lemma_entry(g, t, 2, 2);
    lemma_entry(g, t, 3, 3);
    assert(prod4(g, t, 0, 0) == dot4(row4(g, 0), row4(g, 0)));
    assert(prod4(g, t, 1, 1) == dot4(row4(g, 1), row4(g, 1)));
    assert(prod4(g, t, 2, 2) == dot4(row4(g, 2), row4(g, 2)));
    assert(prod4(g, t, 3, 3) == dot4(row4(g, 3), row4(g, 3)));
}

/// For any cosine/sine pair, a rotation times its transpose is exactly
/// diagonal: `fx(c*c + s*s)` on the two entries of the rotated plane and one
/// elsewhere. The rotation is orthogonal to within how far `fx(c*c + s*s)` is
/// from one, and exactly so for a unit pair.
pub proof fn lemma_rotation_gram(c: i64, s: i64)
    requires
        in_range(c as int),
        in_range(s as int),
    ensures
        forall|i: int, j: int| 0 <= i < 4 && 0 <= j < 4 ==> #[trigger] compose_grid(rot_x_grid(c, s), transpose_grid(rot_x_grid(c, s)))[i][j]
            == if i != j { 0 } else if i == 1 || i == 2 { fx(c * c + s * s) as i64 } else { ONE },
        forall|i: int, j: int| 0 <= i < 4 && 0 <= j < 4 ==> #[trigger] compose_grid(rot_y_grid(c, s), transpose_grid(rot_y_grid(c, s)))[i][j]
            == if i != j { 0 } else if i == 0 || i == 2 { fx(c * c + s * s) as i64 } else { ONE },
        forall|i: int, j: int| 0 <= i < 4 && 0 <= j < 4 ==> #[trigger] compose_grid(rot_z_grid(c, s), transpose_grid(rot_z_grid(c, s)))[i][j]
            == if i != j { 0 } else if i == 0 || i == 1 { fx(c * c + s * s) as i64 } else { ONE },
{
    lemma_fx_one_times(ONE as int);
    assert(c * s + (-s) * c == 0 && c * (-s) + s * c == 0 && s * c + c * (-s) == 0 && (-s) * c + c * s == 0)
        by (nonlinear_arith);
    assert(c * c + (-s) * (-s) == c * c + s * s && (-s) * (-s) + c * c == c * c + s * s
        && s * s + c * c == c * c + s * s) by (nonlinear_arith);
    let gx = rot_x_grid(c, s);
    lemma_gram_entries(gx, ONE as int, 0, 0, 0, 0, c as int, -s, 0, 0, s as int, c as int, 0, 0, 0, 0, ONE as int);
    let gy = rot_y_grid(c, s);
    lemma_gram_entries(gy, c as int, 0, s as int, 0, 0, ONE as int, 0, 0, -s, 0, c as int, 0, 0, 0, 0, ONE as int);
    let gz = rot_z_grid(c, s);
    lemma_gram_entries(gz, c as int, -s, 0, 0, s as int, c as int, 0, 0, 0, 0, ONE as int, 0, 0, 0, 0, ONE as int);
}

/// For any cosine/sine pair, from the identity, a rotation about the z axis
/// followed by the opposite one (sine negated) leaves the diagonal matrix of
/// `lemma_rotation_gram`: a point `(x, y, z)` comes back as
/// `(fx(k * x), fx(k * y), z)` with `k = fx(c*c + s*s)`, which is the point
/// itself when `k` is one and within `|k - 1|` of it otherwise.
pub proof fn lemma_rot_z_round_trip_any(c: i64, s: i64, p: (int, int, int))
    requires
        in_range(c as int),
        in_range(s as int),
    ensures
        compose_grid(compose_grid(identity_grid(), rot_z_grid(c, s)), rot_z_grid(c, (-s) as i64))
            == compose_grid(rot_z_grid(c, s), transpose_grid(rot_z_grid(c, s))),
        apply_grid(
            compose_grid(compose_grid(identity_grid(), rot_z_grid(c, s)), rot_z_grid(c, (-s) as i64)),
            p,
        ) == (fx(fx(c * c + s * s) * p.0), fx(fx(c * c + s * s) * p.1), p.2),
{
    let z = rot_z_grid(c, s);
    assert(has_shape(z, 4, 4));
    lemma_identity_compose(z);
    assert((-((-s) as i64)) as i64 == s);
    assert forall|i: int, j: int| 0 <= i < 4 && 0 <= j < 4 implies
        #[trigger] rot_z_grid(c, (-s) as i64)[i][j] == transpose_grid(z)[i][j] by {}
    lemma_grid_eq(rot_z_grid(c, (-s) as i64), transpose_grid(z));
    lemma_rotation_gram(c, s);
    let m = compose_grid(z, transpose_grid(z));
    let k = fx(c * c + s * s);
    assert(m[0][0] == k as i64 && m[0][1] == 0 && m[0][2] == 0 && m[0][3] == 0);
    assert(m[1][0] == 0 && m[1][1] == k as i64 && m[1][2] == 0 && m[1][3] == 0);
    assert(m[2][0] == 0 && m[2][1] == 0 && m[2][2] == ONE && m[2][3] == 0);
    crate::vec3::lemma_fx_bound_sq(c as int, s as int);
    let k64 = m[0][0] as int;
    assert(k64 == k);
    assert(row_times_point(m, 0, p) == k * p.0) by (nonlinear_arith)
        requires row_times_point(m, 0, p) == k64 * p.0 + 0 * p.1 + 0 * p.2 + 0 * ONE, k64 == k;
    assert(row_times_point(m, 1, p) == k * p.1) by (nonlinear_arith)
        requires row_times_point(m, 1, p) == 0 * p.0 + k64 * p.1 + 0 * p.2 + 0 * ONE, k64 == k;
    assert(row_times_point(m, 2, p) == p.2 * ONE) by (nonlinear_arith)
        requires row_times_point(m, 2, p) == 0 * p.0 + 0 * p.1 + ONE * p.2 + 0 * ONE;
    lemma_fx_one_times(p.2);
}

/// `lemma_orthonormal_rows`, with the grid's entries named.
proof fn lemma_orthonormal_entries(
    g: Seq<Seq<i64>>,
    e00: int,
    e01: int,
    e02: int,
    e03: int,
    e10: int,
    e11: int,
    e12: int,
    e13: int,
    e20: int,
    e21: int,
    e22: int,
    e23: int,
    e30: int,
    e31: int,
    e32: int,
    e33: int,
)
    requires
        g[0][0] == e00 && g[0][1] == e01 && g[0][2] == e02 && g[0][3] == e03,
        g[1][0] == e10 && g[1][1] == e11 && g[1][2] == e12 && g[1][3] == e13,
        g[2][0] == e20 && g[2][1] == e21 && g[2][2] == e22 && g[2][3] == e23,
        g[3][0] == e30 && g[3][1] == e31 && g[3][2] == e32 && g[3][3] == e33,
        e00 * e10 + e01 * e11 + e02 * e12 + e03 * e13 == 0,
        e00 * e20 + e01 * e21 + e02 * e22 + e03 * e23 == 0,
        e00 * e30 + e01 * e31 + e02 * e32 + e03 * e33 == 0,
        e10 * e20 + e11 * e21 + e12 * e22 + e13 * e23 == 0,
        e10 * e30 + e11 * e31 + e12 * e32 + e13 * e33 == 0,
        e20 * e30 + e21 * e31 + e22 * e32 + e23 * e33 == 0,
        fx(e00 * e00 + e01 * e01 + e02 * e02 + e03 * e03) == ONE,
        fx(e10 * e10 + e11 * e11 + e12 * e12 + e13 * e13) == ONE,
        fx(e20 * e20 + e21 * e21 + e22 * e22 + e23 * e23) == ONE,
        fx(e30 * e30 + e31 * e31 + e32 * e32 + e33 * e33) == ONE,
    ensures
        compose_grid(g, transpose_grid(g)) == identity_grid(),
{
    lemma_orthonormal_rows(g);
}

proof fn lemma_rot_orthogonal_x(c: i64, s: i64)
    requires
        in_range(c as int),
        in_range(s as int),
        unit_pair(c, s),
    ensures
        compose_grid(rot_x_grid(c, s), transpose_grid(rot_x_grid(c, s))) == identity_grid(),
{
    lemma_pair_products(c, s);
    let g = rot_x_grid(c, s);
    lemma_orthonormal_entries(g, ONE as int, 0, 0, 0, 0, c as int, -s, 0, 0, s as int, c as int, 0, 0, 0, 0, ONE as int);
}

proof fn lemma_rot_orthogonal_y(c: i64, s: i64)
    requires
        in_range(c as int),
        in_range(s as int),
        unit_pair(c, s),
    ensures
        compose_grid(rot_y_grid(c, s), transpose_grid(rot_y_grid(c, s))) == identity_grid(),
{
    lemma_pair_products(c, s);
    let g = rot_y_grid(c, s);
    lemma_orthonormal_entries(g, c as int, 0, s as int, 0, 0, ONE as int, 0, 0, -s, 0, c as int, 0, 0, 0, 0, ONE as int);
}

proof fn lemma_rot_orthogonal_z(c: i64, s: i64)
    requires
        in_range(c as int),
        in_range(s as int),
        unit_pair(c, s),
    ensures
        compose_grid(rot_z_grid(c, s), transpose_grid(rot_z_grid(c, s))) == identity_grid(),
{
    lemma_pair_products(c, s);
    let g = rot_z_grid(c, s);
    lemma_orthonormal_entries(g, c as int, -s, 0, 0, s as int, c as int, 0, 0, 0, 0, ONE as int, 0, 0, 0, 0, ONE as int);
}

/// From the identity, a rotation about the z axis followed by the rotation
/// by the opposite angle (sine negated) gives the identity back, so every
/// point returns to where it was.
pub proof fn lemma_rot_z_round_trip(c: i64, s: i64, p: (int, int, int))
    requires
        in_range(c as int),
        in_range(s as int),
        unit_pair(c, s),
    ensures
        compose_grid(compose_grid(identity_grid(), rot_z_grid(c, s)), rot_z_grid(c, (-s) as i64))
            == identity_grid(),
        apply_grid(
            compose_grid(compose_grid(identity_grid(), rot_z_grid(c, s)), rot_z_grid(c, (-s) as i64)),
            p,
        ) == p,
{
    let z = rot_z_grid(c, s);
    let ns = (-s) as i64;
    let w = rot_z_grid(c, ns);
    assert(ns == -s);
    assert((-ns) as i64 == s);
    assert(has_shape(z, 4, 4));
    lemma_identity_compose(z);
    lemma_fx_one_times(ONE as int);
    assert(c * s + ns * c == 0 && s * c + c * ns == 0) by (nonlinear_arith) requires ns == -s;
    assert(c * c + ns * ns == c * c + s * s && s * s + c * c == c * c + s * s) by (nonlinear_arith)
        requires ns == -s;
    lemma_is_identity(z, w);
    lemma_identity_apply(p);
}

/// Setting the position of a fresh transform moves points exactly as a
/// fresh transform translated by the same vector does: by adding it.
pub proof fn lemma_set_pos_is_translation(v: (int, int, int), p: (int, int, int))
    requires
        in_range(v.0),
        in_range(v.1),
        in_range(v.2),
    ensures
        apply_grid(with_position(identity_grid(), v), p) == crate::vec3::add3(p, v),
        compose_grid(identity_grid(), translation_grid(v)) == with_position(identity_grid(), v),
{
    lemma_identity_compose(translation_grid(v));
    assert(translation_grid(v) =~~= with_position(identity_grid(), v));
    let m = with_position(identity_grid(), v);
    assert(row_times_point(m, 0, p) == (p.0 + v.0) * ONE) by (nonlinear_arith)
        requires row_times_point(m, 0, p) == ONE * p.0 + 0 * p.1 + 0 * p.2 + v.0 * ONE;
    assert(row_times_point(m, 1, p) == (p.1 + v.1) * ONE) by (nonlinear_arith)
        requires row_times_point(m, 1, p) == 0 * p.0 + ONE * p.1 + 0 * p.2 + v.1 * ONE;
    assert(row_times_point(m, 2, p) == (p.2 + v.2) * ONE) by (nonlinear_arith)
        requires row_times_point(m, 2, p) == 0 * p.0 + 0 * p.1 + ONE * p.2 + v.2 * ONE;
    lemma_fx_one_times(p.0 + v.0);
    lemma_fx_one_times(p.1 + v.1);
    lemma_fx_one_times(p.2 + v.2);
}

/// Two 4x4 grids that agree entry by entry are equal.
pub proof fn lemma_grid_eq(m: Seq<Seq<i64>>, g: Seq<Seq<i64>>)
    requires
        m.len() == 4,
        g.len() == 4,
        m[0].len() == 4 && m[1].len() == 4 && m[2].len() == 4 && m[3].len() == 4,
        g[0].len() == 4 && g[1].len() == 4 && g[2].len() == 4 && g[3].len() == 4,
        m[0][0] == g[0][0] && m[0][1] == g[0][1] && m[0][2] == g[0][2] && m[0][3] == g[0][3],
        m[1][0] == g[1][0] && m[1][1] == g[1][1] && m[1][2] == g[1][2] && m[1][3] == g[1][3],
        m[2][0] == g[2][0] && m[2][1] == g[2][1] && m[2][2] == g[2][2] && m[2][3] == g[2][3],
        m[3][0] == g[3][0] && m[3][1] == g[3][1] && m[3][2] == g[3][2] && m[3][3] == g[3][3],
    ensures
        m == g,
{
    assert forall|i: int| 0 <= i < 4 implies #[trigger] m[i] =~= g[i] by {
        if i == 0 {
            assert(m[0] =~= g[0]);
        } else if i == 1 {
            assert(m[1] =~= g[1]);
        } else if i == 2 {
            assert(m[2] =~= g[2]);
        } else {
            assert(m[3] =~= g[3]);
        }
    }
    assert(m =~= g);
}

/// Every entry of the 4x4 grid is a whole number (a multiple of `ONE`).
pub open spec fn whole_grid(m: Seq<Seq<i64>>) -> bool {
    forall|i: int, j: int| 0 <= i < 4 && 0 <= j < 4 ==> #[trigger] m[i][j] % ONE == 0
}

/// A product of two whole numbers in fixed point needs no rounding.
proof fn lemma_whole_prod4(a: Seq<Seq<i64>>, b: Seq<Seq<i64>>, i: int, j: int)
    requires
        0 <= i < 4,
        0 <= j < 4,
        whole_grid(a),
        whole_grid(b),
    ensures
        fx(prod4(a, b, i, j)) * ONE == prod4(a, b, i, j),
        fx(prod4(a, b, i, j)) == ONE * (
            (a[i][0] / ONE) * (b[0][j] / ONE) + (a[i][1] / ONE) * (b[1][j] / ONE)
            + (a[i][2] / ONE) * (b[2][j] / ONE) + (a[i][3] / ONE) * (b[3][j] / ONE)),
{
    let (a0, a1, a2, a3) = (a[i][0] / ONE, a[i][1] / ONE, a[i][2] / ONE, a[i][3] / ONE);
    let (b0, b1, b2, b3) = (b[0][j] / ONE, b[1][j] / ONE, b[2][j] / ONE, b[3][j] / ONE);
    assert(a[i][0] % ONE == 0 && a[i][1] % ONE == 0 && a[i][2] % ONE == 0 && a[i][3] % ONE == 0);
    assert(b[0][j] % ONE == 0 && b[1][j] % ONE == 0 && b[2][j] % ONE == 0 && b[3][j] % ONE == 0);
    assert(a[i][0] == ONE * a0 && a[i][1] == ONE * a1 && a[i][2] == ONE * a2 && a[i][3] == ONE * a3);
    assert(b[0][j] == ONE * b0 && b[1][j] == ONE * b1 && b[2][j] == ONE * b2 && b[3][j] == ONE * b3);
    let p = a0 * b0 + a1 * b1 + a2 * b2 + a3 * b3;
    assert(prod4(a, b, i, j) == (ONE * p) * ONE) by (nonlinear_arith)
        requires
            prod4(a, b, i, j) == a[i][0] * b[0][j] + a[i][1] * b[1][j] + a[i][2] * b[2][j] + a[i][3] * b[3][j],
            a[i][0] == ONE * a0, a[i][1] == ONE * a1, a[i][2] == ONE * a2, a[i][3] == ONE * a3,
            b[0][j] == ONE * b0, b[1][j] == ONE * b1, b[2][j] == ONE * b2, b[3][j] == ONE * b3,
            p == a0 * b0 + a1 * b1 + a2 * b2 + a3 * b3;
    crate::fixed::lemma_tdiv_exact(ONE * p, ONE as int);
}

/// The product of two whole grids, where it stays in range, is whole and
/// exact: entry `(i, j)` is `ONE` times the integer sum of products.
proof fn lemma_whole_compose(a: Seq<Seq<i64>>, b: Seq<Seq<i64>>)
    requires
        whole_grid(a),
        whole_grid(b),
        product_in_range(a, b, 4, 4, 4),
    ensures
        whole_grid(compose_grid(a, b)),
        forall|i: int, j: int| 0 <= i < 4 && 0 <= j < 4 ==> #[trigger] compose_grid(a, b)[i][j] == ONE * (
            (a[i][0] / ONE) * (b[0][j] / ONE) + (a[i][1] / ONE) * (b[1][j] / ONE)
            + (a[i][2] / ONE) * (b[2][j] / ONE) + (a[i][3] / ONE) * (b[3][j] / ONE)),
{
    assert forall|i: int, j: int| 0 <= i < 4 && 0 <= j < 4 implies #[trigger] compose_grid(a, b)[i][j] == ONE * (
        (a[i][0] / ONE) * (b[0][j] / ONE) + (a[i][1] / ONE) * (b[1][j] / ONE)
        + (a[i][2] / ONE) * (b[2][j] / ONE) + (a[i][3] / ONE) * (b[3][j] / ONE))
        && compose_grid(a, b)[i][j] % ONE == 0 by {
        lemma_entry(a, b, i, j);
        lemma_dot4(a, b, i, j);
        lemma_whole_prod4(a, b, i, j);
        assert(in_range(product_entry(a, b, 4, i, j)));
        assert(product_entry(a, b, 4, i, j) == fx(prod4(a, b, i, j)));
        let q = (a[i][0] / ONE) * (b[0][j] / ONE) + (a[i][1] / ONE) * (b[1][j] / ONE)
            + (a[i][2] / ONE) * (b[2][j] / ONE) + (a[i][3] / ONE) * (b[3][j] / ONE);
        assert((ONE * q) % (ONE as int) == 0) by (nonlinear_arith);
    }
}

/// Composition is associative on whole-number grids, wherever the products
/// stay in range: fixed-point rounding never occurs there.
pub proof fn lemma_compose_associative_whole(a: Seq<Seq<i64>>, b: Seq<Seq<i64>>, c: Seq<Seq<i64>>)
    requires
        whole_grid(a),
        whole_grid(b),
        whole_grid(c),
        product_in_range(a, b, 4, 4, 4),
        product_in_range(compose_grid(a, b), c, 4, 4, 4),
        product_in_range(b, c, 4, 4, 4),
        product_in_range(a, compose_grid(b, c), 4, 4, 4),
    ensures
        compose_grid(compose_grid(a, b), c) == compose_grid(a, compose_grid(b, c)),
{
    let ab = compose_grid(a, b);
    let bc = compose_grid(b, c);
    lemma_whole_compose(a, b);
    lemma_whole_compose(b, c);
    lemma_whole_compose(ab, c);
    lemma_whole_compose(a, bc);
    assert forall|i: int, l: int| 0 <= i < 4 && 0 <= l < 4 implies
        #[trigger] compose_grid(ab, c)[i][l] == compose_grid(a, bc)[i][l] by {
        let (a0, a1, a2, a3) = (a[i][0] / ONE, a[i][1] / ONE, a[i][2] / ONE, a[i][3] / ONE);
        let (c0, c1, c2, c3) = (c[0][l] / ONE, c[1][l] / ONE, c[2][l] / ONE, c[3][l] / ONE);
        let b00 = b[0][0] / ONE; let b01 = b[0][1] / ONE; let b02 = b[0][2] / ONE; let b03 = b[0][3] / ONE;
        let b10 = b[1][0] / ONE; let b11 = b[1][1] / ONE; let b12 = b[1][2] / ONE; let b13 = b[1][3] / ONE;
        let b20 = b[2][0] / ONE; let b21 = b[2][1] / ONE; let b22 = b[2][2] / ONE; let b23 = b[2][3] / ONE;
        let b30 = b[3][0] / ONE; let b31 = b[3][1] / ONE; let b32 = b[3][2] / ONE; let b33 = b[3][3] / ONE;
        let p0 = a0 * b00 + a1 * b10 + a2 * b20 + a3 * b30;
        let p1 = a0 * b01 + a1 * b11 + a2 * b21 + a3 * b31;
        let p2 = a0 * b02 + a1 * b12 + a2 * b22 + a3 * b32;
        let p3 = a0 * b03 + a1 * b13 + a2 * b23 + a3 * b33;
        let q0 = b00 * c0 + b01 * c1 + b02 * c2 + b03 * c3;
        let q1 = b10 * c0 + b11 * c1 + b12 * c2 + b13 * c3;
        let q2 = b20 * c0 + b21 * c1 + b22 * c2 + b23 * c3;
        let q3 = b30 * c0 + b31 * c1 + b32 * c2 + b33 * c3;
        assert(ab[i][0] == ONE * p0 && ab[i][1] == ONE * p1 && ab[i][2] == ONE * p2 && ab[i][3] == ONE * p3);
        assert(bc[0][l] == ONE * q0 && bc[1][l] == ONE * q1 && bc[2][l] == ONE * q2 && bc[3][l] == ONE * q3);
        lemma_div_whole(p0);
        lemma_div_whole(p1);
        lemma_div_whole(p2);
        lemma_div_whole(p3);
        lemma_div_whole(q0);
        lemma_div_whole(q1);
        lemma_div_whole(q2);
        lemma_div_whole(q3);
        lemma_dist_right(a0, a1, a2, a3, b00, b10, b20, b30, c0);
        lemma_dist_right(a0, a1, a2, a3, b01, b11, b21, b31, c1);
        lemma_dist_right(a0, a1, a2, a3, b02, b12, b22, b32, c2);
        lemma_dist_right(a0, a1, a2, a3, b03, b13, b23, b33, c3);
        lemma_dist_left(a0, b00, b01, b02, b03, c0, c1, c2, c3);
        lemma_dist_left(a1, b10, b11, b12, b13, c0, c1, c2, c3);
        lemma_dist_left(a2, b20, b21, b22, b23, c0, c1, c2, c3);
        lemma_dist_left(a3, b30, b31, b32, b33, c0, c1, c2, c3);
        assert(p0 * c0 + p1 * c1 + p2 * c2 + p3 * c3 == a0 * q0 + a1 * q1 + a2 * q2 + a3 * q3);
        lemma_tdiv_prod_whole(ab, c, i, l, p0, p1, p2, p3, c0, c1, c2, c3);
        lemma_tdiv_prod_whole(a, bc, i, l, a0, a1, a2, a3, q0, q1, q2, q3);
    }
    assert forall|i: int| 0 <= i < 4 implies #[trigger] compose_grid(ab, c)[i] =~= compose_grid(a, bc)[i] by {}
    assert(compose_grid(ab, c) =~= compose_grid(a, bc));
}

proof fn lemma_dist_right(a0: int, a1: int, a2: int, a3: int, b0: int, b1: int, b2: int, b3: int, c: int)
    ensures
        (a0 * b0 + a1 * b1 + a2 * b2 + a3 * b3) * c == a0 * (b0 * c) + a1 * (b1 * c) + a2 * (b2 * c) + a3 * (b3 * c),
{
    let (t0, t1, t2, t3) = (a0 * b0, a1 * b1, a2 * b2, a3 * b3);
    assert((t0 + t1 + t2 + t3) * c == t0 * c + t1 * c + t2 * c + t3 * c) by (nonlinear_arith);
    assert(t0 * c == a0 * (b0 * c)) by (nonlinear_arith) requires t0 == a0 * b0;
    assert(t1 * c == a1 * (b1 * c)) by (nonlinear_arith) requires t1 == a1 * b1;
    assert(t2 * c == a2 * (b2 * c)) by (nonlinear_arith) requires t2 == a2 * b2;
    assert(t3 * c == a3 * (b3 * c)) by (nonlinear_arith) requires t3 == a3 * b3;
}

proof fn lemma_dist_left(a: int, b0: int, b1: int, b2: int, b3: int, c0: int, c1: int, c2: int, c3: int)
    ensures
        a * (b0 * c0 + b1 * c1 + b2 * c2 + b3 * c3) == a * (b0 * c0) + a * (b1 * c1) + a * (b2 * c2) + a * (b3 * c3),
{
    assert(a * (b0 * c0 + b1 * c1 + b2 * c2 + b3 * c3) == a * (b0 * c0) + a * (b1 * c1) + a * (b2 * c2) + a * (b3 * c3))
        by (nonlinear_arith);
}

/// Entry `(i, l)` of the product of whole grids, from the whole parts of its factors.
proof fn lemma_tdiv_prod_whole(
    x: Seq<Seq<i64>>,
    y: Seq<Seq<i64>>,
    i: int,
    l: int,
    x0: int,
    x1: int,
    x2: int,
    x3: int,
    y0: int,
    y1: int,
    y2: int,
    y3: int,
)
    requires
        0 <= i < 4,
        0 <= l < 4,
        whole_grid(x),
        whole_grid(y),
        product_in_range(x, y, 4, 4, 4),
        x[i][0] / ONE == x0 && x[i][1] / ONE == x1 && x[i][2] / ONE == x2 && x[i][3] / ONE == x3,
        y[0][l] / ONE == y0 && y[1][l] / ONE == y1 && y[2][l] / ONE == y2 && y[3][l] / ONE == y3,
    ensures
        compose_grid(x, y)[i][l] == ONE * (x0 * y0 + x1 * y1 + x2 * y2 + x3 * y3),
{
    lemma_whole_compose(x, y);
}

proof fn lemma_div_whole(x: int)
    ensures
        (ONE * x) / (ONE as int) == x,
{
    assert((ONE * x) / (ONE as int) == x) by (nonlinear_arith);
}

/// A 4x4 matrix from rows of in-range entries.
pub(crate) fn square4(rows: Vec<Vec<i64>>) -> (r: Matrix)
    requires
        has_shape(rows_view(rows@), 4, 4),
        all_in_range(rows_view(rows@)),
    ensures
        r.wf(),
        r.spec_cols() == 4,
        r.spec_rows() == 4,
        r@ == rows_view(rows@),
{
    assert(rows_view(rows@)[0] == rows@[0]@);
    match Matrix::from_arr(rows) {
        Ok(m) => m,
        Err(_) => {
            assert(false);
            Matrix::new(vec![4, 4])
        },
    }
}

} // verus!

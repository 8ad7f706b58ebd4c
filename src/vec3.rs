//! Three-component vectors of fixed-point numbers.
use vstd::prelude::*;
use crate::error::GeomError;
use crate::fixed::{abs, fx, fx_i128, in_range, tdiv, tdiv_i128, LIMIT, ONE};

verus! {

/// A point or a free vector in space, each component in fixed point.
#[derive(Clone, Copy, Debug, PartialEq, Eq, Structural)]
pub struct Vec3 {
    pub x: i64,
    pub y: i64,
    pub z: i64,
}

pub open spec fn neg3(a: (int, int, int)) -> (int, int, int) {
    (-a.0, -a.1, -a.2)
}

pub open spec fn add3(a: (int, int, int), b: (int, int, int)) -> (int, int, int) {
    (a.0 + b.0, a.1 + b.1, a.2 + b.2)
}

pub open spec fn sub3(a: (int, int, int), b: (int, int, int)) -> (int, int, int) {
    (a.0 - b.0, a.1 - b.1, a.2 - b.2)
}

pub open spec fn mul3(a: (int, int, int), b: (int, int, int)) -> (int, int, int) {
    (fx(a.0 * b.0), fx(a.1 * b.1), fx(a.2 * b.2))
}

pub open spec fn div3(a: (int, int, int), b: (int, int, int)) -> (int, int, int) {
    (tdiv(a.0 * ONE, b.0), tdiv(a.1 * ONE, b.1), tdiv(a.2 * ONE, b.2))
}

/// The scalar product, rescaled once.
pub open spec fn dot3(a: (int, int, int), b: (int, int, int)) -> int {
    fx(a.0 * b.0 + a.1 * b.1 + a.2 * b.2)
}

/// The right-handed cross product.
pub open spec fn cross3(a: (int, int, int), b: (int, int, int)) -> (int, int, int) {
    (fx(a.1 * b.2 - a.2 * b.1), fx(a.2 * b.0 - a.0 * b.2), fx(a.0 * b.1 - a.1 * b.0))
}

pub open spec fn norm_sq3(a: (int, int, int)) -> int {
    a.0 * a.0 + a.1 * a.1 + a.2 * a.2
}

/// Largest component magnitude that `length` and `normalize` accept (2^50).
pub const WIDE: i64 = 1125899906842624;

/// Every component lies within `WIDE`.
pub open spec fn in_wide3(a: (int, int, int)) -> bool {
    -WIDE <= a.0 <= WIDE && -WIDE <= a.1 <= WIDE && -WIDE <= a.2 <= WIDE
}

/// The integer square root: the largest `r` with `r * r <= n`.
pub open spec fn is_isqrt(n: int, r: int) -> bool {
    0 <= r && r * r <= n && n < (r + 1) * (r + 1)
}

/// The integer square root of a non-negative `n`.
pub open spec fn isqrt_of(n: int) -> int {
    choose|r: int| is_isqrt(n, r)
}

/// The integer square root is unique.
pub proof fn lemma_isqrt_unique(n: int, r: int)
    requires
        is_isqrt(n, r),
    ensures
        isqrt_of(n) == r,
{
    let q = isqrt_of(n);
    assert(is_isqrt(n, q));
    if q < r {
        assert((q + 1) * (q + 1) <= r * r) by (nonlinear_arith) requires 0 <= q, q + 1 <= r;
    } else if r < q {
        assert((r + 1) * (r + 1) <= q * q) by (nonlinear_arith) requires 0 <= r, r + 1 <= q;
    }
}

/// The largest component magnitude.
pub open spec fn max_abs3(a: (int, int, int)) -> int {
    let m = if abs(a.0) >= abs(a.1) { abs(a.0) } else { abs(a.1) };
    if m >= abs(a.2) { m } else { abs(a.2) }
}

/// `a` doubled until its largest component reaches 2^31, so that its length
/// is known to many more digits than one fixed-point unit; the direction is
/// unchanged.
pub open spec fn scaled_up(a: (int, int, int)) -> (int, int, int)
    decreases 0x1_0000_0000 - max_abs3(a),
{
    if max_abs3(a) == 0 || max_abs3(a) >= 0x8000_0000 {
        a
    } else {
        scaled_up((2 * a.0, 2 * a.1, 2 * a.2))
    }
}

/// The unit vector along `a`, in fixed point: `a` scaled up, then each
/// component divided by its length; `None` for the zero vector.
pub open spec fn normalized3(a: (int, int, int)) -> Option<(int, int, int)> {
    if a == (0int, 0int, 0int) {
        None
    } else {
        Some(scaled3(scaled_up(a), isqrt_of(norm_sq3(scaled_up(a)))))
    }
}

proof fn lemma_abs_sq(x: int)
    ensures
        abs(x) * abs(x) == x * x,
        abs(x * ONE) == abs(x) * ONE,
        abs(x) >= 0,
{
    if x < 0 {
        assert((-x) * (-x) == x * x) by (nonlinear_arith);
        assert(x * ONE < 0) by (nonlinear_arith) requires x < 0;
        assert(-(x * ONE) == (-x) * ONE) by (nonlinear_arith);
    } else {
        assert(x * ONE >= 0) by (nonlinear_arith) requires x >= 0;
    }
}

/// A component of a unit vector, against the exact quotient it rounds.
proof fn lemma_unit_component(x: int, l: int)
    requires
        l > 0,
        abs(x) <= l,
    ensures
        0 <= abs(tdiv(x * ONE, l)) <= ONE,
        tdiv(x * ONE, l) * tdiv(x * ONE, l) == abs(tdiv(x * ONE, l)) * abs(tdiv(x * ONE, l)),
        abs(tdiv(x * ONE, l)) * abs(tdiv(x * ONE, l)) * (l * l) <= x * x * (ONE * ONE),
        x * x * (ONE * ONE) < (abs(tdiv(x * ONE, l)) + 1) * (abs(tdiv(x * ONE, l)) + 1) * (l * l),
{
    let ax = abs(x);
    let n = ax * ONE;
    lemma_abs_sq(x);
    vstd::arithmetic::div_mod::lemma_fundamental_div_mod(n, l);
    vstd::arithmetic::div_mod::lemma_mod_pos_bound(n, l);
    let q = n / l;
    let r = n % l;
    assert(q >= 0) by (nonlinear_arith) requires n == l * q + r, 0 <= r < l, n >= 0, l > 0;
    assert(abs(tdiv(x * ONE, l)) == q);
    lemma_abs_sq(tdiv(x * ONE, l));
    assert(q <= ONE) by (nonlinear_arith) requires n == l * q + r, 0 <= r, n == ax * ONE, ax <= l, l > 0, q >= 0;
    assert(q * q * (l * l) <= x * x * (ONE * ONE)) by (nonlinear_arith)
        requires n == l * q + r, 0 <= r, n == ax * ONE, ax * ax == x * x, q >= 0, l > 0;
    assert(x * x * (ONE * ONE) < (q + 1) * (q + 1) * (l * l)) by (nonlinear_arith)
        requires n == l * q + r, r < l, 0 <= r, n == ax * ONE, ax * ax == x * x, q >= 0, l > 0, ax >= 0;
}

/// Dividing a vector by its rounded length gives length one within four
/// fixed-point units, once the length is large.
proof fn lemma_unit_length(u: (int, int, int), l: int)
    requires
        is_isqrt(norm_sq3(u), l),
        l >= 0x8000_0000,
    ensures
        ONE * ONE - 8 * ONE <= norm_sq3(scaled3(u, l)) <= ONE * ONE + 8 * ONE,
{
    lemma_isqrt_zero(u, l);
    lemma_unit_component(u.0, l);
    lemma_unit_component(u.1, l);
    lemma_unit_component(u.2, l);
    let r = scaled3(u, l);
    let q0 = abs(r.0);
    let q1 = abs(r.1);
    let q2 = abs(r.2);
    let n = norm_sq3(r);
    let big_s = norm_sq3(u);
    let l2 = l * l;
    let o2 = ONE * ONE;
    assert(l2 > 0) by (nonlinear_arith) requires l2 == l * l, l > 0;
    assert(n == q0 * q0 + q1 * q1 + q2 * q2);
    assert(n * l2 <= big_s * o2) by (nonlinear_arith)
        requires
            q0 * q0 * l2 <= u.0 * u.0 * o2,
            q1 * q1 * l2 <= u.1 * u.1 * o2,
            q2 * q2 * l2 <= u.2 * u.2 * o2,
            n == q0 * q0 + q1 * q1 + q2 * q2,
            big_s == u.0 * u.0 + u.1 * u.1 + u.2 * u.2;
    assert(big_s * o2 < ((q0 + 1) * (q0 + 1) + (q1 + 1) * (q1 + 1) + (q2 + 1) * (q2 + 1)) * l2)
        by (nonlinear_arith)
        requires
            u.0 * u.0 * o2 < (q0 + 1) * (q0 + 1) * l2,
            u.1 * u.1 * o2 < (q1 + 1) * (q1 + 1) * l2,
            u.2 * u.2 * o2 < (q2 + 1) * (q2 + 1) * l2,
            big_s == u.0 * u.0 + u.1 * u.1 + u.2 * u.2;
    assert(big_s < l2 + 2 * l + 1) by (nonlinear_arith) requires big_s < (l + 1) * (l + 1), l2 == l * l;
    assert(n <= o2 + 8 * ONE) by (nonlinear_arith)
        requires
            n * l2 <= big_s * o2,
            big_s < l2 + 2 * l + 1,
            l2 == l * l,
            l >= 0x8000_0000,
            o2 == 0x1_0000_0000,
            n >= 0;
    assert(o2 < n + 2 * (q0 + q1 + q2) + 3) by (nonlinear_arith)
        requires
            big_s * o2 < ((q0 + 1) * (q0 + 1) + (q1 + 1) * (q1 + 1) + (q2 + 1) * (q2 + 1)) * l2,
            l2 <= big_s,
            l2 > 0,
            o2 > 0,
            n == q0 * q0 + q1 * q1 + q2 * q2;
}

/// `fx(c*c + s*s)` of in-range values fits in an `i64`.
pub proof fn lemma_fx_bound_sq(c: int, s: int)
    requires
        in_range(c),
        in_range(s),
    ensures
        0 <= fx(c * c + s * s) <= 0x2_0000_0000_0000,
{
    assert(0 <= c * c + s * s <= 0x2_0000_0000_0000_0000) by (nonlinear_arith)
        requires -LIMIT <= c <= LIMIT, -LIMIT <= s <= LIMIT;
    crate::fixed::lemma_tdiv_bound(c * c + s * s, ONE as int);
    assert((c * c + s * s) / (ONE as int) <= 0x2_0000_0000_0000) by (nonlinear_arith)
        requires 0 <= c * c + s * s <= 0x2_0000_0000_0000_0000;
}

/// Normalizing the opposite vector gives the opposite unit vector.
pub proof fn lemma_normalized_neg(a: (int, int, int))
    ensures
        normalized3(neg3(a)) == match normalized3(a) {
            Some(n) => Some(neg3(n)),
            None => None::<(int, int, int)>,
        },
{
    if a != (0int, 0int, 0int) {
        lemma_scaled_up_neg(a);
        let u = scaled_up(a);
        assert(norm_sq3(neg3(u)) == norm_sq3(u)) by (nonlinear_arith)
            requires norm_sq3(neg3(u)) == (-u.0) * (-u.0) + (-u.1) * (-u.1) + (-u.2) * (-u.2),
                norm_sq3(u) == u.0 * u.0 + u.1 * u.1 + u.2 * u.2;
        let l = isqrt_of(norm_sq3(u));
        assert((-u.0) * ONE == -(u.0 * ONE) && (-u.1) * ONE == -(u.1 * ONE) && (-u.2) * ONE == -(u.2 * ONE))
            by (nonlinear_arith);
        if l != 0 {
            crate::fixed::lemma_tdiv_neg(u.0 * ONE, l);
            crate::fixed::lemma_tdiv_neg(u.1 * ONE, l);
            crate::fixed::lemma_tdiv_neg(u.2 * ONE, l);
        }
    }
}

proof fn lemma_scaled_up_neg(a: (int, int, int))
    ensures
        scaled_up(neg3(a)) == neg3(scaled_up(a)),
    decreases 0x1_0000_0000 - max_abs3(a),
{
    assert(max_abs3(neg3(a)) == max_abs3(a));
    if max_abs3(a) != 0 && max_abs3(a) < 0x8000_0000 {
        let b = (2 * a.0, 2 * a.1, 2 * a.2);
        lemma_scaled_up_step(a);
        lemma_scaled_up_step(neg3(a));
        assert(neg3(b) == (2 * neg3(a).0, 2 * neg3(a).1, 2 * neg3(a).2));
        lemma_scaled_up_neg(b);
    }
}

/// Doubling keeps the scaled-up vector the same.
proof fn lemma_scaled_up_step(a: (int, int, int))
    requires
        max_abs3(a) != 0,
        max_abs3(a) < 0x8000_0000,
    ensures
        scaled_up((2 * a.0, 2 * a.1, 2 * a.2)) == scaled_up(a),
        max_abs3((2 * a.0, 2 * a.1, 2 * a.2)) == 2 * max_abs3(a),
{
}

/// Each component divided by the length, in fixed point.
pub open spec fn scaled3(a: (int, int, int), len: int) -> (int, int, int) {
    (tdiv(a.0 * ONE, len), tdiv(a.1 * ONE, len), tdiv(a.2 * ONE, len))
}

/// The largest `r` with `r * r <= n`.
pub fn isqrt(n: u128) -> (r: u128)
    requires
        n < 0x100_0000_0000_0000_0000_0000_0000,
    ensures
        is_isqrt(n as int, r as int),
{
    let mut lo: u128 = 0;
    let mut hi: u128 = 0x10_0000_0000_0000;
    assert(hi * hi > n) by (nonlinear_arith)
        requires hi == 0x10_0000_0000_0000u128, n < 0x100_0000_0000_0000_0000_0000_0000;
    while hi - lo > 1
        invariant
            lo < hi <= 0x10_0000_0000_0000,
            lo * lo <= n,
            n < hi * hi,
        decreases hi - lo,
    {
        let mid: u128 = lo + (hi - lo) / 2;
        assert(mid * mid <= 0x10_0000_0000_0000u128 * 0x10_0000_0000_0000u128) by (nonlinear_arith)
            requires mid <= 0x10_0000_0000_0000u128;
        if mid * mid <= n {
            lo = mid;
        } else {
            hi = mid;
        }
    }
    assert(hi == lo + 1);
    lo
}

impl Vec3 {
    pub open spec fn view(&self) -> (int, int, int) {
        (self.x as int, self.y as int, self.z as int)
    }

    /// Every component lies in the representable range.
    pub open spec fn wf(&self) -> bool {
        in_range(self.x as int) && in_range(self.y as int) && in_range(self.z as int)
    }

    pub fn new(x: i64, y: i64, z: i64) -> (r: Self)
        ensures
            r@ == (x as int, y as int, z as int),
    {
        Vec3 { x, y, z }
    }

    pub fn zero() -> (r: Self)
        ensures
            r@ == (0int, 0int, 0int),
    {
        Vec3 { x: 0, y: 0, z: 0 }
    }

    pub fn add(self, other: Self) -> (r: Self)
        requires
            self.wf(),
            other.wf(),
        ensures
            r@ == add3(self@, other@),
    {
        Vec3 { x: self.x + other.x, y: self.y + other.y, z: self.z + other.z }
    }

    pub fn sub(self, other: Self) -> (r: Self)
        requires
            self.wf(),
            other.wf(),
        ensures
            r@ == sub3(self@, other@),
    {
        Vec3 { x: self.x - other.x, y: self.y - other.y, z: self.z - other.z }
    }

    pub fn mul(self, other: Self) -> (r: Self)
        requires
            self.wf(),
            other.wf(),
        ensures
            r@ == mul3(self@, other@),
    {
        Vec3 {
            x: fx_mul(self.x, other.x),
            y: fx_mul(self.y, other.y),
            z: fx_mul(self.z, other.z),
        }
    }

    /// Component-wise quotient; `None` when a divisor component is zero.
    pub fn div(self, other: Self) -> (r: Option<Self>)
        requires
            self.wf(),
            other.wf(),
        ensures
            other.x == 0 || other.y == 0 || other.z == 0 <==> r is None,
            r is Some ==> r->Some_0@ == div3(self@, other@),
    {
        if other.x == 0 || other.y == 0 || other.z == 0 {
            return None;
        }
        Some(Vec3 {
            x: fx_quot(self.x, other.x),
            y: fx_quot(self.y, other.y),
            z: fx_quot(self.z, other.z),
        })
    }

    pub fn dot(self, other: Self) -> (r: i64)
        requires
            self.wf(),
            other.wf(),
        ensures
            r == dot3(self@, other@),
    {
        let s: i128 = prod(self.x, other.x) + prod(self.y, other.y) + prod(self.z, other.z);
        let q = fx_i128(s);
        proof {
            crate::fixed::lemma_tdiv_bound(s as int, ONE as int);
        }
        q as i64
    }

    pub fn cross(&self, other: &Self) -> (r: Self)
        requires
            self.wf(),
            other.wf(),
        ensures
            r@ == cross3(self@, other@),
            in_wide3(r@),
    {
        Vec3 {
            x: fx_diff(self.y, other.z, self.z, other.y),
            y: fx_diff(self.z, other.x, self.x, other.z),
            z: fx_diff(self.x, other.y, self.y, other.x),
        }
    }

    /// The length, `sqrt(x*x + y*y + z*z)` rounded down.
    pub fn length(self) -> (r: i64)
        requires
            in_wide3(self@),
        ensures
            is_isqrt(norm_sq3(self@), r as int),
    {
        proof {
            lemma_sq_wide(self.x as int);
            lemma_sq_wide(self.y as int);
            lemma_sq_wide(self.z as int);
        }
        let s: i128 = (self.x as i128) * (self.x as i128) + (self.y as i128) * (self.y as i128)
            + (self.z as i128) * (self.z as i128);
        let r = isqrt(s as u128);
        assert(r <= 0x10_0000_0000_0000) by (nonlinear_arith)
            requires r * r <= s, s <= 3 * 0x10_0000_0000_0000_0000_0000_0000i128, r >= 0;
        r as i64
    }

    /// Scales the vector to unit length, in place, and returns the result.
    /// A zero vector is reported as degenerate and left as it is.
    pub fn normalize(&mut self) -> (r: Result<Self, GeomError>)
        requires
            in_wide3(old(self)@),
        ensures
            old(self)@ == (0int, 0int, 0int) <==> r == Err::<Self, GeomError>(GeomError::DegenerateVector),
            old(self)@ == (0int, 0int, 0int) ==> *final(self) == *old(self),
            old(self)@ != (0int, 0int, 0int) ==> r is Ok,
            r is Ok ==> Some(r->Ok_0@) == normalized3(old(self)@) && *final(self) == r->Ok_0
                && r->Ok_0.wf(),
            r is Ok ==> ONE * ONE - 8 * ONE <= norm_sq3(r->Ok_0@) <= ONE * ONE + 8 * ONE,
    {
        if self.x == 0 && self.y == 0 && self.z == 0 {
            return Err(GeomError::DegenerateVector);
        }
        let ghost start = *self;
        let mut u = *self;
        while max_abs(&u) < 0x8000_0000
            invariant
                in_wide3(u@),
                u@ != (0int, 0int, 0int),
                scaled_up(u@) == scaled_up(start@),
            decreases 0x1_0000_0000 - max_abs3(u@),
        {
            proof {
                lemma_scaled_up_step(u@);
            }
            u = Vec3 { x: 2 * u.x, y: 2 * u.y, z: 2 * u.z };
        }
        assert(scaled_up(u@) == u@);
        let len = u.length();
        proof {
            lemma_isqrt_zero(u@, len as int);
            lemma_len_large(u@, len as int);
            lemma_isqrt_unique(norm_sq3(u@), len as int);
            lemma_unit_length(u@, len as int);
        }
        let v = Vec3 {
            x: fx_quot_pos(u.x, len),
            y: fx_quot_pos(u.y, len),
            z: fx_quot_pos(u.z, len),
        };
        *self = v;
        Ok(v)
    }
}

/// The cross product is anti-commutative: `cross(a, b) == -cross(b, a)`.
pub proof fn lemma_cross_anticommutative(a: (int, int, int), b: (int, int, int))
    ensures
        cross3(a, b) == neg3(cross3(b, a)),
{
    assert(a.1 * b.2 - a.2 * b.1 == -(b.1 * a.2 - b.2 * a.1)) by (nonlinear_arith);
    assert(a.2 * b.0 - a.0 * b.2 == -(b.2 * a.0 - b.0 * a.2)) by (nonlinear_arith);
    assert(a.0 * b.1 - a.1 * b.0 == -(b.0 * a.1 - b.1 * a.0)) by (nonlinear_arith);
    crate::fixed::lemma_tdiv_neg(b.1 * a.2 - b.2 * a.1, ONE as int);
    crate::fixed::lemma_tdiv_neg(b.2 * a.0 - b.0 * a.2, ONE as int);
    crate::fixed::lemma_tdiv_neg(b.0 * a.1 - b.1 * a.0, ONE as int);
}

/// The largest component magnitude, for components within `WIDE`.
fn max_abs(v: &Vec3) -> (r: i64)
    requires
        in_wide3(v@),
    ensures
        r == max_abs3(v@),
{
    let ax = if v.x >= 0 { v.x } else { -v.x };
    let ay = if v.y >= 0 { v.y } else { -v.y };
    let az = if v.z >= 0 { v.z } else { -v.z };
    let m = if ax >= ay { ax } else { ay };
    if m >= az { m } else { az }
}

/// Once the largest component reaches 2^31, so does the length.
proof fn lemma_len_large(u: (int, int, int), l: int)
    requires
        is_isqrt(norm_sq3(u), l),
        max_abs3(u) >= 0x8000_0000,
    ensures
        l >= 0x8000_0000,
{
    lemma_sq_nonneg(u.0);
    lemma_sq_nonneg(u.1);
    lemma_sq_nonneg(u.2);
    lemma_abs_sq(u.0);
    lemma_abs_sq(u.1);
    lemma_abs_sq(u.2);
    let m = max_abs3(u);
    assert(m * m <= norm_sq3(u)) by (nonlinear_arith)
        requires
            m == abs(u.0) || m == abs(u.1) || m == abs(u.2),
            abs(u.0) * abs(u.0) == u.0 * u.0,
            abs(u.1) * abs(u.1) == u.1 * u.1,
            abs(u.2) * abs(u.2) == u.2 * u.2,
            u.0 * u.0 >= 0, u.1 * u.1 >= 0, u.2 * u.2 >= 0,
            norm_sq3(u) == u.0 * u.0 + u.1 * u.1 + u.2 * u.2;
    if l < 0x8000_0000 {
        assert((l + 1) * (l + 1) <= m * m) by (nonlinear_arith) requires 0 <= l, l + 1 <= 0x8000_0000, m >= 0x8000_0000;
    }
}

proof fn lemma_sq_wide(a: int)
    requires
        -WIDE <= a <= WIDE,
    ensures
        0 <= a * a <= 0x10_0000_0000_0000_0000_0000_0000,
{
    assert(0 <= a * a <= 0x10_0000_0000_0000_0000_0000_0000) by (nonlinear_arith)
        requires -0x4_0000_0000_0000 <= a <= 0x4_0000_0000_0000;
}

proof fn lemma_sq_nonneg(a: int)
    ensures
        a * a >= 0,
{
    assert(a * a >= 0) by (nonlinear_arith);
}

/// The length is zero exactly for the zero vector, and no component exceeds it.
proof fn lemma_isqrt_zero(a: (int, int, int), len: int)
    requires
        is_isqrt(norm_sq3(a), len),
    ensures
        len == 0 <==> a == (0int, 0int, 0int),
        abs(a.0) <= len && abs(a.1) <= len && abs(a.2) <= len,
{
    lemma_sq_nonneg(a.0);
    lemma_sq_nonneg(a.1);
    lemma_sq_nonneg(a.2);
    assert(abs(a.0) <= len) by (nonlinear_arith)
        requires a.0 * a.0 <= a.0 * a.0 + a.1 * a.1 + a.2 * a.2,
            a.0 * a.0 + a.1 * a.1 + a.2 * a.2 < (len + 1) * (len + 1), len >= 0;
    assert(abs(a.1) <= len) by (nonlinear_arith)
        requires a.1 * a.1 <= a.0 * a.0 + a.1 * a.1 + a.2 * a.2,
            a.0 * a.0 + a.1 * a.1 + a.2 * a.2 < (len + 1) * (len + 1), len >= 0;
    assert(abs(a.2) <= len) by (nonlinear_arith)
        requires a.2 * a.2 <= a.0 * a.0 + a.1 * a.1 + a.2 * a.2,
            a.0 * a.0 + a.1 * a.1 + a.2 * a.2 < (len + 1) * (len + 1), len >= 0;
    if a == (0int, 0int, 0int) {
        assert(len * len <= 0);
        assert(len == 0) by (nonlinear_arith) requires len >= 0, len * len <= 0;
    } else {
        if len == 0 {
            assert(a.0 * a.0 + a.1 * a.1 + a.2 * a.2 >= 1) by (nonlinear_arith)
                requires a.0 != 0 || a.1 != 0 || a.2 != 0;
        }
    }
}

/// The exact product of two in-range values.
fn prod(a: i64, b: i64) -> (r: i128)
    requires
        in_range(a as int),
        in_range(b as int),
    ensures
        r == a as int * b as int,
        abs(r as int) <= 0x1_0000_0000_0000_0000,
{
    assert(abs(a as int * b as int) <= 0x1_0000_0000_0000_0000) by (nonlinear_arith)
        requires -0x1_0000_0000 <= a <= 0x1_0000_0000, -0x1_0000_0000 <= b <= 0x1_0000_0000;
    (a as i128) * (b as i128)
}

fn fx_mul(a: i64, b: i64) -> (r: i64)
    requires
        in_range(a as int),
        in_range(b as int),
    ensures
        r == fx(a as int * b as int),
{
    let p = prod(a, b);
    let q = fx_i128(p);
    proof {
        crate::fixed::lemma_tdiv_bound(p as int, ONE as int);
    }
    q as i64
}

fn fx_diff(a: i64, b: i64, c: i64, d: i64) -> (r: i64)
    requires
        in_range(a as int),
        in_range(b as int),
        in_range(c as int),
        in_range(d as int),
    ensures
        r == fx(a as int * b as int - c as int * d as int),
        -WIDE <= r <= WIDE,
{
    let p = prod(a, b) - prod(c, d);
    let q = fx_i128(p);
    proof {
        crate::fixed::lemma_tdiv_bound(p as int, ONE as int);
        assert(abs(p as int) / (ONE as int) <= WIDE) by (nonlinear_arith)
            requires abs(p as int) <= 0x2_0000_0000_0000_0000;
    }
    q as i64
}

fn fx_quot(a: i64, b: i64) -> (r: i64)
    requires
        in_range(a as int),
        in_range(b as int),
        b != 0,
    ensures
        r == tdiv(a as int * ONE, b as int),
{
    assert(-0x1_0000_0000_0000 <= (a as int) * ONE <= 0x1_0000_0000_0000) by (nonlinear_arith)
        requires -LIMIT <= a <= LIMIT;
    let n: i128 = (a as i128) * (ONE as i128);
    let q = tdiv_i128(n, b as i128);
    proof {
        crate::fixed::lemma_tdiv_bound(n as int, abs(b as int));
        assert(tdiv(n as int, b as int) == tdiv(n as int, abs(b as int))
            || tdiv(n as int, b as int) == -tdiv(n as int, abs(b as int)));
        assert(abs(n as int) / abs(b as int) <= abs(n as int)) by (nonlinear_arith)
            requires abs(b as int) >= 1, abs(n as int) >= 0;
    }
    q as i64
}

/// `a * ONE / len`, where `a` does not exceed `len` in magnitude.
fn fx_quot_pos(a: i64, len: i64) -> (r: i64)
    requires
        abs(a as int) <= len,
        -WIDE <= a <= WIDE,
        len > 0,
    ensures
        r == tdiv(a as int * ONE, len as int),
        -ONE <= r <= ONE,
{
    assert(-0x4_0000_0000_0000_0000 <= (a as int) * ONE <= 0x4_0000_0000_0000_0000) by (nonlinear_arith)
        requires -WIDE <= a <= WIDE;
    let n: i128 = (a as i128) * (ONE as i128);
    let q = tdiv_i128(n, len as i128);
    proof {
        crate::fixed::lemma_tdiv_bound(n as int, len as int);
        assert(abs(n as int) / (len as int) <= ONE) by (nonlinear_arith)
            requires len >= 1, abs(n as int) == abs(a as int) * ONE, abs(a as int) <= len;
    }
    q as i64
}

} // verus!

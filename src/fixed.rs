//! Fixed-point numbers: a real value `v` is held as the integer `v * ONE`,
//! rounded toward zero.
use vstd::prelude::*;

verus! {

/// The integer that stands for the real number 1.
pub const ONE: i64 = 65536;

/// Largest magnitude of a stored coordinate or matrix entry (65536.0).
pub const LIMIT: i64 = 4294967296;

/// A value that lies in the representable range.
pub open spec fn in_range(v: int) -> bool {
    -LIMIT <= v <= LIMIT
}

/// Division rounding toward zero, as Rust's integer `/` does.
pub open spec fn tdiv(n: int, d: int) -> int {
    if d == 0 {
        0
    } else if (n >= 0) == (d > 0) {
        abs(n) / abs(d)
    } else {
        -(abs(n) / abs(d))
    }
}

pub open spec fn abs(n: int) -> int {
    if n >= 0 { n } else { -n }
}

/// Rescales a product of two fixed-point values back to one `ONE` scale.
pub open spec fn fx(n: int) -> int {
    tdiv(n, ONE as int)
}

pub proof fn lemma_tdiv_neg(n: int, d: int)
    requires
        d != 0,
    ensures
        tdiv(-n, d) == -tdiv(n, d),
{
}

pub proof fn lemma_tdiv_bound(n: int, d: int)
    requires
        d > 0,
    ensures
        abs(tdiv(n, d)) <= abs(n) / d,
        abs(n) <= d ==> abs(tdiv(n, d)) <= 1,
{
    if abs(n) <= d {
        assert(abs(n) / d <= 1) by (nonlinear_arith)
            requires abs(n) <= d, d > 0, abs(n) >= 0;
    }
}

pub proof fn lemma_tdiv_exact(k: int, d: int)
    requires
        d > 0,
    ensures
        tdiv(k * d, d) == k,
{
    if k >= 0 {
        assert(k * d >= 0) by (nonlinear_arith) requires k >= 0, d > 0;
        assert((k * d) / d == k) by (nonlinear_arith) requires d > 0;
    } else {
        assert(k * d < 0) by (nonlinear_arith) requires k < 0, d > 0;
        assert(-(k * d) == (-k) * d) by (nonlinear_arith);
        assert(((-k) * d) / d == -k) by (nonlinear_arith) requires d > 0;
    }
}

/// Divides rounding toward zero.
pub fn tdiv_i128(n: i128, d: i128) -> (r: i128)
    requires
        d != 0,
        n > i128::MIN,
        d > i128::MIN,
    ensures
        r == tdiv(n as int, d as int),
{
    let an: i128 = if n >= 0 { n } else { -n };
    let ad: i128 = if d >= 0 { d } else { -d };
    let q: i128 = an / ad;
    if (n >= 0) == (d > 0) {
        q
    } else {
        -q
    }
}

/// Rescales a sum of fixed-point products to `ONE` scale.
pub fn fx_i128(n: i128) -> (r: i128)
    requires
        n > i128::MIN,
    ensures
        r == fx(n as int),
{
    tdiv_i128(n, ONE as i128)
}

} // verus!

//! Fixed-point arithmetic in micro-units: the value `SCALE` stands for 1.0.
//!
//! All quantities of the library (observations, weights, rewards, noise
//! levels) are `i64` counts of micro-units. Division truncates toward zero,
//! as Rust's `/` does on machine integers; `tdiv` is the spec-level mirror
//! of that, since `/` on `int` is Euclidean.

use vstd::prelude::*;

verus! {

/// One whole unit: all fixed-point values are counts of 1/SCALE.
pub const SCALE: i64 = 1000000;

/// Largest magnitude a stored signal (observation, activation, running mean)
/// may take: one million whole units.
pub const VAL_LIMIT: i64 = 1000000000000;

/// Division truncating toward zero, the behaviour of `/` on Rust integers.
pub open spec fn tdiv(a: int, b: int) -> int {
    if a >= 0 {
        a / b
    } else {
        -((-a) / b)
    }
}

/// Absolute value on `int`.
pub open spec fn iabs(a: int) -> int {
    if a >= 0 {
        a
    } else {
        -a
    }
}

/// Clamp to a closed interval.
pub open spec fn clamp_spec(x: int, lo: int, hi: int) -> int {
    if x < lo {
        lo
    } else if x > hi {
        hi
    } else {
        x
    }
}

/// Floor of the square root of a natural number.
pub open spec fn sqrt_floor(n: nat) -> nat
    decreases n,
{
    if n == 0 {
        0
    } else {
        let r = sqrt_floor((n - 1) as nat);
        if (r + 1) * (r + 1) <= n {
            r + 1
        } else {
            r
        }
    }
}

pub proof fn lemma_sqrt_floor_bounds(n: nat)
    ensures
        sqrt_floor(n) * sqrt_floor(n) <= n,
        n < (sqrt_floor(n) + 1) * (sqrt_floor(n) + 1),
    decreases n,
{
    if n == 0 {
        assert(sqrt_floor(n) == 0);
        assert(n < (sqrt_floor(n) + 1) * (sqrt_floor(n) + 1)) by (nonlinear_arith)
            requires
                n == 0 && sqrt_floor(n) == 0;
    } else {
        lemma_sqrt_floor_bounds((n - 1) as nat);
        let r = sqrt_floor((n - 1) as nat);
        let s = sqrt_floor(n);
        assert(s == if (r + 1) * (r + 1) <= n {
            r + 1
        } else {
            r
        });
        if (r + 1) * (r + 1) <= n {
            assert((r + 1) * (r + 1) < (r + 2) * (r + 2)) by (nonlinear_arith);
            assert(s * s <= n);
            assert(n < (s + 1) * (s + 1));
        } else {
            assert(s * s <= n);
            assert(n < (s + 1) * (s + 1));
        }
    }
}

/// The two bounds of `lemma_sqrt_floor_bounds` pin the root down.
pub proof fn lemma_sqrt_floor_unique(n: nat, r: nat)
    requires
        r * r <= n,
        n < (r + 1) * (r + 1),
    ensures
        r == sqrt_floor(n),
{
    lemma_sqrt_floor_bounds(n);
    let s = sqrt_floor(n);
    if r < s {
        assert((r + 1) * (r + 1) <= s * s) by (nonlinear_arith)
            requires
                r + 1 <= s;
    }
    if s < r {
        assert((s + 1) * (s + 1) <= r * r) by (nonlinear_arith)
            requires
                s + 1 <= r;
    }
}

/// Magnitude of a truncating quotient never exceeds the dividend's.
pub proof fn lemma_tdiv_bounds(a: int, b: int) by (nonlinear_arith)
    requires
        b >= 1,
    ensures
        iabs(tdiv(a, b)) <= iabs(a),
        a >= 0 ==> 0 <= tdiv(a, b) <= a,
        a <= 0 ==> a <= tdiv(a, b) <= 0,
        iabs(a) < b ==> tdiv(a, b) == 0,
        b * iabs(tdiv(a, b)) <= iabs(a),
{
}

/// Dividing an exact multiple gives the factor back.
pub proof fn lemma_tdiv_exact(a: int, b: int) by (nonlinear_arith)
    requires
        b >= 1,
    ensures
        tdiv(a * b, b) == a,
{
}

/// A bound on the dividend scales down through the division.
pub proof fn lemma_tdiv_quot_bound(a: int, b: int, c: int) by (nonlinear_arith)
    requires
        b >= 1,
        0 <= c,
        iabs(a) <= c * b,
    ensures
        iabs(tdiv(a, b)) <= c,
{
}

/// Multiplication commutes; stated for bridging bound shapes.
pub proof fn lemma_mul_comm(a: int, b: int) by (nonlinear_arith)
    ensures
        a * b == b * a,
{
}

/// Magnitudes multiply: bounds on the factors bound the product.
pub proof fn lemma_abs_mul_bound(a: int, b: int, ca: int, cb: int) by (nonlinear_arith)
    requires
        iabs(a) <= ca,
        iabs(b) <= cb,
    ensures
        iabs(a * b) <= ca * cb,
{
}

/// Truncating division, `i64` operands, positive divisor.
pub fn div_trunc(a: i64, b: i64) -> (r: i64)
    requires
        b >= 1,
        a > i64::MIN,
    ensures
        r == tdiv(a as int, b as int),
{
    if a >= 0 {
        let q: u64 = (a as u64) / (b as u64);
        q as i64
    } else {
        let na: u64 = (-a) as u64;
        let q: u64 = na / (b as u64);
        assert(q <= na);
        -(q as i64)
    }
}

/// Truncating division on `i128`, for wide intermediate products.
pub fn div_trunc_i128(a: i128, b: i128) -> (r: i128)
    requires
        b >= 1,
        a > i128::MIN,
    ensures
        r == tdiv(a as int, b as int),
{
    if a >= 0 {
        let q: u128 = (a as u128) / (b as u128);
        proof {
            lemma_tdiv_bounds(a as int, b as int);
        }
        q as i128
    } else {
        let na: u128 = (-a) as u128;
        let q: u128 = na / (b as u128);
        assert(q <= na);
        proof {
            lemma_tdiv_bounds(a as int, b as int);
        }
        -(q as i128)
    }
}

/// Clamp an `i64` to `[lo, hi]`.
pub fn clamp_i64(x: i64, lo: i64, hi: i64) -> (r: i64)
    requires
        lo <= hi,
    ensures
        r == clamp_spec(x as int, lo as int, hi as int),
{
    if x < lo {
        lo
    } else if x > hi {
        hi
    } else {
        x
    }
}

/// An element-wise copy; nothing is taken on trust about `derive(Clone)`.
pub fn copy_vec_i64(v: &Vec<i64>) -> (r: Vec<i64>)
    ensures
        r@ == v@,
{
    let mut r: Vec<i64> = Vec::new();
    let mut i: usize = 0;
    while i < v.len()
        invariant
            i <= v@.len(),
            r@ =~= v@.subrange(0, i as int),
        decreases v@.len() - i,
    {
        r.push(v[i]);
        i = i + 1;
    }
    proof {
        assert(r@ =~= v@);
    }
    r
}

/// Floor square root by bisection.
pub fn isqrt_u128(n: u128) -> (r: u64)
    ensures
        r == sqrt_floor(n as nat),
{
    let mut lo: u64 = 0;
    let mut hi: u64 = u64::MAX;
    if n >= 0xffffffffffffffff * 0xffffffffffffffff {
        proof {
            assert((0x10000000000000000int) * (0x10000000000000000int)
                > u128::MAX) by (nonlinear_arith);
            lemma_sqrt_floor_unique(n as nat, u64::MAX as nat);
        }
        return u64::MAX;
    }
    // invariant: lo*lo <= n < hi*hi, answer in [lo, hi)
    while hi - lo > 1
        invariant
            lo < hi,
            (lo as int) * (lo as int) <= n as int,
            (n as int) < (hi as int) * (hi as int),
        decreases hi - lo,
    {
        let mid: u64 = lo + (hi - lo) / 2;
        proof {
            assert((mid as int) * (mid as int) <= u128::MAX) by (nonlinear_arith)
                requires
                    0 <= mid <= u64::MAX;
        }
        let sq: u128 = (mid as u128) * (mid as u128);
        if sq <= n {
            lo = mid;
        } else {
            hi = mid;
        }
    }
    proof {
        lemma_sqrt_floor_unique(n as nat, lo as nat);
    }
    lo
}

} // verus!

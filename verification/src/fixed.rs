//! Fixed-point scalar arithmetic for the solver.
//!
//! Coordinates, lengths and angles are held as `i64` values scaled by
//! `SCALE`: one world unit (or one radian) is `SCALE` ticks. All solver
//! arithmetic is exact integer arithmetic over this representation, so
//! every operation has a precise mathematical description and no value
//! can ever become non-finite.

use vstd::prelude::*;

verus! {

/// Ticks per world unit (and per radian): the fixed-point scale.
pub const SCALE: i64 = 1_000_000;

/// Largest coordinate magnitude the solver works with, in ticks
/// (one million world units).
pub const MAX_COORD: i64 = 1_000_000_000_000;

/// pi in angle ticks.
pub const PI_FIXED: i64 = 3_141_593;

/// pi / 2 in angle ticks.
pub const HALF_PI_FIXED: i64 = 1_570_796;

/// pi / 4 in angle ticks.
pub const QUARTER_PI_FIXED: i64 = 785_398;

/// 2 * pi in angle ticks.
pub const TWO_PI_FIXED: i64 = 6_283_185;

/// Truncating (round-toward-zero) division, the behaviour of `/` on
/// Rust's signed integers, as a mathematical function. Meaningful for
/// `b > 0`.
pub open spec fn div_t(a: int, b: int) -> int {
    if a >= 0 {
        a / b
    } else {
        -((-a) / b)
    }
}

/// `v` clamped into `[lo, hi]`.
pub open spec fn clamp_spec(v: int, lo: int, hi: int) -> int {
    if v < lo {
        lo
    } else if v > hi {
        hi
    } else {
        v
    }
}

/// Floor of the square root, defined by counting up.
pub open spec fn isqrt_spec(n: nat) -> nat
    decreases n,
{
    if n == 0 {
        0
    } else {
        let r = isqrt_spec((n - 1) as nat);
        if (r + 1) * (r + 1) <= n {
            r + 1
        } else {
            r
        }
    }
}

/// `isqrt_spec(n)` really is the floor of the square root of `n`.
pub proof fn lemma_isqrt_spec_bounds(n: nat)
    ensures
        isqrt_spec(n) * isqrt_spec(n) <= n,
        n < (isqrt_spec(n) + 1) * (isqrt_spec(n) + 1),
    decreases n,
{
    if n == 0 {
        assert(isqrt_spec(0) == 0);
        assert(0nat < (0nat + 1) * (0nat + 1)) by (nonlinear_arith);
    } else {
        lemma_isqrt_spec_bounds((n - 1) as nat);
        let r = isqrt_spec((n - 1) as nat);
        let s = isqrt_spec(n);
        assert(r * r <= n - 1);
        assert(n - 1 < (r + 1) * (r + 1));
        if (r + 1) * (r + 1) <= n {
            assert(s == r + 1);
            assert(s * s <= n);
            assert(n < (s + 1) * (s + 1)) by (nonlinear_arith)
                requires
                    s >= 1,
                    n <= s * s,
            ;
        } else {
            assert(s == r);
            assert(s * s <= n);
            assert(n < (s + 1) * (s + 1));
        }
    }
}

/// The floor square root is unique: any `r` squeezed the same way equals it.
pub proof fn lemma_isqrt_unique(r: nat, n: nat)
    requires
        r * r <= n,
        n < (r + 1) * (r + 1),
    ensures
        r == isqrt_spec(n),
{
    lemma_isqrt_spec_bounds(n);
    let s = isqrt_spec(n);
    assert(r == s) by (nonlinear_arith)
        requires
            r * r <= n,
            n < (r + 1) * (r + 1),
            s * s <= n,
            n < (s + 1) * (s + 1),
            r >= 0,
            s >= 0,
    ;
}

/// If `n` is below a square, the root of `n` is below the base.
pub proof fn lemma_isqrt_below(n: nat, k: nat)
    requires
        n < k * k,
    ensures
        isqrt_spec(n) < k,
{
    lemma_isqrt_spec_bounds(n);
    let r = isqrt_spec(n);
    assert(r < k) by (nonlinear_arith)
        requires
            r * r <= n,
            n < k * k,
            r >= 0,
            k >= 0,
    ;
}

/// Magnitude bound for a product from magnitude bounds on the factors.
pub proof fn lemma_mul_bound(a: int, b: int, ma: int, mb: int)
    by (nonlinear_arith)
    requires
        -ma <= a <= ma,
        -mb <= b <= mb,
        0 <= ma,
        0 <= mb,
    ensures
        -(ma * mb) <= a * b <= ma * mb,
{
}

/// Range of a product of nonnegative factors.
pub proof fn lemma_mul_nonneg_bound(a: int, b: int, ma: int, mb: int)
    by (nonlinear_arith)
    requires
        0 <= a <= ma,
        0 <= b <= mb,
    ensures
        0 <= a * b <= ma * mb,
{
}

/// Division of a nonnegative value by a positive one shrinks it and
/// respects an upper bound on the numerator.
pub proof fn lemma_div_pos_bound(a: int, b: int, m: int)
    by (nonlinear_arith)
    requires
        0 <= a <= m,
        0 < b,
    ensures
        0 <= a / b <= m / b,
        a / b <= a,
{
}

/// A square is nonnegative and bounded by the square of the bound.
pub proof fn lemma_square_bound(a: int, m: int)
    by (nonlinear_arith)
    requires
        -m <= a <= m,
        0 <= m,
    ensures
        0 <= a * a <= m * m,
{
}

/// The floor square root never decreases when its argument grows.
pub proof fn lemma_isqrt_monotone(m: nat, n: nat)
    requires
        m <= n,
    ensures
        isqrt_spec(m) <= isqrt_spec(n),
{
    lemma_isqrt_spec_bounds(m);
    lemma_isqrt_spec_bounds(n);
    let r = isqrt_spec(m);
    let s = isqrt_spec(n);
    assert(r <= s) by (nonlinear_arith)
        requires
            r * r <= m,
            m < (r + 1) * (r + 1),
            s * s <= n,
            n < (s + 1) * (s + 1),
            m <= n,
            r >= 0,
            s >= 0,
    ;
}

/// The floor square root of a perfect square is its base.
pub proof fn lemma_isqrt_square(a: nat)
    ensures
        isqrt_spec(a * a) == a,
{
    assert(a * a < (a + 1) * (a + 1)) by (nonlinear_arith)
        requires
            a >= 0,
    ;
    lemma_isqrt_unique(a, a * a);
}

/// A scaled proper fraction stays at or below the scale.
pub proof fn lemma_ratio_le_scale(num: int, den: int, s: int)
    by (nonlinear_arith)
    requires
        0 <= num <= den,
        0 < den,
        0 < s,
    ensures
        0 <= num * s / den <= s,
{
}

/// Floor square root by binary search.
pub fn isqrt(n: u128) -> (r: u64)
    ensures
        r == isqrt_spec(n as nat),
{
    let mut lo: u128 = 0;
    let mut hi: u128 = 0x1_0000_0000_0000_0000u128;
    proof {
        assert((n as nat) < 0x1_0000_0000_0000_0000nat * 0x1_0000_0000_0000_0000nat)
            by (nonlinear_arith)
            requires
                n <= u128::MAX,
        ;
    }
    while lo + 1 < hi
        invariant
            lo < hi <= 0x1_0000_0000_0000_0000u128,
            (lo as nat) * (lo as nat) <= n as nat,
            (n as nat) < (hi as nat) * (hi as nat),
        decreases hi - lo,
    {
        let mid = lo + (hi - lo) / 2;
        proof {
            assert((mid as nat) * (mid as nat) <= u128::MAX) by (nonlinear_arith)
                requires
                    mid < 0x1_0000_0000_0000_0000u128,
            ;
        }
        if mid * mid <= n {
            lo = mid;
        } else {
            hi = mid;
        }
    }
    proof {
        assert((n as nat) < ((lo + 1) as nat) * ((lo + 1) as nat));
        lemma_isqrt_unique(lo as nat, n as nat);
        assert(lo < 0x1_0000_0000_0000_0000u128);
    }
    lo as u64
}

/// Element-wise copy of a vector of plain values: the deep copy that
/// undo snapshots rely on.
pub fn clone_vec_copy<T: Copy>(v: &Vec<T>) -> (r: Vec<T>)
    ensures
        r@ == v@,
{
    let mut r: Vec<T> = Vec::new();
    let mut i: usize = 0;
    while i < v.len()
        invariant
            0 <= i <= v.len(),
            r@.len() == i,
            forall|t: int| 0 <= t < i ==> r@[t] == v@[t],
        decreases v.len() - i,
    {
        r.push(v[i]);
        i = i + 1;
    }
    proof {
        assert(r@ =~= v@);
    }
    r
}

/// Clamp a scalar into `[lo, hi]`.
pub fn clamp_i64(v: i64, lo: i64, hi: i64) -> (r: i64)
    requires
        lo <= hi,
    ensures
        r == clamp_spec(v as int, lo as int, hi as int),
{
    if v < lo {
        lo
    } else if v > hi {
        hi
    } else {
        v
    }
}

} // verus!

//! Fixed-point scalar arithmetic.
//!
//! A scalar value is represented by a signed count of millionths held in
//! an `i64` (its *raw* form): the raw value `1_500_000` stands for `1.5`.
//! Products and quotients of raw values are computed in `i128` and cut
//! back to scale with [`div_trunc`], which rounds toward zero.  The spec
//! functions [`div_tz`] and [`isqrt_spec`] give the exact mathematical
//! meaning of every rounding operation in the crate.

use vstd::prelude::*;

verus! {

/// Raw units per 1.0: every scalar in this crate is a count of millionths.
pub const SCALE: i64 = 1_000_000;

/// The working range of the optimization algorithms: any force,
/// velocity, position or spring constant handed to them must have raw
/// magnitude at most this, which leaves ample headroom for every
/// intermediate product.
pub const WORK_LIM: i64 = 0x100_0000_0000;

/// Magnitude of a mathematical integer.
pub open spec fn abs_i(n: int) -> int {
    if n < 0 { -n } else { n }
}

/// Division rounding toward zero: the meaning of every scalar division
/// performed by the crate.  `q` is the exact quotient of the magnitudes,
/// and the sign is that of the exact ratio.
pub open spec fn div_tz(n: int, d: int) -> int
    recommends
        d != 0,
{
    let q = abs_i(n) / abs_i(d);
    if (n < 0) == (d < 0) { q } else { -q }
}

/// The magnitude of a truncated quotient is the floor quotient of the
/// magnitudes; in particular it never exceeds the dividend's magnitude.
pub proof fn lemma_div_tz_abs(n: int, d: int)
    requires
        d != 0,
    ensures
        abs_i(div_tz(n, d)) == abs_i(n) / abs_i(d),
        abs_i(div_tz(n, d)) <= abs_i(n),
        abs_i(div_tz(n, d)) * abs_i(d) <= abs_i(n),
{
    let un = abs_i(n);
    let ud = abs_i(d);
    assert(un >= 0 && ud >= 1);
    vstd::arithmetic::div_mod::lemma_fundamental_div_mod(un, ud);
    assert(un == ud * (un / ud) + un % ud);
    vstd::arithmetic::div_mod::lemma_mod_bound(un, ud);
    assert(un / ud >= 0) by {
        vstd::arithmetic::div_mod::lemma_div_pos_is_pos(un, ud);
    }
    assert((un / ud) * ud <= un) by (nonlinear_arith)
        requires
            un == ud * (un / ud) + un % ud,
            un % ud >= 0,
            un / ud >= 0,
            ud >= 1,
    {}
    assert(un / ud <= un) by (nonlinear_arith)
        requires
            (un / ud) * ud <= un,
            un / ud >= 0,
            ud >= 1,
    {}
}

/// Truncating division of two `i128` values, the one scalar division
/// primitive of the crate.
pub fn div_trunc(n: i128, d: i128) -> (q: i128)
    requires
        d != 0,
        abs_i(n as int) < 0x4000_0000_0000_0000_0000_0000_0000_0000,
        abs_i(d as int) < 0x4000_0000_0000_0000_0000_0000_0000_0000,
    ensures
        q == div_tz(n as int, d as int),
{
    let un: u128 = if n < 0 { (-n) as u128 } else { n as u128 };
    let ud: u128 = if d < 0 { (-d) as u128 } else { d as u128 };
    proof {
        lemma_div_tz_abs(n as int, d as int);
    }
    let uq: u128 = un / ud;
    if (n < 0) == (d < 0) {
        uq as i128
    } else {
        -(uq as i128)
    }
}

/// Integer square root: the largest `r` with `r * r <= x`.
pub open spec fn isqrt_spec(x: int) -> int
    recommends
        x >= 0,
    decreases x,
{
    if x <= 0 {
        0
    } else {
        let r = isqrt_spec(x - 1);
        if (r + 1) * (r + 1) <= x { r + 1 } else { r }
    }
}

pub proof fn lemma_isqrt_bounds(x: int)
    requires
        x >= 0,
    ensures
        isqrt_spec(x) >= 0,
        isqrt_spec(x) * isqrt_spec(x) <= x,
        x < (isqrt_spec(x) + 1) * (isqrt_spec(x) + 1),
    decreases x,
{
    if x > 0 {
        lemma_isqrt_bounds(x - 1);
        let r = isqrt_spec(x - 1);
        if (r + 1) * (r + 1) <= x {
            assert(x < (r + 2) * (r + 2)) by (nonlinear_arith)
                requires
                    r >= 0,
                    x - 1 < (r + 1) * (r + 1),
            {}
        }
    }
}

/// The two-sided bound pins the root down: anything that squares below
/// `x` and whose successor squares above it is `isqrt_spec(x)`.
pub proof fn lemma_isqrt_unique(x: int, r: int)
    requires
        x >= 0,
        r >= 0,
        r * r <= x,
        x < (r + 1) * (r + 1),
    ensures
        r == isqrt_spec(x),
{
    lemma_isqrt_bounds(x);
    let s = isqrt_spec(x);
    if r < s {
        assert((r + 1) * (r + 1) <= s * s) by (nonlinear_arith)
            requires
                0 <= r + 1 <= s,
        {}
    }
    if s < r {
        assert((s + 1) * (s + 1) <= r * r) by (nonlinear_arith)
            requires
                0 <= s + 1 <= r,
        {}
    }
}

/// Squares are monotone, so a bound on the square bounds the root.
pub proof fn lemma_isqrt_le(x: int, b: int)
    requires
        x >= 0,
        b >= 0,
        x < (b + 1) * (b + 1),
    ensures
        isqrt_spec(x) <= b,
{
    lemma_isqrt_bounds(x);
    let s = isqrt_spec(x);
    if b < s {
        assert((b + 1) * (b + 1) <= s * s) by (nonlinear_arith)
            requires
                0 <= b + 1 <= s,
        {}
    }
}

/// Anything whose square fits below `x` bounds the root from below.
pub proof fn lemma_isqrt_ge(x: int, b: int)
    requires
        b >= 0,
        b * b <= x,
    ensures
        isqrt_spec(x) >= b,
{
    assert(x >= 0) by (nonlinear_arith)
        requires
            b * b <= x,
    {}
    lemma_isqrt_bounds(x);
    let s = isqrt_spec(x);
    if s < b {
        assert((s + 1) * (s + 1) <= b * b) by (nonlinear_arith)
            requires
                0 <= s + 1 <= b,
        {}
    }
}

/// A component whose square is below `x` is bounded by the root of `x`.
pub proof fn lemma_sq_le_isqrt(x: int, c: int)
    requires
        x >= 0,
        c * c <= x,
    ensures
        abs_i(c) <= isqrt_spec(x),
{
    lemma_isqrt_bounds(x);
    let s = isqrt_spec(x);
    let a = abs_i(c);
    assert(a * a == c * c) by (nonlinear_arith)
        requires
            a == c || a == -c,
    {}
    if s < a {
        assert((s + 1) * (s + 1) <= a * a) by (nonlinear_arith)
            requires
                0 <= s + 1 <= a,
        {}
    }
}

/// Dividing something no larger than `d * m` by `d` yields at most `m`.
pub proof fn lemma_div_tz_le(n: int, d: int, m: int)
    requires
        d >= 1,
        m >= 0,
        abs_i(n) <= d * m,
    ensures
        abs_i(div_tz(n, d)) <= m,
{
    lemma_div_tz_abs(n, d);
    vstd::arithmetic::div_mod::lemma_div_is_ordered(abs_i(n), d * m, d);
    vstd::arithmetic::div_mod::lemma_div_multiples_vanish(m, d);
}

/// Dividing something at least `d * m` by `d` yields at least `m`.
pub proof fn lemma_div_tz_ge(n: int, d: int, m: int)
    requires
        d >= 1,
        m >= 0,
        n >= d * m,
    ensures
        div_tz(n, d) >= m,
{
    assert(n >= 0) by (nonlinear_arith)
        requires
            n >= d * m,
            d >= 1,
            m >= 0,
    {}
    lemma_div_tz_abs(n, d);
    vstd::arithmetic::div_mod::lemma_div_is_ordered(d * m, n, d);
    vstd::arithmetic::div_mod::lemma_div_multiples_vanish(m, d);
}

/// Multiplying by the divisor and dividing back is the identity.
pub proof fn lemma_div_tz_cancel(c: int, d: int)
    requires
        d >= 1,
    ensures
        div_tz(d * c, d) == c,
{
    vstd::arithmetic::div_mod::lemma_div_multiples_vanish(abs_i(c), d);
    assert(abs_i(d * c) == d * abs_i(c)) by (nonlinear_arith)
        requires
            d >= 1,
            abs_i(c) == c || abs_i(c) == -c,
            abs_i(c) >= 0,
            abs_i(d * c) == d * c || abs_i(d * c) == -(d * c),
            abs_i(d * c) >= 0,
    {}
    assert((d * c < 0) == (c < 0)) by (nonlinear_arith)
        requires
            d >= 1,
    {}
}

/// Magnitudes multiply: bounds on two factors bound their product.
pub proof fn lemma_mul_abs(a: int, b: int, ma: int, mb: int)
    requires
        abs_i(a) <= ma,
        abs_i(b) <= mb,
    ensures
        abs_i(a * b) <= ma * mb,
{
    assert(-(ma * mb) <= a * b && a * b <= ma * mb) by (nonlinear_arith)
        requires
            -ma <= a && a <= ma,
            -mb <= b && b <= mb,
    {}
}

/// Integer square root of a `u128`, by bisection.
pub fn isqrt(x: u128) -> (r: u128)
    ensures
        r == isqrt_spec(x as int),
{
    let mut lo: u128 = 0;
    let mut hi: u128 = if x < 0xffff_ffff_ffff_ffff { x } else { 0xffff_ffff_ffff_ffff };
    proof {
        if x < 0xffff_ffff_ffff_ffff {
            assert(x < (x + 1) * (x + 1)) by (nonlinear_arith)
                requires
                    x >= 0,
            {}
        } else {
            assert((x as int) < 0x1_0000_0000_0000_0000 * 0x1_0000_0000_0000_0000);
        }
    }
    while lo < hi
        invariant
            lo <= hi,
            hi <= 0xffff_ffff_ffff_ffff,
            lo * lo <= x,
            x < (hi + 1) * (hi + 1),
        decreases hi - lo,
    {
        let mid: u128 = lo + (hi - lo + 1) / 2;
        proof {
            assert(mid * mid <= 0xffff_ffff_ffff_ffff * 0xffff_ffff_ffff_ffff) by (nonlinear_arith)
                requires
                    0 <= mid <= 0xffff_ffff_ffff_ffff,
            {}
        }
        if mid * mid <= x {
            lo = mid;
        } else {
            hi = mid - 1;
        }
    }
    proof {
        lemma_isqrt_unique(x as int, lo as int);
    }
    lo
}

} // verus!

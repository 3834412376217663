//! Fixed-point scalars and the integer arithmetic the indicators share.
//!
//! A scalar is an `i64` count of millionths: `1_000_000` stands for `1.0`.
//! Quotients round toward negative infinity, and nothing else rounds: sums,
//! differences and products are exact.
//!
//! Two limits keep the arithmetic inside the machine's integers. A window
//! takes samples of magnitude up to [`SAMPLE_LIMIT`], so that the sum of the
//! squares of as many samples as a `u32` can count fits in 128 bits. A price
//! bar holds scalars of magnitude up to [`PRICE_LIMIT`], half of that, so
//! that the difference of two prices is a sample.
use vstd::prelude::*;
use vstd::arithmetic::div_mod::lemma_fundamental_div_mod_converse;

verus! {

/// Raw units per `1.0`.
pub const SCALE: i64 = 1_000_000;

/// `100.0` in raw units.
pub const HUNDRED: i64 = 100_000_000;

/// The smallest positive scalar: the step between neighbouring scalars.
pub const EPSILON: i64 = 1;

/// Largest magnitude of a sample that a window accepts.
pub const SAMPLE_LIMIT: i64 = 100_000_000_000_000;

/// Largest magnitude of a field of a price bar.
pub const PRICE_LIMIT: i64 = 50_000_000_000_000;

/// `x` is a sample that a window accepts.
pub open spec fn is_sample(x: int) -> bool {
    -SAMPLE_LIMIT <= x <= SAMPLE_LIMIT
}

/// `x` may stand in a price bar.
pub open spec fn is_price(x: int) -> bool {
    -PRICE_LIMIT <= x <= PRICE_LIMIT
}

/// The integers behind an optional scalar.
pub open spec fn opt_int(o: Option<i64>) -> Option<int> {
    match o {
        Some(v) => Some(v as int),
        None => None,
    }
}

/// The smaller of two integers.
pub open spec fn min2(a: int, b: int) -> int {
    if a <= b {
        a
    } else {
        b
    }
}

/// The larger of two integers.
pub open spec fn max2(a: int, b: int) -> int {
    if a >= b {
        a
    } else {
        b
    }
}

/// Absolute value.
pub open spec fn abs(x: int) -> int {
    if x < 0 {
        -x
    } else {
        x
    }
}

/// A quotient lies between two bounds when its numerator lies between their
/// multiples of the divisor.
pub proof fn lemma_div_between(a: int, b: int, lo: int, hi: int)
    requires
        b > 0,
        lo * b <= a <= hi * b,
    ensures
        lo <= a / b <= hi,
{
    let q = a / b;
    let r = a % b;
    assert(a == b * q + r && 0 <= r < b) by {
        vstd::arithmetic::div_mod::lemma_fundamental_div_mod(a, b);
        vstd::arithmetic::div_mod::lemma_mod_bound(a, b);
    }
    assert(lo <= q) by (nonlinear_arith)
        requires
            b > 0,
            lo * b <= a,
            a == b * q + r,
            r < b,
    ;
    assert(q <= hi) by (nonlinear_arith)
        requires
            b > 0,
            a <= hi * b,
            a == b * q + r,
            0 <= r,
    ;
}

/// Quotient rounded toward negative infinity.
pub fn div_floor(a: i128, b: i128) -> (q: i128)
    requires
        b > 0,
    ensures
        q == (a as int) / (b as int),
{
    if a >= 0 {
        a / b
    } else {
        let n: i128 = -(a + 1);
        let q0: i128 = n / b;
        let r0: i128 = n % b;
        proof {
            assert(n == b * q0 + r0 && 0 <= r0 < b) by {
                vstd::arithmetic::div_mod::lemma_fundamental_div_mod(n as int, b as int);
                vstd::arithmetic::div_mod::lemma_mod_bound(n as int, b as int);
            }
            assert(0 <= q0 <= n) by {
                assert(n * b >= n) by (nonlinear_arith)
                    requires
                        n >= 0,
                        b >= 1,
                ;
                lemma_div_between(n as int, b as int, 0, n as int);
            }
            let q = -q0 - 1;
            let r = b - r0 - 1;
            assert(a == q * b + r) by (nonlinear_arith)
                requires
                    n == b * q0 + r0,
                    a == -n - 1,
                    q == -q0 - 1,
                    r == b - r0 - 1,
            ;
            lemma_fundamental_div_mod_converse(a as int, b as int, q, r);
        }
        -q0 - 1
    }
}

/// `num` as a percentage of `den`: `100 * num / den`, rounded toward negative
/// infinity. There is none when `den` is zero, and none when the percentage
/// is beyond the range of a sample.
pub open spec fn percent_of(num: int, den: int) -> Option<int> {
    if den == 0 {
        None
    } else {
        let pct = if den > 0 {
            (HUNDRED * num) / den
        } else {
            (-HUNDRED * num) / (-den)
        };
        if is_sample(pct) {
            Some(pct)
        } else {
            None
        }
    }
}

/// `num` as a percentage of `den`.
pub fn percent(num: i64, den: i64) -> (p: Option<i64>)
    ensures
        opt_int(p) == percent_of(num as int, den as int),
        p matches Some(v) ==> is_sample(v as int),
{
    if den == 0 {
        return None;
    }
    assert(HUNDRED * i64::MIN <= HUNDRED * num <= HUNDRED * i64::MAX) by (nonlinear_arith)
        requires
            i64::MIN <= num <= i64::MAX,
    ;
    let top: i128 = (HUNDRED as i128) * (num as i128);
    let pct: i128 = if den > 0 {
        div_floor(top, den as i128)
    } else {
        div_floor(-top, -(den as i128))
    };
    if -(SAMPLE_LIMIT as i128) <= pct && pct <= SAMPLE_LIMIT as i128 {
        Some(pct as i64)
    } else {
        None
    }
}

/// `r` is the square root of `v`, rounded down.
pub open spec fn is_sqrt_floor(r: int, v: int) -> bool {
    0 <= r && r * r <= v < (r + 1) * (r + 1)
}

/// The square root of `v`, rounded down.
pub open spec fn sqrt_floor(v: int) -> int {
    choose|r: int| is_sqrt_floor(r, v)
}

/// At most one integer is the rounded-down square root of `v`.
pub proof fn lemma_sqrt_floor_unique(r: int, v: int)
    requires
        is_sqrt_floor(r, v),
    ensures
        sqrt_floor(v) == r,
{
    let c = sqrt_floor(v);
    assert(is_sqrt_floor(c, v));
    assert(c == r) by (nonlinear_arith)
        requires
            0 <= r,
            r * r <= v < (r + 1) * (r + 1),
            0 <= c,
            c * c <= v < (c + 1) * (c + 1),
    ;
}

/// The square root of `v`, rounded down.
pub fn isqrt(v: u128) -> (r: u128)
    ensures
        r == sqrt_floor(v as int),
        is_sqrt_floor(r as int, v as int),
        r < 0x1_0000_0000_0000_0000,
{
    let mut lo: u128 = 0;
    let mut hi: u128 = 0x1_0000_0000_0000_0000;
    assert(hi * hi > v) by (nonlinear_arith)
        requires
            hi == 0x1_0000_0000_0000_0000,
            v <= u128::MAX,
    ;
    while hi - lo > 1
        invariant
            lo < hi <= 0x1_0000_0000_0000_0000,
            lo * lo <= v < hi * hi,
        decreases hi - lo,
    {
        let mid: u128 = lo + (hi - lo) / 2;
        assert(mid * mid < 0x1_0000_0000_0000_0000 * 0x1_0000_0000_0000_0000) by (nonlinear_arith)
            requires
                0 <= mid < 0x1_0000_0000_0000_0000,
        ;
        if mid * mid <= v {
            lo = mid;
        } else {
            hi = mid;
        }
    }
    proof {
        lemma_sqrt_floor_unique(lo as int, v as int);
    }
    lo
}

} // verus!

//! Saturating fixed-point arithmetic.
//!
//! Every scalar of the simulation (a coordinate, a speed, a thrust, a span of
//! time in seconds) is an `i64` that counts millionths of its unit. Results
//! that leave the range of `i64` stick to the nearest bound, and quotients
//! round toward zero, so that every operation is total and a vector and its
//! mirror image are treated alike.

use vstd::prelude::*;

verus! {

/// One whole unit, in millionths.
pub const SCALE: i64 = 1_000_000;

/// The `i64` nearest to `x`.
pub open spec fn clamp(x: int) -> int {
    if x < i64::MIN {
        i64::MIN as int
    } else if x > i64::MAX {
        i64::MAX as int
    } else {
        x
    }
}

/// The size of `a`: `a` without its sign.
pub open spec fn size_spec(a: int) -> int {
    if a < 0 {
        -a
    } else {
        a
    }
}

/// `a / b` rounded toward zero, for a `b` other than zero.
pub open spec fn quot(a: int, b: int) -> int
    recommends
        b != 0,
{
    if a >= 0 && b > 0 {
        a / b
    } else if a >= 0 {
        -(a / (-b))
    } else if b > 0 {
        -((-a) / b)
    } else {
        (-a) / (-b)
    }
}

/// `a + b`, saturated.
pub open spec fn sum_spec(a: int, b: int) -> int {
    clamp(a + b)
}

/// `a - b`, saturated.
pub open spec fn difference_spec(a: int, b: int) -> int {
    clamp(a - b)
}

/// The fixed-point product of `a` and `b`: `a * b / SCALE`, rounded toward
/// zero and saturated.
pub open spec fn product_spec(a: int, b: int) -> int {
    clamp(quot(a * b, SCALE as int))
}

/// The fixed-point quotient of `a` by a `b` other than zero: `a * SCALE / b`,
/// rounded toward zero and saturated.
pub open spec fn ratio_spec(a: int, b: int) -> int
    recommends
        b != 0,
{
    clamp(quot(a * SCALE, b))
}

/// `a * num / den` for a `den` other than zero, rounded toward zero and
/// saturated: the part of `a` that `num` is of `den`.
pub open spec fn proportion_spec(a: int, num: int, den: int) -> int
    recommends
        den != 0,
{
    clamp(quot(a * num, den))
}

/// `lo + width * u`, the point of the span that starts at `lo` and is `width`
/// long which the fraction `u` picks.
pub open spec fn span_spec(lo: int, width: int, u: int) -> int {
    sum_spec(lo, product_spec(width, u))
}

/// `dt`, or zero where `dt` is negative: no time runs backwards.
pub open spec fn elapse_spec(dt: int) -> int {
    if dt < 0 {
        0
    } else {
        dt
    }
}

fn saturate(x: i128) -> (r: i64)
    ensures
        r == clamp(x as int),
{
    if x < i64::MIN as i128 {
        i64::MIN
    } else if x > i64::MAX as i128 {
        i64::MAX
    } else {
        x as i64
    }
}

proof fn lemma_wide_product(a: int, b: int)
    requires
        i64::MIN <= a <= i64::MAX,
        i64::MIN <= b <= i64::MAX,
    ensures
        -0x4000_0000_0000_0000_0000_0000_0000_0000 <= a * b
            <= 0x4000_0000_0000_0000_0000_0000_0000_0000,
{
    let m: int = 0x8000_0000_0000_0000;
    assert(-(m * m) <= a * b <= m * m) by (nonlinear_arith)
        requires
            -m <= a <= m,
            -m <= b <= m,
            m >= 0,
    ;
    assert(m * m == 0x4000_0000_0000_0000_0000_0000_0000_0000) by (nonlinear_arith)
        requires
            m == 0x8000_0000_0000_0000,
    ;
}

/// Adds two scalars.
pub fn sum(a: i64, b: i64) -> (r: i64)
    ensures
        r == sum_spec(a as int, b as int),
{
    saturate(a as i128 + b as i128)
}

/// Subtracts `b` from `a`.
pub fn difference(a: i64, b: i64) -> (r: i64)
    ensures
        r == difference_spec(a as int, b as int),
{
    saturate(a as i128 - b as i128)
}

/// Multiplies two scalars.
pub fn product(a: i64, b: i64) -> (r: i64)
    ensures
        r == product_spec(a as int, b as int),
{
    proof {
        lemma_wide_product(a as int, b as int);
    }
    let wide: i128 = (a as i128) * (b as i128);
    saturate(wide / (SCALE as i128))
}

/// Divides `a` by `b`.
pub fn ratio(a: i64, b: i64) -> (r: i64)
    requires
        b != 0,
    ensures
        r == ratio_spec(a as int, b as int),
{
    proof {
        lemma_wide_product(a as int, SCALE as int);
    }
    let wide: i128 = (a as i128) * (SCALE as i128);
    if b > 0 {
        saturate(wide / (b as i128))
    } else {
        saturate(-(wide / -(b as i128)))
    }
}

/// Takes of `a` the part that `num` is of `den`.
pub fn proportion(a: i64, num: i64, den: i64) -> (r: i64)
    requires
        den != 0,
    ensures
        r == proportion_spec(a as int, num as int, den as int),
{
    proof {
        lemma_wide_product(a as int, num as int);
    }
    let wide: i128 = (a as i128) * (num as i128);
    if den > 0 {
        saturate(wide / (den as i128))
    } else {
        saturate(-(wide / -(den as i128)))
    }
}

/// Picks the point of a span that a fraction names.
pub fn span(lo: i64, width: i64, u: i64) -> (r: i64)
    ensures
        r == span_spec(lo as int, width as int, u as int),
{
    sum(lo, product(width, u))
}

/// Clamps a span of time to what may pass: a negative one counts as none.
pub fn elapse(dt: i64) -> (r: i64)
    ensures
        r == elapse_spec(dt as int),
        r >= 0,
{
    if dt < 0 {
        0
    } else {
        dt
    }
}

/// Whether `r` is the integer square root of `n`: the largest integer whose
/// square does not exceed `n`.
pub open spec fn is_root(n: int, r: int) -> bool {
    0 <= r && r * r <= n < (r + 1) * (r + 1)
}

/// The integer square root of `n`, for `n >= 0`.
pub open spec fn root_spec(n: int) -> int {
    choose|r: int| is_root(n, r)
}

/// A number has at most one integer square root.
pub proof fn lemma_root_unique(n: int, r: int, s: int)
    requires
        is_root(n, r),
        is_root(n, s),
    ensures
        r == s,
{
    if r < s {
        assert((r + 1) * (r + 1) <= s * s) by (nonlinear_arith)
            requires
                0 <= r + 1 <= s,
        ;
    } else if s < r {
        assert((s + 1) * (s + 1) <= r * r) by (nonlinear_arith)
            requires
                0 <= s + 1 <= r,
        ;
    }
}

/// Every number that is not negative has an integer square root.
pub proof fn lemma_root_exists(n: int)
    requires
        n >= 0,
    ensures
        is_root(n, root_spec(n)),
    decreases n,
{
    if n == 0 {
        assert(is_root(0, 0));
    } else {
        lemma_root_exists(n - 1);
        let r = root_spec(n - 1);
        if n < (r + 1) * (r + 1) {
            assert(is_root(n, r));
        } else {
            assert((r + 2) * (r + 2) > (r + 1) * (r + 1)) by (nonlinear_arith)
                requires
                    r >= 0,
            ;
            assert(is_root(n, r + 1));
        }
    }
}

/// A quotient that is rounded toward zero is off by less than one: for a
/// positive `b`, the size of `quot(a, b)` times `b` is at most the size of
/// `a`, and one more would exceed it. The quotient has the sign of `a`.
pub proof fn lemma_quot_bracket(a: int, b: int)
    requires
        b > 0,
    ensures
        a >= 0 ==> quot(a, b) >= 0 && quot(a, b) * b <= a < (quot(a, b) + 1) * b,
        a < 0 ==> quot(a, b) <= 0 && (-quot(a, b)) * b <= -a < (-quot(a, b) + 1) * b,
{
    if a >= 0 {
        vstd::arithmetic::div_mod::lemma_fundamental_div_mod(a, b);
        let q = a / b;
        assert(q >= 0 && q * b <= a < (q + 1) * b) by (nonlinear_arith)
            requires
                a == b * q + a % b,
                0 <= a % b < b,
                a >= 0,
                b > 0,
        ;
    } else {
        vstd::arithmetic::div_mod::lemma_fundamental_div_mod(-a, b);
        let q = (-a) / b;
        assert(q >= 0 && q * b <= -a < (q + 1) * b) by (nonlinear_arith)
            requires
                -a == b * q + (-a) % b,
                0 <= (-a) % b < b,
                -a > 0,
                b > 0,
        ;
    }
}

/// The integer square root.
pub fn root(n: u128) -> (r: u64)
    ensures
        is_root(n as int, r as int),
        r == root_spec(n as int),
{
    let mut lo: u128 = 0;
    let mut hi: u128 = 0x1_0000_0000_0000_0000;
    assert(hi * hi > n) by (nonlinear_arith)
        requires
            hi == 0x1_0000_0000_0000_0000,
            n <= u128::MAX,
    ;
    while hi - lo > 1
        invariant
            lo < hi <= 0x1_0000_0000_0000_0000,
            lo * lo <= n < hi * hi,
        decreases hi - lo,
    {
        let mid: u128 = lo + (hi - lo) / 2;
        assert(mid * mid <= u128::MAX) by (nonlinear_arith)
            requires
                0 <= mid < 0x1_0000_0000_0000_0000,
        ;
        if mid * mid <= n {
            lo = mid;
        } else {
            hi = mid;
        }
    }
    proof {
        assert(is_root(n as int, lo as int));
        lemma_root_unique(n as int, lo as int, root_spec(n as int));
    }
    lo as u64
}

/// A fraction of a whole applied to a span keeps inside it: for `0 <= u <
/// SCALE` and a `width` that is not negative, `span_spec(lo, width, u)` lies
/// between `lo` and `lo + width`, as far as `i64` reaches.
pub proof fn lemma_span_bounds(lo: int, width: int, u: int)
    requires
        i64::MIN <= lo <= i64::MAX,
        0 <= width <= i64::MAX,
        0 <= u < SCALE,
    ensures
        lo <= span_spec(lo, width, u) <= clamp(lo + width),
        0 <= product_spec(width, u) <= width,
{
    let s = SCALE as int;
    assert(0 <= width * u <= width * s) by (nonlinear_arith)
        requires
            0 <= width,
            0 <= u < s,
    ;
    assert((width * u) / s <= width) by (nonlinear_arith)
        requires
            0 <= width * u <= width * s,
            s > 0,
    ;
    assert(0 <= (width * u) / s) by (nonlinear_arith)
        requires
            0 <= width * u,
            s > 0,
    ;
}

/// A value times a part of the whole, of either sign, is no larger than the
/// value: for `size >= 0` and `-SCALE <= k <= SCALE`, `product_spec(size, k)`
/// lies between `-size` and `size`.
pub proof fn lemma_product_bounds(size: int, k: int)
    requires
        0 <= size <= i64::MAX,
        -SCALE <= k <= SCALE,
    ensures
        -size <= product_spec(size, k) <= size,
{
    let s = SCALE as int;
    if k >= 0 {
        assert(0 <= size * k <= size * s) by (nonlinear_arith)
            requires
                0 <= size,
                0 <= k <= s,
        ;
        assert(0 <= (size * k) / s <= size) by (nonlinear_arith)
            requires
                0 <= size * k <= size * s,
                s > 0,
        ;
    } else {
        assert(0 <= -(size * k) <= size * s) by (nonlinear_arith)
            requires
                0 <= size,
                -s <= k < 0,
        ;
        assert(0 <= (-(size * k)) / s <= size) by (nonlinear_arith)
            requires
                0 <= -(size * k) <= size * s,
                s > 0,
        ;
    }
}

/// The product does not depend on the order of its factors.
pub proof fn lemma_product_commutes(a: int, b: int)
    ensures
        product_spec(a, b) == product_spec(b, a),
{
    assert(a * b == b * a) by (nonlinear_arith);
}

} // verus!

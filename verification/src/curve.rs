//! The curves that the simulation evaluates: the direction that belongs to an
//! angle, and the decay of a motor's thrust.
//!
//! Both are rational stand-ins, exact in integers. The sine is Bhaskara's
//! approximation `16 s (1 - s) / (5 - 4 s (1 - s))` of `sin(pi s)`, which is
//! off by less than two thousandths; what it lacks in length is made up
//! where a direction is taken from it. The decay keeps, for each
//! millisecond, the part `u = 1 - 1/T + 1/(2 T^2)` of the thrust, the
//! quadratic truncation of `exp(-1/T)`. The exponential `exp(-1/T)` lies
//! between `u` and the cubic truncation `l = u - 1/(6 T^3)`, so `exp(-n/T)`
//! lies between the powers `l^n` and `u^n`; [`lemma_decay_bracket`] holds the
//! decay between the same two powers, and [`lemma_bracket_width`] says how
//! close they are.

use vstd::prelude::*;
use crate::fixed::{size_spec, SCALE};

verus! {

/// Half a turn, in millionths of a turn.
pub const HALF_TURN: i64 = 500_000;

/// A quarter of a turn, in millionths of a turn.
pub const QUARTER_TURN: i64 = 250_000;

/// The time constant of the thrust's decay, in milliseconds.
pub const DECAY_TIME: i64 = 500;

/// What is left of a thrust after one millisecond, in millionths:
/// `SCALE - SCALE / DECAY_TIME + SCALE / (2 * DECAY_TIME * DECAY_TIME)`.
pub const RETENTION: i64 = 998_002;

/// The upper half wave of the sine: the approximation of `sin(pi * a /
/// HALF_TURN)` for `0 <= a <= HALF_TURN`, in millionths.
pub open spec fn arch_spec(a: int) -> int {
    let p = a * (HALF_TURN - a);
    (16 * SCALE * p) / (5 * (HALF_TURN * HALF_TURN) - 4 * p)
}

/// The sine of an angle given in millionths of a turn.
pub open spec fn sine_spec(turn: int) -> int {
    let t = turn % (SCALE as int);
    if t < HALF_TURN {
        arch_spec(t)
    } else {
        -arch_spec(t - HALF_TURN)
    }
}

/// The cosine of an angle given in millionths of a turn: the sine a quarter
/// turn further on.
pub open spec fn cosine_spec(turn: int) -> int {
    sine_spec(turn % (SCALE as int) + QUARTER_TURN)
}

/// The cubic truncation of the decay over one millisecond, as a fraction:
/// `1 - 1/T + 1/(2 T^2) - 1/(6 T^3)` is `RETENTION_FLOOR / RETENTION_FLOOR_OF`.
pub const RETENTION_FLOOR: i64 = 748_501_499;

/// The denominator of [`RETENTION_FLOOR`]: `6 T^3`.
pub const RETENTION_FLOOR_OF: i64 = 750_000_000;

/// One whole, in the millionths of a millionth in which the decay is carried
/// from millisecond to millisecond.
pub const FINE: i64 = 1_000_000_000_000;

/// What is left of a thrust `ms` milliseconds after ignition, in millionths
/// of a millionth: each millisecond keeps [`RETENTION`] of a million parts.
pub open spec fn ember_spec(ms: nat) -> int
    decreases ms,
{
    if ms == 0 {
        FINE as int
    } else {
        ember_spec((ms - 1) as nat) * RETENTION / (SCALE as int)
    }
}

/// What is left of a thrust `ms` milliseconds after ignition, in millionths.
pub open spec fn decay_spec(ms: nat) -> int {
    ember_spec(ms) / (SCALE as int)
}

/// `base` to the power of `n`.
pub open spec fn power_spec(base: int, n: nat) -> int
    decreases n,
{
    if n == 0 {
        1
    } else {
        base * power_spec(base, (n - 1) as nat)
    }
}

/// [`RETENTION`] is the quadratic truncation of the decay over one
/// millisecond.
pub proof fn lemma_retention()
    ensures
        RETENTION == SCALE - (SCALE as int) / (DECAY_TIME as int) + (SCALE as int) / (2
            * DECAY_TIME * DECAY_TIME),
{
    assert(2 * DECAY_TIME * DECAY_TIME == 500_000) by (nonlinear_arith)
        requires
            DECAY_TIME == 500,
    ;
}

/// The half wave stays between zero and one.
pub proof fn lemma_arch_bounds(a: int)
    requires
        0 <= a <= HALF_TURN,
    ensures
        0 <= arch_spec(a) <= SCALE,
        5 * (HALF_TURN * HALF_TURN) - 4 * (a * (HALF_TURN - a)) > 0,
{
    let h = HALF_TURN as int;
    let p = a * (h - a);
    assert(0 <= p && 4 * p <= h * h) by (nonlinear_arith)
        requires
            0 <= a <= h,
            p == a * (h - a),
    ;
    assert(h * h == 250_000_000_000) by (nonlinear_arith)
        requires
            h == 500_000,
    ;
    let den = 5 * (h * h) - 4 * p;
    let num = 16 * SCALE * p;
    assert(num <= SCALE * den) by (nonlinear_arith)
        requires
            num == 16 * SCALE * p,
            den == 5 * (h * h) - 4 * p,
            4 * p <= h * h,
            SCALE == 1_000_000,
    ;
    assert(0 <= num / den <= SCALE) by (nonlinear_arith)
        requires
            0 <= num <= SCALE * den,
            den > 0,
    ;
}

/// The half wave rises at least three times as fast as the angle leaves the
/// nearer of its two ends.
pub proof fn lemma_arch_rise(a: int)
    requires
        0 <= a <= HALF_TURN,
    ensures
        a <= HALF_TURN - a ==> arch_spec(a) >= 3 * a,
        a >= HALF_TURN - a ==> arch_spec(a) >= 3 * (HALF_TURN - a),
{
    let h = HALF_TURN as int;
    let p = a * (h - a);
    let m = if a <= h - a {
        a
    } else {
        h - a
    };
    lemma_arch_bounds(a);
    assert(h * h == 250_000_000_000) by (nonlinear_arith)
        requires
            h == 500_000,
    ;
    let den = 5 * (h * h) - 4 * p;
    let num = 16 * SCALE * p;
    // 16 p is at least 3 m times what the denominator can be.
    assert(p >= m * 250_000 && p >= 0) by (nonlinear_arith)
        requires
            0 <= a <= h,
            h == 500_000,
            p == a * (h - a),
            m == if a <= h - a {
                a
            } else {
                h - a
            },
    ;
    assert(num >= (3 * m) * den) by (nonlinear_arith)
        requires
            num == 16 * SCALE * p,
            SCALE == 1_000_000,
            0 < den <= 1_250_000_000_000,
            p >= m * 250_000,
            m >= 0,
    ;
    assert(num / den >= 3 * m) by (nonlinear_arith)
        requires
            num >= (3 * m) * den,
            den > 0,
    ;
}

/// At no angle are the sine and the cosine both small: their sizes add up to
/// three quarters at least.
pub proof fn lemma_compass(turn: int)
    ensures
        size_spec(sine_spec(turn)) + size_spec(cosine_spec(turn)) >= 750_000,
{
    let t = turn % (SCALE as int);
    if t < HALF_TURN {
        lemma_arch_bounds(t);
        lemma_arch_rise(t);
    } else {
        lemma_arch_bounds(t - HALF_TURN);
        lemma_arch_rise(t - HALF_TURN);
    }
    let c = (t + QUARTER_TURN) % (SCALE as int);
    if c < HALF_TURN {
        lemma_arch_bounds(c);
        lemma_arch_rise(c);
    } else {
        lemma_arch_bounds(c - HALF_TURN);
        lemma_arch_rise(c - HALF_TURN);
    }
}

/// The sine and the cosine of every angle stay between minus one and one.
pub proof fn lemma_sine_bounds(turn: int)
    ensures
        -SCALE <= sine_spec(turn) <= SCALE,
        -SCALE <= cosine_spec(turn) <= SCALE,
{
    let t = turn % (SCALE as int);
    if t < HALF_TURN {
        lemma_arch_bounds(t);
    } else {
        lemma_arch_bounds(t - HALF_TURN);
    }
    let c = (t + QUARTER_TURN) % (SCALE as int);
    if c < HALF_TURN {
        lemma_arch_bounds(c);
    } else {
        lemma_arch_bounds(c - HALF_TURN);
    }
}

/// What is carried never grows and never turns negative.
pub proof fn lemma_ember_bounds(ms: nat)
    ensures
        0 <= ember_spec(ms) <= FINE,
        ms > 0 ==> ember_spec(ms) <= ember_spec((ms - 1) as nat),
    decreases ms,
{
    if ms > 0 {
        lemma_ember_bounds((ms - 1) as nat);
    }
}

/// A later moment never carries more than an earlier one.
pub proof fn lemma_ember_monotone(earlier: nat, later: nat)
    requires
        earlier <= later,
    ensures
        ember_spec(later) <= ember_spec(earlier),
    decreases later,
{
    if earlier < later {
        lemma_ember_bounds(later);
        lemma_ember_monotone(earlier, (later - 1) as nat);
    }
}

/// The thrust never grows and never turns negative.
pub proof fn lemma_decay_bounds(ms: nat)
    ensures
        0 <= decay_spec(ms) <= SCALE,
        ms > 0 ==> decay_spec(ms) <= decay_spec((ms - 1) as nat),
{
    lemma_ember_bounds(ms);
    if ms > 0 {
        lemma_ember_bounds((ms - 1) as nat);
    }
}

/// A later moment never has more thrust than an earlier one.
pub proof fn lemma_decay_monotone(earlier: nat, later: nat)
    requires
        earlier <= later,
    ensures
        decay_spec(later) <= decay_spec(earlier),
{
    lemma_ember_monotone(earlier, later);
}

/// A power of a positive number is positive.
pub proof fn lemma_power_positive(base: int, n: nat)
    requires
        base > 0,
    ensures
        power_spec(base, n) > 0,
    decreases n,
{
    if n > 0 {
        lemma_power_positive(base, (n - 1) as nat);
        assert(base * power_spec(base, (n - 1) as nat) > 0) by (nonlinear_arith)
            requires
                base > 0,
                power_spec(base, (n - 1) as nat) > 0,
        ;
    }
}

/// The decay lies between the powers of the two truncations that hold the
/// exponential between them. With `u = RETENTION / SCALE` and `l =
/// RETENTION_FLOOR / RETENTION_FLOOR_OF`, the decay after `ms` milliseconds
/// is at most `u^ms` and more than `l^ms`, less two millionths.
pub proof fn lemma_decay_bracket(ms: nat)
    ensures
        decay_spec(ms) * power_spec(SCALE as int, ms) <= SCALE * power_spec(RETENTION as int, ms),
        (decay_spec(ms) + 2) * power_spec(RETENTION_FLOOR_OF as int, ms) > SCALE * power_spec(
            RETENTION_FLOOR as int,
            ms,
        ),
{
    let s = SCALE as int;
    let e = ember_spec(ms);
    let d = decay_spec(ms);
    lemma_ember_bracket(ms);
    lemma_ember_bounds(ms);
    lemma_power_positive(s, ms);
    lemma_power_positive(RETENTION_FLOOR_OF as int, ms);
    lemma_power_positive(RETENTION as int, ms);
    lemma_power_positive(RETENTION_FLOOR as int, ms);
    assert(d * s <= e < (d + 1) * s);
    let ps = power_spec(s, ms);
    let pr = power_spec(RETENTION as int, ms);
    let pd = power_spec(RETENTION_FLOOR_OF as int, ms);
    let pl = power_spec(RETENTION_FLOOR as int, ms);
    assert(d * ps <= s * pr) by (nonlinear_arith)
        requires
            e * ps <= 1_000_000_000_000 * pr,
            d * s <= e,
            s == 1_000_000,
            ps > 0,
            pr > 0,
            d >= 0,
    ;
    assert((d + 2) * pd > s * pl) by (nonlinear_arith)
        requires
            (e + 501) * pd >= 1_000_000_000_000 * pl,
            e + 501 < (d + 2) * s,
            s == 1_000_000,
            pd > 0,
            pl > 0,
    ;
}

/// What is carried lies between the powers of the two truncations: it is at
/// most `FINE * u^ms`, and falls short of `FINE * l^ms` by 501 parts at most,
/// which is what the rounding of each millisecond can add up to.
pub proof fn lemma_ember_bracket(ms: nat)
    ensures
        ember_spec(ms) * power_spec(SCALE as int, ms) <= FINE * power_spec(RETENTION as int, ms),
        (ember_spec(ms) + 501) * power_spec(RETENTION_FLOOR_OF as int, ms) >= FINE * power_spec(
            RETENTION_FLOOR as int,
            ms,
        ),
    decreases ms,
{
    if ms > 0 {
        let before = (ms - 1) as nat;
        lemma_ember_bracket(before);
        lemma_ember_bounds(before);
        let s = SCALE as int;
        let r = RETENTION as int;
        let f = ember_spec(before);
        let g = ember_spec(ms);
        let ps = power_spec(s, before);
        let pr = power_spec(r, before);
        let pd = power_spec(RETENTION_FLOOR_OF as int, before);
        let pl = power_spec(RETENTION_FLOOR as int, before);
        lemma_power_positive(s, before);
        lemma_power_positive(r, before);
        lemma_power_positive(RETENTION_FLOOR_OF as int, before);
        lemma_power_positive(RETENTION_FLOOR as int, before);
        vstd::arithmetic::div_mod::lemma_fundamental_div_mod(f * r, s);
        let m = (f * r) % s;
        assert(g * s + m == f * r && 0 <= m < s) by (nonlinear_arith)
            requires
                f * r == s * g + m,
                0 <= m < s,
        ;
        // From above.
        assert(g * s * ps <= f * r * ps) by (nonlinear_arith)
            requires
                g * s <= f * r,
                ps > 0,
        ;
        assert(f * r * ps <= 1_000_000_000_000 * pr * r) by (nonlinear_arith)
            requires
                f * ps <= 1_000_000_000_000 * pr,
                r > 0,
        ;
        assert(g * (s * ps) <= 1_000_000_000_000 * (r * pr)) by (nonlinear_arith)
            requires
                g * s * ps <= f * r * ps,
                f * r * ps <= 1_000_000_000_000 * pr * r,
        ;
        // From below.
        let t = (f + 501) * pd;
        assert((g + 501) * s >= f * r + 500 * s + 1) by (nonlinear_arith)
            requires
                g * s + m == f * r,
                m < s,
        ;
        assert((f * r + 500 * s) * 750_000_000 >= s * 748_501_499 * (f + 501))
            by (nonlinear_arith)
            requires
                f >= 0,
                s == 1_000_000,
                r == 998_002,
        ;
        assert(s * ((g + 501) * (750_000_000 * pd)) >= s * (1_000_000_000_000 * (748_501_499
            * pl))) by (nonlinear_arith)
            requires
                (g + 501) * s >= f * r + 500 * s + 1,
                (f * r + 500 * s) * 750_000_000 >= s * 748_501_499 * (f + 501),
                (f + 501) * pd >= 1_000_000_000_000 * pl,
                pd > 0,
                pl > 0,
                s > 0,
                f >= 0,
        ;
        assert((g + 501) * (750_000_000 * pd) >= 1_000_000_000_000 * (748_501_499 * pl))
            by (nonlinear_arith)
            requires
                s * ((g + 501) * (750_000_000 * pd)) >= s * (1_000_000_000_000 * (748_501_499
                    * pl)),
                s > 0,
        ;
    }
}

/// The power of a product is the product of the powers.
pub proof fn lemma_power_product(x: int, y: int, n: nat)
    ensures
        power_spec(x * y, n) == power_spec(x, n) * power_spec(y, n),
    decreases n,
{
    if n > 0 {
        let before = (n - 1) as nat;
        lemma_power_product(x, y, before);
        let px = power_spec(x, before);
        let py = power_spec(y, before);
        assert((x * y) * (px * py) == (x * px) * (y * py)) by (nonlinear_arith);
    }
}

/// Powers keep the order of their bases, and the powers of two bases that
/// are close are close: for `0 <= b <= a <= c`, `b^n <= a^n <= c^n` and
/// `c (a^n - b^n) <= n (a - b) c^n`.
pub proof fn lemma_power_gap(a: int, b: int, c: int, n: nat)
    requires
        0 <= b <= a <= c,
    ensures
        0 <= power_spec(b, n) <= power_spec(a, n) <= power_spec(c, n),
        c * (power_spec(a, n) - power_spec(b, n)) <= n * (a - b) * power_spec(c, n),
    decreases n,
{
    if n > 0 {
        let before = (n - 1) as nat;
        lemma_power_gap(a, b, c, before);
        let pa = power_spec(a, before);
        let pb = power_spec(b, before);
        let pc = power_spec(c, before);
        assert(0 <= b * pb <= a * pa <= c * pc) by (nonlinear_arith)
            requires
                0 <= b <= a <= c,
                0 <= pb <= pa <= pc,
        ;
        let gap = pa - pb;
        let bound = before * (a - b) * pc;
        assert(a * pa - b * pb == a * gap + (a - b) * pb) by (nonlinear_arith)
            requires
                gap == pa - pb,
        ;
        assert(c * (a * gap) <= c * bound) by (nonlinear_arith)
            requires
                c * gap <= bound,
                0 <= a <= c,
                gap >= 0,
        ;
        assert(c * ((a - b) * pb) <= (a - b) * (c * pc)) by (nonlinear_arith)
            requires
                0 <= pb <= pc,
                a - b >= 0,
                c >= 0,
        ;
        assert(c * bound + (a - b) * (c * pc) == n * (a - b) * (c * pc)) by (nonlinear_arith)
            requires
                bound == before * (a - b) * pc,
                n == before + 1,
        ;
        assert(c * (a * pa - b * pb) == c * (a * gap) + c * ((a - b) * pb)) by (nonlinear_arith)
            requires
                a * pa - b * pb == a * gap + (a - b) * pb,
        ;
    }
}

/// The two powers that hold the exponential and the decay between them are
/// less than three millionths apart for the first two and a quarter seconds:
/// `SCALE u^ms - SCALE l^ms <= 3`, written without fractions.
pub proof fn lemma_bracket_width(ms: nat)
    requires
        ms <= 2250,
    ensures
        SCALE * (power_spec(RETENTION as int, ms) * power_spec(RETENTION_FLOOR_OF as int, ms))
            - SCALE * (power_spec(RETENTION_FLOOR as int, ms) * power_spec(SCALE as int, ms)) <= 3
            * (power_spec(SCALE as int, ms) * power_spec(RETENTION_FLOOR_OF as int, ms)),
{
    let s = SCALE as int;
    let a = RETENTION * RETENTION_FLOOR_OF;
    let b = RETENTION_FLOOR * SCALE;
    let c = SCALE * RETENTION_FLOOR_OF;
    assert(a == 748_501_500_000_000 && b == 748_501_499_000_000 && c == 750_000_000_000_000)
        by (nonlinear_arith)
        requires
            a == RETENTION * RETENTION_FLOOR_OF,
            b == RETENTION_FLOOR * SCALE,
            c == SCALE * RETENTION_FLOOR_OF,
            RETENTION == 998_002,
            RETENTION_FLOOR == 748_501_499,
            RETENTION_FLOOR_OF == 750_000_000,
            SCALE == 1_000_000,
    ;
    lemma_power_product(RETENTION as int, RETENTION_FLOOR_OF as int, ms);
    lemma_power_product(RETENTION_FLOOR as int, SCALE as int, ms);
    lemma_power_product(SCALE as int, RETENTION_FLOOR_OF as int, ms);
    lemma_power_gap(a, b, c, ms);
    let gap = power_spec(a, ms) - power_spec(b, ms);
    let pc = power_spec(c, ms);
    assert(s * gap <= 3 * pc) by (nonlinear_arith)
        requires
            c * gap <= ms * (a - b) * pc,
            a - b == 1_000_000,
            c == 750_000_000_000_000,
            s == 1_000_000,
            ms <= 2250,
            pc >= 0,
            gap >= 0,
    ;
}

fn arch(a: i64) -> (r: i64)
    requires
        0 <= a <= HALF_TURN,
    ensures
        r == arch_spec(a as int),
        0 <= r <= SCALE,
{
    proof {
        lemma_arch_bounds(a as int);
        assert(a * (HALF_TURN - a) <= 250_000_000_000) by (nonlinear_arith)
            requires
                0 <= a <= 500_000,
                HALF_TURN == 500_000,
        ;
        assert(0 <= a * (HALF_TURN - a)) by (nonlinear_arith)
            requires
                0 <= a <= 500_000,
                HALF_TURN == 500_000,
        ;
        assert(HALF_TURN * HALF_TURN == 250_000_000_000) by (nonlinear_arith)
            requires
                HALF_TURN == 500_000,
        ;
    }
    let p: i64 = a * (HALF_TURN - a);
    let den: i64 = 5 * (HALF_TURN * HALF_TURN) - 4 * p;
    (16 * SCALE * p) / den
}

/// The sine of an angle given in millionths of a turn.
pub fn sine(turn: i64) -> (r: i64)
    ensures
        r == sine_spec(turn as int),
        -SCALE <= r <= SCALE,
{
    let rem: i64 = turn % SCALE;
    let t: i64 = if rem < 0 {
        rem + SCALE
    } else {
        rem
    };
    assert(t == (turn as int) % (SCALE as int));
    if t < HALF_TURN {
        arch(t)
    } else {
        -arch(t - HALF_TURN)
    }
}

/// The cosine of an angle given in millionths of a turn.
pub fn cosine(turn: i64) -> (r: i64)
    ensures
        r == cosine_spec(turn as int),
        -SCALE <= r <= SCALE,
{
    let rem: i64 = turn % SCALE;
    let t: i64 = if rem < 0 {
        rem + SCALE
    } else {
        rem
    };
    assert(t == (turn as int) % (SCALE as int));
    sine(t + QUARTER_TURN)
}

/// What is left of a thrust `ms` milliseconds after ignition.
pub fn decay(ms: u64) -> (r: i64)
    ensures
        r == decay_spec(ms as nat),
        0 <= r <= SCALE,
{
    let mut left: i64 = FINE;
    let mut i: u64 = 0;
    while i < ms && left >= SCALE
        invariant
            i <= ms,
            left == ember_spec(i as nat),
            0 <= left <= FINE,
        decreases ms - i,
    {
        proof {
            lemma_ember_bounds((i + 1) as nat);
        }
        left = left * RETENTION / SCALE;
        i = i + 1;
    }
    proof {
        lemma_ember_monotone(i as nat, ms as nat);
        lemma_ember_bounds(ms as nat);
    }
    left / SCALE
}

} // verus!

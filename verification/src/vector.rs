//! Vectors of the plane.

use vstd::prelude::*;
use crate::curve::{cosine, cosine_spec, sine, sine_spec};
use crate::fixed::{
    clamp, difference, difference_spec, is_root, lemma_quot_bracket, lemma_root_exists, product,
    product_spec, proportion, proportion_spec, quot, ratio, ratio_spec, root, root_spec, size_spec,
    sum, sum_spec, SCALE,
};

verus! {

/// The length below which a vector counts as having no direction: a
/// thousandth of a unit.
pub const NEAR_ZERO: i64 = 1_000;

/// The longest vector that [`Vector2::polar`] is known to give at its length:
/// half a million units.
pub const POLAR_REACH: i64 = 500_000_000_000;

/// By how many millionths a vector of [`Vector2::polar`] may fall short of
/// the length that was asked for.
pub const POLAR_SLACK: i64 = 2;

/// A vector of the plane, each coordinate in millionths.
#[derive(Clone, Copy, Debug, PartialEq, Eq)]
pub struct Vector2 {
    pub x: i64,
    pub y: i64,
}

impl Vector2 {
    /// The vector without length.
    pub open spec fn zero_spec() -> Vector2 {
        Vector2 { x: 0, y: 0 }
    }

    /// `self + other`, coordinate by coordinate.
    pub open spec fn plus_spec(&self, other: Vector2) -> Vector2 {
        Vector2 {
            x: sum_spec(self.x as int, other.x as int) as i64,
            y: sum_spec(self.y as int, other.y as int) as i64,
        }
    }

    /// `self - other`, coordinate by coordinate.
    pub open spec fn minus_spec(&self, other: Vector2) -> Vector2 {
        Vector2 {
            x: difference_spec(self.x as int, other.x as int) as i64,
            y: difference_spec(self.y as int, other.y as int) as i64,
        }
    }

    /// `self` stretched by the factor `k`.
    pub open spec fn scaled_spec(&self, k: int) -> Vector2 {
        Vector2 {
            x: product_spec(self.x as int, k) as i64,
            y: product_spec(self.y as int, k) as i64,
        }
    }

    /// The length of `self`: the integer square root of `x^2 + y^2`.
    pub open spec fn length_spec(&self) -> int {
        clamp(root_spec(self.x * self.x + self.y * self.y))
    }

    /// The vector of length one that points as `self` does; none where `self`
    /// is shorter than [`NEAR_ZERO`].
    pub open spec fn direction_spec(&self) -> Option<Vector2> {
        let length = self.length_spec();
        if length < NEAR_ZERO {
            None
        } else {
            Some(
                Vector2 {
                    x: ratio_spec(self.x as int, length) as i64,
                    y: ratio_spec(self.y as int, length) as i64,
                },
            )
        }
    }

    /// The length of the vector `(cosine, sine)` at the given angle, in
    /// millionths of a millionth. The sine and the cosine are stand-ins, so
    /// this length is near one, not one.
    pub open spec fn norm_spec(turn: int) -> int {
        let c = cosine_spec(turn);
        let s = sine_spec(turn);
        root_spec((c * c + s * s) * 1_000_000_000_000)
    }

    /// The vector of the given length at the given angle, the angle in
    /// millionths of a turn, counted from the x axis towards the y axis:
    /// `length * (cosine, sine) / norm`. Dividing by the norm makes up for
    /// what the stand-ins lack, so that the length is the one asked for.
    pub open spec fn polar_spec(length: int, turn: int) -> Vector2 {
        Vector2 {
            x: proportion_spec(length, cosine_spec(turn) * SCALE, Vector2::norm_spec(turn)) as i64,
            y: proportion_spec(length, sine_spec(turn) * SCALE, Vector2::norm_spec(turn)) as i64,
        }
    }

    /// The vector with the given coordinates.
    pub fn new(x: i64, y: i64) -> (v: Vector2)
        ensures
            v == (Vector2 { x, y }),
    {
        Vector2 { x, y }
    }

    /// The vector without length.
    pub fn zero() -> (v: Vector2)
        ensures
            v == Vector2::zero_spec(),
    {
        Vector2 { x: 0, y: 0 }
    }

    /// Adds `other`.
    pub fn plus(&self, other: Vector2) -> (v: Vector2)
        ensures
            v == self.plus_spec(other),
    {
        Vector2 { x: sum(self.x, other.x), y: sum(self.y, other.y) }
    }

    /// Subtracts `other`.
    pub fn minus(&self, other: Vector2) -> (v: Vector2)
        ensures
            v == self.minus_spec(other),
    {
        Vector2 { x: difference(self.x, other.x), y: difference(self.y, other.y) }
    }

    /// Stretches by the factor `k`.
    pub fn scaled(&self, k: i64) -> (v: Vector2)
        ensures
            v == self.scaled_spec(k as int),
    {
        Vector2 { x: product(self.x, k), y: product(self.y, k) }
    }

    /// The length.
    pub fn length(&self) -> (length: i64)
        ensures
            length == self.length_spec(),
            length >= 0,
    {
        proof {
            lemma_square(self.x as int);
            lemma_square(self.y as int);
        }
        let xx: i128 = (self.x as i128) * (self.x as i128);
        let yy: i128 = (self.y as i128) * (self.y as i128);
        let r: u64 = root(xx as u128 + yy as u128);
        if r > i64::MAX as u64 {
            i64::MAX
        } else {
            r as i64
        }
    }

    /// The direction, where there is one.
    pub fn direction(&self) -> (d: Option<Vector2>)
        ensures
            d == self.direction_spec(),
    {
        let length = self.length();
        if length < NEAR_ZERO {
            None
        } else {
            Some(Vector2 { x: ratio(self.x, length), y: ratio(self.y, length) })
        }
    }

    /// The vector of the given length at the given angle.
    pub fn polar(length: i64, turn: i64) -> (v: Vector2)
        ensures
            v == Vector2::polar_spec(length as int, turn as int),
    {
        let c = cosine(turn);
        let s = sine(turn);
        proof {
            lemma_norm_bounds(turn as int);
            assert(0 <= c * c <= 1_000_000_000_000 && 0 <= s * s <= 1_000_000_000_000
                && -1_000_000_000_000 <= c * SCALE <= 1_000_000_000_000
                && -1_000_000_000_000 <= s * SCALE <= 1_000_000_000_000) by (nonlinear_arith)
                requires
                    -1_000_000 <= c <= 1_000_000,
                    -1_000_000 <= s <= 1_000_000,
                    SCALE == 1_000_000,
            ;
            assert((c * c + s * s) * 1_000_000_000_000 <= 2_000_000_000_000_000_000_000_000)
                by (nonlinear_arith)
                requires
                    0 <= c * c <= 1_000_000_000_000,
                    0 <= s * s <= 1_000_000_000_000,
            ;
        }
        let squares: i64 = c * c + s * s;
        let norm: u64 = root((squares as u128) * 1_000_000_000_000);
        let norm: i64 = norm as i64;
        Vector2 {
            x: proportion(length, c * SCALE, norm),
            y: proportion(length, s * SCALE, norm),
        }
    }
}

proof fn lemma_square(a: int)
    requires
        i64::MIN <= a <= i64::MAX,
    ensures
        0 <= a * a <= 0x4000_0000_0000_0000_0000_0000_0000_0000,
{
    let m: int = 0x8000_0000_0000_0000;
    assert(0 <= a * a <= m * m) by (nonlinear_arith)
        requires
            -m <= a <= m,
    ;
    assert(m * m == 0x4000_0000_0000_0000_0000_0000_0000_0000) by (nonlinear_arith)
        requires
            m == 0x8000_0000_0000_0000,
    ;
}

/// The norm at every angle lies between a half and one and a half, and no
/// coordinate of the stand-in direction is longer than it.
pub proof fn lemma_norm_bounds(turn: int)
    ensures
        500_000_000_000 <= Vector2::norm_spec(turn) <= 1_500_000_000_000,
        is_root(
            (cosine_spec(turn) * cosine_spec(turn) + sine_spec(turn) * sine_spec(turn))
                * 1_000_000_000_000,
            Vector2::norm_spec(turn),
        ),
        size_spec(cosine_spec(turn)) * SCALE <= Vector2::norm_spec(turn),
        size_spec(sine_spec(turn)) * SCALE <= Vector2::norm_spec(turn),
{
    let c = size_spec(cosine_spec(turn));
    let s = size_spec(sine_spec(turn));
    let n = cosine_spec(turn) * cosine_spec(turn) + sine_spec(turn) * sine_spec(turn);
    crate::curve::lemma_sine_bounds(turn);
    crate::curve::lemma_compass(turn);
    lemma_square_size(cosine_spec(turn));
    lemma_square_size(sine_spec(turn));
    let cc = c * c;
    let ss = s * s;
    let cs = c * s;
    assert(cc + ss >= 2 * cs) by (nonlinear_arith)
        requires
            cc == c * c,
            ss == s * s,
            cs == c * s,
    ;
    assert((c + s) * (c + s) == cc + ss + 2 * cs) by (nonlinear_arith)
        requires
            cc == c * c,
            ss == s * s,
            cs == c * s,
    ;
    assert((c + s) * (c + s) >= 562_500_000_000) by (nonlinear_arith)
        requires
            c + s >= 750_000,
    ;
    assert(cc <= 1_000_000_000_000 && ss <= 1_000_000_000_000) by (nonlinear_arith)
        requires
            cc == c * c,
            ss == s * s,
            0 <= c <= 1_000_000,
            0 <= s <= 1_000_000,
    ;
    assert(n == cc + ss && 281_250_000_000 <= n <= 2_000_000_000_000);
    let wide = n * 1_000_000_000_000;
    lemma_root_exists(wide);
    let norm = Vector2::norm_spec(turn);
    assert(500_000_000_000 <= norm <= 1_500_000_000_000) by (nonlinear_arith)
        requires
            0 <= norm,
            norm * norm <= wide < (norm + 1) * (norm + 1),
            281_250_000_000_000_000_000_000 <= wide <= 2_000_000_000_000_000_000_000_000,
    ;
    assert(c * SCALE <= norm && s * SCALE <= norm) by (nonlinear_arith)
        requires
            wide == (c * c + s * s) * 1_000_000_000_000,
            wide < (norm + 1) * (norm + 1),
            SCALE == 1_000_000,
            0 <= c,
            0 <= s,
            0 <= norm,
    ;
}

/// A square is the square of the size, and is not negative.
proof fn lemma_square_size(a: int)
    ensures
        a * a == size_spec(a) * size_spec(a),
        a * a >= 0,
{
    assert(a * a == (-a) * (-a) && a * a >= 0) by (nonlinear_arith);
}

/// One coordinate of a polar vector, times the norm, misses the coordinate of
/// the stand-in direction, times the length, by less than the norm; and it
/// is no longer than the length.
proof fn lemma_polar_coordinate(length: int, k: int, norm: int)
    requires
        norm >= 1,
        0 <= length <= i64::MAX,
        size_spec(k) * SCALE <= norm,
    ensures
        ({
            let q = proportion_spec(length, k * SCALE, norm);
            let a = length * (size_spec(k) * SCALE);
            &&& size_spec(q) <= length
            &&& size_spec(q) * norm <= a < (size_spec(q) + 1) * norm
        }),
{
    let s = SCALE as int;
    let whole = length * (k * s);
    let a = length * (size_spec(k) * s);
    let q = quot(whole, norm);
    lemma_quot_bracket(whole, norm);
    assert(size_spec(whole) == a && (k >= 0 ==> whole >= 0) && (k < 0 ==> whole <= 0))
        by (nonlinear_arith)
        requires
            whole == length * (k * s),
            a == length * (size_spec(k) * s),
            length >= 0,
            s > 0,
    ;
    assert(size_spec(q) * norm <= a < (size_spec(q) + 1) * norm);
    assert(size_spec(q) <= length) by (nonlinear_arith)
        requires
            size_spec(q) * norm <= a,
            a == length * (size_spec(k) * s),
            0 <= size_spec(k) * s <= norm,
            norm >= 1,
            length >= 0,
            size_spec(q) >= 0,
    ;
}

/// A polar vector has the length that was asked for, to within
/// [`POLAR_SLACK`]: for a length up to [`POLAR_REACH`], the vector is no longer
/// than that length and falls short of it by two millionths at most. Along
/// either axis it is no longer than the length.
pub proof fn lemma_polar_length(length: int, turn: int)
    requires
        0 <= length <= POLAR_REACH,
    ensures
        length - POLAR_SLACK <= Vector2::polar_spec(length, turn).length_spec() <= length,
        -length <= Vector2::polar_spec(length, turn).x <= length,
        -length <= Vector2::polar_spec(length, turn).y <= length,
{
    let s = SCALE as int;
    let c = size_spec(cosine_spec(turn));
    let k = size_spec(sine_spec(turn));
    let norm = Vector2::norm_spec(turn);
    let wide = (cosine_spec(turn) * cosine_spec(turn) + sine_spec(turn) * sine_spec(turn))
        * 1_000_000_000_000;
    lemma_norm_bounds(turn);
    lemma_polar_coordinate(length, cosine_spec(turn), norm);
    lemma_polar_coordinate(length, sine_spec(turn), norm);
    let v = Vector2::polar_spec(length, turn);
    let x = size_spec(v.x as int);
    let y = size_spec(v.y as int);
    let a1 = length * (c * s);
    let a2 = length * (k * s);
    let b1 = x * norm;
    let b2 = y * norm;
    let n2 = norm * norm;
    let q = v.x * v.x + v.y * v.y;
    lemma_square_size(v.x as int);
    lemma_square_size(v.y as int);
    assert(q == x * x + y * y && q >= 0);
    lemma_square_size(cosine_spec(turn));
    lemma_square_size(sine_spec(turn));
    assert(wide == (c * c + k * k) * 1_000_000_000_000);
    assert(a1 * a1 + a2 * a2 == length * length * wide) by (nonlinear_arith)
        requires
            a1 == length * (c * s),
            a2 == length * (k * s),
            wide == (c * c + k * k) * 1_000_000_000_000,
            s == 1_000_000,
    ;
    assert(n2 >= 1) by (nonlinear_arith)
        requires
            n2 == norm * norm,
            norm >= 1,
    ;
    assert(n2 * q == b1 * b1 + b2 * b2) by (nonlinear_arith)
        requires
            b1 == x * norm,
            b2 == y * norm,
            n2 == norm * norm,
            q == x * x + y * y,
    ;
    // From above: the vector, stretched by the norm, stays within the
    // stand-in direction, stretched by the length.
    assert(b1 * b1 <= a1 * a1 && b2 * b2 <= a2 * a2) by (nonlinear_arith)
        requires
            0 <= b1 <= a1,
            0 <= b2 <= a2,
    ;
    assert(length * length * wide <= length * length * ((norm + 1) * (norm + 1) - 1))
        by (nonlinear_arith)
        requires
            wide < (norm + 1) * (norm + 1),
            length >= 0,
    ;
    assert(q < (length + 1) * (length + 1)) by (nonlinear_arith)
        requires
            n2 * q <= length * length * ((norm + 1) * (norm + 1) - 1),
            n2 == norm * norm,
            0 <= length <= norm,
            norm >= 1,
            q >= 0,
    ;
    // From below: each coordinate misses by less than one.
    assert((x + 1) * norm == b1 + norm && (y + 1) * norm == b2 + norm) by (nonlinear_arith)
        requires
            b1 == x * norm,
            b2 == y * norm,
    ;
    assert(((x + 1) * (x + 1) + (y + 1) * (y + 1)) * n2 > a1 * a1 + a2 * a2)
        by (nonlinear_arith)
        requires
            0 <= a1 < (x + 1) * norm,
            0 <= a2 < (y + 1) * norm,
            n2 == norm * norm,
            norm >= 1,
            x >= 0,
            y >= 0,
    ;
    assert((x + 1) * (x + 1) + (y + 1) * (y + 1) > length * length) by (nonlinear_arith)
        requires
            ((x + 1) * (x + 1) + (y + 1) * (y + 1)) * n2 > length * length * wide,
            n2 <= wide,
            n2 >= 1,
            length >= 0,
    ;
    lemma_root_exists(q);
    let r = root_spec(q);
    assert(r <= length) by (nonlinear_arith)
        requires
            r * r <= q,
            q < (length + 1) * (length + 1),
            r >= 0,
            length >= 0,
    ;
    if length >= 2 {
        assert(q >= (length - 2) * (length - 2)) by (nonlinear_arith)
            requires
                (x + 1) * (x + 1) + (y + 1) * (y + 1) > length * length,
                q == x * x + y * y,
                x >= 0,
                y >= 0,
                length >= 2,
        ;
        assert(r >= length - 2) by (nonlinear_arith)
            requires
                q < (r + 1) * (r + 1),
                q >= (length - 2) * (length - 2),
                r >= 0,
                length >= 2,
        ;
    }
}

/// One coordinate of a direction, times the length, misses the coordinate
/// of the vector by less than the length; and it is no longer than one.
proof fn lemma_direction_coordinate(a: int, length: int)
    requires
        length >= 1,
        size_spec(a) <= length <= i64::MAX,
    ensures
        ({
            let d = ratio_spec(a, length);
            let s = crate::fixed::SCALE as int;
            &&& size_spec(d) <= s
            &&& size_spec(d) * length <= size_spec(a) * s < (size_spec(d) + 1) * length
        }),
{
    let s = crate::fixed::SCALE as int;
    let q = crate::fixed::quot(a * s, length);
    crate::fixed::lemma_quot_bracket(a * s, length);
    assert(a >= 0 ==> a * s >= 0) by (nonlinear_arith)
        requires
            s > 0,
    ;
    assert(a < 0 ==> a * s < 0) by (nonlinear_arith)
        requires
            s > 0,
    ;
    assert(size_spec(a * s) == size_spec(a) * s) by (nonlinear_arith)
        requires
            s > 0,
    ;
    assert(size_spec(q) * length <= size_spec(a) * s < (size_spec(q) + 1) * length);
    assert(size_spec(q) <= s) by (nonlinear_arith)
        requires
            size_spec(q) * length <= size_spec(a) * s,
            size_spec(a) <= length,
            length >= 1,
            s > 0,
            size_spec(q) >= 0,
    ;
}

/// A direction has the length one, to within a thousandth: for a vector
/// that has a direction, and whose length an `i64` holds, the squares of the
/// direction's coordinates add up to more than `SCALE^2 - 5 SCALE` and to less
/// than the square of `1.001 SCALE`.
pub proof fn lemma_direction_unit(v: Vector2)
    requires
        v.direction_spec() is Some,
        root_spec(v.x * v.x + v.y * v.y) <= i64::MAX,
    ensures
        ({
            let d = v.direction_spec()->0;
            let s = crate::fixed::SCALE as int;
            s * s - 5 * s < d.x * d.x + d.y * d.y < 1_001_000 * 1_001_000
        }),
{
    let s = crate::fixed::SCALE as int;
    let x = size_spec(v.x as int);
    let y = size_spec(v.y as int);
    let n = v.x * v.x + v.y * v.y;
    assert(n == x * x + y * y && n >= 0) by (nonlinear_arith)
        requires
            n == v.x * v.x + v.y * v.y,
            x == size_spec(v.x as int),
            y == size_spec(v.y as int),
    ;
    crate::fixed::lemma_root_exists(n);
    let length = root_spec(n);
    assert(length == v.length_spec());
    assert(x <= length && y <= length) by (nonlinear_arith)
        requires
            n == x * x + y * y,
            n < (length + 1) * (length + 1),
            x >= 0,
            y >= 0,
            length >= 0,
    ;
    lemma_direction_coordinate(v.x as int, length);
    lemma_direction_coordinate(v.y as int, length);
    let dx = size_spec(ratio_spec(v.x as int, length));
    let dy = size_spec(ratio_spec(v.y as int, length));
    let d = v.direction_spec()->0;
    assert(d.x * d.x + d.y * d.y == dx * dx + dy * dy) by (nonlinear_arith)
        requires
            dx == size_spec(d.x as int),
            dy == size_spec(d.y as int),
    ;
    let a1 = x * s;
    let a2 = y * s;
    let b1 = dx * length;
    let b2 = dy * length;
    let l2 = length * length;
    assert(l2 * (dx * dx + dy * dy) == b1 * b1 + b2 * b2) by (nonlinear_arith)
        requires
            b1 == dx * length,
            b2 == dy * length,
            l2 == length * length,
    ;
    assert(s * s * n == a1 * a1 + a2 * a2) by (nonlinear_arith)
        requires
            a1 == x * s,
            a2 == y * s,
            n == x * x + y * y,
    ;
    // From above: the direction, stretched to the length, stays within the
    // vector, stretched to one.
    assert(b1 * b1 <= a1 * a1 && b2 * b2 <= a2 * a2) by (nonlinear_arith)
        requires
            0 <= b1 <= a1,
            0 <= b2 <= a2,
    ;
    assert(s * s * n < s * s * ((length + 1) * (length + 1))) by (nonlinear_arith)
        requires
            n < (length + 1) * (length + 1),
            s >= 1,
    ;
    assert(dx * dx + dy * dy < 1_001_000 * 1_001_000) by (nonlinear_arith)
        requires
            l2 * (dx * dx + dy * dy) < s * s * ((length + 1) * (length + 1)),
            l2 == length * length,
            length >= 1_000,
            s == 1_000_000,
    ;
    // From below: each coordinate misses by less than one.
    assert((dx + 1) * length == b1 + length && (dy + 1) * length == b2 + length)
        by (nonlinear_arith)
        requires
            b1 == dx * length,
            b2 == dy * length,
    ;
    assert(0 <= a1 && 0 <= a2 && 0 <= b1 <= s * length && 0 <= b2 <= s * length)
        by (nonlinear_arith)
        requires
            a1 == x * s,
            a2 == y * s,
            b1 == dx * length,
            b2 == dy * length,
            0 <= x,
            0 <= y,
            0 <= dx <= s,
            0 <= dy <= s,
            length >= 1,
            s >= 1,
    ;
    assert(a1 * a1 < b1 * b1 + 2 * s * l2 + l2 && a2 * a2 < b2 * b2 + 2 * s * l2 + l2)
        by (nonlinear_arith)
        requires
            0 <= a1 < b1 + length,
            0 <= a2 < b2 + length,
            0 <= b1 <= s * length,
            0 <= b2 <= s * length,
            l2 == length * length,
            length >= 1,
    ;
    assert(dx * dx + dy * dy > s * s - 5 * s) by (nonlinear_arith)
        requires
            l2 * (dx * dx + dy * dy) + 4 * s * l2 + 2 * l2 > s * s * n,
            l2 <= n,
            l2 == length * length,
            length >= 1,
            s >= 2,
    ;
}

} // verus!

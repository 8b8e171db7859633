//! Integer geometry: square roots, distances and fixed-point vectors.

use vstd::prelude::*;

verus! {

/// `root` is the integer square root of `n`: the largest number whose
/// square does not exceed `n`.
pub open spec fn is_sqrt(n: int, root: int) -> bool {
    0 <= root && root * root <= n < (root + 1) * (root + 1)
}

/// A number has at most one integer square root.
pub proof fn lemma_sqrt_unique(n: int, first: int, second: int)
    requires
        is_sqrt(n, first),
        is_sqrt(n, second),
    ensures
        first == second,
{
    assert(first <= second) by (nonlinear_arith)
        requires
            0 <= first,
            0 <= second,
            first * first <= n,
            n < (second + 1) * (second + 1),
    ;
    assert(second <= first) by (nonlinear_arith)
        requires
            0 <= first,
            0 <= second,
            second * second <= n,
            n < (first + 1) * (first + 1),
    ;
}

/// A square is at most `n` exactly if its base lies within the square root
/// of `n` on either side of zero.
pub proof fn lemma_square_within(n: int, root: int, d: int)
    requires
        is_sqrt(n, root),
    ensures
        d * d <= n <==> -root <= d <= root,
{
    if -root <= d <= root {
        assert(d * d <= root * root) by (nonlinear_arith)
            requires
                -root <= d <= root,
        ;
    } else {
        assert(d * d >= (root + 1) * (root + 1)) by (nonlinear_arith)
            requires
                d > root || d < -root,
                root >= 0,
        ;
    }
}

/// The integer square root.
pub fn isqrt(n: u64) -> (root: u64)
    ensures
        is_sqrt(n as int, root as int),
        root <= 0xffff_ffff,
{
    let mut low: u64 = 0;
    let mut high: u64 = 0x1_0000_0000;
    assert(0x1_0000_0000 * 0x1_0000_0000 > n) by (nonlinear_arith)
        requires
            n <= u64::MAX,
    ;
    while high - low > 1
        invariant
            low < high <= 0x1_0000_0000,
            low * low <= n < high * high,
        decreases high - low,
    {
        let middle: u64 = low + (high - low) / 2;
        assert(middle * middle <= 0xffff_ffff * 0xffff_ffff) by (nonlinear_arith)
            requires
                0 <= middle <= 0xffff_ffff,
        ;
        if middle * middle <= n {
            low = middle;
        } else {
            high = middle;
        }
    }
    low
}

/// Whether the cell `(x, y)` lies within `radius` of `center`.
pub open spec fn in_disk(center: (i64, i64), radius: int, x: int, y: int) -> bool {
    (x - center.0) * (x - center.0) + (y - center.1) * (y - center.1) <= radius * radius
}

/// Number of fixed-point units in one whole: a cell, a degree, a unit of
/// power.
pub const SCALE: i64 = 1000;

/// A right angle, in thousandths of a degree.
pub const RIGHT_ANGLE: i32 = 90_000;

/// A pair of fixed-point numbers: a position, a velocity or an acceleration.
#[derive(Debug, Clone, Copy, PartialEq, Eq, Structural)]
pub struct Vector2 {
    pub x: i64,
    pub y: i64,
}

/// The sine, in thousandths, of an angle of `turn` thousandths of a degree
/// between zero and a straight angle, by the rational approximation
/// `4 p / (5 * 90^2 - p)` with `p = turn * (180 - turn)` in degrees.
pub open spec fn sine_of_turn(turn: int) -> int {
    let p = turn * (2 * RIGHT_ANGLE - turn);
    4 * SCALE * p / (40_500_000_000 - p)
}

/// The sine, in thousandths, of an angle between minus and plus a right
/// angle.
pub open spec fn sine(angle: int) -> int {
    if angle >= 0 {
        sine_of_turn(angle)
    } else {
        -sine_of_turn(-angle)
    }
}

/// The cosine, in thousandths, of an angle between minus and plus a right
/// angle.
pub open spec fn cosine(angle: int) -> int {
    sine_of_turn(angle + RIGHT_ANGLE)
}

/// `length` times `factor` thousandths, rounded toward zero.
pub open spec fn scaled(length: int, factor: int) -> int {
    if factor >= 0 {
        length * factor / (SCALE as int)
    } else {
        -(length * (-factor) / (SCALE as int))
    }
}

/// The approximated sine lies between zero and one, and is zero at zero
/// and at a straight angle and one at a right angle.
pub proof fn lemma_sine_of_turn(turn: int)
    requires
        0 <= turn <= 2 * RIGHT_ANGLE,
    ensures
        0 <= turn * (2 * RIGHT_ANGLE - turn) <= 8_100_000_000,
        0 <= sine_of_turn(turn) <= SCALE,
        sine_of_turn(0) == 0,
        sine_of_turn(RIGHT_ANGLE as int) == SCALE,
        sine_of_turn(2 * RIGHT_ANGLE) == 0,
{
    let p = turn * (2 * RIGHT_ANGLE - turn);
    assert(0 <= p <= 8_100_000_000) by (nonlinear_arith)
        requires
            0 <= turn <= 180_000,
            p == turn * (180_000 - turn),
    ;
    let d = 40_500_000_000 - p;
    assert(0 <= 4000 * p / d <= 1000) by (nonlinear_arith)
        requires
            0 <= p,
            d > 0,
            4000 * p <= 1000 * d,
    ;
    assert(0int * (180_000 - 0) == 0 && 90_000int * (180_000 - 90_000) == 8_100_000_000
        && 180_000int * (180_000 - 180_000) == 0) by (nonlinear_arith);
    assert(4000 * 8_100_000_000int / (40_500_000_000 - 8_100_000_000) == 1000);
    assert(sine_of_turn(0) == 0);
    assert(sine_of_turn(90_000) == 1000);
    assert(sine_of_turn(180_000) == 0);
}

/// The approximated sine of an angle of up to a straight angle.
pub fn sine_of(turn: i32) -> (result: i32)
    requires
        0 <= turn <= 2 * RIGHT_ANGLE,
    ensures
        result == sine_of_turn(turn as int),
        0 <= result <= SCALE,
{
    proof {
        lemma_sine_of_turn(turn as int);
    }
    let t: i64 = turn as i64;
    let p: i64 = t * (180_000 - t);
    (4000 * p / (40_500_000_000 - p)) as i32
}

/// Sine and cosine, in thousandths, of an angle between minus and plus a
/// right angle.
pub fn sine_cosine(angle: i32) -> (result: (i32, i32))
    requires
        -RIGHT_ANGLE <= angle <= RIGHT_ANGLE,
    ensures
        result.0 == sine(angle as int),
        result.1 == cosine(angle as int),
        -SCALE <= result.0 <= SCALE,
        0 <= result.1 <= SCALE,
{
    let s: i32 = if angle >= 0 {
        sine_of(angle)
    } else {
        -sine_of(-angle)
    };
    (s, sine_of(angle + RIGHT_ANGLE))
}

/// `length` times `factor` thousandths, rounded toward zero.
pub fn scale_by(length: i64, factor: i32) -> (result: i64)
    requires
        0 <= length <= 0x1_0000_0000,
        -SCALE <= factor <= SCALE,
    ensures
        result == scaled(length as int, factor as int),
        -length <= result <= length,
        factor >= 0 ==> result >= 0,
        factor <= 0 ==> result <= 0,
{
    let f: i64 = factor as i64;
    if f >= 0 {
        assert(0 <= length * f <= length * 1000 && length * f / 1000 <= length && (f == 0
            ==> length * f == 0)) by (nonlinear_arith)
            requires
                0 <= length,
                0 <= f <= 1000,
        ;
        length * f / 1000
    } else {
        assert(0 <= length * (-f) <= length * 1000 && length * (-f) / 1000 <= length)
            by (nonlinear_arith)
            requires
                0 <= length,
                0 <= -f <= 1000,
        ;
        -(length * (-f) / 1000)
    }
}

/// Scaling is monotonic in the length: a longer length gives a result at
/// least as far from zero, on the same side.
pub proof fn lemma_scaled_monotone(shorter: int, longer: int, factor: int)
    requires
        0 <= shorter <= longer,
    ensures
        factor >= 0 ==> 0 <= scaled(shorter, factor) <= scaled(longer, factor),
        factor <= 0 ==> scaled(longer, factor) <= scaled(shorter, factor) <= 0,
{
    if factor >= 0 {
        assert(0 <= shorter * factor / 1000 <= longer * factor / 1000) by (nonlinear_arith)
            requires
                0 <= shorter <= longer,
                factor >= 0,
        ;
    } else {
        assert(0 <= shorter * (-factor) / 1000 <= longer * (-factor) / 1000)
            by (nonlinear_arith)
            requires
                0 <= shorter <= longer,
                -factor >= 0,
        ;
    }
}

} // verus!

//! Integer vectors and the saturating arithmetic that moves them.

use vstd::prelude::*;

verus! {

/// Number of length units in one pixel.
pub const UNIT: i64 = 1_000_000;

/// A position or a displacement on the play field, in length units.
#[derive(Clone, Copy, Debug, PartialEq, Eq, Structural)]
pub struct Vector {
    pub x: i64,
    pub y: i64,
}

/// Width and height of an axis-aligned rectangle, in length units.
#[derive(Clone, Copy, Debug, PartialEq, Eq, Structural)]
pub struct Size {
    pub x: u32,
    pub y: u32,
}

/// Absolute value of a mathematical integer.
pub open spec fn abs(v: int) -> int {
    if v < 0 {
        -v
    } else {
        v
    }
}

/// `v` brought into the closed interval from `lo` to `hi`.
pub open spec fn clamp(v: int, lo: int, hi: int) -> int {
    if v < lo {
        lo
    } else if v > hi {
        hi
    } else {
        v
    }
}

/// `v` brought into the range of a coordinate.
pub open spec fn sat(v: int) -> int {
    clamp(v, i64::MIN as int, i64::MAX as int)
}

/// Brings a wide intermediate result back into the range of a coordinate.
pub fn saturate(v: i128) -> (r: i64)
    ensures
        r == sat(v as int),
{
    if v < i64::MIN as i128 {
        i64::MIN
    } else if v > i64::MAX as i128 {
        i64::MAX
    } else {
        v as i64
    }
}

/// Sum of two coordinates, held at the ends of the coordinate range.
pub fn sat_add(a: i64, b: i64) -> (r: i64)
    ensures
        r == sat(a + b),
{
    saturate(a as i128 + b as i128)
}

/// Number of microseconds in one second.
pub const SECOND: u64 = 1_000_000;

/// Distance covered in `dt` microseconds at `rate` length units per second,
/// rounded down.
pub open spec fn over_time(rate: int, dt: int) -> int {
    (rate * dt) / (SECOND as int)
}

/// Quotient of `n` by a positive `d`, rounded down.
pub fn floor_div(n: i128, d: i128) -> (q: i128)
    requires
        d > 0,
        n > i128::MIN + d,
    ensures
        q == (n as int) / (d as int),
{
    if n >= 0 {
        n / d
    } else {
        let m: i128 = -n;
        let t: i128 = (m + (d - 1)) / d;
        proof {
            lemma_floor_of_negative(n as int, d as int, t as int);
        }
        -t
    }
}

proof fn lemma_floor_of_negative(n: int, d: int, t: int)
    by (nonlinear_arith)
    requires
        n < 0,
        d > 0,
        t == (-n + (d - 1)) / d,
    ensures
        -t == n / d,
{
}

/// Distance covered in `dt` microseconds at `rate` length units per second,
/// held at the ends of the coordinate range.
pub fn travel(rate: i64, dt: u32) -> (r: i64)
    ensures
        r == sat(over_time(rate as int, dt as int)),
{
    assert(-0x8000_0000_0000_0000 * 0x1_0000_0000 <= (rate as int) * (dt as int)
        <= 0x8000_0000_0000_0000 * 0x1_0000_0000) by (nonlinear_arith)
        requires
            -0x8000_0000_0000_0000 <= rate as int <= 0x8000_0000_0000_0000,
            0 <= dt as int <= 0x1_0000_0000,
    ;
    let n: i128 = (rate as i128) * (dt as i128);
    saturate(floor_div(n, SECOND as i128))
}

impl Vector {
    /// The vector moved by `d`, each coordinate saturating.
    pub open spec fn plus(self, d: Vector) -> Vector {
        Vector { x: sat(self.x + d.x) as i64, y: sat(self.y + d.y) as i64 }
    }

    /// The vector moved for `dt` microseconds at the velocity `v`.
    pub open spec fn drifted(self, v: Vector, dt: int) -> Vector {
        self.plus(
            Vector {
                x: sat(over_time(v.x as int, dt)) as i64,
                y: sat(over_time(v.y as int, dt)) as i64,
            },
        )
    }

    /// Moves the vector for `dt` microseconds at the velocity `v`.
    pub fn drift(self, v: Vector, dt: u32) -> (r: Vector)
        ensures
            r == self.drifted(v, dt as int),
    {
        self.offset(Vector { x: travel(v.x, dt), y: travel(v.y, dt) })
    }

    /// Moves the vector by `d`, each coordinate saturating.
    pub fn offset(self, d: Vector) -> (r: Vector)
        ensures
            r == self.plus(d),
    {
        Vector { x: sat_add(self.x, d.x), y: sat_add(self.y, d.y) }
    }
}

} // verus!

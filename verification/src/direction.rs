//! Directions as integer vectors of unit length, and the angles that make
//! them.
//!
//! An angle is an integer count of binary fractions of a half turn: `PI`
//! units make a half turn. A direction is a vector whose length is `ONE`, the
//! length of one pixel, up to the rounding that `is_unit` allows.

use vstd::prelude::*;
use crate::fixed::{abs, Vector};

verus! {

/// Length of a unit direction.
pub const ONE: i64 = 1_000_000;

/// How far the squared length of a unit direction may be from `ONE * ONE`.
pub const NORM_SLACK: i64 = 5_000_000;

/// A half turn.
pub const PI: i64 = 1_048_576;

/// A full turn.
pub const TAU: i64 = 2_097_152;

pub const FRAC_PI_2: i64 = 524_288;

pub const FRAC_PI_4: i64 = 262_144;

pub const FRAC_PI_8: i64 = 131_072;

pub const FRAC_PI_16: i64 = 65_536;

/// A tenth of a radian.
pub const TENTH_RADIAN: i64 = 33_377;

/// Angle between two entries of the sine table.
pub const TABLE_STEP: i64 = 8_192;

/// Largest coordinate that `normalize` takes.
pub const NORMALIZE_MAX: i128 = 0x1000_0000_0000_0000;

impl Vector {
    /// Square of the length.
    pub open spec fn norm2(self) -> int {
        self.x * self.x + self.y * self.y
    }

    /// Whether the length is `ONE`, up to rounding.
    pub open spec fn is_unit(self) -> bool {
        ONE * ONE - NORM_SLACK <= self.norm2() <= ONE * ONE + NORM_SLACK
    }

    /// Says whether the length is `ONE`, up to rounding.
    pub fn has_unit_length(&self) -> (b: bool)
        ensures
            b == self.is_unit(),
    {
        let x = self.x as i128;
        let y = self.y as i128;
        let limit: i128 = 2 * (ONE as i128);
        if x > limit || x < -limit || y > limit || y < -limit {
            proof {
                assert(x * x >= 0 && y * y >= 0) by (nonlinear_arith);
                assert(x > 2_000_000 || x < -2_000_000 ==> x * x > 4_000_000_000_000)
                    by (nonlinear_arith);
                assert(y > 2_000_000 || y < -2_000_000 ==> y * y > 4_000_000_000_000)
                    by (nonlinear_arith);
            }
            return false;
        }
        assert(0 <= x * x <= 4_000_000_000_000) by (nonlinear_arith)
            requires
                -2_000_000 <= x <= 2_000_000,
        ;
        assert(0 <= y * y <= 4_000_000_000_000) by (nonlinear_arith)
            requires
                -2_000_000 <= y <= 2_000_000,
        ;
        let n: i128 = x * x + y * y;
        let one: i128 = 1_000_000_000_000;
        one - NORM_SLACK as i128 <= n && n <= one + NORM_SLACK as i128
    }

    /// The vector with its `x` made positive, pointing right.
    pub open spec fn rightward(self) -> Vector {
        Vector { x: abs(self.x as int) as i64, y: self.y }
    }

    /// The vector with its `x` made negative, pointing left.
    pub open spec fn leftward(self) -> Vector {
        Vector { x: (-abs(self.x as int)) as i64, y: self.y }
    }

    /// The vector with its `y` made positive, pointing up.
    pub open spec fn upward(self) -> Vector {
        Vector { x: self.x, y: abs(self.y as int) as i64 }
    }

    /// The vector with its `y` made negative, pointing down.
    pub open spec fn downward(self) -> Vector {
        Vector { x: self.x, y: (-abs(self.y as int)) as i64 }
    }

    /// The vector with its `y` reversed.
    pub open spec fn flipped_y(self) -> Vector {
        Vector { x: self.x, y: (-self.y) as i64 }
    }

    /// Turns the direction to the right.
    pub fn point_right(self) -> (d: Vector)
        requires
            self.is_unit(),
        ensures
            d == self.rightward(),
            d.is_unit(),
    {
        proof {
            lemma_unit_is_small(self);
            lemma_same_square(self.x as int, abs(self.x as int));
        }
        Vector { x: if self.x < 0 { -self.x } else { self.x }, y: self.y }
    }

    /// Turns the direction to the left.
    pub fn point_left(self) -> (d: Vector)
        requires
            self.is_unit(),
        ensures
            d == self.leftward(),
            d.is_unit(),
    {
        proof {
            lemma_unit_is_small(self);
            lemma_same_square(self.x as int, -abs(self.x as int));
        }
        Vector { x: if self.x > 0 { -self.x } else { self.x }, y: self.y }
    }

    /// Turns the direction upwards.
    pub fn point_up(self) -> (d: Vector)
        requires
            self.is_unit(),
        ensures
            d == self.upward(),
            d.is_unit(),
    {
        proof {
            lemma_unit_is_small(self);
            lemma_same_square(self.y as int, abs(self.y as int));
        }
        Vector { x: self.x, y: if self.y < 0 { -self.y } else { self.y } }
    }

    /// Turns the direction downwards.
    pub fn point_down(self) -> (d: Vector)
        requires
            self.is_unit(),
        ensures
            d == self.downward(),
            d.is_unit(),
    {
        proof {
            lemma_unit_is_small(self);
            lemma_same_square(self.y as int, -abs(self.y as int));
        }
        Vector { x: self.x, y: if self.y > 0 { -self.y } else { self.y } }
    }

    /// Reverses the vertical part of the direction.
    pub fn flip_y(self) -> (d: Vector)
        requires
            self.is_unit(),
        ensures
            d == self.flipped_y(),
            d.is_unit(),
    {
        proof {
            lemma_unit_is_small(self);
            lemma_same_square(self.y as int, -(self.y as int));
        }
        Vector { x: self.x, y: -self.y }
    }
}

/// Neither coordinate of a unit direction is longer than `ONE` by more than
/// the rounding.
pub proof fn lemma_unit_is_small(d: Vector)
    requires
        d.is_unit(),
    ensures
        -(ONE + 3) < d.x < ONE + 3,
        -(ONE + 3) < d.y < ONE + 3,
{
    let x = d.x as int;
    let y = d.y as int;
    assert(x * x >= 0 && y * y >= 0) by (nonlinear_arith);
    assert(x >= 1_000_003 ==> x * x >= 1_000_003 * 1_000_003) by (nonlinear_arith);
    assert(x <= -1_000_003 ==> x * x >= 1_000_003 * 1_000_003) by (nonlinear_arith);
    assert(y >= 1_000_003 ==> y * y >= 1_000_003 * 1_000_003) by (nonlinear_arith);
    assert(y <= -1_000_003 ==> y * y >= 1_000_003 * 1_000_003) by (nonlinear_arith);
}

proof fn lemma_same_square(a: int, b: int)
    by (nonlinear_arith)
    requires
        a == b || a == -b,
    ensures
        a * a == b * b,
{
}

/// Whether `n` is the square root of `s`, rounded down.
pub open spec fn is_root(s: int, n: int) -> bool {
    n >= 0 && n * n <= s < (n + 1) * (n + 1)
}

/// Square root of `s`, rounded down.
pub open spec fn root(s: int) -> int {
    choose|n: int| is_root(s, n)
}

/// A number has one rounded square root at most.
pub proof fn lemma_root_unique(s: int, n: int, m: int)
    by (nonlinear_arith)
    requires
        is_root(s, n),
        is_root(s, m),
    ensures
        n == m,
{
    if n < m {
        assert((n + 1) * (n + 1) <= m * m);
    } else if m < n {
        assert((m + 1) * (m + 1) <= n * n);
    }
}

/// Square root of `s`, rounded down.
pub fn isqrt(s: u128) -> (n: u128)
    requires
        s < 0x400_0000_0000_0000_0000_0000_0000_0000,
    ensures
        is_root(s as int, n as int),
        n as int == root(s as int),
        n < 0x2000_0000_0000_0000,
{
    let mut lo: u128 = 0;
    let mut hi: u128 = 0x2000_0000_0000_0000;
    assert(0x2000_0000_0000_0000int * 0x2000_0000_0000_0000int
        == 0x400_0000_0000_0000_0000_0000_0000_0000int) by (nonlinear_arith);
    while hi - lo > 1
        invariant
            lo < hi <= 0x2000_0000_0000_0000,
            lo * lo <= s < hi * hi,
        decreases hi - lo,
    {
        let mid: u128 = lo + (hi - lo) / 2;
        assert(mid * mid < 0x2000_0000_0000_0000int * 0x2000_0000_0000_0000int)
            by (nonlinear_arith)
            requires
                0 <= mid < 0x2000_0000_0000_0000int,
        ;
        if mid * mid <= s {
            lo = mid;
        } else {
            hi = mid;
        }
    }
    proof {
        assert(is_root(s as int, lo as int));
        lemma_root_unique(s as int, lo as int, root(s as int));
    }
    lo
}

/// One coordinate of a vector brought to unit length: `v * ONE / n`, rounded
/// towards zero, where `n` is the length of the vector.
pub open spec fn unit_part(v: int, n: int) -> int {
    if v >= 0 {
        (v * ONE) / n
    } else {
        -((-v * ONE) / n)
    }
}

/// The vector `(x, y)` brought to unit length.
pub open spec fn normalized(x: int, y: int) -> Vector {
    let n = root(x * x + y * y);
    Vector { x: unit_part(x, n) as i64, y: unit_part(y, n) as i64 }
}

proof fn lemma_div_bounds(a: int, n: int, q: int)
    by (nonlinear_arith)
    requires
        a >= 0,
        n > 0,
        q == a / n,
    ensures
        q >= 0,
        q * n <= a < (q + 1) * n,
{
}

proof fn lemma_below_root(ax: int, ay: int, n: int)
    by (nonlinear_arith)
    requires
        ax >= 0,
        ay >= 0,
        is_root(ax * ax + ay * ay, n),
    ensures
        ax <= n,
        ay <= n,
{
    if ax >= n + 1 {
        assert(ax * ax >= (n + 1) * (n + 1));
    }
    if ay >= n + 1 {
        assert(ay * ay >= (n + 1) * (n + 1));
    }
}

proof fn lemma_quotient_small(q: int, a: int, n: int, k: int)
    by (nonlinear_arith)
    requires
        n > 0,
        k >= 0,
        0 <= a <= n,
        q >= 0,
        q * n <= a * k,
    ensures
        q <= k,
{
    if q >= k + 1 {
        assert(q * n >= (k + 1) * n);
        assert(a * k <= n * k);
    }
}

proof fn lemma_square_order(a: int, b: int)
    by (nonlinear_arith)
    requires
        0 <= a <= b,
    ensures
        a * a <= b * b,
{
}

proof fn lemma_square_strict(a: int, b: int)
    by (nonlinear_arith)
    requires
        0 <= a < b,
    ensures
        a * a < b * b,
{
}

proof fn lemma_norm_upper(q: int, n: int, k: int, t: int)
    by (nonlinear_arith)
    requires
        n >= k,
        k > 0,
        q >= 0,
        t >= 0,
        n * n * q <= k * k * t,
        t <= n * n + 2 * n,
    ensures
        q <= k * k + 2 * k,
{
    if q >= k * k + 2 * k + 1 {
        assert(n * n * q >= n * n * (k * k + 2 * k + 1));
        assert(n * n * (2 * k) >= n * k * (2 * k));
        assert(n * n >= k * k);
        assert(k * k * t <= k * k * (n * n + 2 * n));
    }
}

proof fn lemma_norm_lower(q: int, n: int, k: int, t: int)
    by (nonlinear_arith)
    requires
        n > 0,
        k > 0,
        t >= n * n,
        k * k * t < n * n * q,
    ensures
        k * k < q,
{
    if q <= k * k {
        assert(n * n * q <= n * n * (k * k));
        assert(k * k * t >= k * k * (n * n));
    }
}

/// Bringing a vector that is at least `ONE` long to unit length gives a
/// vector whose squared length is `ONE * ONE` up to `NORM_SLACK`.
pub proof fn lemma_normalized_is_unit(ax: int, ay: int, n: int, qx: int, qy: int)
    requires
        ax >= 0,
        ay >= 0,
        is_root(ax * ax + ay * ay, n),
        n >= ONE,
        qx == (ax * ONE) / n,
        qy == (ay * ONE) / n,
    ensures
        0 <= qx <= ONE,
        0 <= qy <= ONE,
        ONE * ONE - NORM_SLACK <= qx * qx + qy * qy <= ONE * ONE + NORM_SLACK,
{
    let k = ONE as int;
    let s = ax * ax + ay * ay;
    let a = ax * k;
    let b = ay * k;
    lemma_div_bounds(a, n, qx);
    lemma_div_bounds(b, n, qy);
    lemma_below_root(ax, ay, n);
    lemma_quotient_small(qx, ax, n, k);
    lemma_quotient_small(qy, ay, n, k);
    let q = qx * qx + qy * qy;
    assert(qx * qx >= 0 && qy * qy >= 0) by (nonlinear_arith);
    assert(a * a + b * b == k * k * s) by (nonlinear_arith)
        requires
            a == ax * k,
            b == ay * k,
            s == ax * ax + ay * ay,
    ;
    // from above
    lemma_square_order(qx * n, a);
    lemma_square_order(qy * n, b);
    assert((qx * n) * (qx * n) + (qy * n) * (qy * n) == n * n * q) by (nonlinear_arith)
        requires
            q == qx * qx + qy * qy,
    ;
    assert(s <= n * n + 2 * n) by (nonlinear_arith)
        requires
            s < (n + 1) * (n + 1),
    ;
    lemma_norm_upper(q, n, k, s);
    // from below
    lemma_square_strict(a, (qx + 1) * n);
    lemma_square_strict(b, (qy + 1) * n);
    let w = (qx + 1) * (qx + 1) + (qy + 1) * (qy + 1);
    assert(((qx + 1) * n) * ((qx + 1) * n) + ((qy + 1) * n) * ((qy + 1) * n) == n * n * w)
        by (nonlinear_arith)
        requires
            w == (qx + 1) * (qx + 1) + (qy + 1) * (qy + 1),
    ;
    lemma_norm_lower(w, n, k, s);
    assert(w == q + 2 * qx + 2 * qy + 2) by (nonlinear_arith)
        requires
            w == (qx + 1) * (qx + 1) + (qy + 1) * (qy + 1),
            q == qx * qx + qy * qy,
    ;
}

fn magnitude(v: i128) -> (a: u128)
    requires
        -NORMALIZE_MAX <= v <= NORMALIZE_MAX,
    ensures
        a == abs(v as int),
{
    if v < 0 {
        (-v) as u128
    } else {
        v as u128
    }
}

/// Brings the vector `(x, y)`, which is at least `ONE` long, to unit length.
pub fn normalize(x: i128, y: i128) -> (d: Vector)
    requires
        -NORMALIZE_MAX <= x <= NORMALIZE_MAX,
        -NORMALIZE_MAX <= y <= NORMALIZE_MAX,
        x * x + y * y >= ONE * ONE,
    ensures
        d == normalized(x as int, y as int),
        d.is_unit(),
        x >= 0 ==> d.x >= 0,
        x <= 0 ==> d.x <= 0,
        y >= 0 ==> d.y >= 0,
        y <= 0 ==> d.y <= 0,
{
    let ax = magnitude(x);
    let ay = magnitude(y);
    proof {
        lemma_square_order(ax as int, NORMALIZE_MAX as int);
        lemma_square_order(ay as int, NORMALIZE_MAX as int);
        lemma_same_square(x as int, ax as int);
        lemma_same_square(y as int, ay as int);
        assert(NORMALIZE_MAX * NORMALIZE_MAX == 0x100_0000_0000_0000_0000_0000_0000_0000int)
            by (nonlinear_arith);
    }
    let s: u128 = ax * ax + ay * ay;
    let n = isqrt(s);
    proof {
        if n < ONE as u128 {
            lemma_square_order(n as int + 1, ONE as int);
        }
        lemma_normalized_is_unit(
            ax as int,
            ay as int,
            n as int,
            (ax * ONE) / (n as int),
            (ay * ONE) / (n as int),
        );
    }
    let qx: u128 = (ax * (ONE as u128)) / n;
    let qy: u128 = (ay * (ONE as u128)) / n;
    let d = Vector {
        x: if x < 0 { -(qx as i64) } else { qx as i64 },
        y: if y < 0 { -(qy as i64) } else { qy as i64 },
    };
    proof {
        lemma_same_square(d.x as int, qx as int);
        lemma_same_square(d.y as int, qy as int);
    }
    d
}

/// Entry `i` of the sine table: the sine of `i * TABLE_STEP`, in units of
/// `ONE`, for the 65 angles from zero to a quarter turn.
#[verifier::opaque]
pub open spec fn sine_entry(i: int) -> int {
    if i <= 0 {
        0
    } else if i == 1 {
        24_541
    } else if i == 2 {
        49_068
    } else if i == 3 {
        73_565
    } else if i == 4 {
        98_017
    } else if i == 5 {
        122_411
    } else if i == 6 {
        146_730
    } else if i == 7 {
        170_962
    } else if i == 8 {
        195_090
    } else if i == 9 {
        219_101
    } else if i == 10 {
        242_980
    } else if i == 11 {
        266_713
    } else if i == 12 {
        290_285
    } else if i == 13 {
        313_682
    } else if i == 14 {
        336_890
    } else if i == 15 {
        359_895
    } else if i == 16 {
        382_683
    } else if i == 17 {
        405_241
    } else if i == 18 {
        427_555
    } else if i == 19 {
        449_611
    } else if i == 20 {
        471_397
    } else if i == 21 {
        492_898
    } else if i == 22 {
        514_103
    } else if i == 23 {
        534_998
    } else if i == 24 {
        555_570
    } else if i == 25 {
        575_808
    } else if i == 26 {
        595_699
    } else if i == 27 {
        615_232
    } else if i == 28 {
        634_393
    } else if i == 29 {
        653_173
    } else if i == 30 {
        671_559
    } else if i == 31 {
        689_541
    } else if i == 32 {
        707_107
    } else if i == 33 {
        724_247
    } else if i == 34 {
        740_951
    } else if i == 35 {
        757_209
    } else if i == 36 {
        773_010
    } else if i == 37 {
        788_346
    } else if i == 38 {
        803_208
    } else if i == 39 {
        817_585
    } else if i == 40 {
        831_470
    } else if i == 41 {
        844_854
    } else if i == 42 {
        857_729
    } else if i == 43 {
        870_087
    } else if i == 44 {
        881_921
    } else if i == 45 {
        893_224
    } else if i == 46 {
        903_989
    } else if i == 47 {
        914_210
    } else if i == 48 {
        923_880
    } else if i == 49 {
        932_993
    } else if i == 50 {
        941_544
    } else if i == 51 {
        949_528
    } else if i == 52 {
        956_940
    } else if i == 53 {
        963_776
    } else if i == 54 {
        970_031
    } else if i == 55 {
        975_702
    } else if i == 56 {
        980_785
    } else if i == 57 {
        985_278
    } else if i == 58 {
        989_177
    } else if i == 59 {
        992_480
    } else if i == 60 {
        995_185
    } else if i == 61 {
        997_290
    } else if i == 62 {
        998_795
    } else if i == 63 {
        999_699
    } else {
        1_000_000
    }
}

/// Entry `i` of the sine table.
pub fn sine_lookup(i: usize) -> (v: i64)
    ensures
        v == sine_entry(i as int),
{
    reveal(sine_entry);
    if i <= 0 {
        0
    } else if i == 1 {
        24_541
    } else if i == 2 {
        49_068
    } else if i == 3 {
        73_565
    } else if i == 4 {
        98_017
    } else if i == 5 {
        122_411
    } else if i == 6 {
        146_730
    } else if i == 7 {
        170_962
    } else if i == 8 {
        195_090
    } else if i == 9 {
        219_101
    } else if i == 10 {
        242_980
    } else if i == 11 {
        266_713
    } else if i == 12 {
        290_285
    } else if i == 13 {
        313_682
    } else if i == 14 {
        336_890
    } else if i == 15 {
        359_895
    } else if i == 16 {
        382_683
    } else if i == 17 {
        405_241
    } else if i == 18 {
        427_555
    } else if i == 19 {
        449_611
    } else if i == 20 {
        471_397
    } else if i == 21 {
        492_898
    } else if i == 22 {
        514_103
    } else if i == 23 {
        534_998
    } else if i == 24 {
        555_570
    } else if i == 25 {
        575_808
    } else if i == 26 {
        595_699
    } else if i == 27 {
        615_232
    } else if i == 28 {
        634_393
    } else if i == 29 {
        653_173
    } else if i == 30 {
        671_559
    } else if i == 31 {
        689_541
    } else if i == 32 {
        707_107
    } else if i == 33 {
        724_247
    } else if i == 34 {
        740_951
    } else if i == 35 {
        757_209
    } else if i == 36 {
        773_010
    } else if i == 37 {
        788_346
    } else if i == 38 {
        803_208
    } else if i == 39 {
        817_585
    } else if i == 40 {
        831_470
    } else if i == 41 {
        844_854
    } else if i == 42 {
        857_729
    } else if i == 43 {
        870_087
    } else if i == 44 {
        881_921
    } else if i == 45 {
        893_224
    } else if i == 46 {
        903_989
    } else if i == 47 {
        914_210
    } else if i == 48 {
        923_880
    } else if i == 49 {
        932_993
    } else if i == 50 {
        941_544
    } else if i == 51 {
        949_528
    } else if i == 52 {
        956_940
    } else if i == 53 {
        963_776
    } else if i == 54 {
        970_031
    } else if i == 55 {
        975_702
    } else if i == 56 {
        980_785
    } else if i == 57 {
        985_278
    } else if i == 58 {
        989_177
    } else if i == 59 {
        992_480
    } else if i == 60 {
        995_185
    } else if i == 61 {
        997_290
    } else if i == 62 {
        998_795
    } else if i == 63 {
        999_699
    } else {
        1_000_000
    }
}

/// The table rises from 0 to `ONE`.
pub proof fn lemma_table_rises(i: int)
    requires
        0 <= i <= 64,
    ensures
        0 <= sine_entry(i) <= sine_entry(i + 1) <= ONE,
        i < 64 ==> sine_entry(i) < sine_entry(i + 1),
        i >= 1 ==> sine_entry(i) >= 24_541,
        sine_entry(0) == 0,
        sine_entry(64) == ONE,
{
    reveal(sine_entry);
}

/// Sine of an angle `t` from zero to a quarter turn, in units of `ONE`: the
/// table entries on both sides of `t`, joined by a straight line.
#[verifier::opaque]
pub open spec fn quarter_sine(t: int) -> int {
    let i = t / (TABLE_STEP as int);
    let f = t % (TABLE_STEP as int);
    sine_entry(i) + ((sine_entry(i + 1) - sine_entry(i)) * f) / (TABLE_STEP as int)
}

/// Sine of any angle, in units of `ONE`, before it is brought to unit
/// length together with the cosine.
#[verifier::opaque]
pub open spec fn raw_sin(a: int) -> int {
    let r = a % (TAU as int);
    let q = r / (FRAC_PI_2 as int);
    let t = r % (FRAC_PI_2 as int);
    if q == 0 {
        quarter_sine(t)
    } else if q == 1 {
        quarter_sine(FRAC_PI_2 - t)
    } else if q == 2 {
        -quarter_sine(t)
    } else {
        -quarter_sine(FRAC_PI_2 - t)
    }
}

/// Cosine of any angle: the sine a quarter turn later.
pub open spec fn raw_cos(a: int) -> int {
    raw_sin(a + FRAC_PI_2)
}

/// The unit direction at the angle `a`, counted from the positive `x` axis
/// towards the positive `y` axis.
pub open spec fn from_angle_spec(a: int) -> Vector {
    normalized(raw_cos(a) * ONE, raw_sin(a) * ONE)
}

/// The direction `d` turned by the angle that the unit direction `rot` makes
/// with the positive `x` axis, brought back to unit length.
pub open spec fn rotated(d: Vector, rot: Vector) -> Vector {
    normalized(d.x * rot.x - d.y * rot.y, d.x * rot.y + d.y * rot.x)
}

proof fn lemma_quarter_sine_bounds(t: int)
    requires
        0 <= t <= FRAC_PI_2,
    ensures
        sine_entry(t / (TABLE_STEP as int)) <= quarter_sine(t) <= sine_entry(
            t / (TABLE_STEP as int) + 1,
        ),
        0 <= quarter_sine(t) <= ONE,
        t >= TABLE_STEP ==> quarter_sine(t) >= 24_541,
{
    reveal(quarter_sine);
    let i = t / (TABLE_STEP as int);
    let f = t % (TABLE_STEP as int);
    let d = sine_entry(i + 1) - sine_entry(i);
    lemma_table_rises(i);
    assert(0 <= d * f <= d * TABLE_STEP) by (nonlinear_arith)
        requires
            d >= 0,
            0 <= f < TABLE_STEP,
    ;
}

fn quarter_sine_exec(t: i64) -> (v: i64)
    requires
        0 <= t <= FRAC_PI_2,
    ensures
        v == quarter_sine(t as int),
        0 <= v <= ONE,
{
    proof {
        reveal(quarter_sine);
        lemma_quarter_sine_bounds(t as int);
    }
    let i: usize = (t / TABLE_STEP) as usize;
    let f: i64 = t % TABLE_STEP;
    let lo = sine_lookup(i);
    let hi = sine_lookup(i + 1);
    proof {
        lemma_table_rises(i as int);
        assert(0 <= (hi - lo) * f <= (hi - lo) * TABLE_STEP) by (nonlinear_arith)
            requires
                hi - lo >= 0,
                0 <= f < TABLE_STEP,
        ;
    }
    lo + ((hi - lo) * f) / TABLE_STEP
}

/// The angle brought into one turn, from zero up to a full turn.
pub fn wrap_angle(a: i64) -> (r: i64)
    ensures
        r == (a as int) % (TAU as int),
        0 <= r < TAU,
{
    if a >= 0 {
        a % TAU
    } else {
        let m: i128 = (-(a as i128)) % (TAU as i128);
        if m == 0 {
            0
        } else {
            (TAU as i128 - m) as i64
        }
    }
}

fn raw_sin_exec(r: i64) -> (v: i64)
    requires
        0 <= r < TAU,
    ensures
        v == raw_sin(r as int),
        -ONE <= v <= ONE,
{
    reveal(raw_sin);
    let q = r / FRAC_PI_2;
    let t = r % FRAC_PI_2;
    if q == 0 {
        quarter_sine_exec(t)
    } else if q == 1 {
        quarter_sine_exec(FRAC_PI_2 - t)
    } else if q == 2 {
        -quarter_sine_exec(t)
    } else {
        -quarter_sine_exec(FRAC_PI_2 - t)
    }
}

/// Sine and cosine of an angle by the quarter `q` of the turn in which it
/// lies and its place `t` within that quarter.
proof fn lemma_raw_shape(a: int, q: int, t: int)
    requires
        q == (a % (TAU as int)) / (FRAC_PI_2 as int),
        t == (a % (TAU as int)) % (FRAC_PI_2 as int),
    ensures
        0 <= q < 4,
        0 <= t < FRAC_PI_2,
        raw_sin(a) == (if q == 0 {
            quarter_sine(t)
        } else if q == 1 {
            quarter_sine(FRAC_PI_2 - t)
        } else if q == 2 {
            -quarter_sine(t)
        } else {
            -quarter_sine(FRAC_PI_2 - t)
        }),
        raw_cos(a) == (if q == 0 {
            quarter_sine(FRAC_PI_2 - t)
        } else if q == 1 {
            -quarter_sine(t)
        } else if q == 2 {
            -quarter_sine(FRAC_PI_2 - t)
        } else {
            quarter_sine(t)
        }),
{
    reveal(raw_sin);
    let r = a % (TAU as int);
    let r2 = (a + FRAC_PI_2) % (TAU as int);
    assert(r2 == if r + FRAC_PI_2 >= TAU {
        r + FRAC_PI_2 - TAU
    } else {
        r + FRAC_PI_2
    });
    assert(r2 % (FRAC_PI_2 as int) == t);
    assert(r2 / (FRAC_PI_2 as int) == if q == 3 {
        0
    } else {
        q + 1
    });
}

/// Sine and cosine depend on the angle within its turn only.
proof fn lemma_raw_periodic(a: int, r: int, r2: int)
    requires
        r == a % (TAU as int),
        r2 == (if r + FRAC_PI_2 >= TAU {
            r + FRAC_PI_2 - TAU
        } else {
            r + FRAC_PI_2
        }),
    ensures
        raw_sin(r) == raw_sin(a),
        raw_sin(r2) == raw_cos(a),
{
    let q = r / (FRAC_PI_2 as int);
    let t = r % (FRAC_PI_2 as int);
    lemma_raw_shape(a, q, t);
    assert(r % (TAU as int) == r);
    lemma_raw_shape(r, q, t);
    assert(r2 % (TAU as int) == r2);
    let q2 = r2 / (FRAC_PI_2 as int);
    let t2 = r2 % (FRAC_PI_2 as int);
    assert(t2 == t);
    assert(q2 == if q == 3 {
        0
    } else {
        q + 1
    });
    lemma_raw_shape(r2, q2, t2);
}

/// Sine and cosine of an angle are never both zero.
proof fn lemma_raw_not_zero(a: int)
    ensures
        raw_cos(a) * raw_cos(a) + raw_sin(a) * raw_sin(a) >= 1,
        -ONE <= raw_cos(a) <= ONE,
        -ONE <= raw_sin(a) <= ONE,
{
    let r = a % (TAU as int);
    let q = r / (FRAC_PI_2 as int);
    let t = r % (FRAC_PI_2 as int);
    lemma_raw_shape(a, q, t);
    lemma_quarter_sine_bounds(t);
    lemma_quarter_sine_bounds(FRAC_PI_2 - t);
    let c = raw_cos(a);
    let s = raw_sin(a);
    assert(c * c + s * s >= 1) by (nonlinear_arith)
        requires
            c != 0 || s != 0,
    ;
}

/// The direction at any angle has unit length.
pub proof fn lemma_from_angle_is_unit(a: int)
    ensures
        from_angle_spec(a).is_unit(),
{
    lemma_raw_not_zero(a);
    let c = raw_cos(a);
    let s = raw_sin(a);
    let x = c * ONE;
    let y = s * ONE;
    assert(x * x + y * y >= ONE * ONE) by (nonlinear_arith)
        requires
            x == c * ONE,
            y == s * ONE,
            c * c + s * s >= 1,
    ;
    lemma_normalized_unit(x, y);
}

/// A vector that is at least `ONE` long has unit length once normalized.
pub proof fn lemma_normalized_unit(x: int, y: int)
    requires
        x * x + y * y >= ONE * ONE,
    ensures
        normalized(x, y).is_unit(),
{
    let s = x * x + y * y;
    lemma_root_exists(s);
    let n = root(s);
    let ax = abs(x);
    let ay = abs(y);
    lemma_same_square(x, ax);
    lemma_same_square(y, ay);
    if n < ONE {
        lemma_square_order(n + 1, ONE as int);
    }
    let qx = (ax * ONE) / n;
    let qy = (ay * ONE) / n;
    lemma_normalized_is_unit(ax, ay, n, qx, qy);
    let d = normalized(x, y);
    assert(unit_part(x, n) == qx || unit_part(x, n) == -qx);
    assert(unit_part(y, n) == qy || unit_part(y, n) == -qy);
    lemma_same_square(d.x as int, qx);
    lemma_same_square(d.y as int, qy);
}

/// Every number that is not negative has a rounded square root.
pub proof fn lemma_root_exists(s: int)
    requires
        s >= 0,
    ensures
        is_root(s, root(s)),
{
    lemma_root_search(s, 0);
}

proof fn lemma_root_search(s: int, n: int)
    requires
        0 <= n,
        n * n <= s,
    ensures
        exists|m: int| is_root(s, m),
    decreases s - n * n,
{
    if s < (n + 1) * (n + 1) {
        assert(is_root(s, n));
    } else {
        assert((n + 1) * (n + 1) > n * n) by (nonlinear_arith)
            requires
                n >= 0,
        ;
        lemma_root_search(s, n + 1);
    }
}

/// The unit direction at the angle `angle`.
pub fn from_angle(angle: i64) -> (d: Vector)
    ensures
        d == from_angle_spec(angle as int),
        d.is_unit(),
{
    let r = wrap_angle(angle);
    let r2 = if r + FRAC_PI_2 >= TAU {
        r + FRAC_PI_2 - TAU
    } else {
        r + FRAC_PI_2
    };
    let s = raw_sin_exec(r);
    let c = raw_sin_exec(r2);
    proof {
        lemma_raw_not_zero(angle as int);
        lemma_raw_periodic(angle as int, r as int, r2 as int);
        let ci = c as int;
        let si = s as int;
        assert((ci * ONE) * (ci * ONE) + (si * ONE) * (si * ONE) >= ONE * ONE) by (nonlinear_arith)
            requires
                ci * ci + si * si >= 1,
        ;
    }
    normalize((c as i128) * (ONE as i128), (s as i128) * (ONE as i128))
}

impl Vector {
    /// Turns the direction by the angle that the unit direction `rot` makes
    /// with the positive `x` axis.
    pub fn rotate(self, rot: Vector) -> (d: Vector)
        requires
            self.is_unit(),
            rot.is_unit(),
        ensures
            d == rotated(self, rot),
            d.is_unit(),
    {
        proof {
            lemma_unit_is_small(self);
            lemma_unit_is_small(rot);
        }
        let ax = self.x as i128;
        let ay = self.y as i128;
        let bx = rot.x as i128;
        let by = rot.y as i128;
        proof {
            lemma_product_small(ax as int, bx as int);
            lemma_product_small(ay as int, by as int);
            lemma_product_small(ax as int, by as int);
            lemma_product_small(ay as int, bx as int);
        }
        let x: i128 = ax * bx - ay * by;
        let y: i128 = ax * by + ay * bx;
        proof {
            lemma_product_of_norms(ax as int, ay as int, bx as int, by as int);
        }
        normalize(x, y)
    }
}

proof fn lemma_product_small(a: int, b: int)
    by (nonlinear_arith)
    requires
        -1_000_003 < a < 1_000_003,
        -1_000_003 < b < 1_000_003,
    ensures
        -1_000_003 * 1_000_003 <= a * b <= 1_000_003 * 1_000_003,
{
}

proof fn lemma_square_of_product(a: int, b: int)
    by (nonlinear_arith)
    ensures
        (a * b) * (a * b) == (a * a) * (b * b),
{
}

proof fn lemma_cross_products(a: int, b: int, c: int, d: int)
    by (nonlinear_arith)
    ensures
        (a * b) * (c * d) == (a * d) * (c * b),
{
}

proof fn lemma_sum_of_squares(p: int, q: int, r: int, t: int)
    by (nonlinear_arith)
    requires
        p * q == r * t,
    ensures
        (p - q) * (p - q) + (r + t) * (r + t) == p * p + q * q + r * r + t * t,
{
}

proof fn lemma_four_products(m1: int, m2: int, n1: int, n2: int)
    by (nonlinear_arith)
    ensures
        (m1 + m2) * (n1 + n2) == m1 * n1 + m2 * n2 + m1 * n2 + m2 * n1,
{
}

proof fn lemma_product_grows(m: int, n: int, k: int)
    by (nonlinear_arith)
    requires
        0 <= k <= m,
        0 <= k <= n,
    ensures
        m * n >= k * k,
{
}

/// The squared length of a product of two complex numbers is the product of
/// their squared lengths, so the product of two unit directions is at least
/// `ONE` long.
proof fn lemma_product_of_norms(ax: int, ay: int, bx: int, by: int)
    requires
        ONE * ONE - NORM_SLACK <= ax * ax + ay * ay,
        ONE * ONE - NORM_SLACK <= bx * bx + by * by,
    ensures
        (ax * bx - ay * by) * (ax * bx - ay * by) + (ax * by + ay * bx) * (ax * by + ay * bx) >= ONE
            * ONE,
        (ax * bx - ay * by) * (ax * bx - ay * by) + (ax * by + ay * bx) * (ax * by + ay * bx) == (ax
            * ax + ay * ay) * (bx * bx + by * by),
{
    lemma_cross_products(ax, bx, ay, by);
    lemma_sum_of_squares(ax * bx, ay * by, ax * by, ay * bx);
    lemma_square_of_product(ax, bx);
    lemma_square_of_product(ay, by);
    lemma_square_of_product(ax, by);
    lemma_square_of_product(ay, bx);
    lemma_four_products(ax * ax, ay * ay, bx * bx, by * by);
    let k = ONE * ONE - NORM_SLACK;
    lemma_product_grows(ax * ax + ay * ay, bx * bx + by * by, k);
    assert(k * k >= ONE * ONE) by (nonlinear_arith)
        requires
            k == 999_995_000_000,
            ONE == 1_000_000,
    ;
}

/// Turning a unit direction by a unit direction gives a unit direction.
pub proof fn lemma_rotated_is_unit(d: Vector, rot: Vector)
    requires
        d.is_unit(),
        rot.is_unit(),
    ensures
        rotated(d, rot).is_unit(),
{
    lemma_product_of_norms(d.x as int, d.y as int, rot.x as int, rot.y as int);
    lemma_normalized_unit(d.x * rot.x - d.y * rot.y, d.x * rot.y + d.y * rot.x);
}

/// The table does not fall: a later entry is no less than an earlier one.
pub proof fn lemma_table_grows(i: int, j: int)
    requires
        0 <= i <= j <= 64,
    ensures
        sine_entry(i) <= sine_entry(j),
    decreases j - i,
{
    if i < j {
        lemma_table_grows(i, j - 1);
        lemma_table_rises(j - 1);
    }
}

/// The sine of an angle between a sixteenth of a half turn and a quarter
/// turn is at least that of a sixteenth of a half turn.
proof fn lemma_quarter_sine_steep(t: int)
    requires
        FRAC_PI_16 <= t <= FRAC_PI_2,
    ensures
        quarter_sine(t) >= 195_090,
{
    lemma_quarter_sine_bounds(t);
    lemma_table_grows(8, t / (TABLE_STEP as int));
    reveal(sine_entry);
}

/// A direction that rises at an angle of at least a sixteenth of a half
/// turn from the horizontal, to either side, points upwards by a good part
/// of its length.
pub proof fn lemma_steep_angle_rises(a: int)
    requires
        FRAC_PI_16 <= a <= PI - FRAC_PI_16,
    ensures
        from_angle_spec(a).y >= 97_000,
{
    let r = a % (TAU as int);
    assert(r == a);
    let q = r / (FRAC_PI_2 as int);
    let t = r % (FRAC_PI_2 as int);
    lemma_raw_shape(a, q, t);
    if q == 0 {
        lemma_quarter_sine_steep(t);
    } else {
        lemma_quarter_sine_steep(FRAC_PI_2 - t);
    }
    lemma_raw_not_zero(a);
    let c = raw_cos(a);
    let s = raw_sin(a);
    assert(s >= 195_090);
    let x = c * ONE;
    let y = s * ONE;
    let total = x * x + y * y;
    assert(ONE * ONE <= total <= 2 * ONE * ONE * ONE * ONE) by (nonlinear_arith)
        requires
            x == c * ONE,
            y == s * ONE,
            total == x * x + y * y,
            -ONE <= c <= ONE,
            195_090 <= s <= ONE,
    ;
    lemma_root_exists(total);
    let n = root(total);
    assert(0 < n <= 2 * ONE * ONE) by (nonlinear_arith)
        requires
            is_root(total, n),
            ONE * ONE <= total <= 2 * ONE * ONE * ONE * ONE,
    ;
    let rise = (y * ONE) / n;
    assert(97_000 <= rise <= 1_000_000_000_000_000_000) by (nonlinear_arith)
        requires
            rise == (y * ONE) / n,
            y == s * ONE,
            195_090 <= s <= ONE,
            0 < n <= 2 * ONE * ONE,
            ONE == 1_000_000,
    ;
    assert(unit_part(y, n) == rise);
}

/// Product of two vectors: the product of their lengths and of the cosine
/// of the angle between them.
pub open spec fn dot(a: Vector, b: Vector) -> int {
    a.x * b.x + a.y * b.y
}

/// Least product of a unit direction with what a turn by no more than a
/// quarter of a half turn makes of it: the cosine of a quarter of a half
/// turn, in units of `ONE * ONE`, less the rounding of directions.
pub const QUARTER_DOT: i64 = 707_100_000_000;

/// The sine between zero and a quarter turn does not fall.
proof fn lemma_quarter_sine_grows(t1: int, t2: int)
    requires
        0 <= t1 <= t2 <= FRAC_PI_2,
    ensures
        quarter_sine(t1) <= quarter_sine(t2),
{
    let i1 = t1 / (TABLE_STEP as int);
    let i2 = t2 / (TABLE_STEP as int);
    if i1 == i2 {
        reveal(quarter_sine);
        let d = sine_entry(i1 + 1) - sine_entry(i1);
        let f1 = t1 % (TABLE_STEP as int);
        let f2 = t2 % (TABLE_STEP as int);
        lemma_table_rises(i1);
        assert(d * f1 <= d * f2) by (nonlinear_arith)
            requires
                d >= 0,
                f1 <= f2,
        ;
    } else {
        lemma_quarter_sine_bounds(t1);
        lemma_quarter_sine_bounds(t2);
        lemma_table_grows(i1 + 1, i2);
    }
}

/// At an angle of no more than a quarter of a half turn to either side, the
/// cosine is positive and no less than the sine is long.
proof fn lemma_flat_angle(a: int)
    requires
        -FRAC_PI_4 <= a <= FRAC_PI_4,
    ensures
        raw_cos(a) >= abs(raw_sin(a)),
        raw_cos(a) >= 1,
{
    let r = a % (TAU as int);
    let q = r / (FRAC_PI_2 as int);
    let t = r % (FRAC_PI_2 as int);
    lemma_raw_shape(a, q, t);
    lemma_raw_not_zero(a);
    lemma_quarter_sine_bounds(t);
    lemma_quarter_sine_bounds(FRAC_PI_2 - t);
    if a >= 0 {
        assert(r == a && q == 0 && t == a);
        lemma_quarter_sine_grows(t, FRAC_PI_2 - t);
    } else {
        assert(r == a + TAU && q == 3 && t == a + FRAC_PI_2);
        lemma_quarter_sine_grows(FRAC_PI_2 - t, t);
    }
    let c = raw_cos(a);
    let s = raw_sin(a);
    assert(c >= 1) by (nonlinear_arith)
        requires
            c >= abs(s),
            c * c + s * s >= 1,
    ;
}

/// The parts of a vector brought to unit length, for a vector that is at
/// least `ONE` long: each is the part of the vector times `ONE` by the
/// length, rounded towards zero, and no longer than `ONE`.
proof fn lemma_normalized_parts(x: int, y: int)
    requires
        x * x + y * y >= ONE * ONE,
    ensures
        is_root(x * x + y * y, root(x * x + y * y)),
        root(x * x + y * y) >= ONE,
        normalized(x, y).x == unit_part(x, root(x * x + y * y)),
        normalized(x, y).y == unit_part(y, root(x * x + y * y)),
        -ONE <= unit_part(x, root(x * x + y * y)) <= ONE,
        -ONE <= unit_part(y, root(x * x + y * y)) <= ONE,
        normalized(x, y).is_unit(),
{
    let s = x * x + y * y;
    lemma_root_exists(s);
    let n = root(s);
    let ax = abs(x);
    let ay = abs(y);
    lemma_same_square(x, ax);
    lemma_same_square(y, ay);
    if n < ONE {
        lemma_square_order(n + 1, ONE as int);
    }
    lemma_normalized_is_unit(ax, ay, n, (ax * ONE) / n, (ay * ONE) / n);
    lemma_normalized_unit(x, y);
}

/// The direction at an angle of no more than a quarter of a half turn to
/// either side points along the positive `x` axis by the cosine of a
/// quarter of a half turn at least.
pub proof fn lemma_flat_angle_cosine(a: int)
    requires
        -FRAC_PI_4 <= a <= FRAC_PI_4,
    ensures
        from_angle_spec(a).x >= 707_106,
        from_angle_spec(a).is_unit(),
{
    lemma_flat_angle(a);
    lemma_raw_not_zero(a);
    let c = raw_cos(a);
    let s = raw_sin(a);
    let x = c * ONE;
    let y = s * ONE;
    assert(x * x + y * y >= ONE * ONE) by (nonlinear_arith)
        requires
            x == c * ONE,
            y == s * ONE,
            c * c + s * s >= 1,
    ;
    lemma_normalized_parts(x, y);
    let n = root(x * x + y * y);
    let r = from_angle_spec(a);
    let px = (x * ONE) / n;
    let py = (abs(y) * ONE) / n;
    assert(r.x == px);
    assert(r.y == py || r.y == -py);
    assert(0 <= py <= px) by (nonlinear_arith)
        requires
            px == (x * ONE) / n,
            py == (abs(y) * ONE) / n,
            0 <= abs(y) <= x,
            n > 0,
            ONE == 1_000_000,
    ;
    lemma_same_square(r.y as int, py);
    lemma_square_order(py, px);
    assert(px >= 707_106) by (nonlinear_arith)
        requires
            px >= 0,
            2 * (px * px) >= 999_995_000_000,
    ;
}

/// `v * ONE` is less than the length away from the length times the part
/// that `v` has in the unit vector.
proof fn lemma_part_error(v: int, n: int)
    requires
        n > 0,
    ensures
        -n < v * ONE - unit_part(v, n) * n < n,
{
    if v >= 0 {
        let q = (v * ONE) / n;
        lemma_div_bounds(v * ONE, n, q);
        assert((q + 1) * n == q * n + n) by (nonlinear_arith);
        assert(unit_part(v, n) == q);
    } else {
        let w = -v * ONE;
        let q = w / n;
        lemma_div_bounds(w, n, q);
        assert((q + 1) * n == q * n + n) by (nonlinear_arith);
        assert(unit_part(v, n) == -q);
        assert((-q) * n == -(q * n)) by (nonlinear_arith);
        assert(v * ONE == -w) by (nonlinear_arith)
            requires
                w == -v * ONE,
        ;
    }
}

proof fn lemma_bounded_product(a: int, b: int, ka: int, kb: int)
    by (nonlinear_arith)
    requires
        -ka <= a <= ka,
        -kb <= b <= kb,
    ensures
        a * b <= ka * kb,
{
}

proof fn lemma_product_split(a: int, r: int, n: int)
    by (nonlinear_arith)
    ensures
        (a * r) * n == a * (r * n),
{
}

proof fn lemma_product_less(a: int, x: int, k: int, e: int)
    by (nonlinear_arith)
    ensures
        a * (x * k - e) == k * (a * x) - a * e,
{
}

/// The product of `d` with the rounded unit vector along `(x, y)`, times
/// the length `n`, in terms of the product with `(x, y)` and the rounding
/// errors `ex` and `ey`.
proof fn lemma_dot_by_parts(
    dx: int,
    dy: int,
    x: int,
    y: int,
    rx: int,
    ry: int,
    n: int,
    ex: int,
    ey: int,
)
    requires
        ex == x * ONE - rx * n,
        ey == y * ONE - ry * n,
    ensures
        (dx * rx + dy * ry) * n == ONE * (dx * x + dy * y) - (dx * ex + dy * ey),
{
    lemma_product_split(dx, rx, n);
    lemma_product_split(dy, ry, n);
    lemma_product_less(dx, x, ONE as int, ex);
    lemma_product_less(dy, y, ONE as int, ey);
    assert((dx * rx + dy * ry) * n == (dx * rx) * n + (dy * ry) * n) by (nonlinear_arith);
    assert(ONE * (dx * x + dy * y) == ONE * (dx * x) + ONE * (dy * y)) by (nonlinear_arith);
}

/// The product of a vector with itself turned is the cosine times its
/// squared length.
proof fn lemma_dot_of_turned(dx: int, dy: int, c: int, s: int)
    by (nonlinear_arith)
    ensures
        dx * (dx * c - dy * s) + dy * (dx * s + dy * c) == c * (dx * dx + dy * dy),
{
}

proof fn lemma_near_step_one(a: int, n: int, dd: int, e: int, b: int)
    by (nonlinear_arith)
    requires
        n > 0,
        a <= dd * n + e * n,
        dd + e <= b,
    ensures
        a <= n * b,
{
}

proof fn lemma_near_step_two(a: int, n: int, b: int, t: int)
    by (nonlinear_arith)
    requires
        0 <= a <= n * b,
        n > 0,
        b > 0,
        n * n <= t,
    ensures
        a * a <= t * (b * b),
{
    assert(a * a <= (n * b) * (n * b));
    assert((n * b) * (n * b) == (n * n) * (b * b));
    assert((n * n) * (b * b) <= t * (b * b));
}

proof fn lemma_near_step_three(k: int, nn: int, m: int, b: int)
    by (nonlinear_arith)
    requires
        nn > 0,
        (k * nn) * (k * nn) <= (nn * m) * (b * b),
    ensures
        k * k * nn <= m * (b * b),
{
    assert((k * nn) * (k * nn) == nn * (k * k * nn));
    assert((nn * m) * (b * b) == nn * (m * (b * b)));
}

proof fn lemma_near_step_four(c: int, nn: int, m: int)
    by (nonlinear_arith)
    requires
        c >= 707_106,
        nn >= 999_995_000_000,
        0 < m <= 1_000_005_000_000,
    ensures
        (1_000_000 * c) * (1_000_000 * c) * nn > m * (707_102_000_004 * 707_102_000_004),
{
    assert((1_000_000 * c) * (1_000_000 * c) >= 707_106_000_000 * 707_106_000_000);
    assert((1_000_000 * c) * (1_000_000 * c) * nn >= (707_106_000_000 * 707_106_000_000)
        * 999_995_000_000);
    assert(m * (707_102_000_004 * 707_102_000_004) <= 1_000_005_000_000 * (707_102_000_004
        * 707_102_000_004));
}

/// A unit direction turned by a unit direction whose `x` is at least the
/// cosine of a quarter of a half turn stays within a quarter of a half turn
/// of itself: the product of the two is at least `QUARTER_DOT`.
pub proof fn lemma_turn_stays_near(d: Vector, rot: Vector)
    requires
        d.is_unit(),
        rot.is_unit(),
        rot.x >= 707_106,
    ensures
        dot(d, rotated(d, rot)) >= QUARTER_DOT,
        rotated(d, rot).is_unit(),
{
    let dx = d.x as int;
    let dy = d.y as int;
    let c = rot.x as int;
    let s = rot.y as int;
    let x = dx * c - dy * s;
    let y = dx * s + dy * c;
    let nn = dx * dx + dy * dy;
    let m = c * c + s * s;
    let t = x * x + y * y;
    lemma_product_of_norms(dx, dy, c, s);
    assert(t == nn * m);
    lemma_normalized_parts(x, y);
    let n = root(t);
    let r = rotated(d, rot);
    let rx = unit_part(x, n);
    let ry = unit_part(y, n);
    assert(r.x == rx && r.y == ry);
    lemma_part_error(x, n);
    lemma_part_error(y, n);
    let ex = x * ONE - rx * n;
    let ey = y * ONE - ry * n;
    lemma_dot_by_parts(dx, dy, x, y, rx, ry, n, ex, ey);
    lemma_dot_of_turned(dx, dy, c, s);
    lemma_unit_is_small(d);
    lemma_bounded_product(dx, ex, ONE + 2, n);
    lemma_bounded_product(dy, ey, ONE + 2, n);
    let dd = dx * rx + dy * ry;
    let a = ONE * (c * nn);
    let e = 2 * (ONE + 2);
    assert((ONE + 2) * n + (ONE + 2) * n == e * n) by (nonlinear_arith)
        requires
            e == 2 * (ONE + 2),
    ;
    assert(a <= dd * n + e * n);
    if dd < QUARTER_DOT {
        let b = QUARTER_DOT + e;
        lemma_near_step_one(a, n, dd, e, b);
        assert(a >= 0) by (nonlinear_arith)
            requires
                a == ONE * (c * nn),
                c >= 0,
                nn >= 0,
        ;
        lemma_near_step_two(a, n, b, t);
        assert(a == (ONE * c) * nn) by (nonlinear_arith)
            requires
                a == ONE * (c * nn),
        ;
        lemma_near_step_three(ONE * c, nn, m, b);
        lemma_near_step_four(c, nn, m);
        assert(false);
    }
}

} // verus!

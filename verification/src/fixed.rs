//! Numbers with sixteen binary places after the point.
//!
//! A result beyond their range is the end of the range; a quotient is rounded down.
use vstd::prelude::*;

use crate::scalar::{clamp_int, Scalar};

verus! {

/// A number of units of `1 / 65536`.
#[derive(Clone, Copy, Debug, PartialEq, Eq, Structural)]
pub struct Fixed {
    pub raw: i32,
}

/// The number nearest to some units.
pub open spec fn held(units: int) -> Fixed {
    Fixed { raw: clamp_int(units, i32::MIN as int, i32::MAX as int) as i32 }
}

fn hold(units: i64) -> (r: Fixed)
    ensures
        r == held(units as int),
{
    if units < -2147483648 {
        Fixed { raw: -2147483648 }
    } else if units > 2147483647 {
        Fixed { raw: 2147483647 }
    } else {
        Fixed { raw: units as i32 }
    }
}

/// A quotient rounded down; nothing, if the divisor is nothing.
pub open spec fn quotient(a: int, b: int) -> int {
    if b > 0 {
        a / b
    } else if b < 0 {
        (-a) / (-b)
    } else {
        0
    }
}

fn divide(a: i64, b: i64) -> (r: i64)
    requires
        -0x1000_0000_0000_0000 <= a <= 0x1000_0000_0000_0000,
        -0x1000_0000_0000_0000 <= b <= 0x1000_0000_0000_0000,
    ensures
        r == quotient(a as int, b as int),
        -0x1000_0000_0000_0001 <= r <= 0x1000_0000_0000_0001,
{
    if b == 0 {
        return 0;
    }
    let (n, d): (i64, i64) = if b > 0 {
        (a, b)
    } else {
        (-a, -b)
    };
    if n >= 0 {
        assert(0 <= n / d <= n) by (nonlinear_arith)
            requires
                n >= 0,
                d > 0,
        ;
        n / d
    } else {
        let m: i64 = -n;
        let q: i64 = (m - 1) / d;
        assert(0 <= q <= m - 1) by (nonlinear_arith)
            requires
                q == (m - 1) / (d as int),
                m >= 1,
                d > 0,
        ;
        assert((n as int) / (d as int) == -1 - q) by (nonlinear_arith)
            requires
                n == -m,
                m >= 1,
                d > 0,
                q == (m - 1) / (d as int),
        ;
        -1 - q
    }
}

/// The largest number whose square is no more than `n`.
pub open spec fn is_root(n: int, r: int) -> bool {
    r >= 0 && r * r <= n < (r + 1) * (r + 1)
}

/// The square root of a whole number, rounded down.
pub open spec fn whole_root(n: int) -> int {
    choose|r: int| is_root(n, r)
}

proof fn lemma_root_is_unique(n: int, a: int, b: int)
    requires
        is_root(n, a),
        is_root(n, b),
    ensures
        a == b,
{
    if a < b {
        assert((a + 1) * (a + 1) <= b * b) by (nonlinear_arith)
            requires
                0 <= a < b,
        ;
    }
    if b < a {
        assert((b + 1) * (b + 1) <= a * a) by (nonlinear_arith)
            requires
                0 <= b < a,
        ;
    }
}

/// The square root of a whole number is the one number whose square is no more, and that of the
/// next is more.
pub proof fn lemma_whole_root(n: int, r: int)
    requires
        r >= 0,
        r * r <= n < (r + 1) * (r + 1) || r * r == n,
    ensures
        whole_root(n) == r,
{
    if r * r == n {
        assert((r + 1) * (r + 1) == r * r + 2 * r + 1) by (nonlinear_arith);
    }
    assert(is_root(n, r));
    lemma_root_is_unique(n, r, whole_root(n));
}

/// A whole number that is not negative has a square root, which is not negative either.
pub proof fn lemma_root_is_real(n: int)
    requires
        n >= 0,
    ensures
        whole_root(n) >= 0,
{
    lemma_root_exists(n);
}

proof fn lemma_root_exists(n: int)
    requires
        n >= 0,
    ensures
        is_root(n, whole_root(n)),
    decreases n,
{
    if n == 0 {
        assert(is_root(0, 0));
    } else {
        lemma_root_exists(n - 1);
        let r = whole_root(n - 1);
        if n < (r + 1) * (r + 1) {
            assert(is_root(n, r));
        } else {
            assert((r + 1) * (r + 1) < (r + 2) * (r + 2)) by (nonlinear_arith)
                requires
                    r >= 0,
            ;
            assert(is_root(n, r + 1));
        }
    }
}

/// The square root of a whole number, rounded down.
fn root_of(n: u64) -> (r: u64)
    requires
        n <= 0x8000_0000_0000_0000,
    ensures
        r == whole_root(n as int),
        r <= 0xb504_f334,
{
    let mut low: u64 = 0;
    let mut high: u64 = 0xb504_f334;
    assert(0xb504_f335 * 0xb504_f335 > 0x8000_0000_0000_0000) by (nonlinear_arith);
    while low < high
        invariant
            n <= 0x8000_0000_0000_0000,
            low <= high <= 0xb504_f334,
            low * low <= n < (high + 1) * (high + 1),
        decreases high - low,
    {
        let mid: u64 = low + (high - low + 1) / 2;
        assert(mid * mid <= 0xffff_ffff * 0xffff_ffff) by (nonlinear_arith)
            requires
                mid <= 0xffff_ffff,
        ;
        if mid * mid <= n {
            low = mid;
        } else {
            high = mid - 1;
        }
    }
    proof {
        assert(is_root(n as int, low as int));
        lemma_root_is_unique(n as int, low as int, whole_root(n as int));
    }
    low
}

/// The units of an angle in degrees, brought into one turn.
pub open spec fn in_turn(units: int) -> int {
    units % 23592960
}

/// The sine of an angle of some units of a degree, in units: near enough to draw by.
pub open spec fn sine_units(units: int) -> int {
    let t = in_turn(units);
    let half = 11796480int;
    let x = if t < half {
        t
    } else {
        t - half
    };
    let p = (x / 256) * ((half - x) / 256);
    let v = quotient(4 * p * 65536, 2654208000 - p);
    if t < half {
        v
    } else {
        -v
    }
}

fn sine(units: i64) -> (r: Fixed)
    requires
        -0x1_0000_0000 <= units <= 0x1_0000_0000,
    ensures
        r == held(sine_units(units as int)),
{
    let shifted: i64 = units + 23592960 * 200;
    assert(shifted as int % 23592960 == units as int % 23592960) by (nonlinear_arith)
        requires
            shifted == units + 23592960 * 200,
    ;
    let t: i64 = shifted % 23592960;
    let half: i64 = 11796480;
    let x: i64 = if t < half {
        t
    } else {
        t - half
    };
    let a: i64 = x / 256;
    let b: i64 = (half - x) / 256;
    assert(0 <= a * b <= 46080 * 46080) by (nonlinear_arith)
        requires
            0 <= a <= 46080,
            0 <= b <= 46080,
    ;
    let p: i64 = a * b;
    assert(4 * p * 65536 <= 0x1000_0000_0000_0000) by (nonlinear_arith)
        requires
            p <= 46080 * 46080,
    ;
    let v: i64 = divide(4 * p * 65536, 2654208000 - p);
    if t < half {
        hold(v)
    } else {
        hold(-v)
    }
}

/// The angle, in units of a radian, whose tangent is `z` units, for `z` up to one.
pub open spec fn small_angle(z: int) -> int {
    quotient(z * 65536, 65536 + quotient(18350 * z * z, 4294967296))
}

/// The angle of a vector, in units of a radian: near enough to draw by.
pub open spec fn angle_units(y: int, x: int) -> int {
    let ax = if x < 0 {
        -x
    } else {
        x
    };
    let ay = if y < 0 {
        -y
    } else {
        y
    };
    let first = if ax == 0 && ay == 0 {
        0
    } else if ay <= ax {
        small_angle(quotient(ay * 65536, ax))
    } else {
        102944 - small_angle(quotient(ax * 65536, ay))
    };
    let upper = if x < 0 {
        205887 - first
    } else {
        first
    };
    if y < 0 {
        -upper
    } else {
        upper
    }
}

fn small(z: i64) -> (r: i64)
    requires
        0 <= z <= 65536,
    ensures
        r == small_angle(z as int),
        0 <= r <= 65536,
{
    assert(0 <= 18350 * z * z <= 18350 * 65536 * 65536) by (nonlinear_arith)
        requires
            0 <= z <= 65536,
    ;
    let bend: i64 = divide(18350 * z * z, 4294967296);
    assert(0 <= bend) by (nonlinear_arith)
        requires
            bend == (18350 * z * z) as int / 4294967296,
            0 <= 18350 * z * z,
    ;
    let r: i64 = divide(z * 65536, 65536 + bend);
    assert(0 <= r <= 65536) by (nonlinear_arith)
        requires
            r == (z * 65536) as int / (65536 + bend) as int,
            0 <= z <= 65536,
            bend >= 0,
    ;
    r
}

fn angle(y: i32, x: i32) -> (r: Fixed)
    ensures
        r == held(angle_units(y as int, x as int)),
{
    let ax: i64 = if x < 0 {
        -(x as i64)
    } else {
        x as i64
    };
    let ay: i64 = if y < 0 {
        -(y as i64)
    } else {
        y as i64
    };
    let first: i64 = if ax == 0 && ay == 0 {
        0
    } else if ay <= ax {
        let z: i64 = divide(ay * 65536, ax);
        assert(0 <= z <= 65536) by (nonlinear_arith)
            requires
                z == (ay * 65536) as int / ax as int,
                0 <= ay <= ax,
                ax > 0,
        ;
        small(z)
    } else {
        let z: i64 = divide(ax * 65536, ay);
        assert(0 <= z <= 65536) by (nonlinear_arith)
            requires
                z == (ax * 65536) as int / ay as int,
                0 <= ax <= ay,
                ay > 0,
        ;
        102944 - small(z)
    };
    let upper: i64 = if x < 0 {
        205887 - first
    } else {
        first
    };
    if y < 0 {
        hold(-upper)
    } else {
        hold(upper)
    }
}

/// The largest power of ten, in units, that is no more than some units; nothing below all of them.
pub open spec fn power_below(units: int) -> int {
    if units >= 655360000 {
        655360000
    } else if units >= 65536000 {
        65536000
    } else if units >= 6553600 {
        6553600
    } else if units >= 655360 {
        655360
    } else if units >= 65536 {
        65536
    } else if units >= 6553 {
        6553
    } else if units >= 655 {
        655
    } else if units >= 65 {
        65
    } else {
        0
    }
}

impl Scalar for Fixed {
    open spec fn spec_ratio(num: int, den: int) -> Self {
        held(quotient(num * 65536, den))
    }

    open spec fn spec_plus(self, other: Self) -> Self {
        held(self.raw + other.raw)
    }

    open spec fn spec_minus(self, other: Self) -> Self {
        held(self.raw - other.raw)
    }

    open spec fn spec_times(self, other: Self) -> Self {
        held(quotient(self.raw * other.raw, 65536))
    }

    open spec fn spec_over(self, other: Self) -> Self {
        held(quotient(self.raw * 65536, other.raw as int))
    }

    open spec fn spec_negated(self) -> Self {
        held(-self.raw)
    }

    open spec fn spec_magnitude(self) -> Self {
        if self.raw < 0 {
            held(-self.raw)
        } else {
            self
        }
    }

    open spec fn spec_lesser(self, other: Self) -> Self {
        if other.raw < self.raw {
            other
        } else {
            self
        }
    }

    open spec fn spec_greater(self, other: Self) -> Self {
        if other.raw > self.raw {
            other
        } else {
            self
        }
    }

    open spec fn spec_lt(self, other: Self) -> bool {
        self.raw < other.raw
    }

    open spec fn spec_le(self, other: Self) -> bool {
        self.raw <= other.raw
    }

    open spec fn spec_same(self, other: Self) -> bool {
        self.raw == other.raw
    }

    open spec fn spec_rounded(self) -> Self {
        if self.raw < 0 {
            held(-((32768 - self.raw) / 65536 * 65536))
        } else {
            held((self.raw + 32768) / 65536 * 65536)
        }
    }

    open spec fn spec_floored(self) -> Self {
        held(self.raw as int / 65536 * 65536)
    }

    open spec fn spec_ceiled(self) -> Self {
        held((self.raw + 65535) / 65536 * 65536)
    }

    open spec fn spec_decade(self) -> Self {
        held(power_below(self.raw as int))
    }

    open spec fn spec_root(self) -> Self {
        if self.raw <= 0 {
            held(0)
        } else {
            held(whole_root(self.raw * 65536))
        }
    }

    open spec fn spec_hypot(self, other: Self) -> Self {
        held(whole_root(self.raw * self.raw + other.raw * other.raw))
    }

    open spec fn spec_sin_deg(self) -> Self {
        held(sine_units(self.raw as int))
    }

    open spec fn spec_cos_deg(self) -> Self {
        held(sine_units(self.raw + 5898240))
    }

    open spec fn spec_atan2(self, x: Self) -> Self {
        held(angle_units(self.raw as int, x.raw as int))
    }

    open spec fn spec_to_degrees(self) -> Self {
        held(quotient(self.raw * 3754936, 65536))
    }

    open spec fn spec_finite(self) -> bool {
        true
    }

    open spec fn spec_to_int(self) -> int {
        if self.raw < 0 {
            -(-self.raw / 65536)
        } else {
            self.raw as int / 65536
        }
    }

    fn ratio(num: i32, den: i32) -> (r: Self) {
        hold(divide(num as i64 * 65536, den as i64))
    }

    fn of_count(n: u64) -> (r: Self) {
        let units: i64 = if n > 65536 {
            4294967296
        } else {
            n as i64 * 65536
        };
        assert(quotient(n as int * 65536, 1) == n * 65536) by (nonlinear_arith);
        hold(units)
    }

    fn of_int(n: i64) -> (r: Self) {
        let units: i64 = if n > 65536 {
            4294967296
        } else if n < -65536 {
            -4294967296
        } else {
            n * 65536
        };
        assert(quotient(n as int * 65536, 1) == n * 65536) by (nonlinear_arith);
        hold(units)
    }

    fn plus(self, other: Self) -> (r: Self) {
        hold(self.raw as i64 + other.raw as i64)
    }

    fn minus(self, other: Self) -> (r: Self) {
        hold(self.raw as i64 - other.raw as i64)
    }

    fn times(self, other: Self) -> (r: Self) {
        let a: i64 = self.raw as i64;
        let b: i64 = other.raw as i64;
        assert(-0x4000_0000_0000_0000 <= a * b <= 0x4000_0000_0000_0000) by (nonlinear_arith)
            requires
                -0x8000_0000 <= a <= 0x8000_0000,
                -0x8000_0000 <= b <= 0x8000_0000,
        ;
        let p: i64 = a * b;
        let q: i64 = if p >= 0 {
            p / 65536
        } else {
            -1 - (-1 - p) / 65536
        };
        assert(q == quotient(p as int, 65536));
        hold(q)
    }

    fn over(self, other: Self) -> (r: Self) {
        hold(divide(self.raw as i64 * 65536, other.raw as i64))
    }

    fn negated(self) -> (r: Self) {
        hold(-(self.raw as i64))
    }

    fn magnitude(self) -> (r: Self) {
        if self.raw < 0 {
            hold(-(self.raw as i64))
        } else {
            self
        }
    }

    fn lesser(self, other: Self) -> (r: Self) {
        if other.raw < self.raw {
            other
        } else {
            self
        }
    }

    fn greater(self, other: Self) -> (r: Self) {
        if other.raw > self.raw {
            other
        } else {
            self
        }
    }

    fn is_lt(self, other: Self) -> (r: bool) {
        self.raw < other.raw
    }

    fn is_le(self, other: Self) -> (r: bool) {
        self.raw <= other.raw
    }

    fn is_same(self, other: Self) -> (r: bool) {
        self.raw == other.raw
    }

    fn rounded(self) -> (r: Self) {
        if self.raw < 0 {
            hold(-(divide(32768 - self.raw as i64, 65536) * 65536))
        } else {
            hold(divide(self.raw as i64 + 32768, 65536) * 65536)
        }
    }

    fn floored(self) -> (r: Self) {
        hold(divide(self.raw as i64, 65536) * 65536)
    }

    fn ceiled(self) -> (r: Self) {
        hold(divide(self.raw as i64 + 65535, 65536) * 65536)
    }

    fn decade(self) -> (r: Self) {
        let units = self.raw;
        if units >= 655360000 {
            hold(655360000)
        } else if units >= 65536000 {
            hold(65536000)
        } else if units >= 6553600 {
            hold(6553600)
        } else if units >= 655360 {
            hold(655360)
        } else if units >= 65536 {
            hold(65536)
        } else if units >= 6553 {
            hold(6553)
        } else if units >= 655 {
            hold(655)
        } else if units >= 65 {
            hold(65)
        } else {
            hold(0)
        }
    }

    fn root(self) -> (r: Self) {
        if self.raw <= 0 {
            return hold(0);
        }
        hold(root_of(self.raw as u64 * 65536) as i64)
    }

    fn hypot(self, other: Self) -> (r: Self) {
        let a: u64 = if self.raw < 0 {
            (-(self.raw as i64)) as u64
        } else {
            self.raw as u64
        };
        let b: u64 = if other.raw < 0 {
            (-(other.raw as i64)) as u64
        } else {
            other.raw as u64
        };
        let ghost x = self.raw as int;
        let ghost y = other.raw as int;
        assert(a * a == x * x && a * a <= 0x4000_0000_0000_0000) by (nonlinear_arith)
            requires
                a == x || a == -x,
                a <= 0x8000_0000,
        ;
        assert(b * b == y * y && b * b <= 0x4000_0000_0000_0000) by (nonlinear_arith)
            requires
                b == y || b == -y,
                b <= 0x8000_0000,
        ;
        hold(root_of(a * a + b * b) as i64)
    }

    fn sin_deg(self) -> (r: Self) {
        sine(self.raw as i64)
    }

    fn cos_deg(self) -> (r: Self) {
        sine(self.raw as i64 + 5898240)
    }

    fn atan2(self, x: Self) -> (r: Self) {
        angle(self.raw, x.raw)
    }

    fn to_degrees(self) -> (r: Self) {
        hold(divide(self.raw as i64 * 3754936, 65536))
    }

    fn is_finite(self) -> (r: bool) {
        true
    }

    fn to_i64(self) -> (r: i64) {
        if self.raw < 0 {
            -(-(self.raw as i64) / 65536)
        } else {
            self.raw as i64 / 65536
        }
    }
}

} // verus!

//! Exact logical coordinates.
//!
//! A monitor whose scale is `physical / logical` has pixel edges at multiples of
//! `logical / physical`, which no binary fraction holds exactly. Coordinates are
//! therefore kept as fractions, and every comparison and rounding is exact.

use vstd::prelude::*;

verus! {

/// The largest denominator of a coordinate.
pub const MAX_DEN: i128 = 0x8000_0000;

/// Pointer positions lie within this many pixels of the origin.
pub const POINTER_RANGE: i128 = 0x4_0000_0000;

/// Monitor-local positions lie within this many pixels of the origin.
pub const LOCAL_RANGE: i128 = 0x10_0000_0000;

/// Region edges lie within this many pixels of the origin.
pub const EDGE_RANGE: i128 = 0x100_0000_0000;

/// The coordinate `num / den`, in logical pixels.
#[derive(Debug, Clone, Copy, PartialEq, Eq, Structural)]
pub struct Coord {
    pub num: i128,
    pub den: i128,
}

/// `v`, or the end of the range of `i32` that it lies beyond.
pub open spec fn clamp_i32(v: int) -> int {
    if v < i32::MIN {
        i32::MIN as int
    } else if v > i32::MAX {
        i32::MAX as int
    } else {
        v
    }
}

/// The smallest integer that is not below `num / den`.
pub open spec fn ceil_div(num: int, den: int) -> int {
    -((-num) / den)
}

/// `num / den` rounded to the nearest integer, halves upwards.
pub open spec fn round_div(num: int, den: int) -> int {
    (2 * num + den) / (2 * den)
}

/// `num / den` rounded to the nearest integer, halves away from zero.
pub open spec fn round_away(num: int, den: int) -> int {
    if num >= 0 {
        round_div(num, den)
    } else {
        -round_div(-num, den)
    }
}

/// The largest integer that is not above `num / den`.
pub fn floor_div(num: i128, den: i128) -> (r: i128)
    requires
        den > 0,
        -0x4000_0000_0000_0000_0000_0000_0000_0000 <= num,
        den <= 0x4000_0000_0000_0000_0000_0000_0000_0000,
    ensures
        r == num as int / den as int,
{
    if num >= 0 {
        num / den
    } else {
        let below: i128 = -1 - num;
        let q: i128 = below / den;
        proof {
            let n = num as int;
            let d = den as int;
            let b = below as int;
            vstd::arithmetic::div_mod::lemma_fundamental_div_mod(b, d);
            assert(n == d * (-1 - b / d) + (d - 1 - b % d)) by (nonlinear_arith)
                requires
                    b == -1 - n,
                    b == d * (b / d) + b % d,
            ;
            vstd::arithmetic::div_mod::lemma_fundamental_div_mod_converse(
                n,
                d,
                -1 - b / d,
                d - 1 - b % d,
            );
            assert(0 <= b / d <= b) by (nonlinear_arith)
                requires
                    b >= 0,
                    d > 0,
            ;
        }
        -1 - q
    }
}

/// The smallest integer that is not below `num / den`.
pub fn ceiling_div(num: i128, den: i128) -> (r: i128)
    requires
        den > 0,
        num <= 0x4000_0000_0000_0000_0000_0000_0000_0000,
        -0x4000_0000_0000_0000_0000_0000_0000_0000 <= num,
        den <= 0x4000_0000_0000_0000_0000_0000_0000_0000,
    ensures
        r == ceil_div(num as int, den as int),
{
    let low: i128 = floor_div(-num, den);
    proof {
        let n = -num as int;
        let d = den as int;
        assert(-0x4000_0000_0000_0000_0000_0000_0000_0000 <= n / d) by (nonlinear_arith)
            requires
                n >= -0x4000_0000_0000_0000_0000_0000_0000_0000,
                d > 0,
        ;
    }
    -low
}

/// `v` as an `i32`, stopping at the ends of its range.
pub fn saturate(v: i128) -> (r: i32)
    ensures
        r == clamp_i32(v as int),
{
    if v < -0x8000_0000i128 {
        i32::MIN
    } else if v > 0x7fff_ffffi128 {
        i32::MAX
    } else {
        v as i32
    }
}

impl Coord {
    /// The coordinate has a positive, not too large denominator and lies within
    /// `range` pixels of the origin.
    pub open spec fn within(self, range: int) -> bool {
        &&& 0 < self.den <= MAX_DEN
        &&& -range * self.den <= self.num <= range * self.den
    }

    /// `self < other`.
    pub open spec fn lt(self, other: Self) -> bool {
        self.num * other.den < other.num * self.den
    }

    /// `self <= other`.
    pub open spec fn le(self, other: Self) -> bool {
        self.num * other.den <= other.num * self.den
    }

    /// `n <= self`.
    pub open spec fn ge_int(self, n: int) -> bool {
        n * self.den <= self.num
    }

    /// The integer coordinate `n`.
    pub open spec fn of_int(n: int) -> Self {
        Coord { num: n as i128, den: 1 }
    }

    /// The largest integer not above the coordinate.
    pub open spec fn floor_spec(self) -> int {
        self.num as int / self.den as int
    }

    /// The smallest integer not below the coordinate.
    pub open spec fn ceil_spec(self) -> int {
        ceil_div(self.num as int, self.den as int)
    }

    /// The coordinate moved by `n` pixels.
    pub open spec fn plus_int(self, n: int) -> Self {
        Coord { num: (self.num + n * self.den) as i128, den: self.den }
    }

    /// The integer coordinate `n`.
    pub fn from_int(n: i32) -> (r: Self)
        ensures
            r == Coord::of_int(n as int),
            r.within(0x8000_0000),
    {
        Coord { num: n as i128, den: 1 }
    }

    /// Whether the coordinate is a fraction that is in range for the edge of a region.
    pub fn is_edge(&self) -> (r: bool)
        ensures
            r == self.within(EDGE_RANGE as int),
    {
        if self.den <= 0 || self.den > 0x8000_0000 {
            return false;
        }
        let edge: i128 = 0x100_0000_0000 * self.den;
        -edge <= self.num && self.num <= edge
    }

    /// Whether `self < other`.
    pub fn less(&self, other: &Self) -> (r: bool)
        requires
            self.within(EDGE_RANGE as int),
            other.within(EDGE_RANGE as int),
        ensures
            r == self.lt(*other),
    {
        proof {
            lemma_cross(*self, *other);
            lemma_cross(*other, *self);
        }
        self.num * other.den < other.num * self.den
    }

    /// The larger of two coordinates.
    pub fn max(self, other: Self) -> (r: Self)
        requires
            self.within(EDGE_RANGE as int),
            other.within(EDGE_RANGE as int),
        ensures
            r == max_coord(self, other),
    {
        if self.less(&other) {
            other
        } else {
            self
        }
    }

    /// The smaller of two coordinates.
    pub fn min(self, other: Self) -> (r: Self)
        requires
            self.within(EDGE_RANGE as int),
            other.within(EDGE_RANGE as int),
        ensures
            r == min_coord(self, other),
    {
        if other.less(&self) {
            other
        } else {
            self
        }
    }

    /// The largest integer not above the coordinate.
    pub fn floor(&self) -> (r: i128)
        requires
            self.within(EDGE_RANGE as int),
        ensures
            r == self.floor_spec(),
    {
        proof {
            lemma_bounds(*self, EDGE_RANGE as int);
        }
        floor_div(self.num, self.den)
    }

    /// The integer nearest to the coordinate, halves away from zero.
    pub fn round(&self) -> (r: i128)
        requires
            self.within(EDGE_RANGE as int),
        ensures
            r == round_away(self.num as int, self.den as int),
    {
        proof {
            lemma_bounds(*self, EDGE_RANGE as int);
        }
        if self.num >= 0 {
            floor_div(2 * self.num + self.den, 2 * self.den)
        } else {
            let up: i128 = floor_div(-2 * self.num + self.den, 2 * self.den);
            proof {
                let n = -2 * self.num + self.den;
                let d = 2 * self.den;
                assert(n / d >= 0) by (nonlinear_arith)
                    requires
                        n >= 0,
                        d > 0,
                ;
            }
            -up
        }
    }

    /// The smallest integer not below the coordinate.
    pub fn ceil(&self) -> (r: i128)
        requires
            self.within(EDGE_RANGE as int),
        ensures
            r == self.ceil_spec(),
    {
        proof {
            lemma_bounds(*self, EDGE_RANGE as int);
        }
        ceiling_div(self.num, self.den)
    }
}

/// The larger of two coordinates.
pub open spec fn max_coord(a: Coord, b: Coord) -> Coord {
    if a.lt(b) {
        b
    } else {
        a
    }
}

/// The smaller of two coordinates.
pub open spec fn min_coord(a: Coord, b: Coord) -> Coord {
    if b.lt(a) {
        b
    } else {
        a
    }
}

/// An integer coordinate lies within any range that the integer lies in.
pub proof fn lemma_int_within(n: int, range: int)
    requires
        -range <= n <= range,
        i128::MIN <= n <= i128::MAX,
    ensures
        (Coord { num: n as i128, den: 1 }).within(range),
{
    assert(range * 1 == range && -range * 1 == -range) by (nonlinear_arith);
}

/// The numerator of a coordinate in range has room to spare in an `i128`.
pub proof fn lemma_bounds(c: Coord, range: int)
    requires
        c.within(range),
        0 <= range <= 0x100_0000_0000,
    ensures
        -0x80_0000_0000_0000_0000 <= c.num <= 0x80_0000_0000_0000_0000,
        0 < c.den <= 0x8000_0000,
{
    let d = c.den as int;
    assert(range * d <= 0x80_0000_0000_0000_0000 && -range * d >= -0x80_0000_0000_0000_0000)
        by (nonlinear_arith)
        requires
            0 <= range <= 0x100_0000_0000,
            0 < d <= 0x8000_0000,
    ;
}

/// The products that compare two edges fit in an `i128`.
pub proof fn lemma_cross(a: Coord, b: Coord)
    requires
        a.within(EDGE_RANGE as int),
        b.within(EDGE_RANGE as int),
    ensures
        -0x80_0000_0000_0000_0000_0000_0000 <= a.num * b.den
            <= 0x80_0000_0000_0000_0000_0000_0000,
{
    let n = a.num as int;
    let d = b.den as int;
    lemma_bounds(a, EDGE_RANGE as int);
    assert(-0x80_0000_0000_0000_0000_0000_0000 <= n * d <= 0x80_0000_0000_0000_0000_0000_0000)
        by (nonlinear_arith)
        requires
            -0x80_0000_0000_0000_0000 <= n <= 0x80_0000_0000_0000_0000,
            0 < d <= 0x8000_0000,
    ;
}

} // verus!

//! Points, regions and monitors.
//!
//! A region contains the points `(x, y)` and `(x + width - 1, y + height - 1)`:
//! `x + width` is the column just past its edge.

use vstd::prelude::*;

use crate::coord::{
    clamp_i32, floor_div, lemma_bounds, max_coord, min_coord, round_div, saturate, Coord, EDGE_RANGE,
    LOCAL_RANGE, MAX_DEN, POINTER_RANGE,
};
use crate::ipc::Window;
use crate::wayland::Transform;

verus! {

/// A point in global logical space.
#[derive(Debug, Clone, Copy, PartialEq, Eq, Structural)]
pub struct LPoint {
    pub x: Coord,
    pub y: Coord,
}

/// A point in monitor-local logical pixels. Meaningless without a monitor's region.
#[derive(Debug, Clone, Copy, PartialEq, Eq, Structural)]
pub struct MLPoint {
    pub x: Coord,
    pub y: Coord,
}

/// A region in global logical space, given by its four edges.
#[derive(Debug, Clone, Copy, PartialEq, Eq, Structural)]
pub struct LFRegion {
    pub left: Coord,
    pub top: Coord,
    pub right: Coord,
    pub bottom: Coord,
}

/// A region in global logical pixels.
/// Only comes into the application from the compositor's window list.
#[derive(Debug, Clone, Copy, PartialEq, Eq, Structural)]
pub struct LRegion {
    pub x: i32,
    pub y: i32,
    pub width: i32,
    pub height: i32,
}

/// A region in monitor-local pixels, after applying scales. (0, 0) is the top left corner of the
/// monitor after applying transformations.
#[derive(Debug, Clone, Copy, PartialEq, Eq, Structural)]
pub struct MRegion {
    pub x: i32,
    pub y: i32,
    pub width: i32,
    pub height: i32,
}

/// A region in output coordinates.
#[derive(Debug, Clone, Copy, PartialEq, Eq, Structural)]
pub struct ORegion {
    pub x: i32,
    pub y: i32,
    pub width: i32,
    pub height: i32,
}

/// Physical pixels per logical pixel, as the fraction `num / den`.
#[derive(Debug, Clone, Copy, PartialEq, Eq, Structural)]
pub struct Scale {
    pub num: i64,
    pub den: i64,
}

/// A monitor as it is laid out in logical space and in physical pixels.
#[derive(Debug)]
pub struct Monitor {
    pub logical: LRegion,
    pub physical: MRegion,
    pub scale: Scale,
    pub transform: Transform,
    pub description: String,
}

/// How two regions overlap, and by how much one has to move to end that.
#[derive(Debug, Clone, Copy, PartialEq, Eq, Structural)]
pub enum Overlap {
    Nothing,
    X(i32),
    Y(i32),
}

impl LPoint {
    /// The coordinates are fractions that can be compared with a region's edges.
    pub open spec fn wf(self) -> bool {
        &&& 0 < self.x.den <= 2 * MAX_DEN * MAX_DEN
        &&& 0 < self.y.den <= 2 * MAX_DEN * MAX_DEN
        &&& -0x1_0000_0000_0000_0000_0000_0000_0000 <= self.x.num
            <= 0x1_0000_0000_0000_0000_0000_0000_0000
        &&& -0x1_0000_0000_0000_0000_0000_0000_0000 <= self.y.num
            <= 0x1_0000_0000_0000_0000_0000_0000_0000
    }
}

impl MLPoint {
    /// The point lies within `range` pixels of the monitor's origin.
    pub open spec fn within(self, range: int) -> bool {
        &&& self.x.within(range)
        &&& self.y.within(range)
    }

    /// The point whose coordinates are `x / 256` and `y / 256`: the fixed point
    /// representation that Wayland gives positions in.
    pub fn from_fixed(x: i32, y: i32) -> (r: Self)
        ensures
            r == (MLPoint {
                x: Coord { num: x as i128, den: 256 },
                y: Coord { num: y as i128, den: 256 },
            }),
            r.within(POINTER_RANGE as int),
    {
        MLPoint {
            x: Coord { num: x as i128, den: 256 },
            y: Coord { num: y as i128, den: 256 },
        }
    }
}

impl Scale {
    /// The scale is positive, and not vanishingly small.
    pub open spec fn wf(self) -> bool {
        &&& 0 < self.num <= MAX_DEN
        &&& 0 < self.den <= MAX_DEN
        &&& self.den < 100 * self.num
    }

    /// Whether the scale is positive, and not vanishingly small.
    pub fn valid(&self) -> (r: bool)
        ensures
            r == self.wf(),
    {
        0 < self.num && self.num <= 0x8000_0000 && 0 < self.den && self.den <= 0x8000_0000
            && self.den < 100 * self.num
    }
}

/// The index of the physical pixel that holds the local logical coordinate `c`.
pub open spec fn pixel_index(c: Coord, scale: Scale) -> int {
    (c.num * scale.num) / (c.den * scale.den)
}

/// The global logical coordinate of the edge before physical pixel `index` of a monitor whose
/// logical region starts at `origin`: `index / scale + origin`.
pub open spec fn pixel_edge(index: int, scale: Scale, origin: int) -> Coord {
    Coord { num: (index * scale.den + origin * scale.num) as i128, den: scale.num as i128 }
}

/// The physical pixel edge nearest to the global logical coordinate `c`.
pub open spec fn nearest_edge(c: Coord, scale: Scale, origin: int) -> int {
    clamp_i32(round_div((c.num - origin * c.den) * scale.num, c.den * scale.den))
}

/// The physical pixel that `c` lies in keeps its edges within range.
pub proof fn lemma_pixel_range(c: Coord, scale: Scale, origin: int)
    requires
        c.within(LOCAL_RANGE as int),
        scale.wf(),
        -0x8000_0000 <= origin <= 0x7fff_ffff,
    ensures
        -0x80_0000_0000_0000_0000 <= c.num * scale.num / (c.den * scale.den)
            <= 0x80_0000_0000_0000_0000,
        -0x4_0000_0000_0000_0000_0000_0000 <= c.num * scale.num
            <= 0x4_0000_0000_0000_0000_0000_0000,
        0 < c.den * scale.den <= 0x4000_0000_0000_0000,
        -0x10_0000_0000 * scale.num - scale.den <= pixel_index(c, scale) * scale.den
            <= 0x10_0000_0000 * scale.num,
        -0x8000_0000 * scale.num <= origin * scale.num <= 0x8000_0000 * scale.num,
{
    let n = c.num as int;
    let b = c.den as int;
    let sn = scale.num as int;
    let sd = scale.den as int;
    lemma_bounds(c, LOCAL_RANGE as int);
    let q = (n * sn) / (b * sd);
    let range = LOCAL_RANGE as int;
    assert(0 < b * sd <= 0x4000_0000_0000_0000) by (nonlinear_arith)
        requires
            0 < b <= 0x8000_0000,
            0 < sd <= 0x8000_0000,
    ;
    assert(-range * b * sn <= n * sn <= range * b * sn) by (nonlinear_arith)
        requires
            -range * b <= n <= range * b,
            sn > 0,
    ;
    assert(range * b * sn <= 0x4_0000_0000_0000_0000_0000_0000 && -range * b * sn
        >= -0x4_0000_0000_0000_0000_0000_0000) by (nonlinear_arith)
        requires
            range == 0x10_0000_0000,
            0 < b <= 0x8000_0000,
            0 < sn <= 0x8000_0000,
    ;
    vstd::arithmetic::div_mod::lemma_fundamental_div_mod(n * sn, b * sd);
    vstd::arithmetic::div_mod::lemma_mod_bound(n * sn, b * sd);
    assert(q * (b * sd) <= n * sn < (q + 1) * (b * sd)) by (nonlinear_arith)
        requires
            n * sn == (b * sd) * q + (n * sn) % (b * sd),
            0 <= (n * sn) % (b * sd) < b * sd,
    ;
    assert(q * sd <= range * sn) by (nonlinear_arith)
        requires
            q * (b * sd) <= n * sn,
            n * sn <= range * b * sn,
            b > 0,
    ;
    assert((q + 1) * sd > -range * sn) by (nonlinear_arith)
        requires
            (q + 1) * (b * sd) > n * sn,
            n * sn >= -range * b * sn,
            b > 0,
    ;
    assert((q + 1) * sd == q * sd + sd) by (nonlinear_arith);
    assert(range * sn <= 0x8_0000_0000_0000_0000);
    assert(q <= 0x80_0000_0000_0000_0000) by (nonlinear_arith)
        requires
            q * sd <= 0x8_0000_0000_0000_0000,
            sd > 0,
    ;
    assert(q >= -0x80_0000_0000_0000_0000) by (nonlinear_arith)
        requires
            q * sd >= -0x10_0000_0000_0000_0000,
            sd > 0,
    ;
    assert(-0x8000_0000 * sn <= origin * sn <= 0x8000_0000 * sn) by (nonlinear_arith)
        requires
            -0x8000_0000 <= origin <= 0x7fff_ffff,
            0 < sn <= 0x8000_0000,
    ;
}

/// The physical pixel that holds the local coordinate `c`.
fn pixel_of(c: Coord, scale: Scale) -> (r: i128)
    requires
        c.within(LOCAL_RANGE as int),
        scale.wf(),
    ensures
        r == pixel_index(c, scale),
{
    proof {
        lemma_pixel_range(c, scale, 0);
    }
    floor_div(c.num * scale.num as i128, c.den * scale.den as i128)
}

/// The two edges of the physical pixel that holds the local coordinate `c`.
fn pixel_edges(c: Coord, scale: Scale, origin: i32) -> (r: (Coord, Coord))
    requires
        c.within(LOCAL_RANGE as int),
        scale.wf(),
    ensures
        r.0 == pixel_edge(pixel_index(c, scale), scale, origin as int),
        r.1 == pixel_edge(pixel_index(c, scale) + 1, scale, origin as int),
        r.0.within(EDGE_RANGE as int),
        r.1.within(EDGE_RANGE as int),
{
    proof {
        lemma_pixel_range(c, scale, origin as int);
    }
    let index: i128 = pixel_of(c, scale);
    let den: i128 = scale.num as i128;
    let step: i128 = scale.den as i128;
    let num: i128 = index * step + origin as i128 * den;
    proof {
        assert((index + 1) * step == index * step + step) by (nonlinear_arith);
    }
    (Coord { num, den }, Coord { num: num + step, den })
}

/// The physical pixel edge nearest to `c`, for a coordinate on or after `origin`.
fn nearest(c: Coord, scale: Scale, origin: i32) -> (r: i32)
    requires
        c.within(EDGE_RANGE as int),
        scale.wf(),
    ensures
        r == nearest_edge(c, scale, origin as int),
{
    let ghost o = origin as int;
    let ghost d = c.den as int;
    let ghost sn = scale.num as int;
    let ghost sd = scale.den as int;
    proof {
        lemma_bounds(c, EDGE_RANGE as int);
        assert(-0x4000_0000_0000_0000 <= o * d <= 0x4000_0000_0000_0000) by (nonlinear_arith)
            requires
                -0x8000_0000 <= o <= 0x7fff_ffff,
                0 < d <= 0x8000_0000,
        ;
        assert(0 < d * sd <= 0x4000_0000_0000_0000) by (nonlinear_arith)
            requires
                0 < d <= 0x8000_0000,
                0 < sd <= 0x8000_0000,
        ;
    }
    let offset: i128 = c.num - origin as i128 * c.den;
    proof {
        let v = offset as int;
        assert(-0x100_0000_0000_0000_0000_0000_0000 <= v * sn
            <= 0x100_0000_0000_0000_0000_0000_0000) by (nonlinear_arith)
            requires
                -0x100_0000_0000_0000_0000 <= v <= 0x100_0000_0000_0000_0000,
                0 < sn <= 0x8000_0000,
        ;
    }
    let n: i128 = offset * scale.num as i128;
    let m: i128 = c.den * scale.den as i128;
    saturate(floor_div(2 * n + m, 2 * m))
}

impl Clone for Monitor {
    fn clone(&self) -> (r: Self)
        ensures
            r == *self,
    {
        Monitor {
            logical: self.logical,
            physical: self.physical,
            scale: self.scale,
            transform: self.transform,
            description: self.description.clone(),
        }
    }
}

impl Monitor {
    /// The monitor's scale is known and its logical region stays within range.
    pub open spec fn wf(&self) -> bool {
        &&& self.scale.wf()
        &&& self.logical.fits()
    }

    /// Whether the scale is known and the logical region stays within range.
    pub fn valid(&self) -> (r: bool)
        ensures
            r == self.wf(),
    {
        self.scale.valid() && self.logical.in_range()
    }

    /// Scale as a fixed point with denominator 120, at most the largest `u32`.
    pub open spec fn fixed_scale_spec(&self) -> int {
        let scale = round_div(120 * self.scale.num, self.scale.den as int);
        if scale > u32::MAX {
            u32::MAX as int
        } else {
            scale
        }
    }

    /// Scale as a fixed point with denominator 120, rounded to the nearest.
    pub fn fixed_scale(&self) -> (r: u32)
        requires
            self.scale.wf(),
        ensures
            r == self.fixed_scale_spec(),
    {
        let n: i64 = self.scale.num * 120;
        let r: i64 = (2 * n + self.scale.den) / (2 * self.scale.den);
        proof {
            let a = 2 * n + self.scale.den;
            let b = 2 * self.scale.den;
            assert(a / b >= 0) by (nonlinear_arith)
                requires
                    a > 0,
                    b > 0,
            ;
        }
        if r > 0xffff_ffff {
            u32::MAX
        } else {
            r as u32
        }
    }

    /// The global logical region that [`Monitor::global_pixel_bounds`] gives.
    pub open spec fn pixel_bounds(&self, point: MLPoint) -> LFRegion {
        let x = pixel_index(point.x, self.scale);
        let y = pixel_index(point.y, self.scale);
        LFRegion {
            left: pixel_edge(x, self.scale, self.logical.x as int),
            top: pixel_edge(y, self.scale, self.logical.y as int),
            right: pixel_edge(x + 1, self.scale, self.logical.x as int),
            bottom: pixel_edge(y + 1, self.scale, self.logical.y as int),
        }
    }

    /// Top left to bottom right of the physical pixel that holds `point`.
    pub fn global_pixel_bounds(&self, point: MLPoint) -> (r: LFRegion)
        requires
            self.scale.wf(),
            point.within(LOCAL_RANGE as int),
        ensures
            r == self.pixel_bounds(point),
            r.wf(),
    {
        let (left, right) = pixel_edges(point.x, self.scale, self.logical.x);
        let (top, bottom) = pixel_edges(point.y, self.scale, self.logical.y);
        LFRegion { left, top, right, bottom }
    }

    /// The physical pixel that holds `point`.
    pub fn local_pixel(&self, point: MLPoint) -> (r: (i32, i32))
        requires
            self.scale.wf(),
            point.within(LOCAL_RANGE as int),
        ensures
            r.0 == clamp_i32(pixel_index(point.x, self.scale)),
            r.1 == clamp_i32(pixel_index(point.y, self.scale)),
    {
        (saturate(pixel_of(point.x, self.scale)), saturate(pixel_of(point.y, self.scale)))
    }

    /// The physical pixel that holds `point`, however far away it is.
    pub fn pixel_at(&self, point: MLPoint) -> (r: (i128, i128))
        requires
            self.scale.wf(),
            point.within(LOCAL_RANGE as int),
        ensures
            r.0 == pixel_index(point.x, self.scale),
            r.1 == pixel_index(point.y, self.scale),
            -0x80_0000_0000_0000_0000 <= r.0 <= 0x80_0000_0000_0000_0000,
            -0x80_0000_0000_0000_0000 <= r.1 <= 0x80_0000_0000_0000_0000,
    {
        proof {
            lemma_pixel_range(point.x, self.scale, 0);
            lemma_pixel_range(point.y, self.scale, 0);
        }
        (pixel_of(point.x, self.scale), pixel_of(point.y, self.scale))
    }

    /// The same point in global logical space.
    pub open spec fn to_global(&self, point: MLPoint) -> LPoint {
        LPoint {
            x: point.x.plus_int(self.logical.x as int),
            y: point.y.plus_int(self.logical.y as int),
        }
    }

    /// The same point relative to the monitor's top left corner.
    pub open spec fn to_local(&self, point: LPoint) -> MLPoint {
        MLPoint {
            x: point.x.plus_int(-self.logical.x),
            y: point.y.plus_int(-self.logical.y),
        }
    }

    /// The point of global logical space that a local point stands for.
    pub fn local_to_global(&self, point: MLPoint) -> (r: LPoint)
        requires
            point.within(LOCAL_RANGE as int),
        ensures
            r == self.to_global(point),
            r.wf(),
    {
        LPoint { x: shift(point.x, self.logical.x as i128), y: shift(point.y, self.logical.y as i128) }
    }

    /// The local point that stands for a point of global logical space.
    /// Exists solely to handle drag events.
    pub fn global_to_local(&self, point: LPoint) -> (r: MLPoint)
        requires
            point.x.within(LOCAL_RANGE as int),
            point.y.within(LOCAL_RANGE as int),
        ensures
            r == self.to_local(point),
    {
        MLPoint {
            x: shift(point.x, -(self.logical.x as i128)),
            y: shift(point.y, -(self.logical.y as i128)),
        }
    }

    /// What [`Monitor::intersect_rounded`] gives.
    pub open spec fn rounded(&self, other: LFRegion) -> Option<(LFRegion, MRegion)> {
        match other.meet(LFRegion::of(self.logical)) {
            None => None,
            Some(r) => {
                let left = nearest_edge(r.left, self.scale, self.logical.x as int);
                let top = nearest_edge(r.top, self.scale, self.logical.y as int);
                let right = nearest_edge(r.right, self.scale, self.logical.x as int);
                let bottom = nearest_edge(r.bottom, self.scale, self.logical.y as int);
                if left < 0 || right > self.physical.width || top < 0 || bottom
                    > self.physical.height {
                    None
                } else {
                    Some(
                        (
                            r,
                            MRegion {
                                x: left as i32,
                                y: top as i32,
                                width: (right - left) as i32,
                                height: (bottom - top) as i32,
                            },
                        ),
                    )
                }
            },
        }
    }

    /// The part of `other` on this monitor, in logical space and in the monitor's own pixels.
    ///
    /// Regions are pixel-perfect if everything is at the same scale, so edges go to the nearest
    /// pixel edge. If everything is not at the same scale, everything is best-effort.
    pub fn intersect_rounded(&self, other: &LFRegion) -> (r: Option<(LFRegion, MRegion)>)
        requires
            self.wf(),
            other.wf(),
        ensures
            r == self.rounded(*other),
            r matches Some((l, m)) ==> l.wf() && 0 <= m.x && 0 <= m.y && 0 <= m.width && 0
                <= m.height && m.x + m.width <= self.physical.width && m.y + m.height
                <= self.physical.height,
    {
        let logical = LFRegion::from_region(self.logical);
        let r = match other.intersect(&logical) {
            None => {
                return None;
            },
            Some(r) => r,
        };
        let left: i32 = nearest(r.left, self.scale, self.logical.x);
        let top: i32 = nearest(r.top, self.scale, self.logical.y);
        let right: i32 = nearest(r.right, self.scale, self.logical.x);
        let bottom: i32 = nearest(r.bottom, self.scale, self.logical.y);
        proof {
            lemma_meet_sides(*other, logical);
            lemma_nearest_monotone(r.left, r.right, self.scale, self.logical.x as int);
            lemma_nearest_monotone(r.top, r.bottom, self.scale, self.logical.y as int);
        }
        if left < 0 || right > self.physical.width || top < 0 || bottom > self.physical.height {
            None
        } else {
            let width: i32 = right - left;
            let height: i32 = bottom - top;
            Some((r, MRegion { x: left, y: top, width, height }))
        }
    }
}

/// `c` moved by `by` pixels.
fn shift(c: Coord, by: i128) -> (r: Coord)
    requires
        c.within(LOCAL_RANGE as int),
        -0x8000_0000 <= by <= 0x8000_0000,
    ensures
        r == c.plus_int(by as int),
        forall|range: int|
            c.within(range) && 0 <= range ==> #[trigger] r.within(range + 0x8000_0000),
        -0x10_0000_0000_0000_0000 <= r.num <= 0x10_0000_0000_0000_0000,
{
    let ghost b = by as int;
    let ghost d = c.den as int;
    proof {
        lemma_bounds(c, LOCAL_RANGE as int);
        assert(-0x8000_0000 * d <= b * d <= 0x8000_0000 * d) by (nonlinear_arith)
            requires
                -0x8000_0000 <= b <= 0x8000_0000,
                0 < d,
        ;
    }
    let r = Coord { num: c.num + by * c.den, den: c.den };
    proof {
        assert forall|range: int| c.within(range) && 0 <= range implies #[trigger] r.within(
            range + 0x8000_0000,
        ) by {
            assert(-(range + 0x8000_0000) * d == -range * d - 0x8000_0000 * d
                && (range + 0x8000_0000) * d == range * d + 0x8000_0000 * d) by (nonlinear_arith);
        }
    }
    r
}

impl LFRegion {
    /// Every edge is a coordinate in range.
    pub open spec fn wf(self) -> bool {
        &&& self.left.within(EDGE_RANGE as int)
        &&& self.top.within(EDGE_RANGE as int)
        &&& self.right.within(EDGE_RANGE as int)
        &&& self.bottom.within(EDGE_RANGE as int)
    }

    /// Whether every edge is a coordinate in range.
    pub fn valid(&self) -> (r: bool)
        ensures
            r == self.wf(),
    {
        self.left.is_edge() && self.top.is_edge() && self.right.is_edge() && self.bottom.is_edge()
    }

    /// The same region as a region of whole pixels.
    pub open spec fn of(r: LRegion) -> Self {
        LFRegion {
            left: Coord::of_int(r.x as int),
            top: Coord::of_int(r.y as int),
            right: Coord::of_int(r.x + r.width),
            bottom: Coord::of_int(r.y + r.height),
        }
    }

    /// The same region as a region of whole pixels.
    pub fn from_region(r: LRegion) -> (l: Self)
        ensures
            l == LFRegion::of(r),
            l.wf(),
    {
        proof {
            crate::coord::lemma_int_within(r.x as int, EDGE_RANGE as int);
            crate::coord::lemma_int_within(r.y as int, EDGE_RANGE as int);
            crate::coord::lemma_int_within(r.x + r.width, EDGE_RANGE as int);
            crate::coord::lemma_int_within(r.y + r.height, EDGE_RANGE as int);
        }
        LFRegion {
            left: Coord::from_int(r.x),
            top: Coord::from_int(r.y),
            right: Coord { num: r.x as i128 + r.width as i128, den: 1 },
            bottom: Coord { num: r.y as i128 + r.height as i128, den: 1 },
        }
    }

    /// The region in output pixels at `scale` 120ths per logical pixel.
    pub open spec fn scaled_edge(c: Coord, scale: int) -> int {
        clamp_i32((c.num * scale + 60 * c.den) / (120 * c.den))
    }

    /// What [`LFRegion::output_region`] gives.
    pub open spec fn output_spec(self, scale: int) -> ORegion {
        let x = Self::scaled_edge(self.left, scale);
        let y = Self::scaled_edge(self.top, scale);
        ORegion {
            x: x as i32,
            y: y as i32,
            width: (Self::scaled_edge(self.right, scale) - x) as i32,
            height: (Self::scaled_edge(self.bottom, scale) - y) as i32,
        }
    }

    /// The sides of the region in output pixels fit in an `i32`.
    pub open spec fn output_fits(self, scale: int) -> bool {
        &&& i32::MIN <= Self::scaled_edge(self.right, scale) - Self::scaled_edge(self.left, scale)
            <= i32::MAX
        &&& i32::MIN <= Self::scaled_edge(self.bottom, scale) - Self::scaled_edge(self.top, scale)
            <= i32::MAX
    }

    /// One edge in output pixels.
    fn output_edge(c: Coord, scale: u32) -> (r: i32)
        requires
            c.within(EDGE_RANGE as int),
        ensures
            r == Self::scaled_edge(c, scale as int),
    {
        proof {
            lemma_bounds(c, EDGE_RANGE as int);
            let n = c.num as int;
            let s = scale as int;
            assert(-0x100_0000_0000_0000_0000_0000_0000 <= n * s
                <= 0x100_0000_0000_0000_0000_0000_0000) by (nonlinear_arith)
                requires
                    -0x80_0000_0000_0000_0000 <= n <= 0x80_0000_0000_0000_0000,
                    0 <= s <= 0xffff_ffff,
            ;
        }
        saturate(floor_div(c.num * scale as i128 + 60 * c.den, 120 * c.den))
    }

    /// Whether the sides of the region in output pixels fit in an `i32`.
    pub fn output_in_range(&self, scale: u32) -> (r: bool)
        requires
            self.wf(),
        ensures
            r == self.output_fits(scale as int),
    {
        let x: i64 = Self::output_edge(self.left, scale) as i64;
        let y: i64 = Self::output_edge(self.top, scale) as i64;
        let right: i64 = Self::output_edge(self.right, scale) as i64;
        let bottom: i64 = Self::output_edge(self.bottom, scale) as i64;
        -0x8000_0000 <= right - x && right - x <= 0x7fff_ffff && -0x8000_0000 <= bottom - y
            && bottom - y <= 0x7fff_ffff
    }

    /// The region in output pixels at `scale` 120ths per logical pixel, each edge rounded to the
    /// nearest.
    pub fn output_region(&self, scale: u32) -> (r: ORegion)
        requires
            self.wf(),
            self.output_fits(scale as int),
        ensures
            r == self.output_spec(scale as int),
    {
        let x: i32 = Self::output_edge(self.left, scale);
        let y: i32 = Self::output_edge(self.top, scale);
        let right: i32 = Self::output_edge(self.right, scale);
        let bottom: i32 = Self::output_edge(self.bottom, scale);
        ORegion { x, y, width: right - x, height: bottom - y }
    }

    /// What [`LFRegion::intersect`] gives.
    pub open spec fn meet(self, other: Self) -> Option<Self> {
        let r = LFRegion {
            left: max_coord(self.left, other.left),
            top: max_coord(self.top, other.top),
            right: min_coord(self.right, other.right),
            bottom: min_coord(self.bottom, other.bottom),
        };
        if r.left.lt(r.right) && r.top.lt(r.bottom) {
            Some(r)
        } else {
            None
        }
    }

    /// The part that two regions share, unless it is empty.
    pub fn intersect(self, other: &Self) -> (r: Option<Self>)
        requires
            self.wf(),
            other.wf(),
        ensures
            r == self.meet(*other),
            r matches Some(m) ==> m.wf(),
    {
        let left = self.left.max(other.left);
        let right = self.right.min(other.right);
        let top = self.top.max(other.top);
        let bottom = self.bottom.min(other.bottom);
        if left.less(&right) && top.less(&bottom) {
            Some(LFRegion { left, top, right, bottom })
        } else {
            None
        }
    }

    /// What [`LFRegion::bounding_region`] gives.
    pub open spec fn hull(self, other: Self) -> Self {
        LFRegion {
            left: min_coord(self.left, other.left),
            top: min_coord(self.top, other.top),
            right: max_coord(self.right, other.right),
            bottom: max_coord(self.bottom, other.bottom),
        }
    }

    /// The smallest region that contains both.
    pub fn bounding_region(&self, other: &Self) -> (r: Self)
        requires
            self.wf(),
            other.wf(),
        ensures
            r == self.hull(*other),
            r.wf(),
    {
        LFRegion {
            left: self.left.min(other.left),
            top: self.top.min(other.top),
            right: self.right.max(other.right),
            bottom: self.bottom.max(other.bottom),
        }
    }

    /// What [`LFRegion::int_region`] gives.
    pub open spec fn int_spec(self) -> LRegion {
        let left = clamp_i32(self.left.floor_spec());
        let top = clamp_i32(self.top.floor_spec());
        LRegion {
            x: left as i32,
            y: top as i32,
            width: (clamp_i32(self.right.ceil_spec()) - left) as i32,
            height: (clamp_i32(self.bottom.ceil_spec()) - top) as i32,
        }
    }

    /// The sides of the enclosing region of whole pixels fit in an `i32`.
    pub open spec fn int_fits(self) -> bool {
        &&& i32::MIN <= clamp_i32(self.right.ceil_spec()) - clamp_i32(self.left.floor_spec())
            <= i32::MAX
        &&& i32::MIN <= clamp_i32(self.bottom.ceil_spec()) - clamp_i32(self.top.floor_spec())
            <= i32::MAX
    }

    /// Whether the sides of the enclosing region of whole pixels fit in an `i32`.
    pub fn int_in_range(&self) -> (r: bool)
        requires
            self.wf(),
        ensures
            r == self.int_fits(),
    {
        let left: i64 = saturate(self.left.floor()) as i64;
        let right: i64 = saturate(self.right.ceil()) as i64;
        let top: i64 = saturate(self.top.floor()) as i64;
        let bottom: i64 = saturate(self.bottom.ceil()) as i64;
        -0x8000_0000 <= right - left && right - left <= 0x7fff_ffff && -0x8000_0000 <= bottom - top
            && bottom - top <= 0x7fff_ffff
    }

    /// The smallest region of whole pixels that contains this one.
    pub fn int_region(&self) -> (r: LRegion)
        requires
            self.wf(),
            self.int_fits(),
        ensures
            r == self.int_spec(),
    {
        let left: i32 = saturate(self.left.floor());
        let right: i32 = saturate(self.right.ceil());
        let top: i32 = saturate(self.top.floor());
        let bottom: i32 = saturate(self.bottom.ceil());
        LRegion { x: left, y: top, width: right - left, height: bottom - top }
    }

    /// The middle of two edges.
    pub open spec fn middle(a: Coord, b: Coord) -> Coord {
        Coord {
            num: (a.num * b.den + b.num * a.den) as i128,
            den: (2 * (a.den * b.den)) as i128,
        }
    }

    /// The centre of the region.
    pub open spec fn centre_spec(self) -> LPoint {
        LPoint {
            x: Self::middle(self.left, self.right),
            y: Self::middle(self.top, self.bottom),
        }
    }

    /// The middle of two edges.
    fn middle_of(a: Coord, b: Coord) -> (r: Coord)
        requires
            a.within(EDGE_RANGE as int),
            b.within(EDGE_RANGE as int),
        ensures
            r == Self::middle(a, b),
            0 < r.den <= 2 * MAX_DEN * MAX_DEN,
            -0x1_0000_0000_0000_0000_0000_0000_0000 <= r.num
                <= 0x1_0000_0000_0000_0000_0000_0000_0000,
    {
        proof {
            crate::coord::lemma_cross(a, b);
            crate::coord::lemma_cross(b, a);
            let c = a.den as int;
            let d = b.den as int;
            assert(0 < c * d <= 0x4000_0000_0000_0000) by (nonlinear_arith)
                requires
                    0 < c <= 0x8000_0000,
                    0 < d <= 0x8000_0000,
            ;
        }
        Coord { num: a.num * b.den + b.num * a.den, den: 2 * (a.den * b.den) }
    }

    /// The centre of the region.
    pub fn centre(&self) -> (r: LPoint)
        requires
            self.wf(),
        ensures
            r == self.centre_spec(),
            r.wf(),
    {
        LPoint {
            x: Self::middle_of(self.left, self.right),
            y: Self::middle_of(self.top, self.bottom),
        }
    }
}

/// The first window from position `from` on that covers `point`.
pub open spec fn window_under(windows: Seq<Window>, point: LPoint, from: int) -> Option<int>
    decreases windows.len() - from,
{
    if from < 0 || from >= windows.len() {
        None
    } else if windows[from].region_spec().covers(point) {
        Some(from)
    } else {
        window_under(windows, point, from + 1)
    }
}

/// The first window that covers `point`.
pub fn find_window(windows: &Vec<Window>, point: LPoint) -> (r: Option<usize>)
    requires
        point.wf(),
        forall|k: int| 0 <= k < windows@.len() ==> (#[trigger] windows@[k]).wf(),
    ensures
        match r {
            Some(i) => i < windows@.len() && window_under(windows@, point, 0) == Some(i as int),
            None => window_under(windows@, point, 0) is None,
        },
{
    let mut i: usize = 0;
    while i < windows.len()
        invariant
            i <= windows@.len(),
            point.wf(),
            forall|k: int| 0 <= k < windows@.len() ==> (#[trigger] windows@[k]).wf(),
            window_under(windows@, point, 0) == window_under(windows@, point, i as int),
        decreases windows@.len() - i,
    {
        if windows[i].region().contains(point) {
            return Some(i);
        }
        i = i + 1;
    }
    None
}

/// The window found is the first one that covers the point, and there is one if any does.
pub proof fn lemma_window_under(windows: Seq<Window>, point: LPoint, from: int)
    requires
        0 <= from,
    ensures
        match window_under(windows, point, from) {
            Some(i) => from <= i < windows.len() && windows[i].region_spec().covers(point)
                && forall|k: int|
                from <= k < i ==> !(#[trigger] windows[k]).region_spec().covers(point),
            None => forall|k: int|
                from <= k < windows.len() ==> !(#[trigger] windows[k]).region_spec().covers(point),
        },
    decreases windows.len() - from,
{
    if from < windows.len() && !windows[from].region_spec().covers(point) {
        lemma_window_under(windows, point, from + 1);
    }
}

impl LFRegion {
    /// Takes out the first window that covers the centre of the region, if there is one.
    pub fn best_window(&self, windows: &mut Vec<Window>) -> (r: Option<Window>)
        requires
            self.wf(),
            forall|k: int| 0 <= k < old(windows)@.len() ==> (#[trigger] old(windows)@[k]).wf(),
        ensures
            match window_under(old(windows)@, self.centre_spec(), 0) {
                Some(i) => r == Some(old(windows)@[i]) && final(windows)@ == old(windows)@.remove(
                    i,
                ),
                None => r is None && final(windows)@ == old(windows)@,
            },
    {
        let point = self.centre();
        match find_window(windows, point) {
            Some(i) => Some(windows.remove(i)),
            None => None,
        }
    }
}

impl From<LRegion> for LFRegion {
    fn from(r: LRegion) -> (l: Self) {
        LFRegion::from_region(r)
    }
}

impl vstd::std_specs::convert::FromSpecImpl<LRegion> for LFRegion {
    open spec fn obeys_from_spec() -> bool {
        true
    }

    open spec fn from_spec(r: LRegion) -> Self {
        LFRegion::of(r)
    }
}

impl LRegion {
    /// The far edges of the region fit in an `i32`.
    pub open spec fn fits(self) -> bool {
        &&& i32::MIN <= self.x + self.width <= i32::MAX
        &&& i32::MIN <= self.y + self.height <= i32::MAX
    }

    /// The region covers `point`.
    pub open spec fn covers(self, point: LPoint) -> bool {
        &&& point.x.ge_int(self.x as int)
        &&& !point.x.ge_int(self.x + self.width)
        &&& point.y.ge_int(self.y as int)
        &&& !point.y.ge_int(self.y + self.height)
    }

    /// The region, with half a pixel around it, covers `point`.
    pub open spec fn nearly_covers(self, point: LPoint) -> bool {
        &&& 2 * self.x * point.x.den <= 2 * point.x.num + point.x.den
        &&& 2 * (self.x + self.width) * point.x.den > 2 * point.x.num - point.x.den
        &&& 2 * self.y * point.y.den <= 2 * point.y.num + point.y.den
        &&& 2 * (self.y + self.height) * point.y.den > 2 * point.y.num - point.y.den
    }

    /// A local point lies on a monitor that has this logical region.
    pub open spec fn holds_mouse(self, point: MLPoint) -> bool {
        &&& point.x.ge_int(0)
        &&& !point.x.ge_int(self.width as int)
        &&& point.y.ge_int(0)
        &&& !point.y.ge_int(self.height as int)
    }

    /// The region covers the pixel at `(x, y)`.
    pub open spec fn has(self, x: int, y: int) -> bool {
        &&& self.x <= x < self.x + self.width
        &&& self.y <= y < self.y + self.height
    }

    /// Whether the far edges of the region fit in an `i32`.
    pub fn in_range(&self) -> (r: bool)
        ensures
            r == self.fits(),
    {
        let right: i64 = self.x as i64 + self.width as i64;
        let bottom: i64 = self.y as i64 + self.height as i64;
        -0x8000_0000 <= right && right <= 0x7fff_ffff && -0x8000_0000 <= bottom && bottom
            <= 0x7fff_ffff
    }

    /// Whether `point` lies in the region.
    pub fn contains(&self, point: LPoint) -> (r: bool)
        requires
            self.fits(),
            point.wf(),
        ensures
            r == self.covers(point),
    {
        let right: i32 = self.x + self.width;
        let bottom: i32 = self.y + self.height;
        proof {
            lemma_edge_product(self.x as int, point.x.den as int);
            lemma_edge_product(right as int, point.x.den as int);
            lemma_edge_product(self.y as int, point.y.den as int);
            lemma_edge_product(bottom as int, point.y.den as int);
        }
        self.x as i128 * point.x.den <= point.x.num && right as i128 * point.x.den > point.x.num
            && self.y as i128 * point.y.den <= point.y.num && bottom as i128 * point.y.den
            > point.y.num
    }

    /// Whether `point` lies in the region or at most half a pixel outside it.
    ///
    /// For when no region contains a point. Trying this first could give a point to the wrong one
    /// of two neighbours.
    pub fn contains_lenient(&self, point: LPoint) -> (r: bool)
        requires
            self.fits(),
            point.wf(),
        ensures
            r == self.nearly_covers(point),
    {
        let right: i32 = self.x + self.width;
        let bottom: i32 = self.y + self.height;
        proof {
            lemma_edge_product(self.x as int, point.x.den as int);
            lemma_edge_product(right as int, point.x.den as int);
            lemma_edge_product(self.y as int, point.y.den as int);
            lemma_edge_product(bottom as int, point.y.den as int);
            assert(2 * self.x * point.x.den == 2 * (self.x * point.x.den)) by (nonlinear_arith);
            assert(2 * self.y * point.y.den == 2 * (self.y * point.y.den)) by (nonlinear_arith);
            assert(2 * right * point.x.den == 2 * (right * point.x.den)) by (nonlinear_arith);
            assert(2 * bottom * point.y.den == 2 * (bottom * point.y.den)) by (nonlinear_arith);
        }
        2 * (self.x as i128 * point.x.den) <= 2 * point.x.num + point.x.den && 2 * (right as i128
            * point.x.den) > 2 * point.x.num - point.x.den && 2 * (self.y as i128 * point.y.den)
            <= 2 * point.y.num + point.y.den && 2 * (bottom as i128 * point.y.den) > 2
            * point.y.num - point.y.den
    }

    /// Whether a local point lies on a monitor that has this logical region.
    pub fn valid_mouse(&self, point: MLPoint) -> (r: bool)
        requires
            point.within(LOCAL_RANGE as int),
        ensures
            r == self.holds_mouse(point),
    {
        proof {
            lemma_bounds(point.x, LOCAL_RANGE as int);
            lemma_bounds(point.y, LOCAL_RANGE as int);
            lemma_edge_product(self.width as int, point.x.den as int);
            lemma_edge_product(self.height as int, point.y.den as int);
        }
        point.x.num >= 0 && point.x.num < self.width as i128 * point.x.den && point.y.num >= 0
            && point.y.num < self.height as i128 * point.y.den
    }

    /// What [`LRegion::intersect`] gives.
    pub open spec fn shared(self, other: Self) -> Option<Self> {
        let left = if self.x > other.x {
            self.x as int
        } else {
            other.x as int
        };
        let right = if self.x + self.width < other.x + other.width {
            self.x + self.width
        } else {
            other.x + other.width
        };
        let top = if self.y > other.y {
            self.y as int
        } else {
            other.y as int
        };
        let bottom = if self.y + self.height < other.y + other.height {
            self.y + self.height
        } else {
            other.y + other.height
        };
        if right > left && bottom > top {
            Some(
                LRegion {
                    x: left as i32,
                    y: top as i32,
                    width: (right - left) as i32,
                    height: (bottom - top) as i32,
                },
            )
        } else {
            None
        }
    }

    /// The part that two regions share, unless it is empty.
    pub fn intersect(self, other: &Self) -> (r: Option<Self>)
        requires
            self.fits(),
            other.fits(),
        ensures
            r == self.shared(*other),
            r matches Some(m) ==> m.fits() && m.width > 0 && m.height > 0 && forall|x: int, y: int|
                #[trigger] m.has(x, y) <==> self.has(x, y) && other.has(x, y),
            r is None ==> forall|x: int, y: int|
                !(#[trigger] self.has(x, y) && #[trigger] other.has(x, y)),
    {
        let left: i32 = if self.x > other.x { self.x } else { other.x };
        let right: i32 = if self.x + self.width < other.x + other.width {
            self.x + self.width
        } else {
            other.x + other.width
        };
        let top: i32 = if self.y > other.y { self.y } else { other.y };
        let bottom: i32 = if self.y + self.height < other.y + other.height {
            self.y + self.height
        } else {
            other.y + other.height
        };
        if right > left && bottom > top {
            Some(LRegion { x: left, y: top, width: right - left, height: bottom - top })
        } else {
            None
        }
    }

    /// Whether the region has no width or no height.
    pub fn is_empty(&self) -> (r: bool)
        ensures
            r == (self.width == 0 || self.height == 0),
    {
        self.width == 0 || self.height == 0
    }
}

/// A coordinate stays in range when it is moved by less than a monitor can be away.
pub proof fn lemma_plus_within(c: Coord, n: int, range: int)
    requires
        c.within(range),
        0 <= range <= EDGE_RANGE,
        -0x8000_0000 <= n <= 0x8000_0000,
    ensures
        c.plus_int(n).within(range + 0x8000_0000),
        c.plus_int(n).num == c.num + n * c.den,
        c.plus_int(n).den == c.den,
{
    let d = c.den as int;
    assert(-0x8000_0000 * d <= n * d <= 0x8000_0000 * d) by (nonlinear_arith)
        requires
            -0x8000_0000 <= n <= 0x8000_0000,
            0 < d,
    ;
    assert(range * d <= 0x100_0000_0000 * d && -range * d >= -0x100_0000_0000 * d)
        by (nonlinear_arith)
        requires
            0 <= range <= 0x100_0000_0000,
            0 < d,
    ;
    assert(-(range + 0x8000_0000) * d == -range * d - 0x8000_0000 * d && (range + 0x8000_0000) * d
        == range * d + 0x8000_0000 * d) by (nonlinear_arith);
}

/// The product of an edge and a denominator fits in an `i128` with room to spare.
proof fn lemma_edge_product(edge: int, den: int)
    requires
        -0x8000_0000 <= edge <= 0x7fff_ffff,
        0 < den <= 2 * MAX_DEN * MAX_DEN,
    ensures
        -0x4000_0000_0000_0000_0000_0000 <= edge * den <= 0x4000_0000_0000_0000_0000_0000,
{
    assert(-0x4000_0000_0000_0000_0000_0000 <= edge * den <= 0x4000_0000_0000_0000_0000_0000)
        by (nonlinear_arith)
        requires
            -0x8000_0000 <= edge <= 0x7fff_ffff,
            0 < den <= 0x8000_0000_0000_0000,
    ;
}

impl MRegion {
    /// The region covers the pixel at `(x, y)`.
    pub open spec fn has(self, x: int, y: int) -> bool {
        &&& self.x <= x < self.x + self.width
        &&& self.y <= y < self.y + self.height
    }

    /// The region lies within a picture of the given size.
    pub open spec fn inside(self, width: int, height: int) -> bool {
        &&& 0 <= self.x
        &&& 0 <= self.y
        &&& 0 <= self.width
        &&& 0 <= self.height
        &&& self.x + self.width <= width
        &&& self.y + self.height <= height
    }

    /// Whether the region lies within a picture of the given size.
    pub fn lies_inside(&self, width: usize, height: usize) -> (r: bool)
        ensures
            r == self.inside(width as int, height as int),
    {
        0 <= self.x && 0 <= self.y && 0 <= self.width && 0 <= self.height && self.x as i128
            + self.width as i128 <= width as i128 && self.y as i128 + self.height as i128
            <= height as i128
    }

    /// Whether the region has no width or no height.
    pub fn is_empty(&self) -> (r: bool)
        ensures
            r == (self.width == 0 || self.height == 0),
    {
        self.width == 0 || self.height == 0
    }

    /// `other` does not reach over any edge of this region.
    pub open spec fn encloses(self, other: Self) -> bool {
        &&& self.x <= other.x
        &&& self.y <= other.y
        &&& other.x + other.width <= self.x + self.width
        &&& other.y + other.height <= self.y + self.height
    }

    /// Whether `other` does not reach over any edge of this region.
    pub fn fully_contains(&self, other: &Self) -> (r: bool)
        requires
            i32::MIN <= self.x + self.width <= i32::MAX,
            i32::MIN <= self.y + self.height <= i32::MAX,
            i32::MIN <= other.x + other.width <= i32::MAX,
            i32::MIN <= other.y + other.height <= i32::MAX,
        ensures
            r == self.encloses(*other),
    {
        self.x <= other.x && self.y <= other.y && other.x + other.width <= self.x + self.width
            && other.y + other.height <= self.y + self.height
    }
}

impl ORegion {
    /// Whether the far edges of the region fit in an `i32`.
    pub fn in_range(&self) -> (r: bool)
        ensures
            r == self.fits(),
    {
        let right: i64 = self.x as i64 + self.width as i64;
        let bottom: i64 = self.y as i64 + self.height as i64;
        -0x8000_0000 <= right && right <= 0x7fff_ffff && -0x8000_0000 <= bottom && bottom
            <= 0x7fff_ffff
    }

    /// The far edges of the region fit in an `i32`.
    pub open spec fn fits(self) -> bool {
        &&& i32::MIN <= self.x + self.width <= i32::MAX
        &&& i32::MIN <= self.y + self.height <= i32::MAX
    }

    /// The region covers the pixel at `(x, y)`.
    pub open spec fn has(self, x: int, y: int) -> bool {
        &&& self.x <= x < self.x + self.width
        &&& self.y <= y < self.y + self.height
    }

    /// The ranges `[a, a + al)` and `[b, b + bl)` share an integer.
    pub open spec fn ranges_meet(a: int, al: int, b: int, bl: int) -> bool {
        &&& a < b + bl
        &&& b < a + al
        &&& 0 < al
        &&& 0 < bl
    }

    /// The two regions share a pixel.
    pub open spec fn overlaps(self, other: Self) -> bool {
        &&& Self::ranges_meet(
            self.x as int,
            self.width as int,
            other.x as int,
            other.width as int,
        )
        &&& Self::ranges_meet(
            self.y as int,
            self.height as int,
            other.y as int,
            other.height as int,
        )
    }

    /// How far the range that starts last has to move up to leave the other one.
    pub open spec fn push(a: int, al: int, b: int, bl: int) -> int {
        if a <= b {
            a + al - b
        } else {
            b + bl - a
        }
    }

    /// What [`ORegion::overlap`] gives.
    pub open spec fn overlap_spec(self, other: Self) -> Overlap {
        let x = Self::push(
            self.x as int,
            self.width as int,
            other.x as int,
            other.width as int,
        );
        let y = Self::push(
            self.y as int,
            self.height as int,
            other.y as int,
            other.height as int,
        );
        if !self.overlaps(other) {
            Overlap::Nothing
        } else if x <= y {
            Overlap::X(x as i32)
        } else {
            Overlap::Y(y as i32)
        }
    }

    /// Greedy, prioritize the smallest movement.
    pub fn overlap(&self, other: &Self) -> (r: Overlap)
        requires
            self.fits(),
            other.fits(),
        ensures
            r == self.overlap_spec(*other),
    {
        let left: i32 = if self.x > other.x { self.x } else { other.x };
        let right: i32 = if self.x + self.width < other.x + other.width {
            self.x + self.width
        } else {
            other.x + other.width
        };
        let top: i32 = if self.y > other.y { self.y } else { other.y };
        let bottom: i32 = if self.y + self.height < other.y + other.height {
            self.y + self.height
        } else {
            other.y + other.height
        };
        if right > left && bottom > top {
            let x: i32 = if self.x <= other.x {
                self.x + self.width - other.x
            } else {
                other.x + other.width - self.x
            };
            let y: i32 = if self.y <= other.y {
                self.y + self.height - other.y
            } else {
                other.y + other.height - self.y
            };
            if x <= y {
                Overlap::X(x)
            } else {
                Overlap::Y(y)
            }
        } else {
            Overlap::Nothing
        }
    }
}

/// The sides of a shared part are in order, and it starts within the other region.
pub proof fn lemma_meet_sides(a: LFRegion, b: LFRegion)
    requires
        a.wf(),
        b.wf(),
    ensures
        a.meet(b) matches Some(r) ==> r.left.lt(r.right) && r.top.lt(r.bottom),
{
}

/// Rounding to pixel edges keeps order.
pub proof fn lemma_nearest_monotone(a: Coord, b: Coord, scale: Scale, origin: int)
    requires
        a.den > 0,
        b.den > 0,
        scale.wf(),
        a.le(b),
    ensures
        nearest_edge(a, scale, origin) <= nearest_edge(b, scale, origin),
{
    let an = a.num as int;
    let ad = a.den as int;
    let bn = b.num as int;
    let bd = b.den as int;
    let sn = scale.num as int;
    let sd = scale.den as int;
    let u = (an - origin * ad) * sn;
    let v = (bn - origin * bd) * sn;
    let p = ad * sd;
    let q = bd * sd;
    assert(0 < p && 0 < q) by (nonlinear_arith)
        requires
            ad > 0,
            bd > 0,
            sd > 0,
            p == ad * sd,
            q == bd * sd,
    ;
    let k = sn * sd;
    assert(k > 0) by (nonlinear_arith)
        requires
            k == sn * sd,
            sn > 0,
            sd > 0,
    ;
    let w = an - origin * ad;
    let z = bn - origin * bd;
    assert((w * sn) * (bd * sd) == (w * bd) * (sn * sd)) by (nonlinear_arith);
    assert((z * sn) * (ad * sd) == (z * ad) * (sn * sd)) by (nonlinear_arith);
    assert((an - origin * ad) * bd == an * bd - origin * (ad * bd)) by (nonlinear_arith);
    assert((bn - origin * bd) * ad == bn * ad - origin * (ad * bd)) by (nonlinear_arith);
    assert((an * bd - origin * (ad * bd)) * k <= (bn * ad - origin * (ad * bd)) * k)
        by (nonlinear_arith)
        requires
            an * bd - origin * (ad * bd) <= bn * ad - origin * (ad * bd),
            k > 0,
    ;
    lemma_round_monotone(u, p, v, q);
}

/// `round_div` keeps order.
pub proof fn lemma_round_monotone(u: int, p: int, v: int, q: int)
    requires
        0 < p,
        0 < q,
        u * q <= v * p,
    ensures
        round_div(u, p) <= round_div(v, q),
{
    let a = round_div(u, p);
    let b = round_div(v, q);
    vstd::arithmetic::div_mod::lemma_fundamental_div_mod(2 * u + p, 2 * p);
    vstd::arithmetic::div_mod::lemma_mod_bound(2 * u + p, 2 * p);
    vstd::arithmetic::div_mod::lemma_fundamental_div_mod(2 * v + q, 2 * q);
    vstd::arithmetic::div_mod::lemma_mod_bound(2 * v + q, 2 * q);
    if a > b {
        assert(2 * p * a <= 2 * u + p);
        assert(2 * v + q < 2 * q * b + 2 * q);
        assert(2 * q * b + 2 * q <= 2 * q * a) by (nonlinear_arith)
            requires
                b + 1 <= a,
                q > 0,
        ;
        assert(2 * p * a * q <= (2 * u + p) * q) by (nonlinear_arith)
            requires
                2 * p * a <= 2 * u + p,
                q > 0,
        ;
        assert((2 * v + q) * p < 2 * q * a * p) by (nonlinear_arith)
            requires
                2 * v + q < 2 * q * a,
                p > 0,
        ;
        assert(2 * p * a * q == 2 * q * a * p) by (nonlinear_arith);
        assert((2 * u + p) * q == 2 * (u * q) + p * q) by (nonlinear_arith);
        assert((2 * v + q) * p == 2 * (v * p) + p * q) by (nonlinear_arith);
    }
}

/// The scale in 120ths is the nearest whole number of them, as far as that can be expressed.
pub proof fn scales_are_rounded_to_120ths(m: &Monitor)
    requires
        m.scale.wf(),
    ensures
        ({
            let s = m.fixed_scale_spec();
            let n = m.scale.num as int;
            let d = m.scale.den as int;
            &&& 0 <= s <= u32::MAX
            &&& 2 * (s * d) <= 240 * n + d
            &&& s < u32::MAX ==> 240 * n + d < 2 * (s * d) + 2 * d
        }),
{
    let n = m.scale.num as int;
    let d = m.scale.den as int;
    let q = round_div(120 * n, d);
    vstd::arithmetic::div_mod::lemma_fundamental_div_mod(240 * n + d, 2 * d);
    vstd::arithmetic::div_mod::lemma_mod_bound(240 * n + d, 2 * d);
    assert((2 * d) * q == 2 * (q * d)) by (nonlinear_arith);
    assert(q >= 0) by (nonlinear_arith)
        requires
            2 * (q * d) > 240 * n + d - 2 * d,
            n > 0,
            d > 0,
    ;
    let s = m.fixed_scale_spec();
    assert(s * d <= q * d) by (nonlinear_arith)
        requires
            s <= q,
            d > 0,
    ;
}

/// The centre of a region is as far from its left edge as from its right one, and as far from its
/// top as from its bottom: twice each of its coordinates is the sum of the two edges.
pub proof fn the_centre_is_in_the_middle(r: LFRegion)
    requires
        r.wf(),
    ensures
        ({
            let c = r.centre_spec();
            &&& c.x.den > 0
            &&& c.y.den > 0
            &&& 2 * c.x.num * (r.left.den * r.right.den) == (r.left.num * r.right.den + r.right.num
                * r.left.den) * c.x.den
            &&& 2 * c.y.num * (r.top.den * r.bottom.den) == (r.top.num * r.bottom.den + r.bottom.num
                * r.top.den) * c.y.den
        }),
{
    lemma_middle(r.left, r.right);
    lemma_middle(r.top, r.bottom);
}

proof fn lemma_middle(a: Coord, b: Coord)
    requires
        a.within(EDGE_RANGE as int),
        b.within(EDGE_RANGE as int),
    ensures
        ({
            let c = LFRegion::middle(a, b);
            &&& c.den == 2 * (a.den * b.den)
            &&& c.num == a.num * b.den + b.num * a.den
            &&& c.den > 0
            &&& 2 * c.num * (a.den * b.den) == (a.num * b.den + b.num * a.den) * c.den
        }),
{
    crate::coord::lemma_cross(a, b);
    crate::coord::lemma_cross(b, a);
    let c = a.den as int;
    let d = b.den as int;
    assert(0 < c * d <= 0x4000_0000_0000_0000) by (nonlinear_arith)
        requires
            0 < c <= 0x8000_0000,
            0 < d <= 0x8000_0000,
    ;
    let n = a.num * b.den + b.num * a.den;
    assert(2 * n * (c * d) == n * (2 * (c * d))) by (nonlinear_arith);
}

/// The point `(x, y)`, given as fractions, lies in the window's contents.
pub open spec fn lies_in(w: Window, x: Coord, y: Coord) -> bool {
    let r = w.region_spec();
    &&& r.x * x.den <= x.num
    &&& x.num < (r.x + r.width) * x.den
    &&& r.y * y.den <= y.num
    &&& y.num < (r.y + r.height) * y.den
}

/// The window under a point is the first one whose contents hold it, and there is one if any does.
pub proof fn the_first_window_under_a_point_is_found(windows: Seq<Window>, point: LPoint)
    ensures
        match window_under(windows, point, 0) {
            Some(i) => 0 <= i < windows.len() && lies_in(windows[i], point.x, point.y)
                && forall|k: int|
                0 <= k < i ==> !lies_in(#[trigger] windows[k], point.x, point.y),
            None => forall|k: int|
                0 <= k < windows.len() ==> !lies_in(#[trigger] windows[k], point.x, point.y),
        },
{
    lemma_window_under(windows, point, 0);
    assert forall|k: int| 0 <= k < windows.len() implies lies_in(
        #[trigger] windows[k],
        point.x,
        point.y,
    ) == windows[k].region_spec().covers(point) by {}
}

/// The fraction `a` is at most `b`.
pub open spec fn at_most(a: Coord, b: Coord) -> bool {
    a.num * b.den <= b.num * a.den
}

/// Each edge of the region that encloses two others is that of one of them, and lies at least as
/// far out as that of the other. Each edge of the region that two share is that of one of them, and
/// lies at least as far in; they share one exactly if that has a width and a height.
pub proof fn shared_and_enclosing_regions(a: LFRegion, b: LFRegion)
    requires
        a.wf(),
        b.wf(),
    ensures
        ({
            let h = a.hull(b);
            &&& (h.left == a.left || h.left == b.left) && at_most(h.left, a.left) && at_most(
                h.left,
                b.left,
            )
            &&& (h.top == a.top || h.top == b.top) && at_most(h.top, a.top) && at_most(h.top, b.top)
            &&& (h.right == a.right || h.right == b.right) && at_most(a.right, h.right) && at_most(
                b.right,
                h.right,
            )
            &&& (h.bottom == a.bottom || h.bottom == b.bottom) && at_most(a.bottom, h.bottom)
                && at_most(b.bottom, h.bottom)
        }),
        a.meet(b) matches Some(m) ==> {
            &&& (m.left == a.left || m.left == b.left) && at_most(a.left, m.left) && at_most(
                b.left,
                m.left,
            )
            &&& (m.top == a.top || m.top == b.top) && at_most(a.top, m.top) && at_most(b.top, m.top)
            &&& (m.right == a.right || m.right == b.right) && at_most(m.right, a.right) && at_most(
                m.right,
                b.right,
            )
            &&& (m.bottom == a.bottom || m.bottom == b.bottom) && at_most(m.bottom, a.bottom)
                && at_most(m.bottom, b.bottom)
            &&& !at_most(m.right, m.left)
            &&& !at_most(m.bottom, m.top)
        },
        a.meet(b) is None <==> at_most(a.right, a.left) || at_most(a.right, b.left) || at_most(
            b.right,
            a.left,
        ) || at_most(b.right, b.left) || at_most(a.bottom, a.top) || at_most(a.bottom, b.top)
            || at_most(b.bottom, a.top) || at_most(b.bottom, b.top),
{
    if let Some(m) = a.meet(b) {
        lemma_between(a.left, m.left, m.right, a.right);
        lemma_between(b.left, m.left, m.right, a.right);
        lemma_between(a.left, m.left, m.right, b.right);
        lemma_between(b.left, m.left, m.right, b.right);
        lemma_between(a.top, m.top, m.bottom, a.bottom);
        lemma_between(b.top, m.top, m.bottom, a.bottom);
        lemma_between(a.top, m.top, m.bottom, b.bottom);
        lemma_between(b.top, m.top, m.bottom, b.bottom);
    }
}

/// What lies outside of two different coordinates is different too.
proof fn lemma_between(p: Coord, q: Coord, r: Coord, s: Coord)
    requires
        p.den > 0,
        q.den > 0,
        r.den > 0,
        s.den > 0,
        at_most(p, q),
        !at_most(r, q),
        at_most(r, s),
    ensures
        !at_most(s, p),
{
    let (pn, pd) = (p.num as int, p.den as int);
    let (qn, qd) = (q.num as int, q.den as int);
    let (rn, rd) = (r.num as int, r.den as int);
    let (sn, sd) = (s.num as int, s.den as int);
    assert(pn * rd < rn * pd) by (nonlinear_arith)
        requires
            pn * qd <= qn * pd,
            qn * rd < rn * qd,
            pd > 0,
            qd > 0,
            rd > 0,
    {
        assert((pn * qd) * rd <= (qn * pd) * rd);
        assert((qn * rd) * pd < (rn * qd) * pd);
        assert((pn * rd) * qd < (rn * pd) * qd);
    }
    assert(pn * sd < sn * pd) by (nonlinear_arith)
        requires
            pn * rd < rn * pd,
            rn * sd <= sn * rd,
            pd > 0,
            rd > 0,
            sd > 0,
    {
        assert((pn * rd) * sd < (rn * pd) * sd);
        assert((rn * sd) * pd <= (sn * rd) * pd);
        assert((pn * sd) * rd < (sn * pd) * rd);
    }
}

/// The region of whole pixels is the smallest one around a region: it starts at most one pixel
/// before it and ends at most one pixel after it.
pub proof fn whole_pixels_enclose_tightly(r: LFRegion)
    requires
        r.wf(),
        r.int_fits(),
    ensures
        ({
            let i = r.int_spec();
            let right = i.x + i.width;
            let bottom = i.y + i.height;
            &&& i32::MIN < i.x < i32::MAX ==> i.x * r.left.den <= r.left.num < (i.x + 1) * r.left.den
            &&& i32::MIN < i.y < i32::MAX ==> i.y * r.top.den <= r.top.num < (i.y + 1) * r.top.den
            &&& i32::MIN < right < i32::MAX ==> (right - 1) * r.right.den < r.right.num <= right
                * r.right.den
            &&& i32::MIN < bottom < i32::MAX ==> (bottom - 1) * r.bottom.den < r.bottom.num
                <= bottom * r.bottom.den
        }),
{
    lemma_floor(r.left);
    lemma_floor(r.top);
    lemma_ceil(r.right);
    lemma_ceil(r.bottom);
}

proof fn lemma_floor(c: Coord)
    requires
        c.den > 0,
    ensures
        c.floor_spec() * c.den <= c.num < (c.floor_spec() + 1) * c.den,
{
    let n = c.num as int;
    let d = c.den as int;
    let q = n / d;
    vstd::arithmetic::div_mod::lemma_fundamental_div_mod(n, d);
    vstd::arithmetic::div_mod::lemma_mod_bound(n, d);
    assert(d * q == q * d && (q + 1) * d == q * d + d) by (nonlinear_arith);
}

proof fn lemma_ceil(c: Coord)
    requires
        c.den > 0,
    ensures
        (c.ceil_spec() - 1) * c.den < c.num <= c.ceil_spec() * c.den,
{
    let n = -(c.num as int);
    let d = c.den as int;
    let q = n / d;
    vstd::arithmetic::div_mod::lemma_fundamental_div_mod(n, d);
    vstd::arithmetic::div_mod::lemma_mod_bound(n, d);
    assert(d * q == q * d && (-q - 1) * d == -(q * d) - d && (-q) * d == -(q * d))
        by (nonlinear_arith);
}

/// An edge of a region at `scale` 120ths per logical pixel is the nearest whole pixel.
pub proof fn output_edges_are_nearest(c: Coord, scale: int)
    requires
        c.within(EDGE_RANGE as int),
        0 <= scale <= u32::MAX,
    ensures
        ({
            let e = LFRegion::scaled_edge(c, scale);
            i32::MIN < e < i32::MAX ==> 240 * (e * c.den) <= 2 * (c.num * scale) + 120 * c.den
                && 2 * (c.num * scale) + 120 * c.den < 240 * (e * c.den) + 240 * c.den
        }),
{
    let d = c.den as int;
    let a = c.num * scale + 60 * d;
    let q = a / (120 * d);
    vstd::arithmetic::div_mod::lemma_fundamental_div_mod(a, 120 * d);
    vstd::arithmetic::div_mod::lemma_mod_bound(a, 120 * d);
    assert((120 * d) * q == 120 * (q * d)) by (nonlinear_arith);
}

/// A region in output pixels is given by its edges.
pub proof fn output_regions_are_given_by_edges(r: LFRegion, scale: int)
    requires
        r.wf(),
        r.output_fits(scale),
    ensures
        ({
            let o = r.output_spec(scale);
            &&& o.x == LFRegion::scaled_edge(r.left, scale)
            &&& o.y == LFRegion::scaled_edge(r.top, scale)
            &&& o.x + o.width == LFRegion::scaled_edge(r.right, scale)
            &&& o.y + o.height == LFRegion::scaled_edge(r.bottom, scale)
        }),
{
}

/// The edges of a pixel are one pixel apart: `den / num` logical pixels, where the scale is
/// `num / den`. The first pixel starts where its monitor does.
pub proof fn pixels_have_the_size_of_the_scale(m: &Monitor, p: MLPoint)
    requires
        m.scale.wf(),
        p.within(LOCAL_RANGE as int),
    ensures
        ({
            let b = m.pixel_bounds(p);
            &&& b.left.den == m.scale.num && b.right.den == m.scale.num && b.top.den == m.scale.num
                && b.bottom.den == m.scale.num
            &&& b.right.num - b.left.num == m.scale.den
            &&& b.bottom.num - b.top.num == m.scale.den
            &&& exists|k: int|
                b.left.num - m.logical.x * m.scale.num == #[trigger] (k * m.scale.den)
            &&& exists|k: int|
                b.top.num - m.logical.y * m.scale.num == #[trigger] (k * m.scale.den)
        }),
{
    lemma_pixel_range(p.x, m.scale, m.logical.x as int);
    lemma_pixel_range(p.y, m.scale, m.logical.y as int);
    let x = pixel_index(p.x, m.scale);
    let y = pixel_index(p.y, m.scale);
    let d = m.scale.den as int;
    assert((x + 1) * d == x * d + d && (y + 1) * d == y * d + d) by (nonlinear_arith);
    let b = m.pixel_bounds(p);
    let n = m.scale.num as int;
    let ox = m.logical.x as int;
    let oy = m.logical.y as int;
    assert(-0x20_0000_0000_0000_0000 <= x * d + ox * n <= 0x20_0000_0000_0000_0000) by {
        assert(-0x10_0000_0000 * n - d <= x * d <= 0x10_0000_0000 * n);
        assert(-0x8000_0000 * n <= ox * n <= 0x8000_0000 * n);
    }
    assert(-0x20_0000_0000_0000_0000 <= y * d + oy * n <= 0x20_0000_0000_0000_0000) by {
        assert(-0x10_0000_0000 * n - d <= y * d <= 0x10_0000_0000 * n);
        assert(-0x8000_0000 * n <= oy * n <= 0x8000_0000 * n);
    }
    assert(b.left.num - m.logical.x * m.scale.num == x * d);
    assert(b.top.num - m.logical.y * m.scale.num == y * d);
}

/// What of a region lies on a monitor is cut at the nearest pixel edges: `px`, an edge in the
/// monitor's pixels, is at most half a pixel away from the logical edge `c`.
pub open spec fn nearest_pixel_edge(c: Coord, scale: Scale, origin: int, px: int) -> bool {
    let away = (c.num - origin * c.den) * scale.num;
    let unit = c.den * scale.den;
    2 * (px * unit) <= 2 * away + unit && 2 * away + unit < 2 * (px * unit) + 2 * unit
}

proof fn lemma_nearest_edge(c: Coord, scale: Scale, origin: int)
    requires
        c.den > 0,
        scale.wf(),
    ensures
        ({
            let px = nearest_edge(c, scale, origin);
            i32::MIN < px < i32::MAX ==> nearest_pixel_edge(c, scale, origin, px)
        }),
{
    let away = (c.num - origin * c.den) * scale.num;
    let unit = c.den * scale.den;
    assert(unit > 0) by (nonlinear_arith)
        requires
            unit == c.den * scale.den,
            c.den > 0,
            scale.den > 0,
    ;
    let q = (2 * away + unit) / (2 * unit);
    vstd::arithmetic::div_mod::lemma_fundamental_div_mod(2 * away + unit, 2 * unit);
    vstd::arithmetic::div_mod::lemma_mod_bound(2 * away + unit, 2 * unit);
    assert((2 * unit) * q == 2 * (q * unit)) by (nonlinear_arith);
}

/// The part of a region on a monitor is what the two share, cut at the nearest pixel edges, and it
/// lies on the monitor.
pub proof fn parts_are_cut_at_the_nearest_pixels(m: &Monitor, r: LFRegion)
    requires
        m.wf(),
        r.wf(),
        m.physical.width < i32::MAX,
        m.physical.height < i32::MAX,
    ensures
        m.rounded(r) matches Some((l, p)) ==> {
            let o = LFRegion {
                left: Coord { num: m.logical.x as i128, den: 1 },
                top: Coord { num: m.logical.y as i128, den: 1 },
                right: Coord { num: (m.logical.x + m.logical.width) as i128, den: 1 },
                bottom: Coord { num: (m.logical.y + m.logical.height) as i128, den: 1 },
            };
            &&& r.meet(o) == Some(l)
            &&& 0 <= p.x <= p.x + p.width <= m.physical.width
            &&& 0 <= p.y <= p.y + p.height <= m.physical.height
            &&& nearest_pixel_edge(l.left, m.scale, m.logical.x as int, p.x as int)
            &&& nearest_pixel_edge(l.right, m.scale, m.logical.x as int, p.x + p.width)
            &&& nearest_pixel_edge(l.top, m.scale, m.logical.y as int, p.y as int)
            &&& nearest_pixel_edge(l.bottom, m.scale, m.logical.y as int, p.y + p.height)
        },
{
    let logical = LFRegion::of(m.logical);
    lemma_meet_sides(r, logical);
    if let Some((l, p)) = m.rounded(r) {
        lemma_nearest_monotone(l.left, l.right, m.scale, m.logical.x as int);
        lemma_nearest_monotone(l.top, l.bottom, m.scale, m.logical.y as int);
        lemma_nearest_edge(l.left, m.scale, m.logical.x as int);
        lemma_nearest_edge(l.right, m.scale, m.logical.x as int);
        lemma_nearest_edge(l.top, m.scale, m.logical.y as int);
        lemma_nearest_edge(l.bottom, m.scale, m.logical.y as int);
    }
}

/// Two regions that share a pixel are moved apart in the direction that takes less, to the right if
/// both take the same: by as much as the one that starts first, or the first one named, reaches
/// into the other.
pub proof fn overlaps_end_with_the_smaller_move(a: ORegion, b: ORegion)
    requires
        a.fits(),
        b.fits(),
    ensures
        ({
            let shared = a.width > 0 && a.height > 0 && b.width > 0 && b.height > 0 && a.x < b.x
                + b.width && b.x < a.x + a.width && a.y < b.y + b.height && b.y < a.y + a.height;
            let across = if a.x <= b.x {
                a.x + a.width - b.x
            } else {
                b.x + b.width - a.x
            };
            let down = if a.y <= b.y {
                a.y + a.height - b.y
            } else {
                b.y + b.height - a.y
            };
            &&& !shared <==> a.overlap_spec(b) == Overlap::Nothing
            &&& shared && across <= down ==> (a.overlap_spec(b) matches Overlap::X(v) && v == across)
            &&& shared && down < across ==> (a.overlap_spec(b) matches Overlap::Y(v) && v == down)
        }),
{
}

/// A monitor whose two sides have exactly its scale gives a part for every region that it shares
/// something with, and for no other.
pub proof fn touched_monitors_give_a_part(m: &Monitor, r: LFRegion)
    requires
        m.wf(),
        r.wf(),
        m.logical.width * m.scale.num == m.physical.width * m.scale.den,
        m.logical.height * m.scale.num == m.physical.height * m.scale.den,
    ensures
        ({
            let left = Coord { num: m.logical.x as i128, den: 1 };
            let top = Coord { num: m.logical.y as i128, den: 1 };
            let right = Coord { num: (m.logical.x + m.logical.width) as i128, den: 1 };
            let bottom = Coord { num: (m.logical.y + m.logical.height) as i128, den: 1 };
            m.rounded(r) is Some <==> !at_most(r.right, r.left) && !at_most(right, left) && !at_most(
                r.right,
                left,
            ) && !at_most(right, r.left) && !at_most(r.bottom, r.top) && !at_most(bottom, top)
                && !at_most(r.bottom, top) && !at_most(bottom, r.top)
        }),
{
    let o = LFRegion::of(m.logical);
    crate::coord::lemma_int_within(m.logical.x as int, EDGE_RANGE as int);
    crate::coord::lemma_int_within(m.logical.y as int, EDGE_RANGE as int);
    crate::coord::lemma_int_within(m.logical.x + m.logical.width, EDGE_RANGE as int);
    crate::coord::lemma_int_within(m.logical.y + m.logical.height, EDGE_RANGE as int);
    shared_and_enclosing_regions(r, o);
    if let Some(l) = r.meet(o) {
        let x = m.logical.x as int;
        let y = m.logical.y as int;
        lemma_own_edge(x, 0, m.scale, x, 0);
        lemma_own_edge(x + m.logical.width, m.logical.width as int, m.scale, x, m.physical.width as int);
        lemma_own_edge(y, 0, m.scale, y, 0);
        lemma_own_edge(
            y + m.logical.height,
            m.logical.height as int,
            m.scale,
            y,
            m.physical.height as int,
        );
        lemma_nearest_monotone(o.left, l.left, m.scale, x);
        lemma_nearest_monotone(l.right, o.right, m.scale, x);
        lemma_nearest_monotone(o.top, l.top, m.scale, y);
        lemma_nearest_monotone(l.bottom, o.bottom, m.scale, y);
    }
}

/// The edge of a monitor is `physical` of its pixels from its start, if it is `logical` logical
/// pixels from it.
proof fn lemma_own_edge(at: int, logical: int, scale: Scale, origin: int, physical: int)
    requires
        scale.wf(),
        at == origin + logical,
        -0x1_0000_0000 <= at <= 0x1_0000_0000,
        logical * scale.num == physical * scale.den,
        i32::MIN <= physical <= i32::MAX,
    ensures
        nearest_edge(Coord { num: at as i128, den: 1 }, scale, origin) == physical,
{
    crate::pixels::lemma_round_whole(physical, scale.den as int);
    assert((at - origin * 1) * scale.num == physical * scale.den);
    assert(1 * scale.den == scale.den);
}

} // verus!

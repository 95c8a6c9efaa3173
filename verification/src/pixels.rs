//! How logical space and a monitor's pixels correspond.

use vstd::prelude::*;

use crate::coord::{max_coord, min_coord, round_div, Coord, LOCAL_RANGE};
use crate::util::{
    nearest_edge, pixel_edge, pixel_index, LFRegion, LPoint, LRegion, MLPoint, MRegion, Monitor,
    ORegion, Overlap, Scale,
};

verus! {

/// Pixel `index` lies wholly on a side that is `logical` logical and `physical` physical pixels
/// long.
pub open spec fn on_side(index: int, scale: Scale, logical: int, physical: int) -> bool {
    &&& 0 <= index < physical
    &&& (index + 1) * scale.den <= logical * scale.num
}

/// The pixel that holds `p` lies wholly on the monitor.
pub open spec fn on_monitor(m: &Monitor, p: MLPoint) -> bool {
    &&& on_side(
        pixel_index(p.x, m.scale),
        m.scale,
        m.logical.width as int,
        m.physical.width as int,
    )
    &&& on_side(
        pixel_index(p.y, m.scale),
        m.scale,
        m.logical.height as int,
        m.physical.height as int,
    )
}

/// `a` and `b`, the smaller first.
pub open spec fn lesser(a: int, b: int) -> int {
    if a <= b {
        a
    } else {
        b
    }
}

/// `a` and `b`, the larger first.
pub open spec fn greater(a: int, b: int) -> int {
    if a <= b {
        b
    } else {
        a
    }
}

/// The pixels from the one under `p` to the one under `q`, both included.
pub open spec fn pixel_span(m: &Monitor, p: MLPoint, q: MLPoint) -> MRegion {
    let px = pixel_index(p.x, m.scale);
    let py = pixel_index(p.y, m.scale);
    let qx = pixel_index(q.x, m.scale);
    let qy = pixel_index(q.y, m.scale);
    MRegion {
        x: lesser(px, qx) as i32,
        y: lesser(py, qy) as i32,
        width: (greater(px, qx) - lesser(px, qx) + 1) as i32,
        height: (greater(py, qy) - lesser(py, qy) + 1) as i32,
    }
}

/// Rounding a whole number changes nothing.
pub proof fn lemma_round_whole(i: int, k: int)
    requires
        k > 0,
    ensures
        round_div(i * k, k) == i,
{
    assert(2 * (i * k) + k == i * (2 * k) + k) by (nonlinear_arith);
    vstd::arithmetic::div_mod::lemma_fundamental_div_mod_converse(i * (2 * k) + k, 2 * k, i, k);
}

/// The edges before pixels in range are exact, come in the order of their pixels, and round back
/// to them.
proof fn lemma_edge(i: int, scale: Scale, origin: int)
    requires
        scale.wf(),
        0 <= i <= 0x7fff_ffff,
        -0x8000_0000 <= origin <= 0x7fff_ffff,
    ensures
        pixel_edge(i, scale, origin).num == i * scale.den + origin * scale.num,
        pixel_edge(i, scale, origin).den == scale.num,
        nearest_edge(pixel_edge(i, scale, origin), scale, origin) == i,
{
    let sn = scale.num as int;
    let sd = scale.den as int;
    assert(0 <= i * sd <= 0x4000_0000_0000_0000) by (nonlinear_arith)
        requires
            0 <= i <= 0x7fff_ffff,
            0 < sd <= 0x8000_0000,
    ;
    assert(-0x4000_0000_0000_0000 <= origin * sn <= 0x4000_0000_0000_0000) by (nonlinear_arith)
        requires
            -0x8000_0000 <= origin <= 0x7fff_ffff,
            0 < sn <= 0x8000_0000,
    ;
    let k = sn * sd;
    assert(k > 0) by (nonlinear_arith)
        requires
            k == sn * sd,
            sn > 0,
            sd > 0,
    ;
    assert((i * sd) * sn == i * (sn * sd)) by (nonlinear_arith);
    lemma_round_whole(i, k);
}

/// One side of a drag: the hull of two pixels, cut to the monitor, keeps the pixels' own edges.
proof fn lemma_side(a: int, b: int, scale: Scale, origin: int, logical: int, physical: int)
    requires
        scale.wf(),
        on_side(a, scale, logical, physical),
        on_side(b, scale, logical, physical),
        physical <= i32::MAX,
        -0x8000_0000 <= origin <= 0x7fff_ffff,
        -0x8000_0000 <= origin + logical <= 0x7fff_ffff,
    ensures
        ({
            let low = min_coord(pixel_edge(a, scale, origin), pixel_edge(b, scale, origin));
            let high = max_coord(
                pixel_edge(a + 1, scale, origin),
                pixel_edge(b + 1, scale, origin),
            );
            let left = max_coord(low, Coord::of_int(origin));
            let right = min_coord(high, Coord::of_int(origin + logical));
            &&& left == pixel_edge(lesser(a, b), scale, origin)
            &&& right == pixel_edge(greater(a, b) + 1, scale, origin)
            &&& left.lt(right)
        }),
{
    let sn = scale.num as int;
    let sd = scale.den as int;
    lemma_edge(a, scale, origin);
    lemma_edge(b, scale, origin);
    lemma_edge(a + 1, scale, origin);
    lemma_edge(b + 1, scale, origin);
    lemma_edge_order(a, b, scale, origin);
    lemma_edge_order(b, a, scale, origin);
    lemma_edge_order(a + 1, b + 1, scale, origin);
    lemma_edge_order(b + 1, a + 1, scale, origin);
    lemma_edge_order(lesser(a, b), greater(a, b) + 1, scale, origin);
    let i = lesser(a, b);
    let j = greater(a, b) + 1;
    assert(0 <= i * sd) by (nonlinear_arith)
        requires
            0 <= i,
            0 < sd,
    ;
    assert((origin + logical) * sn == origin * sn + logical * sn) by (nonlinear_arith);
    assert(j * sd <= logical * sn);
}

/// Edges come in the order of their pixels.
proof fn lemma_edge_order(i: int, j: int, scale: Scale, origin: int)
    requires
        scale.wf(),
        0 <= i <= 0x7fff_ffff,
        0 <= j <= 0x7fff_ffff,
        -0x8000_0000 <= origin <= 0x7fff_ffff,
    ensures
        pixel_edge(i, scale, origin).lt(pixel_edge(j, scale, origin)) <==> i < j,
{
    let sn = scale.num as int;
    let sd = scale.den as int;
    lemma_edge(i, scale, origin);
    lemma_edge(j, scale, origin);
    let u = i * sd + origin * sn;
    let v = j * sd + origin * sn;
    assert(i < j ==> i * sd < j * sd) by (nonlinear_arith)
        requires
            sd > 0,
    ;
    assert(i >= j ==> i * sd >= j * sd) by (nonlinear_arith)
        requires
            sd > 0,
    ;
    assert(u < v ==> u * sn < v * sn) by (nonlinear_arith)
        requires
            sn > 0,
    ;
    assert(u >= v ==> u * sn >= v * sn) by (nonlinear_arith)
        requires
            sn > 0,
    ;
}

/// A drag on one monitor captures exactly the pixels from the first to the last: dragging from
/// the pixel under `p` to the pixel under `q` and cutting the result to the monitor gives the
/// span of pixels between them, both included.
pub proof fn drag_is_pixel_perfect(m: &Monitor, p: MLPoint, q: MLPoint)
    requires
        m.wf(),
        on_monitor(m, p),
        on_monitor(m, q),
    ensures
        m.rounded(m.pixel_bounds(q).hull(m.pixel_bounds(p))) matches Some((_, r)) && r
            == pixel_span(m, p, q),
{
    let px = pixel_index(p.x, m.scale);
    let py = pixel_index(p.y, m.scale);
    let qx = pixel_index(q.x, m.scale);
    let qy = pixel_index(q.y, m.scale);
    let ox = m.logical.x as int;
    let oy = m.logical.y as int;
    lemma_side(qx, px, m.scale, ox, m.logical.width as int, m.physical.width as int);
    lemma_side(qy, py, m.scale, oy, m.logical.height as int, m.physical.height as int);
    lemma_edge(lesser(px, qx), m.scale, ox);
    lemma_edge(greater(px, qx) + 1, m.scale, ox);
    lemma_edge(lesser(py, qy), m.scale, oy);
    lemma_edge(greater(py, qy) + 1, m.scale, oy);
}

/// A pointer position on a monitor whose two sides have exactly the monitor's scale lies on a
/// pixel of that monitor.
pub proof fn pointer_lies_on_a_pixel(m: &Monitor, p: MLPoint)
    requires
        m.wf(),
        p.within(LOCAL_RANGE as int),
        m.logical.holds_mouse(p),
        m.logical.width * m.scale.num == m.physical.width * m.scale.den,
        m.logical.height * m.scale.num == m.physical.height * m.scale.den,
    ensures
        on_monitor(m, p),
{
    lemma_on_side(p.x, m.scale, m.logical.width as int, m.physical.width as int);
    lemma_on_side(p.y, m.scale, m.logical.height as int, m.physical.height as int);
}

/// One side of the statement above.
proof fn lemma_on_side(c: Coord, scale: Scale, logical: int, physical: int)
    requires
        c.den > 0,
        scale.wf(),
        c.ge_int(0),
        !c.ge_int(logical),
        logical * scale.num == physical * scale.den,
    ensures
        on_side(pixel_index(c, scale), scale, logical, physical),
{
    let n = c.num as int;
    let b = c.den as int;
    let sn = scale.num as int;
    let sd = scale.den as int;
    let q = pixel_index(c, scale);
    let k = b * sd;
    assert(k > 0) by (nonlinear_arith)
        requires
            k == b * sd,
            b > 0,
            sd > 0,
    ;
    assert(n * sn >= 0) by (nonlinear_arith)
        requires
            n >= 0,
            sn > 0,
    ;
    assert(n * sn < (logical * b) * sn) by (nonlinear_arith)
        requires
            n < logical * b,
            sn > 0,
    ;
    assert((logical * b) * sn == (logical * sn) * b) by (nonlinear_arith);
    assert((physical * sd) * b == physical * (b * sd)) by (nonlinear_arith);
    assert(0 <= n * sn < physical * k);
    vstd::arithmetic::div_mod::lemma_div_pos_is_pos(n * sn, k);
    vstd::arithmetic::div_mod::lemma_fundamental_div_mod(n * sn, k);
    vstd::arithmetic::div_mod::lemma_mod_bound(n * sn, k);
    assert(q < physical) by (nonlinear_arith)
        requires
            n * sn == k * q + (n * sn) % k,
            (n * sn) % k >= 0,
            n * sn < physical * k,
            k > 0,
    ;
    assert((q + 1) * sd <= physical * sd) by (nonlinear_arith)
        requires
            q + 1 <= physical,
            sd > 0,
    ;
}

/// The bounds of the pixel under a point contain that point.
pub proof fn pixel_bounds_contain_the_point(m: &Monitor, p: MLPoint)
    requires
        m.scale.wf(),
        p.within(LOCAL_RANGE as int),
    ensures
        ({
            let bounds = m.pixel_bounds(p);
            let point = m.to_global(p);
            &&& bounds.left.le(point.x) && point.x.lt(bounds.right)
            &&& bounds.top.le(point.y) && point.y.lt(bounds.bottom)
        }),
{
    lemma_edges_around(p.x, m.scale, m.logical.x as int);
    lemma_edges_around(p.y, m.scale, m.logical.y as int);
}

/// One side of the statement above.
proof fn lemma_edges_around(c: Coord, scale: Scale, origin: int)
    requires
        c.within(LOCAL_RANGE as int),
        scale.wf(),
        -0x8000_0000 <= origin <= 0x7fff_ffff,
    ensures
        pixel_edge(pixel_index(c, scale), scale, origin).le(c.plus_int(origin)),
        c.plus_int(origin).lt(pixel_edge(pixel_index(c, scale) + 1, scale, origin)),
{
    crate::util::lemma_pixel_range(c, scale, origin);
    crate::coord::lemma_bounds(c, LOCAL_RANGE as int);
    let n = c.num as int;
    let b = c.den as int;
    let sn = scale.num as int;
    let sd = scale.den as int;
    let q = pixel_index(c, scale);
    let k = b * sd;
    let ob = origin * b;
    assert(-0x4000_0000_0000_0000 <= ob <= 0x4000_0000_0000_0000) by (nonlinear_arith)
        requires
            ob == origin * b,
            -0x8000_0000 <= origin <= 0x7fff_ffff,
            0 < b <= 0x8000_0000,
    ;
    vstd::arithmetic::div_mod::lemma_fundamental_div_mod(n * sn, k);
    vstd::arithmetic::div_mod::lemma_mod_bound(n * sn, k);
    assert((q + 1) * sd == q * sd + sd) by (nonlinear_arith);
    let e = q * sd + origin * sn;
    assert((q * sd + origin * sn) * b == (b * sd) * q + (origin * b) * sn) by (nonlinear_arith);
    assert((q * sd + sd + origin * sn) * b == (b * sd) * q + b * sd + (origin * b) * sn)
        by (nonlinear_arith);
    assert((n + ob) * sn == n * sn + ob * sn) by (nonlinear_arith);
    let low = pixel_edge(q, scale, origin);
    let high = pixel_edge(q + 1, scale, origin);
    let moved = c.plus_int(origin);
    assert(0 < sn <= 0x8000_0000 && 0 < sd <= 0x8000_0000);
    assert(-0x10_0000_0000 * sn - sd <= q * sd <= 0x10_0000_0000 * sn);
    assert(-0x8000_0000 * sn <= origin * sn <= 0x8000_0000 * sn);
    assert(-0x20_0000_0000_0000_0000 <= e <= 0x20_0000_0000_0000_0000);
    assert(low.num == e && low.den == sn);
    assert(high.num == e + sd && high.den == sn);
    assert(moved.num == n + ob && moved.den == b);
    assert(e * b <= (n + ob) * sn);
    assert((e + sd) * b > (n + ob) * sn);
}

/// Moving a point to global space and back changes nothing.
pub proof fn local_and_global_are_inverse(m: &Monitor, p: MLPoint)
    requires
        p.within(LOCAL_RANGE as int),
    ensures
        m.to_local(m.to_global(p)) == p,
{
    lemma_shift_back(p.x, m.logical.x as int);
    lemma_shift_back(p.y, m.logical.y as int);
}

/// One coordinate of the statement above.
proof fn lemma_shift_back(c: Coord, by: int)
    requires
        c.within(LOCAL_RANGE as int),
        -0x8000_0000 <= by <= 0x7fff_ffff,
    ensures
        c.plus_int(by).plus_int(-by) == c,
{
    crate::coord::lemma_bounds(c, LOCAL_RANGE as int);
    let d = c.den as int;
    assert(-0x4000_0000_0000_0000 <= by * d <= 0x4000_0000_0000_0000) by (nonlinear_arith)
        requires
            -0x8000_0000 <= by <= 0x7fff_ffff,
            0 < d <= 0x8000_0000,
    ;
    assert(-by * d == -(by * d)) by (nonlinear_arith);
}

/// A point on a monitor is covered by the monitor's logical region, and the other way round.
pub proof fn valid_mouse_is_contained(m: &Monitor, p: MLPoint)
    requires
        p.within(LOCAL_RANGE as int),
    ensures
        m.logical.holds_mouse(p) <==> m.logical.covers(m.to_global(p)),
{
    let l = m.logical;
    lemma_shift_compare(p.x, l.x as int, 0);
    lemma_shift_compare(p.x, l.x as int, l.width as int);
    lemma_shift_compare(p.y, l.y as int, 0);
    lemma_shift_compare(p.y, l.y as int, l.height as int);
}

/// Moving a coordinate and a bound together keeps their order.
proof fn lemma_shift_compare(c: Coord, by: int, bound: int)
    requires
        c.within(LOCAL_RANGE as int),
        -0x8000_0000 <= by <= 0x7fff_ffff,
    ensures
        c.ge_int(bound) <==> c.plus_int(by).ge_int(by + bound),
{
    crate::coord::lemma_bounds(c, LOCAL_RANGE as int);
    let d = c.den as int;
    assert(-0x4000_0000_0000_0000 <= by * d <= 0x4000_0000_0000_0000) by (nonlinear_arith)
        requires
            -0x8000_0000 <= by <= 0x7fff_ffff,
            0 < d <= 0x8000_0000,
    ;
    assert((by + bound) * d == by * d + bound * d) by (nonlinear_arith);
}

/// A region that a point lies in also holds it leniently.
pub proof fn containment_is_lenient_containment(r: LRegion, p: LPoint)
    requires
        p.wf(),
        r.covers(p),
    ensures
        r.nearly_covers(p),
{
    assert(2 * r.x * p.x.den == 2 * (r.x * p.x.den)) by (nonlinear_arith);
    assert(2 * r.y * p.y.den == 2 * (r.y * p.y.den)) by (nonlinear_arith);
    assert(2 * (r.x + r.width) * p.x.den == 2 * ((r.x + r.width) * p.x.den)) by (nonlinear_arith);
    assert(2 * (r.y + r.height) * p.y.den == 2 * ((r.y + r.height) * p.y.den))
        by (nonlinear_arith);
}

/// The shared part of two regions lies in both, and their bounding region contains both.
pub proof fn meet_and_hull_bound(a: LFRegion, b: LFRegion)
    requires
        a.wf(),
        b.wf(),
    ensures
        a.meet(b) matches Some(m) ==> a.left.le(m.left) && b.left.le(m.left) && m.right.le(a.right)
            && m.right.le(b.right) && a.top.le(m.top) && b.top.le(m.top) && m.bottom.le(a.bottom)
            && m.bottom.le(b.bottom),
        a.hull(b).left.le(a.left) && a.hull(b).left.le(b.left),
        a.right.le(a.hull(b).right) && b.right.le(a.hull(b).right),
        a.hull(b).top.le(a.top) && a.hull(b).top.le(b.top),
        a.bottom.le(a.hull(b).bottom) && b.bottom.le(a.hull(b).bottom),
{
}

/// Two regions overlap exactly when they share a pixel.
pub proof fn overlap_means_a_shared_pixel(a: ORegion, b: ORegion)
    ensures
        (a.overlap_spec(b) != Overlap::Nothing) <==> exists|x: int, y: int|
            #[trigger] a.has(x, y) && #[trigger] b.has(x, y),
{
    if a.overlaps(b) {
        let x = greater(a.x as int, b.x as int);
        let y = greater(a.y as int, b.y as int);
        assert(a.has(x, y) && b.has(x, y));
    }
    assert(a.overlap_spec(b) == Overlap::Nothing <==> !a.overlaps(b));
}

} // verus!

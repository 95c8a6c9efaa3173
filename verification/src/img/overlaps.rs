//! Moving overlapping regions apart.

use vstd::prelude::*;

use crate::img::{least_x, least_y, lemma_least};
use crate::util::{ORegion, Overlap};

verus! {

/// The pair after the overlap of `a`, which is listed first, and `b` is corrected: whichever
/// starts last in the direction of the smaller movement moves past the other.
pub open spec fn pushed(a: ORegion, b: ORegion) -> (ORegion, ORegion) {
    match a.overlap_spec(b) {
        Overlap::Nothing => (a, b),
        Overlap::X(x) => if a.x <= b.x {
            (a, ORegion { x: (b.x + x) as i32, ..b })
        } else {
            (ORegion { x: (a.x + x) as i32, ..a }, b)
        },
        Overlap::Y(y) => if a.y <= b.y {
            (a, ORegion { y: (b.y + y) as i32, ..b })
        } else {
            (ORegion { y: (a.y + y) as i32, ..a }, b)
        },
    }
}

/// Regions `i` and `j` overlap.
pub open spec fn clash(s: Seq<ORegion>, i: int, j: int) -> bool {
    s[i].overlaps(s[j])
}

/// No two regions overlap.
pub open spec fn clear(s: Seq<ORegion>) -> bool {
    forall|i: int, j: int| 0 <= i < j < s.len() ==> !#[trigger] clash(s, i, j)
}

/// `(i, j)` is the first overlapping pair in the order of `i`, then `j`.
pub open spec fn first_clash(s: Seq<ORegion>, i: int, j: int) -> bool {
    &&& 0 <= i < j < s.len()
    &&& clash(s, i, j)
    &&& forall|k: int, l: int|
        0 <= k < l < s.len() && (k < i || (k == i && l < j)) ==> !#[trigger] clash(s, k, l)
}

/// The regions after the overlap of `i` and `j` is corrected.
pub open spec fn push_apart(s: Seq<ORegion>, i: int, j: int) -> Seq<ORegion> {
    s.update(i, pushed(s[i], s[j]).0).update(j, pushed(s[i], s[j]).1)
}

/// The regions after the first overlap, if there is one, is corrected.
pub open spec fn push_first(s: Seq<ORegion>) -> Seq<ORegion> {
    if clear(s) {
        s
    } else {
        let p = choose|p: (int, int)| first_clash(s, p.0, p.1);
        push_apart(s, p.0, p.1)
    }
}

/// The regions after `n` corrections.
pub open spec fn corrected(s: Seq<ORegion>, n: nat) -> Seq<ORegion>
    decreases n,
{
    if n == 0 {
        s
    } else {
        push_first(corrected(s, (n - 1) as nat))
    }
}

/// The regions once no correction is left to make.
pub open spec fn settled(s: Seq<ORegion>) -> Seq<ORegion> {
    corrected(s, choose|n: nat| clear(corrected(s, n)))
}

/// Where the regions start horizontally.
pub open spec fn starts_x(s: Seq<ORegion>) -> Seq<int> {
    Seq::new(s.len(), |k: int| s[k].x as int)
}

/// Where the regions start vertically.
pub open spec fn starts_y(s: Seq<ORegion>) -> Seq<int> {
    Seq::new(s.len(), |k: int| s[k].y as int)
}

/// How wide the regions are.
pub open spec fn widths(s: Seq<ORegion>) -> Seq<int> {
    Seq::new(s.len(), |k: int| if s[k].width > 0 { s[k].width as int } else { 0 })
}

/// How high the regions are.
pub open spec fn heights(s: Seq<ORegion>) -> Seq<int> {
    Seq::new(s.len(), |k: int| if s[k].height > 0 { s[k].height as int } else { 0 })
}

/// The sum of the first `n` lengths.
pub open spec fn total(lengths: Seq<int>, n: int) -> int
    decreases n,
{
    if n <= 0 {
        0
    } else {
        total(lengths, n - 1) + lengths[n - 1]
    }
}

/// Every region has room to its right, and below, for all regions side by side.
pub open spec fn room(s: Seq<ORegion>) -> bool {
    forall|k: int| 0 <= k < s.len() ==> (#[trigger] s[k]).fits() && s[k].x + total(
        widths(s),
        s.len() as int,
    ) <= i32::MAX && s[k].y + total(heights(s), s.len() as int) <= i32::MAX
}

/// The regions can be moved apart: their far edges are in range and, if any of them overlap, every
/// region has room for all of them.
pub open spec fn movable(s: Seq<ORegion>) -> bool {
    &&& forall|k: int| 0 <= k < s.len() ==> (#[trigger] s[k]).fits()
    &&& !clear(s) ==> room(s)
}

/// The lengths of those of the first `n` ranges that start before `t`.
spec fn before(starts: Seq<int>, lengths: Seq<int>, t: int, n: int) -> int
    decreases n,
{
    if n <= 0 {
        0
    } else {
        before(starts, lengths, t, n - 1) + if starts[n - 1] < t {
            lengths[n - 1]
        } else {
            0
        }
    }
}

/// No range starts further than `limit` plus the lengths of the ranges before it.
spec fn stacked(starts: Seq<int>, lengths: Seq<int>, limit: int) -> bool {
    forall|k: int|
        0 <= k < starts.len() ==> #[trigger] starts[k] <= limit + before(
            starts,
            lengths,
            starts[k],
            starts.len() as int,
        )
}

/// Lengths are not negative.
spec fn nonnegative(lengths: Seq<int>) -> bool {
    forall|k: int| 0 <= k < lengths.len() ==> 0 <= #[trigger] lengths[k]
}

proof fn lemma_before_bounds(starts: Seq<int>, lengths: Seq<int>, t: int, n: int)
    requires
        starts.len() == lengths.len(),
        0 <= n <= starts.len(),
        nonnegative(lengths),
    ensures
        0 <= before(starts, lengths, t, n) <= total(lengths, n),
    decreases n,
{
    if n > 0 {
        lemma_before_bounds(starts, lengths, t, n - 1);
        assert(0 <= lengths[n - 1]);
    }
}

/// A range's own length is not among those before it.
proof fn lemma_before_excludes(starts: Seq<int>, lengths: Seq<int>, k: int, n: int)
    requires
        starts.len() == lengths.len(),
        0 <= k < n <= starts.len(),
        nonnegative(lengths),
    ensures
        before(starts, lengths, starts[k], n) + lengths[k] <= total(lengths, n),
    decreases n,
{
    assert(0 <= lengths[n - 1]);
    if n - 1 == k {
        lemma_before_bounds(starts, lengths, starts[k], n - 1);
    } else {
        lemma_before_excludes(starts, lengths, k, n - 1);
    }
}

/// Moving range `k` from behind `starts[i]` leaves everything before `starts[i]`, and `i` itself,
/// before any later point.
proof fn lemma_before_step(
    starts: Seq<int>,
    lengths: Seq<int>,
    i: int,
    k: int,
    v: int,
    t: int,
    n: int,
)
    requires
        starts.len() == lengths.len(),
        0 <= i < starts.len(),
        0 <= k < starts.len(),
        i != k,
        starts[i] <= starts[k],
        starts[i] < t,
        0 <= n <= starts.len(),
        nonnegative(lengths),
    ensures
        before(starts.update(k, v), lengths, t, n) >= before(starts, lengths, starts[i], n) + if i
            < n {
            lengths[i]
        } else {
            0
        },
    decreases n,
{
    if n > 0 {
        lemma_before_step(starts, lengths, i, k, v, t, n - 1);
        assert(0 <= lengths[n - 1]);
    }
}

/// A move that does not carry range `k` across `t` keeps the lengths before `t`.
proof fn lemma_before_same(starts: Seq<int>, lengths: Seq<int>, k: int, v: int, t: int, n: int)
    requires
        starts.len() == lengths.len(),
        0 <= k < starts.len(),
        (starts[k] < t) == (v < t),
        0 <= n <= starts.len(),
    ensures
        before(starts.update(k, v), lengths, t, n) == before(starts, lengths, t, n),
    decreases n,
{
    if n > 0 {
        lemma_before_same(starts, lengths, k, v, t, n - 1);
    }
}

/// Moving range `k` to the end of a range `i` that does not start after it keeps the ranges
/// stacked.
proof fn lemma_stacked_step(starts: Seq<int>, lengths: Seq<int>, limit: int, i: int, k: int)
    requires
        starts.len() == lengths.len(),
        0 <= i < starts.len(),
        0 <= k < starts.len(),
        i != k,
        nonnegative(lengths),
        starts[i] <= starts[k] < starts[i] + lengths[i],
        stacked(starts, lengths, limit),
    ensures
        stacked(starts.update(k, starts[i] + lengths[i]), lengths, limit),
{
    let v = starts[i] + lengths[i];
    let moved = starts.update(k, v);
    let n = starts.len() as int;
    assert(starts[i] <= limit + before(starts, lengths, starts[i], n));
    assert forall|m: int| 0 <= m < moved.len() implies #[trigger] moved[m] <= limit + before(
        moved,
        lengths,
        moved[m],
        n,
    ) by {
        if m == k {
            lemma_before_step(starts, lengths, i, k, v, v, n);
        } else if starts[k] < starts[m] && starts[m] <= v {
            lemma_before_step(starts, lengths, i, k, v, starts[m], n);
        } else {
            lemma_before_same(starts, lengths, k, v, starts[m], n);
            assert(starts[m] <= limit + before(starts, lengths, starts[m], n));
        }
    }
}

/// Ranges that are stacked below `limit` end at most the total of all lengths above it.
proof fn lemma_stacked_bound(starts: Seq<int>, lengths: Seq<int>, limit: int, k: int)
    requires
        starts.len() == lengths.len(),
        0 <= k < starts.len(),
        nonnegative(lengths),
        stacked(starts, lengths, limit),
    ensures
        starts[k] + lengths[k] <= limit + total(lengths, starts.len() as int),
{
    lemma_before_excludes(starts, lengths, k, starts.len() as int);
    assert(starts[k] <= limit + before(starts, lengths, starts[k], starts.len() as int));
}

proof fn lemma_total_nonnegative(lengths: Seq<int>, n: int)
    requires
        0 <= n <= lengths.len(),
        nonnegative(lengths),
    ensures
        0 <= total(lengths, n),
    decreases n,
{
    if n > 0 {
        lemma_total_nonnegative(lengths, n - 1);
        assert(0 <= lengths[n - 1]);
    }
}

/// The sum of how far the first `n` regions are from the end of the range of `i32`.
spec fn headroom(s: Seq<ORegion>, n: int) -> int
    decreases n,
{
    if n <= 0 {
        0
    } else {
        headroom(s, n - 1) + (i32::MAX - s[n - 1].x) + (i32::MAX - s[n - 1].y)
    }
}

proof fn lemma_headroom_nonnegative(s: Seq<ORegion>, n: int)
    requires
        0 <= n <= s.len(),
    ensures
        0 <= headroom(s, n),
    decreases n,
{
    if n > 0 {
        lemma_headroom_nonnegative(s, n - 1);
    }
}

/// Moving one region right or down takes up headroom.
proof fn lemma_headroom_step(s: Seq<ORegion>, k: int, r: ORegion, n: int)
    requires
        0 <= k < s.len(),
        0 <= n <= s.len(),
        s[k].x + s[k].y < r.x + r.y,
    ensures
        k < n ==> headroom(s.update(k, r), n) < headroom(s, n),
        n <= k ==> headroom(s.update(k, r), n) == headroom(s, n),
    decreases n,
{
    if n > 0 {
        lemma_headroom_step(s, k, r, n - 1);
    }
}

/// What every correction keeps: the sizes, that no region moves left or up, and that the regions
/// stay stacked in both directions.
spec fn kept(start: Seq<ORegion>, s: Seq<ORegion>) -> bool {
    &&& s.len() == start.len()
    &&& forall|k: int|
        0 <= k < s.len() ==> (#[trigger] s[k]).width == start[k].width && s[k].height
            == start[k].height && start[k].x <= s[k].x && start[k].y <= s[k].y
    &&& stacked(
        starts_x(s),
        widths(start),
        i32::MAX - total(widths(start), start.len() as int),
    )
    &&& stacked(
        starts_y(s),
        heights(start),
        i32::MAX - total(heights(start), start.len() as int),
    )
}

proof fn lemma_kept_start(s: Seq<ORegion>)
    requires
        room(s),
    ensures
        kept(s, s),
{
    let n = s.len() as int;
    assert forall|k: int| 0 <= k < n implies #[trigger] starts_x(s)[k] <= i32::MAX - total(
        widths(s),
        n,
    ) + before(starts_x(s), widths(s), starts_x(s)[k], n) by {
        assert(s[k].fits());
        lemma_before_bounds(starts_x(s), widths(s), starts_x(s)[k], n);
    }
    assert forall|k: int| 0 <= k < n implies #[trigger] starts_y(s)[k] <= i32::MAX - total(
        heights(s),
        n,
    ) + before(starts_y(s), heights(s), starts_y(s)[k], n) by {
        assert(s[k].fits());
        lemma_before_bounds(starts_y(s), heights(s), starts_y(s)[k], n);
    }
}

/// Regions that keep what corrections keep have their far edges in range.
proof fn lemma_kept_fits(start: Seq<ORegion>, s: Seq<ORegion>)
    requires
        room(start),
        kept(start, s),
    ensures
        forall|k: int| 0 <= k < s.len() ==> (#[trigger] s[k]).fits(),
{
    let n = s.len() as int;
    assert forall|k: int| 0 <= k < s.len() implies (#[trigger] s[k]).fits() by {
        assert(start[k].fits());
        lemma_stacked_bound(
            starts_x(s),
            widths(start),
            i32::MAX - total(widths(start), start.len() as int),
            k,
        );
        lemma_stacked_bound(
            starts_y(s),
            heights(start),
            i32::MAX - total(heights(start), start.len() as int),
            k,
        );
        assert(starts_x(s)[k] == s[k].x);
        assert(starts_y(s)[k] == s[k].y);
        assert(widths(start)[k] >= s[k].width);
        assert(heights(start)[k] >= s[k].height);
    }
}

/// The smallest starts are those of some regions.
pub(crate) proof fn lemma_least_attained(s: Seq<ORegion>, n: int) -> (r: (int, int))
    requires
        0 < n <= s.len(),
    ensures
        0 <= r.0 < n,
        0 <= r.1 < n,
        s[r.0].x == least_x(s, n),
        s[r.1].y == least_y(s, n),
    decreases n,
{
    if n == 1 {
        (0, 0)
    } else {
        let (i, j) = lemma_least_attained(s, n - 1);
        let i = if s[n - 1].x < least_x(s, n - 1) {
            n - 1
        } else {
            i
        };
        let j = if s[n - 1].y < least_y(s, n - 1) {
            n - 1
        } else {
            j
        };
        (i, j)
    }
}

/// Moving region `k` right or down keeps the smallest starts, if region `i` does not start after
/// it in the direction of the movement.
proof fn lemma_least_kept(s: Seq<ORegion>, i: int, k: int, r: ORegion)
    requires
        0 <= i < s.len(),
        0 <= k < s.len(),
        i != k,
        r.x == s[k].x || s[i].x <= s[k].x <= r.x,
        r.y == s[k].y || s[i].y <= s[k].y <= r.y,
    ensures
        least_x(s.update(k, r), s.len() as int) == least_x(s, s.len() as int),
        least_y(s.update(k, r), s.len() as int) == least_y(s, s.len() as int),
{
    let n = s.len() as int;
    let t = s.update(k, r);
    let (a, b) = lemma_least_attained(s, n);
    let (c, d) = lemma_least_attained(t, n);
    lemma_least(t, n, a);
    lemma_least(t, n, b);
    lemma_least(t, n, i);
    lemma_least(s, n, c);
    lemma_least(s, n, d);
    lemma_least(s, n, i);
}

/// A correction keeps all that and takes up headroom.
proof fn lemma_push_keeps(start: Seq<ORegion>, s: Seq<ORegion>, i: int, j: int)
    requires
        room(start),
        kept(start, s),
        first_clash(s, i, j),
    ensures
        kept(start, push_apart(s, i, j)),
        least_x(push_apart(s, i, j), s.len() as int) == least_x(s, s.len() as int),
        least_y(push_apart(s, i, j), s.len() as int) == least_y(s, s.len() as int),
        headroom(push_apart(s, i, j), s.len() as int) < headroom(s, s.len() as int),
        pushed(s[i], s[j]).0.fits(),
        pushed(s[i], s[j]).1.fits(),
{
    lemma_kept_fits(start, s);
    let a = s[i];
    let b = s[j];
    let n = s.len() as int;
    let wlimit = i32::MAX - total(widths(start), n);
    let hlimit = i32::MAX - total(heights(start), n);
    let t = push_apart(s, i, j);
    assert(a.width == start[i].width && b.width == start[j].width);
    assert(widths(start)[i] == a.width && widths(start)[j] == b.width);
    assert(heights(start)[i] == a.height && heights(start)[j] == b.height);
    assert(starts_x(s)[i] == a.x && starts_x(s)[j] == b.x);
    assert(starts_y(s)[i] == a.y && starts_y(s)[j] == b.y);
    match a.overlap_spec(b) {
        Overlap::Nothing => {},
        Overlap::X(x) => {
            assert(starts_y(t) =~= starts_y(s));
            if a.x <= b.x {
                lemma_stacked_step(starts_x(s), widths(start), wlimit, i, j);
                assert(starts_x(t) =~= starts_x(s).update(j, a.x + a.width));
                assert(t =~= s.update(j, pushed(a, b).1));
                lemma_headroom_step(s, j, pushed(a, b).1, n);
                lemma_least_kept(s, i, j, pushed(a, b).1);
            } else {
                lemma_stacked_step(starts_x(s), widths(start), wlimit, j, i);
                assert(starts_x(t) =~= starts_x(s).update(i, b.x + b.width));
                assert(t =~= s.update(i, pushed(a, b).0));
                lemma_headroom_step(s, i, pushed(a, b).0, n);
                lemma_least_kept(s, j, i, pushed(a, b).0);
            }
        },
        Overlap::Y(y) => {
            assert(starts_x(t) =~= starts_x(s));
            if a.y <= b.y {
                lemma_stacked_step(starts_y(s), heights(start), hlimit, i, j);
                assert(starts_y(t) =~= starts_y(s).update(j, a.y + a.height));
                assert(t =~= s.update(j, pushed(a, b).1));
                lemma_headroom_step(s, j, pushed(a, b).1, n);
                lemma_least_kept(s, i, j, pushed(a, b).1);
            } else {
                lemma_stacked_step(starts_y(s), heights(start), hlimit, j, i);
                assert(starts_y(t) =~= starts_y(s).update(i, b.y + b.height));
                assert(t =~= s.update(i, pushed(a, b).0));
                lemma_headroom_step(s, i, pushed(a, b).0, n);
                lemma_least_kept(s, j, i, pushed(a, b).0);
            }
        },
    }
    lemma_kept_fits(start, t);
    assert(t[i].fits() && t[j].fits());
}

/// There is one first overlap.
proof fn lemma_first_clash_unique(s: Seq<ORegion>, i: int, j: int, k: int, l: int)
    requires
        first_clash(s, i, j),
        first_clash(s, k, l),
    ensures
        i == k,
        j == l,
{
    if k < i || (k == i && l < j) {
        assert(!clash(s, k, l));
    } else if i < k || (i == k && j < l) {
        assert(!clash(s, i, j));
    }
}

/// Correcting the first overlap is correcting the pair that is known to be it.
proof fn lemma_push_first(s: Seq<ORegion>, i: int, j: int)
    requires
        first_clash(s, i, j),
    ensures
        !clear(s),
        push_first(s) == push_apart(s, i, j),
{
    assert(clash(s, i, j));
    let p = choose|p: (int, int)| first_clash(s, p.0, p.1);
    assert(first_clash(s, (i, j).0, (i, j).1));
    lemma_first_clash_unique(s, i, j, p.0, p.1);
}

/// Regions that overlap have a first overlap.
proof fn lemma_some_first_clash(s: Seq<ORegion>)
    requires
        !clear(s),
    ensures
        exists|i: int, j: int| first_clash(s, i, j),
{
    let (i, j) = choose|i: int, j: int| 0 <= i < j < s.len() && #[trigger] clash(s, i, j);
    lemma_first_clash_from(s, i, j);
}

/// There is a first overlap at or before any overlap.
proof fn lemma_first_clash_from(s: Seq<ORegion>, i: int, j: int)
    requires
        0 <= i < j < s.len(),
        clash(s, i, j),
    ensures
        exists|k: int, l: int| first_clash(s, k, l),
    decreases i, j,
{
    if !first_clash(s, i, j) {
        let (k, l) = choose|k: int, l: int|
            0 <= k < l < s.len() && (k < i || (k == i && l < j)) && #[trigger] clash(s, k, l);
        lemma_first_clash_from(s, k, l);
    }
}

/// Once nothing overlaps, further corrections change nothing.
proof fn lemma_clear_is_settled(s: Seq<ORegion>, n: nat, m: nat)
    requires
        clear(corrected(s, n)),
        n <= m,
    ensures
        corrected(s, m) == corrected(s, n),
    decreases m,
{
    if n < m {
        lemma_clear_is_settled(s, n, (m - 1) as nat);
    }
}

/// Regions without overlaps that corrections lead to are where corrections end.
pub proof fn clear_corrections_are_settled(s: Seq<ORegion>, n: nat)
    requires
        clear(corrected(s, n)),
    ensures
        settled(s) == corrected(s, n),
        clear(settled(s)),
{
    let m = choose|m: nat| clear(corrected(s, m));
    if n <= m {
        lemma_clear_is_settled(s, n, m);
    } else {
        lemma_clear_is_settled(s, m, n);
    }
}

/// From any point on, corrections come to an end.
proof fn lemma_corrections_end_from(start: Seq<ORegion>, n: nat)
    requires
        room(start),
        kept(start, corrected(start, n)),
    ensures
        clear(settled(start)),
        kept(start, settled(start)),
        least_x(settled(start), start.len() as int) == least_x(
            corrected(start, n),
            start.len() as int,
        ),
        least_y(settled(start), start.len() as int) == least_y(
            corrected(start, n),
            start.len() as int,
        ),
    decreases headroom(corrected(start, n), start.len() as int),
{
    let s = corrected(start, n);
    if clear(s) {
        clear_corrections_are_settled(start, n);
    } else {
        lemma_some_first_clash(s);
        let (i, j) = choose|i: int, j: int| first_clash(s, i, j);
        lemma_push_first(s, i, j);
        lemma_push_keeps(start, s, i, j);
        lemma_headroom_nonnegative(push_first(s), s.len() as int);
        assert(corrected(start, n + 1) == push_first(s));
        lemma_corrections_end_from(start, n + 1);
    }
}

/// Moving overlapping regions apart one pair at a time comes to an end, with no overlap left. No
/// region changes its size or moves left or up, every far edge stays in range, and the leftmost and
/// the topmost start stay where they are.
pub proof fn corrections_end(s: Seq<ORegion>)
    requires
        movable(s),
    ensures
        clear(settled(s)),
        settled(s).len() == s.len(),
        forall|k: int|
            0 <= k < s.len() ==> (#[trigger] settled(s)[k]).width == s[k].width
                && settled(s)[k].height == s[k].height && s[k].x <= settled(s)[k].x && s[k].y
                <= settled(s)[k].y && settled(s)[k].fits(),
        least_x(settled(s), s.len() as int) == least_x(s, s.len() as int),
        least_y(settled(s), s.len() as int) == least_y(s, s.len() as int),
        s.len() > 0 ==> exists|k: int|
            0 <= k < s.len() && (#[trigger] settled(s)[k]).x == least_x(s, s.len() as int),
        s.len() > 0 ==> exists|k: int|
            0 <= k < s.len() && (#[trigger] settled(s)[k]).y == least_y(s, s.len() as int),
{
    if clear(s) {
        clear_regions_stay(s);
    } else {
        lemma_kept_start(s);
        assert(corrected(s, 0) == s);
        lemma_corrections_end_from(s, 0);
        lemma_kept_fits(s, settled(s));
    }
    if s.len() > 0 {
        let (i, j) = lemma_least_attained(settled(s), s.len() as int);
        assert(settled(s)[i].x == least_x(s, s.len() as int));
        assert(settled(s)[j].y == least_y(s, s.len() as int));
    }
}

/// Regions that do not overlap stay where they are.
pub proof fn clear_regions_stay(s: Seq<ORegion>)
    requires
        clear(s),
    ensures
        settled(s) == s,
{
    assert(corrected(s, 0) == s);
    clear_corrections_are_settled(s, 0);
}

/// Moving regions apart a second time changes nothing, and there is always room for that.
pub proof fn settled_regions_stay(s: Seq<ORegion>)
    requires
        movable(s),
    ensures
        movable(settled(s)),
        settled(settled(s)) == settled(s),
{
    corrections_end(s);
    clear_regions_stay(settled(s));
}

/// The first overlapping pair.
pub(crate) fn find_clash(regions: &[ORegion]) -> (r: Option<(usize, usize)>)
    requires
        forall|k: int| 0 <= k < regions@.len() ==> (#[trigger] regions@[k]).fits(),
    ensures
        match r {
            Some((i, j)) => first_clash(regions@, i as int, j as int),
            None => clear(regions@),
        },
{
    let n: usize = regions.len();
    let mut i: usize = 0;
    while i < n
        invariant
            n == regions@.len(),
            i <= n,
            forall|k: int| 0 <= k < regions@.len() ==> (#[trigger] regions@[k]).fits(),
            forall|k: int, l: int| 0 <= k < l < n && k < i ==> !#[trigger] clash(regions@, k, l),
        decreases n - i,
    {
        let mut j: usize = i + 1;
        while j < n
            invariant
                n == regions@.len(),
                i < n,
                i < j <= n,
                forall|k: int| 0 <= k < regions@.len() ==> (#[trigger] regions@[k]).fits(),
                forall|k: int, l: int|
                    0 <= k < l < n && (k < i || (k == i && l < j)) ==> !#[trigger] clash(
                        regions@,
                        k,
                        l,
                    ),
            decreases n - j,
        {
            assert(regions@[i as int].fits() && regions@[j as int].fits());
            match regions[i].overlap(&regions[j]) {
                Overlap::Nothing => {
                    assert(!clash(regions@, i as int, j as int));
                },
                _ => {
                    assert(clash(regions@, i as int, j as int));
                    return Some((i, j));
                },
            }
            j = j + 1;
        }
        i = i + 1;
    }
    None
}

/// Moves overlapping regions apart, always the first overlapping pair, until none overlap.
/// Regions of which none overlap stay where they are.
pub fn fix_overlaps(regions: &mut [ORegion])
    requires
        movable(old(regions)@),
    ensures
        final(regions)@ == settled(old(regions)@),
        clear(final(regions)@),
        clear(old(regions)@) ==> final(regions)@ == old(regions)@,
        final(regions)@.len() == old(regions)@.len(),
        forall|k: int|
            0 <= k < final(regions)@.len() ==> (#[trigger] final(regions)@[k]).fits(),
{
    let ghost start = regions@;
    let ghost mut n: nat = 0;
    let mut clash_pair: Option<(usize, usize)> = find_clash(regions);
    if clash_pair.is_none() {
        proof {
            clear_regions_stay(start);
        }
        return;
    }
    proof {
        let (i, j): (usize, usize) = clash_pair->0;
        lemma_push_first(start, i as int, j as int);
        lemma_kept_start(start);
        assert(corrected(start, 0) == start);
    }
    while clash_pair.is_some()
        invariant
            room(start),
            kept(start, regions@),
            regions@ == corrected(start, n),
            match clash_pair {
                Some((i, j)) => first_clash(regions@, i as int, j as int),
                None => clear(regions@),
            },
        decreases headroom(regions@, regions@.len() as int),
    {
        let (i, j) = match clash_pair {
            Some(p) => p,
            None => {
                return;
            },
        };
        let ghost before = regions@;
        proof {
            lemma_kept_fits(start, before);
            lemma_push_first(before, i as int, j as int);
            lemma_push_keeps(start, before, i as int, j as int);
            assert(before[i as int].fits() && before[j as int].fits());
        }
        match regions[i].overlap(&regions[j]) {
            Overlap::Nothing => {},
            Overlap::X(x) => {
                if regions[i].x <= regions[j].x {
                    let moved = ORegion { x: regions[j].x + x, ..regions[j] };
                    regions[j] = moved;
                } else {
                    let moved = ORegion { x: regions[i].x + x, ..regions[i] };
                    regions[i] = moved;
                }
            },
            Overlap::Y(y) => {
                if regions[i].y <= regions[j].y {
                    let moved = ORegion { y: regions[j].y + y, ..regions[j] };
                    regions[j] = moved;
                } else {
                    let moved = ORegion { y: regions[i].y + y, ..regions[i] };
                    regions[i] = moved;
                }
            },
        }
        proof {
            assert(regions@ =~= push_apart(before, i as int, j as int));
            lemma_headroom_nonnegative(regions@, regions@.len() as int);
            n = n + 1;
            lemma_kept_fits(start, regions@);
        }
        clash_pair = find_clash(regions);
    }
    proof {
        clear_corrections_are_settled(start, n);
        lemma_kept_fits(start, regions@);
    }
}

/// When everything is moved apart, no pixel belongs to two regions.
pub proof fn no_pixel_is_shared(s: Seq<ORegion>, i: int, j: int, x: int, y: int)
    requires
        movable(s),
        0 <= i < s.len(),
        0 <= j < s.len(),
        i != j,
    ensures
        ({
            let a = settled(s)[i];
            let b = settled(s)[j];
            !(a.x <= x < a.x + a.width && a.y <= y < a.y + a.height && b.x <= x < b.x + b.width
                && b.y <= y < b.y + b.height)
        }),
{
    corrections_end(s);
    if i < j {
        assert(!clash(settled(s), i, j));
    } else {
        assert(!clash(settled(s), j, i));
    }
}

/// `a` and `b` share a pixel.
pub open spec fn share_a_pixel(a: ORegion, b: ORegion) -> bool {
    &&& a.width > 0 && a.height > 0 && b.width > 0 && b.height > 0
    &&& a.x < b.x + b.width && b.x < a.x + a.width
    &&& a.y < b.y + b.height && b.y < a.y + a.height
}

/// `later` is moved to the end of `first`, in the direction that takes less.
pub open spec fn moved_past(first: ORegion, later: ORegion, moved: ORegion, across: bool) -> bool {
    &&& moved.width == later.width
    &&& moved.height == later.height
    &&& across ==> moved.x == first.x + first.width && moved.y == later.y
    &&& !across ==> moved.x == later.x && moved.y == first.y + first.height
}

/// The first overlap is corrected first: of the first two regions that share a pixel, the one that
/// starts later in the direction that takes less to leave, or the second one if they start at the
/// same place, is moved just past the other one, and nothing else moves.
pub proof fn the_first_overlap_is_corrected_first(s: Seq<ORegion>, i: int, j: int)
    requires
        0 <= i < j < s.len(),
        s[i].fits(),
        s[j].fits(),
        share_a_pixel(s[i], s[j]),
        forall|k: int, l: int|
            0 <= k < l < s.len() && (k < i || (k == i && l < j)) ==> !share_a_pixel(
                #[trigger] s[k],
                #[trigger] s[l],
            ),
    ensures
        ({
            let a = s[i];
            let b = s[j];
            let t = corrected(s, 1);
            let across = (if a.x <= b.x {
                a.x + a.width - b.x
            } else {
                b.x + b.width - a.x
            }) <= (if a.y <= b.y {
                a.y + a.height - b.y
            } else {
                b.y + b.height - a.y
            });
            let second = if across {
                a.x <= b.x
            } else {
                a.y <= b.y
            };
            &&& t.len() == s.len()
            &&& forall|k: int| 0 <= k < s.len() && k != i && k != j ==> #[trigger] t[k] == s[k]
            &&& second ==> t[i] == a && moved_past(a, b, t[j], across)
            &&& !second ==> t[j] == b && moved_past(b, a, t[i], across)
        }),
{
    assert forall|k: int, l: int|
        0 <= k < l < s.len() && (k < i || (k == i && l < j)) implies !#[trigger] clash(s, k, l) by {
        assert(!share_a_pixel(s[k], s[l]));
    }
    assert(first_clash(s, i, j));
    lemma_push_first(s, i, j);
    assert(corrected(s, 0) == s);
    assert(corrected(s, 1) == push_first(s)) by {
        reveal_with_fuel(corrected, 2);
    }
}

/// Overlaps are corrected one after the other, each on what the one before it left.
pub proof fn corrections_are_made_one_by_one(s: Seq<ORegion>, n: nat)
    ensures
        corrected(s, 0) == s,
        corrected(s, n + 1) == corrected(corrected(s, n), 1),
{
    let t = corrected(s, n);
    assert(corrected(t, 0) == t);
    assert(corrected(t, 1) == push_first(t)) by {
        reveal_with_fuel(corrected, 2);
    }
}

} // verus!

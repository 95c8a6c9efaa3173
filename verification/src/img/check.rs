//! Whether screenshots can be combined.

use vstd::prelude::*;

use crate::config::MonitorPosition;
use crate::img::overlaps::{clash, find_clash, fix_overlaps, heights, movable, room, total, widths};
use crate::img::{
    arrangeable, combinable, drawable, extents, gathered, largest_scale, layout, least_x, least_y,
    lemma_layout, max_scale, place, positioned, repage, Screenshot, MAX_RESAMPLED_SIDE,
};
use crate::util::ORegion;

verus! {

/// Whether there are screenshots, each in order, and where they lie can be told.
fn can_position(shots: &Vec<Screenshot>, scale_up: bool, positions: &Vec<MonitorPosition>) -> (r:
    bool)
    ensures
        r == positioned(shots@, scale_up, positions@),
{
    if shots.len() == 0 {
        return false;
    }
    let mut i: usize = 0;
    while i < shots.len()
        invariant
            i <= shots@.len(),
            forall|k: int| 0 <= k < i ==> (#[trigger] shots@[k]).wf(),
        decreases shots@.len() - i,
    {
        if !shots[i].valid() {
            assert(!shots@[i as int].wf());
            return false;
        }
        i = i + 1;
    }
    let scale: u32 = max_scale(shots);
    let mut j: usize = 0;
    while j < shots.len()
        invariant
            j <= shots@.len(),
            scale == largest_scale(shots@, shots@.len() as int),
            forall|k: int| 0 <= k < shots@.len() ==> (#[trigger] shots@[k]).wf(),
            forall|k: int|
                0 <= k < j ==> if scale_up {
                    (#[trigger] shots@[k]).logical.output_fits(scale as int)
                } else {
                    shots@[k].unscaled_fits(positions@)
                },
        decreases shots@.len() - j,
    {
        assert(shots@[j as int].wf());
        let fits: bool = if scale_up {
            shots[j].logical.output_in_range(scale)
        } else {
            shots[j].unscaled_in_range(positions)
        };
        if !fits {
            return false;
        }
        j = j + 1;
    }
    true
}

/// Whether the regions do not lie too far apart.
fn can_gather(raw: &Vec<ORegion>) -> (r: bool)
    requires
        raw@.len() > 0,
    ensures
        r == (forall|k: int|
            0 <= k < raw@.len() ==> (#[trigger] raw@[k]).x - least_x(raw@, raw@.len() as int)
                <= i32::MAX && raw@[k].y - least_y(raw@, raw@.len() as int) <= i32::MAX),
{
    let n: usize = raw.len();
    let mut min_x: i32 = raw[0].x;
    let mut min_y: i32 = raw[0].y;
    let mut i: usize = 1;
    while i < n
        invariant
            1 <= i <= n,
            n == raw@.len(),
            min_x == least_x(raw@, i as int),
            min_y == least_y(raw@, i as int),
        decreases n - i,
    {
        if raw[i].x < min_x {
            min_x = raw[i].x;
        }
        if raw[i].y < min_y {
            min_y = raw[i].y;
        }
        i = i + 1;
    }
    let mut j: usize = 0;
    while j < n
        invariant
            j <= n,
            n == raw@.len(),
            min_x == least_x(raw@, n as int),
            min_y == least_y(raw@, n as int),
            forall|k: int|
                0 <= k < j ==> (#[trigger] raw@[k]).x - min_x <= i32::MAX && raw@[k].y - min_y
                    <= i32::MAX,
        decreases n - j,
    {
        if raw[j].x as i64 - min_x as i64 > 0x7fff_ffff || raw[j].y as i64 - min_y as i64
            > 0x7fff_ffff {
            assert(raw@[j as int].x - min_x > i32::MAX || raw@[j as int].y - min_y > i32::MAX);
            return false;
        }
        j = j + 1;
    }
    true
}

/// Whether no region is empty.
fn all_filled(start: &Vec<ORegion>) -> (r: bool)
    ensures
        r == (forall|k: int|
            0 <= k < start@.len() ==> (#[trigger] start@[k]).width > 0 && start@[k].height > 0),
{
    let mut i: usize = 0;
    while i < start.len()
        invariant
            i <= start@.len(),
            forall|k: int| 0 <= k < i ==> (#[trigger] start@[k]).width > 0 && start@[k].height > 0,
        decreases start@.len() - i,
    {
        if start[i].width <= 0 || start[i].height <= 0 {
            assert(!(start@[i as int].width > 0 && start@[i as int].height > 0));
            return false;
        }
        i = i + 1;
    }
    true
}

/// Whether every region has room to its right, and below, for all regions side by side.
fn has_room(start: &Vec<ORegion>) -> (r: bool)
    ensures
        r == room(start@),
{
    let n: usize = start.len();
    let mut wide: i128 = 0;
    let mut high: i128 = 0;
    let mut i: usize = 0;
    while i < n
        invariant
            i <= n,
            n == start@.len(),
            wide == total(widths(start@), i as int),
            high == total(heights(start@), i as int),
            0 <= wide <= i * 0x8000_0000,
            0 <= high <= i * 0x8000_0000,
        decreases n - i,
    {
        if start[i].width > 0 {
            wide = wide + start[i].width as i128;
        }
        if start[i].height > 0 {
            high = high + start[i].height as i128;
        }
        i = i + 1;
    }
    let mut j: usize = 0;
    while j < n
        invariant
            j <= n,
            n == start@.len(),
            wide == total(widths(start@), n as int),
            high == total(heights(start@), n as int),
            0 <= wide <= n * 0x8000_0000,
            0 <= high <= n * 0x8000_0000,
            forall|k: int|
                0 <= k < j ==> (#[trigger] start@[k]).fits() && start@[k].x + wide <= i32::MAX
                    && start@[k].y + high <= i32::MAX,
        decreases n - j,
    {
        if !start[j].in_range() || start[j].x as i128 + wide > 0x7fff_ffff || start[j].y as i128
            + high > 0x7fff_ffff {
            assert(!(start@[j as int].fits() && start@[j as int].x + wide <= i32::MAX
                && start@[j as int].y + high <= i32::MAX));
            return false;
        }
        j = j + 1;
    }
    true
}

/// Whether the regions can be moved apart.
fn can_move(start: &Vec<ORegion>) -> (r: bool)
    ensures
        r == movable(start@),
{
    let mut i: usize = 0;
    while i < start.len()
        invariant
            i <= start@.len(),
            forall|k: int| 0 <= k < i ==> (#[trigger] start@[k]).fits(),
        decreases start@.len() - i,
    {
        if !start[i].in_range() {
            assert(!start@[i as int].fits());
            return false;
        }
        i = i + 1;
    }
    match find_clash(start.as_slice()) {
        Some((i, j)) => {
            assert(clash(start@, i as int, j as int));
            has_room(start)
        },
        None => true,
    }
}

/// Whether a screenshot can be drawn in its region.
fn can_draw(shot: &Screenshot, region: &ORegion, scale_up: bool, scale: u32) -> (r: bool)
    requires
        shot.wf(),
        region.width > 0,
        region.height > 0,
    ensures
        r == drawable(*shot, *region, scale_up, scale as int),
{
    let width: i128 = shot.image.width as i128;
    let height: i128 = shot.image.height as i128;
    let side: i128 = MAX_RESAMPLED_SIDE as i128;
    let limit: i128 = isize::MAX as i128;
    let ghost w = width as int;
    let ghost h = height as int;
    let ghost rw = region.width as int;
    let ghost rh = region.height as int;
    proof {
        assert(0 <= w * h <= 0x4000_0000_0000_0000) by (nonlinear_arith)
            requires
                0 <= w <= 0x7fff_ffff,
                0 <= h <= 0x7fff_ffff,
        ;
        assert(0 <= rw * rh <= 0x4000_0000_0000_0000) by (nonlinear_arith)
            requires
                0 <= rw <= 0x7fff_ffff,
                0 <= rh <= 0x7fff_ffff,
        ;
        assert(0 <= w * rh <= 0x4000_0000_0000_0000) by (nonlinear_arith)
            requires
                0 <= w <= 0x7fff_ffff,
                0 <= rh <= 0x7fff_ffff,
        ;
    }
    if !scale_up || shot.monitor.fixed_scale() == scale {
        width <= region.width as i128 && width * height <= region.width as i128
            * region.height as i128
    } else {
        0 < width && width <= side && 0 < height && height <= side && region.width as i128 <= side
            && region.height as i128 <= side && width * region.height as i128 * 16 <= limit
    }
}

/// Whether the screenshots can be combined.
pub fn can_combine(shots: &Vec<Screenshot>, scale_up: bool, positions: &Vec<MonitorPosition>) -> (r:
    bool)
    ensures
        r == combinable(shots@, scale_up, positions@),
{
    if !can_position(shots, scale_up, positions) {
        return false;
    }
    let n: usize = shots.len();
    assert forall|k: int| 0 <= k < shots@.len() implies (#[trigger] shots@[k]).wf() by {}
    let scale: u32 = max_scale(shots);
    let raw = place(shots, scale_up, scale, positions);
    if !can_gather(&raw) {
        return false;
    }
    assert(gathered(shots@, scale_up, positions@));
    let mut regions = repage(&raw, shots, scale_up, scale, Ghost(positions@));
    if !all_filled(&regions) || !can_move(&regions) {
        return false;
    }
    assert(arrangeable(shots@, scale_up, positions@));
    fix_overlaps(regions.as_mut_slice());
    let ghost placed = layout(shots@, scale_up, positions@);
    assert(regions@ == placed);
    proof {
        lemma_layout(shots@, scale_up, positions@);
    }
    let mut i: usize = 0;
    while i < n
        invariant
            i <= n,
            n == shots@.len(),
            n == regions@.len(),
            regions@ == placed,
            placed == layout(shots@, scale_up, positions@),
            scale == largest_scale(shots@, n as int),
            forall|k: int| 0 <= k < n ==> (#[trigger] shots@[k]).wf(),
            forall|k: int|
                0 <= k < n ==> (#[trigger] regions@[k]).width > 0 && regions@[k].height > 0,
            forall|k: int|
                0 <= k < i ==> drawable(
                    #[trigger] shots@[k],
                    regions@[k],
                    scale_up,
                    scale as int,
                ),
        decreases n - i,
    {
        assert(shots@[i as int].wf());
        assert(regions@[i as int].width > 0);
        if !can_draw(&shots[i], &regions[i], scale_up, scale) {
            assert(!drawable(shots@[i as int], placed[i as int], scale_up, scale as int));
            return false;
        }
        i = i + 1;
    }
    assert forall|k: int| 0 <= k < regions@.len() implies (#[trigger] regions@[k]).fits() by {}
    let (width, height) = extents(&regions);
    proof {
        let w = width as int;
        let h = height as int;
        assert(0 <= w * h <= 0x4000_0000_0000_0000) by (nonlinear_arith)
            requires
                0 <= w <= 0x7fff_ffff,
                0 <= h <= 0x7fff_ffff,
        ;
    }
    width as i128 * height as i128 * 3 <= isize::MAX as i128
}

} // verus!

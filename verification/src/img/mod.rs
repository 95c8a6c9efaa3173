//! Combining the screenshots of several monitors into one picture.

use vstd::prelude::*;

use crate::config::MonitorPosition;
use crate::coord::{clamp_i32, floor_div, lemma_bounds, round_div, saturate, Coord, EDGE_RANGE};
use crate::img::compose::{compose, drawn, placeable, Image};
use crate::img::overlaps::{
    clear, fix_overlaps, lemma_least_attained, movable, settled, share_a_pixel,
};
use crate::text::{contains, occurs};
use crate::util::{LFRegion, MRegion, Monitor, ORegion};

pub mod check;
pub mod compose;
pub mod overlaps;

verus! {

/// What was captured of one monitor.
#[derive(Debug)]
pub struct Screenshot {
    pub image: Image,
    pub logical: LFRegion,
    pub monitor_region: MRegion,
    pub monitor: Monitor,
}

/// The largest side of a picture that is resampled: single precision numbers count pixels
/// exactly only up to there.
pub const MAX_RESAMPLED_SIDE: u32 = 0x80_0000;

/// The first configured position whose identifier is a part of `description`.
pub open spec fn position_for(positions: Seq<MonitorPosition>, description: Seq<char>) -> Option<
    MonitorPosition,
>
    decreases positions.len(),
{
    if positions.len() == 0 {
        None
    } else if occurs(description, positions[0].id@) {
        Some(positions[0])
    } else {
        position_for(positions.drop_first(), description)
    }
}

/// Whether `image::imageops::resize` with the Catmull-Rom filter may turn the bytes of a picture,
/// `width` by `height` pixels large, into `result` at the size `new_width` by `new_height`. It is
/// not said that there is only one such result: the weights of the pixels come from `f32::powi`,
/// whose precision is left open.
pub uninterp spec fn resampled(
    data: Seq<u8>,
    width: int,
    height: int,
    new_width: int,
    new_height: int,
    result: Seq<u8>,
) -> bool;

/// `image::imageops::resize` with the Catmull-Rom filter: the picture at another size. It returns
/// a picture of the requested size, and the picture itself where the size stays the same. What
/// colours it mixes is left unsaid.
///
/// It indexes pixels by single precision numbers, which is why the sides are limited, and it
/// holds the picture at its old width and new height with sixteen bytes per pixel.
#[verifier::external_body]
fn resample(picture: &Image, width: u32, height: u32) -> (r: Vec<u8>)
    requires
        picture.wf(),
        0 < picture.width <= MAX_RESAMPLED_SIDE,
        0 < picture.height <= MAX_RESAMPLED_SIDE,
        0 < width <= MAX_RESAMPLED_SIDE,
        0 < height <= MAX_RESAMPLED_SIDE,
        picture.width * height * 16 <= isize::MAX,
        width * height * 3 <= isize::MAX,
    ensures
        r@.len() == width * height * 3,
        width == picture.width && height == picture.height ==> r@ == picture.data@,
        resampled(
            picture.data@,
            picture.width as int,
            picture.height as int,
            width as int,
            height as int,
            r@,
        ),
{
    let source = image::RgbImage::from_raw(picture.width, picture.height, picture.data.clone());
    let filter = image::imageops::FilterType::CatmullRom;
    image::imageops::resize(&source.unwrap(), width, height, filter).into_raw()
}

/// `c` rounded to the nearest whole pixel.
fn nearest_pixel(c: Coord) -> (r: i32)
    requires
        c.within(EDGE_RANGE as int),
    ensures
        r == clamp_i32(round_div(c.num as int, c.den as int)),
{
    proof {
        lemma_bounds(c, EDGE_RANGE as int);
    }
    saturate(floor_div(2 * c.num + c.den, 2 * c.den))
}

impl Screenshot {
    /// The picture has its stated size, and the monitor's scale is known.
    pub open spec fn wf(&self) -> bool {
        &&& self.image.wf()
        &&& self.image.width <= i32::MAX
        &&& self.image.height <= i32::MAX
        &&& self.logical.wf()
        &&& self.monitor.scale.wf()
    }

    /// Where the screenshot lies when nothing is scaled: at the configured position of its
    /// monitor, or else at its logical position.
    pub open spec fn unscaled_origin(&self, positions: Seq<MonitorPosition>) -> (int, int) {
        match position_for(positions, self.monitor.description@) {
            Some(p) => (p.x + self.monitor_region.x, p.y + self.monitor_region.y),
            None => (
                clamp_i32(round_div(self.logical.left.num as int, self.logical.left.den as int)),
                clamp_i32(round_div(self.logical.top.num as int, self.logical.top.den as int)),
            ),
        }
    }

    /// What [`Screenshot::output_region_unscaled`] gives.
    pub open spec fn unscaled(&self, positions: Seq<MonitorPosition>) -> ORegion {
        let (x, y) = self.unscaled_origin(positions);
        ORegion {
            x: x as i32,
            y: y as i32,
            width: self.image.width as i32,
            height: self.image.height as i32,
        }
    }

    /// The position is in range.
    pub open spec fn unscaled_fits(&self, positions: Seq<MonitorPosition>) -> bool {
        let (x, y) = self.unscaled_origin(positions);
        &&& i32::MIN <= x <= i32::MAX
        &&& i32::MIN <= y <= i32::MAX
    }

    /// Whether the picture has its stated size, and the monitor's scale is known.
    pub fn valid(&self) -> (r: bool)
        ensures
            r == self.wf(),
    {
        self.image.valid() && self.image.width <= 0x7fff_ffff && self.image.height <= 0x7fff_ffff
            && self.logical.valid() && self.monitor.scale.valid()
    }

    /// Where the screenshot lies when nothing is scaled.
    fn origin(&self, positions: &Vec<MonitorPosition>) -> (r: (i64, i64))
        requires
            self.wf(),
        ensures
            (r.0 as int, r.1 as int) == self.unscaled_origin(positions@),
            -0x1_0000_0000 <= r.0 <= 0x1_0000_0000,
            -0x1_0000_0000 <= r.1 <= 0x1_0000_0000,
    {
        let ghost description = self.monitor.description@;
        let mut i: usize = 0;
        assert(positions@.skip(0) =~= positions@);
        while i < positions.len()
            invariant
                i <= positions@.len(),
                description == self.monitor.description@,
                position_for(positions@, description) == position_for(
                    positions@.skip(i as int),
                    description,
                ),
            decreases positions@.len() - i,
        {
            let p = &positions[i];
            assert(positions@.skip(i as int)[0] == *p);
            if contains(self.monitor.description.as_str(), p.id.as_str()) {
                let x: i64 = p.x as i64 + self.monitor_region.x as i64;
                let y: i64 = p.y as i64 + self.monitor_region.y as i64;
                return (x, y);
            }
            assert(positions@.skip(i as int).drop_first() =~= positions@.skip(i + 1));
            i = i + 1;
        }
        assert(position_for(positions@, description) is None);
        (nearest_pixel(self.logical.left) as i64, nearest_pixel(self.logical.top) as i64)
    }

    /// Whether the position is in range when nothing is scaled.
    pub fn unscaled_in_range(&self, positions: &Vec<MonitorPosition>) -> (r: bool)
        requires
            self.wf(),
        ensures
            r == self.unscaled_fits(positions@),
    {
        let (x, y) = self.origin(positions);
        -0x8000_0000 <= x && x <= 0x7fff_ffff && -0x8000_0000 <= y && y <= 0x7fff_ffff
    }

    /// Where the screenshot lies, and how large it is, when nothing is scaled.
    pub fn output_region_unscaled(&self, positions: &Vec<MonitorPosition>) -> (r: ORegion)
        requires
            self.wf(),
            self.unscaled_fits(positions@),
        ensures
            r == self.unscaled(positions@),
    {
        let (x, y) = self.origin(positions);
        ORegion {
            x: x as i32,
            y: y as i32,
            width: self.image.width as i32,
            height: self.image.height as i32,
        }
    }
}

/// The largest scale among the first `n` screenshots.
pub open spec fn largest_scale(shots: Seq<Screenshot>, n: int) -> int
    decreases n,
{
    if n <= 1 {
        shots[0].monitor.fixed_scale_spec()
    } else {
        let rest = largest_scale(shots, n - 1);
        let last = shots[n - 1].monitor.fixed_scale_spec();
        if last > rest {
            last
        } else {
            rest
        }
    }
}

/// Where each screenshot lies before anything is moved.
pub open spec fn raw_regions(
    shots: Seq<Screenshot>,
    scale_up: bool,
    positions: Seq<MonitorPosition>,
) -> Seq<ORegion> {
    let scale = largest_scale(shots, shots.len() as int);
    Seq::new(
        shots.len(),
        |k: int|
            if scale_up {
                shots[k].logical.output_spec(scale)
            } else {
                shots[k].unscaled(positions)
            },
    )
}

/// The smallest horizontal start among the first `n` regions.
pub open spec fn least_x(s: Seq<ORegion>, n: int) -> int
    decreases n,
{
    if n <= 1 {
        s[0].x as int
    } else if s[n - 1].x < least_x(s, n - 1) {
        s[n - 1].x as int
    } else {
        least_x(s, n - 1)
    }
}

/// The smallest vertical start among the first `n` regions.
pub open spec fn least_y(s: Seq<ORegion>, n: int) -> int
    decreases n,
{
    if n <= 1 {
        s[0].y as int
    } else if s[n - 1].y < least_y(s, n - 1) {
        s[n - 1].y as int
    } else {
        least_y(s, n - 1)
    }
}

/// The screenshot is drawn at the size it was captured in.
pub open spec fn keeps_size(shot: Screenshot, scale_up: bool, scale: int) -> bool {
    !scale_up || shot.monitor.fixed_scale_spec() == scale
}

/// The regions moved so that the leftmost and the topmost start at zero. A lone screenshot that
/// keeps its size gets a region of exactly that size.
pub open spec fn start_regions(
    shots: Seq<Screenshot>,
    scale_up: bool,
    positions: Seq<MonitorPosition>,
) -> Seq<ORegion> {
    let raw = raw_regions(shots, scale_up, positions);
    let scale = largest_scale(shots, shots.len() as int);
    let n = shots.len() as int;
    Seq::new(
        shots.len(),
        |k: int|
            {
                let alone = n == 1 && keeps_size(shots[k], scale_up, scale);
                ORegion {
                    x: (raw[k].x - least_x(raw, n)) as i32,
                    y: (raw[k].y - least_y(raw, n)) as i32,
                    width: if alone {
                        shots[k].image.width as i32
                    } else {
                        raw[k].width
                    },
                    height: if alone {
                        shots[k].image.height as i32
                    } else {
                        raw[k].height
                    },
                }
            },
    )
}

/// Where each screenshot ends up: no two overlap.
pub open spec fn layout(
    shots: Seq<Screenshot>,
    scale_up: bool,
    positions: Seq<MonitorPosition>,
) -> Seq<ORegion> {
    settled(start_regions(shots, scale_up, positions))
}

/// The largest far edge among the first `n` regions, horizontally.
pub open spec fn extent_x(s: Seq<ORegion>, n: int) -> int
    decreases n,
{
    if n <= 1 {
        s[0].x + s[0].width
    } else if s[n - 1].x + s[n - 1].width > extent_x(s, n - 1) {
        s[n - 1].x + s[n - 1].width
    } else {
        extent_x(s, n - 1)
    }
}

/// The largest far edge among the first `n` regions, vertically.
pub open spec fn extent_y(s: Seq<ORegion>, n: int) -> int
    decreases n,
{
    if n <= 1 {
        s[0].y + s[0].height
    } else if s[n - 1].y + s[n - 1].height > extent_y(s, n - 1) {
        s[n - 1].y + s[n - 1].height
    } else {
        extent_y(s, n - 1)
    }
}

/// A screenshot can be drawn in the region that it ends up in. One that keeps its size may be
/// smaller than its region, which leaves a gap: that happens when scales do not match and a
/// logical position lies inside a pixel.
pub open spec fn drawable(shot: Screenshot, region: ORegion, scale_up: bool, scale: int) -> bool {
    if keeps_size(shot, scale_up, scale) {
        &&& shot.image.width <= region.width
        &&& shot.image.width * shot.image.height <= region.width * region.height
    } else {
        &&& 0 < shot.image.width <= MAX_RESAMPLED_SIDE
        &&& 0 < shot.image.height <= MAX_RESAMPLED_SIDE
        &&& region.width <= MAX_RESAMPLED_SIDE
        &&& region.height <= MAX_RESAMPLED_SIDE
        &&& shot.image.width * region.height * 16 <= isize::MAX
    }
}

/// There are screenshots, each in order, and where they lie can be told.
pub open spec fn positioned(
    shots: Seq<Screenshot>,
    scale_up: bool,
    positions: Seq<MonitorPosition>,
) -> bool {
    let scale = largest_scale(shots, shots.len() as int);
    &&& shots.len() > 0
    &&& forall|k: int|
        0 <= k < shots.len() ==> (#[trigger] shots[k]).wf() && if scale_up {
            shots[k].logical.output_fits(scale)
        } else {
            shots[k].unscaled_fits(positions)
        }
}

/// The screenshots do not lie too far apart.
pub open spec fn gathered(
    shots: Seq<Screenshot>,
    scale_up: bool,
    positions: Seq<MonitorPosition>,
) -> bool {
    let n = shots.len() as int;
    let raw = raw_regions(shots, scale_up, positions);
    &&& positioned(shots, scale_up, positions)
    &&& forall|k: int|
        0 <= k < n ==> (#[trigger] raw[k]).x - least_x(raw, n) <= i32::MAX && raw[k].y - least_y(
            raw,
            n,
        ) <= i32::MAX
}

/// The screenshots can be arranged: no region is empty, and they can be moved apart.
pub open spec fn arrangeable(
    shots: Seq<Screenshot>,
    scale_up: bool,
    positions: Seq<MonitorPosition>,
) -> bool {
    let start = start_regions(shots, scale_up, positions);
    &&& gathered(shots, scale_up, positions)
    &&& forall|k: int|
        0 <= k < shots.len() ==> (#[trigger] start[k]).width > 0 && start[k].height > 0
    &&& movable(start)
}

/// The screenshots can be combined: they can be arranged, each can be drawn where it ends up, and
/// the result fits in memory.
pub open spec fn combinable(
    shots: Seq<Screenshot>,
    scale_up: bool,
    positions: Seq<MonitorPosition>,
) -> bool {
    let n = shots.len() as int;
    let scale = largest_scale(shots, n);
    let placed = layout(shots, scale_up, positions);
    &&& arrangeable(shots, scale_up, positions)
    &&& forall|k: int| 0 <= k < n ==> drawable(#[trigger] shots[k], placed[k], scale_up, scale)
    &&& extent_x(placed, n) * extent_y(placed, n) * 3 <= isize::MAX
}

/// `picture` is the screenshot at the size of `region`.
pub open spec fn stretched(shot: Screenshot, region: ORegion, picture: Image) -> bool {
    &&& picture.wf()
    &&& picture.width == region.width
    &&& picture.height == region.height
    &&& resampled(
        shot.image.data@,
        shot.image.width as int,
        shot.image.height as int,
        region.width as int,
        region.height as int,
        picture.data@,
    )
}

/// `pictures` are what the screenshots are drawn as: those that keep their size as they are, the
/// others at the size of their region.
pub open spec fn renders(
    shots: Seq<Screenshot>,
    placed: Seq<ORegion>,
    scale_up: bool,
    pictures: Seq<Image>,
) -> bool {
    let scale = largest_scale(shots, shots.len() as int);
    &&& pictures.len() == shots.len()
    &&& forall|k: int|
        0 <= k < shots.len() ==> if keeps_size(shots[k], scale_up, scale) {
            #[trigger] pictures[k] == shots[k].image
        } else {
            stretched(shots[k], placed[k], pictures[k])
        }
}

/// `r` is the picture that the screenshots are combined into: it holds every region, and in each
/// of them what its screenshot is drawn as.
pub open spec fn combined(
    shots: Seq<Screenshot>,
    scale_up: bool,
    positions: Seq<MonitorPosition>,
    r: Image,
) -> bool {
    let placed = layout(shots, scale_up, positions);
    let n = shots.len() as int;
    &&& r.wf()
    &&& r.width == extent_x(placed, n)
    &&& r.height == extent_y(placed, n)
    &&& exists|pictures: Seq<Image>| #[trigger]
        renders(shots, placed, scale_up, pictures) && forall|x: int, y: int, c: int|
            0 <= x < r.width && 0 <= y < r.height && 0 <= c < 3 ==> #[trigger] r.channel(x, y, c)
                == drawn(placed, pictures, n, x, y, c)
}

pub(crate) proof fn lemma_least(s: Seq<ORegion>, n: int, k: int)
    requires
        0 <= k < n <= s.len(),
    ensures
        least_x(s, n) <= s[k].x,
        least_y(s, n) <= s[k].y,
        i32::MIN <= least_x(s, n) <= i32::MAX,
        i32::MIN <= least_y(s, n) <= i32::MAX,
    decreases n,
{
    if n > 1 {
        if k < n - 1 {
            lemma_least(s, n - 1, k);
        } else {
            lemma_least(s, n - 1, 0);
        }
    }
}

proof fn lemma_extent(s: Seq<ORegion>, n: int, k: int)
    requires
        0 <= k < n <= s.len(),
    ensures
        s[k].x + s[k].width <= extent_x(s, n),
        s[k].y + s[k].height <= extent_y(s, n),
    decreases n,
{
    if n > 1 && k < n - 1 {
        lemma_extent(s, n - 1, k);
    }
}

/// The largest scale among the screenshots.
pub(crate) fn max_scale(shots: &Vec<Screenshot>) -> (r: u32)
    requires
        shots@.len() > 0,
        forall|k: int| 0 <= k < shots@.len() ==> (#[trigger] shots@[k]).wf(),
    ensures
        r == largest_scale(shots@, shots@.len() as int),
{
    assert(shots@[0].wf());
    let mut scale: u32 = shots[0].monitor.fixed_scale();
    let mut i: usize = 1;
    while i < shots.len()
        invariant
            1 <= i <= shots@.len(),
            forall|k: int| 0 <= k < shots@.len() ==> (#[trigger] shots@[k]).wf(),
            scale == largest_scale(shots@, i as int),
        decreases shots@.len() - i,
    {
        assert(shots@[i as int].wf());
        let s: u32 = shots[i].monitor.fixed_scale();
        if s > scale {
            scale = s;
        }
        i = i + 1;
    }
    scale
}

/// Where each screenshot lies before anything is moved.
pub(crate) fn place(shots: &Vec<Screenshot>, scale_up: bool, scale: u32, positions: &Vec<MonitorPosition>) -> (r:
    Vec<ORegion>)
    requires
        positioned(shots@, scale_up, positions@),
        scale == largest_scale(shots@, shots@.len() as int),
    ensures
        r@ == raw_regions(shots@, scale_up, positions@),
{
    let ghost raw = raw_regions(shots@, scale_up, positions@);
    let mut out: Vec<ORegion> = Vec::new();
    let mut i: usize = 0;
    while i < shots.len()
        invariant
            i <= shots@.len(),
            out@.len() == i,
            positioned(shots@, scale_up, positions@),
            scale == largest_scale(shots@, shots@.len() as int),
            raw == raw_regions(shots@, scale_up, positions@),
            forall|k: int| 0 <= k < i ==> #[trigger] out@[k] == raw[k],
        decreases shots@.len() - i,
    {
        assert(shots@[i as int].wf());
        let region = if scale_up {
            shots[i].logical.output_region(scale)
        } else {
            shots[i].output_region_unscaled(positions)
        };
        assert(region == raw[i as int]);
        out.push(region);
        i = i + 1;
    }
    assert(out@ =~= raw);
    out
}

/// Moves the regions so that the leftmost and the topmost start at zero.
pub(crate) fn repage(
    raw: &Vec<ORegion>,
    shots: &Vec<Screenshot>,
    scale_up: bool,
    scale: u32,
    Ghost(positions): Ghost<Seq<MonitorPosition>>,
) -> (r: Vec<ORegion>)
    requires
        gathered(shots@, scale_up, positions),
        scale == largest_scale(shots@, shots@.len() as int),
        raw@ == raw_regions(shots@, scale_up, positions),
    ensures
        r@ == start_regions(shots@, scale_up, positions),
{
    let n: usize = raw.len();
    let mut min_x: i32 = raw[0].x;
    let mut min_y: i32 = raw[0].y;
    let mut i: usize = 1;
    while i < n
        invariant
            1 <= i <= n,
            n == raw@.len(),
            min_x == least_x(raw@, i as int),
            min_y == least_y(raw@, i as int),
        decreases n - i,
    {
        if raw[i].x < min_x {
            min_x = raw[i].x;
        }
        if raw[i].y < min_y {
            min_y = raw[i].y;
        }
        i = i + 1;
    }
    let ghost start = start_regions(shots@, scale_up, positions);
    let mut out: Vec<ORegion> = Vec::new();
    let mut k: usize = 0;
    while k < n
        invariant
            k <= n,
            n == raw@.len(),
            n == shots@.len(),
            out@.len() == k,
            gathered(shots@, scale_up, positions),
            scale == largest_scale(shots@, shots@.len() as int),
            raw@ == raw_regions(shots@, scale_up, positions),
            start == start_regions(shots@, scale_up, positions),
            min_x == least_x(raw@, n as int),
            min_y == least_y(raw@, n as int),
            forall|j: int| 0 <= j < k ==> #[trigger] out@[j] == start[j],
        decreases n - k,
    {
        proof {
            lemma_least(raw@, n as int, k as int);
            assert(shots@[k as int].wf());
            assert(raw@[k as int].x - least_x(raw@, n as int) <= i32::MAX);
        }
        let shot = &shots[k];
        let alone: bool = n == 1 && (!scale_up || shot.monitor.fixed_scale() == scale);
        let region = ORegion {
            x: (raw[k].x as i64 - min_x as i64) as i32,
            y: (raw[k].y as i64 - min_y as i64) as i32,
            width: if alone {
                shot.image.width as i32
            } else {
                raw[k].width
            },
            height: if alone {
                shot.image.height as i32
            } else {
                raw[k].height
            },
        };
        assert(region == start[k as int]);
        out.push(region);
        k = k + 1;
    }
    assert(out@ =~= start);
    out
}

/// How large the picture is that holds all regions.
pub(crate) fn extents(regions: &Vec<ORegion>) -> (r: (i32, i32))
    requires
        regions@.len() > 0,
        forall|k: int| 0 <= k < regions@.len() ==> (#[trigger] regions@[k]).fits(),
    ensures
        r.0 == extent_x(regions@, regions@.len() as int),
        r.1 == extent_y(regions@, regions@.len() as int),
{
    assert(regions@[0].fits());
    let mut width: i32 = regions[0].x + regions[0].width;
    let mut height: i32 = regions[0].y + regions[0].height;
    let mut i: usize = 1;
    while i < regions.len()
        invariant
            1 <= i <= regions@.len(),
            forall|k: int| 0 <= k < regions@.len() ==> (#[trigger] regions@[k]).fits(),
            width == extent_x(regions@, i as int),
            height == extent_y(regions@, i as int),
        decreases regions@.len() - i,
    {
        assert(regions@[i as int].fits());
        let right: i32 = regions[i].x + regions[i].width;
        let bottom: i32 = regions[i].y + regions[i].height;
        if right > width {
            width = right;
        }
        if bottom > height {
            height = bottom;
        }
        i = i + 1;
    }
    (width, height)
}

/// Where each screenshot ends up in the combined picture.
pub fn arrange(shots: &Vec<Screenshot>, scale_up: bool, positions: &Vec<MonitorPosition>) -> (r: Vec<
    ORegion,
>)
    requires
        arrangeable(shots@, scale_up, positions@),
    ensures
        r@ == layout(shots@, scale_up, positions@),
        clear(r@),
{
    assert forall|k: int| 0 <= k < shots@.len() implies (#[trigger] shots@[k]).wf() by {}
    let scale: u32 = max_scale(shots);
    let raw = place(shots, scale_up, scale, positions);
    let mut regions = repage(&raw, shots, scale_up, scale, Ghost(positions@));
    fix_overlaps(regions.as_mut_slice());
    regions
}

/// The facts about a layout that drawing in it needs.
pub(crate) proof fn lemma_layout(shots: Seq<Screenshot>, scale_up: bool, positions: Seq<MonitorPosition>)
    requires
        arrangeable(shots, scale_up, positions),
    ensures
        ({
            let placed = layout(shots, scale_up, positions);
            let n = shots.len() as int;
            &&& placed.len() == n
            &&& clear(placed)
            &&& extent_x(placed, n) > 0
            &&& extent_y(placed, n) > 0
            &&& forall|k: int|
                0 <= k < n ==> (#[trigger] placed[k]).fits() && placed[k].width > 0
                    && placed[k].height > 0 && 0 <= placed[k].x && 0 <= placed[k].y && placed[k].x
                    + placed[k].width <= extent_x(placed, n) && placed[k].y + placed[k].height
                    <= extent_y(placed, n)
        }),
{
    let start = start_regions(shots, scale_up, positions);
    let raw = raw_regions(shots, scale_up, positions);
    let placed = layout(shots, scale_up, positions);
    let n = shots.len() as int;
    crate::img::overlaps::corrections_end(start);
    assert forall|k: int| 0 <= k < n implies (#[trigger] placed[k]).fits() && placed[k].width > 0
        && placed[k].height > 0 && 0 <= placed[k].x && 0 <= placed[k].y && placed[k].x
        + placed[k].width <= extent_x(placed, n) && placed[k].y + placed[k].height <= extent_y(
        placed,
        n,
    ) by {
        lemma_least(raw, n, k);
        lemma_extent(placed, n, k);
        assert(start[k].width > 0 && start[k].height > 0);
        assert(raw[k].x - least_x(raw, n) <= i32::MAX);
        assert(start[k].x >= 0 && start[k].y >= 0);
        assert(settled(start)[k].fits());
    }
    assert(placed[0].width > 0);
}

/// Combines screenshots into one picture, on black where no screenshot is.
///
/// With `scale_up` every screenshot is drawn at the largest scale among them; without it, each at
/// the size that it was captured in.
pub fn combine(shots: Vec<Screenshot>, scale_up: bool, positions: &Vec<MonitorPosition>) -> (r:
    Image)
    requires
        combinable(shots@, scale_up, positions@),
    ensures
        combined(shots@, scale_up, positions@, r),
{
    let ghost all = shots@;
    let ghost n = all.len() as int;
    let ghost placed = layout(all, scale_up, positions@);
    assert forall|k: int| 0 <= k < all.len() implies (#[trigger] all[k]).wf() by {}
    let scale: u32 = max_scale(&shots);
    let regions = arrange(&shots, scale_up, positions);
    proof {
        lemma_layout(all, scale_up, positions@);
    }
    let (width, height) = extents(&regions);
    let mut pictures: Vec<Image> = Vec::new();
    for shot in iter: shots
        invariant
            iter.seq() == all,
            n == all.len(),
            combinable(all, scale_up, positions@),
            placed == layout(all, scale_up, positions@),
            regions@ == placed,
            placed.len() == n,
            width == extent_x(placed, n),
            height == extent_y(placed, n),
            scale == largest_scale(all, n),
            pictures@.len() == iter.index(),
            forall|k: int|
                0 <= k < n ==> (#[trigger] placed[k]).fits() && placed[k].width > 0
                    && placed[k].height > 0 && 0 <= placed[k].x && 0 <= placed[k].y && placed[k].x
                    + placed[k].width <= width && placed[k].y + placed[k].height <= height,
            forall|k: int|
                0 <= k < pictures@.len() ==> (#[trigger] pictures@[k]).wf() && (if keeps_size(
                    all[k],
                    scale_up,
                    scale as int,
                ) {
                    pictures@[k] == all[k].image
                } else {
                    stretched(all[k], placed[k], pictures@[k])
                }),
    {
        let k: usize = pictures.len();
        assert(all[k as int].wf());
        assert(drawable(all[k as int], placed[k as int], scale_up, scale as int));
        let ghost region = placed[k as int];
        if scale_up && shot.monitor.fixed_scale() != scale {
            let w: u32 = regions[k].width as u32;
            let h: u32 = regions[k].height as u32;
            proof {
                let a = region.width as int;
                let b = region.height as int;
                let p = width as int;
                let q = height as int;
                assert(a * b <= p * q) by (nonlinear_arith)
                    requires
                        0 < a <= p,
                        0 < b <= q,
                ;
            }
            let data = resample(&shot.image, w, h);
            pictures.push(Image { width: w, height: h, data });
        } else {
            pictures.push(shot.image);
        }
    }
    proof {
        assert(renders(all, placed, scale_up, pictures@));
        assert forall|k: int| 0 <= k < regions@.len() implies placeable(
            #[trigger] regions@[k],
            pictures@[k],
            width as int,
            height as int,
        ) by {
            assert(drawable(all[k], placed[k], scale_up, scale as int));
            assert(pictures@[k].wf());
        }
    }
    compose(&regions, &pictures, width as u32, height as u32)
}

/// The combined picture has no spare margin: some screenshot starts at its left edge, and some at
/// its top.
pub proof fn no_margin_is_left(
    shots: Seq<Screenshot>,
    scale_up: bool,
    positions: Seq<MonitorPosition>,
)
    requires
        arrangeable(shots, scale_up, positions),
    ensures
        ({
            let placed = layout(shots, scale_up, positions);
            let n = shots.len() as int;
            &&& least_x(placed, n) == 0
            &&& least_y(placed, n) == 0
            &&& exists|k: int| 0 <= k < n && (#[trigger] placed[k]).x == 0
            &&& exists|k: int| 0 <= k < n && (#[trigger] placed[k]).y == 0
        }),
{
    let start = start_regions(shots, scale_up, positions);
    let raw = raw_regions(shots, scale_up, positions);
    let n = shots.len() as int;
    crate::img::overlaps::corrections_end(start);
    let (i, j) = lemma_least_attained(raw, n);
    let (k, l) = lemma_least_attained(start, n);
    assert forall|m: int| 0 <= m < n implies (#[trigger] start[m]).x == raw[m].x - least_x(raw, n)
        && start[m].y == raw[m].y - least_y(raw, n) by {
        lemma_least(raw, n, m);
        assert(raw[m].x - least_x(raw, n) <= i32::MAX);
    }
    lemma_least(raw, n, k);
    lemma_least(raw, n, l);
    lemma_least(start, n, i);
    lemma_least(start, n, j);
    assert(start[i].x == 0 && start[j].y == 0);
    assert(start[k].x >= 0 && start[l].y >= 0);
}

/// A lone screenshot that is not empty can always be combined, and comes out as it is, wherever it
/// lies and whatever the scale of its monitor.
pub proof fn lone_screenshots_stay(
    shots: Seq<Screenshot>,
    scale_up: bool,
    positions: Seq<MonitorPosition>,
    r: Image,
)
    requires
        shots.len() == 1,
        positioned(shots, scale_up, positions),
        shots[0].image.width > 0,
        shots[0].image.height > 0,
        shots[0].image.data@.len() <= isize::MAX,
    ensures
        combinable(shots, scale_up, positions),
        combined(shots, scale_up, positions, r) ==> {
            &&& r.width == shots[0].image.width
            &&& r.height == shots[0].image.height
            &&& r.data@ == shots[0].image.data@
        },
{
    let image = shots[0].image;
    let start = start_regions(shots, scale_up, positions);
    let raw = raw_regions(shots, scale_up, positions);
    let placed = layout(shots, scale_up, positions);
    let scale = largest_scale(shots, 1);
    assert(shots[0].wf());
    assert(keeps_size(shots[0], scale_up, scale));
    assert(raw[0].x - least_x(raw, 1) == 0 && raw[0].y - least_y(raw, 1) == 0);
    assert(start[0] == (ORegion {
        x: 0,
        y: 0,
        width: image.width as i32,
        height: image.height as i32,
    }));
    assert(clear(start));
    crate::img::overlaps::clear_regions_stay(start);
    assert(placed == start);
    assert(drawable(shots[0], placed[0], scale_up, scale));
    if combined(shots, scale_up, positions, r) {
        let pictures = choose|pictures: Seq<Image>| #[trigger]
            renders(shots, placed, scale_up, pictures) && forall|x: int, y: int, c: int|
                0 <= x < r.width && 0 <= y < r.height && 0 <= c < 3 ==> #[trigger] r.channel(
                    x,
                    y,
                    c,
                ) == drawn(placed, pictures, 1, x, y, c);
        assert(pictures[0] == image);
        assert forall|x: int, y: int, c: int|
            0 <= x < r.width && 0 <= y < r.height && 0 <= c < 3 implies #[trigger] r.channel(
            x,
            y,
            c,
        ) == image.channel(x, y, c) by {
            assert(r.channel(x, y, c) == drawn(placed, pictures, 1, x, y, c));
        }
        crate::img::compose::lemma_same_picture(r, image);
    }
}

/// In the combined picture every screenshot that keeps its size shows in full, pixel for pixel,
/// in the region that it ends up in.
pub proof fn screenshots_show_in_full(
    shots: Seq<Screenshot>,
    scale_up: bool,
    positions: Seq<MonitorPosition>,
    pictures: Seq<Image>,
    k: int,
    x: int,
    y: int,
    c: int,
)
    requires
        combinable(shots, scale_up, positions),
        renders(shots, layout(shots, scale_up, positions), scale_up, pictures),
        0 <= k < shots.len(),
        keeps_size(shots[k], scale_up, largest_scale(shots, shots.len() as int)),
        0 <= x < shots[k].image.width,
        0 <= y < shots[k].image.height,
        y < layout(shots, scale_up, positions)[k].height,
    ensures
        ({
            let placed = layout(shots, scale_up, positions);
            drawn(placed, pictures, shots.len() as int, placed[k].x + x, placed[k].y + y, c)
                == shots[k].image.channel(x, y, c)
        }),
{
    let placed = layout(shots, scale_up, positions);
    let scale = largest_scale(shots, shots.len() as int);
    lemma_layout(shots, scale_up, positions);
    assert(pictures[k] == shots[k].image);
    assert forall|i: int| 0 <= i < placed.len() implies (#[trigger] pictures[i]).width
        <= placed[i].width by {
        assert(drawable(shots[i], placed[i], scale_up, scale));
    }
    crate::img::compose::pictures_show_in_full(
        placed,
        pictures,
        k,
        shots.len() as int,
        placed[k].x + x,
        placed[k].y + y,
        c,
    );
}

/// The scale that everything is scaled up to is that of some screenshot, and no screenshot has a
/// larger one.
pub proof fn the_largest_scale_is_used(shots: Seq<Screenshot>, n: int)
    requires
        0 < n <= shots.len(),
    ensures
        forall|k: int|
            0 <= k < n ==> (#[trigger] shots[k]).monitor.fixed_scale_spec() <= largest_scale(shots, n),
        exists|k: int|
            0 <= k < n && (#[trigger] shots[k]).monitor.fixed_scale_spec() == largest_scale(shots, n),
    decreases n,
{
    if n > 1 {
        the_largest_scale_is_used(shots, n - 1);
        let k = choose|k: int|
            0 <= k < n - 1 && (#[trigger] shots[k]).monitor.fixed_scale_spec() == largest_scale(
                shots,
                n - 1,
            );
        assert(shots[k].monitor.fixed_scale_spec() == largest_scale(shots, n)
            || shots[n - 1].monitor.fixed_scale_spec() == largest_scale(shots, n));
    } else {
        assert(shots[0].monitor.fixed_scale_spec() == largest_scale(shots, n));
    }
}

/// The edge does not lie at the end of the range of pixels.
pub open spec fn edge_in_range(c: Coord, scale: int) -> bool {
    i32::MIN < LFRegion::scaled_edge(c, scale) < i32::MAX
}

/// A larger scale makes a side at most one pixel shorter, which rounding can take.
proof fn lemma_scaled_side(l: Coord, r: Coord, s: int, t: int)
    requires
        l.within(EDGE_RANGE as int),
        r.within(EDGE_RANGE as int),
        l.le(r),
        0 <= s <= t <= u32::MAX,
        edge_in_range(l, s),
        edge_in_range(l, t),
        edge_in_range(r, s),
        edge_in_range(r, t),
    ensures
        LFRegion::scaled_edge(r, t) - LFRegion::scaled_edge(l, t) >= LFRegion::scaled_edge(r, s)
            - LFRegion::scaled_edge(l, s) - 1,
{
    crate::util::output_edges_are_nearest(l, s);
    crate::util::output_edges_are_nearest(l, t);
    crate::util::output_edges_are_nearest(r, s);
    crate::util::output_edges_are_nearest(r, t);
    let a = LFRegion::scaled_edge(r, t);
    let b = LFRegion::scaled_edge(l, t);
    let c = LFRegion::scaled_edge(r, s);
    let d = LFRegion::scaled_edge(l, s);
    let (ln, ld) = (l.num as int, l.den as int);
    let (rn, rd) = (r.num as int, r.den as int);
    let u = ld * rd;
    let p = ln * rd;
    let q = rn * ld;
    assert(u > 0) by (nonlinear_arith)
        requires
            u == ld * rd,
            ld > 0,
            rd > 0,
    ;
    assert(240 * (a * u) > 2 * (q * t) - 120 * u) by (nonlinear_arith)
        requires
            2 * (rn * t) + 120 * rd < 240 * (a * rd) + 240 * rd,
            u == ld * rd,
            q == rn * ld,
            ld > 0,
    {
        assert((2 * (rn * t) + 120 * rd) * ld < (240 * (a * rd) + 240 * rd) * ld);
    }
    assert(240 * (b * u) <= 2 * (p * t) + 120 * u) by (nonlinear_arith)
        requires
            240 * (b * ld) <= 2 * (ln * t) + 120 * ld,
            u == ld * rd,
            p == ln * rd,
            rd > 0,
    {
        assert((240 * (b * ld)) * rd <= (2 * (ln * t) + 120 * ld) * rd);
    }
    assert(240 * (c * u) <= 2 * (q * s) + 120 * u) by (nonlinear_arith)
        requires
            240 * (c * rd) <= 2 * (rn * s) + 120 * rd,
            u == ld * rd,
            q == rn * ld,
            ld > 0,
    {
        assert((240 * (c * rd)) * ld <= (2 * (rn * s) + 120 * rd) * ld);
    }
    assert(240 * (d * u) > 2 * (p * s) - 120 * u) by (nonlinear_arith)
        requires
            2 * (ln * s) + 120 * ld < 240 * (d * ld) + 240 * ld,
            u == ld * rd,
            p == ln * rd,
            rd > 0,
    {
        assert((2 * (ln * s) + 120 * ld) * rd < (240 * (d * ld) + 240 * ld) * rd);
    }
    assert(q * t - p * t >= q * s - p * s) by (nonlinear_arith)
        requires
            q >= p,
            t >= s,
    ;
    assert(a - b > c - d - 2) by (nonlinear_arith)
        requires
            240 * (a * u) - 240 * (b * u) > 240 * (c * u) - 240 * (d * u) - 480 * u,
            u > 0,
    ;
}

/// With `scale_up`, all screenshots are drawn at one scale, the largest of their monitors, so that
/// none is drawn smaller than at its own: a side can be one pixel shorter, which is what rounding
/// its two edges takes.
pub proof fn scaling_up_shrinks_nothing(
    shots: Seq<Screenshot>,
    positions: Seq<MonitorPosition>,
    scale: int,
    k: int,
)
    requires
        arrangeable(shots, true, positions),
        shots.len() > 1,
        0 <= k < shots.len(),
        forall|j: int| 0 <= j < shots.len() ==> (#[trigger] shots[j]).monitor.fixed_scale_spec() <= scale,
        exists|j: int| 0 <= j < shots.len() && (#[trigger] shots[j]).monitor.fixed_scale_spec() == scale,
    ensures
        ({
            let r = shots[k].logical;
            let own = shots[k].monitor.fixed_scale_spec();
            let placed = layout(shots, true, positions)[k];
            &&& placed.width == LFRegion::scaled_edge(r.right, scale) - LFRegion::scaled_edge(
                r.left,
                scale,
            )
            &&& placed.height == LFRegion::scaled_edge(r.bottom, scale) - LFRegion::scaled_edge(
                r.top,
                scale,
            )
            &&& r.left.le(r.right) && edge_in_range(r.left, own) && edge_in_range(r.left, scale)
                && edge_in_range(r.right, own) && edge_in_range(r.right, scale) ==> placed.width
                >= LFRegion::scaled_edge(r.right, own) - LFRegion::scaled_edge(r.left, own) - 1
            &&& r.top.le(r.bottom) && edge_in_range(r.top, own) && edge_in_range(r.top, scale)
                && edge_in_range(r.bottom, own) && edge_in_range(r.bottom, scale) ==> placed.height
                >= LFRegion::scaled_edge(r.bottom, own) - LFRegion::scaled_edge(r.top, own) - 1
        }),
{
    let n = shots.len() as int;
    let r = shots[k].logical;
    let own = shots[k].monitor.fixed_scale_spec();
    let start = start_regions(shots, true, positions);
    the_largest_scale_is_used(shots, n);
    assert(scale == largest_scale(shots, n)) by {
        let j = choose|j: int|
            0 <= j < n && (#[trigger] shots[j]).monitor.fixed_scale_spec() == scale;
        let i = choose|i: int|
            0 <= i < n && (#[trigger] shots[i]).monitor.fixed_scale_spec() == largest_scale(shots, n);
        assert(shots[j].monitor.fixed_scale_spec() <= largest_scale(shots, n));
        assert(shots[i].monitor.fixed_scale_spec() <= scale);
    }
    assert(shots[k].wf() && shots[k].logical.output_fits(scale));
    crate::util::scales_are_rounded_to_120ths(&shots[k].monitor);
    let j = choose|j: int| 0 <= j < n && (#[trigger] shots[j]).monitor.fixed_scale_spec() == scale;
    assert(shots[j].wf());
    crate::util::scales_are_rounded_to_120ths(&shots[j].monitor);
    crate::img::overlaps::corrections_end(start);
    assert(settled(start)[k].width == start[k].width);
    crate::util::output_regions_are_given_by_edges(r, scale);
    if r.left.le(r.right) && edge_in_range(r.left, own) && edge_in_range(r.left, scale)
        && edge_in_range(r.right, own) && edge_in_range(r.right, scale) {
        lemma_scaled_side(r.left, r.right, own, scale);
    }
    if r.top.le(r.bottom) && edge_in_range(r.top, own) && edge_in_range(r.top, scale)
        && edge_in_range(r.bottom, own) && edge_in_range(r.bottom, scale) {
        lemma_scaled_side(r.top, r.bottom, own, scale);
    }
}

/// Without `scale_up`, a screenshot keeps its size and lies where its monitor is configured to be:
/// at the first configured position whose identifier is part of the monitor's description, moved by
/// where the screenshot starts on the monitor. Where none is configured, it lies at the nearest whole
/// pixel of its logical position.
pub proof fn configured_positions_are_used(
    shot: &Screenshot,
    positions: Seq<MonitorPosition>,
    k: int,
)
    requires
        shot.wf(),
        0 <= k <= positions.len(),
        forall|i: int|
            0 <= i < k ==> !occurs(shot.monitor.description@, (#[trigger] positions[i]).id@),
        k < positions.len() ==> occurs(shot.monitor.description@, positions[k].id@),
    ensures
        shot.unscaled(positions).width == shot.image.width,
        shot.unscaled(positions).height == shot.image.height,
        shot.unscaled_fits(positions) ==> {
            let x = shot.unscaled(positions).x as int;
            let y = shot.unscaled(positions).y as int;
            let left = shot.logical.left;
            let top = shot.logical.top;
            &&& k < positions.len() ==> x == positions[k].x + shot.monitor_region.x && y
                == positions[k].y + shot.monitor_region.y
            &&& k == positions.len() && i32::MIN < x < i32::MAX ==> 2 * (x * left.den) <= 2
                * left.num + left.den && 2 * left.num + left.den < 2 * (x * left.den) + 2 * left.den
            &&& k == positions.len() && i32::MIN < y < i32::MAX ==> 2 * (y * top.den) <= 2 * top.num
                + top.den && 2 * top.num + top.den < 2 * (y * top.den) + 2 * top.den
        },
{
    lemma_position(positions, shot.monitor.description@, k);
    lemma_round(shot.logical.left);
    lemma_round(shot.logical.top);
}

proof fn lemma_position(positions: Seq<MonitorPosition>, description: Seq<char>, k: int)
    requires
        0 <= k <= positions.len(),
        forall|i: int| 0 <= i < k ==> !occurs(description, (#[trigger] positions[i]).id@),
        k < positions.len() ==> occurs(description, positions[k].id@),
    ensures
        position_for(positions, description) == if k < positions.len() {
            Some(positions[k])
        } else {
            None
        },
    decreases k,
{
    if k > 0 {
        let rest = positions.drop_first();
        assert(!occurs(description, positions[0].id@));
        assert forall|i: int| 0 <= i < k - 1 implies !occurs(
            description,
            (#[trigger] rest[i]).id@,
        ) by {
            assert(rest[i] == positions[i + 1]);
        }
        lemma_position(rest, description, k - 1);
    }
}

proof fn lemma_round(c: Coord)
    requires
        c.den > 0,
    ensures
        ({
            let q = round_div(c.num as int, c.den as int);
            2 * (q * c.den) <= 2 * c.num + c.den && 2 * c.num + c.den < 2 * (q * c.den) + 2 * c.den
        }),
{
    let d = c.den as int;
    let a = 2 * c.num + d;
    let q = a / (2 * d);
    vstd::arithmetic::div_mod::lemma_fundamental_div_mod(a, 2 * d);
    vstd::arithmetic::div_mod::lemma_mod_bound(a, 2 * d);
    assert((2 * d) * q == 2 * (q * d)) by (nonlinear_arith);
}

/// Screenshots that do not overlap keep their places relative to each other; those that do are moved
/// apart, and no pixel of the result belongs to two of them.
pub proof fn screenshots_keep_their_places(
    shots: Seq<Screenshot>,
    scale_up: bool,
    positions: Seq<MonitorPosition>,
    i: int,
    j: int,
    x: int,
    y: int,
)
    requires
        arrangeable(shots, scale_up, positions),
        0 <= i < shots.len(),
        0 <= j < shots.len(),
        i != j,
    ensures
        ({
            let scale = largest_scale(shots, shots.len() as int);
            let placed = layout(shots, scale_up, positions);
            let a = placed[i];
            let b = placed[j];
            let p = if scale_up {
                shots[i].logical.output_spec(scale)
            } else {
                shots[i].unscaled(positions)
            };
            let q = if scale_up {
                shots[j].logical.output_spec(scale)
            } else {
                shots[j].unscaled(positions)
            };
            &&& clear(start_regions(shots, scale_up, positions)) ==> a.x - b.x == p.x - q.x && a.y
                - b.y == p.y - q.y
            &&& !(a.x <= x < a.x + a.width && a.y <= y < a.y + a.height && b.x <= x < b.x + b.width
                && b.y <= y < b.y + b.height)
        }),
{
    let n = shots.len() as int;
    let raw = raw_regions(shots, scale_up, positions);
    let start = start_regions(shots, scale_up, positions);
    crate::img::overlaps::no_pixel_is_shared(start, i, j, x, y);
    lemma_least(raw, n, i);
    lemma_least(raw, n, j);
    assert(raw[i].x - least_x(raw, n) <= i32::MAX && raw[j].x - least_x(raw, n) <= i32::MAX);
    if clear(start) {
        crate::img::overlaps::clear_regions_stay(start);
    }
}

/// The combined picture is just large enough: it reaches as far as the region that reaches furthest.
pub proof fn the_picture_holds_every_region(s: Seq<ORegion>, n: int)
    requires
        0 < n <= s.len(),
    ensures
        forall|k: int|
            0 <= k < n ==> (#[trigger] s[k]).x + s[k].width <= extent_x(s, n) && s[k].y + s[k].height
                <= extent_y(s, n),
        exists|k: int| 0 <= k < n && (#[trigger] s[k]).x + s[k].width == extent_x(s, n),
        exists|k: int| 0 <= k < n && (#[trigger] s[k]).y + s[k].height == extent_y(s, n),
    decreases n,
{
    assert forall|k: int| 0 <= k < n implies (#[trigger] s[k]).x + s[k].width <= extent_x(s, n)
        && s[k].y + s[k].height <= extent_y(s, n) by {
        lemma_extent(s, n, k);
    }
    if n > 1 {
        the_picture_holds_every_region(s, n - 1);
        let i = choose|k: int|
            0 <= k < n - 1 && (#[trigger] s[k]).x + s[k].width == extent_x(s, n - 1);
        let j = choose|k: int|
            0 <= k < n - 1 && (#[trigger] s[k]).y + s[k].height == extent_y(s, n - 1);
        assert(s[i].x + s[i].width == extent_x(s, n) || s[n - 1].x + s[n - 1].width == extent_x(
            s,
            n,
        ));
        assert(s[j].y + s[j].height == extent_y(s, n) || s[n - 1].y + s[n - 1].height == extent_y(
            s,
            n,
        ));
    } else {
        assert(s[0].x + s[0].width == extent_x(s, n));
        assert(s[0].y + s[0].height == extent_y(s, n));
    }
}

/// A screenshot is drawn as it was captured if nothing is scaled, or if no other one has a larger
/// scale. Any other one is resampled to the size of its region.
pub proof fn the_sharpest_screenshots_stay_sharp(
    shots: Seq<Screenshot>,
    placed: Seq<ORegion>,
    scale_up: bool,
    pictures: Seq<Image>,
    k: int,
)
    requires
        renders(shots, placed, scale_up, pictures),
        0 <= k < shots.len(),
    ensures
        !scale_up || (forall|j: int|
            0 <= j < shots.len() ==> (#[trigger] shots[j]).monitor.fixed_scale_spec()
                <= shots[k].monitor.fixed_scale_spec()) ==> pictures[k] == shots[k].image,
        scale_up && (exists|j: int|
            0 <= j < shots.len() && (#[trigger] shots[j]).monitor.fixed_scale_spec()
                > shots[k].monitor.fixed_scale_spec()) ==> pictures[k].width == placed[k].width
            && pictures[k].height == placed[k].height && resampled(
            shots[k].image.data@,
            shots[k].image.width as int,
            shots[k].image.height as int,
            placed[k].width as int,
            placed[k].height as int,
            pictures[k].data@,
        ),
{
    let n = shots.len() as int;
    the_largest_scale_is_used(shots, n);
    assert(pictures[k] == pictures[k]);
    let i = choose|i: int|
        0 <= i < n && (#[trigger] shots[i]).monitor.fixed_scale_spec() == largest_scale(shots, n);
    assert(shots[k].monitor.fixed_scale_spec() <= largest_scale(shots, n));
    assert(shots[i].monitor.fixed_scale_spec() == largest_scale(shots, n));
    if exists|j: int|
        0 <= j < shots.len() && (#[trigger] shots[j]).monitor.fixed_scale_spec()
            > shots[k].monitor.fixed_scale_spec() {
        let j = choose|j: int|
            0 <= j < shots.len() && (#[trigger] shots[j]).monitor.fixed_scale_spec()
                > shots[k].monitor.fixed_scale_spec();
        assert(shots[j].monitor.fixed_scale_spec() <= largest_scale(shots, n));
    }
}

/// Where a screenshot lies on its own: at the largest of all scales or, without `scale_up`, in its
/// own pixels.
pub open spec fn own_place(
    shots: Seq<Screenshot>,
    scale_up: bool,
    positions: Seq<MonitorPosition>,
    scale: int,
    k: int,
) -> ORegion {
    if scale_up {
        shots[k].logical.output_spec(scale)
    } else {
        shots[k].unscaled(positions)
    }
}

/// Screenshots no two of which share a pixel where they lie on their own are only moved together:
/// each keeps its size and its distance from every other.
pub proof fn separate_screenshots_are_moved_together(
    shots: Seq<Screenshot>,
    scale_up: bool,
    positions: Seq<MonitorPosition>,
    scale: int,
    i: int,
    j: int,
)
    requires
        arrangeable(shots, scale_up, positions),
        shots.len() > 1,
        0 <= i < shots.len(),
        0 <= j < shots.len(),
        forall|k: int| 0 <= k < shots.len() ==> (#[trigger] shots[k]).monitor.fixed_scale_spec() <= scale,
        exists|k: int| 0 <= k < shots.len() && (#[trigger] shots[k]).monitor.fixed_scale_spec() == scale,
        forall|k: int, l: int|
            0 <= k < l < shots.len() ==> !share_a_pixel(
                #[trigger] own_place(shots, scale_up, positions, scale, k),
                #[trigger] own_place(shots, scale_up, positions, scale, l),
            ),
    ensures
        ({
            let placed = layout(shots, scale_up, positions);
            let p = own_place(shots, scale_up, positions, scale, i);
            let q = own_place(shots, scale_up, positions, scale, j);
            &&& placed.len() == shots.len()
            &&& placed[i].width == p.width && placed[i].height == p.height
            &&& placed[i].x - placed[j].x == p.x - q.x
            &&& placed[i].y - placed[j].y == p.y - q.y
        }),
{
    let n = shots.len() as int;
    let raw = raw_regions(shots, scale_up, positions);
    let start = start_regions(shots, scale_up, positions);
    lemma_is_largest(shots, scale);
    assert forall|k: int| 0 <= k < n implies (#[trigger] start[k]).width == raw[k].width
        && start[k].height == raw[k].height && start[k].x == raw[k].x - least_x(raw, n)
        && start[k].y == raw[k].y - least_y(raw, n) && raw[k] == own_place(
        shots,
        scale_up,
        positions,
        scale,
        k,
    ) by {
        lemma_least(raw, n, k);
        assert(raw[k].x - least_x(raw, n) <= i32::MAX);
    }
    assert forall|k: int, l: int| 0 <= k < l < n implies !#[trigger] crate::img::overlaps::clash(
        start,
        k,
        l,
    ) by {
        assert(!share_a_pixel(
            own_place(shots, scale_up, positions, scale, k),
            own_place(shots, scale_up, positions, scale, l),
        ));
        assert(start[k].width > 0 && start[l].width > 0);
    }
    crate::img::overlaps::clear_regions_stay(start);
    assert(start[i].width == raw[i].width && start[j].width == raw[j].width);
}

/// The largest scale is known by what it is.
proof fn lemma_is_largest(shots: Seq<Screenshot>, scale: int)
    requires
        shots.len() > 0,
        forall|k: int| 0 <= k < shots.len() ==> (#[trigger] shots[k]).monitor.fixed_scale_spec() <= scale,
        exists|k: int| 0 <= k < shots.len() && (#[trigger] shots[k]).monitor.fixed_scale_spec() == scale,
    ensures
        largest_scale(shots, shots.len() as int) == scale,
{
    let n = shots.len() as int;
    the_largest_scale_is_used(shots, n);
    let j = choose|j: int| 0 <= j < n && (#[trigger] shots[j]).monitor.fixed_scale_spec() == scale;
    let i = choose|i: int|
        0 <= i < n && (#[trigger] shots[i]).monitor.fixed_scale_spec() == largest_scale(shots, n);
    assert(shots[j].monitor.fixed_scale_spec() <= largest_scale(shots, n));
    assert(shots[i].monitor.fixed_scale_spec() <= scale);
}

/// The combined picture reaches exactly as far as the screenshot that reaches furthest. Every
/// screenshot that no other has a larger scale than, and every one if nothing is scaled, is in it
/// pixel for pixel, in the place that it ends up in.
pub proof fn combined_pictures_show_the_screenshots(
    shots: Seq<Screenshot>,
    scale_up: bool,
    positions: Seq<MonitorPosition>,
    r: Image,
    k: int,
    x: int,
    y: int,
    c: int,
)
    requires
        combinable(shots, scale_up, positions),
        combined(shots, scale_up, positions, r),
        0 <= k < shots.len(),
        0 <= c < 3,
    ensures
        ({
            let placed = layout(shots, scale_up, positions);
            &&& placed.len() == shots.len()
            &&& placed[k].x + placed[k].width <= r.width
            &&& placed[k].y + placed[k].height <= r.height
            &&& exists|i: int|
                0 <= i < placed.len() && (#[trigger] placed[i]).x + placed[i].width == r.width
            &&& exists|i: int|
                0 <= i < placed.len() && (#[trigger] placed[i]).y + placed[i].height == r.height
            &&& (!scale_up || forall|j: int|
                0 <= j < shots.len() ==> (#[trigger] shots[j]).monitor.fixed_scale_spec()
                    <= shots[k].monitor.fixed_scale_spec()) && 0 <= x < shots[k].image.width && 0
                <= y < shots[k].image.height && y < placed[k].height ==> r.channel(
                placed[k].x + x,
                placed[k].y + y,
                c,
            ) == shots[k].image.channel(x, y, c)
        }),
{
    let n = shots.len() as int;
    let placed = layout(shots, scale_up, positions);
    let scale = largest_scale(shots, n);
    lemma_layout(shots, scale_up, positions);
    the_picture_holds_every_region(placed, n);
    assert(placed[k].fits());
    if (!scale_up || forall|j: int|
        0 <= j < shots.len() ==> (#[trigger] shots[j]).monitor.fixed_scale_spec()
            <= shots[k].monitor.fixed_scale_spec()) && 0 <= x < shots[k].image.width && 0 <= y
        < shots[k].image.height && y < placed[k].height {
        let pictures = choose|pictures: Seq<Image>| #[trigger]
            renders(shots, placed, scale_up, pictures) && forall|x: int, y: int, c: int|
                0 <= x < r.width && 0 <= y < r.height && 0 <= c < 3 ==> #[trigger] r.channel(
                    x,
                    y,
                    c,
                ) == drawn(placed, pictures, n, x, y, c);
        if scale_up {
            lemma_is_largest(shots, shots[k].monitor.fixed_scale_spec());
        }
        assert(keeps_size(shots[k], scale_up, scale));
        assert(drawable(shots[k], placed[k], scale_up, scale));
        screenshots_show_in_full(shots, scale_up, positions, pictures, k, x, y, c);
        assert(r.channel(placed[k].x + x, placed[k].y + y, c) == drawn(
            placed,
            pictures,
            n,
            placed[k].x + x,
            placed[k].y + y,
            c,
        ));
    }
}

} // verus!

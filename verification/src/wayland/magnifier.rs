//! The enlarged view of the pixels around the pointer.

use vstd::prelude::*;

use crate::coord::{clamp_i32, round_away, saturate, LOCAL_RANGE};
use crate::util::{pixel_index, MLPoint, Monitor};
use crate::wayland::buffer::Buffer;
use crate::wayland::{Format, OutputKey};

verus! {

/// How many pixels the view shows in each direction. Must be odd.
pub const RES: usize = 11;

/// How large each of them is shown.
pub const SCALE: usize = 20;

/// The size of the view.
pub const LARGE_RES: usize = 220;

/// The distance between the pointer and the view.
pub const PADDING: i32 = 30;

/// A buffer for an enlarged view.
#[derive(Debug, Clone, Copy)]
pub struct Zoom {
    pub locked: bool,
    pub buffer: Buffer,
    /// The pixel in the middle.
    pub origin: (i32, i32),
}

/// The state of the magnifier of one monitor.
#[derive(Debug)]
pub struct Magnifier {
    pub output: OutputKey,
    pub monitor: Monitor,
    pub pending: Option<MLPoint>,
    pub views: Vec<Zoom>,
    pub last_view: Option<usize>,
    /// The compositor has not shown the last view yet.
    pub zoom_frame: bool,
    /// The captured picture that the view enlarges.
    pub frozen: Buffer,
}

/// What to show: view `index`, with its top left corner at `position`.
#[derive(Debug, Clone, Copy)]
pub struct ViewStep {
    pub index: usize,
    /// The view needs a buffer.
    pub create: bool,
    /// The view has to be drawn.
    pub redraw: bool,
    /// The crosshair has to be attached.
    pub crosshair: bool,
    pub position: (i32, i32),
}

/// Why the magnifier cannot be shown.
#[derive(Debug, Clone, Copy, PartialEq, Eq, Structural)]
pub enum MagnifierError {
    /// The compositor does not release buffers.
    TooManyViews,
}

/// Byte `b` of the enlarged view's pixel at `(x, y)` around `origin`: opaque black where it lies
/// outside the captured picture.
pub open spec fn magnified(
    frozen: Seq<u8>,
    buffer: Buffer,
    monitor: &Monitor,
    origin: (i32, i32),
    x: int,
    y: int,
    b: int,
) -> u8 {
    let (sx, sy) = monitor.transform.corrected(
        x / 20 - 5 + origin.0,
        y / 20 - 5 + origin.1,
        monitor.physical.width as int,
        monitor.physical.height as int,
    );
    if 0 <= sx < buffer.width && 0 <= sy < buffer.height {
        frozen[(buffer.width * sy + sx) * buffer.format.bytes() + b]
    } else if b == 3 {
        255
    } else {
        0
    }
}

/// The pixels around `origin` have coordinates that fit in an `i32`, on the monitor and in its
/// capture.
pub open spec fn aims(monitor: &Monitor, origin: (i32, i32)) -> bool {
    &&& i32::MIN + 5 <= origin.0 <= i32::MAX - 5
    &&& i32::MIN + 5 <= origin.1 <= i32::MAX - 5
    &&& i32::MIN + 5 < monitor.physical.width - origin.0 <= i32::MAX - 5
    &&& i32::MIN + 5 < monitor.physical.height - origin.1 <= i32::MAX - 5
}

/// The buffer is one for an enlarged view.
pub open spec fn view_sized(buffer: Buffer) -> bool {
    &&& buffer.wf()
    &&& buffer.width == 220
    &&& buffer.height == 220
}

/// Whether the pixels around `origin` have coordinates that fit in an `i32`.
fn can_aim(monitor: &Monitor, origin: (i32, i32)) -> (r: bool)
    ensures
        r == aims(monitor, origin),
{
    let x: i64 = origin.0 as i64;
    let y: i64 = origin.1 as i64;
    let w: i64 = monitor.physical.width as i64 - x;
    let h: i64 = monitor.physical.height as i64 - y;
    let low: i64 = -0x8000_0000 + 5;
    let high: i64 = 0x7fff_ffff - 5;
    low <= x && x <= high && low <= y && y <= high && low < w && w <= high && low < h && h <= high
}

/// Bytes of different pixels are stored apart.
proof fn lemma_apart(s: int, p: int, q: int, b: int, d: int)
    requires
        0 <= b < s,
        0 <= d < s,
        p < q,
    ensures
        p * s + b < q * s + d,
{
    assert(p * s + s <= q * s) by (nonlinear_arith)
        requires
            p + 1 <= q,
            0 < s,
    ;
}

impl Zoom {
    /// What is drawn fits: the buffers have their sizes, and the pixels around the origin have
    /// coordinates that fit in an `i32`.
    pub open spec fn fits(&self, out: int, frozen: int, buffer: Buffer, monitor: &Monitor) -> bool {
        &&& view_sized(self.buffer)
        &&& self.buffer.format == buffer.format
        &&& out == self.buffer.buf_size
        &&& buffer.wf()
        &&& frozen == buffer.buf_size
        &&& aims(monitor, self.origin)
    }

    /// Whether what is drawn fits, into `out` bytes from `frozen` bytes.
    pub fn can_draw(&self, out: usize, frozen: usize, buffer: &Buffer, monitor: &Monitor) -> (r: bool)
        ensures
            r == self.fits(out as int, frozen as int, *buffer, monitor),
    {
        self.buffer.valid() && self.buffer.width == 220 && self.buffer.height == 220
            && self.buffer.format == buffer.format && out == self.buffer.buf_size && buffer.valid()
            && frozen == buffer.buf_size && can_aim(monitor, self.origin)
    }

    /// Draws the pixels of `frozen` around the origin. Must not be run while the compositor reads
    /// the buffer.
    pub fn draw(&self, out: &mut [u8], frozen: &[u8], buffer: &Buffer, monitor: &Monitor)
        requires
            self.fits(old(out)@.len() as int, frozen@.len() as int, *buffer, monitor),
        ensures
            final(out)@.len() == old(out)@.len(),
            forall|x: int, y: int, b: int|
                0 <= x < 220 && 0 <= y < 220 && 0 <= b < buffer.format.bytes()
                    ==> #[trigger] final(out)@[(y * 220 + x) * buffer.format.bytes() + b]
                    == magnified(frozen@, *buffer, monitor, self.origin, x, y, b),
    {
        let bytes: usize = buffer.format.size();
        let ghost s = bytes as int;
        let total: usize = out.len();
        let size = (monitor.physical.width, monitor.physical.height);
        let mut y: i32 = 0;
        while y < 220
            invariant
                0 <= y <= 220,
                s == bytes,
                s == buffer.format.bytes(),
                size == (monitor.physical.width, monitor.physical.height),
                total == 48400 * s,
                out@.len() == total,
                buffer.wf(),
                frozen@.len() == buffer.buf_size,
                aims(monitor, self.origin),
                forall|i: int, j: int, b: int|
                    0 <= i < 220 && 0 <= j < y && 0 <= b < s ==> #[trigger] out@[(j * 220 + i) * s
                        + b] == magnified(frozen@, *buffer, monitor, self.origin, i, j, b),
            decreases 220 - y,
        {
            let mut x: i32 = 0;
            while x < 220
                invariant
                    0 <= y < 220,
                    0 <= x <= 220,
                    s == bytes,
                    s == buffer.format.bytes(),
                    size == (monitor.physical.width, monitor.physical.height),
                    total == 48400 * s,
                    out@.len() == total,
                    buffer.wf(),
                    frozen@.len() == buffer.buf_size,
                    aims(monitor, self.origin),
                    forall|i: int, j: int, b: int|
                        0 <= i < 220 && 0 <= j && 0 <= b < s && j * 220 + i < y * 220 + x
                            ==> #[trigger] out@[(j * 220 + i) * s + b] == magnified(
                            frozen@,
                            *buffer,
                            monitor,
                            self.origin,
                            i,
                            j,
                            b,
                        ),
                decreases 220 - x,
            {
                let at = (x / 20 - 5 + self.origin.0, y / 20 - 5 + self.origin.1);
                let (sx, sy) = monitor.transform.correct(at, size);
                let inside: bool = sx >= 0 && (sx as usize) < buffer.width && sy >= 0 && (
                sy as usize) < buffer.height;
                proof {
                    if inside {
                        crate::wayland::buffer::lemma_pixel_range(*buffer, sx as int, sy as int);
                    }
                }
                let offset: usize = if inside {
                    (buffer.width * sy as usize + sx as usize) * bytes
                } else {
                    0
                };
                let pixel: usize = (y * 220 + x) as usize;
                proof {
                    lemma_apart(s, pixel as int, 48400, s - 1, 0);
                    assert(0 <= pixel * s) by (nonlinear_arith)
                        requires
                            s > 0,
                    ;
                }
                let start: usize = pixel * bytes;
                let mut b: usize = 0;
                while b < bytes
                    invariant
                        0 <= y < 220,
                        0 <= x < 220,
                        s == bytes,
                        s == buffer.format.bytes(),
                        total == 48400 * s,
                        out@.len() == total,
                        buffer.wf(),
                        frozen@.len() == buffer.buf_size,
                        pixel == y * 220 + x,
                        start == pixel * s,
                        start + s <= total,
                        b <= bytes,
                        (sx as int, sy as int) == monitor.transform.corrected(
                            x as int / 20 - 5 + self.origin.0,
                            y as int / 20 - 5 + self.origin.1,
                            monitor.physical.width as int,
                            monitor.physical.height as int,
                        ),
                        inside == (0 <= sx < buffer.width && 0 <= sy < buffer.height),
                        inside ==> offset == (buffer.width * sy + sx) * s && offset + s
                            <= buffer.buf_size,
                        forall|i: int, j: int, c: int|
                            0 <= i < 220 && 0 <= j && 0 <= c < s && j * 220 + i < pixel
                                ==> #[trigger] out@[(j * 220 + i) * s + c] == magnified(
                                frozen@,
                                *buffer,
                                monitor,
                                self.origin,
                                i,
                                j,
                                c,
                            ),
                        forall|c: int|
                            0 <= c < b ==> #[trigger] out@[start + c] == magnified(
                                frozen@,
                                *buffer,
                                monitor,
                                self.origin,
                                x as int,
                                y as int,
                                c,
                            ),
                    decreases bytes - b,
                {
                    let ghost before = out@;
                    let value: u8 = if inside {
                        frozen[offset + b]
                    } else if b == 3 {
                        255
                    } else {
                        0
                    };
                    out[start + b] = value;
                    proof {
                        assert forall|i: int, j: int, c: int|
                            0 <= i < 220 && 0 <= j && 0 <= c < s && j * 220 + i
                                < pixel implies #[trigger] out@[(j * 220 + i) * s + c]
                            == magnified(frozen@, *buffer, monitor, self.origin, i, j, c) by {
                            lemma_apart(s, j * 220 + i, pixel as int, c, b as int);
                            assert(0 <= (j * 220 + i) * s) by (nonlinear_arith)
                                requires
                                    0 <= j * 220 + i,
                                    s > 0,
                            ;
                            assert(before[(j * 220 + i) * s + c] == magnified(
                                frozen@,
                                *buffer,
                                monitor,
                                self.origin,
                                i,
                                j,
                                c,
                            ));
                        }
                    }
                    b = b + 1;
                }
                proof {
                    assert forall|i: int, j: int, c: int|
                        0 <= i < 220 && 0 <= j && 0 <= c < s && j * 220 + i < y * 220 + x
                            + 1 implies #[trigger] out@[(j * 220 + i) * s + c] == magnified(
                        frozen@,
                        *buffer,
                        monitor,
                        self.origin,
                        i,
                        j,
                        c,
                    ) by {
                        if j * 220 + i == pixel {
                            assert(j == y && i == x);
                            assert(out@[start + c] == magnified(
                                frozen@,
                                *buffer,
                                monitor,
                                self.origin,
                                x as int,
                                y as int,
                                c,
                            ));
                        }
                    }
                }
                x = x + 1;
            }
            y = y + 1;
        }
    }
}

/// Where the view goes: to the right of and above the pointer, or on the other side where it would
/// leave the monitor.
pub open spec fn placed(point: MLPoint, monitor: &Monitor) -> (int, int) {
    let x = clamp_i32(round_away(point.x.num as int, point.x.den as int));
    let y = clamp_i32(round_away(point.y.num as int, point.y.den as int));
    (
        if x + 30 + 220 >= monitor.logical.width {
            x - 220 - 30
        } else {
            x + 30
        },
        if y - 220 - 30 < 0 {
            y + 30
        } else {
            y - 220 - 30
        },
    )
}

/// The view's corners fit in an `i32`.
pub open spec fn placeable(point: MLPoint) -> bool {
    let x = clamp_i32(round_away(point.x.num as int, point.x.den as int));
    let y = clamp_i32(round_away(point.y.num as int, point.y.den as int));
    &&& i32::MIN + 250 <= x <= i32::MAX - 250
    &&& i32::MIN + 250 <= y <= i32::MAX - 250
}

/// The view never covers the pointer.
pub proof fn view_avoids_pointer(point: MLPoint, monitor: &Monitor)
    ensures
        ({
            let x = clamp_i32(round_away(point.x.num as int, point.x.den as int));
            let (left, top) = placed(point, monitor);
            left + 220 + 30 <= x || x + 30 <= left
        }),
{
}

/// Zoom `i` is the one to use for `origin`: an unlocked one that shows it already, else an
/// unlocked one, else a new one; the first where there are several.
pub open spec fn picked(views: Seq<Zoom>, origin: (i32, i32), i: int) -> bool {
    let same = |k: int| !views[k].locked && views[k].origin == origin;
    if exists|k: int| 0 <= k < views.len() && #[trigger] same(k) {
        0 <= i < views.len() && same(i) && forall|k: int| 0 <= k < i ==> !#[trigger] same(k)
    } else if exists|k: int| 0 <= k < views.len() && !(#[trigger] views[k]).locked {
        0 <= i < views.len() && !views[i].locked && forall|k: int|
            0 <= k < i ==> (#[trigger] views[k]).locked
    } else {
        i == views.len()
    }
}

/// The view to use for `origin`.
fn pick(views: &Vec<Zoom>, origin: (i32, i32)) -> (r: usize)
    ensures
        picked(views@, origin, r as int),
{
    let ghost same = |k: int| !views@[k].locked && views@[k].origin == origin;
    let mut unlocked: Option<usize> = None;
    let mut i: usize = 0;
    while i < views.len()
        invariant
            i <= views@.len(),
            same == (|k: int| !views@[k].locked && views@[k].origin == origin),
            forall|k: int| 0 <= k < i ==> !#[trigger] same(k),
            match unlocked {
                Some(u) => u < i && !views@[u as int].locked && forall|k: int|
                    0 <= k < u ==> (#[trigger] views@[k]).locked,
                None => forall|k: int| 0 <= k < i ==> (#[trigger] views@[k]).locked,
            },
        decreases views@.len() - i,
    {
        if !views[i].locked {
            if views[i].origin.0 == origin.0 && views[i].origin.1 == origin.1 {
                assert(same(i as int));
                return i;
            }
            if unlocked.is_none() {
                unlocked = Some(i);
            }
        }
        assert(!same(i as int));
        i = i + 1;
    }
    match unlocked {
        Some(u) => {
            assert(!views@[u as int].locked);
            u
        },
        None => views.len(),
    }
}

/// The pixel that `point` aims at.
pub open spec fn target(point: MLPoint, monitor: &Monitor) -> (int, int) {
    (
        clamp_i32(pixel_index(point.x, monitor.scale)),
        clamp_i32(pixel_index(point.y, monitor.scale)),
    )
}

/// What [`Magnifier::conceal`] does.
pub open spec fn concealed(pre: &Magnifier, post: &Magnifier) -> bool {
    *post == (Magnifier { pending: None, last_view: None, zoom_frame: false, ..*pre })
}

/// A magnifier whose last view has been shown.
pub open spec fn rested(pre: &Magnifier) -> Magnifier {
    Magnifier { pending: None, zoom_frame: false, ..*pre }
}

/// What [`Magnifier::draw`] does.
pub open spec fn drew(
    pre: &Magnifier,
    point: MLPoint,
    post: &Magnifier,
    r: Result<Option<ViewStep>, MagnifierError>,
) -> bool {
    &&& post.same_setting(pre)
    &&& if pre.zoom_frame {
        &&& r == Ok::<Option<ViewStep>, MagnifierError>(None)
        &&& post.pending == Some(point)
        &&& post.views@ == pre.views@
        &&& post.last_view == pre.last_view
        &&& post.zoom_frame
    } else {
        &&& post.pending == pre.pending
        &&& match r {
            Ok(Some(step)) => showed(pre, point, post, step),
            Ok(None) => false,
            Err(e) => {
                &&& e == MagnifierError::TooManyViews
                &&& pre.views@.len() == 4
                &&& forall|k: int| 0 <= k < 4 ==> (#[trigger] pre.views@[k]).locked
                &&& post.views@ == pre.views@
                &&& post.last_view == pre.last_view
                &&& !post.zoom_frame
            },
        }
    }
}

/// View `step.index` shows the pixel under `point`.
pub open spec fn showed(pre: &Magnifier, point: MLPoint, post: &Magnifier, step: ViewStep) -> bool {
    let aim = target(point, &pre.monitor);
    let origin = (aim.0 as i32, aim.1 as i32);
    let before = pre.views@;
    let i = step.index as int;
    let known = i < before.len();
    let view = post.views@[i];
    &&& picked(before, origin, i)
    &&& i < 4
    &&& post.views@ == if known {
        before.update(i, view)
    } else {
        before.push(view)
    }
    &&& view.locked
    &&& view.origin == origin
    &&& known ==> view.buffer == before[i].buffer
    &&& post.last_view == Some(step.index)
    &&& post.zoom_frame
    &&& step.create == !known
    &&& step.redraw == (origin != if known {
        before[i].origin
    } else {
        (-1i32, -1i32)
    })
    &&& step.crosshair == (pre.last_view is None)
    &&& (step.position.0 as int, step.position.1 as int) == placed(point, &pre.monitor)
}

impl Magnifier {
    /// At most four views, each with its buffer, and a point in range to move on to, if any.
    pub open spec fn wf(&self) -> bool {
        &&& self.monitor.scale.wf()
        &&& self.pending matches Some(p) ==> p.within(LOCAL_RANGE as int) && placeable(p)
        &&& self.views@.len() <= 4
        &&& forall|k: int|
            0 <= k < self.views@.len() ==> view_sized((#[trigger] self.views@[k]).buffer)
                && self.views@[k].buffer.format == self.frozen.format
    }

    /// Everything but what drawing changes.
    pub open spec fn same_setting(&self, other: &Self) -> bool {
        &&& self.output == other.output
        &&& self.monitor == other.monitor
        &&& self.frozen == other.frozen
    }

    /// A magnifier that shows nothing yet.
    pub fn new(output: OutputKey, monitor: &Monitor, frozen: Buffer) -> (r: Self)
        requires
            monitor.scale.wf(),
        ensures
            r.wf(),
            r.output == output,
            r.frozen == frozen,
            r.monitor == *monitor,
            r.pending is None,
            r.views@.len() == 0,
            r.last_view is None,
            !r.zoom_frame,
    {
        Magnifier {
            output,
            monitor: monitor.clone(),
            pending: None,
            views: Vec::new(),
            last_view: None,
            zoom_frame: false,
            frozen,
        }
    }

    /// Takes the view away.
    pub fn conceal(&mut self)
        requires
            old(self).wf(),
        ensures
            final(self).wf(),
            concealed(old(self), final(self)),
    {
        self.last_view = None;
        self.pending = None;
        self.zoom_frame = false;
    }

    /// Decides what to show for a pointer at `point`. While the compositor has not shown the last
    /// view, the point is only remembered.
    pub fn draw(&mut self, point: MLPoint) -> (r: Result<Option<ViewStep>, MagnifierError>)
        requires
            old(self).wf(),
            point.within(LOCAL_RANGE as int),
            placeable(point),
        ensures
            final(self).wf(),
            drew(old(self), point, final(self), r),
    {
        if self.zoom_frame {
            self.pending = Some(point);
            return Ok(None);
        }
        let origin = self.monitor.local_pixel(point);
        let index: usize = pick(&self.views, origin);
        let ghost before = self.views@;
        let create: bool = index == self.views.len();
        if create {
            if index > 3 {
                assert(forall|k: int| 0 <= k < before.len() ==> (#[trigger] before[k]).locked);
                return Err(MagnifierError::TooManyViews);
            }
            let format = self.frozen.format;
            let buffer = Buffer { format, width: 220, height: 220, buf_size: 48400 * format.size() };
            self.views.push(Zoom { locked: false, buffer, origin: (-1, -1) });
        }
        let old_view = self.views[index];
        let redraw: bool = origin.0 != old_view.origin.0 || origin.1 != old_view.origin.1;
        self.views.set(index, Zoom { locked: true, buffer: old_view.buffer, origin });
        let crosshair: bool = self.last_view.is_none();
        let position = self.position(point);
        self.zoom_frame = true;
        self.last_view = Some(index);
        proof {
            if create {
                assert(self.views@ =~= before.push(self.views@[index as int]));
            } else {
                assert(self.views@ =~= before.update(index as int, self.views@[index as int]));
            }
        }
        Ok(Some(ViewStep { index, create, redraw, crosshair, position }))
    }

    /// Where the view goes for a pointer at `point`.
    fn position(&self, point: MLPoint) -> (r: (i32, i32))
        requires
            point.within(LOCAL_RANGE as int),
            placeable(point),
        ensures
            (r.0 as int, r.1 as int) == placed(point, &self.monitor),
    {
        proof {
            lemma_wider(point.x);
            lemma_wider(point.y);
        }
        let log_x: i32 = saturate(point.x.round());
        let log_y: i32 = saturate(point.y.round());
        let mut pos_x: i32 = log_x + PADDING;
        if pos_x + LARGE_RES as i32 >= self.monitor.logical.width {
            pos_x = log_x - LARGE_RES as i32 - PADDING;
        }
        let mut pos_y: i32 = log_y - LARGE_RES as i32 - PADDING;
        if pos_y < 0 {
            pos_y = log_y + PADDING;
        }
        (pos_x, pos_y)
    }

    /// The compositor has shown the last view: the point to show next, if one was remembered.
    pub fn frame_done(&mut self) -> (r: Option<MLPoint>)
        requires
            old(self).wf(),
        ensures
            final(self).wf(),
            r == old(self).pending,
            r matches Some(p) ==> p.within(LOCAL_RANGE as int) && placeable(p),
            *final(self) == rested(old(self)),
    {
        self.zoom_frame = false;
        self.pending.take()
    }

    /// The compositor no longer reads the buffer of view `index`.
    pub fn release(&mut self, index: usize)
        requires
            old(self).wf(),
            index < old(self).views@.len(),
        ensures
            final(self).wf(),
            final(self).same_setting(old(self)),
            final(self).views@ == old(self).views@.update(
                index as int,
                (Zoom { locked: false, ..old(self).views@[index as int] }),
            ),
            final(self).pending == old(self).pending,
            final(self).last_view == old(self).last_view,
            final(self).zoom_frame == old(self).zoom_frame,
    {
        let view = self.views[index];
        self.views.set(index, Zoom { locked: false, buffer: view.buffer, origin: view.origin });
    }
}

/// A local coordinate is in range for an edge.
proof fn lemma_wider(c: crate::coord::Coord)
    requires
        c.within(LOCAL_RANGE as int),
    ensures
        c.within(crate::coord::EDGE_RANGE as int),
{
    let d = c.den as int;
    let near = LOCAL_RANGE as int;
    let far = crate::coord::EDGE_RANGE as int;
    assert(near * d <= far * d && -far * d <= -near * d) by (nonlinear_arith)
        requires
            near <= far,
            d > 0,
    ;
}

/// A view that the compositor still reads is never drawn on.
pub proof fn drawn_views_are_unlocked(
    pre: &Magnifier,
    point: MLPoint,
    post: &Magnifier,
    step: ViewStep,
)
    requires
        drew(pre, point, post, Ok(Some(step))),
    ensures
        step.create || !pre.views@[step.index as int].locked,
{
}

/// The crosshair covers the pixel: the border, and a cross without its centre.
pub open spec fn crossed(x: int, y: int) -> bool {
    ||| x == 0
    ||| x == 219
    ||| y == 0
    ||| y == 219
    ||| (100 <= x < 120) != (100 <= y < 120)
}

/// Byte `b` of the crosshair's colour.
pub open spec fn cross_byte(b: int) -> u8 {
    if b == 2 {
        0
    } else {
        178
    }
}

/// The crosshair that is shown over the view.
pub fn draw_crosshair(format: Format) -> (r: Vec<u8>)
    requires
        format.bytes() == 4,
    ensures
        r@.len() == 193600,
        forall|x: int, y: int, b: int|
            0 <= x < 220 && 0 <= y < 220 && 0 <= b < 4 ==> #[trigger] r@[(y * 220 + x) * 4 + b]
                == if crossed(x, y) {
                cross_byte(b)
            } else {
                0
            },
{
    let inset: usize = (RES / 2) * SCALE;
    let mut out: Vec<u8> = Vec::new();
    let mut y: usize = 0;
    while y < LARGE_RES
        invariant
            y <= 220,
            inset == 100,
            out@.len() == y * 880,
            forall|i: int, j: int, b: int|
                0 <= i < 220 && 0 <= j < y && 0 <= b < 4 ==> #[trigger] out@[(j * 220 + i) * 4 + b]
                    == if crossed(i, j) {
                    cross_byte(b)
                } else {
                    0
                },
        decreases 220 - y,
    {
        let mut x: usize = 0;
        while x < LARGE_RES
            invariant
                y < 220,
                x <= 220,
                inset == 100,
                out@.len() == (y * 220 + x) * 4,
                forall|i: int, j: int, b: int|
                    0 <= i < 220 && 0 <= j && 0 <= b < 4 && j * 220 + i < y * 220 + x ==> #[trigger]
                    out@[(j * 220 + i) * 4 + b] == if crossed(i, j) {
                        cross_byte(b)
                    } else {
                        0
                    },
            decreases 220 - x,
        {
            let border: bool = x == 0 || x + 1 == LARGE_RES || y == 0 || y + 1 == LARGE_RES;
            let vertical: bool = inset <= x && x < inset + SCALE;
            let horizontal: bool = inset <= y && y < inset + SCALE;
            if border || vertical != horizontal {
                out.push(178);
                out.push(178);
                out.push(0);
                out.push(178);
            } else {
                out.push(0);
                out.push(0);
                out.push(0);
                out.push(0);
            }
            x = x + 1;
        }
        y = y + 1;
    }
    out
}

/// The view shows eleven by eleven pixels around the pointer, each twenty times as large: the block
/// of the view that is `dx` blocks to the right of and `dy` below the middle shows, in one colour,
/// the pixel that many pixels from `origin`, or opaque black where the picture has none.
pub proof fn views_enlarge_twenty_times(
    frozen: Seq<u8>,
    buffer: Buffer,
    monitor: &Monitor,
    origin: (i32, i32),
    dx: int,
    dy: int,
    i: int,
    j: int,
    b: int,
)
    requires
        -5 <= dx <= 5,
        -5 <= dy <= 5,
        0 <= i < 20,
        0 <= j < 20,
    ensures
        ({
            let (u, v) = monitor.transform.corrected(
                origin.0 + dx,
                origin.1 + dy,
                monitor.physical.width as int,
                monitor.physical.height as int,
            );
            let shown = magnified(
                frozen,
                buffer,
                monitor,
                origin,
                100 + 20 * dx + i,
                100 + 20 * dy + j,
                b,
            );
            let stored = u >= 0 && v >= 0 && u < buffer.width && v < buffer.height;
            &&& stored ==> shown == frozen[(v * buffer.width + u) * buffer.format.bytes() + b]
            &&& !stored && b < 3 ==> shown == 0
            &&& !stored && b == 3 ==> shown == 255
        }),
{
    let (u, v) = monitor.transform.corrected(
        origin.0 + dx,
        origin.1 + dy,
        monitor.physical.width as int,
        monitor.physical.height as int,
    );
    assert((100 + 20 * dx + i) / 20 == dx + 5);
    assert((100 + 20 * dy + j) / 20 == dy + 5);
    assert(v * buffer.width == buffer.width * v) by (nonlinear_arith);
}

/// The view stands thirty pixels to the right of the pointer, or to the left of it if it would reach
/// the monitor's right edge, and thirty pixels above the pointer, or below it if it would leave the
/// monitor there. The pointer counts as being at the nearest whole pixel, which is returned.
pub proof fn views_stand_thirty_pixels_away(point: MLPoint, monitor: &Monitor) -> (at: (int, int))
    requires
        point.x.den > 0,
        point.y.den > 0,
        -0x7000_0000 * point.x.den <= point.x.num <= 0x7000_0000 * point.x.den,
        -0x7000_0000 * point.y.den <= point.y.num <= 0x7000_0000 * point.y.den,
    ensures
        2 * point.x.num - point.x.den <= 2 * (at.0 * point.x.den) <= 2 * point.x.num + point.x.den,
        2 * point.y.num - point.y.den <= 2 * (at.1 * point.y.den) <= 2 * point.y.num + point.y.den,
        ({
            let (left, top) = placed(point, monitor);
            &&& at.0 + 250 < monitor.logical.width ==> left - at.0 == 30
            &&& at.0 + 250 >= monitor.logical.width ==> at.0 - (left + 220) == 30
            &&& at.1 >= 250 ==> at.1 - (top + 220) == 30
            &&& at.1 < 250 ==> top - at.1 == 30
        }),
{
    lemma_nearest_whole(point.x.num as int, point.x.den as int);
    lemma_nearest_whole(point.y.num as int, point.y.den as int);
    (
        round_away(point.x.num as int, point.x.den as int),
        round_away(point.y.num as int, point.y.den as int),
    )
}

/// Rounding changes a number by at most a half.
proof fn lemma_nearest_whole(num: int, den: int)
    requires
        den > 0,
        -0x7000_0000 * den <= num <= 0x7000_0000 * den,
    ensures
        ({
            let at = round_away(num, den);
            &&& 2 * num - den <= 2 * (at * den) <= 2 * num + den
            &&& -0x7000_0001 <= at <= 0x7000_0001
        }),
{
    let n = if num >= 0 {
        num
    } else {
        -num
    };
    let q = (2 * n + den) / (2 * den);
    let at = round_away(num, den);
    vstd::arithmetic::div_mod::lemma_fundamental_div_mod(2 * n + den, 2 * den);
    vstd::arithmetic::div_mod::lemma_mod_bound(2 * n + den, 2 * den);
    assert((2 * den) * q == 2 * (q * den)) by (nonlinear_arith);
    assert(-q * den == -(q * den)) by (nonlinear_arith);
    assert(-0x7000_0001 <= at <= 0x7000_0001) by (nonlinear_arith)
        requires
            2 * (at * den) <= 2 * num + den,
            2 * num - den <= 2 * (at * den),
            -0x7000_0000 * den <= num <= 0x7000_0000 * den,
            den > 0,
    ;
}

/// What is drawn is the pixel under the pointer, in a view that the compositor does not read: one
/// that shows the pixel already, if there is one, which is then not drawn again. A new view is made
/// only if none is free, and the crosshair is attached when the view appears.
pub proof fn views_show_the_pixel_under_the_pointer(
    pre: &Magnifier,
    point: MLPoint,
    post: &Magnifier,
    step: ViewStep,
)
    requires
        pre.monitor.scale.wf(),
        point.x.den > 0,
        point.y.den > 0,
        drew(pre, point, post, Ok(Some(step))),
    ensures
        ({
            let view = post.views@[step.index as int];
            let (u, v) = view.origin;
            let s = pre.monitor.scale;
            &&& i32::MIN < u < i32::MAX ==> u * (point.x.den * s.den) <= point.x.num * s.num < u * (
            point.x.den * s.den) + point.x.den * s.den
            &&& i32::MIN < v < i32::MAX ==> v * (point.y.den * s.den) <= point.y.num * s.num < v * (
            point.y.den * s.den) + point.y.den * s.den
            &&& step.create <==> forall|k: int|
                0 <= k < pre.views@.len() ==> (#[trigger] pre.views@[k]).locked
            &&& !step.create ==> step.index < pre.views@.len() && (step.redraw <==> (
            pre.views@[step.index as int].origin.0 != u || pre.views@[step.index as int].origin.1
                != v))
            &&& forall|k: int|
                0 <= k < pre.views@.len() && !(#[trigger] pre.views@[k]).locked
                    && pre.views@[k].origin == view.origin ==> !step.create && !step.redraw
            &&& step.crosshair <==> pre.last_view is None
            &&& post.last_view == Some(step.index)
        }),
{
    let s = pre.monitor.scale;
    let origin = post.views@[step.index as int].origin;
    let same = |k: int| !pre.views@[k].locked && pre.views@[k].origin == origin;
    lemma_pixel_under(point.x.num as int, point.x.den as int, s.num as int, s.den as int);
    lemma_pixel_under(point.y.num as int, point.y.den as int, s.num as int, s.den as int);
    assert forall|k: int|
        0 <= k < pre.views@.len() && !(#[trigger] pre.views@[k]).locked && pre.views@[k].origin
            == origin implies !step.create && !step.redraw by {
        assert(same(k));
    }
}

proof fn lemma_pixel_under(num: int, den: int, up: int, down: int)
    requires
        den > 0,
        down > 0,
    ensures
        ({
            let q = (num * up) / (den * down);
            q * (den * down) <= num * up < q * (den * down) + den * down
        }),
{
    let d = den * down;
    assert(d > 0) by (nonlinear_arith)
        requires
            d == den * down,
            den > 0,
            down > 0,
    ;
    let a = num * up;
    vstd::arithmetic::div_mod::lemma_fundamental_div_mod(a, d);
    vstd::arithmetic::div_mod::lemma_mod_bound(a, d);
    assert(d * (a / d) == (a / d) * d) by (nonlinear_arith);
}

/// The crosshair frames the view and marks the rows and columns of the pixel in the middle, but not
/// that pixel itself.
pub proof fn crosshairs_leave_the_middle_free(x: int, y: int)
    requires
        0 <= x < 220,
        0 <= y < 220,
    ensures
        crossed(x, y) == crossed(y, x),
        crossed(x, y) == crossed(219 - x, y),
        crossed(x, y) == crossed(x, 219 - y),
        crossed(0, y) && crossed(219, y),
        0 < x < 219 && 0 < y < 219 ==> (crossed(x, y) <==> (x / 20 == 5) != (y / 20 == 5)),
{
}

/// While the compositor has not shown the last view, only the latest point is remembered; otherwise
/// something is drawn at once, unless the compositor reads all four views there may be.
pub proof fn views_wait_for_the_compositor(
    pre: &Magnifier,
    point: MLPoint,
    post: &Magnifier,
    r: Result<Option<ViewStep>, MagnifierError>,
)
    requires
        drew(pre, point, post, r),
    ensures
        pre.zoom_frame ==> (r matches Ok(None)) && post.pending == Some(point) && post.views@
            == pre.views@,
        !pre.zoom_frame && r is Err ==> pre.views@.len() == 4 && forall|k: int|
            0 <= k < 4 ==> (#[trigger] pre.views@[k]).locked,
        !pre.zoom_frame && r is Ok ==> (r matches Ok(Some(_))) && post.zoom_frame,
        post.monitor == pre.monitor && post.frozen == pre.frozen && post.output == pre.output,
{
}

/// A view that is taken away is gone at once, with the point that was waiting, and the views can be
/// used again as before. Once a view has been shown, nothing is waiting any more and it stays.
pub proof fn views_are_taken_away_or_stay(pre: &Magnifier, post: &Magnifier)
    ensures
        concealed(pre, post) ==> post.last_view is None && post.pending is None && !post.zoom_frame
            && post.views == pre.views && post.monitor == pre.monitor && post.frozen == pre.frozen,
        rested(pre).last_view == pre.last_view,
        rested(pre).views == pre.views,
        rested(pre).pending is None,
        !rested(pre).zoom_frame,
{
}

} // verus!

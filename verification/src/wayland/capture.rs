//! Capturing what a monitor shows.

use vstd::prelude::*;

use crate::img::compose::{lemma_slot_range, slot, Image};
use crate::util::{MRegion, Monitor};
use crate::wayland::buffer::{rgb_channel, Buffer};
use crate::wayland::{Format, FormatSet, Transform};

verus! {

/// What is known of the capture of one monitor.
#[derive(Debug, Clone, Copy)]
pub struct Capture {
    pub res: Option<(i32, i32)>,
    pub format: Option<Format>,
    pub shm_formats: FormatSet,
    pub transform: Transform,
    pub buffer: Option<Buffer>,
    pub done: bool,
}

/// Why a capture fails.
#[derive(Debug, Clone, Copy, PartialEq, Eq, Structural)]
pub enum CaptureError {
    /// The size does not fit in an `i32`.
    SizeTooLarge,
    /// A second size was given.
    Reconfigured,
    /// The compositor described the buffer without giving its size.
    NoResolution,
    /// The buffer would take too many bytes.
    BufferTooLarge,
    /// The compositor stopped the session.
    Stopped,
    /// The compositor could not capture the monitor.
    Failed,
}

/// The format that is captured in. `Argb8888` has to be supported, so it is taken where none is
/// known to both sides.
pub open spec fn chosen_format(a: FormatSet, b: FormatSet) -> Format {
    if a.has(Format::Argb8888) && b.has(Format::Argb8888) {
        Format::Argb8888
    } else if a.has(Format::Bgr888) && b.has(Format::Bgr888) {
        Format::Bgr888
    } else {
        Format::Argb8888
    }
}

/// Channel `c` of the pixel that a monitor shows at `(x, y)`, taken from its capture.
pub open spec fn shown_channel(
    data: Seq<u8>,
    buffer: Buffer,
    monitor: &Monitor,
    x: int,
    y: int,
    c: int,
) -> u8 {
    let (sx, sy) = monitor.transform.corrected(
        x,
        y,
        monitor.physical.width as int,
        monitor.physical.height as int,
    );
    rgb_channel(data, buffer.format, buffer.width as int, sx, sy, c)
}

/// The buffer has the size of what the monitor is given.
pub open spec fn captures(buffer: Buffer, monitor: &Monitor) -> bool {
    &&& buffer.wf()
    &&& monitor.transform.0 <= 7
    &&& monitor.transform.source_size(
        monitor.physical.width as int,
        monitor.physical.height as int,
    ) == (buffer.width as int, buffer.height as int)
}

impl Capture {
    /// A size, if there is one, is not negative, and the buffer has that size.
    pub open spec fn wf(self) -> bool {
        &&& self.res matches Some((w, h)) ==> 0 <= w && 0 <= h
        &&& self.buffer matches Some(b) ==> b.wf() && self.format == Some(b.format) && self.res
            == Some((b.width as i32, b.height as i32))
        &&& self.done ==> self.buffer is Some
    }

    /// The size as displayed to the user.
    pub open spec fn shown_res(self) -> Option<(i32, i32)> {
        match self.res {
            None => None,
            Some((w, h)) => if self.transform.rotates() {
                Some((h, w))
            } else {
                Some((w, h))
            },
        }
    }

    /// Nothing is known yet.
    pub fn new() -> (r: Self)
        ensures
            r.wf(),
            r.res is None,
            r.format is None,
            r.buffer is None,
            !r.done,
            r.transform == Transform(0),
            forall|f: Format| !#[trigger] r.shm_formats.has(f),
    {
        Capture {
            res: None,
            format: None,
            shm_formats: FormatSet::new(),
            transform: Transform(0),
            buffer: None,
            done: false,
        }
    }

    /// The size as displayed to the user.
    pub fn transformed_res(&self) -> (r: Option<(i32, i32)>)
        ensures
            r == self.shown_res(),
    {
        match self.res {
            None => None,
            Some((w, h)) => if self.transform.rotate() {
                Some((h, w))
            } else {
                Some((w, h))
            },
        }
    }

    /// The compositor gives the size of the buffer.
    pub fn buffer_size(&mut self, width: u32, height: u32) -> (r: Result<(), CaptureError>)
        requires
            old(self).wf(),
        ensures
            final(self).wf(),
            r == if old(self).done {
                Ok::<(), CaptureError>(())
            } else if width > i32::MAX || height > i32::MAX {
                Err(CaptureError::SizeTooLarge)
            } else if old(self).res is Some {
                Err(CaptureError::Reconfigured)
            } else {
                Ok(())
            },
            *final(self) == if !old(self).done && r is Ok {
                Capture { res: Some((width as i32, height as i32)), ..*old(self) }
            } else {
                *old(self)
            },
    {
        if self.done {
            return Ok(());
        }
        if width > 0x7fff_ffff || height > 0x7fff_ffff {
            return Err(CaptureError::SizeTooLarge);
        }
        if self.res.is_some() {
            return Err(CaptureError::Reconfigured);
        }
        self.res = Some((width as i32, height as i32));
        Ok(())
    }

    /// The compositor names a format that it can capture in; others than the understood ones are
    /// skipped.
    pub fn shm_format(&mut self, format: Option<Format>)
        requires
            old(self).wf(),
        ensures
            final(self).wf(),
            *final(self) == (Capture { shm_formats: final(self).shm_formats, ..*old(self) }),
            forall|f: Format| #[trigger]
                final(self).shm_formats.has(f) == (old(self).shm_formats.has(f) || (!old(self).done
                    && format == Some(f))),
    {
        if self.done {
            return;
        }
        match format {
            Some(f) => {
                self.shm_formats.insert(f);
            },
            None => {},
        }
    }

    /// The compositor has described the buffer: chooses a format, and gives the buffer to capture
    /// into unless the capture is done.
    pub fn session_done(&mut self, formats: &FormatSet) -> (r: Result<Option<Buffer>, CaptureError>)
        requires
            old(self).wf(),
            !old(self).done ==> old(self).format is None,
        ensures
            final(self).wf(),
            old(self).done ==> r == Ok::<Option<Buffer>, CaptureError>(None) && *final(self)
                == *old(self),
            !old(self).done ==> ({
                let format = chosen_format(*formats, old(self).shm_formats);
                match old(self).res {
                    None => r == Err::<Option<Buffer>, CaptureError>(CaptureError::NoResolution)
                        && *final(self) == (Capture { format: Some(format), ..*old(self) }),
                    Some((w, h)) => if w * format.bytes() > i32::MAX || w * h * format.bytes()
                        > i32::MAX {
                        &&& r == Err::<Option<Buffer>, CaptureError>(CaptureError::BufferTooLarge)
                        &&& *final(self) == (Capture { format: Some(format), ..*old(self) })
                    } else {
                        &&& r matches Ok(Some(b))
                        &&& b.wf()
                        &&& b.format == format
                        &&& b.width == w
                        &&& b.height == h
                        &&& *final(self) == (Capture {
                            format: Some(format),
                            buffer: Some(b),
                            ..*old(self)
                        })
                    },
                }
            }),
    {
        if self.done {
            return Ok(None);
        }
        let format = match formats.first_common(&self.shm_formats) {
            Some(f) => f,
            None => Format::Argb8888,
        };
        self.format = Some(format);
        let (width, height) = match self.res {
            None => {
                return Err(CaptureError::NoResolution);
            },
            Some(res) => res,
        };
        match Buffer::new(format, width, height) {
            Err(_) => Err(CaptureError::BufferTooLarge),
            Ok(buffer) => {
                self.buffer = Some(buffer);
                Ok(Some(buffer))
            },
        }
    }

    /// The compositor stopped the session, which is an error unless the capture is done.
    pub fn stopped(&self) -> (r: Result<(), CaptureError>)
        ensures
            r == if self.done {
                Ok::<(), CaptureError>(())
            } else {
                Err(CaptureError::Stopped)
            },
    {
        if self.done {
            Ok(())
        } else {
            Err(CaptureError::Stopped)
        }
    }

    /// The buffer holds the captured picture. Returns whether that is news.
    pub fn ready(&mut self) -> (r: bool)
        requires
            old(self).wf(),
            old(self).buffer is Some,
        ensures
            final(self).wf(),
            r == !old(self).done,
            *final(self) == (Capture { done: true, ..*old(self) }),
    {
        if self.done {
            return false;
        }
        self.done = true;
        true
    }

    /// The compositor could not capture the monitor, which is an error unless the capture is done.
    pub fn failed(&self) -> (r: Result<(), CaptureError>)
        ensures
            r == if self.done {
                Ok::<(), CaptureError>(())
            } else {
                Err(CaptureError::Failed)
            },
    {
        if self.done {
            Ok(())
        } else {
            Err(CaptureError::Failed)
        }
    }

    /// The region of the monitor as a picture, turned the way that the monitor shows it.
    pub fn take_screenshot(&self, data: &[u8], monitor: &Monitor, region: MRegion) -> (r: Image)
        requires
            self.buffer is Some,
            captures(self.buffer->0, monitor),
            data@.len() == self.buffer->0.buf_size,
            region.inside(monitor.physical.width as int, monitor.physical.height as int),
        ensures
            r.wf(),
            r.width == region.width,
            r.height == region.height,
            forall|i: int, j: int, c: int|
                0 <= i < region.width && 0 <= j < region.height && 0 <= c < 3
                    ==> #[trigger] r.channel(i, j, c) == shown_channel(
                    data@,
                    self.buffer->0,
                    monitor,
                    region.x + i,
                    region.y + j,
                    c,
                ),
    {
        let buffer = self.buffer.unwrap();
        shown_region(&buffer, data, monitor, region)
    }
}

/// One row of a region of a monitor, three bytes for each pixel.
fn shown_row(buffer: &Buffer, data: &[u8], monitor: &Monitor, region: &MRegion, row: i32) -> (r: Vec<
    u8,
>)
    requires
        captures(*buffer, monitor),
        data@.len() == buffer.buf_size,
        region.inside(monitor.physical.width as int, monitor.physical.height as int),
        0 <= row < region.height,
    ensures
        r@.len() == region.width * 3,
        forall|i: int, c: int|
            0 <= i < region.width && 0 <= c < 3 ==> #[trigger] r@[i * 3 + c] == shown_channel(
                data@,
                *buffer,
                monitor,
                region.x + i,
                region.y + row,
                c,
            ),
{
    let width: usize = region.width as usize;
    let mut out: Vec<u8> = Vec::new();
    if width == 0 {
        return out;
    }
    let y: i32 = region.y + row;
    proof {
        crate::wayland::corrected_pixels_stay_inside(
            monitor.transform,
            region.x as int,
            y as int,
            monitor.physical.width as int,
            monitor.physical.height as int,
        );
        crate::wayland::buffer::lemma_pixel_range(*buffer, 0, 0);
        let w = buffer.width as int;
        let h = buffer.height as int;
        let s = buffer.format.bytes();
        assert(w * 3 <= w * h * s && h * 3 <= w * h * s) by (nonlinear_arith)
            requires
                w >= 1,
                h >= 1,
                s >= 3,
        ;
    }
    if monitor.transform.normal() {
        out.resize(width * 3, 0);
        buffer.read_normal_row(data, region.x, y, out.as_mut_slice());
        return out;
    }
    let mut i: usize = 0;
    while i < width
        invariant
            captures(*buffer, monitor),
            data@.len() == buffer.buf_size,
            region.inside(monitor.physical.width as int, monitor.physical.height as int),
            0 <= row < region.height,
            y == region.y + row,
            width == region.width,
            i <= width,
            out@.len() == i * 3,
            forall|k: int, c: int|
                0 <= k < i && 0 <= c < 3 ==> #[trigger] out@[k * 3 + c] == shown_channel(
                    data@,
                    *buffer,
                    monitor,
                    region.x + k,
                    region.y + row,
                    c,
                ),
        decreases width - i,
    {
        proof {
            crate::wayland::corrected_pixels_stay_inside(
                monitor.transform,
                region.x + i,
                y as int,
                monitor.physical.width as int,
                monitor.physical.height as int,
            );
        }
        let (sx, sy) = monitor.transform.correct(
            (region.x + i as i32, y),
            (monitor.physical.width, monitor.physical.height),
        );
        let (red, green, blue) = buffer.read_rgb(data, sx, sy);
        out.push(red);
        out.push(green);
        out.push(blue);
        i = i + 1;
    }
    out
}

/// The region of a monitor as a picture.
fn shown_region(buffer: &Buffer, data: &[u8], monitor: &Monitor, region: MRegion) -> (r: Image)
    requires
        captures(*buffer, monitor),
        data@.len() == buffer.buf_size,
        region.inside(monitor.physical.width as int, monitor.physical.height as int),
    ensures
        r.wf(),
        r.width == region.width,
        r.height == region.height,
        forall|i: int, j: int, c: int|
            0 <= i < region.width && 0 <= j < region.height && 0 <= c < 3 ==> #[trigger] r.channel(
                i,
                j,
                c,
            ) == shown_channel(data@, *buffer, monitor, region.x + i, region.y + j, c),
{
    let mut out: Vec<u8> = Vec::new();
    let ghost w = region.width as int;
    let mut j: i32 = 0;
    while j < region.height
        invariant
            captures(*buffer, monitor),
            data@.len() == buffer.buf_size,
            region.inside(monitor.physical.width as int, monitor.physical.height as int),
            0 <= j <= region.height,
            w == region.width,
            out@.len() == w * j * 3,
            forall|i: int, y: int, c: int|
                0 <= i < w && 0 <= y < j && 0 <= c < 3 ==> #[trigger] out@[slot(w, i, y, c)]
                    == shown_channel(data@, *buffer, monitor, region.x + i, region.y + y, c),
        decreases region.height - j,
    {
        let ghost before = out@;
        let mut row = shown_row(buffer, data, monitor, &region, j);
        let ghost line = row@;
        out.append(&mut row);
        proof {
            assert(w * (j + 1) * 3 == w * j * 3 + w * 3) by (nonlinear_arith);
            assert forall|i: int, y: int, c: int|
                0 <= i < w && 0 <= y < j + 1 && 0 <= c < 3 implies #[trigger] out@[slot(w, i, y, c)]
                == shown_channel(data@, *buffer, monitor, region.x + i, region.y + y, c) by {
                if y < j {
                    lemma_slot_range(w, j as int, i, y, c);
                    assert(out@[slot(w, i, y, c)] == before[slot(w, i, y, c)]);
                } else {
                    assert(j * w == w * j) by (nonlinear_arith);
                    assert(out@[slot(w, i, y, c)] == line[i * 3 + c]);
                }
            }
        }
        j = j + 1;
    }
    Image { width: region.width as u32, height: region.height as u32, data: out }
}

/// A format that both sides know is captured in, if there is one: the one with four bytes for a
/// pixel, if both know that one, and also if they have none in common.
pub proof fn common_formats_are_preferred(a: FormatSet, b: FormatSet)
    ensures
        a.argb8888 && b.argb8888 ==> chosen_format(a, b) == Format::Argb8888,
        !(a.argb8888 && b.argb8888) && a.bgr888 && b.bgr888 ==> chosen_format(a, b)
            == Format::Bgr888,
        !(a.argb8888 && b.argb8888) && !(a.bgr888 && b.bgr888) ==> chosen_format(a, b)
            == Format::Argb8888,
{
}

/// The size that is shown is the captured one, with width and height swapped for the four
/// transforms with an odd number of quarter turns.
pub proof fn turned_captures_swap_their_sides(c: Capture, w: i32, h: i32)
    requires
        c.res == Some((w, h)),
        c.transform.0 <= 7,
    ensures
        c.transform.0 == 0 || c.transform.0 == 2 || c.transform.0 == 4 || c.transform.0 == 6
            ==> c.shown_res() == Some((w, h)),
        c.transform.0 == 1 || c.transform.0 == 3 || c.transform.0 == 5 || c.transform.0 == 7
            ==> c.shown_res() == Some((h, w)),
{
}

/// A monitor that is not turned shows the captured pixel of the same column and row. Turned by a
/// quarter, each row that it shows is a column of the capture, from bottom to top; by three
/// quarters, from top to bottom; by two, each row is one from right to left, counted from below.
pub proof fn shown_pixels_come_from_the_capture(
    data: Seq<u8>,
    buffer: Buffer,
    monitor: &Monitor,
    x: int,
    y: int,
    c: int,
)
    ensures
        ({
            let w = monitor.physical.width as int;
            let h = monitor.physical.height as int;
            let shown = shown_channel(data, buffer, monitor, x, y, c);
            let at = |u: int, v: int|
                rgb_channel(data, buffer.format, buffer.width as int, u, v, c);
            let t = monitor.transform.0;
            &&& t == 0 ==> shown == at(x, y)
            &&& t == 1 ==> shown == at(y, w - 1 - x)
            &&& t == 2 ==> shown == at(w - 1 - x, h - 1 - y)
            &&& t == 3 ==> shown == at(h - 1 - y, x)
            &&& t == 4 ==> shown == at(w - 1 - x, y)
            &&& t == 5 ==> shown == at(y, x)
            &&& t == 6 ==> shown == at(x, h - 1 - y)
            &&& t == 7 ==> shown == at(h - 1 - y, w - 1 - x)
        }),
{
}

} // verus!

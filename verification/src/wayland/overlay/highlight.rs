//! Buffers that show the selected region.

use vstd::prelude::*;

use crate::util::MRegion;
use crate::wayland::buffer::Buffer;
use crate::wayland::overlay::paint::{coat, rect, spot};
use crate::wayland::OutputKey;

verus! {

/// The colour of the selected region.
pub const FILL: u32 = 0xb200_b2b2;

/// The colour of the border around it.
pub const BORDER: u32 = 0xff00_ffff;

/// Names a highlight of a monitor.
#[derive(Debug, Clone, Copy, PartialEq, Eq, Structural)]
pub struct HighlightKey(pub OutputKey, pub usize);

/// A buffer that shows a highlighted region, or nothing.
#[derive(Debug, Clone, Copy, PartialEq, Eq, Structural)]
pub struct Highlight {
    pub buffer: Buffer,
    pub drawn: Option<MRegion>,
    pub locked: bool,
}

/// The pixel at `(x, y)` of a picture that shows `drawn` and is transparent elsewhere.
pub open spec fn shade(drawn: Option<MRegion>, x: int, y: int) -> u32 {
    match drawn {
        Some(r) => coat(r, FILL, BORDER, x, y, 0),
        None => 0,
    }
}

/// `pixels` shows exactly `drawn`.
pub open spec fn depicts(pixels: Seq<u32>, buffer: Buffer, drawn: Option<MRegion>) -> bool {
    &&& pixels.len() == buffer.width * buffer.height
    &&& forall|x: int, y: int|
        0 <= x < buffer.width && 0 <= y < buffer.height ==> #[trigger] pixels[spot(
            buffer.width as int,
            x,
            y,
        )] == shade(drawn, x, y)
}

/// The region, if there is one, lies in the buffer.
pub open spec fn drawable(buffer: Buffer, region: Option<MRegion>) -> bool {
    region matches Some(r) ==> r.inside(buffer.width as int, buffer.height as int)
}

/// The buffer holds pixels of four bytes, and has room around it for a border.
pub open spec fn paintable(buffer: Buffer) -> bool {
    &&& buffer.wf()
    &&& buffer.format.bytes() == 4
    &&& buffer.width < i32::MAX
    &&& buffer.height < i32::MAX
}

impl Highlight {
    /// A highlight of nothing on a new, transparent buffer.
    pub fn new(buffer: Buffer) -> (r: Self)
        ensures
            r == (Highlight { buffer, drawn: None, locked: false }),
    {
        Highlight { buffer, drawn: None, locked: false }
    }

    /// Makes the buffer show `region`, which is in buffer coordinates, and nothing else.
    ///
    /// Returns whether the buffer has to be shown: it has changed or, with `force`, another one
    /// was shown before. It is then locked until the compositor releases it.
    pub fn draw(&mut self, pixels: &mut [u32], region: Option<MRegion>, force: bool) -> (r: bool)
        requires
            !old(self).locked,
            paintable(old(self).buffer),
            drawable(old(self).buffer, old(self).drawn),
            drawable(old(self).buffer, region),
            depicts(old(pixels)@, old(self).buffer, old(self).drawn),
        ensures
            depicts(final(pixels)@, old(self).buffer, region),
            final(self).buffer == old(self).buffer,
            final(self).drawn == region,
            final(self).locked == r,
            r == (region != old(self).drawn || force),
            region == old(self).drawn ==> final(pixels)@ == old(pixels)@,
    {
        if region == self.drawn {
            self.locked = force;
            return force;
        }
        self.locked = true;
        let width: usize = self.buffer.width;
        let height: usize = self.buffer.height;
        let ghost w = width as int;
        let ghost before = pixels@;
        let clear: bool = match (&self.drawn, &region) {
            (None, _) => false,
            (Some(_), None) => true,
            (Some(old), Some(new)) => !new.fully_contains(old),
        };
        if clear {
            match &self.drawn {
                Some(old) => {
                    rect(pixels, width, height, old, 0, 0);
                },
                None => {},
            }
        }
        let ghost middle = pixels@;
        proof {
            if clear {
                assert forall|x: int, y: int| 0 <= x < width && 0 <= y < height implies #[trigger]
                middle[spot(w, x, y)] == 0 by {
                    assert(before[spot(w, x, y)] == shade(self.drawn, x, y));
                }
            }
        }
        match &region {
            Some(new) => {
                rect(pixels, width, height, new, FILL, BORDER);
                proof {
                    assert forall|x: int, y: int|
                        0 <= x < width && 0 <= y < height implies #[trigger] pixels@[spot(w, x, y)]
                        == shade(region, x, y) by {
                        assert(pixels@[spot(w, x, y)] == coat(
                            *new,
                            FILL,
                            BORDER,
                            x,
                            y,
                            middle[spot(w, x, y)],
                        ));
                        if !clear {
                            assert(before[spot(w, x, y)] == shade(self.drawn, x, y));
                        }
                    }
                }
            },
            None => {},
        }
        self.drawn = region;
        true
    }

    /// The compositor no longer reads the buffer.
    pub fn release(&mut self)
        ensures
            *final(self) == (Highlight { locked: false, ..*old(self) }),
    {
        self.locked = false;
    }
}

/// A picture that shows nothing is transparent all over. One that shows a region is filled with the
/// one colour where the region lies, and is transparent from the second pixel around it on.
pub proof fn only_the_region_is_coloured(r: MRegion, x: int, y: int)
    ensures
        shade(None, x, y) == 0,
        r.x <= x < r.x + r.width && r.y <= y < r.y + r.height ==> shade(Some(r), x, y)
            == 0xb200_b2b2,
        r.x <= x < r.x + r.width && (y == r.y - 1 || y == r.y + r.height) && r.height > 0
            ==> shade(Some(r), x, y) == 0xff00_ffff,
        r.y <= y < r.y + r.height && (x == r.x - 1 || x == r.x + r.width) && r.width > 0
            ==> shade(Some(r), x, y) == 0xff00_ffff,
        x < r.x - 1 || x > r.x + r.width || y < r.y - 1 || y > r.y + r.height ==> shade(
            Some(r),
            x,
            y,
        ) == 0,
{
}

} // verus!

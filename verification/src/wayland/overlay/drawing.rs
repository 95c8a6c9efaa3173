//! A buffer that is redrawn in place while it is shown.

use vstd::prelude::*;

use crate::util::MRegion;
use crate::wayland::buffer::Buffer;
use crate::wayland::overlay::highlight::{depicts, drawable, paintable, shade, BORDER, FILL};
use crate::wayland::overlay::paint::{coat, rect, spot};
use crate::wayland::OutputKey;

verus! {

/// Names a drawing of a monitor.
#[derive(Debug, Clone, Copy, PartialEq, Eq, Structural)]
pub struct DrawingKey(pub OutputKey, pub usize);

/// A buffer that shows a region, or nothing. The only kind that is continually changed.
#[derive(Debug, Clone, Copy, PartialEq, Eq, Structural)]
pub struct Drawing {
    pub buffer: Buffer,
    pub drawn: Option<MRegion>,
    pub locked: bool,
}

impl Drawing {
    /// Makes the buffer show `region`, which is in buffer coordinates, and nothing else.
    ///
    /// Nothing happens where it already does, or while the compositor reads the buffer. Returns
    /// whether the buffer has changed; it is then locked until the compositor releases it.
    pub fn draw(&mut self, pixels: &mut [u32], region: Option<MRegion>) -> (r: bool)
        requires
            paintable(old(self).buffer),
            drawable(old(self).buffer, old(self).drawn),
            drawable(old(self).buffer, region),
            depicts(old(pixels)@, old(self).buffer, old(self).drawn),
        ensures
            r == (region != old(self).drawn && !old(self).locked),
            r ==> depicts(final(pixels)@, old(self).buffer, region),
            r ==> *final(self) == (Drawing { drawn: region, locked: true, ..*old(self) }),
            !r ==> final(pixels)@ == old(pixels)@,
            !r ==> *final(self) == *old(self),
    {
        if region == self.drawn {
            return false;
        }
        if self.locked {
            return false;
        }
        self.locked = true;
        let width: usize = self.buffer.width;
        let height: usize = self.buffer.height;
        let ghost w = width as int;
        let ghost before = pixels@;
        match &self.drawn {
            Some(old) => {
                rect(pixels, width, height, old, 0, 0);
            },
            None => {},
        }
        let ghost middle = pixels@;
        proof {
            assert forall|x: int, y: int| 0 <= x < width && 0 <= y < height implies #[trigger]
            middle[spot(w, x, y)] == 0 by {
                assert(before[spot(w, x, y)] == shade(self.drawn, x, y));
            }
        }
        match &region {
            Some(new) => {
                rect(pixels, width, height, new, FILL, BORDER);
                proof {
                    assert forall|x: int, y: int|
                        0 <= x < width && 0 <= y < height implies #[trigger] pixels@[spot(w, x, y)]
                        == shade(region, x, y) by {
                        assert(pixels@[spot(w, x, y)] == coat(
                            *new,
                            FILL,
                            BORDER,
                            x,
                            y,
                            middle[spot(w, x, y)],
                        ));
                    }
                }
            },
            None => {},
        }
        self.drawn = region;
        true
    }

    /// The compositor no longer reads the buffer.
    pub fn release(&mut self)
        ensures
            *final(self) == (Drawing { locked: false, ..*old(self) }),
    {
        self.locked = false;
    }
}

} // verus!

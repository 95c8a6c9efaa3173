//! The layer that shows what is selected.

use vstd::prelude::*;

use crate::coord::LOCAL_RANGE;
use crate::util::{MLPoint, MRegion};
use crate::wayland::buffer::{Buffer, BufferError};
use crate::wayland::magnifier::{
    concealed, drew, placeable, rested, Magnifier, MagnifierError, ViewStep,
};
use crate::wayland::overlay::highlight::{depicts, drawable, paintable, Highlight};
use crate::wayland::{Format, OutputKey, Transform};

pub mod drawing;
pub mod highlight;
pub mod paint;

verus! {

/// The state of the layer over one monitor.
#[derive(Debug)]
pub struct Overlay {
    pub output: OutputKey,
    /// What was last asked to be shown.
    pub pending_region: Option<MRegion>,
    /// The compositor has not shown the last highlight yet.
    pub overlay_frame: bool,
    pub transparent_format: Format,
    /// Can be large, only get made if needed.
    pub highlights: Vec<Highlight>,
    /// The highlight that is shown, and the region that it shows.
    pub last_highlight: (usize, Option<MRegion>),
    pub magnifier: Option<Magnifier>,
    /// The size in logical pixels.
    pub unscaled: Option<(u32, u32)>,
    /// The scale in 120ths.
    pub scale: Option<u32>,
    pub transform: Transform,
}

/// What is left to do to show a region.
#[derive(Debug, Clone, Copy, PartialEq, Eq, Structural)]
pub enum BoxStep {
    /// It is shown already.
    Nothing,
    /// The compositor first has to show the last highlight.
    Deferred,
    /// Highlight `index` has to be painted, once it has a buffer.
    Paint { index: usize, create: bool },
}

/// Why a layer cannot be used.
#[derive(Debug, Clone, Copy, PartialEq, Eq, Structural)]
pub enum OverlayError {
    /// The compositor does not release buffers.
    TooManyHighlights,
    /// The buffer would take too many bytes.
    BufferTooLarge,
    /// A side of the buffer would be negative.
    BufferNegative,
    /// The compositor does not release the magnifier's buffers.
    TooManyViews,
    /// A second scale was given.
    ScaleReconfigured,
    /// A second, different size was given.
    SecondConfigure,
    /// The compositor closed the layer.
    Closed,
    /// The monitor was turned.
    TransformChanged,
}

/// What a size for the layer leads to.
#[derive(Debug, Clone, Copy, PartialEq, Eq, Structural)]
pub enum ConfigureStep {
    /// The size was known already.
    Ignored,
    /// The size is accepted. Without a scale, a dummy has to be shown to get one.
    Accepted { dummy: bool },
}

/// `unscaled` logical pixels at `scale` 120ths in physical pixels, rounded to the nearest.
pub open spec fn scaled(unscaled: u32, scale: u32) -> i32 {
    ((unscaled * scale + 60) / 120) as i32
}

/// Highlight `i` is the one to show `rect` with: an unlocked one that shows it already, else an
/// unlocked one, else a new one; the first where there are several.
pub open spec fn picked(highlights: Seq<Highlight>, rect: Option<MRegion>, i: int) -> bool {
    let same = |k: int| !highlights[k].locked && highlights[k].drawn == rect;
    if exists|k: int| 0 <= k < highlights.len() && #[trigger] same(k) {
        0 <= i < highlights.len() && same(i) && forall|k: int| 0 <= k < i ==> !#[trigger] same(k)
    } else if exists|k: int| 0 <= k < highlights.len() && !(#[trigger] highlights[k]).locked {
        0 <= i < highlights.len() && !highlights[i].locked && forall|k: int|
            0 <= k < i ==> (#[trigger] highlights[k]).locked
    } else {
        i == highlights.len()
    }
}

/// The highlight to show `rect` with.
fn pick(highlights: &Vec<Highlight>, rect: Option<MRegion>) -> (r: usize)
    ensures
        picked(highlights@, rect, r as int),
{
    let ghost same = |k: int| !highlights@[k].locked && highlights@[k].drawn == rect;
    let mut unlocked: Option<usize> = None;
    let mut i: usize = 0;
    while i < highlights.len()
        invariant
            i <= highlights@.len(),
            same == (|k: int| !highlights@[k].locked && highlights@[k].drawn == rect),
            forall|k: int| 0 <= k < i ==> !#[trigger] same(k),
            match unlocked {
                Some(u) => u < i && !highlights@[u as int].locked && forall|k: int|
                    0 <= k < u ==> (#[trigger] highlights@[k]).locked,
                None => forall|k: int| 0 <= k < i ==> (#[trigger] highlights@[k]).locked,
            },
        decreases highlights@.len() - i,
    {
        if !highlights[i].locked {
            if highlights[i].drawn == rect {
                assert(same(i as int));
                return i;
            }
            if unlocked.is_none() {
                unlocked = Some(i);
            }
        }
        assert(!same(i as int));
        i = i + 1;
    }
    match unlocked {
        Some(u) => {
            assert(!highlights@[u as int].locked);
            u
        },
        None => highlights.len(),
    }
}

/// What never changes once a layer is set up.
pub open spec fn same_base(pre: &Overlay, post: &Overlay) -> bool {
    &&& post.output == pre.output
    &&& post.transparent_format == pre.transparent_format
    &&& post.unscaled == pre.unscaled
    &&& post.scale == pre.scale
    &&& post.transform == pre.transform
}

/// Nothing about the highlights changes.
pub open spec fn same_boxes(pre: &Overlay, post: &Overlay) -> bool {
    &&& post.pending_region == pre.pending_region
    &&& post.overlay_frame == pre.overlay_frame
    &&& post.highlights@ == pre.highlights@
    &&& post.last_highlight == pre.last_highlight
}

/// What [`Overlay::draw_box`] does.
pub open spec fn boxed(
    pre: &Overlay,
    rect: Option<MRegion>,
    post: &Overlay,
    r: Result<BoxStep, OverlayError>,
) -> bool {
    &&& same_base(pre, post)
    &&& post.magnifier == pre.magnifier
    &&& post.last_highlight == pre.last_highlight
    &&& post.overlay_frame == pre.overlay_frame
    &&& if (rect is None && pre.highlights@.len() == 0) || pre.last_highlight.1 == rect {
        &&& r == Ok::<BoxStep, OverlayError>(BoxStep::Nothing)
        &&& same_boxes(pre, post)
    } else {
        &&& post.pending_region == rect
        &&& if pre.overlay_frame {
            &&& r == Ok::<BoxStep, OverlayError>(BoxStep::Deferred)
            &&& post.highlights@ == pre.highlights@
        } else {
            exists|i: int| #[trigger]
                picked(pre.highlights@, rect, i) && chose(pre, i, post, r)
        }
    }
}

/// Highlight `i` is to be painted; a new one has the size of the layer, and there are at most
/// four.
pub open spec fn chose(pre: &Overlay, i: int, post: &Overlay, r: Result<BoxStep, OverlayError>) -> bool {
    let (w, h) = pre.res_spec()->0;
    let bytes = pre.transparent_format.bytes();
    if i < pre.highlights@.len() {
        &&& r == Ok::<BoxStep, OverlayError>(BoxStep::Paint { index: i as usize, create: false })
        &&& post.highlights@ == pre.highlights@
    } else if i > 3 {
        &&& r == Err::<BoxStep, OverlayError>(OverlayError::TooManyHighlights)
        &&& post.highlights@ == pre.highlights@
    } else if w < 0 || h < 0 {
        &&& r == Err::<BoxStep, OverlayError>(OverlayError::BufferNegative)
        &&& post.highlights@ == pre.highlights@
    } else if w * bytes > i32::MAX || w * h * bytes > i32::MAX {
        &&& r == Err::<BoxStep, OverlayError>(OverlayError::BufferTooLarge)
        &&& post.highlights@ == pre.highlights@
    } else {
        let new = post.highlights@[i];
        &&& r == Ok::<BoxStep, OverlayError>(BoxStep::Paint { index: i as usize, create: true })
        &&& post.highlights@ == pre.highlights@.push(new)
        &&& new.drawn is None
        &&& !new.locked
        &&& new.buffer.wf()
        &&& new.buffer.format == pre.transparent_format
        &&& new.buffer.width == w
        &&& new.buffer.height == h
    }
}

impl Overlay {
    /// At most four highlights, with buffers that can be painted.
    pub open spec fn wf(&self) -> bool {
        &&& self.highlights@.len() <= 4
        &&& self.magnifier matches Some(m) ==> m.wf()
        &&& forall|k: int|
            0 <= k < self.highlights@.len() ==> (#[trigger] self.highlights@[k]).buffer.wf()
                && drawable(self.highlights@[k].buffer, self.highlights@[k].drawn)
    }

    /// The size in physical pixels, once the logical size and the scale are known.
    pub open spec fn res_spec(&self) -> Option<(i32, i32)> {
        match (self.unscaled, self.scale) {
            (Some((w, h)), Some(s)) => Some((scaled(w, s), scaled(h, s))),
            _ => None,
        }
    }

    /// The size is known.
    pub open spec fn sized(&self) -> bool {
        self.res_spec() is Some
    }

    /// A layer that shows nothing yet.
    pub fn new(output: OutputKey, transparent_format: Format, transform: Transform) -> (r: Self)
        ensures
            r.wf(),
            r.output == output,
            r.transparent_format == transparent_format,
            r.transform == transform,
            r.pending_region is None,
            !r.overlay_frame,
            r.highlights@.len() == 0,
            r.last_highlight == (0usize, None::<MRegion>),
            r.magnifier is None,
            r.unscaled is None,
            r.scale is None,
    {
        Overlay {
            output,
            pending_region: None,
            overlay_frame: false,
            transparent_format,
            highlights: Vec::new(),
            last_highlight: (0, None),
            magnifier: None,
            unscaled: None,
            scale: None,
            transform,
        }
    }

    /// Whether the size is known.
    pub fn ready(&self) -> (r: bool)
        ensures
            r == self.res_spec() is Some,
    {
        self.unscaled.is_some() && self.scale.is_some()
    }

    /// The size in physical pixels, if it is known.
    pub fn initialized_res(&self) -> (r: Option<(i32, i32)>)
        ensures
            r == self.res_spec(),
    {
        match (self.unscaled, self.scale) {
            (Some((w, h)), Some(scale)) => {
                proof {
                    assert(w * scale <= 0xffff_ffff * 0xffff_ffff && h * scale <= 0xffff_ffff
                        * 0xffff_ffff) by (nonlinear_arith)
                        requires
                            0 <= w <= 0xffff_ffff,
                            0 <= h <= 0xffff_ffff,
                            0 <= scale <= 0xffff_ffff,
                    ;
                    assert(0 <= w * scale && 0 <= h * scale) by (nonlinear_arith)
                        requires
                            0 <= w,
                            0 <= h,
                            0 <= scale,
                    ;
                }
                let w: u64 = (w as u64 * scale as u64 + 60) / 120;
                let h: u64 = (h as u64 * scale as u64 + 60) / 120;
                Some((w as i32, h as i32))
            },
            _ => None,
        }
    }

    /// Takes the magnifier's view away. Returns whether there is a magnifier.
    pub fn hide_magnifier(&mut self) -> (r: bool)
        requires
            old(self).wf(),
        ensures
            final(self).wf(),
            same_base(old(self), final(self)),
            same_boxes(old(self), final(self)),
            r == old(self).magnifier is Some,
            final(self).magnifier is Some == r,
            r ==> concealed(&old(self).magnifier->0, &final(self).magnifier->0),
    {
        match &mut self.magnifier {
            Some(mag) => {
                mag.conceal();
                true
            },
            None => false,
        }
    }

    /// Moves the magnifier, if there is one, to a pointer at `point`.
    pub fn move_magnifier(&mut self, point: MLPoint) -> (r: Result<Option<ViewStep>, OverlayError>)
        requires
            old(self).wf(),
            point.within(LOCAL_RANGE as int),
            placeable(point),
        ensures
            final(self).wf(),
            same_base(old(self), final(self)),
            same_boxes(old(self), final(self)),
            final(self).magnifier is Some == old(self).magnifier is Some,
            match r {
                Ok(step) => if old(self).magnifier is Some {
                    drew(&old(self).magnifier->0, point, &final(self).magnifier->0, Ok(step))
                } else {
                    step is None
                },
                Err(e) => e == OverlayError::TooManyViews && old(self).magnifier is Some && drew(
                    &old(self).magnifier->0,
                    point,
                    &final(self).magnifier->0,
                    Err(MagnifierError::TooManyViews),
                ),
            },
    {
        match &mut self.magnifier {
            Some(mag) => match mag.draw(point) {
                Ok(step) => Ok(step),
                Err(_) => Err(OverlayError::TooManyViews),
            },
            None => Ok(None),
        }
    }

    /// The compositor has shown the magnifier's last view: moves on to the point that was
    /// remembered, if there is one.
    pub fn magnifier_frame(&mut self) -> (r: Result<Option<ViewStep>, OverlayError>)
        requires
            old(self).wf(),
            old(self).magnifier is Some,
        ensures
            final(self).wf(),
            same_base(old(self), final(self)),
            same_boxes(old(self), final(self)),
            final(self).magnifier is Some,
            match old(self).magnifier->0.pending {
                None => r == Ok::<Option<ViewStep>, OverlayError>(None) && final(self).magnifier->0
                    == rested(&old(self).magnifier->0),
                Some(point) => match r {
                    Ok(step) => drew(
                        &rested(&old(self).magnifier->0),
                        point,
                        &final(self).magnifier->0,
                        Ok(step),
                    ),
                    Err(e) => e == OverlayError::TooManyViews && drew(
                        &rested(&old(self).magnifier->0),
                        point,
                        &final(self).magnifier->0,
                        Err(MagnifierError::TooManyViews),
                    ),
                },
            },
    {
        let pending: Option<MLPoint> = match &mut self.magnifier {
            Some(mag) => mag.frame_done(),
            None => None,
        };
        match pending {
            Some(point) => self.move_magnifier(point),
            None => Ok(None),
        }
    }

    /// Decides how to show `rect`, or nothing.
    pub fn draw_box(&mut self, rect: Option<MRegion>) -> (r: Result<BoxStep, OverlayError>)
        requires
            old(self).wf(),
            old(self).sized(),
        ensures
            final(self).wf(),
            boxed(old(self), rect, final(self), r),
    {
        if (rect.is_none() && self.highlights.len() == 0) || self.last_highlight.1 == rect {
            return Ok(BoxStep::Nothing);
        }
        self.pending_region = rect;
        if self.overlay_frame {
            return Ok(BoxStep::Deferred);
        }
        let (w, h) = self.initialized_res().unwrap();
        let index: usize = pick(&self.highlights, rect);
        if index < self.highlights.len() {
            return Ok(BoxStep::Paint { index, create: false });
        }
        if index > 3 {
            return Err(OverlayError::TooManyHighlights);
        }
        let ghost before = self.highlights@;
        match Buffer::new(self.transparent_format, w, h) {
            Err(BufferError::Negative) => Err(OverlayError::BufferNegative),
            Err(BufferError::TooLarge) => Err(OverlayError::BufferTooLarge),
            Ok(buffer) => {
                self.highlights.push(Highlight::new(buffer));
                assert(self.highlights@ =~= before.push(self.highlights@[index as int]));
                Ok(BoxStep::Paint { index, create: true })
            },
        }
    }

    /// Highlight `index` can be painted with the region that is to be shown.
    pub open spec fn paints(&self, index: int) -> bool {
        &&& 0 <= index < self.highlights@.len()
        &&& !self.highlights@[index].locked
        &&& paintable(self.highlights@[index].buffer)
        &&& drawable(self.highlights@[index].buffer, self.pending_region)
    }

    /// Whether highlight `index` can be painted with the region that is to be shown.
    pub fn can_paint(&self, index: usize) -> (r: bool)
        ensures
            r == self.paints(index as int),
    {
        if index >= self.highlights.len() {
            return false;
        }
        let high = self.highlights[index];
        if high.locked || !high.buffer.valid() || high.buffer.format.size() != 4
            || high.buffer.width >= 0x7fff_ffff || high.buffer.height >= 0x7fff_ffff {
            return false;
        }
        match self.pending_region {
            None => true,
            Some(r) => r.lies_inside(high.buffer.width, high.buffer.height),
        }
    }

    /// Paints the region that is to be shown on highlight `index`, whose pixels are `pixels`.
    /// Returns whether the highlight has to be shown: it is then locked until the compositor
    /// releases it.
    pub fn paint(&mut self, index: usize, pixels: &mut [u32]) -> (r: bool)
        requires
            old(self).wf(),
            old(self).paints(index as int),
            depicts(
                old(pixels)@,
                old(self).highlights@[index as int].buffer,
                old(self).highlights@[index as int].drawn,
            ),
        ensures
            final(self).wf(),
            same_base(old(self), final(self)),
            final(self).magnifier == old(self).magnifier,
            final(self).pending_region == old(self).pending_region,
            depicts(
                final(pixels)@,
                old(self).highlights@[index as int].buffer,
                old(self).pending_region,
            ),
            r == (old(self).highlights@[index as int].drawn != old(self).pending_region || index
                != old(self).last_highlight.0),
            final(self).overlay_frame == (r || old(self).overlay_frame),
            final(self).last_highlight == (index, old(self).pending_region),
            final(self).highlights@ == old(self).highlights@.update(
                index as int,
                (Highlight {
                    buffer: old(self).highlights@[index as int].buffer,
                    drawn: old(self).pending_region,
                    locked: r,
                }),
            ),
    {
        let rect = self.pending_region;
        let force: bool = index != self.last_highlight.0;
        let mut high = self.highlights[index];
        let shown: bool = high.draw(pixels, rect, force);
        self.highlights.set(index, high);
        if shown {
            self.overlay_frame = true;
        }
        self.last_highlight = (index, rect);
        shown
    }

    /// The compositor has shown the last highlight: moves on to what was last asked for.
    pub fn frame_done(&mut self) -> (r: Result<BoxStep, OverlayError>)
        requires
            old(self).wf(),
            old(self).sized(),
        ensures
            final(self).wf(),
            boxed(
                &(Overlay { overlay_frame: false, ..*old(self) }),
                old(self).pending_region,
                final(self),
                r,
            ),
    {
        self.overlay_frame = false;
        let rect = self.pending_region;
        self.draw_box(rect)
    }

    /// The compositor no longer reads the buffer of highlight `index`.
    pub fn release(&mut self, index: usize)
        requires
            old(self).wf(),
            index < old(self).highlights@.len(),
        ensures
            final(self).wf(),
            same_base(old(self), final(self)),
            final(self).magnifier == old(self).magnifier,
            final(self).pending_region == old(self).pending_region,
            final(self).overlay_frame == old(self).overlay_frame,
            final(self).last_highlight == old(self).last_highlight,
            final(self).highlights@ == old(self).highlights@.update(
                index as int,
                (Highlight { locked: false, ..old(self).highlights@[index as int] }),
            ),
    {
        let mut high = self.highlights[index];
        high.release();
        self.highlights.set(index, high);
    }

    /// The compositor gives the scale. A second one is an error.
    pub fn set_scale(&mut self, scale: u32) -> (r: Result<(), OverlayError>)
        requires
            old(self).wf(),
        ensures
            final(self).wf(),
            r == if old(self).scale is Some {
                Err::<(), OverlayError>(OverlayError::ScaleReconfigured)
            } else {
                Ok(())
            },
            *final(self) == if r is Ok {
                Overlay { scale: Some(scale), ..*old(self) }
            } else {
                *old(self)
            },
    {
        if self.scale.is_some() {
            return Err(OverlayError::ScaleReconfigured);
        }
        self.scale = Some(scale);
        Ok(())
    }

    /// The compositor gives the size. A second, different one is an error.
    pub fn configure(&mut self, width: u32, height: u32) -> (r: Result<ConfigureStep, OverlayError>)
        requires
            old(self).wf(),
        ensures
            final(self).wf(),
            r == match old(self).unscaled {
                Some((w, h)) => if w == width && h == height {
                    Ok::<ConfigureStep, OverlayError>(ConfigureStep::Ignored)
                } else {
                    Err(OverlayError::SecondConfigure)
                },
                None => Ok(ConfigureStep::Accepted { dummy: old(self).scale is None }),
            },
            *final(self) == if old(self).unscaled is None {
                Overlay { unscaled: Some((width, height)), ..*old(self) }
            } else {
                *old(self)
            },
    {
        match self.unscaled {
            Some((w, h)) => if w != width || h != height {
                Err(OverlayError::SecondConfigure)
            } else {
                Ok(ConfigureStep::Ignored)
            },
            None => {
                self.unscaled = Some((width, height));
                Ok(ConfigureStep::Accepted { dummy: self.scale.is_none() })
            },
        }
    }

    /// The compositor closed the layer, which nothing recovers from.
    pub fn closed(&self) -> (r: OverlayError)
        ensures
            r == OverlayError::Closed,
    {
        OverlayError::Closed
    }

    /// The compositor says how buffers are to be turned. Anything but the monitor's own transform
    /// is an error.
    pub fn preferred_transform(&self, transform: Transform) -> (r: Result<(), OverlayError>)
        ensures
            r == if self.transform == transform {
                Ok::<(), OverlayError>(())
            } else {
                Err(OverlayError::TransformChanged)
            },
    {
        if self.transform == transform {
            Ok(())
        } else {
            Err(OverlayError::TransformChanged)
        }
    }
}

/// A highlight that the compositor still reads is never painted.
pub proof fn painted_highlights_are_unlocked(
    pre: &Overlay,
    rect: Option<MRegion>,
    post: &Overlay,
    index: usize,
    create: bool,
)
    requires
        pre.wf(),
        boxed(pre, rect, post, Ok(BoxStep::Paint { index, create })),
    ensures
        index < post.highlights@.len(),
        !post.highlights@[index as int].locked,
{
    let r = Ok::<BoxStep, OverlayError>(BoxStep::Paint { index, create });
    let i = choose|i: int| #[trigger]
        picked(pre.highlights@, rect, i) && chose(pre, i, post, r);
    assert(index == i);
}

/// A side of the layer in physical pixels is the nearest number to its logical length times the
/// scale, which counts 120ths.
pub proof fn layers_are_scaled_to_the_nearest_pixel(unscaled: u32, scale: u32)
    requires
        unscaled * scale < 120 * i32::MAX,
    ensures
        120 * scaled(unscaled, scale) <= unscaled * scale + 60,
        unscaled * scale + 60 < 120 * scaled(unscaled, scale) + 120,
{
    assert(0 <= unscaled * scale) by (nonlinear_arith);
}

/// A new highlight is made only if the compositor still reads all others, and one that shows the
/// region already is used again if it is free.
pub proof fn free_highlights_are_used_again(
    pre: &Overlay,
    rect: Option<MRegion>,
    post: &Overlay,
    index: usize,
    create: bool,
)
    requires
        pre.wf(),
        boxed(pre, rect, post, Ok(BoxStep::Paint { index, create })),
    ensures
        create <==> forall|k: int|
            0 <= k < pre.highlights@.len() ==> (#[trigger] pre.highlights@[k]).locked,
        create ==> index == pre.highlights@.len() && index < 4,
        !create ==> index < pre.highlights@.len() && !pre.highlights@[index as int].locked,
        forall|k: int|
            0 <= k < pre.highlights@.len() && !(#[trigger] pre.highlights@[k]).locked
                && pre.highlights@[k].drawn == rect ==> !create
                && pre.highlights@[index as int].drawn == rect && index <= k,
{
    let r = Ok::<BoxStep, OverlayError>(BoxStep::Paint { index, create });
    let i = choose|i: int| #[trigger]
        picked(pre.highlights@, rect, i) && chose(pre, i, post, r);
    let same = |k: int| !pre.highlights@[k].locked && pre.highlights@[k].drawn == rect;
    assert(index == i);
    assert forall|k: int|
        0 <= k < pre.highlights@.len() && !(#[trigger] pre.highlights@[k]).locked
            && pre.highlights@[k].drawn == rect implies !create
        && pre.highlights@[index as int].drawn == rect && index <= k by {
        assert(same(k));
    }
}

/// What is shown already is not painted again, nothing is painted while the compositor has not shown
/// the last highlight, and in all other cases something is painted or the reason is told. What was
/// put off is remembered.
pub proof fn changes_are_painted_or_put_off(
    pre: &Overlay,
    rect: Option<MRegion>,
    post: &Overlay,
    r: Result<BoxStep, OverlayError>,
)
    requires
        boxed(pre, rect, post, r),
    ensures
        pre.last_highlight.1 == rect ==> r == Ok::<BoxStep, OverlayError>(BoxStep::Nothing)
            && post.pending_region == pre.pending_region,
        rect is Some && pre.last_highlight.1 != rect ==> post.pending_region == rect,
        rect is Some && pre.last_highlight.1 != rect && pre.overlay_frame ==> r == Ok::<
            BoxStep,
            OverlayError,
        >(BoxStep::Deferred),
        rect is Some && pre.last_highlight.1 != rect && !pre.overlay_frame ==> (r matches Ok(
            BoxStep::Paint { .. },
        )) || r is Err,
        rect is None && pre.highlights@.len() > 0 && pre.last_highlight.1 is Some
            && !pre.overlay_frame ==> (r matches Ok(BoxStep::Paint { .. })) || r is Err,
        post.highlights@.len() >= pre.highlights@.len(),
        forall|k: int|
            0 <= k < pre.highlights@.len() ==> #[trigger] post.highlights@[k] == pre.highlights@[k],
{
}

/// The size of a layer is known exactly if both its logical size and its scale are, and each of its
/// sides is scaled by itself.
pub proof fn layers_need_a_size_and_a_scale(o: &Overlay)
    ensures
        o.res_spec() is Some <==> o.unscaled is Some && o.scale is Some,
        o.unscaled is Some && o.scale is Some ==> {
            let (w, h) = o.unscaled->0;
            let size = o.res_spec()->0;
            &&& size.0 == scaled(w, o.scale->0)
            &&& size.1 == scaled(h, o.scale->0)
        },
{
}

} // verus!

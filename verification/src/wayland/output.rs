//! One monitor: what the compositor says of it, its capture and its layer.

use vstd::prelude::*;

use crate::coord::LOCAL_RANGE;
use crate::util::{LFRegion, LRegion, MLPoint, MRegion, Monitor, Scale};
use crate::wayland::capture::Capture;
use crate::wayland::magnifier::{concealed, drew, placeable, MagnifierError, ViewStep};
use crate::wayland::overlay::{boxed, same_base, same_boxes, BoxStep, Overlay, OverlayError};
use crate::wayland::{Format, Mode, OutputKey, Transform};

verus! {

/// A monitor with its capture and its layer.
#[derive(Debug)]
pub struct Output {
    pub key: OutputKey,
    pub monitor: Monitor,
    pub capture: Capture,
    pub overlay: Option<Overlay>,
    /// How many descriptions are still to come.
    pub pending_done: usize,
}

/// Why a monitor cannot be used.
#[derive(Debug, Clone, Copy, PartialEq, Eq, Structural)]
pub enum OutputError {
    /// A second mode was given.
    SecondMode,
    /// More descriptions came than expected.
    TooManyDone,
    /// The monitor has no area.
    EmptyRegion,
    /// The scale is negative or vanishingly small.
    InvalidScale,
}

/// What the end of a description leads to.
#[derive(Debug, Clone, Copy, PartialEq, Eq, Structural)]
pub enum DoneStep {
    /// Another one is still to come.
    Waiting,
    /// The monitor is known: it is to be captured, or gets a layer, or both.
    SetUp { capture: bool, overlay: bool },
}

/// A monitor after its mode was given. The size is that of the panel, before any rotation.
pub open spec fn with_mode(m: Monitor, width: i32, height: i32) -> Monitor {
    Monitor {
        physical: if m.transform.rotates() {
            MRegion { width: height, height: width, ..m.physical }
        } else {
            MRegion { width, height, ..m.physical }
        },
        ..m
    }
}

/// A monitor after its transform was given.
pub open spec fn with_geometry(m: Monitor, transform: Transform) -> Monitor {
    Monitor {
        transform,
        physical: if transform.rotates() {
            MRegion { width: m.physical.height, height: m.physical.width, ..m.physical }
        } else {
            m.physical
        },
        ..m
    }
}

/// It does not matter whether a new monitor's mode or its transform is given first.
pub proof fn mode_and_geometry_commute(m: Monitor, width: i32, height: i32, transform: Transform)
    requires
        !m.transform.rotates(),
        m.physical.width == 0,
        m.physical.height == 0,
    ensures
        with_geometry(with_mode(m, width, height), transform) == with_mode(
            with_geometry(m, transform),
            width,
            height,
        ),
{
}

/// `physical / logical` is above one hundredth.
pub open spec fn scale_valid(physical: int, logical: int) -> bool {
    ||| 0 < physical && 0 < logical && logical < 100 * physical
    ||| physical < 0 && logical < 0 && 100 * physical < logical
}

/// `physical / logical`.
pub open spec fn scale_of(physical: int, logical: int) -> Scale {
    if logical < 0 {
        Scale { num: -physical as i64, den: -logical as i64 }
    } else {
        Scale { num: physical as i64, den: logical as i64 }
    }
}

/// The part of `region` on the monitor, in its own pixels.
pub open spec fn part_on(m: &Monitor, region: Option<LFRegion>) -> Option<MRegion> {
    match region {
        None => None,
        Some(r) => match m.rounded(r) {
            None => None,
            Some((_, part)) => Some(part),
        },
    }
}

/// Nothing but the layer changes.
pub open spec fn same_output(pre: &Output, post: &Output) -> bool {
    &&& post.key == pre.key
    &&& post.monitor == pre.monitor
    &&& post.capture == pre.capture
    &&& post.pending_done == pre.pending_done
    &&& post.overlay is Some == pre.overlay is Some
}

/// What taking the magnifier's view away does.
pub open spec fn concealed_on(pre: &Overlay, post: &Overlay) -> bool {
    &&& same_base(pre, post)
    &&& same_boxes(pre, post)
    &&& post.magnifier is Some == pre.magnifier is Some
    &&& pre.magnifier is Some ==> concealed(&pre.magnifier->0, &post.magnifier->0)
}

/// What moving the magnifier does.
pub open spec fn moved_on(
    pre: &Overlay,
    point: MLPoint,
    post: &Overlay,
    r: Result<Option<ViewStep>, OverlayError>,
) -> bool {
    &&& same_base(pre, post)
    &&& same_boxes(pre, post)
    &&& post.magnifier is Some == pre.magnifier is Some
    &&& match r {
        Ok(step) => if pre.magnifier is Some {
            drew(&pre.magnifier->0, point, &post.magnifier->0, Ok(step))
        } else {
            step is None
        },
        Err(e) => {
            &&& e == OverlayError::TooManyViews
            &&& pre.magnifier is Some
            &&& drew(
                &pre.magnifier->0,
                point,
                &post.magnifier->0,
                Err(MagnifierError::TooManyViews),
            )
        },
    }
}

impl Output {
    /// The capture and the layer are in order, and the layer belongs to this monitor, whose scale
    /// is known.
    pub open spec fn wf(&self) -> bool {
        &&& self.capture.wf()
        &&& self.overlay matches Some(o) ==> o.wf() && o.output == self.key
            && self.monitor.scale.wf()
    }

    /// A monitor of which nothing is known yet.
    pub fn new(key: OutputKey) -> (r: Self)
        ensures
            r.wf(),
            r.key == key,
            r.monitor.logical == (LRegion { x: 0, y: 0, width: 0, height: 0 }),
            r.monitor.physical == (MRegion { x: 0, y: 0, width: 0, height: 0 }),
            r.monitor.scale == (Scale { num: 0, den: 1 }),
            r.monitor.transform == Transform(0),
            r.monitor.description@.len() == 0,
            r.capture.res is None,
            r.capture.format is None,
            forall|f: Format| !#[trigger] r.capture.shm_formats.has(f),
            r.capture.transform == Transform(0),
            r.capture.buffer is None,
            !r.capture.done,
            r.overlay is None,
            r.pending_done == 2,
    {
        let monitor = Monitor {
            logical: LRegion { x: 0, y: 0, width: 0, height: 0 },
            physical: MRegion { x: 0, y: 0, width: 0, height: 0 },
            scale: Scale { num: 0, den: 1 },
            transform: Transform(0),
            description: String::new(),
        };
        // One description comes with the output itself, one with its logical position.
        Output { key, monitor, capture: Capture::new(), overlay: None, pending_done: 2 }
    }

    /// The compositor gives the mode. A second one is an error.
    pub fn mode(&mut self, width: i32, height: i32) -> (r: Result<(), OutputError>)
        requires
            old(self).wf(),
        ensures
            final(self).wf(),
            r == if old(self).monitor.physical.width == 0 || old(self).monitor.physical.height
                == 0 {
                Ok::<(), OutputError>(())
            } else {
                Err(OutputError::SecondMode)
            },
            *final(self) == if r is Ok {
                Output { monitor: with_mode(old(self).monitor, width, height), ..*old(self) }
            } else {
                *old(self)
            },
    {
        if !self.monitor.physical.is_empty() {
            return Err(OutputError::SecondMode);
        }
        if self.monitor.transform.rotate() {
            self.monitor.physical.width = height;
            self.monitor.physical.height = width;
        } else {
            self.monitor.physical.width = width;
            self.monitor.physical.height = height;
        }
        Ok(())
    }

    /// The compositor says how the picture is turned.
    pub fn geometry(&mut self, transform: Transform)
        requires
            old(self).wf(),
        ensures
            final(self).wf(),
            *final(self) == (Output {
                monitor: with_geometry(old(self).monitor, transform),
                ..*old(self)
            }),
    {
        self.monitor.transform = transform;
        if transform.rotate() {
            let width: i32 = self.monitor.physical.width;
            self.monitor.physical.width = self.monitor.physical.height;
            self.monitor.physical.height = width;
        }
    }

    /// The compositor gives the position in logical space.
    pub fn logical_position(&mut self, x: i32, y: i32)
        requires
            old(self).wf(),
        ensures
            final(self).wf(),
            *final(self) == (Output {
                monitor: Monitor {
                    logical: LRegion { x, y, ..old(self).monitor.logical },
                    ..old(self).monitor
                },
                ..*old(self)
            }),
    {
        self.monitor.logical.x = x;
        self.monitor.logical.y = y;
    }

    /// The compositor gives the size in logical space.
    pub fn logical_size(&mut self, width: i32, height: i32)
        requires
            old(self).wf(),
        ensures
            final(self).wf(),
            *final(self) == (Output {
                monitor: Monitor {
                    logical: LRegion { width, height, ..old(self).monitor.logical },
                    ..old(self).monitor
                },
                ..*old(self)
            }),
    {
        self.monitor.logical.width = width;
        self.monitor.logical.height = height;
    }

    /// The compositor describes the monitor in words.
    pub fn description(&mut self, description: String)
        requires
            old(self).wf(),
        ensures
            final(self).wf(),
            *final(self) == (Output {
                monitor: Monitor { description, ..old(self).monitor },
                ..*old(self)
            }),
    {
        self.monitor.description = description;
    }

    /// A description has ended. After the last one the scale is known, and what `mode` calls for
    /// is set up.
    pub fn done(&mut self, mode: Mode, format: Format) -> (r: Result<DoneStep, OutputError>)
        requires
            old(self).wf(),
            old(self).pending_done > 0 ==> old(self).overlay is None,
        ensures
            final(self).wf(),
            ({
                let m = old(self).monitor;
                let left = old(self).pending_done - 1;
                if left < 0 {
                    &&& r == Err::<DoneStep, OutputError>(OutputError::TooManyDone)
                    &&& *final(self) == *old(self)
                } else if left > 0 {
                    &&& r == Ok::<DoneStep, OutputError>(DoneStep::Waiting)
                    &&& *final(self) == (Output { pending_done: left as usize, ..*old(self) })
                } else if m.logical.width == 0 || m.logical.height == 0 || m.physical.width == 0
                    || m.physical.height == 0 {
                    &&& r == Err::<DoneStep, OutputError>(OutputError::EmptyRegion)
                    &&& *final(self) == (Output { pending_done: 0, ..*old(self) })
                } else if !scale_valid(m.physical.width as int, m.logical.width as int) {
                    &&& r == Err::<DoneStep, OutputError>(OutputError::InvalidScale)
                    &&& *final(self) == (Output { pending_done: 0, ..*old(self) })
                } else {
                    &&& r == Ok::<DoneStep, OutputError>(
                        DoneStep::SetUp { capture: mode.shot_spec(), overlay: mode.sel_spec() },
                    )
                    &&& final(self).key == old(self).key
                    &&& final(self).pending_done == 0
                    &&& final(self).monitor == (Monitor {
                        scale: scale_of(m.physical.width as int, m.logical.width as int),
                        ..m
                    })
                    &&& final(self).capture == if mode.shot_spec() {
                        Capture { transform: m.transform, ..old(self).capture }
                    } else {
                        old(self).capture
                    }
                    &&& final(self).overlay is Some == mode.sel_spec()
                    &&& mode.sel_spec() ==> {
                        let o = final(self).overlay->0;
                        &&& o.output == old(self).key
                        &&& o.transparent_format == format
                        &&& o.transform == m.transform
                        &&& o.highlights@.len() == 0
                        &&& o.last_highlight == (0usize, None::<MRegion>)
                        &&& o.pending_region is None
                        &&& !o.overlay_frame
                        &&& o.magnifier is None
                        &&& o.unscaled is None
                        &&& o.scale is None
                    }
                }
            }),
    {
        if self.pending_done == 0 {
            return Err(OutputError::TooManyDone);
        }
        self.pending_done = self.pending_done - 1;
        if self.pending_done > 0 {
            return Ok(DoneStep::Waiting);
        }
        if self.monitor.logical.is_empty() || self.monitor.physical.is_empty() {
            return Err(OutputError::EmptyRegion);
        }
        let physical: i64 = self.monitor.physical.width as i64;
        let logical: i64 = self.monitor.logical.width as i64;
        let positive: bool = 0 < physical && 0 < logical && logical < 100 * physical;
        let negative: bool = physical < 0 && logical < 0 && 100 * physical < logical;
        if !positive && !negative {
            return Err(OutputError::InvalidScale);
        }
        self.monitor.scale = if logical < 0 {
            Scale { num: -physical, den: -logical }
        } else {
            Scale { num: physical, den: logical }
        };
        let capture: bool = mode.shot();
        let overlay: bool = mode.sel();
        if capture {
            self.capture.transform = self.monitor.transform;
        }
        if overlay {
            self.overlay = Some(Overlay::new(self.key, format, self.monitor.transform));
        }
        Ok(DoneStep::SetUp { capture, overlay })
    }

    /// Takes the magnifier's view away. Returns whether there is a magnifier.
    pub fn hide_magnifier(&mut self) -> (r: bool)
        requires
            old(self).wf(),
            old(self).overlay is Some,
        ensures
            final(self).wf(),
            same_output(old(self), final(self)),
            concealed_on(&old(self).overlay->0, &final(self).overlay->0),
            r == old(self).overlay->0.magnifier is Some,
    {
        match &mut self.overlay {
            Some(o) => o.hide_magnifier(),
            None => false,
        }
    }

    /// Moves the magnifier, if there is one, to a pointer at `point`.
    pub fn move_magnifier(&mut self, point: MLPoint) -> (r: Result<Option<ViewStep>, OverlayError>)
        requires
            old(self).wf(),
            old(self).overlay is Some,
            point.within(LOCAL_RANGE as int),
            placeable(point),
        ensures
            final(self).wf(),
            same_output(old(self), final(self)),
            moved_on(&old(self).overlay->0, point, &final(self).overlay->0, r),
    {
        match &mut self.overlay {
            Some(o) => o.move_magnifier(point),
            None => Ok(None),
        }
    }

    /// Decides how to show the part of `region` that lies on this monitor.
    pub fn draw_region(&mut self, region: Option<LFRegion>) -> (r: Result<BoxStep, OverlayError>)
        requires
            old(self).wf(),
            old(self).monitor.wf(),
            old(self).overlay is Some,
            old(self).overlay->0.sized(),
            region matches Some(g) ==> g.wf(),
        ensures
            final(self).wf(),
            same_output(old(self), final(self)),
            boxed(
                &old(self).overlay->0,
                part_on(&old(self).monitor, region),
                &final(self).overlay->0,
                r,
            ),
    {
        let part: Option<MRegion> = match region {
            None => None,
            Some(g) => match self.monitor.intersect_rounded(&g) {
                None => None,
                Some((_, m)) => Some(m),
            },
        };
        match &mut self.overlay {
            Some(o) => o.draw_box(part),
            None => Ok(BoxStep::Nothing),
        }
    }
}

/// The scale of a monitor is how many physical pixels make up a logical one, whatever the signs of
/// the two sides that it is taken from, and it is accepted exactly if it is above one hundredth.
pub proof fn scales_are_physical_over_logical(physical: i32, logical: i32)
    requires
        physical != 0,
        logical != 0,
    ensures
        ({
            let s = scale_of(physical as int, logical as int);
            &&& s.den > 0
            &&& s.num * logical == physical * s.den
            &&& scale_valid(physical as int, logical as int) <==> s.num > 0 && s.den < 100 * s.num
        }),
{
    let s = scale_of(physical as int, logical as int);
    let p = physical as int;
    let l = logical as int;
    assert(-p * l == p * -l && p * l == p * l) by (nonlinear_arith);
}

/// The mode gives the size of the panel, and turning the monitor by an odd number of quarters shows
/// it with width and height swapped. Nothing else about the monitor changes.
pub proof fn turned_monitors_swap_their_sides(m: Monitor, width: i32, height: i32, transform: Transform)
    requires
        transform.0 <= 7,
        m.transform.0 <= 7,
    ensures
        ({
            let odd = |t: Transform| t.0 == 1 || t.0 == 3 || t.0 == 5 || t.0 == 7;
            let a = with_mode(m, width, height);
            let b = with_geometry(m, transform);
            &&& a.physical.width == if odd(m.transform) {
                height
            } else {
                width
            }
            &&& a.physical.height == if odd(m.transform) {
                width
            } else {
                height
            }
            &&& a == (Monitor { physical: a.physical, ..m })
            &&& a.physical.x == m.physical.x && a.physical.y == m.physical.y
            &&& b.physical.width == if odd(transform) {
                m.physical.height
            } else {
                m.physical.width
            }
            &&& b.physical.height == if odd(transform) {
                m.physical.width
            } else {
                m.physical.height
            }
            &&& b.physical.x == m.physical.x && b.physical.y == m.physical.y
            &&& b == (Monitor { physical: b.physical, transform, ..m })
        }),
{
}

/// The part of a region on a monitor is what the monitor shares with it, in the monitor's own pixels.
/// No region has no part.
pub proof fn parts_are_in_pixels_of_the_monitor(m: &Monitor, r: LFRegion)
    ensures
        part_on(m, None) is None,
        part_on(m, Some(r)) is Some <==> m.rounded(r) is Some,
        m.rounded(r) matches Some((_, p)) ==> part_on(m, Some(r)) == Some(p),
{
}

/// Moving the magnifier moves only the magnifier, and a layer without one stays as it is.
pub proof fn magnifiers_move_alone(
    pre: &Overlay,
    point: MLPoint,
    post: &Overlay,
    r: Result<Option<ViewStep>, OverlayError>,
)
    requires
        moved_on(pre, point, post, r),
    ensures
        pre.magnifier is None ==> r == Ok::<Option<ViewStep>, OverlayError>(None)
            && post.magnifier is None,
        pre.magnifier is Some && !pre.magnifier->0.zoom_frame ==> (r matches Ok(Some(_))) || r
            == Err::<Option<ViewStep>, OverlayError>(OverlayError::TooManyViews),
        pre.magnifier is Some && pre.magnifier->0.zoom_frame ==> post.magnifier is Some
            && post.magnifier->0.pending == Some(point),
        post.highlights@ == pre.highlights@,
        post.last_highlight == pre.last_highlight,
        post.pending_region == pre.pending_region,
        post.unscaled == pre.unscaled && post.scale == pre.scale,
{
}

/// Taking the magnifier away hides its view, keeps the magnifier and changes nothing else.
pub proof fn magnifiers_hide_alone(pre: &Overlay, post: &Overlay)
    requires
        concealed_on(pre, post),
    ensures
        pre.magnifier is Some <==> post.magnifier is Some,
        pre.magnifier is Some ==> post.magnifier->0.last_view is None
            && post.magnifier->0.pending is None && !post.magnifier->0.zoom_frame,
        post.highlights@ == pre.highlights@,
        post.last_highlight == pre.last_highlight,
        post.pending_region == pre.pending_region,
        post.unscaled == pre.unscaled && post.scale == pre.scale,
{
}

} // verus!

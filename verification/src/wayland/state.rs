//! The selection, from the compositor's events to what was selected.

use vstd::prelude::*;

use crate::coord::{round_away, round_div, Coord, LOCAL_RANGE, POINTER_RANGE};
use crate::ipc::Window;
use crate::util::{
    at_most, lemma_plus_within, lemma_round_monotone, lies_in, shared_and_enclosing_regions,
    the_first_window_under_a_point_is_found, window_under, LFRegion, LPoint, LRegion, MLPoint,
    Monitor,
};
use crate::wayland::capture::CaptureError;
use crate::wayland::magnifier::{placeable, ViewStep};
use crate::wayland::output::{Output, OutputError};
use crate::wayland::overlay::{BoxStep, Overlay, OverlayError};
use crate::wayland::{FormatSet, Hover, Mode, MouseState, OutputKey, SelectState, Status};

verus! {

/// Why a run cannot go on.
#[derive(Debug, Clone, Copy, PartialEq, Eq, Structural)]
pub enum StateError {
    Overlay(OutputKey, OverlayError),
    Output(OutputKey, OutputError),
    Capture(OutputKey, CaptureError),
    /// A monitor was added after the first ones were known.
    NewOutput,
    /// A known monitor was removed.
    RemovedOutput(OutputKey),
    /// A monitor was captured in another size than it is shown in.
    Resolution(OutputKey),
    /// The user gave up.
    Cancelled,
    /// There is no window to choose from.
    NoWindows,
    /// There is no monitor.
    NoMonitors,
    /// Something was selected where nothing should have been.
    NotNothing,
    /// The selection touches no monitor.
    NothingToCapture,
}

/// Everything that is known during a run.
#[derive(Debug)]
pub struct State {
    pub mode: Mode,
    pub status: Status,
    /// The formats that the compositor can show.
    pub formats: FormatSet,
    /// Ordered by key.
    pub outputs: Vec<Output>,
    pub mouse: MouseState,
    pub select_state: SelectState,
    /// Ordered from front to back.
    pub windows: Vec<Window>,
    /// Quarter turns of frozen pictures go in the other direction.
    pub weird_transforms: bool,
    /// If some error happened and we need to die.
    pub error: Option<StateError>,
}

/// How the result of showing a region on a monitor is reported.
pub type BoxResult = Result<BoxStep, OverlayError>;

/// How the result of moving a magnifier is reported.
pub type MoveResult = Result<Option<ViewStep>, OverlayError>;

/// The magnifier of a monitor moves.
#[derive(Debug)]
pub struct MagnifierMove {
    pub output: OutputKey,
    pub result: MoveResult,
}

/// What the end of a group of pointer events leads to.
#[derive(Debug)]
pub struct Frame {
    /// The monitor whose magnifier has to be taken away.
    pub hidden: Option<OutputKey>,
    /// The monitor whose magnifier moves, and how.
    pub moved: Option<MagnifierMove>,
    /// How the selection is shown on each monitor.
    pub boxes: Vec<(OutputKey, BoxResult)>,
}

/// The keys of the monitors, and how they are laid out.
pub open spec fn layout(outputs: Seq<Output>) -> Seq<(OutputKey, Monitor)> {
    Seq::new(outputs.len(), |k: int| (outputs[k].key, outputs[k].monitor))
}

/// The position of the first monitor with this key from position `from` on.
pub open spec fn slot_of(s: Seq<(OutputKey, Monitor)>, key: OutputKey, from: int) -> Option<int>
    decreases s.len() - from,
{
    if from < 0 || from >= s.len() {
        None
    } else if s[from].0 == key {
        Some(from)
    } else {
        slot_of(s, key, from + 1)
    }
}

/// The first monitor from position `from` on that covers `point`.
pub open spec fn covering(s: Seq<(OutputKey, Monitor)>, point: LPoint, from: int) -> Option<int>
    decreases s.len() - from,
{
    if from < 0 || from >= s.len() {
        None
    } else if s[from].1.logical.covers(point) {
        Some(from)
    } else {
        covering(s, point, from + 1)
    }
}

/// The first monitor from position `from` on that nearly covers `point`.
pub open spec fn nearly_covering(s: Seq<(OutputKey, Monitor)>, point: LPoint, from: int) -> Option<
    int,
>
    decreases s.len() - from,
{
    if from < 0 || from >= s.len() {
        None
    } else if s[from].1.logical.nearly_covers(point) {
        Some(from)
    } else {
        nearly_covering(s, point, from + 1)
    }
}

/// The monitor that the pointer is really on when it is at `point` of monitor `i`, and where on
/// it. During a drag it can be far outside the monitor that it started on. Dragging mouse events
/// can be just barely off-screen, so a monitor that nearly covers the point will do.
pub open spec fn located(s: Seq<(OutputKey, Monitor)>, i: int, point: MLPoint) -> Option<
    (int, MLPoint),
> {
    if s[i].1.logical.holds_mouse(point) {
        Some((i, point))
    } else {
        let global = s[i].1.to_global(point);
        match covering(s, global, 0) {
            Some(j) => Some((j, s[j].1.to_local(global))),
            None => match nearly_covering(s, global, 0) {
                Some(j) => Some((j, s[j].1.to_local(global))),
                None => None,
            },
        }
    }
}

/// The physical pixel that the pointer is over.
pub open spec fn end_pixel(s: Seq<(OutputKey, Monitor)>, hover: Hover, point: MLPoint) -> LFRegion {
    let m = s[slot_of(s, hover.outkey, 0)->0].1;
    if hover.corrected == hover.outkey {
        m.pixel_bounds(point)
    } else {
        let c = s[slot_of(s, hover.corrected, 0)->0].1;
        c.pixel_bounds(c.to_local(m.to_global(point)))
    }
}

/// The window under the pointer.
pub open spec fn hovered(s: Seq<(OutputKey, Monitor)>, mouse: MouseState, windows: Seq<Window>) -> Option<
    int,
> {
    match mouse.hover {
        None => None,
        Some(hover) => {
            let m = s[slot_of(s, hover.outkey, 0)->0].1;
            window_under(windows, m.to_global(mouse.point), 0)
        },
    }
}

/// What a move of the pointer does while nothing is dragged: the window under it is highlighted.
/// The second part is the region to show, unless that stays the same.
pub open spec fn next_hover(
    target: Option<int>,
    old: Option<int>,
    state: SelectState,
    windows: Seq<Window>,
) -> (SelectState, Option<Option<LFRegion>>) {
    match (target, old) {
        (Some(i), _) => if old == Some(i) {
            (state, None)
        } else {
            (
                SelectState::OverWindow(i as usize),
                Some(Some(LFRegion::of(windows[i].region_spec()))),
            )
        },
        (None, None) => (state, None),
        (None, Some(_)) => (SelectState::Hovering, Some(None)),
    }
}

/// What a move of the pointer does to the selection, and the region to show unless that stays the
/// same. A drag selects everything from the pixel that it started on to the one under the pointer.
pub open spec fn next_selection(
    s: Seq<(OutputKey, Monitor)>,
    mouse: MouseState,
    state: SelectState,
    windows: Seq<Window>,
) -> (SelectState, Option<Option<LFRegion>>) {
    match state {
        SelectState::Hovering => next_hover(hovered(s, mouse, windows), None, state, windows),
        SelectState::OverWindow(i) => next_hover(
            hovered(s, mouse, windows),
            Some(i as int),
            state,
            windows,
        ),
        SelectState::Dragging { start_pixel, region, start_time, initial_window } => match mouse.hover {
            None => (state, None),
            Some(hover) => {
                let region = end_pixel(s, hover, mouse.point).hull(start_pixel);
                (
                    SelectState::Dragging { start_pixel, region, start_time, initial_window },
                    Some(Some(region)),
                )
            },
        },
    }
}

/// The monitor has a layer that something can be shown on, and is not absurdly large.
pub open spec fn selectable(o: Output) -> bool {
    &&& o.monitor.wf()
    &&& o.monitor.logical.width <= i32::MAX - 300
    &&& o.monitor.logical.height <= i32::MAX - 300
    &&& o.overlay is Some
    &&& o.overlay->0.sized()
}

/// The window indexes that the selection holds are in range.
pub open spec fn selection_known(state: SelectState, windows: Seq<Window>) -> bool {
    match state {
        SelectState::Hovering => true,
        SelectState::OverWindow(i) => i < windows.len(),
        SelectState::Dragging { initial_window, .. } => initial_window matches Some(i) ==> i
            < windows.len(),
    }
}

/// The monitors that the pointer is on are known.
pub open spec fn hover_known(s: Seq<(OutputKey, Monitor)>, hover: Option<Hover>) -> bool {
    hover matches Some(h) ==> slot_of(s, h.outkey, 0) is Some && slot_of(s, h.corrected, 0) is Some
}

/// The monitor with this key is known, and so is its scale.
pub open spec fn measured(s: Seq<(OutputKey, Monitor)>, key: OutputKey) -> bool {
    slot_of(s, key, 0) matches Some(i) && s[i].1.scale.wf()
}

impl State {
    /// What every event keeps: monitors are ordered by key, each in order, and coordinates are in
    /// range.
    pub open spec fn inv(&self) -> bool {
        &&& forall|i: int, j: int|
            0 <= i < j < self.outputs@.len() ==> (#[trigger] self.outputs@[i]).key.0 < (
            #[trigger] self.outputs@[j]).key.0
        &&& forall|k: int| 0 <= k < self.outputs@.len() ==> (#[trigger] self.outputs@[k]).wf()
        &&& self.mouse.point.within(POINTER_RANGE as int)
        &&& self.status matches Status::Done(s) ==> s.bounded()
        &&& self.select_state matches SelectState::Dragging { start_pixel, region, .. } ==> {
            &&& start_pixel.wf()
            &&& region.wf()
        }
    }

    /// The pointer can be followed: every monitor has its layer, and everything that is referred
    /// to exists.
    pub open spec fn ready_spec(&self) -> bool {
        &&& self.layers_ready()
        &&& hover_known(layout(self.outputs@), self.mouse.hover)
        &&& self.windows_valid()
        &&& selection_known(self.select_state, self.windows@)
    }

    /// Every monitor has a layer that something can be shown on.
    pub open spec fn layers_ready(&self) -> bool {
        forall|k: int| 0 <= k < self.outputs@.len() ==> selectable(#[trigger] self.outputs@[k])
    }

    /// Every window lies in range.
    pub open spec fn windows_valid(&self) -> bool {
        forall|k: int| 0 <= k < self.windows@.len() ==> (#[trigger] self.windows@[k]).wf()
    }

    /// The pointer can leave: the monitor that it is on, if any, has a layer.
    pub open spec fn leavable(&self) -> bool {
        self.mouse.hover matches Some(h) ==> {
            let slot = slot_of(layout(self.outputs@), h.corrected, 0);
            slot is Some && self.outputs@[slot->0].overlay is Some
        }
    }

    /// What is under the pointer can be told: the monitors that it is on are known and, for the
    /// pixel that a drag ends on, measured.
    pub open spec fn trackable(&self) -> bool {
        let s = layout(self.outputs@);
        &&& self.windows_valid()
        &&& self.mouse.hover matches Some(h) ==> if self.select_state is Dragging {
            measured(s, h.outkey) && measured(s, h.corrected)
        } else {
            slot_of(s, h.outkey, 0) is Some
        }
    }

    /// The selection can follow the pointer: what is under it can be told, and the layers are
    /// there if something else is to be shown on them.
    pub open spec fn followable(&self) -> bool {
        &&& self.trackable()
        &&& next_selection(
            layout(self.outputs@),
            self.mouse,
            self.select_state,
            self.windows@,
        ).1 is Some ==> self.layers_ready()
    }

    /// Nothing but the monitors changes.
    pub open spec fn same_but_outputs(&self, other: &Self) -> bool {
        &&& self.mode == other.mode
        &&& self.status == other.status
        &&& self.formats == other.formats
        &&& self.mouse == other.mouse
        &&& self.select_state == other.select_state
        &&& self.windows == other.windows
        &&& self.weird_transforms == other.weird_transforms
    }
}

/// What is at a slot has the key that was looked for.
pub proof fn lemma_slot(s: Seq<(OutputKey, Monitor)>, key: OutputKey, from: int)
    requires
        0 <= from,
    ensures
        slot_of(s, key, from) matches Some(i) ==> from <= i < s.len() && s[i].0 == key,
    decreases s.len() - from,
{
    if from < s.len() && s[from].0 != key {
        lemma_slot(s, key, from + 1);
    }
}

/// A key that is there is found.
pub proof fn lemma_slot_found(s: Seq<(OutputKey, Monitor)>, from: int, at: int)
    requires
        0 <= from <= at < s.len(),
    ensures
        slot_of(s, s[at].0, from) is Some,
    decreases s.len() - from,
{
    if s[from].0 != s[at].0 {
        lemma_slot_found(s, from + 1, at);
    }
}

/// Where the pointer can be followed, the selection can follow it, and it can leave.
pub proof fn lemma_ready(state: &State)
    requires
        state.ready_spec(),
    ensures
        state.followable(),
        state.leavable(),
{
    let s = layout(state.outputs@);
    if let Some(h) = state.mouse.hover {
        lemma_slot(s, h.outkey, 0);
        lemma_slot(s, h.corrected, 0);
        let i = slot_of(s, h.outkey, 0)->0;
        let j = slot_of(s, h.corrected, 0)->0;
        assert(selectable(state.outputs@[i]) && s[i].1 == state.outputs@[i].monitor);
        assert(selectable(state.outputs@[j]) && s[j].1 == state.outputs@[j].monitor);
    }
}

pub proof fn lemma_covering(s: Seq<(OutputKey, Monitor)>, point: LPoint, from: int)
    requires
        0 <= from,
    ensures
        covering(s, point, from) matches Some(i) ==> from <= i < s.len()
            && s[i].1.logical.covers(point),
        nearly_covering(s, point, from) matches Some(i) ==> from <= i < s.len()
            && s[i].1.logical.nearly_covers(point),
    decreases s.len() - from,
{
    if from < s.len() {
        lemma_covering(s, point, from + 1);
    }
}

/// The position of the monitor with this key.
pub(crate) fn find_output(outputs: &Vec<Output>, key: OutputKey) -> (r: Option<usize>)
    ensures
        match r {
            Some(i) => i < outputs@.len() && slot_of(layout(outputs@), key, 0) == Some(i as int)
                && outputs@[i as int].key == key,
            None => slot_of(layout(outputs@), key, 0) is None,
        },
{
    let ghost s = layout(outputs@);
    let mut i: usize = 0;
    while i < outputs.len()
        invariant
            i <= outputs@.len(),
            s == layout(outputs@),
            slot_of(s, key, 0) == slot_of(s, key, i as int),
        decreases outputs@.len() - i,
    {
        if outputs[i].key.0 == key.0 {
            return Some(i);
        }
        i = i + 1;
    }
    None
}

/// The first monitor that covers `point`, or else the first that nearly does.
pub(crate) fn find_monitor(outputs: &Vec<Output>, point: LPoint, lenient: bool) -> (r: Option<usize>)
    requires
        point.wf(),
        forall|k: int| 0 <= k < outputs@.len() ==> (#[trigger] outputs@[k]).monitor.logical.fits(),
    ensures
        match r {
            Some(i) => i < outputs@.len() && (if lenient {
                nearly_covering(layout(outputs@), point, 0)
            } else {
                covering(layout(outputs@), point, 0)
            }) == Some(i as int),
            None => (if lenient {
                nearly_covering(layout(outputs@), point, 0)
            } else {
                covering(layout(outputs@), point, 0)
            }) is None,
        },
{
    let ghost s = layout(outputs@);
    let mut i: usize = 0;
    while i < outputs.len()
        invariant
            i <= outputs@.len(),
            s == layout(outputs@),
            point.wf(),
            forall|k: int|
                0 <= k < outputs@.len() ==> (#[trigger] outputs@[k]).monitor.logical.fits(),
            lenient ==> nearly_covering(s, point, 0) == nearly_covering(s, point, i as int),
            !lenient ==> covering(s, point, 0) == covering(s, point, i as int),
        decreases outputs@.len() - i,
    {
        assert(s[i as int].1 == outputs@[i as int].monitor);
        let hit: bool = if lenient {
            outputs[i].monitor.logical.contains_lenient(point)
        } else {
            outputs[i].monitor.logical.contains(point)
        };
        if hit {
            return Some(i);
        }
        i = i + 1;
    }
    None
}

/// Rounding keeps a coordinate that is at most one pixel outside a side at most one pixel
/// outside.
proof fn lemma_rounded_side(num: int, den: int, side: int)
    requires
        den > 0,
        side >= 0,
        -den <= num <= side * den,
    ensures
        -1 <= round_away(num, den) <= side,
{
    assert(round_div(side * den, den) == side) by {
        assert(2 * (side * den) == side * (2 * den)) by (nonlinear_arith);
        vstd::arithmetic::div_mod::lemma_fundamental_div_mod_converse(
            2 * (side * den) + den,
            2 * den,
            side,
            den,
        );
    }
    assert(round_div(den, den) == 1) by {
        vstd::arithmetic::div_mod::lemma_fundamental_div_mod_converse(3 * den, 2 * den, 1, den);
    }
    if num >= 0 {
        assert(num * den <= (side * den) * den) by (nonlinear_arith)
            requires
                num <= side * den,
                den > 0,
        ;
        lemma_round_monotone(num, den, side * den, den);
        assert(2 * num + den >= 0);
        assert((2 * num + den) / (2 * den) >= 0) by (nonlinear_arith)
            requires
                2 * num + den >= 0,
                den > 0,
        ;
    } else {
        assert(-num * den <= den * den) by (nonlinear_arith)
            requires
                -num <= den,
                den > 0,
        ;
        lemma_round_monotone(-num, den, den, den);
        assert((2 * -num + den) / (2 * den) >= 0) by (nonlinear_arith)
            requires
                2 * -num + den >= 0,
                den > 0,
        ;
    }
}

/// The place for the magnifier next to a point on a monitor, or just outside it, is in range.
proof fn lemma_side_placeable(c: Coord, side: int)
    requires
        c.den > 0,
        -c.den <= c.num,
        c.num < (side + 1) * c.den,
        side <= i32::MAX - 300,
    ensures
        -1 <= round_away(c.num as int, c.den as int) <= i32::MAX - 299,
{
    let d = c.den as int;
    let n = c.num as int;
    if side + 1 >= 0 {
        lemma_rounded_side(n, d, side + 1);
    } else {
        assert((side + 1) * d <= -d) by (nonlinear_arith)
            requires
                side + 1 <= -1,
                d > 0,
        ;
    }
}

/// The point that the pointer is really at is in range, and so is the magnifier next to it.
pub proof fn lemma_located(s: Seq<(OutputKey, Monitor)>, i: int, point: MLPoint)
    requires
        0 <= i < s.len(),
        point.within(POINTER_RANGE as int),
        forall|k: int|
            0 <= k < s.len() ==> (#[trigger] s[k]).1.logical.width <= i32::MAX - 300
                && s[k].1.logical.height <= i32::MAX - 300,
    ensures
        located(s, i, point) matches Some((j, p)) ==> {
            &&& 0 <= j < s.len()
            &&& p.within(LOCAL_RANGE as int)
            &&& placeable(p)
        },
{
    let m = s[i].1;
    let g = m.to_global(point);
    lemma_covering(s, g, 0);
    lemma_plus_within(point.x, m.logical.x as int, POINTER_RANGE as int);
    lemma_plus_within(point.y, m.logical.y as int, POINTER_RANGE as int);
    if let Some((j, p)) = located(s, i, point) {
        let w = s[j].1.logical.width as int;
        let h = s[j].1.logical.height as int;
        let x = s[j].1.logical.x as int;
        let y = s[j].1.logical.y as int;
        if m.logical.holds_mouse(point) {
            assert(p == point && j == i);
            let d = p.x.den as int;
            let e = p.y.den as int;
            assert(w * d <= (w + 1) * d && h * e <= (h + 1) * e) by (nonlinear_arith)
                requires
                    d > 0,
                    e > 0,
            ;
            assert(0 * d == 0 && 0 * e == 0);
        } else {
            lemma_plus_within(g.x, -x, 0x4_8000_0000);
            lemma_plus_within(g.y, -y, 0x4_8000_0000);
            let d = g.x.den as int;
            let e = g.y.den as int;
            if covering(s, g, 0) is Some {
                lemma_covers_near(s[j].1.logical, g);
            }
            assert(s[j].1.logical.nearly_covers(g));
            assert(-x * d == -(x * d) && -y * e == -(y * e)) by (nonlinear_arith);
            assert(2 * x * d == 2 * (x * d) && 2 * y * e == 2 * (y * e)) by (nonlinear_arith);
            assert(2 * (x + w) * d == 2 * (x * d) + 2 * (w * d)) by (nonlinear_arith);
            assert(2 * (y + h) * e == 2 * (y * e) + 2 * (h * e)) by (nonlinear_arith);
            assert((w + 1) * d == w * d + d && (h + 1) * e == h * e + e) by (nonlinear_arith);
        }
        lemma_side_placeable(p.x, w);
        lemma_side_placeable(p.y, h);
        lemma_wide(p.x);
        lemma_wide(p.y);
    }
}

/// A coordinate close to the monitors is in range for a position on one of them.
pub proof fn lemma_wide(c: Coord)
    ensures
        c.within(0x5_0000_0000) ==> c.within(LOCAL_RANGE as int),
        c.within(POINTER_RANGE as int) ==> c.within(LOCAL_RANGE as int),
{
    let d = c.den as int;
    if d > 0 {
        assert(0x5_0000_0000 * d <= 0x10_0000_0000 * d && 0x4_0000_0000 * d <= 0x10_0000_0000 * d);
    }
}

/// A region that covers a point nearly covers it.
proof fn lemma_covers_near(r: LRegion, p: LPoint)
    requires
        r.covers(p),
        p.x.den > 0,
        p.y.den > 0,
    ensures
        r.nearly_covers(p),
{
    let d = p.x.den as int;
    let e = p.y.den as int;
    let x = r.x as int;
    let y = r.y as int;
    let w = r.width as int;
    let h = r.height as int;
    assert(2 * x * d == 2 * (x * d) && 2 * y * e == 2 * (y * e)) by (nonlinear_arith);
    assert(2 * (x + w) * d == 2 * ((x + w) * d)) by (nonlinear_arith);
    assert(2 * (y + h) * e == 2 * ((y + h) * e)) by (nonlinear_arith);
}

/// A monitor is found by its key wherever it stands among the others.
pub proof fn monitors_are_found_by_key(s: Seq<(OutputKey, Monitor)>, key: OutputKey, from: int)
    requires
        0 <= from,
    ensures
        match slot_of(s, key, from) {
            Some(i) => from <= i < s.len() && s[i].0 == key && forall|k: int|
                from <= k < i ==> (#[trigger] s[k]).0 != key,
            None => forall|k: int| from <= k < s.len() ==> (#[trigger] s[k]).0 != key,
        },
    decreases s.len() - from,
{
    if from < s.len() && s[from].0 != key {
        monitors_are_found_by_key(s, key, from + 1);
    }
}

/// The point `p` of the monitor `m` is the point `g` of global logical space.
pub open spec fn same_place(m: Monitor, p: MLPoint, g: LPoint) -> bool {
    &&& p.x.den == g.x.den
    &&& p.y.den == g.y.den
    &&& p.x.num + m.logical.x * p.x.den == g.x.num
    &&& p.y.num + m.logical.y * p.y.den == g.y.num
}

/// The point `g` lies on the monitor `m`, its left and upper edges included.
pub open spec fn lies_on(m: Monitor, g: LPoint) -> bool {
    &&& m.logical.x * g.x.den <= g.x.num
    &&& g.x.num < (m.logical.x + m.logical.width) * g.x.den
    &&& m.logical.y * g.y.den <= g.y.num
    &&& g.y.num < (m.logical.y + m.logical.height) * g.y.den
}

/// The point `g` lies at most half a logical pixel outside the monitor `m`.
pub open spec fn lies_near(m: Monitor, g: LPoint) -> bool {
    &&& (2 * m.logical.x - 1) * g.x.den <= 2 * g.x.num
    &&& 2 * g.x.num < (2 * (m.logical.x + m.logical.width) + 1) * g.x.den
    &&& (2 * m.logical.y - 1) * g.y.den <= 2 * g.y.num
    &&& 2 * g.y.num < (2 * (m.logical.y + m.logical.height) + 1) * g.y.den
}

/// The pointer at `point` of monitor `i`, which is the point `g` of global logical space, is on that
/// monitor if it lies on it. Otherwise it is on the first monitor that it lies on, and if there is
/// none on the first that it lies near. It is the same point there, and it is lost only if it lies
/// near no monitor.
pub proof fn the_pointer_is_followed(s: Seq<(OutputKey, Monitor)>, i: int, point: MLPoint, g: LPoint)
    requires
        0 <= i < s.len(),
        point.within(POINTER_RANGE as int),
        same_place(s[i].1, point, g),
    ensures
        lies_on(s[i].1, g) ==> located(s, i, point) == Some((i, point)),
        !lies_on(s[i].1, g) ==> match located(s, i, point) {
            Some((j, p)) => {
                &&& 0 <= j < s.len()
                &&& same_place(s[j].1, p, g)
                &&& if exists|k: int| 0 <= k < s.len() && lies_on((#[trigger] s[k]).1, g) {
                    lies_on(s[j].1, g) && forall|k: int|
                        0 <= k < j ==> !lies_on((#[trigger] s[k]).1, g)
                } else {
                    lies_near(s[j].1, g) && forall|k: int|
                        0 <= k < j ==> !lies_near((#[trigger] s[k]).1, g)
                }
            },
            None => forall|k: int|
                0 <= k < s.len() ==> !lies_on((#[trigger] s[k]).1, g) && !lies_near(s[k].1, g),
        },
{
    let m = s[i].1;
    lemma_plus_within(point.x, m.logical.x as int, POINTER_RANGE as int);
    lemma_plus_within(point.y, m.logical.y as int, POINTER_RANGE as int);
    assert(m.to_global(point) == g);
    lemma_wide(point.x);
    lemma_wide(point.y);
    crate::pixels::valid_mouse_is_contained(&m, point);
    lemma_first_covering(s, g, 0);
    if let Some((j, p)) = located(s, i, point) {
        if !lies_on(m, g) {
            let l = s[j].1.logical;
            lemma_plus_within(g.x, -l.x, 0x4_8000_0000);
            lemma_plus_within(g.y, -l.y, 0x4_8000_0000);
            let d = g.x.den as int;
            let e = g.y.den as int;
            let x = l.x as int;
            let y = l.y as int;
            assert(-x * d == -(x * d) && -y * e == -(y * e)) by (nonlinear_arith);
        }
    }
}

/// The first monitors that a point lies on and near are the ones that are looked for.
proof fn lemma_first_covering(s: Seq<(OutputKey, Monitor)>, g: LPoint, from: int)
    requires
        0 <= from,
        g.x.den > 0,
        g.y.den > 0,
    ensures
        match covering(s, g, from) {
            Some(j) => from <= j < s.len() && lies_on(s[j].1, g) && forall|k: int|
                from <= k < j ==> !lies_on((#[trigger] s[k]).1, g),
            None => forall|k: int| from <= k < s.len() ==> !lies_on((#[trigger] s[k]).1, g),
        },
        match nearly_covering(s, g, from) {
            Some(j) => from <= j < s.len() && lies_near(s[j].1, g) && forall|k: int|
                from <= k < j ==> !lies_near((#[trigger] s[k]).1, g),
            None => forall|k: int| from <= k < s.len() ==> !lies_near((#[trigger] s[k]).1, g),
        },
    decreases s.len() - from,
{
    if from < s.len() {
        lemma_first_covering(s, g, from + 1);
        let l = s[from].1.logical;
        let d = g.x.den as int;
        let e = g.y.den as int;
        let x = l.x as int;
        let y = l.y as int;
        let u = x + l.width;
        let v = y + l.height;
        assert((2 * x - 1) * d == 2 * x * d - d && (2 * y - 1) * e == 2 * y * e - e && (2 * u + 1)
            * d == 2 * u * d + d && (2 * v + 1) * e == 2 * v * e + e) by (nonlinear_arith);
    }
}

/// While nothing is dragged, the first window that the pointer lies in is highlighted, wherever on
/// which monitor the pointer is, and no other. Something else is shown only if that changes.
pub proof fn the_window_under_the_pointer_is_highlighted(
    s: Seq<(OutputKey, Monitor)>,
    mouse: MouseState,
    state: SelectState,
    windows: Seq<Window>,
    i: int,
    g: LPoint,
)
    requires
        !(state is Dragging),
        windows.len() <= usize::MAX,
        0 <= i < s.len(),
        mouse.hover matches Some(h) && s[i].0 == h.outkey,
        forall|k: int| 0 <= k < i ==> (#[trigger] s[k]).0 != s[i].0,
        mouse.point.within(POINTER_RANGE as int),
        same_place(s[i].1, mouse.point, g),
    ensures
        ({
            let (post, redraw) = next_selection(s, mouse, state, windows);
            match post {
                SelectState::OverWindow(w) => {
                    &&& w < windows.len()
                    &&& lies_in(windows[w as int], g.x, g.y)
                    &&& forall|k: int| 0 <= k < w ==> !lies_in(#[trigger] windows[k], g.x, g.y)
                    &&& state == post ==> redraw is None
                    &&& state != post ==> (redraw matches Some(Some(r)) && {
                        let c = windows[w as int].region_spec();
                        &&& r.left.num == c.x && r.left.den == 1
                        &&& r.top.num == c.y && r.top.den == 1
                        &&& r.right.num == c.x + c.width && r.right.den == 1
                        &&& r.bottom.num == c.y + c.height && r.bottom.den == 1
                    })
                },
                _ => {
                    &&& post is Hovering
                    &&& forall|k: int|
                        0 <= k < windows.len() ==> !lies_in(#[trigger] windows[k], g.x, g.y)
                    &&& state is Hovering ==> redraw is None
                    &&& !(state is Hovering) ==> redraw == Some(None::<LFRegion>)
                },
            }
        }),
{
    let m = s[i].1;
    monitors_are_found_by_key(s, s[i].0, 0);
    assert(slot_of(s, s[i].0, 0) == Some(i));
    lemma_plus_within(mouse.point.x, m.logical.x as int, POINTER_RANGE as int);
    lemma_plus_within(mouse.point.y, m.logical.y as int, POINTER_RANGE as int);
    assert(m.to_global(mouse.point) == g);
    the_first_window_under_a_point_is_found(windows, g);
}

/// A pointer that is on no monitor highlights no window, and moves the end of no drag.
pub proof fn nothing_is_selected_off_the_monitors(
    s: Seq<(OutputKey, Monitor)>,
    mouse: MouseState,
    state: SelectState,
    windows: Seq<Window>,
)
    requires
        mouse.hover is None,
    ensures
        ({
            let (post, redraw) = next_selection(s, mouse, state, windows);
            &&& state is Dragging ==> post == state && redraw is None
            &&& !(state is Dragging) ==> post is Hovering
        }),
{
}

/// The pixel that a drag reaches contains the pointer: monitor `i` is the one that the pointer
/// entered and `j` the one that it is on, and the pixel is as large as those of the latter.
pub proof fn drags_end_on_the_pixel_under_the_pointer(
    s: Seq<(OutputKey, Monitor)>,
    hover: Hover,
    point: MLPoint,
    i: int,
    j: int,
    g: LPoint,
)
    requires
        0 <= i < s.len(),
        0 <= j < s.len(),
        s[i].0 == hover.outkey,
        s[j].0 == hover.corrected,
        forall|k: int| 0 <= k < i ==> (#[trigger] s[k]).0 != s[i].0,
        forall|k: int| 0 <= k < j ==> (#[trigger] s[k]).0 != s[j].0,
        s[j].1.scale.wf(),
        point.within(POINTER_RANGE as int),
        same_place(s[i].1, point, g),
    ensures
        ({
            let pixel = end_pixel(s, hover, point);
            let scale = s[j].1.scale;
            &&& at_most(pixel.left, g.x) && !at_most(pixel.right, g.x)
            &&& at_most(pixel.top, g.y) && !at_most(pixel.bottom, g.y)
            &&& pixel.left.den == scale.num && pixel.right.den == scale.num
            &&& pixel.top.den == scale.num && pixel.bottom.den == scale.num
            &&& pixel.right.num - pixel.left.num == scale.den
            &&& pixel.bottom.num - pixel.top.num == scale.den
        }),
{
    let m = s[i].1;
    let c = s[j].1;
    monitors_are_found_by_key(s, s[i].0, 0);
    monitors_are_found_by_key(s, s[j].0, 0);
    assert(slot_of(s, hover.outkey, 0) == Some(i));
    assert(slot_of(s, hover.corrected, 0) == Some(j));
    lemma_plus_within(point.x, m.logical.x as int, POINTER_RANGE as int);
    lemma_plus_within(point.y, m.logical.y as int, POINTER_RANGE as int);
    assert(m.to_global(point) == g);
    lemma_wide(point.x);
    lemma_wide(point.y);
    let local = if hover.corrected == hover.outkey {
        point
    } else {
        c.to_local(g)
    };
    lemma_plus_within(g.x, -c.logical.x, 0x4_8000_0000);
    lemma_plus_within(g.y, -c.logical.y, 0x4_8000_0000);
    lemma_wide(local.x);
    lemma_wide(local.y);
    lemma_plus_within(local.x, c.logical.x as int, LOCAL_RANGE as int);
    lemma_plus_within(local.y, c.logical.y as int, LOCAL_RANGE as int);
    let d = g.x.den as int;
    let e = g.y.den as int;
    let x = c.logical.x as int;
    let y = c.logical.y as int;
    assert(-x * d == -(x * d) && -y * e == -(y * e)) by (nonlinear_arith);
    assert(c.to_global(local) == g);
    crate::pixels::pixel_bounds_contain_the_point(&c, local);
    crate::util::pixels_have_the_size_of_the_scale(&c, local);
}

/// A drag selects the smallest region that holds both the pixel that it started on and the one that
/// it has reached: each of its edges is that of one of the two and lies no further in than that of
/// the other. The start of the drag does not change.
pub proof fn drags_hold_both_ends(
    s: Seq<(OutputKey, Monitor)>,
    mouse: MouseState,
    state: SelectState,
    windows: Seq<Window>,
)
    requires
        state is Dragging,
        mouse.hover is Some,
        state->start_pixel.wf(),
        end_pixel(s, mouse.hover->0, mouse.point).wf(),
    ensures
        ({
            let (post, redraw) = next_selection(s, mouse, state, windows);
            let a = state->start_pixel;
            let b = end_pixel(s, mouse.hover->0, mouse.point);
            &&& post matches SelectState::Dragging {
                start_pixel,
                region: r,
                start_time,
                initial_window,
            }
            &&& start_pixel == a
            &&& start_time == state->start_time
            &&& initial_window == state->initial_window
            &&& redraw == Some(Some(r))
            &&& (r.left == a.left || r.left == b.left) && at_most(r.left, a.left) && at_most(
                r.left,
                b.left,
            )
            &&& (r.top == a.top || r.top == b.top) && at_most(r.top, a.top) && at_most(r.top, b.top)
            &&& (r.right == a.right || r.right == b.right) && at_most(a.right, r.right) && at_most(
                b.right,
                r.right,
            )
            &&& (r.bottom == a.bottom || r.bottom == b.bottom) && at_most(a.bottom, r.bottom)
                && at_most(b.bottom, r.bottom)
        }),
{
    shared_and_enclosing_regions(end_pixel(s, mouse.hover->0, mouse.point), state->start_pixel);
}

/// The layout of the monitors gives each its key and where it lies, in their order.
pub proof fn layouts_keep_keys_and_places(outputs: Seq<Output>)
    ensures
        layout(outputs).len() == outputs.len(),
        forall|k: int|
            0 <= k < outputs.len() ==> (#[trigger] layout(outputs)[k]).0 == outputs[k].key && layout(
                outputs,
            )[k].1 == outputs[k].monitor,
{
}

} // verus!

//! What buttons and keys do.

use vstd::prelude::*;

use crate::coord::{floor_div, LOCAL_RANGE};
use crate::util::{
    find_window, lemma_window_under, pixel_index, window_under, LFRegion, MLPoint, Monitor,
};
use crate::wayland::pointer::updated;
use crate::wayland::setup::rank;
use crate::wayland::state::{
    end_pixel, find_output, hovered, layout, lemma_wide, measured, slot_of, BoxResult,
    State, StateError,
};
use crate::wayland::{Mode, MouseState, OutputKey, SelectState, Selected, Status};

verus! {

/// The left mouse button.
pub const BTN_LEFT: u32 = 0x110;

/// The right mouse button.
pub const BTN_RIGHT: u32 = 0x111;

/// A press that takes at most this many milliseconds is a click.
pub const CLICK_TIME_MS: u32 = 100;

/// Whether a button went down or up.
#[derive(Debug, Clone, Copy, PartialEq, Eq, Structural)]
pub enum ButtonState {
    Pressed,
    Released,
    Other,
}

/// What a key does.
#[derive(Debug, Clone, Copy, PartialEq, Eq, Structural)]
pub enum KeyAction {
    /// Ends the run.
    Cancel,
    /// Selects the highlighted window.
    Pick,
    /// Gives up what was dragged.
    CancelDrag,
    /// Starts or ends a drag.
    Toggle,
    /// Moves the pointer by this many pixels.
    Move(i32, i32),
    Other,
}

/// What is left to do after a key.
#[derive(Debug, Clone, Copy, PartialEq, Eq, Structural)]
pub enum KeyStep {
    Nothing,
    /// The pointer is to be moved to this point of the surface that it entered, in 1/256 pixels.
    Warp { x: i32, y: i32 },
}

/// The milliseconds from `start` to `time`. Times start again at zero when they no longer fit.
pub open spec fn elapsed(start: u32, time: u32) -> int {
    if time >= start {
        time - start
    } else {
        time - start + 0x1_0000_0000
    }
}

/// Window `i` is selected.
pub open spec fn chosen(pre: &State, i: int, post: &State) -> bool {
    &&& *post == (State { status: post.status, windows: post.windows, ..*pre })
    &&& post.status == Status::Done(Selected::Window(pre.windows@[i]))
    &&& post.windows@ == pre.windows@.update(i, pre.windows@.last()).drop_last()
}

/// A drag starts on the pixel under the pointer, unless the pointer is on no monitor or moved off
/// the one that it entered.
pub open spec fn started(pre: &State, time: u32, initial_window: Option<usize>, post: &State) -> bool {
    match pre.mouse.hover {
        None => *post == *pre,
        Some(hover) => if hover.outkey != hover.corrected {
            *post == *pre
        } else {
            let s = layout(pre.outputs@);
            let pixel = s[slot_of(s, hover.outkey, 0)->0].1.pixel_bounds(pre.mouse.point);
            *post == (State {
                select_state: SelectState::Dragging {
                    start_pixel: pixel,
                    region: pixel,
                    start_time: time,
                    initial_window,
                },
                ..*pre
            })
        },
    }
}

/// `region` is selected, with the window under its centre if there is one.
pub open spec fn finished(pre: &State, region: LFRegion, post: &State) -> bool {
    &&& *post == (State { status: post.status, windows: post.windows, ..*pre })
    &&& match window_under(pre.windows@, region.centre_spec(), 0) {
        Some(i) => {
            &&& post.status == Status::Done(Selected::RegionWindow(region, pre.windows@[i]))
            &&& post.windows@ == pre.windows@.remove(i)
        },
        None => {
            &&& post.status == Status::Done(Selected::Region(region))
            &&& post.windows@ == pre.windows@
        },
    }
}

/// The left button went down: a window to be picked is picked, a region starts to be dragged.
pub open spec fn pressed(pre: &State, time: u32, post: &State) -> bool {
    match (pre.select_state, pre.mode) {
        (_, Mode::ScreenshotOnly) => *post == *pre,
        (SelectState::Dragging { .. }, _) => *post == *pre,
        (SelectState::Hovering, Mode::PickWindow) => *post == *pre,
        (SelectState::OverWindow(i), Mode::PickWindow) => chosen(pre, i as int, post),
        (SelectState::Hovering, Mode::Region) => started(pre, time, None, post),
        (SelectState::OverWindow(i), Mode::Region) => started(pre, time, Some(i), post),
    }
}

/// The left button went up: a click selects the window that it started on, a drag the region.
pub open spec fn released(
    pre: &State,
    time: u32,
    post: &State,
    boxes: Seq<(OutputKey, BoxResult)>,
) -> bool {
    match pre.select_state {
        SelectState::Dragging { region, start_time, initial_window, .. } => if elapsed(
            start_time,
            time,
        ) <= CLICK_TIME_MS {
            match initial_window {
                Some(i) => chosen(pre, i as int, post) && boxes.len() == 0,
                None => updated(
                    &(State { select_state: SelectState::Hovering, ..*pre }),
                    post,
                    boxes,
                ),
            }
        } else {
            finished(pre, region, post) && boxes.len() == 0
        },
        _ => *post == *pre && boxes.len() == 0,
    }
}

/// A drag is given up.
pub open spec fn drag_cancelled(pre: &State, post: &State) -> bool {
    *post == if pre.select_state is Dragging {
        State { select_state: SelectState::Hovering, ..*pre }
    } else {
        *pre
    }
}

/// Window `i` can be selected.
pub open spec fn choosable(state: &State, i: int) -> bool {
    0 <= i < state.windows@.len() && state.windows@[i].wf()
}

/// The pixel under the pointer can be told, if the pointer is on the monitor that it entered.
pub open spec fn pixel_known(state: &State) -> bool {
    state.mouse.hover matches Some(h) ==> h.outkey == h.corrected ==> measured(
        layout(state.outputs@),
        h.outkey,
    )
}

/// The left button can go down: the window to be picked is there, or the pixel that a drag starts
/// on can be told.
pub open spec fn pressable(state: &State) -> bool {
    match (state.select_state, state.mode) {
        (_, Mode::ScreenshotOnly) => true,
        (SelectState::Dragging { .. }, _) => true,
        (SelectState::Hovering, Mode::PickWindow) => true,
        (SelectState::OverWindow(i), Mode::PickWindow) => choosable(state, i as int),
        (_, Mode::Region) => pixel_known(state),
    }
}

/// The left button can go up: the window that was clicked or the windows to choose from are there
/// and, after a click outside of them, the selection can follow the pointer.
pub open spec fn releasable(state: &State, time: u32) -> bool {
    match state.select_state {
        SelectState::Dragging { start_time, initial_window, .. } => if elapsed(start_time, time)
            <= CLICK_TIME_MS {
            match initial_window {
                Some(i) => choosable(state, i as int),
                None => (State { select_state: SelectState::Hovering, ..*state }).followable(),
            }
        } else {
            state.windows_valid()
        },
        _ => true,
    }
}

/// A button can be acted upon. Only the left one asks for anything.
pub open spec fn clickable(
    state: &State,
    time: u32,
    button: u32,
    action: ButtonState,
    shift: bool,
) -> bool {
    &&& button == BTN_LEFT && action == ButtonState::Pressed ==> pressable(state)
    &&& button == BTN_LEFT && action == ButtonState::Released && !shift ==> releasable(state, time)
}

/// What a key does; without a keymap every key ends the run.
pub open spec fn key_action(keysym: Option<u32>) -> KeyAction {
    match keysym {
        None => KeyAction::Cancel,
        Some(k) => action_spec(k),
    }
}

/// A key can be acted upon.
pub open spec fn typable(state: &State, keysym: Option<u32>) -> bool {
    match key_action(keysym) {
        KeyAction::Pick => state.select_state matches SelectState::OverWindow(i) ==> choosable(
            state,
            i as int,
        ),
        KeyAction::Toggle => if state.select_state is Dragging {
            state.windows_valid()
        } else {
            state.mode == Mode::Region ==> pressable(state)
        },
        KeyAction::Move(_, _) => pixel_known(state),
        _ => true,
    }
}

/// What the key with this symbol does.
pub open spec fn action_spec(keysym: u32) -> KeyAction {
    // Escape, Q, q
    if keysym == 0xff1b || keysym == 0x51 || keysym == 0x71 {
        KeyAction::Cancel
    } else if keysym == 0x50 || keysym == 0x70 {
        // P, p
        KeyAction::Pick
    } else if keysym == 0xff08 {
        // BackSpace
        KeyAction::CancelDrag
    } else if keysym == 0xff0d || keysym == 0xff8d || keysym == 0x20 || keysym == 0xffb5 || keysym
        == 0xff9d {
        // Return, KP_Enter, space, KP_5, KP_Begin
        KeyAction::Toggle
    } else if keysym == 0xff51 || keysym == 0xff96 || keysym == 0xffb4 {
        // Left, KP_Left, KP_4
        KeyAction::Move(-1i32, 0)
    } else if keysym == 0xff52 || keysym == 0xff97 || keysym == 0xffb8 {
        // Up, KP_Up, KP_8
        KeyAction::Move(0, -1i32)
    } else if keysym == 0xff53 || keysym == 0xff98 || keysym == 0xffb6 {
        // Right, KP_Right, KP_6
        KeyAction::Move(1, 0)
    } else if keysym == 0xff54 || keysym == 0xff99 || keysym == 0xffb2 {
        // Down, KP_Down, KP_2
        KeyAction::Move(0, 1)
    } else if keysym == 0xff95 || keysym == 0xffb7 {
        // KP_Home, KP_7
        KeyAction::Move(-1i32, -1i32)
    } else if keysym == 0xff9a || keysym == 0xffb9 {
        // KP_Page_Up, KP_9
        KeyAction::Move(1, -1i32)
    } else if keysym == 0xff9c || keysym == 0xffb1 {
        // KP_End, KP_1
        KeyAction::Move(-1i32, 1)
    } else if keysym == 0xff9b || keysym == 0xffb3 {
        // KP_Page_Down, KP_3
        KeyAction::Move(1, 1)
    } else {
        KeyAction::Other
    }
}

impl KeyAction {
    /// What the key with this symbol does.
    pub fn of(keysym: u32) -> (r: Self)
        ensures
            r == action_spec(keysym),
    {
        match keysym {
            0xff1b | 0x51 | 0x71 => KeyAction::Cancel,
            0x50 | 0x70 => KeyAction::Pick,
            0xff08 => KeyAction::CancelDrag,
            0xff0d | 0xff8d | 0x20 | 0xffb5 | 0xff9d => KeyAction::Toggle,
            0xff51 | 0xff96 | 0xffb4 => KeyAction::Move(-1, 0),
            0xff52 | 0xff97 | 0xffb8 => KeyAction::Move(0, -1),
            0xff53 | 0xff98 | 0xffb6 => KeyAction::Move(1, 0),
            0xff54 | 0xff99 | 0xffb2 => KeyAction::Move(0, 1),
            0xff95 | 0xffb7 => KeyAction::Move(-1, -1),
            0xff9a | 0xffb9 => KeyAction::Move(1, -1),
            0xff9c | 0xffb1 => KeyAction::Move(-1, 1),
            0xff9b | 0xffb3 => KeyAction::Move(1, 1),
            _ => KeyAction::Other,
        }
    }
}

/// The middle of physical pixel `index`, in 1/256 logical pixels, rounded down.
pub open spec fn pixel_middle(index: int, m: &Monitor) -> int {
    (128 * ((2 * index + 1) * m.scale.den)) / m.scale.num as int
}

/// The physical pixel that a position in 1/256 logical pixels lies on.
pub open spec fn pixel_of(at: int, m: &Monitor) -> int {
    (at * m.scale.num) / (256 * m.scale.den)
}

/// The position, in 1/256 logical pixels, for physical pixel `index`: its middle, rounded down, or
/// up if rounding down leaves the pixel.
pub open spec fn pixel_position(index: int, m: &Monitor) -> int {
    let middle = pixel_middle(index, m);
    if pixel_of(middle, m) == index {
        middle
    } else {
        middle + 1
    }
}

/// Where the pointer goes when it is moved by `(dx, dy)` physical pixels: the middle of that
/// pixel, if it lies on the monitor and can be expressed.
pub open spec fn warp_spec(m: &Monitor, point: MLPoint, dx: int, dy: int) -> KeyStep {
    let x = pixel_index(point.x, m.scale) + dx;
    let y = pixel_index(point.y, m.scale) + dy;
    let u = pixel_position(x, m);
    let v = pixel_position(y, m);
    if 0 <= x < m.physical.width && 0 <= y < m.physical.height && u <= i32::MAX && v <= i32::MAX {
        KeyStep::Warp { x: u as i32, y: v as i32 }
    } else {
        KeyStep::Nothing
    }
}

/// A position lies on a pixel if it lies between its edges.
proof fn lemma_pixel_of(at: int, index: int, m: &Monitor)
    requires
        m.scale.wf(),
    ensures
        pixel_of(at, m) == index <==> 256 * (index * m.scale.den) <= at * m.scale.num < 256 * (index
            * m.scale.den) + 256 * m.scale.den,
{
    let d = 256 * m.scale.den;
    let a = at * m.scale.num;
    assert(256 * (index * m.scale.den) == index * d) by (nonlinear_arith)
        requires
            d == 256 * m.scale.den,
    ;
    if index * d <= a < index * d + d {
        vstd::arithmetic::div_mod::lemma_fundamental_div_mod_converse(a, d, index, a - index * d);
    }
    if a / d == index {
        vstd::arithmetic::div_mod::lemma_fundamental_div_mod(a, d);
        vstd::arithmetic::div_mod::lemma_mod_bound(a, d);
        assert(d * index == index * d) by (nonlinear_arith);
    }
}

/// The position for a pixel lies on it, if any does.
proof fn lemma_position(index: int, m: &Monitor, at: int)
    requires
        m.scale.wf(),
        0 <= index,
        pixel_of(at, m) == index,
    ensures
        pixel_of(pixel_position(index, m), m) == index,
{
    let n = m.scale.num as int;
    let d = m.scale.den as int;
    let a = 128 * ((2 * index + 1) * d);
    let q = a / n;
    vstd::arithmetic::div_mod::lemma_fundamental_div_mod(a, n);
    vstd::arithmetic::div_mod::lemma_mod_bound(a, n);
    assert(q * n == n * q) by (nonlinear_arith);
    assert((q + 1) * n == q * n + n) by (nonlinear_arith);
    assert(a == 256 * (index * d) + 128 * d) by (nonlinear_arith)
        requires
            a == 128 * ((2 * index + 1) * d),
    ;
    lemma_pixel_of(q, index, m);
    lemma_pixel_of(q + 1, index, m);
    lemma_pixel_of(at, index, m);
    if pixel_of(q, m) != index {
        assert(q * n < at * n);
        assert(q + 1 <= at) by (nonlinear_arith)
            requires
                q * n < at * n,
                n > 0,
        ;
        assert((q + 1) * n <= at * n) by (nonlinear_arith)
            requires
                q + 1 <= at,
                n > 0,
        ;
    }
}

/// An arrow key moves the pointer by exactly one physical pixel: the point that it is moved to
/// lies on the pixel next to the one that it was on, if any position in 1/256 logical pixels does.
/// Here `(at_x, at_y)` is one.
pub proof fn arrows_move_one_pixel(
    m: &Monitor,
    point: MLPoint,
    dx: int,
    dy: int,
    at_x: int,
    at_y: int,
)
    requires
        m.scale.wf(),
        pixel_of(at_x, m) == pixel_index(point.x, m.scale) + dx,
        pixel_of(at_y, m) == pixel_index(point.y, m.scale) + dy,
    ensures
        warp_spec(m, point, dx, dy) matches KeyStep::Warp { x, y } ==> {
            let target = MLPoint {
                x: crate::coord::Coord { num: x as i128, den: 256 },
                y: crate::coord::Coord { num: y as i128, den: 256 },
            };
            &&& pixel_index(target.x, m.scale) == pixel_index(point.x, m.scale) + dx
            &&& pixel_index(target.y, m.scale) == pixel_index(point.y, m.scale) + dy
        },
{
    let x = pixel_index(point.x, m.scale) + dx;
    let y = pixel_index(point.y, m.scale) + dy;
    if 0 <= x < m.physical.width && 0 <= y < m.physical.height {
        lemma_position(x, m, at_x);
        lemma_position(y, m, at_y);
        lemma_middle_positive(x, m);
        lemma_middle_positive(y, m);
    }
}

/// Every pixel has positions on it, if no more than 256 of them make up a logical pixel.
pub proof fn fine_pixels_are_reached(index: int, m: &Monitor)
    requires
        m.scale.wf(),
        m.scale.num <= 256 * m.scale.den,
        0 <= index,
    ensures
        pixel_of(pixel_position(index, m), m) == index,
{
    let n = m.scale.num as int;
    let d = m.scale.den as int;
    let a = 256 * (index * d) + 256 * d - 1;
    let q = a / n;
    vstd::arithmetic::div_mod::lemma_fundamental_div_mod(a, n);
    vstd::arithmetic::div_mod::lemma_mod_bound(a, n);
    assert(q * n == n * q) by (nonlinear_arith);
    lemma_pixel_of(q, index, m);
    lemma_position(index, m, q);
}

proof fn lemma_middle_positive(index: int, m: &Monitor)
    requires
        m.scale.wf(),
        0 <= index,
    ensures
        pixel_middle(index, m) >= 0,
        0 <= (2 * index + 1) * m.scale.den,
        index <= 0x7fff_ffff ==> (2 * index + 1) * m.scale.den <= 0x8000_0000_0000_0000,
{
    let d = m.scale.den as int;
    let n = m.scale.num as int;
    assert(0 <= (2 * index + 1) * d) by (nonlinear_arith)
        requires
            0 <= index,
            0 < d,
    ;
    let a = 128 * ((2 * index + 1) * d);
    assert(a / n >= 0) by (nonlinear_arith)
        requires
            a >= 0,
            n > 0,
    ;
    if index <= 0x7fff_ffff {
        assert((2 * index + 1) * d <= 0x8000_0000_0000_0000) by (nonlinear_arith)
            requires
                0 <= index <= 0x7fff_ffff,
                0 < d <= 0x8000_0000,
        ;
    }
}

/// The middle of a pixel is in range.
proof fn lemma_middle_bound(index: int, m: &Monitor)
    requires
        m.scale.wf(),
        0 <= index <= 0x7fff_ffff,
    ensures
        0 <= pixel_middle(index, m) * m.scale.num <= 0x40_0000_0000_0000_0000,
        pixel_middle(index, m) <= 0x40_0000_0000_0000_0000,
{
    let n = m.scale.num as int;
    let a = 128 * ((2 * index + 1) * m.scale.den);
    let q = a / n;
    lemma_middle_positive(index, m);
    vstd::arithmetic::div_mod::lemma_fundamental_div_mod(a, n);
    vstd::arithmetic::div_mod::lemma_mod_bound(a, n);
    assert(q * n == n * q) by (nonlinear_arith);
    assert(0 <= q <= q * n) by (nonlinear_arith)
        requires
            q >= 0,
            n >= 1,
    ;
}

/// The position, in 1/256 logical pixels, for physical pixel `index`.
fn position(index: i128, m: &Monitor) -> (r: i128)
    requires
        m.scale.wf(),
        0 <= index <= 0x7fff_ffff,
    ensures
        r == pixel_position(index as int, m),
{
    let den: i128 = m.scale.den as i128;
    let num: i128 = m.scale.num as i128;
    proof {
        lemma_middle_positive(index as int, m);
        lemma_middle_bound(index as int, m);
    }
    let middle: i128 = floor_div(128 * ((2 * index + 1) * den), num);
    if floor_div(middle * num, 256 * den) == index {
        middle
    } else {
        middle + 1
    }
}

/// Where the pointer goes when it is moved by `(dx, dy)` physical pixels.
fn warp(m: &Monitor, point: MLPoint, dx: i32, dy: i32) -> (r: KeyStep)
    requires
        m.scale.wf(),
        point.within(LOCAL_RANGE as int),
        -1 <= dx <= 1,
        -1 <= dy <= 1,
    ensures
        r == warp_spec(m, point, dx as int, dy as int),
{
    let (px, py) = m.pixel_at(point);
    let x: i128 = px + dx as i128;
    let y: i128 = py + dy as i128;
    if x < 0 || x >= m.physical.width as i128 || y < 0 || y >= m.physical.height as i128 {
        return KeyStep::Nothing;
    }
    let u: i128 = position(x, m);
    let v: i128 = position(y, m);
    if u <= 0x7fff_ffff && v <= 0x7fff_ffff {
        KeyStep::Warp { x: u as i32, y: v as i32 }
    } else {
        KeyStep::Nothing
    }
}

impl State {
    /// Selects window `i`.
    fn choose_window(&mut self, i: usize)
        requires
            old(self).inv(),
            i < old(self).windows@.len(),
            old(self).windows@[i as int].wf(),
        ensures
            final(self).inv(),
            chosen(old(self), i as int, final(self)),
    {
        let window = self.windows.swap_remove(i);
        self.status = Status::Done(Selected::Window(window));
    }

    /// Starts a drag on the pixel under the pointer.
    fn start_drag(&mut self, time: u32, initial_window: Option<usize>)
        requires
            old(self).inv(),
            pixel_known(old(self)),
        ensures
            final(self).inv(),
            started(old(self), time, initial_window, final(self)),
    {
        let hover = match self.mouse.hover {
            None => {
                return;
            },
            Some(h) => h,
        };
        if hover.outkey.0 != hover.corrected.0 {
            return;
        }
        let ghost s = layout(self.outputs@);
        let i: usize = find_output(&self.outputs, hover.outkey).unwrap();
        proof {
            lemma_wide(self.mouse.point.x);
            lemma_wide(self.mouse.point.y);
            assert(s[i as int].1 == self.outputs@[i as int].monitor);
        }
        let start_pixel = self.outputs[i].monitor.global_pixel_bounds(self.mouse.point);
        self.select_state = SelectState::Dragging {
            start_pixel,
            region: start_pixel,
            start_time: time,
            initial_window,
        };
    }

    /// Selects `region`, with the window under its centre if there is one.
    fn finish_drag(&mut self, region: LFRegion)
        requires
            old(self).inv(),
            old(self).windows_valid(),
            region.wf(),
        ensures
            final(self).inv(),
            finished(old(self), region, final(self)),
    {
        proof {
            lemma_window_under(self.windows@, region.centre_spec(), 0);
        }
        let found = region.best_window(&mut self.windows);
        self.status = Status::Done(
            match found {
                Some(window) => Selected::RegionWindow(region, window),
                None => Selected::Region(region),
            },
        );
    }

    /// The left button went down.
    fn press(&mut self, time: u32)
        requires
            old(self).inv(),
            pressable(old(self)),
        ensures
            final(self).inv(),
            pressed(old(self), time, final(self)),
    {
        match (self.select_state, self.mode) {
            (_, Mode::ScreenshotOnly) => {},
            (SelectState::Dragging { .. }, _) => {},
            (SelectState::Hovering, Mode::PickWindow) => {},
            (SelectState::OverWindow(i), Mode::PickWindow) => self.choose_window(i),
            (SelectState::Hovering, Mode::Region) => self.start_drag(time, None),
            (SelectState::OverWindow(i), Mode::Region) => self.start_drag(time, Some(i)),
        }
    }

    /// The left button went up.
    fn release(&mut self, time: u32) -> (r: Vec<(OutputKey, BoxResult)>)
        requires
            old(self).inv(),
            releasable(old(self), time),
        ensures
            final(self).inv(),
            released(old(self), time, final(self), r@),
    {
        match self.select_state {
            SelectState::Dragging { start_pixel: _, region, start_time, initial_window } => {
                if time.wrapping_sub(start_time) <= CLICK_TIME_MS {
                    match initial_window {
                        Some(i) => {
                            self.choose_window(i);
                            Vec::new()
                        },
                        None => {
                            self.select_state = SelectState::Hovering;
                            self.update_overlay()
                        },
                    }
                } else {
                    self.finish_drag(region);
                    Vec::new()
                }
            },
            _ => Vec::new(),
        }
    }

    /// A mouse button went down or up. The right one gives up a drag; the left one picks a window
    /// or drags a region, which it does not end while `shift` is held.
    pub fn pointer_button(&mut self, time: u32, button: u32, state: ButtonState, shift: bool) -> (r:
        Vec<(OutputKey, BoxResult)>)
        requires
            old(self).inv(),
            clickable(old(self), time, button, state, shift),
        ensures
            final(self).inv(),
            if button == BTN_RIGHT {
                drag_cancelled(old(self), final(self)) && r@.len() == 0
            } else if button != BTN_LEFT {
                *final(self) == *old(self) && r@.len() == 0
            } else if state == ButtonState::Pressed {
                pressed(old(self), time, final(self)) && r@.len() == 0
            } else if state == ButtonState::Released && !shift {
                released(old(self), time, final(self), r@)
            } else {
                *final(self) == *old(self) && r@.len() == 0
            },
    {
        if button == BTN_RIGHT {
            self.cancel_drag();
            return Vec::new();
        }
        if button != BTN_LEFT {
            return Vec::new();
        }
        match state {
            ButtonState::Pressed => {
                self.press(time);
                Vec::new()
            },
            ButtonState::Released => if shift {
                Vec::new()
            } else {
                self.release(time)
            },
            ButtonState::Other => Vec::new(),
        }
    }

    /// Whether window `i` can be selected.
    fn can_choose(&self, i: usize) -> (r: bool)
        ensures
            r == choosable(self, i as int),
    {
        i < self.windows.len() && self.windows[i].valid()
    }

    /// Whether the pixel under the pointer can be told.
    fn knows_pixel(&self) -> (r: bool)
        ensures
            r == pixel_known(self),
    {
        match self.mouse.hover {
            None => true,
            Some(h) => if h.outkey.0 != h.corrected.0 {
                true
            } else {
                match find_output(&self.outputs, h.outkey) {
                    None => false,
                    Some(i) => {
                        assert(layout(self.outputs@)[i as int].1 == self.outputs@[i as int].monitor);
                        self.outputs[i].monitor.scale.valid()
                    },
                }
            },
        }
    }

    /// Whether the left button can go down.
    fn can_press(&self) -> (r: bool)
        ensures
            r == pressable(self),
    {
        match (self.select_state, self.mode) {
            (_, Mode::ScreenshotOnly) => true,
            (SelectState::Dragging { .. }, _) => true,
            (SelectState::Hovering, Mode::PickWindow) => true,
            (SelectState::OverWindow(i), Mode::PickWindow) => self.can_choose(i),
            (_, Mode::Region) => self.knows_pixel(),
        }
    }

    /// Whether the selection can follow the pointer once nothing is dragged any more.
    fn can_hover(&self) -> (r: bool)
        requires
            self.inv(),
        ensures
            r == (State { select_state: SelectState::Hovering, ..*self }).followable(),
    {
        let ghost s = layout(self.outputs@);
        let ghost hovering = State { select_state: SelectState::Hovering, ..*self };
        assert(hovering.windows@ == self.windows@ && hovering.outputs@ == self.outputs@);
        if !self.has_valid_windows() {
            return false;
        }
        let over: Option<usize> = match self.mouse.hover {
            None => None,
            Some(h) => match find_output(&self.outputs, h.outkey) {
                None => {
                    return false;
                },
                Some(i) => {
                    proof {
                        lemma_wide(self.mouse.point.x);
                        lemma_wide(self.mouse.point.y);
                        assert(s[i as int].1 == self.outputs@[i as int].monitor);
                    }
                    find_window(
                        &self.windows,
                        self.outputs[i].monitor.local_to_global(self.mouse.point),
                    )
                },
            },
        };
        assert(over is Some == hovered(s, self.mouse, self.windows@) is Some);
        over.is_none() || self.has_layers()
    }

    /// Whether the left button can go up.
    fn can_release(&self, time: u32) -> (r: bool)
        requires
            self.inv(),
        ensures
            r == releasable(self, time),
    {
        match self.select_state {
            SelectState::Dragging { start_pixel: _, region: _, start_time, initial_window } => {
                if time.wrapping_sub(start_time) <= CLICK_TIME_MS {
                    match initial_window {
                        Some(i) => self.can_choose(i),
                        None => self.can_hover(),
                    }
                } else {
                    self.has_valid_windows()
                }
            },
            _ => true,
        }
    }

    /// Whether a button can be acted upon.
    pub fn can_click(&self, time: u32, button: u32, state: ButtonState, shift: bool) -> (r: bool)
        requires
            self.inv(),
        ensures
            r == clickable(self, time, button, state, shift),
    {
        if button != BTN_LEFT {
            return true;
        }
        match state {
            ButtonState::Pressed => self.can_press(),
            ButtonState::Released => shift || self.can_release(time),
            ButtonState::Other => true,
        }
    }

    /// Whether a key can be acted upon.
    pub fn can_type(&self, keysym: Option<u32>) -> (r: bool)
        ensures
            r == typable(self, keysym),
    {
        let action = match keysym {
            None => KeyAction::Cancel,
            Some(k) => KeyAction::of(k),
        };
        match action {
            KeyAction::Pick => match self.select_state {
                SelectState::OverWindow(i) => self.can_choose(i),
                _ => true,
            },
            KeyAction::Toggle => match (self.select_state, self.mode) {
                (SelectState::Dragging { .. }, _) => self.has_valid_windows(),
                (_, Mode::Region) => self.can_press(),
                _ => true,
            },
            KeyAction::Move(_, _) => self.knows_pixel(),
            _ => true,
        }
    }

    /// Gives up what was dragged.
    fn cancel_drag(&mut self)
        requires
            old(self).inv(),
        ensures
            final(self).inv(),
            drag_cancelled(old(self), final(self)),
    {
        match self.select_state {
            SelectState::Dragging { .. } => {
                self.select_state = SelectState::Hovering;
            },
            _ => {},
        }
    }

    /// A key went down. Without a keymap every key ends the run.
    pub fn key_down(&mut self, time: u32, keysym: Option<u32>) -> (r: Result<KeyStep, StateError>)
        requires
            old(self).inv(),
            typable(old(self), keysym),
        ensures
            final(self).inv(),
            ({
                let nothing = Ok::<KeyStep, StateError>(KeyStep::Nothing);
                match key_action(keysym) {
                    KeyAction::Cancel => {
                        &&& r == Err::<KeyStep, StateError>(StateError::Cancelled)
                        &&& *final(self) == *old(self)
                    },
                    KeyAction::Pick => {
                        &&& r == nothing
                        &&& match old(self).select_state {
                            SelectState::OverWindow(i) => chosen(old(self), i as int, final(self)),
                            _ => *final(self) == *old(self),
                        }
                    },
                    KeyAction::CancelDrag => {
                        &&& r == nothing
                        &&& drag_cancelled(old(self), final(self))
                    },
                    KeyAction::Toggle => {
                        &&& r == nothing
                        &&& match old(self).select_state {
                            SelectState::Dragging { region, .. } => finished(
                                old(self),
                                region,
                                final(self),
                            ),
                            _ => if old(self).mode == Mode::Region {
                                pressed(old(self), time, final(self))
                            } else {
                                *final(self) == *old(self)
                            },
                        }
                    },
                    KeyAction::Move(dx, dy) => {
                        &&& *final(self) == *old(self)
                        &&& r == match old(self).mouse.hover {
                            Some(hover) => if hover.outkey == hover.corrected {
                                let s = layout(old(self).outputs@);
                                let m = s[slot_of(s, hover.outkey, 0)->0].1;
                                Ok::<KeyStep, StateError>(
                                    warp_spec(&m, old(self).mouse.point, dx as int, dy as int),
                                )
                            } else {
                                nothing
                            },
                            None => nothing,
                        }
                    },
                    KeyAction::Other => r == nothing && *final(self) == *old(self),
                }
            }),
    {
        let action = match keysym {
            None => KeyAction::Cancel,
            Some(k) => KeyAction::of(k),
        };
        match action {
            KeyAction::Cancel => {
                return Err(StateError::Cancelled);
            },
            KeyAction::Pick => match self.select_state {
                SelectState::OverWindow(i) => self.choose_window(i),
                _ => {},
            },
            KeyAction::CancelDrag => self.cancel_drag(),
            KeyAction::Toggle => match self.select_state {
                SelectState::Dragging { start_pixel: _, region, start_time: _, initial_window: _ } => {
                    self.finish_drag(region)
                },
                _ => match self.mode {
                    Mode::Region => self.press(time),
                    _ => {},
                },
            },
            KeyAction::Move(dx, dy) => match self.mouse.hover {
                Some(hover) => if hover.outkey.0 == hover.corrected.0 {
                    let ghost s = layout(self.outputs@);
                    let i: usize = find_output(&self.outputs, hover.outkey).unwrap();
                    proof {
                        lemma_wide(self.mouse.point.x);
                        lemma_wide(self.mouse.point.y);
                        assert(s[i as int].1 == self.outputs@[i as int].monitor);
                    }
                    return Ok(warp(&self.outputs[i].monitor, self.mouse.point, dx, dy));
                },
                None => {},
            },
            KeyAction::Other => {},
        }
        Ok(KeyStep::Nothing)
    }
}

/// A click selects the window that was highlighted: the left button goes down on it and comes up
/// again soon, wherever the pointer moves in between.
pub proof fn clicks_select_the_highlighted_window(
    hovering: &State,
    start: u32,
    dragging: &State,
    mouse: MouseState,
    moved: &State,
    moves: Seq<(OutputKey, BoxResult)>,
    end: u32,
    done: &State,
    boxes: Seq<(OutputKey, BoxResult)>,
    i: usize,
)
    requires
        hovering.mode == Mode::Region,
        hovering.select_state == SelectState::OverWindow(i),
        hovering.mouse.hover matches Some(h) && h.outkey == h.corrected,
        pressed(hovering, start, dragging),
        updated(&(State { mouse, ..*dragging }), moved, moves),
        elapsed(start, end) <= CLICK_TIME_MS,
        released(moved, end, done, boxes),
    ensures
        done.status == Status::Done(Selected::Window(hovering.windows@[i as int])),
{
}

/// A drag selects everything from the pixel that it started on to the one under the pointer, both
/// included, if the left button is held for longer than a click.
pub proof fn drags_select_from_the_first_to_the_last_pixel(
    hovering: &State,
    start: u32,
    dragging: &State,
    mouse: MouseState,
    moved: &State,
    moves: Seq<(OutputKey, BoxResult)>,
    end: u32,
    done: &State,
    boxes: Seq<(OutputKey, BoxResult)>,
)
    requires
        hovering.mode == Mode::Region,
        !(hovering.select_state is Dragging),
        hovering.mouse.hover matches Some(h) && h.outkey == h.corrected,
        pressed(hovering, start, dragging),
        mouse.hover is Some,
        updated(&(State { mouse, ..*dragging }), moved, moves),
        elapsed(start, end) > CLICK_TIME_MS,
        released(moved, end, done, boxes),
    ensures
        ({
            let s = layout(hovering.outputs@);
            let first = end_pixel(s, hovering.mouse.hover->0, hovering.mouse.point);
            let last = end_pixel(s, mouse.hover->0, mouse.point);
            &&& done.status is Done
            &&& done.status->Done_0.region_spec() == Some(last.hull(first))
        }),
{
}

/// Neither buttons nor keys take back what was selected: the status of a run only moves forward.
pub proof fn runs_only_move_forward(
    pre: &State,
    time: u32,
    post: &State,
    boxes: Seq<(OutputKey, BoxResult)>,
    i: int,
    region: LFRegion,
)
    requires
        pressed(pre, time, post) || released(pre, time, post, boxes) || chosen(pre, i, post)
            || finished(pre, region, post) || drag_cancelled(pre, post),
    ensures
        rank(pre.status) <= rank(post.status),
{
}

/// The time between two events is the number of milliseconds that leads from the first to the
/// second, on a clock that starts again at zero after 2^32 of them.
pub proof fn clocks_start_again(start: u32, time: u32)
    ensures
        0 <= elapsed(start, time) < 0x1_0000_0000,
        (start + elapsed(start, time)) % 0x1_0000_0000 == time,
{
}

/// Letters do the same in upper and lower case.
pub proof fn letters_ignore_case(k: u32)
    requires
        'A' as u32 <= k <= 'Z' as u32,
    ensures
        action_spec(k) == action_spec((k + 0x20) as u32),
{
}

/// The digits of the keypad move the pointer as they lie around the five, which starts or ends a
/// drag: `d` lies in column `(d - 1) % 3` from the left and row `(d - 1) / 3` from below.
pub proof fn keypad_digits_move_as_they_lie(d: int)
    requires
        1 <= d <= 9,
    ensures
        d == 5 ==> action_spec((0xffb0 + d) as u32) == KeyAction::Toggle,
        d != 5 ==> (action_spec((0xffb0 + d) as u32) matches KeyAction::Move(dx, dy) && dx == (d - 1)
            % 3 - 1 && dy == 1 - (d - 1) / 3),
{
}

/// The keys of the keypad do the same with and without its lock, and its arrows the same as the
/// arrows beside it. The number is that of the digit on the key.
pub proof fn keypad_keys_act_alike()
    ensures
        action_spec(0xff9c) == action_spec(0xffb1),
        action_spec(0xff99) == action_spec(0xffb2),
        action_spec(0xff9b) == action_spec(0xffb3),
        action_spec(0xff96) == action_spec(0xffb4),
        action_spec(0xff9d) == action_spec(0xffb5),
        action_spec(0xff98) == action_spec(0xffb6),
        action_spec(0xff95) == action_spec(0xffb7),
        action_spec(0xff97) == action_spec(0xffb8),
        action_spec(0xff9a) == action_spec(0xffb9),
        forall|k: u32|
            0xff51 <= k <= 0xff54 ==> #[trigger] action_spec(k) == action_spec((k + 0x45) as u32),
{
}

/// Q and Escape end the run, P picks a window, backspace gives up a drag, and the two enter keys and
/// the space bar start or end one. No other key outside the arrows and the keypad does anything.
pub proof fn other_keys_do_nothing(k: u32)
    requires
        !(0xff51 <= k <= 0xff54),
        !(0xff95 <= k <= 0xff9d),
        !(0xffb1 <= k <= 0xffb9),
    ensures
        action_spec(k) == KeyAction::Cancel <==> k == 'q' as u32 || k == 'Q' as u32 || k == 0xff1b,
        action_spec(k) == KeyAction::Pick <==> k == 'p' as u32 || k == 'P' as u32,
        action_spec(k) == KeyAction::CancelDrag <==> k == 0xff08,
        action_spec(k) == KeyAction::Toggle <==> k == ' ' as u32 || k == 0xff0d || k == 0xff8d,
        !(action_spec(k) is Move),
        key_action(Some(k)) == action_spec(k),
        key_action(None) == KeyAction::Cancel,
{
}

/// A window that is picked is the one that was highlighted, and all others are kept.
pub proof fn other_windows_are_kept(pre: &State, i: int, post: &State, k: int)
    requires
        0 <= i < pre.windows@.len(),
        0 <= k < pre.windows@.len(),
        i != k,
        chosen(pre, i, post),
    ensures
        post.status == Status::Done(Selected::Window(pre.windows@[i])),
        post.windows@.len() + 1 == pre.windows@.len(),
        post.windows@.contains(pre.windows@[k]),
{
    let n = pre.windows@.len() as int;
    let at = if k == n - 1 {
        i
    } else {
        k
    };
    assert(post.windows@[at] == pre.windows@[k]);
}

/// A region is selected together with the first window that its centre lies in, if there is one,
/// which is then taken off the list. Twice the centre is the sum of the two edges.
pub proof fn regions_take_the_window_in_their_middle(pre: &State, region: LFRegion, post: &State)
    requires
        region.wf(),
        finished(pre, region, post),
    ensures
        post.status matches Status::Done(s) && match s {
            Selected::Region(r) => r == region && post.windows@ == pre.windows@ && forall|k: int|
                0 <= k < pre.windows@.len() ==> !holds_centre(#[trigger] pre.windows@[k], region),
            Selected::RegionWindow(r, w) => r == region && exists|i: int|
                {
                    &&& 0 <= i < pre.windows@.len()
                    &&& #[trigger] pre.windows@[i] == w
                    &&& holds_centre(w, region)
                    &&& post.windows@ == pre.windows@.remove(i)
                    &&& forall|k: int|
                        0 <= k < i ==> !holds_centre(#[trigger] pre.windows@[k], region)
                },
            _ => false,
        },
{
    let c = region.centre_spec();
    crate::util::the_centre_is_in_the_middle(region);
    crate::util::the_first_window_under_a_point_is_found(pre.windows@, c);
    assert forall|k: int| 0 <= k < pre.windows@.len() implies holds_centre(
        #[trigger] pre.windows@[k],
        region,
    ) == crate::util::lies_in(pre.windows@[k], c.x, c.y) by {
        let r = pre.windows@[k].region_spec();
        lemma_twice(region.left, region.right, c.x, r.x as int);
        lemma_twice(region.left, region.right, c.x, r.x + r.width);
        lemma_twice(region.top, region.bottom, c.y, r.y as int);
        lemma_twice(region.top, region.bottom, c.y, r.y + r.height);
    }
}

/// The centre of the region, half the sum of two opposite edges in each direction, lies in the
/// window's contents.
pub open spec fn holds_centre(w: crate::ipc::Window, region: LFRegion) -> bool {
    let r = w.region_spec();
    let across = region.left.num * region.right.den + region.right.num * region.left.den;
    let down = region.top.num * region.bottom.den + region.bottom.num * region.top.den;
    &&& 2 * r.x * (region.left.den * region.right.den) <= across
    &&& across < 2 * (r.x + r.width) * (region.left.den * region.right.den)
    &&& 2 * r.y * (region.top.den * region.bottom.den) <= down
    &&& down < 2 * (r.y + r.height) * (region.top.den * region.bottom.den)
}

/// `c` is halfway between `a` and `b`, so it is compared with `n` by comparing twice of both.
proof fn lemma_twice(
    a: crate::coord::Coord,
    b: crate::coord::Coord,
    c: crate::coord::Coord,
    n: int,
)
    requires
        a.den > 0,
        b.den > 0,
        c.den > 0,
        2 * c.num * (a.den * b.den) == (a.num * b.den + b.num * a.den) * c.den,
    ensures
        n * c.den <= c.num <==> 2 * n * (a.den * b.den) <= a.num * b.den + b.num * a.den,
{
    let m = a.den * b.den;
    let t = a.num * b.den + b.num * a.den;
    let u = c.num as int;
    let d = c.den as int;
    assert(m > 0) by (nonlinear_arith)
        requires
            m == a.den * b.den,
            a.den > 0,
            b.den > 0,
    ;
    if n * d <= u {
        assert(2 * n * m <= t) by (nonlinear_arith)
            requires
                n * d <= u,
                2 * u * m == t * d,
                m > 0,
                d > 0,
        {
            assert((n * d) * (2 * m) <= u * (2 * m));
            assert((2 * n * m) * d <= t * d);
        }
    } else {
        assert(2 * n * m > t) by (nonlinear_arith)
            requires
                n * d > u,
                2 * u * m == t * d,
                m > 0,
                d > 0,
        {
            assert((n * d) * (2 * m) > u * (2 * m));
            assert((2 * n * m) * d > t * d);
        }
    }
}

/// Held for a tenth of a second or less, the left button clicks: the window that it went down on is
/// selected, and without one nothing is. Held longer, it drags: the region is selected, whatever it
/// went down on.
pub proof fn presses_of_a_tenth_of_a_second_are_clicks(
    pre: &State,
    time: u32,
    post: &State,
    boxes: Seq<(OutputKey, BoxResult)>,
)
    requires
        released(pre, time, post, boxes),
        pre.select_state is Dragging,
        pre.select_state->start_time <= time,
    ensures
        ({
            let held = time - pre.select_state->start_time;
            let first = pre.select_state->initial_window;
            &&& held <= 100 && first is Some ==> post.status == Status::Done(
                Selected::Window(pre.windows@[first->0 as int]),
            )
            &&& held <= 100 && first is None ==> post.status == pre.status && !(
            post.select_state is Dragging)
            &&& held > 100 ==> (post.status matches Status::Done(s) && (s == Selected::Region(
                pre.select_state->region,
            ) || (s matches Selected::RegionWindow(r, _) && r == pre.select_state->region)))
        }),
{
}

/// The left button selects nothing by going down, except the highlighted window where one is to be
/// picked. For a region it starts a drag of the one pixel under the pointer and remembers the
/// highlighted window, unless the pointer is on no monitor or has left the one that it entered.
pub proof fn presses_pick_or_start_to_drag(pre: &State, time: u32, post: &State)
    requires
        pressed(pre, time, post),
        !(pre.select_state is Dragging),
    ensures
        pre.mode == Mode::ScreenshotOnly ==> *post == *pre,
        pre.mode == Mode::PickWindow && pre.select_state is Hovering ==> *post == *pre,
        pre.mode == Mode::PickWindow ==> (pre.select_state matches SelectState::OverWindow(i)
            ==> post.status == Status::Done(Selected::Window(pre.windows@[i as int]))),
        pre.mode == Mode::Region ==> post.status == pre.status && post.windows == pre.windows,
        pre.mode == Mode::Region && (pre.mouse.hover is None || pre.mouse.hover->0.outkey
            != pre.mouse.hover->0.corrected) ==> *post == *pre,
        pre.mode == Mode::Region && pre.mouse.hover is Some && pre.mouse.hover->0.outkey
            == pre.mouse.hover->0.corrected ==> (post.select_state matches SelectState::Dragging {
            start_pixel,
            region,
            start_time,
            initial_window,
        } && start_pixel == region && start_pixel == end_pixel(
            layout(pre.outputs@),
            pre.mouse.hover->0,
            pre.mouse.point,
        ) && start_time == time && initial_window == match pre.select_state {
            SelectState::OverWindow(i) => Some(i),
            _ => None,
        }),
{
}

/// A key moves the pointer to the pixel that many pixels away: `(u, v)` is the pixel that the
/// pointer is on. The new position, in 1/256 logical pixels, is less than one such step away from
/// the middle of that pixel, and lies on it if a logical pixel is no more than 256 physical ones.
/// The pointer stays where it is if the pixel is not on the monitor.
pub proof fn keys_move_by_whole_pixels(
    m: &Monitor,
    point: MLPoint,
    dx: int,
    dy: int,
    u: int,
    v: int,
)
    requires
        m.scale.wf(),
        point.x.den > 0,
        point.y.den > 0,
        u * (point.x.den * m.scale.den) <= point.x.num * m.scale.num < u * (point.x.den
            * m.scale.den) + point.x.den * m.scale.den,
        v * (point.y.den * m.scale.den) <= point.y.num * m.scale.num < v * (point.y.den
            * m.scale.den) + point.y.den * m.scale.den,
    ensures
        u + dx < 0 || v + dy < 0 || u + dx >= m.physical.width || v + dy >= m.physical.height
            ==> warp_spec(m, point, dx, dy) == KeyStep::Nothing,
        warp_spec(m, point, dx, dy) matches KeyStep::Warp { x, y } ==> {
            &&& near_middle(x as int, u + dx, m)
            &&& near_middle(y as int, v + dy, m)
            &&& m.scale.num <= 256 * m.scale.den ==> lands_on(x as int, u + dx, m) && lands_on(
                y as int,
                v + dy,
                m,
            )
        },
{
    lemma_floor_is(
        point.x.num * m.scale.num,
        point.x.den * m.scale.den,
        u,
        point.x.den as int,
        m.scale.den as int,
    );
    lemma_floor_is(
        point.y.num * m.scale.num,
        point.y.den * m.scale.den,
        v,
        point.y.den as int,
        m.scale.den as int,
    );
    let a = u + dx;
    let b = v + dy;
    if 0 <= a < m.physical.width && 0 <= b < m.physical.height {
        lemma_near_middle(a, m);
        lemma_near_middle(b, m);
        lemma_middle_positive(a, m);
        lemma_middle_positive(b, m);
        if m.scale.num <= 256 * m.scale.den {
            fine_pixels_are_reached(a, m);
            fine_pixels_are_reached(b, m);
            lemma_pixel_of(pixel_position(a, m), a, m);
            lemma_pixel_of(pixel_position(b, m), b, m);
        }
    }
}

/// A position in 1/256 logical pixels is less than one such step away from the middle of the
/// physical pixel `index`, or is one step beyond a middle that lies between two positions.
pub open spec fn near_middle(at: int, index: int, m: &Monitor) -> bool {
    let middle = 256 * index * m.scale.den + 128 * m.scale.den;
    middle - m.scale.num < at * m.scale.num <= middle + m.scale.num
}

/// A position in 1/256 logical pixels lies on the physical pixel `index`.
pub open spec fn lands_on(at: int, index: int, m: &Monitor) -> bool {
    256 * (index * m.scale.den) <= at * m.scale.num < 256 * ((index + 1) * m.scale.den)
}

proof fn lemma_floor_is(a: int, d: int, q: int, x: int, y: int)
    requires
        d == x * y,
        x > 0,
        y > 0,
        q * d <= a < q * d + d,
    ensures
        a / d == q,
{
    assert(d > 0) by (nonlinear_arith)
        requires
            d == x * y,
            x > 0,
            y > 0,
    ;
    vstd::arithmetic::div_mod::lemma_fundamental_div_mod_converse(a, d, q, a - q * d);
}

proof fn lemma_near_middle(index: int, m: &Monitor)
    requires
        m.scale.wf(),
    ensures
        near_middle(pixel_position(index, m), index, m),
        256 * ((index + 1) * m.scale.den) == 256 * (index * m.scale.den) + 256 * m.scale.den,
{
    let n = m.scale.num as int;
    let d = m.scale.den as int;
    let a = 128 * ((2 * index + 1) * d);
    let q = a / n;
    vstd::arithmetic::div_mod::lemma_fundamental_div_mod(a, n);
    vstd::arithmetic::div_mod::lemma_mod_bound(a, n);
    assert(a == 256 * index * d + 128 * d) by (nonlinear_arith)
        requires
            a == 128 * ((2 * index + 1) * d),
    ;
    assert(n * q == q * n && (q + 1) * n == q * n + n) by (nonlinear_arith);
    assert(256 * ((index + 1) * d) == 256 * (index * d) + 256 * d) by (nonlinear_arith);
}

} // verus!

//! What the pointer selects.

use vstd::prelude::*;

use crate::coord::{LOCAL_RANGE, POINTER_RANGE};
use crate::util::{find_window, lemma_plus_within, LFRegion, MLPoint};
use crate::wayland::magnifier::placeable;
use crate::wayland::output::{concealed_on, moved_on, part_on, same_output, Output};
use crate::wayland::overlay::{boxed, same_base, Overlay};
use crate::wayland::state::{
    find_monitor, find_output, hovered, layout, lemma_located, lemma_ready, lemma_slot,
    lemma_slot_found, lemma_wide, located, next_hover, next_selection, selectable, slot_of,
    BoxResult, Frame, MagnifierMove, MoveResult, State, StateError,
};
use crate::wayland::{Hover, MouseState, OutputKey, SelectState, Status};

verus! {

/// `region` is to be shown on every monitor.
pub open spec fn drawn_everywhere(
    pre: Seq<Output>,
    region: Option<LFRegion>,
    post: Seq<Output>,
    boxes: Seq<(OutputKey, BoxResult)>,
) -> bool {
    &&& post.len() == pre.len()
    &&& boxes.len() == pre.len()
    &&& forall|k: int|
        0 <= k < pre.len() ==> {
            &&& same_output(&pre[k], #[trigger] &post[k])
            &&& boxes[k].0 == pre[k].key
            &&& boxed(
                &pre[k].overlay->0,
                part_on(&pre[k].monitor, region),
                &post[k].overlay->0,
                boxes[k].1,
            )
        }
}

/// The last error among the first `n` results, or else `first`.
pub open spec fn last_error(
    boxes: Seq<(OutputKey, BoxResult)>,
    n: int,
    first: Option<StateError>,
) -> Option<StateError>
    decreases n,
{
    if n <= 0 {
        first
    } else {
        match boxes[n - 1].1 {
            Err(e) => Some(StateError::Overlay(boxes[n - 1].0, e)),
            Ok(_) => last_error(boxes, n - 1, first),
        }
    }
}

proof fn lemma_last_error_prefix(
    a: Seq<(OutputKey, BoxResult)>,
    b: Seq<(OutputKey, BoxResult)>,
    n: int,
    first: Option<StateError>,
)
    requires
        0 <= n <= a.len(),
        n <= b.len(),
        forall|k: int| 0 <= k < n ==> a[k] == b[k],
    ensures
        last_error(a, n, first) == last_error(b, n, first),
    decreases n,
{
    if n > 0 {
        lemma_last_error_prefix(a, b, n - 1, first);
    }
}

/// What [`State::update_overlay`] does.
pub open spec fn updated(pre: &State, post: &State, boxes: Seq<(OutputKey, BoxResult)>) -> bool {
    let (state, redraw) = next_selection(
        layout(pre.outputs@),
        pre.mouse,
        pre.select_state,
        pre.windows@,
    );
    &&& post.mode == pre.mode
    &&& post.status == pre.status
    &&& post.formats == pre.formats
    &&& post.mouse == pre.mouse
    &&& post.windows == pre.windows
    &&& post.weird_transforms == pre.weird_transforms
    &&& post.error == last_error(boxes, boxes.len() as int, pre.error)
    &&& post.select_state == state
    &&& match redraw {
        None => boxes.len() == 0 && post.outputs@ == pre.outputs@,
        Some(region) => drawn_everywhere(pre.outputs@, region, post.outputs@, boxes),
    }
}

/// What one monitor goes through at the end of a group of pointer events: its magnifier is taken
/// away or moved, which gives `mid`, and then the selection is shown on it.
pub open spec fn turned(
    pre: &Output,
    mid: Overlay,
    post: &Output,
    hidden: bool,
    moved: Option<(MLPoint, MoveResult)>,
    redraw: Option<Option<LFRegion>>,
    result: BoxResult,
) -> bool {
    &&& same_output(pre, post)
    &&& match moved {
        Some((point, r)) => moved_on(&pre.overlay->0, point, &mid, r),
        None => if hidden {
            concealed_on(&pre.overlay->0, &mid)
        } else {
            mid == pre.overlay->0
        },
    }
    &&& match redraw {
        None => post.overlay->0 == mid,
        Some(region) => boxed(&mid, part_on(&pre.monitor, region), &post.overlay->0, result),
    }
}

/// What one monitor goes through at the end of a group of pointer events.
pub open spec fn turns(
    pre: &Output,
    post: &Output,
    hidden: bool,
    moved: Option<(MLPoint, MoveResult)>,
    redraw: Option<Option<LFRegion>>,
    result: BoxResult,
) -> bool {
    exists|mid: Overlay| #[trigger] turned(pre, mid, post, hidden, moved, redraw, result)
}

/// Where the pointer is really at, if it is to be followed at all.
pub open spec fn followed(state: &State) -> Option<(int, MLPoint)> {
    let s = layout(state.outputs@);
    match state.mouse.hover {
        Some(hover) => if state.status is Selecting {
            located(s, slot_of(s, hover.outkey, 0)->0, state.mouse.point)
        } else {
            None
        },
        None => None,
    }
}

/// Monitors that only differ in their layers are laid out the same.
pub proof fn lemma_same_layout(pre: Seq<Output>, post: Seq<Output>)
    requires
        pre.len() == post.len(),
        forall|k: int| 0 <= k < pre.len() ==> same_output(&pre[k], #[trigger] &post[k]),
    ensures
        layout(post) == layout(pre),
{
    assert forall|k: int| 0 <= k < pre.len() implies layout(post)[k] == layout(pre)[k] by {
        assert(same_output(&pre[k], &post[k]));
    }
    assert(layout(post) =~= layout(pre));
}

impl State {
    /// Whether every monitor has a layer that something can be shown on.
    pub(crate) fn has_layers(&self) -> (r: bool)
        requires
            self.inv(),
        ensures
            r == self.layers_ready(),
    {
        let mut k: usize = 0;
        while k < self.outputs.len()
            invariant
                self.inv(),
                k <= self.outputs@.len(),
                forall|i: int| 0 <= i < k ==> selectable(#[trigger] self.outputs@[i]),
            decreases self.outputs@.len() - k,
        {
            let out = &self.outputs[k];
            assert(out.wf());
            let sized: bool = match &out.overlay {
                None => false,
                Some(o) => o.ready(),
            };
            if !sized || !out.monitor.logical.in_range() || out.monitor.logical.width > i32::MAX
                - 300 || out.monitor.logical.height > i32::MAX - 300 {
                assert(!selectable(self.outputs@[k as int]));
                return false;
            }
            assert(selectable(self.outputs@[k as int]));
            k = k + 1;
        }
        true
    }

    /// Whether every window lies in range.
    pub(crate) fn has_valid_windows(&self) -> (r: bool)
        ensures
            r == self.windows_valid(),
    {
        let mut i: usize = 0;
        while i < self.windows.len()
            invariant
                i <= self.windows@.len(),
                forall|j: int| 0 <= j < i ==> (#[trigger] self.windows@[j]).wf(),
            decreases self.windows@.len() - i,
        {
            if !self.windows[i].valid() {
                assert(!self.windows@[i as int].wf());
                return false;
            }
            i = i + 1;
        }
        true
    }

    /// Whether the pointer can be followed.
    pub fn ready(&self) -> (r: bool)
        requires
            self.inv(),
        ensures
            r == self.ready_spec(),
    {
        if !self.has_layers() || !self.has_valid_windows() {
            return false;
        }
        match self.mouse.hover {
            None => {},
            Some(h) => {
                if find_output(&self.outputs, h.outkey).is_none() || find_output(
                    &self.outputs,
                    h.corrected,
                ).is_none() {
                    return false;
                }
            },
        }
        match self.select_state {
            SelectState::Hovering => true,
            SelectState::OverWindow(j) => j < self.windows.len(),
            SelectState::Dragging { initial_window, .. } => match initial_window {
                Some(j) => j < self.windows.len(),
                None => true,
            },
        }
    }

    /// Whether the pointer can leave.
    pub fn can_leave(&self) -> (r: bool)
        ensures
            r == self.leavable(),
    {
        match self.mouse.hover {
            None => true,
            Some(h) => match find_output(&self.outputs, h.corrected) {
                None => false,
                Some(k) => self.outputs[k].overlay.is_some(),
            },
        }
    }

    /// The pointer entered the surface of a monitor.
    pub fn pointer_enter(&mut self, key: OutputKey, point: MLPoint)
        requires
            old(self).inv(),
            point.within(POINTER_RANGE as int),
        ensures
            final(self).inv(),
            *final(self) == (State {
                mouse: MouseState { point, hover: Some(Hover { outkey: key, corrected: key }) },
                ..*old(self)
            }),
    {
        self.mouse.hover = Some(Hover { outkey: key, corrected: key });
        self.mouse.point = point;
    }

    /// The pointer moved on the surface that it is on.
    pub fn pointer_motion(&mut self, point: MLPoint)
        requires
            old(self).inv(),
            point.within(POINTER_RANGE as int),
        ensures
            final(self).inv(),
            *final(self) == (State {
                mouse: MouseState { point, hover: old(self).mouse.hover },
                ..*old(self)
            }),
    {
        self.mouse.point = point;
    }

    /// The pointer left. Returns the monitor whose magnifier has to be taken away.
    pub fn pointer_leave(&mut self) -> (r: Option<OutputKey>)
        requires
            old(self).inv(),
            old(self).leavable(),
        ensures
            final(self).inv(),
            old(self).ready_spec() ==> final(self).ready_spec(),
            final(self).same_but_outputs(
                &(State {
                    mouse: MouseState { point: old(self).mouse.point, hover: None },
                    ..*old(self)
                }),
            ),
            final(self).error == old(self).error,
            match old(self).mouse.hover {
                None => r is None && final(self).outputs@ == old(self).outputs@,
                Some(h) => {
                    let k = slot_of(layout(old(self).outputs@), h.corrected, 0)->0;
                    let pre = old(self).outputs@[k];
                    let post = final(self).outputs@[k];
                    &&& r == if pre.overlay->0.magnifier is Some {
                        Some(h.corrected)
                    } else {
                        None
                    }
                    &&& final(self).outputs@ == old(self).outputs@.update(k, post)
                    &&& same_output(&pre, &post)
                    &&& concealed_on(&pre.overlay->0, &post.overlay->0)
                },
            },
    {
        let hover = match self.mouse.hover {
            None => {
                return None;
            },
            Some(h) => h,
        };
        self.mouse.hover = None;
        let k: usize = find_output(&self.outputs, hover.corrected).unwrap();
        let ghost pre = self.outputs@;
        let had: bool = self.outputs[k].hide_magnifier();
        proof {
            lemma_one_changed(pre, self.outputs@, k as int);
        }
        if had {
            Some(hover.corrected)
        } else {
            None
        }
    }

    /// Follows the pointer: highlights the window under it, or extends the dragged region. Gives
    /// the region to show, unless that stays the same.
    fn advance_selection(&mut self) -> (r: Option<Option<LFRegion>>)
        requires
            old(self).inv(),
            old(self).trackable(),
        ensures
            final(self).inv(),
            old(self).ready_spec() ==> final(self).ready_spec(),
            (final(self).select_state, r) == next_selection(
                layout(old(self).outputs@),
                old(self).mouse,
                old(self).select_state,
                old(self).windows@,
            ),
            *final(self) == (State { select_state: final(self).select_state, ..*old(self) }),
            r matches Some(Some(g)) ==> g.wf(),
    {
        let ghost s = layout(self.outputs@);
        match self.select_state {
            SelectState::Dragging { start_pixel, region: _, start_time, initial_window } => {
                let hover = match self.mouse.hover {
                    None => {
                        return None;
                    },
                    Some(h) => h,
                };
                let i: usize = find_output(&self.outputs, hover.outkey).unwrap();
                proof {
                    lemma_wide(self.mouse.point.x);
                    lemma_wide(self.mouse.point.y);
                    assert(s[i as int].1 == self.outputs@[i as int].monitor);
                }
                let end = if hover.corrected.0 == hover.outkey.0 {
                    self.outputs[i].monitor.global_pixel_bounds(self.mouse.point)
                } else {
                    let j: usize = find_output(&self.outputs, hover.corrected).unwrap();
                    let point = self.outputs[i].monitor.local_to_global(self.mouse.point);
                    proof {
                        assert(s[j as int].1 == self.outputs@[j as int].monitor);
                        let m = self.outputs@[i as int].monitor;
                        let c = self.outputs@[j as int].monitor;
                        let p = self.mouse.point;
                        lemma_plus_within(p.x, m.logical.x as int, POINTER_RANGE as int);
                        lemma_plus_within(p.y, m.logical.y as int, POINTER_RANGE as int);
                        lemma_plus_within(point.x, -c.logical.x, 0x4_8000_0000);
                        lemma_plus_within(point.y, -c.logical.y, 0x4_8000_0000);
                        let far = c.to_local(point);
                        lemma_wide(far.x);
                        lemma_wide(far.y);
                        lemma_near_enough(point.x);
                        lemma_near_enough(point.y);
                    }
                    let local = self.outputs[j].monitor.global_to_local(point);
                    self.outputs[j].monitor.global_pixel_bounds(local)
                };
                let region = end.bounding_region(&start_pixel);
                self.select_state = SelectState::Dragging {
                    start_pixel,
                    region,
                    start_time,
                    initial_window,
                };
                Some(Some(region))
            },
            SelectState::Hovering => self.update_hover(None),
            SelectState::OverWindow(i) => self.update_hover(Some(i)),
        }
    }

    /// Highlights the window under the pointer. `old_window` is the one that is highlighted.
    fn update_hover(&mut self, old_window: Option<usize>) -> (r: Option<Option<LFRegion>>)
        requires
            old(self).inv(),
            old(self).trackable(),
            !(old(self).select_state is Dragging),
        ensures
            final(self).inv(),
            old(self).ready_spec() ==> final(self).ready_spec(),
            (final(self).select_state, r) == next_hover(
                hovered(layout(old(self).outputs@), old(self).mouse, old(self).windows@),
                match old_window {
                    Some(i) => Some(i as int),
                    None => None,
                },
                old(self).select_state,
                old(self).windows@,
            ),
            *final(self) == (State { select_state: final(self).select_state, ..*old(self) }),
            r matches Some(Some(g)) ==> g.wf(),
    {
        let ghost s = layout(self.outputs@);
        let new: Option<usize> = match self.mouse.hover {
            None => None,
            Some(hover) => {
                let i: usize = find_output(&self.outputs, hover.outkey).unwrap();
                proof {
                    lemma_wide(self.mouse.point.x);
                    lemma_wide(self.mouse.point.y);
                    assert(s[i as int].1 == self.outputs@[i as int].monitor);
                }
                let point = self.outputs[i].monitor.local_to_global(self.mouse.point);
                find_window(&self.windows, point)
            },
        };
        match (new, old_window) {
            (Some(i), Some(j)) if i == j => None,
            (None, None) => None,
            (Some(i), _) => {
                self.select_state = SelectState::OverWindow(i);
                Some(Some(LFRegion::from_region(self.windows[i].region())))
            },
            (None, Some(_)) => {
                self.select_state = SelectState::Hovering;
                Some(None)
            },
        }
    }

    /// Decides how to show `region` on every monitor.
    fn draw_everywhere(&mut self, region: Option<LFRegion>) -> (r: Vec<(OutputKey, BoxResult)>)
        requires
            old(self).inv(),
            old(self).layers_ready(),
            region matches Some(g) ==> g.wf(),
        ensures
            final(self).inv(),
            old(self).ready_spec() ==> final(self).ready_spec(),
            final(self).same_but_outputs(old(self)),
            drawn_everywhere(old(self).outputs@, region, final(self).outputs@, r@),
            final(self).error == last_error(r@, r@.len() as int, old(self).error),
    {
        let ghost pre = self.outputs@;
        let ghost first = self.error;
        let mut boxes: Vec<(OutputKey, BoxResult)> = Vec::new();
        let total: usize = self.outputs.len();
        let mut k: usize = 0;
        while k < total
            invariant
                k <= total,
                total == pre.len(),
                self.outputs@.len() == pre.len(),
                boxes@.len() == k,
                region matches Some(g) ==> g.wf(),
                self.same_but_outputs(old(self)),
                pre == old(self).outputs@,
                forall|i: int| 0 <= i < pre.len() ==> selectable(#[trigger] pre[i]) && pre[i].wf(),
                forall|i: int| k <= i < pre.len() ==> #[trigger] self.outputs@[i] == pre[i],
                forall|i: int|
                    0 <= i < k ==> {
                        &&& same_output(&pre[i], #[trigger] &self.outputs@[i])
                        &&& self.outputs@[i].wf()
                        &&& boxes@[i].0 == pre[i].key
                        &&& boxed(
                            &pre[i].overlay->0,
                            part_on(&pre[i].monitor, region),
                            &self.outputs@[i].overlay->0,
                            boxes@[i].1,
                        )
                    },
                self.error == last_error(boxes@, k as int, first),
            decreases total - k,
        {
            let ghost before = self.outputs@;
            let ghost boxes_before = boxes@;
            assert(before[k as int] == pre[k as int]);
            assert(selectable(pre[k as int]));
            let key = self.outputs[k].key;
            let result = self.outputs[k].draw_region(region);
            match result {
                Err(e) => {
                    self.error = Some(StateError::Overlay(key, e));
                },
                Ok(_) => {},
            }
            boxes.push((key, result));
            proof {
                lemma_last_error_prefix(boxes_before, boxes@, k as int, first);
                assert(self.outputs@ =~= before.update(k as int, self.outputs@[k as int]));
            }
            k = k + 1;
        }
        proof {
            lemma_drawn_keeps(pre, self.outputs@);
        }
        boxes
    }

    /// Follows the pointer, and decides how the selection is shown.
    pub fn update_overlay(&mut self) -> (r: Vec<(OutputKey, BoxResult)>)
        requires
            old(self).inv(),
            old(self).followable(),
        ensures
            final(self).inv(),
            old(self).ready_spec() ==> final(self).ready_spec(),
            updated(old(self), final(self), r@),
    {
        match self.advance_selection() {
            None => Vec::new(),
            Some(region) => self.draw_everywhere(region),
        }
    }

    /// Where the pointer is really at, as the position of the monitor and the point on it.
    fn locate(&self) -> (r: Option<(usize, MLPoint)>)
        requires
            self.inv(),
            self.ready_spec(),
        ensures
            match r {
                Some((j, p)) => followed(self) == Some((j as int, p)) && j < self.outputs@.len()
                    && p.within(LOCAL_RANGE as int) && placeable(p),
                None => followed(self) is None,
            },
    {
        let selecting: bool = match &self.status {
            Status::Selecting => true,
            _ => false,
        };
        if !selecting {
            return None;
        }
        let hover = match self.mouse.hover {
            None => {
                return None;
            },
            Some(h) => h,
        };
        let ghost s = layout(self.outputs@);
        let i: usize = find_output(&self.outputs, hover.outkey).unwrap();
        let point = self.mouse.point;
        proof {
            lemma_wide(point.x);
            lemma_wide(point.y);
            assert forall|k: int| 0 <= k < s.len() implies (#[trigger] s[k]).1.logical.width
                <= i32::MAX - 300 && s[k].1.logical.height <= i32::MAX - 300 by {
                assert(selectable(self.outputs@[k]));
            }
            lemma_located(s, i as int, point);
            assert(s[i as int].1 == self.outputs@[i as int].monitor);
        }
        if self.outputs[i].monitor.logical.valid_mouse(point) {
            return Some((i, point));
        }
        let global = self.outputs[i].monitor.local_to_global(point);
        proof {
            assert forall|k: int|
                0 <= k < self.outputs@.len() implies (#[trigger] self.outputs@[k]).monitor.logical.fits() by {
                assert(selectable(self.outputs@[k]));
            }
            let m = self.outputs@[i as int].monitor;
            lemma_plus_within(point.x, m.logical.x as int, POINTER_RANGE as int);
            lemma_plus_within(point.y, m.logical.y as int, POINTER_RANGE as int);
            lemma_near_enough(global.x);
            lemma_near_enough(global.y);
        }
        let found: Option<usize> = match find_monitor(&self.outputs, global, false) {
            Some(j) => Some(j),
            None => find_monitor(&self.outputs, global, true),
        };
        match found {
            None => None,
            Some(j) => {
                assert(s[j as int].1 == self.outputs@[j as int].monitor);
                Some((j, self.outputs[j].monitor.global_to_local(global)))
            },
        }
    }

    /// A group of pointer events has ended. Enter, leave and motion are not acted upon at once,
    /// since they can be part of the same event: the pointer is followed only now.
    pub fn pointer_frame(&mut self) -> (r: Frame)
        requires
            old(self).inv(),
            old(self).ready_spec(),
        ensures
            final(self).inv(),
            final(self).ready_spec(),
            final(self).mode == old(self).mode,
            final(self).status == old(self).status,
            final(self).formats == old(self).formats,
            final(self).windows == old(self).windows,
            final(self).weird_transforms == old(self).weird_transforms,
            match followed(old(self)) {
                None => {
                    &&& final(self).mouse == old(self).mouse
                    &&& final(self).select_state == old(self).select_state
                    &&& final(self).outputs@ == old(self).outputs@
                    &&& final(self).error == old(self).error
                    &&& r.hidden is None
                    &&& r.moved is None
                    &&& r.boxes@.len() == 0
                },
                Some((j, point)) => {
                    let before = old(self).outputs@;
                    let after = final(self).outputs@;
                    let key = before[j].key;
                    let corrected = old(self).mouse.hover->0.corrected;
                    let h = slot_of(layout(before), corrected, 0)->0;
                    let mouse = MouseState {
                        point: old(self).mouse.point,
                        hover: Some(Hover { outkey: old(self).mouse.hover->0.outkey, corrected: key }),
                    };
                    let (state, redraw) = next_selection(
                        layout(before),
                        mouse,
                        old(self).select_state,
                        old(self).windows@,
                    );
                    &&& final(self).mouse == mouse
                    &&& final(self).select_state == state
                    &&& r.hidden == if corrected != key && before[h].overlay->0.magnifier is Some {
                        Some(corrected)
                    } else {
                        None
                    }
                    &&& r.moved is Some
                    &&& r.moved->0.output == key
                    &&& r.boxes@.len() == if redraw is Some {
                        before.len()
                    } else {
                        0
                    }
                    &&& forall|k: int|
                        0 <= k < r.boxes@.len() ==> (#[trigger] r.boxes@[k]).0 == before[k].key
                    &&& final(self).error == last_error(
                        r.boxes@,
                        r.boxes@.len() as int,
                        match r.moved->0.result {
                            Err(e) => Some(StateError::Overlay(key, e)),
                            Ok(_) => old(self).error,
                        },
                    )
                    &&& after.len() == before.len()
                    &&& forall|k: int|
                        0 <= k < before.len() ==> turns(
                                &before[k],
                                #[trigger] &after[k],
                                corrected != key && k == h,
                                if k == j {
                                    Some((point, r.moved->0.result))
                                } else {
                                    None
                                },
                                redraw,
                                r.boxes@[k].1,
                            )
                },
            },
    {
        let (j, point) = match self.locate() {
            None => {
                return Frame { hidden: None, moved: None, boxes: Vec::new() };
            },
            Some(found) => found,
        };
        let ghost s0 = self.outputs@;
        let hover = self.mouse.hover.unwrap();
        let key = self.outputs[j].key;
        let ghost h = slot_of(layout(s0), hover.corrected, 0)->0;
        let mut hidden: Option<OutputKey> = None;
        proof {
            lemma_slot(layout(s0), hover.corrected, 0);
            lemma_slot_found(layout(s0), 0, j as int);
            assert(layout(s0)[h].0 == s0[h].key);
        }
        if hover.corrected.0 != key.0 {
            let k: usize = find_output(&self.outputs, hover.corrected).unwrap();
            assert(selectable(self.outputs@[k as int]));
            if self.outputs[k].hide_magnifier() {
                hidden = Some(hover.corrected);
            }
            proof {
                lemma_one_changed(s0, self.outputs@, k as int);
            }
        }
        let ghost s1 = self.outputs@;
        self.mouse.hover = Some(Hover { outkey: hover.outkey, corrected: key });
        assert(selectable(s1[j as int]));
        let result = self.outputs[j].move_magnifier(point);
        let ghost s2 = self.outputs@;
        proof {
            lemma_one_changed(s1, s2, j as int);
        }
        match result {
            Err(e) => {
                self.error = Some(StateError::Overlay(key, e));
            },
            Ok(_) => {},
        }
        assert(self.ready_spec()) by {
            assert(layout(s2) == layout(s0));
            assert(layout(s0)[j as int].0 == key);
            assert forall|k: int| 0 <= k < s2.len() implies selectable(#[trigger] s2[k]) by {
                assert(selectable(s0[k]));
                if k != j {
                    assert(s2[k] == s1[k]);
                    if k != h {
                        assert(s1[k] == s0[k]);
                    }
                }
            }
        }
        assert(self.inv()) by {
            assert forall|k: int| 0 <= k < s2.len() implies (#[trigger] s2[k]).wf() by {
                if k != j {
                    assert(s2[k] == s1[k]);
                    if k != h {
                        assert(s1[k] == s0[k]);
                    }
                }
            }
            assert forall|a: int, b: int| 0 <= a < b < s2.len() implies (#[trigger] s2[a]).key.0 < (
            #[trigger] s2[b]).key.0 by {
                assert(layout(s2)[a].0 == layout(s0)[a].0 && layout(s2)[b].0 == layout(s0)[b].0);
                assert(s0[a].key.0 < s0[b].key.0);
            }
        }
        proof {
            lemma_ready(self);
        }
        let boxes = self.update_overlay();
        proof {
            let after = self.outputs@;
            let mouse = self.mouse;
            let (state, redraw) = next_selection(
                layout(s0),
                mouse,
                old(self).select_state,
                old(self).windows@,
            );
            assert forall|k: int| 0 <= k < s0.len() implies turns(
                    &s0[k],
                    #[trigger] &after[k],
                    hover.corrected != key && k == h,
                    if k == j {
                        Some((point, result))
                    } else {
                        None
                    },
                    redraw,
                    boxes@[k].1,
                ) by {
                assert(same_output(&s0[k], &s1[k]));
                assert(same_output(&s1[k], &s2[k]));
                if redraw is Some {
                    assert(same_output(&s2[k], &after[k]));
                }
                if k != j {
                    assert(s2[k] == s1[k]);
                }
                if !(hover.corrected != key && k == h) {
                    assert(s1[k] == s0[k]);
                }
                assert(turned(
                    &s0[k],
                    s2[k].overlay->0,
                    &after[k],
                    hover.corrected != key && k == h,
                    if k == j {
                        Some((point, result))
                    } else {
                        None
                    },
                    redraw,
                    boxes@[k].1,
                ));
            }
            assert forall|k: int| 0 <= k < boxes@.len() implies (#[trigger] boxes@[k]).0
                == s0[k].key by {
                assert(same_output(&s2[k], &after[k]));
                assert(same_output(&s1[k], &s2[k]));
                assert(same_output(&s0[k], &s1[k]));
            }
        }
        Frame { hidden, moved: Some(MagnifierMove { output: key, result }), boxes }
    }
}

/// A coordinate close to the monitors is in range for a position on one of them.
proof fn lemma_near_enough(c: crate::coord::Coord)
    requires
        c.within(0x4_8000_0000),
    ensures
        c.within(LOCAL_RANGE as int),
{
    let d = c.den as int;
    assert(0x4_8000_0000 * d <= 0x10_0000_0000 * d);
}

/// Changing the layer of one monitor keeps the others, and the layout.
proof fn lemma_one_changed(pre: Seq<Output>, post: Seq<Output>, k: int)
    requires
        0 <= k < pre.len(),
        post == pre.update(k, post[k]),
        same_output(&pre[k], &post[k]),
        pre[k].overlay is Some,
        same_base(&pre[k].overlay->0, &post[k].overlay->0),
    ensures
        layout(post) == layout(pre),
        forall|i: int| 0 <= i < pre.len() ==> same_output(&pre[i], #[trigger] &post[i]),
        selectable(pre[k]) ==> selectable(post[k]),
{
    assert forall|i: int| 0 <= i < pre.len() implies same_output(&pre[i], #[trigger] &post[i]) by {
        if i != k {
            assert(post[i] == pre[i]);
        }
    }
    lemma_same_layout(pre, post);
}

/// Showing something keeps the monitors usable.
proof fn lemma_drawn_keeps(pre: Seq<Output>, post: Seq<Output>)
    requires
        post.len() == pre.len(),
        forall|i: int|
            0 <= i < pre.len() ==> same_output(&pre[i], #[trigger] &post[i])
                && same_base(&pre[i].overlay->0, &post[i].overlay->0),
    ensures
        layout(post) == layout(pre),
        forall|i: int|
            0 <= i < pre.len() && selectable(pre[i]) ==> selectable(#[trigger] post[i]),
{
    lemma_same_layout(pre, post);
    assert forall|i: int| 0 <= i < pre.len() && selectable(pre[i]) implies selectable(
        #[trigger] post[i],
    ) by {
        assert(same_output(&pre[i], &post[i]));
    }
}

/// The error that is kept is that of the last monitor on which the selection could not be shown, and
/// an earlier one if it could be shown on all of them.
pub proof fn the_last_error_is_kept(
    boxes: Seq<(OutputKey, BoxResult)>,
    n: int,
    first: Option<StateError>,
)
    requires
        0 <= n <= boxes.len(),
    ensures
        (forall|k: int| 0 <= k < n ==> (#[trigger] boxes[k]).1 is Ok) ==> last_error(boxes, n, first)
            == first,
        forall|k: int|
            0 <= k < n && (#[trigger] boxes[k]).1 is Err && (forall|j: int|
                k < j < n ==> (#[trigger] boxes[j]).1 is Ok) ==> last_error(boxes, n, first) == Some(
                StateError::Overlay(boxes[k].0, boxes[k].1->Err_0),
            ),
    decreases n,
{
    if n > 0 {
        the_last_error_is_kept(boxes, n - 1, first);
        assert(boxes[n - 1].1 is Ok || boxes[n - 1].1 is Err);
    }
}

/// The pointer is followed only while something is selected and it is on a monitor.
pub proof fn the_pointer_is_followed_while_selecting(state: &State, i: int)
    requires
        0 <= i < state.outputs@.len(),
        forall|k: int| 0 <= k < i ==> (#[trigger] state.outputs@[k]).key != state.outputs@[i].key,
    ensures
        !(state.status is Selecting) || state.mouse.hover is None ==> followed(state) is None,
        state.status is Selecting ==> (state.mouse.hover matches Some(h) ==> h.outkey
            == state.outputs@[i].key ==> followed(state) == located(
            layout(state.outputs@),
            i,
            state.mouse.point,
        )),
{
    let s = layout(state.outputs@);
    if state.mouse.hover is Some && state.mouse.hover->0.outkey == state.outputs@[i].key {
        crate::wayland::state::monitors_are_found_by_key(s, state.outputs@[i].key, 0);
        assert(s[i].0 == state.outputs@[i].key);
        let j = slot_of(s, state.outputs@[i].key, 0)->0;
        assert(s[j].0 == state.outputs@[j].key);
    }
}

/// Every monitor shows its part of what is selected: whenever that changes, each layer is asked to
/// show what of the region lies on its monitor, and nothing where the region does not touch it. As
/// long as it stays the same, no layer is asked anything.
pub proof fn every_monitor_shows_its_part(
    pre: &State,
    post: &State,
    boxes: Seq<(OutputKey, BoxResult)>,
    k: int,
)
    requires
        updated(pre, post, boxes),
        0 <= k < pre.outputs@.len(),
    ensures
        ({
            let (state, redraw) = next_selection(
                layout(pre.outputs@),
                pre.mouse,
                pre.select_state,
                pre.windows@,
            );
            let o = pre.outputs@[k];
            &&& post.select_state == state
            &&& post.status == pre.status && post.mouse == pre.mouse && post.windows == pre.windows
            &&& redraw is None ==> post.outputs@[k] == o && boxes.len() == 0
            &&& redraw is Some ==> boxes.len() == pre.outputs@.len() && boxes[k].0 == o.key
                && post.outputs@[k].monitor == o.monitor
            &&& redraw matches Some(None) ==> boxed(
                &o.overlay->0,
                None,
                &post.outputs@[k].overlay->0,
                boxes[k].1,
            )
            &&& redraw matches Some(Some(region)) ==> boxed(
                &o.overlay->0,
                match o.monitor.rounded(region) {
                    Some((_, part)) => Some(part),
                    None => None,
                },
                &post.outputs@[k].overlay->0,
                boxes[k].1,
            )
        }),
{
    if next_selection(
        layout(pre.outputs@),
        pre.mouse,
        pre.select_state,
        pre.windows@,
    ).1 is Some {
        assert(same_output(&pre.outputs@[k], &post.outputs@[k]));
    }
}

} // verus!

//! Getting ready: monitors come and go, are captured and get their layers.

use vstd::prelude::*;

use crate::util::{LRegion, MRegion, Scale};
use crate::wayland::magnifier::Magnifier;
use crate::wayland::output::Output;
use crate::wayland::overlay::Overlay;
use crate::wayland::state::{find_output, layout, slot_of, State, StateError};
use crate::wayland::{
    Format, FormatSet, Mode, MouseState, OutputKey, SelectState, Selected, Status, Transform,
};

verus! {

/// How far along a status is.
pub open spec fn rank(status: Status) -> int {
    match status {
        Status::Initializing => 0,
        Status::Waiting => 1,
        Status::Selecting => 2,
        Status::Done(_) => 3,
    }
}

/// A capture that is needed is missing.
pub open spec fn shots_pending(state: &State) -> bool {
    state.mode.shot_spec() && exists|k: int|
        0 <= k < state.outputs@.len() && !(#[trigger] state.outputs@[k]).capture.done
}

/// A layer that is needed is missing or not set up.
pub open spec fn layers_pending(state: &State) -> bool {
    state.mode.sel_spec() && exists|k: int|
        0 <= k < state.outputs@.len() && !layer_ready(#[trigger] state.outputs@[k])
}

/// The monitor has a layer whose size is known.
pub open spec fn layer_ready(o: Output) -> bool {
    o.overlay matches Some(l) && l.res_spec() is Some
}

/// Nothing is known of the monitor but its key.
pub open spec fn fresh(o: Output, key: OutputKey) -> bool {
    &&& o.wf()
    &&& o.key == key
    &&& o.monitor.logical == (LRegion { x: 0, y: 0, width: 0, height: 0 })
    &&& o.monitor.physical == (MRegion { x: 0, y: 0, width: 0, height: 0 })
    &&& o.monitor.scale == (Scale { num: 0, den: 1 })
    &&& o.monitor.transform == Transform(0)
    &&& o.monitor.description@.len() == 0
    &&& o.capture.res is None
    &&& o.capture.format is None
    &&& forall|f: Format| !#[trigger] o.capture.shm_formats.has(f)
    &&& o.capture.transform == Transform(0)
    &&& o.capture.buffer is None
    &&& !o.capture.done
    &&& o.overlay is None
    &&& o.pending_done == 2
}

/// What is left to do to freeze a monitor.
#[derive(Debug, Clone, Copy)]
pub enum FinishStep {
    /// Nothing is selected, so nothing is frozen.
    Unneeded,
    /// The capture or the size of the layer is still missing.
    Pending,
    /// A dummy is to be attached, so that the layer is shown though nothing is drawn on it.
    Dummy { destination: (u32, u32), transform: Transform },
    /// The capture is to be attached, and a magnifier set up if there is one.
    Freeze { destination: (u32, u32), transform: Transform, magnifier: bool },
}

/// How frozen pictures are turned.
pub open spec fn freeze_spec(transform: Transform, weird: bool) -> Transform {
    if weird && transform.0 == 1 {
        Transform(3)
    } else if weird && transform.0 == 3 {
        Transform(1)
    } else {
        transform
    }
}

/// The magnifier is as new, for the monitor that `o` is.
pub open spec fn new_magnifier(m: Magnifier, o: Output) -> bool {
    &&& m.output == o.key
    &&& m.monitor == o.monitor
    &&& Some(m.frozen) == o.capture.buffer
    &&& m.pending is None
    &&& m.views@.len() == 0
    &&& m.last_view is None
    &&& !m.zoom_frame
}

/// What [`State::try_finish_overlay`] does for monitor `k`.
pub open spec fn finishes(pre: &State, k: int, post: &State, r: Result<FinishStep, StateError>) -> bool {
    let o = pre.outputs@[k];
    let layer = o.overlay->0;
    let transform = freeze_spec(layer.transform, pre.weird_transforms);
    if !pre.mode.sel_spec() {
        &&& r == Ok::<FinishStep, StateError>(FinishStep::Unneeded)
        &&& *post == *pre
    } else if (pre.mode.shot_spec() && !o.capture.done) || layer.res_spec() is None {
        &&& r == Ok::<FinishStep, StateError>(FinishStep::Pending)
        &&& *post == *pre
    } else if !pre.mode.shot_spec() {
        &&& r == Ok::<FinishStep, StateError>(
            FinishStep::Dummy { destination: layer.unscaled->0, transform },
        )
        &&& *post == *pre
    } else if layer.res_spec() != o.capture.shown_res() {
        &&& r == Err::<FinishStep, StateError>(StateError::Resolution(o.key))
        &&& *post == *pre
    } else {
        let magnifier = pre.mode == Mode::Region;
        &&& r == Ok::<FinishStep, StateError>(
            FinishStep::Freeze { destination: layer.unscaled->0, transform, magnifier },
        )
        &&& if magnifier {
            let p = post.outputs@[k];
            &&& post.same_but_outputs(pre)
            &&& post.error == pre.error
            &&& post.outputs@ == pre.outputs@.update(k, p)
            &&& p == (Output { overlay: p.overlay, ..o })
            &&& p.overlay is Some
            &&& p.overlay->0 == (Overlay { magnifier: p.overlay->0.magnifier, ..layer })
            &&& p.overlay->0.magnifier is Some
            &&& new_magnifier(p.overlay->0.magnifier->0, o)
        } else {
            *post == *pre
        }
    }
}

impl State {
    /// The start of a run.
    pub fn new(mode: Mode, weird_transforms: bool) -> (r: Self)
        ensures
            r.inv(),
            r.mode == mode,
            r.status == Status::Initializing,
            r.outputs@.len() == 0,
            r.mouse.hover is None,
            r.mouse.point.x.num == 0 && r.mouse.point.y.num == 0,
            r.select_state == SelectState::Hovering,
            r.windows@.len() == 0,
            r.weird_transforms == weird_transforms,
            r.error is None,
            forall|f: Format| !#[trigger] r.formats.has(f),
    {
        let point = crate::util::MLPoint::from_fixed(0, 0);
        State {
            mode,
            status: Status::Initializing,
            formats: FormatSet::new(),
            outputs: Vec::new(),
            mouse: MouseState { point, hover: None },
            select_state: SelectState::Hovering,
            windows: Vec::new(),
            weird_transforms,
            error: None,
        }
    }

    /// The position of the monitor with this key.
    pub fn find(&self, key: OutputKey) -> (r: Option<usize>)
        ensures
            match r {
                Some(i) => i < self.outputs@.len() && slot_of(layout(self.outputs@), key, 0)
                    == Some(i as int) && self.outputs@[i as int].key == key,
                None => slot_of(layout(self.outputs@), key, 0) is None,
            },
    {
        find_output(&self.outputs, key)
    }

    /// Whether a capture that is needed is missing.
    fn pending_shots(&self) -> (r: bool)
        ensures
            r == shots_pending(self),
    {
        if !self.mode.shot() {
            return false;
        }
        let mut k: usize = 0;
        while k < self.outputs.len()
            invariant
                self.mode.shot_spec(),
                k <= self.outputs@.len(),
                forall|i: int| 0 <= i < k ==> (#[trigger] self.outputs@[i]).capture.done,
            decreases self.outputs@.len() - k,
        {
            if !self.outputs[k].capture.done {
                return true;
            }
            k = k + 1;
        }
        false
    }

    /// Whether a layer that is needed is missing or not set up.
    fn pending_layers(&self) -> (r: bool)
        ensures
            r == layers_pending(self),
    {
        if !self.mode.sel() {
            return false;
        }
        let mut k: usize = 0;
        while k < self.outputs.len()
            invariant
                self.mode.sel_spec(),
                k <= self.outputs@.len(),
                forall|i: int| 0 <= i < k ==> layer_ready(#[trigger] self.outputs@[i]),
            decreases self.outputs@.len() - k,
        {
            let ready: bool = match &self.outputs[k].overlay {
                Some(o) => o.ready(),
                None => false,
            };
            if !ready {
                assert(!layer_ready(self.outputs@[k as int]));
                return true;
            }
            k = k + 1;
        }
        false
    }

    /// Moves on once everything that was waited for is there.
    pub fn update_status(&mut self)
        requires
            old(self).inv(),
        ensures
            final(self).inv(),
            *final(self) == if old(self).status is Waiting && !shots_pending(old(self))
                && !layers_pending(old(self)) {
                State {
                    status: if old(self).mode.sel_spec() {
                        Status::Selecting
                    } else {
                        Status::Done(Selected::Nothing)
                    },
                    ..*old(self)
                }
            } else {
                *old(self)
            },
            rank(old(self).status) <= rank(final(self).status),
    {
        let waiting: bool = match &self.status {
            Status::Waiting => true,
            _ => false,
        };
        if waiting && !self.pending_shots() && !self.pending_layers() {
            if self.mode.sel() {
                self.status = Status::Selecting;
            } else {
                self.status = Status::Done(Selected::Nothing);
            }
        }
    }

    /// Every global object has been announced.
    pub fn synced(&mut self)
        requires
            old(self).inv(),
        ensures
            final(self).inv(),
            *final(self) == if old(self).status is Initializing {
                State { status: Status::Waiting, ..*old(self) }
            } else {
                *old(self)
            },
            rank(old(self).status) <= rank(final(self).status),
    {
        let initializing: bool = match &self.status {
            Status::Initializing => true,
            _ => false,
        };
        if initializing {
            self.status = Status::Waiting;
        }
    }

    /// A monitor was announced. Returns whether it is used: after the first ones are known, that
    /// is an error.
    pub fn add_output(&mut self, key: OutputKey) -> (r: bool)
        requires
            old(self).inv(),
        ensures
            final(self).inv(),
            r == old(self).status is Initializing,
            !r ==> *final(self) == (State { error: Some(StateError::NewOutput), ..*old(self) }),
            r ==> final(self).same_but_outputs(old(self)) && final(self).error == old(self).error,
            r ==> match slot_of(layout(old(self).outputs@), key, 0) {
                Some(i) => {
                    &&& final(self).outputs@ == old(self).outputs@.update(
                        i,
                        final(self).outputs@[i],
                    )
                    &&& fresh(final(self).outputs@[i], key)
                },
                None => exists|i: int|
                    {
                        &&& 0 <= i <= old(self).outputs@.len()
                        &&& final(self).outputs@ == old(self).outputs@.insert(
                            i,
                            final(self).outputs@[i],
                        )
                        &&& #[trigger] fresh(final(self).outputs@[i], key)
                    },
            },
    {
        let initializing: bool = match &self.status {
            Status::Initializing => true,
            _ => false,
        };
        if !initializing {
            self.error = Some(StateError::NewOutput);
            return false;
        }
        let ghost before = self.outputs@;
        let output = Output::new(key);
        match find_output(&self.outputs, key) {
            Some(i) => {
                self.outputs.set(i, output);
                assert(self.outputs@ =~= before.update(i as int, self.outputs@[i as int]));
            },
            None => {
                let mut i: usize = 0;
                while i < self.outputs.len() && self.outputs[i].key.0 < key.0
                    invariant
                        i <= self.outputs@.len(),
                        self.outputs@ == before,
                        forall|k: int| 0 <= k < i ==> (#[trigger] before[k]).key.0 < key.0,
                    decreases self.outputs@.len() - i,
                {
                    i = i + 1;
                }
                proof {
                    if i < before.len() && before[i as int].key == key {
                        crate::wayland::state::lemma_slot_found(layout(before), 0, i as int);
                    }
                    assert(i < before.len() ==> key.0 < before[i as int].key.0);
                }
                self.outputs.insert(i, output);
                proof {
                    let after = self.outputs@;
                    assert(after =~= before.insert(i as int, after[i as int]));
                    assert(fresh(after[i as int], key));
                    assert forall|a: int, b: int| 0 <= a < b < after.len() implies (
                    #[trigger] after[a]).key.0 < (#[trigger] after[b]).key.0 by {
                        let x = if a < i {
                            a
                        } else {
                            a - 1
                        };
                        let y = if b < i {
                            b
                        } else {
                            b - 1
                        };
                        if a != i {
                            assert(after[a] == before[x]);
                        }
                        if b != i {
                            assert(after[b] == before[y]);
                        }
                        if a != i && b != i {
                            assert(before[x].key.0 < before[y].key.0);
                        }
                        if a == i && b - 1 > i {
                            assert(before[i as int].key.0 < before[y].key.0);
                        }
                    }
                    assert forall|k: int| 0 <= k < after.len() implies (#[trigger] after[k]).wf() by {
                        if k < i {
                            assert(after[k] == before[k]);
                        } else if k > i {
                            assert(after[k] == before[k - 1]);
                        }
                    }
                }
            },
        }
        true
    }

    /// A global object was removed. If it was a monitor, that is an error.
    pub fn remove_output(&mut self, key: OutputKey)
        requires
            old(self).inv(),
        ensures
            final(self).inv(),
            final(self).same_but_outputs(old(self)),
            match slot_of(layout(old(self).outputs@), key, 0) {
                Some(i) => {
                    &&& final(self).outputs@ == old(self).outputs@.remove(i)
                    &&& final(self).error == Some(StateError::RemovedOutput(key))
                },
                None => *final(self) == *old(self),
            },
    {
        match find_output(&self.outputs, key) {
            Some(i) => {
                let ghost before = self.outputs@;
                let _removed = self.outputs.remove(i);
                self.error = Some(StateError::RemovedOutput(key));
                proof {
                    let after = self.outputs@;
                    assert forall|a: int, b: int| 0 <= a < b < after.len() implies (
                    #[trigger] after[a]).key.0 < (#[trigger] after[b]).key.0 by {
                        let x = if a < i {
                            a
                        } else {
                            a + 1
                        };
                        let y = if b < i {
                            b
                        } else {
                            b + 1
                        };
                        assert(after[a] == before[x] && after[b] == before[y]);
                        assert(before[x].key.0 < before[y].key.0);
                    }
                    assert forall|k: int| 0 <= k < after.len() implies (#[trigger] after[k]).wf() by {
                        if k < i {
                            assert(after[k] == before[k]);
                        } else {
                            assert(after[k] == before[k + 1]);
                        }
                    }
                }
            },
            None => {},
        }
    }

    /// Decides how a monitor is frozen, once its capture and the size of its layer are known.
    pub fn try_finish_overlay(&mut self, key: OutputKey) -> (r: Result<FinishStep, StateError>)
        requires
            old(self).inv(),
            slot_of(layout(old(self).outputs@), key, 0) is Some,
            ({
                let o = old(self).outputs@[slot_of(layout(old(self).outputs@), key, 0)->0];
                &&& old(self).mode.sel_spec() ==> o.overlay is Some
                &&& old(self).mode == Mode::Region ==> o.overlay->0.magnifier is None
            }),
        ensures
            final(self).inv(),
            finishes(old(self), slot_of(layout(old(self).outputs@), key, 0)->0, final(self), r),
    {
        if !self.mode.sel() {
            return Ok(FinishStep::Unneeded);
        }
        let k: usize = find_output(&self.outputs, key).unwrap();
        let ghost before = self.outputs@;
        let out = &self.outputs[k];
        let capture = out.capture;
        assert(out.wf());
        let shot: bool = self.mode.shot();
        if shot && !capture.done {
            return Ok(FinishStep::Pending);
        }
        let (res, destination, turned) = match &out.overlay {
            None => {
                return Ok(FinishStep::Pending);
            },
            Some(o) => match (o.initialized_res(), o.unscaled) {
                (Some(res), Some(unscaled)) => (res, unscaled, o.transform),
                _ => {
                    return Ok(FinishStep::Pending);
                },
            },
        };
        let transform = turned.freeze_transform(self.weird_transforms);
        if !shot {
            return Ok(FinishStep::Dummy { destination, transform });
        }
        let shown = capture.transformed_res().unwrap();
        if res.0 != shown.0 || res.1 != shown.1 {
            return Err(StateError::Resolution(key));
        }
        let magnifier: bool = self.mode.magnifier();
        if magnifier {
            let mag = Magnifier::new(key, &out.monitor, capture.buffer.unwrap());
            match &mut self.outputs[k].overlay {
                Some(o) => {
                    o.magnifier = Some(mag);
                },
                None => {},
            }
            proof {
                let after = self.outputs@;
                assert(after =~= before.update(k as int, after[k as int]));
                assert forall|i: int| 0 <= i < after.len() implies (#[trigger] after[i]).wf() by {
                    if i != k {
                        assert(after[i] == before[i]);
                    }
                }
                assert forall|a: int, b: int| 0 <= a < b < after.len() implies (
                #[trigger] after[a]).key.0 < (#[trigger] after[b]).key.0 by {
                    assert(before[a].key.0 < before[b].key.0);
                }
            }
        }
        Ok(FinishStep::Freeze { destination, transform, magnifier })
    }
}

/// Compositors that turn frozen pictures the other way are met by swapping the two quarter turns;
/// nothing else is ever swapped, and doing it twice changes nothing.
pub proof fn only_quarter_turns_are_swapped(t: Transform, weird: bool)
    ensures
        !weird ==> freeze_spec(t, weird) == t,
        freeze_spec(freeze_spec(t, weird), weird) == t,
        t.0 != 1 && t.0 != 3 ==> freeze_spec(t, weird) == t,
        freeze_spec(Transform(1), true) == Transform(3),
        freeze_spec(Transform(3), true) == Transform(1),
{
}

/// A run waits as long as one monitor that a screenshot is taken of is not captured, or one that
/// something is selected on has no layer or one whose size or scale is unknown. A single monitor is
/// enough, whichever it is.
pub proof fn every_monitor_is_waited_for(state: &State, k: int)
    requires
        0 <= k < state.outputs@.len(),
    ensures
        !state.outputs@[k].capture.done && (state.mode == Mode::ScreenshotOnly || state.mode
            == Mode::Region) ==> shots_pending(state),
        state.outputs@[k].overlay is None && (state.mode == Mode::PickWindow || state.mode
            == Mode::Region) ==> layers_pending(state),
        state.outputs@[k].overlay is Some && (state.outputs@[k].overlay->0.unscaled is None
            || state.outputs@[k].overlay->0.scale is None) && (state.mode == Mode::PickWindow
            || state.mode == Mode::Region) ==> layers_pending(state),
{
    let o = state.outputs@[k];
    assert(o.overlay is None ==> !layer_ready(o));
}

/// A run waits for nothing else: once each monitor is captured and has a layer with a size and a
/// scale, or neither is called for, it goes on.
pub proof fn nothing_else_is_waited_for(state: &State)
    ensures
        (forall|k: int| 0 <= k < state.outputs@.len() ==> (#[trigger] state.outputs@[k]).capture.done)
            ==> !shots_pending(state),
        (forall|k: int|
            0 <= k < state.outputs@.len() ==> (#[trigger] state.outputs@[k]).overlay is Some
                && state.outputs@[k].overlay->0.unscaled is Some
                && state.outputs@[k].overlay->0.scale is Some) ==> !layers_pending(state),
        state.mode == Mode::PickWindow ==> !shots_pending(state),
        state.mode == Mode::ScreenshotOnly ==> !layers_pending(state),
{
}

/// A run goes through its states in order: it starts, waits, lets something be selected, and ends.
pub proof fn states_come_in_order(selected: crate::wayland::Selected)
    ensures
        rank(Status::Initializing) < rank(Status::Waiting) < rank(Status::Selecting) < rank(
            Status::Done(selected),
        ),
{
}

/// A layer is finished as its monitor calls for: in a mode that takes a screenshot only once the
/// capture is done, and only if the capture as shown is as large as the layer in physical pixels.
pub proof fn layers_are_finished_by_mode(
    pre: &State,
    k: int,
    post: &State,
    r: Result<FinishStep, StateError>,
)
    requires
        finishes(pre, k, post, r),
    ensures
        ({
            let o = pre.outputs@[k];
            let layer = o.overlay->0;
            &&& pre.mode == Mode::ScreenshotOnly ==> (r matches Ok(FinishStep::Unneeded))
            &&& pre.mode == Mode::Region && !o.capture.done ==> (r matches Ok(FinishStep::Pending))
            &&& pre.mode != Mode::ScreenshotOnly && (layer.unscaled is None || layer.scale is None)
                ==> (r matches Ok(FinishStep::Pending))
            &&& pre.mode == Mode::PickWindow && layer.unscaled is Some && layer.scale is Some ==> (
            r matches Ok(FinishStep::Dummy { destination, .. }) && Some(destination)
                == layer.unscaled)
            &&& pre.mode == Mode::Region && o.capture.done && layer.res_spec() is Some
                && layer.res_spec() == o.capture.shown_res() ==> (
            r matches Ok(FinishStep::Freeze { destination, magnifier, .. }) && Some(destination)
                == layer.unscaled && magnifier)
            &&& pre.mode == Mode::Region && o.capture.done && layer.res_spec() is Some
                && layer.res_spec() != o.capture.shown_res() ==> r == Err::<FinishStep, StateError>(
                StateError::Resolution(o.key),
            )
        }),
{
}

/// Of a monitor that was just announced nothing is known but its key: it has no size, no layer and
/// no capture, and two descriptions are to come.
pub proof fn new_monitors_are_blank(o: Output, key: OutputKey)
    requires
        fresh(o, key),
    ensures
        o.key == key,
        o.pending_done == 2,
        o.overlay is None,
        !o.capture.done && o.capture.buffer is None && o.capture.res is None,
        o.monitor.physical.width == 0 && o.monitor.physical.height == 0,
        o.monitor.logical.width == 0 && o.monitor.logical.height == 0,
        o.monitor.transform.0 == 0,
        !layer_ready(o),
{
}

} // verus!

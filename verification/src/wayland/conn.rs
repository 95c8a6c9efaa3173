//! What a connection to the compositor does with its state.

use vstd::prelude::*;

use crate::ipc::Window;
use crate::wayland::state::{State, StateError};
use crate::wayland::{Mode, Selected, Status};

verus! {

/// What kind of input or output error came.
#[derive(Debug, Clone, Copy, PartialEq, Eq, Structural)]
pub enum IoKind {
    WouldBlock,
    Interrupted,
    Other,
}

/// Why talking to the compositor failed.
#[derive(Debug, Clone, Copy, PartialEq, Eq, Structural)]
pub enum WaylandFailure {
    Io(IoKind),
    Protocol,
}

/// Why handling events failed.
#[derive(Debug, Clone, Copy, PartialEq, Eq, Structural)]
pub enum DispatchFailure {
    Backend(WaylandFailure),
    BadMessage,
}

/// The error goes away by itself.
pub open spec fn passing(kind: IoKind) -> bool {
    kind == IoKind::WouldBlock || kind == IoKind::Interrupted
}

/// Whether the error goes away by itself.
pub fn ignore_error(kind: IoKind) -> (r: bool)
    ensures
        r == passing(kind),
{
    match kind {
        IoKind::WouldBlock | IoKind::Interrupted => true,
        IoKind::Other => false,
    }
}

/// Whether the failure goes away by itself.
pub fn ignore_wayland(failure: WaylandFailure) -> (r: bool)
    ensures
        r == (failure matches WaylandFailure::Io(kind) && passing(kind)),
{
    match failure {
        WaylandFailure::Io(kind) => ignore_error(kind),
        WaylandFailure::Protocol => false,
    }
}

/// Whether the failure goes away by itself.
pub fn ignore_dispatch(failure: DispatchFailure) -> (r: bool)
    ensures
        r == (failure matches DispatchFailure::Backend(WaylandFailure::Io(kind)) && passing(kind)),
{
    match failure {
        DispatchFailure::Backend(f) => ignore_wayland(f),
        DispatchFailure::BadMessage => false,
    }
}

/// What a run does next.
#[derive(Debug, Clone, Copy, PartialEq, Eq, Structural)]
pub enum RunStep {
    /// Waits for the compositor.
    Poll,
    /// Follows the pointer once, to highlight what it is over already.
    Highlight,
    /// Something was selected.
    Finished,
}

impl State {
    /// Starts a selection among `windows`. There has to be one if one is to be picked.
    pub fn begin(&mut self, windows: Vec<Window>) -> (r: Result<(), StateError>)
        requires
            old(self).inv(),
        ensures
            final(self).inv(),
            r == if old(self).mode == Mode::PickWindow && windows@.len() == 0 {
                Err::<(), StateError>(StateError::NoWindows)
            } else {
                Ok(())
            },
            *final(self) == if r is Ok {
                State { windows, ..*old(self) }
            } else {
                *old(self)
            },
    {
        let pick: bool = match self.mode {
            Mode::PickWindow => true,
            _ => false,
        };
        if pick && windows.len() == 0 {
            return Err(StateError::NoWindows);
        }
        self.windows = windows;
        Ok(())
    }

    /// What a run does next. `highlighted` says whether the pointer was followed since selecting
    /// became possible.
    pub fn run(&self, highlighted: bool) -> (r: Result<RunStep, StateError>)
        ensures
            r == if !(self.status is Selecting) && !(self.status is Done) {
                Ok::<RunStep, StateError>(RunStep::Poll)
            } else if self.outputs@.len() == 0 {
                Err(StateError::NoMonitors)
            } else if self.mode.sel_spec() && !highlighted {
                Ok(RunStep::Highlight)
            } else if self.status is Done {
                Ok(RunStep::Finished)
            } else {
                Ok(RunStep::Poll)
            },
    {
        let (selecting, done): (bool, bool) = match &self.status {
            Status::Selecting => (true, false),
            Status::Done(_) => (false, true),
            _ => (false, false),
        };
        if !selecting && !done {
            return Ok(RunStep::Poll);
        }
        if self.outputs.len() == 0 {
            return Err(StateError::NoMonitors);
        }
        if self.mode.sel() && !highlighted {
            return Ok(RunStep::Highlight);
        }
        if done {
            Ok(RunStep::Finished)
        } else {
            Ok(RunStep::Poll)
        }
    }

    /// What was selected, if anything was.
    pub fn selected(&self) -> (r: Option<&Selected>)
        ensures
            match r {
                Some(s) => self.status == Status::Done(*s),
                None => !(self.status is Done),
            },
    {
        match &self.status {
            Status::Done(s) => Some(s),
            _ => None,
        }
    }

    /// Selects `window` where nothing was selected.
    pub fn screenshot_window(&mut self, window: Window) -> (r: Result<(), StateError>)
        requires
            old(self).inv(),
            window.wf(),
        ensures
            final(self).inv(),
            r == if old(self).status == Status::Done(Selected::Nothing) {
                Ok::<(), StateError>(())
            } else {
                Err(StateError::NotNothing)
            },
            *final(self) == if r is Ok {
                State { status: Status::Done(Selected::Window(window)), ..*old(self) }
            } else {
                *old(self)
            },
    {
        let nothing: bool = match &self.status {
            Status::Done(Selected::Nothing) => true,
            _ => false,
        };
        if !nothing {
            return Err(StateError::NotNothing);
        }
        self.status = Status::Done(Selected::Window(window));
        Ok(())
    }
}

/// Every error but those that say to try again ends the run.
pub proof fn other_errors_stay(kind: IoKind)
    ensures
        passing(kind) <==> kind != IoKind::Other,
{
}

} // verus!

//! What can be asked for on the command line.

use vstd::prelude::*;

use crate::ipc::Window;
use crate::wayland::{Mode, Selected};

verus! {

/// What to do.
#[derive(Debug, Clone, Copy, PartialEq, Eq, Structural)]
pub enum Command {
    /// Take a screenshot of the active window.
    Window,
    /// Take a screenshot of the entire desktop.
    Desktop {
        /// Do not scale the screenshots.
        unscaled: bool,
    },
    /// Select a region and take a screenshot of it.
    Region,
    /// Get the name for a screenshot without taking it.
    Name,
    /// Show what is known of a window.
    Prop,
    /// Show what is known of all visible windows.
    VisibleWindows,
}

/// All that can be given on the command line.
#[derive(Debug)]
pub struct Opt {
    /// Another configuration.
    pub awconf: Option<String>,
    /// Write nothing.
    pub dry_run: bool,
    pub cmd: Command,
}

/// Why a command ends without result.
#[derive(Debug, Clone, Copy, PartialEq, Eq, Structural)]
pub enum CommandError {
    /// There is no active window.
    NoActiveWindow,
    /// Something was selected though nothing can be.
    ExpectedNothing,
    /// Nothing was selected.
    ExpectedSomething,
    /// No window was selected.
    NoWindow,
}

impl Command {
    /// What others are told of the command.
    pub fn name(&self) -> (r: &'static str)
        ensures
            r@ == match self {
                Command::Window => "window"@,
                Command::Desktop { .. } => "desktop"@,
                Command::Region => "region"@,
                Command::Name => "name"@,
                Command::Prop => "prop"@,
                Command::VisibleWindows => "visible_windows"@,
            },
    {
        match self {
            Command::Window => "window",
            Command::Desktop { .. } => "desktop",
            Command::Region => "region",
            Command::Name => "name",
            Command::Prop => "prop",
            Command::VisibleWindows => "visible_windows",
        }
    }

    /// How the display is used, if it is.
    pub fn mode(&self) -> (r: Option<Mode>)
        ensures
            r == match self {
                Command::Window | Command::Desktop { .. } => Some(Mode::ScreenshotOnly),
                Command::Region => Some(Mode::Region),
                Command::Name | Command::Prop => Some(Mode::PickWindow),
                Command::VisibleWindows => None,
            },
    {
        match self {
            Command::Window | Command::Desktop { .. } => Some(Mode::ScreenshotOnly),
            Command::Region => Some(Mode::Region),
            Command::Name | Command::Prop => Some(Mode::PickWindow),
            Command::VisibleWindows => None,
        }
    }

    /// Whether the command can go on with what was selected.
    pub fn check(&self, selection: &Selected) -> (r: Result<(), CommandError>)
        ensures
            r == match self {
                Command::Window | Command::Desktop { .. } => if selection is Nothing {
                    Ok::<(), CommandError>(())
                } else {
                    Err(CommandError::ExpectedNothing)
                },
                Command::Region => if selection is Nothing {
                    Err(CommandError::ExpectedSomething)
                } else {
                    Ok(())
                },
                Command::Name => if selection is Window {
                    Ok(())
                } else {
                    Err(CommandError::NoWindow)
                },
                Command::Prop | Command::VisibleWindows => Ok(()),
            },
    {
        match (self, selection) {
            (Command::Window | Command::Desktop { .. }, Selected::Nothing) => Ok(()),
            (Command::Window | Command::Desktop { .. }, _) => Err(CommandError::ExpectedNothing),
            (Command::Region, Selected::Nothing) => Err(CommandError::ExpectedSomething),
            (Command::Region, _) => Ok(()),
            (Command::Name, Selected::Window(_)) => Ok(()),
            (Command::Name, _) => Err(CommandError::NoWindow),
            (Command::Prop, _) | (Command::VisibleWindows, _) => Ok(()),
        }
    }
}

/// The only one of the active windows.
pub fn active_window(windows: Vec<Window>) -> (r: Result<Window, CommandError>)
    ensures
        match r {
            Ok(w) => windows@ == seq![w],
            Err(e) => windows@.len() != 1 && e == CommandError::NoActiveWindow,
        },
{
    let mut windows = windows;
    if windows.len() != 1 {
        return Err(CommandError::NoActiveWindow);
    }
    let ghost before = windows@;
    let w = windows.swap_remove(0);
    assert(before =~= seq![w]);
    Ok(w)
}

} // verus!

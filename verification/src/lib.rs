//! Taking screenshots of a Wayland desktop and filing them by application.
//!
//! Everything that decides or computes lives here: geometry, picture
//! composition, naming, and the selection state machine.

pub mod app;
pub mod command;
pub mod config;
pub mod coord;
pub mod geometry;
pub mod img;
pub mod ipc;
pub mod name;
pub mod overrides;
pub mod path;
pub mod pixels;
pub mod process;
pub mod selection;
pub mod stamp;
pub mod text;
pub mod util;
pub mod wayland;

//! The decisions of a status-bar helper for the AeroSpace window manager.
//!
//! The helper hears of events from AeroSpace, from the applications that run and from a socket,
//! asks AeroSpace how the windows are laid out, and has the bar and the window border redrawn.
//! All that it decides on the way is here, as functions on plain values; the program around the
//! library runs the commands, reads the files and waits for the events.

pub mod bar;
pub mod bar_laws;
pub mod borders;
pub mod command;
pub mod events;
pub mod icons;
pub mod instance;
pub mod item_laws;
pub mod monitor_laws;
pub mod number;
pub mod paths;
pub mod state;
pub mod text;
pub mod text_laws;
pub mod window_laws;
pub mod windows;
pub mod word_laws;

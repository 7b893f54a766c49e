//! Decisions around the desktop: displays, windows, hotkeys, and where the app's own windows
//! may stand while a region is recorded.

pub mod border;
pub mod chord;
pub mod displays;
pub mod engine;
pub mod wall;
pub mod windows;

//! The verified core of Vuoom, a screen recorder and editor: capture geometry, frame
//! storage, GIF and PNG encoding, input normalization, zoom planning, the cut/speed
//! timeline and the editor's document operations.
//!
//! Times are whole nanoseconds and normalized coordinates are billionths of the full
//! extent, so every rule is stated and proved over integers.

pub mod bytes;
pub mod capture;
pub mod desktop;
pub mod encode;
pub mod input;
pub mod prefs;
pub mod preview;
pub mod project;
pub mod render;
pub mod session;
pub mod sort;
pub mod store;
pub mod text;
pub mod units;
pub mod zoom;

//! From the project to what is drawn: layout, draw list and pixel rows.

pub mod layout;
pub mod readback;
pub mod scene;

//! Disk-backed recordings: the frame store's layout and the recovery sessions.

pub mod bundle;
pub mod frames;
pub mod sessions;

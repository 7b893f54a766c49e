//! The live preview: its frame protocol and its access check.

pub mod auth;
pub mod protocol;

//! Global input: the clock, raw events, key labels and normalization.

pub mod clock;
pub mod event;
pub mod hook;
pub mod keys;
pub mod normalize;

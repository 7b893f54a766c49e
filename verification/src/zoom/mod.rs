//! Auto-zoom: events, configuration, planning, editing and the virtual camera.

pub mod camera;
pub mod config;
pub mod edit;
pub mod event;
pub mod keyframe;
pub mod planner;

//! The project model: every non-destructive edit, and how it maps to what is shown.

pub mod annotation;
pub mod color;
pub mod crop;
pub mod frame;
pub mod manifest;
pub mod model;
pub mod timeline;
pub mod timing;

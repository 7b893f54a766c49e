//! GIF and PNG encoding.

pub mod delta;
pub mod error;
pub mod gif_file;
pub mod image;
pub mod native;
pub mod plan;
pub mod quantize;
pub mod scale;
pub mod settings;
pub mod video;

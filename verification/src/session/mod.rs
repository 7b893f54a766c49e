//! Recording, editing and export decisions around one clip.

pub mod annotate;
pub mod arrange;
pub mod drain;
pub mod edit_frame;
pub mod edit_time;
pub mod edit_zoom;
pub mod error;
pub mod export;
pub mod finish;
pub mod ids;
pub mod playback;
pub mod restyle;
pub mod screenshot;
pub mod space;
pub mod state;
pub mod take;
pub mod taps;
pub mod target;

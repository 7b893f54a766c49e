//! Encoder error type.

use vstd::prelude::*;

verus! {

/// Errors from the export path.
#[derive(Debug)]
pub enum EncodeError {
    /// There were no frames to encode.
    NoFrames,
    /// A filesystem operation failed; holds the operating system's description.
    Io(String),
    /// PNG encoding failed.
    Png(String),
    /// Native (pure-Rust) GIF encoding failed.
    Gif(String),
}

impl EncodeError {
    /// The text shown for an error.
    pub open spec fn text(self) -> Seq<char> {
        match self {
            EncodeError::NoFrames => "no frames to encode"@,
            EncodeError::Io(_) => "io error"@,
            EncodeError::Png(m) => "png encoding failed: "@ + m@,
            EncodeError::Gif(m) => "gif encoding failed: "@ + m@,
        }
    }

    /// Human-readable description of the error.
    pub fn message(&self) -> (s: String)
        ensures
            s@ == self.text(),
    {
        match self {
            EncodeError::NoFrames => "no frames to encode".to_owned(),
            EncodeError::Io(_) => "io error".to_owned(),
            EncodeError::Png(m) => {
                let mut s = "png encoding failed: ".to_owned();
                s.push_str(m.as_str());
                s
            },
            EncodeError::Gif(m) => {
                let mut s = "gif encoding failed: ".to_owned();
                s.push_str(m.as_str());
                s
            },
        }
    }
}

} // verus!

//! Why an edit was refused.

use vstd::prelude::*;

verus! {

/// Why an edit was refused.
#[derive(Debug, PartialEq, Eq)]
pub enum EditError {
    NoRecording,
    NoSuchText,
    NoSuchArrow,
    NoSuchBox,
    NoSuchHighlight,
    NoSuchAnnotation,
    NoSuchArrowOrHighlight,
    NoSuchSpeedRegion,
    NoSuchCut,
    NoSuchZoom,
    NoRoomForZoom,
    TrimTooShort,
    UnknownBackground,
    /// The direction that was asked for.
    BadReorder(String),
}

impl EditError {
    /// The text shown to the user.
    pub open spec fn text(self) -> Seq<char> {
        match self {
            EditError::NoRecording => "no recording"@,
            EditError::NoSuchText => "no such text"@,
            EditError::NoSuchArrow => "no such arrow"@,
            EditError::NoSuchBox => "no such box"@,
            EditError::NoSuchHighlight => "no such highlight"@,
            EditError::NoSuchAnnotation => "no such annotation"@,
            EditError::NoSuchArrowOrHighlight => "no such arrow or highlight"@,
            EditError::NoSuchSpeedRegion => "no such speed region"@,
            EditError::NoSuchCut => "no such cut"@,
            EditError::NoSuchZoom => "no such zoom segment"@,
            EditError::NoRoomForZoom => "no room for a zoom segment here"@,
            EditError::TrimTooShort => "trim range too short"@,
            EditError::UnknownBackground => "unknown background preset"@,
            EditError::BadReorder(dir) => "bad reorder dir: "@ + dir@,
        }
    }

    /// The text shown to the user.
    pub fn message(&self) -> (s: String)
        ensures
            s@ == self.text(),
    {
        match self {
            EditError::NoRecording => "no recording".to_owned(),
            EditError::NoSuchText => "no such text".to_owned(),
            EditError::NoSuchArrow => "no such arrow".to_owned(),
            EditError::NoSuchBox => "no such box".to_owned(),
            EditError::NoSuchHighlight => "no such highlight".to_owned(),
            EditError::NoSuchAnnotation => "no such annotation".to_owned(),
            EditError::NoSuchArrowOrHighlight => "no such arrow or highlight".to_owned(),
            EditError::NoSuchSpeedRegion => "no such speed region".to_owned(),
            EditError::NoSuchCut => "no such cut".to_owned(),
            EditError::NoSuchZoom => "no such zoom segment".to_owned(),
            EditError::NoRoomForZoom => "no room for a zoom segment here".to_owned(),
            EditError::TrimTooShort => "trim range too short".to_owned(),
            EditError::UnknownBackground => "unknown background preset".to_owned(),
            EditError::BadReorder(dir) => {
                let mut s = "bad reorder dir: ".to_owned();
                s.push_str(dir);
                s
            },
        }
    }
}

} // verus!

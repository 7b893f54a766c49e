//! Zoom segments on the timeline: what the planner produces, the editor mutates and the
//! camera follows.

use crate::text::{lowered, normalize_label, same_text, trimmed};
use crate::zoom::event::Point;
use vstd::prelude::*;

verus! {

/// How a zoom segment chooses its focus point.
#[derive(Debug, Clone, Copy, PartialEq, Eq, Structural)]
pub enum ZoomMode {
    /// Follow the smoothed cursor path during the segment.
    Auto,
    /// Hold a fixed normalized focus point.
    Manual { pos: Point },
}

/// Per-segment easing "feel": scales the zoom and pan spring half-lives so an individual
/// zoom can settle faster or gentler than the global defaults.
#[derive(Debug, Clone, Copy, PartialEq, Eq, Structural)]
pub enum ZoomStyle {
    /// Default cinematic glide, no change to the configured half-lives.
    Smooth,
    /// Faster settle, shorter half-lives, a punchier zoom.
    Snappy,
    /// Gentler, more cinematic, longer half-lives, a slower drift.
    Slow,
}

impl Default for ZoomStyle {
    fn default() -> (s: Self)
        ensures
            s == ZoomStyle::Smooth,
    {
        ZoomStyle::Smooth
    }
}

impl ZoomStyle {
    /// The style a label names.
    pub open spec fn labeled(text: Seq<char>) -> Option<ZoomStyle> {
        let label = lowered(trimmed(text));
        if label == "smooth"@ {
            Some(ZoomStyle::Smooth)
        } else if label == "snappy"@ {
            Some(ZoomStyle::Snappy)
        } else if label == "slow"@ {
            Some(ZoomStyle::Slow)
        } else {
            None
        }
    }

    /// Multiplier, in hundredths, applied to the zoom and pan spring half-lives for this
    /// style: below a hundred settles faster, above it slower.
    pub fn half_life_mul(self) -> (m: i64)
        ensures
            m == (match self {
                ZoomStyle::Smooth => 100i64,
                ZoomStyle::Snappy => 55i64,
                ZoomStyle::Slow => 180i64,
            }),
    {
        match self {
            ZoomStyle::Smooth => 100,
            ZoomStyle::Snappy => 55,
            ZoomStyle::Slow => 180,
        }
    }

    /// Parse a case-insensitive label (`"smooth"`, `"snappy"`, `"slow"`), ignoring white
    /// space around it.
    pub fn from_label(s: &str) -> (style: Option<ZoomStyle>)
        ensures
            style == ZoomStyle::labeled(s@),
    {
        let label = normalize_label(s);
        proof {
            reveal_strlit("smooth");
            reveal_strlit("snappy");
            reveal_strlit("slow");
        }
        if same_text(label.as_str(), "smooth") {
            Some(ZoomStyle::Smooth)
        } else if same_text(label.as_str(), "snappy") {
            Some(ZoomStyle::Snappy)
        } else if same_text(label.as_str(), "slow") {
            Some(ZoomStyle::Slow)
        } else {
            None
        }
    }
}

/// One zoom segment on the timeline. Times are nanoseconds, the multiplier and the ratio
/// are billionths.
#[derive(Debug, Clone, Copy, PartialEq, Eq, Structural)]
pub struct ZoomKeyframe {
    /// Segment start time, including pre-roll.
    pub start: i64,
    /// Segment end time, after the hold.
    pub end: i64,
    /// Zoom multiplier (one = none).
    pub amount: i64,
    /// Focus behaviour.
    pub mode: ZoomMode,
    /// Edge-snap strength for this segment.
    pub edge_snap_ratio: i64,
    /// Easing preset for this segment's spring motion.
    pub style: ZoomStyle,
}

impl ZoomKeyframe {
    /// Whether a time falls within this segment.
    pub open spec fn covers(self, t: i64) -> bool {
        self.start <= t < self.end
    }

    /// Whether time `t` falls within this segment.
    pub fn contains(&self, t: i64) -> (r: bool)
        ensures
            r == self.covers(t),
    {
        t >= self.start && t < self.end
    }

    /// Segment duration (never negative).
    pub fn duration(&self) -> (d: u64)
        ensures
            d == (if self.end > self.start {
                self.end - self.start
            } else {
                0
            }),
    {
        if self.end > self.start {
            (self.end as i128 - self.start as i128) as u64
        } else {
            0
        }
    }
}

/// A style is told by its name, in capitals or not and with space around it or not.
pub proof fn styles_go_by_their_names(text: Seq<char>)
    ensures
        lowered(trimmed(text)) == "smooth"@ <==> ZoomStyle::labeled(text) == Some(ZoomStyle::Smooth),
        lowered(trimmed(text)) == "snappy"@ <==> ZoomStyle::labeled(text) == Some(ZoomStyle::Snappy),
        lowered(trimmed(text)) == "slow"@ <==> ZoomStyle::labeled(text) == Some(ZoomStyle::Slow),
{
    reveal_strlit("smooth");
    reveal_strlit("snappy");
    reveal_strlit("slow");
    assert("smooth"@[1] == 'm');
    assert("snappy"@[1] == 'n');
    assert("slow"@.len() == 4);
}

} // verus!

//! The normalized crop of a recording.

use crate::units::{clamp_i64, clamped, BILLION};
use vstd::prelude::*;

verus! {

/// A normalized crop rectangle in source space, in billionths.
#[derive(Debug, Clone, Copy, PartialEq, Eq, Structural)]
pub struct CropRect {
    pub x: i64,
    pub y: i64,
    pub w: i64,
    pub h: i64,
}

/// Smallest side of a crop: a twentieth of the frame.
pub const MIN_CROP: i64 = 50_000_000;

impl CropRect {
    /// Whether a crop covers (almost) the whole frame.
    pub open spec fn covers_all(self) -> bool {
        self.x <= 1_000_000 && self.y <= 1_000_000 && self.w >= 999_000_000 && self.h
            >= 999_000_000
    }

    /// The crop moved and sized to fit the frame.
    pub open spec fn fitted(self) -> CropRect {
        let w = clamped(self.w as int, MIN_CROP as int, BILLION as int);
        let h = clamped(self.h as int, MIN_CROP as int, BILLION as int);
        CropRect {
            x: clamped(self.x as int, 0, BILLION - w) as i64,
            y: clamped(self.y as int, 0, BILLION - h) as i64,
            w: w as i64,
            h: h as i64,
        }
    }

    /// The full-frame crop (no cropping).
    pub fn full() -> (c: Self)
        ensures
            c == (CropRect { x: 0, y: 0, w: BILLION, h: BILLION }),
    {
        CropRect { x: 0, y: 0, w: BILLION, h: BILLION }
    }

    /// `true` when the crop covers (almost) the whole frame and is a no-op.
    pub fn is_full(&self) -> (r: bool)
        ensures
            r == self.covers_all(),
    {
        self.x <= 1_000_000 && self.y <= 1_000_000 && self.w >= 999_000_000 && self.h
            >= 999_000_000
    }

    /// Clamp to a valid, non-degenerate crop inside the frame; `None` if that is no crop.
    pub fn sanitized(self) -> (c: Option<Self>)
        ensures
            c == (if self.fitted().covers_all() {
                None
            } else {
                Some(self.fitted())
            }),
    {
        let w: i64 = clamp_i64(self.w, MIN_CROP, BILLION);
        let h: i64 = clamp_i64(self.h, MIN_CROP, BILLION);
        let x: i64 = clamp_i64(self.x, 0, BILLION - w);
        let y: i64 = clamp_i64(self.y, 0, BILLION - h);
        let c = CropRect { x, y, w, h };
        if c.is_full() {
            None
        } else {
            Some(c)
        }
    }
}

/// A fitted crop lies inside the frame and is not degenerate; fitting it again changes
/// nothing.
pub proof fn crops_fit_the_frame(c: CropRect)
    ensures
        ({
            let f = c.fitted();
            &&& 0 <= f.x
            &&& 0 <= f.y
            &&& MIN_CROP <= f.w
            &&& MIN_CROP <= f.h
            &&& f.x + f.w <= BILLION
            &&& f.y + f.h <= BILLION
            &&& f.fitted() == f
        }),
{
}

/// Fitting a crop changes it only as far as it must, one axis at a time: a side within the
/// limits stays, and so does a corner with enough room beyond it; else the side is the nearest
/// limit, and the corner the nearest that leaves room.
pub proof fn fitting_changes_no_more_than_needed(c: CropRect)
    ensures
        ({
            let f = c.fitted();
            &&& 50_000_000 <= c.w <= BILLION ==> f.w == c.w
            &&& 50_000_000 <= c.h <= BILLION ==> f.h == c.h
            &&& c.w < 50_000_000 ==> f.w == 50_000_000
            &&& c.h < 50_000_000 ==> f.h == 50_000_000
            &&& c.w > BILLION ==> f.w == BILLION
            &&& c.h > BILLION ==> f.h == BILLION
            &&& 0 <= c.x && c.x + f.w <= BILLION ==> f.x == c.x
            &&& 0 <= c.y && c.y + f.h <= BILLION ==> f.y == c.y
            &&& c.x < 0 ==> f.x == 0
            &&& c.y < 0 ==> f.y == 0
            &&& c.x + f.w > BILLION && c.x >= 0 ==> f.x + f.w == BILLION
            &&& c.y + f.h > BILLION && c.y >= 0 ==> f.y + f.h == BILLION
        }),
{
}

/// A crop that leaves out no more than a thousandth on any side counts as none; one that
/// leaves out more does not.
pub proof fn full_crops_cover_the_frame(c: CropRect)
    ensures
        c.x == 0 && c.y == 0 && c.w == BILLION && c.h == BILLION ==> c.covers_all(),
        c.covers_all() ==> c.x <= 1_000_000 && c.y <= 1_000_000 && c.w >= 999_000_000 && c.h
            >= 999_000_000,
        c.x > 1_000_000 || c.y > 1_000_000 || c.w < 999_000_000 || c.h < 999_000_000
            ==> !c.covers_all(),
{
}

} // verus!

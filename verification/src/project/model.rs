//! The whole editable project: the single source of truth for every non-destructive edit.

use crate::project::annotation::{ArrowAnnotation, HighlightBox, TextAnnotation};
use crate::project::crop::CropRect;
use crate::project::frame::{dims_for, unframed, AspectRatio, FrameStyle};
use crate::project::timeline::{SpeedRegion, Trim};
use crate::zoom::config::{default_config, ZoomConfig};
use crate::zoom::event::InputEvent;
use crate::zoom::keyframe::ZoomKeyframe;
use vstd::prelude::*;

verus! {

/// Current manifest schema version.
pub const SCHEMA: u32 = 2;

/// Metadata about the captured intermediate the project edits.
#[derive(Debug)]
pub struct SourceInfo {
    /// Path to the near-lossless captured intermediate.
    pub path: String,
    pub width: u32,
    pub height: u32,
    /// Frames per second, in billionths.
    pub fps: i64,
    /// Recording duration in nanoseconds.
    pub duration: i64,
}

impl Clone for SourceInfo {
    fn clone(&self) -> (r: Self)
        ensures
            r == *self,
    {
        SourceInfo {
            path: self.path.clone(),
            width: self.width,
            height: self.height,
            fps: self.fps,
            duration: self.duration,
        }
    }
}

/// A labeled key press for the optional keystroke overlay. Only shortcuts and special keys
/// are recorded, never plain typed text.
#[derive(Debug)]
pub struct KeyTap {
    /// Press time in nanoseconds from the start of the recording.
    pub t: i64,
    pub label: String,
}

impl Clone for KeyTap {
    fn clone(&self) -> (r: Self)
        ensures
            r == *self,
    {
        KeyTap { t: self.t, label: self.label.clone() }
    }
}

/// The whole editable project.
#[derive(Debug)]
pub struct Project {
    /// Manifest schema version.
    pub schema: u32,
    pub source: SourceInfo,
    /// The tunables used to plan zooms (so re-planning is reproducible).
    pub zoom_config: ZoomConfig,
    pub zooms: Vec<ZoomKeyframe>,
    /// The normalized input log, kept so a reopened project can re-simulate the camera.
    pub events: Vec<InputEvent>,
    pub texts: Vec<TextAnnotation>,
    pub arrows: Vec<ArrowAnnotation>,
    pub highlights: Vec<HighlightBox>,
    pub trim: Option<Trim>,
    pub speed_regions: Vec<SpeedRegion>,
    /// Source-time ranges removed from the output entirely.
    pub cuts: Vec<Trim>,
    /// Render an expanding ripple at every recorded mouse click.
    pub show_clicks: bool,
    /// Shortcut and special key presses.
    pub key_taps: Vec<KeyTap>,
    /// Render the keystroke overlay.
    pub show_keys: bool,
    /// Optional crop of the recorded frame, applied before the zoom camera.
    pub crop: Option<CropRect>,
    pub frame: FrameStyle,
    pub aspect: AspectRatio,
}

/// What a project holds, its lists taken as sequences.
#[verifier::ext_equal]
pub struct ProjectModel {
    pub schema: u32,
    pub source: SourceInfo,
    pub zoom_config: ZoomConfig,
    pub zooms: Seq<ZoomKeyframe>,
    pub events: Seq<InputEvent>,
    pub texts: Seq<TextAnnotation>,
    pub arrows: Seq<ArrowAnnotation>,
    pub highlights: Seq<HighlightBox>,
    pub trim: Option<Trim>,
    pub speed_regions: Seq<SpeedRegion>,
    pub cuts: Seq<Trim>,
    pub show_clicks: bool,
    pub key_taps: Seq<KeyTap>,
    pub show_keys: bool,
    pub crop: Option<CropRect>,
    pub frame: FrameStyle,
    pub aspect: AspectRatio,
}

impl View for Project {
    type V = ProjectModel;

    open spec fn view(&self) -> ProjectModel {
        ProjectModel {
            schema: self.schema,
            source: self.source,
            zoom_config: self.zoom_config,
            zooms: self.zooms@,
            events: self.events@,
            texts: self.texts@,
            arrows: self.arrows@,
            highlights: self.highlights@,
            trim: self.trim,
            speed_regions: self.speed_regions@,
            cuts: self.cuts@,
            show_clicks: self.show_clicks,
            key_taps: self.key_taps@,
            show_keys: self.show_keys,
            crop: self.crop,
            frame: self.frame,
            aspect: self.aspect,
        }
    }
}

impl Clone for Project {
    fn clone(&self) -> (r: Self)
        ensures
            r@ == self@,
    {
        let r = Project {
            schema: self.schema,
            source: self.source.clone(),
            zoom_config: self.zoom_config,
            zooms: self.zooms.clone(),
            events: self.events.clone(),
            texts: self.texts.clone(),
            arrows: self.arrows.clone(),
            highlights: self.highlights.clone(),
            trim: self.trim,
            speed_regions: self.speed_regions.clone(),
            cuts: self.cuts.clone(),
            show_clicks: self.show_clicks,
            key_taps: self.key_taps.clone(),
            show_keys: self.show_keys,
            crop: self.crop,
            frame: self.frame.clone(),
            aspect: self.aspect,
        };
        assert(r.zooms@ =~= self.zooms@);
        assert(r.events@ =~= self.events@);
        assert(r.texts@ =~= self.texts@);
        assert(r.arrows@ =~= self.arrows@);
        assert(r.highlights@ =~= self.highlights@);
        assert(r.speed_regions@ =~= self.speed_regions@);
        assert(r.cuts@ =~= self.cuts@);
        assert(r.key_taps@ =~= self.key_taps@);
        r
    }
}

/// A side of the cropped source: the crop's share of the full side, rounded, at least two
/// and at most what a `u32` holds.
pub open spec fn cropped_side(full: u32, share: i64) -> int {
    let n = (2 * (full * share) + 1_000_000_000) / 2_000_000_000;
    if n < 2 {
        2
    } else if n > u32::MAX {
        u32::MAX as int
    } else {
        n
    }
}

/// Source dimensions after the crop.
pub open spec fn source_dims(source: SourceInfo, crop: Option<CropRect>) -> (int, int) {
    match crop {
        None => (cropped_side(source.width, 1_000_000_000), cropped_side(source.height, 1_000_000_000)),
        Some(c) => (cropped_side(source.width, c.w), cropped_side(source.height, c.h)),
    }
}

fn crop_side(full: u32, share: i64) -> (n: u32)
    ensures
        n == cropped_side(full, share),
{
    proof {
        let p = full * share;
        assert(-0x1_0000_0000 * 0x8000_0000_0000_0000 <= p <= 0x1_0000_0000
            * 0x8000_0000_0000_0000) by (nonlinear_arith)
            requires
                p == full * share,
                0 <= full <= 0xffff_ffff,
                -0x8000_0000_0000_0000 <= share <= 0x7fff_ffff_ffff_ffff,
        ;
    }
    let n: i128 = crate::units::floor_div(
        2 * ((full as i128) * (share as i128)) + 1_000_000_000,
        2_000_000_000,
    );
    if n < 2 {
        2
    } else if n > u32::MAX as i128 {
        u32::MAX
    } else {
        n as u32
    }
}

impl Project {
    /// Whether a project is as fresh as can be for a source.
    pub open spec fn fresh(self, source: SourceInfo) -> bool {
        &&& self.schema == SCHEMA
        &&& self.source == source
        &&& self.zoom_config == default_config()
        &&& self.zooms@.len() == 0
        &&& self.events@.len() == 0
        &&& self.texts@.len() == 0
        &&& self.arrows@.len() == 0
        &&& self.highlights@.len() == 0
        &&& self.trim is None
        &&& self.speed_regions@.len() == 0
        &&& self.cuts@.len() == 0
        &&& !self.show_clicks
        &&& self.key_taps@.len() == 0
        &&& !self.show_keys
        &&& self.crop is None
        &&& self.frame == unframed()
        &&& self.aspect is Original
    }

    /// A fresh project for a freshly captured recording, with sensible defaults.
    pub fn new(source: SourceInfo) -> (p: Self)
        ensures
            p.fresh(source),
    {
        Project {
            schema: SCHEMA,
            source,
            zoom_config: ZoomConfig::default(),
            zooms: Vec::new(),
            events: Vec::new(),
            texts: Vec::new(),
            arrows: Vec::new(),
            highlights: Vec::new(),
            trim: None,
            speed_regions: Vec::new(),
            cuts: Vec::new(),
            show_clicks: false,
            key_taps: Vec::new(),
            show_keys: false,
            crop: None,
            frame: FrameStyle::default(),
            aspect: AspectRatio::Original,
        }
    }

    /// Source dimensions after the crop (the full frame when no crop is set).
    pub fn effective_source_dims(&self) -> (d: (u32, u32))
        ensures
            (d.0 as int, d.1 as int) == source_dims(self.source, self.crop),
    {
        match self.crop {
            None => (
                crop_side(self.source.width, 1_000_000_000),
                crop_side(self.source.height, 1_000_000_000),
            ),
            Some(c) => (crop_side(self.source.width, c.w), crop_side(self.source.height, c.h)),
        }
    }

    /// Output dimensions for the chosen aspect ratio, computed on the cropped source so the
    /// output aspect follows the crop.
    pub fn output_dims(&self) -> (d: (u32, u32))
        ensures
            ({
                let s = source_dims(self.source, self.crop);
                (d.0 as int, d.1 as int) == dims_for(self.aspect, s.0 as u32, s.1 as u32)
            }),
    {
        let (sw, sh) = self.effective_source_dims();
        self.aspect.output_dims(sw, sh)
    }

    /// The effective time window after trimming.
    pub fn active_range(&self) -> (r: (i64, i64))
        ensures
            r == (match self.trim {
                Some(t) => (t.start, t.end),
                None => (0i64, self.source.duration),
            }),
    {
        match self.trim {
            Some(t) => (t.start, t.end),
            None => (0, self.source.duration),
        }
    }
}

/// Without a crop the source keeps its size (of at least two pixels a side).
pub proof fn uncropped_sources_keep_their_size(source: SourceInfo)
    requires
        source.width >= 2,
        source.height >= 2,
    ensures
        source_dims(source, None) == (source.width as int, source.height as int),
{
}

/// A cropped source is the crop's share of the recorded frame, each side on its own, rounded,
/// and two pixels at least.
pub proof fn crops_take_their_share(source: SourceInfo, c: CropRect)
    requires
        0 <= c.w <= 1_000_000_000,
        0 <= c.h <= 1_000_000_000,
    ensures
        ({
            let d = source_dims(source, Some(c));
            &&& d.0 >= 2
            &&& d.1 >= 2
            &&& d.0 > 2 ==> -1_000_000_000 <= 2 * (d.0 * 1_000_000_000 - source.width * c.w)
                <= 1_000_000_000
            &&& d.1 > 2 ==> -1_000_000_000 <= 2 * (d.1 * 1_000_000_000 - source.height * c.h)
                <= 1_000_000_000
            &&& d.0 == 2 ==> 2 * (source.width * c.w) < 5_000_000_000
            &&& d.1 == 2 ==> 2 * (source.height * c.h) < 5_000_000_000
        }),
{
    lemma_cropped_side(source.width, c.w);
    lemma_cropped_side(source.height, c.h);
}

/// One side of a cropped source.
proof fn lemma_cropped_side(full: u32, share: i64)
    requires
        0 <= share <= 1_000_000_000,
    ensures
        ({
            let n = cropped_side(full, share);
            &&& n >= 2
            &&& n > 2 ==> -1_000_000_000 <= 2 * (n * 1_000_000_000 - full * share) <= 1_000_000_000
            &&& n == 2 ==> 2 * (full * share) < 5_000_000_000
        }),
{
    let p = full * share;
    assert(0 <= p <= 0xffff_ffff * 1_000_000_000) by (nonlinear_arith)
        requires
            p == full * share,
            0 <= full <= 0xffff_ffff,
            0 <= share <= 1_000_000_000,
    ;
}

} // verus!

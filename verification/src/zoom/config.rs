//! Tunable parameters for the auto-zoom planner and camera.

use vstd::prelude::*;

verus! {

/// Configuration of zoom planning and of the camera. Times are nanoseconds; multipliers,
/// distances and ratios are billionths.
#[derive(Debug, Clone, Copy, PartialEq, Eq, Structural)]
pub struct ZoomConfig {
    /// Zoom multiplier applied at a click (one = no zoom).
    pub amount: i64,
    /// Half-life of the zoom spring, how snappily zoom level changes.
    pub hl_zoom: i64,
    /// Half-life of the pan spring, how snappily the camera follows the cursor.
    pub hl_pan: i64,
    /// Half-life of the pre-smoothing applied to the raw cursor.
    pub hl_cursor: i64,
    /// Inactivity after the last activity before the camera zooms back out.
    pub hold: i64,
    /// How long before a click the zoom-in begins (anticipation).
    pub pre_roll: i64,
    /// Clicks within this time of each other may merge into one zoom.
    pub merge_gap: i64,
    /// Clicks within this distance of a cluster's centroid merge into it.
    pub merge_radius: i64,
    /// The cursor must leave a box of this half-extent around the camera center before the
    /// pan target moves (jitter rejection).
    pub dead_zone: i64,
    /// How strongly the focus is pulled toward a screen edge when the cursor is near it, so
    /// corner content is not cropped (zero = off).
    pub edge_snap_ratio: i64,
    /// Minimum time between the end of one zoom and the start of the next.
    pub min_rezoom_interval: i64,
    /// When `true`, every mouse click seeds a zoom. When `false`, only the manual zoom
    /// hotkey does.
    pub auto_zoom_on_click: bool,
}

/// The starting point for every tunable.
pub open spec fn default_config() -> ZoomConfig {
    ZoomConfig {
        amount: 1_800_000_000,
        hl_zoom: 300_000_000,
        hl_pan: 220_000_000,
        hl_cursor: 120_000_000,
        hold: 1_800_000_000,
        pre_roll: 300_000_000,
        merge_gap: 800_000_000,
        merge_radius: 150_000_000,
        dead_zone: 100_000_000,
        edge_snap_ratio: 250_000_000,
        min_rezoom_interval: 1_000_000_000,
        auto_zoom_on_click: false,
    }
}

impl Default for ZoomConfig {
    fn default() -> (c: Self)
        ensures
            c == default_config(),
    {
        ZoomConfig {
            amount: 1_800_000_000,
            hl_zoom: 300_000_000,
            hl_pan: 220_000_000,
            hl_cursor: 120_000_000,
            hold: 1_800_000_000,
            pre_roll: 300_000_000,
            merge_gap: 800_000_000,
            merge_radius: 150_000_000,
            dead_zone: 100_000_000,
            edge_snap_ratio: 250_000_000,
            min_rezoom_interval: 1_000_000_000,
            auto_zoom_on_click: false,
        }
    }
}

/// The starting point zooms by four fifths, begins three tenths of a second ahead of a click
/// and holds for one and eight tenths; clicks do not zoom unless they are asked to. The cursor
/// is smoothed faster than the pan, and the pan faster than the zoom.
pub proof fn defaults_are_gentle()
    ensures
        ({
            let c = default_config();
            &&& c.amount == 1_800_000_000
            &&& c.hold == 1_800_000_000
            &&& c.pre_roll == 300_000_000
            &&& c.hl_cursor == 120_000_000 && c.hl_pan == 220_000_000 && c.hl_zoom == 300_000_000
            &&& c.merge_gap == 800_000_000
            &&& c.merge_radius == 150_000_000
            &&& c.dead_zone == 100_000_000
            &&& c.edge_snap_ratio == 250_000_000
            &&& c.min_rezoom_interval == 1_000_000_000
            &&& !c.auto_zoom_on_click
        }),
{
}

} // verus!

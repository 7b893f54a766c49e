//! What the next recording captures: a display or a window, a region of it, and how far the
//! manual zoom goes.

use crate::capture::{CaptureSource, CropRegion};
use crate::session::state::{Session, SessionModel};
use crate::text::{decimal, push_decimal};
use crate::units::{clamp_i64, clamped};
use vstd::prelude::*;

verus! {

/// The monitor the next recording captures: its device name, its virtual-desktop origin in
/// physical pixels (for mapping global cursor coordinates) and its size (for validating a
/// requested region against its bounds).
#[derive(Debug)]
pub struct MonitorInfo {
    pub name: String,
    pub x: i32,
    pub y: i32,
    pub w: u32,
    pub h: u32,
}

impl Clone for MonitorInfo {
    fn clone(&self) -> (r: Self)
        ensures
            r == *self,
    {
        MonitorInfo { name: self.name.clone(), x: self.x, y: self.y, w: self.w, h: self.h }
    }
}

/// A window to capture: its handle and its client rectangle in screen coordinates, so cursor
/// events normalize into client space as they do for a monitor.
#[derive(Debug, Clone, Copy, PartialEq, Eq, Structural)]
pub struct WindowTarget {
    pub hwnd: isize,
    pub x: i32,
    pub y: i32,
    pub w: u32,
    pub h: u32,
}

/// What the next recording captures.
#[derive(Debug)]
pub struct Pending {
    /// Monitor-relative region in physical pixels; `None` = the full monitor.
    pub region: Option<CropRegion>,
    /// The monitor; `None` = the primary one.
    pub monitor: Option<MonitorInfo>,
    /// The window, where one is captured instead of a display.
    pub window: Option<WindowTarget>,
    /// Zoom multiplier in billionths (one = no zoom).
    pub zoom: i64,
}

impl Pending {
    /// The full primary display with the default zoom.
    pub open spec fn initial() -> Pending {
        Pending { region: None, monitor: None, window: None, zoom: 1_800_000_000 }
    }

    /// The full primary display with the default zoom.
    pub(crate) fn new() -> (p: Self)
        ensures
            p == Pending::initial(),
    {
        Pending { region: None, monitor: None, window: None, zoom: 1_800_000_000 }
    }

    /// What is captured.
    pub open spec fn source_of(self) -> CaptureSource {
        match self.window {
            Some(w) => CaptureSource::Window { hwnd: w.hwnd },
            None => CaptureSource::Monitor {
                name: match self.monitor {
                    Some(m) => Some(m.name),
                    None => None,
                },
            },
        }
    }

    /// The offset of cursor coordinates: the client origin of a window, else the monitor's
    /// origin.
    pub open spec fn origin_of(self) -> (i32, i32) {
        match (self.window, self.monitor) {
            (Some(w), _) => (w.x, w.y),
            (None, Some(m)) => (m.x, m.y),
            (None, None) => (0, 0),
        }
    }

    /// The size that is captured: the region's, else the window's, else the monitor's, else
    /// that of a usual display.
    pub open spec fn size_of(self) -> (u32, u32) {
        match (self.region, self.window, self.monitor) {
            (Some(r), _, _) => (r.w, r.h),
            (None, Some(w), _) => (w.w, w.h),
            (None, None, Some(m)) => (m.w, m.h),
            (None, None, None) => (1920, 1080),
        }
    }

    /// What is captured.
    pub fn source(&self) -> (s: CaptureSource)
        ensures
            s == self.source_of(),
    {
        match &self.window {
            Some(w) => CaptureSource::Window { hwnd: w.hwnd },
            None => CaptureSource::Monitor {
                name: match &self.monitor {
                    Some(m) => Some(m.name.clone()),
                    None => None,
                },
            },
        }
    }

    /// The offset of cursor coordinates.
    pub fn origin(&self) -> (o: (i32, i32))
        ensures
            o == self.origin_of(),
    {
        match &self.window {
            Some(w) => (w.x, w.y),
            None => match &self.monitor {
                Some(m) => (m.x, m.y),
                None => (0, 0),
            },
        }
    }

    /// The size that is captured.
    pub fn size(&self) -> (d: (u32, u32))
        ensures
            d == self.size_of(),
    {
        match &self.region {
            Some(r) => (r.w, r.h),
            None => match &self.window {
                Some(w) => (w.w, w.h),
                None => match &self.monitor {
                    Some(m) => (m.w, m.h),
                    None => (1920, 1080),
                },
            },
        }
    }
}

/// Smallest side of a region or window worth recording.
pub const MIN_PX: u32 = 8;

/// Why a capture target was refused.
#[derive(Debug, Clone, Copy, PartialEq, Eq, Structural)]
pub enum TargetError {
    EmptyRegion,
    OutsideMonitor { region: CropRegion, w: u32, h: u32 },
    WindowTooSmall,
}

/// How much of a span that starts at `at` and is `len` long lies before `extent`.
pub open spec fn visible(at: u32, len: u32, extent: u32) -> int {
    let left = if at > extent {
        0
    } else {
        extent - at
    };
    if left < len {
        left
    } else {
        len as int
    }
}

/// Whether too little of a region lies on a monitor of known size.
pub open spec fn is_off(r: CropRegion, m: MonitorInfo) -> bool {
    &&& m.w > 0
    &&& m.h > 0
    &&& visible(r.x, r.w, m.w) < MIN_PX || visible(r.y, r.h, m.h) < MIN_PX
}

/// Why a region cannot be recorded, if it cannot. A region is judged by how much of it lies
/// on the monitor: one that merely overhangs the far edge is fine.
pub open spec fn region_fault(region: Option<CropRegion>, monitor: Option<MonitorInfo>) -> Option<
    TargetError,
> {
    match region {
        None => None,
        Some(r) => if r.w < MIN_PX || r.h < MIN_PX {
            Some(TargetError::EmptyRegion)
        } else {
            match monitor {
                Some(m) => if is_off(r, m) {
                    Some(TargetError::OutsideMonitor { region: r, w: m.w, h: m.h })
                } else {
                    None
                },
                None => None,
            }
        },
    }
}

fn visible_part(at: u32, len: u32, extent: u32) -> (n: u32)
    ensures
        n == visible(at, len, extent),
{
    let left: u32 = if at > extent {
        0
    } else {
        extent - at
    };
    if left < len {
        left
    } else {
        len
    }
}

impl TargetError {
    /// The text shown to the user.
    pub open spec fn text(self) -> Seq<char> {
        match self {
            TargetError::EmptyRegion => "capture region is empty"@,
            TargetError::WindowTooSmall => "capture window is too small"@,
            TargetError::OutsideMonitor { region: r, w, h } => "capture region "@ + decimal(
                r.w as nat,
            ) + "×"@ + decimal(r.h as nat) + " at ("@ + decimal(r.x as nat) + ", "@ + decimal(
                r.y as nat,
            ) + ") is outside the "@ + decimal(w as nat) + "×"@ + decimal(h as nat)
                + " monitor"@,
        }
    }

    /// The text shown to the user.
    pub fn message(&self) -> (s: String)
        ensures
            s@ == self.text(),
    {
        match self {
            TargetError::EmptyRegion => "capture region is empty".to_owned(),
            TargetError::WindowTooSmall => "capture window is too small".to_owned(),
            TargetError::OutsideMonitor { region, w, h } => {
                let mut s = "capture region ".to_owned();
                push_decimal(&mut s, region.w as u128);
                s.push_str("×");
                push_decimal(&mut s, region.h as u128);
                s.push_str(" at (");
                push_decimal(&mut s, region.x as u128);
                s.push_str(", ");
                push_decimal(&mut s, region.y as u128);
                s.push_str(") is outside the ");
                push_decimal(&mut s, *w as u128);
                s.push_str("×");
                push_decimal(&mut s, *h as u128);
                s.push_str(" monitor");
                s
            },
        }
    }
}

impl Session {
    /// Set the region (monitor-relative physical pixels) of the next recording; `None` = the
    /// full display. A region that is empty or off the target monitor is refused, so a bad
    /// one fails loudly instead of being clamped to a sliver at capture time.
    pub fn set_region(&mut self, region: Option<CropRegion>) -> (r: Result<(), TargetError>)
        ensures
            match region_fault(region, old(self)@.pending.monitor) {
                Some(e) => r == Err::<(), TargetError>(e) && final(self)@ == old(self)@,
                None => {
                    &&& r is Ok
                    &&& final(self)@ == (SessionModel {
                        pending: Pending { region, ..old(self)@.pending },
                        ..old(self)@
                    })
                },
            },
    {
        if let Some(r) = region {
            if r.w < MIN_PX || r.h < MIN_PX {
                return Err(TargetError::EmptyRegion);
            }
            if let Some(m) = &self.pending().monitor {
                if m.w > 0 && m.h > 0 {
                    let visible_w: u32 = visible_part(r.x, r.w, m.w);
                    let visible_h: u32 = visible_part(r.y, r.h, m.h);
                    if visible_w < MIN_PX || visible_h < MIN_PX {
                        return Err(TargetError::OutsideMonitor { region: r, w: m.w, h: m.h });
                    }
                }
            }
        }
        let next = Pending {
            region,
            monitor: self.pending().monitor.clone(),
            window: self.pending().window,
            zoom: self.pending().zoom,
        };
        assert(next == Pending { region, ..self@.pending });
        self.set_pending(next);
        Ok(())
    }

    /// Set the monitor that the next recording captures; any window target is dropped.
    pub fn set_monitor(&mut self, monitor: Option<MonitorInfo>)
        ensures
            final(self)@ == (SessionModel {
                pending: Pending { monitor, window: None, ..old(self)@.pending },
                ..old(self)@
            }),
    {
        let next = Pending {
            region: self.pending().region,
            monitor,
            window: None,
            zoom: self.pending().zoom,
        };
        self.set_pending(next);
    }

    /// Capture a window instead of a display. The rectangle is the client area in screen
    /// coordinates; `monitor` is the window's display. Any region is dropped.
    pub fn set_capture_window(
        &mut self,
        hwnd: isize,
        x: i32,
        y: i32,
        w: u32,
        h: u32,
        monitor: MonitorInfo,
    ) -> (r: Result<(), TargetError>)
        ensures
            if w < MIN_PX || h < MIN_PX {
                r == Err::<(), TargetError>(TargetError::WindowTooSmall) && final(self)@
                    == old(self)@
            } else {
                &&& r is Ok
                &&& final(self)@ == (SessionModel {
                    pending: Pending {
                        region: None,
                        monitor: Some(monitor),
                        window: Some(WindowTarget { hwnd, x, y, w, h }),
                        zoom: old(self)@.pending.zoom,
                    },
                    ..old(self)@
                })
            },
    {
        if w < MIN_PX || h < MIN_PX {
            return Err(TargetError::WindowTooSmall);
        }
        let next = Pending {
            region: None,
            monitor: Some(monitor),
            window: Some(WindowTarget { hwnd, x, y, w, h }),
            zoom: self.pending().zoom,
        };
        self.set_pending(next);
        Ok(())
    }

    /// Set the zoom multiplier for the next recording, held between one and four.
    pub fn set_zoom_amount(&mut self, amount: i64)
        ensures
            final(self)@ == (SessionModel {
                pending: Pending {
                    zoom: clamped(amount as int, 1_000_000_000, 4_000_000_000) as i64,
                    ..old(self)@.pending
                },
                ..old(self)@
            }),
    {
        let next = Pending {
            region: self.pending().region,
            monitor: self.pending().monitor.clone(),
            window: self.pending().window,
            zoom: clamp_i64(amount, 1_000_000_000, 4_000_000_000),
        };
        self.set_pending(next);
    }
}

/// A region that was accepted shows at least the smallest side on its monitor.
pub proof fn accepted_regions_are_visible(r: CropRegion, m: MonitorInfo)
    requires
        region_fault(Some(r), Some(m)) is None,
        m.w > 0,
        m.h > 0,
    ensures
        visible(r.x, r.w, m.w) >= MIN_PX,
        visible(r.y, r.h, m.h) >= MIN_PX,
        r.x < m.w,
        r.y < m.h,
{
}

/// What is captured is the window if one is set, else the monitor, else the primary one; it is
/// as large as the region if one is set. Coordinates count from the window's or the monitor's
/// corner.
pub proof fn windows_come_before_monitors(p: Pending)
    ensures
        p.window matches Some(w) ==> p.source_of() == (CaptureSource::Window { hwnd: w.hwnd })
            && p.origin_of() == (w.x, w.y),
        p.window is None ==> (p.monitor matches Some(m) ==> p.source_of()
            == (CaptureSource::Monitor { name: Some(m.name) }) && p.origin_of() == (m.x, m.y)),
        p.window is None && p.monitor is None ==> p.source_of() == (CaptureSource::Monitor {
            name: None,
        }) && p.origin_of() == (0i32, 0i32),
        p.region matches Some(r) ==> p.size_of() == (r.w, r.h),
        p.region is None ==> (p.window matches Some(w) ==> p.size_of() == (w.w, w.h)),
        p.region is None && p.window is None ==> (p.monitor matches Some(m) ==> p.size_of() == (
            m.w,
            m.h,
        )),
{
}

/// A region is refused if it is under eight pixels on a side, or if less than that of it lies
/// on the monitor, along either axis; any other is taken.
pub proof fn regions_must_show(r: CropRegion, m: MonitorInfo)
    requires
        m.w > 0,
        m.h > 0,
    ensures
        ({
            let f = region_fault(Some(r), Some(m));
            let small = r.w < 8 || r.h < 8;
            let off = r.x + 8 > m.w || r.y + 8 > m.h;
            &&& small ==> f == Some(TargetError::EmptyRegion)
            &&& !small && off ==> f == Some(
                TargetError::OutsideMonitor { region: r, w: m.w, h: m.h },
            )
            &&& !small && !off ==> f is None
        }),
        region_fault(None, Some(m)) is None,
{
}

} // verus!

//! A drag wall that keeps the recording panel out of the recorded region: the proposed
//! rectangle of a drag is pushed out along the axis of least penetration, so the panel slides
//! along the region's edge.

use vstd::prelude::*;

verus! {

/// A rectangle by its edges, in virtual-desktop pixels.
#[derive(Debug, Clone, Copy, PartialEq, Eq, Structural)]
pub struct Edges {
    pub left: i64,
    pub top: i64,
    pub right: i64,
    pub bottom: i64,
}

/// The largest coordinate that edges are given in; every 32-bit one is far below it.
pub const EDGE_LIMIT: i64 = 0x100_0000_0000;

impl Edges {
    /// Whether edges are given in desktop coordinates.
    pub open spec fn on_desktop(self) -> bool {
        &&& -EDGE_LIMIT <= self.left <= EDGE_LIMIT
        &&& -EDGE_LIMIT <= self.top <= EDGE_LIMIT
        &&& -EDGE_LIMIT <= self.right <= EDGE_LIMIT
        &&& -EDGE_LIMIT <= self.bottom <= EDGE_LIMIT
    }

    /// Whether nothing lies between the edges.
    pub open spec fn empty(self) -> bool {
        self.right <= self.left || self.bottom <= self.top
    }

    /// Whether a rectangle stays clear of another.
    pub open spec fn clear_of(self, other: Edges) -> bool {
        self.right <= other.left || self.left >= other.right || self.bottom <= other.top
            || self.top >= other.bottom
    }

    /// The rectangle moved.
    pub open spec fn moved(self, dx: int, dy: int) -> Edges {
        Edges {
            left: (self.left + dx) as i64,
            top: (self.top + dy) as i64,
            right: (self.right + dx) as i64,
            bottom: (self.bottom + dy) as i64,
        }
    }
}

/// How far a rectangle moves along one axis to leave a span: the shorter way, backwards where
/// both are as long.
pub open spec fn way_out(lo: i64, hi: i64, from: i64, to: i64) -> int {
    if hi - from <= to - lo {
        from - hi
    } else {
        to - lo
    }
}

/// The length of a way.
pub open spec fn length(d: int) -> int {
    if d < 0 {
        -d
    } else {
        d
    }
}

/// Where a proposed rectangle ends up before a forbidden one.
pub open spec fn pushed_out(rect: Edges, forbidden: Edges) -> Edges {
    if forbidden.empty() || rect.clear_of(forbidden) {
        rect
    } else {
        let dx = way_out(rect.left, rect.right, forbidden.left, forbidden.right);
        let dy = way_out(rect.top, rect.bottom, forbidden.top, forbidden.bottom);
        if length(dx) <= length(dy) {
            rect.moved(dx, 0)
        } else {
            rect.moved(0, dy)
        }
    }
}

/// Clamp a proposed rectangle so that it never intersects the forbidden one.
pub fn clamp(rect: Edges, forbidden: Edges) -> (r: Edges)
    requires
        rect.on_desktop(),
        forbidden.on_desktop(),
    ensures
        r == pushed_out(rect, forbidden),
{
    let (fl, ft, fr, fb) = (forbidden.left, forbidden.top, forbidden.right, forbidden.bottom);
    if fr <= fl || fb <= ft {
        return rect;
    }
    let (l, t, r, b) = (rect.left, rect.top, rect.right, rect.bottom);
    if r <= fl || l >= fr || b <= ft || t >= fb {
        return rect;
    }
    let w: i64 = r - l;
    let h: i64 = b - t;
    let push_left: i64 = r - fl;
    let push_right: i64 = fr - l;
    let push_up: i64 = b - ft;
    let push_down: i64 = fb - t;
    let pen_x: i64 = if push_left <= push_right {
        push_left
    } else {
        push_right
    };
    let pen_y: i64 = if push_up <= push_down {
        push_up
    } else {
        push_down
    };
    if pen_x <= pen_y {
        let new_l: i64 = if push_left <= push_right {
            fl - w
        } else {
            fr
        };
        Edges { left: new_l, top: t, right: new_l + w, bottom: b }
    } else {
        let new_t: i64 = if push_up <= push_down {
            ft - h
        } else {
            fb
        };
        Edges { left: l, top: new_t, right: r, bottom: new_t + h }
    }
}

/// After the push the panel is clear of a region, keeps its size, and has moved along one
/// axis at most.
pub proof fn the_wall_keeps_the_panel_out(rect: Edges, forbidden: Edges)
    requires
        rect.on_desktop(),
        forbidden.on_desktop(),
        !forbidden.empty(),
    ensures
        ({
            let r = pushed_out(rect, forbidden);
            &&& r.clear_of(forbidden)
            &&& r.right - r.left == rect.right - rect.left
            &&& r.bottom - r.top == rect.bottom - rect.top
            &&& r.left == rect.left || r.top == rect.top
            &&& rect.clear_of(forbidden) ==> r == rect
        }),
{
}

/// No shorter straight way leads out of the region.
pub proof fn the_wall_pushes_the_shortest_way(rect: Edges, forbidden: Edges, dx: int, dy: int)
    requires
        rect.on_desktop(),
        forbidden.on_desktop(),
        !forbidden.empty(),
        !rect.clear_of(forbidden),
        dx == 0 || dy == 0,
        -EDGE_LIMIT <= dx <= EDGE_LIMIT,
        -EDGE_LIMIT <= dy <= EDGE_LIMIT,
        rect.moved(dx, dy).clear_of(forbidden),
    ensures
        ({
            let r = pushed_out(rect, forbidden);
            length(r.left - rect.left) + length(r.top - rect.top) <= length(dx) + length(dy)
        }),
{
}

} // verus!

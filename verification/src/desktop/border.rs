//! A visible frame around the area being recorded: four thin strips just outside of it, so
//! the frame itself can never land in the recording.

use vstd::prelude::*;

verus! {

/// Strip thickness in physical pixels.
pub const THICKNESS: i64 = 3;

/// A rectangle in virtual-desktop pixels.
#[derive(Debug, Clone, Copy, PartialEq, Eq, Structural)]
pub struct Area {
    pub x: i64,
    pub y: i64,
    pub w: i64,
    pub h: i64,
}

/// The largest coordinate that areas are given in; every 32-bit one is far below it.
pub const AREA_LIMIT: i64 = 0x100_0000_0000;

impl Area {
    /// Whether a pixel lies in an area.
    pub open spec fn holds(self, px: int, py: int) -> bool {
        self.x <= px < self.x + self.w && self.y <= py < self.y + self.h
    }

    /// Whether an area is given in desktop coordinates.
    pub open spec fn on_desktop(self) -> bool {
        &&& -AREA_LIMIT <= self.x <= AREA_LIMIT
        &&& -AREA_LIMIT <= self.y <= AREA_LIMIT
        &&& -AREA_LIMIT <= self.w <= AREA_LIMIT
        &&& -AREA_LIMIT <= self.h <= AREA_LIMIT
    }
}

/// The strips above, below, left and right of an area.
pub open spec fn strips_of(a: Area) -> Seq<Area> {
    let t = THICKNESS;
    seq![
        Area { x: (a.x - t) as i64, y: (a.y - t) as i64, w: (a.w + 2 * t) as i64, h: t },
        Area { x: (a.x - t) as i64, y: (a.y + a.h) as i64, w: (a.w + 2 * t) as i64, h: t },
        Area { x: (a.x - t) as i64, y: a.y, w: t, h: a.h },
        Area { x: (a.x + a.w) as i64, y: a.y, w: t, h: a.h },
    ]
}

/// The strips of the frame around an area.
pub fn border_strips(a: Area) -> (s: Vec<Area>)
    requires
        a.on_desktop(),
    ensures
        s@ == strips_of(a),
{
    let t: i64 = THICKNESS;
    let mut s: Vec<Area> = Vec::new();
    s.push(Area { x: a.x - t, y: a.y - t, w: a.w + 2 * t, h: t });
    s.push(Area { x: a.x - t, y: a.y + a.h, w: a.w + 2 * t, h: t });
    s.push(Area { x: a.x - t, y: a.y, w: t, h: a.h });
    s.push(Area { x: a.x + a.w, y: a.y, w: t, h: a.h });
    assert(s@ =~= strips_of(a));
    s
}

/// No pixel of the recorded area is covered by the frame, and every pixel next to it is.
pub proof fn the_frame_surrounds_the_area(a: Area, px: int, py: int)
    requires
        a.on_desktop(),
        a.w >= 0,
        a.h >= 0,
    ensures
        (exists|i: int| 0 <= i < 4 && (#[trigger] strips_of(a)[i]).holds(px, py)) <==> ({
            &&& !a.holds(px, py)
            &&& a.x - THICKNESS <= px < a.x + a.w + THICKNESS
            &&& a.y - THICKNESS <= py < a.y + a.h + THICKNESS
        }),
{
    let s = strips_of(a);
    assert(s.len() == 4);
    let around = a.x - THICKNESS <= px < a.x + a.w + THICKNESS && a.y - THICKNESS <= py < a.y + a.h
        + THICKNESS;
    if !a.holds(px, py) && around {
        if py < a.y {
            assert(s[0].holds(px, py));
        } else if py >= a.y + a.h {
            assert(s[1].holds(px, py));
        } else if px < a.x {
            assert(s[2].holds(px, py));
        } else {
            assert(s[3].holds(px, py));
        }
    }
}

} // verus!

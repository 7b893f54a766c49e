//! Framing: backdrop, padding, rounded corners, shadow, aspect ratio.

use crate::project::color::Color;
use crate::text::same_text;
use crate::zoom::event::Point;
use vstd::prelude::*;

verus! {

/// The backdrop the recording sits on.
#[derive(Debug)]
pub enum Background {
    Solid(Color),
    /// A gradient along a direction, given in billionths of a degree.
    Gradient { from: Color, to: Color, angle_deg: i64 },
    /// A wallpaper at `path`.
    Image { path: String },
    /// A blurred copy of the recording itself, as its own backdrop.
    Blur { radius: i64 },
}

impl Clone for Background {
    fn clone(&self) -> (r: Self)
        ensures
            r == *self,
    {
        match self {
            Background::Solid(c) => Background::Solid(*c),
            Background::Gradient { from, to, angle_deg } => Background::Gradient {
                from: *from,
                to: *to,
                angle_deg: *angle_deg,
            },
            Background::Image { path } => Background::Image { path: path.clone() },
            Background::Blur { radius } => Background::Blur { radius: *radius },
        }
    }
}

/// The angle of the preset gradients: from top-left light to bottom-right shadow.
pub const PRESET_ANGLE: i64 = 45_000_000_000;

/// A preset gradient.
pub open spec fn gradient(from: Color, to: Color) -> Background {
    Background::Gradient { from, to, angle_deg: PRESET_ANGLE }
}

/// The named backdrop presets, in display order.
pub open spec fn preset_names() -> Seq<Seq<char>> {
    seq![
        "graphite"@,
        "slate"@,
        "teal"@,
        "dusk"@,
        "paper"@,
        "midnight"@,
        "solid"@,
    ]
}

/// The backdrop a preset name stands for.
pub open spec fn preset_of(name: Seq<char>) -> Option<Background> {
    if name == "graphite"@ {
        Some(
            gradient(
                Color::opaque(160_000_000, 160_000_000, 170_000_000),
                Color::opaque(40_000_000, 40_000_000, 50_000_000),
            ),
        )
    } else if name == "slate"@ {
        Some(
            gradient(
                Color::opaque(200_000_000, 240_000_000, 300_000_000),
                Color::opaque(70_000_000, 90_000_000, 120_000_000),
            ),
        )
    } else if name == "teal"@ {
        Some(
            gradient(
                Color::opaque(60_000_000, 200_000_000, 210_000_000),
                Color::opaque(20_000_000, 80_000_000, 90_000_000),
            ),
        )
    } else if name == "dusk"@ {
        Some(
            gradient(
                Color::opaque(170_000_000, 190_000_000, 260_000_000),
                Color::opaque(60_000_000, 60_000_000, 100_000_000),
            ),
        )
    } else if name == "paper"@ {
        Some(
            gradient(
                Color::opaque(960_000_000, 950_000_000, 920_000_000),
                Color::opaque(850_000_000, 830_000_000, 780_000_000),
            ),
        )
    } else if name == "midnight"@ {
        Some(
            gradient(
                Color::opaque(60_000_000, 70_000_000, 100_000_000),
                Color::opaque(10_000_000, 10_000_000, 20_000_000),
            ),
        )
    } else if name == "solid"@ {
        Some(Background::Solid(Color::opaque(90_000_000, 90_000_000, 100_000_000)))
    } else {
        None
    }
}

/// The preset names are told apart by their characters.
proof fn lemma_names_differ()
    ensures
        forall|i: int, j: int|
            0 <= i < j < preset_names().len() ==> #[trigger] preset_names()[i]
                != #[trigger] preset_names()[j],
{
    reveal_strlit("graphite");
    reveal_strlit("slate");
    reveal_strlit("teal");
    reveal_strlit("dusk");
    reveal_strlit("paper");
    reveal_strlit("midnight");
    reveal_strlit("solid");
    assert("graphite"@.len() == 8 && "slate"@.len() == 5 && "teal"@.len() == 4 && "dusk"@.len()
        == 4 && "paper"@.len() == 5 && "midnight"@.len() == 8 && "solid"@.len() == 5);
    assert("graphite"@[0] == 'g' && "slate"@[1] == 'l' && "teal"@[0] == 't' && "dusk"@[0] == 'd'
        && "paper"@[0] == 'p' && "midnight"@[0] == 'm' && "solid"@[1] == 'o' && "slate"@[0] == 's');
}

fn same_color(a: &Color, b: &Color) -> (r: bool)
    ensures
        r == (*a == *b),
{
    a.r == b.r && a.g == b.g && a.b == b.b && a.a == b.a
}

/// Whether two plain backdrops are equal; images are never presets.
fn same_plain(a: &Background, b: &Background) -> (r: bool)
    requires
        !(*b is Image),
    ensures
        r == (*a == *b),
{
    match (a, b) {
        (Background::Solid(p), Background::Solid(q)) => same_color(p, q),
        (
            Background::Gradient { from: f1, to: t1, angle_deg: a1 },
            Background::Gradient { from: f2, to: t2, angle_deg: a2 },
        ) => same_color(f1, f2) && same_color(t1, t2) && *a1 == *a2,
        (Background::Blur { radius: r1 }, Background::Blur { radius: r2 }) => *r1 == *r2,
        _ => false,
    }
}

fn preset_gradient(from: Color, to: Color) -> (b: Background)
    ensures
        b == gradient(from, to),
{
    Background::Gradient { from, to, angle_deg: PRESET_ANGLE }
}

impl Background {
    /// Resolve a preset name to its [`Background`], or `None` for an unknown name.
    pub fn preset(name: &str) -> (b: Option<Background>)
        ensures
            b == preset_of(name@),
    {
        if same_text(name, "graphite") {
            Some(
                preset_gradient(
                    Color::rgb(160_000_000, 160_000_000, 170_000_000),
                    Color::rgb(40_000_000, 40_000_000, 50_000_000),
                ),
            )
        } else if same_text(name, "slate") {
            Some(
                preset_gradient(
                    Color::rgb(200_000_000, 240_000_000, 300_000_000),
                    Color::rgb(70_000_000, 90_000_000, 120_000_000),
                ),
            )
        } else if same_text(name, "teal") {
            Some(
                preset_gradient(
                    Color::rgb(60_000_000, 200_000_000, 210_000_000),
                    Color::rgb(20_000_000, 80_000_000, 90_000_000),
                ),
            )
        } else if same_text(name, "dusk") {
            Some(
                preset_gradient(
                    Color::rgb(170_000_000, 190_000_000, 260_000_000),
                    Color::rgb(60_000_000, 60_000_000, 100_000_000),
                ),
            )
        } else if same_text(name, "paper") {
            Some(
                preset_gradient(
                    Color::rgb(960_000_000, 950_000_000, 920_000_000),
                    Color::rgb(850_000_000, 830_000_000, 780_000_000),
                ),
            )
        } else if same_text(name, "midnight") {
            Some(
                preset_gradient(
                    Color::rgb(60_000_000, 70_000_000, 100_000_000),
                    Color::rgb(10_000_000, 10_000_000, 20_000_000),
                ),
            )
        } else if same_text(name, "solid") {
            Some(Background::Solid(Color::rgb(90_000_000, 90_000_000, 100_000_000)))
        } else {
            None
        }
    }

    /// The preset name matching `self` exactly, if any: the first in display order.
    pub fn preset_name(&self) -> (n: Option<&'static str>)
        ensures
            match n {
                Some(name) => exists|k: int|
                    0 <= k < preset_names().len() && name@ == #[trigger] preset_names()[k]
                        && preset_of(name@) == Some(*self),
                None => forall|k: int|
                    0 <= k < preset_names().len() ==> preset_of(#[trigger] preset_names()[k])
                        != Some(*self),
            },
    {
        let names: [&'static str; 7] = [
            "graphite",
            "slate",
            "teal",
            "dusk",
            "paper",
            "midnight",
            "solid",
        ];
        let mut i: usize = 0;
        while i < 7
            invariant
                i <= 7,
                names@.len() == 7,
                forall|k: int| 0 <= k < 7 ==> (#[trigger] names@[k])@ == preset_names()[k],
                forall|k: int|
                    0 <= k < i ==> preset_of(#[trigger] preset_names()[k]) != Some(*self),
            decreases 7 - i,
        {
            let name: &'static str = names[i];
            assert(name@ == preset_names()[i as int]);
            match Background::preset(name) {
                Some(b) => {
                    if same_plain(self, &b) {
                        return Some(name);
                    }
                },
                None => {},
            }
            i += 1;
        }
        None
    }
}

/// Every preset name resolves, and no two presets look the same: a backdrop leads back to
/// the one name it was chosen by.
pub proof fn presets_round_trip(i: int, j: int)
    requires
        0 <= i < preset_names().len(),
        0 <= j < preset_names().len(),
    ensures
        preset_of(preset_names()[i]) is Some,
        preset_of(preset_names()[i]) == preset_of(preset_names()[j]) ==> i == j,
{
    lemma_names_differ();
    let n = preset_names();
    assert(n[0] != n[1] && n[0] != n[2] && n[0] != n[3] && n[0] != n[4] && n[0] != n[5] && n[0]
        != n[6]);
    assert(n[1] != n[2] && n[1] != n[3] && n[1] != n[4] && n[1] != n[5] && n[1] != n[6]);
    assert(n[2] != n[3] && n[2] != n[4] && n[2] != n[5] && n[2] != n[6]);
    assert(n[3] != n[4] && n[3] != n[5] && n[3] != n[6]);
    assert(n[4] != n[5] && n[4] != n[6] && n[5] != n[6]);
}

/// Drop shadow under the framed recording. Lengths are billionths of the output height.
#[derive(Debug, Clone, Copy, PartialEq, Eq, Structural)]
pub struct Shadow {
    pub offset: Point,
    pub blur: i64,
    pub color: Color,
    /// Zero = no shadow, one = full strength.
    pub strength: i64,
}

/// The usual shadow at a strength.
pub open spec fn shadow_of(strength: i64) -> Shadow {
    Shadow {
        offset: Point { x: 0, y: 12_000_000 },
        blur: 30_000_000,
        color: Color::opaque(0, 0, 0),
        strength,
    }
}

impl Default for Shadow {
    fn default() -> (s: Self)
        ensures
            s == shadow_of(350_000_000),
    {
        Shadow {
            offset: Point { x: 0, y: 12_000_000 },
            blur: 30_000_000,
            color: Color::black(),
            strength: 350_000_000,
        }
    }
}

/// The full framing style. Padding and corner radius are billionths of the smaller output
/// dimension.
#[derive(Debug)]
pub struct FrameStyle {
    pub background: Background,
    pub padding: i64,
    pub corner_radius: i64,
    pub shadow: Shadow,
}

impl Clone for FrameStyle {
    fn clone(&self) -> (r: Self)
        ensures
            r == *self,
    {
        FrameStyle {
            background: self.background.clone(),
            padding: self.padding,
            corner_radius: self.corner_radius,
            shadow: self.shadow,
        }
    }
}

/// No framing: the export is exactly the recording, edge to edge.
pub open spec fn unframed() -> FrameStyle {
    FrameStyle {
        background: Background::Solid(Color::opaque(0, 0, 0)),
        padding: 0,
        corner_radius: 0,
        shadow: shadow_of(0),
    }
}

impl Default for FrameStyle {
    fn default() -> (s: Self)
        ensures
            s == unframed(),
    {
        let mut shadow = Shadow::default();
        shadow.strength = 0;
        FrameStyle {
            background: Background::Solid(Color::black()),
            padding: 0,
            corner_radius: 0,
            shadow,
        }
    }
}

/// Output aspect-ratio presets.
#[derive(Debug, Clone, Copy, PartialEq, Eq, Structural)]
pub enum AspectRatio {
    /// Keep the source aspect ratio.
    Original,
    /// 16:9 (YouTube / README).
    Widescreen,
    /// 9:16 (Shorts / Reels).
    Vertical,
    /// 1:1 (square social).
    Square,
}

/// The width-to-height ratio of a preset as a fraction, or `None` to keep the source's.
pub open spec fn ratio_of(a: AspectRatio) -> Option<(int, int)> {
    match a {
        AspectRatio::Original => None,
        AspectRatio::Widescreen => Some((16, 9)),
        AspectRatio::Vertical => Some((9, 16)),
        AspectRatio::Square => Some((1, 1)),
    }
}

/// A dimension that encoders accept: even and at least two.
pub open spec fn even(v: int) -> int {
    if v < 2 {
        2
    } else {
        v - v % 2
    }
}

/// The width that goes with a height at a ratio, rounded to the nearest pixel and cut to
/// what a `u32` holds.
pub open spec fn width_for(h: int, ratio: (int, int)) -> int {
    let w = (2 * h * ratio.0 + ratio.1) / (2 * ratio.1);
    if w > u32::MAX {
        u32::MAX as int
    } else {
        w
    }
}

/// Output dimensions for a source size: the ratio is applied to the source's height.
pub open spec fn dims_for(a: AspectRatio, src_w: u32, src_h: u32) -> (int, int) {
    match ratio_of(a) {
        None => (even(src_w as int), even(src_h as int)),
        Some(r) => {
            let h = if src_h < 2 {
                2
            } else {
                src_h as int
            };
            (even(width_for(h, r)), even(h))
        },
    }
}

fn make_even(v: u32) -> (e: u32)
    ensures
        e == even(v as int),
{
    if v < 2 {
        2
    } else {
        v - v % 2
    }
}

impl AspectRatio {
    /// The width-to-height ratio as a fraction, or `None` to keep the source ratio.
    pub fn ratio(self) -> (r: Option<(u32, u32)>)
        ensures
            match ratio_of(self) {
                Some(q) => r is Some && r->Some_0.0 == q.0 && r->Some_0.1 == q.1,
                None => r is None,
            },
    {
        match self {
            AspectRatio::Original => None,
            AspectRatio::Widescreen => Some((16, 9)),
            AspectRatio::Vertical => Some((9, 16)),
            AspectRatio::Square => Some((1, 1)),
        }
    }

    /// Output dimensions (even numbers) for a given source size.
    pub fn output_dims(self, src_w: u32, src_h: u32) -> (d: (u32, u32))
        ensures
            (d.0 as int, d.1 as int) == dims_for(self, src_w, src_h),
    {
        match self.ratio() {
            None => (make_even(src_w), make_even(src_h)),
            Some((num, den)) => {
                let h: u32 = if src_h < 2 {
                    2
                } else {
                    src_h
                };
                let ghost a = num as int;
                let ghost b = den as int;
                let w: u64 = match self {
                    AspectRatio::Widescreen => (2 * (h as u64) * 16 + 9) / 18,
                    AspectRatio::Vertical => (2 * (h as u64) * 9 + 16) / 32,
                    _ => h as u64,
                };
                proof {
                    let n = 2 * h;
                    let v = w as int;
                    assert(v == (n * a + b) / (2 * b)) by (nonlinear_arith)
                        requires
                            (a == 16 && b == 9 && v == (n * 16 + 9) / 18) || (a == 9 && b == 16
                                && v == (n * 9 + 16) / 32) || (a == 1 && b == 1 && v == (n + 1)
                                / 2),
                    ;
                    assert(2 * h * a == n * a);
                }
                let wide: u32 = if w > u32::MAX as u64 {
                    u32::MAX
                } else {
                    w as u32
                };
                (make_even(wide), make_even(h))
            },
        }
    }
}

/// Output dimensions are even and at least two, whatever the source.
pub proof fn output_dims_are_even(a: AspectRatio, src_w: u32, src_h: u32)
    ensures
        dims_for(a, src_w, src_h).0 >= 2,
        dims_for(a, src_w, src_h).1 >= 2,
        dims_for(a, src_w, src_h).0 % 2 == 0,
        dims_for(a, src_w, src_h).1 % 2 == 0,
{
}

/// Output sizes keep their aspect: the original's is that of the source, with odd sides one
/// less; any other has the source's height, odd or not, and the width that goes with it in
/// the ratio, rounded and made even.
pub proof fn output_dims_keep_the_aspect(a: AspectRatio, src_w: u32, src_h: u32)
    requires
        2 <= src_w,
        2 <= src_h <= 1_000_000_000,
    ensures
        ({
            let d = dims_for(a, src_w, src_h);
            &&& src_h - 1 <= d.1 <= src_h
            &&& match a {
                AspectRatio::Original => src_w - 1 <= d.0 <= src_w,
                AspectRatio::Widescreen => -14 <= d.0 * 9 - src_h * 16 <= 5,
                AspectRatio::Vertical => src_h >= 4 ==> -24 <= d.0 * 16 - src_h * 9 <= 8,
                AspectRatio::Square => src_h - 1 <= d.0 <= src_h,
            }
        }),
{
    let h = src_h as int;
    match a {
        AspectRatio::Original => {},
        AspectRatio::Widescreen => {
            assert(width_for(h, (16, 9)) == (32 * h + 9) / 18) by {
                assert(2 * h * 16 == 32 * h);
            }
        },
        AspectRatio::Vertical => {
            assert(width_for(h, (9, 16)) == (18 * h + 16) / 32) by {
                assert(2 * h * 9 == 18 * h);
            }
        },
        AspectRatio::Square => {
            assert(width_for(h, (1, 1)) == (2 * h + 1) / 2) by {
                assert(2 * h * 1 == 2 * h);
            }
        },
    }
}

/// Gradients go from lighter to darker, at an angle of forty-five degrees, and every preset is
/// opaque.
pub proof fn presets_darken(i: int)
    requires
        0 <= i < preset_names().len(),
    ensures
        match preset_of(preset_names()[i]) {
            Some(Background::Gradient { from, to, angle_deg }) => {
                &&& angle_deg == 45_000_000_000
                &&& from.r > to.r && from.g > to.g && from.b > to.b
                &&& from.a == 1_000_000_000 && to.a == 1_000_000_000
            },
            Some(Background::Solid(c)) => c.a == 1_000_000_000,
            _ => false,
        },
{
    lemma_names_differ();
    presets_round_trip(i, i);
}

/// Each preset has its own colors, in thousandths of red, green and blue.
pub proof fn presets_have_their_colors()
    ensures
        ({
            let mix = |r: int, g: int, b: int|
                Color {
                    r: (r * 1_000_000) as i64,
                    g: (g * 1_000_000) as i64,
                    b: (b * 1_000_000) as i64,
                    a: 1_000_000_000,
                };
            let blend = |from: Color, to: Color|
                Some(Background::Gradient { from, to, angle_deg: 45_000_000_000 });
            &&& preset_of("graphite"@) == blend(mix(160, 160, 170), mix(40, 40, 50))
            &&& preset_of("slate"@) == blend(mix(200, 240, 300), mix(70, 90, 120))
            &&& preset_of("teal"@) == blend(mix(60, 200, 210), mix(20, 80, 90))
            &&& preset_of("dusk"@) == blend(mix(170, 190, 260), mix(60, 60, 100))
            &&& preset_of("paper"@) == blend(mix(960, 950, 920), mix(850, 830, 780))
            &&& preset_of("midnight"@) == blend(mix(60, 70, 100), mix(10, 10, 20))
            &&& preset_of("solid"@) == Some(Background::Solid(mix(90, 90, 100)))
        }),
{
    lemma_names_differ();
    presets_round_trip(0, 0);
}

/// A shadow falls straight down, and only its strength varies.
pub proof fn shadows_fall_down(a: i64, b: i64)
    ensures
        shadow_of(a).strength == a,
        shadow_of(a) == (Shadow { strength: a, ..shadow_of(b) }),
        shadow_of(a).offset.x == 0,
        shadow_of(a).offset.y == 12_000_000,
        shadow_of(a).blur == 30_000_000,
        shadow_of(a).color == (Color { r: 0, g: 0, b: 0, a: 1_000_000_000 }),
{
}

} // verus!

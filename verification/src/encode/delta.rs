//! Delta frames: what changed between two indexed frames, and how a sequence of changes
//! plays back.
//!
//! An indexed frame holds one palette index per pixel. Every frame after the first is
//! stored as the smallest rectangle that covers its changes, with the pixels inside it
//! that did not change left transparent; a frame equal to the one before it only makes
//! that one stay longer.

use vstd::prelude::*;

verus! {

/// Palette index reserved for "pixel unchanged from the previous frame".
pub const TRANSPARENT_INDEX: u8 = 255;

/// A rectangle of pixels; `x1` and `y1` lie just outside.
#[derive(Debug, Clone, Copy, PartialEq, Eq, Structural)]
pub struct PixelBox {
    pub x0: usize,
    pub y0: usize,
    pub x1: usize,
    pub y1: usize,
}

/// A stored frame: a rectangle of palette indices shown for `delay_cs` centiseconds.
#[verifier::ext_equal]
pub struct Block {
    pub left: u16,
    pub top: u16,
    pub width: u16,
    pub height: u16,
    pub pixels: Seq<u8>,
    pub delay_cs: nat,
}

/// A stored frame held back one step, so that duplicate successors can extend its delay
/// instead of being stored.
#[derive(Debug)]
pub struct PendingFrame {
    pub left: u16,
    pub top: u16,
    pub width: u16,
    pub height: u16,
    pub buffer: Vec<u8>,
    pub delay_cs: u32,
}

impl View for PendingFrame {
    type V = Block;

    open spec fn view(&self) -> Block {
        Block {
            left: self.left,
            top: self.top,
            width: self.width,
            height: self.height,
            pixels: self.buffer@,
            delay_cs: self.delay_cs as nat,
        }
    }
}

/// Whether two frames `w` pixels wide differ at `(x, y)`.
pub open spec fn differs(prev: Seq<u8>, cur: Seq<u8>, w: int, x: int, y: int) -> bool {
    prev[y * w + x] != cur[y * w + x]
}

/// Whether a box covers every change between two frames and none of its sides can be
/// moved inwards.
pub open spec fn tight_box(prev: Seq<u8>, cur: Seq<u8>, w: int, h: int, b: PixelBox) -> bool {
    &&& b.x0 < b.x1 <= w
    &&& b.y0 < b.y1 <= h
    &&& forall|x: int, y: int|
        0 <= x < w && 0 <= y < h && #[trigger] differs(prev, cur, w, x, y) ==> b.x0 <= x < b.x1
            && b.y0 <= y < b.y1
    &&& exists|y: int| 0 <= y < h && #[trigger] differs(prev, cur, w, b.x0 as int, y)
    &&& exists|y: int| 0 <= y < h && #[trigger] differs(prev, cur, w, b.x1 - 1, y)
    &&& exists|x: int| 0 <= x < w && #[trigger] differs(prev, cur, w, x, b.y0 as int)
    &&& exists|x: int| 0 <= x < w && #[trigger] differs(prev, cur, w, x, b.y1 - 1)
}

/// The tight box around the changes between two frames that differ.
pub open spec fn change_box(prev: Seq<u8>, cur: Seq<u8>, w: int, h: int) -> PixelBox {
    choose|b: PixelBox| tight_box(prev, cur, w, h, b)
}

/// Two frames have at most one tight box.
pub proof fn tight_box_is_unique(
    prev: Seq<u8>,
    cur: Seq<u8>,
    w: int,
    h: int,
    a: PixelBox,
    b: PixelBox,
)
    requires
        tight_box(prev, cur, w, h, a),
        tight_box(prev, cur, w, h, b),
    ensures
        a == b,
{
    let ay0 = choose|x: int| 0 <= x < w && #[trigger] differs(prev, cur, w, x, a.y0 as int);
    let by0 = choose|x: int| 0 <= x < w && #[trigger] differs(prev, cur, w, x, b.y0 as int);
    let ay1 = choose|x: int| 0 <= x < w && #[trigger] differs(prev, cur, w, x, a.y1 - 1);
    let by1 = choose|x: int| 0 <= x < w && #[trigger] differs(prev, cur, w, x, b.y1 - 1);
    let ax0 = choose|y: int| 0 <= y < h && #[trigger] differs(prev, cur, w, a.x0 as int, y);
    let bx0 = choose|y: int| 0 <= y < h && #[trigger] differs(prev, cur, w, b.x0 as int, y);
    let ax1 = choose|y: int| 0 <= y < h && #[trigger] differs(prev, cur, w, a.x1 - 1, y);
    let bx1 = choose|y: int| 0 <= y < h && #[trigger] differs(prev, cur, w, b.x1 - 1, y);
    assert(differs(prev, cur, w, ay0, a.y0 as int) && differs(prev, cur, w, by0, b.y0 as int));
    assert(differs(prev, cur, w, ay1, a.y1 - 1) && differs(prev, cur, w, by1, b.y1 - 1));
    assert(differs(prev, cur, w, a.x0 as int, ax0) && differs(prev, cur, w, b.x0 as int, bx0));
    assert(differs(prev, cur, w, a.x1 - 1, ax1) && differs(prev, cur, w, b.x1 - 1, bx1));
}

/// Where pixel `(x, y)` lies in a row-major buffer.
proof fn lemma_position(w: int, h: int, x: int, y: int)
    requires
        0 <= x < w,
        0 <= y < h,
    ensures
        0 <= y * w,
        0 <= y * w + x < w * h,
        (y * w + x) / w == y,
        (y * w + x) % w == x,
{
    assert(0 <= y * w && y * w + w <= w * h) by (nonlinear_arith)
        requires
            0 <= y < h,
            0 < w,
    ;
    vstd::arithmetic::div_mod::lemma_fundamental_div_mod_converse(y * w + x, w, y, x);
}

/// Row and column of a buffer position.
proof fn lemma_row_and_column(w: int, h: int, i: int)
    requires
        0 < w,
        0 <= i < w * h,
    ensures
        0 <= i % w < w,
        0 <= i / w < h,
        i / w * w + i % w == i,
{
    vstd::arithmetic::div_mod::lemma_fundamental_div_mod(i, w);
    assert(i / w * w + i % w == i) by (nonlinear_arith)
        requires
            i == w * (i / w) + i % w,
    ;
    assert(0 <= i / w < h) by (nonlinear_arith)
        requires
            i == w * (i / w) + i % w,
            0 <= i % w < w,
            0 <= i < w * h,
            0 < w,
    ;
}

/// Frames without a differing pixel are equal.
proof fn lemma_no_difference(prev: Seq<u8>, cur: Seq<u8>, w: int, h: int)
    requires
        0 <= w,
        prev.len() == w * h,
        cur.len() == w * h,
        forall|x: int, y: int| 0 <= x < w && 0 <= y < h ==> !#[trigger] differs(prev, cur, w, x, y),
    ensures
        prev == cur,
{
    assert forall|i: int| 0 <= i < prev.len() implies prev[i] == cur[i] by {
        if w == 0 {
            assert(w * h == 0) by (nonlinear_arith)
                requires
                    w == 0,
            ;
        } else {
            lemma_row_and_column(w, h, i);
            assert(!differs(prev, cur, w, i % w, i / w));
        }
    }
    assert(prev =~= cur);
}

/// Bounding box of the pixels whose palette index differs between two same-sized index
/// buffers, or `None` if they are identical.
pub fn diff_bbox(prev: &Vec<u8>, cur: &Vec<u8>, w: usize, h: usize) -> (r: Option<PixelBox>)
    requires
        prev@.len() == w * h,
        cur@.len() == w * h,
    ensures
        r is None <==> prev@ == cur@,
        r matches Some(b) ==> tight_box(prev@, cur@, w as int, h as int, b) && b == change_box(
            prev@,
            cur@,
            w as int,
            h as int,
        ),
{
    let mut b = PixelBox { x0: w, y0: h, x1: 0, y1: 0 };
    let mut y: usize = 0;
    while y < h
        invariant
            prev@.len() == w * h,
            cur@.len() == w * h,
            0 <= y <= h,
            b.y1 == 0 || tight_box(prev@, cur@, w as int, y as int, b),
            b.y1 == 0 ==> b == (PixelBox { x0: w, y0: h, x1: 0, y1: 0 }) && forall|i: int, j: int|
                0 <= i < w && 0 <= j < y ==> !#[trigger] differs(prev@, cur@, w as int, i, j),
        decreases h - y,
    {
        let ghost start = b;
        let mut first: usize = w;
        let mut last: usize = 0;
        let mut x: usize = 0;
        while x < w
            invariant
                prev@.len() == w * h,
                cur@.len() == w * h,
                y < h,
                x <= w,
                first == w ==> last == 0 && forall|i: int|
                    0 <= i < x ==> !#[trigger] differs(prev@, cur@, w as int, i, y as int),
                first < w ==> {
                    &&& first < last <= x
                    &&& differs(prev@, cur@, w as int, first as int, y as int)
                    &&& differs(prev@, cur@, w as int, last - 1, y as int)
                    &&& forall|i: int|
                        0 <= i < x && #[trigger] differs(prev@, cur@, w as int, i, y as int)
                            ==> first <= i < last
                },
                first <= w,
            decreases w - x,
        {
            proof {
                lemma_position(w as int, h as int, x as int, y as int);
                assert(prev.len() <= usize::MAX);
            }
            let p: usize = y * w + x;
            assert(differs(prev@, cur@, w as int, x as int, y as int) == (prev[p as int]
                != cur[p as int]));
            if prev[p] != cur[p] {
                if first == w {
                    first = x;
                }
                last = x + 1;
            }
            x += 1;
        }
        if first < w {
            let x0: usize = if first < b.x0 {
                first
            } else {
                b.x0
            };
            let x1: usize = if last > b.x1 {
                last
            } else {
                b.x1
            };
            let y0: usize = if y < b.y0 {
                y
            } else {
                b.y0
            };
            b = PixelBox { x0, y0, x1, y1: y + 1 };
            proof {
                assert(differs(prev@, cur@, w as int, first as int, y as int));
                assert(differs(prev@, cur@, w as int, last - 1, y as int));
                if start.y1 != 0 {
                    let cx0 = choose|j: int|
                        0 <= j < y && #[trigger] differs(prev@, cur@, w as int, start.x0 as int, j);
                    let cx1 = choose|j: int|
                        0 <= j < y && #[trigger] differs(prev@, cur@, w as int, start.x1 - 1, j);
                    assert(differs(prev@, cur@, w as int, start.x0 as int, cx0));
                    assert(differs(prev@, cur@, w as int, start.x1 - 1, cx1));
                    let cy0 = choose|i: int|
                        0 <= i < w && #[trigger] differs(prev@, cur@, w as int, i, start.y0 as int);
                    assert(differs(prev@, cur@, w as int, cy0, b.y0 as int));
                }
                assert(differs(prev@, cur@, w as int, first as int, b.y1 - 1));
                assert forall|i: int, j: int|
                    0 <= i < w && 0 <= j < y + 1 && #[trigger] differs(prev@, cur@, w as int, i, j)
                    implies b.x0 <= i < b.x1 && b.y0 <= j < b.y1 by {
                    if j < y {
                        assert(differs(prev@, cur@, w as int, i, j));
                    }
                }
                assert(tight_box(prev@, cur@, w as int, y + 1, b));
            }
        }
        y += 1;
    }
    if b.y1 > 0 {
        proof {
            let x = choose|x: int|
                0 <= x < w && #[trigger] differs(prev@, cur@, w as int, x, b.y0 as int);
            lemma_position(w as int, h as int, x, b.y0 as int);
            assert(prev@ != cur@);
            tight_box_is_unique(prev@, cur@, w as int, h as int, b, change_box(prev@, cur@, w as int, h as int));
        }
        Some(b)
    } else {
        proof {
            lemma_no_difference(prev@, cur@, w as int, h as int);
        }
        None
    }
}

/// The pixels of a delta frame: the box's share of `cur`, transparent where it repeats
/// `prev`.
pub open spec fn delta_pixels(prev: Seq<u8>, cur: Seq<u8>, w: int, b: PixelBox) -> Seq<u8> {
    let bw = b.x1 - b.x0;
    Seq::new(
        (bw * (b.y1 - b.y0)) as nat,
        |k: int|
            {
                let i = (b.y0 + k / bw) * w + (b.x0 + k % bw);
                if cur[i] == prev[i] {
                    TRANSPARENT_INDEX
                } else {
                    cur[i]
                }
            },
    )
}

/// The delta frame that turns `prev` into `cur`.
pub open spec fn delta_block(prev: Seq<u8>, cur: Seq<u8>, w: int, h: int, delay: nat) -> Block {
    let b = change_box(prev, cur, w, h);
    Block {
        left: b.x0 as u16,
        top: b.y0 as u16,
        width: (b.x1 - b.x0) as u16,
        height: (b.y1 - b.y0) as u16,
        pixels: delta_pixels(prev, cur, w, b),
        delay_cs: delay,
    }
}

/// The first stored frame: all of it, at the origin.
pub open spec fn key_block(frame: Seq<u8>, w: int, h: int, delay: nat) -> Block {
    Block {
        left: 0,
        top: 0,
        width: w as u16,
        height: h as u16,
        pixels: frame,
        delay_cs: delay,
    }
}

/// A block that stays `more` centiseconds longer.
pub open spec fn held(b: Block, more: nat) -> Block {
    Block {
        left: b.left,
        top: b.top,
        width: b.width,
        height: b.height,
        pixels: b.pixels,
        delay_cs: b.delay_cs + more,
    }
}

/// What is stored for a sequence of indexed frames, each shown for `delay` centiseconds.
pub open spec fn stored(frames: Seq<Seq<u8>>, w: int, h: int, delay: nat) -> Seq<Block>
    decreases frames.len(),
{
    if frames.len() == 0 {
        Seq::empty()
    } else if frames.len() == 1 {
        seq![key_block(frames[0], w, h, delay)]
    } else {
        let before = stored(frames.drop_last(), w, h, delay);
        let prev = frames[frames.len() - 2];
        if frames.last() == prev {
            before.drop_last().push(held(before.last(), delay))
        } else {
            before.push(delta_block(prev, frames.last(), w, h, delay))
        }
    }
}

/// The delta frame from `prev` to `cur` inside the box of their changes.
pub fn delta_frame(prev: &Vec<u8>, cur: &Vec<u8>, w: usize, h: usize, b: PixelBox, delay: u32) -> (f:
    PendingFrame)
    requires
        prev@.len() == w * h,
        cur@.len() == w * h,
        tight_box(prev@, cur@, w as int, h as int, b),
        b == change_box(prev@, cur@, w as int, h as int),
    ensures
        f@ == delta_block(prev@, cur@, w as int, h as int, delay as nat),
{
    let bw: usize = b.x1 - b.x0;
    let bh: usize = b.y1 - b.y0;
    let ghost want = delta_pixels(prev@, cur@, w as int, b);
    let mut buffer: Vec<u8> = Vec::new();
    let mut y: usize = 0;
    assert(bw * 0 == 0);
    while y < bh
        invariant
            prev@.len() == w * h,
            cur@.len() == w * h,
            b.x0 < b.x1 <= w,
            b.y0 < b.y1 <= h,
            bw == b.x1 - b.x0,
            bh == b.y1 - b.y0,
            want == delta_pixels(prev@, cur@, w as int, b),
            y <= bh,
            buffer@.len() == bw * y,
            forall|k: int| 0 <= k < buffer@.len() ==> buffer@[k] == want[k],
        decreases bh - y,
    {
        let mut x: usize = 0;
        while x < bw
            invariant
                prev@.len() == w * h,
                cur@.len() == w * h,
                b.x0 < b.x1 <= w,
                b.y0 < b.y1 <= h,
                bw == b.x1 - b.x0,
                bh == b.y1 - b.y0,
                want == delta_pixels(prev@, cur@, w as int, b),
                y < bh,
                x <= bw,
                buffer@.len() == bw * y + x,
                forall|k: int| 0 <= k < buffer@.len() ==> buffer@[k] == want[k],
            decreases bw - x,
        {
            proof {
                lemma_position(w as int, h as int, b.x0 + x, b.y0 + y);
                assert(prev.len() <= usize::MAX);
                let k = bw * y + x;
                assert(bw * y == y * bw) by (nonlinear_arith);
                lemma_position(bw as int, bh as int, x as int, y as int);
                assert(bw * bh == (b.x1 - b.x0) * (b.y1 - b.y0));
                assert(k < want.len());
                assert((b.y0 + y) * w >= 0);
            }
            let i: usize = (b.y0 + y) * w + (b.x0 + x);
            buffer.push(
                if cur[i] == prev[i] {
                    TRANSPARENT_INDEX
                } else {
                    cur[i]
                },
            );
            x += 1;
        }
        proof {
            assert(bw * (y + 1) == bw * y + bw) by (nonlinear_arith);
        }
        y += 1;
    }
    assert(buffer@ =~= want);
    PendingFrame {
        left: #[verifier::truncate] (b.x0 as u16),
        top: #[verifier::truncate] (b.y0 as u16),
        width: #[verifier::truncate] (bw as u16),
        height: #[verifier::truncate] (bh as u16),
        buffer,
        delay_cs: delay,
    }
}

/// What the screen shows after a block is drawn over it: transparent pixels and pixels
/// outside the block stay as they were.
pub open spec fn drawn(screen: Seq<u8>, b: Block, w: int) -> Seq<u8> {
    Seq::new(
        screen.len(),
        |i: int|
            {
                let x = i % w - b.left;
                let y = i / w - b.top;
                if 0 <= x < b.width && 0 <= y < b.height && b.pixels[y * b.width + x]
                    != TRANSPARENT_INDEX {
                    b.pixels[y * b.width + x]
                } else {
                    screen[i]
                }
            },
    )
}

/// What the screen shows once all blocks are drawn, starting from `blank`.
pub open spec fn screen_after(blank: Seq<u8>, blocks: Seq<Block>, w: int) -> Seq<u8>
    decreases blocks.len(),
{
    if blocks.len() == 0 {
        blank
    } else {
        drawn(screen_after(blank, blocks.drop_last(), w), blocks.last(), w)
    }
}

/// Playback in steps of `delay` centiseconds: each block's screen, repeated for as many
/// steps as the block stays.
pub open spec fn playback(blank: Seq<u8>, blocks: Seq<Block>, w: int, delay: nat) -> Seq<Seq<u8>>
    decreases blocks.len(),
{
    if blocks.len() == 0 {
        Seq::empty()
    } else {
        playback(blank, blocks.drop_last(), w, delay) + Seq::new(
            blocks.last().delay_cs / delay,
            |i: int| screen_after(blank, blocks, w),
        )
    }
}

/// Whether a sequence of frames can be stored: they fill a screen that a GIF can hold, and
/// none uses the transparent index.
pub open spec fn storable(frames: Seq<Seq<u8>>, w: int, h: int) -> bool {
    &&& 0 < w <= u16::MAX
    &&& 0 < h <= u16::MAX
    &&& forall|k: int| 0 <= k < frames.len() ==> #[trigger] frames[k].len() == w * h
    &&& forall|k: int, i: int|
        0 <= k < frames.len() && 0 <= i < w * h ==> #[trigger] frames[k][i] != TRANSPARENT_INDEX
}

/// Drawing the delta from `prev` to `cur` over `prev` gives `cur`.
proof fn lemma_delta_draws_cur(prev: Seq<u8>, cur: Seq<u8>, w: int, h: int, delay: nat, b: PixelBox)
    requires
        0 < w <= u16::MAX,
        0 < h <= u16::MAX,
        prev.len() == w * h,
        cur.len() == w * h,
        forall|i: int| 0 <= i < w * h ==> cur[i] != TRANSPARENT_INDEX,
        tight_box(prev, cur, w, h, b),
        b == change_box(prev, cur, w, h),
    ensures
        drawn(prev, delta_block(prev, cur, w, h, delay), w) == cur,
{
    let d = delta_block(prev, cur, w, h, delay);
    let out = drawn(prev, d, w);
    let bw = b.x1 - b.x0;
    let bh = b.y1 - b.y0;
    assert forall|i: int| 0 <= i < cur.len() implies out[i] == cur[i] by {
        lemma_row_and_column(w, h, i);
        let x = i % w - d.left;
        let y = i / w - d.top;
        if 0 <= x < d.width && 0 <= y < d.height {
            lemma_position(bw, bh, x, y);
            let k = y * bw + x;
            assert(d.pixels.len() == bw * bh);
            assert((b.y0 + k / bw) * w + (b.x0 + k % bw) == i);
        } else {
            assert(!differs(prev, cur, w, i % w, i / w));
        }
    }
    assert(out =~= cur);
}

/// Frames that differ have a tight box around their changes.
proof fn lemma_change_box_exists(prev: Seq<u8>, cur: Seq<u8>, w: int, h: int)
    requires
        0 < w <= u16::MAX,
        0 < h <= u16::MAX,
        prev.len() == w * h,
        cur.len() == w * h,
        prev != cur,
    ensures
        tight_box(prev, cur, w, h, change_box(prev, cur, w, h)),
{
    if forall|x: int, y: int| 0 <= x < w && 0 <= y < h ==> !#[trigger] differs(prev, cur, w, x, y) {
        lemma_no_difference(prev, cur, w, h);
    }
    let (x, y) = choose|x: int, y: int|
        0 <= x < w && 0 <= y < h && #[trigger] differs(prev, cur, w, x, y);
    let col = |x: int| exists|y: int| 0 <= y < h && #[trigger] differs(prev, cur, w, x, y);
    let row = |y: int| exists|x: int| 0 <= x < w && #[trigger] differs(prev, cur, w, x, y);
    assert(col(x) && row(y));
    let x0 = lemma_first(col, w, x);
    let y0 = lemma_first(row, h, y);
    let x1 = lemma_last(col, w, x);
    let y1 = lemma_last(row, h, y);
    let b = PixelBox {
        x0: x0 as usize,
        y0: y0 as usize,
        x1: (x1 + 1) as usize,
        y1: (y1 + 1) as usize,
    };
    assert forall|i: int, j: int|
        0 <= i < w && 0 <= j < h && #[trigger] differs(prev, cur, w, i, j) implies x0 <= i <= x1
        && y0 <= j <= y1 by {
        assert(col(i) && row(j));
    }
    let wx0 = choose|j: int| 0 <= j < h && #[trigger] differs(prev, cur, w, x0, j);
    let wx1 = choose|j: int| 0 <= j < h && #[trigger] differs(prev, cur, w, x1, j);
    let wy0 = choose|i: int| 0 <= i < w && #[trigger] differs(prev, cur, w, i, y0);
    let wy1 = choose|i: int| 0 <= i < w && #[trigger] differs(prev, cur, w, i, y1);
    assert(differs(prev, cur, w, b.x0 as int, wx0));
    assert(differs(prev, cur, w, b.x1 - 1, wx1));
    assert(differs(prev, cur, w, wy0, b.y0 as int));
    assert(differs(prev, cur, w, wy1, b.y1 - 1));
    assert(tight_box(prev, cur, w, h, b));
}

/// The first number below `n` with a property that `seen` has.
proof fn lemma_first(p: spec_fn(int) -> bool, n: int, seen: int) -> (i: int)
    requires
        0 <= seen < n,
        p(seen),
    ensures
        0 <= i < n,
        p(i),
        forall|j: int| 0 <= j < n && #[trigger] p(j) ==> i <= j,
    decreases seen,
{
    if exists|j: int| 0 <= j < seen && #[trigger] p(j) {
        let j = choose|j: int| 0 <= j < seen && #[trigger] p(j);
        lemma_first(p, n, j)
    } else {
        seen
    }
}

/// The last number below `n` with a property that `seen` has.
proof fn lemma_last(p: spec_fn(int) -> bool, n: int, seen: int) -> (i: int)
    requires
        0 <= seen < n,
        p(seen),
    ensures
        0 <= i < n,
        p(i),
        forall|j: int| 0 <= j < n && #[trigger] p(j) ==> j <= i,
    decreases n - seen,
{
    if exists|j: int| seen < j < n && #[trigger] p(j) {
        let j = choose|j: int| seen < j < n && #[trigger] p(j);
        lemma_last(p, n, j)
    } else {
        seen
    }
}

/// Playing back what was stored shows every frame in turn, each for its own time: nothing
/// is lost between the indexed frames and the delta frames.
pub proof fn playback_restores_frames(
    frames: Seq<Seq<u8>>,
    w: int,
    h: int,
    delay: nat,
    blank: Seq<u8>,
)
    requires
        storable(frames, w, h),
        frames.len() > 0,
        delay > 0,
        blank.len() == w * h,
    ensures
        playback(blank, stored(frames, w, h, delay), w, delay) == frames,
        screen_after(blank, stored(frames, w, h, delay), w) == frames.last(),
        stored(frames, w, h, delay).len() > 0,
        stored(frames, w, h, delay).last().delay_cs % delay == 0,
    decreases frames.len(),
{
    let blocks = stored(frames, w, h, delay);
    if frames.len() == 1 {
        let key = key_block(frames[0], w, h, delay);
        assert(blocks =~= seq![key]);
        assert(blocks.drop_last() =~= Seq::<Block>::empty());
        let out = drawn(blank, key, w);
        assert forall|i: int| 0 <= i < blank.len() implies out[i] == frames[0][i] by {
            lemma_row_and_column(w, h, i);
            assert(frames[0][i] != TRANSPARENT_INDEX);
        }
        assert(frames[0].len() == w * h);
        assert(out =~= frames[0]);
        assert(screen_after(blank, blocks.drop_last(), w) == blank);
        assert(screen_after(blank, blocks, w) == out);
        assert(delay / delay == 1) by (nonlinear_arith)
            requires
                delay > 0,
        ;
        assert(delay % delay == 0) by (nonlinear_arith)
            requires
                delay > 0,
        ;
        assert(playback(blank, blocks.drop_last(), w, delay) =~= Seq::<Seq<u8>>::empty());
        assert(playback(blank, blocks, w, delay) =~= frames);
    } else {
        let some = frames.drop_last();
        let before = stored(some, w, h, delay);
        let prev = frames[frames.len() - 2];
        let cur = frames.last();
        assert forall|k: int, i: int| 0 <= k < some.len() && 0 <= i < w * h implies
            #[trigger] some[k][i] != TRANSPARENT_INDEX by {
            assert(frames[k][i] != TRANSPARENT_INDEX);
        }
        assert(storable(some, w, h));
        playback_restores_frames(some, w, h, delay, blank);
        assert(prev == some.last());
        if cur == prev {
            let longer = held(before.last(), delay);
            assert(blocks == before.drop_last().push(longer));
            assert(blocks.drop_last() =~= before.drop_last());
            let base = screen_after(blank, before.drop_last(), w);
            assert(drawn(base, longer, w) =~= drawn(base, before.last(), w));
            assert(screen_after(blank, blocks, w) == prev);
            let d = before.last().delay_cs;
            assert((d + delay) / delay == d / delay + 1 && (d + delay) % delay == 0)
                by (nonlinear_arith)
                requires
                    d % delay == 0,
                    delay > 0,
            ;
            assert(playback(blank, blocks, w, delay) =~= playback(blank, before, w, delay).push(
                prev,
            ));
            assert(playback(blank, blocks, w, delay) =~= frames);
        } else {
            assert(prev.len() == w * h && cur.len() == w * h);
            let ghost n = frames.len() - 1;
            assert forall|i: int| 0 <= i < w * h implies cur[i] != TRANSPARENT_INDEX by {
                assert(frames[n][i] != TRANSPARENT_INDEX);
            }
            lemma_change_box_exists(prev, cur, w, h);
            lemma_delta_draws_cur(prev, cur, w, h, delay, change_box(prev, cur, w, h));
            let d = delta_block(prev, cur, w, h, delay);
            assert(blocks == before.push(d));
            assert(blocks.drop_last() =~= before);
            assert(screen_after(blank, blocks, w) == cur);
            assert(delay / delay == 1 && delay % delay == 0) by (nonlinear_arith)
                requires
                    delay > 0,
            ;
            assert(playback(blank, blocks, w, delay) =~= some.push(cur));
            assert(playback(blank, blocks, w, delay) =~= frames);
        }
    }
}

/// The place of a pixel in a box of a given width.
proof fn lemma_place(bw: int, bh: int, x: int, y: int)
    requires
        0 <= x < bw,
        0 <= y < bh,
    ensures
        0 <= y * bw + x < bw * bh,
        (y * bw + x) / bw == y,
        (y * bw + x) % bw == x,
{
    assert(0 <= y * bw + x < bw * bh) by (nonlinear_arith)
        requires
            0 <= x < bw,
            0 <= y < bh,
    ;
    vstd::arithmetic::div_mod::lemma_fundamental_div_mod_converse(y * bw + x, bw, y, x);
}

/// A delta holds what changed where it changed: of each pixel of its box, row by row, the new
/// color index where that differs from the old, and else the transparent one.
pub proof fn deltas_hold_what_changed(
    prev: Seq<u8>,
    cur: Seq<u8>,
    w: int,
    b: PixelBox,
    x: int,
    y: int,
)
    requires
        b.x0 <= x < b.x1,
        b.y0 <= y < b.y1,
    ensures
        ({
            let out = delta_pixels(prev, cur, w, b);
            let p = out[(y - b.y0) * (b.x1 - b.x0) + (x - b.x0)];
            let i = y * w + x;
            &&& out.len() == (b.x1 - b.x0) * (b.y1 - b.y0)
            &&& cur[i] != prev[i] ==> p == cur[i]
            &&& cur[i] == prev[i] ==> p == 255
        }),
{
    lemma_place(b.x1 - b.x0, b.y1 - b.y0, x - b.x0, y - b.y0);
}

/// Drawing a block changes the screen under it alone: a pixel of the block that is not
/// transparent lands as far from the block's corner on the screen as it is in the block, and
/// all else stays.
pub proof fn blocks_are_drawn_in_place(
    screen: Seq<u8>,
    b: Block,
    w: int,
    h: int,
    x: int,
    y: int,
)
    requires
        0 <= x < w,
        0 <= y < h,
        screen.len() == w * h,
    ensures
        ({
            let out = drawn(screen, b, w)[y * w + x];
            let p = b.pixels[(y - b.top) * b.width + (x - b.left)];
            let inside = b.left <= x < b.left + b.width && b.top <= y < b.top + b.height;
            &&& drawn(screen, b, w).len() == screen.len()
            &&& inside && p != 255 ==> out == p
            &&& !inside || p == 255 ==> out == screen[y * w + x]
        }),
{
    lemma_place(w, h, x, y);
}

/// The first frame is stored whole, and each that differs from the one before as the smallest
/// box around the change, at its place.
pub proof fn blocks_lie_where_the_change_is(
    prev: Seq<u8>,
    cur: Seq<u8>,
    w: int,
    h: int,
    delay: nat,
    b: PixelBox,
)
    requires
        0 < w <= u16::MAX,
        0 < h <= u16::MAX,
        tight_box(prev, cur, w, h, b),
    ensures
        ({
            let d = delta_block(prev, cur, w, h, delay);
            let k = key_block(cur, w, h, delay);
            &&& d.left == b.x0
            &&& d.top == b.y0
            &&& d.left + d.width == b.x1
            &&& d.top + d.height == b.y1
            &&& d.pixels == delta_pixels(prev, cur, w, b)
            &&& d.delay_cs == delay
            &&& k.left == 0 && k.top == 0 && k.width == w && k.height == h && k.pixels == cur
                && k.delay_cs == delay
        }),
{
    let c = change_box(prev, cur, w, h);
    assert(tight_box(prev, cur, w, h, c));
    tight_box_is_unique(prev, cur, w, h, b, c);
}

} // verus!

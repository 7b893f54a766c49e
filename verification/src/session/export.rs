//! Exporting a clip: whether it can be, which frames are composited, and how it ends.

use crate::encode::error::EncodeError;
use crate::encode::image::RgbaImage;
use crate::encode::native::{
    capped, capped_all, delay_for, encode_fault, export_gif_native, fits_gif, gif_of, refused,
    same_size,
};
use crate::encode::plan::{delta_estimate, delta_frames, estimate_delta_total_bytes};
use crate::encode::quantize::images;
use crate::encode::settings::GifSettings;
use crate::preview::protocol::FrameMeta;
use crate::project::color::Color;
use crate::project::frame::{Background, FrameStyle};
use crate::render::readback::BgFill;
use crate::render::scene::Scene;
use crate::units::{lesser, BILLION};
use vstd::prelude::*;

verus! {

/// Why a frame could not be shown or a clip not be exported.
#[derive(Debug)]
pub enum ExportError {
    NoRecording,
    NoFrames,
    NoGpu,
    Cancelled,
    /// Something outside failed, with its text.
    Failed(String),
}

impl ExportError {
    /// The text shown to the user.
    pub open spec fn text(self) -> Seq<char> {
        match self {
            ExportError::NoRecording => "no recording"@,
            ExportError::NoFrames => "no frames"@,
            ExportError::NoGpu => "no GPU compositor"@,
            ExportError::Cancelled => "export cancelled"@,
            ExportError::Failed(s) => s@,
        }
    }

    /// The text shown to the user.
    pub fn message(&self) -> (s: String)
        ensures
            s@ == self.text(),
    {
        match self {
            ExportError::NoRecording => "no recording".to_owned(),
            ExportError::NoFrames => "no frames".to_owned(),
            ExportError::NoGpu => "no GPU compositor".to_owned(),
            ExportError::Cancelled => "export cancelled".to_owned(),
            ExportError::Failed(s) => s.clone(),
        }
    }
}

/// What is there to export.
#[derive(Debug, Clone, Copy)]
pub struct Loaded {
    pub project: bool,
    pub track: bool,
    /// How many frames are stored, if a store is open.
    pub frames: Option<usize>,
    pub gpu: bool,
}

/// Whether a clip can be exported: it takes a project with its camera track, stored frames
/// and the compositor, and the first that is missing is named.
pub fn check_export(l: &Loaded) -> (r: Result<(), ExportError>)
    ensures
        r == (if !l.project || !l.track {
            Err::<(), ExportError>(ExportError::NoRecording)
        } else if l.frames is None || l.frames == Some(0usize) {
            Err(ExportError::NoFrames)
        } else if !l.gpu {
            Err(ExportError::NoGpu)
        } else {
            Ok(())
        }),
{
    if !l.project || !l.track {
        return Err(ExportError::NoRecording);
    }
    match l.frames {
        None => {
            return Err(ExportError::NoFrames);
        },
        Some(n) => {
            if n == 0 {
                return Err(ExportError::NoFrames);
            }
        },
    }
    if !l.gpu {
        return Err(ExportError::NoGpu);
    }
    Ok(())
}

/// Whether a frame can be shown. An empty store is noticed last, when no frame is found.
pub fn check_seek(l: &Loaded) -> (r: Result<(), ExportError>)
    ensures
        r == (if !l.project || !l.track {
            Err::<(), ExportError>(ExportError::NoRecording)
        } else if l.frames is None {
            Err(ExportError::NoFrames)
        } else if !l.gpu {
            Err(ExportError::NoGpu)
        } else if l.frames == Some(0usize) {
            Err(ExportError::NoFrames)
        } else {
            Ok(())
        }),
{
    if !l.project || !l.track {
        return Err(ExportError::NoRecording);
    }
    match l.frames {
        None => Err(ExportError::NoFrames),
        Some(n) => if !l.gpu {
            Err(ExportError::NoGpu)
        } else if n == 0 {
            Err(ExportError::NoFrames)
        } else {
            Ok(())
        },
    }
}

/// The settings of a GIF export.
pub fn gif_settings(fps: u32, width: Option<u32>, quality: u8) -> (s: GifSettings)
    ensures
        s == (GifSettings { fps, width, quality, lossy: Some(80) }),
{
    let mut s = GifSettings::readme();
    s.fps = fps;
    s.width = width;
    s.quality = quality;
    s
}

/// How a GIF export ended, and whether its file must be removed. A cancelled export says so
/// whatever the encoder made of it; a failed or cancelled one leaves no truncated file.
pub fn finish_gif(result: Result<(), String>, cancelled: bool) -> (r: (Result<(), ExportError>, bool))
    ensures
        r.1 == (result is Err),
        if cancelled {
            r.0 == Err::<(), ExportError>(ExportError::Cancelled)
        } else {
            match result {
                Ok(_) => r.0 is Ok,
                Err(e) => r.0 == Err::<(), ExportError>(ExportError::Failed(e)),
            }
        },
{
    let remove = result.is_err();
    if cancelled {
        return (Err(ExportError::Cancelled), remove);
    }
    match result {
        Ok(_) => (Ok(()), remove),
        Err(e) => (Err(ExportError::Failed(e)), remove),
    }
}

/// The next thing a video export does.
#[derive(Debug, Clone, Copy, PartialEq, Eq, Structural)]
pub enum VideoStep {
    /// Composite and encode this output frame.
    Frame(usize),
    /// All frames are encoded: finalize the file.
    Finalize,
    /// Something failed: remove the file.
    Remove,
}

/// A video export that encodes one frame at a time.
#[derive(Debug)]
pub struct VideoExport {
    next: usize,
    total: usize,
    error: Option<ExportError>,
}

/// What a video export holds.
pub struct VideoModel {
    /// Frames encoded so far.
    pub next: int,
    pub total: int,
    /// The first failure.
    pub error: Option<ExportError>,
}

impl View for VideoExport {
    type V = VideoModel;

    closed spec fn view(&self) -> VideoModel {
        VideoModel { next: self.next as int, total: self.total as int, error: self.error }
    }
}

impl VideoExport {
    /// Never more frames encoded than there are.
    pub closed spec fn wf(&self) -> bool {
        self.next <= self.total
    }

    /// An export of so many frames.
    pub fn new(total: usize) -> (v: Self)
        ensures
            v.wf(),
            v@ == (VideoModel { next: 0, total: total as int, error: None }),
    {
        VideoExport { next: 0, total, error: None }
    }

    /// What to do next; a cancel request is noticed before each frame.
    pub fn step(&mut self, cancelled: bool) -> (s: VideoStep)
        requires
            old(self).wf(),
        ensures
            final(self).wf(),
            ({
                let m = old(self)@;
                if m.error is Some {
                    s is Remove && final(self)@ == m
                } else if m.next >= m.total {
                    s is Finalize && final(self)@ == m
                } else if cancelled {
                    s is Remove && final(self)@ == VideoModel {
                        error: Some(ExportError::Cancelled),
                        ..m
                    }
                } else {
                    s == VideoStep::Frame(m.next as usize) && final(self)@ == m
                }
            }),
    {
        if self.error.is_some() {
            return VideoStep::Remove;
        }
        if self.next >= self.total {
            return VideoStep::Finalize;
        }
        if cancelled {
            self.error = Some(ExportError::Cancelled);
            return VideoStep::Remove;
        }
        VideoStep::Frame(self.next)
    }

    /// A frame was encoded; gives the progress to report, out of the total and the
    /// finalization.
    pub fn encoded(&mut self) -> (p: (u64, u64))
        requires
            old(self).wf(),
            old(self)@.next < old(self)@.total,
            old(self)@.total < u64::MAX,
        ensures
            final(self).wf(),
            final(self)@ == (VideoModel { next: old(self)@.next + 1, ..old(self)@ }),
            p.0 == old(self)@.next + 1,
            p.1 == old(self)@.total + 1,
    {
        self.next = self.next + 1;
        (self.next as u64, self.total as u64 + 1)
    }

    /// A frame, or the finalization, failed. The first failure is kept.
    pub fn failed(&mut self, why: ExportError)
        requires
            old(self).wf(),
        ensures
            final(self).wf(),
            final(self)@ == (VideoModel {
                error: if old(self)@.error is Some {
                    old(self)@.error
                } else {
                    Some(why)
                },
                ..old(self)@
            }),
    {
        if self.error.is_none() {
            self.error = Some(why);
        }
    }

    /// How the export ended.
    pub fn outcome(self) -> (r: Result<(), ExportError>)
        ensures
            match self@.error {
                Some(e) => r == Err::<(), ExportError>(e),
                None => r is Ok,
            },
    {
        match self.error {
            Some(e) => Err(e),
            None => Ok(()),
        }
    }
}

/// The frame sizes of a video export.
#[derive(Debug, Clone, Copy, PartialEq, Eq, Structural)]
pub struct VideoSize {
    /// Whether composited frames are scaled down.
    pub scaled: bool,
    /// The size of the frames handed to the encoder.
    pub src_w: u32,
    pub src_h: u32,
    /// The size that is encoded: even, at least two.
    pub w: u32,
    pub h: u32,
}

/// The largest even number up to `n`, at least two.
pub open spec fn even_floor(n: u32) -> int {
    if n < 2 {
        2
    } else {
        n - n % 2
    }
}

/// The frame sizes of a video of `out_w` by `out_h` pixels with a width cap.
pub open spec fn video_size_of(out_w: u32, out_h: u32, width: Option<u32>) -> VideoSize {
    let scaled = width matches Some(w) && 0 < w && w < out_w;
    let src_w = if scaled {
        width.unwrap()
    } else {
        out_w
    };
    let src_h = if scaled {
        let h = out_h * src_w / out_w as int;
        if h < 1 {
            1u32
        } else {
            h as u32
        }
    } else {
        out_h
    };
    VideoSize {
        scaled,
        src_w,
        src_h,
        w: even_floor(src_w) as u32,
        h: even_floor(src_h) as u32,
    }
}

fn floor_even(n: u32) -> (r: u32)
    ensures
        r == even_floor(n),
{
    if n < 2 {
        2
    } else {
        n - n % 2
    }
}

/// The frame sizes of a video export. A stray right or bottom line is left to the encoder to
/// crop.
pub fn video_size(out_w: u32, out_h: u32, width: Option<u32>) -> (s: VideoSize)
    ensures
        s == video_size_of(out_w, out_h, width),
{
    let (scaled, src_w) = match width {
        Some(w) => if 0 < w && w < out_w {
            (true, w)
        } else {
            (false, out_w)
        },
        None => (false, out_w),
    };
    let src_h: u32 = if scaled {
        proof {
            let a = out_h as int;
            let b = src_w as int;
            let c = out_w as int;
            assert(0 <= a * b <= 0xffff_ffff * 0xffff_ffff) by (nonlinear_arith)
                requires
                    0 <= a <= 0xffff_ffff,
                    0 <= b <= 0xffff_ffff,
            ;
            assert(0 <= a * b / c <= a) by (nonlinear_arith)
                requires
                    0 <= a,
                    0 <= b <= c,
                    0 < c,
            ;
        }
        let h: u64 = (out_h as u64) * (src_w as u64) / (out_w as u64);
        if h < 1 {
            1
        } else {
            h as u32
        }
    } else {
        out_h
    };
    VideoSize { scaled, src_w, src_h, w: floor_even(src_w), h: floor_even(src_h) }
}

/// What is encoded has even sides, and lies inside the frame it is cropped from wherever that
/// has two pixels a side.
pub proof fn video_sizes_are_even(out_w: u32, out_h: u32, width: Option<u32>)
    ensures
        ({
            let s = video_size_of(out_w, out_h, width);
            &&& s.w % 2 == 0
            &&& s.h % 2 == 0
            &&& s.w >= 2
            &&& s.h >= 2
            &&& s.src_w >= 2 ==> s.w <= s.src_w
            &&& s.src_h >= 2 ==> s.h <= s.src_h
        }),
{
}

/// Frames in a sample window.
pub const WINDOW: usize = 12;

/// The motion factor, in thousandths: sample windows can still miss the clip's busiest
/// stretch.
pub const MOTION_FUDGE: u32 = 1150;

/// Frames in a sample window of a clip of `total` frames.
pub open spec fn window_len(total: int) -> int {
    lesser(WINDOW as int, total)
}

/// Where the sample windows of a clip start: one mid-clip window for short clips, two spread
/// out for longer ones.
pub open spec fn window_starts(total: int) -> Seq<int> {
    let win = window_len(total);
    if total >= 4 * win {
        seq![lesser(total / 5, total - win), lesser(total * 3 / 5, total - win)]
    } else {
        seq![(total - win) / 2]
    }
}

/// Where the sample windows of a clip start.
pub fn sample_starts(total: usize) -> (s: Vec<usize>)
    ensures
        s@.len() == window_starts(total as int).len(),
        forall|i: int| 0 <= i < s@.len() ==> #[trigger] s@[i] == window_starts(total as int)[i],
{
    let win: usize = if total < WINDOW {
        total
    } else {
        WINDOW
    };
    let mut s: Vec<usize> = Vec::new();
    if total as u128 >= 4 * (win as u128) {
        let room: usize = total - win;
        let a: usize = total / 5;
        let b: usize = ((total as u128) * 3 / 5) as usize;
        s.push(
            if room < a {
                room
            } else {
                a
            },
        );
        s.push(
            if room < b {
                room
            } else {
                b
            },
        );
    } else {
        s.push((total - win) / 2);
    }
    s
}

/// Sample windows lie inside the clip.
pub proof fn sample_windows_fit(total: int, i: int)
    requires
        0 <= total,
        0 <= i < window_starts(total).len(),
    ensures
        0 <= window_starts(total)[i],
        window_starts(total)[i] + window_len(total) <= total,
{
}

/// Whether frames can be encoded with some settings.
pub open spec fn encodable(frames: Seq<RgbaImage>, settings: GifSettings) -> bool {
    &&& forall|i: int| 0 <= i < frames.len() ==> #[trigger] frames[i]@.valid()
    &&& forall|i: int|
        0 <= i < frames.len() ==> fits_gif(#[trigger] capped(frames[i]@, settings.width))
    &&& frames.len() * delay_for(settings.fps) <= u32::MAX
}

/// Measure a sample window: the size of its encoding, and of that of its first frame alone.
pub fn measure_window(frames: &[RgbaImage], settings: &GifSettings) -> (r: Result<
    (u64, u64, usize),
    EncodeError,
>)
    requires
        encodable(frames@, *settings),
        0 < frames@.len(),
    ensures
        ({
            let given = images(frames@);
            let imgs = capped_all(given, settings.width);
            match r {
                Ok(w) => {
                    &&& same_size(given)
                    &&& given[0].width > 0
                    &&& given[0].height > 0
                    &&& w.2 == frames@.len()
                    &&& w.0 == gif_of(imgs, imgs, *settings).len()
                    &&& w.1 == gif_of(imgs.take(1), imgs.take(1), *settings).len()
                },
                Err(e) => encode_fault(given, e),
            }
        }),
{
    let whole = match export_gif_native(frames, settings) {
        Ok(file) => file,
        Err(e) => return Err(e),
    };
    let first = vstd::slice::slice_subrange(frames, 0, 1);
    proof {
        assert(first@.len() * delay_for(settings.fps) <= frames@.len() * delay_for(settings.fps))
            by (nonlinear_arith)
            requires
                first@.len() == 1,
                frames@.len() >= 1,
        ;
        assert forall|i: int| 0 <= i < first@.len() implies fits_gif(
            #[trigger] capped(first@[i]@, settings.width),
        ) by {
            assert(first@[i] == frames@[i]);
            assert(fits_gif(capped(frames@[i]@, settings.width)));
        }
    }
    proof {
        let imgs = capped_all(images(frames@), settings.width);
        assert(capped_all(images(first@), settings.width) =~= imgs.take(1));
    }
    let key = match export_gif_native(first, settings) {
        Ok(file) => file,
        Err(e) => return Err(e),
    };
    Ok((whole.len() as u64, key.len() as u64, frames.len()))
}

/// Whether images are what compositing consecutive output frames gave.
pub open spec fn composited<F: Fn(usize) -> Result<RgbaImage, String>>(
    frame: F,
    start: int,
    imgs: Seq<RgbaImage>,
) -> bool {
    forall|k: int|
        0 <= k < imgs.len() ==> call_ensures(
            frame,
            ((start + k) as usize,),
            Ok::<RgbaImage, String>(#[trigger] imgs[k]),
        )
}

/// Whether a window was measured over `len` output frames from `start` on.
pub open spec fn is_measured<F: Fn(usize) -> Result<RgbaImage, String>>(
    frame: F,
    start: int,
    len: int,
    settings: GifSettings,
    w: (u64, u64, usize),
) -> bool {
    exists|imgs: Seq<RgbaImage>|
        {
            let all = capped_all(images(imgs), settings.width);
            &&& #[trigger] composited(frame, start, imgs)
            &&& imgs.len() == len
            &&& same_size(images(imgs))
            &&& images(imgs)[0].width > 0
            &&& images(imgs)[0].height > 0
            &&& w.2 == len
            &&& w.0 == gif_of(all, all, settings).len()
            &&& w.1 == gif_of(all.take(1), all.take(1), settings).len()
        }
}

/// Whether the first `n` sample windows of a clip were measured.
pub open spec fn measured<F: Fn(usize) -> Result<RgbaImage, String>>(
    frame: F,
    total: int,
    n: int,
    settings: GifSettings,
    ws: Seq<(u64, u64, usize)>,
) -> bool {
    &&& ws.len() == n
    &&& forall|k: int|
        0 <= k < n ==> is_measured(
            frame,
            window_starts(total)[k],
            window_len(total),
            settings,
            #[trigger] ws[k],
        )
}

/// Whether a message says why the sample window from `start` on could not be measured once
/// these images of it were composited: the next one was refused, or all are there and cannot
/// be encoded.
pub open spec fn window_fault<F: Fn(usize) -> Result<RgbaImage, String>>(
    frame: F,
    start: int,
    len: int,
    imgs: Seq<RgbaImage>,
    m: Seq<char>,
) -> bool {
    if imgs.len() < len {
        refused(frame, start + imgs.len(), m)
    } else {
        &&& imgs.len() == len
        &&& exists|e: EncodeError| #[trigger] encode_fault(images(imgs), e) && m == e.text()
    }
}

/// Whether a message says why a clip's size could not be estimated: the windows before the
/// `k`th were measured, and that one could not be.
pub open spec fn estimate_fault<F: Fn(usize) -> Result<RgbaImage, String>>(
    frame: F,
    total: int,
    settings: GifSettings,
    m: Seq<char>,
) -> bool {
    exists|k: int, ws: Seq<(u64, u64, usize)>, imgs: Seq<RgbaImage>|
        {
            &&& 0 <= k < window_starts(total).len()
            &&& #[trigger] measured(frame, total, k, settings, ws)
            &&& #[trigger] composited(frame, window_starts(total)[k], imgs)
            &&& window_fault(frame, window_starts(total)[k], window_len(total), imgs, m)
        }
}

/// Estimate the size of a GIF by encoding contiguous sample windows of the output frames and
/// extrapolating; a GIF has no closed-form size. Windows are contiguous because the encoder
/// stores the changes between consecutive frames. A frame that cannot be composited, or a
/// window that cannot be encoded, fails the estimate.
pub fn estimate_gif<F: Fn(usize) -> Result<RgbaImage, String>>(
    total: usize,
    frame: F,
    settings: &GifSettings,
) -> (r: Result<u64, String>)
    requires
        forall|i: usize| i < total ==> #[trigger] call_requires(frame, (i,)),
        forall|i: usize, img: RgbaImage|
            i < total && #[trigger] call_ensures(frame, (i,), Ok::<RgbaImage, String>(img))
                ==> img@.valid() && fits_gif(capped(img@, settings.width)),
    ensures
        total == 0 ==> r == Ok::<u64, String>(0),
        r matches Err(m) ==> total > 0 && estimate_fault(frame, total as int, *settings, m@),
        total > 0 ==> (r matches Ok(n) ==> exists|ws: Seq<(u64, u64, usize)>|
            {
                &&& measured(
                    frame,
                    total as int,
                    window_starts(total as int).len() as int,
                    *settings,
                    ws,
                )
                &&& n == #[trigger] delta_estimate(ws, total as int, MOTION_FUDGE as int)
            }),
{
    if total == 0 {
        return Ok(0);
    }
    let starts = sample_starts(total);
    let win: usize = if total < WINDOW {
        total
    } else {
        WINDOW
    };
    let mut windows: Vec<(u64, u64, usize)> = Vec::new();
    let mut k: usize = 0;
    while k < starts.len()
        invariant
            k <= starts@.len(),
            total > 0,
            win == window_len(total as int),
            0 < win <= 12,
            starts@.len() == window_starts(total as int).len(),
            forall|i: int|
                0 <= i < starts@.len() ==> #[trigger] starts@[i] == window_starts(total as int)[i],
            forall|i: usize| i < total ==> #[trigger] call_requires(frame, (i,)),
            forall|i: usize, img: RgbaImage|
                i < total && #[trigger] call_ensures(frame, (i,), Ok::<RgbaImage, String>(img))
                    ==> img@.valid() && fits_gif(capped(img@, settings.width)),
            windows@.len() == k,
            forall|j: int|
                0 <= j < k ==> is_measured(
                    frame,
                    window_starts(total as int)[j],
                    win as int,
                    *settings,
                    #[trigger] windows@[j],
                ) && windows@[j].2 == win,
        decreases starts@.len() - k,
    {
        let start: usize = starts[k];
        proof {
            sample_windows_fit(total as int, k as int);
            assert(measured(frame, total as int, k as int, *settings, windows@));
        }
        let mut imgs: Vec<RgbaImage> = Vec::new();
        let mut i: usize = 0;
        while i < win
            invariant
                i <= win,
                start + win <= total,
                win == window_len(total as int),
                k < window_starts(total as int).len(),
                start == window_starts(total as int)[k as int],
                measured(frame, total as int, k as int, *settings, windows@),
                forall|i: usize| i < total ==> #[trigger] call_requires(frame, (i,)),
                forall|i: usize, img: RgbaImage|
                    i < total && #[trigger] call_ensures(
                        frame,
                        (i,),
                        Ok::<RgbaImage, String>(img),
                    ) ==> img@.valid() && fits_gif(capped(img@, settings.width)),
                imgs@.len() == i,
                composited(frame, start as int, imgs@),
                forall|j: int|
                    0 <= j < i ==> (#[trigger] imgs@[j])@.valid() && fits_gif(
                        capped(imgs@[j]@, settings.width),
                    ),
            decreases win - i,
        {
            let ghost before = imgs@;
            let img = match frame(start + i) {
                Ok(img) => img,
                Err(e) => {
                    proof {
                        let at = window_starts(total as int)[k as int];
                        assert(call_ensures(
                            frame,
                            ((at + before.len()) as usize,),
                            Err::<RgbaImage, String>(e),
                        ));
                        assert(composited(frame, at, before));
                    }
                    return Err(e);
                },
            };
            imgs.push(img);
            assert(composited(frame, start as int, imgs@)) by {
                assert forall|j: int| 0 <= j < imgs@.len() implies call_ensures(
                    frame,
                    ((start + j) as usize,),
                    Ok::<RgbaImage, String>(#[trigger] imgs@[j]),
                ) by {
                    if j < before.len() {
                        assert(imgs@[j] == before[j]);
                    }
                }
            }
            i += 1;
        }
        proof {
            let d = delay_for(settings.fps);
            let rate = if settings.fps < 1 {
                1
            } else {
                settings.fps as int
            };
            assert((100 + rate / 2) / rate <= 100) by (nonlinear_arith)
                requires
                    rate >= 1,
            ;
            assert(imgs@.len() * d <= 12 * 100) by (nonlinear_arith)
                requires
                    imgs@.len() <= 12,
                    d <= 100,
            ;
        }
        let w = match measure_window(imgs.as_slice(), settings) {
            Ok(w) => w,
            Err(e) => {
                proof {
                    assert(composited(frame, window_starts(total as int)[k as int], imgs@));
                    assert(measured(frame, total as int, k as int, *settings, windows@));
                    assert(encode_fault(images(imgs@), e));
                }
                return Err(e.message());
            },
        };
        assert(is_measured(
            frame,
            window_starts(total as int)[k as int],
            win as int,
            *settings,
            w,
        ));
        windows.push(w);
        k += 1;
    }
    assert(delta_frames(windows@) <= 24) by {
        reveal_with_fuel(delta_frames, 3);
    }
    assert(measured(frame, total as int, windows@.len() as int, *settings, windows@));
    Ok(estimate_delta_total_bytes(windows.as_slice(), total, MOTION_FUDGE))
}

/// The metadata of a preview frame.
pub fn preview_meta(out_w: u32, out_h: u32, t: i64) -> (m: FrameMeta)
    requires
        out_w * 4 <= u32::MAX,
    ensures
        m == (FrameMeta {
            stride: (out_w * 4) as u32,
            height: out_h,
            width: out_w,
            frame_number: 0,
            target_time_ns: if t < 0 {
                0
            } else {
                t as u64
            },
        }),
{
    FrameMeta {
        stride: out_w * 4,
        height: out_h,
        width: out_w,
        frame_number: 0,
        target_time_ns: if t < 0 {
            0
        } else {
            t as u64
        },
    }
}

/// Leave annotations out of a frame: in the preview the editor draws them itself, and a baked
/// copy would lag behind during a drag. Ripples and key labels stay.
pub fn without_annotations(s: Scene) -> (r: Scene)
    ensures
        r.texts@.len() == 0,
        r.arrows@.len() == 0,
        r.highlights@.len() == 0,
        r.layout == s.layout,
        r.ripples == s.ripples,
        r.key_chips == s.key_chips,
        r.key_texts == s.key_texts,
{
    Scene {
        layout: s.layout,
        texts: Vec::new(),
        arrows: Vec::new(),
        highlights: Vec::new(),
        ripples: s.ripples,
        key_chips: s.key_chips,
        key_texts: s.key_texts,
    }
}

/// The fill of a flat backdrop.
pub open spec fn flat(color: Color) -> BgFill {
    BgFill { color, color2: color, dir_x: 0, dir_y: BILLION }
}

/// Resolve the backdrop. `dir` is the direction of the gradient's angle, a unit vector in
/// billionths. Images and blurs are not drawn yet and fall back to a neutral dark.
pub fn background_fill(frame: &FrameStyle, dir: (i64, i64)) -> (f: BgFill)
    ensures
        f == (match frame.background {
            Background::Solid(c) => flat(c),
            Background::Gradient { from, to, .. } => BgFill {
                color: from,
                color2: to,
                dir_x: dir.0,
                dir_y: dir.1,
            },
            Background::Image { .. } | Background::Blur { .. } => flat(
                Color::opaque(80_000_000, 80_000_000, 90_000_000),
            ),
        }),
{
    match &frame.background {
        Background::Solid(c) => BgFill::solid(*c),
        Background::Gradient { from, to, .. } => BgFill {
            color: *from,
            color2: *to,
            dir_x: dir.0,
            dir_y: dir.1,
        },
        Background::Image { .. } | Background::Blur { .. } => BgFill::solid(
            Color::rgb(80_000_000, 80_000_000, 90_000_000),
        ),
    }
}

/// A video is scaled to a narrower width if one is asked for, in proportion and rounded down;
/// else it has the output's size. What is encoded is at most one pixel less on a side.
pub proof fn videos_keep_their_shape(out_w: u32, out_h: u32, width: Option<u32>)
    requires
        out_w >= 2,
        out_h >= 2,
    ensures
        ({
            let s = video_size_of(out_w, out_h, width);
            let narrower = width is Some && 0 < width->Some_0 < out_w;
            &&& s.scaled <==> narrower
            &&& narrower ==> s.src_w == width->Some_0 && (s.src_h == 1 || s.src_h * out_w <= out_h
                * s.src_w) && out_h * s.src_w < (s.src_h + 1) * out_w
            &&& !narrower ==> s.src_w == out_w && s.src_h == out_h
            &&& s.src_w >= 2 ==> s.src_w - 1 <= s.w <= s.src_w
            &&& s.src_h >= 2 ==> s.src_h - 1 <= s.h <= s.src_h
        }),
{
    if width is Some && 0 < width->Some_0 < out_w {
        let d = out_w as int;
        let w = width->Some_0 as int;
        let n = out_h * w;
        let h = n / d;
        assert(h * d <= n < (h + 1) * d) by (nonlinear_arith)
            requires
                h == n / d,
                d > 0,
        ;
        assert(0 <= h <= out_h) by (nonlinear_arith)
            requires
                h == n / d,
                n == out_h * w,
                0 < w < d,
                out_h >= 0,
        ;
        assert(h < 1 ==> n < 2 * d) by (nonlinear_arith)
            requires
                n < (h + 1) * d,
                d > 0,
        ;
    }
}

/// A long clip is sampled at one fifth and at three fifths of its length, a short one around
/// its middle; a clip shorter than a window is the window.
pub proof fn samples_are_spread_out(total: int)
    requires
        total >= 1,
    ensures
        total <= 12 ==> window_len(total) == total && window_starts(total) == seq![0int],
        12 < total < 48 ==> window_len(total) == 12 && window_starts(total).len() == 1 && -1 <= 2
            * window_starts(total)[0] + 12 - total <= 1,
        total >= 48 ==> window_len(total) == 12 && window_starts(total) == seq![
            total / 5,
            total * 3 / 5,
        ],
{
}

/// A window is measured by the file of all its frames and by that of its first frame alone.
pub proof fn windows_are_measured_twice<F: Fn(usize) -> Result<RgbaImage, String>>(
    frame: F,
    start: int,
    len: int,
    settings: GifSettings,
    w: (u64, u64, usize),
)
    requires
        is_measured(frame, start, len, settings, w),
        len > 0,
    ensures
        exists|imgs: Seq<RgbaImage>|
            {
                let all = capped_all(images(imgs), settings.width);
                &&& #[trigger] composited(frame, start, imgs)
                &&& imgs.len() == len
                &&& w.0 == gif_of(all, all, settings).len()
                &&& w.1 == gif_of(seq![all[0]], seq![all[0]], settings).len()
                &&& w.2 == len
            },
{
    let imgs = choose|imgs: Seq<RgbaImage>|
        {
            let all = capped_all(images(imgs), settings.width);
            &&& #[trigger] composited(frame, start, imgs)
            &&& imgs.len() == len
            &&& same_size(images(imgs))
            &&& images(imgs)[0].width > 0
            &&& images(imgs)[0].height > 0
            &&& w.2 == len
            &&& w.0 == gif_of(all, all, settings).len()
            &&& w.1 == gif_of(all.take(1), all.take(1), settings).len()
        };
    let all = capped_all(images(imgs), settings.width);
    assert(all.take(1) =~= seq![all[0]]);
    assert(composited(frame, start, imgs));
}

} // verus!

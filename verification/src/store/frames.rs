//! The layout of stored frames.
//!
//! A store is two append-only byte sequences: raw BGRA pixels, and an index with one
//! fixed-size record per frame. A frame equal to the one before it adds only a record that
//! points back at the pixels already there. Because both grow incrementally, a crash leaves
//! a prefix of each, from which every frame whose bytes survived can be read back.

use crate::bytes::{
    le_bytes, le_round_trip, le_value, lemma_pow256_values, low_bytes_come_first, pow256, push_le,
    read_le,
};
use crate::capture::CapturedFrame;
use vstd::prelude::*;

verus! {

/// Index entry for one stored frame: timestamp, dimensions, and byte range.
#[derive(Debug, Clone, Copy, PartialEq, Eq, Structural)]
pub struct FrameRec {
    pub qpc: i64,
    pub w: u32,
    pub h: u32,
    pub offset: u64,
    pub len: u32,
}

/// Size of one index record: `qpc`(8) + `w`(4) + `h`(4) + `offset`(8) + `len`(4).
/// Fixed-width so a torn tail is just an ignored partial record and the whole index can be
/// appended one frame at a time.
pub const REC_SIZE: usize = 28;

/// How often (in frames) the index buffer is pushed to the system. At typical capture rates
/// this is a few times a second, so a hard crash leaves at most a fraction of a second of
/// frames un-indexed.
pub const INDEX_FLUSH_EVERY: u32 = 15;

/// A record's bytes: its five fields, little-endian.
pub open spec fn rec_bytes(r: FrameRec) -> Seq<u8> {
    le_bytes((r.qpc as u64) as nat, 8) + le_bytes(r.w as nat, 4) + le_bytes(r.h as nat, 4)
        + le_bytes(r.offset as nat, 8) + le_bytes(r.len as nat, 4)
}

/// The record that the bytes from `at` on stand for.
pub open spec fn rec_at(b: Seq<u8>, at: int) -> FrameRec {
    FrameRec {
        qpc: (le_value(b.subrange(at, at + 8)) as u64) as i64,
        w: le_value(b.subrange(at + 8, at + 12)) as u32,
        h: le_value(b.subrange(at + 12, at + 16)) as u32,
        offset: le_value(b.subrange(at + 16, at + 24)) as u64,
        len: le_value(b.subrange(at + 24, at + 28)) as u32,
    }
}

/// Encode a record.
pub fn encode_rec(r: &FrameRec) -> (b: Vec<u8>)
    ensures
        b@ == rec_bytes(*r),
        b@.len() == REC_SIZE,
{
    let mut b: Vec<u8> = Vec::with_capacity(REC_SIZE);
    push_le(&mut b, r.qpc as u64, 8);
    push_le(&mut b, r.w as u64, 4);
    push_le(&mut b, r.h as u64, 4);
    push_le(&mut b, r.offset, 8);
    push_le(&mut b, r.len as u64, 4);
    proof {
        lemma_rec_len(*r);
        assert(b@ =~= rec_bytes(*r));
    }
    b
}

/// Decode the record at `at`.
pub fn decode_rec(b: &[u8], at: usize) -> (r: FrameRec)
    requires
        at + REC_SIZE <= b@.len(),
    ensures
        r == rec_at(b@, at as int),
{
    proof {
        lemma_pow256_values();
        assert(b.len() <= usize::MAX);
    }
    let qpc: i64 = read_le(b, at, 8) as i64;
    let w: u32 = read_le(b, at + 8, 4) as u32;
    let h: u32 = read_le(b, at + 12, 4) as u32;
    let offset: u64 = read_le(b, at + 16, 8);
    let len: u32 = read_le(b, at + 24, 4) as u32;
    FrameRec { qpc, w, h, offset, len }
}

/// A record takes its fixed size.
proof fn lemma_rec_len(r: FrameRec)
    ensures
        rec_bytes(r).len() == REC_SIZE,
{
    le_round_trip((r.qpc as u64) as nat, 8);
    le_round_trip(r.w as nat, 4);
    le_round_trip(r.h as nat, 4);
    le_round_trip(r.offset as nat, 8);
    le_round_trip(r.len as nat, 4);
}

/// Decoding an encoded record gives it back, wherever it stands.
pub proof fn records_round_trip(before: Seq<u8>, r: FrameRec, after: Seq<u8>)
    ensures
        rec_bytes(r).len() == REC_SIZE,
        rec_at(before + rec_bytes(r) + after, before.len() as int) == r,
{
    lemma_pow256_values();
    let q = r.qpc;
    assert((q as u64) as i64 == q) by (bit_vector);
    le_round_trip((q as u64) as nat, 8);
    le_round_trip(r.w as nat, 4);
    le_round_trip(r.h as nat, 4);
    le_round_trip(r.offset as nat, 8);
    le_round_trip(r.len as nat, 4);
    let b = before + rec_bytes(r) + after;
    let at = before.len() as int;
    assert(b.subrange(at, at + 8) =~= le_bytes((q as u64) as nat, 8));
    assert(b.subrange(at + 8, at + 12) =~= le_bytes(r.w as nat, 4));
    assert(b.subrange(at + 12, at + 16) =~= le_bytes(r.h as nat, 4));
    assert(b.subrange(at + 16, at + 24) =~= le_bytes(r.offset as nat, 8));
    assert(b.subrange(at + 24, at + 28) =~= le_bytes(r.len as nat, 4));
}

/// What a captured frame holds.
#[verifier::ext_equal]
pub struct Frame {
    pub width: u32,
    pub height: u32,
    pub bgra: Seq<u8>,
    pub qpc: i64,
}

impl View for CapturedFrame {
    type V = Frame;

    open spec fn view(&self) -> Frame {
        Frame { width: self.width, height: self.height, bgra: self.bgra@, qpc: self.qpc }
    }
}

/// Whether two frames show the same picture.
pub open spec fn same_picture(a: Frame, b: Frame) -> bool {
    a.width == b.width && a.height == b.height && a.bgra == b.bgra
}

/// Whether the last of the frames repeats the one before it.
pub open spec fn repeats_previous(frames: Seq<Frame>) -> bool {
    frames.len() > 1 && same_picture(frames[frames.len() - 2], frames.last())
}

/// The pixel file of a recording: the frames' pixels one after the other, repeats left out.
pub open spec fn raw_of(frames: Seq<Frame>) -> Seq<u8>
    decreases frames.len(),
{
    if frames.len() == 0 {
        Seq::empty()
    } else if repeats_previous(frames) {
        raw_of(frames.drop_last())
    } else {
        raw_of(frames.drop_last()) + frames.last().bgra
    }
}

/// The record of the last of the frames: it points at the frame's own pixels, or at those
/// of the frame it repeats.
pub open spec fn last_rec(frames: Seq<Frame>) -> FrameRec
    decreases frames.len(),
{
    if repeats_previous(frames) {
        let prev = last_rec(frames.drop_last());
        FrameRec {
            qpc: frames.last().qpc,
            w: frames.last().width,
            h: frames.last().height,
            offset: prev.offset,
            len: prev.len,
        }
    } else {
        FrameRec {
            qpc: frames.last().qpc,
            w: frames.last().width,
            h: frames.last().height,
            offset: raw_of(frames.drop_last()).len() as u64,
            len: frames.last().bgra.len() as u32,
        }
    }
}

/// The records of a recording.
pub open spec fn recs_of(frames: Seq<Frame>) -> Seq<FrameRec> {
    Seq::new(frames.len(), |i: int| last_rec(frames.take(i + 1)))
}

/// The index file of a list of records.
pub open spec fn index_of(recs: Seq<FrameRec>) -> Seq<u8>
    decreases recs.len(),
{
    if recs.len() == 0 {
        Seq::empty()
    } else {
        index_of(recs.drop_last()) + rec_bytes(recs.last())
    }
}

/// Whether a recording fits the index format: frames under 4 GiB, pixels under 2^64 bytes.
pub open spec fn storable(frames: Seq<Frame>) -> bool {
    &&& raw_of(frames).len() <= u64::MAX
    &&& forall|i: int| 0 <= i < frames.len() ==> (#[trigger] frames[i]).bgra.len() <= u32::MAX
}

/// The picture written last, kept so that an identical follow-up can refer to its pixels.
struct PrevFrame {
    bgra: Vec<u8>,
    w: u32,
    h: u32,
    offset: u64,
    len: u32,
}

/// What is to be appended to the index for a frame, and whether the index should then be
/// pushed to the system.
#[derive(Debug)]
pub struct IndexAppend {
    pub record: Vec<u8>,
    pub flush: bool,
}

/// The writing side of a store. For each frame the caller asks whether it repeats the
/// previous one, appends its pixels if it does not, and then appends the record that
/// [`FrameWriter::push`] hands out.
pub struct FrameWriter {
    offset: u64,
    /// Frames appended since the index was last pushed to the system.
    since_flush: u32,
    /// Last picture written.
    prev: Option<PrevFrame>,
    frames: Ghost<Seq<Frame>>,
}

impl FrameWriter {
    /// The frames written so far.
    pub closed spec fn written(&self) -> Seq<Frame> {
        self.frames@
    }

    /// The writer's state agrees with the frames written so far.
    pub closed spec fn wf(&self) -> bool {
        let frames = self.frames@;
        &&& self.offset == raw_of(frames).len()
        &&& storable(frames)
        &&& self.since_flush == frames.len() % (INDEX_FLUSH_EVERY as nat)
        &&& match self.prev {
            None => frames.len() == 0,
            Some(p) => {
                &&& frames.len() > 0
                &&& frames.last().width == p.w
                &&& frames.last().height == p.h
                &&& frames.last().bgra == p.bgra@
                &&& last_rec(frames).offset == p.offset
                &&& last_rec(frames).len == p.len
            },
        }
    }

    /// An empty store.
    pub fn create() -> (w: Self)
        ensures
            w.wf(),
            w.written() == Seq::<Frame>::empty(),
    {
        FrameWriter { offset: 0, since_flush: 0, prev: None, frames: Ghost(Seq::empty()) }
    }

    /// Whether a frame repeats the previous one, so that its pixels are already stored.
    pub fn repeats(&self, f: &CapturedFrame) -> (r: bool)
        requires
            self.wf(),
        ensures
            r == repeats_previous(self.written().push(f@)),
    {
        proof {
            let frames = self.frames@.push(f@);
            assert(frames.last() == f@);
            assert(self.frames@.len() > 0 ==> frames[frames.len() - 2] == self.frames@.last());
        }
        match &self.prev {
            None => false,
            Some(p) => p.w == f.width && p.h == f.height && same_bytes(&p.bgra, &f.bgra),
        }
    }

    /// Account for a frame whose pixels are stored, and hand out its index record.
    pub fn push(&mut self, f: CapturedFrame) -> (a: IndexAppend)
        requires
            old(self).wf(),
            storable(old(self).written().push(f@)),
        ensures
            final(self).wf(),
            final(self).written() == old(self).written().push(f@),
            a.record@ == rec_bytes(last_rec(final(self).written())),
            a.flush <==> final(self).written().len() % (INDEX_FLUSH_EVERY as nat) == 0,
    {
        let ghost frames = self.frames@.push(f@);
        let dup = self.repeats(&f);
        proof {
            assert(frames.drop_last() =~= self.frames@);
            assert(frames[frames.len() - 1] == f@);
        }
        let mut offset: u64 = self.offset;
        let mut len: u32 = f.bgra.len() as u32;
        match &self.prev {
            Some(p) => {
                if dup {
                    offset = p.offset;
                    len = p.len;
                }
            },
            None => {},
        }
        let rec = FrameRec { qpc: f.qpc, w: f.width, h: f.height, offset, len };
        assert(rec == last_rec(frames));
        if !dup {
            self.offset = self.offset + f.bgra.len() as u64;
            self.prev = Some(PrevFrame { bgra: f.bgra, w: f.width, h: f.height, offset, len });
        }
        self.since_flush = self.since_flush + 1;
        let flush = self.since_flush >= INDEX_FLUSH_EVERY;
        if flush {
            self.since_flush = 0;
        }
        self.frames = Ghost(frames);
        IndexAppend { record: encode_rec(&rec), flush }
    }
}

/// Whether two buffers hold the same bytes.
fn same_bytes(a: &Vec<u8>, b: &Vec<u8>) -> (r: bool)
    ensures
        r == (a@ == b@),
{
    if a.len() != b.len() {
        return false;
    }
    let mut i: usize = 0;
    while i < a.len()
        invariant
            i <= a@.len(),
            a@.len() == b@.len(),
            forall|k: int| 0 <= k < i ==> a@[k] == b@[k],
        decreases a@.len() - i,
    {
        if a[i] != b[i] {
            return false;
        }
        i += 1;
    }
    assert(a@ =~= b@);
    true
}

/// Whether a record's bytes lie within the first `raw_len` bytes of pixels.
pub open spec fn on_disk(r: FrameRec, raw_len: int) -> bool {
    r.offset + r.len <= raw_len
}

/// The records that can be trusted: the whole records of the index, up to the first whose
/// bytes run past the pixels that reached the disk.
pub open spec fn recovered(index: Seq<u8>, raw_len: int, n: int) -> Seq<FrameRec>
    decreases n,
{
    if n <= 0 {
        Seq::empty()
    } else {
        let before = recovered(index, raw_len, n - 1);
        let r = rec_at(index, (n - 1) * REC_SIZE);
        if before.len() == n - 1 && on_disk(r, raw_len) {
            before.push(r)
        } else {
            before
        }
    }
}

/// The trusted records of an index.
pub open spec fn trusted(index: Seq<u8>, raw_len: int) -> Seq<FrameRec> {
    recovered(index, raw_len, index.len() as int / REC_SIZE as int)
}

/// No more records are trusted once one has failed.
proof fn lemma_recovered_stops(index: Seq<u8>, raw_len: int, k: int, n: int)
    requires
        0 <= k <= n,
        recovered(index, raw_len, k).len() < k,
    ensures
        recovered(index, raw_len, n) == recovered(index, raw_len, k),
    decreases n - k,
{
    if k < n {
        lemma_recovered_stops(index, raw_len, k, n - 1);
        lemma_recovered_len(index, raw_len, k);
    }
}

/// At most one record per index entry is trusted.
proof fn lemma_recovered_len(index: Seq<u8>, raw_len: int, n: int)
    ensures
        recovered(index, raw_len, n).len() <= (if n < 0 {
            0
        } else {
            n
        }),
    decreases n,
{
    if n > 0 {
        lemma_recovered_len(index, raw_len, n - 1);
    }
}

/// Read side of the store: the trusted records, in capture order.
pub struct FrameStore {
    index: Vec<FrameRec>,
}

impl FrameStore {
    /// The records.
    pub closed spec fn view(&self) -> Seq<FrameRec> {
        self.index@
    }

    /// Open a store from its index and the size of its pixel file.
    ///
    /// Robust against a crash mid-recording: a torn trailing record is ignored, and any
    /// frame whose bytes did not fully reach the pixel file is dropped together with what
    /// follows it, so the store only exposes frames that read back cleanly.
    pub fn open(index: &[u8], raw_len: u64) -> (s: Self)
        ensures
            s@ == trusted(index@, raw_len as int),
    {
        let n: usize = index.len() / REC_SIZE;
        let mut recs: Vec<FrameRec> = Vec::new();
        let mut k: usize = 0;
        while k < n
            invariant
                n == index@.len() / REC_SIZE as nat,
                k <= n,
                recs@.len() == k,
                recs@ == recovered(index@, raw_len as int, k as int),
            decreases n - k,
        {
            assert(index.len() <= usize::MAX);
            let r = decode_rec(index, k * REC_SIZE);
            if r.offset as u128 + r.len as u128 > raw_len as u128 {
                proof {
                    lemma_recovered_stops(index@, raw_len as int, k + 1, n as int);
                }
                return FrameStore { index: recs };
            }
            recs.push(r);
            k += 1;
        }
        FrameStore { index: recs }
    }

    /// How many frames the store holds.
    pub fn len(&self) -> (n: usize)
        ensures
            n == self@.len(),
    {
        self.index.len()
    }

    /// Whether the store holds no frames.
    pub fn is_empty(&self) -> (r: bool)
        ensures
            r == (self@.len() == 0),
    {
        self.index.len() == 0
    }

    /// The per-frame records (for time lookups without touching the disk).
    pub fn recs(&self) -> (r: &[FrameRec])
        ensures
            r@ == self@,
    {
        self.index.as_slice()
    }

    /// The record of frame `i`, which says where its pixels are to be read.
    pub fn locate(&self, i: usize) -> (r: Result<FrameRec, String>)
        ensures
            match r {
                Ok(rec) => i < self@.len() && rec == self@[i as int],
                Err(m) => i >= self@.len() && m@ == "no such frame"@,
            },
    {
        if i < self.index.len() {
            Ok(self.index[i])
        } else {
            Err("no such frame".to_owned())
        }
    }
}

/// The frame that a record and the pixels read for it make up.
pub fn assemble(rec: FrameRec, bgra: Vec<u8>) -> (f: CapturedFrame)
    ensures
        f@ == (Frame { width: rec.w, height: rec.h, bgra: bgra@, qpc: rec.qpc }),
{
    CapturedFrame { width: rec.w, height: rec.h, bgra, qpc: rec.qpc }
}

/// What reading a record's frame from a pixel file gives.
pub open spec fn read_back(raw: Seq<u8>, r: FrameRec) -> Frame {
    Frame {
        width: r.w,
        height: r.h,
        bgra: raw.subrange(r.offset as int, r.offset + r.len),
        qpc: r.qpc,
    }
}

/// Pixels are only ever appended.
proof fn lemma_raw_grows(frames: Seq<Frame>, k: int)
    requires
        0 <= k <= frames.len(),
    ensures
        raw_of(frames.take(k)).len() <= raw_of(frames).len(),
        raw_of(frames).subrange(0, raw_of(frames.take(k)).len() as int) == raw_of(frames.take(k)),
    decreases frames.len() - k,
{
    if k == frames.len() {
        assert(frames.take(k) =~= frames);
        assert(raw_of(frames).subrange(0, raw_of(frames).len() as int) =~= raw_of(frames));
    } else {
        let shorter = frames.drop_last();
        assert(shorter.take(k) =~= frames.take(k));
        lemma_raw_grows(shorter, k);
        let n = raw_of(frames.take(k)).len() as int;
        assert(raw_of(frames).subrange(0, n) =~= raw_of(shorter).subrange(0, n));
    }
}

/// The record of a recording's last frame points at that frame's pixels.
proof fn lemma_last_reads_back(frames: Seq<Frame>)
    requires
        frames.len() > 0,
        storable(frames),
    ensures
        on_disk(last_rec(frames), raw_of(frames).len() as int),
        read_back(raw_of(frames), last_rec(frames)) == frames.last(),
    decreases frames.len(),
{
    let shorter = frames.drop_last();
    let r = last_rec(frames);
    assert(frames[frames.len() - 1].bgra.len() <= u32::MAX);
    if repeats_previous(frames) {
        assert forall|i: int| 0 <= i < shorter.len() implies (#[trigger] shorter[i]).bgra.len()
            <= u32::MAX by {
            assert(frames[i].bgra.len() <= u32::MAX);
        }
        lemma_last_reads_back(shorter);
        assert(shorter.last() == frames[frames.len() - 2]);
        assert(read_back(raw_of(frames), r) =~= frames.last());
    } else {
        assert(raw_of(frames).subrange(r.offset as int, r.offset + r.len) =~= frames.last().bgra);
        assert(read_back(raw_of(frames), r) =~= frames.last());
    }
}

/// Every frame of a recording reads back from its pixel file.
proof fn lemma_reads_back(frames: Seq<Frame>, i: int)
    requires
        0 <= i < frames.len(),
        storable(frames),
    ensures
        on_disk(recs_of(frames)[i], raw_of(frames).len() as int),
        read_back(raw_of(frames), recs_of(frames)[i]) == frames[i],
{
    let some = frames.take(i + 1);
    lemma_raw_grows(frames, i + 1);
    assert forall|k: int| 0 <= k < some.len() implies (#[trigger] some[k]).bgra.len() <= u32::MAX by {
        assert(frames[k].bgra.len() <= u32::MAX);
    }
    lemma_last_reads_back(some);
    let r = last_rec(some);
    let n = raw_of(some).len() as int;
    assert(raw_of(frames).subrange(r.offset as int, r.offset + r.len) =~= raw_of(frames).subrange(
        0,
        n,
    ).subrange(r.offset as int, r.offset + r.len));
}

/// An index has one fixed-size record per frame, each at its place.
proof fn lemma_index_records(recs: Seq<FrameRec>, i: int)
    requires
        0 <= i < recs.len(),
    ensures
        index_of(recs).len() == recs.len() * REC_SIZE,
        rec_at(index_of(recs), i * REC_SIZE) == recs[i],
    decreases recs.len(),
{
    let shorter = recs.drop_last();
    lemma_index_len(shorter);
    lemma_rec_len(recs.last());
    if i == recs.len() - 1 {
        records_round_trip(index_of(shorter), recs.last(), Seq::empty());
        assert(index_of(recs) =~= index_of(shorter) + rec_bytes(recs.last()) + Seq::<u8>::empty());
    } else {
        lemma_index_records(shorter, i);
        assert(index_of(recs).subrange(0, index_of(shorter).len() as int) =~= index_of(shorter));
        lemma_rec_at_prefix(index_of(shorter), index_of(recs), i * REC_SIZE);
    }
}

/// An index takes a fixed size per record.
proof fn lemma_index_len(recs: Seq<FrameRec>)
    ensures
        index_of(recs).len() == recs.len() * REC_SIZE,
    decreases recs.len(),
{
    if recs.len() > 0 {
        lemma_index_len(recs.drop_last());
        lemma_rec_len(recs.last());
    }
}

/// A whole record reads the same from a longer index.
proof fn lemma_rec_at_prefix(short: Seq<u8>, long: Seq<u8>, at: int)
    requires
        0 <= at,
        at + REC_SIZE <= short.len() <= long.len(),
        long.subrange(0, short.len() as int) == short,
    ensures
        rec_at(short, at) == rec_at(long, at),
{
    assert(short.subrange(at, at + 8) =~= long.subrange(at, at + 8));
    assert(short.subrange(at + 8, at + 12) =~= long.subrange(at + 8, at + 12));
    assert(short.subrange(at + 12, at + 16) =~= long.subrange(at + 12, at + 16));
    assert(short.subrange(at + 16, at + 24) =~= long.subrange(at + 16, at + 24));
    assert(short.subrange(at + 24, at + 28) =~= long.subrange(at + 24, at + 28));
}

/// What a crash leaves of a recording is a prefix of it: of any leading part of the index
/// and any leading part of the pixels, the records that are trusted are those of the first
/// frames, and each of these frames reads back as it was captured.
pub proof fn a_crash_leaves_a_prefix(frames: Seq<Frame>, index_len: int, raw_len: int)
    requires
        storable(frames),
        0 <= index_len <= index_of(recs_of(frames)).len(),
        0 <= raw_len <= raw_of(frames).len(),
    ensures
        ({
            let kept = trusted(index_of(recs_of(frames)).take(index_len), raw_len);
            &&& kept.len() <= frames.len()
            &&& kept == recs_of(frames).take(kept.len() as int)
            &&& forall|i: int|
                0 <= i < kept.len() ==> read_back(raw_of(frames).take(raw_len), #[trigger] kept[i])
                    == frames[i]
        }),
{
    let recs = recs_of(frames);
    let index = index_of(recs).take(index_len);
    lemma_index_len(recs);
    let n = index.len() as int / REC_SIZE as int;
    lemma_prefix_recovered(frames, index_len, raw_len, n);
    let kept = trusted(index, raw_len);
    assert forall|i: int| 0 <= i < kept.len() implies read_back(
        raw_of(frames).take(raw_len),
        #[trigger] kept[i],
    ) == frames[i] by {
        lemma_reads_back(frames, i);
        let r = kept[i];
        assert(r == recs.take(kept.len() as int)[i]);
        assert(raw_of(frames).take(raw_len).subrange(r.offset as int, r.offset + r.len)
            =~= raw_of(frames).subrange(r.offset as int, r.offset + r.len));
    }
}

/// The first `n` index entries give back leading records, all of them on disk.
proof fn lemma_prefix_recovered(frames: Seq<Frame>, index_len: int, raw_len: int, n: int)
    requires
        storable(frames),
        0 <= index_len <= index_of(recs_of(frames)).len(),
        0 <= raw_len <= raw_of(frames).len(),
        0 <= n <= index_len / REC_SIZE as int,
    ensures
        ({
            let kept = recovered(index_of(recs_of(frames)).take(index_len), raw_len, n);
            &&& kept.len() <= n
            &&& kept.len() <= frames.len()
            &&& kept == recs_of(frames).take(kept.len() as int)
            &&& forall|i: int| 0 <= i < kept.len() ==> on_disk(#[trigger] kept[i], raw_len)
        }),
    decreases n,
{
    let recs = recs_of(frames);
    let index = index_of(recs).take(index_len);
    lemma_index_len(recs);
    if n == 0 {
        assert(recovered(index, raw_len, 0) =~= recs.take(0));
    } else {
        lemma_prefix_recovered(frames, index_len, raw_len, n - 1);
        let before = recovered(index, raw_len, n - 1);
        let at = (n - 1) * REC_SIZE;
        lemma_index_records(recs, n - 1);
        lemma_rec_at_prefix(index, index_of(recs), at);
        if before.len() == n - 1 && on_disk(recs[n - 1], raw_len) {
            assert(recs.take(n) =~= recs.take(n - 1).push(recs[n - 1]));
        }
    }
}

/// A finished recording gives every frame back: all records are trusted, and each frame
/// reads back as it was captured.
pub proof fn a_finished_recording_is_complete(frames: Seq<Frame>)
    requires
        storable(frames),
    ensures
        ({
            let kept = trusted(index_of(recs_of(frames)), raw_of(frames).len() as int);
            &&& kept == recs_of(frames)
            &&& forall|i: int|
                0 <= i < frames.len() ==> read_back(raw_of(frames), #[trigger] kept[i])
                    == frames[i]
        }),
{
    let recs = recs_of(frames);
    let raw_len = raw_of(frames).len() as int;
    lemma_index_len(recs);
    lemma_all_recovered(frames, frames.len() as int);
    assert(index_of(recs).len() as int / REC_SIZE as int == frames.len()) by {
        vstd::arithmetic::div_mod::lemma_div_multiples_vanish(frames.len() as int, REC_SIZE as int);
    }
    assert(recs.take(frames.len() as int) =~= recs);
    assert forall|i: int| 0 <= i < frames.len() implies read_back(
        raw_of(frames),
        #[trigger] recs[i],
    ) == frames[i] by {
        lemma_reads_back(frames, i);
    }
}

/// The first `n` records of a finished recording are all trusted.
proof fn lemma_all_recovered(frames: Seq<Frame>, n: int)
    requires
        storable(frames),
        0 <= n <= frames.len(),
    ensures
        recovered(index_of(recs_of(frames)), raw_of(frames).len() as int, n) == recs_of(
            frames,
        ).take(n),
    decreases n,
{
    let recs = recs_of(frames);
    if n == 0 {
        assert(recovered(index_of(recs), raw_of(frames).len() as int, 0) =~= recs.take(0));
    } else {
        lemma_all_recovered(frames, n - 1);
        lemma_index_records(recs, n - 1);
        lemma_reads_back(frames, n - 1);
        assert(recs.take(n) =~= recs.take(n - 1).push(recs[n - 1]));
    }
}

/// A frame that repeats the one before it adds no pixels, and its record points at the
/// same bytes.
pub proof fn repeats_add_no_pixels(frames: Seq<Frame>, f: Frame)
    requires
        frames.len() > 0,
        same_picture(frames.last(), f),
    ensures
        raw_of(frames.push(f)) == raw_of(frames),
        last_rec(frames.push(f)).offset == last_rec(frames).offset,
        last_rec(frames.push(f)).len == last_rec(frames).len,
{
    let more = frames.push(f);
    assert(more.drop_last() =~= frames);
    assert(more[more.len() - 2] == frames.last());
}

/// Writing a frame appends its record to the index.
pub proof fn pushing_appends_a_record(frames: Seq<Frame>, f: Frame)
    ensures
        recs_of(frames.push(f)) == recs_of(frames).push(last_rec(frames.push(f))),
        index_of(recs_of(frames.push(f))) == index_of(recs_of(frames)) + rec_bytes(
            last_rec(frames.push(f)),
        ),
{
    let more = frames.push(f);
    assert forall|i: int| 0 <= i < frames.len() implies #[trigger] more.take(i + 1) == frames.take(
        i + 1,
    ) by {
        assert(more.take(i + 1) =~= frames.take(i + 1));
    }
    assert(more.take(more.len() as int) =~= more);
    assert(recs_of(more) =~= recs_of(frames).push(last_rec(more)));
    assert(recs_of(more).drop_last() =~= recs_of(frames));
}

/// A record holds its fields in order, the lowest byte of each first: the capture time in eight
/// bytes, width and height in four each, the place of the pixels in eight and their length in
/// four.
pub proof fn records_hold_their_fields_in_order(r: FrameRec, i: nat)
    requires
        i < 8,
        r.qpc >= 0,
    ensures
        ({
            let b = rec_bytes(r);
            &&& b.len() == 28
            &&& b[i as int] == r.qpc as nat / pow256(i) % 256
            &&& i < 4 ==> b[8 + i as int] == r.w as nat / pow256(i) % 256
            &&& i < 4 ==> b[12 + i as int] == r.h as nat / pow256(i) % 256
            &&& b[16 + i as int] == r.offset as nat / pow256(i) % 256
            &&& i < 4 ==> b[24 + i as int] == r.len as nat / pow256(i) % 256
        }),
{
    le_round_trip((r.qpc as u64) as nat, 8);
    le_round_trip(r.w as nat, 4);
    le_round_trip(r.h as nat, 4);
    le_round_trip(r.offset as nat, 8);
    le_round_trip(r.len as nat, 4);
    low_bytes_come_first((r.qpc as u64) as nat, 8, i);
    low_bytes_come_first(r.offset as nat, 8, i);
    if i < 4 {
        low_bytes_come_first(r.w as nat, 4, i);
        low_bytes_come_first(r.h as nat, 4, i);
        low_bytes_come_first(r.len as nat, 4, i);
    }
}

} // verus!

use vuoom::capture::CapturedFrame;
use vuoom::store::bundle::{frame_file_name, index_entry, rebase};
use vuoom::store::frames::{
    assemble, decode_rec, encode_rec, FrameRec, FrameStore, FrameWriter, REC_SIZE,
};
use vuoom::store::sessions::{
    latest_recoverable, next_session_id, same_session, session_id_of, session_order,
    sessions_to_prune, Candidate,
};

/// The two files of a store, in memory.
struct Files {
    raw: Vec<u8>,
    index: Vec<u8>,
}

fn write(frames: Vec<CapturedFrame>) -> Files {
    let mut w = FrameWriter::create();
    let mut files = Files { raw: Vec::new(), index: Vec::new() };
    for f in frames {
        if !w.repeats(&f) {
            files.raw.extend_from_slice(&f.bgra);
        }
        files.index.extend_from_slice(&w.push(f).record);
    }
    files
}

fn open(files: &Files) -> FrameStore {
    FrameStore::open(&files.index, files.raw.len() as u64)
}

/// A 2x2 BGRA frame whose 16 bytes are all `fill`.
fn frame(fill: u8, qpc: i64) -> CapturedFrame {
    CapturedFrame { width: 2, height: 2, bgra: vec![fill; 16], qpc }
}

fn read(store: &FrameStore, files: &Files, i: usize) -> CapturedFrame {
    let rec = store.locate(i).unwrap();
    let at = rec.offset as usize;
    let bytes = files.raw[at..at + rec.len as usize].to_vec();
    assemble(rec, bytes)
}

fn assert_pixels(store: &FrameStore, files: &Files, i: usize, fill: u8, qpc: i64) {
    let f = read(store, files, i);
    assert_eq!((f.width, f.height, f.qpc), (2, 2, qpc));
    assert_eq!(f.bgra, vec![fill; 16], "frame {i} pixels");
}

#[test]
fn dedup_stores_identical_frame_as_backreference() {
    let files = write(vec![frame(0xAA, 10), frame(0xAA, 20), frame(0xBB, 30)]);
    let store = open(&files);
    // Only A's and B's pixels are written, the duplicate wrote no pixels.
    assert_eq!(files.raw.len(), 32, "raw file holds A(16)+B(16), not the duplicate");
    // All three records still read back the correct pixels & timestamps.
    assert_eq!(store.len(), 3);
    assert_pixels(&store, &files, 0, 0xAA, 10);
    assert_pixels(&store, &files, 1, 0xAA, 20);
    assert_pixels(&store, &files, 2, 0xBB, 30);
    // The duplicate record back-references A's byte range.
    let recs = store.recs();
    assert_eq!(recs[1].offset, recs[0].offset);
    assert_eq!(recs[1].len, recs[0].len);
}

#[test]
fn dimension_change_is_not_deduplicated() {
    // Two frames with the same fill byte but different sizes must both be stored raw.
    let files = write(vec![
        CapturedFrame { width: 2, height: 2, bgra: vec![0xAA; 16], qpc: 1 },
        CapturedFrame { width: 3, height: 2, bgra: vec![0xAA; 24], qpc: 2 },
    ]);
    let store = open(&files);
    assert_eq!(files.raw.len(), 40, "16 + 24 bytes, nothing deduplicated");
    assert_eq!(store.len(), 2);
    assert_eq!(read(&store, &files, 1).width, 3);
}

#[test]
fn open_keeps_all_when_last_record_is_a_backreferencing_dup() {
    // A, B, B: the final record is a duplicate pointing back at B's bytes.
    let files = write(vec![frame(0xAA, 1), frame(0xBB, 2), frame(0xBB, 3)]);
    // The trailing dup's target bytes exist, so all three survive.
    let store = open(&files);
    assert_eq!(store.len(), 3);
    assert_pixels(&store, &files, 2, 0xBB, 3);
}

#[test]
fn open_truncates_at_a_forward_record_past_eof() {
    // A, A(dup), B, then a crash that lost B's pixel bytes: only A's 16 bytes are left.
    let mut files = write(vec![frame(0xAA, 1), frame(0xAA, 2), frame(0xBB, 3)]);
    files.raw.truncate(16);
    let store = open(&files);
    assert_eq!(store.len(), 2, "B's forward record is trimmed; both A's remain");
    assert_pixels(&store, &files, 0, 0xAA, 1);
    assert_pixels(&store, &files, 1, 0xAA, 2);
}

#[test]
fn a_torn_index_record_is_ignored() {
    let mut files = write(vec![frame(0xAA, 1), frame(0xBB, 2)]);
    files.index.truncate(2 * REC_SIZE - 1);
    assert_eq!(open(&files).len(), 1);
    files.index.clear();
    assert!(open(&files).is_empty());
}

#[test]
fn locating_past_the_end_is_an_error() {
    let files = write(vec![frame(0xAA, 1)]);
    assert!(open(&files).locate(1).is_err());
}

#[test]
fn records_read_back_as_written() {
    let r = FrameRec { qpc: -5, w: 3, h: 4, offset: 0x0102_0304_0506, len: 48 };
    let b = encode_rec(&r);
    assert_eq!(b.len(), REC_SIZE);
    assert_eq!(&b[0..8], &(-5i64).to_le_bytes());
    let back = decode_rec(&b, 0);
    assert_eq!((back.qpc, back.w, back.h, back.offset, back.len), (-5, 3, 4, r.offset, 48));
}

#[test]
fn the_index_is_flushed_every_fifteen_frames() {
    let mut w = FrameWriter::create();
    let flushed: Vec<usize> = (0..30).filter(|&i| w.push(frame(1, i as i64)).flush).collect();
    assert_eq!(flushed, vec![14, 29]);
}

#[test]
fn sessions_are_ordered_by_their_number() {
    assert_eq!(session_id_of("42"), Some(42));
    assert_eq!(session_id_of(""), None);
    assert_eq!(session_id_of("4x"), None);
    assert_eq!(session_id_of("340282366920938463463374607431768211455"), Some(u128::MAX));
    assert_eq!(session_id_of("340282366920938463463374607431768211456"), None);
    let names: Vec<String> = ["10", "junk", "9", "200"].iter().map(|s| s.to_string()).collect();
    let order = session_order(&names);
    assert_eq!(order, vec![(200, 3), (10, 0), (9, 2)]);
    // One is kept beside the one that is about to be made.
    assert_eq!(sessions_to_prune(&order), vec![(10, 0), (9, 2)]);
}

#[test]
fn new_sessions_come_after_all_others() {
    assert_eq!(next_session_id(100, None), 100);
    assert_eq!(next_session_id(100, Some(99)), 100);
    assert_eq!(next_session_id(100, Some(100)), 101);
    assert_eq!(next_session_id(100, Some(500)), 501);
}

#[test]
fn sessions_are_told_apart_by_number_or_path() {
    assert!(same_session(Some(1), Some(1), false));
    assert!(!same_session(Some(1), Some(2), false));
    assert!(same_session(None, None, true));
    assert!(!same_session(None, None, false));
}

#[test]
fn the_newest_whole_session_is_recovered() {
    let c = |loaded, has_manifest, frames| Candidate { loaded, has_manifest, frames };
    // Newest first: the loaded one, a torn one, one without a manifest, an empty one.
    let list = vec![
        c(true, true, Some(9)),
        c(false, true, None),
        c(false, false, Some(9)),
        c(false, true, Some(0)),
        c(false, true, Some(5)),
        c(false, true, Some(3)),
    ];
    assert_eq!(latest_recoverable(&list), Some(4));
    assert_eq!(latest_recoverable(&vec![c(true, true, Some(9))]), None);
}

#[test]
fn bundled_frames_keep_their_times() {
    let rec = FrameRec { qpc: 1_500, w: 8, h: 6, offset: 0, len: 192 };
    let e = index_entry(3, &rec, 1_000, 1_000);
    assert_eq!((e.n, e.t, e.w, e.h), (3, 500_000_000, 8, 6));
    assert_eq!(rebase(e.t, 7_000, 1_000), 7_500);
    assert_eq!(frame_file_name(7), "00007.png");
    assert_eq!(frame_file_name(1_234_567), "1234567.png");
}

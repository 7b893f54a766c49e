//! Preview frames on the wire: raw pixels followed by a fixed metadata trailer.

use crate::bytes::{
    le_bytes, le_round_trip, le_value, lemma_pow256_values, low_bytes_come_first, pow256, push_le,
    read_le,
};
use vstd::prelude::*;

verus! {

/// Metadata that travels with each preview frame.
#[derive(Debug, Clone, Copy, PartialEq, Eq, Structural)]
pub struct FrameMeta {
    pub stride: u32,
    pub height: u32,
    pub width: u32,
    pub frame_number: u32,
    pub target_time_ns: u64,
}

/// Bytes in the metadata trailer.
pub const META_LEN: usize = 24;

/// The trailer: five little-endian numbers.
pub open spec fn trailer(m: FrameMeta) -> Seq<u8> {
    le_bytes(m.stride as nat, 4) + le_bytes(m.height as nat, 4) + le_bytes(m.width as nat, 4)
        + le_bytes(m.frame_number as nat, 4) + le_bytes(m.target_time_ns as nat, 8)
}

/// The metadata that the last bytes of a frame stand for.
pub open spec fn meta_of(buf: Seq<u8>) -> Option<FrameMeta> {
    let n = buf.len();
    if n < META_LEN {
        None
    } else {
        let m = n - META_LEN;
        Some(
            FrameMeta {
                stride: le_value(buf.subrange(m, m + 4)) as u32,
                height: le_value(buf.subrange(m + 4, m + 8)) as u32,
                width: le_value(buf.subrange(m + 8, m + 12)) as u32,
                frame_number: le_value(buf.subrange(m + 12, m + 16)) as u32,
                target_time_ns: le_value(buf.subrange(m + 16, m + 24)) as u64,
            },
        )
    }
}

/// The pixels of a frame: all but the trailer, nothing if it is shorter than that.
pub open spec fn pixels_of(buf: Seq<u8>) -> Seq<u8> {
    if buf.len() < META_LEN {
        Seq::empty()
    } else {
        buf.subrange(0, buf.len() - META_LEN)
    }
}

/// Pack pixels and metadata into one frame.
pub fn pack_frame(rgba: &[u8], meta: FrameMeta) -> (buf: Vec<u8>)
    ensures
        buf@ == rgba@ + trailer(meta),
{
    let mut buf: Vec<u8> = Vec::new();
    buf.extend_from_slice(rgba);
    push_le(&mut buf, meta.stride as u64, 4);
    push_le(&mut buf, meta.height as u64, 4);
    push_le(&mut buf, meta.width as u64, 4);
    push_le(&mut buf, meta.frame_number as u64, 4);
    push_le(&mut buf, meta.target_time_ns, 8);
    assert(buf@ =~= rgba@ + trailer(meta));
    buf
}

/// Read the metadata of a frame; `None` if it is too short to have any.
pub fn parse_meta(buf: &[u8]) -> (r: Option<FrameMeta>)
    ensures
        r == meta_of(buf@),
{
    if buf.len() < META_LEN {
        return None;
    }
    let m: usize = buf.len() - META_LEN;
    proof {
        lemma_pow256_values();
    }
    let stride: u32 = read_le(buf, m, 4) as u32;
    let height: u32 = read_le(buf, m + 4, 4) as u32;
    let width: u32 = read_le(buf, m + 8, 4) as u32;
    let frame_number: u32 = read_le(buf, m + 12, 4) as u32;
    let target_time_ns: u64 = read_le(buf, m + 16, 8);
    Some(FrameMeta { stride, height, width, frame_number, target_time_ns })
}

/// The pixels of a frame.
pub fn payload(buf: &[u8]) -> (p: &[u8])
    ensures
        p@ == pixels_of(buf@),
{
    let end: usize = if buf.len() < META_LEN {
        0
    } else {
        buf.len() - META_LEN
    };
    let p = vstd::slice::slice_subrange(buf, 0, end);
    assert(p@ =~= pixels_of(buf@));
    p
}

/// A packed frame gives its metadata and its pixels back.
pub proof fn frames_round_trip(rgba: Seq<u8>, meta: FrameMeta)
    ensures
        (rgba + trailer(meta)).len() == rgba.len() + META_LEN,
        meta_of(rgba + trailer(meta)) == Some(meta),
        pixels_of(rgba + trailer(meta)) == rgba,
{
    lemma_pow256_values();
    le_round_trip(meta.stride as nat, 4);
    le_round_trip(meta.height as nat, 4);
    le_round_trip(meta.width as nat, 4);
    le_round_trip(meta.frame_number as nat, 4);
    le_round_trip(meta.target_time_ns as nat, 8);
    let buf = rgba + trailer(meta);
    let m = rgba.len() as int;
    assert(buf.subrange(m, m + 4) =~= le_bytes(meta.stride as nat, 4));
    assert(buf.subrange(m + 4, m + 8) =~= le_bytes(meta.height as nat, 4));
    assert(buf.subrange(m + 8, m + 12) =~= le_bytes(meta.width as nat, 4));
    assert(buf.subrange(m + 12, m + 16) =~= le_bytes(meta.frame_number as nat, 4));
    assert(buf.subrange(m + 16, m + 24) =~= le_bytes(meta.target_time_ns as nat, 8));
    assert(buf.subrange(0, m) =~= rgba);
}

/// The trailer holds its fields in order, the lowest byte of each first: stride, height, width
/// and frame number in four bytes each, and the time in eight.
pub proof fn trailers_hold_their_fields_in_order(m: FrameMeta, i: nat)
    requires
        i < 8,
    ensures
        ({
            let t = trailer(m);
            &&& t.len() == 24
            &&& i < 4 ==> t[i as int] == m.stride as nat / pow256(i) % 256
            &&& i < 4 ==> t[4 + i as int] == m.height as nat / pow256(i) % 256
            &&& i < 4 ==> t[8 + i as int] == m.width as nat / pow256(i) % 256
            &&& i < 4 ==> t[12 + i as int] == m.frame_number as nat / pow256(i) % 256
            &&& t[16 + i as int] == m.target_time_ns as nat / pow256(i) % 256
        }),
{
    le_round_trip(m.stride as nat, 4);
    le_round_trip(m.height as nat, 4);
    le_round_trip(m.width as nat, 4);
    le_round_trip(m.frame_number as nat, 4);
    low_bytes_come_first(m.target_time_ns as nat, 8, i);
    if i < 4 {
        low_bytes_come_first(m.stride as nat, 4, i);
        low_bytes_come_first(m.height as nat, 4, i);
        low_bytes_come_first(m.width as nat, 4, i);
        low_bytes_come_first(m.frame_number as nat, 4, i);
    }
}

} // verus!

use vuoom::preview::auth::{
    check_path, generate_token, token_for, token_from_bytes, Handshake, TokenError,
};
use vuoom::preview::protocol::{pack_frame, parse_meta, payload, FrameMeta, META_LEN};

#[test]
fn pack_then_parse_round_trips() {
    let rgba = vec![1u8, 2, 3, 4, 5, 6, 7, 8];
    let meta = FrameMeta {
        stride: 256,
        height: 2,
        width: 1,
        frame_number: 7,
        target_time_ns: 1_234_567,
    };
    let buf = pack_frame(&rgba, meta);
    assert_eq!(buf.len(), rgba.len() + META_LEN);
    assert_eq!(parse_meta(&buf), Some(meta));
    assert_eq!(payload(&buf), &rgba[..]);
}

#[test]
fn too_short_is_none() {
    assert_eq!(parse_meta(&[0u8; 10]), None);
    assert!(payload(&[0u8; 10]).is_empty());
}

#[test]
fn the_trailer_is_little_endian() {
    let meta = FrameMeta { stride: 1, height: 2, width: 3, frame_number: 4, target_time_ns: 256 };
    let buf = pack_frame(&[], meta);
    assert_eq!(&buf[0..8], &[1, 0, 0, 0, 2, 0, 0, 0]);
    assert_eq!(&buf[16..24], &[0, 1, 0, 0, 0, 0, 0, 0]);
}

#[test]
fn tokens_are_128_bit_hex_and_unique() {
    let a = generate_token().unwrap();
    let b = generate_token().unwrap();
    assert_eq!(a.len(), 32, "128 bits hex-encodes to 32 chars");
    assert!(a.chars().all(|c| c.is_ascii_hexdigit()));
    assert_ne!(a, b, "each token must be distinct");
}

#[test]
fn tokens_spell_their_bytes() {
    let mut bytes = [0u8; 16];
    bytes[0] = 0xab;
    bytes[15] = 0x07;
    assert_eq!(token_from_bytes(&bytes), "ab000000000000000000000000000007");
}

#[test]
fn only_a_failing_source_gives_no_token() {
    let token = token_for(Ok([0x1f; 16])).unwrap();
    assert_eq!(token, "1f".repeat(16));
    let TokenError::NoRandomness(text) = token_for(Err(getrandom::Error::UNSUPPORTED)).unwrap_err();
    assert_eq!(text, getrandom::Error::UNSUPPORTED.to_string());
}

#[test]
fn only_the_path_with_the_token_is_served() {
    assert!(matches!(check_path("/ws/abc", "abc"), Handshake::Accept));
    for path in ["/ws/abd", "/ws/", "/", "/ws/abc/", "abc"] {
        match check_path(path, "abc") {
            Handshake::Refuse { status, reason } => {
                assert_eq!(status, 403);
                assert_eq!(reason, "invalid preview token");
            }
            Handshake::Accept => panic!("served {path}"),
        }
    }
}

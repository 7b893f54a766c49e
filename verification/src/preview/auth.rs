//! Who may watch the preview: a random token in the request path.

use crate::text::{same_text, shown_as};
use vstd::prelude::*;

verus! {

/// Why no token could be made.
#[derive(Debug)]
pub enum TokenError {
    /// The system's random source is unavailable; holds its description.
    NoRandomness(String),
}

#[verifier::external_type_specification]
#[verifier::external_body]
pub struct ExRandomError(getrandom::Error);

/// `getrandom::getrandom` fills sixteen bytes from the system's random source.
///
/// Nothing is said of the bytes.
#[verifier::external_body]
fn random_bytes() -> (r: Result<[u8; 16], getrandom::Error>) {
    let mut bytes = [0u8; 16];
    getrandom::getrandom(&mut bytes)?;
    Ok(bytes)
}

/// The lower-case hexadecimal digit of a number below sixteen.
pub open spec fn hex_digit(d: int) -> char {
    if d < 10 {
        (48 + d) as char
    } else {
        (87 + d) as char
    }
}

/// Whether a character is a lower-case hexadecimal digit.
pub open spec fn is_hex_digit(c: char) -> bool {
    '0' <= c <= '9' || 'a' <= c <= 'f'
}

/// The token of random bytes: two hexadecimal digits each, high half first.
pub open spec fn token_of(bytes: Seq<u8>) -> Seq<char> {
    Seq::new(
        2 * bytes.len(),
        |i: int|
            if i % 2 == 0 {
                hex_digit(bytes[i / 2] as int / 16)
            } else {
                hex_digit(bytes[i / 2] as int % 16)
            },
    )
}

/// The hexadecimal digit of `d`.
fn hex_char(d: u8) -> (c: char)
    requires
        d < 16,
    ensures
        c == hex_digit(d as int),
{
    if d < 10 {
        (48 + d) as char
    } else {
        (87 + d) as char
    }
}

/// Write random bytes as a token.
pub fn token_from_bytes(bytes: &[u8; 16]) -> (token: String)
    ensures
        token@ == token_of(bytes@),
{
    let mut token = String::new();
    let mut i: usize = 0;
    while i < 16
        invariant
            i <= 16,
            token@.len() == 2 * i,
            forall|k: int| 0 <= k < 2 * i ==> token@[k] == token_of(bytes@)[k],
        decreases 16 - i,
    {
        let b: u8 = bytes[i];
        token.push(hex_char(b / 16));
        token.push(hex_char(b % 16));
        i += 1;
    }
    assert(token@ =~= token_of(bytes@));
    token
}

/// Make an access token: 128 random bits in hexadecimal.
pub fn generate_token() -> (r: Result<String, TokenError>)
    ensures
        r matches Ok(token) ==> token@.len() == 32 && forall|i: int|
            0 <= i < 32 ==> is_hex_digit(#[trigger] token@[i]),
        exists|drawn: Result<[u8; 16], getrandom::Error>| #[trigger] answers(drawn, r),
{
    token_for(random_bytes())
}

/// Whether `r` answers what the random source gave: bytes are spelled as their token, and a
/// failure is passed on with the description that the source shows for it.
pub open spec fn answers(
    drawn: Result<[u8; 16], getrandom::Error>,
    r: Result<String, TokenError>,
) -> bool {
    match drawn {
        Ok(bytes) => r matches Ok(token) && token@ == token_of(bytes@),
        Err(e) => r matches Err(TokenError::NoRandomness(text))
            && shown_as(e, text),
    }
}

/// The token of what the random source gave. Only a source that failed gives no token.
pub fn token_for(drawn: Result<[u8; 16], getrandom::Error>) -> (r: Result<String, TokenError>)
    ensures
        answers(drawn, r),
        r is Ok <==> drawn is Ok,
{
    match drawn {
        Ok(bytes) => Ok(token_from_bytes(&bytes)),
        Err(e) => Err(TokenError::NoRandomness(e.to_string())),
    }
}

/// What a request for the preview is answered.
#[derive(Debug)]
pub enum Handshake {
    /// The connection is upgraded.
    Accept,
    /// The connection is refused with a status and a reason.
    Refuse { status: u16, reason: String },
}

/// The path under which a preview with this token is served.
pub open spec fn preview_path(token: Seq<char>) -> Seq<char> {
    "/ws/"@ + token
}

/// Decide on a request by its path: only the one with the token is served, every other is
/// refused as forbidden.
pub fn check_path(path: &str, token: &str) -> (h: Handshake)
    ensures
        if path@ == preview_path(token@) {
            h is Accept
        } else {
            h is Refuse && h->status == 403 && h->reason@ == "invalid preview token"@
        },
{
    let mut expected = "/ws/".to_owned();
    expected.push_str(token);
    if same_text(path, expected.as_str()) {
        Handshake::Accept
    } else {
        Handshake::Refuse { status: 403, reason: "invalid preview token".to_owned() }
    }
}

/// Different random bytes make different tokens, and a path that serves one token serves
/// no other.
pub proof fn tokens_tell_bytes_apart(a: Seq<u8>, b: Seq<u8>)
    requires
        a.len() == b.len(),
        preview_path(token_of(a)) == preview_path(token_of(b)),
    ensures
        a == b,
{
    let n = "/ws/"@.len() as int;
    assert forall|i: int| 0 <= i < a.len() implies a[i] == b[i] by {
        let hi = 2 * i;
        let lo = 2 * i + 1;
        assert(preview_path(token_of(a))[n + hi] == token_of(a)[hi]);
        assert(preview_path(token_of(b))[n + hi] == token_of(b)[hi]);
        assert(preview_path(token_of(a))[n + lo] == token_of(a)[lo]);
        assert(preview_path(token_of(b))[n + lo] == token_of(b)[lo]);
        assert(hex_digit(a[i] as int / 16) == hex_digit(b[i] as int / 16));
        assert(hex_digit(a[i] as int % 16) == hex_digit(b[i] as int % 16));
    }
    assert(a =~= b);
}

/// The number that a hexadecimal digit stands for.
pub open spec fn hex_value(c: char) -> int {
    if '0' <= c <= '9' {
        c as int - '0' as int
    } else {
        c as int - 'a' as int + 10
    }
}

/// A token spells its bytes in order, each in two hexadecimal digits, the high one first.
pub proof fn tokens_spell_their_bytes(bytes: Seq<u8>, i: int)
    requires
        0 <= i < bytes.len(),
    ensures
        token_of(bytes).len() == 2 * bytes.len(),
        is_hex_digit(token_of(bytes)[2 * i]),
        is_hex_digit(token_of(bytes)[2 * i + 1]),
        16 * hex_value(token_of(bytes)[2 * i]) + hex_value(token_of(bytes)[2 * i + 1]) == bytes[i],
{
    let b = bytes[i] as int;
    let t = token_of(bytes);
    assert(t[2 * i] == hex_digit(b / 16));
    assert((2 * i + 1) / 2 == i && (2 * i + 1) % 2 == 1);
    assert(t[2 * i + 1] == hex_digit(b % 16));
}

} // verus!

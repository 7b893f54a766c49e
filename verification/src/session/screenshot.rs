//! Still frames as data URLs: the backdrop that the region selector draws on.

use crate::capture::CapturedFrame;
use crate::encode::error::EncodeError;
use crate::encode::image::{
    encode_png_to_vec, has_pixels, png_file, size_mismatch, swizzle_rb, swizzled, RgbaImage,
};
use base64::Engine;
use vstd::prelude::*;

verus! {

/// The character of six bits in the standard alphabet.
pub open spec fn sextet_char(n: int) -> char {
    if n < 26 {
        (65 + n) as char
    } else if n < 52 {
        (97 + (n - 26)) as char
    } else if n < 62 {
        (48 + (n - 52)) as char
    } else if n == 62 {
        '+'
    } else {
        '/'
    }
}

/// Byte `i`, or zero past the end.
pub open spec fn byte_or_zero(data: Seq<u8>, i: int) -> int {
    if 0 <= i < data.len() {
        data[i] as int
    } else {
        0
    }
}

/// Character `i` of the encoding: every three bytes are four groups of six bits, and `=`
/// stands for a group that no byte reaches into.
pub open spec fn base64_char(data: Seq<u8>, i: int) -> char {
    let first = i / 4 * 3;
    let place = i % 4;
    if first + place > data.len() {
        '='
    } else {
        let bits = byte_or_zero(data, first) * 65536 + byte_or_zero(data, first + 1) * 256
            + byte_or_zero(data, first + 2);
        if place == 0 {
            sextet_char(bits / 262144 % 64)
        } else if place == 1 {
            sextet_char(bits / 4096 % 64)
        } else if place == 2 {
            sextet_char(bits / 64 % 64)
        } else {
            sextet_char(bits % 64)
        }
    }
}

/// The standard encoding with padding.
pub open spec fn base64_of(data: Seq<u8>) -> Seq<char> {
    Seq::new(((data.len() + 2) / 3 * 4) as nat, |i: int| base64_char(data, i))
}

/// `base64`'s `STANDARD` engine: the standard alphabet, padded to whole groups of four.
#[verifier::external_body]
fn base64_encode(data: &Vec<u8>) -> (s: String)
    ensures
        s@ == base64_of(data@),
{
    base64::engine::general_purpose::STANDARD.encode(data)
}

/// The URL that a PNG file is shown under.
pub open spec fn png_url(file: Seq<u8>) -> Seq<char> {
    "data:image/png;base64,"@ + base64_of(file)
}

/// The URL that a PNG file is shown under.
pub fn data_url(file: &Vec<u8>) -> (s: String)
    ensures
        s@ == png_url(file@),
{
    let mut s = "data:image/png;base64,".to_owned();
    let text = base64_encode(file);
    s.push_str(text.as_str());
    s
}

/// A captured frame as the URL of a PNG image.
pub fn frame_url(frame: &CapturedFrame) -> (r: Result<String, EncodeError>)
    ensures
        ({
            let fits = frame.bgra@.len() == frame.width * frame.height * 4;
            match r {
                Ok(s) => {
                    &&& fits
                    &&& has_pixels(frame.width, frame.height)
                    &&& s@ == png_url(png_file(frame.width, frame.height, swizzled(frame.bgra@)))
                },
                Err(e) => {
                    &&& !fits || !has_pixels(frame.width, frame.height)
                    &&& e is Png
                    &&& !fits ==> e->Png_0@ == size_mismatch(
                        frame.bgra@.len(),
                        frame.width,
                        frame.height,
                    )
                },
            }
        }),
{
    let img = RgbaImage::new(frame.width, frame.height, swizzle_rb(frame.bgra.as_slice()));
    match encode_png_to_vec(&img) {
        Ok(file) => Ok(data_url(&file)),
        Err(e) => Err(e),
    }
}

/// The six bits that a character of base 64 stands for.
pub open spec fn sextet_value(c: char) -> int {
    if 'A' <= c <= 'Z' {
        c as int - 'A' as int
    } else if 'a' <= c <= 'z' {
        c as int - 'a' as int + 26
    } else if '0' <= c <= '9' {
        c as int - '0' as int + 52
    } else if c == '+' {
        62
    } else {
        63
    }
}

/// A character stands for the bits that it was made of.
proof fn lemma_sextet(n: int)
    requires
        0 <= n < 64,
    ensures
        sextet_value(sextet_char(n)) == n,
        sextet_char(n) != '=',
{
}

/// The four groups of six bits of three bytes.
proof fn lemma_sextets(x: int, y: int, z: int)
    requires
        0 <= x < 256,
        0 <= y < 256,
        0 <= z < 256,
    ensures
        ({
            let bits = x * 65536 + y * 256 + z;
            &&& bits / 262144 % 64 == x / 4
            &&& bits / 4096 % 64 == x % 4 * 16 + y / 16
            &&& bits / 64 % 64 == y % 16 * 4 + z / 64
            &&& bits % 64 == z % 64
        }),
{
    let bits = x * 65536 + y * 256 + z;
    let a = x / 4;
    let b = x % 4 * 16 + y / 16;
    let c = y % 16 * 4 + z / 64;
    let d = z % 64;
    assert(x == 4 * a + x % 4 && y == 16 * (y / 16) + y % 16 && z == 64 * (z / 64) + d);
    assert(bits == 64 * (4096 * a + 64 * b + c) + d);
    vstd::arithmetic::div_mod::lemma_fundamental_div_mod_converse(
        bits,
        64,
        4096 * a + 64 * b + c,
        d,
    );
    vstd::arithmetic::div_mod::lemma_fundamental_div_mod_converse(
        4096 * a + 64 * b + c,
        64,
        64 * a + b,
        c,
    );
    vstd::arithmetic::div_mod::lemma_fundamental_div_mod_converse(
        bits,
        4096,
        64 * a + b,
        64 * c + d,
    );
    vstd::arithmetic::div_mod::lemma_fundamental_div_mod_converse(64 * a + b, 64, a, b);
    vstd::arithmetic::div_mod::lemma_fundamental_div_mod_converse(
        bits,
        262144,
        a,
        4096 * b + 64 * c + d,
    );
    vstd::arithmetic::div_mod::lemma_fundamental_div_mod_converse(a, 64, 0, a);
}

/// Base 64 spells bytes: every three of them in four characters of six bits each, the highest
/// bits first; a last one or two bytes in two or three, filled up with equals signs.
pub proof fn base64_spells_the_bytes(data: Seq<u8>, k: int)
    requires
        0 <= 3 * k < data.len(),
    ensures
        ({
            let s = base64_of(data);
            let a = sextet_value(s[4 * k]);
            let b = sextet_value(s[4 * k + 1]);
            let c = sextet_value(s[4 * k + 2]);
            let d = sextet_value(s[4 * k + 3]);
            &&& s.len() == (data.len() + 2) / 3 * 4
            &&& 4 * k + 4 <= s.len()
            &&& data[3 * k] == a * 4 + b / 16
            &&& 3 * k + 1 < data.len() ==> data[3 * k + 1] == b % 16 * 16 + c / 4
            &&& 3 * k + 2 < data.len() ==> data[3 * k + 2] == c % 4 * 64 + d
            &&& 3 * k + 1 == data.len() ==> s[4 * k + 2] == '=' && s[4 * k + 3] == '='
            &&& 3 * k + 2 == data.len() ==> s[4 * k + 3] == '=' && s[4 * k + 2] != '='
            &&& 3 * k + 2 < data.len() ==> s[4 * k + 3] != '='
        }),
{
    let s = base64_of(data);
    let x = byte_or_zero(data, 3 * k);
    let y = byte_or_zero(data, 3 * k + 1);
    let z = byte_or_zero(data, 3 * k + 2);
    assert((4 * k) / 4 * 3 == 3 * k && (4 * k) % 4 == 0);
    assert((4 * k + 1) / 4 * 3 == 3 * k && (4 * k + 1) % 4 == 1);
    assert((4 * k + 2) / 4 * 3 == 3 * k && (4 * k + 2) % 4 == 2);
    assert((4 * k + 3) / 4 * 3 == 3 * k && (4 * k + 3) % 4 == 3);
    lemma_sextets(x, y, z);
    lemma_sextet(x / 4);
    lemma_sextet(x % 4 * 16 + y / 16);
    lemma_sextet(y % 16 * 4 + z / 64);
    lemma_sextet(z % 64);
    assert(s[4 * k] == sextet_char(x / 4));
    assert(s[4 * k + 1] == sextet_char(x % 4 * 16 + y / 16));
    assert(3 * k + 1 < data.len() ==> s[4 * k + 2] == sextet_char(y % 16 * 4 + z / 64));
    assert(3 * k + 2 < data.len() ==> s[4 * k + 3] == sextet_char(z % 64));
    assert(3 * k + 1 == data.len() ==> s[4 * k + 2] == '=');
    assert(3 * k + 2 >= data.len() ==> s[4 * k + 3] == '=');
}

} // verus!

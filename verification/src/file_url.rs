//! File URLs (`file:///...`) as the system hands them to open documents,
//! turned into paths.
use vstd::prelude::*;
use vstd::utf8::{decode_utf8, valid_utf8};

use crate::text::{chars_of, starts_with, starts_with_vec, string_of, sub_vec};

verus! {

/// The value of an ASCII hexadecimal digit (`char::to_digit(16)` of the
/// byte as a character).
pub open spec fn hex_value(b: u8) -> Option<u8> {
    if 48 <= b <= 57 {
        Some((b - 48) as u8)
    } else if 97 <= b <= 102 {
        Some((b - 87) as u8)
    } else if 65 <= b <= 70 {
        Some((b - 55) as u8)
    } else {
        None
    }
}

fn hex_digit(b: u8) -> (r: Option<u8>)
    ensures
        r == hex_value(b),
{
    if 48 <= b && b <= 57 {
        Some(b - 48)
    } else if 97 <= b && b <= 102 {
        Some(b - 87)
    } else if 65 <= b && b <= 70 {
        Some(b - 55)
    } else {
        None
    }
}

/// Percent-decoding: `'%'` and two more bytes that are hexadecimal digits
/// become the byte they name; every other byte stays as it is.
pub open spec fn spec_percent_decode(bs: Seq<u8>) -> Seq<u8>
    decreases bs.len(),
{
    if bs.len() == 0 {
        seq![]
    } else if bs.len() > 2 && bs[0] == 37 && hex_value(bs[1]) is Some && hex_value(bs[2]) is Some {
        seq![(hex_value(bs[1])->0 * 16 + hex_value(bs[2])->0) as u8] + spec_percent_decode(bs.skip(3))
    } else {
        seq![bs[0]] + spec_percent_decode(bs.skip(1))
    }
}

/// Percent-decodes the bytes of `s`.
pub fn percent_decode(s: &str) -> (r: Vec<u8>)
    ensures
        r@ == spec_percent_decode(vstd::utf8::encode_utf8(s@)),
{
    let bytes = s.as_bytes();
    let mut out: Vec<u8> = Vec::new();
    let mut i: usize = 0;
    assert(bytes@.skip(0) == bytes@);
    while i < bytes.len()
        invariant
            i <= bytes@.len(),
            bytes@ == vstd::utf8::encode_utf8(s@),
            out@ + spec_percent_decode(bytes@.skip(i as int)) == spec_percent_decode(bytes@),
        decreases bytes@.len() - i,
    {
        if bytes[i] == 37 && bytes.len() - i > 2 {
            let hi = hex_digit(bytes[i + 1]);
            let lo = hex_digit(bytes[i + 2]);
            match (hi, lo) {
                (Some(h), Some(l)) => {
                    assert(bytes@.skip(i as int).skip(3) == bytes@.skip(i + 3));
                    assert(bytes@.skip(i as int)[1] == bytes@[i + 1]);
                    assert(bytes@.skip(i as int)[2] == bytes@[i + 2]);
                    assert(h * 16 + l < 256) by (nonlinear_arith)
                        requires
                            h < 16,
                            l < 16,
                    ;
                    out.push(h * 16 + l);
                    assert(out@ + spec_percent_decode(bytes@.skip(i + 3)) == spec_percent_decode(
                        bytes@,
                    ));
                    i += 3;
                    continue;
                },
                _ => {
                    assert(bytes@.skip(i as int)[1] == bytes@[i + 1]);
                    assert(bytes@.skip(i as int)[2] == bytes@[i + 2]);
                },
            }
        }
        assert(bytes@.skip(i as int).skip(1) == bytes@.skip(i + 1));
        out.push(bytes[i]);
        assert(out@ + spec_percent_decode(bytes@.skip(i + 1)) == spec_percent_decode(bytes@));
        i += 1;
    }
    assert(bytes@.skip(i as int) == Seq::<u8>::empty());
    assert(out@ + Seq::<u8>::empty() == out@);
    out
}

/// std `str::from_utf8`: the text that the bytes encode, when they are
/// valid UTF-8.
#[verifier::external_body]
fn str_from_utf8(b: &[u8]) -> (r: Option<&str>)
    ensures
        r is Some <==> valid_utf8(b@),
        r matches Some(s) ==> s@ == decode_utf8(b@),
{
    std::str::from_utf8(b).ok()
}

/// std `String::from_utf8`: the text that the bytes encode, when they are
/// valid UTF-8.
#[verifier::external_body]
fn string_from_utf8(b: Vec<u8>) -> (r: Option<String>)
    ensures
        r is Some <==> valid_utf8(b@),
        r matches Some(s) ==> s@ == decode_utf8(b@),
{
    String::from_utf8(b).ok()
}

/// The path of a file URL: the bytes must be UTF-8 text that starts with
/// `file://`; the rest, percent-decoded, must be UTF-8 again and not
/// empty.
pub open spec fn spec_file_url_path(b: Seq<u8>) -> Option<Seq<char>> {
    if valid_utf8(b) && starts_with(decode_utf8(b), "file://"@) {
        let rest = decode_utf8(b).skip(7);
        let d = spec_percent_decode(vstd::utf8::encode_utf8(rest));
        if valid_utf8(d) && decode_utf8(d).len() > 0 {
            Some(decode_utf8(d))
        } else {
            None
        }
    } else {
        None
    }
}

/// Turns the bytes of a file URL (`file:///Users/...`) into a path,
/// undoing the percent-encoding.
pub fn file_url_bytes_para_path(bytes: &[u8]) -> (r: Option<String>)
    ensures
        match r {
            Some(p) => spec_file_url_path(bytes@) == Some(p@),
            None => spec_file_url_path(bytes@) is None,
        },
{
    let s = match str_from_utf8(bytes) {
        Some(s) => s,
        None => return None,
    };
    let cs = chars_of(s);
    let prefix = chars_of("file://");
    proof {
        reveal_strlit("file://");
    }
    if !starts_with_vec(cs.as_slice(), prefix.as_slice()) {
        return None;
    }
    let rest_chars = sub_vec(cs.as_slice(), 7, cs.len());
    assert(rest_chars@ == decode_utf8(bytes@).skip(7));
    let rest = string_of(rest_chars.as_slice());
    let decodificado = percent_decode(rest.as_str());
    let texto = match string_from_utf8(decodificado) {
        Some(t) => t,
        None => return None,
    };
    if texto.as_str().is_empty() {
        None
    } else {
        Some(texto)
    }
}

} // verus!

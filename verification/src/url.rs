//! Percent-encoding of URL parts, through the `urlencoding` crate.

use vstd::prelude::*;
use vstd::utf8::{decode_utf8, encode_utf8, valid_utf8};

verus! {

/// A byte that `urlencoding` leaves as it is: ASCII letters and digits and
/// `-`, `.`, `_`, `~`.
pub open spec fn is_unreserved(b: u8) -> bool {
    ||| 0x30 <= b && b <= 0x39
    ||| 0x41 <= b && b <= 0x5A
    ||| 0x61 <= b && b <= 0x7A
    ||| b == 0x2D
    ||| b == 0x2E
    ||| b == 0x5F
    ||| b == 0x7E
}

/// The upper-case hexadecimal digit of `d < 16`.
pub open spec fn hex_upper(d: int) -> char {
    if d < 10 {
        (0x30 + d) as u32 as char
    } else {
        (0x41 - 10 + d) as u32 as char
    }
}

/// The percent-encoding of a byte string: unreserved bytes as themselves,
/// every other byte as `%` and two upper-case hex digits.
pub open spec fn percent_encode(bytes: Seq<u8>) -> Seq<char>
    decreases bytes.len(),
{
    if bytes.len() == 0 {
        Seq::empty()
    } else {
        let b = bytes[0];
        (if is_unreserved(b) {
            seq![b as u32 as char]
        } else {
            seq!['%', hex_upper(b as int / 16), hex_upper(b as int % 16)]
        }) + percent_encode(bytes.skip(1))
    }
}

/// `urlencoding::encode`: percent-encodes the UTF-8 bytes of the text,
/// every byte but ASCII alphanumerics and `-`, `_`, `.`, `~`, as its
/// documentation and source show.
#[verifier::external_body]
pub(crate) fn url_encode(s: &str) -> (r: String)
    ensures
        r@ == percent_encode(encode_utf8(s@)),
{
    urlencoding::encode(s).into_owned()
}

/// The value of a hexadecimal digit byte (either case).
pub open spec fn hex_value(b: u8) -> Option<u8> {
    if 0x30 <= b && b <= 0x39 {
        Some((b - 0x30) as u8)
    } else if 0x41 <= b && b <= 0x46 {
        Some((b - 0x41 + 10) as u8)
    } else if 0x61 <= b && b <= 0x66 {
        Some((b - 0x61 + 10) as u8)
    } else {
        None
    }
}

/// Percent-decoding as `urlencoding` does it: each `%` with two hex digits
/// becomes that byte; any other `%` stays, and the scan goes on after it
/// (after its first digit when only that one is hex); a `%` with fewer than
/// two bytes after it ends the scan with the rest kept.
pub open spec fn percent_decode(b: Seq<u8>) -> Seq<u8>
    decreases b.len(),
{
    if b.len() == 0 {
        Seq::empty()
    } else if b[0] != 0x25 {
        seq![b[0]] + percent_decode(b.skip(1))
    } else if b.len() < 3 {
        b
    } else {
        match (hex_value(b[1]), hex_value(b[2])) {
            (Some(h), Some(l)) => seq![(h * 16 + l) as u8] + percent_decode(b.skip(3)),
            (Some(_), None) => seq![0x25u8, b[1]] + percent_decode(b.skip(2)),
            _ => seq![0x25u8] + percent_decode(b.skip(1)),
        }
    }
}

/// `urlencoding::decode`: the percent-decoded text, or `None` when the
/// decoded bytes are not valid UTF-8, as its source shows.
#[verifier::external_body]
pub(crate) fn url_decode(s: &str) -> (r: Option<String>)
    ensures
        r is Some <==> valid_utf8(percent_decode(encode_utf8(s@))),
        r matches Some(t) ==> t@ == decode_utf8(percent_decode(encode_utf8(s@))),
{
    match urlencoding::decode(s) {
        Ok(text) => Some(text.into_owned()),
        Err(_) => None,
    }
}

} // verus!

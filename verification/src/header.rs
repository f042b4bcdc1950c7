//! The header of an MDict container: a big-endian length, that many bytes
//! of UTF-16LE XML attributes, and a 4-byte checksum.

use vstd::prelude::*;
use crate::bytes::{
    MdxError,
    MdxFault,
    MAX_SECTION_BYTES,
    be_at,
    checked_len,
    read_u32_be,
    le16,
    le16_at,
};
use crate::text::{
    chars_of, find_chars, first_occurrence, occurs_at, string_from_chars, string_from_utf16_lossy,
    trim_chars, trim_ws, utf16_lossy,
};

verus! {

/// The little-endian 16-bit units of a byte string, pair by pair (an odd
/// final byte is dropped).
pub open spec fn le_units(bytes: Seq<u8>) -> Seq<u16> {
    Seq::new(bytes.len() / 2, |i: int| le16_at(bytes, 2 * i))
}

/// Splits a byte string into little-endian 16-bit units.
pub fn le_units_of(bytes: &[u8]) -> (r: Vec<u16>)
    ensures
        r@ == le_units(bytes@),
{
    let mut r: Vec<u16> = Vec::new();
    let n = bytes.len() / 2;
    let mut i: usize = 0;
    while i < n
        invariant
            n == bytes.len() / 2,
            i <= n,
            r@.len() == i,
            forall|k: int| 0 <= k < i ==> #[trigger] r@[k] == le16_at(bytes@, 2 * k),
        decreases n - i,
    {
        r.push(le16(bytes, 2 * i));
        i += 1;
    }
    assert(r@ =~= le_units(bytes@));
    r
}

/// What `String::from_utf16_le_lossy` gives: the UTF-16LE text of the
/// bytes with unpaired surrogates replaced.
pub fn utf16_le_lossy(bytes: &[u8]) -> (r: String)
    ensures
        r@ == utf16_lossy(le_units(bytes@)),
{
    let units = le_units_of(bytes);
    string_from_utf16_lossy(units.as_slice())
}

/// The value of the attribute `key` in the header text: what stands
/// between the first `key="` and the next `"`.
pub open spec fn spec_header_attr(header: Seq<char>, key: Seq<char>) -> Option<Seq<char>> {
    let needle = key + seq!['=', '"'];
    match first_occurrence(header, needle, 0) {
        Some(i) => {
            let start = i + needle.len();
            match first_occurrence(header, seq!['"'], start) {
                Some(end) => Some(header.subrange(start, end)),
                None => None,
            }
        },
        None => None,
    }
}

/// The value of the attribute `key` in the header text.
pub fn parse_header_attr(header: &str, key: &str) -> (r: Option<String>)
    ensures
        match r {
            Some(v) => spec_header_attr(header@, key@) == Some(v@),
            None => spec_header_attr(header@, key@) is None,
        },
{
    let h = chars_of(header);
    let mut needle = chars_of(key);
    needle.push('=');
    needle.push('"');
    assert(needle@ =~= key@ + seq!['=', '"']);
    let quote: Vec<char> = vec!['"'];
    assert(quote@ =~= seq!['"']);
    match find_chars(h.as_slice(), needle.as_slice(), 0) {
        Some(i) => {
            assert(occurs_at(h@, i as int, needle@));
            assert(i + needle@.len() <= h@.len());
            assert(h@.len() == h.len());
            let start = i + needle.len();
            match find_chars(h.as_slice(), quote.as_slice(), start) {
                Some(end) => {
                    let mut v: Vec<char> = Vec::new();
                    let mut k = start;
                    while k < end
                        invariant
                            start <= k <= end,
                            end <= h@.len(),
                            v@ == h@.subrange(start as int, k as int),
                        decreases end - k,
                    {
                        v.push(h[k]);
                        assert(h@.subrange(start as int, k + 1) =~= h@.subrange(
                            start as int,
                            k as int,
                        ).push(h@[k as int]));
                        k += 1;
                    }
                    let out = string_from_chars(v.as_slice());
                    assert(first_occurrence(header@, key@ + seq!['=', '"'], 0) == Some(i as int));
                    assert(first_occurrence(header@, seq!['"'], start as int) == Some(end as int));
                    Some(out)
                },
                None => None,
            }
        },
        None => None,
    }
}

/// An ASCII decimal digit.
pub open spec fn is_ascii_digit(c: char) -> bool {
    '0' <= c && c <= '9'
}

/// The value of a string of ASCII decimal digits.
pub open spec fn digits_value(s: Seq<char>) -> nat
    decreases s.len(),
{
    if s.len() == 0 {
        0
    } else {
        digits_value(s.drop_last()) * 10 + (s.last() as nat - '0' as nat) as nat
    }
}

/// What `u8::from_str` accepts: an optional `+` followed by at least one
/// ASCII digit, with a value of at most 255.
pub open spec fn spec_parse_u8(s: Seq<char>) -> Option<u8> {
    let d = unsigned_digits(s);
    if d.len() > 0 && (forall|i: int| 0 <= i < d.len() ==> is_ascii_digit(#[trigger] d[i]))
        && digits_value(d) <= 255 {
        Some(digits_value(d) as u8)
    } else {
        None
    }
}

/// The text after an optional leading `+` (which needs something after it).
pub open spec fn unsigned_digits(s: Seq<char>) -> Seq<char> {
    if s.len() > 1 && s[0] == '+' {
        s.skip(1)
    } else {
        s
    }
}

/// Parses a decimal `u8` as `str::parse::<u8>` does.
pub fn parse_u8(s: &[char]) -> (r: Option<u8>)
    ensures
        r == spec_parse_u8(s@),
{
    let start: usize = if s.len() > 1 && s[0] == '+' {
        1
    } else {
        0
    };
    let ghost d = unsigned_digits(s@);
    assert(d =~= s@.skip(start as int));
    if start == s.len() {
        return None;
    }
    let mut value: u32 = 0;
    let mut k: usize = start;
    while k < s.len()
        invariant
            start <= k <= s@.len(),
            d == s@.skip(start as int),
            d == unsigned_digits(s@),
            forall|i: int| 0 <= i < k - start ==> is_ascii_digit(#[trigger] d[i]),
            value as nat == digits_value(d.take(k - start)),
            value <= 255,
        decreases s@.len() - k,
    {
        let c = s[k];
        assert(d[k - start] == c);
        if !('0' <= c && c <= '9') {
            assert(!is_ascii_digit(d[k - start]));
            return None;
        }
        let digit = (c as u32) - ('0' as u32);
        assert(d.take(k + 1 - start).drop_last() =~= d.take(k - start));
        assert(d[k - start] == c);
        assert(digits_value(d.take(k + 1 - start)) == value * 10 + digit);
        if value > 25 || (value == 25 && digit > 5) {
            proof {
                if forall|i: int| 0 <= i < d.len() ==> is_ascii_digit(#[trigger] d[i]) {
                    lemma_digits_prefix_bound(d, k + 1 - start);
                }
            }
            return None;
        }
        value = value * 10 + digit;
        k += 1;
    }
    assert(d.take(d.len() as int) =~= d);
    Some(value as u8)
}

/// The value of a prefix of digits is at most that of the whole.
proof fn lemma_digits_prefix_bound(d: Seq<char>, m: int)
    requires
        0 <= m <= d.len(),
        forall|i: int| 0 <= i < d.len() ==> is_ascii_digit(#[trigger] d[i]),
    ensures
        digits_value(d.take(m)) <= digits_value(d),
    decreases d.len() - m,
{
    if m < d.len() {
        lemma_digits_prefix_bound(d, m + 1);
        assert(d.take(m + 1).drop_last() =~= d.take(m));
    } else {
        assert(d.take(m) =~= d);
    }
}

/// The header as the parser sees it.
pub struct HeaderView {
    pub text: Seq<char>,
    pub engine_version: Option<Seq<char>>,
    pub encrypted: u8,
    pub body_start: int,
}

/// The `Encrypted` flags of a header: the attribute's trimmed value as a
/// `u8`, or 0 where it is missing or no such number.
pub open spec fn spec_encrypted(text: Seq<char>) -> u8 {
    match spec_header_attr(text, "Encrypted"@) {
        Some(v) => match spec_parse_u8(trim_ws(v)) {
            Some(n) => n,
            None => 0,
        },
        None => 0,
    }
}

/// What reading the header of `data` gives.
pub open spec fn spec_read_header(data: Seq<u8>) -> Result<HeaderView, MdxFault> {
    if data.len() < 4 {
        Err(MdxFault::UnexpectedEof)
    } else {
        let len = be_at(data, 0, 4);
        if len > MAX_SECTION_BYTES {
            Err(MdxFault::SectionTooLarge { label: "header_len"@, len: len as u64 })
        } else if 4 + len > data.len() || 8 + len > data.len() {
            Err(MdxFault::UnexpectedEof)
        } else {
            let text = utf16_lossy(le_units(data.subrange(4, 4 + len as int)));
            Ok(
                HeaderView {
                    text,
                    engine_version: spec_header_attr(text, "GeneratedByEngineVersion"@),
                    encrypted: spec_encrypted(text),
                    body_start: 8 + len as int,
                },
            )
        }
    }
}

/// The header of an MDict container.
pub struct MdxHeader {
    /// The decoded header text (XML attributes).
    pub text: String,
    /// The `GeneratedByEngineVersion` attribute, if present.
    pub engine_version: Option<String>,
    /// The `Encrypted` flags.
    pub encrypted: u8,
    /// Where the data after the header (and its checksum) begins.
    pub body_start: usize,
}

impl View for MdxHeader {
    type V = HeaderView;

    open spec fn view(&self) -> HeaderView {
        HeaderView {
            text: self.text@,
            engine_version: match self.engine_version {
                Some(v) => Some(v@),
                None => None,
            },
            encrypted: self.encrypted,
            body_start: self.body_start as int,
        }
    }
}

/// Reads the header of an MDict container.
pub fn read_header(data: &[u8]) -> (r: Result<MdxHeader, MdxError>)
    ensures
        match r {
            Ok(h) => spec_read_header(data@) == Ok::<HeaderView, MdxFault>(h@),
            Err(e) => spec_read_header(data@) == Err::<HeaderView, MdxFault>(e@),
        },
{
    let header_len = read_u32_be(data, 0)?;
    let len = checked_len("header_len", header_len as u64)?;
    proof {
        reveal_strlit("header_len");
    }
    if data.len() - 4 < len || data.len() - 4 - len < 4 {
        return Err(MdxError::UnexpectedEof);
    }
    let header_bytes = vstd::slice::slice_subrange(data, 4, 4 + len);
    let text = utf16_le_lossy(header_bytes);
    let engine_version = parse_header_attr(text.as_str(), "GeneratedByEngineVersion");
    let encrypted = match parse_header_attr(text.as_str(), "Encrypted") {
        Some(v) => match parse_u8(trim_chars(chars_of(v.as_str()).as_slice()).as_slice()) {
            Some(n) => n,
            None => 0,
        },
        None => 0,
    };
    Ok(MdxHeader { text, engine_version, encrypted, body_start: 8 + len })
}

} // verus!

//! Fixed-width integer fields, length limits and the parse errors of the
//! MDict container.

use vstd::prelude::*;
use crate::text::{decimal, decimal_chars, string_from_chars};
use crate::url::hex_upper;

verus! {

/// The largest length-prefixed section, in bytes, that the parser accepts.
/// Real headers, key indexes and record blocks stay far below it; a larger
/// value means a corrupt or misread length field.
pub const MAX_SECTION_BYTES: u64 = 536870912;

/// How a decompression by LZO1X failed.
#[derive(Debug, Clone, Copy, PartialEq, Eq)]
pub enum LzoFault {
    /// The compressed stream is not valid LZO1X data.
    InvalidInput,
    /// The stream does not decompress to exactly the declared length.
    OutputLength,
}

/// Why an MDict file (or one of its parts) could not be read.
#[derive(Debug)]
pub enum MdxError {
    /// The data ends before a field or section that it declares.
    UnexpectedEof,
    /// A length field is larger than `MAX_SECTION_BYTES`.
    SectionTooLarge { label: String, len: u64 },
    /// The encrypted key-block-info section is shorter than its 8-byte header.
    EncryptedInfoTooShort { size: usize },
    /// The key-block-info section ends before the declared number of blocks.
    KeyBlockInfoTruncated { expected: u64, parsed: usize },
    /// The key-block-info section ends inside a first-word length.
    FirstSizeTruncated,
    /// A first word runs past the end of the key-block-info section.
    FirstWordOverflow { span: usize, pos: usize, size: usize },
    /// The key-block-info section ends inside a last-word length.
    LastSizeTruncated,
    /// A last word runs past the end of the key-block-info section.
    LastWordOverflow { span: usize, pos: usize, size: usize },
    /// The key-block-info section ends inside a block's sizes.
    BlockSizesTruncated,
    /// A compressed block is shorter than its 8-byte header.
    BlockTooShort { size: usize },
    /// LZO1X decompression failed.
    LzoFailed { fault: LzoFault },
    /// Zlib decompression failed.
    ZlibFailed,
    /// The block header names a compression scheme this parser lacks.
    UnsupportedCompression { comp_type: u32 },
    /// No record block holds the record of this headword.
    RecordNotFound { headword: String },
    /// No record block holds this resource.
    ResourceNotFound { name: String },
    /// Adding up the declared block sizes exceeds 64 bits.
    OffsetOverflow,
    /// A record lies outside the block that was decompressed for it.
    RecordOutOfRange,
}

/// `MdxError` with its text fields seen as character sequences.
pub enum MdxFault {
    UnexpectedEof,
    SectionTooLarge { label: Seq<char>, len: u64 },
    EncryptedInfoTooShort { size: usize },
    KeyBlockInfoTruncated { expected: u64, parsed: usize },
    FirstSizeTruncated,
    FirstWordOverflow { span: usize, pos: usize, size: usize },
    LastSizeTruncated,
    LastWordOverflow { span: usize, pos: usize, size: usize },
    BlockSizesTruncated,
    BlockTooShort { size: usize },
    LzoFailed { fault: LzoFault },
    ZlibFailed,
    UnsupportedCompression { comp_type: u32 },
    RecordNotFound { headword: Seq<char> },
    ResourceNotFound { name: Seq<char> },
    OffsetOverflow,
    RecordOutOfRange,
}

impl View for MdxError {
    type V = MdxFault;

    open spec fn view(&self) -> MdxFault {
        match self {
            MdxError::UnexpectedEof => MdxFault::UnexpectedEof,
            MdxError::SectionTooLarge { label, len } => MdxFault::SectionTooLarge {
                label: label@,
                len: *len,
            },
            MdxError::EncryptedInfoTooShort { size } => MdxFault::EncryptedInfoTooShort {
                size: *size,
            },
            MdxError::KeyBlockInfoTruncated { expected, parsed } =>
                MdxFault::KeyBlockInfoTruncated { expected: *expected, parsed: *parsed },
            MdxError::FirstSizeTruncated => MdxFault::FirstSizeTruncated,
            MdxError::FirstWordOverflow { span, pos, size } => MdxFault::FirstWordOverflow {
                span: *span,
                pos: *pos,
                size: *size,
            },
            MdxError::LastSizeTruncated => MdxFault::LastSizeTruncated,
            MdxError::LastWordOverflow { span, pos, size } => MdxFault::LastWordOverflow {
                span: *span,
                pos: *pos,
                size: *size,
            },
            MdxError::BlockSizesTruncated => MdxFault::BlockSizesTruncated,
            MdxError::BlockTooShort { size } => MdxFault::BlockTooShort { size: *size },
            MdxError::LzoFailed { fault } => MdxFault::LzoFailed { fault: *fault },
            MdxError::ZlibFailed => MdxFault::ZlibFailed,
            MdxError::UnsupportedCompression { comp_type } => MdxFault::UnsupportedCompression {
                comp_type: *comp_type,
            },
            MdxError::RecordNotFound { headword } => MdxFault::RecordNotFound {
                headword: headword@,
            },
            MdxError::ResourceNotFound { name } => MdxFault::ResourceNotFound { name: name@ },
            MdxError::OffsetOverflow => MdxFault::OffsetOverflow,
            MdxError::RecordOutOfRange => MdxFault::RecordOutOfRange,
        }
    }
}

/// The message of a `SectionTooLarge` error.
pub open spec fn too_large_message(label: Seq<char>, len: u64) -> Seq<char> {
    "MDX "@ + label + " field is implausibly large ("@ + decimal(len as nat)
        + " bytes) — file is corrupt or its format differs from what this parser expects"@
}

/// The message of a word that runs past the key-block-info section.
pub open spec fn span_message(word: Seq<char>, span: usize, pos: usize, size: usize) -> Seq<char> {
    "MDX key block info: "@ + word + " span ("@ + decimal(span as nat) + " bytes at offset "@
        + decimal(pos as nat) + ") exceeds section length ("@ + decimal(size as nat) + ")"@
}

/// The digits of `n` in upper-case hexadecimal, `k` of them (leading
/// zeros included).
pub open spec fn hex_digits(n: nat, k: nat) -> Seq<char>
    decreases k,
{
    if k == 0 {
        Seq::empty()
    } else {
        hex_digits(n / 16, (k - 1) as nat).push(hex_upper((n % 16) as int))
    }
}

/// The text of each error.
pub open spec fn fault_message(f: MdxFault) -> Seq<char> {
    match f {
        MdxFault::UnexpectedEof => "failed to fill whole buffer"@,
        MdxFault::SectionTooLarge { label, len } => too_large_message(label, len),
        MdxFault::EncryptedInfoTooShort { size } =>
            "Encrypted key block info is too short to contain a header ("@ + decimal(size as nat)
            + " bytes)"@,
        MdxFault::KeyBlockInfoTruncated { expected, parsed } =>
            "MDX key block info truncated: expected "@ + decimal(expected as nat)
            + " blocks, ran out of data after "@ + decimal(parsed as nat),
        MdxFault::FirstSizeTruncated => "MDX key block info truncated while reading first_size"@,
        MdxFault::FirstWordOverflow { span, pos, size } => span_message("first_word"@, span, pos, size)
            + " — the section may not actually be encrypted the way this parser assumed, or the file is corrupt"@,
        MdxFault::LastSizeTruncated => "MDX key block info truncated while reading last_size"@,
        MdxFault::LastWordOverflow { span, pos, size } => span_message("last_word"@, span, pos, size),
        MdxFault::BlockSizesTruncated =>
            "MDX key block info truncated while reading comp_size/decomp_size"@,
        MdxFault::BlockTooShort { size } =>
            "MDX block too short to contain a compression header ("@ + decimal(size as nat)
            + " bytes)"@,
        MdxFault::LzoFailed { fault } => match fault {
            LzoFault::InvalidInput => "LZO decompression failed: InvalidInput"@,
            LzoFault::OutputLength => "LZO decompression failed: OutputLength"@,
        },
        MdxFault::ZlibFailed => "zlib decompression failed"@,
        MdxFault::UnsupportedCompression { comp_type } => "Unsupported MDX compression type: 0x"@
            + hex_digits(comp_type as nat, 8),
        MdxFault::RecordNotFound { headword } => "Record not found in any block for entry: "@
            + headword,
        MdxFault::ResourceNotFound { name } => "MDD resource not found in any block: "@ + name,
        MdxFault::OffsetOverflow => "MDX block offsets overflow 64 bits"@,
        MdxFault::RecordOutOfRange => "MDX record lies outside its decompressed block"@,
    }
}

impl MdxError {
    /// A human-readable description of the error.
    pub fn message(&self) -> (r: String)
        ensures
            r@ == fault_message(self@),
    {
        match self {
            MdxError::SectionTooLarge { label, len } => {
                let mut s = String::from_str("MDX ");
                s.append(label.as_str());
                let t = with_number(
                    " field is implausibly large (",
                    *len,
                    " bytes) — file is corrupt or its format differs from what this parser expects",
                );
                s.append(t.as_str());
                assert(s@ =~= fault_message(self@));
                s
            },
            MdxError::UnexpectedEof => String::from_str("failed to fill whole buffer"),
            MdxError::EncryptedInfoTooShort { size } => with_number(
                "Encrypted key block info is too short to contain a header (",
                *size as u64,
                " bytes)",
            ),
            MdxError::KeyBlockInfoTruncated { expected, parsed } => {
                let mut s = with_number(
                    "MDX key block info truncated: expected ",
                    *expected,
                    " blocks, ran out of data after ",
                );
                let t = with_number("", *parsed as u64, "");
                s.append(t.as_str());
                proof {
                    reveal_strlit("");
                }
                assert(s@ =~= fault_message(self@));
                s
            },
            MdxError::FirstSizeTruncated => String::from_str(
                "MDX key block info truncated while reading first_size",
            ),
            MdxError::FirstWordOverflow { span, pos, size } => {
                let mut s = span_text("first_word", *span, *pos, *size);
                s.append(
                    " — the section may not actually be encrypted the way this parser assumed, or the file is corrupt",
                );
                s
            },
            MdxError::LastSizeTruncated => String::from_str(
                "MDX key block info truncated while reading last_size",
            ),
            MdxError::LastWordOverflow { span, pos, size } => span_text(
                "last_word",
                *span,
                *pos,
                *size,
            ),
            MdxError::BlockSizesTruncated => String::from_str(
                "MDX key block info truncated while reading comp_size/decomp_size",
            ),
            MdxError::BlockTooShort { size } => with_number(
                "MDX block too short to contain a compression header (",
                *size as u64,
                " bytes)",
            ),
            MdxError::LzoFailed { fault } => match fault {
                LzoFault::InvalidInput => String::from_str("LZO decompression failed: InvalidInput"),
                LzoFault::OutputLength => String::from_str("LZO decompression failed: OutputLength"),
            },
            MdxError::ZlibFailed => String::from_str("zlib decompression failed"),
            MdxError::UnsupportedCompression { comp_type } => {
                let mut s = String::from_str("Unsupported MDX compression type: 0x");
                let digits = hex_digit_chars(*comp_type, 8);
                let d = string_from_chars(digits.as_slice());
                s.append(d.as_str());
                s
            },
            MdxError::RecordNotFound { headword } => {
                let mut s = String::from_str("Record not found in any block for entry: ");
                s.append(headword.as_str());
                s
            },
            MdxError::ResourceNotFound { name } => {
                let mut s = String::from_str("MDD resource not found in any block: ");
                s.append(name.as_str());
                s
            },
            MdxError::OffsetOverflow => String::from_str("MDX block offsets overflow 64 bits"),
            MdxError::RecordOutOfRange => String::from_str(
                "MDX record lies outside its decompressed block",
            ),
        }
    }
}

/// The upper-case hexadecimal digit of `d`.
fn hex_digit_char(d: u32) -> (c: char)
    requires
        d < 16,
    ensures
        c == hex_upper(d as int),
{
    if d < 10 {
        let b = (0x30 + d) as u8;
        b as char
    } else {
        let b = (0x41 - 10 + d) as u8;
        b as char
    }
}

/// The last `k` hexadecimal digits of `n`.
fn hex_digit_chars(n: u32, k: usize) -> (r: Vec<char>)
    ensures
        r@ == hex_digits(n as nat, k as nat),
    decreases k,
{
    if k == 0 {
        return Vec::new();
    }
    let mut v = hex_digit_chars(n / 16, k - 1);
    v.push(hex_digit_char(n % 16));
    v
}

fn with_number(before: &str, n: u64, after: &str) -> (r: String)
    ensures
        r@ == before@ + decimal(n as nat) + after@,
{
    let mut s = String::from_str(before);
    let digits = decimal_chars(n);
    let d = string_from_chars(digits.as_slice());
    s.append(d.as_str());
    s.append(after);
    s
}

fn span_text(word: &str, span: usize, pos: usize, len: usize) -> (r: String)
    ensures
        r@ == span_message(word@, span, pos, len),
{
    let mut s = String::from_str("MDX key block info: ");
    s.append(word);
    let a = with_number(" span (", span as u64, " bytes at offset ");
    s.append(a.as_str());
    let b = with_number("", pos as u64, ") exceeds section length (");
    s.append(b.as_str());
    let c = with_number("", len as u64, ")");
    s.append(c.as_str());
    proof {
        reveal_strlit("");
    }
    assert(s@ =~= span_message(word@, span, pos, len));
    s
}

/// `len` as a buffer length, or an error when it exceeds `MAX_SECTION_BYTES`.
pub fn checked_len(label: &str, len: u64) -> (r: Result<usize, MdxError>)
    ensures
        match r {
            Ok(n) => len <= MAX_SECTION_BYTES && n as u64 == len,
            Err(e) => len > MAX_SECTION_BYTES && e@ == (MdxFault::SectionTooLarge {
                label: label@,
                len,
            }),
        },
{
    if len > MAX_SECTION_BYTES {
        return Err(MdxError::SectionTooLarge { label: String::from_str(label), len });
    }
    Ok(len as usize)
}

/// `256` to the power `n`.
pub open spec fn pow256(n: nat) -> nat
    decreases n,
{
    if n == 0 {
        1
    } else {
        256 * pow256((n - 1) as nat)
    }
}

/// The big-endian value of a byte string.
pub open spec fn be_value(s: Seq<u8>) -> nat
    decreases s.len(),
{
    if s.len() == 0 {
        0
    } else {
        be_value(s.drop_last()) * 256 + s.last() as nat
    }
}

/// The big-endian value of the `n` bytes of `data` at `pos`.
pub open spec fn be_at(data: Seq<u8>, pos: int, n: int) -> nat {
    be_value(data.subrange(pos, pos + n))
}

/// The little-endian 16-bit value at `pos`.
pub open spec fn le16_at(data: Seq<u8>, pos: int) -> u16 {
    (data[pos] + 256 * data[pos + 1]) as u16
}

proof fn lemma_pow256_values()
    ensures
        pow256(2) == 0x10000,
        pow256(4) == 0x100000000,
        pow256(7) == 0x100000000000000,
        pow256(8) == 0x10000000000000000,
{
    reveal_with_fuel(pow256, 9);
}

proof fn lemma_pow256_mono(a: nat, b: nat)
    requires
        a <= b,
    ensures
        pow256(a) <= pow256(b),
    decreases b,
{
    if a < b {
        lemma_pow256_mono(a, (b - 1) as nat);
    }
}

/// Reads the `n`-byte big-endian unsigned integer at `pos`, or fails as a
/// read past the end of the data does.
pub fn read_be(data: &[u8], pos: usize, n: usize) -> (r: Result<u64, MdxError>)
    requires
        n <= 8,
    ensures
        match r {
            Ok(v) => pos + n <= data@.len() && v as nat == be_at(data@, pos as int, n as int),
            Err(e) => pos + n > data@.len() && e@ == MdxFault::UnexpectedEof,
        },
{
    if pos > data.len() || n > data.len() - pos {
        return Err(MdxError::UnexpectedEof);
    }
    let mut acc: u64 = 0;
    let mut k: usize = 0;
    proof {
        lemma_pow256_values();
    }
    while k < n
        invariant
            n <= 8,
            k <= n,
            pos + n <= data.len(),
            acc as nat == be_value(data@.subrange(pos as int, pos + k)),
            (acc as nat) < pow256(k as nat),
            pow256(7) == 0x100000000000000,
        decreases n - k,
    {
        proof {
            lemma_pow256_mono(k as nat, 7);
            let s = data@.subrange(pos as int, pos + k + 1);
            assert(s.drop_last() =~= data@.subrange(pos as int, pos + k));
            assert((acc as nat) < 0x100000000000000);
            assert(acc * 256 + 255 < 0x10000000000000000);
            assert(pow256((k + 1) as nat) == 256 * pow256(k as nat));
        }
        let b = data[pos + k] as u64;
        let shifted = acc * 256;
        acc = shifted + b;
        k += 1;
    }
    Ok(acc)
}

/// Reads a big-endian `u32`.
pub fn read_u32_be(data: &[u8], pos: usize) -> (r: Result<u32, MdxError>)
    ensures
        match r {
            Ok(v) => pos + 4 <= data@.len() && v as nat == be_at(data@, pos as int, 4),
            Err(e) => pos + 4 > data@.len() && e@ == MdxFault::UnexpectedEof,
        },
{
    let v = read_be(data, pos, 4)?;
    proof {
        lemma_be_bound(data@.subrange(pos as int, pos + 4));
        lemma_pow256_values();
    }
    Ok(v as u32)
}

/// Reads a big-endian `u64`.
pub fn read_u64_be(data: &[u8], pos: usize) -> (r: Result<u64, MdxError>)
    ensures
        match r {
            Ok(v) => pos + 8 <= data@.len() && v as nat == be_at(data@, pos as int, 8),
            Err(e) => pos + 8 > data@.len() && e@ == MdxFault::UnexpectedEof,
        },
{
    read_be(data, pos, 8)
}

/// The big-endian `u16` at `pos`, which must lie within the data.
pub fn be_u16_at(data: &[u8], pos: usize) -> (r: u16)
    requires
        pos + 2 <= data@.len(),
    ensures
        r as nat == be_at(data@, pos as int, 2),
{
    proof {
        let s = data@.subrange(pos as int, pos + 2);
        assert(s.drop_last().drop_last() =~= Seq::<u8>::empty());
        assert(s.drop_last().last() == data@[pos as int]);
        reveal_with_fuel(be_value, 3);
        assert(be_value(s.drop_last()) == data@[pos as int]);
    }
    (data[pos] as u16) * 256 + data[pos + 1] as u16
}

/// A big-endian value is below `256` to the power of its length.
pub proof fn lemma_be_bound(s: Seq<u8>)
    ensures
        be_value(s) < pow256(s.len()),
    decreases s.len(),
{
    if s.len() > 0 {
        lemma_be_bound(s.drop_last());
    }
}

/// Reads the little-endian `u16` at `pos`; `pos + 2` must be in range.
pub fn le16(data: &[u8], pos: usize) -> (r: u16)
    requires
        pos + 2 <= data@.len(),
    ensures
        r == le16_at(data@, pos as int),
{
    data[pos] as u16 + (data[pos + 1] as u16) * 256
}

} // verus!

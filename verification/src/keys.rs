//! The key index of the MDict container: the key-block-info section, which
//! lists the size of every key block, and the key blocks, which pair each
//! headword with the offset of its record.

use vstd::prelude::*;
use crate::bytes::{
    MdxError, MdxFault, MAX_SECTION_BYTES, be_at, be_u16_at, checked_len, le16, le16_at, read_be,
};
use crate::text::{chars_of, lowercase, str_to_lowercase, string_from_utf16_lossy, utf16_lossy};

verus! {

/// What the key-block-info section says of the key blocks: for each, its
/// compressed and decompressed size, in file order.
pub open spec fn spec_key_block_info(data: Seq<u8>, num_blocks: u64) -> Result<
    Seq<(u64, u64)>,
    MdxFault,
> {
    if num_blocks > MAX_SECTION_BYTES {
        Err(MdxFault::SectionTooLarge { label: "num_blocks"@, len: num_blocks })
    } else {
        block_sizes_from(data, num_blocks, num_blocks as nat, 0, Seq::empty())
    }
}

/// The sizes of the `remaining` blocks described from `pos` on, after those
/// already read into `acc`.
pub open spec fn block_sizes_from(
    data: Seq<u8>,
    total: u64,
    remaining: nat,
    pos: int,
    acc: Seq<(u64, u64)>,
) -> Result<Seq<(u64, u64)>, MdxFault>
    decreases remaining,
{
    if remaining == 0 {
        Ok(acc)
    } else if pos + 8 > data.len() {
        Err(MdxFault::KeyBlockInfoTruncated { expected: total, parsed: acc.len() as usize })
    } else if pos + 10 > data.len() {
        Err(MdxFault::FirstSizeTruncated)
    } else {
        let first_span = (be_at(data, pos + 8, 2) + 1) * 2;
        let p = pos + 10;
        if p + first_span > data.len() {
            Err(
                MdxFault::FirstWordOverflow {
                    span: first_span as usize,
                    pos: p as usize,
                    size: data.len() as usize,
                },
            )
        } else if p + first_span + 2 > data.len() {
            Err(MdxFault::LastSizeTruncated)
        } else {
            let last_span = (be_at(data, p + first_span, 2) + 1) * 2;
            let q = p + first_span + 2;
            if q + last_span > data.len() {
                Err(
                    MdxFault::LastWordOverflow {
                        span: last_span as usize,
                        pos: q as usize,
                        size: data.len() as usize,
                    },
                )
            } else if q + last_span + 16 > data.len() {
                Err(MdxFault::BlockSizesTruncated)
            } else {
                let s = q + last_span;
                let comp = be_at(data, s, 8) as u64;
                let decomp = be_at(data, s + 8, 8) as u64;
                block_sizes_from(
                    data,
                    total,
                    (remaining - 1) as nat,
                    s + 16,
                    acc.push((comp, decomp)),
                )
            }
        }
    }
}

/// A successful reading of `remaining` blocks adds exactly that many sizes
/// to what was read before.
proof fn lemma_sizes_extend(data: Seq<u8>, total: u64, remaining: nat, pos: int, acc: Seq<(u64, u64)>)
    requires
        block_sizes_from(data, total, remaining, pos, acc) is Ok,
    ensures
        block_sizes_from(data, total, remaining, pos, acc) matches Ok(s) && s.len() == acc.len()
            + remaining && s.take(acc.len() as int) == acc,
    decreases remaining,
{
    if remaining > 0 {
        let first_span = (be_at(data, pos + 8, 2) + 1) * 2;
        let p = pos + 10;
        let last_span = (be_at(data, p + first_span, 2) + 1) * 2;
        let q = p + first_span + 2;
        let s0 = q + last_span;
        let next = acc.push((be_at(data, s0, 8) as u64, be_at(data, s0 + 8, 8) as u64));
        lemma_sizes_extend(data, total, (remaining - 1) as nat, s0 + 16, next);
        let s = block_sizes_from(data, total, remaining, pos, acc)->Ok_0;
        assert(s.take(acc.len() as int) =~= s.take(next.len() as int).take(acc.len() as int));
    }
}

/// Bytes after the sections read do not change a successful reading.
proof fn lemma_sizes_append(
    data: Seq<u8>,
    more: Seq<u8>,
    total: u64,
    remaining: nat,
    pos: int,
    acc: Seq<(u64, u64)>,
)
    requires
        0 <= pos,
        block_sizes_from(data, total, remaining, pos, acc) is Ok,
    ensures
        block_sizes_from(data + more, total, remaining, pos, acc) == block_sizes_from(
            data,
            total,
            remaining,
            pos,
            acc,
        ),
    decreases remaining,
{
    if remaining > 0 {
        let d2 = data + more;
        let first_span = (be_at(data, pos + 8, 2) + 1) * 2;
        let p = pos + 10;
        assert(d2.subrange(pos + 8, pos + 10) =~= data.subrange(pos + 8, pos + 10));
        let last_span = (be_at(data, p + first_span, 2) + 1) * 2;
        let q = p + first_span + 2;
        assert(d2.subrange(p + first_span, p + first_span + 2) =~= data.subrange(
            p + first_span,
            p + first_span + 2,
        ));
        let s0 = q + last_span;
        assert(d2.subrange(s0, s0 + 8) =~= data.subrange(s0, s0 + 8));
        assert(d2.subrange(s0 + 8, s0 + 16) =~= data.subrange(s0 + 8, s0 + 16));
        let next = acc.push((be_at(data, s0, 8) as u64, be_at(data, s0 + 8, 8) as u64));
        lemma_sizes_append(data, more, total, (remaining - 1) as nat, s0 + 16, next);
    }
}

/// Reading fewer blocks gives a prefix of the sizes.
proof fn lemma_sizes_fewer(
    data: Seq<u8>,
    total: u64,
    total2: u64,
    remaining: nat,
    fewer: nat,
    pos: int,
    acc: Seq<(u64, u64)>,
)
    requires
        fewer <= remaining,
        block_sizes_from(data, total, remaining, pos, acc) is Ok,
    ensures
        block_sizes_from(data, total2, fewer, pos, acc) matches Ok(s2) && block_sizes_from(
            data,
            total,
            remaining,
            pos,
            acc,
        ) matches Ok(s) && s2 == s.take((acc.len() + fewer) as int),
    decreases fewer,
{
    lemma_sizes_extend(data, total, remaining, pos, acc);
    if fewer > 0 {
        let first_span = (be_at(data, pos + 8, 2) + 1) * 2;
        let p = pos + 10;
        let last_span = (be_at(data, p + first_span, 2) + 1) * 2;
        let q = p + first_span + 2;
        let s0 = q + last_span;
        let next = acc.push((be_at(data, s0, 8) as u64, be_at(data, s0 + 8, 8) as u64));
        lemma_sizes_fewer(
            data,
            total,
            total2,
            (remaining - 1) as nat,
            (fewer - 1) as nat,
            s0 + 16,
            next,
        );
    }
}

/// What a successful reading of the key-block-info section keeps: the
/// sizes of exactly `num_blocks` blocks; the same sizes when more bytes
/// follow the section; and, for fewer blocks, the first of those sizes.
pub proof fn lemma_key_block_info_prefix(
    data: Seq<u8>,
    more: Seq<u8>,
    num_blocks: u64,
    fewer: u64,
)
    requires
        spec_key_block_info(data, num_blocks) is Ok,
        fewer <= num_blocks,
    ensures
        spec_key_block_info(data, num_blocks) matches Ok(s) && s.len() == num_blocks
            && spec_key_block_info(data + more, num_blocks) == Ok::<Seq<(u64, u64)>, MdxFault>(s)
            && spec_key_block_info(data, fewer) == Ok::<Seq<(u64, u64)>, MdxFault>(
            s.take(fewer as int),
        ),
{
    let e = Seq::<(u64, u64)>::empty();
    lemma_sizes_extend(data, num_blocks, num_blocks as nat, 0, e);
    lemma_sizes_append(data, more, num_blocks, num_blocks as nat, 0, e);
    lemma_sizes_fewer(data, num_blocks, fewer, num_blocks as nat, fewer as nat, 0, e);
}

/// The block sizes as a result of views.
pub open spec fn sizes_result(r: Result<Vec<(u64, u64)>, MdxError>) -> Result<
    Seq<(u64, u64)>,
    MdxFault,
> {
    match r {
        Ok(v) => Ok(v@),
        Err(e) => Err(e@),
    }
}

/// Reads the (compressed, decompressed) size of each of the `num_blocks`
/// key blocks from the decompressed key-block-info section. Each entry
/// holds an entry count, the block's first and last words (a big-endian
/// length and that many UTF-16 units plus a terminator), and the two sizes.
pub fn parse_key_block_info(data: &[u8], num_blocks: u64) -> (r: Result<
    Vec<(u64, u64)>,
    MdxError,
>)
    ensures
        sizes_result(r) == spec_key_block_info(data@, num_blocks),
{
    let count = checked_len("num_blocks", num_blocks)?;
    proof {
        reveal_strlit("num_blocks");
    }
    let mut sizes: Vec<(u64, u64)> = Vec::new();
    let mut pos: usize = 0;
    let mut i: usize = 0;
    while i < count
        invariant
            count as u64 == num_blocks,
            num_blocks <= MAX_SECTION_BYTES,
            i <= count,
            pos <= data@.len(),
            sizes@.len() == i,
            spec_key_block_info(data@, num_blocks) == block_sizes_from(
                data@,
                num_blocks,
                (count - i) as nat,
                pos as int,
                sizes@,
            ),
        decreases count - i,
    {
        if data.len() - pos < 8 {
            return Err(MdxError::KeyBlockInfoTruncated { expected: num_blocks, parsed: sizes.len() });
        }
        pos += 8;
        if data.len() - pos < 2 {
            return Err(MdxError::FirstSizeTruncated);
        }
        let first_sz = be_u16_at(data, pos) as usize;
        pos += 2;
        let first_span = (first_sz + 1) * 2;
        if data.len() - pos < first_span {
            return Err(MdxError::FirstWordOverflow { span: first_span, pos, size: data.len() });
        }
        pos += first_span;
        if data.len() - pos < 2 {
            return Err(MdxError::LastSizeTruncated);
        }
        let last_sz = be_u16_at(data, pos) as usize;
        pos += 2;
        let last_span = (last_sz + 1) * 2;
        if data.len() - pos < last_span {
            return Err(MdxError::LastWordOverflow { span: last_span, pos, size: data.len() });
        }
        pos += last_span;
        if data.len() - pos < 16 {
            return Err(MdxError::BlockSizesTruncated);
        }
        let comp_sz = be_u64_at(data, pos);
        pos += 8;
        let decomp_sz = be_u64_at(data, pos);
        pos += 8;
        sizes.push((comp_sz, decomp_sz));
        i += 1;
    }
    Ok(sizes)
}

/// The UTF-16 units of a NUL-terminated headword starting at `pos`, and the
/// position just after it (after its terminator, or the end of the data).
pub open spec fn scan_units(data: Seq<u8>, pos: int) -> (Seq<u16>, int)
    decreases data.len() - pos,
{
    if pos < 0 || pos + 2 > data.len() {
        (Seq::empty(), pos)
    } else if le16_at(data, pos) == 0 {
        (Seq::empty(), pos + 2)
    } else {
        let rest = scan_units(data, pos + 2);
        (seq![le16_at(data, pos)] + rest.0, rest.1)
    }
}

/// Scanning a headword never moves backwards.
pub proof fn lemma_scan_units_end(data: Seq<u8>, pos: int)
    ensures
        scan_units(data, pos).1 >= pos,
        0 <= pos <= data.len() ==> scan_units(data, pos).1 <= data.len(),
    decreases data.len() - pos,
{
    if !(pos < 0 || pos + 2 > data.len()) && le16_at(data, pos) != 0 {
        lemma_scan_units_end(data, pos + 2);
    }
}

/// The (record offset, headword units) pairs of a decompressed key block
/// from `pos` on: an 8-byte big-endian offset, then the headword.
pub open spec fn key_entries_from(data: Seq<u8>, pos: int) -> Seq<(u64, Seq<u16>)>
    decreases data.len() - pos,
{
    if pos < 0 || pos + 8 > data.len() {
        Seq::empty()
    } else {
        let scan = scan_units(data, pos + 8);
        proof {
            lemma_scan_units_end(data, pos + 8);
        }
        seq![(be_at(data, pos, 8) as u64, scan.0)] + key_entries_from(data, scan.1)
    }
}

/// One headword of the key index.
pub struct KeyEntry {
    /// The headword as stored.
    pub headword: String,
    /// Its lower-case form, the key the index is searched by.
    pub headword_lower: Vec<char>,
    /// Where its record starts in the decompressed record data.
    pub record_start: u64,
}

/// `e` is the entry that the raw pair `raw` describes.
pub open spec fn entry_from(e: KeyEntry, raw: (u64, Seq<u16>)) -> bool {
    &&& e.record_start == raw.0
    &&& e.headword@ == utf16_lossy(raw.1)
    &&& e.headword_lower@ == lowercase(utf16_lossy(raw.1))
}

/// Appends the entries of one decompressed key block to `index`.
pub fn parse_key_block(data: &[u8], index: &mut Vec<KeyEntry>)
    ensures
        final(index)@.len() == old(index)@.len() + key_entries_from(data@, 0).len(),
        forall|i: int| 0 <= i < old(index)@.len() ==> #[trigger] final(index)@[i] == old(index)@[i],
        forall|i: int|
            0 <= i < key_entries_from(data@, 0).len() ==> entry_from(
                #[trigger] final(index)@[old(index)@.len() + i],
                key_entries_from(data@, 0)[i],
            ),
{
    let ghost start_len = index@.len();
    let ghost all = key_entries_from(data@, 0);
    let ghost orig = index@;
    let ghost mut done: Seq<(u64, Seq<u16>)> = Seq::empty();
    let mut pos: usize = 0;
    assert(done + all =~= all);
    while pos < data.len() && data.len() - pos >= 8
        invariant
            pos <= data@.len(),
            start_len == orig.len(),
            index@.len() == start_len + done.len(),
            forall|i: int| 0 <= i < start_len ==> #[trigger] index@[i] == orig[i],
            all == key_entries_from(data@, 0),
            done + key_entries_from(data@, pos as int) == all,
            forall|i: int|
                0 <= i < done.len() ==> entry_from(#[trigger] index@[start_len + i], done[i]),
        decreases data@.len() - pos,
    {
        let ghost p0 = pos as int;
        let record_offset = be_u64_at(data, pos);
        pos += 8;
        let ghost scan = scan_units(data@, pos as int);
        let mut units: Vec<u16> = Vec::new();
        let mut finished = false;
        assert(units@ + scan.0 =~= scan.0);
        while !finished && data.len() - pos >= 2
            invariant
                pos <= data@.len(),
                scan == scan_units(data@, p0 + 8),
                !finished ==> units@ + scan_units(data@, pos as int).0 == scan.0
                    && scan_units(data@, pos as int).1 == scan.1,
                finished ==> units@ == scan.0 && pos == scan.1,
            decreases data@.len() - pos,
        {
            let ghost before = scan_units(data@, pos as int);
            let ch = le16(data, pos);
            pos += 2;
            if ch == 0 {
                finished = true;
                assert(units@ =~= scan.0);
            } else {
                units.push(ch);
                assert(units@ + scan_units(data@, pos as int).0 =~= scan.0);
            }
        }
        if !finished {
            assert(units@ =~= scan.0);
        }
        proof {
            lemma_scan_units_end(data@, p0 + 8);
        }
        let headword = string_from_utf16_lossy(units.as_slice());
        let lower = str_to_lowercase(headword.as_str());
        let headword_lower = chars_of(lower.as_str());
        let entry = KeyEntry { headword, headword_lower, record_start: record_offset };
        index.push(entry);
        proof {
            let pair = (record_offset, scan.0);
            assert(key_entries_from(data@, p0) == seq![pair] + key_entries_from(data@, pos as int));
            assert(entry_from(index@[start_len + done.len() as int], pair));
            done = done.push(pair);
            assert(done + key_entries_from(data@, pos as int) =~= all) by {
                assert(done.drop_last() + key_entries_from(data@, p0) == all);
            }
        }
    }
    assert(key_entries_from(data@, pos as int) =~= Seq::<(u64, Seq<u16>)>::empty());
    assert(done =~= all);
}

/// The big-endian `u64` at `pos`, which must lie within the data.
pub fn be_u64_at(data: &[u8], pos: usize) -> (r: u64)
    requires
        pos + 8 <= data@.len(),
    ensures
        r as nat == be_at(data@, pos as int, 8),
{
    match read_be(data, pos, 8) {
        Ok(v) => v,
        Err(_) => 0,
    }
}

} // verus!

//! The body of an MDict container after its header: the key section (a
//! five-field summary, the key-block-info section and the key blocks) and
//! the record index (the size of every record block).

use vstd::prelude::*;
use crate::bytes::{
    MdxError,
    MdxFault,
    MAX_SECTION_BYTES,
    be_at,
    checked_len,
    lemma_be_bound,
    pow256,
    read_u64_be,
};
use crate::cipher::{
    decrypt_key_block_info,
    keyword_decrypt,
    keyword_encrypt,
    key_material,
    lemma_decrypt_encrypt,
    ripemd128,
};
use crate::compress::{decompress_block, spec_decompress_block};
use crate::header::{HeaderView, MdxHeader, spec_read_header};
use crate::keys::{
    KeyEntry,
    entry_from,
    key_entries_from,
    parse_key_block,
    parse_key_block_info,
    spec_key_block_info,
};

verus! {

/// What the body of a container holds: its headwords (record offset and
/// UTF-16 units) in file order, its record blocks (offset within the
/// record section, compressed size, decompressed size), and where the
/// record section starts.
pub struct ContainerView {
    pub raw: Seq<(u64, Seq<u16>)>,
    pub blocks: Seq<(u64, u64, u64)>,
    pub section: int,
}

/// The key-block-info section as stored, deciphered when the header's
/// `Encrypted` flags have bit 0x02 set.
pub open spec fn prepared_info(section: Seq<u8>, encrypted: u8) -> Result<Seq<u8>, MdxFault> {
    if encrypted & 2u8 != 0 {
        if section.len() < 8 {
            Err(MdxFault::EncryptedInfoTooShort { size: section.len() as usize })
        } else {
            Ok(
                section.take(8) + keyword_decrypt(
                    ripemd128(key_material(section)),
                    section.skip(8),
                ),
            )
        }
    } else {
        Ok(section)
    }
}

/// The headwords of the key blocks `k..` starting at `pos`, after `acc`,
/// and the position after the last block.
pub open spec fn key_blocks_from(
    data: Seq<u8>,
    sizes: Seq<(u64, u64)>,
    k: int,
    pos: int,
    acc: Seq<(u64, Seq<u16>)>,
) -> Result<(Seq<(u64, Seq<u16>)>, int), MdxFault>
    decreases sizes.len() - k,
{
    if k < 0 || k >= sizes.len() {
        Ok((acc, pos))
    } else {
        let comp = sizes[k].0;
        let decomp = sizes[k].1;
        if comp > MAX_SECTION_BYTES {
            Err(MdxFault::SectionTooLarge { label: "key block comp_size"@, len: comp })
        } else if pos + comp > data.len() {
            Err(MdxFault::UnexpectedEof)
        } else {
            match spec_decompress_block(data.subrange(pos, pos + comp), decomp) {
                Err(f) => Err(f),
                Ok(block) => key_blocks_from(
                    data,
                    sizes,
                    k + 1,
                    pos + comp,
                    acc + key_entries_from(block, 0),
                ),
            }
        }
    }
}

/// The record index from `pos` on: `remaining` pairs of 8-byte sizes, each
/// block placed after the compressed bytes of those before it.
pub open spec fn record_index_from(
    data: Seq<u8>,
    remaining: nat,
    pos: int,
    running: nat,
    acc: Seq<(u64, u64, u64)>,
) -> Result<(Seq<(u64, u64, u64)>, int), MdxFault>
    decreases remaining,
{
    if remaining == 0 {
        Ok((acc, pos))
    } else if pos + 16 > data.len() {
        Err(MdxFault::UnexpectedEof)
    } else {
        let comp = be_at(data, pos, 8);
        let decomp = be_at(data, pos + 8, 8);
        if running + comp > u64::MAX {
            Err(MdxFault::OffsetOverflow)
        } else {
            record_index_from(
                data,
                (remaining - 1) as nat,
                pos + 16,
                running + comp,
                acc.push((running as u64, comp as u64, decomp as u64)),
            )
        }
    }
}

/// The container that a record index read from `r` completes.
pub open spec fn finish_with_records(
    data: Seq<u8>,
    raw: Seq<(u64, Seq<u16>)>,
    records: Result<(Seq<(u64, u64, u64)>, int), MdxFault>,
) -> Result<ContainerView, MdxFault> {
    match records {
        Err(f) => Err(f),
        Ok((blocks, s)) => Ok(ContainerView { raw, blocks, section: s }),
    }
}

/// The container that the headwords of the key blocks, and the position
/// after them, complete.
pub open spec fn finish_with_keys(
    data: Seq<u8>,
    keys: Result<(Seq<(u64, Seq<u16>)>, int), MdxFault>,
) -> Result<ContainerView, MdxFault> {
    match keys {
        Err(f) => Err(f),
        Ok((raw, r)) => if r + 32 > data.len() {
            Err(MdxFault::UnexpectedEof)
        } else {
            finish_with_records(
                data,
                raw,
                record_index_from(data, be_at(data, r, 8), r + 32, 0, Seq::empty()),
            )
        },
    }
}

/// What parsing the body of `data`, whose header is `header`, gives.
pub open spec fn spec_parse_body(data: Seq<u8>, header: HeaderView) -> Result<
    ContainerView,
    MdxFault,
> {
    let p = header.body_start;
    if p + 44 > data.len() {
        Err(MdxFault::UnexpectedEof)
    } else {
        let num_blocks = be_at(data, p, 8) as u64;
        let info_decomp = be_at(data, p + 16, 8) as u64;
        let info_comp = be_at(data, p + 24, 8) as u64;
        let q = p + 44;
        if info_comp > MAX_SECTION_BYTES {
            Err(MdxFault::SectionTooLarge { label: "key_index_comp_size"@, len: info_comp })
        } else if q + info_comp > data.len() {
            Err(MdxFault::UnexpectedEof)
        } else {
            match prepared_info(data.subrange(q, q + info_comp), header.encrypted) {
                Err(f) => Err(f),
                Ok(section) => match spec_decompress_block(section, info_decomp) {
                    Err(f) => Err(f),
                    Ok(info) => match spec_key_block_info(info, num_blocks) {
                        Err(f) => Err(f),
                        Ok(sizes) => finish_with_keys(
                            data,
                            key_blocks_from(data, sizes, 0, q + info_comp, Seq::empty()),
                        ),
                    },
                },
            }
        }
    }
}

/// The total compressed size of the first `k` record blocks.
pub open spec fn comp_sum(blocks: Seq<(u64, u64, u64)>, k: int) -> nat
    decreases k,
{
    if k <= 0 {
        0
    } else {
        comp_sum(blocks, k - 1) + blocks[k - 1].1 as nat
    }
}

/// The total decompressed size of the first `k` record blocks.
pub open spec fn decomp_sum(blocks: Seq<(u64, u64, u64)>, k: int) -> nat
    decreases k,
{
    if k <= 0 {
        0
    } else {
        decomp_sum(blocks, k - 1) + blocks[k - 1].2 as nat
    }
}

/// Sums over a prefix do not see what is appended.
pub proof fn lemma_sums_prefix(blocks: Seq<(u64, u64, u64)>, x: (u64, u64, u64), k: int)
    requires
        k <= blocks.len(),
    ensures
        comp_sum(blocks.push(x), k) == comp_sum(blocks, k),
        decomp_sum(blocks.push(x), k) == decomp_sum(blocks, k),
    decreases k,
{
    if k > 0 {
        lemma_sums_prefix(blocks, x, k - 1);
    }
}

/// `blocks` are the record blocks described by the size pairs at `start`:
/// block `k` has the compressed and decompressed size of the `k`-th pair,
/// and lies right after the compressed bytes of the blocks before it.
pub open spec fn laid_back_to_back(data: Seq<u8>, start: int, blocks: Seq<(u64, u64, u64)>) -> bool {
    forall|k: int|
        #![trigger blocks[k]]
        0 <= k < blocks.len() ==> blocks[k].0 == comp_sum(blocks, k) && blocks[k].1 == be_at(
            data,
            start + 16 * k,
            8,
        ) && blocks[k].2 == be_at(data, start + 16 * k + 8, 8)
}

proof fn lemma_record_index_layout(
    data: Seq<u8>,
    start: int,
    remaining: nat,
    pos: int,
    running: nat,
    acc: Seq<(u64, u64, u64)>,
)
    requires
        0 <= start,
        pos == start + 16 * acc.len(),
        running == comp_sum(acc, acc.len() as int),
        laid_back_to_back(data, start, acc),
        record_index_from(data, remaining, pos, running, acc) is Ok,
    ensures
        record_index_from(data, remaining, pos, running, acc) matches Ok((blocks, end)) && blocks.len()
            == acc.len() + remaining && end == start + 16 * blocks.len() && laid_back_to_back(
            data,
            start,
            blocks,
        ),
    decreases remaining,
{
    if remaining > 0 {
        let comp = be_at(data, pos, 8);
        let decomp = be_at(data, pos + 8, 8);
        assert(pos + 16 <= data.len() && running + comp <= u64::MAX);
        assert(data.subrange(pos, pos + 8).len() == 8);
        assert(data.subrange(pos + 8, pos + 16).len() == 8);
        lemma_be_bound(data.subrange(pos, pos + 8));
        lemma_be_bound(data.subrange(pos + 8, pos + 16));
        reveal_with_fuel(pow256, 9);
        assert(decomp <= u64::MAX);
        let x = (running as u64, comp as u64, decomp as u64);
        let next = acc.push(x);
        assert forall|k: int| 0 <= k <= acc.len() implies comp_sum(next, k) == comp_sum(acc, k) by {
            lemma_sums_prefix(acc, x, k);
        }
        assert(comp_sum(next, next.len() as int) == running + comp);
        assert(laid_back_to_back(data, start, next)) by {
            assert forall|k: int| #![trigger next[k]] 0 <= k < next.len() implies next[k].0
                == comp_sum(next, k) && next[k].1 == be_at(data, start + 16 * k, 8) && next[k].2
                == be_at(data, start + 16 * k + 8, 8) by {
                if k < acc.len() {
                    assert(next[k] == acc[k]);
                }
            }
        }
        lemma_record_index_layout(data, start, (remaining - 1) as nat, pos + 16, running + comp, next);
    }
}

/// The record blocks of a parsed body lie back to back: each block's offset
/// in the record section is the sum of the compressed sizes of the blocks
/// before it, and its sizes are the pair that the record index gives it.
pub proof fn lemma_record_blocks_back_to_back(data: Seq<u8>, header: HeaderView)
    requires
        0 <= header.body_start,
        spec_parse_body(data, header) is Ok,
    ensures
        spec_parse_body(data, header) matches Ok(v) && exists|start: int|
            laid_back_to_back(data, start, v.blocks) && v.section == start + 16 * v.blocks.len(),
{
    let p = header.body_start;
    let num_blocks = be_at(data, p, 8) as u64;
    let info_decomp = be_at(data, p + 16, 8) as u64;
    let info_comp = be_at(data, p + 24, 8) as u64;
    let q = p + 44;
    let section = prepared_info(data.subrange(q, q + info_comp), header.encrypted)->Ok_0;
    let info = spec_decompress_block(section, info_decomp)->Ok_0;
    let sizes = spec_key_block_info(info, num_blocks)->Ok_0;
    let keys = key_blocks_from(data, sizes, 0, q + info_comp, Seq::empty());
    assert(same_from(data, data, 0));
    lemma_key_blocks_same(data, data, 0, sizes, 0, q + info_comp, Seq::empty());
    let r = keys->Ok_0.1;
    let start = r + 32;
    let empty = Seq::<(u64, u64, u64)>::empty();
    assert(laid_back_to_back(data, start, empty));
    lemma_record_index_layout(data, start, be_at(data, r, 8), start, 0, empty);
    let v = spec_parse_body(data, header)->Ok_0;
    assert(laid_back_to_back(data, start, v.blocks) && v.section == start + 16 * v.blocks.len());
}

/// The key-block-info section `section` as an MDict writer enciphers it:
/// the first 8 bytes kept, the rest enciphered with the RIPEMD-128 digest
/// of the key material.
pub open spec fn enciphered_info(section: Seq<u8>) -> Seq<u8> {
    section.take(8) + keyword_encrypt(ripemd128(key_material(section)), section.skip(8))
}

/// `a` and `b` have the same length and the same bytes from `start` on.
pub open spec fn same_from(a: Seq<u8>, b: Seq<u8>, start: int) -> bool {
    &&& a.len() == b.len()
    &&& forall|i: int| start <= i < a.len() ==> a[i] == b[i]
}

proof fn lemma_same_subrange(a: Seq<u8>, b: Seq<u8>, start: int, i: int, j: int)
    requires
        same_from(a, b, start),
        0 <= start <= i <= j <= a.len(),
    ensures
        a.subrange(i, j) == b.subrange(i, j),
{
    assert forall|k: int| 0 <= k < j - i implies a.subrange(i, j)[k] == b.subrange(i, j)[k] by {
        assert(a[i + k] == b[i + k]);
    }
    assert(a.subrange(i, j) =~= b.subrange(i, j));
}

/// Reading the key blocks looks only at the bytes from where they start.
proof fn lemma_key_blocks_same(
    a: Seq<u8>,
    b: Seq<u8>,
    start: int,
    sizes: Seq<(u64, u64)>,
    k: int,
    pos: int,
    acc: Seq<(u64, Seq<u16>)>,
)
    requires
        same_from(a, b, start),
        0 <= start <= pos,
    ensures
        key_blocks_from(a, sizes, k, pos, acc) == key_blocks_from(b, sizes, k, pos, acc),
        key_blocks_from(a, sizes, k, pos, acc) matches Ok((_, r)) ==> r >= pos,
    decreases sizes.len() - k,
{
    if 0 <= k < sizes.len() {
        let comp = sizes[k].0;
        if comp <= MAX_SECTION_BYTES && pos + comp <= a.len() {
            lemma_same_subrange(a, b, start, pos, pos + comp);
            match spec_decompress_block(a.subrange(pos, pos + comp), sizes[k].1) {
                Ok(block) => lemma_key_blocks_same(
                    a,
                    b,
                    start,
                    sizes,
                    k + 1,
                    pos + comp,
                    acc + key_entries_from(block, 0),
                ),
                Err(_) => {},
            }
        }
    }
}

/// Reading the record index looks only at the bytes from where it starts.
proof fn lemma_records_same(
    a: Seq<u8>,
    b: Seq<u8>,
    start: int,
    remaining: nat,
    pos: int,
    running: nat,
    acc: Seq<(u64, u64, u64)>,
)
    requires
        same_from(a, b, start),
        0 <= start <= pos,
    ensures
        record_index_from(a, remaining, pos, running, acc) == record_index_from(
            b,
            remaining,
            pos,
            running,
            acc,
        ),
    decreases remaining,
{
    if remaining > 0 && pos + 16 <= a.len() {
        lemma_same_subrange(a, b, start, pos, pos + 8);
        lemma_same_subrange(a, b, start, pos + 8, pos + 16);
        let comp = be_at(a, pos, 8);
        let decomp = be_at(a, pos + 8, 8);
        lemma_records_same(
            a,
            b,
            start,
            (remaining - 1) as nat,
            pos + 16,
            running + comp,
            acc.push((running as u64, comp as u64, decomp as u64)),
        );
    }
}

/// An encrypted container body parses as its plain twin does: when `b` is
/// `a` with its key-block-info section enciphered (see `enciphered_info`),
/// and `b`'s header has the encryption bit 0x02 set where `a`'s does not,
/// both bodies give the same headwords, record blocks and record section.
pub proof fn lemma_encrypted_body_parses_as_plain(
    a: Seq<u8>,
    b: Seq<u8>,
    ha: HeaderView,
    hb: HeaderView,
)
    requires
        ha.body_start == hb.body_start,
        ha.encrypted & 2u8 == 0,
        hb.encrypted & 2u8 != 0,
        0 <= ha.body_start,
        ha.body_start + 44 <= a.len(),
        ({
            let p = ha.body_start;
            let q = p + 44;
            let n = be_at(a, p + 24, 8);
            &&& 8 <= n <= MAX_SECTION_BYTES
            &&& q + n <= a.len()
            &&& a.len() == b.len()
            &&& forall|i: int| p <= i < q ==> a[i] == b[i]
            &&& same_from(a, b, q + n)
            &&& b.subrange(q, q + n) == enciphered_info(a.subrange(q, q + n))
        }),
    ensures
        spec_parse_body(b, hb) == spec_parse_body(a, ha),
{
    let p = ha.body_start;
    let q = p + 44;
    assert(a.subrange(p, p + 8) =~= b.subrange(p, p + 8));
    assert(a.subrange(p + 16, p + 24) =~= b.subrange(p + 16, p + 24));
    assert(a.subrange(p + 24, p + 32) =~= b.subrange(p + 24, p + 32));
    let n = be_at(a, p + 24, 8);
    let sa = a.subrange(q, q + n);
    let sb = b.subrange(q, q + n);
    let key = ripemd128(key_material(sa));
    let enc = keyword_encrypt(key, sa.skip(8));
    lemma_decrypt_encrypt(key, sa.skip(8));
    assert(sb.take(8) =~= sa.take(8));
    assert(sb.skip(8) =~= enc);
    assert(key_material(sb) =~= key_material(sa));
    assert(sb.take(8) + keyword_decrypt(ripemd128(key_material(sb)), sb.skip(8)) =~= sa);
    assert(prepared_info(sb, hb.encrypted) == prepared_info(sa, ha.encrypted));
    assert forall|sizes: Seq<(u64, u64)>| true implies #[trigger] finish_with_keys(
        a,
        key_blocks_from(a, sizes, 0, q + n, Seq::empty()),
    ) == finish_with_keys(b, key_blocks_from(b, sizes, 0, q + n, Seq::empty())) by {
        lemma_key_blocks_same(a, b, q + n, sizes, 0, q + n, Seq::empty());
        match key_blocks_from(a, sizes, 0, q + n, Seq::empty()) {
            Ok((raw, r)) => {
                if r + 32 <= a.len() {
                    lemma_same_subrange(a, b, q + n, r, r + 8);
                    lemma_records_same(a, b, q + n, be_at(a, r, 8), r + 32, 0, Seq::empty());
                }
            },
            Err(_) => {},
        }
    }
}

/// The parsed body of a container.
pub struct Container {
    /// The headwords, in file order.
    pub entries: Vec<KeyEntry>,
    /// The record blocks: offset within the record section, compressed
    /// size, decompressed size.
    pub record_blocks: Vec<(u64, u64, u64)>,
    /// Where the record section starts.
    pub record_section_offset: usize,
}

/// `c` holds what `v` describes.
pub open spec fn container_matches(c: Container, v: ContainerView) -> bool {
    &&& c.entries@.len() == v.raw.len()
    &&& forall|i: int| 0 <= i < v.raw.len() ==> entry_from(#[trigger] c.entries@[i], v.raw[i])
    &&& c.record_blocks@ == v.blocks
    &&& c.record_section_offset as int == v.section
}

/// Parses the body of `data`, whose header has been read as `header`.
pub fn parse_body(data: &[u8], header: &MdxHeader) -> (r: Result<Container, MdxError>)
    requires
        spec_read_header(data@) == Ok::<HeaderView, MdxFault>(header@),
    ensures
        match r {
            Ok(c) => spec_parse_body(data@, header@) matches Ok(v) && container_matches(c, v),
            Err(e) => spec_parse_body(data@, header@) == Err::<ContainerView, MdxFault>(e@),
        },
{
    let p = header.body_start;
    if data.len() - p < 44 {
        return Err(MdxError::UnexpectedEof);
    }
    let num_blocks = be_u64(data, p);
    let info_decomp = be_u64(data, p + 16);
    let info_comp = be_u64(data, p + 24);
    let q = p + 44;
    let info_len = checked_len("key_index_comp_size", info_comp)?;
    proof {
        reveal_strlit("key_index_comp_size");
    }
    if data.len() - q < info_len {
        return Err(MdxError::UnexpectedEof);
    }
    let stored = vstd::slice::slice_subrange(data, q, q + info_len);
    let info = if header.encrypted & 2 != 0 {
        let section = decrypt_key_block_info(stored)?;
        decompress_block(section.as_slice(), info_decomp)?
    } else {
        decompress_block(stored, info_decomp)?
    };
    let sizes = parse_key_block_info(info.as_slice(), num_blocks)?;
    let mut entries: Vec<KeyEntry> = Vec::new();
    let mut pos = q + info_len;
    let mut k: usize = 0;
    let ghost mut acc: Seq<(u64, Seq<u16>)> = Seq::empty();
    let ghost q0 = pos as int;
    assert(spec_parse_body(data@, header@) == finish_with_keys(
        data@,
        key_blocks_from(data@, sizes@, 0, q0, Seq::empty()),
    ));
    while k < sizes.len()
        invariant
            spec_parse_body(data@, header@) == finish_with_keys(
                data@,
                key_blocks_from(data@, sizes@, 0, q0, Seq::empty()),
            ),
            q0 == (q + info_len) as int,
            k <= sizes@.len(),
            pos <= data@.len(),
            entries@.len() == acc.len(),
            forall|i: int| 0 <= i < acc.len() ==> entry_from(#[trigger] entries@[i], acc[i]),
            key_blocks_from(data@, sizes@, 0, (q + info_len) as int, Seq::empty())
                == key_blocks_from(data@, sizes@, k as int, pos as int, acc),
        decreases sizes@.len() - k,
    {
        let (comp_sz, decomp_sz) = sizes[k];
        let comp_len = checked_len("key block comp_size", comp_sz)?;
        proof {
            reveal_strlit("key block comp_size");
        }
        if data.len() - pos < comp_len {
            return Err(MdxError::UnexpectedEof);
        }
        let comp = vstd::slice::slice_subrange(data, pos, pos + comp_len);
        let block = decompress_block(comp, decomp_sz)?;
        let ghost before = entries@;
        parse_key_block(block.as_slice(), &mut entries);
        proof {
            let added = key_entries_from(block@, 0);
            assert forall|i: int| 0 <= i < (acc + added).len() implies entry_from(
                #[trigger] entries@[i],
                (acc + added)[i],
            ) by {
                if i >= acc.len() {
                    assert(entries@[i] == entries@[before.len() + (i - acc.len())]);
                } else {
                    assert(entries@[i] == before[i]);
                }
            }
            acc = acc + added;
        }
        pos += comp_len;
        k += 1;
    }
    let ghost raw = acc;
    assert(key_blocks_from(data@, sizes@, k as int, pos as int, acc) == Ok::<(Seq<(u64, Seq<u16>)>, int), MdxFault>((acc, pos as int)));
    if data.len() - pos < 32 {
        return Err(MdxError::UnexpectedEof);
    }
    let num_record_blocks = be_u64(data, pos);
    let mut rpos = pos + 32;
    let mut record_blocks: Vec<(u64, u64, u64)> = Vec::new();
    let mut running: u64 = 0;
    let mut i: u64 = 0;
    assert(spec_parse_body(data@, header@) == finish_with_records(
        data@,
        raw,
        record_index_from(data@, num_record_blocks as nat, pos + 32, 0, Seq::empty()),
    ));
    while i < num_record_blocks
        invariant
            spec_parse_body(data@, header@) == finish_with_records(
                data@,
                raw,
                record_index_from(data@, num_record_blocks as nat, pos + 32, 0, Seq::empty()),
            ),
            i <= num_record_blocks,
            rpos <= data@.len(),
            record_index_from(data@, num_record_blocks as nat, pos + 32, 0, Seq::empty())
                == record_index_from(
                data@,
                (num_record_blocks - i) as nat,
                rpos as int,
                running as nat,
                record_blocks@,
            ),
        decreases num_record_blocks - i,
    {
        if data.len() - rpos < 16 {
            return Err(MdxError::UnexpectedEof);
        }
        let comp_sz = be_u64(data, rpos);
        let decomp_sz = be_u64(data, rpos + 8);
        record_blocks.push((running, comp_sz, decomp_sz));
        running = match running.checked_add(comp_sz) {
            Some(v) => v,
            None => return Err(MdxError::OffsetOverflow),
        };
        rpos += 16;
        i += 1;
    }
    assert(record_index_from(data@, 0, rpos as int, running as nat, record_blocks@) == Ok::<(Seq<(u64, u64, u64)>, int), MdxFault>((record_blocks@, rpos as int)));
    let c = Container { entries, record_blocks, record_section_offset: rpos };
    proof {
        assert(container_matches(c, ContainerView { raw, blocks: record_blocks@, section: rpos as int }));
    }
    Ok(c)
}

/// The big-endian `u64` at `pos`, which must lie within the data.
fn be_u64(data: &[u8], pos: usize) -> (r: u64)
    requires
        pos + 8 <= data@.len(),
    ensures
        r as nat == be_at(data@, pos as int, 8),
{
    match read_u64_be(data, pos) {
        Ok(v) => v,
        Err(_) => 0,
    }
}

} // verus!

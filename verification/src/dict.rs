//! Dictionaries and resource archives read from MDict containers, and
//! lookups in them.

use vstd::prelude::*;
use crate::bytes::{MdxError, MdxFault, MAX_SECTION_BYTES, be_at, checked_len};
use crate::compress::{bytes_result, decompress_block, spec_decompress_block};
use crate::container::{
    Container,
    ContainerView,
    comp_sum,
    container_matches,
    decomp_sum,
    laid_back_to_back,
    lemma_record_blocks_back_to_back,
    enciphered_info,
    lemma_encrypted_body_parses_as_plain,
    parse_body,
    same_from,
    spec_parse_body,
};
use crate::header::{HeaderView, le_units, read_header, spec_read_header};
use crate::index::{
    RecordOrder,
    end_follows,
    fill_record_ends,
    is_permutation,
    name_before,
    record_before,
    sort_by_name,
};
use crate::keys::{KeyEntry, entry_from};
use crate::sort::{IndexOrder, lemma_permutation_of_range};
use crate::text::{
    chars_eq,
    is_high_surrogate,
    utf16_lossy,
    chars_lt,
    chars_of,
    lowercase,
    replace_all,
    replace_chars,
    str_to_lowercase,
    lemma_seq_lt_irreflexive,
    lemma_seq_lt_total,
    lemma_seq_lt_transitive,
    seq_lt,
    string_from_chars,
    string_from_utf8_lossy,
    trim_end_nul,
    trim_end_nul_chars,
    utf8_lossy,
};
use encoding_rs::UTF_16LE;

verus! {

/// What `encoding_rs`'s UTF-16LE decoder makes of bytes that start with no
/// byte-order mark: the little-endian units decoded, each unpaired surrogate
/// replaced by U+FFFD, and an odd final byte replaced by one more U+FFFD
/// unless it follows an unpaired high surrogate at the end (the two then
/// make a single U+FFFD).
pub open spec fn utf16le_text(bytes: Seq<u8>) -> Seq<char> {
    let units = le_units(bytes);
    let text = utf16_lossy(units);
    if bytes.len() % 2 == 1 && !(units.len() > 0 && is_high_surrogate(units.last())) {
        text.push('\u{FFFD}')
    } else {
        text
    }
}

/// `encoding_rs::UTF_16LE.decode` on bytes whose second byte is NUL, so that
/// they cannot start with any of the byte-order marks it sniffs (`EF BB BF`,
/// `FF FE`, `FE FF`): the UTF-16LE decoding as its decoder performs it, with
/// malformed sequences replaced. The crate panics only when its output size
/// overflows `usize`, which no slice's length can cause.
#[verifier::external_body]
fn decode_utf16le(bytes: &[u8]) -> (r: String)
    requires
        bytes@.len() >= 2,
        bytes@[1] == 0,
    ensures
        r@ == utf16le_text(bytes@),
{
    let (text, _, _) = UTF_16LE.decode(bytes);
    text.into_owned()
}

/// The text of a record: UTF-16LE when its second byte is NUL, UTF-8
/// otherwise, without trailing NULs.
pub open spec fn spec_decode_content(bytes: Seq<u8>) -> Seq<char> {
    let text = if bytes.len() >= 2 && bytes[1] == 0 {
        utf16le_text(bytes)
    } else {
        utf8_lossy(bytes)
    };
    trim_end_nul(text)
}

/// Decodes the bytes of a record into text.
pub fn decode_content(bytes: &[u8]) -> (r: String)
    ensures
        r@ == spec_decode_content(bytes@),
{
    let text = if bytes.len() >= 2 && bytes[1] == 0 {
        decode_utf16le(bytes)
    } else {
        string_from_utf8_lossy(bytes)
    };
    let chars = chars_of(text.as_str());
    let trimmed = trim_end_nul_chars(chars.as_slice());
    string_from_chars(trimmed.as_slice())
}

/// The first entry, at or after `from` in file order, whose lower-case
/// headword is `q`.
pub open spec fn first_with_key(entries: Seq<KeyEntry>, q: Seq<char>, from: int) -> Option<int>
    decreases entries.len() - from,
{
    if from < 0 || from >= entries.len() {
        None
    } else if entries[from].headword_lower@ == q {
        Some(from)
    } else {
        first_with_key(entries, q, from + 1)
    }
}

proof fn lemma_first_with_key(entries: Seq<KeyEntry>, q: Seq<char>, from: int, found: Option<int>)
    requires
        0 <= from,
        match found {
            Some(e) => from <= e < entries.len() && entries[e].headword_lower@ == q && forall|j: int|
                from <= j < e ==> entries[j].headword_lower@ != q,
            None => forall|j: int| from <= j < entries.len() ==> entries[j].headword_lower@ != q,
        },
    ensures
        first_with_key(entries, q, from) == found,
    decreases entries.len() - from,
{
    if from < entries.len() && entries[from].headword_lower@ != q {
        lemma_first_with_key(entries, q, from + 1, found);
    }
}

/// Which kind of container a record is read from; it names the error when
/// no block holds the record.
pub enum RecordKind {
    /// A dictionary record, found by headword.
    Entry,
    /// A resource, found by path.
    Resource,
}

/// What reading the record `[start, end)` (in decompressed record
/// coordinates) gives: the bytes of the block that holds `start`, from
/// `start` to `end` or the end of the block.
pub open spec fn spec_read_record(
    data: Seq<u8>,
    blocks: Seq<(u64, u64, u64)>,
    section: int,
    start: u64,
    end: u64,
    headword: Seq<char>,
    kind: RecordKind,
) -> Result<Seq<u8>, MdxFault> {
    read_from(data, blocks, section, start, end, headword, kind, 0, 0)
}

/// The record, searched for from block `k` on, whose decompressed data
/// starts at `acc`.
pub open spec fn read_from(
    data: Seq<u8>,
    blocks: Seq<(u64, u64, u64)>,
    section: int,
    start: u64,
    end: u64,
    headword: Seq<char>,
    kind: RecordKind,
    k: int,
    acc: nat,
) -> Result<Seq<u8>, MdxFault>
    decreases blocks.len() - k,
{
    if k < 0 || k >= blocks.len() {
        match kind {
            RecordKind::Entry => Err(MdxFault::RecordNotFound { headword }),
            RecordKind::Resource => Err(MdxFault::ResourceNotFound { name: headword }),
        }
    } else {
        let off = blocks[k].0;
        let comp = blocks[k].1;
        let decomp = blocks[k].2;
        if acc + decomp > u64::MAX {
            Err(MdxFault::OffsetOverflow)
        } else if acc <= start && start < acc + decomp {
            let label = match kind {
                RecordKind::Entry => "record block comp_size"@,
                RecordKind::Resource => "MDD record block comp_size"@,
            };
            let f = section + off;
            if comp > MAX_SECTION_BYTES {
                Err(MdxFault::SectionTooLarge { label, len: comp })
            } else if f + comp > data.len() {
                Err(MdxFault::UnexpectedEof)
            } else {
                match spec_decompress_block(data.subrange(f, f + comp), decomp) {
                    Err(e) => Err(e),
                    Ok(d) => {
                        let ls = start - acc;
                        let le = if end - acc < d.len() {
                            end - acc
                        } else {
                            d.len() as int
                        };
                        if ls > le {
                            Err(MdxFault::RecordOutOfRange)
                        } else {
                            Ok(d.subrange(ls, le))
                        }
                    },
                }
            }
        } else {
            read_from(data, blocks, section, start, end, headword, kind, k + 1, (acc + decomp) as nat)
        }
    }
}

/// `order` lists the entries by lower-case headword, ties in file order.
pub open spec fn names_sorted(entries: Seq<KeyEntry>, order: Seq<usize>) -> bool {
    forall|a: int, b: int|
        0 <= a < b < order.len() ==> !name_before(entries, order[b] as int, order[a] as int)
}

/// Block sums only grow.
proof fn lemma_decomp_sum_grows(blocks: Seq<(u64, u64, u64)>, i: int, j: int)
    requires
        i <= j,
    ensures
        decomp_sum(blocks, i) <= decomp_sum(blocks, j),
    decreases j - i,
{
    if i < j {
        lemma_decomp_sum_grows(blocks, i, j - 1);
    }
}

/// Searching from block `j` (whose decompressed data starts at the sum of
/// the sizes before it) reaches block `k` unchanged when the record starts
/// at or after block `k`.
proof fn lemma_read_reaches(
    data: Seq<u8>,
    blocks: Seq<(u64, u64, u64)>,
    section: int,
    start: u64,
    end: u64,
    headword: Seq<char>,
    kind: RecordKind,
    j: int,
    k: int,
)
    requires
        0 <= j <= k <= blocks.len(),
        decomp_sum(blocks, k) <= start,
        decomp_sum(blocks, k) <= u64::MAX,
    ensures
        read_from(data, blocks, section, start, end, headword, kind, j, decomp_sum(blocks, j))
            == read_from(data, blocks, section, start, end, headword, kind, k, decomp_sum(blocks, k)),
    decreases k - j,
{
    if j < k {
        lemma_decomp_sum_grows(blocks, j + 1, k);
        lemma_read_reaches(data, blocks, section, start, end, headword, kind, j + 1, k);
    }
}

/// A record is read from the block that holds its start: the decompressed
/// data of block `k` begins at the sum of the decompressed sizes of the
/// blocks before it, and the record is cut from that block's data at its
/// start minus that sum, up to its end or the end of the block. The block's
/// bytes lie at the record section plus the block's offset.
pub proof fn lemma_record_read_from_its_block(
    data: Seq<u8>,
    blocks: Seq<(u64, u64, u64)>,
    section: int,
    start: u64,
    end: u64,
    headword: Seq<char>,
    kind: RecordKind,
    k: int,
)
    requires
        0 <= k < blocks.len(),
        decomp_sum(blocks, k) <= start < decomp_sum(blocks, k + 1),
        decomp_sum(blocks, k + 1) <= u64::MAX,
    ensures
        spec_read_record(data, blocks, section, start, end, headword, kind) == ({
            let base = decomp_sum(blocks, k);
            let f = section + blocks[k].0;
            let comp = blocks[k].1;
            if comp > MAX_SECTION_BYTES {
                Err(
                    MdxFault::SectionTooLarge {
                        label: match kind {
                            RecordKind::Entry => "record block comp_size"@,
                            RecordKind::Resource => "MDD record block comp_size"@,
                        },
                        len: comp,
                    },
                )
            } else if f + comp > data.len() {
                Err(MdxFault::UnexpectedEof)
            } else {
                match spec_decompress_block(data.subrange(f, f + comp), blocks[k].2) {
                    Err(e) => Err(e),
                    Ok(d) => {
                        let local = start - base;
                        let stop = if end - base < d.len() {
                            end - base
                        } else {
                            d.len() as int
                        };
                        if local > stop {
                            Err(MdxFault::RecordOutOfRange)
                        } else {
                            Ok(d.subrange(local, stop))
                        }
                    },
                }
            }
        }),
{
    lemma_decomp_sum_grows(blocks, k, k + 1);
    lemma_read_reaches(data, blocks, section, start, end, headword, kind, 0, k);
}

/// A record that starts past the last block is in no block.
pub proof fn lemma_record_past_the_blocks(
    data: Seq<u8>,
    blocks: Seq<(u64, u64, u64)>,
    section: int,
    start: u64,
    end: u64,
    headword: Seq<char>,
    kind: RecordKind,
)
    requires
        decomp_sum(blocks, blocks.len() as int) <= start,
    ensures
        spec_read_record(data, blocks, section, start, end, headword, kind) == match kind {
            RecordKind::Entry => Err::<Seq<u8>, MdxFault>(MdxFault::RecordNotFound { headword }),
            RecordKind::Resource => Err(MdxFault::ResourceNotFound { name: headword }),
        },
{
    lemma_read_reaches(data, blocks, section, start, end, headword, kind, 0, blocks.len() as int);
}

/// The record blocks of a parsed dictionary lie back to back in its record
/// section: each block's offset is the sum of the compressed sizes of the
/// blocks before it.
pub proof fn lemma_dictionary_blocks_back_to_back(data: Seq<u8>)
    requires
        spec_parse_container(data) is Ok,
    ensures
        spec_parse_container(data) matches Ok(v) && forall|k: int|
            0 <= k < v.blocks.len() ==> #[trigger] v.blocks[k].0 == comp_sum(v.blocks, k),
{
    let h = spec_read_header(data)->Ok_0;
    lemma_record_blocks_back_to_back(data, h);
    let v = spec_parse_container(data)->Ok_0;
    let start = choose|start: int|
        laid_back_to_back(data, start, v.blocks) && v.section == start + 16 * v.blocks.len();
    assert forall|k: int| 0 <= k < v.blocks.len() implies #[trigger] v.blocks[k].0 == comp_sum(
        v.blocks,
        k,
    ) by {
        assert(v.blocks[k].0 == comp_sum(v.blocks, k));
    }
}

/// `end` is the record end of entry `e`: the start of the entry whose
/// record immediately follows, or `u64::MAX` when none does.
pub open spec fn record_end_of(entries: Seq<KeyEntry>, end: u64, e: int) -> bool {
    ||| end == u64::MAX && forall|q: int| 0 <= q < entries.len() ==> !record_before(entries, e, q)
    ||| exists|q: int|
        0 <= q < entries.len() && record_before(entries, e, q) && end == entries[q].record_start
            && forall|q2: int|
            0 <= q2 < entries.len() && record_before(entries, e, q2) ==> !record_before(
                entries,
                q2,
                q,
            )
}

/// The key index of a container, with the container's bytes.
pub struct MdictIndex {
    data: Vec<u8>,
    entries: Vec<KeyEntry>,
    by_name: Vec<usize>,
    ends: Vec<u64>,
    record_blocks: Vec<(u64, u64, u64)>,
    record_section_offset: usize,
}

impl MdictIndex {
    #[verifier::type_invariant]
    spec fn well_formed(self) -> bool {
        &&& is_permutation(self.by_name@, self.entries@.len())
        &&& forall|a: int, b: int|
            0 <= a < b < self.by_name@.len() ==> !name_before(
                self.entries@,
                self.by_name@[b] as int,
                self.by_name@[a] as int,
            )
        &&& self.ends@.len() == self.entries@.len()
        &&& forall|e: int|
            0 <= e < self.entries@.len() ==> record_end_of(self.entries@, #[trigger] self.ends@[e], e)
    }

    /// The bytes of the container.
    pub closed spec fn bytes(self) -> Seq<u8> {
        self.data@
    }

    /// The headwords, in file order.
    pub closed spec fn entries_view(self) -> Seq<KeyEntry> {
        self.entries@
    }

    /// The record end of each headword.
    pub closed spec fn ends_view(self) -> Seq<u64> {
        self.ends@
    }

    /// The headwords' positions sorted by lower-case headword, ties in file
    /// order: the order in which the index is searched.
    pub closed spec fn name_order(self) -> Seq<usize> {
        self.by_name@
    }

    /// The record blocks.
    pub closed spec fn blocks(self) -> Seq<(u64, u64, u64)> {
        self.record_blocks@
    }

    /// Where the record section starts.
    pub closed spec fn section(self) -> int {
        self.record_section_offset as int
    }

    /// What reading the record of entry `e` gives.
    pub open spec fn record_of(self, e: int, kind: RecordKind) -> Result<Seq<u8>, MdxFault> {
        spec_read_record(
            self.bytes(),
            self.blocks(),
            self.section(),
            self.entries_view()[e].record_start,
            self.ends_view()[e],
            self.entries_view()[e].headword@,
            kind,
        )
    }

    /// Builds the index of a parsed container.
    fn build(data: Vec<u8>, c: Container) -> (r: MdictIndex)
        ensures
            r.bytes() == data@,
            r.entries_view() == c.entries@,
            r.blocks() == c.record_blocks@,
            r.section() == c.record_section_offset as int,
            r.ends_view().len() == c.entries@.len(),
            forall|e: int|
                0 <= e < c.entries@.len() ==> record_end_of(c.entries@, #[trigger] r.ends_view()[e], e),
            is_permutation(r.name_order(), c.entries@.len()),
            names_sorted(c.entries@, r.name_order()),
    {
        let Container { entries, record_blocks, record_section_offset } = c;
        let by_name = sort_by_name(&entries);
        let mut starts: Vec<u64> = Vec::new();
        let mut i: usize = 0;
        while i < entries.len()
            invariant
                i <= entries@.len(),
                starts@.len() == i,
                forall|k: int| 0 <= k < i ==> #[trigger] starts@[k] == entries@[k].record_start,
            decreases entries@.len() - i,
        {
            starts.push(entries[i].record_start);
            i += 1;
        }
        let o = RecordOrder { entries: &entries };
        let ends = fill_record_ends(&o, &starts);
        proof {
            assert forall|e: int| 0 <= e < entries@.len() implies record_end_of(
                entries@,
                #[trigger] ends@[e],
                e,
            ) by {
                assert(end_follows(&o, starts@, ends@[e], e));
                if ends@[e] == u64::MAX && forall|q: int| 0 <= q < starts@.len() ==> !o.before(e, q) {
                    assert forall|q: int| 0 <= q < entries@.len() implies !record_before(
                        entries@,
                        e,
                        q,
                    ) by {
                        assert(!o.before(e, q));
                    }
                } else {
                    let q = choose|q: int|
                        0 <= q < starts@.len() && o.before(e, q) && ends@[e] == starts@[q]
                            && forall|q2: int|
                            0 <= q2 < starts@.len() && o.before(e, q2) ==> !o.before(q2, q);
                    assert(ends@[e] == entries@[q].record_start);
                    assert(record_before(entries@, e, q));
                    assert forall|q2: int|
                        0 <= q2 < entries@.len() && record_before(entries@, e, q2) implies !record_before(
                        entries@,
                        q2,
                        q,
                    ) by {
                        assert(o.before(e, q2));
                        assert(!o.before(q2, q));
                    }
                }
            }
        }
        MdictIndex { data, entries, by_name, ends, record_blocks, record_section_offset }
    }

    /// The first entry in file order whose lower-case headword is `q`.
    fn find(&self, q: &[char]) -> (r: Option<usize>)
        ensures
            match r {
                Some(e) => first_with_key(self.entries_view(), q@, 0) == Some(e as int),
                None => first_with_key(self.entries_view(), q@, 0) is None,
            },
    {
        proof {
            use_type_invariant(self);
            assert(self.entries@.len() == self.entries.len());
            lemma_permutation_of_range(self.by_name@, self.entries@.len());
        }
        let n = self.by_name.len();
        let ghost ents = self.entries@;
        let ghost bn = self.by_name@;
        let mut lo: usize = 0;
        let mut hi: usize = n;
        while lo < hi
            invariant
                n == bn.len(),
                bn.len() == ents.len(),
                ents == self.entries@,
                bn == self.by_name@,
                lo <= hi <= n,
                forall|a: int| 0 <= a < bn.len() ==> (bn[a] as int) < ents.len(),
                forall|a: int, b: int|
                    0 <= a < b < bn.len() ==> !name_before(ents, bn[b] as int, bn[a] as int),
                forall|p: int| 0 <= p < lo ==> seq_lt(#[trigger] ents[bn[p] as int].headword_lower@, q@),
                forall|p: int|
                    hi <= p < n ==> !seq_lt(#[trigger] ents[bn[p] as int].headword_lower@, q@),
            decreases hi - lo,
        {
            let mid = lo + (hi - lo) / 2;
            let e = self.by_name[mid];
            if chars_lt(self.entries[e].headword_lower.as_slice(), q) {
                proof {
                    assert forall|p: int| 0 <= p < mid + 1 implies seq_lt(
                        #[trigger] ents[bn[p] as int].headword_lower@,
                        q@,
                    ) by {
                        if p < mid {
                            lemma_keys_ordered(ents, bn, p, mid as int);
                            let kp = ents[bn[p] as int].headword_lower@;
                            let km = ents[bn[mid as int] as int].headword_lower@;
                            if kp != km {
                                lemma_seq_lt_transitive(kp, km, q@);
                            }
                        }
                    }
                }
                lo = mid + 1;
            } else {
                proof {
                    assert forall|p: int| mid <= p < n implies !seq_lt(
                        #[trigger] ents[bn[p] as int].headword_lower@,
                        q@,
                    ) by {
                        if p > mid {
                            lemma_keys_ordered(ents, bn, mid as int, p);
                            let kp = ents[bn[p] as int].headword_lower@;
                            let km = ents[bn[mid as int] as int].headword_lower@;
                            if kp != km && seq_lt(kp, q@) {
                                lemma_seq_lt_transitive(km, kp, q@);
                            }
                        }
                    }
                }
                hi = mid;
            }
        }
        let ghost pos = lo as int;
        if lo < n && chars_eq(self.entries[self.by_name[lo]].headword_lower.as_slice(), q) {
            let e = self.by_name[lo];
            proof {
                assert forall|j: int| 0 <= j < e implies ents[j].headword_lower@ != q@ by {
                    if ents[j].headword_lower@ == q@ {
                        assert(bn.contains(j as usize));
                        let pj = choose|pj: int| 0 <= pj < bn.len() && bn[pj] == j as usize;
                        if pj < pos {
                            assert(seq_lt(ents[bn[pj] as int].headword_lower@, q@));
                            lemma_seq_lt_irreflexive(q@);
                        } else if pj > pos {
                            assert(!name_before(ents, bn[pj] as int, bn[pos] as int));
                        }
                    }
                }
                lemma_first_with_key(ents, q@, 0, Some(e as int));
            }
            Some(e)
        } else {
            proof {
                assert forall|j: int| 0 <= j < ents.len() implies ents[j].headword_lower@ != q@ by {
                    if ents[j].headword_lower@ == q@ {
                        assert(bn.contains(j as usize));
                        let pj = choose|pj: int| 0 <= pj < bn.len() && bn[pj] == j as usize;
                        if pj < pos {
                            assert(seq_lt(ents[bn[pj] as int].headword_lower@, q@));
                            lemma_seq_lt_irreflexive(q@);
                        } else {
                            assert(pos < n);
                            let kpos = ents[bn[pos] as int].headword_lower@;
                            assert(!seq_lt(kpos, q@));
                            if pj > pos {
                                lemma_keys_ordered(ents, bn, pos, pj);
                            }
                            lemma_seq_lt_total(kpos, q@);
                        }
                    }
                }
                lemma_first_with_key(ents, q@, 0, None);
            }
            None
        }
    }

    /// Reads the record of entry `e`.
    fn read_record_bytes(&self, e: usize, kind: RecordKind) -> (r: Result<Vec<u8>, MdxError>)
        requires
            e < self.entries_view().len(),
        ensures
            bytes_result(r) == self.record_of(e as int, kind),
    {
        proof {
            use_type_invariant(self);
        }
        let start = self.entries[e].record_start;
        let end = self.ends[e];
        let ghost hw = self.entries@[e as int].headword@;
        let n = self.record_blocks.len();
        let mut k: usize = 0;
        let mut acc: u64 = 0;
        while k < n
            invariant
                n == self.record_blocks@.len(),
                k <= n,
                start == self.entries@[e as int].record_start,
                end == self.ends@[e as int],
                hw == self.entries@[e as int].headword@,
                self.record_of(e as int, kind) == read_from(
                    self.data@,
                    self.record_blocks@,
                    self.record_section_offset as int,
                    start,
                    end,
                    hw,
                    kind,
                    k as int,
                    acc as nat,
                ),
            decreases n - k,
        {
            let (blk_off, blk_comp, blk_decomp) = self.record_blocks[k];
            let blk_end = match acc.checked_add(blk_decomp) {
                Some(v) => v,
                None => return Err(MdxError::OffsetOverflow),
            };
            if start >= acc && start < blk_end {
                let comp_len = match kind {
                    RecordKind::Entry => checked_len("record block comp_size", blk_comp),
                    RecordKind::Resource => checked_len("MDD record block comp_size", blk_comp),
                };
                proof {
                    reveal_strlit("record block comp_size");
                    reveal_strlit("MDD record block comp_size");
                }
                let comp_len = comp_len?;
                let sec = self.record_section_offset;
                let dlen = self.data.len();
                if sec > dlen || blk_off > (dlen - sec) as u64 || comp_len > dlen - sec
                    - blk_off as usize {
                    return Err(MdxError::UnexpectedEof);
                }
                let f = sec + blk_off as usize;
                let comp = vstd::slice::slice_subrange(self.data.as_slice(), f, f + comp_len);
                let decompressed = decompress_block(comp, blk_decomp)?;
                let local_start = start - acc;
                if end < acc {
                    return Err(MdxError::RecordOutOfRange);
                }
                let rel_end = end - acc;
                let local_end = if rel_end < decompressed.len() as u64 {
                    rel_end as usize
                } else {
                    decompressed.len()
                };
                if local_start > local_end as u64 {
                    return Err(MdxError::RecordOutOfRange);
                }
                let slice = vstd::slice::slice_subrange(
                    decompressed.as_slice(),
                    local_start as usize,
                    local_end,
                );
                return Ok(vstd::slice::slice_to_vec(slice));
            }
            acc = blk_end;
            k += 1;
        }
        match kind {
            RecordKind::Entry => Err(MdxError::RecordNotFound { headword: self.entries[e].headword.clone() }),
            RecordKind::Resource => Err(MdxError::ResourceNotFound { name: self.entries[e].headword.clone() }),
        }
    }
}

/// Name order along `bn` never goes down: the key at an earlier position
/// sorts before or equals the key at a later one.
proof fn lemma_keys_ordered(ents: Seq<KeyEntry>, bn: Seq<usize>, a: int, b: int)
    requires
        0 <= a < b < bn.len(),
        forall|x: int, y: int|
            0 <= x < y < bn.len() ==> !name_before(ents, bn[y] as int, bn[x] as int),
    ensures
        !seq_lt(ents[bn[b] as int].headword_lower@, ents[bn[a] as int].headword_lower@),
        ents[bn[a] as int].headword_lower@ == ents[bn[b] as int].headword_lower@ || seq_lt(
            ents[bn[a] as int].headword_lower@,
            ents[bn[b] as int].headword_lower@,
        ),
{
    assert(!name_before(ents, bn[b] as int, bn[a] as int));
    lemma_seq_lt_total(ents[bn[a] as int].headword_lower@, ents[bn[b] as int].headword_lower@);
}


/// What parsing a whole container gives: its header, then its body.
pub open spec fn spec_parse_container(data: Seq<u8>) -> Result<ContainerView, MdxFault> {
    match spec_read_header(data) {
        Err(f) => Err(f),
        Ok(h) => spec_parse_body(data, h),
    }
}

/// An encrypted dictionary parses as its plain twin does: when the
/// headers of `a` and `b` read as `ha` and `hb`, end at the same place, and
/// differ in that `hb` has the encryption bit 0x02 set, and `b` is `a` with
/// its key-block-info section enciphered as an MDict writer does it, both
/// containers give the same headwords, record blocks and record section.
pub proof fn lemma_encrypted_container_parses_as_plain(
    a: Seq<u8>,
    b: Seq<u8>,
    ha: HeaderView,
    hb: HeaderView,
)
    requires
        spec_read_header(a) == Ok::<HeaderView, MdxFault>(ha),
        spec_read_header(b) == Ok::<HeaderView, MdxFault>(hb),
        ha.body_start == hb.body_start,
        ha.encrypted & 2u8 == 0,
        hb.encrypted & 2u8 != 0,
        0 <= ha.body_start,
        ha.body_start + 44 <= a.len(),
        ({
            let p = ha.body_start;
            let q = p + 44;
            let n = be_at(a, p + 24, 8);
            &&& 8 <= n <= MAX_SECTION_BYTES
            &&& q + n <= a.len()
            &&& a.len() == b.len()
            &&& forall|i: int| p <= i < q ==> a[i] == b[i]
            &&& same_from(a, b, q + n)
            &&& b.subrange(q, q + n) == enciphered_info(a.subrange(q, q + n))
        }),
    ensures
        spec_parse_container(b) == spec_parse_container(a),
{
    lemma_encrypted_body_parses_as_plain(a, b, ha, hb);
}

/// `index` holds the container `v` read from `data`: every entry decoded
/// from the key blocks, in file order, with its lower-cased headword; a
/// search order that is a permutation of the entries sorted stably by
/// lower-case headword; each record end at the start of the next record (or
/// `u64::MAX` for the last); and the record blocks and section offset.
pub open spec fn index_describes(index: MdictIndex, data: Seq<u8>, v: ContainerView) -> bool {
    &&& index.bytes() == data
    &&& is_permutation(index.name_order(), v.raw.len())
    &&& names_sorted(index.entries_view(), index.name_order())
    &&& index.entries_view().len() == v.raw.len()
    &&& forall|i: int|
        0 <= i < v.raw.len() ==> entry_from(#[trigger] index.entries_view()[i], v.raw[i])
    &&& index.blocks() == v.blocks
    &&& index.section() == v.section
    &&& index.ends_view().len() == v.raw.len()
    &&& forall|e: int|
        0 <= e < v.raw.len() ==> record_end_of(
            index.entries_view(),
            #[trigger] index.ends_view()[e],
            e,
        )
}

/// Parses a whole container into its index.
fn open_index(data: Vec<u8>) -> (r: Result<MdictIndex, MdxError>)
    ensures
        match r {
            Ok(index) => spec_parse_container(data@) matches Ok(v) && index_describes(
                index,
                data@,
                v,
            ),
            Err(e) => spec_parse_container(data@) == Err::<ContainerView, MdxFault>(e@),
        },
{
    let header = read_header(data.as_slice())?;
    let body = parse_body(data.as_slice(), &header)?;
    let ghost v = choose|v: ContainerView|
        spec_parse_body(data@, header@) == Ok::<ContainerView, MdxFault>(v) && container_matches(
            body,
            v,
        );
    let ghost d = data@;
    let index = MdictIndex::build(data, body);
    assert(index_describes(index, d, v));
    Ok(index)
}

/// What looking up `query` in the index gives: the decoded record of the
/// first headword (in file order) whose lower-case form is that of
/// `query`, `None` when there is none, or why that record cannot be read.
pub open spec fn lookup_outcome(index: MdictIndex, query: Seq<char>) -> Result<
    Option<Seq<char>>,
    MdxFault,
> {
    match first_with_key(index.entries_view(), lowercase(query), 0) {
        None => Ok(None),
        Some(e) => match index.record_of(e, RecordKind::Entry) {
            Ok(b) => Ok(Some(spec_decode_content(b))),
            Err(f) => Err(f),
        },
    }
}

/// The answer of a lookup, with its text as a character sequence.
pub open spec fn answer_view(r: Result<Option<String>, MdxError>) -> Result<
    Option<Seq<char>>,
    MdxFault,
> {
    match r {
        Ok(Some(s)) => Ok(Some(s@)),
        Ok(None) => Ok(None),
        Err(e) => Err(e@),
    }
}

/// Lookups ignore case: two queries with the same lower-case form get the
/// same answer from the same dictionary.
pub proof fn lemma_lookup_ignores_case(index: MdictIndex, a: Seq<char>, b: Seq<char>)
    requires
        lowercase(a) == lowercase(b),
    ensures
        lookup_outcome(index, a) == lookup_outcome(index, b),
{
}

/// A dictionary: the key index and records of an `.mdx` file.
pub struct MdxDict {
    pub index: MdictIndex,
}

impl MdxDict {
    /// Reads a dictionary from the bytes of an `.mdx` file. The engine
    /// version in the header is not checked here (see `MdxHeader`).
    pub fn from_bytes(data: Vec<u8>) -> (r: Result<MdxDict, MdxError>)
        ensures
            match r {
                Ok(d) => spec_parse_container(data@) matches Ok(v) && index_describes(
                    d.index,
                    data@,
                    v,
                ),
                Err(e) => spec_parse_container(data@) == Err::<ContainerView, MdxFault>(e@),
            },
    {
        let index = open_index(data)?;
        Ok(MdxDict { index })
    }

    /// The record of the first headword (in file order) whose lower-case
    /// form equals the lower-case form of `query`, decoded as text; `None`
    /// when no headword matches.
    pub fn lookup_exact(&self, query: &str) -> (r: Result<Option<String>, MdxError>)
        ensures
            answer_view(r) == lookup_outcome(self.index, query@),
    {
        let q = str_to_lowercase(query);
        let qc = chars_of(q.as_str());
        match self.index.find(qc.as_slice()) {
            None => Ok(None),
            Some(e) => {
                proof {
                    lemma_first_with_key_in_range(self.index.entries_view(), qc@, 0);
                }
                let bytes = self.index.read_record_bytes(e, RecordKind::Entry)?;
                Ok(Some(decode_content(bytes.as_slice())))
            },
        }
    }
}

proof fn lemma_first_with_key_in_range(entries: Seq<KeyEntry>, q: Seq<char>, from: int)
    ensures
        first_with_key(entries, q, from) matches Some(e) ==> 0 <= from <= e < entries.len()
            && entries[e].headword_lower@ == q,
    decreases entries.len() - from,
{
    if 0 <= from < entries.len() && entries[from].headword_lower@ != q {
        lemma_first_with_key_in_range(entries, q, from + 1);
    }
}

/// `s` without its leading `/` and `\` characters.
pub open spec fn trim_leading_slashes(s: Seq<char>) -> Seq<char>
    decreases s.len(),
{
    if s.len() > 0 && (s[0] == '/' || s[0] == '\\') {
        trim_leading_slashes(s.drop_first())
    } else {
        s
    }
}

/// The resource paths tried for `name`, in order: as given, with a leading
/// backslash and backslash separators, with a leading slash, and with
/// backslash or slash separators and no leading separator.
pub open spec fn resource_candidates(name: Seq<char>) -> Seq<Seq<char>> {
    let fwd = trim_leading_slashes(name);
    let back = replace_all(fwd, seq!['/'], seq!['\\']);
    seq![name, seq!['\\'] + back, seq!['/'] + fwd, back, fwd]
}

/// The first candidate key, from `i` on, that some entry has, with that
/// entry.
pub open spec fn first_candidate(entries: Seq<KeyEntry>, keys: Seq<Seq<char>>, i: int) -> Option<
    int,
>
    decreases keys.len() - i,
{
    if i < 0 || i >= keys.len() {
        None
    } else {
        match first_with_key(entries, keys[i], 0) {
            Some(e) => Some(e),
            None => first_candidate(entries, keys, i + 1),
        }
    }
}

/// Drops the leading `/` and `\` characters.
fn trim_leading_slash_chars(s: &[char]) -> (r: Vec<char>)
    ensures
        r@ == trim_leading_slashes(s@),
{
    let mut i: usize = 0;
    assert(s@.skip(0) =~= s@);
    while i < s.len() && (s[i] == '/' || s[i] == '\\')
        invariant
            i <= s@.len(),
            trim_leading_slashes(s@.skip(i as int)) == trim_leading_slashes(s@),
        decreases s@.len() - i,
    {
        assert(s@.skip(i as int).drop_first() =~= s@.skip(i + 1));
        i += 1;
    }
    let mut out: Vec<char> = Vec::new();
    let mut k = i;
    while k < s.len()
        invariant
            i <= k <= s@.len(),
            out@ == s@.subrange(i as int, k as int),
        decreases s@.len() - k,
    {
        out.push(s[k]);
        assert(s@.subrange(i as int, k + 1) =~= s@.subrange(i as int, k as int).push(s@[k as int]));
        k += 1;
    }
    assert(out@ =~= s@.skip(i as int));
    out
}

/// A resource archive: the key index and records of an `.mdd` file, whose
/// keys are resource paths and whose records are raw bytes.
pub struct MddDict {
    pub index: MdictIndex,
}

impl MddDict {
    /// Reads a resource archive from the bytes of an `.mdd` file. The
    /// engine version in the header is not checked here.
    pub fn from_bytes(data: Vec<u8>) -> (r: Result<MddDict, MdxError>)
        ensures
            match r {
                Ok(d) => spec_parse_container(data@) matches Ok(v) && index_describes(
                    d.index,
                    data@,
                    v,
                ),
                Err(e) => spec_parse_container(data@) == Err::<ContainerView, MdxFault>(e@),
            },
    {
        let index = open_index(data)?;
        Ok(MddDict { index })
    }

    /// The bytes of the resource `name`. Archives store paths with a
    /// leading backslash and backslash separators, but not all do, so the
    /// variants of `resource_candidates` are tried in turn (compared in
    /// lower case); the first that some entry has wins.
    pub fn lookup_resource(&self, name: &str) -> (r: Result<Option<Vec<u8>>, MdxError>)
        ensures
            match first_candidate(
                self.index.entries_view(),
                resource_candidates(name@).map_values(|c: Seq<char>| lowercase(c)),
                0,
            ) {
                None => r matches Ok(None),
                Some(e) => match self.index.record_of(e, RecordKind::Resource) {
                    Ok(b) => r matches Ok(Some(v)) && v@ == b,
                    Err(f) => r matches Err(err) && err@ == f,
                },
            },
    {
        let name_chars = chars_of(name);
        let fwd = trim_leading_slash_chars(name_chars.as_slice());
        let slash: Vec<char> = vec!['/'];
        let backslash: Vec<char> = vec!['\\'];
        let back = replace_chars(fwd.as_slice(), slash.as_slice(), backslash.as_slice());
        let mut with_back: Vec<char> = vec!['\\'];
        let mut with_fwd: Vec<char> = vec!['/'];
        append_chars(&mut with_back, back.as_slice());
        append_chars(&mut with_fwd, fwd.as_slice());
        let mut candidates: Vec<Vec<char>> = Vec::new();
        candidates.push(name_chars);
        candidates.push(with_back);
        candidates.push(with_fwd);
        candidates.push(back);
        candidates.push(fwd);
        let ghost cands = resource_candidates(name@);
        let ghost keys = cands.map_values(|c: Seq<char>| lowercase(c));
        proof {
            assert(slash@ =~= seq!['/']);
            assert(backslash@ =~= seq!['\\']);
            assert(candidates@[1]@ =~= cands[1]);
            assert(candidates@[2]@ =~= cands[2]);
        }
        let mut tried: Vec<Vec<char>> = Vec::new();
        let mut i: usize = 0;
        while i < candidates.len()
            invariant
                candidates@.len() == 5,
                cands == resource_candidates(name@),
                cands.len() == 5,
                keys == cands.map_values(|c: Seq<char>| lowercase(c)),
                forall|j: int| 0 <= j < 5 ==> (#[trigger] candidates@[j])@ == cands[j],
                i <= 5,
                first_candidate(self.index.entries_view(), keys, 0) == first_candidate(
                    self.index.entries_view(),
                    keys,
                    i as int,
                ),
                forall|t: int|
                    0 <= t < tried@.len() ==> first_with_key(
                        self.index.entries_view(),
                        (#[trigger] tried@[t])@,
                        0,
                    ) is None,
            decreases 5 - i,
        {
            let cand_str = string_from_chars(candidates[i].as_slice());
            let lower = str_to_lowercase(cand_str.as_str());
            let lower_chars = chars_of(lower.as_str());
            assert(lower_chars@ == keys[i as int]);
            if contains_chars(&tried, lower_chars.as_slice()) {
                proof {
                    let t = choose|t: int| 0 <= t < tried@.len() && tried@[t]@ == lower_chars@;
                    assert(first_with_key(self.index.entries_view(), tried@[t]@, 0) is None);
                    assert(first_candidate(self.index.entries_view(), keys, i as int)
                        == first_candidate(self.index.entries_view(), keys, i + 1));
                }
            } else {
                match self.index.find(lower_chars.as_slice()) {
                    Some(e) => {
                        proof {
                            lemma_first_with_key_in_range(self.index.entries_view(), lower_chars@, 0);
                            assert(first_candidate(self.index.entries_view(), keys, i as int)
                                == Some(e as int));
                        }
                        let bytes = self.index.read_record_bytes(e, RecordKind::Resource)?;
                        return Ok(Some(bytes));
                    },
                    None => {
                        proof {
                            assert(first_candidate(self.index.entries_view(), keys, i as int)
                                == first_candidate(self.index.entries_view(), keys, i + 1));
                        }
                        tried.push(lower_chars);
                    },
                }
            }
            i += 1;
        }
        Ok(None)
    }
}

/// Whether some element of `list` holds the characters of `s`.
fn contains_chars(list: &Vec<Vec<char>>, s: &[char]) -> (r: bool)
    ensures
        r == exists|t: int| 0 <= t < list@.len() && (#[trigger] list@[t])@ == s@,
{
    let mut t: usize = 0;
    while t < list.len()
        invariant
            t <= list@.len(),
            forall|u: int| 0 <= u < t ==> (#[trigger] list@[u])@ != s@,
        decreases list@.len() - t,
    {
        if chars_eq(list[t].as_slice(), s) {
            return true;
        }
        t += 1;
    }
    false
}

/// Appends the characters of `s` to `v`.
fn append_chars(v: &mut Vec<char>, s: &[char])
    ensures
        final(v)@ == old(v)@ + s@,
{
    let mut k: usize = 0;
    let ghost start = v@;
    while k < s.len()
        invariant
            k <= s@.len(),
            v@ == start + s@.take(k as int),
        decreases s@.len() - k,
    {
        v.push(s[k]);
        assert(s@.take(k + 1) =~= s@.take(k as int).push(s@[k as int]));
        k += 1;
    }
    assert(s@.take(s@.len() as int) =~= s@);
}

} // verus!

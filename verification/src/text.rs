//! Character-level helpers shared by the parsers and result builders.

use vstd::prelude::*;

verus! {

/// The characters that `char::is_whitespace` accepts: the Unicode
/// `White_Space` property.
pub open spec fn is_white_space(c: char) -> bool {
    let u = c as u32;
    ||| 0x09 <= u && u <= 0x0D
    ||| u == 0x20
    ||| u == 0x85
    ||| u == 0xA0
    ||| u == 0x1680
    ||| 0x2000 <= u && u <= 0x200A
    ||| u == 0x2028
    ||| u == 0x2029
    ||| u == 0x202F
    ||| u == 0x205F
    ||| u == 0x3000
}

/// `s` without its leading white space.
pub open spec fn trim_start_ws(s: Seq<char>) -> Seq<char>
    decreases s.len(),
{
    if s.len() > 0 && is_white_space(s[0]) {
        trim_start_ws(s.drop_first())
    } else {
        s
    }
}

/// `s` without its trailing white space.
pub open spec fn trim_end_ws(s: Seq<char>) -> Seq<char>
    decreases s.len(),
{
    if s.len() > 0 && is_white_space(s.last()) {
        trim_end_ws(s.drop_last())
    } else {
        s
    }
}

/// `s` without leading and trailing white space.
pub open spec fn trim_ws(s: Seq<char>) -> Seq<char> {
    trim_end_ws(trim_start_ws(s))
}

/// Every character of `s` is white space (so `trim` leaves nothing).
pub open spec fn all_white_space(s: Seq<char>) -> bool {
    forall|i: int| 0 <= i < s.len() ==> is_white_space(#[trigger] s[i])
}

/// Whether `c` is white space (`char::is_whitespace`).
pub fn is_white_space_char(c: char) -> (r: bool)
    ensures
        r == is_white_space(c),
{
    let u = c as u32;
    (0x09 <= u && u <= 0x0D) || u == 0x20 || u == 0x85 || u == 0xA0 || u == 0x1680 || (0x2000
        <= u && u <= 0x200A) || u == 0x2028 || u == 0x2029 || u == 0x202F || u == 0x205F || u
        == 0x3000
}

/// The characters without leading and trailing white space (`str::trim`).
pub fn trim_chars(s: &[char]) -> (r: Vec<char>)
    ensures
        r@ == trim_ws(s@),
{
    let mut i: usize = 0;
    assert(s@.skip(0) =~= s@);
    while i < s.len() && is_white_space_char(s[i])
        invariant
            i <= s@.len(),
            trim_start_ws(s@.skip(i as int)) == trim_start_ws(s@),
        decreases s@.len() - i,
    {
        assert(s@.skip(i as int).drop_first() =~= s@.skip(i + 1));
        i += 1;
    }
    let ghost front = s@.skip(i as int);
    assert(trim_start_ws(front) == front);
    let mut j: usize = s.len();
    assert(front.take(front.len() as int) =~= front);
    while j > i && is_white_space_char(s[j - 1])
        invariant
            i <= j <= s@.len(),
            front == s@.skip(i as int),
            trim_end_ws(front.take(j - i)) == trim_end_ws(front),
        decreases j,
    {
        assert(front.take(j - i).drop_last() =~= front.take(j - 1 - i));
        j -= 1;
    }
    let kept = vstd::slice::slice_subrange(s, i, j);
    assert(kept@ =~= front.take(j - i));
    vstd::slice::slice_to_vec(kept)
}

proof fn lemma_trim_start_empty(s: Seq<char>)
    ensures
        trim_start_ws(s).len() == 0 <==> all_white_space(s),
    decreases s.len(),
{
    if s.len() > 0 && is_white_space(s[0]) {
        lemma_trim_start_empty(s.drop_first());
        if all_white_space(s.drop_first()) {
            assert forall|i: int| 0 <= i < s.len() implies is_white_space(#[trigger] s[i]) by {
                if i > 0 {
                    assert(s[i] == s.drop_first()[i - 1]);
                }
            }
        }
        if all_white_space(s) {
            assert forall|i: int| 0 <= i < s.drop_first().len() implies is_white_space(
                #[trigger] s.drop_first()[i],
            ) by {
                assert(s.drop_first()[i] == s[i + 1]);
            }
        }
    } else if s.len() > 0 {
        assert(!is_white_space(s[0]));
    }
}

proof fn lemma_trim_end_keeps_empty(s: Seq<char>)
    ensures
        trim_end_ws(s).len() == 0 <==> all_white_space(s),
    decreases s.len(),
{
    if s.len() > 0 && is_white_space(s.last()) {
        lemma_trim_end_keeps_empty(s.drop_last());
        if all_white_space(s.drop_last()) {
            assert forall|i: int| 0 <= i < s.len() implies is_white_space(#[trigger] s[i]) by {
                if i < s.len() - 1 {
                    assert(s[i] == s.drop_last()[i]);
                }
            }
        }
        if all_white_space(s) {
            assert forall|i: int| 0 <= i < s.drop_last().len() implies is_white_space(
                #[trigger] s.drop_last()[i],
            ) by {
                assert(s.drop_last()[i] == s[i]);
            }
        }
    } else if s.len() > 0 {
        assert(!is_white_space(s[s.len() - 1]));
    }
}

/// Trimming leaves nothing exactly when every character is white space.
pub proof fn lemma_trim_empty_iff_blank(s: Seq<char>)
    ensures
        trim_ws(s).len() == 0 <==> all_white_space(s),
{
    lemma_trim_start_empty(s);
    lemma_trim_end_keeps_empty(trim_start_ws(s));
    lemma_trim_start_all(s);
}

proof fn lemma_trim_start_all(s: Seq<char>)
    ensures
        all_white_space(trim_start_ws(s)) ==> trim_start_ws(s).len() == 0,
    decreases s.len(),
{
    if s.len() > 0 && is_white_space(s[0]) {
        lemma_trim_start_all(s.drop_first());
    } else if s.len() > 0 {
        assert(!is_white_space(trim_start_ws(s)[0]));
    }
}

/// Whether `s` is empty once trimmed (`s.trim().is_empty()`).
pub fn is_blank(s: &str) -> (r: bool)
    ensures
        r == (trim_ws(s@).len() == 0),
        r == all_white_space(s@),
{
    proof {
        lemma_trim_empty_iff_blank(s@);
    }
    let chars = chars_of(s);
    trim_chars(chars.as_slice()).len() == 0
}


/// Unicode lower-casing as `str::to_lowercase` performs it. Its tables are
/// those of the standard library; the result depends on the string alone.
pub uninterp spec fn lowercase(s: Seq<char>) -> Seq<char>;

/// `str::to_lowercase`: the lower-case form of the string. What the
/// mapping is for each character is left to the name `lowercase`.
#[verifier::external_body]
pub(crate) fn str_to_lowercase(s: &str) -> (r: String)
    ensures
        r@ == lowercase(s@),
{
    s.to_lowercase()
}

/// The texts of a list of strings.
pub open spec fn texts(lines: Seq<String>) -> Seq<Seq<char>> {
    lines.map_values(|s: String| s@)
}

/// `str::chars` collected: the characters of the string, in order.
#[verifier::external_body]
pub(crate) fn chars_of(s: &str) -> (r: Vec<char>)
    ensures
        r@ == s@,
{
    s.chars().collect()
}

/// A `String` collected from characters, in order.
#[verifier::external_body]
pub(crate) fn string_from_chars(v: &[char]) -> (r: String)
    ensures
        r@ == v@,
{
    v.iter().collect()
}

pub open spec fn is_high_surrogate(u: u16) -> bool {
    0xD800 <= u && u <= 0xDBFF
}

pub open spec fn is_low_surrogate(u: u16) -> bool {
    0xDC00 <= u && u <= 0xDFFF
}

/// The character that a pair of surrogates encodes.
pub open spec fn surrogate_pair_char(hi: u16, lo: u16) -> char {
    (0x10000 + (hi - 0xD800) * 0x400 + (lo - 0xDC00)) as u32 as char
}

/// UTF-16 decoding in which every unpaired surrogate becomes U+FFFD.
pub open spec fn utf16_lossy(units: Seq<u16>) -> Seq<char>
    decreases units.len(),
{
    if units.len() == 0 {
        Seq::empty()
    } else if is_high_surrogate(units[0]) && units.len() >= 2 && is_low_surrogate(units[1]) {
        seq![surrogate_pair_char(units[0], units[1])] + utf16_lossy(units.skip(2))
    } else if is_high_surrogate(units[0]) || is_low_surrogate(units[0]) {
        seq!['\u{FFFD}'] + utf16_lossy(units.skip(1))
    } else {
        seq![units[0] as u32 as char] + utf16_lossy(units.skip(1))
    }
}

/// `String::from_utf16_lossy`: decodes UTF-16 and replaces each unpaired
/// surrogate with U+FFFD, as its documentation describes.
#[verifier::external_body]
pub(crate) fn string_from_utf16_lossy(units: &[u16]) -> (r: String)
    ensures
        r@ == utf16_lossy(units@),
{
    String::from_utf16_lossy(units)
}

/// What `String::from_utf8_lossy` makes of a byte string (invalid
/// sequences become U+FFFD by the standard library's rule).
pub uninterp spec fn utf8_lossy(bytes: Seq<u8>) -> Seq<char>;

/// `String::from_utf8_lossy`. On valid UTF-8 its result is the decoded
/// text; what it makes of invalid input is left to the name `utf8_lossy`.
#[verifier::external_body]
pub(crate) fn string_from_utf8_lossy(bytes: &[u8]) -> (r: String)
    ensures
        r@ == utf8_lossy(bytes@),
        vstd::utf8::valid_utf8(bytes@) ==> r@ == vstd::utf8::decode_utf8(bytes@),
{
    String::from_utf8_lossy(bytes).into_owned()
}

/// `s` with every leftmost, non-overlapping occurrence of `from` replaced
/// by `to`, scanning from the start (what `str::replace` does).
pub open spec fn replace_all(s: Seq<char>, from: Seq<char>, to: Seq<char>) -> Seq<char>
    decreases s.len(),
{
    if s.len() == 0 || from.len() == 0 {
        s
    } else if from.len() <= s.len() && s.take(from.len() as int) == from {
        to + replace_all(s.skip(from.len() as int), from, to)
    } else {
        seq![s[0]] + replace_all(s.skip(1), from, to)
    }
}

/// `needle` stands in `s` at position `i`.
pub open spec fn occurs_at(s: Seq<char>, i: int, needle: Seq<char>) -> bool {
    0 <= i && i + needle.len() <= s.len() && s.subrange(i, i + needle.len()) == needle
}

/// Whether `needle` stands in `s` at `i`.
pub fn chars_occur_at(s: &[char], i: usize, needle: &[char]) -> (r: bool)
    ensures
        r == occurs_at(s@, i as int, needle@),
{
    if i > s.len() || needle.len() > s.len() - i {
        return false;
    }
    let mut k: usize = 0;
    while k < needle.len()
        invariant
            i + needle.len() <= s.len(),
            k <= needle.len(),
            forall|j: int| 0 <= j < k ==> s@[i + j] == needle@[j],
        decreases needle.len() - k,
    {
        if s[i + k] != needle[k] {
            assert(s@.subrange(i as int, i + needle.len())[k as int] != needle@[k as int]);
            return false;
        }
        k += 1;
    }
    assert(s@.subrange(i as int, i + needle@.len()) =~= needle@);
    true
}

/// The first position at or after `from` where `needle` stands in `s`.
pub open spec fn first_occurrence(s: Seq<char>, needle: Seq<char>, from: int) -> Option<int>
    decreases s.len() + 1 - from,
{
    if from > s.len() || from < 0 {
        None
    } else if occurs_at(s, from, needle) {
        Some(from)
    } else {
        first_occurrence(s, needle, from + 1)
    }
}

proof fn lemma_first_occurrence(s: Seq<char>, needle: Seq<char>, from: int, found: Option<int>)
    requires
        0 <= from,
        match found {
            Some(i) => from <= i && occurs_at(s, i, needle) && forall|j: int|
                from <= j < i ==> !occurs_at(s, j, needle),
            None => forall|j: int| from <= j ==> !occurs_at(s, j, needle),
        },
    ensures
        first_occurrence(s, needle, from) == found,
    decreases s.len() + 1 - from,
{
    if from <= s.len() && !occurs_at(s, from, needle) {
        if found != Some(from) {
            lemma_first_occurrence(s, needle, from + 1, found);
        }
    } else if from > s.len() {
        if let Some(i) = found {
            assert(occurs_at(s, i, needle));
        }
    }
}

/// The first position at or after `from` where `needle` stands in `s`.
pub fn find_chars(s: &[char], needle: &[char], from: usize) -> (r: Option<usize>)
    ensures
        match r {
            Some(i) => from <= i && occurs_at(s@, i as int, needle@) && forall|j: int|
                from <= j < i ==> !occurs_at(s@, j, needle@),
            None => forall|j: int| from <= j ==> !occurs_at(s@, j, needle@),
        },
        match r {
            Some(i) => first_occurrence(s@, needle@, from as int) == Some(i as int),
            None => first_occurrence(s@, needle@, from as int) is None,
        },
{
    let mut i = from;
    loop
        invariant
            from <= i,
            forall|j: int| from <= j < i ==> !occurs_at(s@, j, needle@),
        decreases s.len() + 1 - i,
    {
        if chars_occur_at(s, i, needle) {
            proof {
                lemma_first_occurrence(s@, needle@, from as int, Some(i as int));
            }
            return Some(i);
        }
        if i >= s.len() {
            proof {
                lemma_first_occurrence(s@, needle@, from as int, None);
            }
            return None;
        }
        i += 1;
    }
}

/// `str::replace` on characters: every leftmost, non-overlapping occurrence
/// of `from` is replaced by `to`.
pub fn replace_chars(s: &[char], from: &[char], to: &[char]) -> (r: Vec<char>)
    requires
        from@.len() > 0,
    ensures
        r@ == replace_all(s@, from@, to@),
{
    let mut out: Vec<char> = Vec::new();
    let mut i: usize = 0;
    assert(s@.skip(0) =~= s@);
    while i < s.len()
        invariant
            i <= s.len(),
            from@.len() > 0,
            out@ + replace_all(s@.skip(i as int), from@, to@) == replace_all(s@, from@, to@),
        decreases s.len() - i,
    {
        let ghost rest = s@.skip(i as int);
        if chars_occur_at(s, i, from) {
            assert(rest.take(from@.len() as int) =~= s@.subrange(i as int, i + from@.len()));
            assert(rest.skip(from@.len() as int) =~= s@.skip(i + from@.len()));
            let mut k: usize = 0;
            let ghost out0 = out@;
            while k < to.len()
                invariant
                    k <= to.len(),
                    out@ == out0 + to@.take(k as int),
                decreases to.len() - k,
            {
                out.push(to[k]);
                assert(to@.take(k + 1) =~= to@.take(k as int).push(to@[k as int]));
                k += 1;
            }
            assert(to@.take(to@.len() as int) =~= to@);
            assert(out0 + (to@ + replace_all(rest.skip(from@.len() as int), from@, to@)) =~= out@
                + replace_all(s@.skip(i + from@.len()), from@, to@));
            i = i + from.len();
        } else {
            assert(!(rest.take(from@.len() as int) == from@) || from@.len() > rest.len()) by {
                if from@.len() <= rest.len() && rest.take(from@.len() as int) == from@ {
                    assert(s@.subrange(i as int, i + from@.len()) =~= rest.take(from@.len() as int));
                }
            }
            assert(rest.skip(1) =~= s@.skip(i + 1));
            let ghost out0 = out@;
            out.push(s[i]);
            assert(out0 + (seq![s@[i as int]] + replace_all(s@.skip(i + 1), from@, to@)) =~= out@
                + replace_all(s@.skip(i + 1), from@, to@));
            i = i + 1;
        }
    }
    assert(s@.skip(i as int) =~= Seq::<char>::empty());
    assert(out@ + Seq::<char>::empty() =~= out@);
    out
}

/// `str::replace` through the character helpers.
pub fn replace_str(s: &str, from: &str, to: &str) -> (r: String)
    requires
        from@.len() > 0,
    ensures
        r@ == replace_all(s@, from@, to@),
{
    let sc = chars_of(s);
    let fc = chars_of(from);
    let tc = chars_of(to);
    let out = replace_chars(sc.as_slice(), fc.as_slice(), tc.as_slice());
    string_from_chars(out.as_slice())
}

/// `s` without its trailing NUL characters (`trim_end_matches('\0')`).
pub open spec fn trim_end_nul(s: Seq<char>) -> Seq<char>
    decreases s.len(),
{
    if s.len() > 0 && s.last() == '\0' {
        trim_end_nul(s.drop_last())
    } else {
        s
    }
}

/// Drops the trailing NUL characters of `s`.
pub fn trim_end_nul_chars(s: &[char]) -> (r: Vec<char>)
    ensures
        r@ == trim_end_nul(s@),
{
    let mut n = s.len();
    assert(s@.take(n as int) =~= s@);
    while n > 0 && s[n - 1] == '\0'
        invariant
            n <= s.len(),
            trim_end_nul(s@.take(n as int)) == trim_end_nul(s@),
        decreases n,
    {
        assert(s@.take(n as int).drop_last() =~= s@.take(n - 1));
        n -= 1;
    }
    let mut out: Vec<char> = Vec::new();
    let mut k: usize = 0;
    while k < n
        invariant
            k <= n <= s.len(),
            out@ == s@.take(k as int),
        decreases n - k,
    {
        out.push(s[k]);
        assert(s@.take(k + 1) =~= s@.take(k as int).push(s@[k as int]));
        k += 1;
    }
    out
}

/// The decimal digits of `n`, most significant first.
pub open spec fn decimal(n: nat) -> Seq<char>
    decreases n,
{
    if n < 10 {
        seq![('0' as u32 + n) as char]
    } else {
        decimal(n / 10) + seq![('0' as u32 + n % 10) as char]
    }
}

/// Writes `n` in decimal.
pub fn decimal_chars(n: u64) -> (r: Vec<char>)
    ensures
        r@ == decimal(n as nat),
    decreases n,
{
    let d = (n % 10) as u32;
    let c = char_from_digit(d);
    if n < 10 {
        let mut v = Vec::new();
        v.push(c);
        assert(v@ =~= decimal(n as nat));
        v
    } else {
        let mut v = decimal_chars(n / 10);
        v.push(c);
        v
    }
}

/// The ASCII digit for `d < 10`.
fn char_from_digit(d: u32) -> (c: char)
    requires
        d < 10,
    ensures
        c == ('0' as u32 + d) as char,
{
    match d {
        0 => '0',
        1 => '1',
        2 => '2',
        3 => '3',
        4 => '4',
        5 => '5',
        6 => '6',
        7 => '7',
        8 => '8',
        _ => '9',
    }
}


/// `a` sorts strictly before `b` character by character (code point order,
/// which is also the byte order of their UTF-8 forms, as `str` compares).
pub open spec fn seq_lt(a: Seq<char>, b: Seq<char>) -> bool
    decreases a.len(),
{
    if a.len() == 0 {
        b.len() > 0
    } else if b.len() == 0 {
        false
    } else if a[0] < b[0] {
        true
    } else if a[0] > b[0] {
        false
    } else {
        seq_lt(a.drop_first(), b.drop_first())
    }
}

/// No sequence sorts before itself.
pub proof fn lemma_seq_lt_irreflexive(a: Seq<char>)
    ensures
        !seq_lt(a, a),
    decreases a.len(),
{
    if a.len() > 0 {
        lemma_seq_lt_irreflexive(a.drop_first());
    }
}

/// The character order is transitive.
pub proof fn lemma_seq_lt_transitive(a: Seq<char>, b: Seq<char>, c: Seq<char>)
    requires
        seq_lt(a, b),
        seq_lt(b, c),
    ensures
        seq_lt(a, c),
    decreases a.len(),
{
    if a.len() > 0 && b.len() > 0 && c.len() > 0 && a[0] == b[0] && b[0] == c[0] {
        lemma_seq_lt_transitive(a.drop_first(), b.drop_first(), c.drop_first());
    }
}

/// Of two different sequences, one sorts before the other.
pub proof fn lemma_seq_lt_total(a: Seq<char>, b: Seq<char>)
    ensures
        a == b || seq_lt(a, b) || seq_lt(b, a),
    decreases a.len(),
{
    if a.len() > 0 && b.len() > 0 && a[0] == b[0] {
        lemma_seq_lt_total(a.drop_first(), b.drop_first());
        if a.drop_first() == b.drop_first() {
            assert(a =~= seq![a[0]] + a.drop_first());
            assert(b =~= seq![b[0]] + b.drop_first());
        }
    } else if a.len() == 0 && b.len() == 0 {
        assert(a =~= b);
    } else if a.len() > 0 && b.len() > 0 {
        assert(a[0] != b[0]);
    }
}

/// Whether `a` sorts strictly before `b`.
pub fn chars_lt(a: &[char], b: &[char]) -> (r: bool)
    ensures
        r == seq_lt(a@, b@),
{
    let mut i: usize = 0;
    assert(a@.skip(0) =~= a@ && b@.skip(0) =~= b@);
    while i < a.len() && i < b.len() && a[i] == b[i]
        invariant
            i <= a@.len(),
            i <= b@.len(),
            seq_lt(a@, b@) == seq_lt(a@.skip(i as int), b@.skip(i as int)),
        decreases a@.len() - i,
    {
        proof {
            assert(a@.skip(i as int).drop_first() =~= a@.skip(i + 1));
            assert(b@.skip(i as int).drop_first() =~= b@.skip(i + 1));
        }
        i += 1;
    }
    if i == a.len() {
        i < b.len()
    } else if i == b.len() {
        false
    } else {
        a[i] < b[i]
    }
}

/// Whether `a` and `b` hold the same characters.
pub fn chars_eq(a: &[char], b: &[char]) -> (r: bool)
    ensures
        r == (a@ == b@),
{
    if a.len() != b.len() {
        return false;
    }
    let mut i: usize = 0;
    while i < a.len()
        invariant
            i <= a@.len(),
            a@.len() == b@.len(),
            forall|k: int| 0 <= k < i ==> a@[k] == b@[k],
        decreases a@.len() - i,
    {
        if a[i] != b[i] {
            return false;
        }
        i += 1;
    }
    assert(a@ =~= b@);
    true
}

/// `s` cut at every `c`, as `str::split` cuts it: `n` separators give
/// `n + 1` parts, empty parts included.
pub open spec fn split_on(s: Seq<char>, c: char) -> Seq<Seq<char>>
    decreases s.len(),
{
    if s.len() == 0 {
        seq![Seq::empty()]
    } else {
        let rest = split_on(s.drop_last(), c);
        if s.last() == c {
            rest.push(Seq::empty())
        } else {
            rest.update(rest.len() - 1, rest.last().push(s.last()))
        }
    }
}

/// There is always at least one part.
pub proof fn lemma_split_nonempty(s: Seq<char>, c: char)
    ensures
        split_on(s, c).len() >= 1,
    decreases s.len(),
{
    if s.len() > 0 {
        lemma_split_nonempty(s.drop_last(), c);
    }
}

/// The character sequences of a list of character vectors.
pub open spec fn char_seqs(v: Seq<Vec<char>>) -> Seq<Seq<char>> {
    v.map_values(|x: Vec<char>| x@)
}

/// `s` cut at every `c`.
pub fn split_chars(s: &[char], c: char) -> (r: Vec<Vec<char>>)
    ensures
        char_seqs(r@) == split_on(s@, c),
{
    let mut done: Vec<Vec<char>> = Vec::new();
    let mut cur: Vec<char> = Vec::new();
    let mut i: usize = 0;
    assert(s@.take(0) =~= Seq::<char>::empty());
    assert(char_seqs(done@).push(cur@) =~= split_on(s@.take(0), c));
    while i < s.len()
        invariant
            i <= s@.len(),
            char_seqs(done@).push(cur@) == split_on(s@.take(i as int), c),
        decreases s@.len() - i,
    {
        let ghost before = s@.take(i as int);
        assert(s@.take(i + 1).drop_last() =~= before);
        proof {
            lemma_split_nonempty(before, c);
        }
        let ch = s[i];
        if ch == c {
            let ghost prev = done@;
            let finished = cur;
            done.push(finished);
            cur = Vec::new();
            assert(char_seqs(done@) =~= char_seqs(prev).push(finished@));
            assert(char_seqs(done@).push(cur@) =~= split_on(s@.take(i + 1), c));
        } else {
            let ghost prev_cur = cur@;
            cur.push(ch);
            assert(char_seqs(done@).push(cur@) =~= split_on(s@.take(i + 1), c));
        }
        i += 1;
    }
    assert(s@.take(s@.len() as int) =~= s@);
    let ghost prev = done@;
    done.push(cur);
    assert(char_seqs(done@) =~= char_seqs(prev).push(done@.last()@));
    done
}

} // verus!

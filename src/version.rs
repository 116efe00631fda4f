//! Reading the catalog compiler's version from its human-readable report.
//!
//! The report holds lines such as `short-bundle-version: 26.1`; the version is
//! the text after that key on the first line that starts with it, both the
//! line and the version trimmed of white space.
//!
//! The text is read as UTF-8 bytes; every white-space character is one of the
//! byte sequences that `space_len` lists.
use vstd::prelude::*;
use vstd::string::StringSliceAdditionalSpecFns;
use vstd::utf8::*;

verus! {

/// The single-byte white space: tab, line feed, vertical tab, form feed,
/// carriage return and space.
pub open spec fn is_space(c: u8) -> bool {
    c == 9 || c == 10 || c == 11 || c == 12 || c == 13 || c == 32
}

/// The length of the white-space character encoded at `b[i..]`, or 0 where
/// none starts there. Besides the single-byte ones these are U+0085, U+00A0,
/// U+1680, U+2000 to U+200A, U+2028, U+2029, U+202F, U+205F and U+3000.
pub open spec fn space_len(b: Seq<u8>, i: int) -> int {
    if i < 0 || i >= b.len() {
        0
    } else if is_space(b[i]) {
        1
    } else if i + 1 < b.len() && b[i] == 0xc2 && (b[i + 1] == 0x85 || b[i + 1] == 0xa0) {
        2
    } else if i + 2 < b.len() && {
        ||| b[i] == 0xe1 && b[i + 1] == 0x9a && b[i + 2] == 0x80
        ||| b[i] == 0xe2 && b[i + 1] == 0x80 && (b[i + 2] <= 0x8a || b[i + 2] == 0xa8 || b[i + 2]
            == 0xa9 || b[i + 2] == 0xaf)
        ||| b[i] == 0xe2 && b[i + 1] == 0x81 && b[i + 2] == 0x9f
        ||| b[i] == 0xe3 && b[i + 1] == 0x80 && b[i + 2] == 0x80
    } {
        3
    } else {
        0
    }
}

/// The length of a white-space character that ends at `e` and starts at or
/// after `s`, or 0 where none does.
pub open spec fn space_len_before(b: Seq<u8>, s: int, e: int) -> int {
    if e - 1 >= s && space_len(b, e - 1) == 1 {
        1
    } else if e - 2 >= s && space_len(b, e - 2) == 2 {
        2
    } else if e - 3 >= s && space_len(b, e - 3) == 3 {
        3
    } else {
        0
    }
}

/// The key that introduces the version: `short-bundle-version:`.
pub open spec fn version_key() -> Seq<u8> {
    seq![
        0x73u8, 0x68u8, 0x6fu8, 0x72u8, 0x74u8, 0x2du8, 0x62u8, 0x75u8, 0x6eu8, 0x64u8, 0x6cu8,
        0x65u8, 0x2du8, 0x76u8, 0x65u8, 0x72u8, 0x73u8, 0x69u8, 0x6fu8, 0x6eu8, 0x3au8,
    ]
}

/// The end of the line that starts at `i`: the next line feed, or the end.
pub open spec fn line_end(b: Seq<u8>, i: int) -> int
    decreases b.len() - i,
{
    if i >= b.len() {
        b.len() as int
    } else if b[i] == 10 {
        i
    } else {
        line_end(b, i + 1)
    }
}

/// The start of the first character in `[i, e)` that is not white space,
/// else `i` moved past every white-space character.
pub open spec fn skip_space(b: Seq<u8>, i: int, e: int) -> int
    decreases e - i,
{
    if i < e && space_len(b, i) > 0 && i + space_len(b, i) <= e {
        skip_space(b, i + space_len(b, i), e)
    } else {
        i
    }
}

/// The end of `b[s..e]` once trailing white space is removed.
pub open spec fn trim_end(b: Seq<u8>, s: int, e: int) -> int
    decreases e - s,
{
    if e > s && space_len_before(b, s, e) > 0 {
        trim_end(b, s, e - space_len_before(b, s, e))
    } else {
        e
    }
}

/// Where the version stands in the line that starts at `i`, if that line,
/// trimmed, starts with the key: the rest of the trimmed line, trimmed.
pub open spec fn version_in_line(b: Seq<u8>, i: int) -> Option<(int, int)> {
    let e = line_end(b, i);
    let s = skip_space(b, i, e);
    let t = trim_end(b, s, e);
    if t - s >= version_key().len() && b.subrange(s, s + version_key().len()) == version_key() {
        Some((skip_space(b, s + version_key().len(), t), t))
    } else {
        None
    }
}

/// Where the version stands in the first line at or after `i` that holds one.
pub open spec fn find_version(b: Seq<u8>, i: int) -> Option<(int, int)>
    decreases b.len() - i,
{
    if i < 0 || i >= b.len() {
        None
    } else {
        match version_in_line(b, i) {
            Some(span) => Some(span),
            None => if i <= line_end(b, i) < b.len() {
                find_version(b, line_end(b, i) + 1)
            } else {
                None
            },
        }
    }
}

proof fn lemma_line_end_bounds(b: Seq<u8>, i: int)
    requires
        0 <= i <= b.len(),
    ensures
        i <= line_end(b, i) <= b.len(),
        line_end(b, i) < b.len() ==> b[line_end(b, i)] == 10,
    decreases b.len() - i,
{
    if i < b.len() && b[i] != 10 {
        lemma_line_end_bounds(b, i + 1);
    }
}

/// A white-space character never starts with a continuation byte.
proof fn lemma_space_starts_scalar(b: Seq<u8>, i: int)
    requires
        space_len(b, i) > 0,
    ensures
        !is_continuation_byte(b[i]),
        space_len(b, i) == 1 ==> is_leading_byte_width_1(b[i]),
        space_len(b, i) == 2 ==> is_leading_byte_width_2(b[i]),
        space_len(b, i) == 3 ==> is_leading_byte_width_3(b[i]),
{
}

/// In valid UTF-8, the position after a white-space character that starts on
/// a char boundary is a char boundary too.
proof fn lemma_boundary_after_space(b: Seq<u8>, p: int)
    requires
        valid_utf8(b),
        0 <= p < b.len(),
        is_char_boundary(b, p),
        space_len(b, p) > 0,
    ensures
        is_char_boundary(b, p + space_len(b, p)),
{
    let l = space_len(b, p);
    lemma_space_starts_scalar(b, p);
    valid_utf8_split(b, p);
    let tail = b.subrange(p, b.len() as int);
    assert(tail[0] == b[p]);
    assert(valid_first_scalar(tail) && valid_utf8(pop_first_scalar(tail)));
    assert(length_of_first_scalar(tail) == l);
    if p + l == b.len() {
        is_char_boundary_start_end_of_seq(b);
    } else {
        let rest = pop_first_scalar(tail);
        assert(rest =~= b.subrange(p + l, b.len() as int));
        is_char_boundary_iff_not_is_continuation_byte(rest, 0);
        assert(rest[0] == b[p + l]);
        is_char_boundary_iff_not_is_continuation_byte(b, p + l);
    }
}

proof fn lemma_skip_space(b: Seq<u8>, i: int, e: int)
    requires
        0 <= i <= e <= b.len(),
        valid_utf8(b),
        is_char_boundary(b, i),
    ensures
        i <= skip_space(b, i, e) <= e,
        is_char_boundary(b, skip_space(b, i, e)),
    decreases e - i,
{
    if i < e && space_len(b, i) > 0 && i + space_len(b, i) <= e {
        lemma_boundary_after_space(b, i);
        lemma_skip_space(b, i + space_len(b, i), e);
    }
}

proof fn lemma_trim_end(b: Seq<u8>, s: int, e: int)
    requires
        0 <= s <= e <= b.len(),
    ensures
        s <= trim_end(b, s, e) <= e,
        trim_end(b, s, e) == e || space_len(b, trim_end(b, s, e)) > 0,
    decreases e - s,
{
    if e > s && space_len_before(b, s, e) > 0 {
        lemma_trim_end(b, s, e - space_len_before(b, s, e));
    }
}

/// In valid UTF-8, the position right after an ASCII byte is a char boundary.
proof fn lemma_boundary_after_ascii(b: Seq<u8>, i: int)
    requires
        valid_utf8(b),
        0 <= i < b.len(),
        b[i] < 0x80,
    ensures
        is_char_boundary(b, i + 1),
{
    is_char_boundary_iff_not_is_continuation_byte(b, i);
    valid_utf8_split(b, i);
    let tail = b.subrange(i, b.len() as int);
    if i + 1 == b.len() {
        is_char_boundary_start_end_of_seq(b);
    } else {
        assert(valid_first_scalar(tail) && valid_utf8(pop_first_scalar(tail)));
        assert(length_of_first_scalar(tail) == 1);
        let rest = pop_first_scalar(tail);
        assert(rest =~= b.subrange(i + 1, b.len() as int));
        is_char_boundary_iff_not_is_continuation_byte(rest, 0);
        assert(rest[0] == b[i + 1]);
        is_char_boundary_iff_not_is_continuation_byte(b, i + 1);
    }
}

fn line_end_exec(b: &[u8], i: usize) -> (r: usize)
    requires
        i <= b@.len(),
    ensures
        r == line_end(b@, i as int),
{
    let mut j: usize = i;
    while j < b.len() && b[j] != 10
        invariant
            i <= j <= b@.len(),
            line_end(b@, i as int) == line_end(b@, j as int),
        decreases b@.len() - j,
    {
        j = j + 1;
    }
    j
}

fn is_space_byte(c: u8) -> (r: bool)
    ensures
        r == is_space(c),
{
    c == 9 || c == 10 || c == 11 || c == 12 || c == 13 || c == 32
}

fn space_len_exec(b: &[u8], i: usize) -> (r: usize)
    requires
        i < b@.len(),
    ensures
        r as int == space_len(b@, i as int),
{
    let n = b.len();
    if is_space_byte(b[i]) {
        1
    } else if n - i > 1 && b[i] == 0xc2 && (b[i + 1] == 0x85 || b[i + 1] == 0xa0) {
        2
    } else if n - i > 2 && ((b[i] == 0xe1 && b[i + 1] == 0x9a && b[i + 2] == 0x80) || (b[i]
        == 0xe2 && b[i + 1] == 0x80 && (b[i + 2] <= 0x8a || b[i + 2] == 0xa8 || b[i + 2] == 0xa9
        || b[i + 2] == 0xaf)) || (b[i] == 0xe2 && b[i + 1] == 0x81 && b[i + 2] == 0x9f) || (b[i]
        == 0xe3 && b[i + 1] == 0x80 && b[i + 2] == 0x80)) {
        3
    } else {
        0
    }
}

fn space_len_before_exec(b: &[u8], s: usize, e: usize) -> (r: usize)
    requires
        s <= e <= b@.len(),
    ensures
        r as int == space_len_before(b@, s as int, e as int),
{
    if e - s >= 1 && space_len_exec(b, e - 1) == 1 {
        1
    } else if e - s >= 2 && space_len_exec(b, e - 2) == 2 {
        2
    } else if e - s >= 3 && space_len_exec(b, e - 3) == 3 {
        3
    } else {
        0
    }
}

fn skip_space_exec(b: &[u8], i: usize, e: usize) -> (r: usize)
    requires
        i <= e <= b@.len(),
    ensures
        r == skip_space(b@, i as int, e as int),
{
    let mut j: usize = i;
    while j < e
        invariant
            i <= j <= e <= b@.len(),
            skip_space(b@, i as int, e as int) == skip_space(b@, j as int, e as int),
        decreases e - j,
    {
        let l = space_len_exec(b, j);
        if l == 0 || l > e - j {
            return j;
        }
        j = j + l;
    }
    j
}

fn trim_end_exec(b: &[u8], s: usize, e: usize) -> (r: usize)
    requires
        s <= e <= b@.len(),
    ensures
        r == trim_end(b@, s as int, e as int),
{
    let mut j: usize = e;
    while j > s
        invariant
            s <= j <= e <= b@.len(),
            trim_end(b@, s as int, e as int) == trim_end(b@, s as int, j as int),
        decreases j - s,
    {
        let l = space_len_before_exec(b, s, j);
        if l == 0 {
            return j;
        }
        j = j - l;
    }
    j
}

/// Whether `b[s..t]` starts with the version key.
fn starts_with_key(b: &[u8], s: usize, t: usize) -> (r: bool)
    requires
        s <= t <= b@.len(),
    ensures
        r == (t - s >= version_key().len() && b@.subrange(s as int, s + version_key().len())
            == version_key()),
{
    let key: [u8; 21] = [
        0x73u8, 0x68u8, 0x6fu8, 0x72u8, 0x74u8, 0x2du8, 0x62u8, 0x75u8, 0x6eu8, 0x64u8, 0x6cu8,
        0x65u8, 0x2du8, 0x76u8, 0x65u8, 0x72u8, 0x73u8, 0x69u8, 0x6fu8, 0x6eu8, 0x3au8,
    ];
    assert(key@ =~= version_key());
    if t - s < 21 {
        return false;
    }
    let mut k: usize = 0;
    while k < 21
        invariant
            s + 21 <= t <= b@.len(),
            key@ == version_key(),
            k <= 21,
            forall|m: int| 0 <= m < k ==> b@[s + m] == key@[m],
        decreases 21 - k,
    {
        if b[s + k] != key[k] {
            assert(b@.subrange(s as int, s + 21)[k as int] != version_key()[k as int]);
            return false;
        }
        k = k + 1;
    }
    assert(b@.subrange(s as int, s + 21) =~= version_key());
    true
}

/// The version that the catalog compiler reports: the text after
/// `short-bundle-version:` on the first line that starts with that key, with
/// the line and the text trimmed of white space. `None` when no line does.
pub fn parse_actool_version(output: &str) -> (r: Option<String>)
    ensures
        match find_version(output.spec_bytes(), 0) {
            None => r is None,
            Some((a, t)) => r matches Some(v) && encode_utf8(v@) == output.spec_bytes().subrange(a, t),
        },
{
    let b = output.as_bytes();
    let ghost bs = output.spec_bytes();
    proof {
        encode_utf8_valid_utf8(output@);
        is_char_boundary_start_end_of_seq(bs);
    }
    let n = b.len();
    let mut i: usize = 0;
    while i < n
        invariant
            n == bs.len(),
            bs == output.spec_bytes(),
            b@ == bs,
            valid_utf8(bs),
            i <= n,
            is_char_boundary(bs, i as int),
            find_version(bs, 0) == find_version(bs, i as int),
        decreases n - i,
    {
        let e = line_end_exec(b, i);
        proof {
            lemma_line_end_bounds(bs, i as int);
        }
        let s = skip_space_exec(b, i, e);
        proof {
            lemma_skip_space(bs, i as int, e as int);
        }
        let t = trim_end_exec(b, s, e);
        proof {
            lemma_trim_end(bs, s as int, e as int);
        }
        if starts_with_key(b, s, t) {
            proof {
                assert(bs.subrange(s as int, s + 21)[20] == bs[s + 20]);
                lemma_boundary_after_ascii(bs, s + 20);
            }
            let a = skip_space_exec(b, s + 21, t);
            proof {
                lemma_skip_space(bs, s + 21, t as int);
            }
            let (_, tail) = output.split_at(a);
            let ghost tb = tail.spec_bytes();
            proof {
                encode_utf8_valid_utf8(tail@);
                assert(tb =~= bs.subrange(a as int, n as int));
                if t == n {
                    is_char_boundary_start_end_of_seq(tb);
                } else if t == a {
                } else {
                    if t < e {
                        lemma_space_starts_scalar(bs, t as int);
                    } else {
                        assert(bs[t as int] == 10);
                    }
                    assert(!is_continuation_byte(bs[t as int]));
                    assert(tb[t - a] == bs[t as int]);
                    is_char_boundary_iff_not_is_continuation_byte(tb, t - a);
                }
            }
            let (version, _) = tail.split_at(t - a);
            proof {
                assert(version.spec_bytes() =~= bs.subrange(a as int, t as int));
            }
            return Some(version.to_owned());
        }
        if e >= n {
            proof {
                assert(find_version(bs, e + 1) is None);
            }
            return None;
        }
        proof {
            lemma_boundary_after_ascii(bs, e as int);
        }
        i = e + 1;
    }
    None
}

/// The end of the major component: the first `.`, or the end.
pub open spec fn major_end(b: Seq<u8>, i: int) -> int
    decreases b.len() - i,
{
    if i >= b.len() {
        b.len() as int
    } else if b[i] == 0x2e {
        i
    } else {
        major_end(b, i + 1)
    }
}

pub open spec fn is_digit(c: u8) -> bool {
    0x30 <= c <= 0x39
}

/// The value of the decimal digits `d`.
pub open spec fn decimal_value(d: Seq<u8>) -> int
    decreases d.len(),
{
    if d.len() == 0 {
        0
    } else {
        decimal_value(d.drop_last()) * 10 + (d.last() - 0x30)
    }
}

/// The digits of an unsigned decimal: `d` itself, or `d` without a leading `+`.
pub open spec fn unsigned_digits(d: Seq<u8>) -> Seq<u8> {
    if d.len() > 0 && d[0] == 0x2b {
        d.drop_first()
    } else {
        d
    }
}

/// The major version: the text before the first `.` read as a `u32` (an
/// optional `+`, then one or more decimal digits, of value at most
/// `u32::MAX`).
pub open spec fn major_version_of(b: Seq<u8>) -> Option<u32> {
    let d = unsigned_digits(b.subrange(0, major_end(b, 0)));
    if d.len() > 0 && (forall|k: int| 0 <= k < d.len() ==> is_digit(#[trigger] d[k]))
        && decimal_value(d) <= u32::MAX {
        Some(decimal_value(d) as u32)
    } else {
        None
    }
}

proof fn lemma_major_end(b: Seq<u8>, i: int)
    requires
        0 <= i <= b.len(),
    ensures
        i <= major_end(b, i) <= b.len(),
    decreases b.len() - i,
{
    if i < b.len() && b[i] != 0x2e {
        lemma_major_end(b, i + 1);
    }
}

proof fn lemma_decimal_value_nonneg(d: Seq<u8>)
    requires
        forall|k: int| 0 <= k < d.len() ==> is_digit(#[trigger] d[k]),
    ensures
        decimal_value(d) >= 0,
    decreases d.len(),
{
    if d.len() > 0 {
        lemma_decimal_value_nonneg(d.drop_last());
    }
}

/// The major component of a version such as `26.1`, as a number.
pub fn actool_major_version(version: &str) -> (r: Option<u32>)
    ensures
        r == major_version_of(version.spec_bytes()),
{
    let b = version.as_bytes();
    let ghost bs = b@;
    let n = b.len();
    let mut e: usize = 0;
    while e < n && b[e] != 0x2e
        invariant
            n == bs.len(),
            b@ == bs,
            e <= n,
            major_end(bs, 0) == major_end(bs, e as int),
        decreases n - e,
    {
        e = e + 1;
    }
    let ghost whole = bs.subrange(0, e as int);
    proof {
        assert(major_end(bs, e as int) == e as int);
    }
    let mut start: usize = 0;
    if e > 0 && b[0] == 0x2b {
        start = 1;
    }
    let ghost d = unsigned_digits(whole);
    proof {
        assert(d =~= bs.subrange(start as int, e as int));
    }
    if start == e {
        return None;
    }
    let mut value: u32 = 0;
    let mut k: usize = start;
    while k < e
        invariant
            b@ == bs,
            bs == version.spec_bytes(),
            e as int == major_end(bs, 0),
            d == unsigned_digits(bs.subrange(0, e as int)),
            start <= k <= e <= n == bs.len(),
            d == bs.subrange(start as int, e as int),
            forall|m: int| 0 <= m < k - start ==> is_digit(#[trigger] d[m]),
            value as int == decimal_value(d.subrange(0, k - start)),
        decreases e - k,
    {
        let c = b[k];
        if c < 0x30 || c > 0x39 {
            proof {
                assert(d[k - start] == c);
                assert(!is_digit(d[k - start]));
            }
            return None;
        }
        let ghost prefix = d.subrange(0, k - start + 1);
        proof {
            assert(prefix.drop_last() =~= d.subrange(0, k - start));
            assert(prefix.last() == c);
            lemma_decimal_value_nonneg(prefix);
            assert(forall|m: int| 0 <= m < k - start + 1 ==> is_digit(#[trigger] d[m]));
        }
        if value > 429496729 || (value == 429496729 && c > 0x35) {
            proof {
                assert(decimal_value(prefix) > u32::MAX);
                lemma_prefix_value_grows(d, k - start + 1, d.len() as int);
                assert(d.subrange(0, d.len() as int) =~= d);
            }
            return None;
        }
        value = value * 10 + (c - 0x30) as u32;
        k = k + 1;
    }
    proof {
        assert(d.subrange(0, d.len() as int) =~= d);
    }
    Some(value)
}

/// Appending digits never makes a decimal smaller.
proof fn lemma_prefix_value_grows(d: Seq<u8>, i: int, j: int)
    requires
        0 <= i <= j <= d.len(),
    ensures
        decimal_value(d.subrange(0, j)) >= decimal_value(d.subrange(0, i)) || exists|m: int|
            0 <= m < j && !is_digit(d[m]),
    decreases j - i,
{
    if i < j {
        lemma_prefix_value_grows(d, i, j - 1);
        let p = d.subrange(0, j);
        assert(p.drop_last() =~= d.subrange(0, j - 1));
        if forall|m: int| 0 <= m < j ==> is_digit(d[m]) {
            assert(forall|m: int| 0 <= m < j - 1 ==> is_digit(#[trigger] p.drop_last()[m]));
            lemma_decimal_value_nonneg(p.drop_last());
            assert(is_digit(d[j - 1]));
        }
    }
}

/// The oldest catalog compiler whose output the bundle accepts.
pub const MIN_ACTOOL_MAJOR: u32 = 26;

/// Whether a catalog compiler that reported `version` is recent enough: its
/// major version reads as a number of at least 26. A missing or unreadable
/// version is not.
pub fn actool_version_supported(version: Option<&str>) -> (r: bool)
    ensures
        r == (version matches Some(v) && major_version_of(v.spec_bytes()) matches Some(m) && m
            >= MIN_ACTOOL_MAJOR),
{
    match version {
        Some(v) => match actool_major_version(v) {
            Some(m) => m >= MIN_ACTOOL_MAJOR,
            None => false,
        },
        None => false,
    }
}

} // verus!

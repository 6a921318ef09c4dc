//! `war3map.wts` — TRIGSTR string table.
use crate::text::{char_vec, lossy_string, utf8_lossy};
use crate::error::Error;
use std::collections::HashMap;
use vstd::prelude::*;
use vstd::string::StringSliceAdditionalSpecFns;

verus! {

broadcast use vstd::std_specs::hash::group_hash_axioms;

/// `b` is ASCII whitespace in the sense of `u8::is_ascii_whitespace`.
pub open spec fn ascii_ws(b: u8) -> bool {
    b == 0x20 || b == 0x09 || b == 0x0A || b == 0x0C || b == 0x0D
}

pub open spec fn ascii_digit(b: u8) -> bool {
    0x30 <= b <= 0x39
}

/// The bytes of the keyword `STRING`.
pub open spec fn keyword() -> Seq<u8> {
    seq![0x53u8, 0x54u8, 0x52u8, 0x49u8, 0x4Eu8, 0x47u8]
}

/// The UTF-8 encoding of the byte order mark U+FEFF.
pub open spec fn bom() -> Seq<u8> {
    seq![0xEFu8, 0xBBu8, 0xBFu8]
}

/// `STRING` starts a record at `k` when a search that began at `from` finds
/// it there: at the search start or right after a line break, and followed by
/// whitespace, a digit, or the end of the text.
pub open spec fn keyword_accepted(t: Seq<u8>, from: int, k: int) -> bool {
    &&& k + 6 <= t.len()
    &&& t.subrange(k, k + 6) == keyword()
    &&& (k == from || t[k - 1] == 0x0A || t[k - 1] == 0x0D)
    &&& (k + 6 >= t.len() || ascii_ws(t[k + 6]) || ascii_digit(t[k + 6]))
}

/// The first accepted keyword at or after `k` for a search begun at `from`,
/// or -1.
pub open spec fn find_keyword(t: Seq<u8>, from: int, k: int) -> int
    decreases t.len() - k,
{
    if k >= t.len() {
        -1
    } else if keyword_accepted(t, from, k) {
        k
    } else {
        find_keyword(t, from, k + 1)
    }
}

/// The first index at or after `i` that is not a space or a tab.
pub open spec fn skip_blanks(t: Seq<u8>, i: int) -> int
    decreases t.len() - i,
{
    if i < t.len() && (t[i] == 0x20 || t[i] == 0x09) {
        skip_blanks(t, i + 1)
    } else {
        i
    }
}

/// The first index at or after `i` that is not an ASCII digit.
pub open spec fn digits_end(t: Seq<u8>, i: int) -> int
    decreases t.len() - i,
{
    if i < t.len() && ascii_digit(t[i]) {
        digits_end(t, i + 1)
    } else {
        i
    }
}

/// The first index at or after `i` holding `b`, or the length of `t`.
pub open spec fn find_byte(t: Seq<u8>, i: int, b: u8) -> int
    decreases t.len() - i,
{
    if i >= t.len() {
        t.len() as int
    } else if t[i] == b {
        i
    } else {
        find_byte(t, i + 1, b)
    }
}

/// Past an optional `\r` and then an optional `\n` at `i`.
pub open spec fn body_start(t: Seq<u8>, i: int) -> int {
    let i1 = if i < t.len() && t[i] == 0x0D { i + 1 } else { i };
    if i1 < t.len() && t[i1] == 0x0A { i1 + 1 } else { i1 }
}

/// A body without the single line break that precedes its closing brace.
pub open spec fn trim_body(b: Seq<u8>) -> Seq<u8> {
    if b.len() > 0 && b.last() == 0x0A {
        let c = b.drop_last();
        if c.len() > 0 && c.last() == 0x0D { c.drop_last() } else { c }
    } else {
        b
    }
}

/// The value of a run of ASCII digits.
pub open spec fn decimal_value(d: Seq<u8>) -> nat
    decreases d.len(),
{
    if d.len() == 0 {
        0
    } else {
        decimal_value(d.drop_last()) * 10 + (d.last() - 0x30) as nat
    }
}

/// A run of ASCII digits read as an `i32`: none when empty or too large.
pub open spec fn decimal_i32(d: Seq<u8>) -> Option<i32> {
    if d.len() == 0 || decimal_value(d) > i32::MAX {
        None
    } else {
        Some(decimal_value(d) as i32)
    }
}

pub proof fn lemma_scan_bounds(t: Seq<u8>, i: int)
    requires
        0 <= i <= t.len(),
    ensures
        i <= skip_blanks(t, i) <= t.len(),
        i <= digits_end(t, i) <= t.len(),
    decreases t.len() - i,
{
    if i < t.len() {
        lemma_scan_bounds(t, i + 1);
    }
}

pub proof fn lemma_find_byte(t: Seq<u8>, i: int, b: u8)
    requires
        0 <= i <= t.len(),
    ensures
        i <= find_byte(t, i, b) <= t.len(),
        forall|k: int| i <= k < find_byte(t, i, b) ==> t[k] != b,
        find_byte(t, i, b) < t.len() ==> t[find_byte(t, i, b)] == b,
    decreases t.len() - i,
{
    if i < t.len() && t[i] != b {
        lemma_find_byte(t, i + 1, b);
    }
}

pub proof fn lemma_find_keyword(t: Seq<u8>, from: int, k: int)
    requires
        0 <= from <= k,
    ensures
        find_keyword(t, from, k) == -1 || (k <= find_keyword(t, from, k) && keyword_accepted(t, from, find_keyword(t, from, k))),
        forall|j: int| k <= j < t.len() && j < find_keyword(t, from, k) ==> !keyword_accepted(t, from, j),
        find_keyword(t, from, k) == -1 ==> forall|j: int| k <= j < t.len() ==> !keyword_accepted(t, from, j),
    decreases t.len() - k,
{
    if k < t.len() && !keyword_accepted(t, from, k) {
        lemma_find_keyword(t, from, k + 1);
    }
}

/// The string table a scan from `i` adds to `m`, following the parser's
/// rules: find the next `STRING` keyword, read its id, skip to `{`, and take
/// everything up to the next `}` as the body. A keyword without a readable id
/// is skipped; a keyword with no `{` after it ends the table.
pub open spec fn wts_scan(t: Seq<u8>, i: int, m: Map<i32, Seq<char>>) -> Map<i32, Seq<char>>
    decreases t.len() - i,
{
    if i < 0 || i >= t.len() {
        m
    } else {
        let k = find_keyword(t, i, i);
        if k < i {
            m
        } else {
            let j = skip_blanks(t, k + 6);
            let d = digits_end(t, j);
            proof {
                if k + 6 <= t.len() {
                    lemma_scan_bounds(t, k + 6);
                    lemma_scan_bounds(t, j);
                }
            }
            if k + 6 > t.len() {
                m
            } else if d == j {
                wts_scan(t, d, m)
            } else {
                match decimal_i32(t.subrange(j, d)) {
                    None => wts_scan(t, d, m),
                    Some(id) => {
                        let b = find_byte(t, d, 0x7Bu8);
                        if b >= t.len() {
                            m
                        } else {
                            let s = body_start(t, b + 1);
                            let e = find_byte(t, s, 0x7Du8);
                            proof {
                                lemma_scan_bounds(t, d);
                                lemma_find_byte(t, d, 0x7Bu8);
                                lemma_find_byte(t, s, 0x7Du8);
                            }
                            let value = utf8_lossy(trim_body(t.subrange(s, e)));
                            let next = if e < t.len() { e + 1 } else { t.len() as int };
                            wts_scan(t, next, m.insert(id, value))
                        }
                    },
                }
            }
        }
    }
}

/// The text a WTS buffer holds once a leading byte order mark is dropped.
pub open spec fn wts_text(bytes: Seq<u8>) -> Seq<u8> {
    if bytes.len() >= 3 && bytes.subrange(0, 3) == bom() {
        bytes.skip(3)
    } else {
        bytes
    }
}

/// The string table parsed from the UTF-8 bytes of a WTS file.
pub open spec fn spec_parse_wts(bytes: Seq<u8>) -> Map<i32, Seq<char>> {
    wts_scan(wts_text(bytes), 0, Map::empty())
}

/// The views of the strings a map holds.
pub open spec fn string_views(m: Map<i32, String>) -> Map<i32, Seq<char>> {
    m.map_values(|s: String| s@)
}

/// String table parsed from `war3map.wts`.
#[derive(Debug, Clone)]
pub struct War3MapWts {
    pub string_map: HashMap<i32, String>,
}

impl View for War3MapWts {
    type V = Map<i32, Seq<char>>;

    open spec fn view(&self) -> Map<i32, Seq<char>> {
        string_views(self.string_map@)
    }
}

/// Index of the first accepted `STRING` keyword at or after `from`.
fn find_string_keyword(t: &[u8], from: usize) -> (res: Option<usize>)
    requires
        from <= t@.len(),
    ensures
        match res {
            Some(k) => find_keyword(t@, from as int, from as int) == k,
            None => find_keyword(t@, from as int, from as int) == -1,
        },
{
    let len = t.len();
    let mut k = from;
    proof {
        lemma_find_keyword(t@, from as int, from as int);
    }
    while k < len
        invariant
            len == t@.len(),
            from <= k <= len,
            find_keyword(t@, from as int, from as int) == find_keyword(t@, from as int, k as int),
        decreases len - k,
    {
        if matches_keyword_at(t, k) {
            let after = k + 6;
            let ok_before = k == from || t[k - 1] == 0x0A || t[k - 1] == 0x0D;
            let ok_after = after >= len || is_ascii_whitespace(t[after]) || (t[after] >= 0x30 && t[after] <= 0x39);
            if ok_before && ok_after {
                return Some(k);
            }
        }
        k += 1;
    }
    None
}

fn is_ascii_whitespace(b: u8) -> (r: bool)
    ensures
        r == ascii_ws(b),
{
    b == 0x20 || b == 0x09 || b == 0x0A || b == 0x0C || b == 0x0D
}

/// Whether `STRING` occurs at `i`.
fn matches_keyword_at(bytes: &[u8], i: usize) -> (r: bool)
    requires
        i <= bytes@.len(),
    ensures
        r == (i + 6 <= bytes@.len() && bytes@.subrange(i as int, i + 6) == keyword()),
{
    if bytes.len() - i < 6 {
        return false;
    }
    let r = bytes[i] == 0x53 && bytes[i + 1] == 0x54 && bytes[i + 2] == 0x52 && bytes[i + 3] == 0x49
        && bytes[i + 4] == 0x4E && bytes[i + 5] == 0x47;
    if r {
        assert(bytes@.subrange(i as int, i + 6) =~= keyword());
    } else {
        assert(bytes@.subrange(i as int, i + 6) != keyword()) by {
            if bytes@.subrange(i as int, i + 6) == keyword() {
                assert(bytes@.subrange(i as int, i + 6)[0] == bytes@[i as int]);
                assert(bytes@.subrange(i as int, i + 6)[1] == bytes@[i + 1]);
                assert(bytes@.subrange(i as int, i + 6)[2] == bytes@[i + 2]);
                assert(bytes@.subrange(i as int, i + 6)[3] == bytes@[i + 3]);
                assert(bytes@.subrange(i as int, i + 6)[4] == bytes@[i + 4]);
                assert(bytes@.subrange(i as int, i + 6)[5] == bytes@[i + 5]);
            }
        }
    }
    r
}

fn skip_ws_inline(bytes: &[u8], i: &mut usize)
    requires
        *old(i) <= bytes@.len(),
    ensures
        *final(i) == skip_blanks(bytes@, *old(i) as int),
{
    while *i < bytes.len() && (bytes[*i] == 0x20 || bytes[*i] == 0x09)
        invariant
            *i <= bytes@.len(),
            skip_blanks(bytes@, *old(i) as int) == skip_blanks(bytes@, *i as int),
        decreases bytes@.len() - *i,
    {
        *i += 1;
    }
}

fn skip_digits(bytes: &[u8], i: &mut usize)
    requires
        *old(i) <= bytes@.len(),
    ensures
        *final(i) == digits_end(bytes@, *old(i) as int),
{
    while *i < bytes.len() && bytes[*i] >= 0x30 && bytes[*i] <= 0x39
        invariant
            *i <= bytes@.len(),
            digits_end(bytes@, *old(i) as int) == digits_end(bytes@, *i as int),
        decreases bytes@.len() - *i,
    {
        *i += 1;
    }
}

/// Advance `i` to the next `b`; false when there is none.
fn skip_until(bytes: &[u8], i: &mut usize, b: u8) -> (found: bool)
    requires
        *old(i) <= bytes@.len(),
    ensures
        *final(i) == find_byte(bytes@, *old(i) as int, b),
        found == (*final(i) < bytes@.len()),
{
    while *i < bytes.len()
        invariant
            *i <= bytes@.len(),
            find_byte(bytes@, *old(i) as int, b) == find_byte(bytes@, *i as int, b),
        decreases bytes@.len() - *i,
    {
        if bytes[*i] == b {
            return true;
        }
        *i += 1;
    }
    false
}

/// Advance `i` to the next `{`; false when there is none.
fn skip_until_brace(bytes: &[u8], i: &mut usize) -> (found: bool)
    requires
        *old(i) <= bytes@.len(),
    ensures
        *final(i) == find_byte(bytes@, *old(i) as int, 0x7Bu8),
        found == (*final(i) < bytes@.len()),
{
    skip_until(bytes, i, 0x7B)
}

/// The body after a `{` at `i - 1`, up to the next `}`, which is consumed.
fn read_brace_body<'a>(bytes: &'a [u8], i: &mut usize) -> (body: &'a [u8])
    requires
        *old(i) <= bytes@.len(),
    ensures
        ({
            let s = body_start(bytes@, *old(i) as int);
            let e = find_byte(bytes@, s, 0x7Du8);
            &&& body@ == bytes@.subrange(s, e)
            &&& *final(i) == (if e < bytes@.len() { e + 1 } else { bytes@.len() as int })
        }),
{
    if *i < bytes.len() && bytes[*i] == 0x0D {
        *i += 1;
    }
    if *i < bytes.len() && bytes[*i] == 0x0A {
        *i += 1;
    }
    let start = *i;
    proof {
        lemma_find_byte(bytes@, start as int, 0x7Du8);
    }
    if skip_until(bytes, i, 0x7D) {
        let body = &bytes[start..*i];
        *i += 1;
        body
    } else {
        &bytes[start..bytes.len()]
    }
}

/// Trim the single line break that precedes `}`.
fn trim_wts_body(body: &[u8]) -> (t: &[u8])
    ensures
        t@ == trim_body(body@),
{
    let n = body.len();
    if n > 0 && body[n - 1] == 0x0A {
        if n > 1 && body[n - 2] == 0x0D {
            &body[0..n - 2]
        } else {
            &body[0..n - 1]
        }
    } else {
        body
    }
}

/// Read a run of ASCII digits as an `i32`.
fn parse_decimal(d: &[u8]) -> (r: Option<i32>)
    requires
        forall|k: int| 0 <= k < d@.len() ==> ascii_digit(#[trigger] d@[k]),
    ensures
        r == decimal_i32(d@),
{
    if d.len() == 0 {
        return None;
    }
    let mut value: i64 = 0;
    let mut k: usize = 0;
    while k < d.len()
        invariant
            0 <= k <= d@.len(),
            forall|j: int| 0 <= j < d@.len() ==> ascii_digit(#[trigger] d@[j]),
            value == decimal_value(d@.subrange(0, k as int)),
            value <= i32::MAX,
        decreases d@.len() - k,
    {
        let digit = (d[k] - 0x30) as i64;
        assert(d@.subrange(0, k + 1).drop_last() =~= d@.subrange(0, k as int));
        if value > (i32::MAX as i64 - digit) / 10 {
            proof {
                lemma_decimal_prefix_monotone(d@, k + 1);
            }
            return None;
        }
        value = value * 10 + digit;
        k += 1;
    }
    assert(d@.subrange(0, d@.len() as int) =~= d@);
    Some(value as i32)
}

/// A longer run of digits is worth at least as much as its prefix.
proof fn lemma_decimal_prefix_monotone(d: Seq<u8>, k: int)
    requires
        0 <= k <= d.len(),
        forall|j: int| 0 <= j < d.len() ==> ascii_digit(#[trigger] d[j]),
    ensures
        decimal_value(d) >= decimal_value(d.subrange(0, k)),
    decreases d.len() - k,
{
    if k < d.len() {
        lemma_decimal_prefix_monotone(d, k + 1);
        assert(d.subrange(0, k + 1).drop_last() =~= d.subrange(0, k));
        assert(decimal_value(d.subrange(0, k + 1)) >= decimal_value(d.subrange(0, k)));
    } else {
        assert(d.subrange(0, k) =~= d);
    }
}

impl War3MapWts {
    /// Parse a WTS text buffer.
    ///
    /// Handles World Editor quirks:
    /// - optional UTF-8 BOM
    /// - `//` comment lines between `STRING id` and `{`
    /// - both `\r\n` and `\n` line endings
    /// - multi-line bodies
    ///
    /// Never fails: text that holds no record yields an empty table.
    pub fn parse(buffer: &str) -> (res: Result<Self, Error>)
        ensures
            res is Ok,
            res->Ok_0@ == spec_parse_wts(buffer.spec_bytes()),
            forall|id: i32| #[trigger] res->Ok_0@.contains_key(id) ==> !res->Ok_0@[id].contains('}'),
    {
        let all = buffer.as_bytes();
        let bytes: &[u8] = if all.len() >= 3 && all[0] == 0xEF && all[1] == 0xBB && all[2] == 0xBF {
            assert(all@.subrange(0, 3) =~= bom());
            &all[3..all.len()]
        } else {
            assert(all@.len() >= 3 ==> all@.subrange(0, 3) != bom()) by {
                if all@.len() >= 3 && all@.subrange(0, 3) == bom() {
                    assert(all@.subrange(0, 3)[0] == all@[0]);
                    assert(all@.subrange(0, 3)[1] == all@[1]);
                    assert(all@.subrange(0, 3)[2] == all@[2]);
                }
            }
            all
        };
        assert(bytes@ =~= wts_text(all@));
        let ghost t = bytes@;
        let mut string_map: HashMap<i32, String> = HashMap::new();
        let mut i: usize = 0;
        assert(string_views(string_map@) =~= Map::<i32, Seq<char>>::empty());

        while i < bytes.len()
            invariant_except_break
                wts_scan(t, 0, Map::empty()) == wts_scan(t, i as int, string_views(string_map@)),
            invariant
                t == bytes@,
                i <= t.len(),
                forall|id: i32| #[trigger] string_map@.contains_key(id) ==> !string_map@[id]@.contains('}'),
            ensures
                wts_scan(t, 0, Map::empty()) == string_views(string_map@),
            decreases t.len() - i,
        {
            let ghost m = string_views(string_map@);
            let ghost i0 = i as int;
            proof {
                lemma_find_keyword(t, i0, i0);
            }
            let k = match find_string_keyword(bytes, i) {
                Some(k) => k,
                None => break,
            };
            proof {
                lemma_scan_bounds(t, k + 6);
            }
            i = k + 6;
            skip_ws_inline(bytes, &mut i);
            let id_start = i;
            proof {
                lemma_scan_bounds(t, id_start as int);
            }
            skip_digits(bytes, &mut i);
            if id_start == i {
                continue;
            }
            proof {
                assert forall|j: int| 0 <= j < t.subrange(id_start as int, i as int).len() implies ascii_digit(
                    #[trigger] t.subrange(id_start as int, i as int)[j],
                ) by {
                    lemma_digits_run(t, id_start as int, id_start + j);
                }
            }
            let id = match parse_decimal(&bytes[id_start..i]) {
                Some(id) => id,
                None => continue,
            };
            let ghost d = i as int;
            proof {
                lemma_find_byte(t, d, 0x7Bu8);
            }
            if !skip_until_brace(bytes, &mut i) {
                break;
            }
            i += 1;
            let body = read_brace_body(bytes, &mut i);
            proof {
                lemma_find_byte(t, body_start(t, find_byte(t, d, 0x7Bu8) + 1), 0x7Du8);
            }
            let trimmed = trim_wts_body(body);
            let value = lossy_string(trimmed);
            proof {
                let s0 = body_start(t, find_byte(t, d, 0x7Bu8) + 1);
                assert forall|j: int| 0 <= j < trimmed@.len() implies trimmed@[j] != 0x7Du8 by {
                    assert(trimmed@[j] == body@[j]);
                    assert(body@[j] == t[s0 + j]);
                }
                if value@.contains('}') {
                    let c = choose|c: int| 0 <= c < value@.len() && value@[c] == '}';
                    assert((value@[c] as u32) < 0x80);
                    let k = choose|k: int| 0 <= k < trimmed@.len() && trimmed@[k] as u32 == value@[c] as u32;
                    assert(trimmed@[k] != 0x7Du8);
                }
            }
            let ghost before = string_map@;
            string_map.insert(id, value);
            assert(string_views(string_map@) =~= string_views(before).insert(id, value@));
        }
        Ok(Self { string_map })
    }

    /// Parse a WTS text buffer; the same reading as [`War3MapWts::parse`].
    pub fn load(buffer: &str) -> (res: Result<Self, Error>)
        ensures
            res is Ok,
            res->Ok_0@ == spec_parse_wts(buffer.spec_bytes()),
            forall|id: i32| #[trigger] res->Ok_0@.contains_key(id) ==> !res->Ok_0@[id].contains('}'),
    {
        Self::parse(buffer)
    }

    /// Number of strings in the table.
    pub fn entry_count(&self) -> (n: usize)
        ensures
            n == self@.len(),
    {
        assert(self@.dom() =~= self.string_map@.dom());
        self.string_map.len()
    }

    /// Look up a string by id.
    pub fn get(&self, id: i32) -> (s: Option<&str>)
        ensures
            match s {
                Some(s) => self@.contains_key(id) && s@ == self@[id],
                None => !self@.contains_key(id),
            },
    {
        match self.string_map.get(&id) {
            Some(s) => Some(s.as_str()),
            None => None,
        }
    }

    /// Resolve a `TRIGSTR_<id>` reference; returns `None` when `text` is not
    /// a TRIGSTR reference or the id is missing from the table.
    pub fn resolve(&self, text: &str) -> (s: Option<&str>)
        ensures
            match trigstr(text@) {
                Some(id) => match s {
                    Some(s) => self@.contains_key(id) && s@ == self@[id],
                    None => !self@.contains_key(id),
                },
                None => s is None,
            },
    {
        match trigstr_id(text) {
            Some(id) => self.get(id),
            None => None,
        }
    }
}

proof fn lemma_digits_run(t: Seq<u8>, i: int, j: int)
    requires
        0 <= i <= j < digits_end(t, i),
        digits_end(t, i) <= t.len(),
    ensures
        ascii_digit(t[j]),
    decreases j - i,
{
    if i < j {
        lemma_digits_run(t, i + 1, j);
    }
}

/// `c` is whitespace in the sense of `char::is_whitespace` (the Unicode
/// `White_Space` property).
pub open spec fn unicode_ws(c: char) -> bool {
    ||| c == '\t' || c == '\n' || c == '\u{0B}' || c == '\u{0C}' || c == '\r' || c == ' '
    ||| c == '\u{85}' || c == '\u{A0}' || c == '\u{1680}'
    ||| ('\u{2000}' <= c && c <= '\u{200A}')
    ||| c == '\u{2028}' || c == '\u{2029}' || c == '\u{202F}' || c == '\u{205F}' || c == '\u{3000}'
}

fn is_whitespace(c: char) -> (r: bool)
    ensures
        r == unicode_ws(c),
{
    c == '\t' || c == '\n' || c == '\u{0B}' || c == '\u{0C}' || c == '\r' || c == ' ' || c == '\u{85}'
        || c == '\u{A0}' || c == '\u{1680}' || ('\u{2000}' <= c && c <= '\u{200A}') || c == '\u{2028}'
        || c == '\u{2029}' || c == '\u{202F}' || c == '\u{205F}' || c == '\u{3000}'
}

/// The characters of `TRIGSTR_`.
pub open spec fn trigstr_prefix() -> Seq<char> {
    seq!['T', 'R', 'I', 'G', 'S', 'T', 'R', '_']
}

/// Index of the first non-whitespace character at or after `i`.
pub open spec fn trim_start(s: Seq<char>, i: int) -> int
    decreases s.len() - i,
{
    if i < s.len() && unicode_ws(s[i]) {
        trim_start(s, i + 1)
    } else {
        i
    }
}

/// One past the last non-whitespace character before `j`, not below `lo`.
pub open spec fn trim_end(s: Seq<char>, lo: int, j: int) -> int
    decreases j - lo,
{
    if j > lo && unicode_ws(s[j - 1]) {
        trim_end(s, lo, j - 1)
    } else {
        j
    }
}

/// `s` with leading and trailing whitespace removed, as `str::trim` does.
pub open spec fn trimmed(s: Seq<char>) -> Seq<char> {
    let a = trim_start(s, 0);
    s.subrange(a, trim_end(s, a, s.len() as int))
}

/// Length of the leading run of ASCII digits of `s` from `i`, where the very
/// first character may instead be a minus sign.
pub open spec fn id_run_end(s: Seq<char>, i: int) -> int
    decreases s.len() - i,
{
    if i < s.len() && (('0' <= s[i] && s[i] <= '9') || (i == 0 && s[i] == '-')) {
        id_run_end(s, i + 1)
    } else {
        i
    }
}

/// The value of a run of decimal digit characters.
pub open spec fn digit_chars_value(d: Seq<char>) -> nat
    decreases d.len(),
{
    if d.len() == 0 {
        0
    } else {
        digit_chars_value(d.drop_last()) * 10 + (d.last() as int - '0' as int) as nat
    }
}

/// `str::parse::<i32>` on a run that is either all digits or a minus sign
/// followed by digits.
pub open spec fn parse_i32_chars(d: Seq<char>) -> Option<i32> {
    if d.len() > 0 && d[0] == '-' {
        let digits = d.skip(1);
        if digits.len() == 0 || digit_chars_value(digits) > 0x8000_0000 {
            None
        } else {
            Some((0 - digit_chars_value(digits)) as i32)
        }
    } else if d.len() == 0 || digit_chars_value(d) > i32::MAX {
        None
    } else {
        Some(digit_chars_value(d) as i32)
    }
}

/// The id of a `TRIGSTR_<id>` reference: surrounding whitespace is ignored,
/// and so is anything after the digits.
pub open spec fn trigstr(text: Seq<char>) -> Option<i32> {
    let t = trimmed(text);
    if t.len() < 8 || t.subrange(0, 8) != trigstr_prefix() {
        None
    } else {
        let rest = t.skip(8);
        parse_i32_chars(rest.subrange(0, id_run_end(rest, 0)))
    }
}

proof fn lemma_trim_bounds(s: Seq<char>, i: int, lo: int, j: int)
    requires
        0 <= i <= s.len(),
        0 <= lo <= j <= s.len(),
    ensures
        i <= trim_start(s, i) <= s.len(),
        lo <= trim_end(s, lo, j) <= j,
    decreases s.len() - i + j - lo,
{
    if i < s.len() && unicode_ws(s[i]) {
        lemma_trim_bounds(s, i + 1, lo, j);
    } else if j > lo && unicode_ws(s[j - 1]) {
        lemma_trim_bounds(s, i, lo, j - 1);
    }
}

proof fn lemma_id_run(s: Seq<char>, i: int)
    requires
        0 <= i <= s.len(),
    ensures
        i <= id_run_end(s, i) <= s.len(),
        forall|k: int| i <= k < id_run_end(s, i) ==> ('0' <= #[trigger] s[k] && s[k] <= '9') || (k == 0 && s[k] == '-'),
    decreases s.len() - i,
{
    if i < s.len() && (('0' <= s[i] && s[i] <= '9') || (i == 0 && s[i] == '-')) {
        lemma_id_run(s, i + 1);
    }
}

/// `s` with leading and trailing whitespace removed.
pub fn trim_chars(s: &Vec<char>) -> (t: Vec<char>)
    ensures
        t@ == trimmed(s@),
{
    let n = s.len();
    let mut a: usize = 0;
    while a < n && is_whitespace(s[a])
        invariant
            n == s@.len(),
            a <= n,
            trim_start(s@, 0) == trim_start(s@, a as int),
        decreases n - a,
    {
        a += 1;
    }
    let mut b: usize = n;
    proof {
        lemma_trim_bounds(s@, a as int, a as int, n as int);
    }
    while b > a && is_whitespace(s[b - 1])
        invariant
            n == s@.len(),
            a <= b <= n,
            a == trim_start(s@, 0),
            trim_end(s@, a as int, n as int) == trim_end(s@, a as int, b as int),
        decreases b - a,
    {
        b -= 1;
    }
    let mut t: Vec<char> = Vec::new();
    let mut k = a;
    while k < b
        invariant
            a <= k <= b <= n,
            n == s@.len(),
            t@ == s@.subrange(a as int, k as int),
        decreases b - k,
    {
        t.push(s[k]);
        k += 1;
    }
    t
}

/// Parse a `TRIGSTR_<id>` reference, returning the id.
///
/// Accepts leading zeros, a negative sign, surrounding whitespace, and
/// trailing junk after the digits (all seen in real maps, e.g. `TRIGSTR_007ab`).
pub fn trigstr_id(text: &str) -> (id: Option<i32>)
    ensures
        id == trigstr(text@),
{
    let s = char_vec(text);
    let n = s.len();
    let mut a: usize = 0;
    while a < n && is_whitespace(s[a])
        invariant
            n == s@.len(),
            a <= n,
            trim_start(s@, 0) == trim_start(s@, a as int),
        decreases n - a,
    {
        a += 1;
    }
    let mut b: usize = n;
    proof {
        lemma_trim_bounds(s@, a as int, a as int, n as int);
    }
    while b > a && is_whitespace(s[b - 1])
        invariant
            n == s@.len(),
            a <= b <= n,
            a == trim_start(s@, 0),
            trim_end(s@, a as int, n as int) == trim_end(s@, a as int, b as int),
        decreases b - a,
    {
        b -= 1;
    }
    let ghost t = s@.subrange(a as int, b as int);
    assert(t == trimmed(text@));
    if b - a < 8 {
        return None;
    }
    let p = a;
    if !(s[p] == 'T' && s[p + 1] == 'R' && s[p + 2] == 'I' && s[p + 3] == 'G' && s[p + 4] == 'S'
        && s[p + 5] == 'T' && s[p + 6] == 'R' && s[p + 7] == '_') {
        assert(t.subrange(0, 8) != trigstr_prefix()) by {
            if t.subrange(0, 8) == trigstr_prefix() {
                assert(t.subrange(0, 8)[0] == s@[p as int]);
                assert(t.subrange(0, 8)[1] == s@[p + 1]);
                assert(t.subrange(0, 8)[2] == s@[p + 2]);
                assert(t.subrange(0, 8)[3] == s@[p + 3]);
                assert(t.subrange(0, 8)[4] == s@[p + 4]);
                assert(t.subrange(0, 8)[5] == s@[p + 5]);
                assert(t.subrange(0, 8)[6] == s@[p + 6]);
                assert(t.subrange(0, 8)[7] == s@[p + 7]);
            }
        }
        return None;
    }
    assert(t.subrange(0, 8) =~= trigstr_prefix());
    let start = a + 8;
    let ghost rest = t.skip(8);
    assert(rest =~= s@.subrange(start as int, b as int));
    // The run of the id: an optional leading minus, then digits.
    let mut e = start;
    while e < b && ((s[e] >= '0' && s[e] <= '9') || (e == start && s[e] == '-'))
        invariant
            n == s@.len(),
            start <= e <= b <= n,
            rest == s@.subrange(start as int, b as int),
            id_run_end(rest, 0) == id_run_end(rest, e - start),
        decreases b - e,
    {
        e += 1;
    }
    proof {
        lemma_id_run(rest, 0);
        if e < b {
            assert(rest[e - start] == s@[e as int]);
        }
        assert(id_run_end(rest, 0) == e - start);
        assert forall|j: int| start <= j < e implies ('0' <= #[trigger] s@[j] && s@[j] <= '9') || (j == start && s@[j] == '-') by {
            assert(rest[j - start] == s@[j]);
        }
    }
    let ghost run = rest.subrange(0, (e - start) as int);
    assert(run =~= s@.subrange(start as int, e as int));
    let negative = e > start && s[start] == '-';
    let digits_from = if negative { start + 1 } else { start };
    if digits_from == e {
        return None;
    }
    let limit: u64 = if negative { 0x8000_0000 } else { 0x7FFF_FFFF };
    let mut value: u64 = 0;
    let mut k = digits_from;
    let ghost digits = s@.subrange(digits_from as int, e as int);
    assert(digits =~= if negative { run.skip(1) } else { run });
    assert(run[0] == s@[start as int]);
    assert(trigstr(text@) == parse_i32_chars(run));
    while k < e
        invariant
            trigstr(text@) == parse_i32_chars(run),
            negative ==> run.len() > 0 && run[0] == '-' && run.skip(1) == digits,
            !negative ==> run.len() > 0 && run[0] != '-' && run == digits,
            limit == if negative { 0x8000_0000u64 } else { 0x7FFF_FFFFu64 },
            n == s@.len(),
            start <= digits_from <= k <= e <= b <= n,
            digits == s@.subrange(digits_from as int, e as int),
            forall|j: int| digits_from <= j < e ==> '0' <= #[trigger] s@[j] && s@[j] <= '9',
            value == digit_chars_value(s@.subrange(digits_from as int, k as int)),
            value <= limit,
            limit <= 0x8000_0000,
        decreases e - k,
    {
        let digit = (s[k] as u32 - '0' as u32) as u64;
        assert(s@.subrange(digits_from as int, k + 1).drop_last() =~= s@.subrange(digits_from as int, k as int));
        if value * 10 + digit > limit {
            proof {
                let pre = s@.subrange(digits_from as int, k + 1);
                assert(pre.last() == s@[k as int]);
                assert(digit_chars_value(pre) == value * 10 + digit);
                lemma_digit_chars_prefix_monotone(digits, (k + 1 - digits_from) as int);
                assert(digits.subrange(0, (k + 1 - digits_from) as int) =~= pre);
                assert(digit_chars_value(digits) > limit);
                assert(parse_i32_chars(run) is None);
            }
            return None;
        }
        value = value * 10 + digit;
        k += 1;
    }
    if negative {
        Some((0 - value as i64) as i32)
    } else {
        Some(value as i32)
    }
}

proof fn lemma_digit_chars_prefix_monotone(d: Seq<char>, k: int)
    requires
        0 <= k <= d.len(),
        forall|j: int| 0 <= j < d.len() ==> '0' <= #[trigger] d[j] && d[j] <= '9',
    ensures
        digit_chars_value(d) >= digit_chars_value(d.subrange(0, k)),
    decreases d.len() - k,
{
    if k < d.len() {
        lemma_digit_chars_prefix_monotone(d, k + 1);
        assert(d.subrange(0, k + 1).drop_last() =~= d.subrange(0, k));
    } else {
        assert(d.subrange(0, k) =~= d);
    }
}

} // verus!

//! Catalogue records derived from map bytes: display names, status labels and
//! file-name classification.
use crate::carve::{carve_deep, spec_carve, spec_carve_scan};
use crate::error::{error_text, mpq_error_text, Error, MpqError};
use crate::formats::w3i::resolve::resolved_w3i;
use crate::formats::w3i::{spec_parse_w3i, W3iView, War3MapW3i};
use crate::formats::wts::{spec_parse_wts, trigstr, trigstr_id, trimmed, unicode_ws};
use crate::model::header::{spec_header, War3MapHeader, War3MapHeaderView};
use crate::modscan::{detect, spec_detect_in_script, spec_read_script, ModInfo, ModInfoView};
use crate::mpq::archive::{spec_load, ArchiveView};
use crate::mpq::file::spec_open_file;
use crate::reader::opt_view;
use crate::text::{char_vec, string_from_chars, utf8_lossy};
use crate::w3x::{member_error, spec_read_member, War3MapW3x};
use vstd::prelude::*;
use vstd::utf8::encode_utf8;

verus! {

/// Whether `c` is an ASCII hexadecimal digit.
pub open spec fn is_hex(c: char) -> bool {
    ('0' <= c && c <= '9') || ('a' <= c && c <= 'f') || ('A' <= c && c <= 'F')
}

/// `c` with ASCII upper-case letters lowered.
pub open spec fn ascii_lower(c: char) -> char {
    if 'A' <= c && c <= 'Z' {
        ((c as u32) + 32) as char
    } else {
        c
    }
}

/// Whether `c[from..to]` are all hexadecimal digits.
pub open spec fn all_hex(c: Seq<char>, from: int, to: int) -> bool {
    forall|k: int| from <= k < to ==> is_hex(#[trigger] c[k])
}

/// The characters of `c` from `i` on with Warcraft III text codes taken out:
/// `|cAARRGGBB` colour codes and `|r` are dropped, `|n` becomes a space, and
/// `||` is a literal bar. Codes are matched case-insensitively.
pub open spec fn strip_codes(c: Seq<char>, i: int) -> Seq<char>
    decreases c.len() - i,
{
    if i < 0 || i >= c.len() {
        Seq::empty()
    } else if c[i] == '|' && i + 1 < c.len() && ascii_lower(c[i + 1]) == 'c' && i + 10 <= c.len() && all_hex(
        c,
        i + 2,
        i + 10,
    ) {
        strip_codes(c, i + 10)
    } else if c[i] == '|' && i + 1 < c.len() && ascii_lower(c[i + 1]) == 'r' {
        strip_codes(c, i + 2)
    } else if c[i] == '|' && i + 1 < c.len() && ascii_lower(c[i + 1]) == 'n' {
        seq![' '] + strip_codes(c, i + 2)
    } else if c[i] == '|' && i + 1 < c.len() && c[i + 1] == '|' {
        seq!['|'] + strip_codes(c, i + 2)
    } else {
        seq![c[i]] + strip_codes(c, i + 1)
    }
}

proof fn lemma_strip_codes_shift(a: Seq<char>, s: Seq<char>, i: int)
    requires
        0 <= i,
    ensures
        strip_codes(a + s, a.len() + i) == strip_codes(s, i),
    decreases s.len() - i,
{
    let c = a + s;
    let j = a.len() + i;
    if i < s.len() {
        assert forall|k: int| 0 <= k < s.len() implies c[a.len() + k] == s[k] by {}
        assert(i + 10 <= s.len() ==> all_hex(c, j + 2, j + 10) == all_hex(s, i + 2, i + 10)) by {
            if i + 10 <= s.len() {
                if all_hex(s, i + 2, i + 10) {
                    assert forall|k: int| j + 2 <= k < j + 10 implies is_hex(#[trigger] c[k]) by {
                        assert(c[k] == s[k - a.len()]);
                    }
                }
                if all_hex(c, j + 2, j + 10) {
                    assert forall|k: int| i + 2 <= k < i + 10 implies is_hex(#[trigger] s[k]) by {
                        assert(c[k + a.len()] == s[k]);
                    }
                }
            }
        }
        lemma_strip_codes_shift(a, s, i + 1);
        if i + 2 <= s.len() {
            lemma_strip_codes_shift(a, s, i + 2);
        }
        if i + 10 <= s.len() {
            lemma_strip_codes_shift(a, s, i + 10);
        }
    }
}

/// A colour code `|c` (or `|C`) followed by eight hexadecimal digits, in
/// either letter case, is dropped whole from a display name, whatever text
/// follows it.
pub proof fn lemma_colour_code_is_dropped(code: char, digits: Seq<char>, rest: Seq<char>)
    requires
        code == 'c' || code == 'C',
        digits.len() == 8,
        forall|k: int|
            0 <= k < 8 ==> ('0' <= #[trigger] digits[k] <= '9') || ('a' <= digits[k] <= 'f') || ('A' <= digits[k] <= 'F'),
    ensures
        clean_text(seq!['|', code] + digits + rest) == clean_text(rest),
{
    let a = seq!['|', code] + digits;
    let c = a + rest;
    assert(ascii_lower(code) == 'c');
    assert(c[0] == '|' && c[1] == code);
    assert forall|k: int| 2 <= k < 10 implies is_hex(#[trigger] c[k]) by {
        assert(c[k] == digits[k - 2]);
    }
    assert(strip_codes(c, 0) == strip_codes(c, 10));
    lemma_strip_codes_shift(a, rest, 0);
}

/// The words of `s` from `i` on joined by single spaces, as
/// `split_whitespace().join(" ")` does; `started` says a word was already
/// emitted and `gap` that whitespace followed it.
pub open spec fn collapse_from(s: Seq<char>, i: int, started: bool, gap: bool) -> Seq<char>
    decreases s.len() - i,
{
    if i < 0 || i >= s.len() {
        Seq::empty()
    } else if unicode_ws(s[i]) {
        collapse_from(s, i + 1, started, true)
    } else if started && gap {
        seq![' ', s[i]] + collapse_from(s, i + 1, true, false)
    } else {
        seq![s[i]] + collapse_from(s, i + 1, true, false)
    }
}

/// `s` with its text codes stripped and its whitespace collapsed.
pub open spec fn clean_text(s: Seq<char>) -> Seq<char> {
    let stripped = strip_codes(s, 0);
    collapse_from(stripped, 0, false, false)
}

fn is_ws(c: char) -> (r: bool)
    ensures
        r == unicode_ws(c),
{
    c == '\t' || c == '\n' || c == '\u{0B}' || c == '\u{0C}' || c == '\r' || c == ' ' || c == '\u{85}'
        || c == '\u{A0}' || c == '\u{1680}' || ('\u{2000}' <= c && c <= '\u{200A}') || c == '\u{2028}'
        || c == '\u{2029}' || c == '\u{202F}' || c == '\u{205F}' || c == '\u{3000}'
}

fn lowers_to(c: char, lo: char, up: char) -> (r: bool)
    requires
        'a' <= lo <= 'z',
        up as int == lo as int - 32,
    ensures
        r == (ascii_lower(c) == lo),
{
    c == lo || c == up
}

fn hex_run(c: &Vec<char>, from: usize, to: usize) -> (r: bool)
    requires
        from <= to <= c@.len(),
    ensures
        r == all_hex(c@, from as int, to as int),
{
    let mut k = from;
    while k < to
        invariant
            from <= k <= to <= c@.len(),
            all_hex(c@, from as int, k as int),
        decreases to - k,
    {
        let x = c[k];
        if !(('0' <= x && x <= '9') || ('a' <= x && x <= 'f') || ('A' <= x && x <= 'F')) {
            return false;
        }
        k += 1;
    }
    true
}

/// Strip Warcraft III colour and line codes and collapse whitespace.
pub fn strip_warcraft_codes(input: &str) -> (r: String)
    ensures
        r@ == clean_text(input@),
{
    let chars = char_vec(input);
    let n = chars.len();
    let mut out: Vec<char> = Vec::new();
    let mut i: usize = 0;
    while i < n
        invariant
            n == chars@.len(),
            i <= n + 1,
            out@ + strip_codes(chars@, i as int) == strip_codes(chars@, 0),
        decreases n + 1 - i,
    {
        let ghost before = out@;
        if chars[i] == '|' && i + 1 < n {
            let next = chars[i + 1];
            if lowers_to(next, 'c', 'C') && n - i >= 10 && hex_run(&chars, i + 2, i + 10) {
                i += 10;
                continue;
            }
            if lowers_to(next, 'r', 'R') {
                i += 2;
                continue;
            }
            if lowers_to(next, 'n', 'N') {
                out.push(' ');
                proof {
                    assert(before + strip_codes(chars@, i as int) =~= out@ + strip_codes(chars@, i + 2));
                }
                i += 2;
                continue;
            }
            if chars[i + 1] == '|' {
                out.push('|');
                proof {
                    assert(before + strip_codes(chars@, i as int) =~= out@ + strip_codes(chars@, i + 2));
                }
                i += 2;
                continue;
            }
        }
        out.push(chars[i]);
        proof {
            assert(before + strip_codes(chars@, i as int) =~= out@ + strip_codes(chars@, i + 1));
        }
        i += 1;
    }
    proof {
        assert(out@ + Seq::<char>::empty() =~= out@);
    }
    let stripped = out;
    let m = stripped.len();
    let mut words: Vec<char> = Vec::new();
    let mut started = false;
    let mut gap = false;
    let mut j: usize = 0;
    while j < m
        invariant
            m == stripped@.len(),
            j <= m,
            words@ + collapse_from(stripped@, j as int, started, gap) == collapse_from(stripped@, 0, false, false),
        decreases m - j,
    {
        let ghost before = words@;
        let x = stripped[j];
        if is_ws(x) {
            gap = true;
        } else {
            if started && gap {
                words.push(' ');
            }
            words.push(x);
            proof {
                assert(before + collapse_from(stripped@, j as int, started, gap) =~= words@ + collapse_from(
                    stripped@,
                    j + 1,
                    true,
                    false,
                ));
            }
            started = true;
            gap = false;
        }
        j += 1;
    }
    proof {
        assert(words@ + Seq::<char>::empty() =~= words@);
    }
    string_from_chars(words.as_slice())
}

/// Whether two strings hold the same characters.
pub fn same_text(a: &str, b: &str) -> (r: bool)
    ensures
        r == (a@ == b@),
{
    let x = char_vec(a);
    let y = char_vec(b);
    if x.len() != y.len() {
        return false;
    }
    let mut i: usize = 0;
    while i < x.len()
        invariant
            x@ == a@,
            y@ == b@,
            x@.len() == y@.len(),
            i <= x@.len(),
            x@.subrange(0, i as int) == y@.subrange(0, i as int),
        decreases x@.len() - i,
    {
        if x[i] != y[i] {
            proof {
                if x@ == y@ {
                    assert(x@[i as int] == y@[i as int]);
                }
            }
            return false;
        }
        proof {
            assert(x@.subrange(0, i + 1) =~= x@.subrange(0, i as int).push(x@[i as int]));
            assert(y@.subrange(0, i + 1) =~= y@.subrange(0, i as int).push(y@[i as int]));
        }
        i += 1;
    }
    proof {
        assert(x@.subrange(0, i as int) =~= x@);
        assert(y@.subrange(0, i as int) =~= y@);
    }
    true
}

/// A cleaned name that can stand as a title: not blank, and not an unresolved
/// `TRIGSTR_*` reference.
pub open spec fn usable_name(s: Seq<char>) -> Option<Seq<char>> {
    let v = clean_text(s);
    if trimmed(v).len() > 0 && trigstr(v) is None {
        Some(v)
    } else {
        None
    }
}

fn usable(value: &str) -> (r: Option<String>)
    ensures
        match r {
            Some(s) => usable_name(value@) == Some(s@),
            None => usable_name(value@) is None,
        },
{
    let v = strip_warcraft_codes(value);
    let chars = char_vec(v.as_str());
    let t = crate::formats::wts::trim_chars(&chars);
    if t.len() > 0 && trigstr_id(v.as_str()).is_none() {
        Some(v)
    } else {
        None
    }
}

/// The optional view of an optional string slice.
pub open spec fn opt_str(o: Option<&str>) -> Option<Seq<char>> {
    match o {
        Some(s) => Some(s@),
        None => None,
    }
}

/// A name's usable form, if it has one.
pub open spec fn usable_opt(o: Option<Seq<char>>) -> Option<Seq<char>> {
    match o {
        Some(s) => usable_name(s),
        None => None,
    }
}

/// The display name chosen from the sources, best first, and the tier that
/// won: a `w3i` read by name, the plaintext `HM3W` title, a carved `w3i`, and
/// finally the file name.
pub open spec fn spec_pick_name(
    info_name: Option<Seq<char>>,
    header_name: Option<Seq<char>>,
    carved_name: Option<Seq<char>>,
    fallback: Seq<char>,
) -> (Seq<char>, Seq<char>) {
    if usable_opt(info_name) is Some {
        (usable_opt(info_name)->Some_0, "w3i"@)
    } else if usable_opt(header_name) is Some {
        (usable_opt(header_name)->Some_0, "hm3w"@)
    } else if usable_opt(carved_name) is Some {
        (usable_opt(carved_name)->Some_0, "w3i_carved"@)
    } else {
        (clean_text(fallback), "filename"@)
    }
}

/// The name tiers: a title that does not come from the file name is never
/// blank nor an unresolved `TRIGSTR_*` reference; a carved `w3i` never wins
/// over a usable `HM3W` title; and the file name is used only when no source
/// offers a usable title.
pub proof fn lemma_name_tiers(
    info_name: Option<Seq<char>>,
    header_name: Option<Seq<char>>,
    carved_name: Option<Seq<char>>,
    fallback: Seq<char>,
)
    ensures
        ({
            let (name, source) = spec_pick_name(info_name, header_name, carved_name, fallback);
            &&& source != "filename"@ ==> trimmed(name).len() > 0 && trigstr(name) is None
            &&& usable_opt(header_name) is Some ==> source != "w3i_carved"@ && source != "filename"@
            &&& source == "filename"@ <==> (usable_opt(info_name) is None && usable_opt(header_name) is None
                && usable_opt(carved_name) is None)
        }),
{
    reveal_strlit("filename");
    reveal_strlit("w3i");
    reveal_strlit("hm3w");
    reveal_strlit("w3i_carved");
    assert("filename"@.len() == 8 && "w3i"@.len() == 3 && "hm3w"@.len() == 4 && "w3i_carved"@.len() == 10);
}

/// Resolve a map's display name, best source first, and report which tier
/// won.
///
/// A `w3i` read out of the archive by name is authoritative. The `HM3W`
/// prefix is plaintext and survives an unreadable archive. A *carved* `w3i`
/// ranks below `HM3W` on purpose: carving cannot tell a live sector from an
/// orphaned copy an earlier save left behind, and the header is the title the
/// map was published under.
pub fn pick_name(
    info_name: Option<&str>,
    header_name: Option<&str>,
    carved_name: Option<&str>,
    fallback: &str,
) -> (r: (String, &'static str))
    ensures
        (r.0@, r.1@) == spec_pick_name(opt_str(info_name), opt_str(header_name), opt_str(carved_name), fallback@),
{
    if let Some(value) = info_name {
        if let Some(v) = usable(value) {
            return (v, "w3i");
        }
    }
    if let Some(value) = header_name {
        if let Some(v) = usable(value) {
            return (v, "hm3w");
        }
    }
    if let Some(value) = carved_name {
        if let Some(v) = usable(value) {
            return (v, "w3i_carved");
        }
    }
    (strip_warcraft_codes(fallback), "filename")
}

/// A text with its codes stripped, or empty when it is blank or an
/// unresolved `TRIGSTR_*` placeholder.
pub open spec fn spec_display_text(value: Option<Seq<char>>) -> Seq<char> {
    match usable_opt(value) {
        Some(v) => v,
        None => Seq::empty(),
    }
}

/// Strip colour codes and drop unresolved `TRIGSTR_*` placeholders.
pub fn display_text(value: Option<&str>) -> (r: String)
    ensures
        r@ == spec_display_text(opt_str(value)),
{
    match value {
        Some(v) => match usable(v) {
            Some(s) => s,
            None => String::new(),
        },
        None => String::new(),
    }
}

/// The parse status of a catalogue record.
pub open spec fn spec_metadata_status(content_type: Seq<char>, archive_ok: bool, has_info: bool) -> Seq<char> {
    if content_type == "campaign"@ {
        "metadata_unavailable"@
    } else if archive_ok {
        "ok"@
    } else if has_info {
        "carved"@
    } else {
        "metadata_error"@
    }
}

/// The parse status of a catalogue record: campaigns are not parsed, a read
/// archive is `ok`, carved metadata is `carved`, and anything else failed.
pub fn metadata_status(content_type: &str, archive_ok: bool, has_info: bool) -> (r: &'static str)
    ensures
        r@ == spec_metadata_status(content_type@, archive_ok, has_info),
{
    if same_text(content_type, "campaign") {
        "metadata_unavailable"
    } else if archive_ok {
        "ok"
    } else if has_info {
        "carved"
    } else {
        "metadata_error"
    }
}

/// Index just past the trailing `/` characters of `s[..i]` trimmed off.
pub open spec fn trim_slashes(s: Seq<char>, i: int) -> int
    decreases i,
{
    if i > 0 && s[i - 1] == '/' {
        trim_slashes(s, i - 1)
    } else {
        i
    }
}

/// Index just past the last `/` in `s[..i]`, or 0.
pub open spec fn after_slash(s: Seq<char>, i: int) -> int
    decreases i,
{
    if i <= 0 {
        0
    } else if s[i - 1] == '/' {
        i
    } else {
        after_slash(s, i - 1)
    }
}

/// The final component of a `/`-separated path, trailing slashes ignored:
/// `None` when it is empty, `.` or `..` (a trailing `.` is not looked through).
pub open spec fn file_name_of(p: Seq<char>) -> Option<Seq<char>> {
    let end = trim_slashes(p, p.len() as int);
    let name = p.subrange(after_slash(p, end), end);
    if name.len() == 0 || name == seq!['.'] || name == seq!['.', '.'] {
        None
    } else {
        Some(name)
    }
}

/// Index of the last `.` in `s[..i]`, or -1.
pub open spec fn last_dot(s: Seq<char>, i: int) -> int
    decreases i,
{
    if i <= 0 {
        -1
    } else if s[i - 1] == '.' {
        i - 1
    } else {
        last_dot(s, i - 1)
    }
}

/// The extension of a file name, as `Path::extension` splits it: what follows
/// the last `.`, unless there is none or the only one begins the name.
pub open spec fn name_extension(name: Seq<char>) -> Option<Seq<char>> {
    let d = last_dot(name, name.len() as int);
    if d <= 0 {
        None
    } else {
        Some(name.skip(d + 1))
    }
}

/// The stem of a file name, as `Path::file_stem` splits it.
pub open spec fn name_stem(name: Seq<char>) -> Seq<char> {
    let d = last_dot(name, name.len() as int);
    if d <= 0 {
        name
    } else {
        name.take(d)
    }
}

/// Whether `s`, ASCII letters lowered, is `pat`.
pub open spec fn lower_is(s: Seq<char>, pat: Seq<char>) -> bool {
    s.len() == pat.len() && forall|k: int| 0 <= k < s.len() ==> ascii_lower(#[trigger] s[k]) == pat[k]
}

/// The map extension of a path, lower-cased: `w3x`, `w3m` or `w3n`.
pub open spec fn spec_map_extension(p: Seq<char>) -> Option<Seq<char>> {
    match file_name_of(p) {
        None => None,
        Some(name) => match name_extension(name) {
            None => None,
            Some(e) => if lower_is(e, seq!['w', '3', 'x']) {
                Some(seq!['w', '3', 'x'])
            } else if lower_is(e, seq!['w', '3', 'm']) {
                Some(seq!['w', '3', 'm'])
            } else if lower_is(e, seq!['w', '3', 'n']) {
                Some(seq!['w', '3', 'n'])
            } else {
                None
            },
        },
    }
}

fn lower_eq(c: char, p: char) -> (r: bool)
    ensures
        r == (ascii_lower(c) == p),
{
    if 'A' <= c && c <= 'Z' {
        c as u32 + 32 == p as u32
    } else {
        c == p
    }
}

/// Whether `c[from..to]`, ASCII letters lowered, is `pat`.
fn lower_matches(c: &Vec<char>, from: usize, to: usize, pat: &str) -> (r: bool)
    requires
        from <= to <= c@.len(),
    ensures
        r == lower_is(c@.subrange(from as int, to as int), pat@),
{
    let p = char_vec(pat);
    if to - from != p.len() {
        return false;
    }
    let mut k: usize = 0;
    while k < p.len()
        invariant
            from <= to <= c@.len(),
            p@ == pat@,
            to - from == p@.len(),
            k <= p@.len(),
            forall|j: int| 0 <= j < k ==> ascii_lower(#[trigger] c@[from + j]) == p@[j],
        decreases p@.len() - k,
    {
        if !lower_eq(c[from + k], p[k]) {
            proof {
                let sub = c@.subrange(from as int, to as int);
                assert(sub[k as int] == c@[from + k]);
            }
            return false;
        }
        k += 1;
    }
    proof {
        let sub = c@.subrange(from as int, to as int);
        assert forall|j: int| 0 <= j < sub.len() implies ascii_lower(#[trigger] sub[j]) == p@[j] by {
            assert(sub[j] == c@[from + j]);
        }
    }
    true
}

/// The bounds of the final path component of `c`.
fn file_name_bounds(c: &Vec<char>) -> (r: Option<(usize, usize)>)
    ensures
        match r {
            Some((a, b)) => a <= b <= c@.len() && file_name_of(c@) == Some(c@.subrange(a as int, b as int)),
            None => file_name_of(c@) is None,
        },
{
    let mut end = c.len();
    while end > 0 && c[end - 1] == '/'
        invariant
            end <= c@.len(),
            trim_slashes(c@, c@.len() as int) == trim_slashes(c@, end as int),
        decreases end,
    {
        end -= 1;
    }
    assert(end == trim_slashes(c@, c@.len() as int));
    let mut start = end;
    while start > 0 && c[start - 1] != '/'
        invariant
            start <= end <= c@.len(),
            end == trim_slashes(c@, c@.len() as int),
            after_slash(c@, end as int) == after_slash(c@, start as int),
        decreases start,
    {
        start -= 1;
    }
    assert(start == after_slash(c@, end as int));
    let len = end - start;
    if len == 0 || (len == 1 && c[start] == '.') || (len == 2 && c[start] == '.' && c[start + 1] == '.') {
        proof {
            let name = c@.subrange(start as int, end as int);
            if len == 1 {
                assert(name =~= seq!['.']);
            }
            if len == 2 {
                assert(name =~= seq!['.', '.']);
            }
        }
        return None;
    }
    proof {
        let name = c@.subrange(start as int, end as int);
        if name == seq!['.'] {
            assert(name[0] == c@[start as int]);
        }
        if name == seq!['.', '.'] {
            assert(name[0] == c@[start as int]);
            assert(name[1] == c@[start + 1]);
        }
        assert(name.len() != 0);
        assert(name != seq!['.']);
        assert(name != seq!['.', '.']);
    }
    Some((start, end))
}

/// The extension of a path when it is one of the map extensions, lower-cased.
pub fn normalized_extension(path: &str) -> (r: Option<&'static str>)
    ensures
        match r {
            Some(e) => spec_map_extension(path@) == Some(e@),
            None => spec_map_extension(path@) is None,
        },
{
    let c = char_vec(path);
    let (a, b) = match file_name_bounds(&c) {
        Some(x) => x,
        None => return None,
    };
    let ghost name = c@.subrange(a as int, b as int);
    let mut d = b;
    while d > a && c[d - 1] != '.'
        invariant
            a <= d <= b <= c@.len(),
            name == c@.subrange(a as int, b as int),
            last_dot(name, name.len() as int) == last_dot(name, d - a),
        decreases d,
    {
        proof {
            assert(name[d - a - 1] == c@[d - 1]);
        }
        d -= 1;
    }
    proof {
        if d > a {
            assert(name[d - a - 1] == c@[d - 1]);
        }
    }
    if d <= a + 1 {
        return None;
    }
    assert(name.skip(d - a) =~= c@.subrange(d as int, b as int));
    if lower_matches(&c, d, b, "w3x") {
        proof {
            reveal_strlit("w3x");
        }
        assert("w3x"@ =~= seq!['w', '3', 'x']);
        return Some("w3x");
    }
    proof {
        reveal_strlit("w3x");
        assert("w3x"@ =~= seq!['w', '3', 'x']);
    }
    if lower_matches(&c, d, b, "w3m") {
        proof {
            reveal_strlit("w3m");
        }
        assert("w3m"@ =~= seq!['w', '3', 'm']);
        return Some("w3m");
    }
    proof {
        reveal_strlit("w3m");
        assert("w3m"@ =~= seq!['w', '3', 'm']);
    }
    if lower_matches(&c, d, b, "w3n") {
        proof {
            reveal_strlit("w3n");
        }
        assert("w3n"@ =~= seq!['w', '3', 'n']);
        return Some("w3n");
    }
    proof {
        reveal_strlit("w3n");
        assert("w3n"@ =~= seq!['w', '3', 'n']);
    }
    None
}

/// Whether a path names a map or campaign file.
pub fn is_map_path(path: &str) -> (r: bool)
    ensures
        r == spec_map_extension(path@) is Some,
{
    normalized_extension(path).is_some()
}

/// The stem of the last component of a path, or the path itself when it has
/// no final component.
pub open spec fn spec_fallback_name(filename: Seq<char>) -> Seq<char> {
    match file_name_of(filename) {
        Some(name) => name_stem(name),
        None => filename,
    }
}

fn fallback_name(filename: &str) -> (r: String)
    ensures
        r@ == spec_fallback_name(filename@),
{
    let c = char_vec(filename);
    let (a, b) = match file_name_bounds(&c) {
        Some(x) => x,
        None => return String::from_str(filename),
    };
    let ghost name = c@.subrange(a as int, b as int);
    let mut d = b;
    while d > a && c[d - 1] != '.'
        invariant
            a <= d <= b <= c@.len(),
            name == c@.subrange(a as int, b as int),
            last_dot(name, name.len() as int) == last_dot(name, d - a),
        decreases d,
    {
        proof {
            assert(name[d - a - 1] == c@[d - 1]);
        }
        d -= 1;
    }
    proof {
        if d > a {
            assert(name[d - a - 1] == c@[d - 1]);
        }
    }
    if d <= a + 1 {
        return chars_string(&c, a, b);
    }
    assert(name.take(d - a - 1) =~= c@.subrange(a as int, d - 1));
    chars_string(&c, a, d - 1)
}

fn chars_string(c: &Vec<char>, from: usize, to: usize) -> (s: String)
    requires
        from <= to <= c@.len(),
    ensures
        s@ == c@.subrange(from as int, to as int),
{
    string_from_chars(&c.as_slice()[from..to])
}

/// The message a campaign's record carries.
pub open spec fn campaign_message() -> Seq<char> {
    "campaign metadata parsing is not supported yet; indexed by filename"@
}

/// What salvage recovers of a map's information: the walk, then the scan,
/// with trigger strings resolved against a recovered table.
pub open spec fn spec_salvage_w3i(bytes: Seq<u8>) -> Option<W3iView> {
    let c = match spec_carve(bytes) {
        Some(c) => Some(c),
        None => spec_carve_scan(bytes),
    };
    match c {
        None => None,
        Some(c) => Some(
            match c.strings {
                Some(t) => resolved_w3i(c.info, t),
                None => c.info,
            },
        ),
    }
}

/// Recover a `w3i` from raw sector data, for archives that will not open by
/// name. Carving cannot tell a live sector from an orphaned one, so the
/// result is a salvage guess.
pub fn salvage_w3i(bytes: &[u8]) -> (r: Option<War3MapW3i>)
    ensures
        opt_view(r) == spec_salvage_w3i(bytes@),
{
    match carve_deep(bytes) {
        Some(c) => {
            let mut c = c;
            c.resolve_trigger_strings();
            Some(c.info)
        },
        None => None,
    }
}

/// The map information with its trigger strings resolved against the map's
/// own string table, when that can be read.
pub open spec fn with_strings(a: ArchiveView, w: W3iView) -> W3iView {
    match spec_read_member(a, "war3map.wts") {
        Ok(d) => resolved_w3i(w, spec_parse_wts(encode_utf8(utf8_lossy(d)))),
        Err(_) => w,
    }
}

/// The message of the error reading the member `name` ends with.
pub open spec fn member_error_text(a: ArchiveView, name: &str) -> Seq<char> {
    match spec_open_file(a, name) {
        Err(MpqError::NotFound) => "file `"@ + name@ + "` not found in archive"@,
        Err(m) => mpq_error_text(m),
        Ok(f) => match crate::mpq::file::spec_read(f, a, crate::w3x::zeros(f.block.unpacked_size as nat)) {
            Err(m) => mpq_error_text(m),
            Ok(_) => Seq::empty(),
        },
    }
}

pub(crate) proof fn lemma_member_error_text(a: ArchiveView, name: &str, e: Error)
    requires
        member_error(a, name, e),
    ensures
        error_text(e) == member_error_text(a, name),
{
}

/// What parsing a map for the catalogue yields, before it is flattened into a
/// record.
pub struct ParsedView {
    pub header: Option<War3MapHeaderView>,
    pub info: Option<W3iView>,
    /// `info` was carved out of sector data rather than read by name.
    pub carved: bool,
    pub parse_error: Option<Seq<char>>,
    pub modification: Option<ModInfoView>,
}

/// A map whose archive is unreadable: the plaintext header and what salvage
/// recovers are all there is.
pub open spec fn unreadable(bytes: Seq<u8>, message: Seq<char>) -> ParsedView {
    ParsedView {
        header: match spec_header(bytes) {
            Ok(h) => Some(h),
            Err(_) => None,
        },
        info: spec_salvage_w3i(bytes),
        carved: true,
        parse_error: Some(message),
        modification: None,
    }
}

/// What parsing a map's bytes yields. A campaign is not parsed. An archive
/// that opens is scanned for modifications and read for its `w3i` (with
/// trigger strings resolved); when the `w3i` cannot be read by name, it is
/// carved out of sector data instead.
pub open spec fn spec_parsed(bytes: Seq<u8>, content_type: Seq<char>) -> ParsedView {
    if content_type == "campaign"@ {
        ParsedView {
            header: None,
            info: None,
            carved: false,
            parse_error: Some(campaign_message()),
            modification: None,
        }
    } else {
        match spec_header(bytes) {
            Err(h) => unreadable(bytes, error_text(h)),
            Ok(hv) => match spec_load(bytes) {
                Err(m) => unreadable(bytes, mpq_error_text(m)),
                Ok(a) => {
                    let modification = match spec_read_script(a) {
                        None => None,
                        Some(script) => spec_detect_in_script(script),
                    };
                    match spec_read_member(a, "war3map.w3i") {
                        Ok(d) => match spec_parse_w3i(d) {
                            Ok(w) => ParsedView {
                                header: Some(hv),
                                info: Some(with_strings(a, w)),
                                carved: false,
                                parse_error: None,
                                modification,
                            },
                            Err(e) => ParsedView {
                                header: Some(hv),
                                info: spec_salvage_w3i(bytes),
                                carved: true,
                                parse_error: Some(error_text(e)),
                                modification,
                            },
                        },
                        Err(_) => ParsedView {
                            header: Some(hv),
                            info: spec_salvage_w3i(bytes),
                            carved: true,
                            parse_error: Some(member_error_text(a, "war3map.w3i")),
                            modification,
                        },
                    }
                },
            },
        }
    }
}

/// Everything a catalogue record derives from the map bytes alone.
#[derive(Debug)]
pub struct Derived {
    pub name: String,
    /// `"w3i"`, `"hm3w"`, `"w3i_carved"` or `"filename"`: which tier of the
    /// name fallback produced `name`.
    pub name_source: &'static str,
    pub author: String,
    pub description: String,
    pub recommended_players: String,
    pub max_players: Option<u32>,
    pub player_count: Option<u32>,
    pub format_version: Option<u32>,
    pub editor_version: Option<u32>,
    pub build_version: Option<[u32; 4]>,
    pub tileset: Option<u8>,
    pub playable_width: Option<i32>,
    pub playable_height: Option<i32>,
    pub parse_status: &'static str,
    pub parse_error: Option<String>,
    pub modification: Option<ModInfo>,
}

/// A catalogue record's derived fields as the library sees them.
pub struct DerivedView {
    pub name: Seq<char>,
    pub name_source: Seq<char>,
    pub author: Seq<char>,
    pub description: Seq<char>,
    pub recommended_players: Seq<char>,
    pub max_players: Option<u32>,
    pub player_count: Option<u32>,
    pub format_version: Option<u32>,
    pub editor_version: Option<u32>,
    pub build_version: Option<Seq<u32>>,
    pub tileset: Option<u8>,
    pub playable_width: Option<i32>,
    pub playable_height: Option<i32>,
    pub parse_status: Seq<char>,
    pub parse_error: Option<Seq<char>>,
    pub modification: Option<ModInfoView>,
}

impl View for Derived {
    type V = DerivedView;

    open spec fn view(&self) -> DerivedView {
        DerivedView {
            name: self.name@,
            name_source: self.name_source@,
            author: self.author@,
            description: self.description@,
            recommended_players: self.recommended_players@,
            max_players: self.max_players,
            player_count: self.player_count,
            format_version: self.format_version,
            editor_version: self.editor_version,
            build_version: opt_view(self.build_version),
            tileset: self.tileset,
            playable_width: self.playable_width,
            playable_height: self.playable_height,
            parse_status: self.parse_status@,
            parse_error: opt_view(self.parse_error),
            modification: opt_view(self.modification),
        }
    }
}

/// The number of players, as a `u32` saturated at its maximum.
pub open spec fn saturated_count(n: nat) -> u32 {
    if n <= u32::MAX {
        n as u32
    } else {
        u32::MAX
    }
}

/// What a catalogue record derives from a map's bytes, its file name and its
/// content type.
pub open spec fn spec_derive(bytes: Seq<u8>, filename: Seq<char>, content_type: Seq<char>) -> DerivedView {
    let p = spec_parsed(bytes, content_type);
    let info_name = match p.info {
        Some(w) => Some(w.head.name),
        None => None,
    };
    let header_name = match p.header {
        Some(h) => h.name,
        None => None,
    };
    let (name, name_source) = spec_pick_name(
        if p.carved {
            None
        } else {
            info_name
        },
        header_name,
        if p.carved {
            info_name
        } else {
            None
        },
        spec_fallback_name(filename),
    );
    DerivedView {
        name,
        name_source,
        author: spec_display_text(
            match p.info {
                Some(w) => Some(w.head.author),
                None => None,
            },
        ),
        description: spec_display_text(
            match p.info {
                Some(w) => Some(w.head.description),
                None => None,
            },
        ),
        recommended_players: spec_display_text(
            match p.info {
                Some(w) => Some(w.head.recommended_players),
                None => None,
            },
        ),
        max_players: match p.header {
            Some(h) if h.max_players is Some => h.max_players,
            _ => match p.info {
                Some(w) => Some(saturated_count(w.sections.players.len())),
                None => None,
            },
        },
        player_count: match p.info {
            Some(w) => Some(w.sections.players.len() as u32),
            None => None,
        },
        format_version: match p.info {
            Some(w) => Some(w.head.version),
            None => None,
        },
        editor_version: match p.info {
            Some(w) => w.head.editor_version,
            None => None,
        },
        build_version: match p.info {
            Some(w) => w.head.build_version,
            None => None,
        },
        tileset: match p.info {
            Some(w) => Some(w.geometry.tileset),
            None => None,
        },
        playable_width: match p.info {
            Some(w) => Some(w.geometry.playable_size[0]),
            None => None,
        },
        playable_height: match p.info {
            Some(w) => Some(w.geometry.playable_size[1]),
            None => None,
        },
        parse_status: spec_metadata_status(content_type, p.parse_error is None, p.info is Some),
        parse_error: p.parse_error,
        modification: p.modification,
    }
}

fn copy_header(h: &War3MapHeader) -> (r: War3MapHeader)
    ensures
        r@ == h@,
{
    War3MapHeader {
        has_hm3w: h.has_hm3w,
        name: match &h.name {
            Some(n) => Some(n.clone()),
            None => None,
        },
        flags: h.flags,
        max_players: h.max_players,
        u1: h.u1,
    }
}

struct Parsed {
    header: Option<War3MapHeader>,
    info: Option<War3MapW3i>,
    carved: bool,
    parse_error: Option<String>,
    modification: Option<ModInfo>,
}

impl View for Parsed {
    type V = ParsedView;

    closed spec fn view(&self) -> ParsedView {
        ParsedView {
            header: opt_view(self.header),
            info: opt_view(self.info),
            carved: self.carved,
            parse_error: opt_view(self.parse_error),
            modification: opt_view(self.modification),
        }
    }
}

fn unreadable_map(bytes: &[u8], message: String) -> (r: Parsed)
    ensures
        r@ == unreadable(bytes@, message@),
{
    Parsed {
        header: match War3MapHeader::from_buffer(bytes) {
            Ok(h) => Some(h),
            Err(_) => None,
        },
        info: salvage_w3i(bytes),
        carved: true,
        parse_error: Some(message),
        modification: None,
    }
}

fn parse_map(bytes: &[u8], content_type: &str) -> (r: Parsed)
    ensures
        r@ == spec_parsed(bytes@, content_type@),
{
    if same_text(content_type, "campaign") {
        return Parsed {
            header: None,
            info: None,
            carved: false,
            parse_error: Some(String::from_str("campaign metadata parsing is not supported yet; indexed by filename")),
            modification: None,
        };
    }
    let mut archive = match War3MapW3x::from_buffer(bytes) {
        Ok(a) => a,
        Err(e) => return unreadable_map(bytes, e.message()),
    };
    let header = copy_header(&archive.header);
    let modification = detect(&mut archive);
    match archive.read_map_info() {
        Ok(info) => {
            let mut info = info;
            if let Ok(wts) = archive.read_string_table() {
                info.resolve_trigger_strings(&wts);
            }
            Parsed { header: Some(header), info: Some(info), carved: false, parse_error: None, modification }
        },
        Err(e) => {
            proof {
                if spec_read_member(archive.archive@, "war3map.w3i") is Err {
                    lemma_member_error_text(archive.archive@, "war3map.w3i", e);
                }
            }
            Parsed {
                header: Some(header),
                info: salvage_w3i(bytes),
                carved: true,
                parse_error: Some(e.message()),
                modification,
            }
        },
    }
}

/// Read a map's metadata for its catalogue record. A malformed archive
/// becomes a record with `parse_status` `"metadata_error"` (or `"carved"` when
/// a `w3i` could still be recovered from sector data) rather than a failure.
pub fn derive(bytes: &[u8], filename: &str, content_type: &str) -> (r: Derived)
    ensures
        r@ == spec_derive(bytes@, filename@, content_type@),
{
    let parsed = parse_map(bytes, content_type);
    let fallback = fallback_name(filename);
    let info_name: Option<&str> = match &parsed.info {
        Some(w) => Some(w.name.as_str()),
        None => None,
    };
    let header_name: Option<&str> = match &parsed.header {
        Some(h) => match &h.name {
            Some(n) => Some(n.as_str()),
            None => None,
        },
        None => None,
    };
    let (name, name_source) = pick_name(
        if parsed.carved {
            None
        } else {
            info_name
        },
        header_name,
        if parsed.carved {
            info_name
        } else {
            None
        },
        fallback.as_str(),
    );
    let author = display_text(
        match &parsed.info {
            Some(w) => Some(w.author.as_str()),
            None => None,
        },
    );
    let description = display_text(
        match &parsed.info {
            Some(w) => Some(w.description.as_str()),
            None => None,
        },
    );
    let recommended_players = display_text(
        match &parsed.info {
            Some(w) => Some(w.recommended_players.as_str()),
            None => None,
        },
    );
    let header_players = match &parsed.header {
        Some(h) => h.max_players,
        None => None,
    };
    let max_players = match header_players {
        Some(n) => Some(n),
        None => match &parsed.info {
            Some(w) => Some(
                if w.players.len() as u64 <= u32::MAX as u64 {
                    w.players.len() as u32
                } else {
                    u32::MAX
                },
            ),
            None => None,
        },
    };
    let (player_count, format_version, editor_version, build_version, tileset, playable_width, playable_height) =
        match &parsed.info {
        Some(w) => (
            Some(w.players.len() as u32),
            Some(w.version.0),
            w.editor_version,
            w.build_version,
            Some(w.tileset),
            Some(w.playable_size[0]),
            Some(w.playable_size[1]),
        ),
        None => (None, None, None, None, None, None, None),
    };
    let parse_status = metadata_status(content_type, parsed.parse_error.is_none(), parsed.info.is_some());
    Derived {
        name,
        name_source,
        author,
        description,
        recommended_players,
        max_players,
        player_count,
        format_version,
        editor_version,
        build_version,
        tileset,
        playable_width,
        playable_height,
        parse_status,
        parse_error: parsed.parse_error,
        modification: parsed.modification,
    }
}

/// Whether `name`, ASCII letters lowered, ends with `pat`.
pub open spec fn ends_lower(name: Seq<char>, pat: Seq<char>) -> bool {
    name.len() >= pat.len() && lower_is(name.skip(name.len() - pat.len()), pat)
}

fn name_ends_lower(c: &Vec<char>, a: usize, b: usize, pat: &str) -> (r: bool)
    requires
        a <= b <= c@.len(),
    ensures
        r == ends_lower(c@.subrange(a as int, b as int), pat@),
{
    let p = char_vec(pat);
    if b - a < p.len() {
        return false;
    }
    let from = b - p.len();
    let r = lower_matches(c, from, b, pat);
    proof {
        let name = c@.subrange(a as int, b as int);
        assert(name.skip(name.len() - pat@.len()) =~= c@.subrange(from as int, b as int));
    }
    r
}

/// Whether a path names a partial download left by a download manager.
pub open spec fn spec_is_temporary_download(p: Seq<char>) -> bool {
    match file_name_of(p) {
        Some(name) => ends_lower(name, ".qkdownloading"@),
        None => false,
    }
}

/// Whether a path names a partial download left by a download manager.
pub fn is_temporary_download(path: &str) -> (r: bool)
    ensures
        r == spec_is_temporary_download(path@),
{
    let c = char_vec(path);
    match file_name_bounds(&c) {
        Some((a, b)) => name_ends_lower(&c, a, b, ".qkdownloading"),
        None => false,
    }
}

/// Whether a file name, ASCII letters lowered, ends with an archive
/// extension the catalogue can look inside.
pub open spec fn archive_name(name: Seq<char>) -> bool {
    ||| ends_lower(name, ".zip"@)
    ||| ends_lower(name, ".rar"@)
    ||| ends_lower(name, ".7z"@)
    ||| ends_lower(name, ".tar"@)
    ||| ends_lower(name, ".tgz"@)
    ||| ends_lower(name, ".tbz"@)
    ||| ends_lower(name, ".tbz2"@)
    ||| ends_lower(name, ".txz"@)
    ||| ends_lower(name, ".tar.gz"@)
    ||| ends_lower(name, ".tar.bz2"@)
    ||| ends_lower(name, ".tar.xz"@)
}

/// Whether a path names a compressed archive the catalogue can look inside.
pub open spec fn spec_is_archive_path(p: Seq<char>) -> bool {
    match file_name_of(p) {
        Some(name) => archive_name(name),
        None => false,
    }
}

/// Whether a path names a compressed archive the catalogue can look inside.
pub fn is_archive_path(path: &str) -> (r: bool)
    ensures
        r == spec_is_archive_path(path@),
{
    let c = char_vec(path);
    match file_name_bounds(&c) {
        Some((a, b)) => {
            name_ends_lower(&c, a, b, ".zip") || name_ends_lower(&c, a, b, ".rar") || name_ends_lower(&c, a, b, ".7z")
                || name_ends_lower(&c, a, b, ".tar") || name_ends_lower(&c, a, b, ".tgz") || name_ends_lower(
                &c,
                a,
                b,
                ".tbz",
            ) || name_ends_lower(&c, a, b, ".tbz2") || name_ends_lower(&c, a, b, ".txz") || name_ends_lower(
                &c,
                a,
                b,
                ".tar.gz",
            ) || name_ends_lower(&c, a, b, ".tar.bz2") || name_ends_lower(&c, a, b, ".tar.xz")
        },
        None => false,
    }
}

/// The download link of a dataset object, when the dataset has a repository.
pub open spec fn spec_hf_resolve_url(repo: Option<Seq<char>>, dataset_path: Seq<char>) -> Option<Seq<char>> {
    match repo {
        Some(r) => Some(
            "https://huggingface.co/datasets/"@ + r + "/resolve/main/"@ + dataset_path + "?download=true"@,
        ),
        None => None,
    }
}

/// The download link of a dataset object, when the dataset has a repository.
pub fn hf_resolve_url(repo: Option<&str>, dataset_path: &str) -> (r: Option<String>)
    ensures
        opt_view(r) == spec_hf_resolve_url(opt_str(repo), dataset_path@),
{
    match repo {
        Some(repo) => {
            let mut url = String::from_str("https://huggingface.co/datasets/");
            url.append(repo);
            url.append("/resolve/main/");
            url.append(dataset_path);
            url.append("?download=true");
            Some(url)
        },
        None => None,
    }
}

/// `s` split at every `\n`: the pieces between, empty ones included.
pub open spec fn split_newlines(s: Seq<char>) -> Seq<Seq<char>>
    decreases s.len(),
{
    if s.len() == 0 {
        seq![Seq::empty()]
    } else {
        let p = split_newlines(s.drop_last());
        if s.last() == '\n' {
            p.push(Seq::empty())
        } else {
            p.update(p.len() - 1, p.last().push(s.last()))
        }
    }
}

/// A terminated line without its `\r`, if it has one.
pub open spec fn strip_cr(l: Seq<char>) -> Seq<char> {
    if l.len() > 0 && l.last() == '\r' {
        l.drop_last()
    } else {
        l
    }
}

/// The lines of a text as `str::lines` gives them: split at `\n`, a `\r`
/// before it dropped, and no empty line after a final line ending.
pub open spec fn text_lines(s: Seq<char>) -> Seq<Seq<char>> {
    let p = split_newlines(s);
    p.drop_last().map_values(|l: Seq<char>| strip_cr(l)) + (if p.last().len() > 0 {
        seq![p.last()]
    } else {
        Seq::empty()
    })
}

/// Lexicographic order of character sequences (the order of `String`s).
pub open spec fn lex_lt(a: Seq<char>, b: Seq<char>) -> bool
    decreases a.len(),
{
    if a.len() == 0 {
        b.len() > 0
    } else if b.len() == 0 {
        false
    } else if a[0] != b[0] {
        a[0] < b[0]
    } else {
        lex_lt(a.skip(1), b.skip(1))
    }
}

pub(crate) proof fn lemma_lex_irreflexive(a: Seq<char>)
    ensures
        !lex_lt(a, a),
    decreases a.len(),
{
    if a.len() > 0 {
        lemma_lex_irreflexive(a.skip(1));
    }
}

pub(crate) proof fn lemma_lex_total(a: Seq<char>, b: Seq<char>)
    ensures
        a == b || lex_lt(a, b) || lex_lt(b, a),
    decreases a.len(),
{
    if a.len() > 0 && b.len() > 0 && a[0] == b[0] {
        lemma_lex_total(a.skip(1), b.skip(1));
        if a.skip(1) == b.skip(1) {
            assert(a =~= seq![a[0]] + a.skip(1));
            assert(b =~= seq![b[0]] + b.skip(1));
        }
    } else if a.len() == 0 && b.len() == 0 {
        assert(a =~= b);
    }
}

pub(crate) proof fn lemma_lex_trans(a: Seq<char>, b: Seq<char>, c: Seq<char>)
    requires
        lex_lt(a, b),
        lex_lt(b, c),
    ensures
        lex_lt(a, c),
    decreases a.len(),
{
    if a.len() > 0 && b.len() > 0 && c.len() > 0 && a[0] == b[0] && b[0] == c[0] {
        lemma_lex_trans(a.skip(1), b.skip(1), c.skip(1));
    }
}

/// Strictly increasing in lexicographic order.
pub open spec fn sorted_strict(s: Seq<Seq<char>>) -> bool {
    forall|i: int, j: int| 0 <= i < j < s.len() ==> lex_lt(#[trigger] s[i], #[trigger] s[j])
}

/// The views of a list of character vectors.
pub open spec fn char_views(v: Seq<Vec<char>>) -> Seq<Seq<char>> {
    v.map_values(|x: Vec<char>| x@)
}

pub(crate) fn lex_less(a: &Vec<char>, b: &Vec<char>) -> (r: bool)
    ensures
        r == lex_lt(a@, b@),
{
    assert(a@.skip(0) =~= a@);
    assert(b@.skip(0) =~= b@);
    let mut i: usize = 0;
    while i < a.len() && i < b.len() && a[i] == b[i]
        invariant
            i <= a@.len(),
            i <= b@.len(),
            lex_lt(a@, b@) == lex_lt(a@.skip(i as int), b@.skip(i as int)),
        decreases a@.len() - i,
    {
        proof {
            let x = a@.skip(i as int);
            let y = b@.skip(i as int);
            assert(x.skip(1) =~= a@.skip(i + 1));
            assert(y.skip(1) =~= b@.skip(i + 1));
        }
        i += 1;
    }
    proof {
        assert(a@.skip(i as int).len() == a@.len() - i);
        if i < a@.len() && i < b@.len() {
            assert(a@.skip(i as int)[0] == a@[i as int]);
            assert(b@.skip(i as int)[0] == b@[i as int]);
        }
    }
    if i == a.len() {
        i < b.len()
    } else if i == b.len() {
        false
    } else {
        a[i] < b[i]
    }
}

pub(crate) proof fn lemma_insert_to_set<T>(s: Seq<T>, p: int, k: T)
    requires
        0 <= p <= s.len(),
    ensures
        s.insert(p, k).to_set() == s.to_set().insert(k),
{
    let t = s.insert(p, k);
    assert forall|x: T| t.to_set().contains(x) <==> s.to_set().insert(k).contains(x) by {
        if t.contains(x) {
            let i = choose|i: int| 0 <= i < t.len() && t[i] == x;
            if i < p {
                assert(s[i] == x);
            } else if i > p {
                assert(s[i - 1] == x);
            }
        }
        if s.contains(x) {
            let i = choose|i: int| 0 <= i < s.len() && s[i] == x;
            if i < p {
                assert(t[i] == x);
            } else {
                assert(t[i + 1] == x);
            }
        }
        if x == k {
            assert(t[p] == k);
        }
    }
    assert(t.to_set() =~= s.to_set().insert(k));
}

/// Insert `key` into a strictly sorted list, unless it is already there.
pub(crate) fn insert_sorted(keys: &mut Vec<Vec<char>>, names: &mut Vec<String>, key: Vec<char>)
    requires
        sorted_strict(char_views(old(keys)@)),
        crate::w3x::string_views(old(names)@) == char_views(old(keys)@),
    ensures
        sorted_strict(char_views(final(keys)@)),
        crate::w3x::string_views(final(names)@) == char_views(final(keys)@),
        char_views(final(keys)@).to_set() == char_views(old(keys)@).to_set().insert(key@),
{
    let ghost old_keys = char_views(keys@);
    let n = keys.len();
    let mut p: usize = 0;
    while p < n && lex_less(&keys[p], &key)
        invariant
            n == keys@.len(),
            p <= n,
            old_keys == char_views(keys@),
            forall|i: int| 0 <= i < p ==> lex_lt(#[trigger] old_keys[i], key@),
        decreases n - p,
    {
        p += 1;
    }
    if p < n && !lex_less(&key, &keys[p]) {
        proof {
            lemma_lex_total(key@, old_keys[p as int]);
            assert(old_keys[p as int] == key@);
            assert(old_keys.to_set().insert(key@) =~= old_keys.to_set());
        }
        return;
    }
    let name = string_from_chars(key.as_slice());
    let ghost k = key@;
    keys.insert(p, key);
    names.insert(p, name);
    proof {
        let new_keys = char_views(keys@);
        assert(new_keys =~= old_keys.insert(p as int, k));
        assert(crate::w3x::string_views(names@) =~= new_keys);
        assert forall|j: int| p <= j < old_keys.len() implies lex_lt(k, #[trigger] old_keys[j]) by {
            if j == p {
            } else {
                lemma_lex_total(k, old_keys[p as int]);
                lemma_lex_trans(k, old_keys[p as int], old_keys[j]);
            }
        }
        assert forall|i: int, j: int| 0 <= i < j < new_keys.len() implies lex_lt(
            #[trigger] new_keys[i],
            #[trigger] new_keys[j],
        ) by {
            if j < p {
            } else if j == p {
            } else if i < p {
                assert(lex_lt(old_keys[i], k));
                assert(lex_lt(k, old_keys[j - 1]));
                lemma_lex_trans(old_keys[i], k, old_keys[j - 1]);
            } else if i == p {
            } else {
            }
        }
        lemma_insert_to_set(old_keys, p as int, k);
    }
}

/// The lines among `ls` that name a map or campaign.
pub open spec fn map_lines(ls: Seq<Seq<char>>) -> Set<Seq<char>>
    decreases ls.len(),
{
    if ls.len() == 0 {
        Set::empty()
    } else if spec_map_extension(ls.last()) is Some {
        map_lines(ls.drop_last()).insert(ls.last())
    } else {
        map_lines(ls.drop_last())
    }
}

/// The map and campaign entries of an archive listing.
pub open spec fn listing_entries(text: Seq<char>) -> Set<Seq<char>> {
    map_lines(text_lines(text))
}

proof fn lemma_split_newlines_nonempty(s: Seq<char>)
    ensures
        split_newlines(s).len() >= 1,
    decreases s.len(),
{
    if s.len() > 0 {
        lemma_split_newlines_nonempty(s.drop_last());
    }
}

proof fn lemma_map_lines_push(ls: Seq<Seq<char>>, l: Seq<char>)
    ensures
        map_lines(ls.push(l)) == if spec_map_extension(l) is Some {
            map_lines(ls).insert(l)
        } else {
            map_lines(ls)
        },
{
    assert(ls.push(l).drop_last() =~= ls);
}

fn line_chars(c: &Vec<char>, from: usize, to: usize) -> (l: Vec<char>)
    requires
        from <= to <= c@.len(),
    ensures
        l@ == c@.subrange(from as int, to as int),
{
    let mut l: Vec<char> = Vec::new();
    let mut k = from;
    while k < to
        invariant
            from <= k <= to <= c@.len(),
            l@ == c@.subrange(from as int, k as int),
        decreases to - k,
    {
        l.push(c[k]);
        k += 1;
    }
    l
}

fn consider_line(keys: &mut Vec<Vec<char>>, names: &mut Vec<String>, line: Vec<char>)
    requires
        sorted_strict(char_views(old(keys)@)),
        crate::w3x::string_views(old(names)@) == char_views(old(keys)@),
    ensures
        sorted_strict(char_views(final(keys)@)),
        crate::w3x::string_views(final(names)@) == char_views(final(keys)@),
        char_views(final(keys)@).to_set() == if spec_map_extension(line@) is Some {
            char_views(old(keys)@).to_set().insert(line@)
        } else {
            char_views(old(keys)@).to_set()
        },
{
    let text = string_from_chars(line.as_slice());
    if is_map_path(text.as_str()) {
        insert_sorted(keys, names, line);
    }
}

/// The map and campaign entries of an archive listing, sorted, each once.
pub fn map_entries_from_listing(listing: &[u8]) -> (entries: Vec<String>)
    ensures
        sorted_strict(crate::w3x::string_views(entries@)),
        crate::w3x::string_views(entries@).to_set() == listing_entries(utf8_lossy(listing@)),
{
    let text = crate::text::lossy_string(listing);
    let c = char_vec(text.as_str());
    let n = c.len();
    let mut keys: Vec<Vec<char>> = Vec::new();
    let mut names: Vec<String> = Vec::new();
    let mut start: usize = 0;
    let mut i: usize = 0;
    proof {
        assert(c@.take(0) =~= Seq::<char>::empty());
        assert(split_newlines(c@.take(0)).drop_last().map_values(|l: Seq<char>| strip_cr(l)) =~= Seq::<
            Seq<char>,
        >::empty());
        assert(char_views(keys@) =~= Seq::<Seq<char>>::empty());
        assert(crate::w3x::string_views(names@) =~= Seq::<Seq<char>>::empty());
        assert(char_views(keys@).to_set() =~= Set::<Seq<char>>::empty());
    }
    while i < n
        invariant
            n == c@.len(),
            start <= i <= n,
            split_newlines(c@.take(i as int)).len() >= 1,
            split_newlines(c@.take(i as int)).last() == c@.subrange(start as int, i as int),
            sorted_strict(char_views(keys@)),
            crate::w3x::string_views(names@) == char_views(keys@),
            char_views(keys@).to_set() == map_lines(
                split_newlines(c@.take(i as int)).drop_last().map_values(|l: Seq<char>| strip_cr(l)),
            ),
        decreases n - i,
    {
        let ghost lines = split_newlines(c@.take(i as int));
        proof {
            assert(c@.take(i + 1).drop_last() =~= c@.take(i as int));
            assert(c@.take(i + 1).last() == c@[i as int]);
            lemma_split_newlines_nonempty(c@.take(i as int));
        }
        if c[i] == '\n' {
            let end = if i > start && c[i - 1] == '\r' {
                i - 1
            } else {
                i
            };
            let line = line_chars(&c, start, end);
            proof {
                let piece = c@.subrange(start as int, i as int);
                assert(strip_cr(piece) =~= line@);
            }
            consider_line(&mut keys, &mut names, line);
            proof {
                let next = split_newlines(c@.take(i + 1));
                assert(next == lines.push(Seq::empty()));
                assert(next.drop_last() =~= lines);
                assert(lines.map_values(|l: Seq<char>| strip_cr(l)) =~= lines.drop_last().map_values(
                    |l: Seq<char>| strip_cr(l),
                ).push(strip_cr(lines.last())));
                lemma_map_lines_push(
                    lines.drop_last().map_values(|l: Seq<char>| strip_cr(l)),
                    strip_cr(lines.last()),
                );
                assert(c@.subrange(i + 1, i + 1) =~= Seq::<char>::empty());
            }
            start = i + 1;
        } else {
            proof {
                let next = split_newlines(c@.take(i + 1));
                assert(next == lines.update(lines.len() - 1, lines.last().push(c@[i as int])));
                assert(next.drop_last() =~= lines.drop_last());
                assert(next.last() =~= c@.subrange(start as int, i + 1));
            }
        }
        i += 1;
    }
    proof {
        assert(c@.take(n as int) =~= c@);
    }
    if start < n {
        let line = line_chars(&c, start, n);
        consider_line(&mut keys, &mut names, line);
        proof {
            let lines = split_newlines(c@);
            let front = lines.drop_last().map_values(|l: Seq<char>| strip_cr(l));
            assert(text_lines(c@) =~= front.push(lines.last()));
            lemma_map_lines_push(front, lines.last());
        }
    } else {
        proof {
            let lines = split_newlines(c@);
            let front = lines.drop_last().map_values(|l: Seq<char>| strip_cr(l));
            assert(lines.last().len() == 0);
            assert(text_lines(c@) =~= front);
        }
    }
    names
}

} // verus!

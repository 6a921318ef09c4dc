//! Catalogue records: content addressing, covers, and the record each map
//! gets in a content-addressed dataset.
use crate::catalog::{
    char_views, hf_resolve_url, insert_sorted, lemma_member_error_text, member_error_text, lemma_lex_total, lex_less, lex_lt, normalized_extension, opt_str, same_text,
    sorted_strict, spec_derive, spec_hf_resolve_url, spec_map_extension, Derived, DerivedView,
};
use crate::w3x::string_views;
use crate::error::{error_text, mpq_error_text};
use crate::formats::w3i::{spec_parse_w3i, W3iView, War3MapW3i};
use crate::modscan::{detect, spec_detect_in_script, spec_read_script, ModInfo};
use crate::reader::opt_view;
use crate::model::image::{base64_standard, decoded_image, encode_base64, encode_png, png_of_rgba, War3Image};
use crate::mpq::archive::{spec_load, ArchiveView};
use crate::model::header::spec_header;
use crate::text::{char_vec, string_from_chars};
use crate::w3x::{holds, spec_read_member, War3MapW3x};
use sha2::Digest;
use vstd::prelude::*;
use vstd::string::StringExecFns;

verus! {

/// The SHA-256 digest of `bytes`.
pub uninterp spec fn sha256_digest(bytes: Seq<u8>) -> Seq<u8>;

/// Calls `sha2::Sha256::digest`. The digest is named, not stated; what is
/// stated is its length, 32 bytes (`U32` in the crate's output type).
#[verifier::external_body]
fn sha256_of(bytes: &[u8]) -> (d: Vec<u8>)
    ensures
        d@ == sha256_digest(bytes@),
        d@.len() == 32,
{
    sha2::Sha256::digest(bytes).to_vec()
}

/// The lower-case hexadecimal digit for `n < 16`.
pub open spec fn hex_digit(n: int) -> char {
    if n < 10 {
        (n + 48) as char
    } else {
        (n + 87) as char
    }
}

/// `d` in lower-case hexadecimal, two digits per byte, as `{:x}` formats a
/// digest.
pub open spec fn hex_lower(d: Seq<u8>) -> Seq<char>
    decreases d.len(),
{
    if d.len() == 0 {
        Seq::empty()
    } else {
        hex_lower(d.drop_last()) + seq![hex_digit(d.last() as int / 16), hex_digit(d.last() as int % 16)]
    }
}

proof fn lemma_hex_len(d: Seq<u8>)
    ensures
        hex_lower(d).len() == 2 * d.len(),
        vstd::utf8::is_ascii_chars(hex_lower(d)),
    decreases d.len(),
{
    if d.len() > 0 {
        lemma_hex_len(d.drop_last());
        let h = hex_lower(d);
        let p = hex_lower(d.drop_last());
        assert forall|i: int| 0 <= i < h.len() implies '\0' <= #[trigger] h[i] <= '\u{7f}' by {
            if i < p.len() {
                assert(h[i] == p[i]);
            }
        }
    }
}

fn hex_char(n: u8) -> (c: char)
    requires
        n < 16,
    ensures
        c == hex_digit(n as int),
{
    match n {
        0 => '0',
        1 => '1',
        2 => '2',
        3 => '3',
        4 => '4',
        5 => '5',
        6 => '6',
        7 => '7',
        8 => '8',
        9 => '9',
        10 => 'a',
        11 => 'b',
        12 => 'c',
        13 => 'd',
        14 => 'e',
        _ => 'f',
    }
}

/// The content address of `bytes`: their SHA-256 in lower-case hexadecimal.
pub fn sha256_hex(bytes: &[u8]) -> (s: String)
    ensures
        s@ == hex_lower(sha256_digest(bytes@)),
        s@.len() == 64,
        vstd::utf8::is_ascii_chars(s@),
{
    let d = sha256_of(bytes);
    let mut out: Vec<char> = Vec::new();
    let mut i: usize = 0;
    while i < d.len()
        invariant
            i <= d@.len(),
            out@ == hex_lower(d@.take(i as int)),
        decreases d@.len() - i,
    {
        let b = d[i];
        out.push(hex_char(b / 16));
        out.push(hex_char(b % 16));
        proof {
            assert(d@.take(i + 1).drop_last() =~= d@.take(i as int));
            assert(out@ =~= hex_lower(d@.take(i + 1)));
        }
        i += 1;
    }
    proof {
        assert(d@.take(d@.len() as int) =~= d@);
        lemma_hex_len(d@);
    }
    string_from_chars(out.as_slice())
}

/// Where an object lives in the dataset: `objects/<first two digits>/<digest>.<extension>`.
pub open spec fn spec_dataset_path(sha256: Seq<char>, extension: Seq<char>) -> Seq<char> {
    "objects/"@ + sha256.take(2) + "/"@ + sha256 + "."@ + extension
}

/// The dataset path of an object with content address `sha256` (ASCII, as a
/// hexadecimal digest is).
pub fn dataset_path(sha256: &str, extension: &str) -> (p: String)
    requires
        vstd::string::is_ascii(sha256),
        sha256@.len() >= 2,
    ensures
        p@ == spec_dataset_path(sha256@, extension@),
{
    let c = char_vec(sha256);
    let shard = string_from_chars(&c.as_slice()[0..2]);
    proof {
        assert(c@.subrange(0, 2) =~= sha256@.take(2));
    }
    let mut p = String::from_str("objects/");
    p.append(shard.as_str());
    p.append("/");
    p.append(sha256);
    p.append(".");
    p.append(extension);
    p
}

/// The content type of a file by its normalised extension: a campaign for
/// `w3n`, a map otherwise.
pub open spec fn spec_content_type(extension: Seq<char>) -> Seq<char> {
    if extension == "w3n"@ {
        "campaign"@
    } else {
        "map"@
    }
}

/// The content type of a file with the normalised `extension`.
pub fn content_type_for(extension: &str) -> (t: &'static str)
    ensures
        t@ == spec_content_type(extension@),
{
    if crate::catalog::same_text(extension, "w3n") {
        "campaign"
    } else {
        "map"
    }
}

/// The category of a map without one of its own.
pub open spec fn uncategorised() -> Seq<char> {
    "未分类"@
}

/// `s` with every trailing `.tar` removed.
pub open spec fn trim_tar(s: Seq<char>) -> Seq<char>
    decreases s.len(),
{
    if s.len() >= 4 && s.subrange(s.len() - 4, s.len() as int) == ".tar"@ {
        trim_tar(s.subrange(0, s.len() - 4))
    } else {
        s
    }
}

/// The category of a map found at a path whose components below the input
/// root are `relative`: the first directory below the root; for a map taken
/// out of an archive that lies directly in the root, the archive's file stem
/// without its trailing `.tar`s; otherwise the uncategorised label.
pub open spec fn spec_category(relative: Seq<Seq<char>>, file_stem: Option<Seq<char>>, from_archive: bool) -> Seq<char> {
    if relative.len() > 1 {
        relative[0]
    } else if from_archive {
        match file_stem {
            Some(stem) => trim_tar(stem),
            None => trim_tar(uncategorised()),
        }
    } else {
        uncategorised()
    }
}

/// The category of a map at a path with the components `relative` below the
/// input root and the file stem `file_stem` (`None` where it is not UTF-8);
/// `from_archive` tells a map taken out of an archive.
pub fn category_for(relative: &[String], file_stem: Option<&str>, from_archive: bool) -> (c: String)
    ensures
        c@ == spec_category(relative@.map_values(|p: String| p@), opt_str(file_stem), from_archive),
{
    if relative.len() > 1 {
        return relative[0].clone();
    }
    if !from_archive {
        return String::from_str("未分类");
    }
    let stem = match file_stem {
        Some(stem) => stem,
        None => "未分类",
    };
    let chars = char_vec(stem);
    let mut end: usize = chars.len();
    proof {
        assert(chars@.subrange(0, chars@.len() as int) =~= chars@);
        reveal_strlit(".tar");
    }
    while end >= 4 && chars[end - 4] == '.' && chars[end - 3] == 't' && chars[end - 2] == 'a' && chars[end - 1] == 'r'
        invariant
            end <= chars@.len(),
            trim_tar(chars@) == trim_tar(chars@.subrange(0, end as int)),
        decreases end,
    {
        proof {
            let t = chars@.subrange(0, end as int);
            reveal_strlit(".tar");
            assert(t.subrange(t.len() - 4, t.len() as int) =~= ".tar"@);
            assert(t.subrange(0, t.len() - 4) =~= chars@.subrange(0, end - 4));
        }
        end = end - 4;
    }
    proof {
        let t = chars@.subrange(0, end as int);
        if t.len() >= 4 && t.subrange(t.len() - 4, t.len() as int) == ".tar"@ {
            reveal_strlit(".tar");
            assert(t.subrange(t.len() - 4, t.len() as int)[0] == t[t.len() - 4]);
            assert(t.subrange(t.len() - 4, t.len() as int)[1] == t[t.len() - 3]);
            assert(t.subrange(t.len() - 4, t.len() as int)[2] == t[t.len() - 2]);
            assert(t.subrange(t.len() - 4, t.len() as int)[3] == t[t.len() - 1]);
        }
    }
    string_from_chars(&chars.as_slice()[0..end])
}

/// What a rescan does about a stored object's cover: the cover status it
/// starts from (`"ok"` when a cover file is already on disk, else
/// `"missing"`), and whether the cover is extracted again, which happens for
/// maps only, when forced or when the cover is missing.
pub open spec fn spec_rescan_cover(content_type: Seq<char>, force_covers: bool, cover_on_disk: bool) -> (Seq<char>, bool) {
    (if cover_on_disk { "ok"@ } else { "missing"@ }, content_type == "map"@ && (force_covers || !cover_on_disk))
}

/// The cover decision of a rescan for an object of `content_type`.
pub fn rescan_cover(content_type: &str, force_covers: bool, cover_on_disk: bool) -> (r: (&'static str, bool))
    ensures
        (r.0@, r.1) == spec_rescan_cover(content_type@, force_covers, cover_on_disk),
{
    let status = if cover_on_disk {
        "ok"
    } else {
        "missing"
    };
    let extract = crate::catalog::same_text(content_type, "map") && (force_covers || !cover_on_disk);
    (status, extract)
}

/// The JPEG file the `image` crate writes for the thumbnail, at most
/// `max_side` pixels a side, of a `width` x `height` RGBA image, at JPEG
/// quality `quality`; `None` when it writes none.
pub uninterp spec fn jpeg_thumbnail(width: u32, height: u32, rgba: Seq<u8>, max_side: u32, quality: u8) -> Option<Seq<u8>>;

/// Calls `image::RgbaImage::from_raw`, `DynamicImage::thumbnail(max_side,
/// max_side)` and `write_to` with `ImageOutputFormat::Jpeg(quality)`. The JPEG
/// bytes are named, not stated. The JPEG encoder asserts that the buffer holds
/// four bytes per pixel, which `requires` asks for.
#[verifier::external_body]
fn thumbnail_jpeg(width: u32, height: u32, rgba: &[u8], max_side: u32, quality: u8) -> (r: Option<Vec<u8>>)
    requires
        rgba@.len() == 4 * width * height,
    ensures
        match r {
            Some(v) => jpeg_thumbnail(width, height, rgba@, max_side, quality) == Some(v@),
            None => jpeg_thumbnail(width, height, rgba@, max_side, quality) is None,
        },
{
    let image = image::RgbaImage::from_raw(width, height, rgba.to_vec())?;
    let thumbnail = image::DynamicImage::ImageRgba8(image).thumbnail(max_side, max_side);
    let mut jpeg = std::io::Cursor::new(Vec::new());
    thumbnail.write_to(&mut jpeg, image::ImageOutputFormat::Jpeg(quality)).ok()?;
    Some(jpeg.into_inner())
}

/// Longest side of a cover thumbnail, in pixels.
pub const COVER_SIDE: u32 = 128;

/// JPEG quality of a cover thumbnail.
pub const COVER_QUALITY: u8 = 65;

/// The cover candidates in lookup order, each with the tier it reports:
/// `war3mapPreview.*` first, then `war3mapMap.*`.
pub open spec fn cover_candidates() -> Seq<(&'static str, &'static str)> {
    seq![
        ("war3mapPreview.tga", "preview"),
        ("war3mapPreview.blp", "preview"),
        ("war3mapMap.blp", "map"),
        ("war3mapMap.tga", "map"),
    ]
}

/// The cover found among `cands` from `i` on: the first candidate the archive
/// holds, reads and decodes is made a JPEG thumbnail; if that fails the scan
/// ends in an error, and if no candidate serves the cover is missing.
pub open spec fn cover_scan(a: ArchiveView, cands: Seq<(&'static str, &'static str)>, i: int) -> (
    Option<Seq<char>>,
    Option<Seq<char>>,
    Seq<char>,
)
    decreases cands.len() - i,
{
    if i < 0 || i >= cands.len() {
        (None, None, "missing"@)
    } else {
        let (name, source) = cands[i];
        let next = cover_scan(a, cands, i + 1);
        if !holds(a, name) {
            next
        } else {
            match spec_read_member(a, name) {
                Err(_) => next,
                Ok(d) => match decoded_image(d) {
                    None => next,
                    Some((w, h, p)) => match jpeg_thumbnail(w, h, p, COVER_SIDE, COVER_QUALITY) {
                        None => (None, None, "error"@),
                        Some(j) => (Some("data:image/jpeg;base64,"@ + base64_standard(j)), Some(source@), "ok"@),
                    },
                },
            }
        }
    }
}

/// The cover of the map `bytes`: missing when the map cannot be opened.
pub open spec fn spec_cover(bytes: Seq<u8>) -> (Option<Seq<char>>, Option<Seq<char>>, Seq<char>) {
    if spec_header(bytes) is Ok && spec_load(bytes) is Ok {
        cover_scan(spec_load(bytes)->Ok_0, cover_candidates(), 0)
    } else {
        (None, None, "missing"@)
    }
}

/// The optional view of an optional `String`.
pub open spec fn opt_string(o: Option<String>) -> Option<Seq<char>> {
    match o {
        Some(s) => Some(s@),
        None => None,
    }
}

/// The optional view of an optional static string.
pub open spec fn opt_static(o: Option<&'static str>) -> Option<Seq<char>> {
    match o {
        Some(s) => Some(s@),
        None => None,
    }
}

/// Encode the first cover candidate that decodes as a JPEG thumbnail data
/// URL.
fn cover_from(w3x: &mut War3MapW3x) -> (r: (Option<String>, Option<&'static str>, &'static str))
    requires
        old(w3x).wf(),
    ensures
        (opt_string(r.0), opt_static(r.1), r.2@) == cover_scan(old(w3x).archive@, cover_candidates(), 0),
{
    let candidates = [
        ("war3mapPreview.tga", "preview"),
        ("war3mapPreview.blp", "preview"),
        ("war3mapMap.blp", "map"),
        ("war3mapMap.tga", "map"),
    ];
    assert(candidates@ == cover_candidates());
    let ghost a = w3x.archive@;
    let mut k: usize = 0;
    while k < candidates.len()
        invariant
            w3x.archive@ == a,
            a == old(w3x).archive@,
            w3x.wf(),
            k <= 4,
            candidates@ == cover_candidates(),
            cover_scan(a, cover_candidates(), 0) == cover_scan(a, cover_candidates(), k as int),
        decreases 4 - k,
    {
        let (name, source) = candidates[k];
        let present = w3x.has(name);
        assert(present == holds(a, name)) by {
            reveal(crate::w3x::holds);
        }
        if present {
            if let Ok(data) = w3x.read_file(name) {
                if let Ok(image) = War3Image::from_buffer(data.as_slice(), name) {
                    match thumbnail_jpeg(image.width, image.height, image.rgba.as_slice(), COVER_SIDE, COVER_QUALITY) {
                        Some(jpeg) => {
                            let mut url = String::from_str("data:image/jpeg;base64,");
                            url.append(encode_base64(jpeg.as_slice()).as_str());
                            return (Some(url), Some(source), "ok");
                        },
                        None => {
                            return (None, None, "error");
                        },
                    }
                }
            }
        }
        k += 1;
    }
    (None, None, "missing")
}

/// The cover of a map: a JPEG thumbnail, as a data URL, of the first cover
/// candidate the archive holds and decodes, with the tier it came from and
/// the status `"ok"`; `"missing"` when there is none or the map cannot be
/// opened, `"error"` when the thumbnail cannot be encoded.
pub fn extract_cover(bytes: &[u8]) -> (r: (Option<String>, Option<&'static str>, &'static str))
    ensures
        (opt_string(r.0), opt_static(r.1), r.2@) == spec_cover(bytes@),
{
    match War3MapW3x::from_buffer(bytes) {
        Ok(mut archive) => cover_from(&mut archive),
        Err(_) => (None, None, "missing"),
    }
}

/// The PNG cover found among `cands` from `i` on: the first candidate the
/// archive holds, reads, decodes and encodes as a PNG, with its tier; `None`
/// when no candidate serves.
pub open spec fn cover_png_scan(a: ArchiveView, cands: Seq<(&'static str, &'static str)>, i: int) -> Option<
    (Seq<u8>, Seq<char>),
>
    decreases cands.len() - i,
{
    if i < 0 || i >= cands.len() {
        None
    } else {
        let (name, source) = cands[i];
        let next = cover_png_scan(a, cands, i + 1);
        if !holds(a, name) {
            next
        } else {
            match spec_read_member(a, name) {
                Err(_) => next,
                Ok(d) => match decoded_image(d) {
                    None => next,
                    Some((w, h, p)) => match png_of_rgba(w, h, p) {
                        None => next,
                        Some(png) => Some((png, source@)),
                    },
                },
            }
        }
    }
}

/// The PNG cover of the map `bytes`: none when the map cannot be opened.
pub open spec fn spec_cover_png(bytes: Seq<u8>) -> Option<(Seq<u8>, Seq<char>)> {
    if spec_header(bytes) is Ok && spec_load(bytes) is Ok {
        cover_png_scan(spec_load(bytes)->Ok_0, cover_candidates(), 0)
    } else {
        None
    }
}

/// The view of a PNG cover and its tier.
pub open spec fn png_cover_view(r: Option<(Vec<u8>, &'static str)>) -> Option<(Seq<u8>, Seq<char>)> {
    match r {
        Some((png, tier)) => Some((png@, tier@)),
        None => None,
    }
}

proof fn lemma_png_cover_tier(a: ArchiveView, i: int)
    ensures
        cover_png_scan(a, cover_candidates(), i) matches Some((png, tier)) ==> tier == "preview"@ || tier == "map"@,
    decreases 4 - i,
{
    if 0 <= i < 4 {
        lemma_png_cover_tier(a, i + 1);
    }
}

/// Encode the first cover candidate that decodes as a PNG.
fn png_from(w3x: &mut War3MapW3x) -> (r: Option<(Vec<u8>, &'static str)>)
    requires
        old(w3x).wf(),
    ensures
        png_cover_view(r) == cover_png_scan(old(w3x).archive@, cover_candidates(), 0),
{
    let candidates = [
        ("war3mapPreview.tga", "preview"),
        ("war3mapPreview.blp", "preview"),
        ("war3mapMap.blp", "map"),
        ("war3mapMap.tga", "map"),
    ];
    assert(candidates@ == cover_candidates());
    let ghost a = w3x.archive@;
    let mut k: usize = 0;
    while k < candidates.len()
        invariant
            w3x.archive@ == a,
            a == old(w3x).archive@,
            w3x.wf(),
            k <= 4,
            candidates@ == cover_candidates(),
            cover_png_scan(a, cover_candidates(), 0) == cover_png_scan(a, cover_candidates(), k as int),
        decreases 4 - k,
    {
        let (name, source) = candidates[k];
        let present = w3x.has(name);
        assert(present == holds(a, name)) by {
            reveal(crate::w3x::holds);
        }
        if present {
            if let Ok(data) = w3x.read_file(name) {
                if let Ok(image) = War3Image::from_buffer(data.as_slice(), name) {
                    if let Some(png) = encode_png(image.width, image.height, image.rgba.as_slice()) {
                        return Some((png, source));
                    }
                }
            }
        }
        k += 1;
    }
    None
}

/// The cover of a map as a PNG file, with the tier it came from
/// (`"preview"` or `"map"`): the first cover candidate the archive holds,
/// decodes and encodes; `None` when there is none or the map cannot be
/// opened.
pub fn cover_png(bytes: &[u8]) -> (r: Option<(Vec<u8>, &'static str)>)
    ensures
        png_cover_view(r) == spec_cover_png(bytes@),
        r matches Some((png, tier)) ==> tier@ == "preview"@ || tier@ == "map"@,
{
    proof {
        reveal_strlit("preview");
        reveal_strlit("map");
    }
    match War3MapW3x::from_buffer(bytes) {
        Ok(mut archive) => {
            let ghost a = archive.archive@;
            let r = png_from(&mut archive);
            proof {
                lemma_png_cover_tier(a, 0);
            }
            r
        },
        Err(_) => None,
    }
}

/// A map's record in the catalogue.
pub struct MapRecord {
    /// The content address.
    pub sha256: String,
    /// What the record derives from the map's bytes.
    pub derived: Derived,
    pub category: String,
    pub filename: String,
    pub extension: String,
    pub format: String,
    pub content_type: &'static str,
    pub size: u64,
    pub dataset_path: String,
    pub download_url: Option<String>,
    pub cover_data: Option<String>,
    pub cover_source: Option<&'static str>,
    pub cover_status: &'static str,
    /// Every place the map was found, sorted, each once.
    pub source_paths: Vec<String>,
}

/// A catalogue record as the library sees it.
pub struct MapRecordView {
    pub sha256: Seq<char>,
    pub derived: DerivedView,
    pub category: Seq<char>,
    pub filename: Seq<char>,
    pub extension: Seq<char>,
    pub format: Seq<char>,
    pub content_type: Seq<char>,
    pub size: u64,
    pub dataset_path: Seq<char>,
    pub download_url: Option<Seq<char>>,
    pub cover_data: Option<Seq<char>>,
    pub cover_source: Option<Seq<char>>,
    pub cover_status: Seq<char>,
    pub source_paths: Seq<Seq<char>>,
}

impl View for MapRecord {
    type V = MapRecordView;

    open spec fn view(&self) -> MapRecordView {
        MapRecordView {
            sha256: self.sha256@,
            derived: self.derived@,
            category: self.category@,
            filename: self.filename@,
            extension: self.extension@,
            format: self.format@,
            content_type: self.content_type@,
            size: self.size,
            dataset_path: self.dataset_path@,
            download_url: opt_string(self.download_url),
            cover_data: opt_string(self.cover_data),
            cover_source: opt_static(self.cover_source),
            cover_status: self.cover_status@,
            source_paths: crate::w3x::string_views(self.source_paths@),
        }
    }
}

/// The extension a map's object is stored under: its own map extension,
/// lower-cased, or `w3x`.
pub open spec fn object_extension(filename: Seq<char>) -> Seq<char> {
    match spec_map_extension(filename) {
        Some(e) => e,
        None => "w3x"@,
    }
}

/// The record of the map `bytes` first found at `source` under `filename`.
///
/// A campaign gets no cover; its metadata is not parsed either.
#[verifier::opaque]
pub open spec fn spec_new_record(
    bytes: Seq<u8>,
    source: Seq<char>,
    filename: Seq<char>,
    category: Seq<char>,
    hf_repo: Option<Seq<char>>,
) -> MapRecordView {
    let sha256 = hex_lower(sha256_digest(bytes));
    let extension = object_extension(filename);
    let path = spec_dataset_path(sha256, extension);
    let content_type = spec_content_type(extension);
    let cover = if content_type == "campaign"@ {
        (None, None, "missing"@)
    } else {
        spec_cover(bytes)
    };
    MapRecordView {
        sha256,
        derived: spec_derive(bytes, filename, content_type),
        category,
        filename,
        extension,
        format: extension,
        content_type,
        size: bytes.len() as u64,
        dataset_path: path,
        download_url: spec_hf_resolve_url(hf_repo, path),
        cover_data: cover.0,
        cover_source: cover.1,
        cover_status: cover.2,
        source_paths: seq![source],
    }
}

/// The record of the map `bytes`, found at `source` under `filename`.
pub fn new_record(bytes: &[u8], source: &str, filename: &str, category: String, hf_repo: Option<&str>) -> (r: MapRecord)
    ensures
        r@ == spec_new_record(bytes@, source@, filename@, category@, opt_str(hf_repo)),
{
    let sha256 = sha256_hex(bytes);
    let extension: &str = match normalized_extension(filename) {
        Some(e) => e,
        None => "w3x",
    };
    let address = sha256.as_str();
    assert(vstd::string::is_ascii(address));
    let path = dataset_path(address, extension);
    let content_type = content_type_for(extension);
    let (cover_data, cover_source, cover_status) = if same_text(content_type, "campaign") {
        (None, None, "missing")
    } else {
        extract_cover(bytes)
    };
    let derived = crate::catalog::derive(bytes, filename, content_type);
    let download_url = hf_resolve_url(hf_repo, path.as_str());
    let mut source_paths: Vec<String> = Vec::new();
    source_paths.push(String::from_str(source));
    proof {
        assert(crate::w3x::string_views(source_paths@) =~= seq![source@]);
        reveal(spec_new_record);
    }
    MapRecord {
        sha256,
        derived,
        category,
        filename: String::from_str(filename),
        extension: String::from_str(extension),
        format: String::from_str(extension),
        content_type,
        size: bytes.len() as u64,
        dataset_path: path,
        download_url,
        cover_data,
        cover_source,
        cover_status,
        source_paths,
    }
}

/// The content addresses of records, in order.
pub open spec fn record_shas(v: Seq<MapRecord>) -> Seq<Seq<char>> {
    v.map_values(|r: MapRecord| r.sha256@)
}

/// The views of records, in order.
pub open spec fn record_views(v: Seq<MapRecord>) -> Seq<MapRecordView> {
    v.map_values(|r: MapRecord| r@)
}

/// Every record's source paths are sorted, each once.
pub open spec fn paths_in_order(v: Seq<MapRecord>) -> bool {
    forall|k: int| 0 <= k < v.len() ==> sorted_strict(#[trigger] v[k]@.source_paths)
}

/// `after` is `before` with `source` among its source paths, which stay
/// sorted and each once; nothing else changes.
pub open spec fn source_added(before: MapRecordView, after: MapRecordView, source: Seq<char>) -> bool {
    &&& after == MapRecordView { source_paths: after.source_paths, ..before }
    &&& sorted_strict(after.source_paths)
    &&& after.source_paths.to_set() == before.source_paths.to_set().insert(source)
}

/// Add `source` to a sorted list of source paths, unless it is there already.
fn add_source(paths: &mut Vec<String>, source: &str)
    requires
        sorted_strict(string_views(old(paths)@)),
    ensures
        sorted_strict(string_views(final(paths)@)),
        string_views(final(paths)@).to_set() == string_views(old(paths)@).to_set().insert(source@),
{
    let mut keys: Vec<Vec<char>> = Vec::new();
    let n = paths.len();
    let mut i: usize = 0;
    while i < n
        invariant
            n == paths@.len(),
            i <= n,
            char_views(keys@) == string_views(paths@).take(i as int),
        decreases n - i,
    {
        let ghost before = char_views(keys@);
        keys.push(char_vec(paths[i].as_str()));
        proof {
            assert(char_views(keys@) =~= before.push(paths@[i as int]@));
            assert(string_views(paths@).take(i + 1) =~= string_views(paths@).take(i as int).push(paths@[i as int]@));
        }
        i += 1;
    }
    proof {
        assert(string_views(paths@).take(n as int) =~= string_views(paths@));
    }
    insert_sorted(&mut keys, paths, char_vec(source));
}

/// Whether `after` is `before` with the map `bytes`, found at `source`,
/// taken in, and `new` says whether it was new: a new map's record is inserted
/// among the others, a known map's record gains `source` among its source
/// paths and nothing else changes.
pub open spec fn ingested(
    before: Seq<MapRecord>,
    after: Seq<MapRecord>,
    bytes: Seq<u8>,
    source: Seq<char>,
    filename: Seq<char>,
    category: Seq<char>,
    hf_repo: Option<Seq<char>>,
    new: bool,
) -> bool {
    let sha = hex_lower(sha256_digest(bytes));
    &&& new == !record_shas(before).contains(sha)
    &&& new ==> exists|p: int|
        0 <= p <= before.len() && record_views(after) == record_views(before).insert(
            p,
            spec_new_record(bytes, source, filename, category, hf_repo),
        ) && record_shas(after) == record_shas(before).insert(p, sha)
    &&& !new ==> exists|k: int|
        0 <= k < before.len() && before[k].sha256@ == sha && after.len() == before.len() && source_added(
            before[k]@,
            after[k]@,
            source,
        ) && forall|j: int| 0 <= j < before.len() && j != k ==> #[trigger] after[j]@ == before[j]@
}

/// Add the map `bytes`, found at `source` under `filename`, to `records`,
/// which are kept in content-address order with each address once: a map
/// already there gains `source` among its source paths, a new one gets its
/// record. Returns whether the map was new (and so needs its object stored).
pub fn ingest(
    records: &mut Vec<MapRecord>,
    bytes: &[u8],
    source: &str,
    filename: &str,
    category: String,
    hf_repo: Option<&str>,
) -> (new: bool)
    requires
        sorted_strict(record_shas(old(records)@)),
        paths_in_order(old(records)@),
    ensures
        sorted_strict(record_shas(final(records)@)),
        paths_in_order(final(records)@),
        ingested(
            old(records)@,
            final(records)@,
            bytes@,
            source@,
            filename@,
            category@,
            opt_str(hf_repo),
            new,
        ),
{
    let sha = sha256_hex(bytes);
    let key = char_vec(sha.as_str());
    let ghost shas = record_shas(records@);
    let n = records.len();
    let mut p: usize = 0;
    while p < n && lex_less(&char_vec(records[p].sha256.as_str()), &key)
        invariant
            n == records@.len(),
            p <= n,
            shas == record_shas(records@),
            key@ == sha@,
            forall|i: int| 0 <= i < p ==> lex_lt(#[trigger] shas[i], key@),
        decreases n - p,
    {
        p += 1;
    }
    if p < n && !lex_less(&key, &char_vec(records[p].sha256.as_str())) {
        proof {
            lemma_lex_total(key@, shas[p as int]);
        }
        let ghost before = records@;
        assert(sorted_strict(records@[p as int]@.source_paths));
        add_source(&mut records[p].source_paths, source);
        proof {
            assert(records@[p as int]@ == MapRecordView { source_paths: records@[p as int]@.source_paths, ..before[p as int]@ });
            assert(record_shas(records@) =~= shas);
            assert(shas.contains(sha@));
        }
        return false;
    }
    let record = new_record(bytes, source, filename, category, hf_repo);
    assert(record.sha256@ == sha@ && record@.source_paths == seq![source@]) by {
        reveal(spec_new_record);
    }
    let ghost before = records@;
    records.insert(p, record);
    proof {
        assert(record_views(records@) =~= record_views(before).insert(p as int, records@[p as int]@));
        assert(record_shas(records@) =~= shas.insert(p as int, sha@));
        assert forall|j: int| p <= j < shas.len() implies lex_lt(sha@, #[trigger] shas[j]) by {
            lemma_lex_total(sha@, shas[p as int]);
            if j > p {
                crate::catalog::lemma_lex_trans(sha@, shas[p as int], shas[j]);
            }
        }
        assert forall|i: int, j: int| 0 <= i < j < shas.len() + 1 implies lex_lt(
            #[trigger] record_shas(records@)[i],
            #[trigger] record_shas(records@)[j],
        ) by {
            let s2 = record_shas(records@);
            if j < p {
            } else if j == p {
            } else if i < p {
                crate::catalog::lemma_lex_trans(shas[i], sha@, shas[j - 1]);
            } else if i == p {
            } else {
            }
        }
        assert(!shas.contains(sha@)) by {
            if shas.contains(sha@) {
                let i = choose|i: int| 0 <= i < shas.len() && shas[i] == sha@;
                crate::catalog::lemma_lex_irreflexive(sha@);
            }
        }
    }
    true
}

/// Taking in a map leaves its content address among the records, so the same
/// bytes taken in again — from any source — add no record: they only join the
/// source paths of the one already there.
pub proof fn lemma_ingest_is_idempotent_on_content(
    r0: Seq<MapRecord>,
    r1: Seq<MapRecord>,
    r2: Seq<MapRecord>,
    bytes: Seq<u8>,
    source1: Seq<char>,
    source2: Seq<char>,
    filename1: Seq<char>,
    filename2: Seq<char>,
    category1: Seq<char>,
    category2: Seq<char>,
    hf_repo: Option<Seq<char>>,
    new1: bool,
    new2: bool,
)
    requires
        ingested(r0, r1, bytes, source1, filename1, category1, hf_repo, new1),
        ingested(r1, r2, bytes, source2, filename2, category2, hf_repo, new2),
    ensures
        record_shas(r1).contains(hex_lower(sha256_digest(bytes))),
        !new2,
        r2.len() == r1.len(),
{
    let sha = hex_lower(sha256_digest(bytes));
    if new1 {
        let p = choose|p: int|
            0 <= p <= r0.len() && record_views(r1) == record_views(r0).insert(
                p,
                spec_new_record(bytes, source1, filename1, category1, hf_repo),
            ) && record_shas(r1) == record_shas(r0).insert(p, sha);
        assert(record_shas(r1)[p] == sha);
    } else {
        let k = choose|k: int|
            0 <= k < r0.len() && r0[k].sha256@ == sha && r1.len() == r0.len() && source_added(r0[k]@, r1[k]@, source1)
                && forall|j: int| 0 <= j < r0.len() && j != k ==> #[trigger] r1[j]@ == r0[j]@;
        assert(r1[k]@.sha256 == r0[k]@.sha256);
        assert(record_shas(r1)[k] == sha);
    }
}

/// The sizes of records, summed.
pub open spec fn total_size(v: Seq<MapRecord>) -> int
    decreases v.len(),
{
    if v.len() == 0 {
        0
    } else {
        total_size(v.drop_last()) + v.last().size
    }
}

/// How many records are campaigns.
pub open spec fn campaigns(v: Seq<MapRecord>) -> int
    decreases v.len(),
{
    if v.len() == 0 {
        0
    } else {
        campaigns(v.drop_last()) + if v.last().content_type@ == "campaign"@ {
            1int
        } else {
            0int
        }
    }
}

proof fn lemma_campaigns_bounded(v: Seq<MapRecord>)
    ensures
        0 <= campaigns(v) <= v.len(),
    decreases v.len(),
{
    if v.len() > 0 {
        lemma_campaigns_bounded(v.drop_last());
    }
}

/// The catalogue of a dataset.
pub struct Catalog {
    pub schema_version: u32,
    pub generated_at_unix: u64,
    pub map_count: usize,
    pub playable_map_count: usize,
    pub campaign_count: usize,
    pub source_count: usize,
    pub total_bytes: u64,
    pub maps: Vec<MapRecord>,
}

/// Version of the catalogue's layout.
pub const CATALOG_SCHEMA_VERSION: u32 = 2;

/// The catalogue of `maps`, found among `source_count` sources, stamped with
/// the time it was made.
pub fn catalog_of(maps: Vec<MapRecord>, source_count: usize, generated_at_unix: u64) -> (c: Catalog)
    requires
        total_size(maps@) <= u64::MAX,
    ensures
        c.schema_version == CATALOG_SCHEMA_VERSION,
        c.generated_at_unix == generated_at_unix,
        c.map_count == maps@.len(),
        c.campaign_count == campaigns(maps@),
        c.playable_map_count == maps@.len() - campaigns(maps@),
        c.source_count == source_count,
        c.total_bytes == total_size(maps@),
        c.maps@ == maps@,
{
    let mut total: u64 = 0;
    let mut campaign_count: usize = 0;
    let n = maps.len();
    let mut i: usize = 0;
    while i < n
        invariant
            n == maps@.len(),
            i <= n,
            total == total_size(maps@.take(i as int)),
            campaign_count == campaigns(maps@.take(i as int)),
            total_size(maps@) <= u64::MAX,
        decreases n - i,
    {
        proof {
            assert(maps@.take(i + 1).drop_last() =~= maps@.take(i as int));
            lemma_total_size_prefix(maps@, i + 1);
            lemma_campaigns_bounded(maps@.take(i as int));
        }
        total = total + maps[i].size;
        if same_text(maps[i].content_type, "campaign") {
            campaign_count = campaign_count + 1;
        }
        i += 1;
    }
    proof {
        assert(maps@.take(n as int) =~= maps@);
        lemma_campaigns_bounded(maps@);
    }
    Catalog {
        schema_version: CATALOG_SCHEMA_VERSION,
        generated_at_unix,
        map_count: n,
        playable_map_count: n - campaign_count,
        campaign_count,
        source_count,
        total_bytes: total,
        maps,
    }
}

proof fn lemma_total_size_prefix(v: Seq<MapRecord>, k: int)
    requires
        0 <= k <= v.len(),
    ensures
        total_size(v.take(k)) <= total_size(v),
    decreases v.len() - k,
{
    if k < v.len() {
        lemma_total_size_prefix(v, k + 1);
        assert(v.take(k + 1).drop_last() =~= v.take(k));
    } else {
        assert(v.take(k) =~= v);
    }
}

/// The map information a version scan reads, or the message of what stopped
/// it: the map does not open, its `w3i` does not read, or it does not parse.
pub open spec fn spec_version_scan(bytes: Seq<u8>) -> Result<W3iView, Seq<char>> {
    match spec_header(bytes) {
        Err(h) => Err(error_text(h)),
        Ok(_) => match spec_load(bytes) {
            Err(m) => Err(mpq_error_text(m)),
            Ok(a) => match spec_read_member(a, "war3map.w3i") {
                Err(_) => Err(member_error_text(a, "war3map.w3i")),
                Ok(d) => match spec_parse_w3i(d) {
                    Ok(w) => Ok(w),
                    Err(e) => Err(error_text(e)),
                },
            },
        },
    }
}

/// The version fields of a dataset object.
pub struct VersionRecord {
    pub sha256: String,
    pub format_version: Option<u32>,
    pub editor_version: Option<u32>,
    pub build_version: Option<[u32; 4]>,
    pub error: Option<String>,
}

/// Read the `w3i` version fields of the map `bytes`, stored under the content
/// address `sha256`. A map that cannot be read is recorded with the reason,
/// not refused.
pub fn version_record(sha256: String, bytes: &[u8]) -> (r: VersionRecord)
    ensures
        r.sha256 == sha256,
        match spec_version_scan(bytes@) {
            Ok(w) => r.format_version == Some(w.head.version) && r.editor_version == w.head.editor_version
                && opt_view(r.build_version) == w.head.build_version && r.error is None,
            Err(msg) => r.format_version is None && r.editor_version is None && r.build_version is None
                && opt_string(r.error) == Some(msg),
        },
{
    match scan_w3i(bytes) {
        Ok(info) => VersionRecord {
            sha256,
            format_version: Some(info.version.0),
            editor_version: info.editor_version,
            build_version: info.build_version,
            error: None,
        },
        Err(message) => VersionRecord {
            sha256,
            format_version: None,
            editor_version: None,
            build_version: None,
            error: Some(message),
        },
    }
}

/// The map information of the map `bytes`, or the message of what stopped
/// its reading.
fn scan_w3i(bytes: &[u8]) -> (r: Result<War3MapW3i, String>)
    ensures
        match spec_version_scan(bytes@) {
            Ok(w) => r matches Ok(info) && info@ == w,
            Err(msg) => r matches Err(m) && m@ == msg,
        },
{
    let mut w3x = match War3MapW3x::from_buffer(bytes) {
        Ok(w) => w,
        Err(e) => return Err(e.message()),
    };
    let raw = match w3x.read_file("war3map.w3i") {
        Ok(d) => d,
        Err(e) => {
            proof {
                lemma_member_error_text(w3x.archive@, "war3map.w3i", e);
            }
            return Err(e.message());
        },
    };
    match War3MapW3i::parse(raw.as_slice()) {
        Ok(info) => Ok(info),
        Err(e) => Err(e.message()),
    }
}

/// The modification found in a dataset object, or why it could not be read.
pub struct ModRecord {
    pub sha256: String,
    pub modification: Option<ModInfo>,
    pub error: Option<String>,
}

/// Scan the map `bytes`, stored under the content address `sha256`, for a
/// known script modification. A map that does not open is recorded with the
/// reason, so that "no modification" and "unreadable" stay apart.
pub fn mod_record(sha256: String, bytes: &[u8]) -> (r: ModRecord)
    ensures
        r.sha256 == sha256,
        match spec_header(bytes@) {
            Err(h) => r.modification is None && opt_string(r.error) == Some(error_text(h)),
            Ok(_) => match spec_load(bytes@) {
                Err(m) => r.modification is None && opt_string(r.error) == Some(mpq_error_text(m)),
                Ok(a) => r.error is None && opt_view(r.modification) == match spec_read_script(a) {
                    None => None,
                    Some(script) => spec_detect_in_script(script),
                },
            },
        },
{
    match War3MapW3x::from_buffer(bytes) {
        Ok(mut w3x) => ModRecord { sha256, modification: detect(&mut w3x), error: None },
        Err(e) => ModRecord { sha256, modification: None, error: Some(e.message()) },
    }
}

} // verus!

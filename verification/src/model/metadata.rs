//! Parsing everything a map contains in one call, and the portable snapshot
//! of the result.
use crate::catalog::{lemma_lex_irreflexive, lemma_lex_total, lemma_lex_trans, lex_less, lex_lt};
use crate::error::Error;
use crate::formats::imp::{spec_parse_imp, War3MapImp, War3MapImpView};
use crate::formats::mmp::{spec_parse_mmp, MinimapIcon, MinimapIconView, War3MapMmp, War3MapMmpView};
use crate::formats::w3i::resolve::{resolved_w3i, table_or};
use crate::formats::w3i::{spec_parse_w3i, W3iView, War3MapW3i};
use crate::formats::wts::{spec_parse_wts, War3MapWts};
use crate::model::header::{spec_header, War3MapHeader, War3MapHeaderView};
use crate::model::image::{decoded_image, image_data_of, image_of, War3Image, War3ImageData, War3ImageDataView, War3ImageView};
use crate::model::snapshot::{entry_paths, first_flag, ids_increasing, resolved_paths, ImportEntry, StringTableEntry};
use crate::catalog::sorted_strict;
use crate::modscan::{detect, spec_detect_in_script, spec_read_script, ModInfo, ModInfoView};
use crate::mpq::archive::{spec_load, ArchiveView};
use crate::reader::{opt_view, views};
use crate::text::{char_vec, utf8_lossy};
use crate::w3x::{first_present, minimap_names, preview_names, spec_listfile, spec_read_member, string_views, War3MapW3x};
use vstd::prelude::*;
use vstd::utf8::encode_utf8;

verus! {

/// Text that stands for a `TRIGSTR_*` reference the string table lacks.
pub const UNRESOLVED_TRIGSTR: &'static str = "Unknown";

/// In lexicographic order, equal strings allowed side by side.
pub open spec fn sorted_le(s: Seq<Seq<char>>) -> bool {
    forall|i: int, j: int| 0 <= i < j < s.len() ==> !lex_lt(#[trigger] s[j], #[trigger] s[i])
}

proof fn lemma_lt_le_trans(a: Seq<char>, b: Seq<char>, c: Seq<char>)
    requires
        lex_lt(a, b),
        !lex_lt(c, b),
    ensures
        lex_lt(a, c),
        !lex_lt(c, a),
{
    lemma_lex_total(b, c);
    if b != c {
        lemma_lex_trans(a, b, c);
    }
    if lex_lt(c, a) {
        lemma_lex_trans(c, a, c);
        lemma_lex_irreflexive(c);
    }
}

/// `names` sorted, as `slice::sort` sorts strings: the same strings, each as
/// often, in lexicographic order.
fn sort_names(names: Vec<String>) -> (r: Vec<String>)
    ensures
        sorted_le(string_views(r@)),
        string_views(r@).to_multiset() == string_views(names@).to_multiset(),
{
    let mut keys: Vec<Vec<char>> = Vec::new();
    let mut out: Vec<String> = Vec::new();
    let n = names.len();
    let mut i: usize = 0;
    proof {
        assert(string_views(names@).take(0) =~= Seq::<Seq<char>>::empty());
        assert(string_views(out@) =~= Seq::<Seq<char>>::empty());
    }
    while i < n
        invariant
            n == names@.len(),
            i <= n,
            string_views(out@) == keys@.map_values(|k: Vec<char>| k@),
            out@.len() == keys@.len(),
            sorted_le(string_views(out@)),
            string_views(out@).to_multiset() == string_views(names@).take(i as int).to_multiset(),
        decreases n - i,
    {
        let key = char_vec(names[i].as_str());
        let ghost before = string_views(out@);
        let m = keys.len();
        let mut p: usize = 0;
        while p < m && !lex_less(&key, &keys[p])
            invariant
                m == keys@.len(),
                p <= m,
                before == keys@.map_values(|k: Vec<char>| k@),
                forall|k: int| 0 <= k < p ==> !lex_lt(key@, #[trigger] before[k]),
            decreases m - p,
        {
            p += 1;
        }
        let ghost k = key@;
        keys.insert(p, key);
        out.insert(p, names[i].clone());
        proof {
            let after = string_views(out@);
            assert(after =~= before.insert(p as int, k));
            assert(keys@.map_values(|x: Vec<char>| x@) =~= before.insert(p as int, k));
            assert forall|a: int, b: int| 0 <= a < b < after.len() implies !lex_lt(
                #[trigger] after[b],
                #[trigger] after[a],
            ) by {
                if b < p {
                } else if b == p {
                } else if a < p {
                } else if a == p {
                    lemma_lex_irreflexive(before[p as int]);
                    if b - 1 > p {
                        assert(!lex_lt(before[b - 1], before[p as int]));
                    }
                    lemma_lt_le_trans(k, before[p as int], before[b - 1]);
                } else {
                }
            }
            vstd::seq_lib::to_multiset_insert(before, p as int, k);
            let src = string_views(names@);
            assert(src.take(i + 1) =~= src.take(i as int).push(k));
            vstd::seq_lib::to_multiset_build(src.take(i as int), k);
        }
        i += 1;
    }
    proof {
        assert(string_views(names@).take(n as int) =~= string_views(names@));
    }
    out
}

/// A parser's result on a member's bytes, when both the read and the parse
/// succeed.
#[verifier::opaque]
pub open spec fn member_w3i(a: ArchiveView) -> Option<W3iView> {
    match spec_read_member(a, "war3map.w3i") {
        Ok(d) => match spec_parse_w3i(d) {
            Ok(w) => Some(w),
            Err(_) => None,
        },
        Err(_) => None,
    }
}

/// The import table, when it reads and parses.
#[verifier::opaque]
pub open spec fn member_imp(a: ArchiveView) -> Option<War3MapImpView> {
    match spec_read_member(a, "war3map.imp") {
        Ok(d) => match spec_parse_imp(d) {
            Ok(w) => Some(w),
            Err(_) => None,
        },
        Err(_) => None,
    }
}

/// The string table, when it reads.
#[verifier::opaque]
pub open spec fn member_wts(a: ArchiveView) -> Option<Map<i32, Seq<char>>> {
    match spec_read_member(a, "war3map.wts") {
        Ok(d) => Some(spec_parse_wts(encode_utf8(utf8_lossy(d)))),
        Err(_) => None,
    }
}

/// The minimap icons, when they read and parse.
#[verifier::opaque]
pub open spec fn member_mmp(a: ArchiveView) -> Option<War3MapMmpView> {
    match spec_read_member(a, "war3map.mmp") {
        Ok(d) => match spec_parse_mmp(d) {
            Ok(w) => Some(w),
            Err(_) => None,
        },
        Err(_) => None,
    }
}

/// The image read from the first of `names` the archive holds, when it
/// decodes.
#[verifier::opaque]
pub open spec fn member_image(a: ArchiveView, names: Seq<&str>) -> Option<War3ImageView> {
    match first_present(a, names, 0) {
        None => None,
        Some(k) => match spec_read_member(a, names[k]) {
            Err(_) => None,
            Ok(d) => match decoded_image(d) {
                Some(x) => Some(image_of(x, names[k]@)),
                None => None,
            },
        },
    }
}

/// An optional value as a sequence of zero or one.
pub open spec fn seq_of<T>(o: Option<T>) -> Seq<T> {
    match o {
        Some(x) => seq![x],
        None => Seq::empty(),
    }
}

/// The minimap and the preview of the archive, those of them that decode.
pub open spec fn map_images(a: ArchiveView) -> Seq<War3ImageView> {
    seq_of(member_image(a, minimap_names())) + seq_of(member_image(a, preview_names()))
}

/// The script modification found in the archive, if any.
pub open spec fn member_modification(a: ArchiveView) -> Option<ModInfoView> {
    match spec_read_script(a) {
        None => None,
        Some(script) => spec_detect_in_script(script),
    }
}

/// Whether `e` is the error opening the map `buffer` fails with.
pub open spec fn open_error(buffer: Seq<u8>, e: Error) -> bool {
    match spec_header(buffer) {
        Err(h) => e == h,
        Ok(_) => spec_load(buffer) matches Err(m) && e == Error::Archive(m),
    }
}

/// The minimap and the preview, those of them that decode.
fn read_images(w3x: &mut War3MapW3x) -> (images: Vec<War3Image>)
    requires
        old(w3x).wf(),
    ensures
        final(w3x).archive@ == old(w3x).archive@,
        final(w3x).header == old(w3x).header,
        final(w3x).files == old(w3x).files,
        final(w3x).wf(),
        views(images@) == seq_of(member_image(old(w3x).archive@, minimap_names())) + seq_of(
            member_image(old(w3x).archive@, preview_names()),
        ),
        forall|k: int| 0 <= k < images@.len() ==> (#[trigger] images@[k]).wf(),
{
    let ghost a = w3x.archive@;
    let mut images: Vec<War3Image> = Vec::new();
    let minimap = w3x.read_minimap();
    assert(opt_view(minimap.ok()) == member_image(a, minimap_names())) by {
        reveal(member_image);
    }
    if let Ok(minimap) = minimap {
        images.push(minimap);
    }
    let preview = w3x.read_preview();
    assert(opt_view(preview.ok()) == member_image(a, preview_names())) by {
        reveal(member_image);
    }
    if let Ok(preview) = preview {
        images.push(preview);
    }
    proof {
        assert(views(images@) =~= seq_of(member_image(a, minimap_names())) + seq_of(
            member_image(a, preview_names()),
        ));
    }
    images
}

/// The map information, imports, string table and minimap icons, those of
/// them that read and parse.
fn read_members(w3x: &mut War3MapW3x) -> (r: (
    Option<War3MapW3i>,
    Option<War3MapImp>,
    Option<War3MapWts>,
    Option<War3MapMmp>,
))
    requires
        old(w3x).wf(),
    ensures
        final(w3x).archive@ == old(w3x).archive@,
        final(w3x).header == old(w3x).header,
        final(w3x).files == old(w3x).files,
        final(w3x).wf(),
        opt_view(r.0) == member_w3i(old(w3x).archive@),
        opt_view(r.1) == member_imp(old(w3x).archive@),
        opt_view(r.2) == member_wts(old(w3x).archive@),
        opt_view(r.3) == member_mmp(old(w3x).archive@),
{
    let ghost a = w3x.archive@;
    let map_info = match w3x.read_map_info() {
        Ok(w) => Some(w),
        Err(_) => None,
    };
    assert(opt_view(map_info) == member_w3i(a)) by {
        reveal(member_w3i);
    }
    let imp = match w3x.read_imports() {
        Ok(w) => Some(w),
        Err(_) => None,
    };
    assert(opt_view(imp) == member_imp(a)) by {
        reveal(member_imp);
    }
    let wts = match w3x.read_string_table() {
        Ok(w) => Some(w),
        Err(_) => None,
    };
    assert(opt_view(wts) == member_wts(a)) by {
        reveal(member_wts);
    }
    let minimap_icons = match w3x.read_minimap_icons() {
        Ok(w) => Some(w),
        Err(_) => None,
    };
    assert(opt_view(minimap_icons) == member_mmp(a)) by {
        reveal(member_mmp);
    }
    (map_info, imp, wts, minimap_icons)
}

/// Whether `v` is the sorted listing of the import table `t`: each resolved
/// path once, in order, with the flag of its first entry.
pub open spec fn import_listing(t: War3MapImpView, v: Seq<ImportEntry>) -> bool {
    &&& sorted_strict(entry_paths(v))
    &&& entry_paths(v).to_set() == resolved_paths(t.entries).to_set()
    &&& forall|k: int| 0 <= k < v.len() ==> (#[trigger] v[k]).is_custom == first_flag(t.entries, v[k].path@)
}

/// Whether `v` is the listing of the string table `m` in increasing id order.
pub open spec fn string_listing(m: Map<i32, Seq<char>>, v: Seq<StringTableEntry>) -> bool {
    &&& ids_increasing(v.map_values(|e: StringTableEntry| e.id))
    &&& v.map_values(|e: StringTableEntry| e.id).to_set() == m.dom()
    &&& forall|k: int| 0 <= k < v.len() ==> m[(#[trigger] v[k]).id] == v[k].value@
}

/// Whether `f` is `names` sorted.
pub open spec fn sorted_names(names: Seq<Seq<char>>, f: Seq<String>) -> bool {
    sorted_le(string_views(f)) && string_views(f).to_multiset() == names.to_multiset()
}

/// The images encoded one by one as PNG data URLs, or the name of the first
/// that the encoder refuses.
pub open spec fn encode_all(imgs: Seq<War3ImageView>) -> Result<Seq<War3ImageDataView>, Seq<char>>
    decreases imgs.len(),
{
    if imgs.len() == 0 {
        Ok(Seq::empty())
    } else {
        match encode_all(imgs.drop_last()) {
            Err(f) => Err(f),
            Ok(done) => match image_data_of(imgs.last()) {
                Some(d) => Ok(done.push(d)),
                None => Err(imgs.last().filename),
            },
        }
    }
}

/// The minimap icons of an optional icon file; none without one.
pub open spec fn icons_of(m: Option<War3MapMmpView>) -> Seq<MinimapIconView> {
    match m {
        Some(m) => m.icons,
        None => Seq::empty(),
    }
}

/// The map information with its references resolved against the string
/// table, missing ids becoming [`UNRESOLVED_TRIGSTR`]; as it is when either
/// part is missing.
pub open spec fn resolved_info(info: Option<W3iView>, strings: Option<Map<i32, Seq<char>>>) -> Option<W3iView> {
    match (info, strings) {
        (Some(w), Some(t)) => Some(resolved_w3i(w, table_or(t, Some(UNRESOLVED_TRIGSTR@)))),
        _ => info,
    }
}

/// Portable map snapshot, the shape handed to callers that serialise it.
pub struct MapSnapshot {
    pub header: War3MapHeader,
    pub map_info: Option<War3MapW3i>,
    pub images: Vec<War3ImageData>,
    pub minimap_icons: Vec<MinimapIcon>,
    pub imports: Option<Vec<ImportEntry>>,
    pub strings: Option<Vec<StringTableEntry>>,
    pub files: Option<Vec<String>>,
    pub modification: Option<ModInfo>,
}

/// Encode every image, stopping at the first the encoder refuses.
fn encode_images(images: &Vec<War3Image>) -> (r: Result<Vec<War3ImageData>, Error>)
    ensures
        match encode_all(views(images@)) {
            Ok(d) => r matches Ok(v) && views(v@) == d,
            Err(f) => r matches Err(Error::ImageEncoding(s)) && s@ == f,
        },
{
    let mut out: Vec<War3ImageData> = Vec::new();
    let n = images.len();
    let mut i: usize = 0;
    proof {
        assert(views(images@).take(0) =~= Seq::<War3ImageView>::empty());
        assert(views(out@) =~= Seq::<War3ImageDataView>::empty());
    }
    while i < n
        invariant
            n == images@.len(),
            i <= n,
            encode_all(views(images@).take(i as int)) == Ok::<Seq<War3ImageDataView>, Seq<char>>(views(out@)),
        decreases n - i,
    {
        let ghost done = views(out@);
        proof {
            assert(views(images@).take(i + 1).drop_last() =~= views(images@).take(i as int));
            assert(views(images@).take(i + 1).last() == images@[i as int]@);
        }
        match images[i].to_data() {
            Ok(d) => {
                out.push(d);
                proof {
                    assert(views(out@) =~= done.push(d@));
                }
            },
            Err(e) => {
                proof {
                    lemma_encode_all_stops(views(images@), i as int + 1);
                }
                return Err(e);
            },
        }
        i += 1;
    }
    proof {
        assert(views(images@).take(n as int) =~= views(images@));
    }
    Ok(out)
}

proof fn lemma_encode_all_stops(imgs: Seq<War3ImageView>, k: int)
    requires
        0 <= k <= imgs.len(),
        encode_all(imgs.take(k)) is Err,
    ensures
        encode_all(imgs) == encode_all(imgs.take(k)),
    decreases imgs.len() - k,
{
    if k < imgs.len() {
        assert(imgs.take(k + 1).drop_last() =~= imgs.take(k));
        lemma_encode_all_stops(imgs, k + 1);
    } else {
        assert(imgs.take(k) =~= imgs);
    }
}

/// Whether `snap` is the snapshot of the map `buffer`: its header, its map
/// information with references resolved, its minimap icons, its import and
/// string tables as sorted listings, its listed names sorted, and the script's
/// modification.
pub open spec fn snapshot_of(buffer: Seq<u8>, snap: MapSnapshot) -> bool {
    let a = spec_load(buffer)->Ok_0;
    &&& spec_header(buffer) == Ok::<War3MapHeaderView, Error>(snap.header@)
    &&& opt_view(snap.map_info) == resolved_info(member_w3i(a), member_wts(a))
    &&& views(snap.minimap_icons@) == icons_of(member_mmp(a))
    &&& match member_imp(a) {
        None => snap.imports is None,
        Some(t) => snap.imports matches Some(v) && import_listing(t, v@),
    }
    &&& match member_wts(a) {
        None => snap.strings is None,
        Some(m) => snap.strings matches Some(v) && string_listing(m, v@),
    }
    &&& match spec_listfile(a) {
        None => snap.files is None,
        Some(names) => snap.files matches Some(f) && sorted_names(names, f@),
    }
    &&& opt_view(snap.modification) == member_modification(a)
}

/// Rich in-memory parse result.
pub struct War3MapMetadata {
    pub header: War3MapHeader,
    pub map_info: Option<War3MapW3i>,
    pub imp: Option<War3MapImp>,
    pub wts: Option<War3MapWts>,
    /// The minimap and the preview, those of them that decode, in that order.
    pub images: Vec<War3Image>,
    /// Minimap icons from `war3map.mmp` (gold mines, houses, starts).
    pub minimap_icons: Option<War3MapMmp>,
    pub files: Option<Vec<String>>,
    /// Third-party modification detected in the map script, if any.
    pub modification: Option<ModInfo>,
}

impl War3MapMetadata {
    /// The metadata holds what reading the map `buffer` gives: its header,
    /// each member that reads (and parses), the images that decode, the
    /// listed names sorted, and the script's modification.
    pub open spec fn read_from(&self, buffer: Seq<u8>) -> bool {
        let a = spec_load(buffer)->Ok_0;
        &&& spec_header(buffer) == Ok::<War3MapHeaderView, Error>(self.header@)
        &&& opt_view(self.map_info) == member_w3i(a)
        &&& opt_view(self.imp) == member_imp(a)
        &&& opt_view(self.wts) == member_wts(a)
        &&& views(self.images@) == map_images(a)
        &&& forall|k: int| 0 <= k < self.images@.len() ==> (#[trigger] self.images@[k]).wf()
        &&& opt_view(self.minimap_icons) == member_mmp(a)
        &&& match spec_listfile(a) {
            None => self.files is None,
            Some(names) => self.files matches Some(f) && sorted_names(names, f@),
        }
        &&& opt_view(self.modification) == member_modification(a)
    }

    /// Parse a map buffer, reading every known member file.
    ///
    /// Individual member files that are missing or corrupt simply come back
    /// as `None` / empty — only an unreadable archive is an error.
    pub fn parse(buffer: &[u8]) -> (r: Result<Self, Error>)
        ensures
            r is Ok <==> (spec_header(buffer@) is Ok && spec_load(buffer@) is Ok),
            match r {
                Ok(m) => m.read_from(buffer@),
                Err(e) => open_error(buffer@, e),
            },
    {
        let mut w3x = match War3MapW3x::from_buffer(buffer) {
            Ok(w) => w,
            Err(e) => return Err(e),
        };
        let images = read_images(&mut w3x);
        let files = match w3x.files.take() {
            Some(list) => Some(sort_names(list)),
            None => None,
        };
        let (map_info, imp, wts, minimap_icons) = read_members(&mut w3x);
        let modification = detect(&mut w3x);
        Ok(Self { header: w3x.header, map_info, imp, wts, images, minimap_icons, files, modification })
    }

    /// Replace `TRIGSTR_<id>` references in the map info with their values
    /// from the string table, and ids the table lacks with
    /// [`UNRESOLVED_TRIGSTR`]. No-op when either part is missing.
    pub fn resolve_trigger_strings(&mut self)
        ensures
            opt_view(final(self).map_info) == resolved_info(opt_view(old(self).map_info), opt_view(old(self).wts)),
            final(self).header == old(self).header,
            final(self).imp == old(self).imp,
            final(self).wts == old(self).wts,
            final(self).images == old(self).images,
            final(self).minimap_icons == old(self).minimap_icons,
            final(self).files == old(self).files,
            final(self).modification == old(self).modification,
    {
        match &self.wts {
            Some(wts) => match &mut self.map_info {
                Some(info) => info.resolve_strings(wts, Some(UNRESOLVED_TRIGSTR)),
                None => {},
            },
            None => {},
        }
    }

    /// Build a portable snapshot from the rich in-memory metadata; fails when
    /// an image cannot be encoded.
    pub fn snapshot(self) -> (r: Result<MapSnapshot, Error>)
        ensures
            match encode_all(views(self.images@)) {
                Err(f) => r matches Err(Error::ImageEncoding(s)) && s@ == f,
                Ok(d) => r matches Ok(snap) && views(snap.images@) == d && self.snapshot_holds(snap),
            },
    {
        let images = match encode_images(&self.images) {
            Ok(v) => v,
            Err(e) => return Err(e),
        };
        let minimap_icons = match self.minimap_icons {
            Some(m) => m.icons,
            None => Vec::new(),
        };
        assert(views(minimap_icons@) == icons_of(opt_view(self.minimap_icons)));
        let imports = match &self.imp {
            Some(imp) => Some(imp.entries_sorted()),
            None => None,
        };
        let strings = match &self.wts {
            Some(wts) => Some(wts.entries_sorted()),
            None => None,
        };
        assert(match self.imp {
            None => imports is None,
            Some(t) => imports matches Some(v) && import_listing(t@, v@),
        });
        assert(match self.wts {
            None => strings is None,
            Some(t) => strings matches Some(v) && string_listing(t@, v@),
        });
        Ok(MapSnapshot {
            header: self.header,
            map_info: self.map_info,
            images,
            minimap_icons,
            imports,
            strings,
            files: self.files,
            modification: self.modification,
        })
    }

    /// Parse a buffer and immediately produce a portable [`MapSnapshot`],
    /// with TRIGSTR references resolved when a string table is present.
    pub fn parse_snapshot(buffer: &[u8]) -> (r: Result<MapSnapshot, Error>)
        ensures
            !(spec_header(buffer@) is Ok && spec_load(buffer@) is Ok) ==> (r matches Err(e) && open_error(buffer@, e)),
            spec_header(buffer@) is Ok && spec_load(buffer@) is Ok ==> match encode_all(
                map_images(spec_load(buffer@)->Ok_0),
            ) {
                Err(f) => r matches Err(Error::ImageEncoding(s)) && s@ == f,
                Ok(d) => r matches Ok(snap) && views(snap.images@) == d && snapshot_of(buffer@, snap),
            },
    {
        let mut metadata = Self::parse(buffer)?;
        metadata.resolve_trigger_strings();
        metadata.snapshot()
    }

    /// Whether `snap` carries this metadata over: the same header, map
    /// information, names and modification, the icons of the icon file, and
    /// the import and string tables as sorted listings.
    pub open spec fn snapshot_holds(&self, snap: MapSnapshot) -> bool {
        &&& snap.header == self.header
        &&& snap.map_info == self.map_info
        &&& views(snap.minimap_icons@) == icons_of(opt_view(self.minimap_icons))
        &&& match self.imp {
            None => snap.imports is None,
            Some(t) => snap.imports matches Some(v) && import_listing(t@, v@),
        }
        &&& match self.wts {
            None => snap.strings is None,
            Some(t) => snap.strings matches Some(v) && string_listing(t@, v@),
        }
        &&& snap.files == self.files
        &&& snap.modification == self.modification
    }
}

} // verus!

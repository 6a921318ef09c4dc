//! Map container: optional `HM3W` header followed by an embedded MPQ archive.
use crate::error::{Error, MpqError};
use crate::formats::imp::{spec_parse_imp, War3MapImp, War3MapImpView};
use crate::formats::mmp::{spec_parse_mmp, War3MapMmp, War3MapMmpView};
use crate::formats::w3i::{spec_parse_w3i, W3iView, War3MapW3i};
use crate::formats::wts::{spec_parse_wts, trim_chars, trimmed, War3MapWts};
use crate::model::header::{spec_header, War3MapHeader};
use crate::model::image::{decoded_image, decodes_with, War3Image};
use crate::mpq::archive::{spec_load, Archive, ArchiveView};
use crate::mpq::file::{spec_open_file, spec_read, File, FileView};
use crate::text::{char_vec, lossy_string, string_from_chars, utf8_lossy};
use vstd::prelude::*;
use vstd::string::StringSliceAdditionalSpecFns;
use vstd::utf8::encode_utf8;

verus! {

/// `n` zero bytes.
pub open spec fn zeros(n: nat) -> Seq<u8> {
    Seq::new(n, |_i: int| 0u8)
}

/// A buffer of `n` zero bytes.
pub fn zeroed(n: usize) -> (v: Vec<u8>)
    ensures
        v@ == zeros(n as nat),
{
    let mut v: Vec<u8> = Vec::new();
    let mut i: usize = 0;
    while i < n
        invariant
            i <= n,
            v@ == zeros(i as nat),
        decreases n - i,
    {
        v.push(0);
        proof {
            assert(v@ =~= zeros((i + 1) as nat));
        }
        i += 1;
    }
    v
}

/// The bytes of the member `name`: the archive's read of it into a buffer of
/// its unpacked size.
pub open spec fn spec_read_member(a: ArchiveView, name: &str) -> Result<Seq<u8>, MpqError> {
    match spec_open_file(a, name) {
        Err(e) => Err(e),
        Ok(f) => match spec_read(f, a, zeros(f.block.unpacked_size as nat)) {
            Err(e) => Err(e),
            Ok((out, _)) => Ok(out),
        },
    }
}

/// Whether `e` is the error reading the member `name` ends with: a member the
/// archive does not hold is reported by name, anything else as the archive's
/// own error.
pub open spec fn member_error(a: ArchiveView, name: &str, e: Error) -> bool {
    match spec_open_file(a, name) {
        Err(MpqError::NotFound) => e matches Error::FileNotFound(s) && s@ == name@,
        Err(m) => e == Error::Archive(m),
        Ok(f) => match spec_read(f, a, zeros(f.block.unpacked_size as nat)) {
            Err(m) => e == Error::Archive(m),
            Ok(_) => false,
        },
    }
}

/// Whether `c` ends a line of a listfile.
pub open spec fn is_line_break(c: char) -> bool {
    c == '\r' || c == '\n'
}

/// `s` split at every line break, as `str::split` does: the pieces between
/// breaks, empty ones included.
pub open spec fn split_lines(s: Seq<char>) -> Seq<Seq<char>>
    decreases s.len(),
{
    if s.len() == 0 {
        seq![Seq::empty()]
    } else {
        let p = split_lines(s.drop_last());
        if is_line_break(s.last()) {
            p.push(Seq::empty())
        } else {
            p.update(p.len() - 1, p.last().push(s.last()))
        }
    }
}

/// The trimmed lines that are not empty, in order.
pub open spec fn nonempty_trimmed(lines: Seq<Seq<char>>) -> Seq<Seq<char>>
    decreases lines.len(),
{
    if lines.len() == 0 {
        Seq::empty()
    } else {
        let rest = nonempty_trimmed(lines.drop_last());
        if trimmed(lines.last()).len() > 0 {
            rest.push(trimmed(lines.last()))
        } else {
            rest
        }
    }
}

/// The names a `(listfile)` holds: its lines, trimmed, without the empty ones.
pub open spec fn listfile_names(text: Seq<char>) -> Seq<Seq<char>> {
    nonempty_trimmed(split_lines(text))
}

/// The views of a list of strings.
pub open spec fn string_views(v: Seq<String>) -> Seq<Seq<char>> {
    v.map_values(|s: String| s@)
}

/// What reading the `(listfile)` member of `a` gives.
pub open spec fn spec_listfile(a: ArchiveView) -> Option<Seq<Seq<char>>> {
    match spec_read_member(a, "(listfile)") {
        Ok(data) => Some(listfile_names(utf8_lossy(data))),
        Err(_) => None,
    }
}

proof fn lemma_split_lines_nonempty(s: Seq<char>)
    ensures
        split_lines(s).len() >= 1,
    decreases s.len(),
{
    if s.len() > 0 {
        lemma_split_lines_nonempty(s.drop_last());
    }
}

/// The names of a listfile text.
pub fn listfile_entries(text: &str) -> (names: Vec<String>)
    ensures
        string_views(names@) == listfile_names(text@),
{
    let c = char_vec(text);
    let n = c.len();
    let mut names: Vec<String> = Vec::new();
    let mut start: usize = 0;
    let mut i: usize = 0;
    proof {
        assert(c@.take(0) =~= Seq::<char>::empty());
        assert(split_lines(c@.take(0)).drop_last() =~= Seq::<Seq<char>>::empty());
        assert(string_views(names@) =~= Seq::<Seq<char>>::empty());
    }
    while i < n
        invariant
            n == c@.len(),
            start <= i <= n,
            split_lines(c@.take(i as int)).len() >= 1,
            split_lines(c@.take(i as int)).last() == c@.subrange(start as int, i as int),
            string_views(names@) == nonempty_trimmed(split_lines(c@.take(i as int)).drop_last()),
        decreases n - i,
    {
        let ghost lines = split_lines(c@.take(i as int));
        proof {
            assert(c@.take(i + 1).drop_last() =~= c@.take(i as int));
            assert(c@.take(i + 1).last() == c@[i as int]);
            lemma_split_lines_nonempty(c@.take(i as int));
        }
        if c[i] == '\r' || c[i] == '\n' {
            let mut piece: Vec<char> = Vec::new();
            let mut k = start;
            while k < i
                invariant
                    start <= k <= i < n,
                    n == c@.len(),
                    piece@ == c@.subrange(start as int, k as int),
                decreases i - k,
            {
                piece.push(c[k]);
                k += 1;
            }
            let t = trim_chars(&piece);
            if t.len() > 0 {
                let ghost before = names@;
                names.push(string_from_chars(t.as_slice()));
                proof {
                    assert(string_views(names@) =~= string_views(before).push(t@));
                }
            }
            proof {
                let next = split_lines(c@.take(i + 1));
                assert(next == lines.push(Seq::empty()));
                assert(next.drop_last() =~= lines);
                assert(lines.drop_last().push(lines.last()) =~= lines);
                assert(c@.subrange(i + 1, i + 1) =~= Seq::<char>::empty());
            }
            start = i + 1;
        } else {
            proof {
                let next = split_lines(c@.take(i + 1));
                assert(next == lines.update(lines.len() - 1, lines.last().push(c@[i as int])));
                assert(next.drop_last() =~= lines.drop_last());
                assert(next.last() =~= c@.subrange(start as int, i + 1));
            }
        }
        i += 1;
    }
    let mut piece: Vec<char> = Vec::new();
    let mut k = start;
    while k < n
        invariant
            start <= k <= n,
            n == c@.len(),
            piece@ == c@.subrange(start as int, k as int),
        decreases n - k,
    {
        piece.push(c[k]);
        k += 1;
    }
    let t = trim_chars(&piece);
    proof {
        let lines = split_lines(c@.take(n as int));
        assert(c@.take(n as int) =~= c@);
        assert(lines.drop_last().push(lines.last()) =~= lines);
    }
    if t.len() > 0 {
        let ghost before = names@;
        names.push(string_from_chars(t.as_slice()));
        proof {
            assert(string_views(names@) =~= string_views(before).push(t@));
        }
    }
    names
}

/// Candidate script paths, in lookup order.
pub open spec fn spec_script_file(a: ArchiveView) -> Option<FileView> {
    match spec_open_file(a, "war3map.j") {
        Ok(f) => Some(f),
        Err(_) => match spec_open_file(a, "scripts\\war3map.j") {
            Ok(f) => Some(f),
            Err(_) => match spec_open_file(a, "war3map.lua") {
                Ok(f) => Some(f),
                Err(_) => match spec_open_file(a, "scripts\\war3map.lua") {
                    Ok(f) => Some(f),
                    Err(_) => None,
                },
            },
        },
    }
}

/// Whether the archive holds a member called `name`.
#[verifier::opaque]
pub open spec fn holds(a: ArchiveView, name: &str) -> bool {
    spec_open_file(a, name) is Ok
}

/// The first of `names` from `i` on that the archive holds.
pub open spec fn first_present(a: ArchiveView, names: Seq<&str>, i: int) -> Option<int>
    decreases names.len() - i,
{
    if i < 0 || i >= names.len() {
        None
    } else if holds(a, names[i]) {
        Some(i)
    } else {
        first_present(a, names, i + 1)
    }
}

proof fn lemma_first_present_from(a: ArchiveView, names: Seq<&str>, k: int, i: int)
    requires
        0 <= i <= k <= names.len(),
        forall|j: int| 0 <= j < k ==> !holds(a, #[trigger] names[j]),
        k < names.len() ==> holds(a, names[k]),
    ensures
        first_present(a, names, i) == if k < names.len() { Some(k) } else { None::<int> },
    decreases k - i,
{
    if i < k {
        lemma_first_present_from(a, names, k, i + 1);
    }
}

/// An image read is decided by the first name, in lookup order, that the
/// archive holds (`k`, or the end of `names` when it holds none): the names
/// after it are never looked at, and when the archive holds none of them
/// the read is a not-found error naming the image's stem.
pub proof fn lemma_first_held_name_decides(
    a: ArchiveView,
    stem: Seq<char>,
    names: Seq<&str>,
    k: int,
    r: Result<War3Image, Error>,
)
    requires
        0 <= k <= names.len(),
        forall|j: int| 0 <= j < k ==> !holds(a, #[trigger] names[j]),
        k < names.len() ==> holds(a, names[k]),
    ensures
        k == names.len() ==> (image_read(a, stem, names, r) <==> (r matches Err(Error::FileNotFound(s)) && s@ == stem)),
        k < names.len() ==> (image_read(a, stem, names, r) <==> match spec_read_member(a, names[k]) {
            Err(_) => r matches Err(e) && member_error(a, names[k], e),
            Ok(data) => decodes_with(decoded_image(data), names[k]@, r),
        }),
{
    lemma_first_present_from(a, names, k, 0);
}

/// Whether `r` is what reading the first of `names` the archive holds, and
/// decoding it as an image, gives: a not-found error naming `stem` when it
/// holds none of them.
pub open spec fn image_read(a: ArchiveView, stem: Seq<char>, names: Seq<&str>, r: Result<War3Image, Error>) -> bool {
    match first_present(a, names, 0) {
        None => r matches Err(Error::FileNotFound(s)) && s@ == stem,
        Some(k) => match spec_read_member(a, names[k]) {
            Err(_) => r matches Err(e) && member_error(a, names[k], e),
            Ok(data) => decodes_with(decoded_image(data), names[k]@, r),
        },
    }
}

/// The minimap image's names, in lookup order.
pub open spec fn minimap_names() -> Seq<&'static str> {
    seq!["war3mapMap.tga", "war3mapMap.blp", "war3mapmap.tga", "war3mapmap.blp"]
}

/// The preview image's names, in lookup order.
pub open spec fn preview_names() -> Seq<&'static str> {
    seq!["war3mapPreview.tga", "war3mapPreview.blp", "war3mappreview.tga", "war3mappreview.blp"]
}

/// A Warcraft III map file (`.w3x` / `.w3m`): optional `HM3W` header plus the
/// embedded MPQ archive.
pub struct War3MapW3x {
    /// Fields of the optional `HM3W` prefix.
    pub header: War3MapHeader,
    /// The underlying MPQ archive.
    pub archive: Archive,
    /// Contents of `(listfile)` when present.
    pub files: Option<Vec<String>>,
}

/// The views of an optional list of strings.
pub open spec fn opt_string_views(v: Option<Vec<String>>) -> Option<Seq<Seq<char>>> {
    match v {
        Some(v) => Some(string_views(v@)),
        None => None,
    }
}

impl War3MapW3x {
    /// Whether the map's archive is what reading its data gives.
    pub open spec fn wf(&self) -> bool {
        self.archive@.wf()
    }

    /// Load a map from a borrowed buffer (copies once for the MPQ archive).
    pub fn from_buffer(buffer: &[u8]) -> (r: Result<Self, Error>)
        ensures
            match r {
                Ok(m) => m.wf() && spec_header(buffer@) == Ok::<_, Error>(m.header@) && spec_load(buffer@) == Ok::<
                    ArchiveView,
                    MpqError,
                >(m.archive@) && opt_string_views(m.files) == spec_listfile(m.archive@),
                Err(e) => match spec_header(buffer@) {
                    Err(h) => e == h,
                    Ok(_) => spec_load(buffer@) == Err::<ArchiveView, MpqError>(e->Archive_0) && e is Archive,
                },
            },
    {
        Self::from_vec(vstd::slice::slice_to_vec(buffer))
    }

    /// Load a map from an owned buffer.
    ///
    /// Fails when the embedded MPQ cannot be opened. To read the `HM3W` fields
    /// of a map whose archive is unreadable, use [`War3MapHeader::from_buffer`]
    /// directly — it does not depend on the archive.
    pub fn from_vec(buffer: Vec<u8>) -> (r: Result<Self, Error>)
        ensures
            match r {
                Ok(m) => m.wf() && spec_header(buffer@) == Ok::<_, Error>(m.header@) && spec_load(buffer@) == Ok::<
                    ArchiveView,
                    MpqError,
                >(m.archive@) && opt_string_views(m.files) == spec_listfile(m.archive@),
                Err(e) => match spec_header(buffer@) {
                    Err(h) => e == h,
                    Ok(_) => spec_load(buffer@) == Err::<ArchiveView, MpqError>(e->Archive_0) && e is Archive,
                },
            },
    {
        let header = match War3MapHeader::from_buffer(buffer.as_slice()) {
            Ok(h) => h,
            Err(e) => return Err(e),
        };
        let mut archive = match Archive::load(buffer) {
            Ok(a) => a,
            Err(e) => return Err(Error::Archive(e)),
        };
        let files = match Self::get_file_names(&mut archive) {
            Ok(names) => Some(names),
            Err(_) => None,
        };
        Ok(Self { header, archive, files })
    }

    /// The names listed in the archive's `(listfile)`: its lines, trimmed,
    /// without the empty ones.
    pub fn get_file_names(archive: &mut Archive) -> (r: Result<Vec<String>, Error>)
        requires
            old(archive)@.wf(),
        ensures
            final(archive)@ == old(archive)@,
            match r {
                Ok(names) => spec_listfile(old(archive)@) == Some(string_views(names@)),
                Err(e) => spec_listfile(old(archive)@) is None && match spec_open_file(old(archive)@, "(listfile)") {
                    Err(m) => e == Error::Archive(m),
                    Ok(f) => match spec_read(f, old(archive)@, zeros(f.block.unpacked_size as nat)) {
                        Err(m) => e == Error::Archive(m),
                        Ok(_) => false,
                    },
                },
            },
    {
        let file = match archive.open_file("(listfile)") {
            Ok(f) => f,
            Err(e) => return Err(Error::Archive(e)),
        };
        let mut data = zeroed(file.size() as usize);
        match file.read(archive, data.as_mut_slice()) {
            Ok(_) => {},
            Err(e) => return Err(Error::Archive(e)),
        }
        let text = lossy_string(data.as_slice());
        Ok(listfile_entries(text.as_str()))
    }

    /// Open a file inside the MPQ archive.
    ///
    /// Only a genuinely absent file is "not found"; a corrupt table is
    /// reported as what it is.
    pub fn get(&mut self, filename: &str) -> (r: Result<File, Error>)
        requires
            old(self).wf(),
        ensures
            final(self).archive@ == old(self).archive@,
            final(self).header == old(self).header,
            final(self).files == old(self).files,
            final(self).wf(),
            match r {
                Ok(f) => spec_open_file(old(self).archive@, filename) == Ok::<FileView, MpqError>(f@) && f@.wf(),
                Err(e) => match spec_open_file(old(self).archive@, filename) {
                    Err(MpqError::NotFound) => e matches Error::FileNotFound(s) && s@ == filename@,
                    Err(m) => e == Error::Archive(m),
                    Ok(_) => false,
                },
            },
    {
        match self.archive.open_file(filename) {
            Ok(f) => Ok(f),
            Err(MpqError::NotFound) => Err(Error::FileNotFound(String::from_str(filename))),
            Err(e) => Err(Error::Archive(e)),
        }
    }

    /// Whether a file exists inside the MPQ archive.
    pub fn has(&mut self, filename: &str) -> (b: bool)
        requires
            old(self).wf(),
        ensures
            final(self).archive@ == old(self).archive@,
            final(self).header == old(self).header,
            final(self).files == old(self).files,
            final(self).wf(),
            b == spec_open_file(old(self).archive@, filename) is Ok,
    {
        self.archive.open_file(filename).is_ok()
    }

    /// Read a file's bytes by name.
    pub fn read_file(&mut self, filename: &str) -> (r: Result<Vec<u8>, Error>)
        requires
            old(self).wf(),
        ensures
            final(self).archive@ == old(self).archive@,
            final(self).header == old(self).header,
            final(self).files == old(self).files,
            final(self).wf(),
            match r {
                Ok(v) => spec_read_member(old(self).archive@, filename) == Ok::<Seq<u8>, MpqError>(v@),
                Err(e) => member_error(old(self).archive@, filename, e),
            },
    {
        let file = self.get(filename)?;
        let mut data = zeroed(file.size() as usize);
        match file.read(&mut self.archive, data.as_mut_slice()) {
            Ok(_) => Ok(data),
            Err(e) => Err(Error::Archive(e)),
        }
    }

    /// The map script (`war3map.j` / `war3map.lua`), if any.
    pub fn get_script_file(&mut self) -> (r: Option<File>)
        requires
            old(self).wf(),
        ensures
            final(self).archive@ == old(self).archive@,
            final(self).header == old(self).header,
            final(self).files == old(self).files,
            final(self).wf(),
            match r {
                Some(f) => spec_script_file(old(self).archive@) == Some(f@),
                None => spec_script_file(old(self).archive@) is None,
            },
    {
        if let Ok(f) = self.get("war3map.j") {
            return Some(f);
        }
        if let Ok(f) = self.get("scripts\\war3map.j") {
            return Some(f);
        }
        if let Ok(f) = self.get("war3map.lua") {
            return Some(f);
        }
        if let Ok(f) = self.get("scripts\\war3map.lua") {
            return Some(f);
        }
        None
    }

    /// Parse `war3map.w3i` map information.
    pub fn read_map_info(&mut self) -> (r: Result<War3MapW3i, Error>)
        requires
            old(self).wf(),
        ensures
            final(self).archive@ == old(self).archive@,
            final(self).header == old(self).header,
            final(self).files == old(self).files,
            final(self).wf(),
            match spec_read_member(old(self).archive@, "war3map.w3i") {
                Ok(data) => match r {
                    Ok(w) => spec_parse_w3i(data) == Ok::<W3iView, Error>(w@),
                    Err(e) => spec_parse_w3i(data) == Err::<W3iView, Error>(e),
                },
                Err(_) => r matches Err(e) && member_error(old(self).archive@, "war3map.w3i", e),
            },
    {
        let data = self.read_file("war3map.w3i")?;
        War3MapW3i::parse(data.as_slice())
    }

    /// Parse the `war3map.imp` import table.
    pub fn read_imports(&mut self) -> (r: Result<War3MapImp, Error>)
        requires
            old(self).wf(),
        ensures
            final(self).archive@ == old(self).archive@,
            final(self).header == old(self).header,
            final(self).files == old(self).files,
            final(self).wf(),
            match spec_read_member(old(self).archive@, "war3map.imp") {
                Ok(data) => match r {
                    Ok(w) => spec_parse_imp(data) == Ok::<War3MapImpView, Error>(w@),
                    Err(e) => spec_parse_imp(data) == Err::<War3MapImpView, Error>(e),
                },
                Err(_) => r matches Err(e) && member_error(old(self).archive@, "war3map.imp", e),
            },
    {
        let data = self.read_file("war3map.imp")?;
        War3MapImp::parse(data.as_slice())
    }

    /// Parse the `war3map.wts` string table.
    pub fn read_string_table(&mut self) -> (r: Result<War3MapWts, Error>)
        requires
            old(self).wf(),
        ensures
            final(self).archive@ == old(self).archive@,
            final(self).header == old(self).header,
            final(self).files == old(self).files,
            final(self).wf(),
            match spec_read_member(old(self).archive@, "war3map.wts") {
                Ok(data) => r matches Ok(w) && w@ == spec_parse_wts(encode_utf8(utf8_lossy(data))),
                Err(_) => r matches Err(e) && member_error(old(self).archive@, "war3map.wts", e),
            },
    {
        let data = self.read_file("war3map.wts")?;
        let text = lossy_string(data.as_slice());
        War3MapWts::parse(text.as_str())
    }

    /// Parse `war3map.mmp` minimap icons.
    pub fn read_minimap_icons(&mut self) -> (r: Result<War3MapMmp, Error>)
        requires
            old(self).wf(),
        ensures
            final(self).archive@ == old(self).archive@,
            final(self).header == old(self).header,
            final(self).files == old(self).files,
            final(self).wf(),
            match spec_read_member(old(self).archive@, "war3map.mmp") {
                Ok(data) => match r {
                    Ok(w) => spec_parse_mmp(data) == Ok::<War3MapMmpView, Error>(w@),
                    Err(e) => spec_parse_mmp(data) == Err::<War3MapMmpView, Error>(e),
                },
                Err(_) => r matches Err(e) && member_error(old(self).archive@, "war3map.mmp", e),
            },
    {
        let data = self.read_file("war3map.mmp")?;
        War3MapMmp::parse(data.as_slice())
    }
    /// Decode the minimap image (`war3mapMap.tga` / `.blp`).
    pub fn read_minimap(&mut self) -> (r: Result<War3Image, Error>)
        requires
            old(self).wf(),
        ensures
            final(self).archive@ == old(self).archive@,
            final(self).header == old(self).header,
            final(self).files == old(self).files,
            final(self).wf(),
            image_read(old(self).archive@, "war3mapMap"@, minimap_names(), r),
    {
        let names = ["war3mapMap.tga", "war3mapMap.blp", "war3mapmap.tga", "war3mapmap.blp"];
        assert(names@ == minimap_names());
        self.read_image_variants("war3mapMap", &names)
    }

    /// Decode the preview image (`war3mapPreview.tga` / `.blp`).
    pub fn read_preview(&mut self) -> (r: Result<War3Image, Error>)
        requires
            old(self).wf(),
        ensures
            final(self).archive@ == old(self).archive@,
            final(self).header == old(self).header,
            final(self).files == old(self).files,
            final(self).wf(),
            image_read(old(self).archive@, "war3mapPreview"@, preview_names(), r),
    {
        let names = ["war3mapPreview.tga", "war3mapPreview.blp", "war3mappreview.tga", "war3mappreview.blp"];
        assert(names@ == preview_names());
        self.read_image_variants("war3mapPreview", &names)
    }

    fn holds_member(&mut self, name: &str) -> (b: bool)
        requires
            old(self).wf(),
        ensures
            final(self).archive@ == old(self).archive@,
            final(self).header == old(self).header,
            final(self).files == old(self).files,
            final(self).wf(),
            b == holds(old(self).archive@, name),
    {
        proof {
            reveal(holds);
        }
        self.has(name)
    }

    fn first_present_index(&mut self, candidates: &[&str]) -> (r: Option<usize>)
        requires
            old(self).wf(),
        ensures
            final(self).archive@ == old(self).archive@,
            final(self).header == old(self).header,
            final(self).files == old(self).files,
            final(self).wf(),
            match r {
                Some(k) => first_present(old(self).archive@, candidates@, 0) == Some(k as int) && k < candidates@.len(),
                None => first_present(old(self).archive@, candidates@, 0) is None,
            },
    {
        let ghost a = self.archive@;
        let mut k: usize = 0;
        while k < candidates.len()
            invariant
                self.archive@ == a,
                a == old(self).archive@,
                self.header == old(self).header,
                self.files == old(self).files,
                self.wf(),
                k <= candidates@.len(),
                first_present(a, candidates@, 0) == first_present(a, candidates@, k as int),
            decreases candidates@.len() - k,
        {
            let present = self.holds_member(candidates[k]);
            if present {
                return Some(k);
            }
            k += 1;
        }
        None
    }

    fn read_image_variants(&mut self, stem: &str, candidates: &[&str]) -> (r: Result<War3Image, Error>)
        requires
            old(self).wf(),
        ensures
            final(self).archive@ == old(self).archive@,
            final(self).header == old(self).header,
            final(self).files == old(self).files,
            final(self).wf(),
            image_read(old(self).archive@, stem@, candidates@, r),
    {
        match self.first_present_index(candidates) {
            None => {},
            Some(k) => {
                let name = candidates[k];
                let data = match self.read_file(name) {
                    Ok(d) => d,
                    Err(e) => return Err(e),
                };
                return War3Image::from_buffer(data.as_slice(), name);
            },
        }
        Err(Error::FileNotFound(String::from_str(stem)))
    }
}

} // verus!

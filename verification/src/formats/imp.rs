//! `war3map.imp` — imported files table.
use crate::error::Error;
use crate::reader::{parse_counted, read_counted, views, ByteReader, Read, ReaderView, Record};
use vstd::prelude::*;

verus! {

/// One imported file entry.
#[derive(Debug, Clone)]
pub struct Import {
    /// Flag byte: WC3MapSpec uses 8 = standard, 13 = custom path;
    /// older tools write 0/1 or 10.
    pub is_custom: u8,
    /// Path as stored in the file (standard imports omit the
    /// `war3mapimported\` prefix).
    pub path: String,
}

pub struct ImportView {
    pub is_custom: u8,
    pub path: Seq<char>,
}

impl View for Import {
    type V = ImportView;

    open spec fn view(&self) -> ImportView {
        ImportView { is_custom: self.is_custom, path: self.path@ }
    }
}

/// The flag values whose path is implicitly under `war3mapimported\`.
pub open spec fn standard_flag(is_custom: u8) -> bool {
    is_custom == 0 || is_custom == 1 || is_custom == 8
}

/// The directory standard imports live in.
pub open spec fn imported_prefix() -> Seq<char> {
    seq!['w', 'a', 'r', '3', 'm', 'a', 'p', 'i', 'm', 'p', 'o', 'r', 't', 'e', 'd', '\\']
}

/// The in-archive path of an import entry.
pub open spec fn resolved(i: ImportView) -> Seq<char> {
    if standard_flag(i.is_custom) {
        imported_prefix() + i.path
    } else {
        i.path
    }
}

impl Import {
    /// Whether the stored path is implicitly under `war3mapimported\`.
    pub fn is_standard_path(&self) -> (b: bool)
        ensures
            b == standard_flag(self.is_custom),
    {
        self.is_custom == 0 || self.is_custom == 1 || self.is_custom == 8
    }

    /// Full in-archive path (standard imports gain the
    /// `war3mapimported\` prefix).
    pub fn resolved_path(&self) -> (p: String)
        ensures
            p@ == resolved(self@),
    {
        if self.is_standard_path() {
            let mut p = String::from_str("war3mapimported\\");
            proof {
                reveal_strlit("war3mapimported\\");
            }
            assert(p@ =~= imported_prefix());
            p.append(self.path.as_str());
            p
        } else {
            self.path.clone()
        }
    }
}

impl Record for Import {
    open spec fn spec_read(v: ReaderView, version: u32) -> Read<ImportView> {
        match v.read_u8() {
            Err(e) => Err(e),
            Ok((is_custom, v)) => match v.read_cstr() {
                Err(e) => Err(e),
                Ok((path, v)) => Ok((ImportView { is_custom, path }, v)),
            },
        }
    }

    fn read(r: &mut ByteReader<'_>, version: u32) -> (res: Result<Import, Error>) {
        let is_custom = r.u8()?;
        let path = r.cstr_lossy()?;
        Ok(Import { is_custom, path })
    }
}

/// Import table parsed from `war3map.imp`, in file order.
#[derive(Debug, Clone, Default)]
pub struct War3MapImp {
    pub version: u32,
    pub entries: Vec<Import>,
}

pub struct War3MapImpView {
    pub version: u32,
    pub entries: Seq<ImportView>,
}

impl View for War3MapImp {
    type V = War3MapImpView;

    open spec fn view(&self) -> War3MapImpView {
        War3MapImpView { version: self.version, entries: views(self.entries@) }
    }
}

/// A `war3map.imp`: the version, then a counted list of entries.
pub open spec fn spec_parse_imp(data: Seq<u8>) -> Result<War3MapImpView, Error> {
    let v = ReaderView { data, pos: 0, lenient: false };
    match v.read_u32() {
        Err(e) => Err(e),
        Ok((version, v)) => match read_counted::<Import>(v, 0) {
            Err(e) => Err(e),
            Ok((entries, _)) => Ok(War3MapImpView { version, entries }),
        },
    }
}

impl War3MapImp {
    /// Parse a complete `war3map.imp` buffer.
    pub fn parse(data: &[u8]) -> (res: Result<Self, Error>)
        ensures
            match res {
                Ok(m) => spec_parse_imp(data@) == Ok::<_, Error>(m@),
                Err(e) => spec_parse_imp(data@) == Err::<War3MapImpView, _>(e),
            },
    {
        let r = &mut ByteReader::new(data);
        let version = r.u32()?;
        let entries = parse_counted::<Import>(r, 0)?;
        Ok(Self { version, entries })
    }
}

} // verus!

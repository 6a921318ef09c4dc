//! `HM3W` container header (absent on bare-MPQ / protected maps).
use crate::error::Error;
use crate::reader::{first_zero, le_bytes, lemma_first_zero, lemma_le_roundtrip, opt_view, ByteReader, ReaderView};
use crate::text::utf8_lossy;
use vstd::prelude::*;

verus! {

/// Magic bytes of the optional map header.
pub open spec fn hm3w_magic() -> Seq<u8> {
    seq![0x48u8, 0x4Du8, 0x33u8, 0x57u8]
}

/// Fields of the optional `HM3W` prefix that precedes the embedded MPQ.
#[derive(Debug, Clone)]
pub struct War3MapHeader {
    /// Whether the `HM3W` magic was present.
    pub has_hm3w: bool,
    pub name: Option<String>,
    pub flags: Option<u32>,
    pub max_players: Option<u32>,
    /// Unknown field between the magic and the name.
    pub u1: Option<u32>,
}

pub struct War3MapHeaderView {
    pub has_hm3w: bool,
    pub name: Option<Seq<char>>,
    pub flags: Option<u32>,
    pub max_players: Option<u32>,
    pub u1: Option<u32>,
}

impl View for War3MapHeader {
    type V = War3MapHeaderView;

    open spec fn view(&self) -> War3MapHeaderView {
        War3MapHeaderView {
            has_hm3w: self.has_hm3w,
            name: opt_view(self.name),
            flags: self.flags,
            max_players: self.max_players,
            u1: self.u1,
        }
    }
}

/// The header of a map without the `HM3W` magic.
pub open spec fn absent_header() -> War3MapHeaderView {
    War3MapHeaderView { has_hm3w: false, name: None, flags: None, max_players: None, u1: None }
}

/// What the first bytes of a map say about its `HM3W` prefix: an error only
/// when fewer than four bytes are there to hold the magic.
pub open spec fn spec_header(data: Seq<u8>) -> Result<War3MapHeaderView, Error> {
    let v = ReaderView { data, pos: 0, lenient: false };
    match v.take(4) {
        Err(e) => Err(e),
        Ok((magic, v)) => if magic != hm3w_magic() {
            Ok(absent_header())
        } else {
            match v.read_u32() {
                Err(e) => Err(e),
                Ok((u1, v)) => match v.read_cstr() {
                    Err(e) => Err(e),
                    Ok((name, v)) => match v.read_u32() {
                        Err(e) => Err(e),
                        Ok((flags, v)) => match v.read_u32() {
                            Err(e) => Err(e),
                            Ok((max_players, _)) => Ok(War3MapHeaderView {
                                has_hm3w: true,
                                name: Some(name),
                                flags: Some(flags),
                                max_players: Some(max_players),
                                u1: Some(u1),
                            }),
                        },
                    },
                },
            }
        },
    }
}

/// The bytes of an `HM3W` prefix with the given fields; `name` is stored with
/// its NUL terminator.
pub open spec fn header_bytes(u1: u32, name: Seq<u8>, flags: u32, max_players: u32) -> Seq<u8> {
    hm3w_magic() + le_bytes(u1) + name + seq![0u8] + le_bytes(flags) + le_bytes(max_players)
}

/// The header read from an `HM3W` prefix with a NUL-free name.
pub open spec fn header_fields(u1: u32, name: Seq<u8>, flags: u32, max_players: u32) -> War3MapHeaderView {
    War3MapHeaderView {
        has_hm3w: true,
        name: Some(utf8_lossy(name)),
        flags: Some(flags),
        max_players: Some(max_players),
        u1: Some(u1),
    }
}

proof fn lemma_header_of_prefix(u1: u32, name: Seq<u8>, flags: u32, max_players: u32, tail: Seq<u8>)
    requires
        forall|k: int| 0 <= k < name.len() ==> name[k] != 0,
    ensures
        spec_header(header_bytes(u1, name, flags, max_players) + tail) == Ok::<_, Error>(
            header_fields(u1, name, flags, max_players),
        ),
{
    let d = header_bytes(u1, name, flags, max_players) + tail;
    let n = name.len() as int;
    lemma_le_roundtrip(u1);
    lemma_le_roundtrip(flags);
    lemma_le_roundtrip(max_players);
    assert(d.subrange(0, 4) =~= hm3w_magic());
    assert(d.subrange(4, 8) =~= le_bytes(u1));
    assert(d.subrange(8, 8 + n) =~= name);
    assert(d.subrange(9 + n, 13 + n) =~= le_bytes(flags));
    assert(d.subrange(13 + n, 17 + n) =~= le_bytes(max_players));
    lemma_first_zero(d, 8);
    let z = first_zero(d, 8);
    assert(d[8 + n] == 0);
    if z > 8 + n {
        assert(d[8 + n] != 0);
    }
    if z < 8 + n {
        assert(d[z] == name[z - 8]);
    }
    assert(z == 8 + n);
}

/// An `HM3W` prefix is read from its own bytes alone: whatever follows it
/// (an embedded MPQ, intact or not, or nothing) leaves the header as the
/// prefix alone gives it, with every field that the prefix stores.
pub proof fn lemma_header_ignores_what_follows(u1: u32, name: Seq<u8>, flags: u32, max_players: u32, tail: Seq<u8>)
    requires
        forall|k: int| 0 <= k < name.len() ==> name[k] != 0,
    ensures
        spec_header(header_bytes(u1, name, flags, max_players) + tail) == spec_header(
            header_bytes(u1, name, flags, max_players),
        ),
        spec_header(header_bytes(u1, name, flags, max_players)) == Ok::<_, Error>(
            header_fields(u1, name, flags, max_players),
        ),
{
    lemma_header_of_prefix(u1, name, flags, max_players, tail);
    lemma_header_of_prefix(u1, name, flags, max_players, Seq::empty());
    assert(header_bytes(u1, name, flags, max_players) + Seq::<u8>::empty() =~= header_bytes(
        u1,
        name,
        flags,
        max_players,
    ));
}

impl Default for War3MapHeader {
    fn default() -> (h: Self)
        ensures
            h@ == absent_header(),
    {
        War3MapHeader { has_hm3w: false, name: None, flags: None, max_players: None, u1: None }
    }
}

impl War3MapHeader {
    /// Parse the `HM3W` prefix straight from a map's bytes.
    ///
    /// Deliberately independent of the embedded MPQ: these fields are stored in
    /// plaintext ahead of the archive, so a map whose archive cannot be opened
    /// at all still yields its name and player count here. A buffer without
    /// the magic (a bare MPQ, or a pre-TFT map) yields a default, absent header
    /// rather than an error.
    pub fn from_buffer(buffer: &[u8]) -> (res: Result<Self, Error>)
        ensures
            match res {
                Ok(h) => spec_header(buffer@) == Ok::<_, Error>(h@),
                Err(e) => spec_header(buffer@) == Err::<War3MapHeaderView, _>(e),
            },
    {
        let r = &mut ByteReader::new(buffer);
        let magic: [u8; 4] = r.bytes::<4>()?;
        if !(magic[0] == 0x48 && magic[1] == 0x4D && magic[2] == 0x33 && magic[3] == 0x57) {
            assert(magic@ != hm3w_magic()) by {
                if magic@ == hm3w_magic() {
                    assert(magic@[0] == 0x48 && magic@[1] == 0x4D && magic@[2] == 0x33 && magic@[3] == 0x57);
                }
            }
            return Ok(Self::default());
        }
        assert(magic@ =~= hm3w_magic());
        let u1 = r.u32()?;
        let name = r.cstr_lossy()?;
        let flags = r.u32()?;
        let max_players = r.u32()?;
        Ok(Self { has_hm3w: true, u1: Some(u1), name: Some(name), flags: Some(flags), max_players: Some(max_players) })
    }
}

} // verus!

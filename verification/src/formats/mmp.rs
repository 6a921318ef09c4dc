//! `war3map.mmp` — minimap icon overlay (gold mines, houses, player starts).
use crate::error::Error;
use crate::reader::{parse_n, parse_counted, read_counted, read_records, views, ByteReader, Read, ReaderView, Record};
use vstd::prelude::*;

verus! {

/// Icon type stored in `war3map.mmp`.
#[derive(Debug, Clone, Copy, PartialEq, Eq, Structural)]
pub enum MinimapIconType {
    GoldMine,
    House,
    PlayerStart,
    Unknown,
}

/// The icon type a stored code stands for.
pub open spec fn icon_type_of(value: i32) -> MinimapIconType {
    if value == 0 {
        MinimapIconType::GoldMine
    } else if value == 1 {
        MinimapIconType::House
    } else if value == 2 {
        MinimapIconType::PlayerStart
    } else {
        MinimapIconType::Unknown
    }
}

impl From<i32> for MinimapIconType {
    fn from(value: i32) -> (t: Self) {
        match value {
            0 => Self::GoldMine,
            1 => Self::House,
            2 => Self::PlayerStart,
            _ => Self::Unknown,
        }
    }
}

impl vstd::std_specs::convert::FromSpecImpl<i32> for MinimapIconType {
    open spec fn obeys_from_spec() -> bool {
        true
    }

    open spec fn from_spec(value: i32) -> MinimapIconType {
        icon_type_of(value)
    }
}

/// Single minimap icon entry.
#[derive(Debug, Clone, Copy)]
pub struct MinimapIcon {
    /// 0 = gold mine, 1 = house/neutral building, 2 = player start.
    pub icon_type: i32,
    /// Pixel X on the 256×256 minimap texture (origin top-left).
    pub x: i32,
    /// Pixel Y on the 256×256 minimap texture (origin top-left).
    pub y: i32,
    /// Color as RGBA (converted from the file's BGRA order).
    pub color: [u8; 4],
}

pub struct MinimapIconView {
    pub icon_type: i32,
    pub x: i32,
    pub y: i32,
    pub color: Seq<u8>,
}

impl View for MinimapIcon {
    type V = MinimapIconView;

    open spec fn view(&self) -> MinimapIconView {
        MinimapIconView { icon_type: self.icon_type, x: self.x, y: self.y, color: self.color@ }
    }
}

impl MinimapIcon {
    /// Typed view of `icon_type`.
    pub fn kind(&self) -> (t: MinimapIconType)
        ensures
            t == icon_type_of(self.icon_type),
    {
        MinimapIconType::from(self.icon_type)
    }
}

/// The BGRA bytes of the file reordered as RGBA.
pub open spec fn bgra_to_rgba(bgra: Seq<u8>) -> Seq<u8> {
    seq![bgra[2], bgra[1], bgra[0], bgra[3]]
}

impl Record for MinimapIcon {
    open spec fn spec_read(v: ReaderView, version: u32) -> Read<MinimapIconView> {
        match v.read_i32() {
            Err(e) => Err(e),
            Ok((icon_type, v)) => match v.read_i32() {
                Err(e) => Err(e),
                Ok((x, v)) => match v.read_i32() {
                    Err(e) => Err(e),
                    Ok((y, v)) => match v.take(4) {
                        Err(e) => Err(e),
                        Ok((bgra, v)) => Ok((MinimapIconView { icon_type, x, y, color: bgra_to_rgba(bgra) }, v)),
                    },
                },
            },
        }
    }

    fn read(r: &mut ByteReader<'_>, version: u32) -> (res: Result<MinimapIcon, Error>) {
        let icon_type = r.i32()?;
        let x = r.i32()?;
        let y = r.i32()?;
        let bgra = r.bytes::<4>()?;
        let color = [bgra[2], bgra[1], bgra[0], bgra[3]];
        assert(color@ =~= bgra_to_rgba(bgra@));
        Ok(MinimapIcon { icon_type, x, y, color })
    }
}

/// Minimap icon table parsed from `war3map.mmp`.
#[derive(Debug, Clone, Default)]
pub struct War3MapMmp {
    pub version: i32,
    pub icons: Vec<MinimapIcon>,
}

pub struct War3MapMmpView {
    pub version: i32,
    pub icons: Seq<MinimapIconView>,
}

impl View for War3MapMmp {
    type V = War3MapMmpView;

    open spec fn view(&self) -> War3MapMmpView {
        War3MapMmpView { version: self.version, icons: views(self.icons@) }
    }
}

/// A `war3map.mmp`: the version, then a counted icon list (a file that ends
/// before the count has no icons).
pub open spec fn spec_parse_mmp(data: Seq<u8>) -> Result<War3MapMmpView, Error> {
    let v = ReaderView { data, pos: 0, lenient: false };
    match v.read_i32() {
        Err(e) => Err(e),
        Ok((version, v)) => match read_counted::<MinimapIcon>(v, 0) {
            Err(e) => Err(e),
            Ok((icons, _)) => Ok(War3MapMmpView { version, icons }),
        },
    }
}

/// A `war3map.mmp` whose icon count must be present.
pub open spec fn spec_load_mmp(data: Seq<u8>) -> Result<War3MapMmpView, Error> {
    let v = ReaderView { data, pos: 0, lenient: false };
    match v.read_i32() {
        Err(e) => Err(e),
        Ok((version, v)) => match v.read_u32() {
            Err(e) => Err(e),
            Ok((count, v)) => match read_records::<MinimapIcon>(v, 0, count as nat) {
                Err(e) => Err(e),
                Ok((icons, _)) => Ok(War3MapMmpView { version, icons }),
            },
        },
    }
}

impl War3MapMmp {
    /// Parse a complete `war3map.mmp` buffer.
    pub fn parse(data: &[u8]) -> (res: Result<Self, Error>)
        ensures
            match res {
                Ok(m) => spec_parse_mmp(data@) == Ok::<_, Error>(m@),
                Err(e) => spec_parse_mmp(data@) == Err::<War3MapMmpView, _>(e),
            },
    {
        let r = &mut ByteReader::new(data);
        let version = r.i32()?;
        let icons = parse_counted::<MinimapIcon>(r, 0)?;
        Ok(Self { version, icons })
    }

    /// Parse a `war3map.mmp` buffer whose icon count is mandatory: a file that
    /// ends before it is truncated, not empty.
    pub fn load_bytes(data: &[u8]) -> (res: Result<Self, Error>)
        ensures
            match res {
                Ok(m) => spec_load_mmp(data@) == Ok::<_, Error>(m@),
                Err(e) => spec_load_mmp(data@) == Err::<War3MapMmpView, _>(e),
            },
    {
        let r = &mut ByteReader::new(data);
        let version = r.i32()?;
        let count = r.u32()?;
        let icons = parse_n::<MinimapIcon>(r, 0, count)?;
        Ok(Self { version, icons })
    }
}

} // verus!

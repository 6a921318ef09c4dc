//! `war3map.w3i` format version ladder.
use vstd::prelude::*;

verus! {

/// Format version of a `war3map.w3i` file.
///
/// Thin ordered wrapper around the raw version number so gate checks read as
/// `version >= FormatVersion::V23`. Known versions are:
///
/// | Version | Game |
/// |---------|------|
/// | 8–15    | Reign of Chaos betas |
/// | 18      | Reign of Chaos |
/// | 23–25   | The Frozen Throne (25 = final TFT) |
/// | 26–27   | TFT patches |
/// | 28      | 1.31 (adds Lua script mode) |
/// | 31      | Reforged 1.32 |
/// | 32–33   | WC3 2.0 (camera zoom limits) |
///
/// Unknown numbers order naturally between / beyond the known ones, so maps
/// produced by future patches keep parsing with the nearest layout.
#[derive(Debug, Clone, Copy, PartialEq, Eq, PartialOrd, Ord, Hash, Structural)]
pub struct FormatVersion(pub u32);

/// Whether `v` is one of the version numbers with a documented layout.
pub open spec fn known_version(v: u32) -> bool {
    v == 8 || v == 10 || v == 11 || v == 15 || v == 18 || v == 23 || v == 24 || v == 25
        || v == 26 || v == 27 || v == 28 || v == 31 || v == 32 || v == 33
}

impl FormatVersion {
    #[allow(non_snake_case)]
    pub fn V8() -> (v: FormatVersion)
        ensures
            v.0 == 8,
    {
        FormatVersion(8)
    }
    #[allow(non_snake_case)]
    pub fn V10() -> (v: FormatVersion)
        ensures
            v.0 == 10,
    {
        FormatVersion(10)
    }
    #[allow(non_snake_case)]
    pub fn V11() -> (v: FormatVersion)
        ensures
            v.0 == 11,
    {
        FormatVersion(11)
    }
    #[allow(non_snake_case)]
    pub fn V15() -> (v: FormatVersion)
        ensures
            v.0 == 15,
    {
        FormatVersion(15)
    }
    #[allow(non_snake_case)]
    pub fn V18() -> (v: FormatVersion)
        ensures
            v.0 == 18,
    {
        FormatVersion(18)
    }
    #[allow(non_snake_case)]
    pub fn V23() -> (v: FormatVersion)
        ensures
            v.0 == 23,
    {
        FormatVersion(23)
    }
    #[allow(non_snake_case)]
    pub fn V24() -> (v: FormatVersion)
        ensures
            v.0 == 24,
    {
        FormatVersion(24)
    }
    #[allow(non_snake_case)]
    pub fn V25() -> (v: FormatVersion)
        ensures
            v.0 == 25,
    {
        FormatVersion(25)
    }
    #[allow(non_snake_case)]
    pub fn V26() -> (v: FormatVersion)
        ensures
            v.0 == 26,
    {
        FormatVersion(26)
    }
    #[allow(non_snake_case)]
    pub fn V27() -> (v: FormatVersion)
        ensures
            v.0 == 27,
    {
        FormatVersion(27)
    }
    #[allow(non_snake_case)]
    pub fn V28() -> (v: FormatVersion)
        ensures
            v.0 == 28,
    {
        FormatVersion(28)
    }
    #[allow(non_snake_case)]
    pub fn V31() -> (v: FormatVersion)
        ensures
            v.0 == 31,
    {
        FormatVersion(31)
    }
    #[allow(non_snake_case)]
    pub fn V32() -> (v: FormatVersion)
        ensures
            v.0 == 32,
    {
        FormatVersion(32)
    }
    #[allow(non_snake_case)]
    pub fn V33() -> (v: FormatVersion)
        ensures
            v.0 == 33,
    {
        FormatVersion(33)
    }

    /// All versions with a documented layout, ascending.
    pub fn known() -> (v: Vec<FormatVersion>)
        ensures
            v@.len() == 14,
            forall|i: int, j: int| 0 <= i < j < v@.len() ==> v@[i].0 < v@[j].0,
            forall|n: u32| known_version(n) <==> exists|i: int| 0 <= i < v@.len() && v@[i].0 == n,
    {
        let v = vec![
            Self::V8(), Self::V10(), Self::V11(), Self::V15(), Self::V18(), Self::V23(), Self::V24(),
            Self::V25(), Self::V26(), Self::V27(), Self::V28(), Self::V31(), Self::V32(), Self::V33(),
        ];
        assert forall|n: u32| known_version(n) implies exists|i: int| 0 <= i < v@.len() && v@[i].0 == n by {
            if n == 8 { assert(v@[0].0 == n); }
            else if n == 10 { assert(v@[1].0 == n); }
            else if n == 11 { assert(v@[2].0 == n); }
            else if n == 15 { assert(v@[3].0 == n); }
            else if n == 18 { assert(v@[4].0 == n); }
            else if n == 23 { assert(v@[5].0 == n); }
            else if n == 24 { assert(v@[6].0 == n); }
            else if n == 25 { assert(v@[7].0 == n); }
            else if n == 26 { assert(v@[8].0 == n); }
            else if n == 27 { assert(v@[9].0 == n); }
            else if n == 28 { assert(v@[10].0 == n); }
            else if n == 31 { assert(v@[11].0 == n); }
            else if n == 32 { assert(v@[12].0 == n); }
            else { assert(v@[13].0 == n); }
        }
        v
    }

    /// Whether this exact version number has a documented layout.
    pub fn is_known(self) -> (b: bool)
        ensures
            b == known_version(self.0),
    {
        let n = self.0;
        n == 8 || n == 10 || n == 11 || n == 15 || n == 18 || n == 23 || n == 24 || n == 25
            || n == 26 || n == 27 || n == 28 || n == 31 || n == 32 || n == 33
    }

    /// The Frozen Throne data layout or later.
    pub fn is_tft(self) -> (b: bool)
        ensures
            b == (self.0 >= 23),
    {
        self.0 >= Self::V23().0
    }

    /// Reforged (1.32+) layout or later.
    pub fn is_reforged(self) -> (b: bool)
        ensures
            b == (self.0 >= 31),
    {
        self.0 >= Self::V31().0
    }
}

impl From<u32> for FormatVersion {
    fn from(value: u32) -> (v: Self) {
        Self(value)
    }
}

impl vstd::std_specs::convert::FromSpecImpl<u32> for FormatVersion {
    open spec fn obeys_from_spec() -> bool {
        true
    }

    open spec fn from_spec(value: u32) -> FormatVersion {
        FormatVersion(value)
    }
}

} // verus!

//! Upgrade / tech availability change records.
use crate::error::Error;
use crate::reader::{ByteReader, Read, ReaderView, Record};
use vstd::prelude::*;

verus! {

/// One modified upgrade availability entry.
#[derive(Debug, Clone)]
pub struct UpgradeAvailabilityChange {
    /// Bitmask of affected player slots.
    pub player_flags: u32,
    /// Four-character upgrade rawcode (e.g. `Rhme`).
    pub id: [u8; 4],
    pub level_affected: i32,
    /// 0 = unavailable, 1 = available, 2 = researched.
    pub availability: i32,
}

/// One removed (unavailable) tech entry.
#[derive(Debug, Clone)]
pub struct TechAvailabilityChange {
    /// Bitmask of affected player slots.
    pub player_flags: u32,
    /// Four-character tech rawcode.
    pub id: [u8; 4],
}

pub struct UpgradeAvailabilityChangeView {
    pub player_flags: u32,
    pub id: Seq<u8>,
    pub level_affected: i32,
    pub availability: i32,
}

pub struct TechAvailabilityChangeView {
    pub player_flags: u32,
    pub id: Seq<u8>,
}

impl View for UpgradeAvailabilityChange {
    type V = UpgradeAvailabilityChangeView;

    open spec fn view(&self) -> UpgradeAvailabilityChangeView {
        UpgradeAvailabilityChangeView {
            player_flags: self.player_flags,
            id: self.id@,
            level_affected: self.level_affected,
            availability: self.availability,
        }
    }
}

impl View for TechAvailabilityChange {
    type V = TechAvailabilityChangeView;

    open spec fn view(&self) -> TechAvailabilityChangeView {
        TechAvailabilityChangeView { player_flags: self.player_flags, id: self.id@ }
    }
}

impl Record for UpgradeAvailabilityChange {
    open spec fn spec_read(v: ReaderView, version: u32) -> Read<UpgradeAvailabilityChangeView> {
        match v.read_u32() {
            Err(e) => Err(e),
            Ok((player_flags, v)) => match v.take(4) {
                Err(e) => Err(e),
                Ok((id, v)) => match v.read_i32() {
                    Err(e) => Err(e),
                    Ok((level_affected, v)) => match v.read_i32() {
                        Err(e) => Err(e),
                        Ok((availability, v)) => Ok((
                            UpgradeAvailabilityChangeView { player_flags, id, level_affected, availability },
                            v,
                        )),
                    },
                },
            },
        }
    }

    fn read(r: &mut ByteReader<'_>, version: u32) -> (res: Result<Self, Error>) {
        UpgradeAvailabilityChange::parse(r)
    }
}

impl Record for TechAvailabilityChange {
    open spec fn spec_read(v: ReaderView, version: u32) -> Read<TechAvailabilityChangeView> {
        match v.read_u32() {
            Err(e) => Err(e),
            Ok((player_flags, v)) => match v.take(4) {
                Err(e) => Err(e),
                Ok((id, v)) => Ok((TechAvailabilityChangeView { player_flags, id }, v)),
            },
        }
    }

    fn read(r: &mut ByteReader<'_>, version: u32) -> (res: Result<Self, Error>) {
        TechAvailabilityChange::parse(r)
    }
}

impl UpgradeAvailabilityChange {
    pub(crate) fn parse(r: &mut ByteReader<'_>) -> (res: Result<Self, Error>)
        requires
            old(r)@.wf(),
        ensures
            final(r)@.wf(),
            match res {
                Ok(x) => Self::spec_read(old(r)@, 0) == Ok::<_, Error>((x@, final(r)@)),
                Err(e) => Self::spec_read(old(r)@, 0) == Err::<(UpgradeAvailabilityChangeView, ReaderView), _>(e),
            },
    {
        let player_flags = r.u32()?;
        let id = r.bytes::<4>()?;
        let level_affected = r.i32()?;
        let availability = r.i32()?;
        Ok(Self { player_flags, id, level_affected, availability })
    }
}

impl TechAvailabilityChange {
    pub(crate) fn parse(r: &mut ByteReader<'_>) -> (res: Result<Self, Error>)
        requires
            old(r)@.wf(),
        ensures
            final(r)@.wf(),
            match res {
                Ok(x) => Self::spec_read(old(r)@, 0) == Ok::<_, Error>((x@, final(r)@)),
                Err(e) => Self::spec_read(old(r)@, 0) == Err::<(TechAvailabilityChangeView, ReaderView), _>(e),
            },
    {
        let player_flags = r.u32()?;
        let id = r.bytes::<4>()?;
        Ok(Self { player_flags, id })
    }
}

} // verus!

//! Force (team) record.
use crate::error::Error;
use crate::reader::{ByteReader, Read, ReaderView, Record};
use vstd::prelude::*;

verus! {

/// A force (team) definition.
#[derive(Debug, Clone)]
pub struct Force {
    /// Bit 0: allied, bit 1: allied victory, bit 3: share vision,
    /// bit 4: share unit control, bit 5: share advanced unit control.
    pub flags: u32,
    /// Bitmask of player slots belonging to this force.
    pub player_masks: u32,
    pub name: String,
}

pub struct ForceView {
    pub flags: u32,
    pub player_masks: u32,
    pub name: Seq<char>,
}

impl View for Force {
    type V = ForceView;

    open spec fn view(&self) -> ForceView {
        ForceView { flags: self.flags, player_masks: self.player_masks, name: self.name@ }
    }
}

impl Record for Force {
    open spec fn spec_read(v: ReaderView, version: u32) -> Read<ForceView> {
        match v.read_u32() {
            Err(e) => Err(e),
            Ok((flags, v)) => match v.read_u32() {
                Err(e) => Err(e),
                Ok((player_masks, v)) => match v.read_cstr() {
                    Err(e) => Err(e),
                    Ok((name, v)) => Ok((ForceView { flags, player_masks, name }, v)),
                },
            },
        }
    }

    fn read(r: &mut ByteReader<'_>, version: u32) -> (res: Result<Force, Error>) {
        Force::parse(r)
    }
}

impl Force {
    pub(crate) fn parse(r: &mut ByteReader<'_>) -> (res: Result<Self, Error>)
        requires
            old(r)@.wf(),
        ensures
            final(r)@.wf(),
            match res {
                Ok(x) => Self::spec_read(old(r)@, 0) == Ok::<_, Error>((x@, final(r)@)),
                Err(e) => Self::spec_read(old(r)@, 0) == Err::<(ForceView, ReaderView), _>(e),
            },
    {
        let flags = r.u32()?;
        let player_masks = r.u32()?;
        let name = r.cstr_lossy()?;
        Ok(Self { flags, player_masks, name })
    }
}

} // verus!

//! Player slot record.
use crate::error::Error;
use crate::reader::{le_u32, ByteReader, Read, ReaderView, Record};
use vstd::prelude::*;
use vstd::utf8::encode_utf8;

verus! {

/// A player slot definition.
///
/// `start_location` holds the two IEEE-754 single-precision coordinates as
/// the bit patterns stored in the file.
#[derive(Debug, Clone)]
pub struct Player {
    pub id: i32,
    /// Controller: 1 = user, 2 = computer, 3 = neutral, 4 = rescuable.
    pub player_type: i32,
    /// Race: 1 = human, 2 = orc, 3 = undead, 4 = night elf.
    pub race: i32,
    /// Non-zero when the start position is fixed.
    pub is_fixed_start_position: i32,
    pub name: String,
    pub start_location: [u32; 2],
    pub ally_low_priorities: u32,
    pub ally_high_priorities: u32,
    /// Enemy low-priority bitmask (v31+).
    pub enemy_low_priorities: Option<u32>,
    /// Enemy high-priority bitmask (v31+).
    pub enemy_high_priorities: Option<u32>,
}

pub struct PlayerView {
    pub id: i32,
    pub player_type: i32,
    pub race: i32,
    pub is_fixed_start_position: i32,
    pub name: Seq<char>,
    pub start_location: Seq<u32>,
    pub ally_low_priorities: u32,
    pub ally_high_priorities: u32,
    pub enemy_low_priorities: Option<u32>,
    pub enemy_high_priorities: Option<u32>,
}

impl View for Player {
    type V = PlayerView;

    open spec fn view(&self) -> PlayerView {
        PlayerView {
            id: self.id,
            player_type: self.player_type,
            race: self.race,
            is_fixed_start_position: self.is_fixed_start_position,
            name: self.name@,
            start_location: self.start_location@,
            ally_low_priorities: self.ally_low_priorities,
            ally_high_priorities: self.ally_high_priorities,
            enemy_low_priorities: self.enemy_low_priorities,
            enemy_high_priorities: self.enemy_high_priorities,
        }
    }
}

/// The two enemy-priority masks, present from v31 on.
pub open spec fn read_enemy_priorities(v: ReaderView, version: u32) -> Read<(Option<u32>, Option<u32>)> {
    if version >= 31 {
        match v.read_u32() {
            Err(e) => Err(e),
            Ok((low, v)) => match v.read_u32() {
                Err(e) => Err(e),
                Ok((high, v)) => Ok(((Some(low), Some(high)), v)),
            },
        }
    } else {
        Ok(((None, None), v))
    }
}

impl Record for Player {
    open spec fn spec_read(v: ReaderView, version: u32) -> Read<PlayerView> {
        match v.read_i32() {
            Err(e) => Err(e),
            Ok((id, v)) => match v.read_i32() {
                Err(e) => Err(e),
                Ok((player_type, v)) => match v.read_i32() {
                    Err(e) => Err(e),
                    Ok((race, v)) => match v.read_i32() {
                        Err(e) => Err(e),
                        Ok((is_fixed_start_position, v)) => match v.read_cstr() {
                            Err(e) => Err(e),
                            Ok((name, v)) => match v.read_u32s(2) {
                                Err(e) => Err(e),
                                Ok((start_location, v)) => match v.read_u32() {
                                    Err(e) => Err(e),
                                    Ok((ally_low_priorities, v)) => match v.read_u32() {
                                        Err(e) => Err(e),
                                        Ok((ally_high_priorities, v)) => match read_enemy_priorities(v, version) {
                                            Err(e) => Err(e),
                                            Ok(((enemy_low_priorities, enemy_high_priorities), v)) => Ok((
                                                PlayerView {
                                                    id,
                                                    player_type,
                                                    race,
                                                    is_fixed_start_position,
                                                    name,
                                                    start_location,
                                                    ally_low_priorities,
                                                    ally_high_priorities,
                                                    enemy_low_priorities,
                                                    enemy_high_priorities,
                                                },
                                                v,
                                            )),
                                        },
                                    },
                                },
                            },
                        },
                    },
                },
            },
        }
    }

    fn read(r: &mut ByteReader<'_>, version: u32) -> (res: Result<Player, Error>) {
        let id = r.i32()?;
        let player_type = r.i32()?;
        let race = r.i32()?;
        let is_fixed_start_position = r.i32()?;
        let name = r.cstr_lossy()?;
        let start_location = r.u32s::<2>()?;
        let ally_low_priorities = r.u32()?;
        let ally_high_priorities = r.u32()?;
        let (enemy_low_priorities, enemy_high_priorities) = if version >= 31 {
            let low = r.u32()?;
            let high = r.u32()?;
            (Some(low), Some(high))
        } else {
            (None, None)
        };
        Ok(Player {
            id,
            player_type,
            race,
            is_fixed_start_position,
            name,
            start_location,
            ally_low_priorities,
            ally_high_priorities,
            enemy_low_priorities,
            enemy_high_priorities,
        })
    }
}

impl Player {
    /// Bytes this record occupies in a file of the given version.
    pub fn size(&self, version: u32) -> (n: usize)
        requires
            encode_utf8(self.name@).len() + 41 <= usize::MAX,
        ensures
            n == 33 + encode_utf8(self.name@).len() + (if version > 30 { 8int } else { 0 }),
    {
        let mut size = 32 + self.name.as_str().len() + 1;
        if version > 30 {
            size += 8;
        }
        size
    }
}

/// The little-endian word at byte `at` of `data`, as a signed value.
pub open spec fn word_i32(data: Seq<u8>, at: int) -> i32 {
    le_u32(data.subrange(at, at + 4)) as i32
}

/// A player record's leading fields are the little-endian words at fixed
/// offsets of its bytes: the id at 0, the controller type at 4, the race at
/// 8 and the fixed-start flag at 12; the name starts at 16. A record with
/// fewer than 16 bytes before the end does not read.
pub proof fn lemma_player_layout(v: ReaderView, version: u32)
    requires
        v.wf(),
    ensures
        Player::spec_read(v, version) matches Ok((p, _)) ==> {
            &&& p.id == word_i32(v.data, v.pos)
            &&& p.player_type == word_i32(v.data, v.pos + 4)
            &&& p.race == word_i32(v.data, v.pos + 8)
            &&& p.is_fixed_start_position == word_i32(v.data, v.pos + 12)
        },
        v.pos + 16 > v.data.len() ==> Player::spec_read(v, version) is Err,
{
}

} // verus!

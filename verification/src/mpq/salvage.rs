//! Reading an archive whose hash and block tables are unusable.
//!
//! Member data survives the tables, and it is self-describing: members lie
//! contiguously from the start of the archive, and a sector-based member begins
//! with its own sector offset table — `n + 1` little-endian words whose first
//! value is `4 * (n + 1)` and whose last is the packed size. That is enough to
//! chain from one member to the next without either table. Names cannot be
//! recovered (they exist only as hashes), so callers identify members by
//! content.
use crate::error::MpqError;
use crate::mpq::archive::{lemma_wf_bounds, Archive, ArchiveView};
use crate::mpq::compression::{decompress, spec_decompress};
use crate::mpq::crypt::words_of;
use crate::reader::{le_u32, read_le_u32};
use vstd::prelude::*;

verus! {

/// A sector offset table longer than this is not a member; the bound keeps a
/// garbage first word from allocating.
pub const MAX_SECTOR_TABLE: u32 = 0x4000;

/// Ceiling on how many members the walk follows, so that noise which keeps
/// looking like short sector tables cannot trap it.
pub const MAX_MEMBERS: usize = 4096;

/// A member located by walking the data region rather than by a table lookup.
#[derive(Debug, Clone)]
pub struct SalvagedMember {
    /// Offset of the member's data, relative to the archive header.
    pub offset: u32,
    /// Bytes the member occupies, from its own sector offset table.
    pub packed_size: u32,
    /// The member's sector offsets, relative to `offset`.
    pub sector_offsets: Vec<u32>,
}

/// A salvaged member as the library sees it.
pub struct SalvagedMemberView {
    pub offset: u32,
    pub packed_size: u32,
    pub sector_offsets: Seq<u32>,
}

impl View for SalvagedMember {
    type V = SalvagedMemberView;

    open spec fn view(&self) -> SalvagedMemberView {
        SalvagedMemberView {
            offset: self.offset,
            packed_size: self.packed_size,
            sector_offsets: self.sector_offsets@,
        }
    }
}

/// The views of a run of members.
pub open spec fn member_views(s: Seq<SalvagedMember>) -> Seq<SalvagedMemberView> {
    s.map_values(|m: SalvagedMember| m@)
}

impl SalvagedMember {
    /// Number of sectors the member is split into.
    pub fn sector_count(&self) -> (n: usize)
        ensures
            n == (if self@.sector_offsets.len() > 0 { self@.sector_offsets.len() - 1 } else { 0 }),
    {
        self.sector_offsets.len().saturating_sub(1)
    }
}

/// Where member data stops: the hash table when the header points somewhere
/// plausible, the end of the data otherwise.
pub open spec fn data_region_end(a: ArchiveView) -> u64 {
    let declared = a.offset + a.header.hash_table_offset;
    if declared > a.offset + 0x20 && declared <= a.data.len() {
        declared as u64
    } else {
        a.data.len() as u64
    }
}

/// Offsets that never fall and never step by more than `max`.
pub open spec fn offsets_rise_within(o: Seq<u32>, max: u32) -> bool {
    forall|k: int| 0 <= k < o.len() - 1 ==> #[trigger] o[k] <= o[k + 1] && o[k + 1] - o[k] <= max
}

/// The member whose sector offset table sits at `pos` (relative to the archive
/// header), if what is there can be one: a first offset that is a multiple of
/// four between 8 and [`MAX_SECTOR_TABLE`], a table that fits before `end`,
/// offsets that rise by at most a sector, and a nonzero packed size that fits
/// before `end`.
pub open spec fn spec_member_at(a: ArchiveView, pos: u64, end: u64) -> Option<SalvagedMemberView> {
    let start = a.offset + pos;
    if start + 8 > end {
        None
    } else {
        let first = le_u32(a.data.subrange(start, start + 4));
        if first < 8 || first % 4 != 0 || first > MAX_SECTOR_TABLE || start + first > end {
            None
        } else {
            let offsets = words_of(a.data.subrange(start, start + first));
            if !offsets_rise_within(offsets, a.sector_size) {
                None
            } else {
                let packed_size = offsets.last();
                if packed_size == 0 || start + packed_size > end {
                    None
                } else {
                    Some(SalvagedMemberView { offset: (pos % 0x1_0000_0000) as u32, packed_size, sector_offsets: offsets })
                }
            }
        }
    }
}

/// The members found by chaining from `pos`, at most `fuel` of them.
pub open spec fn salvage_walk(a: ArchiveView, pos: u64, end: u64, fuel: nat) -> Seq<SalvagedMemberView>
    decreases fuel,
{
    if fuel == 0 {
        Seq::empty()
    } else {
        match spec_member_at(a, pos, end) {
            None => Seq::empty(),
            Some(m) => seq![m] + salvage_walk(a, (pos + m.packed_size) as u64, end, (fuel - 1) as nat),
        }
    }
}

/// Whether a member's offsets never fall.
pub open spec fn offsets_rise(o: Seq<u32>) -> bool {
    forall|k: int| 0 <= k < o.len() - 1 ==> #[trigger] o[k] <= o[k + 1]
}

/// The first `k` sectors of a salvaged member, read and joined: a sector as
/// long as the archive's sector size is stored as it is, an empty one is
/// skipped, and any other is inflated into at most a sector.
pub open spec fn salvaged_sectors(a: ArchiveView, m: SalvagedMemberView, k: nat) -> Result<Seq<u8>, MpqError>
    decreases k,
{
    if k == 0 {
        Ok(Seq::empty())
    } else {
        match salvaged_sectors(a, m, (k - 1) as nat) {
            Err(e) => Err(e),
            Ok(out) => {
                let from = m.sector_offsets[k - 1];
                let to = m.sector_offsets[k as int];
                let len = to - from;
                if len == 0 {
                    Ok(out)
                } else {
                    let pos = a.offset + m.offset + from;
                    if pos + len > a.data.len() {
                        Err(MpqError::Truncated)
                    } else {
                        let raw = a.data.subrange(pos, pos + len);
                        if len == a.sector_size {
                            Ok(out + raw)
                        } else {
                            match spec_decompress(raw, a.sector_size as u64) {
                                Err(e) => Err(e),
                                Ok(v) => Ok(out + v),
                            }
                        }
                    }
                }
            },
        }
    }
}

/// What reading a salvaged member gives.
pub open spec fn spec_read_salvaged(a: ArchiveView, m: SalvagedMemberView) -> Result<Seq<u8>, MpqError> {
    if a.sector_size == 0 {
        Err(MpqError::ZeroSectorSize)
    } else if m.sector_offsets.len() < 2 {
        Ok(Seq::empty())
    } else {
        salvaged_sectors(a, m, (m.sector_offsets.len() - 1) as nat)
    }
}

proof fn lemma_salvaged_error_sticks(a: ArchiveView, m: SalvagedMemberView, k: nat, j: nat)
    requires
        k <= j,
        salvaged_sectors(a, m, k) is Err,
    ensures
        salvaged_sectors(a, m, j) == salvaged_sectors(a, m, k),
    decreases j - k,
{
    if k < j {
        lemma_salvaged_error_sticks(a, m, k, (j - 1) as nat);
    }
}

/// The little-endian words of `count * 4` bytes of `data` at `at`.
fn words_in(data: &[u8], at: usize, count: usize) -> (w: Vec<u32>)
    requires
        at + 4 * count <= data@.len(),
    ensures
        w@ == words_of(data@.subrange(at as int, at + 4 * count)),
{
    let ghost src = data@.subrange(at as int, at + 4 * count);
    let len = data.len();
    let mut w: Vec<u32> = Vec::new();
    let mut x: usize = 0;
    while x < count
        invariant
            at + 4 * count <= data@.len(),
            len == data@.len(),
            src == data@.subrange(at as int, at + 4 * count),
            x <= count,
            w@.len() == x,
            forall|i: int| 0 <= i < x ==> #[trigger] w@[i] == le_u32(src.subrange(4 * i, 4 * i + 4)),
        decreases count - x,
    {
        assert(at + 4 * x + 4 <= at + 4 * count);
        let p = at + 4 * x;
        let v = read_le_u32(&data[p..p + 4]);
        assert(data@.subrange(p as int, p + 4) =~= src.subrange(4 * x, 4 * x + 4));
        w.push(v);
        x += 1;
    }
    assert(w@ =~= words_of(src));
    w
}

/// Whether `o` never falls and never steps by more than `max`.
fn rises_within(o: &Vec<u32>, max: u32) -> (r: bool)
    ensures
        r == offsets_rise_within(o@, max),
{
    let n = o.len();
    if n < 2 {
        return true;
    }
    let mut k: usize = 0;
    while k < n - 1
        invariant
            n == o@.len(),
            n >= 2,
            forall|j: int| 0 <= j < k ==> #[trigger] o@[j] <= o@[j + 1] && o@[j + 1] - o@[j] <= max,
            k <= n - 1,
        decreases n - k,
    {
        if o[k + 1] < o[k] || o[k + 1] - o[k] > max {
            proof {
                let j = k as int;
                if offsets_rise_within(o@, max) {
                    assert(o@[j] <= o@[j + 1] && o@[j + 1] - o@[j] <= max);
                }
            }
            return false;
        }
        k += 1;
    }
    true
}

impl Archive {
    /// Where member data stops.
    fn data_region_end(&self) -> (end: u64)
        requires
            self@.wf(),
        ensures
            end == data_region_end(self@),
            end <= self@.data.len(),
    {
        proof {
            self.lemma_view();
            lemma_wf_bounds(self@);
        }
        let total = self.data.len() as u64;
        let declared = self.offset + self.header.hash_table_offset as u64;
        if declared > self.offset + 0x20 && declared <= total {
            declared
        } else {
            total
        }
    }

    /// Parse a member's sector offset table at `pos`, or `None` if what is
    /// there cannot be one.
    fn member_at(&self, pos: u64, end: u64) -> (r: Option<SalvagedMember>)
        requires
            self@.wf(),
            end <= self@.data.len(),
        ensures
            match r {
                Some(m) => spec_member_at(self@, pos, end) == Some(m@),
                None => spec_member_at(self@, pos, end) is None,
            },
    {
        proof {
            self.lemma_view();
            lemma_wf_bounds(self@);
        }
        let total = self.data.len();
        let start = match self.offset.checked_add(pos) {
            Some(s) => s,
            None => return None,
        };
        if start > end || end - start < 8 {
            return None;
        }
        let s = start as usize;
        let first = read_le_u32(&self.data.as_slice()[s..s + 4]);
        if first < 8 || first % 4 != 0 || first > MAX_SECTOR_TABLE || end - start < first as u64 {
            return None;
        }
        let count = (first / 4) as usize;
        assert(4 * count == first);
        let offsets = words_in(self.data.as_slice(), s, count);
        if !rises_within(&offsets, self.sector_size) {
            return None;
        }
        let packed_size = offsets[count - 1];
        if packed_size == 0 || end - start < packed_size as u64 {
            return None;
        }
        Some(SalvagedMember { offset: (pos % 0x1_0000_0000) as u32, packed_size, sector_offsets: offsets })
    }

    /// Walk the data region and return every member whose sector offset table
    /// can be followed, in archive order.
    ///
    /// The walk starts immediately after the header and stops at the first
    /// member it cannot make sense of, so a broken chain yields a prefix rather
    /// than an error.
    pub fn salvage_members(&self) -> (members: Vec<SalvagedMember>)
        requires
            self@.wf(),
        ensures
            member_views(members@) == salvage_walk(self@, 0x20, data_region_end(self@), MAX_MEMBERS as nat),
            members@.len() <= MAX_MEMBERS,
    {
        let end = self.data_region_end();
        let total = self.data.len();
        let mut members: Vec<SalvagedMember> = Vec::new();
        let mut pos: u64 = 0x20;
        proof {
            self.lemma_view();
            lemma_wf_bounds(self@);
            assert(member_views(members@) =~= Seq::<SalvagedMemberView>::empty());
            assert(self@.offset + 32 <= self@.data.len());
            assert(end >= 32);
        }
        while members.len() < MAX_MEMBERS
            invariant
                self@.wf(),
                end == data_region_end(self@),
                end <= self@.data.len(),
                self@.offset + 32 <= self@.data.len(),
                pos <= end,
                members@.len() <= MAX_MEMBERS,
                member_views(members@) + salvage_walk(self@, pos, end, (MAX_MEMBERS - members@.len()) as nat)
                    == salvage_walk(self@, 0x20, end, MAX_MEMBERS as nat),
            decreases MAX_MEMBERS - members@.len(),
        {
            let ghost fuel = (MAX_MEMBERS - members@.len()) as nat;
            match self.member_at(pos, end) {
                None => {
                    proof {
                        assert(salvage_walk(self@, pos, end, fuel) =~= Seq::<SalvagedMemberView>::empty());
                        assert(member_views(members@) + Seq::<SalvagedMemberView>::empty() =~= member_views(
                            members@,
                        ));
                    }
                    return members;
                },
                Some(member) => {
                    let ghost before = members@;
                    let ghost old_pos = pos;
                    pos = pos + member.packed_size as u64;
                    members.push(member);
                    proof {
                        assert(member_views(members@) =~= member_views(before).push(member@));
                        assert(member_views(before) + salvage_walk(self@, old_pos, end, fuel) =~= member_views(members@)
                            + salvage_walk(self@, pos, end, (fuel - 1) as nat));
                    }
                },
            }
        }
        proof {
            assert(salvage_walk(self@, pos, end, 0) =~= Seq::<SalvagedMemberView>::empty());
            assert(member_views(members@) + Seq::<SalvagedMemberView>::empty() =~= member_views(members@));
        }
        members
    }

    /// The head of a salvaged member: its first sector, at most `limit` bytes
    /// of it.
    pub fn peek_salvaged(&mut self, member: &SalvagedMember, limit: usize) -> (r: Result<Vec<u8>, MpqError>)
        requires
            old(self)@.wf(),
            offsets_rise(member@.sector_offsets),
        ensures
            final(self)@ == old(self)@,
            match r {
                Ok(v) => spec_peek_salvaged(old(self)@, member@, limit as nat) == Ok::<Seq<u8>, MpqError>(v@),
                Err(e) => spec_peek_salvaged(old(self)@, member@, limit as nat) == Err::<Seq<u8>, MpqError>(e),
            },
    {
        proof {
            self.lemma_view();
        }
        if self.sector_size == 0 {
            return Err(MpqError::ZeroSectorSize);
        }
        if member.sector_offsets.len() < 2 {
            return Ok(Vec::new());
        }
        let first = SalvagedMember {
            offset: member.offset,
            packed_size: member.packed_size,
            sector_offsets: vec![member.sector_offsets[0], member.sector_offsets[1]],
        };
        proof {
            assert(first@.sector_offsets[0] == member@.sector_offsets[0]);
            assert(first@.sector_offsets[1] == member@.sector_offsets[1]);
            assert(member@.sector_offsets[0] <= member@.sector_offsets[0int + 1]);
            reveal_with_fuel(salvaged_sectors, 2);
            assert(salvaged_sectors(self@, first@, 1) == salvaged_sectors(self@, member@, 1));
        }
        let mut v = self.read_salvaged(&first)?;
        if v.len() > limit {
            v.truncate(limit);
        }
        Ok(v)
    }

    /// Decompress a salvaged member.
    ///
    /// Sectors are inflated by their own compression mask; a sector as long as
    /// the archive's sector size is stored verbatim, which is how MPQ marks an
    /// incompressible one.
    pub fn read_salvaged(&mut self, member: &SalvagedMember) -> (r: Result<Vec<u8>, MpqError>)
        requires
            old(self)@.wf(),
            offsets_rise(member@.sector_offsets),
        ensures
            final(self)@ == old(self)@,
            match r {
                Ok(v) => spec_read_salvaged(old(self)@, member@) == Ok::<Seq<u8>, MpqError>(v@),
                Err(e) => spec_read_salvaged(old(self)@, member@) == Err::<Seq<u8>, MpqError>(e),
            },
    {
        proof {
            self.lemma_view();
            lemma_wf_bounds(self@);
        }
        if self.sector_size == 0 {
            return Err(MpqError::ZeroSectorSize);
        }
        let n = member.sector_offsets.len();
        if n < 2 {
            return Ok(Vec::new());
        }
        let total_len = self.data.len();
        let total = total_len as u64;
        let mut out: Vec<u8> = Vec::new();
        let mut k: usize = 1;
        while k < n
            invariant
                self@.wf(),
                self@.offset + 32 <= self@.data.len(),
                self@.offset < crate::mpq::archive::HEADER_SEARCH_LIMIT + 0x1_0000_0000,
                total == self@.data.len(),
                total_len == total,
                self@.sector_size != 0,
                n == member@.sector_offsets.len(),
                offsets_rise(member@.sector_offsets),
                1 <= k <= n,
                salvaged_sectors(self@, member@, (k - 1) as nat) == Ok::<Seq<u8>, MpqError>(out@),
            decreases n - k,
        {
            proof {
                self.lemma_view();
            }
            let from = member.sector_offsets[k - 1];
            let to = member.sector_offsets[k];
            assert(from <= to) by {
                assert(member@.sector_offsets[(k - 1) as int] <= member@.sector_offsets[(k - 1) + 1]);
            }
            let len = to - from;
            if len != 0 {
                let pos = self.offset + member.offset as u64 + from as u64;
                if pos > total || total - pos < len as u64 {
                    proof {
                        assert(salvaged_sectors(self@, member@, k as nat) == Err::<Seq<u8>, MpqError>(MpqError::Truncated));
                        lemma_salvaged_error_sticks(self@, member@, k as nat, (n - 1) as nat);
                    }
                    return Err(MpqError::Truncated);
                }
                let p = pos as usize;
                let raw = vstd::slice::slice_to_vec(&self.data.as_slice()[p..p + len as usize]);
                if len == self.sector_size {
                    let mut raw = raw;
                    out.append(&mut raw);
                } else {
                    match decompress(raw.as_slice(), self.sector_size as u64) {
                        Err(e) => {
                            proof {
                                assert(raw@ == self@.data.subrange(pos as int, pos + len));
                                assert(salvaged_sectors(self@, member@, k as nat) == Err::<Seq<u8>, MpqError>(e));
                                lemma_salvaged_error_sticks(self@, member@, k as nat, (n - 1) as nat);
                            }
                            return Err(e);
                        },
                        Ok(v) => {
                            let mut v = v;
                            out.append(&mut v);
                        },
                    }
                }
            }
            k += 1;
        }
        Ok(out)
    }
}


/// The head of a salvaged member: the bytes of its first sector, at most
/// `limit` of them. A head is enough to recognise what a member holds without
/// inflating the rest of it.
pub open spec fn spec_peek_salvaged(a: ArchiveView, m: SalvagedMemberView, limit: nat) -> Result<Seq<u8>, MpqError> {
    if a.sector_size == 0 {
        Err(MpqError::ZeroSectorSize)
    } else if m.sector_offsets.len() < 2 {
        Ok(Seq::empty())
    } else {
        match salvaged_sectors(a, m, 1) {
            Err(e) => Err(e),
            Ok(v) => Ok(
                if v.len() <= limit {
                    v
                } else {
                    v.take(limit as int)
                },
            ),
        }
    }
}

/// Every member the walk finds has offsets that rise.
pub proof fn lemma_walk_offsets_rise(a: ArchiveView, pos: u64, end: u64, fuel: nat)
    ensures
        forall|k: int|
            0 <= k < salvage_walk(a, pos, end, fuel).len() ==> offsets_rise(
                #[trigger] salvage_walk(a, pos, end, fuel)[k].sector_offsets,
            ),
    decreases fuel,
{
    if fuel > 0 {
        match spec_member_at(a, pos, end) {
            None => {},
            Some(m) => {
                let next = (pos + m.packed_size) as u64;
                lemma_walk_offsets_rise(a, next, end, (fuel - 1) as nat);
                let w = salvage_walk(a, pos, end, fuel);
                assert forall|k: int| 0 <= k < w.len() implies offsets_rise(#[trigger] w[k].sector_offsets) by {
                    if k == 0 {
                        assert(w[0] == m);
                        assert forall|j: int| 0 <= j < m.sector_offsets.len() - 1 implies #[trigger] m.sector_offsets[j]
                            <= m.sector_offsets[j + 1] by {
                            assert(m.sector_offsets[j] <= m.sector_offsets[j + 1] && m.sector_offsets[j + 1]
                                - m.sector_offsets[j] <= a.sector_size);
                        }
                    } else {
                        assert(w[k] == salvage_walk(a, next, end, (fuel - 1) as nat)[k - 1]);
                    }
                }
            },
        }
    }
}

/// MPQ lays members end to end: the walk's first member sits where the walk
/// starts, and every later one begins where the one before it ends (offsets
/// being 32-bit, as in a block entry).
pub proof fn lemma_walk_members_are_contiguous(a: ArchiveView, pos: u64, end: u64, fuel: nat)
    ensures
        salvage_walk(a, pos, end, fuel).len() > 0 ==> salvage_walk(a, pos, end, fuel)[0].offset == (pos
            % 0x1_0000_0000) as u32,
        forall|k: int|
            0 < k < salvage_walk(a, pos, end, fuel).len() ==> (#[trigger] salvage_walk(a, pos, end, fuel)[k]).offset
                == ((salvage_walk(a, pos, end, fuel)[k - 1].offset + salvage_walk(a, pos, end, fuel)[k
                - 1].packed_size) % 0x1_0000_0000) as u32,
    decreases fuel,
{
    if fuel > 0 {
        match spec_member_at(a, pos, end) {
            None => {},
            Some(m) => {
                let next = (pos + m.packed_size) as u64;
                lemma_walk_members_are_contiguous(a, next, end, (fuel - 1) as nat);
                let w = salvage_walk(a, pos, end, fuel);
                let rest = salvage_walk(a, next, end, (fuel - 1) as nat);
                assert(w == seq![m] + rest);
                assert forall|k: int| 0 < k < w.len() implies (#[trigger] w[k]).offset == ((w[k - 1].offset + w[k
                    - 1].packed_size) % 0x1_0000_0000) as u32 by {
                    assert(w[k] == rest[k - 1]);
                    if k == 1 {
                        vstd::arithmetic::div_mod::lemma_add_mod_noop(pos as int, m.packed_size as int, 0x1_0000_0000);
                        vstd::arithmetic::div_mod::lemma_small_mod(m.packed_size as nat, 0x1_0000_0000);
                        vstd::arithmetic::div_mod::lemma_mod_twice(pos as int, 0x1_0000_0000);
                    } else {
                        assert(w[k - 1] == rest[k - 2]);
                        assert(rest[k - 1].offset == ((rest[k - 2].offset + rest[k - 2].packed_size) % 0x1_0000_0000) as u32);
                    }
                }
            },
        }
    }
}

} // verus!

//! Metadata recovery for archives whose MPQ tables cannot be read.
//!
//! Opening a file by name needs the hash table, and finding its bytes needs
//! the block table. Some protected maps have both overwritten with noise; the
//! sector *data* usually survives, and what is left here is the Warcraft III
//! half — deciding whether what inflated is a real `w3i` or a coincidence.
//!
//! A `war3map.w3i` fits in a single sector, but a `war3map.wts` routinely does
//! not: MPQ deflates each fixed-size sector on its own, so a large string table
//! is a *run* of adjacent streams. Table candidates are therefore inflated as a
//! chain.
//!
//! This is a salvage operation on a broken file, separate from
//! [`crate::w3x::War3MapW3x`]: its results are not authoritative, and nothing
//! here says which sectors are live — a re-saved map can leave an orphaned copy
//! of an older `w3i` behind.
use crate::formats::w3i::resolve::resolved_w3i;
use crate::formats::w3i::version::known_version;
use crate::formats::w3i::{spec_parse_w3i, W3iView, War3MapW3i};
use crate::formats::wts::{spec_parse_wts, trimmed, War3MapWts};
use crate::modscan::{contains, occurs};
use crate::mpq::archive::{spec_load, Archive, ArchiveView};
use crate::mpq::carve::{carve_sectors, carved_at, carved_views, chain_from, inflate_sector_chain, spec_sector_offsets};
use crate::mpq::salvage::{
    data_region_end, lemma_walk_offsets_rise, member_views, salvage_walk, spec_peek_salvaged, spec_read_salvaged,
    SalvagedMemberView, MAX_MEMBERS,
};
use crate::reader::{le_u32, opt_view, read_le_u32};
use crate::text::{char_vec, lossy_string, utf8_lossy};
use vstd::prelude::*;
use vstd::string::StringSliceAdditionalSpecFns;
use vstd::utf8::encode_utf8;

verus! {

/// Largest member worth decompressing here. A `w3i` is a few KB and a string
/// table a few hundred; the members above this bound are scripts, terrain and
/// textures.
pub const MAX_INTERESTING: u32 = 0x20_0000;

/// Bytes of a member's head sniffed before the whole member is read.
pub const HEAD_BYTES: usize = 512;

/// What could be salvaged from an unreadable archive.
#[derive(Debug)]
pub struct Carved {
    /// The recovered map information.
    pub info: War3MapW3i,
    /// The string table, when one was also recoverable.
    pub strings: Option<War3MapWts>,
}

/// Salvaged metadata as the library sees it.
pub struct CarvedView {
    pub info: W3iView,
    pub strings: Option<Map<i32, Seq<char>>>,
}

/// The view of an optional string table.
pub open spec fn opt_table(t: Option<War3MapWts>) -> Option<Map<i32, Seq<char>>> {
    match t {
        Some(t) => Some(t@),
        None => None,
    }
}

impl View for Carved {
    type V = CarvedView;

    open spec fn view(&self) -> CarvedView {
        CarvedView { info: self.info@, strings: opt_table(self.strings) }
    }
}

/// Whether `c` is a control character (Unicode category Cc).
pub open spec fn is_control(c: char) -> bool {
    c <= '\u{1F}' || ('\u{7F}' <= c && c <= '\u{9F}')
}

/// Whether a parsed `w3i` looks like a real one rather than a coincidence: a
/// version the format ladder knows and a printable, non-blank title.
pub open spec fn spec_plausible(w: W3iView) -> bool {
    &&& known_version(w.head.version)
    &&& trimmed(w.head.name).len() > 0
    &&& forall|i: int| 0 <= i < w.head.name.len() ==> !is_control(#[trigger] w.head.name[i])
}

fn plausible(info: &War3MapW3i) -> (r: bool)
    ensures
        r == spec_plausible(info@),
{
    if !info.version.is_known() {
        return false;
    }
    let name = char_vec(info.name.as_str());
    let t = crate::formats::wts::trim_chars(&name);
    if t.len() == 0 {
        return false;
    }
    let mut i: usize = 0;
    while i < name.len()
        invariant
            name@ == info.name@,
            i <= name@.len(),
            forall|j: int| 0 <= j < i ==> !is_control(#[trigger] name@[j]),
        decreases name@.len() - i,
    {
        let c = name[i];
        if c <= '\u{1F}' || ('\u{7F}' <= c && c <= '\u{9F}') {
            return false;
        }
        i += 1;
    }
    true
}

/// The map information `data` holds, when it parses and is plausible.
#[verifier::opaque]
pub open spec fn w3i_of(data: Seq<u8>) -> Option<W3iView> {
    match spec_parse_w3i(data) {
        Ok(w) => if spec_plausible(w) {
            Some(w)
        } else {
            None
        },
        Err(_) => None,
    }
}

fn parse_w3i(data: &[u8]) -> (r: Option<War3MapW3i>)
    ensures
        match r {
            Some(w) => w3i_of(data@) == Some(w@),
            None => w3i_of(data@) is None,
        },
{
    proof {
        reveal(w3i_of);
    }
    match War3MapW3i::parse(data) {
        Ok(w) => if plausible(&w) {
            Some(w)
        } else {
            None
        },
        Err(_) => None,
    }
}

/// The string table carved bytes hold, when it has at least one entry: an
/// unrelated sector that merely mentions `STRING ` parses to an empty table,
/// which must not shadow the real one.
#[verifier::opaque]
pub open spec fn table_of(data: Seq<u8>) -> Option<Map<i32, Seq<char>>> {
    let m = spec_parse_wts(encode_utf8(utf8_lossy(data)));
    if m.len() == 0 {
        None
    } else {
        Some(m)
    }
}

fn parse_table(data: &[u8]) -> (r: Option<War3MapWts>)
    ensures
        opt_table(r) == table_of(data@),
{
    proof {
        reveal(table_of);
    }
    let text = lossy_string(data);
    let table = match War3MapWts::parse(text.as_str()) {
        Ok(t) => t,
        Err(_) => return None,
    };
    if table.entry_count() == 0 {
        None
    } else {
        Some(table)
    }
}

/// Whether carved bytes carry the `war3map.wts` record keyword.
pub open spec fn has_wts_keyword(data: Seq<u8>) -> bool {
    occurs(data, "STRING ".spec_bytes())
}

/// Whether `head` opens with a `w3i` format version: the ladder is short, and
/// one sector is enough to recognise the number.
pub open spec fn w3i_head(head: Seq<u8>) -> bool {
    head.len() >= 4 && {
        let v = le_u32(head.subrange(0, 4));
        v == 8 || v == 10 || v == 11 || v == 15 || v == 18 || v == 23 || v == 25 || v == 28
    }
}

/// One member of the walk, given what has been found so far.
///
/// Large members are skipped; a member's head is sniffed before it is read in
/// full, and only a head that looks like a `w3i` (while none has been found) or
/// carries the table keyword (while no table has been found) makes the whole
/// member worth reading.
#[verifier::opaque]
pub open spec fn member_step(
    a: ArchiveView,
    m: SalvagedMemberView,
    info: Option<W3iView>,
    strings: Option<Map<i32, Seq<char>>>,
) -> (Option<W3iView>, Option<Map<i32, Seq<char>>>) {
    if (info is Some && strings is Some) || m.packed_size > MAX_INTERESTING {
        (info, strings)
    } else {
        match spec_peek_salvaged(a, m, HEAD_BYTES as nat) {
            Err(_) => (info, strings),
            Ok(head) => {
                let looks_w3i = info is None && w3i_head(head);
                let looks_wts = strings is None && has_wts_keyword(head);
                if !looks_w3i && !looks_wts {
                    (info, strings)
                } else {
                    match spec_read_salvaged(a, m) {
                        Err(_) => (info, strings),
                        Ok(data) => if looks_w3i && w3i_of(data) is Some {
                            (w3i_of(data), strings)
                        } else if looks_wts {
                            (info, table_of(data))
                        } else {
                            (info, strings)
                        },
                    }
                }
            },
        }
    }
}

/// The first `k` members of the walk folded through [`member_step`].
pub open spec fn members_fold(a: ArchiveView, ms: Seq<SalvagedMemberView>, k: nat) -> (
    Option<W3iView>,
    Option<Map<i32, Seq<char>>>,
)
    decreases k,
{
    if k == 0 || k > ms.len() {
        (None, None)
    } else {
        let (info, strings) = members_fold(a, ms, (k - 1) as nat);
        member_step(a, ms[k - 1], info, strings)
    }
}

/// What the member walk recovers from `buffer`.
pub open spec fn spec_carve(buffer: Seq<u8>) -> Option<CarvedView> {
    match spec_load(buffer) {
        Err(_) => None,
        Ok(a) => {
            let ms = salvage_walk(a, 0x20, data_region_end(a), MAX_MEMBERS as nat);
            let (info, strings) = members_fold(a, ms, ms.len());
            match info {
                Some(info) => Some(CarvedView { info, strings }),
                None => None,
            }
        },
    }
}

proof fn lemma_members_fold_done(a: ArchiveView, ms: Seq<SalvagedMemberView>, k: nat, j: nat)
    requires
        k <= j <= ms.len(),
        members_fold(a, ms, k).0 is Some,
        members_fold(a, ms, k).1 is Some,
        k > 0,
    ensures
        members_fold(a, ms, j) == members_fold(a, ms, k),
    decreases j - k,
{
    reveal(member_step);
    if k < j {
        lemma_members_fold_done(a, ms, k, (j - 1) as nat);
    }
}

fn step_member(
    archive: &mut Archive,
    member: &crate::mpq::salvage::SalvagedMember,
    info: Option<War3MapW3i>,
    strings: Option<War3MapWts>,
) -> (r: (Option<War3MapW3i>, Option<War3MapWts>))
    requires
        old(archive)@.wf(),
        crate::mpq::salvage::offsets_rise(member@.sector_offsets),
        !(info is Some && strings is Some),
    ensures
        final(archive)@ == old(archive)@,
        (opt_view(r.0), opt_table(r.1)) == member_step(old(archive)@, member@, opt_view(info), opt_table(strings)),
{
    proof {
        reveal(member_step);
    }
    let mut info = info;
    let mut strings = strings;
    if member.packed_size <= MAX_INTERESTING {
        if let Ok(head) = archive.peek_salvaged(member, HEAD_BYTES) {
            let looks_w3i = info.is_none() && head.len() >= 4 && {
                let v = read_le_u32(&head.as_slice()[0..4]);
                v == 8 || v == 10 || v == 11 || v == 15 || v == 18 || v == 23 || v == 25 || v == 28
            };
            let looks_wts = strings.is_none() && contains(head.as_slice(), "STRING ");
            if looks_w3i || looks_wts {
                if let Ok(data) = archive.read_salvaged(member) {
                    let mut done = false;
                    if looks_w3i {
                        if let Some(w) = parse_w3i(data.as_slice()) {
                            info = Some(w);
                            done = true;
                        }
                    }
                    if !done && looks_wts {
                        strings = parse_table(data.as_slice());
                    }
                }
            }
        }
    }
    (info, strings)
}

/// Recover map metadata from an archive that cannot be read by name.
///
/// MPQ lays members out contiguously and each one begins with its own sector
/// offset table, so the data region can be walked member by member even with
/// both tables destroyed. The walk stops as soon as it has what it came for.
/// Returns `None` when no `w3i` is found, which happens when the member chain
/// is broken as well.
pub fn carve(buffer: &[u8]) -> (r: Option<Carved>)
    ensures
        match r {
            Some(c) => spec_carve(buffer@) == Some(c@),
            None => spec_carve(buffer@) is None,
        },
{
    carve_members(buffer)
}

fn carve_members(buffer: &[u8]) -> (r: Option<Carved>)
    ensures
        match r {
            Some(c) => spec_carve(buffer@) == Some(c@),
            None => spec_carve(buffer@) is None,
        },
{
    let mut archive = match Archive::load(vstd::slice::slice_to_vec(buffer)) {
        Ok(a) => a,
        Err(_) => return None,
    };
    let members = archive.salvage_members();
    let ghost a = archive@;
    let ghost ms = salvage_walk(a, 0x20, data_region_end(a), MAX_MEMBERS as nat);
    proof {
        lemma_walk_offsets_rise(a, 0x20, data_region_end(a), MAX_MEMBERS as nat);
        assert(member_views(members@).len() == members@.len());
    }
    let mut info: Option<War3MapW3i> = None;
    let mut strings: Option<War3MapWts> = None;
    let n = members.len();
    let mut k: usize = 0;
    while k < n
        invariant
            archive@ == a,
            a.wf(),
            n == members@.len(),
            member_views(members@) == ms,
            forall|j: int| 0 <= j < ms.len() ==> crate::mpq::salvage::offsets_rise(#[trigger] ms[j].sector_offsets),
            k <= n,
            members_fold(a, ms, k as nat) == (opt_view(info), opt_table(strings)),
        ensures
            members_fold(a, ms, n as nat) == (opt_view(info), opt_table(strings)),
        decreases n - k,
    {
        let ghost before = (opt_view(info), opt_table(strings));
        let member = &members[k];
        assert(member@ == ms[k as int]);
        if info.is_some() && strings.is_some() {
            proof {
                lemma_members_fold_done(a, ms, k as nat, n as nat);
            }
            break;
        }
        let (i2, s2) = step_member(&mut archive, member, info, strings);
        info = i2;
        strings = s2;
        proof {
            assert(members_fold(a, ms, (k + 1) as nat) == member_step(a, ms[k as int], before.0, before.1));
        }
        k += 1;
    }
    match info {
        Some(info) => Some(Carved { info, strings }),
        None => None,
    }
}

/// One carved sector of the scan, given what has been found so far and how
/// far the last string table run reached.
///
/// The first plausible `w3i` is kept. A sector carrying the table keyword
/// (outside a run already folded into a table) may head a multi-sector table:
/// it is inflated as a chain, and the richest table seen is kept, since
/// protected maps carry leftovers and imported tables beside the real one.
pub open spec fn scan_step(
    buffer: Seq<u8>,
    item: (usize, Seq<u8>),
    info: Option<W3iView>,
    strings: Option<Map<i32, Seq<char>>>,
    until: int,
) -> (Option<W3iView>, Option<Map<i32, Seq<char>>>, int) {
    let (offset, data) = item;
    if info is None && w3i_of(data) is Some {
        (w3i_of(data), strings, until)
    } else if offset < until || !has_wts_keyword(data) {
        (info, strings, until)
    } else {
        let (joined, end) = chain_from(buffer, offset as int, Seq::empty());
        let best = match strings {
            Some(s) => s.len(),
            None => 0,
        };
        match table_of(joined) {
            Some(t) => if t.len() > best {
                (info, Some(t), end)
            } else {
                (info, strings, end)
            },
            None => (info, strings, end),
        }
    }
}

/// The first `k` carved sectors folded through [`scan_step`].
pub open spec fn scan_fold(buffer: Seq<u8>, items: Seq<(usize, Seq<u8>)>, k: nat) -> (
    Option<W3iView>,
    Option<Map<i32, Seq<char>>>,
    int,
)
    decreases k,
{
    if k == 0 || k > items.len() {
        (None, None, 0)
    } else {
        let (info, strings, until) = scan_fold(buffer, items, (k - 1) as nat);
        scan_step(buffer, items[k - 1], info, strings, until)
    }
}

/// What the exhaustive scan recovers from `buffer`.
pub open spec fn spec_carve_scan(buffer: Seq<u8>) -> Option<CarvedView> {
    let items = carved_at(buffer, spec_sector_offsets(buffer));
    let (info, strings, _) = scan_fold(buffer, items, items.len());
    match info {
        Some(info) => Some(CarvedView { info, strings }),
        None => None,
    }
}

fn carve_scan(buffer: &[u8]) -> (r: Option<Carved>)
    ensures
        match r {
            Some(c) => spec_carve_scan(buffer@) == Some(c@),
            None => spec_carve_scan(buffer@) is None,
        },
{
    let items = carve_sectors(buffer);
    let ghost its = carved_at(buffer@, spec_sector_offsets(buffer@));
    let mut info: Option<War3MapW3i> = None;
    let mut strings: Option<War3MapWts> = None;
    let mut until: usize = 0;
    let n = items.len();
    let mut k: usize = 0;
    while k < n
        invariant
            carved_views(items@) == its,
            n == items@.len(),
            k <= n,
            scan_fold(buffer@, its, k as nat) == (opt_view(info), opt_table(strings),
            until as int),
        decreases n - k,
    {
        let ghost before = (opt_view(info), opt_table(strings),
        until as int);
        let offset = items[k].0;
        let data = &items[k].1;
        assert(its[k as int] == (offset, data@));
        let mut taken = false;
        if info.is_none() {
            if let Some(w) = parse_w3i(data.as_slice()) {
                info = Some(w);
                taken = true;
            }
        }
        if !taken && offset >= until && contains(data.as_slice(), "STRING ") {
            let (joined, end) = inflate_sector_chain(buffer, offset);
            until = end;
            if let Some(table) = parse_table(joined.as_slice()) {
                let best = match &strings {
                    Some(s) => s.entry_count(),
                    None => 0,
                };
                if table.entry_count() > best {
                    strings = Some(table);
                }
            }
        }
        proof {
            assert(scan_fold(buffer@, its, (k + 1) as nat) == scan_step(
                buffer@,
                its[k as int],
                before.0,
                before.1,
                before.2,
            ));
        }
        k += 1;
    }
    match info {
        Some(info) => Some(Carved { info, strings }),
        None => None,
    }
}

/// [`carve`], and if that finds nothing, scan every byte of the archive for
/// the shape of a compressed sector.
///
/// The scan tries to inflate at every offset that could begin a zlib sector,
/// over the whole file. It recovers maps nothing else reaches, at the cost of
/// a full pass, so it stands behind an explicit call.
pub fn carve_deep(buffer: &[u8]) -> (r: Option<Carved>)
    ensures
        match spec_carve(buffer@) {
            Some(c) => r matches Some(x) && x@ == c,
            None => match r {
                Some(x) => spec_carve_scan(buffer@) == Some(x@),
                None => spec_carve_scan(buffer@) is None,
            },
        },
{
    match carve(buffer) {
        Some(c) => Some(c),
        None => carve_scan(buffer),
    }
}

impl Carved {
    /// Resolve the `TRIGSTR_*` references in the recovered metadata in place.
    pub fn resolve_trigger_strings(&mut self)
        ensures
            final(self).strings == old(self).strings,
            final(self)@.info == match old(self)@.strings {
                Some(t) => resolved_w3i(old(self)@.info, t),
                None => old(self)@.info,
            },
    {
        match &self.strings {
            Some(strings) => self.info.resolve_trigger_strings(strings),
            None => {},
        }
    }
}

} // verus!

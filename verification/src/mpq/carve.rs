//! Finding member data in an archive whose tables *and* member chain are gone.
//!
//! An MPQ sector is a one-byte compression mask followed by the compressed
//! stream, so a zlib sector appears in the file literally as `02 78 xx`.
//! Scanning for that shape recovers sectors with no structural information at
//! all. It is the last resort: it cannot say which sectors are live, it cannot
//! name what it finds, and inflating arbitrary bytes occasionally succeeds.
//!
//! Only zlib is scanned for: it is self-delimiting, so the scanner learns how
//! many bytes a stream consumed, and that is what lets a member larger than one
//! sector be followed as a run of adjacent streams.
use crate::mpq::compression::{inflate_zlib, zlib_inflate, MASK_ZLIB};
use vstd::prelude::*;

verus! {

/// Upper bound on one carved member, so a crafted stream cannot inflate into a
/// decompression bomb.
pub const MAX_CARVED: u64 = 0x80_0000;

/// Whether `f` is a zlib FLG byte for deflate with a 32K window and no preset
/// dictionary: FCHECK makes `0x78 FLG` divisible by 31, which leaves one value
/// per compression level.
pub open spec fn zlib_flg(f: u8) -> bool {
    f == 0x01 || f == 0x5E || f == 0x9C || f == 0xDA
}

/// Whether a zlib-compressed MPQ sector could begin at `at`.
pub open spec fn spec_starts_sector(b: Seq<u8>, at: int) -> bool {
    0 <= at && at + 3 <= b.len() && b[at] == MASK_ZLIB && b[at + 1] == 0x78 && zlib_flg(b[at + 2])
}

/// Whether a zlib-compressed MPQ sector could begin at `at`.
pub fn starts_sector(buffer: &[u8], at: usize) -> (r: bool)
    ensures
        r == spec_starts_sector(buffer@, at as int),
{
    if at >= buffer.len() || buffer.len() - at < 3 {
        return false;
    }
    let f = buffer[at + 2];
    buffer[at] == MASK_ZLIB && buffer[at + 1] == 0x78 && (f == 0x01 || f == 0x5E || f == 0x9C || f == 0xDA)
}

/// The offsets in `from..to` that could begin a zlib sector, in order.
pub open spec fn sector_offsets_in(b: Seq<u8>, from: int, to: int) -> Seq<usize>
    decreases to - from,
{
    if from >= to {
        Seq::empty()
    } else if spec_starts_sector(b, from) {
        seq![from as usize] + sector_offsets_in(b, from + 1, to)
    } else {
        sector_offsets_in(b, from + 1, to)
    }
}

/// Every offset of `b` that could begin a zlib sector, in order.
pub open spec fn spec_sector_offsets(b: Seq<u8>) -> Seq<usize> {
    sector_offsets_in(b, 0, if b.len() >= 2 { b.len() - 2 } else { 0 })
}

proof fn lemma_offsets_split(b: Seq<u8>, from: int, mid: int, to: int)
    requires
        from <= mid <= to,
    ensures
        sector_offsets_in(b, from, to) == sector_offsets_in(b, from, mid) + sector_offsets_in(b, mid, to),
    decreases mid - from,
{
    if from < mid {
        lemma_offsets_split(b, from + 1, mid, to);
        if spec_starts_sector(b, from) {
            assert(seq![from as usize] + (sector_offsets_in(b, from + 1, mid) + sector_offsets_in(b, mid, to)) =~= (
            seq![from as usize] + sector_offsets_in(b, from + 1, mid)) + sector_offsets_in(b, mid, to));
        }
    } else {
        assert(sector_offsets_in(b, from, mid) =~= Seq::<usize>::empty());
        assert(sector_offsets_in(b, from, to) =~= Seq::<usize>::empty() + sector_offsets_in(b, mid, to));
    }
}

proof fn lemma_offsets_start_sectors(b: Seq<u8>, from: int, to: int)
    requires
        b.len() <= usize::MAX,
        0 <= from,
    ensures
        forall|k: int|
            0 <= k < sector_offsets_in(b, from, to).len() ==> spec_starts_sector(
                b,
                #[trigger] sector_offsets_in(b, from, to)[k] as int,
            ),
    decreases to - from,
{
    if from < to {
        lemma_offsets_start_sectors(b, from + 1, to);
        if spec_starts_sector(b, from) {
            let rest = sector_offsets_in(b, from + 1, to);
            assert forall|k: int| 0 <= k < sector_offsets_in(b, from, to).len() implies spec_starts_sector(
                b,
                #[trigger] sector_offsets_in(b, from, to)[k] as int,
            ) by {
                if k > 0 {
                    assert(sector_offsets_in(b, from, to)[k] == rest[k - 1]);
                }
            }
        } else {
            assert(sector_offsets_in(b, from, to) == sector_offsets_in(b, from + 1, to));
        }
    } else {
        assert(sector_offsets_in(b, from, to).len() == 0);
    }
}

/// Every offset that could begin a zlib-compressed MPQ sector, in order.
pub fn sector_offsets(buffer: &[u8]) -> (r: Vec<usize>)
    ensures
        r@ == spec_sector_offsets(buffer@),
{
    let end = buffer.len().saturating_sub(2);
    let mut r: Vec<usize> = Vec::new();
    let mut at: usize = 0;
    while at < end
        invariant
            end == (if buffer@.len() >= 2 { buffer@.len() - 2 } else { 0 }),
            at <= end,
            r@ == sector_offsets_in(buffer@, 0, at as int),
        decreases end - at,
    {
        proof {
            lemma_offsets_split(buffer@, 0, at as int, at + 1);
            reveal_with_fuel(sector_offsets_in, 2);
        }
        if starts_sector(buffer, at) {
            r.push(at);
        }
        proof {
            if spec_starts_sector(buffer@, at as int) {
                assert(sector_offsets_in(buffer@, at as int, at + 1) =~= seq![at]);
            } else {
                assert(sector_offsets_in(buffer@, at as int, at + 1) =~= Seq::<usize>::empty());
            }
        }
        at += 1;
    }
    r
}

/// What inflating the sector at `offset` gives: the inflated bytes and how
/// many compressed bytes the stream consumed, or `None` when the stream is
/// corrupt or inflates to nothing.
pub open spec fn spec_inflate_sector(b: Seq<u8>, offset: int) -> Option<(Seq<u8>, int)> {
    match zlib_inflate(b.skip(offset + 1), MAX_CARVED) {
        None => None,
        Some((out, consumed)) => if out.len() == 0 {
            None
        } else {
            Some((out, consumed as int))
        },
    }
}

/// Inflate the sector at `offset`, skipping its compression mask byte.
///
/// Returns the inflated bytes and how many compressed bytes the stream
/// consumed, which is what lets a caller step to the sector behind it.
pub fn inflate_sector(buffer: &[u8], offset: usize) -> (r: Option<(Vec<u8>, usize)>)
    requires
        offset < buffer@.len(),
    ensures
        match r {
            Some((v, c)) => spec_inflate_sector(buffer@, offset as int) == Some((v@, c as int)) && c + offset + 1
                <= buffer@.len() && v@.len() <= MAX_CARVED,
            None => spec_inflate_sector(buffer@, offset as int) is None,
        },
{
    let n = buffer.len();
    let rest = &buffer[offset + 1..n];
    assert(rest@ == buffer@.skip(offset + 1));
    match inflate_zlib(rest, MAX_CARVED) {
        None => None,
        Some((out, consumed)) => {
            if out.len() == 0 {
                None
            } else {
                Some((out, consumed as usize))
            }
        },
    }
}

/// The sectors from `at` on, inflated and joined onto `joined`, while each
/// position begins a sector that inflates and the joined output stays below
/// [`MAX_CARVED`]: the joined bytes and the offset just past the run.
pub open spec fn chain_from(b: Seq<u8>, at: int, joined: Seq<u8>) -> (Seq<u8>, int)
    decreases b.len() - at,
{
    if !spec_starts_sector(b, at) {
        (joined, at)
    } else {
        match spec_inflate_sector(b, at) {
            None => (joined, at),
            Some((data, consumed)) => {
                let next = at + 1 + consumed;
                let j = joined + data;
                if j.len() >= MAX_CARVED || next > b.len() {
                    (j, next)
                } else {
                    chain_from(b, next, j)
                }
            },
        }
    }
}

/// Inflate the sector at `offset` together with every sector that directly
/// follows it, which is how MPQ stores a member too large for one sector.
///
/// Returns the offset just past the run as well, so a caller walking the file
/// can skip the sectors already folded into this member.
pub fn inflate_sector_chain(buffer: &[u8], offset: usize) -> (r: (Vec<u8>, usize))
    ensures
        (r.0@, r.1 as int) == chain_from(buffer@, offset as int, Seq::empty()),
        r.0@.len() < 2 * MAX_CARVED,
        offset <= r.1,
        r.1 == offset || r.1 <= buffer@.len(),
{
    let mut joined: Vec<u8> = Vec::new();
    let n = buffer.len();
    let mut at = offset;
    while starts_sector(buffer, at)
        invariant
            n == buffer@.len(),
            joined@.len() < MAX_CARVED,
            offset <= at,
            at == offset || at <= n,
            chain_from(buffer@, offset as int, Seq::empty()) == chain_from(buffer@, at as int, joined@),
        decreases buffer@.len() - at,
    {
        match inflate_sector(buffer, at) {
            None => {
                return (joined, at);
            },
            Some((data, consumed)) => {
                let mut data = data;
                let ghost before = joined@;
                joined.append(&mut data);
                at = at + 1 + consumed;
                if joined.len() as u64 >= MAX_CARVED {
                    return (joined, at);
                }
            },
        }
    }
    (joined, at)
}

/// The sectors at `offsets` that inflate, each with its offset.
pub open spec fn carved_at(b: Seq<u8>, offsets: Seq<usize>) -> Seq<(usize, Seq<u8>)>
    decreases offsets.len(),
{
    if offsets.len() == 0 {
        Seq::empty()
    } else {
        let rest = carved_at(b, offsets.drop_last());
        match spec_inflate_sector(b, offsets.last() as int) {
            None => rest,
            Some((data, _)) => rest.push((offsets.last(), data)),
        }
    }
}

/// The views of carved sectors.
pub open spec fn carved_views(s: Seq<(usize, Vec<u8>)>) -> Seq<(usize, Seq<u8>)> {
    s.map_values(|p: (usize, Vec<u8>)| (p.0, p.1@))
}

/// Every sector in the buffer that inflates, as `(offset, data)`.
///
/// Each sector stands alone here; use [`inflate_sector_chain`] on an offset
/// whose content suggests a member that continues past one sector.
pub fn carve_sectors(buffer: &[u8]) -> (r: Vec<(usize, Vec<u8>)>)
    ensures
        carved_views(r@) == carved_at(buffer@, spec_sector_offsets(buffer@)),
        forall|k: int| 0 <= k < r@.len() ==> 0 < (#[trigger] r@[k]).1@.len() <= MAX_CARVED,
{
    let offsets = sector_offsets(buffer);
    let n = buffer.len();
    proof {
        let b = buffer@;
        lemma_offsets_start_sectors(b, 0, if b.len() >= 2 { b.len() - 2 } else { 0 });
    }
    let mut r: Vec<(usize, Vec<u8>)> = Vec::new();
    let mut i: usize = 0;
    while i < offsets.len()
        invariant
            offsets@ == spec_sector_offsets(buffer@),
            i <= offsets@.len(),
            carved_views(r@) == carved_at(buffer@, offsets@.take(i as int)),
            forall|k: int| 0 <= k < r@.len() ==> 0 < (#[trigger] r@[k]).1@.len() <= MAX_CARVED,
            forall|k: int| 0 <= k < offsets@.len() ==> spec_starts_sector(buffer@, #[trigger] offsets@[k] as int),
        decreases offsets@.len() - i,
    {
        let at = offsets[i];
        proof {
            assert(offsets@.take(i + 1).drop_last() =~= offsets@.take(i as int));
        }
        match inflate_sector(buffer, at) {
            None => {},
            Some((data, _)) => {
                r.push((at, data));
                proof {
                    assert(carved_views(r@) =~= carved_views(r@.drop_last()).push((at, data@)));
                    assert(r@.drop_last() =~= r@.take(r@.len() - 1));
                }
            },
        }
        i += 1;
    }
    proof {
        assert(offsets@.take(i as int) =~= offsets@);
    }
    r
}

} // verus!

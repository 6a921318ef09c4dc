//! The BLP files whose bytes may go to the decoder.
//!
//! The BLP decoder adds and multiplies header fields in 32-bit arithmetic
//! before it checks them against the buffer: a mipmap's offset plus its size,
//! a level's pixel count, that count times the alpha depth. A hostile header
//! makes those sums wrap, and the slice taken from the wrapped bound panics.
//! DXT content is expanded by a block decoder that reads as many blocks as
//! the image's dimensions ask for, whatever the file holds, and that cannot
//! take an image zero pixels wide. JPEG content goes to a JPEG decoder whose
//! behaviour on malformed streams is not established here, so it is not
//! handed over at all. A header is within limits when none of that can
//! happen.
use crate::reader::{le_u32, read_le_u32};
use vstd::prelude::*;

verus! {

/// The BLP version a buffer starts with ("BLP0", "BLP1" or "BLP2"), if any.
pub open spec fn blp_version(data: Seq<u8>) -> Option<u8> {
    if data.len() >= 4 && data[0] == 0x42 && data[1] == 0x4C && data[2] == 0x50 && 0x30 <= data[3] <= 0x32 {
        Some((data[3] - 0x30) as u8)
    } else {
        None
    }
}

/// The little-endian word at byte `at`, taken where four bytes stand there.
pub open spec fn word(data: Seq<u8>, at: int) -> int {
    le_u32(data.subrange(at, at + 4)) as int
}

/// Where the sixteen mipmap offsets start (the sixteen sizes follow them).
pub open spec fn mipmap_table_at(version: u8) -> int {
    if version == 2 {
        20
    } else {
        28
    }
}

/// Where mipmap `k` ends: its offset plus its size.
pub open spec fn mipmap_end(data: Seq<u8>, table: int, k: int) -> int {
    word(data, table + 4 * k) + word(data, table + 64 + 4 * k)
}

/// Every mipmap's offset plus its size fits in 32 bits.
pub open spec fn mipmap_ends_fit(data: Seq<u8>, table: int) -> bool {
    forall|k: int| 0 <= k < 16 ==> #[trigger] mipmap_end(data, table, k) <= u32::MAX
}

/// `x`, or 1 where `x` is 0: a mipmap level is never narrower than a pixel.
pub open spec fn at_least_one(x: int) -> int {
    if x == 0 {
        1
    } else {
        x
    }
}

/// Whether the header announces mipmaps beyond the top level.
pub open spec fn has_mipmaps(data: Seq<u8>, version: u8) -> bool {
    if version == 2 {
        data[11] != 0
    } else {
        word(data, 24) != 0
    }
}

/// A bound on the pixel count of every level the decoder reads: the top
/// level alone, or with mipmaps every level, each of whose sides is the top
/// level's halved but at least 1.
pub open spec fn pixel_bound(data: Seq<u8>, version: u8) -> int {
    let w = word(data, 12);
    let h = word(data, 16);
    if has_mipmaps(data, version) {
        at_least_one(w) * at_least_one(h)
    } else {
        w * h
    }
}

/// What the paletted reader multiplies a level's pixel count by: the alpha
/// depth of a paletted BLP2 file (0 for its other compressions, which do not
/// compute it), and for older files their depth where it is 0, 1, 4 or 8
/// and 0 otherwise, as the header reader maps it.
pub open spec fn paletted_alpha_bits(data: Seq<u8>, version: u8) -> int {
    if version == 2 {
        if data[8] == 1 {
            data[9] as int
        } else {
            0
        }
    } else {
        let a = word(data, 8);
        if a == 0 || a == 1 || a == 4 || a == 8 {
            a
        } else {
            0
        }
    }
}

/// Every level's pixel count, and that count times the alpha depth plus 7,
/// fit in 32 bits.
pub open spec fn pixels_fit(data: Seq<u8>, version: u8) -> bool {
    &&& pixel_bound(data, version) <= u32::MAX
    &&& pixel_bound(data, version) * paletted_alpha_bits(data, version) + 7 <= u32::MAX
}

/// The bytes of one DXT block: 8 for DXT1 (alpha type 0), 16 otherwise.
pub open spec fn dxt_block_bytes(alpha_type: u8) -> int {
    if alpha_type == 0 {
        8
    } else {
        16
    }
}

/// Whether a BLP2 header asks for DXT content (compression 2 with a known
/// alpha type).
pub open spec fn is_dxt(data: Seq<u8>) -> bool {
    data[8] == 2 && (data[10] == 0 || data[10] == 1 || data[10] == 7)
}

/// Whether `n` is exactly a 32-bit float: at most 24 significant bits.
pub open spec fn exact_in_f32(n: int) -> bool
    decreases n,
{
    if n < 0x100_0000 {
        true
    } else if n % 2 == 0 {
        exact_in_f32(n / 2)
    } else {
        false
    }
}

/// Whether the blocks the DXT reader keeps for an `n`-pixel level, which it
/// counts as `n` over 16 rounded up, computed in 32-bit floats, are at least
/// `blocks`. Where `n` is exactly a float the count is exact; elsewhere the
/// float lies within `n / 2^24` of `n`, and that margin is asked for.
pub open spec fn dxt_blocks_kept(n: int, blocks: int) -> bool {
    if exact_in_f32(n) {
        16 * blocks <= n + 15
    } else {
        16 * blocks * 0x100_0000 <= n * 0xFF_FFFF
    }
}

/// The 4x4 blocks the block decoder reads for a `w` x `h` level.
pub open spec fn dxt_blocks(w: int, h: int) -> int {
    ((w + 3) / 4) * ((h + 3) / 4)
}

/// DXT content at level 0 is at least one pixel wide, and both what the
/// reader keeps of it and its stored size hold every block the block
/// decoder reads.
pub open spec fn dxt_fits(data: Seq<u8>) -> bool {
    is_dxt(data) ==> {
        let w = word(data, 12);
        let h = word(data, 16);
        &&& w > 0
        &&& dxt_blocks(w, h) * dxt_block_bytes(data[10]) <= word(data, 84)
        &&& dxt_blocks_kept(w * h, dxt_blocks(w, h))
    }
}

/// Whether `data` may go to the BLP decoder: it is no BLP file, or ends
/// before its header does (the decoder refuses both before it computes
/// anything), or is BLP0 paletted content (whose levels lie in other files,
/// which the decoder then reports missing), or is paletted or DXT content
/// whose mipmap bounds, pixel counts and DXT blocks stay within the limits
/// above. JPEG content is never within limits.
pub open spec fn blp_within_limits(data: Seq<u8>) -> bool {
    match blp_version(data) {
        None => true,
        Some(v) => if data.len() < 8 {
            true
        } else if word(data, 4) != 1 {
            false
        } else if v == 0 || data.len() < mipmap_table_at(v) + 128 {
            true
        } else {
            mipmap_ends_fit(data, mipmap_table_at(v)) && pixels_fit(data, v) && (v == 2 ==> dxt_fits(data))
        },
    }
}

/// The word at byte `at` of `data`.
fn word_at(data: &[u8], at: usize) -> (r: u32)
    requires
        at + 4 <= data@.len(),
    ensures
        r == word(data@, at as int),
{
    let part: &[u8] = &data[at..data.len()];
    let r: u32 = read_le_u32(part);
    assert(data@.subrange(at as int, at + 4) =~= part@.subrange(0, 4));
    assert(le_u32(part@) == le_u32(part@.subrange(0, 4)));
    r
}

fn check_mipmap_ends(data: &[u8], table: usize) -> (r: bool)
    requires
        table <= 28,
        data@.len() >= table + 128,
    ensures
        r == mipmap_ends_fit(data@, table as int),
{
    let mut k: usize = 0;
    while k < 16
        invariant
            k <= 16,
            table <= 28,
            data@.len() >= table + 128,
            forall|j: int| 0 <= j < k ==> #[trigger] mipmap_end(data@, table as int, j) <= u32::MAX,
        decreases 16 - k,
    {
        let offset: u64 = word_at(data, table + 4 * k) as u64;
        let size: u64 = word_at(data, table + 64 + 4 * k) as u64;
        if offset + size > 0xFFFF_FFFF {
            assert(mipmap_end(data@, table as int, k as int) > u32::MAX);
            return false;
        }
        k = k + 1;
    }
    true
}

fn check_pixels(data: &[u8], version: u8) -> (r: bool)
    requires
        1 <= version <= 2,
        data@.len() >= 148,
    ensures
        r == pixels_fit(data@, version),
{
    let w: u64 = word_at(data, 12) as u64;
    let h: u64 = word_at(data, 16) as u64;
    let mipmaps: bool = if version == 2 {
        data[11] != 0
    } else {
        word_at(data, 24) != 0
    };
    let (bw, bh): (u64, u64) = if mipmaps {
        (if w == 0 { 1 } else { w }, if h == 0 { 1 } else { h })
    } else {
        (w, h)
    };
    assert(bw * bh <= 0xFFFF_FFFF * 0xFFFF_FFFF) by (nonlinear_arith)
        requires
            bw <= 0xFFFF_FFFF,
            bh <= 0xFFFF_FFFF,
    ;
    let bound: u64 = bw * bh;
    let alpha: u64 = if version == 2 {
        if data[8] == 1 {
            data[9] as u64
        } else {
            0
        }
    } else {
        let a: u64 = word_at(data, 8) as u64;
        if a == 0 || a == 1 || a == 4 || a == 8 {
            a
        } else {
            0
        }
    };
    if bound > 0xFFFF_FFFF {
        return false;
    }
    assert(bound * alpha <= 0xFFFF_FFFF * 255) by (nonlinear_arith)
        requires
            bound <= 0xFFFF_FFFF,
            alpha <= 255,
    ;
    bound * alpha + 7 <= 0xFFFF_FFFF
}

fn is_exact_in_f32(n: u64) -> (r: bool)
    ensures
        r == exact_in_f32(n as int),
{
    let mut m: u64 = n;
    while m >= 0x100_0000
        invariant
            exact_in_f32(n as int) == exact_in_f32(m as int),
        decreases m,
    {
        if m % 2 != 0 {
            return false;
        }
        m = m / 2;
    }
    true
}

fn check_dxt(data: &[u8]) -> (r: bool)
    requires
        data@.len() >= 148,
    ensures
        r == dxt_fits(data@),
{
    if !(data[8] == 2 && (data[10] == 0 || data[10] == 1 || data[10] == 7)) {
        return true;
    }
    let w: u64 = word_at(data, 12) as u64;
    let h: u64 = word_at(data, 16) as u64;
    let stored: u64 = word_at(data, 84) as u64;
    if w == 0 {
        return false;
    }
    let bw: u64 = (w + 3) / 4;
    let bh: u64 = (h + 3) / 4;
    assert(bw * bh <= 0x4000_0000 * 0x4000_0000) by (nonlinear_arith)
        requires
            bw <= 0x4000_0000,
            bh <= 0x4000_0000,
    ;
    assert(w * h <= 0xFFFF_FFFF * 0xFFFF_FFFF) by (nonlinear_arith)
        requires
            w <= 0xFFFF_FFFF,
            h <= 0xFFFF_FFFF,
    ;
    let blocks: u128 = (bw * bh) as u128;
    let n: u64 = w * h;
    let block_bytes: u128 = if data[10] == 0 {
        8
    } else {
        16
    };
    if blocks * block_bytes > stored as u128 {
        return false;
    }
    if is_exact_in_f32(n) {
        16 * blocks <= n as u128 + 15
    } else {
        assert(16 * blocks * 0x100_0000 <= 16 * 0x1000_0000_0000_0000 * 0x100_0000) by (nonlinear_arith)
            requires
                blocks <= 0x1000_0000_0000_0000,
        ;
        assert((n as u128) * 0xFF_FFFF <= 0xFFFF_FFFF_FFFF_FFFF * 0xFF_FFFF) by (nonlinear_arith)
            requires
                n <= 0xFFFF_FFFF_FFFF_FFFF,
        ;
        16 * blocks * 0x100_0000 <= (n as u128) * 0xFF_FFFF
    }
}

/// Whether `data` may go to the BLP decoder (see `blp_within_limits`).
pub fn blp_is_within_limits(data: &[u8]) -> (r: bool)
    ensures
        r == blp_within_limits(data@),
{
    if data.len() < 8 || !(data[0] == 0x42 && data[1] == 0x4C && data[2] == 0x50 && 0x30 <= data[3] && data[3] <= 0x32) {
        return true;
    }
    let version: u8 = data[3] - 0x30;
    if word_at(data, 4) != 1 {
        return false;
    }
    let table: usize = if version == 2 {
        20
    } else {
        28
    };
    if version == 0 || data.len() < table + 128 {
        return true;
    }
    check_mipmap_ends(data, table) && check_pixels(data, version) && (version != 2 || check_dxt(data))
}

} // verus!

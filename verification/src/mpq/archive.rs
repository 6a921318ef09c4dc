//! Locating an MPQ archive inside a buffer and reading its tables.
//!
//! Map protectors falsify exactly the values a reader trusts: decoy headers,
//! user data headers that point nowhere, table counts far beyond the file,
//! negative table offsets. Every value taken from the archive is checked
//! against the bytes actually there before it is used.
use crate::error::MpqError;
use crate::mpq::crypt::{decrypt, decrypted, hash_string, storm_hash};
use crate::reader::{le_u16, le_u32, read_le_u16, read_le_u32};
use vstd::prelude::*;
use vstd::string::StringSliceAdditionalSpecFns;
use vstd::wrapping::u32_specs::wrapping_add;

verus! {

/// Size of a version 1 archive header.
pub const HEADER_SIZE_V1: usize = 0x20;

/// Size of a user data header.
pub const USER_HEADER_SIZE: usize = 16;

/// StormLib stops the 0x200 header walk after ~128 MB.
pub const HEADER_SEARCH_LIMIT: u64 = 0x0800_0000;

/// Member stored with the PKWARE implode method.
pub const FILE_IMPLODE: u32 = 0x0000_0100;

/// Member compressed with one or more methods named per sector.
pub const FILE_COMPRESS: u32 = 0x0000_0200;

/// Member encrypted.
pub const FILE_ENCRYPTED: u32 = 0x0001_0000;

/// StormLib `MPQ_BLOCK_INDEX`: protectors set high bits on `dwBlockIndex`.
pub const BLOCK_INDEX_MASK: u32 = 0x0FFF_FFFF;

/// Member whose key is adjusted by its position in the archive.
pub const FILE_FIX_KEY: u32 = 0x0002_0000;

/// Member is a patch file.
pub const FILE_PATCH_FILE: u32 = 0x0010_0000;

/// Member stored as a single unit rather than in sectors.
pub const FILE_SINGLE_UNIT: u32 = 0x0100_0000;

/// Member's sectors are followed by a table of sector checksums.
pub const FILE_SECTOR_CRC: u32 = 0x0400_0000;

/// Any compression bit.
pub const FILE_COMPRESS_MASK: u32 = 0x0000_FF00;

/// `MPQ\x1A`, the archive header signature.
pub open spec fn mpq_header_magic() -> Seq<u8> {
    seq![0x4Du8, 0x50u8, 0x51u8, 0x1Au8]
}

/// `MPQ\x1B`, the user data header signature.
pub open spec fn mpq_user_magic() -> Seq<u8> {
    seq![0x4Du8, 0x50u8, 0x51u8, 0x1Bu8]
}

/// Whether `b` begins with the four bytes `MPQ` and `last`.
fn starts_with_mpq(b: &[u8], last: u8) -> (r: bool)
    requires
        b@.len() >= 4,
    ensures
        r == (b@.subrange(0, 4) == seq![0x4Du8, 0x50u8, 0x51u8, last]),
{
    let r = b[0] == 0x4D && b[1] == 0x50 && b[2] == 0x51 && b[3] == last;
    proof {
        if b@.subrange(0, 4) == seq![0x4Du8, 0x50u8, 0x51u8, last] {
            assert(b@.subrange(0, 4)[0] == b@[0]);
            assert(b@.subrange(0, 4)[1] == b@[1]);
            assert(b@.subrange(0, 4)[2] == b@[2]);
            assert(b@.subrange(0, 4)[3] == b@[3]);
        }
        if r {
            assert(b@.subrange(0, 4) =~= seq![0x4Du8, 0x50u8, 0x51u8, last]);
        }
    }
    r
}

/// The low 32 bits of `x`.
pub open spec fn low32(x: u64) -> u32 {
    (x % 0x1_0000_0000) as u32
}

/// An archive header (version 1 fields; the extended fields stay zero).
#[derive(Debug, Clone, Copy)]
pub struct Header {
    /// The signature, as a little-endian word.
    pub magic: u32,
    pub header_size: u32,
    pub archive_size: u32,
    /// 0 = original, 1 = extended.
    pub format_version: u16,
    /// Sectors are `512 << sector_size_shift` bytes.
    pub sector_size_shift: u16,
    /// Offset of the hash table, relative to the header.
    pub hash_table_offset: u32,
    /// Offset of the block table, relative to the header.
    pub block_table_offset: u32,
    /// Declared number of hash table entries.
    pub hash_table_count: u32,
    /// Declared number of block table entries.
    pub block_table_count: u32,
    pub extended_offset: u64,
    pub hash_table_offset_high: u16,
    pub block_table_offset_high: u16,
}

/// The header stored in the first 32 bytes of `b`.
pub open spec fn header_of(b: Seq<u8>) -> Header {
    Header {
        magic: le_u32(b.subrange(0, 4)),
        header_size: le_u32(b.subrange(4, 8)),
        archive_size: le_u32(b.subrange(8, 12)),
        format_version: le_u16(b.subrange(12, 14)),
        sector_size_shift: le_u16(b.subrange(14, 16)),
        hash_table_offset: le_u32(b.subrange(16, 20)),
        block_table_offset: le_u32(b.subrange(20, 24)),
        hash_table_count: le_u32(b.subrange(24, 28)),
        block_table_count: le_u32(b.subrange(28, 32)),
        extended_offset: 0,
        hash_table_offset_high: 0,
        block_table_offset_high: 0,
    }
}

impl Header {
    /// Decode a header from its 32 bytes.
    pub fn new(src: &[u8]) -> (h: Header)
        requires
            src@.len() >= 32,
        ensures
            h == header_of(src@),
    {
        Header {
            magic: read_le_u32(&src[0..4]),
            header_size: read_le_u32(&src[4..8]),
            archive_size: read_le_u32(&src[8..12]),
            format_version: read_le_u16(&src[12..14]),
            sector_size_shift: read_le_u16(&src[14..16]),
            hash_table_offset: read_le_u32(&src[16..20]),
            block_table_offset: read_le_u32(&src[20..24]),
            hash_table_count: read_le_u32(&src[24..28]),
            block_table_count: read_le_u32(&src[28..32]),
            extended_offset: 0,
            hash_table_offset_high: 0,
            block_table_offset_high: 0,
        }
    }
}

/// A user data header, which may precede the archive header.
#[derive(Debug, Clone, Copy)]
pub struct UserDataHeader {
    pub magic: u32,
    /// Bytes of user data.
    pub user_data_size: u32,
    /// Offset of the archive header, relative to this header.
    pub header_offset: u32,
    pub user_data_header_size: u32,
}

/// The user data header stored in the first 16 bytes of `b`.
pub open spec fn user_data_header_of(b: Seq<u8>) -> UserDataHeader {
    UserDataHeader {
        magic: le_u32(b.subrange(0, 4)),
        user_data_size: le_u32(b.subrange(4, 8)),
        header_offset: le_u32(b.subrange(8, 12)),
        user_data_header_size: le_u32(b.subrange(12, 16)),
    }
}

impl UserDataHeader {
    /// Decode a user data header from its 16 bytes.
    pub fn new(src: &[u8]) -> (h: UserDataHeader)
        requires
            src@.len() >= 16,
        ensures
            h == user_data_header_of(src@),
    {
        UserDataHeader {
            magic: read_le_u32(&src[0..4]),
            user_data_size: read_le_u32(&src[4..8]),
            header_offset: read_le_u32(&src[8..12]),
            user_data_header_size: read_le_u32(&src[12..16]),
        }
    }
}

/// A hash table entry.
#[derive(Debug, Clone, Copy)]
pub struct HashEntry {
    /// File name hash part A.
    pub hash_a: u32,
    /// File name hash part B.
    pub hash_b: u32,
    /// Language of the file, as a Windows LANGID.
    pub locale: u16,
    /// Platform the file is used on.
    pub platform: u16,
    /// Index into the block table.
    pub block_index: u32,
}

/// The hash entry stored in the first 16 bytes of `b`.
pub open spec fn hash_of(b: Seq<u8>) -> HashEntry {
    HashEntry {
        hash_a: le_u32(b.subrange(0, 4)),
        hash_b: le_u32(b.subrange(4, 8)),
        locale: le_u16(b.subrange(8, 10)),
        platform: le_u16(b.subrange(10, 12)),
        block_index: le_u32(b.subrange(12, 16)),
    }
}

impl HashEntry {
    /// Decode a hash entry from its 16 bytes.
    pub fn new(src: &[u8]) -> (h: HashEntry)
        requires
            src@.len() >= 16,
        ensures
            h == hash_of(src@),
    {
        HashEntry {
            hash_a: read_le_u32(&src[0..4]),
            hash_b: read_le_u32(&src[4..8]),
            locale: read_le_u16(&src[8..10]),
            platform: read_le_u16(&src[10..12]),
            block_index: read_le_u32(&src[12..16]),
        }
    }
}

/// A block table entry.
#[derive(Debug, Clone, Copy)]
pub struct Block {
    /// Offset of the file data, relative to the archive header.
    pub offset: u32,
    /// Compressed size.
    pub packed_size: u32,
    /// Uncompressed size.
    pub unpacked_size: u32,
    /// Flags of the file.
    pub flags: u32,
}

/// The block entry stored in the first 16 bytes of `b`.
pub open spec fn block_of(b: Seq<u8>) -> Block {
    Block {
        offset: le_u32(b.subrange(0, 4)),
        packed_size: le_u32(b.subrange(4, 8)),
        unpacked_size: le_u32(b.subrange(8, 12)),
        flags: le_u32(b.subrange(12, 16)),
    }
}

impl Block {
    /// Decode a block entry from its 16 bytes.
    pub fn new(src: &[u8]) -> (b: Block)
        requires
            src@.len() >= 16,
        ensures
            b == block_of(src@),
    {
        Block {
            offset: read_le_u32(&src[0..4]),
            packed_size: read_le_u32(&src[4..8]),
            unpacked_size: read_le_u32(&src[8..12]),
            flags: read_le_u32(&src[12..16]),
        }
    }
}

/// Absolute position of a table whose offset is stored relative to the header.
///
/// Some protectors store that offset as a negative 32-bit value, so following
/// it in 64-bit arithmetic lands past the end of the file while Storm — which
/// adds in 32 bits — wraps back into the archive. The wrap is taken only once
/// the straightforward reading has already fallen outside, so a healthy archive
/// is never resolved by anything but its own header.
pub open spec fn spec_table_start(header_offset: u64, table_offset: u32, total: u64) -> u64 {
    let plain = header_offset + table_offset;
    if plain < total {
        plain as u64
    } else {
        let wrapped = wrapping_add(low32(header_offset), table_offset);
        if wrapped < total {
            wrapped as u64
        } else {
            plain as u64
        }
    }
}

fn table_start(header_offset: u64, table_offset: u32, total: u64) -> (r: u64)
    requires
        header_offset + table_offset <= u64::MAX,
    ensures
        r == spec_table_start(header_offset, table_offset, total),
{
    let plain = header_offset + table_offset as u64;
    if plain < total {
        return plain;
    }
    let wrapped = ((header_offset % 0x1_0000_0000) as u32).wrapping_add(table_offset) as u64;
    if wrapped < total {
        wrapped
    } else {
        plain
    }
}

/// StormLib `ConvertMpqHeaderToFormat4` rejects a v1 header when the 32-bit
/// wrap of `header + {hash,block}TablePos` lands past EOF, then keeps scanning.
/// Skipping such a header is what finds a later real archive on maps that
/// prepend a decoy at 0x200.
pub open spec fn spec_is_fake_header(header_offset: u64, header: Header, file_size: u64) -> bool {
    wrapping_add(low32(header_offset), header.hash_table_offset) > file_size
        || wrapping_add(low32(header_offset), header.block_table_offset) > file_size
}

fn is_fake_mpq_header(header_offset: u64, header: &Header, file_size: u64) -> (r: bool)
    ensures
        r == spec_is_fake_header(header_offset, *header, file_size),
{
    let base = (header_offset % 0x1_0000_0000) as u32;
    let hash_pos = base.wrapping_add(header.hash_table_offset);
    let block_pos = base.wrapping_add(header.block_table_offset);
    hash_pos as u64 > file_size || block_pos as u64 > file_size
}

/// What the header walk accepts at `offset`: the archive header's offset and
/// the user data header that led to it, if one did.
pub open spec fn header_accepted_at(data: Seq<u8>, offset: u64) -> Option<(u64, Option<UserDataHeader>)> {
    let total = data.len() as u64;
    let buf = data.subrange(offset as int, offset + 32);
    if buf.subrange(0, 4) == mpq_header_magic() && le_u32(buf.subrange(4, 8)) >= 32
        && !spec_is_fake_header(offset, header_of(buf), total) {
        Some((offset, None))
    } else if buf.subrange(0, 4) == mpq_user_magic() {
        let user = user_data_header_of(buf);
        let candidate = offset + user.header_offset;
        if candidate + 32 <= total {
            let probe = data.subrange(candidate, candidate + 32);
            if probe.subrange(0, 4) == mpq_header_magic() && !spec_is_fake_header(
                candidate as u64,
                header_of(probe),
                total,
            ) {
                Some((candidate as u64, Some(user)))
            } else {
                None
            }
        } else {
            None
        }
    } else {
        None
    }
}

/// The header walk from `offset` on, in steps of 0x200: a header whose size
/// field is below 0x20 is a decoy, a user data header counts only when it lands
/// on an archive header, and any header whose tables wrap past the end of the
/// data is skipped. The walk gives up at 128 MB or at the end of the data.
pub open spec fn find_header(data: Seq<u8>, offset: u64) -> Option<(u64, Option<UserDataHeader>)>
    decreases (if offset < HEADER_SEARCH_LIMIT { HEADER_SEARCH_LIMIT - offset } else { 0 }),
{
    if offset >= HEADER_SEARCH_LIMIT || offset + 32 > data.len() {
        None
    } else {
        match header_accepted_at(data, offset) {
            Some(found) => Some(found),
            None => find_header(data, (offset + 0x200) as u64),
        }
    }
}

fn header_at(data: &[u8], offset: u64) -> (r: Option<(u64, Option<UserDataHeader>)>)
    requires
        offset < HEADER_SEARCH_LIMIT,
        offset + 32 <= data@.len(),
    ensures
        r == header_accepted_at(data@, offset),
{
    let total = data.len() as u64;
    let o = offset as usize;
    let buf = &data[o..o + 32];
    assert(buf@ == data@.subrange(offset as int, offset + 32));
    if starts_with_mpq(buf, 0x1A) {
        let header_size = read_le_u32(&buf[4..8]);
        if header_size >= 32 {
            let candidate = Header::new(buf);
            if !is_fake_mpq_header(offset, &candidate, total) {
                return Some((offset, None));
            }
        }
    }
    if starts_with_mpq(buf, 0x1B) {
        proof {
            assert(mpq_user_magic() != mpq_header_magic()) by {
                assert(mpq_user_magic()[3] != mpq_header_magic()[3]);
            }
        }
        let user = UserDataHeader::new(buf);
        let candidate = offset + user.header_offset as u64;
        if candidate + 32 <= total {
            let c = candidate as usize;
            let probe = &data[c..c + 32];
            if starts_with_mpq(probe, 0x1A) {
                let landed = Header::new(probe);
                if !is_fake_mpq_header(candidate, &landed, total) {
                    return Some((candidate, Some(user)));
                }
            }
        }
        return None;
    }
    proof {
        if buf@.subrange(0, 4) == mpq_user_magic() {
            assert(buf@.subrange(0, 4)[3] == 0x1Bu8);
        }
    }
    None
}

proof fn lemma_find_header_bounds(data: Seq<u8>, offset: u64)
    ensures
        find_header(data, offset) matches Some((o, _)) ==> o < HEADER_SEARCH_LIMIT + 0x1_0000_0000 && o + 32
            <= data.len(),
    decreases (if offset < HEADER_SEARCH_LIMIT { HEADER_SEARCH_LIMIT - offset } else { 0 }),
{
    if offset < HEADER_SEARCH_LIMIT && offset + 32 <= data.len() {
        if header_accepted_at(data, offset) is None {
            lemma_find_header_bounds(data, (offset + 0x200) as u64);
        }
    }
}

fn find_header_exec(data: &[u8]) -> (r: Option<(u64, Option<UserDataHeader>)>)
    ensures
        r == find_header(data@, 0),
{
    let total = data.len() as u64;
    let mut offset: u64 = 0;
    while offset < HEADER_SEARCH_LIMIT && offset + 32 <= total
        invariant
            total == data@.len(),
            offset <= HEADER_SEARCH_LIMIT + 0x200,
            find_header(data@, 0) == find_header(data@, offset),
        decreases HEADER_SEARCH_LIMIT + 0x200 - offset,
    {
        let found = header_at(data, offset);
        if found.is_some() {
            return found;
        }
        offset += 0x200;
    }
    None
}

/// The size of a sector under `header`: `512 << shift`, or zero when the shift
/// is out of range (two maps in the corpus carry a shift of 65292).
pub open spec fn sector_size_of(header: Header) -> u32 {
    if (header.sector_size_shift as u32) < 32 {
        512u32 << (header.sector_size_shift as u32)
    } else {
        0
    }
}

/// Entries of `entry` bytes that fit between `start` and the end of the data.
pub open spec fn entries_after(total: u64, start: u64, entry: int) -> u64 {
    (if start <= total { (total - start) / entry } else { 0 }) as u64
}

/// The smaller of a declared count and the room there is for it.
pub open spec fn clamp_count(declared: u32, room: u64) -> u32 {
    if declared < low32(room) {
        declared
    } else {
        low32(room)
    }
}

/// The key of the hash table.
#[verifier::opaque]
pub open spec fn hash_table_key() -> u32 {
    storm_hash("(hash table)".spec_bytes(), 0x300)
}

/// The key of the block table.
#[verifier::opaque]
pub open spec fn block_table_key() -> u32 {
    storm_hash("(block table)".spec_bytes(), 0x300)
}

/// The decryption of the `count` entries of 16 bytes at `start`.
#[verifier::opaque]
pub open spec fn table_plain(data: Seq<u8>, start: u64, count: u32, key: u32) -> Seq<u8> {
    decrypted(data.subrange(start as int, start + 16 * count), key)
}

/// The `count` hash entries at `start`.
pub open spec fn hash_entries(data: Seq<u8>, start: u64, count: u32) -> Seq<HashEntry> {
    let plain = table_plain(data, start, count, hash_table_key());
    Seq::new(count as nat, |i: int| hash_of(plain.subrange(16 * i, 16 * i + 16)))
}

/// The `count` block entries at `start`.
pub open spec fn block_entries(data: Seq<u8>, start: u64, count: u32) -> Seq<Block> {
    let plain = table_plain(data, start, count, block_table_key());
    Seq::new(count as nat, |i: int| block_of(plain.subrange(16 * i, 16 * i + 16)))
}

/// An archive as the library sees it.
pub struct ArchiveView {
    /// The whole input the archive was read from.
    pub data: Seq<u8>,
    pub header: Header,
    pub user_data_header: Option<UserDataHeader>,
    /// The hash entries there is room for in the data.
    pub hash_table: Seq<HashEntry>,
    /// The block entries there is room for in the data.
    pub block_table: Seq<Block>,
    pub sector_size: u32,
    /// Offset of the archive header in the data.
    pub offset: u64,
}

impl ArchiveView {
    /// The archive is what reading its data gives.
    #[verifier::opaque]
    pub open spec fn wf(self) -> bool {
        spec_load(self.data) == Ok::<ArchiveView, MpqError>(self)
    }
}

/// What a read archive is known to satisfy.
pub proof fn lemma_wf_bounds(a: ArchiveView)
    requires
        a.wf(),
    ensures
        a.hash_table.len() <= u32::MAX,
        a.block_table.len() <= u32::MAX,
        a.offset + 32 <= a.data.len(),
        a.offset < HEADER_SEARCH_LIMIT + 0x1_0000_0000,
        a.sector_size == sector_size_of(a.header),
{
    reveal(ArchiveView::wf);
    lemma_find_header_bounds(a.data, 0);
}

/// Where a read archive's hash table starts in its data.
pub open spec fn hash_table_start(a: ArchiveView) -> u64 {
    spec_table_start(a.offset, a.header.hash_table_offset, a.data.len() as u64)
}

/// Where a read archive's block table starts in its data.
pub open spec fn block_table_start(a: ArchiveView) -> u64 {
    spec_table_start(a.offset, a.header.block_table_offset, a.data.len() as u64)
}

proof fn lemma_clamped_entries(total: u64, start: u64, declared: u32, len: int)
    requires
        len == clamp_count(declared, entries_after(total, start, 16)),
    ensures
        len <= declared,
        len > 0 || start <= total ==> start + 16 * len <= total,
        total <= u32::MAX && len < declared ==> start + 16 * (len + 1) > total,
{
    let room = entries_after(total, start, 16);
    if start <= total {
        let d = total - start;
        assert(16 * (d / 16) <= d && d < 16 * (d / 16 + 1)) by (nonlinear_arith);
        if total <= u32::MAX {
            assert(low32(room) == room);
        }
        assert(low32(room) <= room);
    } else {
        assert(room == 0);
        assert(low32(room) == 0);
    }
}

/// The tables of a read archive never reach past its data, never hold more
/// entries than the header declares, and — for input that a 32-bit count can
/// measure — hold every whole entry the data has room for up to that count: a
/// table cut short by the end of the file is read as far as it goes.
pub proof fn lemma_tables_fit_and_are_read_in_full(a: ArchiveView)
    requires
        a.wf(),
    ensures
        a.hash_table.len() <= a.header.hash_table_count,
        hash_table_start(a) + 16 * a.hash_table.len() <= a.data.len(),
        a.data.len() <= u32::MAX && a.hash_table.len() < a.header.hash_table_count ==> hash_table_start(a) + 16 * (
        a.hash_table.len() + 1) > a.data.len(),
        a.block_table.len() <= a.header.block_table_count,
        a.block_table.len() > 0 ==> block_table_start(a) + 16 * a.block_table.len() <= a.data.len(),
        a.data.len() <= u32::MAX && a.block_table.len() < a.header.block_table_count ==> block_table_start(a) + 16 * (
        a.block_table.len() + 1) > a.data.len(),
{
    reveal(ArchiveView::wf);
    lemma_wf_bounds(a);
    let total = a.data.len() as u64;
    let hs = hash_table_start(a);
    let bs = block_table_start(a);
    lemma_clamped_entries(total, hs, a.header.hash_table_count, a.hash_table.len() as int);
    lemma_clamped_entries(total, bs, a.header.block_table_count, a.block_table.len() as int);
}

/// What reading an archive out of `data` gives.
///
/// The header is the first the walk accepts. Both tables are read from where
/// the header puts them (see [`spec_table_start`]) and clamped to the entries
/// the data has room for; a hash table with no room at all is an error. The
/// declared hash table count is kept in the header: Storm masks bucket indices
/// with it, so shrinking it would send lookups to the wrong bucket.
pub open spec fn spec_load(data: Seq<u8>) -> Result<ArchiveView, MpqError> {
    match find_header(data, 0) {
        None => Err(MpqError::NoHeader),
        Some((offset, user_data_header)) => spec_read_tables(data, offset, user_data_header),
    }
}

/// The archive whose header the walk accepted at `offset`.
pub open spec fn spec_read_tables(data: Seq<u8>, offset: u64, user_data_header: Option<UserDataHeader>) -> Result<
    ArchiveView,
    MpqError,
> {
    let total = data.len() as u64;
    let header = header_of(data.subrange(offset as int, offset + 32));
    let hash_start = spec_table_start(offset, header.hash_table_offset, total);
    let hash_room = entries_after(total, hash_start, 16);
    if hash_room == 0 {
        Err(MpqError::HashTableOutside)
    } else {
        let hash_count = clamp_count(header.hash_table_count, hash_room);
        let block_start = spec_table_start(offset, header.block_table_offset, total);
        let block_count = clamp_count(header.block_table_count, entries_after(total, block_start, 16));
        Ok(
            ArchiveView {
                data,
                header,
                user_data_header,
                hash_table: hash_entries(data, hash_start, hash_count),
                block_table: block_entries(data, block_start, block_count),
                sector_size: sector_size_of(header),
                offset,
            },
        )
    }
}

/// An MPQ archive held in memory.
pub struct Archive {
    pub(crate) data: Vec<u8>,
    pub(crate) header: Header,
    pub(crate) user_data_header: Option<UserDataHeader>,
    pub(crate) hash_table: Vec<HashEntry>,
    pub(crate) block_table: Vec<Block>,
    pub(crate) sector_size: u32,
    pub(crate) offset: u64,
}

impl View for Archive {
    type V = ArchiveView;

    closed spec fn view(&self) -> ArchiveView {
        ArchiveView {
            data: self.data@,
            header: self.header,
            user_data_header: self.user_data_header,
            hash_table: self.hash_table@,
            block_table: self.block_table@,
            sector_size: self.sector_size,
            offset: self.offset,
        }
    }
}

proof fn lemma_entry_in_table(x: int, count: int)
    requires
        0 <= x < count,
    ensures
        16 * x + 16 <= 16 * count,
{
}

/// Read `count` table entries of 16 bytes at `start`, decrypted under `key`.
fn read_table(data: &[u8], start: u64, count: u32, key: u32) -> (plain: Vec<u8>)
    requires
        start + 16 * count <= data@.len(),
    ensures
        plain@ == table_plain(data@, start, count, key),
{
    let len = data.len();
    assert(start + 16 * count <= len);
    let s = start as usize;
    let n = 16 * (count as usize);
    let mut plain = vstd::slice::slice_to_vec(&data[s..s + n]);
    decrypt(&mut plain, key);
    proof {
        reveal(table_plain);
        crate::mpq::crypt::lemma_cipher_keeps_length(data@.subrange(start as int, start + 16 * count), key);
    }
    plain
}

fn read_hash_table(data: &[u8], start: u64, count: u32) -> (t: Vec<HashEntry>)
    requires
        start + 16 * count <= data@.len(),
    ensures
        t@ == hash_entries(data@, start, count),
{
    let key = hash_string("(hash table)", 0x300);
    proof {
        reveal(hash_table_key);
    }
    let plain = read_table(data, start, count, key);
    let mut t: Vec<HashEntry> = Vec::new();
    proof {
        reveal(table_plain);
        crate::mpq::crypt::lemma_cipher_keeps_length(data@.subrange(start as int, start + 16 * count), key);
    }
    let n = plain.len();
    let mut x: usize = 0;
    while x < count as usize
        invariant
            n == plain@.len(),
            plain@.len() == 16 * count,
            x <= count,
            t@.len() == x,
            forall|i: int| 0 <= i < x ==> #[trigger] t@[i] == hash_of(plain@.subrange(16 * i, 16 * i + 16)),
        decreases count - x,
    {
        proof {
            lemma_entry_in_table(x as int, count as int);
        }
        let e = HashEntry::new(&plain.as_slice()[16 * x..16 * x + 16]);
        t.push(e);
        x += 1;
    }
    assert(t@ =~= hash_entries(data@, start, count));
    t
}

fn read_block_table(data: &[u8], start: u64, count: u32) -> (t: Vec<Block>)
    requires
        start + 16 * count <= data@.len() || count == 0,
    ensures
        t@ == block_entries(data@, start, count),
{
    if count == 0 {
        let t: Vec<Block> = Vec::new();
        assert(t@ =~= block_entries(data@, start, count));
        return t;
    }
    let key = hash_string("(block table)", 0x300);
    proof {
        reveal(block_table_key);
    }
    let plain = read_table(data, start, count, key);
    let mut t: Vec<Block> = Vec::new();
    proof {
        reveal(table_plain);
        crate::mpq::crypt::lemma_cipher_keeps_length(data@.subrange(start as int, start + 16 * count), key);
    }
    let n = plain.len();
    let mut x: usize = 0;
    while x < count as usize
        invariant
            n == plain@.len(),
            plain@.len() == 16 * count,
            x <= count,
            t@.len() == x,
            forall|i: int| 0 <= i < x ==> #[trigger] t@[i] == block_of(plain@.subrange(16 * i, 16 * i + 16)),
        decreases count - x,
    {
        proof {
            lemma_entry_in_table(x as int, count as int);
        }
        let e = Block::new(&plain.as_slice()[16 * x..16 * x + 16]);
        t.push(e);
        x += 1;
    }
    assert(t@ =~= block_entries(data@, start, count));
    t
}

/// Entries of 16 bytes that fit after `start`, and the declared count clamped
/// to them.
fn clamped_count(total: u64, start: u64, declared: u32) -> (r: (u64, u32))
    ensures
        r.0 == entries_after(total, start, 16),
        r.1 == clamp_count(declared, r.0),
        start + 16 * r.1 <= total || r.1 == 0,
{
    let room = total.saturating_sub(start) / 16;
    let room32 = (room % 0x1_0000_0000) as u32;
    let count = if declared < room32 {
        declared
    } else {
        room32
    };
    (room, count)
}

impl Archive {
    /// The view of an archive is made of its fields.
    pub(crate) proof fn lemma_view(&self)
        ensures
            self@.data == self.data@,
            self@.header == self.header,
            self@.user_data_header == self.user_data_header,
            self@.hash_table == self.hash_table@,
            self@.block_table == self.block_table@,
            self@.sector_size == self.sector_size,
            self@.offset == self.offset,
    {
    }

    /// Read the archive held in `buf`.
    pub fn load(buf: Vec<u8>) -> (r: Result<Archive, MpqError>)
        ensures
            match r {
                Ok(a) => spec_load(buf@) == Ok::<ArchiveView, MpqError>(a@) && a@.wf(),
                Err(e) => spec_load(buf@) == Err::<ArchiveView, MpqError>(e),
            },
    {
        proof {
            lemma_find_header_bounds(buf@, 0);
        }
        let r = match find_header_exec(buf.as_slice()) {
            None => Err(MpqError::NoHeader),
            Some((offset, user_data_header)) => Self::read_tables(buf, offset, user_data_header),
        };
        proof {
            reveal(ArchiveView::wf);
        }
        r
    }

    #[verifier::rlimit(60)]
    fn read_tables(buf: Vec<u8>, offset: u64, user_data_header: Option<UserDataHeader>) -> (r: Result<
        Archive,
        MpqError,
    >)
        requires
            offset < HEADER_SEARCH_LIMIT + 0x1_0000_0000,
            offset + 32 <= buf@.len(),
        ensures
            match r {
                Ok(a) => spec_read_tables(buf@, offset, user_data_header) == Ok::<ArchiveView, MpqError>(a@),
                Err(e) => spec_read_tables(buf@, offset, user_data_header) == Err::<ArchiveView, MpqError>(e),
            },
    {
        let total = buf.len() as u64;
        let o = offset as usize;
        let header = Header::new(&buf.as_slice()[o..o + 32]);
        let hash_start = table_start(offset, header.hash_table_offset, total);
        let (hash_room, hash_count) = clamped_count(total, hash_start, header.hash_table_count);
        if hash_room == 0 {
            return Err(MpqError::HashTableOutside);
        }
        let hash_table = read_hash_table(buf.as_slice(), hash_start, hash_count);
        let block_start = table_start(offset, header.block_table_offset, total);
        let (_, block_count) = clamped_count(total, block_start, header.block_table_count);
        let block_table = read_block_table(buf.as_slice(), block_start, block_count);
        let shift = header.sector_size_shift as u32;
        let sector_size = if shift < 32 {
            512u32 << shift
        } else {
            0
        };
        Ok(Archive { data: buf, header, user_data_header, hash_table, block_table, sector_size, offset })
    }

    /// Offset of the archive header in the input.
    pub fn offset(&self) -> (o: u64)
        ensures
            o == self@.offset,
    {
        self.offset
    }

    /// Bytes per sector, zero when the header's shift is out of range.
    pub fn sector_size(&self) -> (s: u32)
        ensures
            s == self@.sector_size,
    {
        self.sector_size
    }

    /// The archive header.
    pub fn header(&self) -> (h: Header)
        ensures
            h == self@.header,
    {
        self.header
    }

    /// The user data that precedes the archive, when a user data header led to
    /// it: `user_data_size` bytes read from offset 16 of the input.
    pub fn read_user_data(&mut self) -> (r: Result<Option<Vec<u8>>, MpqError>)
        ensures
            final(self)@ == old(self)@,
            match old(self)@.user_data_header {
                None => r == Ok::<Option<Vec<u8>>, MpqError>(None),
                Some(h) => if USER_HEADER_SIZE + h.user_data_size <= old(self)@.data.len() {
                    r is Ok && r->Ok_0 is Some && r->Ok_0->Some_0@ == old(self)@.data.subrange(
                        USER_HEADER_SIZE as int,
                        USER_HEADER_SIZE + h.user_data_size,
                    )
                } else {
                    r == Err::<Option<Vec<u8>>, MpqError>(MpqError::Truncated)
                },
            },
    {
        match self.user_data_header {
            Some(header) => {
                let size = header.user_data_size as usize;
                if size > self.data.len() || self.data.len() - size < USER_HEADER_SIZE {
                    return Err(MpqError::Truncated);
                }
                let buf = vstd::slice::slice_to_vec(&self.data.as_slice()[USER_HEADER_SIZE..USER_HEADER_SIZE + size]);
                Ok(Some(buf))
            },
            None => Ok(None),
        }
    }
}

} // verus!

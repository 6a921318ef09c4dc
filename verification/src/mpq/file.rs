//! Looking a member up by name and reading its bytes.
use crate::error::MpqError;
use crate::mpq::archive::{
    Archive, ArchiveView, Block, HashEntry, BLOCK_INDEX_MASK, FILE_COMPRESS, FILE_COMPRESS_MASK, FILE_ENCRYPTED,
    FILE_FIX_KEY, FILE_IMPLODE, FILE_PATCH_FILE, FILE_SECTOR_CRC, FILE_SINGLE_UNIT,
};
use crate::mpq::compression::{adler32_from_zero, decompress, sector_adler, spec_decompress};
use crate::mpq::crypt::{decrypt, decrypted, hash_bytes, storm_hash, words_of};
use crate::reader::{le_u32, read_le_u32};
use vstd::prelude::*;
use vstd::slice::SliceAdditionalExecFns;
use vstd::string::StringSliceAdditionalSpecFns;
use vstd::wrapping::u32_specs::{wrapping_add, wrapping_sub};

verus! {

/// Where the last path component of `s[..i]` starts: just after the last `\`
/// or `/`, or at 0.
pub open spec fn basename_start(s: Seq<u8>, i: int) -> int
    decreases i,
{
    if i <= 0 {
        0
    } else if s[i - 1] == 92 || s[i - 1] == 47 {
        i
    } else {
        basename_start(s, i - 1)
    }
}

/// The last path component of the name `s`.
pub open spec fn basename(s: Seq<u8>) -> Seq<u8> {
    s.skip(basename_start(s, s.len() as int))
}

/// The key a member's data is encrypted with: the key hash of its base name,
/// adjusted by its position and size when the block asks for that; zero when
/// it is not encrypted.
pub open spec fn spec_file_key(name: Seq<u8>, block: Block) -> u32 {
    if block.flags & FILE_ENCRYPTED != 0 {
        let key = storm_hash(basename(name), 0x300);
        if block.flags & FILE_FIX_KEY != 0 {
            wrapping_add(key, block.offset) ^ block.unpacked_size
        } else {
            key
        }
    } else {
        0
    }
}

proof fn lemma_component_start(s: Seq<u8>, j: int, i: int)
    requires
        0 <= j <= i <= s.len(),
        j == 0 || s[j - 1] == 92 || s[j - 1] == 47,
        forall|k: int| j <= k < i ==> s[k] != 92 && s[k] != 47,
    ensures
        basename_start(s, i) == j,
    decreases i,
{
    if i > j {
        lemma_component_start(s, j, i - 1);
    }
}

/// An encrypted member's key is taken from the part of its name after the
/// last `\` or `/`: a name `dir` + separator + `base` keys exactly as `base`
/// does, and a name without separators is hashed whole with hash type 0x300
/// (then offset by the block's position and xored with its size when the
/// block asks for a fixed key). A member that is not encrypted has key 0.
pub proof fn lemma_file_key_uses_last_component(dir: Seq<u8>, sep: u8, base: Seq<u8>, block: Block)
    requires
        sep == 92 || sep == 47,
        forall|k: int| 0 <= k < base.len() ==> base[k] != 92 && base[k] != 47,
    ensures
        spec_file_key(dir + seq![sep] + base, block) == spec_file_key(base, block),
        block.flags & FILE_ENCRYPTED != 0 && block.flags & FILE_FIX_KEY == 0 ==> spec_file_key(base, block)
            == storm_hash(base, 0x300),
        block.flags & FILE_ENCRYPTED != 0 && block.flags & FILE_FIX_KEY != 0 ==> spec_file_key(base, block)
            == wrapping_add(storm_hash(base, 0x300), block.offset) ^ block.unpacked_size,
        block.flags & FILE_ENCRYPTED == 0 ==> spec_file_key(base, block) == 0,
{
    let s = dir + seq![sep] + base;
    let j: int = dir.len() as int + 1;
    assert forall|k: int| j <= k < s.len() implies s[k] != 92 && s[k] != 47 by {
        assert(s[k] == base[k - j]);
    }
    assert(s[j - 1] == sep);
    lemma_component_start(s, j, s.len() as int);
    assert(s.skip(j) =~= base);
    lemma_component_start(base, 0, base.len() as int);
    assert(base.skip(0) =~= base);
}

/// The first slot, probing circularly from `start + p`, whose two check hashes
/// are `hash_a` and `hash_b`.
pub open spec fn first_match(table: Seq<HashEntry>, start: int, hash_a: u32, hash_b: u32, p: int) -> Option<int>
    decreases table.len() - p,
{
    if p >= table.len() || p < 0 {
        None
    } else {
        let i = (start + p) % (table.len() as int);
        if table[i].hash_a == hash_a && table[i].hash_b == hash_b {
            Some(i)
        } else {
            first_match(table, start, hash_a, hash_b, p + 1)
        }
    }
}

proof fn lemma_first_match_reaches(table: Seq<HashEntry>, start: int, hash_a: u32, hash_b: u32, p: int, q: int)
    requires
        0 <= p <= q < table.len(),
        table[(start + q) % (table.len() as int)].hash_a == hash_a,
        table[(start + q) % (table.len() as int)].hash_b == hash_b,
    ensures
        first_match(table, start, hash_a, hash_b, p) is Some,
    decreases q - p,
{
    if p < q {
        let i = (start + p) % (table.len() as int);
        if !(table[i].hash_a == hash_a && table[i].hash_b == hash_b) {
            lemma_first_match_reaches(table, start, hash_a, hash_b, p + 1, q);
        }
    }
}

/// Probing wraps around the end of the table: wherever in the table an entry
/// with both check hashes sits, the probe from any bucket finds a match.
pub proof fn lemma_probe_wraps_around(table: Seq<HashEntry>, start: int, hash_a: u32, hash_b: u32, k: int)
    requires
        0 <= k < table.len(),
        table[k].hash_a == hash_a,
        table[k].hash_b == hash_b,
    ensures
        first_match(table, start, hash_a, hash_b, 0) is Some,
{
    let n = table.len() as int;
    let q = (k - start) % n;
    let d = (k - start) / n;
    vstd::arithmetic::div_mod::lemma_fundamental_div_mod(k - start, n);
    assert(start + q == n * (-d) + k) by (nonlinear_arith)
        requires
            k - start == n * d + q,
    ;
    vstd::arithmetic::div_mod::lemma_mod_multiples_vanish(-d, k, n);
    vstd::arithmetic::div_mod::lemma_small_mod(k as nat, n as nat);
    lemma_first_match_reaches(table, start, hash_a, hash_b, 0, q);
}

/// The number of sectors a member of `unpacked` bytes is split into.
pub open spec fn sector_count_of(unpacked: u32, sector_size: u32) -> int {
    (unpacked - 1) / (sector_size as int) + 1
}

/// The sector offsets and sector checksums of a member, read from the start of
/// its data: `n + 1` offsets for `n` sectors (decrypted with the key less one
/// when the member is encrypted), then, for a compressed member with sector
/// checksums, `n` checksums found where the last offset says they are — but
/// only when their table has exactly the expected size.
pub open spec fn spec_sector_tables(a: ArchiveView, b: Block, key: u32) -> Result<(Seq<u32>, Seq<u32>), MpqError> {
    if b.flags & FILE_SINGLE_UNIT != 0 {
        Ok((Seq::empty(), Seq::empty()))
    } else if b.unpacked_size == 0 || a.sector_size == 0 {
        Err(MpqError::Truncated)
    } else {
        let n = sector_count_of(b.unpacked_size, a.sector_size);
        let pos = b.offset + a.offset;
        let len = (n + 1) * 4;
        if pos + len > a.data.len() {
            Err(MpqError::Truncated)
        } else {
            let raw = a.data.subrange(pos, pos + len);
            let table = if b.flags & FILE_ENCRYPTED != 0 {
                decrypted(raw, wrapping_sub(key, 1))
            } else {
                raw
            };
            let offsets = words_of(table);
            if b.flags & FILE_COMPRESS != 0 && b.flags & FILE_SECTOR_CRC != 0 {
                if pos + len + 4 > a.data.len() {
                    Err(MpqError::Truncated)
                } else {
                    let last = le_u32(a.data.subrange(pos + len, pos + len + 4));
                    let checksum_offset = offsets[n];
                    if wrapping_sub(last, checksum_offset) == 4 * n {
                        let at = b.offset + checksum_offset;
                        if at + 4 * n > a.data.len() {
                            Err(MpqError::Truncated)
                        } else {
                            Ok((offsets, words_of(a.data.subrange(at, at + 4 * n))))
                        }
                    } else {
                        Ok((offsets, Seq::empty()))
                    }
                }
            } else {
                Ok((offsets, Seq::empty()))
            }
        }
    }
}

/// A member located by name.
pub struct FileView {
    pub name: Seq<char>,
    pub hash: HashEntry,
    pub block: Block,
    /// Sector offsets relative to the member's data; empty for a single-unit
    /// member.
    pub sector_offsets: Seq<u32>,
    /// Sector checksums, or empty when the member has none.
    pub sector_checksums: Seq<u32>,
    pub file_key: u32,
}

impl FileView {
    /// A sector-based member has its offsets, and its checksums (if any) match
    /// them one for one.
    pub open spec fn wf(self) -> bool {
        &&& (self.block.flags & FILE_SINGLE_UNIT == 0 ==> self.sector_offsets.len() >= 1)
        &&& (self.sector_checksums.len() == 0 || self.sector_checksums.len() + 1 == self.sector_offsets.len())
        &&& self.sector_offsets.len() <= 0x1_0000_0000
    }
}

/// The home bucket of a name: its bucket hash masked with the declared table
/// size less one (the size actually read when none is declared).
pub open spec fn home_bucket(a: ArchiveView, name: Seq<u8>) -> u32 {
    let declared = if a.header.hash_table_count == 0 {
        a.hash_table.len() as u32
    } else {
        a.header.hash_table_count
    };
    storm_hash(name, 0) & wrapping_sub(declared, 1)
}

/// What looking `name` up in `a` gives.
///
/// The hash table is probed circularly from the home bucket for an entry
/// carrying both check hashes of the name. Its block index keeps only the low
/// 28 bits (protectors stash flags above them); it must fall inside the block
/// table, and the block's packed data must fit in the input.
pub open spec fn spec_open_file(a: ArchiveView, name: &str) -> Result<FileView, MpqError> {
    let bytes = name.spec_bytes();
    if a.hash_table.len() == 0 {
        Err(MpqError::EmptyHashTable)
    } else {
        match first_match(
            a.hash_table,
            home_bucket(a, bytes) as int,
            storm_hash(bytes, 0x100),
            storm_hash(bytes, 0x200),
            0,
        ) {
            None => Err(MpqError::NotFound),
            Some(i) => spec_open_entry(a, name, a.hash_table[i]),
        }
    }
}

/// A lookup never reports a name missing while the hash table holds an entry
/// with both of its check hashes: at worst it finds that entry (or an earlier
/// one with the same checks) after wrapping past the end of the table.
pub proof fn lemma_lookup_does_not_hide_entries(a: ArchiveView, name: &str, k: int)
    requires
        0 <= k < a.hash_table.len(),
        a.hash_table[k].hash_a == storm_hash(name.spec_bytes(), 0x100),
        a.hash_table[k].hash_b == storm_hash(name.spec_bytes(), 0x200),
    ensures
        spec_open_file(a, name) != Err::<FileView, MpqError>(MpqError::NotFound),
{
    let bytes = name.spec_bytes();
    lemma_probe_wraps_around(
        a.hash_table,
        home_bucket(a, bytes) as int,
        storm_hash(bytes, 0x100),
        storm_hash(bytes, 0x200),
        k,
    );
    reveal(spec_open_entry);
}

/// What opening the member whose hash entry is `hash` gives.
#[verifier::opaque]
pub open spec fn spec_open_entry(a: ArchiveView, name: &str, hash: HashEntry) -> Result<FileView, MpqError> {
    let bytes = name.spec_bytes();
                let index = hash.block_index & BLOCK_INDEX_MASK;
                if index >= a.block_table.len() {
                    Err(MpqError::BlockIndexOutOfRange)
                } else {
                    let block = a.block_table[index as int];
                    if a.offset + block.offset + block.packed_size > a.data.len() {
                        Err(
                            MpqError::BlockOutsideArchive {
                                offset: block.offset,
                                packed_size: block.packed_size,
                                archive_size: a.data.len() as u64,
                            },
                        )
                    } else {
                        let key = spec_file_key(bytes, block);
                        match spec_sector_tables(a, block, key) {
                            Err(e) => Err(e),
                            Ok((sector_offsets, sector_checksums)) => Ok(
                                FileView {
                                    name: name@,
                                    hash,
                                    block,
                                    sector_offsets,
                                    sector_checksums,
                                    file_key: key,
                                },
                            ),
                        }
                    }
                }
}

/// A member of an archive, located by name.
#[derive(Debug)]
pub struct File {
    name: String,
    hash: HashEntry,
    block: Block,
    sector_offsets: Vec<u32>,
    sector_checksums: Vec<u32>,
    file_key: u32,
}

impl View for File {
    type V = FileView;

    closed spec fn view(&self) -> FileView {
        FileView {
            name: self.name@,
            hash: self.hash,
            block: self.block,
            sector_offsets: self.sector_offsets@,
            sector_checksums: self.sector_checksums@,
            file_key: self.file_key,
        }
    }
}

/// The little-endian words of `count * 4` bytes of `data` at `at`.
fn words_at(data: &[u8], at: usize, count: usize) -> (w: Vec<u32>)
    requires
        at + 4 * count <= data@.len(),
    ensures
        w@ == words_of(data@.subrange(at as int, at + 4 * count)),
{
    let ghost src = data@.subrange(at as int, at + 4 * count);
    let len = data.len();
    let mut w: Vec<u32> = Vec::new();
    let mut x: usize = 0;
    while x < count
        invariant
            at + 4 * count <= data@.len(),
            len == data@.len(),
            src == data@.subrange(at as int, at + 4 * count),
            x <= count,
            w@.len() == x,
            forall|i: int| 0 <= i < x ==> #[trigger] w@[i] == le_u32(src.subrange(4 * i, 4 * i + 4)),
        decreases count - x,
    {
        assert(at + 4 * x + 4 <= at + 4 * count);
        let p = at + 4 * x;
        let v = read_le_u32(&data[p..p + 4]);
        assert(data@.subrange(p as int, p + 4) =~= src.subrange(4 * x, 4 * x + 4));
        w.push(v);
        x += 1;
    }
    assert(w@ =~= words_of(src));
    w
}

/// Where the last path component of `s` starts.
fn basename_index(s: &[u8]) -> (i: usize)
    ensures
        i == basename_start(s@, s@.len() as int),
        i <= s@.len(),
{
    let mut i = s.len();
    while i > 0 && s[i - 1] != 92 && s[i - 1] != 47
        invariant
            i <= s@.len(),
            basename_start(s@, s@.len() as int) == basename_start(s@, i as int),
        decreases i,
    {
        i -= 1;
    }
    i
}

impl Archive {
    /// Look up a member by name.
    pub fn open_file(&mut self, filename: &str) -> (r: Result<File, MpqError>)
        requires
            old(self)@.wf(),
        ensures
            final(self)@ == old(self)@,
            match r {
                Ok(f) => spec_open_file(old(self)@, filename) == Ok::<FileView, MpqError>(f@) && f@.wf(),
                Err(e) => spec_open_file(old(self)@, filename) == Err::<FileView, MpqError>(e),
            },
    {
        proof {
            self.lemma_view();
            crate::mpq::archive::lemma_wf_bounds(self@);
        }
        if self.hash_table.len() == 0 {
            return Err(MpqError::EmptyHashTable);
        }
        let bytes = filename.as_bytes();
        let declared = if self.header.hash_table_count == 0 {
            self.hash_table.len() as u32
        } else {
            self.header.hash_table_count
        };
        let start_index = hash_bytes(bytes, 0) & declared.wrapping_sub(1);
        let hash_a = hash_bytes(bytes, 0x100);
        let hash_b = hash_bytes(bytes, 0x200);
        match self.find_slot(start_index, hash_a, hash_b) {
            Some(i) => {
                let hash = self.hash_table[i];
                self.open_entry(filename, hash)
            },
            None => Err(MpqError::NotFound),
        }
    }

    /// The slot `first_match` finds, probing from `start_index`.
    fn find_slot(&self, start_index: u32, hash_a: u32, hash_b: u32) -> (r: Option<usize>)
        requires
            self@.wf(),
        ensures
            match r {
                Some(i) => first_match(self@.hash_table, start_index as int, hash_a, hash_b, 0) == Some(i as int)
                    && i < self@.hash_table.len(),
                None => first_match(self@.hash_table, start_index as int, hash_a, hash_b, 0) is None,
            },
    {
        proof {
            self.lemma_view();
            crate::mpq::archive::lemma_wf_bounds(self@);
        }
        let ghost t = self.hash_table@;
        let table_len = self.hash_table.len();
        let mut probe: usize = 0;
        while probe < table_len
            invariant
                t == self.hash_table@,
                t == self@.hash_table,
                table_len == t.len(),
                table_len <= u32::MAX,
                probe <= table_len,
                first_match(t, start_index as int, hash_a, hash_b, 0) == first_match(
                    t,
                    start_index as int,
                    hash_a,
                    hash_b,
                    probe as int,
                ),
            decreases table_len - probe,
        {
            let i = ((start_index as u64 + probe as u64) % table_len as u64) as usize;
            assert(i == (start_index as int + probe as int) % (t.len() as int));
            let hash = self.hash_table[i];
            if hash.hash_a == hash_a && hash.hash_b == hash_b {
                assert(t[i as int] == hash);
                assert(first_match(t, start_index as int, hash_a, hash_b, probe as int) == Some(i as int));
                return Some(i);
            }
            probe += 1;
        }
        None
    }


    fn open_entry(&self, filename: &str, hash: HashEntry) -> (r: Result<File, MpqError>)
        requires
            self@.wf(),
        ensures
            match r {
                Ok(f) => f@.wf() && spec_open_entry(self@, filename, hash) == Ok::<FileView, MpqError>(f@),
                Err(e) => spec_open_entry(self@, filename, hash) == Err::<FileView, MpqError>(e),
            },
    {
        proof {
            self.lemma_view();
            crate::mpq::archive::lemma_wf_bounds(self@);
            reveal(spec_open_entry);
        }
        let index = (hash.block_index & BLOCK_INDEX_MASK) as usize;
        if index >= self.block_table.len() {
            return Err(MpqError::BlockIndexOutOfRange);
        }
        let block = self.block_table[index];
        let total = self.data.len() as u64;
        if self.offset + block.offset as u64 + block.packed_size as u64 > total {
            return Err(
                MpqError::BlockOutsideArchive {
                    offset: block.offset,
                    packed_size: block.packed_size,
                    archive_size: total,
                },
            );
        }
        let bytes = filename.as_bytes();
        let mut file_key: u32 = 0;
        if block.flags & FILE_ENCRYPTED != 0 {
            let start = basename_index(bytes);
            let base = &bytes[start..bytes.len()];
            assert(base@ == basename(bytes@));
            file_key = hash_bytes(base, 0x300);
            if block.flags & FILE_FIX_KEY != 0 {
                file_key = file_key.wrapping_add(block.offset) ^ block.unpacked_size;
            }
        }
        let (sector_offsets, sector_checksums) = match self.read_sector_tables(block, file_key) {
            Ok(t) => t,
            Err(e) => return Err(e),
        };
        let name = String::from_str(filename);
        Ok(File { name, hash, block, sector_offsets, sector_checksums, file_key })
    }

    fn read_sector_tables(&self, block: Block, key: u32) -> (r: Result<(Vec<u32>, Vec<u32>), MpqError>)
        requires
            self@.wf(),
        ensures
            match r {
                Ok((o, c)) => spec_sector_tables(self@, block, key) == Ok::<(Seq<u32>, Seq<u32>), MpqError>(
                    (o@, c@),
                ) && (block.flags & FILE_SINGLE_UNIT == 0 ==> o@.len() >= 1) && (c@.len() == 0 || c@.len() + 1
                    == o@.len()) && o@.len() <= 0x1_0000_0000,
                Err(e) => spec_sector_tables(self@, block, key) == Err::<(Seq<u32>, Seq<u32>), MpqError>(e),
            },
    {
        proof {
            self.lemma_view();
            crate::mpq::archive::lemma_wf_bounds(self@);
        }
        if block.flags & FILE_SINGLE_UNIT != 0 {
            return Ok((Vec::new(), Vec::new()));
        }
        if block.unpacked_size == 0 || self.sector_size == 0 {
            return Err(MpqError::Truncated);
        }
        let n = (block.unpacked_size - 1) / self.sector_size + 1;
        let total = self.data.len() as u64;
        let pos = block.offset as u64 + self.offset;
        let len = (n as u64 + 1) * 4;
        if pos + len > total {
            return Err(MpqError::Truncated);
        }
        let p = pos as usize;
        let l = len as usize;
        let mut table = vstd::slice::slice_to_vec(&self.data.as_slice()[p..p + l]);
        if block.flags & FILE_ENCRYPTED != 0 {
            decrypt(&mut table, key.wrapping_sub(1));
        }
        proof {
            crate::mpq::crypt::lemma_cipher_keeps_length(self.data@.subrange(p as int, p + l), key.wrapping_sub(1));
        }
        let offsets = words_at(table.as_slice(), 0, n as usize + 1);
        assert(table@.subrange(0, 4 * (n + 1)) =~= table@);
        if block.flags & FILE_COMPRESS != 0 && block.flags & FILE_SECTOR_CRC != 0 {
            if pos + len + 4 > total {
                return Err(MpqError::Truncated);
            }
            let last = read_le_u32(&self.data.as_slice()[p + l..p + l + 4]);
            let checksum_offset = offsets[n as usize];
            if last.wrapping_sub(checksum_offset) as u64 == 4 * (n as u64) {
                let at = block.offset as u64 + checksum_offset as u64;
                if at + 4 * (n as u64) > total {
                    return Err(MpqError::Truncated);
                }
                let checksums = words_at(self.data.as_slice(), at as usize, n as usize);
                return Ok((offsets, checksums));
            }
        }
        Ok((offsets, Vec::new()))
    }
}

/// `out` with `v` written over it from `at` on.
pub open spec fn splice(out: Seq<u8>, at: int, v: Seq<u8>) -> Seq<u8> {
    out.subrange(0, at) + v + out.skip(at + v.len())
}

/// Reading sector `i` of a member into `out`, of which `read` bytes are
/// already filled.
///
/// The sector's offsets must rise, and it may be no larger than a sector; its
/// bytes are decrypted with the member key plus `i`, checked against a nonzero
/// checksum, and then — for a compressed (or imploded) member — copied as they
/// are when the sector is a full sector or exactly fills the rest of the
/// output, and inflated otherwise.
pub open spec fn sector_step(f: FileView, a: ArchiveView, out: Seq<u8>, read: nat, i: int) -> Result<
    (Seq<u8>, nat),
    MpqError,
> {
    let from = f.sector_offsets[i];
    let to = f.sector_offsets[i + 1];
    if to < from {
        Err(MpqError::SectorOffsetsNotMonotonic)
    } else if to - from > a.sector_size || read > out.len() {
        Err(MpqError::SectorTooLarge)
    } else {
        let size = to - from;
        let pos = f.block.offset + from + a.offset;
        if pos + size > a.data.len() {
            Err(MpqError::Truncated)
        } else {
            let raw = a.data.subrange(pos, pos + size);
            let sector = if f.block.flags & FILE_ENCRYPTED != 0 {
                decrypted(raw, wrapping_add(f.file_key, i as u32))
            } else {
                raw
            };
            let room = out.len() - read;
            if f.sector_checksums.len() > 0 && f.sector_checksums[i] != 0 && f.sector_checksums[i] != sector_adler(
                sector,
            ) {
                Err(MpqError::SectorChecksum)
            } else if f.block.flags & FILE_COMPRESS == 0 && f.block.flags & FILE_IMPLODE == 0 {
                Ok((out, read))
            } else if size == a.sector_size || size == room {
                let c = if size < room {
                    size
                } else {
                    room
                };
                Ok((splice(out, read as int, sector.take(c)), (read + c) as nat))
            } else if f.block.flags & FILE_COMPRESS != 0 {
                match spec_decompress(sector, room as u64) {
                    Err(e) => Err(e),
                    Ok(v) => Ok((splice(out, read as int, v), read + v.len())),
                }
            } else {
                Err(MpqError::ImplodeUnsupported)
            }
        }
    }
}

/// The first `k` sectors of a member read into `out`: the output and the
/// number of bytes written, or the first error.
pub open spec fn sector_fold(f: FileView, a: ArchiveView, out: Seq<u8>, k: nat) -> Result<(Seq<u8>, nat), MpqError>
    decreases k,
{
    if k == 0 {
        Ok((out, 0))
    } else {
        match sector_fold(f, a, out, (k - 1) as nat) {
            Err(e) => Err(e),
            Ok((o, r)) => sector_step(f, a, o, r, k - 1),
        }
    }
}

/// What a failed read leaves in the output `out` became `b`: a read that
/// fails before its sectors are inflated one by one writes nothing, and one
/// that fails at a sector keeps what the sectors before it wrote.
pub open spec fn spec_read_leaves(f: FileView, a: ArchiveView, out: Seq<u8>, b: Seq<u8>) -> bool {
    let flags = f.block.flags;
    if flags & FILE_PATCH_FILE != 0 || flags & FILE_SINGLE_UNIT != 0 || flags & FILE_COMPRESS_MASK == 0 {
        b == out
    } else {
        exists|i: nat|
            i + 1 < f.sector_offsets.len() && #[trigger] sector_fold(f, a, out, i) is Ok && sector_fold(f, a, out, i)->Ok_0.0
                == b && sector_fold(f, a, out, i + 1) is Err
    }
}

/// What reading a member into `out` gives: the output and the count the read
/// reports.
///
/// A single-unit member is read whole (decrypted if need be); it is inflated
/// when compressed into a larger output, and otherwise copied as far as it
/// fits, the count then being its unpacked size. A sector-based member with no
/// compression fills the output from its data; otherwise its sectors are read
/// in order (see [`sector_step`]).
pub open spec fn spec_read(f: FileView, a: ArchiveView, out: Seq<u8>) -> Result<(Seq<u8>, nat), MpqError> {
    let flags = f.block.flags;
    if flags & FILE_PATCH_FILE != 0 {
        Err(MpqError::PatchFile)
    } else if flags & FILE_SINGLE_UNIT != 0 {
        let pos = f.block.offset + a.offset;
        let len = f.block.packed_size;
        if pos + len > a.data.len() {
            Err(MpqError::Truncated)
        } else {
            let raw = a.data.subrange(pos, pos + len);
            let unit = if flags & FILE_ENCRYPTED != 0 {
                decrypted(raw, f.file_key)
            } else {
                raw
            };
            if flags & FILE_COMPRESS != 0 && out.len() > unit.len() {
                match spec_decompress(unit, out.len() as u64) {
                    Err(e) => Err(e),
                    Ok(v) => Ok((splice(out, 0, v), v.len())),
                }
            } else if flags & FILE_IMPLODE != 0 {
                Err(MpqError::ImplodeUnsupported)
            } else {
                let c = if out.len() < unit.len() {
                    out.len()
                } else {
                    unit.len()
                };
                Ok((splice(out, 0, unit.take(c as int)), f.block.unpacked_size as nat))
            }
        }
    } else if flags & FILE_COMPRESS_MASK == 0 {
        let pos = f.block.offset + a.offset;
        if pos + out.len() > a.data.len() {
            Err(MpqError::Truncated)
        } else {
            Ok((a.data.subrange(pos, pos + out.len()), out.len()))
        }
    } else {
        sector_fold(f, a, out, (f.sector_offsets.len() - 1) as nat)
    }
}

proof fn lemma_fold_error_sticks(f: FileView, a: ArchiveView, out: Seq<u8>, k: nat, j: nat)
    requires
        k <= j,
        sector_fold(f, a, out, k) is Err,
    ensures
        sector_fold(f, a, out, j) == sector_fold(f, a, out, k),
    decreases j - k,
{
    if k < j {
        lemma_fold_error_sticks(f, a, out, k, (j - 1) as nat);
    }
}

/// Write `v` into `buf` from `at` on.
fn write_at(buf: &mut [u8], at: usize, v: &[u8])
    requires
        at + v@.len() <= old(buf)@.len(),
    ensures
        final(buf)@ == splice(old(buf)@, at as int, v@),
{
    let ghost start = buf@;
    let n = buf.len();
    let mut j: usize = 0;
    while j < v.len()
        invariant
            n == start.len(),
            buf@.len() == start.len(),
            at + v@.len() <= start.len(),
            j <= v@.len(),
            buf@ == splice(start, at as int, v@.take(j as int)),
        decreases v@.len() - j,
    {
        buf.set(at + j, v[j]);
        proof {
            assert(buf@ =~= splice(start, at as int, v@.take(j + 1)));
        }
        j += 1;
    }
    assert(v@.take(j as int) =~= v@);
}

impl File {
    /// Uncompressed size of the member.
    pub fn size(&self) -> (s: u32)
        ensures
            s == self@.block.unpacked_size,
    {
        self.block.unpacked_size
    }

    /// Bytes the member occupies inside the archive.
    pub fn packed_size(&self) -> (s: u32)
        ensures
            s == self@.block.packed_size,
    {
        self.block.packed_size
    }

    /// Read the member's data into `buf`, returning the count of bytes read.
    pub fn read(&self, archive: &mut Archive, buf: &mut [u8]) -> (r: Result<usize, MpqError>)
        requires
            self@.wf(),
            old(archive)@.wf(),
        ensures
            final(archive)@ == old(archive)@,
            final(buf)@.len() == old(buf)@.len(),
            match r {
                Ok(n) => spec_read(self@, old(archive)@, old(buf)@) == Ok::<(Seq<u8>, nat), MpqError>(
                    (final(buf)@, n as nat),
                ),
                Err(e) => spec_read(self@, old(archive)@, old(buf)@) == Err::<(Seq<u8>, nat), MpqError>(e)
                    && spec_read_leaves(self@, old(archive)@, old(buf)@, final(buf)@),
            },
    {
        if self.block.flags & FILE_PATCH_FILE != 0 {
            Err(MpqError::PatchFile)
        } else if self.block.flags & FILE_SINGLE_UNIT != 0 {
            self.read_single_unit_file(archive, buf)
        } else {
            self.read_sector_file(archive, buf)
        }
    }

    fn read_single_unit_file(&self, archive: &Archive, buf: &mut [u8]) -> (r: Result<usize, MpqError>)
        requires
            archive@.wf(),
            self@.block.flags & FILE_PATCH_FILE == 0,
            self@.block.flags & FILE_SINGLE_UNIT != 0,
        ensures
            final(buf)@.len() == old(buf)@.len(),
            r is Err ==> final(buf)@ == old(buf)@,
            match r {
                Ok(n) => spec_read(self@, archive@, old(buf)@) == Ok::<(Seq<u8>, nat), MpqError>(
                    (final(buf)@, n as nat),
                ),
                Err(e) => spec_read(self@, archive@, old(buf)@) == Err::<(Seq<u8>, nat), MpqError>(e),
            },
    {
        proof {
            archive.lemma_view();
            crate::mpq::archive::lemma_wf_bounds(archive@);
        }
        let total = archive.data.len() as u64;
        let pos = self.block.offset as u64 + archive.offset;
        if pos > total || total - pos < self.block.packed_size as u64 {
            return Err(MpqError::Truncated);
        }
        let p = pos as usize;
        let len = self.block.packed_size as usize;
        let mut unit = vstd::slice::slice_to_vec(&archive.data.as_slice()[p..p + len]);
        if self.block.flags & FILE_ENCRYPTED != 0 {
            decrypt(&mut unit, self.file_key);
        }
        proof {
            crate::mpq::crypt::lemma_cipher_keeps_length(archive.data@.subrange(p as int, p + len), self.file_key);
        }
        if self.block.flags & FILE_COMPRESS != 0 && buf.len() > unit.len() {
            match decompress(unit.as_slice(), buf.len() as u64) {
                Err(e) => Err(e),
                Ok(v) => {
                    write_at(buf, 0, v.as_slice());
                    Ok(v.len())
                },
            }
        } else if self.block.flags & FILE_IMPLODE != 0 {
            Err(MpqError::ImplodeUnsupported)
        } else {
            let c = if buf.len() < unit.len() {
                buf.len()
            } else {
                unit.len()
            };
            write_at(buf, 0, &unit.as_slice()[0..c]);
            Ok(self.block.unpacked_size as usize)
        }
    }

    fn read_sector_file(&self, archive: &Archive, buf: &mut [u8]) -> (r: Result<usize, MpqError>)
        requires
            archive@.wf(),
            self@.wf(),
            self@.block.flags & FILE_PATCH_FILE == 0,
            self@.block.flags & FILE_SINGLE_UNIT == 0,
        ensures
            final(buf)@.len() == old(buf)@.len(),
            match r {
                Ok(n) => spec_read(self@, archive@, old(buf)@) == Ok::<(Seq<u8>, nat), MpqError>(
                    (final(buf)@, n as nat),
                ),
                Err(e) => spec_read(self@, archive@, old(buf)@) == Err::<(Seq<u8>, nat), MpqError>(e)
                    && spec_read_leaves(self@, archive@, old(buf)@, final(buf)@),
            },
    {
        proof {
            archive.lemma_view();
            crate::mpq::archive::lemma_wf_bounds(archive@);
        }
        if self.block.flags & FILE_COMPRESS_MASK == 0 {
            let total = archive.data.len() as u64;
            let pos = self.block.offset as u64 + archive.offset;
            if pos > total || total - pos < buf.len() as u64 {
                return Err(MpqError::Truncated);
            }
            let p = pos as usize;
            write_at(buf, 0, &archive.data.as_slice()[p..p + buf.len()]);
            proof {
                assert(buf@ =~= archive@.data.subrange(p as int, p + buf@.len()));
            }
            return Ok(buf.len());
        }
        let ghost start = buf@;
        let count = self.sector_offsets.len() - 1;
        let mut read: usize = 0;
        let mut i: usize = 0;
        while i < count
            invariant
                self@.wf(),
                archive@.wf(),
                count == self@.sector_offsets.len() - 1,
                i <= count,
                self@.block.flags & FILE_PATCH_FILE == 0,
                self@.block.flags & FILE_SINGLE_UNIT == 0,
                self@.block.flags & FILE_COMPRESS_MASK != 0,
                start == old(buf)@,
                buf@.len() == start.len(),
                sector_fold(self@, archive@, start, i as nat) == Ok::<(Seq<u8>, nat), MpqError>((buf@, read as nat)),
            decreases count - i,
        {
            let ghost before = buf@;
            match self.read_sector(archive, buf, read, i) {
                Ok(n) => {
                    read = n;
                },
                Err(e) => {
                    proof {
                        assert(sector_fold(self@, archive@, start, (i + 1) as nat) == sector_step(
                            self@,
                            archive@,
                            before,
                            read as nat,
                            i as int,
                        ));
                        lemma_fold_error_sticks(self@, archive@, start, (i + 1) as nat, count as nat);
                        assert(sector_fold(self@, archive@, start, i as nat) == Ok::<(Seq<u8>, nat), MpqError>(
                            (buf@, read as nat),
                        ));
                    }
                    return Err(e);
                },
            }
            i += 1;
        }
        Ok(read)
    }

    fn read_sector(&self, archive: &Archive, buf: &mut [u8], read: usize, i: usize) -> (r: Result<usize, MpqError>)
        requires
            archive@.wf(),
            self@.wf(),
            i + 1 < self@.sector_offsets.len(),
        ensures
            final(buf)@.len() == old(buf)@.len(),
            r is Err ==> final(buf)@ == old(buf)@,
            match r {
                Ok(n) => sector_step(self@, archive@, old(buf)@, read as nat, i as int) == Ok::<
                    (Seq<u8>, nat),
                    MpqError,
                >((final(buf)@, n as nat)),
                Err(e) => sector_step(self@, archive@, old(buf)@, read as nat, i as int) == Err::<
                    (Seq<u8>, nat),
                    MpqError,
                >(e),
            },
    {
        proof {
            archive.lemma_view();
            crate::mpq::archive::lemma_wf_bounds(archive@);
        }
        let from = self.sector_offsets[i];
        let to = self.sector_offsets[i + 1];
        if to < from {
            return Err(MpqError::SectorOffsetsNotMonotonic);
        }
        let size = to - from;
        if size > archive.sector_size || read > buf.len() {
            return Err(MpqError::SectorTooLarge);
        }
        let total = archive.data.len() as u64;
        let pos = self.block.offset as u64 + from as u64 + archive.offset;
        if pos > total || total - pos < size as u64 {
            return Err(MpqError::Truncated);
        }
        let p = pos as usize;
        let s = size as usize;
        let mut sector = vstd::slice::slice_to_vec(&archive.data.as_slice()[p..p + s]);
        if self.block.flags & FILE_ENCRYPTED != 0 {
            decrypt(&mut sector, self.file_key.wrapping_add(i as u32));
        }
        proof {
            crate::mpq::crypt::lemma_cipher_keeps_length(
                archive.data@.subrange(p as int, p + s),
                self.file_key.wrapping_add(i as u32),
            );
        }
        if self.sector_checksums.len() > 0 && self.sector_checksums[i] != 0 {
            if self.sector_checksums[i] != adler32_from_zero(sector.as_slice()) {
                return Err(MpqError::SectorChecksum);
            }
        }
        if self.block.flags & FILE_COMPRESS == 0 && self.block.flags & FILE_IMPLODE == 0 {
            return Ok(read);
        }
        let room = buf.len() - read;
        if size == archive.sector_size || s == room {
            let c = if s < room {
                s
            } else {
                room
            };
            write_at(buf, read, &sector.as_slice()[0..c]);
            Ok(read + c)
        } else if self.block.flags & FILE_COMPRESS != 0 {
            match decompress(sector.as_slice(), room as u64) {
                Err(e) => Err(e),
                Ok(v) => {
                    write_at(buf, read, v.as_slice());
                    Ok(read + v.len())
                },
            }
        } else {
            Err(MpqError::ImplodeUnsupported)
        }
    }
}

} // verus!

use vstd::prelude::*;

verus! {

/// What went wrong while reading an MPQ archive.
#[derive(Debug, Clone, Copy, PartialEq, Eq, Structural)]
pub enum MpqError {
    /// No offset in the header search holds an acceptable archive header.
    NoHeader,
    /// The hash table starts at or past the end of the data.
    HashTableOutside,
    /// The archive has no hash table entries to look a name up in.
    EmptyHashTable,
    /// No hash table entry carries the name.
    NotFound,
    /// The name's hash entry points past the end of the block table.
    BlockIndexOutOfRange,
    /// The name's block entry describes data that does not fit in the archive.
    BlockOutsideArchive {
        /// Offset of the data, relative to the archive header.
        offset: u32,
        /// Bytes the data occupies.
        packed_size: u32,
        /// Length of the whole input.
        archive_size: u64,
    },
    /// A read ran past the end of the data, or a sector-based member has no
    /// sectors to read.
    Truncated,
    /// Patch files are not supported.
    PatchFile,
    /// A member's sector offsets decrease.
    SectorOffsetsNotMonotonic,
    /// A sector claims more bytes than the archive's sector size, or the output
    /// has been overrun.
    SectorTooLarge,
    /// A sector's checksum does not match its bytes.
    SectorChecksum,
    /// The archive's sector size is zero.
    ZeroSectorSize,
    /// A compressed sector carries a compression method other than zlib.
    UnsupportedCompression(u8),
    /// A sector is stored with the PKWARE implode method, which is not supported.
    ImplodeUnsupported,
    /// A zlib stream could not be inflated.
    Decompression,
}

/// Errors produced while parsing map files.
#[derive(Debug)]
pub enum Error {
    /// The input ended before a field could be fully read.
    UnexpectedEof {
        /// Byte offset where the read started.
        offset: usize,
        /// Number of bytes that were still required.
        needed: usize,
    },
    /// A file was not found inside the MPQ archive.
    FileNotFound(String),
    /// The MPQ archive could not be read.
    Archive(MpqError),
    /// A buffer could not be decoded as any supported image format.
    UnsupportedImage(String),
    /// An image could not be encoded as PNG.
    ImageEncoding(String),
}

} // verus!

verus! {

/// The decimal digits of `n`.
pub open spec fn decimal_digits(n: nat) -> Seq<char>
    decreases n,
{
    if n < 10 {
        seq![(n + 48) as char]
    } else {
        decimal_digits(n / 10).push(((n % 10) + 48) as char)
    }
}

/// `n` written in decimal.
pub fn decimal(n: u64) -> (s: String)
    ensures
        s@ == decimal_digits(n as nat),
{
    let mut m = n;
    let mut rest: Vec<char> = Vec::new();
    // Collect digits least significant first, then reverse them.
    loop
        invariant
            decimal_digits(n as nat) == decimal_digits(m as nat) + rest@,
        decreases m,
    {
        let d = (m % 10) as u8;
        let c = digit_char(d);
        if m < 10 {
            let mut out: Vec<char> = Vec::new();
            out.push(c);
            let ghost head = out@;
            out.append(&mut rest);
            proof {
                assert(decimal_digits(m as nat) =~= head);
            }
            return crate::text::string_from_chars(out.as_slice());
        }
        let ghost before = rest@;
        let mut one: Vec<char> = Vec::new();
        one.push(c);
        one.append(&mut rest);
        rest = one;
        proof {
            assert(decimal_digits(m as nat) == decimal_digits((m / 10) as nat).push(c));
            assert(decimal_digits((m / 10) as nat) + rest@ =~= decimal_digits((m / 10) as nat).push(c) + before);
        }
        m = m / 10;
    }
}

fn digit_char(d: u8) -> (c: char)
    requires
        d < 10,
    ensures
        c == (d + 48) as char,
{
    match d {
        0 => '0',
        1 => '1',
        2 => '2',
        3 => '3',
        4 => '4',
        5 => '5',
        6 => '6',
        7 => '7',
        8 => '8',
        _ => '9',
    }
}

/// The message of an archive error.
pub open spec fn mpq_error_text(e: MpqError) -> Seq<char> {
    match e {
        MpqError::NoHeader => "no MPQ header with in-archive tables"@,
        MpqError::HashTableOutside => "MPQ hash table lies outside the archive"@,
        MpqError::EmptyHashTable => "empty MPQ hash table"@,
        MpqError::NotFound => "file not found in archive"@,
        MpqError::BlockIndexOutOfRange => "MPQ hash entry points outside the block table"@,
        MpqError::BlockOutsideArchive { offset, packed_size, archive_size } => "MPQ block entry lies outside the archive (offset "@
            + decimal_digits(offset as nat) + ", packed "@ + decimal_digits(packed_size as nat) + " bytes, archive "@
            + decimal_digits(archive_size as nat) + " bytes)"@,
        MpqError::Truncated => "failed to fill whole buffer"@,
        MpqError::PatchFile => "Patch file not supported"@,
        MpqError::SectorOffsetsNotMonotonic => "MPQ sector offsets are not monotonic"@,
        MpqError::SectorTooLarge => "MPQ sector exceeds the declared sector size"@,
        MpqError::SectorChecksum => "Sector checksum error"@,
        MpqError::ZeroSectorSize => "MPQ sector size is zero"@,
        MpqError::UnsupportedCompression(m) => "unsupported compression method "@ + decimal_digits(m as nat),
        MpqError::ImplodeUnsupported => "PKWARE implode is not supported"@,
        MpqError::Decompression => "corrupt zlib stream"@,
    }
}

/// The message of an error.
pub open spec fn error_text(e: Error) -> Seq<char> {
    match e {
        Error::UnexpectedEof { offset, needed } => "unexpected end of data at offset "@ + decimal_digits(
            offset as nat,
        ) + " (needed "@ + decimal_digits(needed as nat) + " more byte(s))"@,
        Error::FileNotFound(name) => "file `"@ + name@ + "` not found in archive"@,
        Error::Archive(m) => mpq_error_text(m),
        Error::UnsupportedImage(name) => "failed to decode `"@ + name@ + "` as BLP or TGA"@,
        Error::ImageEncoding(name) => "failed to encode `"@ + name@ + "` as PNG"@,
    }
}

impl MpqError {
    /// What went wrong, in words.
    pub fn message(&self) -> (s: String)
        ensures
            s@ == mpq_error_text(*self),
    {
        match self {
            MpqError::NoHeader => String::from_str("no MPQ header with in-archive tables"),
            MpqError::HashTableOutside => String::from_str("MPQ hash table lies outside the archive"),
            MpqError::EmptyHashTable => String::from_str("empty MPQ hash table"),
            MpqError::NotFound => String::from_str("file not found in archive"),
            MpqError::BlockIndexOutOfRange => String::from_str("MPQ hash entry points outside the block table"),
            MpqError::BlockOutsideArchive { offset, packed_size, archive_size } => {
                let mut s = String::from_str("MPQ block entry lies outside the archive (offset ");
                s.append(decimal(*offset as u64).as_str());
                s.append(", packed ");
                s.append(decimal(*packed_size as u64).as_str());
                s.append(" bytes, archive ");
                s.append(decimal(*archive_size).as_str());
                s.append(" bytes)");
                s
            },
            MpqError::Truncated => String::from_str("failed to fill whole buffer"),
            MpqError::PatchFile => String::from_str("Patch file not supported"),
            MpqError::SectorOffsetsNotMonotonic => String::from_str("MPQ sector offsets are not monotonic"),
            MpqError::SectorTooLarge => String::from_str("MPQ sector exceeds the declared sector size"),
            MpqError::SectorChecksum => String::from_str("Sector checksum error"),
            MpqError::ZeroSectorSize => String::from_str("MPQ sector size is zero"),
            MpqError::UnsupportedCompression(m) => {
                let mut s = String::from_str("unsupported compression method ");
                s.append(decimal(*m as u64).as_str());
                s
            },
            MpqError::ImplodeUnsupported => String::from_str("PKWARE implode is not supported"),
            MpqError::Decompression => String::from_str("corrupt zlib stream"),
        }
    }
}

impl Error {
    /// What went wrong, in words.
    pub fn message(&self) -> (s: String)
        ensures
            s@ == error_text(*self),
    {
        match self {
            Error::UnexpectedEof { offset, needed } => {
                let mut s = String::from_str("unexpected end of data at offset ");
                s.append(decimal(*offset as u64).as_str());
                s.append(" (needed ");
                s.append(decimal(*needed as u64).as_str());
                s.append(" more byte(s))");
                s
            },
            Error::FileNotFound(name) => {
                let mut s = String::from_str("file `");
                s.append(name.as_str());
                s.append("` not found in archive");
                s
            },
            Error::Archive(m) => m.message(),
            Error::UnsupportedImage(name) => {
                let mut s = String::from_str("failed to decode `");
                s.append(name.as_str());
                s.append("` as BLP or TGA");
                s
            },
            Error::ImageEncoding(name) => {
                let mut s = String::from_str("failed to encode `");
                s.append(name.as_str());
                s.append("` as PNG");
                s
            },
        }
    }
}

} // verus!

use flate2::write::ZlibEncoder;
use flate2::Compression;
use std::io::Write;
use war3parser::error::MpqError;
use war3parser::mpq::archive::{Archive, FILE_SINGLE_UNIT};
use war3parser::mpq::carve::{carve_sectors, inflate_sector_chain};
use war3parser::mpq::compression::{decompress, MASK_ZLIB};
use war3parser::mpq::crypt::{decrypt, encrypt, hash_string};
use war3parser::mpq::salvage::MAX_MEMBERS;

fn header(header_size: u32, hash_pos: u32) -> [u8; 32] {
    let mut buf = [0u8; 32];
    buf[0..4].copy_from_slice(b"MPQ\x1a");
    buf[4..8].copy_from_slice(&header_size.to_le_bytes());
    buf[14..16].copy_from_slice(&3u16.to_le_bytes());
    buf[16..20].copy_from_slice(&hash_pos.to_le_bytes());
    buf[20..24].copy_from_slice(&hash_pos.to_le_bytes());
    buf
}

#[test]
fn storm_skips_a_header_smaller_than_0x20() {
    let mut archive = vec![0u8; 0x400];
    archive[0..32].copy_from_slice(&header(0x10, 0x20));
    archive[0x200..0x220].copy_from_slice(&header(0x20, 0x20));

    let opened = Archive::load(archive).expect("second header should be accepted");
    assert_eq!(opened.offset(), 0x200);
}

#[test]
fn storm_accepts_a_huge_header_size() {
    let mut archive = vec![0u8; 0x400];
    archive[0x200..0x220].copy_from_slice(&header(1_347_385_430, 0x20));

    let opened = Archive::load(archive).expect("Spazzler-sized header is still a header");
    assert_eq!(opened.offset(), 0x200);
}

#[test]
fn stormlib_skips_a_header_whose_tables_sit_past_eof() {
    let mut archive = vec![0u8; 0x400];
    archive[0..32].copy_from_slice(&header(0x20, 0x10000));
    archive[0x200..0x220].copy_from_slice(&header(0x20, 0x20));

    let opened = Archive::load(archive).expect("decoy with out-of-range tables is skipped");
    assert_eq!(opened.offset(), 0x200);
}

#[test]
fn wrapped_table_offsets_are_not_fake_headers() {
    // offset 0x200 + 0xFFFF_FF00 wraps to 0x100, which is inside a 0x400 file.
    let mut archive = vec![0u8; 0x400];
    archive[0x200..0x220].copy_from_slice(&header(0x20, 0xFFFF_FF00));

    let opened = Archive::load(archive).expect("32-bit wrap back into the file is valid");
    assert_eq!(opened.offset(), 0x200);
}

#[test]
fn stormlib_masks_high_bits_of_the_block_index() {
    let name = "war3map.w3i";
    let hash_count = 4u32;
    let home = hash_string(name, 0x0) & (hash_count - 1);
    let mut hash_raw = vec![0u8; 4 * 16];
    let slot = (home as usize) * 16;
    hash_raw[slot..slot + 4].copy_from_slice(&hash_string(name, 0x100).to_le_bytes());
    hash_raw[slot + 4..slot + 8].copy_from_slice(&hash_string(name, 0x200).to_le_bytes());
    hash_raw[slot + 12..slot + 16].copy_from_slice(&0x8000_0000u32.to_le_bytes());
    encrypt(&mut hash_raw, hash_string("(hash table)", 0x300));

    let mut block_raw = vec![0u8; 16];
    block_raw[0..4].copy_from_slice(&0x70u32.to_le_bytes());
    block_raw[4..8].copy_from_slice(&4u32.to_le_bytes());
    block_raw[8..12].copy_from_slice(&4u32.to_le_bytes());
    block_raw[12..16].copy_from_slice(&FILE_SINGLE_UNIT.to_le_bytes());
    encrypt(&mut block_raw, hash_string("(block table)", 0x300));

    let mut archive = vec![0u8; 0x80];
    let mut hdr = header(0x20, 0x20);
    hdr[20..24].copy_from_slice(&0x60u32.to_le_bytes());
    hdr[24..28].copy_from_slice(&hash_count.to_le_bytes());
    hdr[28..32].copy_from_slice(&1u32.to_le_bytes());
    archive[0..32].copy_from_slice(&hdr);
    archive[0x20..0x60].copy_from_slice(&hash_raw);
    archive[0x60..0x70].copy_from_slice(&block_raw);
    archive[0x70..0x74].copy_from_slice(&[1, 2, 3, 4]);

    let mut opened = Archive::load(archive).expect("archive with masked block index");
    let file = opened.open_file(name).expect("0x80000000 block index must resolve to 0");
    assert_eq!(file.size(), 4);
}

/// Build a one-member archive: 32-byte header, one zlib member, then tables.
fn archive_with_member(payload: &[u8], wreck_tables: bool) -> Vec<u8> {
    let sector_size: usize = 4096;
    let sectors: Vec<&[u8]> = payload.chunks(sector_size).collect();

    let mut bodies: Vec<Vec<u8>> = Vec::new();
    for sector in &sectors {
        let mut enc = ZlibEncoder::new(Vec::new(), Compression::default());
        enc.write_all(sector).unwrap();
        let mut body = vec![0x02u8];
        body.extend_from_slice(&enc.finish().unwrap());
        bodies.push(body);
    }

    let table_len = (sectors.len() + 1) * 4;
    let mut member: Vec<u8> = Vec::new();
    let mut at = table_len as u32;
    member.extend_from_slice(&at.to_le_bytes());
    for body in &bodies {
        at += body.len() as u32;
        member.extend_from_slice(&at.to_le_bytes());
    }
    for body in &bodies {
        member.extend_from_slice(body);
    }
    let packed = member.len() as u32;

    let hash_pos = 0x20 + packed;
    let block_pos = hash_pos + 16;

    let mut hash_raw = vec![0u8; 16];
    let name = "war3map.w3i";
    hash_raw[0..4].copy_from_slice(&hash_string(name, 0x100).to_le_bytes());
    hash_raw[4..8].copy_from_slice(&hash_string(name, 0x200).to_le_bytes());
    hash_raw[12..16].copy_from_slice(&0u32.to_le_bytes());
    encrypt(&mut hash_raw, hash_string("(hash table)", 0x300));

    let mut block_raw = vec![0u8; 16];
    block_raw[0..4].copy_from_slice(&0x20u32.to_le_bytes());
    block_raw[4..8].copy_from_slice(&packed.to_le_bytes());
    block_raw[8..12].copy_from_slice(&(payload.len() as u32).to_le_bytes());
    block_raw[12..16].copy_from_slice(&0x8000_0200u32.to_le_bytes());
    encrypt(&mut block_raw, hash_string("(block table)", 0x300));

    if wreck_tables {
        for (i, byte) in hash_raw.iter_mut().enumerate() {
            *byte = (i as u8).wrapping_mul(31).wrapping_add(7);
        }
        for (i, byte) in block_raw.iter_mut().enumerate() {
            *byte = (i as u8).wrapping_mul(17).wrapping_add(3);
        }
    }

    let mut out: Vec<u8> = Vec::new();
    out.extend_from_slice(b"MPQ\x1a");
    out.extend_from_slice(&0x20u32.to_le_bytes());
    out.extend_from_slice(&(block_pos + 16).to_le_bytes());
    out.extend_from_slice(&0u16.to_le_bytes());
    out.extend_from_slice(&3u16.to_le_bytes());
    out.extend_from_slice(&hash_pos.to_le_bytes());
    out.extend_from_slice(&block_pos.to_le_bytes());
    out.extend_from_slice(&1u32.to_le_bytes());
    out.extend_from_slice(&1u32.to_le_bytes());
    assert_eq!(out.len(), 0x20);
    out.extend_from_slice(&member);
    out.extend_from_slice(&hash_raw);
    out.extend_from_slice(&block_raw);
    out
}

#[test]
fn walks_a_member_whose_tables_are_noise() {
    let payload: Vec<u8> = (0..10_000u32).map(|i| (i % 251) as u8).collect();
    let mut archive = Archive::load(archive_with_member(&payload, true)).unwrap();

    assert!(archive.open_file("war3map.w3i").is_err());

    let members = archive.salvage_members();
    assert_eq!(members.len(), 1);
    assert_eq!(members[0].offset, 0x20);
    assert_eq!(members[0].sector_count(), 3);
    assert_eq!(archive.read_salvaged(&members[0]).unwrap(), payload);
}

#[test]
fn salvage_agrees_with_the_real_block_entry() {
    let payload: Vec<u8> = (0..5_000u32).map(|i| (i % 97) as u8).collect();
    let mut archive = Archive::load(archive_with_member(&payload, false)).unwrap();

    let by_name = archive.open_file("war3map.w3i").unwrap();
    let mut expected = vec![0; by_name.size() as usize];
    by_name.read(&mut archive, &mut expected).unwrap();

    let members = archive.salvage_members();
    assert_eq!(members.len(), 1);
    assert_eq!(members[0].packed_size, by_name.packed_size());
    assert_eq!(archive.read_salvaged(&members[0]).unwrap(), expected);
}

#[test]
fn the_walk_is_bounded() {
    let mut archive = archive_with_member(b"payload", true);
    archive.truncate(0x20);
    for _ in 0..(MAX_MEMBERS * 2) {
        archive.extend_from_slice(&8u32.to_le_bytes());
        archive.extend_from_slice(&8u32.to_le_bytes());
    }
    let len = archive.len() as u32 - 16;
    archive[0x10..0x14].copy_from_slice(&len.to_le_bytes());

    let archive = Archive::load(archive).unwrap();
    assert_eq!(archive.salvage_members().len(), MAX_MEMBERS);
}

#[test]
fn a_walk_that_cannot_start_yields_nothing() {
    let mut archive = archive_with_member(b"payload", true);
    for byte in archive[0x20..0x28].iter_mut() {
        *byte = 0xAB;
    }
    let archive = Archive::load(archive).unwrap();
    assert!(archive.salvage_members().is_empty());
}

fn sector(payload: &[u8]) -> Vec<u8> {
    let mut encoder = ZlibEncoder::new(Vec::new(), Compression::default());
    encoder.write_all(payload).unwrap();
    let mut out = vec![MASK_ZLIB];
    out.extend(encoder.finish().unwrap());
    out
}

#[test]
fn finds_a_sector_between_noise() {
    let mut archive = vec![0xAB; 4096];
    let at = archive.len();
    archive.extend(sector(b"war3map payload"));
    archive.extend(vec![0xCD; 4096]);

    let found = carve_sectors(&archive);
    assert_eq!(found.len(), 1);
    assert_eq!(found[0].0, at);
    assert_eq!(found[0].1, b"war3map payload");
}

#[test]
fn chains_the_sectors_of_one_member() {
    let mut archive = vec![0xAB; 16];
    let at = archive.len();
    archive.extend(sector(b"first sector, "));
    archive.extend(sector(b"second sector"));
    archive.extend(vec![0xCD; 16]);

    let (joined, end) = inflate_sector_chain(&archive, at);
    assert_eq!(joined, b"first sector, second sector");
    assert_eq!(end, archive.len() - 16);
}

#[test]
fn a_chain_stops_at_the_first_non_sector() {
    let archive = sector(b"only me");
    let (joined, end) = inflate_sector_chain(&archive, 0);
    assert_eq!(joined, b"only me");
    assert_eq!(end, archive.len());
}

#[test]
fn noise_carves_nothing() {
    let archive = vec![0xAB; 8192];
    assert_eq!(carve_sectors(&archive).len(), 0);
}

#[test]
fn well_known_table_keys() {
    assert_eq!(hash_string("(hash table)", 0x300), 0xC3AF_3770);
    assert_eq!(hash_string("(block table)", 0x300), 0xEC83_B3A3);
}

#[test]
fn file_names_hash_without_regard_to_case_or_slash() {
    assert_eq!(hash_string("war3map.w3i", 0x100), hash_string("WAR3MAP.W3I", 0x100));
    assert_eq!(hash_string("a/b", 0), hash_string("A\\B", 0));
}

#[test]
fn decrypt_undoes_encrypt_on_concrete_bytes() {
    let original: Vec<u8> = (0..37u32).map(|i| (i * 7) as u8).collect();
    let mut data = original.clone();
    encrypt(&mut data, 0xDEAD_BEEF);
    assert_ne!(data, original);
    assert_eq!(data.len(), original.len());
    // the three trailing bytes are not a whole word and stay as they were
    assert_eq!(&data[36..], &original[36..]);
    decrypt(&mut data, 0xDEAD_BEEF);
    assert_eq!(data, original);
}

#[test]
fn decompress_inflates_a_zlib_sector() {
    let packed = sector(b"hello sector");
    assert_eq!(decompress(&packed, 12).unwrap(), b"hello sector");
}

#[test]
fn decompress_reports_an_unknown_mask() {
    assert_eq!(decompress(&[0x10, 1, 2, 3], 8), Err(MpqError::UnsupportedCompression(0x10)));
}

#[test]
fn decompress_reports_a_broken_stream() {
    assert_eq!(decompress(&[0x02, 0xFF, 0xFF, 0xFF], 8), Err(MpqError::Decompression));
}

#[test]
fn a_buffer_without_a_header_is_refused() {
    assert_eq!(Archive::load(vec![0u8; 0x400]).err(), Some(MpqError::NoHeader));
}

#[test]
fn a_user_data_header_that_points_nowhere_is_passed_over() {
    let mut archive = vec![0u8; 0x400];
    archive[0..4].copy_from_slice(b"MPQ\x1b");
    archive[4..8].copy_from_slice(&0x10u32.to_le_bytes());
    archive[8..12].copy_from_slice(&0x10000u32.to_le_bytes());
    archive[0x200..0x220].copy_from_slice(&header(0x20, 0x20));

    let opened = Archive::load(archive).expect("the real header behind the decoy is found");
    assert_eq!(opened.offset(), 0x200);
}

#[test]
fn an_oversized_sector_shift_gives_no_sector_size() {
    let mut archive = vec![0u8; 0x400];
    let mut hdr = header(0x20, 0x20);
    hdr[14..16].copy_from_slice(&65292u16.to_le_bytes());
    archive[0..32].copy_from_slice(&hdr);

    let opened = Archive::load(archive).expect("the shift does not make the archive unreadable");
    assert_eq!(opened.sector_size(), 0);
}

#[test]
fn falling_sector_offsets_are_an_error() {
    let payload: Vec<u8> = (0..5_000u32).map(|i| (i % 97) as u8).collect();
    let mut bytes = archive_with_member(&payload, false);
    // the second offset of the member's sector table drops below the first
    bytes[0x24..0x28].copy_from_slice(&4u32.to_le_bytes());
    let mut archive = Archive::load(bytes).unwrap();
    let file = archive.open_file("war3map.w3i").unwrap();
    let mut out = vec![0; file.size() as usize];
    assert_eq!(file.read(&mut archive, &mut out), Err(MpqError::SectorOffsetsNotMonotonic));
}

#[test]
fn a_sector_longer_than_the_sector_size_is_an_error() {
    let payload: Vec<u8> = (0..5_000u32).map(|i| (i % 97) as u8).collect();
    let mut bytes = archive_with_member(&payload, false);
    bytes[0x24..0x28].copy_from_slice(&(12u32 + 5_000).to_le_bytes());
    let mut archive = Archive::load(bytes).unwrap();
    let file = archive.open_file("war3map.w3i").unwrap();
    let mut out = vec![0; file.size() as usize];
    assert_eq!(file.read(&mut archive, &mut out), Err(MpqError::SectorTooLarge));
}

#[test]
fn a_name_that_is_not_there_is_not_found() {
    let payload: Vec<u8> = (0..100u32).map(|i| i as u8).collect();
    let mut archive = Archive::load(archive_with_member(&payload, false)).unwrap();
    assert_eq!(archive.open_file("war3map.j").err(), Some(MpqError::NotFound));
}

/// Adler-32 with both sums started at zero, as Storm checksums sectors.
fn storm_adler(bytes: &[u8]) -> u32 {
    let (mut a, mut b) = (0u32, 0u32);
    for &x in bytes {
        a = (a + x as u32) % 65521;
        b = (b + a) % 65521;
    }
    (b << 16) | a
}

/// A two-sector compressed member whose sector table carries checksums.
fn archive_with_checksums(payload: &[u8], spoil: bool) -> Vec<u8> {
    let mut bodies: Vec<Vec<u8>> = Vec::new();
    for chunk in payload.chunks(4096) {
        bodies.push(sector(chunk));
    }
    let n = bodies.len() as u32;
    let mut offsets = vec![4 * (n + 2)];
    for body in &bodies {
        let last = *offsets.last().unwrap();
        offsets.push(last + body.len() as u32);
    }
    let end_of_data = *offsets.last().unwrap();
    offsets.push(end_of_data + 4 * n);
    let mut member: Vec<u8> = Vec::new();
    for o in &offsets {
        member.extend_from_slice(&o.to_le_bytes());
    }
    for body in &bodies {
        member.extend_from_slice(body);
    }
    for (i, body) in bodies.iter().enumerate() {
        let sum = storm_adler(body) ^ if spoil && i == 1 { 1 } else { 0 };
        member.extend_from_slice(&sum.to_le_bytes());
    }
    let packed = member.len() as u32;
    let hash_pos = 0x20 + packed;
    let block_pos = hash_pos + 16;
    let name = "war3map.w3i";
    let mut hash_raw = vec![0u8; 16];
    hash_raw[0..4].copy_from_slice(&hash_string(name, 0x100).to_le_bytes());
    hash_raw[4..8].copy_from_slice(&hash_string(name, 0x200).to_le_bytes());
    encrypt(&mut hash_raw, hash_string("(hash table)", 0x300));
    let mut block_raw = vec![0u8; 16];
    block_raw[0..4].copy_from_slice(&0x20u32.to_le_bytes());
    block_raw[4..8].copy_from_slice(&packed.to_le_bytes());
    block_raw[8..12].copy_from_slice(&(payload.len() as u32).to_le_bytes());
    block_raw[12..16].copy_from_slice(&0x8400_0200u32.to_le_bytes());
    encrypt(&mut block_raw, hash_string("(block table)", 0x300));
    let mut out: Vec<u8> = Vec::new();
    out.extend_from_slice(&header(0x20, hash_pos));
    out[20..24].copy_from_slice(&block_pos.to_le_bytes());
    out[24..28].copy_from_slice(&1u32.to_le_bytes());
    out[28..32].copy_from_slice(&1u32.to_le_bytes());
    out.extend_from_slice(&member);
    out.extend_from_slice(&hash_raw);
    out.extend_from_slice(&block_raw);
    out
}

#[test]
fn sector_checksums_are_checked() {
    let payload: Vec<u8> = (0..6_000u32).map(|i| (i % 89) as u8).collect();
    let mut archive = Archive::load(archive_with_checksums(&payload, false)).unwrap();
    let file = archive.open_file("war3map.w3i").unwrap();
    let mut out = vec![0; file.size() as usize];
    assert_eq!(file.read(&mut archive, &mut out), Ok(6_000));
    assert_eq!(out, payload);

    let mut spoiled = Archive::load(archive_with_checksums(&payload, true)).unwrap();
    let file = spoiled.open_file("war3map.w3i").unwrap();
    let mut out = vec![0; file.size() as usize];
    assert_eq!(file.read(&mut spoiled, &mut out), Err(MpqError::SectorChecksum));
}

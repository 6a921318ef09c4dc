use war3parser::error::Error;
use war3parser::model::metadata::{War3MapMetadata, UNRESOLVED_TRIGSTR};
use war3parser::mpq::crypt::{encrypt, hash_string};

/// An archive of stored (uncompressed, single-unit) members behind a 16-slot
/// hash table.
fn archive_with(members: &[(&str, Vec<u8>)]) -> Vec<u8> {
    let slots = 16usize;
    let mut data: Vec<u8> = Vec::new();
    let mut blocks: Vec<(u32, u32)> = Vec::new();
    for (_, body) in members {
        blocks.push((0x20 + data.len() as u32, body.len() as u32));
        data.extend_from_slice(body);
    }
    let mut hash_raw = vec![0xFFu8; slots * 16];
    for (index, (name, _)) in members.iter().enumerate() {
        let mut slot = (hash_string(name, 0) as usize) & (slots - 1);
        while hash_raw[slot * 16 + 12..slot * 16 + 16] != [0xFF; 4] {
            slot = (slot + 1) % slots;
        }
        let at = slot * 16;
        hash_raw[at..at + 4].copy_from_slice(&hash_string(name, 0x100).to_le_bytes());
        hash_raw[at + 4..at + 8].copy_from_slice(&hash_string(name, 0x200).to_le_bytes());
        hash_raw[at + 8..at + 12].copy_from_slice(&0u32.to_le_bytes());
        hash_raw[at + 12..at + 16].copy_from_slice(&(index as u32).to_le_bytes());
    }
    encrypt(&mut hash_raw, hash_string("(hash table)", 0x300));
    let mut block_raw: Vec<u8> = Vec::new();
    for (offset, size) in &blocks {
        block_raw.extend_from_slice(&offset.to_le_bytes());
        block_raw.extend_from_slice(&size.to_le_bytes());
        block_raw.extend_from_slice(&size.to_le_bytes());
        block_raw.extend_from_slice(&0x8100_0000u32.to_le_bytes());
    }
    encrypt(&mut block_raw, hash_string("(block table)", 0x300));

    let hash_pos = 0x20 + data.len() as u32;
    let block_pos = hash_pos + hash_raw.len() as u32;
    let mut out: Vec<u8> = Vec::new();
    out.extend_from_slice(b"MPQ\x1a");
    out.extend_from_slice(&0x20u32.to_le_bytes());
    out.extend_from_slice(&(block_pos + block_raw.len() as u32).to_le_bytes());
    out.extend_from_slice(&0u16.to_le_bytes());
    out.extend_from_slice(&3u16.to_le_bytes());
    out.extend_from_slice(&hash_pos.to_le_bytes());
    out.extend_from_slice(&block_pos.to_le_bytes());
    out.extend_from_slice(&(slots as u32).to_le_bytes());
    out.extend_from_slice(&(blocks.len() as u32).to_le_bytes());
    out.extend_from_slice(&data);
    out.extend_from_slice(&hash_raw);
    out.extend_from_slice(&block_raw);
    out
}

fn w3i(name: &str, author: &str) -> Vec<u8> {
    let mut buf = Vec::new();
    buf.extend(25u32.to_le_bytes());
    buf.extend(0u32.to_le_bytes());
    buf.extend(0u32.to_le_bytes());
    for field in [name, author, "", ""] {
        buf.extend(field.as_bytes());
        buf.push(0);
    }
    buf.resize(buf.len() + 256, 0);
    buf
}

fn tga_pixel() -> Vec<u8> {
    let mut out = vec![0u8, 0, 2, 0, 0, 0, 0, 0, 0, 0, 0, 0];
    out.extend_from_slice(&1u16.to_le_bytes());
    out.extend_from_slice(&1u16.to_le_bytes());
    out.extend_from_slice(&[24, 0x20, 9, 8, 7]);
    out
}

fn sample_map() -> Vec<u8> {
    archive_with(&[
        ("war3map.w3i", w3i("TRIGSTR_001", "TRIGSTR_099")),
        ("war3map.wts", b"STRING 1\n{\nHello\n}\n".to_vec()),
        ("war3mapPreview.tga", tga_pixel()),
        ("(listfile)", b"war3map.wts\r\nwar3map.w3i\nb\na\nb\n".to_vec()),
    ])
}

#[test]
fn parse_reads_every_member_that_is_there() {
    let metadata = War3MapMetadata::parse(&sample_map()).unwrap();
    assert_eq!(metadata.map_info.as_ref().unwrap().name, "TRIGSTR_001");
    assert!(metadata.wts.is_some());
    assert!(metadata.imp.is_none());
    assert!(metadata.minimap_icons.is_none());
    assert_eq!(metadata.images.len(), 1);
    assert_eq!(metadata.images[0].filename, "war3mapPreview.tga");
    assert_eq!(
        metadata.files,
        Some(vec![
            "a".to_string(),
            "b".to_string(),
            "b".to_string(),
            "war3map.w3i".to_string(),
            "war3map.wts".to_string()
        ])
    );
}

#[test]
fn resolving_fills_missing_ids_with_a_placeholder() {
    let mut metadata = War3MapMetadata::parse(&sample_map()).unwrap();
    metadata.resolve_trigger_strings();
    let info = metadata.map_info.as_ref().unwrap();
    assert_eq!(info.name, "Hello");
    assert_eq!(info.author, UNRESOLVED_TRIGSTR);
}

#[test]
fn a_snapshot_carries_the_resolved_metadata() {
    let snapshot = War3MapMetadata::parse_snapshot(&sample_map()).unwrap();
    assert_eq!(snapshot.map_info.as_ref().unwrap().name, "Hello");
    assert_eq!(snapshot.images.len(), 1);
    assert!(snapshot.images[0].data_url.starts_with("data:image/png;base64,"));
    let strings = snapshot.strings.unwrap();
    assert_eq!(strings.len(), 1);
    assert_eq!((strings[0].id, strings[0].value.as_str()), (1, "Hello"));
    assert!(snapshot.imports.is_none());
    assert!(snapshot.minimap_icons.is_empty());
}

#[test]
fn only_an_unreadable_archive_is_an_error() {
    match War3MapMetadata::parse(&[0u8; 64]) {
        Err(Error::Archive(_)) => {},
        _ => panic!("a buffer without an archive is an error"),
    }
}

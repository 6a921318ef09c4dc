use war3parser::mpq::crypt::{encrypt, hash_string};
use war3parser::record::{
    catalog_of, category_for, content_type_for, cover_png, dataset_path, extract_cover, ingest, rescan_cover, mod_record, new_record, sha256_hex,
    version_record, MapRecord, CATALOG_SCHEMA_VERSION,
};

/// An archive of stored (uncompressed, single-unit) members behind a 16-slot
/// hash table.
fn archive_with(members: &[(&str, Vec<u8>)]) -> Vec<u8> {
    let slots = 16usize;
    let mut data: Vec<u8> = Vec::new();
    let mut blocks: Vec<(u32, u32)> = Vec::new();
    for (_, body) in members {
        blocks.push((0x20 + data.len() as u32, body.len() as u32));
        data.extend_from_slice(body);
    }
    let mut hash_raw = vec![0xFFu8; slots * 16];
    for (index, (name, _)) in members.iter().enumerate() {
        let mut slot = (hash_string(name, 0) as usize) & (slots - 1);
        while hash_raw[slot * 16 + 12..slot * 16 + 16] != [0xFF; 4] {
            slot = (slot + 1) % slots;
        }
        let at = slot * 16;
        hash_raw[at..at + 4].copy_from_slice(&hash_string(name, 0x100).to_le_bytes());
        hash_raw[at + 4..at + 8].copy_from_slice(&hash_string(name, 0x200).to_le_bytes());
        hash_raw[at + 8..at + 12].copy_from_slice(&0u32.to_le_bytes());
        hash_raw[at + 12..at + 16].copy_from_slice(&(index as u32).to_le_bytes());
    }
    encrypt(&mut hash_raw, hash_string("(hash table)", 0x300));
    let mut block_raw: Vec<u8> = Vec::new();
    for (offset, size) in &blocks {
        block_raw.extend_from_slice(&offset.to_le_bytes());
        block_raw.extend_from_slice(&size.to_le_bytes());
        block_raw.extend_from_slice(&size.to_le_bytes());
        block_raw.extend_from_slice(&0x8100_0000u32.to_le_bytes());
    }
    encrypt(&mut block_raw, hash_string("(block table)", 0x300));

    let hash_pos = 0x20 + data.len() as u32;
    let block_pos = hash_pos + hash_raw.len() as u32;
    let mut out: Vec<u8> = Vec::new();
    out.extend_from_slice(b"MPQ\x1a");
    out.extend_from_slice(&0x20u32.to_le_bytes());
    out.extend_from_slice(&(block_pos + block_raw.len() as u32).to_le_bytes());
    out.extend_from_slice(&0u16.to_le_bytes());
    out.extend_from_slice(&3u16.to_le_bytes());
    out.extend_from_slice(&hash_pos.to_le_bytes());
    out.extend_from_slice(&block_pos.to_le_bytes());
    out.extend_from_slice(&(slots as u32).to_le_bytes());
    out.extend_from_slice(&(blocks.len() as u32).to_le_bytes());
    out.extend_from_slice(&data);
    out.extend_from_slice(&hash_raw);
    out.extend_from_slice(&block_raw);
    out
}

fn w3i(name: &str, author: &str) -> Vec<u8> {
    let mut buf = Vec::new();
    buf.extend(25u32.to_le_bytes());
    buf.extend(0u32.to_le_bytes());
    buf.extend(0u32.to_le_bytes());
    for field in [name, author, "", ""] {
        buf.extend(field.as_bytes());
        buf.push(0);
    }
    buf.resize(buf.len() + 256, 0);
    buf
}

fn tga_pixel() -> Vec<u8> {
    let mut out = vec![0u8, 0, 2, 0, 0, 0, 0, 0, 0, 0, 0, 0];
    out.extend_from_slice(&1u16.to_le_bytes());
    out.extend_from_slice(&1u16.to_le_bytes());
    out.extend_from_slice(&[24, 0x20, 9, 8, 7]);
    out
}

fn sample_map() -> Vec<u8> {
    archive_with(&[
        ("war3map.w3i", w3i("Sample", "Someone")),
        ("war3mapPreview.tga", tga_pixel()),
    ])
}

#[test]
fn content_addresses_are_lower_case_sha256() {
    assert_eq!(sha256_hex(b"abc"), "ba7816bf8f01cfea414140de5dae2223b00361a396177a9cb410ff61f20015ad");
    assert_eq!(sha256_hex(b"").len(), 64);
}

#[test]
fn objects_are_sharded_by_their_first_two_digits() {
    assert_eq!(dataset_path("abcdef", "w3x"), "objects/ab/abcdef.w3x");
}

#[test]
fn a_w3n_is_a_campaign() {
    assert_eq!(content_type_for("w3n"), "campaign");
    assert_eq!(content_type_for("w3x"), "map");
    assert_eq!(content_type_for("w3m"), "map");
}

#[test]
fn a_cover_is_a_jpeg_thumbnail_of_the_preview() {
    let (data, source, status) = extract_cover(&sample_map());
    assert_eq!(status, "ok");
    assert_eq!(source, Some("preview"));
    assert!(data.unwrap().starts_with("data:image/jpeg;base64,/9j/"));
    assert_eq!(extract_cover(&[0u8; 16]), (None, None, "missing"));
    let no_images = archive_with(&[("war3map.w3i", w3i("Plain", "Nobody"))]);
    assert_eq!(extract_cover(&no_images), (None, None, "missing"));
}

#[test]
fn a_record_carries_what_the_bytes_give() {
    let bytes = sample_map();
    let record = new_record(&bytes, "maps/Demo.W3X", "Demo.W3X", "maps".to_string(), Some("me/maps"));
    let sha = sha256_hex(&bytes);
    assert_eq!(record.sha256, sha);
    assert_eq!(record.extension, "w3x");
    assert_eq!(record.format, "w3x");
    assert_eq!(record.content_type, "map");
    assert_eq!(record.size, bytes.len() as u64);
    assert_eq!(record.dataset_path, format!("objects/{}/{}.w3x", &sha[..2], sha));
    assert_eq!(
        record.download_url,
        Some(format!("https://huggingface.co/datasets/me/maps/resolve/main/{}?download=true", record.dataset_path))
    );
    assert_eq!(record.derived.name, "Sample");
    assert_eq!(record.derived.name_source, "w3i");
    assert_eq!(record.cover_status, "ok");
    assert_eq!(record.source_paths, vec!["maps/Demo.W3X".to_string()]);
}

#[test]
fn a_campaign_record_has_no_cover() {
    let record = new_record(b"campaign", "c/Story.w3n", "Story.w3n", "c".to_string(), None);
    assert_eq!(record.content_type, "campaign");
    assert_eq!(record.extension, "w3n");
    assert_eq!((record.cover_data, record.cover_source, record.cover_status), (None, None, "missing"));
    assert_eq!(record.download_url, None);
}

#[test]
fn the_same_bytes_twice_make_one_record_with_both_sources() {
    let bytes = sample_map();
    let mut records: Vec<MapRecord> = Vec::new();
    assert!(ingest(&mut records, &bytes, "z/copy.w3x", "copy.w3x", "z".to_string(), None));
    assert!(!ingest(&mut records, &bytes, "a/first.w3x", "first.w3x", "a".to_string(), None));
    assert!(!ingest(&mut records, &bytes, "a/first.w3x", "first.w3x", "a".to_string(), None));
    assert_eq!(records.len(), 1);
    assert_eq!(records[0].source_paths, vec!["a/first.w3x".to_string(), "z/copy.w3x".to_string()]);
    assert_eq!(records[0].filename, "copy.w3x");
}

#[test]
fn records_stay_in_content_address_order() {
    let mut records: Vec<MapRecord> = Vec::new();
    for (i, bytes) in [b"one".to_vec(), b"two".to_vec(), b"three".to_vec()].iter().enumerate() {
        let name = format!("{}.w3x", i);
        assert!(ingest(&mut records, bytes, &name, &name, "x".to_string(), None));
    }
    let shas: Vec<String> = records.iter().map(|r| r.sha256.clone()).collect();
    let mut sorted = shas.clone();
    sorted.sort();
    assert_eq!(shas, sorted);
    assert_eq!(records.len(), 3);
}

#[test]
fn a_catalogue_counts_maps_campaigns_and_bytes() {
    let mut records: Vec<MapRecord> = Vec::new();
    ingest(&mut records, b"map bytes", "a.w3x", "a.w3x", "x".to_string(), None);
    ingest(&mut records, b"campaign bytes!", "b.w3n", "b.w3n", "x".to_string(), None);
    let catalog = catalog_of(records, 3, 1_700_000_000);
    assert_eq!(catalog.schema_version, CATALOG_SCHEMA_VERSION);
    assert_eq!(catalog.map_count, 2);
    assert_eq!(catalog.campaign_count, 1);
    assert_eq!(catalog.playable_map_count, 1);
    assert_eq!(catalog.source_count, 3);
    assert_eq!(catalog.total_bytes, 9 + 15);
    assert_eq!(catalog.generated_at_unix, 1_700_000_000);
}

#[test]
fn a_version_scan_reads_the_w3i_or_says_why_not() {
    let record = version_record("abc".to_string(), &sample_map());
    assert_eq!(record.sha256, "abc");
    assert_eq!(record.format_version, Some(25));
    assert_eq!(record.editor_version, Some(0));
    assert_eq!(record.build_version, None);
    assert_eq!(record.error, None);
    let failed = version_record("def".to_string(), &[0u8; 64]);
    assert_eq!(failed.format_version, None);
    assert_eq!(failed.error.as_deref(), Some("no MPQ header with in-archive tables"));
    let no_info = version_record("ghi".to_string(), &archive_with(&[("war3mapPreview.tga", tga_pixel())]));
    assert_eq!(no_info.error.as_deref(), Some("file `war3map.w3i` not found in archive"));
}

#[test]
fn a_mod_scan_tells_unreadable_from_clean() {
    let clean = mod_record("abc".to_string(), &sample_map());
    assert!(clean.modification.is_none());
    assert!(clean.error.is_none());
    let unreadable = mod_record("def".to_string(), &[0u8; 64]);
    assert!(unreadable.modification.is_none());
    assert!(unreadable.error.is_some());
}

#[test]
fn a_png_cover_comes_from_the_first_candidate_that_decodes() {
    let (png, tier) = cover_png(&sample_map()).unwrap();
    assert_eq!(tier, "preview");
    assert_eq!(&png[0..8], b"\x89PNG\r\n\x1a\n");
    let map_only = archive_with(&[("war3mapMap.tga", tga_pixel())]);
    assert_eq!(cover_png(&map_only).unwrap().1, "map");
    let no_images = archive_with(&[("war3map.w3i", w3i("Plain", "Nobody"))]);
    assert_eq!(cover_png(&no_images), None);
    assert_eq!(cover_png(&[0u8; 16]), None);
}

#[test]
fn a_hostile_blp_cover_is_skipped_without_a_panic() {
    let mut blp: Vec<u8> = Vec::new();
    blp.extend_from_slice(b"BLP1");
    blp.extend_from_slice(&1u32.to_le_bytes());
    blp.extend_from_slice(&8u32.to_le_bytes());
    blp.extend_from_slice(&1u32.to_le_bytes());
    blp.extend_from_slice(&1u32.to_le_bytes());
    blp.extend_from_slice(&5u32.to_le_bytes());
    blp.extend_from_slice(&0u32.to_le_bytes());
    blp.extend_from_slice(&200u32.to_le_bytes());
    blp.resize(92, 0);
    blp.extend_from_slice(&0xFFFF_FFF0u32.to_le_bytes());
    blp.resize(1400, 0);
    let map = archive_with(&[("war3mapPreview.blp", blp.clone())]);
    assert_eq!(extract_cover(&map), (None, None, "missing"));
    assert_eq!(cover_png(&map), None);
    let with_fallback = archive_with(&[("war3mapPreview.blp", blp), ("war3mapMap.tga", tga_pixel())]);
    assert_eq!(cover_png(&with_fallback).unwrap().1, "map");
}

#[test]
fn a_rescan_extracts_a_cover_only_for_maps_that_lack_one_or_when_forced() {
    assert_eq!(rescan_cover("map", false, true), ("ok", false));
    assert_eq!(rescan_cover("map", false, false), ("missing", true));
    assert_eq!(rescan_cover("map", true, true), ("ok", true));
    assert_eq!(rescan_cover("campaign", true, false), ("missing", false));
}

#[test]
fn a_category_is_the_first_directory_or_the_archive_stem() {
    let parts = vec!["RPG".to_string(), "sub".to_string(), "a.w3x".to_string()];
    assert_eq!(category_for(&parts, Some("a"), false), "RPG");
    assert_eq!(category_for(&parts, Some("a"), true), "RPG");
    let top = vec!["maps.tar.tar".to_string()];
    assert_eq!(category_for(&top, Some("maps.tar"), true), "maps");
    assert_eq!(category_for(&top, Some("x.tar.tar"), true), "x");
    assert_eq!(category_for(&top, None, true), "未分类");
    assert_eq!(category_for(&top, Some("maps"), false), "未分类");
}

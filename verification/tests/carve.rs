use flate2::write::ZlibEncoder;
use flate2::Compression;
use std::io::Write;
use war3parser::carve::{carve, carve_deep};

fn sector(payload: &[u8]) -> Vec<u8> {
    let mut encoder = ZlibEncoder::new(Vec::new(), Compression::default());
    encoder.write_all(payload).unwrap();
    let mut out = vec![0x02];
    out.extend(encoder.finish().unwrap());
    out
}

/// A minimal v25 w3i: version, saves, editor version, then the four strings
/// and enough trailing space for the fields the validator reaches past.
fn w3i(name: &str) -> Vec<u8> {
    let mut buf = Vec::new();
    buf.extend(25u32.to_le_bytes());
    buf.extend(0u32.to_le_bytes());
    buf.extend(0u32.to_le_bytes());
    for field in [name, "An Author", "", ""] {
        buf.extend(field.as_bytes());
        buf.push(0);
    }
    buf.resize(buf.len() + 256, 0);
    buf
}

fn wts_entry(id: u32, value: &str) -> String {
    format!("STRING {id}\n{{\n{value}\n}}\n")
}

#[test]
fn carve_carves_a_w3i_out_of_surrounding_noise() {
    let mut archive = vec![0xAB; 4096];
    archive.extend(sector(&w3i("守卫剑阁")));
    archive.extend(vec![0xCD; 4096]);

    let carved = carve_deep(&archive).expect("w3i should be carved");
    assert_eq!(carved.info.name, "守卫剑阁");
    assert_eq!(carved.info.author, "An Author");
}

#[test]
fn carve_resolves_trigger_strings_from_a_carved_string_table() {
    let mut archive = sector(&w3i("TRIGSTR_001"));
    archive.extend(sector(b"STRING 1\n{\n\xe6\x94\xbb\xe5\xae\x88\n}\n"));

    let mut carved = carve_deep(&archive).expect("w3i should be carved");
    assert_eq!(carved.info.name, "TRIGSTR_001");
    carved.resolve_trigger_strings();
    assert_eq!(carved.info.name, "攻守");
}

#[test]
fn carve_joins_a_string_table_split_across_sectors() {
    let mut archive = sector(&w3i("TRIGSTR_900"));
    archive.extend(sector(wts_entry(1, "first sector").as_bytes()));
    archive.extend(sector(wts_entry(900, "跨扇区的标题").as_bytes()));

    let carved = carve_deep(&archive).expect("w3i should be carved");
    let strings = carved.strings.as_ref().expect("table should be carved");
    assert_eq!(strings.get(1), Some("first sector"));
    assert_eq!(strings.get(900), Some("跨扇区的标题"));
}

#[test]
fn carve_prefers_the_richest_string_table() {
    let mut archive = sector(&w3i("TRIGSTR_002"));
    archive.extend(vec![0xAB; 16]);
    archive.extend(sector(b"call BJDebugMsg(\"STRING \")"));
    archive.extend(vec![0xAB; 16]);
    archive.extend(sector(format!("{}{}", wts_entry(1, "one"), wts_entry(2, "two")).as_bytes()));

    let mut carved = carve_deep(&archive).expect("w3i should be carved");
    carved.resolve_trigger_strings();
    assert_eq!(carved.info.name, "two");
}

#[test]
fn carve_a_payload_with_no_w3i_yields_nothing() {
    let mut archive = vec![0xAB; 2048];
    archive.extend(sector(b"not a w3i, just bytes"));
    assert!(carve_deep(&archive).is_none());
}

#[test]
fn carve_rejects_an_inflatable_sector_that_is_not_a_w3i() {
    let mut bogus = Vec::new();
    bogus.extend(99u32.to_le_bytes());
    bogus.extend(b"\0\0\0\0");
    bogus.resize(512, 0);
    assert!(carve_deep(&sector(&bogus)).is_none());
}

#[test]
fn a_buffer_without_an_archive_header_has_no_members_to_carve() {
    // `carve` walks archive members; raw sectors with no header give it nothing.
    let archive = sector(&w3i("Plain"));
    assert!(carve(&archive).is_none());
    assert!(carve_deep(&archive).is_some());
}

#[test]
fn resolving_without_a_table_leaves_the_name() {
    let archive = sector(&w3i("TRIGSTR_005"));
    let mut carved = carve_deep(&archive).expect("w3i should be carved");
    assert!(carved.strings.is_none());
    carved.resolve_trigger_strings();
    assert_eq!(carved.info.name, "TRIGSTR_005");
}

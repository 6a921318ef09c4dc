use war3parser::formats::wtg::{TriggerCategory, Variable};
use war3parser::reader::{ByteReader, Record};
use war3parser::formats::imp::War3MapImp;
use war3parser::formats::mmp::{MinimapIconType, War3MapMmp};
use war3parser::formats::wts::{trigstr_id, War3MapWts};

#[test]
fn parses_entries_and_resolves_paths() {
    let mut data = Vec::new();
    data.extend(1u32.to_le_bytes()); // version
    data.extend(2u32.to_le_bytes()); // count
    data.push(8); // standard
    data.extend(b"icon.blp\0");
    data.push(13); // custom
    data.extend(b"units\\custom.mdx\0");

    let imp = War3MapImp::parse(&data).unwrap();
    assert_eq!(imp.version, 1);
    assert_eq!(imp.entries.len(), 2);
    assert_eq!(imp.entries[0].resolved_path(), "war3mapimported\\icon.blp");
    assert_eq!(imp.entries[1].resolved_path(), "units\\custom.mdx");
}

#[test]
fn import_entries_are_sorted_and_deduplicated() {
    let mut data = Vec::new();
    data.extend(1u32.to_le_bytes());
    data.extend(3u32.to_le_bytes());
    data.push(13);
    data.extend(b"b.mdx\0");
    data.push(13);
    data.extend(b"a.mdx\0");
    data.push(10);
    data.extend(b"b.mdx\0");
    let imp = War3MapImp::parse(&data).unwrap();
    let sorted = imp.entries_sorted();
    assert_eq!(sorted.len(), 2);
    assert_eq!(sorted[0].path, "a.mdx");
    assert_eq!(sorted[1].path, "b.mdx");
    // The first entry carrying a path decides its flag.
    assert_eq!(sorted[1].is_custom, 13);
}

#[test]
fn wts_parses_comment_and_lf() {
    let raw = "STRING 1\n// comment\n{\nHello\n}\nSTRING 2\r\n{\r\nWorld\r\n}\r\n";
    let wts = War3MapWts::parse(raw).unwrap();
    assert_eq!(wts.get(1), Some("Hello"));
    assert_eq!(wts.get(2), Some("World"));
}

#[test]
fn wts_parses_bom() {
    let raw = "\u{feff}STRING 7\n{\nX\n}\n";
    let wts = War3MapWts::parse(raw).unwrap();
    assert_eq!(wts.get(7), Some("X"));
}

#[test]
fn multiline_body_is_preserved() {
    let raw = "STRING 3\n{\nline one\nline two\n}\n";
    let wts = War3MapWts::parse(raw).unwrap();
    assert_eq!(wts.get(3), Some("line one\nline two"));
}

#[test]
fn trigstr_id_variants() {
    assert_eq!(trigstr_id("TRIGSTR_007"), Some(7));
    assert_eq!(trigstr_id("TRIGSTR_7"), Some(7));
    assert_eq!(trigstr_id("TRIGSTR_-3"), Some(-3));
    assert_eq!(trigstr_id("TRIGSTR_007ab"), Some(7));
    assert_eq!(trigstr_id(" TRIGSTR_12 "), Some(12));
    assert_eq!(trigstr_id("TRIGSTR_"), None);
    assert_eq!(trigstr_id("hello"), None);
}

#[test]
fn trigstr_id_rejects_overflow() {
    assert_eq!(trigstr_id("TRIGSTR_2147483647"), Some(i32::MAX));
    assert_eq!(trigstr_id("TRIGSTR_2147483648"), None);
    assert_eq!(trigstr_id("TRIGSTR_-2147483648"), Some(i32::MIN));
    assert_eq!(trigstr_id("TRIGSTR_-"), None);
}

#[test]
fn resolve_falls_back_to_none() {
    let raw = "STRING 1\n{\nHi\n}\n";
    let wts = War3MapWts::parse(raw).unwrap();
    assert_eq!(wts.resolve("TRIGSTR_001"), Some("Hi"));
    assert_eq!(wts.resolve("TRIGSTR_9"), None);
    assert_eq!(wts.resolve("plain text"), None);
}

#[test]
fn mod_parses_comment_and_lf() {
    let raw = "STRING 1\n// comment\n{\nHello\n}\nSTRING 2\r\n{\r\nWorld\r\n}\r\n";
    let wts = War3MapWts::load(raw).unwrap();
    assert_eq!(wts.string_map.get(&1).map(String::as_str), Some("Hello"));
    assert_eq!(wts.string_map.get(&2).map(String::as_str), Some("World"));
}

#[test]
fn mod_parses_bom() {
    let raw = "\u{feff}STRING 7\n{\nX\n}\n";
    let wts = War3MapWts::load(raw).unwrap();
    assert_eq!(wts.string_map.get(&7).map(String::as_str), Some("X"));
}

#[test]
fn string_entries_come_out_sorted_by_id() {
    let raw = "STRING 9\n{\nnine\n}\nSTRING 2\n{\ntwo\n}\nSTRING 5\n{\nfive\n}\n";
    let wts = War3MapWts::parse(raw).unwrap();
    let entries = wts.entries_sorted();
    let ids: Vec<i32> = entries.iter().map(|e| e.id).collect();
    assert_eq!(ids, vec![2, 5, 9]);
    assert_eq!(entries[0].value, "two");
    assert_eq!(entries[2].value, "nine");
    assert_eq!(wts.entry_count(), 3);
}

#[test]
fn parses_icons_and_swaps_bgra() {
    let mut data = Vec::new();
    data.extend(0i32.to_le_bytes()); // version
    data.extend(1u32.to_le_bytes()); // count
    data.extend(2i32.to_le_bytes()); // player start
    data.extend(100i32.to_le_bytes());
    data.extend(200i32.to_le_bytes());
    data.extend([0x10, 0x20, 0x30, 0x40]); // BGRA

    let mmp = War3MapMmp::parse(&data).unwrap();
    assert_eq!(mmp.icons.len(), 1);
    let icon = &mmp.icons[0];
    assert_eq!(icon.kind(), MinimapIconType::PlayerStart);
    assert_eq!((icon.x, icon.y), (100, 200));
    assert_eq!(icon.color, [0x30, 0x20, 0x10, 0x40]); // RGBA
}

#[test]
fn trigger_categories_carry_a_comment_flag_in_version_seven() {
    let mut data = Vec::new();
    data.extend_from_slice(&3i32.to_le_bytes());
    data.extend_from_slice(b"Setup\0");
    data.extend_from_slice(&1i32.to_le_bytes());
    let mut r = ByteReader::new(&data);
    let category = TriggerCategory::read(&mut r, 7).unwrap();
    assert_eq!((category.id, category.name.as_str(), category.is_comment), (3, "Setup", Some(1)));
    let mut r = ByteReader::new(&data);
    let category = TriggerCategory::read(&mut r, 4).unwrap();
    assert_eq!(category.is_comment, None);
    assert_eq!(r.position(), 10);
}

#[test]
fn variables_read_their_array_size_in_version_seven() {
    let mut data = Vec::new();
    data.extend_from_slice(b"gold\0integer\0");
    data.extend_from_slice(&1i32.to_le_bytes());
    data.extend_from_slice(&1i32.to_le_bytes());
    data.extend_from_slice(&12i32.to_le_bytes());
    data.extend_from_slice(&0i32.to_le_bytes());
    data.extend_from_slice(b"500\0");
    let mut r = ByteReader::new(&data);
    let variable = Variable::read(&mut r, 7).unwrap();
    assert_eq!(variable.name, "gold");
    assert_eq!(variable.variable_type, "integer");
    assert_eq!((variable.u1, variable.is_array, variable.array_size, variable.is_initialized), (1, 1, Some(12), 0));
    assert_eq!(variable.initial_value, "500");
    assert!(r.is_at_end());
}

#[test]
fn an_import_entry_keeps_the_stored_path() {
    let import = war3parser::formats::imp::Import { is_custom: 8, path: "icon.blp".to_string() };
    let entry = war3parser::model::snapshot::ImportEntry::from(&import);
    assert_eq!(entry.path, "icon.blp");
    assert_eq!(entry.is_custom, 8);
}

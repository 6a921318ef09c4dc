use flate2::write::ZlibEncoder;
use flate2::Compression;
use std::io::Write;
use war3parser::catalog::{
    display_text, hf_resolve_url, is_archive_path, is_map_path, is_temporary_download,
    map_entries_from_listing, metadata_status, normalized_extension, pick_name, salvage_w3i,
    same_text, strip_warcraft_codes,
};

#[test]
fn catalog_strips_warcraft_color_and_line_codes() {
    assert_eq!(strip_warcraft_codes("|cffff0000Red|r|nLine || Pipe"), "Red Line | Pipe");
}

#[test]
fn prefers_w3i_name_then_hm3w_then_filename() {
    assert_eq!(
        pick_name(Some("W3i 名"), Some("HM3W 名"), None, "文件名"),
        ("W3i 名".to_string(), "w3i")
    );
    assert_eq!(
        pick_name(None, Some("|cffff0000攻守兼备TD|r"), None, "文件名"),
        ("攻守兼备TD".to_string(), "hm3w")
    );
    assert_eq!(pick_name(None, None, None, "文件名"), ("文件名".to_string(), "filename"));
    assert_eq!(
        pick_name(Some("   "), Some("守卫剑阁"), None, "文件名"),
        ("守卫剑阁".to_string(), "hm3w")
    );
    assert_eq!(
        pick_name(Some("TRIGSTR_001"), Some("宝可梦大冒险0.8a"), None, "文件名"),
        ("宝可梦大冒险0.8a".to_string(), "hm3w")
    );
}

#[test]
fn ranks_a_carved_w3i_below_the_header() {
    assert_eq!(
        pick_name(None, Some("攻守兼备TD V4.6正式版"), Some("攻守兼备TD V4.4正式版"), "文件名"),
        ("攻守兼备TD V4.6正式版".to_string(), "hm3w")
    );
    assert_eq!(
        pick_name(None, None, Some("守卫剑阁-纵横天下V1.22"), "文件名"),
        ("守卫剑阁-纵横天下V1.22".to_string(), "w3i_carved")
    );
}

#[test]
fn derives_hm3w_name_when_the_archive_is_unreadable() {
    let mut bytes = Vec::from(*b"HM3W");
    bytes.extend_from_slice(&0u32.to_le_bytes());
    bytes.extend_from_slice("守卫剑阁-降龙伏虎".as_bytes());
    bytes.push(0);
    bytes.extend_from_slice(&1u32.to_le_bytes());
    bytes.extend_from_slice(&8u32.to_le_bytes());
    bytes.resize(512, 0);
    bytes.extend_from_slice(&[0xAB; 1024]);

    let derived = war3parser::catalog::derive(&bytes, "0d1cc85dd54d538173977c37590473e7.w3x", "map");
    assert_eq!(derived.name, "守卫剑阁-降龙伏虎");
    assert_eq!(derived.name_source, "hm3w");
    assert_eq!(derived.max_players, Some(8));
    assert_eq!(derived.parse_status, "metadata_error");
    assert!(derived.parse_error.is_some());
}

/// An archive whose tables are noise but whose members can still be walked.
fn unreadable_archive_with_carvable_w3i(header_name: &str, map_name: &str) -> Vec<u8> {
    let mut bytes = Vec::from(*b"HM3W");
    bytes.extend_from_slice(&0u32.to_le_bytes());
    bytes.extend_from_slice(header_name.as_bytes());
    bytes.push(0);
    bytes.extend_from_slice(&1u32.to_le_bytes());
    bytes.extend_from_slice(&8u32.to_le_bytes());
    bytes.resize(512, 0);

    let mut w3i = Vec::new();
    w3i.extend(25u32.to_le_bytes());
    w3i.extend(0u32.to_le_bytes());
    w3i.extend(0u32.to_le_bytes());
    for field in [map_name, "某作者", "", ""] {
        w3i.extend(field.as_bytes());
        w3i.push(0);
    }
    w3i.resize(w3i.len() + 256, 0);

    let mut encoder = ZlibEncoder::new(Vec::new(), Compression::default());
    encoder.write_all(&w3i).unwrap();
    let mut body = vec![0x02u8];
    body.extend(encoder.finish().unwrap());

    let mut member = Vec::new();
    member.extend_from_slice(&8u32.to_le_bytes());
    member.extend_from_slice(&(8 + body.len() as u32).to_le_bytes());
    member.extend_from_slice(&body);

    let hash_pos = 0x20 + member.len() as u32;
    let mut mpq = Vec::new();
    mpq.extend_from_slice(b"MPQ\x1a");
    mpq.extend_from_slice(&0x20u32.to_le_bytes());
    mpq.extend_from_slice(&(hash_pos + 32).to_le_bytes());
    mpq.extend_from_slice(&0u16.to_le_bytes());
    mpq.extend_from_slice(&3u16.to_le_bytes());
    mpq.extend_from_slice(&hash_pos.to_le_bytes());
    mpq.extend_from_slice(&(hash_pos + 16).to_le_bytes());
    mpq.extend_from_slice(&1u32.to_le_bytes());
    mpq.extend_from_slice(&1u32.to_le_bytes());
    mpq.extend_from_slice(&member);
    mpq.extend((0..32u8).map(|i| i.wrapping_mul(31).wrapping_add(7)));

    bytes.extend_from_slice(&mpq);
    bytes
}

#[test]
fn derives_carved_w3i_when_the_archive_is_unreadable() {
    let bytes = unreadable_archive_with_carvable_w3i("", "守卫剑阁");
    let derived = war3parser::catalog::derive(&bytes, "deadbeef.w3x", "map");
    assert_eq!(derived.name, "守卫剑阁");
    assert_eq!(derived.name_source, "w3i_carved");
    assert_eq!(derived.author, "某作者");
    assert_eq!(derived.parse_status, "carved");
    assert!(derived.parse_error.is_some());
}

#[test]
fn a_header_title_outranks_the_carved_one() {
    let bytes = unreadable_archive_with_carvable_w3i("攻守兼备TD V4.6正式版", "攻守兼备TD V4.4正式版");
    let derived = war3parser::catalog::derive(&bytes, "deadbeef.w3x", "map");
    assert_eq!(derived.name, "攻守兼备TD V4.6正式版");
    assert_eq!(derived.name_source, "hm3w");
    assert_eq!(derived.author, "某作者");
    assert_eq!(derived.parse_status, "carved");
}

#[test]
fn catalog_recognizes_supported_files_case_insensitively() {
    assert!(is_map_path("Demo.W3X"));
    assert!(is_map_path("Campaign.W3N"));
    assert!(is_archive_path("maps.TAR.GZ"));
    assert!(!is_map_path("notes.txt"));
    assert!(is_temporary_download("Campaign.w3n.qkdownloading"));
    assert!(!is_map_path("Campaign.w3n.qkdownloading"));
}

#[test]
fn catalog_selects_campaigns_from_archive_listing_and_skips_partial_members() {
    let entries = map_entries_from_listing(
        "说明.txt\n战役/完整.W3N\n战役/下载中.w3n.qkdownloading\n地图/demo.w3x\n".as_bytes(),
    );
    assert_eq!(entries, vec!["地图/demo.w3x", "战役/完整.W3N"]);
}

#[test]
fn a_listing_drops_repeated_entries_and_crlf() {
    let entries = map_entries_from_listing(b"b.w3m\r\na.w3x\nb.w3m\n");
    assert_eq!(entries, vec!["a.w3x", "b.w3m"]);
}

#[test]
fn extensions_are_normalised_to_lower_case() {
    assert_eq!(normalized_extension("maps/Demo.W3X"), Some("w3x"));
    assert_eq!(normalized_extension("maps/Old.w3m"), Some("w3m"));
    assert_eq!(normalized_extension("notes.txt"), None);
    assert_eq!(normalized_extension("no_extension"), None);
}

#[test]
fn archive_names_need_a_known_suffix() {
    assert!(is_archive_path("pack.7z"));
    assert!(is_archive_path("dir/pack.TBZ2"));
    assert!(!is_archive_path("pack.w3x"));
    assert!(!is_temporary_download("Campaign.w3n"));
}

#[test]
fn display_text_hides_placeholders_and_blanks() {
    assert_eq!(display_text(Some("|cff00ff00Green|r")), "Green");
    assert_eq!(display_text(Some("TRIGSTR_012")), "");
    assert_eq!(display_text(Some("   ")), "");
    assert_eq!(display_text(None), "");
}

#[test]
fn metadata_status_covers_every_outcome() {
    assert_eq!(metadata_status("campaign", true, true), "metadata_unavailable");
    assert_eq!(metadata_status("map", true, false), "ok");
    assert_eq!(metadata_status("map", false, true), "carved");
    assert_eq!(metadata_status("map", false, false), "metadata_error");
}

#[test]
fn dataset_links_need_a_repository() {
    assert_eq!(
        hf_resolve_url(Some("me/maps"), "maps/a.w3x"),
        Some("https://huggingface.co/datasets/me/maps/resolve/main/maps/a.w3x?download=true".to_string())
    );
    assert_eq!(hf_resolve_url(None, "maps/a.w3x"), None);
}

#[test]
fn same_text_compares_characters() {
    assert!(same_text("campaign", "campaign"));
    assert!(!same_text("campaign", "Campaign"));
    assert!(!same_text("map", "maps"));
}

#[test]
fn salvage_w3i_resolves_names_from_a_carved_table() {
    let bytes = unreadable_archive_with_carvable_w3i("", "Carved Title");
    let info = salvage_w3i(&bytes).expect("w3i should be carved");
    assert_eq!(info.name, "Carved Title");
    assert!(salvage_w3i(&[0xAB; 64]).is_none());
}

#[test]
fn a_campaign_is_not_parsed() {
    let derived = war3parser::catalog::derive(b"campaign bytes", "|cffff0000赤焰战役|r.w3n", "campaign");
    assert_eq!(derived.name, "赤焰战役");
    assert_eq!(derived.name_source, "filename");
    assert_eq!(derived.parse_status, "metadata_unavailable");
}

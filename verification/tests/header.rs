use war3parser::model::header::War3MapHeader;

fn hm3w(name: &[u8], max_players: u32) -> Vec<u8> {
    let mut buffer = Vec::from(*b"HM3W");
    buffer.extend_from_slice(&0u32.to_le_bytes());
    buffer.extend_from_slice(name);
    buffer.push(0);
    buffer.extend_from_slice(&1u32.to_le_bytes());
    buffer.extend_from_slice(&max_players.to_le_bytes());
    buffer
}

#[test]
fn reads_name_and_players() {
    let header = War3MapHeader::from_buffer(&hm3w("攻守兼备TD".as_bytes(), 10)).unwrap();
    assert!(header.has_hm3w);
    assert_eq!(header.name.as_deref(), Some("攻守兼备TD"));
    assert_eq!(header.max_players, Some(10));
}

#[test]
fn absent_magic_is_not_an_error() {
    let header = War3MapHeader::from_buffer(b"MPQ\x1a____").unwrap();
    assert!(!header.has_hm3w);
    assert_eq!(header.name, None);
}

#[test]
fn reads_header_of_an_unopenable_archive() {
    let mut buffer = hm3w("守卫剑阁".as_bytes(), 8);
    buffer.resize(512, 0);
    buffer.extend_from_slice(&[0xAB; 4096]);
    let header = War3MapHeader::from_buffer(&buffer).unwrap();
    assert_eq!(header.name.as_deref(), Some("守卫剑阁"));
    assert_eq!(header.max_players, Some(8));
}

#[test]
fn truncated_buffer_errors_instead_of_panicking() {
    assert!(War3MapHeader::from_buffer(b"HM").is_err());
}

#[test]
fn header_missing_its_player_count_is_an_error() {
    let mut buffer = hm3w(b"name", 8);
    buffer.truncate(buffer.len() - 2);
    assert!(War3MapHeader::from_buffer(&buffer).is_err());
}

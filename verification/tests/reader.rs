use war3parser::error::Error;
use war3parser::formats::w3i::version::FormatVersion;
use war3parser::reader::{parse_counted, ByteReader};

#[test]
fn primitives_and_position() {
    let data = [0x01, 0x02, 0x00, 0x00, 0x00, 0xFF];
    let mut r = ByteReader::new(&data);
    assert_eq!(r.u8().unwrap(), 1);
    assert_eq!(r.u32().unwrap(), 2);
    assert_eq!(r.remaining(), 1);
    assert_eq!(r.peek_u8(), Some(0xFF));
    assert_eq!(r.u8().unwrap(), 0xFF);
    assert!(r.is_at_end());
}

#[test]
fn eof_is_an_error_not_a_panic() {
    let mut r = ByteReader::new(&[0x01, 0x02]);
    let err = r.u32().unwrap_err();
    assert!(matches!(
        err,
        Error::UnexpectedEof {
            offset: 0,
            needed: 2
        }
    ));
}

#[test]
fn cstr_reads_terminator_and_tolerates_missing_nul() {
    let mut r = ByteReader::new(b"abc\0def");
    assert_eq!(r.cstr_lossy().unwrap(), "abc");
    assert_eq!(r.cstr_lossy().unwrap(), "def");
    assert!(r.is_at_end());
}

#[test]
fn counted_returns_empty_on_truncation() {
    let mut r = ByteReader::new(&[0x01]);
    let items = parse_counted::<u8>(&mut r, 0).unwrap();
    assert!(items.is_empty());
}

#[test]
fn counted_reads_declared_items() {
    let data = [2, 0, 0, 0, 7, 9, 11];
    let mut r = ByteReader::new(&data);
    let items = parse_counted::<u8>(&mut r, 0).unwrap();
    assert_eq!(items, vec![7, 9]);
    assert_eq!(r.position(), 6);
}

#[test]
fn skip_and_take_report_eof_with_what_was_missing() {
    let data = [1, 2, 3];
    let mut r = ByteReader::new(&data);
    assert!(r.skip(2).is_ok());
    match r.take(4) {
        Err(Error::UnexpectedEof { offset, needed }) => {
            assert_eq!(offset, 2);
            assert_eq!(needed, 3);
        }
        _ => panic!("expected an eof error"),
    }
    assert_eq!(r.position(), 2);
}

#[test]
fn empty_string_can_be_unterminated_when_asked() {
    let mut strict = ByteReader::new(&[0, b'x', 0]);
    assert_eq!(strict.cstr_lossy().unwrap(), "");
    assert_eq!(strict.position(), 1);
    let mut lenient = ByteReader::new(&[0, b'x', 0]);
    lenient.set_empty_strings_unterminated(true);
    assert_eq!(lenient.cstr_lossy().unwrap(), "");
    assert_eq!(lenient.position(), 0);
    let mut empty = ByteReader::new(&[]);
    assert_eq!(empty.cstr_lossy().unwrap(), "");
}

#[test]
fn ordering_follows_numbers() {
    assert!(FormatVersion::V18() < FormatVersion::V25());
    assert!(FormatVersion(29) > FormatVersion::V28());
    assert!(FormatVersion(29) < FormatVersion::V31());
}

#[test]
fn known_and_era_helpers() {
    assert!(FormatVersion::V25().is_known());
    assert!(!FormatVersion(29).is_known());
    assert!(FormatVersion::V25().is_tft());
    assert!(!FormatVersion::V18().is_tft());
    assert!(FormatVersion::V31().is_reforged());
    assert!(!FormatVersion::V28().is_reforged());
}

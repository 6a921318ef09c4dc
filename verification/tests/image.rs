use war3parser::error::Error;
use war3parser::model::blp::blp_is_within_limits;
use war3parser::model::image::{War3Image, War3ImageBase64};
use war3parser::mpq::crypt::{encrypt, hash_string};
use war3parser::w3x::War3MapW3x;

/// A 1x1 uncompressed true-colour TGA holding one pixel, stored blue first.
fn tga_pixel(b: u8, g: u8, r: u8) -> Vec<u8> {
    let mut out = vec![0u8, 0, 2, 0, 0, 0, 0, 0, 0, 0, 0, 0];
    out.extend_from_slice(&1u16.to_le_bytes());
    out.extend_from_slice(&1u16.to_le_bytes());
    out.push(24);
    out.push(0x20);
    out.extend_from_slice(&[b, g, r]);
    out
}

/// An archive holding one stored (uncompressed, single-unit) member.
fn archive_with_stored_member(name: &str, payload: &[u8]) -> Vec<u8> {
    let packed = payload.len() as u32;
    let hash_pos = 0x20 + packed;
    let block_pos = hash_pos + 16;

    let mut hash_raw = vec![0u8; 16];
    hash_raw[0..4].copy_from_slice(&hash_string(name, 0x100).to_le_bytes());
    hash_raw[4..8].copy_from_slice(&hash_string(name, 0x200).to_le_bytes());
    hash_raw[12..16].copy_from_slice(&0u32.to_le_bytes());
    encrypt(&mut hash_raw, hash_string("(hash table)", 0x300));

    let mut block_raw = vec![0u8; 16];
    block_raw[0..4].copy_from_slice(&0x20u32.to_le_bytes());
    block_raw[4..8].copy_from_slice(&packed.to_le_bytes());
    block_raw[8..12].copy_from_slice(&packed.to_le_bytes());
    block_raw[12..16].copy_from_slice(&0x8100_0000u32.to_le_bytes());
    encrypt(&mut block_raw, hash_string("(block table)", 0x300));

    let mut out: Vec<u8> = Vec::new();
    out.extend_from_slice(b"MPQ\x1a");
    out.extend_from_slice(&0x20u32.to_le_bytes());
    out.extend_from_slice(&(block_pos + 16).to_le_bytes());
    out.extend_from_slice(&0u16.to_le_bytes());
    out.extend_from_slice(&3u16.to_le_bytes());
    out.extend_from_slice(&hash_pos.to_le_bytes());
    out.extend_from_slice(&block_pos.to_le_bytes());
    out.extend_from_slice(&1u32.to_le_bytes());
    out.extend_from_slice(&1u32.to_le_bytes());
    out.extend_from_slice(payload);
    out.extend_from_slice(&hash_raw);
    out.extend_from_slice(&block_raw);
    out
}

#[test]
fn a_tga_decodes_to_rgba() {
    let image = War3Image::from_buffer(&tga_pixel(0x10, 0x20, 0x30), "war3mapMap.tga").unwrap();
    assert_eq!((image.width, image.height), (1, 1));
    assert_eq!(image.rgba, vec![0x30, 0x20, 0x10, 0xFF]);
    assert_eq!(image.filename, "war3mapMap.tga");
}

#[test]
fn a_tga_is_not_a_blp() {
    match War3Image::load_blp(&tga_pixel(1, 2, 3), "x.blp") {
        Err(Error::UnsupportedImage(name)) => assert_eq!(name, "x.blp"),
        other => panic!("expected an unsupported image, got {:?}", other),
    }
}

#[test]
fn bytes_of_no_image_format_are_refused_by_name() {
    let result = War3Image::from_buffer(&[1, 2, 3], "war3mapPreview.blp");
    match result {
        Err(e) => {
            assert_eq!(e.message(), "failed to decode `war3mapPreview.blp` as BLP or TGA");
        },
        Ok(_) => panic!("three bytes are no image"),
    }
}

#[test]
fn an_image_becomes_a_png_data_url() {
    let image = War3Image::from_buffer(&tga_pixel(0, 0, 0xFF), "war3mapMap.tga").unwrap();
    let data = image.to_data().unwrap();
    // the base64 of the PNG signature
    assert!(data.data_url.starts_with("data:image/png;base64,iVBORw0KGgo"));
    assert_eq!((data.width, data.height), (1, 1));
    assert_eq!(data.filename, "war3mapMap.tga");
}

#[test]
fn the_minimap_is_read_from_the_first_name_present() {
    let bytes = archive_with_stored_member("war3mapMap.tga", &tga_pixel(0x01, 0x02, 0x03));
    let mut map = War3MapW3x::from_vec(bytes).unwrap();
    let image = map.read_minimap().unwrap();
    assert_eq!(image.filename, "war3mapMap.tga");
    assert_eq!(image.rgba, vec![0x03, 0x02, 0x01, 0xFF]);
}

#[test]
fn a_map_without_a_preview_reports_the_stem() {
    let bytes = archive_with_stored_member("war3mapMap.tga", &tga_pixel(0, 0, 0));
    let mut map = War3MapW3x::from_vec(bytes).unwrap();
    match map.read_preview() {
        Err(Error::FileNotFound(name)) => assert_eq!(name, "war3mapPreview"),
        other => panic!("expected the preview to be missing, got {:?}", other.map(|i| i.filename)),
    }
}

#[test]
fn an_image_converts_to_a_base64_record() {
    let image = War3Image::from_buffer(&tga_pixel(1, 2, 3), "war3mapMap.tga").unwrap();
    let encoded = War3ImageBase64::try_from(image).unwrap();
    assert!(encoded.data.starts_with("data:image/png;base64,iVBORw0KGgo"));
    assert_eq!(encoded.filename, "war3mapMap.tga");
}

#[test]
fn file_names_come_from_the_listfile() {
    let bytes = archive_with_stored_member("(listfile)", b"b.txt\r\n\r\n  a.txt  \n");
    let mut map = War3MapW3x::from_vec(bytes).unwrap();
    assert_eq!(map.files, Some(vec!["b.txt".to_string(), "a.txt".to_string()]));
    let names = War3MapW3x::get_file_names(&mut map.archive).unwrap();
    assert_eq!(names, vec!["b.txt".to_string(), "a.txt".to_string()]);
}

/// A 1x1 BLP1 image with a palette and 8-bit alpha: palette entry 0 holds
/// 0x00332211, and the one pixel is index 0 with alpha 0x44.
fn blp1_pixel() -> Vec<u8> {
    let mut out: Vec<u8> = Vec::new();
    out.extend_from_slice(b"BLP1");
    out.extend_from_slice(&1u32.to_le_bytes());
    out.extend_from_slice(&8u32.to_le_bytes());
    out.extend_from_slice(&1u32.to_le_bytes());
    out.extend_from_slice(&1u32.to_le_bytes());
    out.extend_from_slice(&5u32.to_le_bytes());
    out.extend_from_slice(&0u32.to_le_bytes());
    let pixels_at = 156u32 + 1024;
    let mut offsets = [0u32; 16];
    let mut sizes = [0u32; 16];
    offsets[0] = pixels_at;
    sizes[0] = 2;
    for o in offsets {
        out.extend_from_slice(&o.to_le_bytes());
    }
    for s in sizes {
        out.extend_from_slice(&s.to_le_bytes());
    }
    out.extend_from_slice(&0x0033_2211u32.to_le_bytes());
    out.resize(pixels_at as usize, 0);
    out.push(0);
    out.push(0x44);
    out
}

fn set_word(data: &mut [u8], at: usize, value: u32) {
    data[at..at + 4].copy_from_slice(&value.to_le_bytes());
}

#[test]
fn a_paletted_blp_decodes_to_rgba() {
    let blp = blp1_pixel();
    assert!(blp_is_within_limits(&blp));
    let image = War3Image::load_blp(&blp, "war3mapMap.blp").unwrap();
    assert_eq!((image.width, image.height), (1, 1));
    assert_eq!(image.rgba, vec![0x11, 0x22, 0x33, 0x44]);
}

#[test]
fn a_blp_whose_mipmap_end_wraps_is_refused_without_a_panic() {
    let mut blp = blp1_pixel();
    set_word(&mut blp, 92, 0xFFFF_FFF0);
    assert!(!blp_is_within_limits(&blp));
    match War3Image::load_blp(&blp, "x.blp") {
        Err(Error::UnsupportedImage(name)) => assert_eq!(name, "x.blp"),
        other => panic!("unexpected {:?}", other),
    }
    assert!(War3Image::from_buffer(&blp, "x.blp").is_err());
}

#[test]
fn a_blp_whose_pixel_count_overflows_is_refused() {
    let mut blp = blp1_pixel();
    set_word(&mut blp, 12, 0x10000);
    set_word(&mut blp, 16, 0x10000);
    assert!(!blp_is_within_limits(&blp));
    assert!(War3Image::load_blp(&blp, "x.blp").is_err());
}

#[test]
fn a_jpeg_blp_is_never_handed_to_the_decoder() {
    let mut blp = blp1_pixel();
    set_word(&mut blp, 4, 0);
    assert!(!blp_is_within_limits(&blp));
    match War3Image::load_blp(&blp, "x.blp") {
        Err(Error::UnsupportedImage(name)) => assert_eq!(name, "x.blp"),
        other => panic!("unexpected {:?}", other),
    }
}

/// A BLP2 DXT1 image of `width` x `height` whose level 0 stores `blocks`
/// blocks, each white in its four-colour mode.
fn blp2_dxt1(width: u32, height: u32, blocks: u32) -> Vec<u8> {
    let mut blp: Vec<u8> = Vec::new();
    blp.extend_from_slice(b"BLP2");
    blp.extend_from_slice(&1u32.to_le_bytes());
    blp.extend_from_slice(&[2, 0, 0, 0]);
    blp.extend_from_slice(&width.to_le_bytes());
    blp.extend_from_slice(&height.to_le_bytes());
    blp.resize(148, 0);
    let at = 148 + 1024;
    set_word(&mut blp, 20, at);
    set_word(&mut blp, 84, blocks * 8);
    blp.resize(at as usize, 0);
    for _ in 0..blocks {
        blp.extend_from_slice(&[0xFF, 0xFF, 0, 0, 0, 0, 0, 0]);
    }
    blp
}

#[test]
fn dxt_content_may_end_in_partial_blocks() {
    let blp = blp2_dxt1(4, 5, 2);
    assert!(blp_is_within_limits(&blp));
    let image = War3Image::load_blp(&blp, "x.blp").unwrap();
    assert_eq!((image.width, image.height), (4, 5));
    assert_eq!(image.rgba, vec![0xFF; 4 * 4 * 5]);
    assert!(blp_is_within_limits(&blp2_dxt1(6, 4, 2)));
    assert!(blp_is_within_limits(&blp2_dxt1(8, 8, 4)));
}

#[test]
fn dxt_content_must_hold_every_block_the_decoder_reads() {
    assert!(!blp_is_within_limits(&blp2_dxt1(8, 8, 3)));
    let five = blp2_dxt1(5, 5, 4);
    assert!(!blp_is_within_limits(&five));
    assert!(War3Image::load_blp(&five, "x.blp").is_err());
    assert!(!blp_is_within_limits(&blp2_dxt1(0, 4, 1)));
    assert!(blp_is_within_limits(b"no image at all"));
}

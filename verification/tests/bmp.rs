use powerchecker::bmp::{header_fits, is_bmp, parse_bmp_header, row_to_rgb565, BmpInfo, ImageCatalog, SdError};
use powerchecker::power::PowerLevel;

fn header(width: i32, height: i32, bpp: u16, offset: u32) -> [u8; 54] {
    let mut h = [0u8; 54];
    h[0] = b'B';
    h[1] = b'M';
    h[10..14].copy_from_slice(&offset.to_le_bytes());
    h[18..22].copy_from_slice(&width.to_le_bytes());
    h[22..26].copy_from_slice(&height.to_le_bytes());
    h[28..30].copy_from_slice(&bpp.to_le_bytes());
    h
}

#[test]
fn bottom_up_24bpp_header() {
    let info = parse_bmp_header(&header(141, 184, 24, 54)).unwrap();
    assert_eq!(
        info,
        BmpInfo { width: 141, height: 184, bits_per_pixel: 24, data_offset: 54, row_stride: 424, top_down: false }
    );
}

#[test]
fn top_down_header() {
    let info = parse_bmp_header(&header(320, -240, 16, 138)).unwrap();
    assert_eq!(info.height, 240);
    assert!(info.top_down);
    assert_eq!(info.row_stride, 640);
    assert_eq!(info.row_offset(0), 138);
    assert_eq!(info.draw_size(140, 184), (140, 184));
}

#[test]
fn bottom_up_rows_are_read_backwards() {
    let info = parse_bmp_header(&header(2, 3, 32, 54)).unwrap();
    assert_eq!(info.row_offset(0), 54 + 2 * 8);
    assert_eq!(info.row_offset(2), 54);
    assert_eq!(info.row_read_len(2, 960), 8);
    assert_eq!(info.row_read_len(400, 960), 960);
}

#[test]
fn bad_headers() {
    let mut h = header(10, 10, 24, 54);
    h[0] = b'P';
    assert_eq!(parse_bmp_header(&h), Err(SdError::BadBmp));
    assert_eq!(parse_bmp_header(&header(10, 10, 8, 54)), Err(SdError::BadBmp));
}

#[test]
fn rows_to_rgb565() {
    let mut out = [0xAAAAu16; 4];
    row_to_rgb565(&[0xFF, 0x00, 0x00, 0x00, 0xFF, 0x00, 0x00, 0x00, 0xFF], 24, 3, &mut out);
    assert_eq!(out, [0x001F, 0x07E0, 0xF800, 0xAAAA]);

    let mut out = [0u16; 2];
    row_to_rgb565(&[0x34, 0x12, 0x78, 0x56], 16, 5, &mut out);
    assert_eq!(out, [0x1234, 0x5678]);

    let mut out = [7u16; 2];
    row_to_rgb565(&[1, 2, 3, 4], 8, 2, &mut out);
    assert_eq!(out, [7, 7]);
}

#[test]
fn bmp_names() {
    assert!(is_bmp("PHOTO1.BMP"));
    assert!(is_bmp("photo1.bmp"));
    assert!(is_bmp(".Bmp"));
    assert!(!is_bmp("photo1.jpg"));
    assert!(!is_bmp("bmp"));
}

#[test]
fn power_images_cycle() {
    let mut cat = ImageCatalog::new();
    assert_eq!(cat.next_power_image(PowerLevel::Low), Err(SdError::NoImage));
    cat.set_power_files(PowerLevel::Low, vec!["A.BMP".to_string(), "B.BMP".to_string()]);
    assert_eq!(cat.next_power_image(PowerLevel::Low), Ok("A.BMP".to_string()));
    assert_eq!(cat.next_power_image(PowerLevel::Low), Ok("B.BMP".to_string()));
    assert_eq!(cat.next_power_image(PowerLevel::Low), Ok("A.BMP".to_string()));
    assert_eq!(cat.next_power_image(PowerLevel::High), Err(SdError::NoImage));
}

#[test]
fn photos() {
    let mut cat = ImageCatalog::new();
    cat.set_photo_files(vec!["P1.BMP".to_string(), "P2.BMP".to_string()]);
    cat.set_power_files(PowerLevel::Mid, vec!["M.BMP".to_string()]);
    assert_eq!(cat.photo_count(), 2);
    assert_eq!(cat.total_count(), 3);
    assert_eq!(cat.photo_name(1), Ok("P2.BMP".to_string()));
    assert_eq!(cat.photo_name(2), Err(SdError::NoImage));
}

#[test]
fn header_overflow_is_detected() {
    assert!(header_fits(&header(320, 240, 24, 54)));
    assert!(header_fits(&header(0x3fff_ffff, 1, 32, 54)));
    assert!(!header_fits(&header(0x4000_0000, 1, 32, 54)));
    assert!(!header_fits(&header(i32::MIN, 1, 32, 54)));
    let mut not_bmp = header(i32::MIN, 1, 32, 54);
    not_bmp[0] = b'X';
    assert!(header_fits(&not_bmp));
    assert!(header_fits(&header(i32::MIN, 1, 8, 54)));
}

#[test]
fn bmp_names_keep_order() {
    let names = ["A.BMP", "notes.txt", "b.bmp", "C.Bmp", "bmp", "D.JPG"].iter().map(|s| s.to_string()).collect();
    assert_eq!(powerchecker::bmp::bmp_names(names), ["A.BMP", "b.bmp", "C.Bmp"]);
}

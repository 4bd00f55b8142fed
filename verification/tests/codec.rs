use pixelgen::ppm::{encode_image, parse_ppm_header, ppm_file_name};
use pixelgen::render::render_range;

/// Encoding a buffer and re-parsing the header recovers the dimensions
/// exactly, and the pixel data is three bytes per pixel.
#[test]
fn header_round_trip() {
    let pixels = vec![0xFF0000u32, 0x00FF00, 0x0000FF, 0x123456];
    let data = encode_image(&pixels, 0, 2, 2);
    let (w, h, off) = parse_ppm_header(&data).unwrap();
    assert_eq!(w, 2);
    assert_eq!(h, 2);
    assert_eq!(data.len() - off, 2 * 2 * 3);
}

/// The exact bytes of a small encoding: ASCII header, then one pixel as
/// red, green, blue bytes in that order.
#[test]
fn encoding_bytes_are_exact() {
    let pixels = vec![0xABCDEFu32];
    let data = encode_image(&pixels, 0, 1, 1);
    assert_eq!(&data[..11], b"P6\n1 1 255\n");
    assert_eq!(&data[11..], &[0xAB, 0xCD, 0xEF]);
}

/// Encoding slices the shared buffer by the given start offset.
#[test]
fn encoding_uses_the_offset() {
    let pixels = vec![0u32, 0, 0, 0x010203, 0x040506, 0x070809, 0x0A0B0C];
    let data = encode_image(&pixels, 3, 2, 2);
    assert_eq!(&data[..11], b"P6\n2 2 255\n");
    assert_eq!(
        &data[11..],
        &[1, 2, 3, 4, 5, 6, 7, 8, 9, 10, 11, 12]
    );
}

/// A 512x512 render of the id range 0..1 yields exactly one image whose
/// encoding is the header `"P6\n512 512 255\n"` and 512*512*3 data bytes,
/// and whose file is named "0.ppm".
#[test]
fn single_image_batch() {
    let buf = render_range(512, 512, 0, 1).unwrap();
    assert_eq!(buf.len(), 512 * 512);
    let data = encode_image(&buf, 0, 512, 512);
    let header = b"P6\n512 512 255\n";
    assert_eq!(&data[..header.len()], header);
    assert_eq!(data.len() - header.len(), 512 * 512 * 3);
    let (w, h, off) = parse_ppm_header(&data).unwrap();
    assert_eq!((w, h, off), (512, 512, header.len()));
    assert_eq!(ppm_file_name(0), "0.ppm");
}

/// Files are named by the decimal pattern id with the `.ppm` suffix.
#[test]
fn file_names_are_decimal_ids() {
    assert_eq!(ppm_file_name(0), "0.ppm");
    assert_eq!(ppm_file_name(5), "5.ppm");
    assert_eq!(ppm_file_name(21), "21.ppm");
    assert_eq!(ppm_file_name(1234567890), "1234567890.ppm");
}

/// Bytes that begin with no well-formed header parse to nothing.
#[test]
fn malformed_headers_are_rejected() {
    assert_eq!(parse_ppm_header(&vec![]), None);
    assert_eq!(parse_ppm_header(&b"P5\n2 2 255\n".to_vec()), None);
    assert_eq!(parse_ppm_header(&b"P6\n 2 255\n".to_vec()), None);
    assert_eq!(parse_ppm_header(&b"P6\n2 2 254\n".to_vec()), None);
    assert_eq!(parse_ppm_header(&b"P6\n2 2 255".to_vec()), None);
    assert_eq!(parse_ppm_header(&b"P6\n2x2 255\n".to_vec()), None);
}

/// A dimension too wide for 64 bits is rejected.
#[test]
fn oversized_dimensions_are_rejected() {
    let data = b"P6\n99999999999999999999999999 5 255\n".to_vec();
    assert_eq!(parse_ppm_header(&data), None);
}

/// Parsing reads the numbers with maximal munch: the digits before each
/// separator belong to one number.
#[test]
fn parses_multi_digit_dimensions() {
    let data = b"P6\n640 480 255\nXYZ".to_vec();
    let (w, h, off) = parse_ppm_header(&data).unwrap();
    assert_eq!((w, h), (640, 480));
    assert_eq!(off, 15);
}

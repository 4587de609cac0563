use peak_vista::{ElevationParser, ErrorKind, PngError, RgbRaster, NO_DATA, ZERO_LEVEL};

fn channels(packed: u32) -> [u8; 3] {
    [(packed >> 16) as u8, (packed >> 8) as u8, packed as u8]
}

/// The packed value that the tests put at (row, column).
fn packed_at(row: u32, column: u32) -> u32 {
    if row == 3 && column == 5 {
        NO_DATA
    } else {
        ZERO_LEVEL + row * 256 + column
    }
}

fn encode_png(width: u32, height: u32) -> Vec<u8> {
    let picture = image::RgbImage::from_fn(width, height, |x, y| image::Rgb(channels(packed_at(y, x))));
    let mut bytes: Vec<u8> = Vec::new();
    image::DynamicImage::ImageRgb8(picture)
        .write_to(&mut std::io::Cursor::new(&mut bytes), image::ImageFormat::Png)
        .unwrap();
    bytes
}

#[test]
fn pixel_height_is_in_centimetres_above_the_floor() {
    assert_eq!(ElevationParser::pixel_height(0, 0, 0), -1_000_000);
    assert_eq!(ElevationParser::pixel_height(0x0f, 0x42, 0x40), 0);
    assert_eq!(ElevationParser::pixel_height(0x0f, 0x42, 0x41), 1);
    assert_eq!(ElevationParser::pixel_height(0x0f, 0x42, 0x3f), -1);
    assert_eq!(ElevationParser::pixel_height(0x10, 0x00, 0x00), 48_576);
    assert_eq!(ElevationParser::pixel_height(0xff, 0xff, 0xff), 15_777_215);
    // One below and one above the mark.
    assert_eq!(ElevationParser::pixel_height(0x7f, 0xff, 0xff), 7_388_607);
    assert_eq!(ElevationParser::pixel_height(0x80, 0x00, 0x01), 7_388_609);
}

#[test]
fn pixel_without_measurement_counts_as_zero() {
    assert_eq!(NO_DATA, 1 << 23);
    assert_eq!(ElevationParser::pixel_height(0x80, 0x00, 0x00), 0);
}

#[test]
fn pixel_height_matches_the_metre_formula() {
    for packed in [0u32, 1, 123_456, 999_999, 1_000_000, 1_000_001, 8_388_607, 8_388_609, 16_777_215] {
        let [r, g, b] = channels(packed);
        let centimetres = ElevationParser::pixel_height(r, g, b);
        let metres = packed as f64 * 0.01 - 10000.0;
        assert!((centimetres as f64 / 100.0 - metres).abs() < 1e-6);
    }
}

#[test]
fn png_decodes_to_a_whole_field() {
    let heights = ElevationParser::parse_png(&encode_png(256, 256)).unwrap();
    assert_eq!(heights.len(), 65536);
    assert_eq!(ElevationParser::get_elevation_array_len(&heights), 65536);
    for row in 0..256u32 {
        for column in 0..256u32 {
            let expected = if row == 3 && column == 5 { 0 } else { (row * 256 + column) as i32 };
            assert_eq!(heights[(row * 256 + column) as usize], expected);
        }
    }
}

#[test]
fn png_of_another_size_is_refused() {
    let error = ElevationParser::parse_png(&encode_png(255, 256)).unwrap_err();
    assert!(matches!(error, PngError::ImageSize { width: 255, height: 256 }));
    assert_eq!(error.kind(), ErrorKind::Shape);
    assert_eq!(error.message(), "Invalid image size: 255x256, expected 256x256");

    let error = ElevationParser::parse_png(&encode_png(256, 2)).unwrap_err();
    assert!(matches!(error, PngError::ImageSize { width: 256, height: 2 }));

    let error = ElevationParser::parse_png(&encode_png(512, 128)).unwrap_err();
    assert!(matches!(error, PngError::ImageSize { width: 512, height: 128 }));
    assert_eq!(error.message(), "Invalid image size: 512x128, expected 256x256");
}

#[test]
fn bytes_that_are_no_image_are_refused() {
    let error = ElevationParser::parse_png(b"not an image at all").unwrap_err();
    assert!(matches!(error, PngError::Undecodable(_)));
    assert_eq!(error.kind(), ErrorKind::Format);
    assert!(error.message().starts_with("Failed to decode PNG: "));

    let error = ElevationParser::parse_png(&[]).unwrap_err();
    assert!(matches!(error, PngError::Undecodable(_)));
}

#[test]
fn truncated_png_is_refused() {
    let mut bytes = encode_png(256, 256);
    bytes.truncate(bytes.len() / 2);
    let error = ElevationParser::parse_png(&bytes).unwrap_err();
    assert!(matches!(error, PngError::Undecodable(_)));
    assert!(error.message().starts_with("Failed to decode PNG: "));
}

#[test]
fn raster_needs_three_bytes_per_pixel() {
    assert!(RgbRaster::new(2, 2, vec![0; 12]).is_some());
    assert!(RgbRaster::new(2, 2, vec![0; 11]).is_none());
    assert!(RgbRaster::new(2, 2, vec![0; 13]).is_none());
    assert!(RgbRaster::new(0, 7, Vec::new()).is_some());
    assert!(RgbRaster::new(u32::MAX, u32::MAX, vec![0; 3]).is_none());
    let raster = RgbRaster::new(1, 2, vec![1, 2, 3, 4, 5, 6]).unwrap();
    assert_eq!(raster.width(), 1);
    assert_eq!(raster.height(), 2);
    assert_eq!(raster.pixels(), &[1, 2, 3, 4, 5, 6]);
}

#[test]
fn heights_are_read_off_a_raster_in_row_major_order() {
    let mut pixels: Vec<u8> = Vec::with_capacity(3 * 65536);
    for row in 0..256u32 {
        for column in 0..256u32 {
            pixels.extend_from_slice(&channels(packed_at(row, column)));
        }
    }
    let raster = RgbRaster::new(256, 256, pixels).unwrap();
    let heights = ElevationParser::heights_from_rgb(&raster).unwrap();
    assert_eq!(heights.len(), 65536);
    assert_eq!(heights[0], 0);
    assert_eq!(heights[1], 1);
    assert_eq!(heights[256], 256);
    assert_eq!(heights[3 * 256 + 5], 0);
    assert_eq!(heights[3 * 256 + 6], 3 * 256 + 6);
    assert_eq!(heights[65535], 65535);
}

#[test]
fn raster_of_another_size_is_refused() {
    let raster = RgbRaster::new(128, 512, vec![0; 3 * 65536]).unwrap();
    let error = ElevationParser::heights_from_rgb(&raster).unwrap_err();
    assert!(matches!(error, PngError::ImageSize { width: 128, height: 512 }));
    assert_eq!(error.message(), "Invalid image size: 128x512, expected 256x256");

    let raster = RgbRaster::new(0, 0, Vec::new()).unwrap();
    let error = ElevationParser::heights_from_rgb(&raster).unwrap_err();
    assert!(matches!(error, PngError::ImageSize { width: 0, height: 0 }));
    assert_eq!(error.message(), "Invalid image size: 0x0, expected 256x256");
}

use image::{GrayImage, ImageFormat, Luma};
use qrlyzer::detect::payloads;
use qrlyzer::{
    Action, BoundingBox, DetectError, Detection, Detector, Image, LadderConfig, Point, Reading,
};
use rxing::qrcode::QRCodeWriter;
use rxing::{BarcodeFormat, DecodeHints, Writer};
use std::io::Cursor;

/// What the first decoder reads in an image.
fn with_rqrr(image: &Image) -> Vec<Option<Reading>> {
    let gray = GrayImage::from_raw(image.width, image.height, image.data.clone()).unwrap();
    let mut prepared = rqrr::PreparedImage::prepare(gray);
    let grids = prepared.detect_grids();
    grids
        .iter()
        .map(|grid| {
            let corners = grid.bounds.iter().map(|p| Point::from_pixels(p.x, p.y)).collect();
            grid.decode().ok().map(|(_, text)| Reading { text, corners })
        })
        .collect()
}

/// What the second decoder reads in an image.
fn with_rxing(image: &Image) -> Option<Reading> {
    let mut hints = DecodeHints { TryHarder: Some(true), ..Default::default() };
    let found = rxing::helpers::detect_in_luma_with_hints(
        image.data.clone(),
        image.width,
        image.height,
        Some(BarcodeFormat::QR_CODE),
        &mut hints,
    )
    .ok()?;
    let corners = found
        .getPoints()
        .iter()
        .map(|p| Point::from_single_bits(p.x.to_bits(), p.y.to_bits()))
        .collect();
    Some(Reading { text: found.getText().to_string(), corners })
}

/// Runs the decoders as the detector asks, until it is done.
fn run(begun: (Detector, Action)) -> Vec<Detection> {
    let (mut detector, mut action) = begun;
    loop {
        let next = match action {
            Action::Done(found) => return found,
            Action::First(image) => detector.first_answered(with_rqrr(&image)),
            Action::Second(image) => detector.second_answered(with_rxing(&image)),
        };
        detector = next.0;
        action = next.1;
    }
}

fn detect_with_config(image: &Image, auto_resize: bool, config: LadderConfig) -> Vec<Detection> {
    run(Detector::start(image.clone(), auto_resize, config))
}

fn detect_and_decode_with_bbox(image: &Image, auto_resize: bool) -> Vec<Detection> {
    detect_with_config(image, auto_resize, LadderConfig::standard())
}

fn detect_and_decode(image: &Image, auto_resize: bool) -> Vec<String> {
    payloads(&detect_and_decode_with_bbox(image, auto_resize))
}

fn detect_and_decode_from_bytes_with_bbox(
    data: Vec<u8>,
    width: u32,
    height: u32,
    auto_resize: bool,
) -> Result<Vec<Detection>, DetectError> {
    Detector::start_from_bytes(data, width, height, auto_resize).map(run)
}

fn detect_and_decode_from_bytes(
    data: Vec<u8>,
    width: u32,
    height: u32,
    auto_resize: bool,
) -> Result<Vec<String>, DetectError> {
    detect_and_decode_from_bytes_with_bbox(data, width, height, auto_resize)
        .map(|found| payloads(&found))
}

fn assert_bbox_within_image(bbox: BoundingBox, width: u32, height: u32) {
    assert!(bbox.width > 0);
    assert!(bbox.height > 0);
    assert!(bbox.x + bbox.width <= width);
    assert!(bbox.y + bbox.height <= height);
}

/// A clean QR code for `content`, about `size` pixels wide, dark on light.
fn clean_code(content: &str, size: u32) -> GrayImage {
    let matrix = QRCodeWriter
        .encode(content, &BarcodeFormat::QR_CODE, size as i32, size as i32)
        .unwrap();
    GrayImage::from_fn(size, size, |x, y| {
        if matrix.get(x, y) {
            Luma([0u8])
        } else {
            Luma([255u8])
        }
    })
}

/// A QR code for `content` whose modules are dithered: three pixels in four
/// have the module's colour, the fourth the other one. No row holds a clean
/// run at this size; scaled down, the pattern blends into two grays.
fn dithered_code(content: &str, size: u32) -> GrayImage {
    let matrix = QRCodeWriter
        .encode(content, &BarcodeFormat::QR_CODE, size as i32, size as i32)
        .unwrap();
    GrayImage::from_fn(size, size, |x, y| {
        let odd_one = (x + 2 * y) % 4 == 0;
        if matrix.get(x, y) != odd_one {
            Luma([0u8])
        } else {
            Luma([255u8])
        }
    })
}

/// The image that comes back from a PNG file's bytes, as the library holds it.
fn through_png(picture: &GrayImage) -> Image {
    let mut file = Cursor::new(Vec::new());
    picture.write_to(&mut file, ImageFormat::Png).unwrap();
    let loaded = image::load_from_memory(file.get_ref()).unwrap().to_luma8();
    let (width, height) = (loaded.width(), loaded.height());
    Image::from_raw(width, height, loaded.into_raw()).unwrap()
}

const LARGE: u32 = 1400;

#[test]
fn test_detect_and_decode_from_bytes_invalid_dimensions() {
    // 10x10 image requires 100 bytes but using only 50 bytes
    let data = vec![0u8; 50];
    let result = detect_and_decode_from_bytes(data, 10, 10, false);
    assert!(result.is_err());
    assert_eq!(result.unwrap_err(), DetectError::InputShape);
}

#[test]
fn test_detect_and_decode_from_bytes_blank_image() {
    let width = 10;
    let height = 10;
    let data = vec![0u8; (width * height) as usize];
    let result = detect_and_decode_from_bytes(data, width, height, false).unwrap();
    // No QR code expected in a blank image.
    assert!(result.is_empty());
}

#[test]
fn test_detect_and_decode_blank_image_file() {
    let width = 10;
    let height = 10;
    let picture: GrayImage = GrayImage::from_pixel(width, height, Luma([0u8]));
    let image = through_png(&picture);
    let result = detect_and_decode(&image, false);
    // Should return an empty vector as no QR code is present.
    assert!(result.is_empty());
}

#[test]
fn test_detect_and_decode_success_file() {
    let image = through_png(&clean_code("qrlyzer", 200));
    let result = detect_and_decode(&image, false);
    assert_eq!(result, vec!["qrlyzer".to_string()]);
}

#[test]
fn test_detect_and_decode_success_bytes() {
    let img = clean_code("qrlyzer", 200);
    let (width, height) = (img.width(), img.height());
    let data = img.into_vec();
    let result = detect_and_decode_from_bytes(data, width, height, false).unwrap();
    assert_eq!(result, vec!["qrlyzer".to_string()]);
}

#[test]
fn test_detect_and_decode_success_file_requires_resize() {
    let image = through_png(&dithered_code("qrlyzer", LARGE));
    let result = detect_and_decode(&image, true);
    assert_eq!(result, vec!["qrlyzer".to_string()]);
}

#[test]
fn test_detect_and_decode_failure_file_requires_resize() {
    let image = through_png(&dithered_code("qrlyzer", LARGE));
    let result = detect_and_decode(&image, false);
    assert_eq!(result, [] as [&str; 0]);
}

#[test]
fn test_detect_and_decode_with_bbox_success_file() {
    let picture = clean_code("qrlyzer", 200);
    let image = through_png(&picture);
    let result = detect_and_decode_with_bbox(&image, false);
    assert_eq!(result.len(), 1);
    assert_eq!(result[0].content, "qrlyzer");
    assert_bbox_within_image(result[0].bbox, picture.width(), picture.height());
}

#[test]
fn test_detect_and_decode_with_bbox_success_file_requires_resize() {
    let picture = dithered_code("qrlyzer", LARGE);
    let image = through_png(&picture);
    let result = detect_and_decode_with_bbox(&image, true);
    assert_eq!(result.len(), 1);
    assert_eq!(result[0].content, "qrlyzer");
    assert_bbox_within_image(result[0].bbox, picture.width(), picture.height());
}

#[test]
fn test_detect_and_decode_from_bytes_with_bbox_success() {
    let img = clean_code("qrlyzer", 200);
    let (width, height) = (img.width(), img.height());
    let data = img.into_vec();
    let result = detect_and_decode_from_bytes_with_bbox(data, width, height, false).unwrap();
    assert_eq!(result.len(), 1);
    assert_eq!(result[0].content, "qrlyzer");
    assert_bbox_within_image(result[0].bbox, width, height);
}

#[test]
fn test_detect_and_decode_from_bytes_with_bbox_success_requires_resize() {
    let img = dithered_code("qrlyzer", LARGE);
    let (width, height) = (img.width(), img.height());
    let data = img.into_vec();
    let result = detect_and_decode_from_bytes_with_bbox(data, width, height, true).unwrap();
    assert_eq!(result.len(), 1);
    assert_eq!(result[0].content, "qrlyzer");
    assert_bbox_within_image(result[0].bbox, width, height);
}

use oqqwall::qzone::{
    detect_upload_source_format, rgba_has_transparency, upload_plan, UploadPlan,
    UploadSourceFormat, MAX_UPLOAD_IMAGE_BYTES,
};

fn png_bytes(width: u32, height: u32, transparent: bool) -> Vec<u8> {
    let mut img = image::RgbaImage::new(width, height);
    for (x, y, p) in img.enumerate_pixels_mut() {
        let alpha = if transparent && (x + y) % 7 == 0 { 128 } else { 255 };
        *p = image::Rgba([(x % 256) as u8, (y % 256) as u8, ((x + y) % 256) as u8, alpha]);
    }
    let mut cursor = std::io::Cursor::new(Vec::new());
    image::DynamicImage::ImageRgba8(img)
        .write_to(&mut cursor, image::ImageFormat::Png)
        .expect("encode png");
    cursor.into_inner()
}

#[test]
fn encoded_png_is_detected_as_png() {
    let bytes = png_bytes(32, 24, false);
    assert_eq!(detect_upload_source_format(&bytes), UploadSourceFormat::Png);
}

#[test]
fn gif_signatures_are_detected_as_gif() {
    assert_eq!(detect_upload_source_format(b"GIF89a\x01\x00\x01\x00"), UploadSourceFormat::Gif);
    assert_eq!(detect_upload_source_format(b"GIF87a\x01\x00\x01\x00"), UploadSourceFormat::Gif);
}

#[test]
fn jpeg_and_unknown_bytes_are_other() {
    assert_eq!(detect_upload_source_format(&[0xff, 0xd8, 0xff, 0xe0]), UploadSourceFormat::Other);
    assert_eq!(detect_upload_source_format(b"GIF8"), UploadSourceFormat::Other);
    assert_eq!(detect_upload_source_format(b""), UploadSourceFormat::Other);
    assert_eq!(detect_upload_source_format(b"hello world"), UploadSourceFormat::Other);
}

#[test]
fn small_png_is_uploaded_as_is() {
    let bytes = png_bytes(320, 240, false);
    assert!(bytes.len() < MAX_UPLOAD_IMAGE_BYTES);
    let plan = upload_plan(bytes.len(), detect_upload_source_format(&bytes));
    assert_eq!(plan, UploadPlan::Original);
}

#[test]
fn oversized_png_and_gif_take_their_own_branches() {
    let mut bytes = png_bytes(64, 36, true);
    bytes.resize(MAX_UPLOAD_IMAGE_BYTES + 1, 0);
    assert_eq!(upload_plan(bytes.len(), detect_upload_source_format(&bytes)), UploadPlan::Png);
    let mut gif = b"GIF89a".to_vec();
    gif.resize(MAX_UPLOAD_IMAGE_BYTES + 1, 0);
    assert_eq!(upload_plan(gif.len(), detect_upload_source_format(&gif)), UploadPlan::Gif);
    let mut jpeg = vec![0xff, 0xd8, 0xff];
    jpeg.resize(MAX_UPLOAD_IMAGE_BYTES + 1, 0);
    assert_eq!(upload_plan(jpeg.len(), detect_upload_source_format(&jpeg)), UploadPlan::Jpeg);
    assert_eq!(upload_plan(MAX_UPLOAD_IMAGE_BYTES, UploadSourceFormat::Gif), UploadPlan::Original);
}

#[test]
fn transparency_is_seen_in_decoded_pixels() {
    let transparent = image::load_from_memory(&png_bytes(16, 16, true)).expect("decode").to_rgba8();
    let opaque = image::load_from_memory(&png_bytes(16, 16, false)).expect("decode").to_rgba8();
    assert!(rgba_has_transparency(transparent.as_raw()));
    assert!(!rgba_has_transparency(opaque.as_raw()));
}

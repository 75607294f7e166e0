use picsee_lib::thumbnails::{
    cache_key_bytes, cache_key_from_digest, check_file_size, check_thumbnail_dimensions,
    check_thumbnail_format, classify_system_probe_error, compute_cache_key, decode_route,
    exif_orientation_op, normalize_thumbnail_size, orientation_from_values, orientation_op,
    read_exif_orientation, DecodeRoute, GenError, OrientationOp,
};
use picsee_lib::thumbnails::{
    check_probed_dimensions, compute_cache_id, digest_id, freed_bytes, waiter_outcome, InFlight,
};
use picsee_lib::thumbnails::{
    apply_exif_orientation, decode_image, decode_system_png, encode_thumbnail, next_request_action,
    orient, system_thumbnail_webp, thumbnail_webp, ColorKind, DecodedImage, RequestAction,
    RequestFacts,
};
use image::{ImageBuffer, ImageFormat, Rgb};
use std::io::Cursor;

fn make_jpeg_bytes(width: u32, height: u32) -> Vec<u8> {
    let img: ImageBuffer<Rgb<u8>, _> =
        ImageBuffer::from_fn(width, height, |x, _| Rgb([x as u8, 50u8, 100u8]));
    let dyn_img = image::DynamicImage::ImageRgb8(img);
    let mut buf = Cursor::new(Vec::new());
    dyn_img
        .write_to(&mut buf, ImageFormat::Jpeg)
        .expect("JPEG encoding should succeed");
    buf.into_inner()
}

fn make_png_bytes(width: u32, height: u32) -> Vec<u8> {
    let mut buf = Cursor::new(Vec::new());
    image::DynamicImage::new_rgb8(width, height)
        .write_to(&mut buf, image::ImageFormat::Png)
        .expect("PNG encoding should succeed");
    buf.into_inner()
}

#[test]
fn test_compute_cache_key_deterministic() {
    let path = "/tmp/test.jpg";
    let k1 = compute_cache_key(path, 12345, 9999, 96);
    let k2 = compute_cache_key(path, 12345, 9999, 96);
    assert_eq!(k1, k2, "Cache key must be deterministic");
    assert_eq!(k1.len(), 32, "Cache key must be 32 hex chars");
}

#[test]
fn test_compute_cache_key_differs_on_size() {
    let path = "/tmp/test.jpg";
    let k96 = compute_cache_key(path, 100, 0, 96);
    let k160 = compute_cache_key(path, 100, 0, 160);
    assert_ne!(k96, k160, "Different sizes must produce different cache keys");
}

#[test]
fn cache_key_is_lowercase_hex_of_sha256_prefix() {
    let bytes = cache_key_bytes("/a", 1, 2, 3);
    let mut expected = b"/a:".to_vec();
    expected.extend_from_slice(&1u64.to_le_bytes());
    expected.push(b':');
    expected.extend_from_slice(&2u128.to_le_bytes());
    expected.push(b':');
    expected.extend_from_slice(&3u32.to_le_bytes());
    assert_eq!(bytes, expected);

    let key = compute_cache_key("/a", 1, 2, 3);
    assert!(key.chars().all(|c| c.is_ascii_digit() || ('a'..='f').contains(&c)));
    // The digest of the empty input starts e3 b0 c4 42 ... (SHA-256 of "").
    let digest: Vec<u8> = vec![
        0xe3, 0xb0, 0xc4, 0x42, 0x98, 0xfc, 0x1c, 0x14, 0x9a, 0xfb, 0xf4, 0xc8, 0x99, 0x6f, 0xb9,
        0x24, 0x27, 0xae,
    ];
    assert_eq!(cache_key_from_digest(&digest), "e3b0c44298fc1c149afbf4c8996fb924");
    assert_ne!(compute_cache_key("/a", 1, 2, 3), compute_cache_key("/b", 1, 2, 3));
}

#[test]
fn test_exif_orientation_no_exif_returns_none() {
    let png_bytes = make_png_bytes(1, 1);
    let result = read_exif_orientation(&png_bytes);
    assert!(result.is_none() || result == Some(1));
    assert_eq!(read_exif_orientation(b"not an image"), None);
}

#[test]
fn test_apply_exif_orientation_identity() {
    let jpeg = make_jpeg_bytes(4, 4);
    let img = decode_image(&jpeg, "jpg", "/x/a.jpg").expect("Failed to load test JPEG");
    let (w, h) = (img.width, img.height);
    let oriented = apply_exif_orientation(img, &jpeg);
    assert_eq!((oriented.width, oriented.height), (w, h), "Orientation 1 must not change dimensions");
}

#[test]
fn test_jpeg_decode_uses_memory_not_sips_path() {
    let jpeg = make_jpeg_bytes(8, 6);
    let decoded = decode_image(&jpeg, "jpg", "/nonexistent/plain.jpg")
        .expect("JPEG 应直接从内存由 image-rs 解码");
    assert_eq!((decoded.width, decoded.height), (8, 6));
    assert_eq!(decoded.color, ColorKind::Rgb8);
}

#[test]
fn decode_routes() {
    assert_eq!(decode_route("gif", "/x/a.gif"), DecodeRoute::Gif);
    assert_eq!(decode_route("heic", "/x/a.HEIC"), DecodeRoute::System);
    assert_eq!(decode_route("tif", "/x/a.tif"), DecodeRoute::System);
    assert_eq!(decode_route("png", "/x/a.png"), DecodeRoute::Generic);
}

#[test]
fn orientation_table() {
    assert_eq!(orientation_op(1), OrientationOp::Identity);
    assert_eq!(orientation_op(2), OrientationOp::FlipHorizontal);
    assert_eq!(orientation_op(3), OrientationOp::Rotate180);
    assert_eq!(orientation_op(4), OrientationOp::FlipVertical);
    assert_eq!(orientation_op(5), OrientationOp::Rotate90FlipHorizontal);
    assert_eq!(orientation_op(6), OrientationOp::Rotate90);
    assert_eq!(orientation_op(7), OrientationOp::Rotate270FlipHorizontal);
    assert_eq!(orientation_op(8), OrientationOp::Rotate270);
    assert_eq!(orientation_op(9), OrientationOp::Identity);
    assert_eq!(orientation_from_values(Some(vec![6, 1])), Some(6));
    assert_eq!(orientation_from_values(Some(Vec::new())), None);
    assert_eq!(orientation_from_values(None), None);
}

#[test]
fn test_generate_thumbnail_returns_image_too_large_error() {
    let err = GenError::ImageTooLarge.into_thumbnail_error();
    assert_eq!(err.code, "IMAGE_TOO_LARGE");
}

#[test]
fn test_generate_thumbnail_returns_decode_error() {
    let err = GenError::DecodeFailed("bad data".into()).into_thumbnail_error();
    assert_eq!(err.code, "DECODE_ERROR");
}

#[test]
fn test_generate_thumbnail_returns_io_error() {
    let err = GenError::IoFailed("disk full".into()).into_thumbnail_error();
    assert_eq!(err.code, "IO_ERROR");
}

#[test]
fn waiters_get_the_generator_error() {
    for e in [
        GenError::ImageTooLarge,
        GenError::DecodeFailed("bad data".into()),
        GenError::IoFailed("disk full".into()),
    ] {
        let (code, message) = e.to_in_flight();
        let reported = e.into_thumbnail_error();
        assert_eq!(code, reported.code);
        assert_eq!(message, reported.message);
    }
    assert_eq!(
        GenError::ImageTooLarge.into_thumbnail_error().message,
        "Image side exceeds 12000 pixels; thumbnail skipped"
    );
}

#[test]
fn request_checks() {
    assert_eq!(normalize_thumbnail_size(96), 96);
    assert_eq!(normalize_thumbnail_size(256), 256);
    assert_eq!(normalize_thumbnail_size(100), 160);
    let svg = check_thumbnail_format("/x/a.SVG").unwrap_err();
    assert_eq!(svg.code, "UNSUPPORTED_FORMAT");
    assert_eq!(svg.message, "SVG files should be displayed directly by the frontend");
    let txt = check_thumbnail_format("/x/a.Txt").unwrap_err();
    assert_eq!(txt.message, "Unsupported format: txt");
    assert!(check_thumbnail_format("/x/a.CR3").is_ok());
    assert!(check_thumbnail_format("/x/noext").is_err());
    assert!(check_file_size(100 * 1024 * 1024).is_ok());
    assert_eq!(check_file_size(100 * 1024 * 1024 + 1).unwrap_err().code, "FILE_TOO_LARGE");
    assert!(check_thumbnail_dimensions(12_000, 12_000).is_ok());
    assert!(matches!(check_thumbnail_dimensions(12_001, 1), Err(GenError::ImageTooLarge)));
}

#[test]
fn system_probe_errors_are_classified() {
    let too_large = picsee_lib::extended_formats::validate_system_dimensions(20_000, 1).unwrap_err();
    assert!(matches!(classify_system_probe_error(too_large), GenError::ImageTooLarge));
    match classify_system_probe_error("sips failed".to_string()) {
        GenError::DecodeFailed(m) => assert_eq!(m, "sips failed"),
        other => panic!("unexpected {other:?}"),
    }
}

#[test]
fn probed_dimensions_decide_before_decoding() {
    assert!(check_probed_dimensions(false, Ok((12_000, 12_000))).is_ok());
    assert!(matches!(check_probed_dimensions(false, Ok((1, 12_001))), Err(GenError::ImageTooLarge)));
    match check_probed_dimensions(false, Err("truncated".to_string())) {
        Err(GenError::DecodeFailed(m)) => assert_eq!(m, "Failed to read image dimensions: truncated"),
        other => panic!("unexpected {other:?}"),
    }
    let refused = picsee_lib::extended_formats::validate_system_dimensions(30_000, 2).unwrap_err();
    assert!(matches!(check_probed_dimensions(true, Err(refused)), Err(GenError::ImageTooLarge)));
    match check_probed_dimensions(true, Err("sips 输出缺少 pixelWidth".to_string())) {
        Err(GenError::DecodeFailed(m)) => assert_eq!(m, "sips 输出缺少 pixelWidth"),
        other => panic!("unexpected {other:?}"),
    }
}

#[test]
fn waiters_report_what_the_generation_produced() {
    assert_eq!(waiter_outcome(Some(Ok("/c/k.webp".to_string()))).unwrap(), "/c/k.webp");
    let e = waiter_outcome(Some(Err(("DECODE_ERROR", "bad".to_string())))).unwrap_err();
    assert_eq!((e.code, e.message.as_str()), ("DECODE_ERROR", "bad"));
    let e = waiter_outcome(None).unwrap_err();
    assert_eq!((e.code, e.message.as_str()), ("IO_ERROR", "Thumbnail task produced no result"));
}

#[test]
fn one_generation_per_cache_key() {
    let mut flight: InFlight<u32> = InFlight::new();
    assert!(flight.claim(11, 1));
    assert!(!flight.claim(11, 2));
    assert_eq!(flight.get(11), Some(&1));
    assert!(flight.claim(22, 3));
    assert_eq!(flight.take(11), Some(1));
    assert_eq!(flight.get(11), None);
    assert_eq!(flight.get(22), Some(&3));
    assert_eq!(flight.take(11), None);
    assert!(flight.claim(11, 4));
    assert_eq!(flight.get(11), Some(&4));
}

#[test]
fn cleared_cache_reports_freed_bytes() {
    assert_eq!(freed_bytes(&[]), 0);
    assert_eq!(freed_bytes(&[10, 20, 12]), 42);
}

/// A JPEG stream holding only an APP1 Exif segment whose primary IFD has
/// one Orientation entry.
fn jpeg_with_orientation(orientation: u16) -> Vec<u8> {
    let mut tiff = b"MM\0\x2a\0\0\0\x08".to_vec();
    tiff.extend_from_slice(&1u16.to_be_bytes());
    tiff.extend_from_slice(&0x0112u16.to_be_bytes());
    tiff.extend_from_slice(&3u16.to_be_bytes());
    tiff.extend_from_slice(&1u32.to_be_bytes());
    tiff.extend_from_slice(&orientation.to_be_bytes());
    tiff.extend_from_slice(&[0, 0]);
    tiff.extend_from_slice(&0u32.to_be_bytes());
    let mut app1 = b"Exif\0\0".to_vec();
    app1.extend_from_slice(&tiff);
    let mut jpeg = vec![0xff, 0xd8, 0xff, 0xe1];
    jpeg.extend_from_slice(&((app1.len() + 2) as u16).to_be_bytes());
    jpeg.extend_from_slice(&app1);
    jpeg.extend_from_slice(&[0xff, 0xd9]);
    jpeg
}

#[test]
fn exif_orientation_is_read_from_the_container() {
    let jpeg = jpeg_with_orientation(6);
    assert_eq!(read_exif_orientation(&jpeg), Some(6));
    assert_eq!(exif_orientation_op(&jpeg), OrientationOp::Rotate90);
    assert_eq!(exif_orientation_op(&jpeg_with_orientation(3)), OrientationOp::Rotate180);
}

/// A 3×2 RGB image whose pixel (x, y) is (x, y, 7).
fn small_image() -> DecodedImage {
    let mut samples = Vec::new();
    for y in 0..2u8 {
        for x in 0..3u8 {
            samples.extend_from_slice(&[x, y, 7]);
        }
    }
    DecodedImage { width: 3, height: 2, color: ColorKind::Rgb8, samples }
}

#[test]
fn orientation_matches_the_image_crate() {
    let img = small_image();
    let buf = image::RgbImage::from_raw(3, 2, img.samples.clone()).unwrap();
    let dynimg = image::DynamicImage::ImageRgb8(buf);
    let cases = [
        (OrientationOp::Identity, dynimg.clone()),
        (OrientationOp::FlipHorizontal, dynimg.fliph()),
        (OrientationOp::Rotate180, dynimg.rotate180()),
        (OrientationOp::FlipVertical, dynimg.flipv()),
        (OrientationOp::Rotate90FlipHorizontal, dynimg.rotate90().fliph()),
        (OrientationOp::Rotate90, dynimg.rotate90()),
        (OrientationOp::Rotate270FlipHorizontal, dynimg.rotate270().fliph()),
        (OrientationOp::Rotate270, dynimg.rotate270()),
    ];
    for (op, expected) in cases {
        let got = orient(&img, op);
        assert_eq!((got.width, got.height), (expected.width(), expected.height()), "{op:?}");
        assert_eq!(got.samples, expected.to_rgb8().into_raw(), "{op:?}");
    }
}

#[test]
fn exif_orientation_turns_the_decoded_image() {
    let mut jpeg = make_jpeg_bytes(8, 6);
    // Put the Exif segment of a Rotate90 orientation right after SOI.
    let exif = jpeg_with_orientation(6);
    let segment = exif[2..exif.len() - 2].to_vec();
    jpeg.splice(2..2, segment);
    let img = decode_image(&jpeg, "jpg", "/x/a.jpg").unwrap();
    assert_eq!((img.width, img.height), (6, 8));
}

#[test]
fn thumbnails_are_webp_within_the_size() {
    let jpeg = make_jpeg_bytes(400, 200);
    let webp = thumbnail_webp(&jpeg, "jpg", "/x/a.jpg", 96).unwrap();
    let back = image::load_from_memory_with_format(&webp, ImageFormat::WebP).unwrap();
    assert_eq!((back.width(), back.height()), (96, 48));
    let mut expected = Cursor::new(Vec::new());
    image::load_from_memory(&jpeg)
        .unwrap()
        .thumbnail(96, 96)
        .write_to(&mut expected, ImageFormat::WebP)
        .unwrap();
    assert_eq!(webp, expected.into_inner());
    let png = make_png_bytes(10, 10);
    let small = system_thumbnail_webp(Ok(png), 160).unwrap();
    let back = image::load_from_memory(&small).unwrap();
    assert_eq!((back.width(), back.height()), (160, 160));
    let img = small_image();
    assert!(encode_thumbnail(&img, 96).is_ok());
}

#[test]
fn test_generate_thumbnail_corrupted_bytes_returns_decode_error() {
    match thumbnail_webp(b"not a real jpeg at all garbage bytes", "jpg", "/x/a.jpg", 96) {
        Err(GenError::DecodeFailed(m)) => {
            assert!(m.starts_with("Failed to decode image: Failed to decode image (/x/a.jpg): "), "{m}")
        }
        other => panic!("unexpected {other:?}"),
    }
    match thumbnail_webp(b"GIF89a garbage", "gif", "/x/a.gif", 96) {
        Err(GenError::DecodeFailed(m)) => {
            assert!(m.starts_with("Failed to decode image: Failed to decode GIF: "), "{m}")
        }
        other => panic!("unexpected {other:?}"),
    }
    match system_thumbnail_webp(Err("sips failed".to_string()), 96) {
        Err(GenError::DecodeFailed(m)) => assert_eq!(m, "Failed to decode image: sips failed"),
        other => panic!("unexpected {other:?}"),
    }
    assert!(decode_system_png(b"xx").unwrap_err().starts_with("读取系统解码 PNG 失败: "));
}

#[test]
fn request_steps_follow_their_order() {
    let mut facts = RequestFacts { allowed: None, metadata: None, cached: None, claimed: None };
    match next_request_action("/x/a.svg", &facts) {
        RequestAction::Fail(e) => assert_eq!(e.code, "UNSUPPORTED_FORMAT"),
        other => panic!("unexpected {other:?}"),
    }
    let p = "/x/a.jpg";
    assert!(matches!(next_request_action(p, &facts), RequestAction::CheckScope));
    facts.allowed = Some(false);
    match next_request_action(p, &facts) {
        RequestAction::Fail(e) => {
            assert_eq!((e.code, e.message.as_str()), ("NOT_ALLOWED", "Path not authorized: /x/a.jpg"))
        }
        other => panic!("unexpected {other:?}"),
    }
    facts.allowed = Some(true);
    assert!(matches!(next_request_action(p, &facts), RequestAction::ReadMetadata));
    facts.metadata = Some(Err("gone".to_string()));
    match next_request_action(p, &facts) {
        RequestAction::Fail(e) => assert_eq!(e.message, "Failed to read file metadata: gone"),
        other => panic!("unexpected {other:?}"),
    }
    facts.metadata = Some(Ok(200 * 1024 * 1024));
    match next_request_action(p, &facts) {
        RequestAction::Fail(e) => assert_eq!(e.code, "FILE_TOO_LARGE"),
        other => panic!("unexpected {other:?}"),
    }
    facts.metadata = Some(Ok(10));
    assert!(matches!(next_request_action(p, &facts), RequestAction::LookUpCache));
    facts.cached = Some(true);
    assert!(matches!(next_request_action(p, &facts), RequestAction::ServeCached));
    facts.cached = Some(false);
    assert!(matches!(next_request_action(p, &facts), RequestAction::Claim));
    facts.claimed = Some(true);
    assert!(matches!(next_request_action(p, &facts), RequestAction::Generate));
    facts.claimed = Some(false);
    assert!(matches!(next_request_action(p, &facts), RequestAction::Wait));
}

#[test]
fn cache_id_is_the_key_as_a_number() {
    let key = compute_cache_key("/a", 1, 2, 3);
    let id = compute_cache_id("/a", 1, 2, 3);
    assert_eq!(format!("{id:032x}"), key);
    assert_ne!(compute_cache_id("/a", 1, 2, 96), compute_cache_id("/a", 1, 2, 160));
    let digest: Vec<u8> = (1..=20).collect();
    assert_eq!(digest_id(&digest), 0x0102030405060708090a0b0c0d0e0f10);
}

/// A 16-bit RGB PNG whose pixel (x, y) is (1000 x, 700 y, 300).
fn make_png16_bytes(width: u32, height: u32) -> Vec<u8> {
    let img: ImageBuffer<Rgb<u16>, Vec<u16>> = ImageBuffer::from_fn(width, height, |x, y| {
        Rgb([(1000 * x) as u16, (700 * y) as u16, 300])
    });
    let mut buf = Cursor::new(Vec::new());
    image::DynamicImage::ImageRgb16(img)
        .write_to(&mut buf, ImageFormat::Png)
        .expect("PNG encoding should succeed");
    buf.into_inner()
}

#[test]
fn wide_images_keep_their_depth_until_encoding() {
    let png = make_png16_bytes(37, 23);
    let decoded = decode_image(&png, "png", "/x/a.png").unwrap();
    assert_eq!(decoded.color, ColorKind::Rgb16);
    assert_eq!(decoded.samples.len(), 37 * 23 * 6);
    let webp = thumbnail_webp(&png, "png", "/x/a.png", 16).unwrap();
    let mut expected = Cursor::new(Vec::new());
    image::load_from_memory(&png)
        .unwrap()
        .thumbnail(16, 16)
        .write_to(&mut expected, ImageFormat::WebP)
        .unwrap();
    assert_eq!(webp, expected.into_inner());
    let turned = orient(&decoded, OrientationOp::Rotate90);
    assert_eq!((turned.width, turned.height), (23, 37));
}

use picsee_lib::large_image::policy::{
    determine_load_mode, finish_probe, is_large_image, probe_bmp, probe_generic, probe_route,
    probe_svg, probe_system, LoadMode, ProbeRoute,
};
use picsee_lib::settings::LargeImageSettings;

fn default_settings() -> LargeImageSettings {
    LargeImageSettings::default()
}

#[test]
fn test_not_large_below_all_thresholds() {
    let s = default_settings();
    assert!(!is_large_image(1000, 1000, 10 * 1024 * 1024, "png", &s));
}

#[test]
fn test_large_by_pixel_threshold() {
    let s = default_settings();
    assert!(is_large_image(7072, 7072, 10 * 1024 * 1024, "png", &s));
}

#[test]
fn test_large_by_file_size_threshold() {
    let s = default_settings();
    assert!(is_large_image(1000, 1000, 301 * 1024 * 1024, "png", &s));
}

#[test]
fn test_large_by_side_threshold() {
    let s = default_settings();
    assert!(is_large_image(12000, 100, 1 * 1024 * 1024, "png", &s));
}

#[test]
fn test_bmp_over_100mb_is_large() {
    let s = default_settings();
    assert!(is_large_image(1000, 1000, 101 * 1024 * 1024, "bmp", &s));
}

#[test]
fn test_load_mode_normal() {
    let s = default_settings();
    assert_eq!(
        determine_load_mode(1000, 1000, 10 * 1024 * 1024, "png", &s),
        LoadMode::Normal
    );
}

#[test]
fn test_load_mode_bmp_over_300mb() {
    let s = default_settings();
    assert_eq!(
        determine_load_mode(1000, 1000, 301 * 1024 * 1024, "bmp", &s),
        LoadMode::TileRequired
    );
}

#[test]
fn test_load_mode_bmp_100_300mb() {
    let s = default_settings();
    assert_eq!(
        determine_load_mode(1000, 1000, 200 * 1024 * 1024, "bmp", &s),
        LoadMode::LargeCandidate
    );
}

#[test]
fn test_load_mode_tile_required_by_pixels() {
    let s = default_settings();
    assert_eq!(
        determine_load_mode(7072, 7072, 10 * 1024 * 1024, "png", &s),
        LoadMode::TileRequired
    );
}

#[test]
fn bmp_extension_is_case_insensitive() {
    let s = default_settings();
    assert!(is_large_image(10, 10, 150 * 1024 * 1024, "BMP", &s));
    assert!(!is_large_image(10, 10, 150 * 1024 * 1024, "png", &s));
    assert_eq!(
        determine_load_mode(10, 10, 150 * 1024 * 1024, "Bmp", &s),
        LoadMode::LargeCandidate
    );
}

#[test]
fn thresholds_are_inclusive() {
    let s = default_settings();
    assert!(is_large_image(10, 10, 300 * 1024 * 1024, "png", &s));
    assert!(!is_large_image(10, 10, 300 * 1024 * 1024 - 1, "png", &s));
    assert_eq!(determine_load_mode(10_000, 5_000, 0, "png", &s), LoadMode::TileRequired);
    assert_eq!(determine_load_mode(10_000, 4_999, 0, "png", &s), LoadMode::Normal);
    // A long side alone makes an image large without changing its load mode.
    assert!(is_large_image(12_000, 1, 0, "png", &s));
    assert_eq!(determine_load_mode(12_000, 1, 0, "png", &s), LoadMode::Normal);
}

#[test]
fn probe_routes_by_extension() {
    assert_eq!(probe_route("a/b.svg"), ProbeRoute::Svg);
    assert_eq!(probe_route("a/b.BMP"), ProbeRoute::Bmp);
    assert_eq!(probe_route("a/b.tiff"), ProbeRoute::System);
    assert_eq!(probe_route("a/b.dng"), ProbeRoute::System);
    assert_eq!(probe_route("a/b.jpg"), ProbeRoute::Generic);
    assert_eq!(probe_route("a/b"), ProbeRoute::Generic);
}

#[test]
fn test_probe_svg_is_normal_without_decoder_error() {
    let path = "/tmp/picture.svg";
    assert_eq!(probe_route(path), ProbeRoute::Svg);
    let probe = probe_svg(path, 42, &default_settings());
    assert_eq!(probe.load_mode, LoadMode::Normal);
    assert_eq!((probe.width, probe.height), (0, 0));
    assert_eq!(probe.format, "svg");
    assert!(probe.can_fallback_to_normal);
}

#[test]
fn system_formats_are_preview_only() {
    let s = default_settings();
    let tiff = finish_probe("/x/source.tiff", 1000, 8, 6, "tiff".to_string(), false, false, &s);
    assert_eq!(tiff.load_mode, LoadMode::LargeCandidate);
    assert!(!tiff.tileable);
    assert!(!tiff.can_fallback_to_normal);
    let raw = finish_probe("/x/source.dng", 1000, 8, 6, "dng".to_string(), false, true, &s);
    assert_eq!(raw.load_mode, LoadMode::LargeCandidate);
    assert!(raw.raw_preview);
    assert!(!raw.can_fallback_to_normal);
    let bmp = finish_probe("/x/big.bmp", 301 * 1024 * 1024, 8, 6, "bmp".to_string(), true, false, &s);
    assert_eq!(bmp.load_mode, LoadMode::TileRequired);
    assert!(bmp.is_large);
    assert!(bmp.can_fallback_to_normal);
}

#[test]
fn test_probe_tiff_is_preview_only() {
    let probe = probe_system("/x/source.tiff", 1000, Ok((8, 6)), &default_settings())
        .expect("TIFF 应由系统解码器探测");
    assert_eq!(probe.load_mode, LoadMode::LargeCandidate);
    assert!(!probe.tileable);
    assert!(!probe.raw_preview);
    assert_eq!(probe.format, "tiff");
}

#[test]
fn test_probe_raw_is_preview_only() {
    let probe = probe_system("/x/source.DNG", 1000, Ok((8, 6)), &default_settings())
        .expect("RAW embedded preview 应由系统解码器探测");
    assert_eq!(probe.load_mode, LoadMode::LargeCandidate);
    assert!(!probe.tileable);
    assert!(probe.raw_preview);
    assert!(!probe.can_fallback_to_normal);
}

#[test]
fn system_probe_errors_keep_their_meaning() {
    let s = default_settings();
    let e = probe_system("/x/a.heic", 1, Err("IMAGE_TOO_LARGE: 20000x10 exceeds the system decode safety limit".to_string()), &s).unwrap_err();
    assert_eq!(e.code, "IMAGE_TOO_LARGE");
    let e = probe_system("/x/a.heic", 1, Err("sips 输出缺少 pixelWidth".to_string()), &s).unwrap_err();
    assert_eq!(e.code, "SYSTEM_DECODE_ERROR");
    assert_eq!(e.message, "sips 输出缺少 pixelWidth");
}

#[test]
fn bmp_and_generic_probes() {
    let s = default_settings();
    let mut h = vec![0u8; 54];
    h[0] = b'B';
    h[1] = b'M';
    h[10..14].copy_from_slice(&54u32.to_le_bytes());
    h[14..18].copy_from_slice(&40u32.to_le_bytes());
    h[18..22].copy_from_slice(&100i32.to_le_bytes());
    h[22..26].copy_from_slice(&(-80i32).to_le_bytes());
    h[26..28].copy_from_slice(&1u16.to_le_bytes());
    h[28..30].copy_from_slice(&24u16.to_le_bytes());
    let p = probe_bmp("/x/a.bmp", 24054, &h, &s).unwrap();
    assert_eq!((p.width, p.height, p.format.as_str(), p.tileable), (100, 80, "bmp", true));
    assert_eq!(probe_bmp("/x/a.bmp", 3, b"BM", &s).unwrap_err().code, "DECODE_ERROR");

    let g = probe_generic("/x/a.JPG", 10, Some("jpeg".to_string()), Ok((4, 3)), &s).unwrap();
    assert_eq!((g.format.as_str(), g.load_mode), ("jpeg", LoadMode::Normal));
    let g = probe_generic("/x/a.JPG", 10, None, Ok((4, 3)), &s).unwrap();
    assert_eq!(g.format, "jpg");
    let e = probe_generic("/x/a.jpg", 10, None, Err("bad".to_string()), &s).unwrap_err();
    assert_eq!((e.code, e.message.as_str()), ("DECODE_ERROR", "读取图像尺寸失败: bad"));
}

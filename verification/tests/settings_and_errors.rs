use picsee_lib::large_image::LargeImageError;
use picsee_lib::settings::{
    backup_path, temporary_path, CacheSettings, LargeImageSettings, LayoutSettings,
    PerformanceSettings, PreviewMaxSize, ThumbnailPosition, ThumbnailSize, TileSize,
};

#[test]
fn setting_defaults() {
    let l = LargeImageSettings::default();
    assert_eq!(l.file_size_threshold_mb, 300);
    assert_eq!(l.pixel_threshold, 50_000_000);
    assert_eq!(l.side_threshold, 12_000);
    assert_eq!(l.preview_max_size, PreviewMaxSize::Size4096);
    assert_eq!(l.tile_size, TileSize::Size512);
    assert!(l.enable_tile_prefetch);
    assert_eq!(l.prefetch_radius, 1);
    let c = CacheSettings::default();
    assert_eq!((c.memory_cache_limit_mb, c.disk_cache_limit_mb), (512, 2048));
    assert!(c.enable_disk_cache && c.clear_temp_tile_on_exit);
    let p = PerformanceSettings::default();
    assert_eq!(
        (p.tile_concurrency, p.decode_concurrency, p.thumbnail_concurrency, p.cpu_threads),
        (4, 2, 4, 8)
    );
    assert_eq!((p.preload_normal_count, p.preload_large_preview_count), (2, 1));
    let y = LayoutSettings::default();
    assert!(y.show_thumbnail_bar && y.show_status_bar && !y.compact_mode);
    assert_eq!(y.thumbnail_position, ThumbnailPosition::Bottom);
    assert_eq!(y.thumbnail_size, ThumbnailSize::Size160);
    assert_eq!(y.thumbnail_size.value(), 160);
    assert_eq!(l.preview_max_size.value(), 4096);
    assert_eq!(l.tile_size.value(), 512);
}

#[test]
fn settings_side_files() {
    assert_eq!(backup_path("/cfg/settings.json"), "/cfg/settings.json.bak");
    assert_eq!(temporary_path("/cfg/settings.json"), "/cfg/settings.json.tmp");
    assert_eq!(backup_path("settings.json"), "settings.json.bak");
}

#[test]
fn large_image_error_codes() {
    let e = LargeImageError::session_not_found(42);
    assert_eq!((e.code, e.message.as_str()), ("SESSION_NOT_FOUND", "Session 42 not found"));
    let e = LargeImageError::tile_out_of_range(3, 0);
    assert_eq!(e.code, "TILE_OUT_OF_RANGE");
    assert_eq!(e.message, "Tile (3, 0) is out of image range");
    assert_eq!(LargeImageError::tiles_unavailable().code, "TILES_UNAVAILABLE");
    assert_eq!(LargeImageError::unsupported_format("x".into()).code, "UNSUPPORTED_FORMAT");
    assert_eq!(LargeImageError::io("x".into()).code, "IO_ERROR");
    assert_eq!(LargeImageError::decode("x".into()).code, "DECODE_ERROR");
    assert_eq!(LargeImageError::system_decode("x".into()).code, "SYSTEM_DECODE_ERROR");
    assert_eq!(LargeImageError::image_too_large("x".into()).code, "IMAGE_TOO_LARGE");
    assert_eq!(LargeImageError::encode("x".into()).code, "ENCODE_ERROR");
    let e = LargeImageError::new("CUSTOM", "m".into());
    assert_eq!((e.code, e.message.as_str()), ("CUSTOM", "m"));
}

#[test]
fn system_decode_errors_keep_size_refusals() {
    let refusal = picsee_lib::extended_formats::validate_system_dimensions(1, 12_001).unwrap_err();
    let e = LargeImageError::from_system_decode(refusal.clone());
    assert_eq!(e.code, "IMAGE_TOO_LARGE");
    assert_eq!(e.message, refusal);
    let other = LargeImageError::from_system_decode("IMAGE_TOO_LARGE".to_string());
    assert_eq!(other.code, "SYSTEM_DECODE_ERROR");
}

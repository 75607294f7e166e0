use picsee_lib::extended_formats::{
    extension, is_raw, is_system_decoded, is_tiff, needs_colorsync_output, next_wait_step,
    parse_sips_dimensions, parse_sips_property, sips_probe_result, validate_system_dimensions,
    WaitStep,
};

#[test]
fn raw_and_tiff_extension_classification() {
    assert!(is_raw("sample.cr3"));
    assert!(is_raw("sample.NEF"));
    assert!(!is_raw("sample.heic"));
    assert!(is_tiff("sample.tiff"));
    assert!(is_tiff("sample.TIF"));
}

#[test]
fn only_system_formats_need_colorsync_subprocess() {
    assert!(!needs_colorsync_output("sample.jpg"));
    assert!(!needs_colorsync_output("sample.png"));
    assert!(needs_colorsync_output("sample.tiff"));
    assert!(needs_colorsync_output("sample.heic"));
}

#[test]
fn system_dimension_limit_rejects_oversized_images() {
    assert!(validate_system_dimensions(12_001, 10).is_err());
    assert!(validate_system_dimensions(12_000, 12_000).is_err());
    assert!(validate_system_dimensions(8_000, 8_000).is_ok());
}

#[test]
fn extension_is_lowercased_and_empty_when_absent() {
    assert_eq!(extension("dir/Photo.JPG"), "jpg");
    assert_eq!(extension("dir/photo"), "");
    assert_eq!(extension(".hidden"), "");
    assert_eq!(extension("archive.tar.GZ"), "gz");
}

#[test]
fn every_raw_format_is_system_decoded() {
    for name in ["a.dng", "a.cr2", "a.cr3", "a.nef", "a.arw", "a.raf", "a.orf", "a.rw2"] {
        assert!(is_raw(name));
        assert!(is_system_decoded(name));
    }
    assert!(is_system_decoded("a.heif"));
    assert!(!is_raw("a.tif"));
    assert!(!is_system_decoded("a.webp"));
}

#[test]
fn size_limit_message_names_the_dimensions() {
    assert_eq!(
        validate_system_dimensions(12_001, 10).unwrap_err(),
        "IMAGE_TOO_LARGE: 12001x10 exceeds the system decode safety limit"
    );
    // 11586 x 11586 x 4 bytes is just over 512 MiB; both sides are in range.
    assert!(validate_system_dimensions(11_586, 11_586).is_err());
    assert!(validate_system_dimensions(11_585, 11_585).is_ok());
    assert!(validate_system_dimensions(12_000, 1).is_ok());
}

#[test]
fn sips_property_takes_first_valid_line() {
    let out = "/tmp/a.tiff\n  pixelWidth: 8\n  pixelHeight: 6\n";
    assert_eq!(parse_sips_property(out, "pixelWidth"), Ok(8));
    assert_eq!(parse_sips_property(out, "pixelHeight"), Ok(6));
    let noisy = "pixelWidth: abc\r\n\tpixelWidth:  +42 \r\npixelWidth: 7";
    assert_eq!(parse_sips_property(noisy, "pixelWidth"), Ok(42));
    assert_eq!(
        parse_sips_property("pixelWidth: 4294967296\n", "pixelWidth"),
        Err("sips 输出缺少 pixelWidth".to_string())
    );
    assert_eq!(parse_sips_property("pixelWidth: 4294967295", "pixelWidth"), Ok(u32::MAX));
    assert_eq!(
        parse_sips_property("pixelwidth: 3\n", "pixelWidth"),
        Err("sips 输出缺少 pixelWidth".to_string())
    );
    assert_eq!(parse_sips_property("", "pixelHeight"), Err("sips 输出缺少 pixelHeight".to_string()));
}

#[test]
fn sips_dimensions_are_checked_against_the_limit() {
    assert_eq!(parse_sips_dimensions("  pixelWidth: 8\n  pixelHeight: 6\n"), Ok((8, 6)));
    assert_eq!(
        parse_sips_dimensions("  pixelHeight: 6\n"),
        Err("sips 输出缺少 pixelWidth".to_string())
    );
    let err = parse_sips_dimensions("pixelWidth: 12001\npixelHeight: 1\n").unwrap_err();
    assert!(err.starts_with("IMAGE_TOO_LARGE:"));
}

#[test]
fn wait_step_follows_exit_and_timeout() {
    assert_eq!(next_wait_step(true, 100, 50), WaitStep::Collect);
    assert_eq!(next_wait_step(false, 50, 50), WaitStep::Kill);
    assert_eq!(next_wait_step(false, 10, 50), WaitStep::Sleep);
}

#[test]
fn sips_probe_outcome() {
    assert_eq!(
        sips_probe_result(false, "", "boom"),
        Err("macOS ImageIO 无法读取图像尺寸: boom".to_string())
    );
    assert_eq!(sips_probe_result(true, "  pixelWidth: 8\n  pixelHeight: 6\n", ""), Ok((8, 6)));
    assert_eq!(
        sips_probe_result(true, "pixelWidth: 12001\npixelHeight: 6\n", ""),
        Err("IMAGE_TOO_LARGE: 12001x6 exceeds the system decode safety limit".to_string())
    );
    assert_eq!(
        sips_probe_result(true, "pixelWidth: 8\n", ""),
        Err("sips 输出缺少 pixelHeight".to_string())
    );
}

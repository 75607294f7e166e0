use picsee_lib::large_image::bmp::{
    nearest_source_index, row_bands, BmpInfo, BmpReader, PixelFormat, Rect, MAX_BMP_DIMENSION,
};

/// Bytes of a BMP file whose pixel (x, y) (image coordinates, 0 = top) has
/// B = 0, G = y % 256, R = x % 256 and, at 32 bits, A = 255.
fn make_bmp_raw(width: u32, height: u32, bottom_up: bool, is_32bit: bool) -> Vec<u8> {
    let bpp: u32 = if is_32bit { 4 } else { 3 };
    let row_stride = (width * bpp + 3) & !3;
    let pixel_data_size = row_stride * height;
    let file_size = 54 + pixel_data_size;

    let mut data = vec![0u8; file_size as usize];
    data[0] = b'B';
    data[1] = b'M';
    data[2..6].copy_from_slice(&file_size.to_le_bytes());
    data[6..10].copy_from_slice(&0u32.to_le_bytes());
    data[10..14].copy_from_slice(&54u32.to_le_bytes());
    data[14..18].copy_from_slice(&40u32.to_le_bytes());
    data[18..22].copy_from_slice(&(width as i32).to_le_bytes());
    let height_raw: i32 = if bottom_up { height as i32 } else { -(height as i32) };
    data[22..26].copy_from_slice(&height_raw.to_le_bytes());
    data[26..28].copy_from_slice(&1u16.to_le_bytes());
    let bit_count: u16 = if is_32bit { 32 } else { 24 };
    data[28..30].copy_from_slice(&bit_count.to_le_bytes());
    data[30..34].copy_from_slice(&0u32.to_le_bytes());

    for img_y in 0..height {
        let file_row = if bottom_up { height - 1 - img_y } else { img_y };
        let row_start = 54 + file_row as usize * row_stride as usize;
        for img_x in 0..width {
            let off = row_start + img_x as usize * bpp as usize;
            data[off] = 0;
            data[off + 1] = (img_y % 256) as u8;
            data[off + 2] = (img_x % 256) as u8;
            if is_32bit {
                data[off + 3] = 255;
            }
        }
    }
    data
}

/// A minimal 54-byte header without pixel data.
fn make_bmp_header(width: i32, height: i32) -> Vec<u8> {
    let mut h = vec![0u8; 54];
    h[0] = b'B';
    h[1] = b'M';
    let file_size: u32 = 54;
    h[2..6].copy_from_slice(&file_size.to_le_bytes());
    h[10..14].copy_from_slice(&54u32.to_le_bytes());
    h[14..18].copy_from_slice(&40u32.to_le_bytes());
    h[18..22].copy_from_slice(&width.to_le_bytes());
    h[22..26].copy_from_slice(&height.to_le_bytes());
    h[26..28].copy_from_slice(&1u16.to_le_bytes());
    h[28..30].copy_from_slice(&24u16.to_le_bytes());
    h
}

fn open(raw: &[u8]) -> BmpReader {
    BmpReader::open("memory.bmp", raw).unwrap()
}

fn full_rect(info: &BmpInfo) -> Rect {
    Rect { x: 0, y: 0, width: info.width, height: info.height }
}

fn pixel_at(rgba: &[u8], x: u32, y: u32, width: u32) -> (u8, u8, u8, u8) {
    let off = (y as usize * width as usize + x as usize) * 4;
    (rgba[off], rgba[off + 1], rgba[off + 2], rgba[off + 3])
}

#[test]
fn test_bmp_info_24bit_bottom_up() {
    let raw = make_bmp_raw(10, 8, true, false);
    let info = BmpInfo::from_reader(&raw).unwrap();
    assert_eq!(info.width, 10);
    assert_eq!(info.height, 8);
    assert_eq!(info.pixel_format, PixelFormat::Bgr24);
    assert!(info.bottom_up);
    assert_eq!(info.row_stride, 32);
}

#[test]
fn test_bmp_info_top_down() {
    let raw = make_bmp_raw(10, 8, false, false);
    let info = BmpInfo::from_reader(&raw).unwrap();
    assert!(!info.bottom_up);
    assert_eq!(info.width, 10);
    assert_eq!(info.height, 8);
}

#[test]
fn test_bmp_info_32bit() {
    let raw = make_bmp_raw(10, 8, true, true);
    let info = BmpInfo::from_reader(&raw).unwrap();
    assert_eq!(info.pixel_format, PixelFormat::Bgra32);
    assert_eq!(info.row_stride, 40);
}

#[test]
fn test_bmp_info_non_aligned_width_3x2() {
    let raw = make_bmp_raw(3, 2, true, false);
    let info = BmpInfo::from_reader(&raw).unwrap();
    assert_eq!(info.row_stride, 12);
}

#[test]
fn test_bmp_info_non_aligned_width_5x3() {
    let raw = make_bmp_raw(5, 3, true, false);
    let info = BmpInfo::from_reader(&raw).unwrap();
    assert_eq!(info.row_stride, 16);
}

#[test]
fn test_read_full_region_24bit_bottom_up() {
    let raw = make_bmp_raw(4, 3, true, false);
    let reader = open(&raw);
    let rect = full_rect(&reader.info);
    let rgba = reader.read_region(rect, 4, 3, &raw).unwrap();
    assert_eq!(pixel_at(&rgba, 2, 1, 4), (2, 1, 0, 255));
}

#[test]
fn test_read_full_region_24bit_top_down() {
    let raw = make_bmp_raw(4, 3, false, false);
    let reader = open(&raw);
    let rect = full_rect(&reader.info);
    let rgba = reader.read_region(rect, 4, 3, &raw).unwrap();
    assert_eq!(pixel_at(&rgba, 3, 2, 4), (3, 2, 0, 255));
}

#[test]
fn test_read_full_region_32bit() {
    let raw = make_bmp_raw(4, 3, true, true);
    let reader = open(&raw);
    let rect = full_rect(&reader.info);
    let rgba = reader.read_region(rect, 4, 3, &raw).unwrap();
    assert_eq!(pixel_at(&rgba, 1, 2, 4), (1, 2, 0, 255));
}

#[test]
fn test_read_non_aligned_width_3x2() {
    let raw = make_bmp_raw(3, 2, true, false);
    let reader = open(&raw);
    let rect = full_rect(&reader.info);
    let rgba = reader.read_region(rect, 3, 2, &raw).unwrap();
    assert_eq!(pixel_at(&rgba, 2, 1, 3), (2, 1, 0, 255));
}

#[test]
fn test_read_non_aligned_width_5x3() {
    let raw = make_bmp_raw(5, 3, true, false);
    let reader = open(&raw);
    let rect = full_rect(&reader.info);
    let rgba = reader.read_region(rect, 5, 3, &raw).unwrap();
    assert_eq!(pixel_at(&rgba, 4, 2, 5), (4, 2, 0, 255));
}

#[test]
fn test_read_sub_region() {
    let raw = make_bmp_raw(8, 8, true, false);
    let reader = open(&raw);
    let rect = Rect { x: 1, y: 1, width: 2, height: 2 };
    let rgba = reader.read_region(rect, 2, 2, &raw).unwrap();
    assert_eq!(pixel_at(&rgba, 0, 0, 2), (1, 1, 0, 255));
    assert_eq!(pixel_at(&rgba, 1, 1, 2), (2, 2, 0, 255));
}

#[test]
fn test_read_region_boundary_clamp() {
    let raw = make_bmp_raw(4, 4, true, false);
    let reader = open(&raw);
    let rect = Rect { x: 2, y: 2, width: 4, height: 4 };
    let rgba = reader.read_region(rect, 2, 2, &raw).unwrap();
    assert_eq!(rgba.len(), 2 * 2 * 4);
}

#[test]
fn test_read_region_fully_out_of_bounds() {
    let raw = make_bmp_raw(4, 4, true, false);
    let reader = open(&raw);
    let rect = Rect { x: 10, y: 10, width: 2, height: 2 };
    let rgba = reader.read_region(rect, 2, 2, &raw).unwrap();
    assert!(rgba.iter().all(|&b| b == 0));
}

#[test]
fn test_downsampled_read() {
    let raw = make_bmp_raw(8, 8, true, false);
    let reader = open(&raw);
    let rect = full_rect(&reader.info);
    let rgba = reader.read_region(rect, 2, 2, &raw).unwrap();
    assert_eq!(rgba.len(), 2 * 2 * 4);
}

#[test]
fn test_downsampled_known_pattern() {
    let raw = make_bmp_raw(4, 1, true, false);
    let reader = open(&raw);
    let rect = Rect { x: 0, y: 0, width: 4, height: 1 };
    let rgba = reader.read_region(rect, 2, 1, &raw).unwrap();
    let (r0, _, _, _) = pixel_at(&rgba, 0, 0, 2);
    let (r1, _, _, _) = pixel_at(&rgba, 1, 0, 2);
    assert_eq!(r0, 0);
    assert_eq!(r1, 2);
}

#[test]
fn test_unsupported_compression() {
    let mut raw = make_bmp_raw(4, 4, true, false);
    raw[30..34].copy_from_slice(&1u32.to_le_bytes());
    let result = BmpInfo::from_reader(&raw);
    assert!(result.is_err());
    assert_eq!(result.unwrap_err().code, "UNSUPPORTED_FORMAT");
}

#[test]
fn test_unsupported_16bit() {
    let mut raw = make_bmp_raw(4, 4, true, false);
    raw[28..30].copy_from_slice(&16u16.to_le_bytes());
    let result = BmpInfo::from_reader(&raw);
    assert!(result.is_err());
    assert_eq!(result.unwrap_err().code, "UNSUPPORTED_FORMAT");
}

#[test]
fn test_rejects_pathological_dimensions() {
    let mut raw = make_bmp_raw(4, 4, true, false);
    raw[18..22].copy_from_slice(&((MAX_BMP_DIMENSION + 1) as i32).to_le_bytes());
    let result = BmpInfo::from_reader(&raw);
    assert_eq!(result.unwrap_err().code, "DECODE_ERROR");
}

#[test]
fn test_nearest_source_index_uses_u64_math() {
    assert_eq!(nearest_source_index(u32::MAX - 1, u32::MAX, u32::MAX), u32::MAX - 1);
}

#[test]
fn test_probe_bmp_bottom_up() {
    let header = make_bmp_header(100, 80);
    let info = BmpInfo::from_reader(&header).unwrap();
    assert_eq!(info.width, 100);
    assert_eq!(info.height, 80);
}

#[test]
fn test_probe_bmp_top_down_negative_height() {
    let header = make_bmp_header(200, -150);
    let info = BmpInfo::from_reader(&header).unwrap();
    assert_eq!(info.width, 200);
    assert_eq!(info.height, 150);
}

#[test]
fn test_probe_bmp_bad_magic() {
    let mut header = make_bmp_header(100, 80);
    header[0] = b'X';
    let result = BmpInfo::from_reader(&header);
    assert!(result.is_err());
    assert_eq!(result.unwrap_err().code, "DECODE_ERROR");
}

#[test]
fn header_errors_carry_their_messages() {
    let short = BmpInfo::from_reader(&[b'B', b'M']).unwrap_err();
    assert_eq!(short.code, "DECODE_ERROR");
    assert_eq!(short.message, "读取 BMP 头失败: failed to fill whole buffer");
    let mut small_dib = make_bmp_header(4, 4);
    small_dib[14..18].copy_from_slice(&12u32.to_le_bytes());
    let e = BmpInfo::from_reader(&small_dib).unwrap_err();
    assert_eq!(e.code, "DECODE_ERROR");
    assert_eq!(e.message, "DIB header size 12 < 40，不支持此 BMP 变体");
    let zero = BmpInfo::from_reader(&make_bmp_header(0, 5)).unwrap_err();
    assert_eq!(zero.message, "BMP 尺寸 0×5 超出支持范围");
    let mut rle = make_bmp_header(4, 4);
    rle[30..34].copy_from_slice(&1u32.to_le_bytes());
    assert_eq!(BmpInfo::from_reader(&rle).unwrap_err().message, "BMP compression=1，仅支持 BI_RGB (0)");
    let mut bits = make_bmp_header(4, 4);
    bits[28..30].copy_from_slice(&16u16.to_le_bytes());
    assert_eq!(BmpInfo::from_reader(&bits).unwrap_err().message, "BMP bit_count=16，仅支持 24 和 32");
    let min = BmpInfo::from_reader(&make_bmp_header(i32::MIN, 1)).unwrap_err();
    assert_eq!(min.message, "BMP 尺寸 2147483648×1 超出支持范围");
}

#[test]
fn row_offsets_follow_row_order() {
    let up = BmpInfo::from_reader(&make_bmp_raw(3, 4, true, false)).unwrap();
    assert_eq!(up.row_file_offset(0), 54 + 3 * 12);
    assert_eq!(up.row_file_offset(3), 54);
    let down = BmpInfo::from_reader(&make_bmp_raw(3, 4, false, false)).unwrap();
    assert_eq!(down.row_file_offset(0), 54);
    assert_eq!(down.row_file_offset(3), 54 + 3 * 12);
}

#[test]
fn region_plan_clips_to_the_image() {
    let raw = make_bmp_raw(10, 8, true, false);
    let reader = open(&raw);
    let plan = reader.plan_region(Rect { x: 6, y: 7, width: u32::MAX, height: 5 }, 3, 3);
    assert_eq!((plan.src_x, plan.src_y, plan.src_w, plan.src_h), (6, 7, 4, 1));
    let outside = reader.plan_region(Rect { x: 20, y: 0, width: 5, height: 5 }, 3, 3);
    assert_eq!((outside.src_x, outside.src_w), (10, 0));
    let (start, len) = reader.row_span(&plan, 2);
    // Row 7 of a bottom-up image is file row 0; column 6 starts 18 bytes in.
    assert_eq!((start, len), (54 + 18, 12));
    assert_eq!(reader.path(), "memory.bmp");
}

#[test]
fn truncated_file_is_a_decode_error() {
    let raw = make_bmp_raw(4, 4, true, false);
    let reader = open(&raw);
    let truncated = &raw[..60];
    let err = reader.read_region(full_rect(&reader.info), 4, 4, truncated).unwrap_err();
    assert_eq!(err.code, "DECODE_ERROR");
    assert_eq!(err.message, "读取行数据失败: failed to fill whole buffer");
    let empty = reader.read_region(full_rect(&reader.info), 0, 4, truncated).unwrap();
    assert!(empty.is_empty());
}

#[test]
fn upsampled_read_repeats_pixels() {
    let raw = make_bmp_raw(2, 2, false, true);
    let reader = open(&raw);
    let rgba = reader.read_region(full_rect(&reader.info), 4, 4, &raw).unwrap();
    assert_eq!(pixel_at(&rgba, 0, 0, 4), (0, 0, 0, 255));
    assert_eq!(pixel_at(&rgba, 1, 1, 4), (0, 0, 0, 255));
    assert_eq!(pixel_at(&rgba, 2, 3, 4), (1, 1, 0, 255));
    assert_eq!(pixel_at(&rgba, 3, 0, 4), (1, 0, 0, 255));
}

/// Reads the region band by band, as the parallel reader splits it.
fn read_in_bands(reader: &BmpReader, rect: Rect, tw: u32, th: u32, threads: u32, raw: &[u8]) -> Vec<u8> {
    let plan = reader.plan_region(rect, tw, th);
    let mut out = Vec::new();
    for (first, count) in row_bands(th, threads) {
        out.extend(reader.read_rows(&plan, first, count, raw).unwrap());
    }
    out
}

#[test]
fn test_read_region_parallel_matches_serial() {
    let raw = make_bmp_raw(64, 48, true, false);
    let reader = open(&raw);
    let rect = full_rect(&reader.info);
    for (tw, th) in [(64u32, 48u32), (20, 15), (7, 50), (1, 1)] {
        let serial = reader.read_region(rect, tw, th, &raw).unwrap();
        for threads in [2u32, 3, 8, 100] {
            let par = read_in_bands(&reader, rect, tw, th, threads, &raw);
            assert_eq!(serial, par, "threads={threads} tw={tw} th={th}");
            let banded = reader.read_region_in_bands(rect, tw, th, threads, &raw).unwrap();
            assert_eq!(serial, banded, "threads={threads} tw={tw} th={th}");
        }
    }
}

#[test]
fn row_bands_split_rows_evenly() {
    assert_eq!(row_bands(10, 3), vec![(0, 4), (4, 4), (8, 2)]);
    assert_eq!(row_bands(10, 0), vec![(0, 10)]);
    assert_eq!(row_bands(3, 100), vec![(0, 1), (1, 1), (2, 1)]);
    assert_eq!(row_bands(48, 8), vec![(0, 6), (6, 6), (12, 6), (18, 6), (24, 6), (30, 6), (36, 6), (42, 6)]);
}

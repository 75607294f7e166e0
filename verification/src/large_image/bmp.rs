//! BMP files: header parsing and nearest-neighbour region sampling.
use super::LargeImageError;
use crate::text;
use vstd::prelude::*;

verus! {

broadcast use vstd::string::group_string_axioms;

/// Largest width or height accepted from a BMP header; guards allocation
/// and offset arithmetic against pathological headers.
pub const MAX_BMP_DIMENSION: u32 = 200_000;

// ───────────────────────── sampling ─────────────────────────

/// The source index that nearest-neighbour sampling reads for target index
/// `t` when `source_size` pixels are scaled to `target_size`.
pub open spec fn nearest(t: int, source_size: int, target_size: int) -> int {
    (t * source_size) / target_size
}

/// Maps a target pixel index to its nearest source index,
/// `target_index * source_size / target_size`, computed without overflow
/// (the quotient is truncated to 32 bits, which never happens for a target
/// index inside the target).
pub fn nearest_source_index(target_index: u32, source_size: u32, target_size: u32) -> (r: u32)
    requires
        target_size > 0,
    ensures
        r == nearest(target_index as int, source_size as int, target_size as int) as u32,
        target_index < target_size ==> r == nearest(
            target_index as int,
            source_size as int,
            target_size as int,
        ),
        target_index < target_size && source_size > 0 ==> r < source_size,
{
    let t = target_index as u64;
    let s = source_size as u64;
    let ts = target_size as u64;
    assert(t * s <= 0xffff_ffff * 0xffff_ffff) by (nonlinear_arith)
        requires
            t <= 0xffff_ffff,
            s <= 0xffff_ffff,
    ;
    let q = (t * s) / ts;
    proof {
        if target_index < target_size {
            assert(q <= s && (s > 0 ==> q < s)) by (nonlinear_arith)
                requires
                    q == (t * s) / (ts as int),
                    t < ts,
                    ts > 0,
            ;
        }
    }
    q as u32
}

/// Scaling an index onto a target of the same size is the identity.
pub proof fn lemma_nearest_identity(t: int, size: int)
    requires
        size > 0,
    ensures
        nearest(t, size, size) == t,
{
    assert((t * size) / size == t) by (nonlinear_arith)
        requires
            size > 0,
    ;
}

// ───────────────────────── pixel formats and header ─────────────────────────

/// Pixel layout of an uncompressed BMP.
#[derive(Debug, Clone, Copy, PartialEq, Eq, Structural)]
pub enum PixelFormat {
    /// Blue, green, red: three bytes a pixel.
    Bgr24,
    /// Blue, green, red, alpha: four bytes a pixel.
    Bgra32,
}

/// Bytes a pixel takes in the given format.
pub open spec fn bytes_per_pixel_of(f: PixelFormat) -> nat {
    match f {
        PixelFormat::Bgr24 => 3,
        PixelFormat::Bgra32 => 4,
    }
}

impl PixelFormat {
    /// Bytes a pixel takes.
    pub fn bytes_per_pixel(self) -> (r: u32)
        ensures
            r == bytes_per_pixel_of(self),
    {
        match self {
            PixelFormat::Bgr24 => 3,
            PixelFormat::Bgra32 => 4,
        }
    }
}

/// A region of an image, in pixels, with the origin at the top left.
#[derive(Debug, Clone, Copy)]
pub struct Rect {
    pub x: u32,
    pub y: u32,
    pub width: u32,
    pub height: u32,
}

/// What a BMP header says about the pixel data.
#[derive(Debug, Clone, Copy)]
pub struct BmpInfo {
    pub width: u32,
    pub height: u32,
    pub pixel_format: PixelFormat,
    /// Row order: true when the bottom row comes first in the file (the
    /// usual BMP layout), false when the top row does.
    pub bottom_up: bool,
    /// Offset of the pixel data in the file, in bytes.
    pub pixel_data_offset: u64,
    /// Bytes a row takes in the file, padding to a multiple of four included.
    pub row_stride: u64,
}

/// Little-endian 16-bit value at `off`.
pub open spec fn le_u16(h: Seq<u8>, off: int) -> nat {
    (h[off] + h[off + 1] * 256) as nat
}

/// Little-endian 32-bit value at `off`.
pub open spec fn le_u32(h: Seq<u8>, off: int) -> nat {
    (h[off] + h[off + 1] * 256 + h[off + 2] * 65536 + h[off + 3] * 16777216) as nat
}

/// Magnitude of the two's-complement 32-bit value whose bits are `u`
/// (std's `i32::unsigned_abs`).
pub open spec fn abs_i32_bits(u: nat) -> nat {
    if u >= 0x8000_0000 {
        (0x1_0000_0000 - u) as nat
    } else {
        u
    }
}

/// Bytes a row of `width` pixels takes, rounded up to a multiple of four.
pub open spec fn row_stride_of(width: nat, bpp: nat) -> nat {
    ((width * bpp + 3) / 4 * 4) as nat
}

/// Message of a header shorter than 54 bytes.
pub open spec fn short_header_message() -> Seq<char> {
    "读取 BMP 头失败: failed to fill whole buffer"@
}

/// Message of a file without the `BM` signature.
pub open spec fn bad_magic_message() -> Seq<char> {
    "不是有效的 BMP 文件（魔数错误）"@
}

/// Message of a DIB header too small to be a BITMAPINFOHEADER.
pub open spec fn dib_size_message(dib: nat) -> Seq<char> {
    "DIB header size "@ + text::decimal(dib) + " < 40，不支持此 BMP 变体"@
}

/// Message of dimensions outside `1..=MAX_BMP_DIMENSION`.
pub open spec fn dimensions_message(width: nat, height: nat) -> Seq<char> {
    "BMP 尺寸 "@ + text::decimal(width) + "×"@ + text::decimal(height) + " 超出支持范围"@
}

/// Message of a compressed BMP.
pub open spec fn compression_message(compression: nat) -> Seq<char> {
    "BMP compression="@ + text::decimal(compression) + "，仅支持 BI_RGB (0)"@
}

/// Message of an unsupported bit depth.
pub open spec fn bit_count_message(bit_count: nat) -> Seq<char> {
    "BMP bit_count="@ + text::decimal(bit_count) + "，仅支持 24 和 32"@
}

/// What a BMP header gives: the image description, or an error code and
/// message. The checks run in this order: length, `BM` signature, DIB header
/// size, dimensions, compression, bit depth.
pub open spec fn parse_bmp_header(h: Seq<u8>) -> Result<BmpInfo, (Seq<char>, Seq<char>)> {
    if h.len() < 54 {
        Err(("DECODE_ERROR"@, short_header_message()))
    } else if h[0] != 66 || h[1] != 77 {
        Err(("DECODE_ERROR"@, bad_magic_message()))
    } else if le_u32(h, 14) < 40 {
        Err(("DECODE_ERROR"@, dib_size_message(le_u32(h, 14))))
    } else {
        let width = abs_i32_bits(le_u32(h, 18));
        let height = abs_i32_bits(le_u32(h, 22));
        if width == 0 || height == 0 || width > MAX_BMP_DIMENSION || height > MAX_BMP_DIMENSION {
            Err(("DECODE_ERROR"@, dimensions_message(width, height)))
        } else if le_u32(h, 30) != 0 {
            Err(("UNSUPPORTED_FORMAT"@, compression_message(le_u32(h, 30))))
        } else if le_u16(h, 28) != 24 && le_u16(h, 28) != 32 {
            Err(("UNSUPPORTED_FORMAT"@, bit_count_message(le_u16(h, 28))))
        } else {
            let format = if le_u16(h, 28) == 24 {
                PixelFormat::Bgr24
            } else {
                PixelFormat::Bgra32
            };
            Ok(
                BmpInfo {
                    width: width as u32,
                    height: height as u32,
                    pixel_format: format,
                    bottom_up: le_u32(h, 22) < 0x8000_0000,
                    pixel_data_offset: le_u32(h, 10) as u64,
                    row_stride: row_stride_of(width, bytes_per_pixel_of(format)) as u64,
                },
            )
        }
    }
}

/// Offset in the file of image row `row` (0 is the top row).
pub open spec fn row_offset(info: BmpInfo, row: int) -> int {
    let file_row = if info.bottom_up {
        info.height - 1 - row
    } else {
        row
    };
    info.pixel_data_offset + file_row * info.row_stride
}

/// Every row of the image, with a full row of pixels read from it, has an
/// offset that fits in 64 bits.
pub open spec fn offsets_fit(info: BmpInfo) -> bool {
    info.pixel_data_offset + (info.height - 1) * info.row_stride + info.width
        * bytes_per_pixel_of(info.pixel_format) <= u64::MAX
}

fn le_u32_at(h: &[u8], off: usize) -> (r: u32)
    requires
        off + 4 <= h@.len(),
    ensures
        r == le_u32(h@, off as int),
{
    (h[off] as u32) + (h[off + 1] as u32) * 256 + (h[off + 2] as u32) * 65536 + (h[off + 3] as u32)
        * 16777216
}

fn abs_i32_of(u: u32) -> (r: u32)
    ensures
        r == abs_i32_bits(u as nat),
{
    if u >= 0x8000_0000 {
        ((0x1_0000_0000u64 - u as u64) as u32)
    } else {
        u
    }
}

/// `prefix` + decimal(n) + `suffix`.
fn framed_decimal(prefix: &str, n: u64, suffix: &str) -> (r: String)
    ensures
        r@ == prefix@ + text::decimal(n as nat) + suffix@,
{
    let mut m = text::with_decimal(prefix, n);
    m.append(suffix);
    m
}

impl BmpInfo {
    /// Parses the header at the start of a BMP file (`header` holds the
    /// file's first bytes; 54 are read). Only uncompressed 24- and 32-bit
    /// bitmaps with a BITMAPINFOHEADER or larger DIB header are accepted.
    pub fn from_reader(header: &[u8]) -> (r: Result<Self, LargeImageError>)
        ensures
            match parse_bmp_header(header@) {
                Ok(info) => r matches Ok(i) && i == info,
                Err((code, message)) => r matches Err(e) && e.code@ == code && e.message@
                    == message,
            },
    {
        proof {
            reveal_strlit("DECODE_ERROR");
            reveal_strlit("UNSUPPORTED_FORMAT");
        }
        if header.len() < 54 {
            return Err(
                LargeImageError::decode(
                    String::from_str("读取 BMP 头失败: failed to fill whole buffer"),
                ),
            );
        }
        if header[0] != 66 || header[1] != 77 {
            return Err(
                LargeImageError::decode(String::from_str("不是有效的 BMP 文件（魔数错误）")),
            );
        }
        let pixel_data_offset = le_u32_at(header, 10) as u64;
        let dib_size = le_u32_at(header, 14);
        if dib_size < 40 {
            return Err(
                LargeImageError::decode(
                    framed_decimal("DIB header size ", dib_size as u64, " < 40，不支持此 BMP 变体"),
                ),
            );
        }
        let width_raw = le_u32_at(header, 18);
        let height_raw = le_u32_at(header, 22);
        let width = abs_i32_of(width_raw);
        let bottom_up = height_raw < 0x8000_0000;
        let height = abs_i32_of(height_raw);
        if width == 0 || height == 0 || width > MAX_BMP_DIMENSION || height > MAX_BMP_DIMENSION {
            let mut m = framed_decimal("BMP 尺寸 ", width as u64, "×");
            text::push_decimal(&mut m, height as u64);
            m.append(" 超出支持范围");
            return Err(LargeImageError::decode(m));
        }
        let bit_count = (header[28] as u32) + (header[29] as u32) * 256;
        let compression = le_u32_at(header, 30);
        if compression != 0 {
            return Err(
                LargeImageError::unsupported_format(
                    framed_decimal("BMP compression=", compression as u64, "，仅支持 BI_RGB (0)"),
                ),
            );
        }
        let pixel_format = if bit_count == 24 {
            PixelFormat::Bgr24
        } else if bit_count == 32 {
            PixelFormat::Bgra32
        } else {
            return Err(
                LargeImageError::unsupported_format(
                    framed_decimal("BMP bit_count=", bit_count as u64, "，仅支持 24 和 32"),
                ),
            );
        };
        let bpp = pixel_format.bytes_per_pixel() as u64;
        let row_stride = (width as u64 * bpp + 3) / 4 * 4;
        Ok(BmpInfo { width, height, pixel_format, bottom_up, pixel_data_offset, row_stride })
    }

    /// Whether every row offset of the image, with a full row read from it,
    /// fits in 64 bits (true of every header that `from_reader` accepts).
    pub fn offsets_in_range(&self) -> (r: bool)
        ensures
            r == offsets_fit(*self),
    {
        let h = self.height as i128 - 1;
        let stride = self.row_stride as i128;
        assert(-1 <= h <= 0xffff_ffff);
        assert(h * stride <= 0xffff_ffff * 0xffff_ffff_ffff_ffff) by (nonlinear_arith)
            requires
                h <= 0xffff_ffff,
                0 <= stride <= 0xffff_ffff_ffff_ffff,
        ;
        assert(h * stride >= -0xffff_ffff_ffff_ffff) by (nonlinear_arith)
            requires
                -1 <= h,
                0 <= stride <= 0xffff_ffff_ffff_ffff,
        ;
        let bpp = self.pixel_format.bytes_per_pixel() as i128;
        assert(self.width * bpp <= 0xffff_ffff * 4) by (nonlinear_arith)
            requires
                self.width <= 0xffff_ffff,
                0 <= bpp <= 4,
        ;
        let row_bytes = self.width as i128 * bpp;
        self.pixel_data_offset as i128 + h * stride + row_bytes <= 0xffff_ffff_ffff_ffff
    }

    /// Offset in the file of image row `row` (0 is the top row): counted
    /// from the end of the pixel data when the rows are stored bottom-up.
    pub fn row_file_offset(&self, row: u32) -> (r: u64)
        requires
            self.bottom_up ==> row < self.height,
            row_offset(*self, row as int) <= u64::MAX,
        ensures
            r == row_offset(*self, row as int),
    {
        let file_row = if self.bottom_up {
            self.height - 1 - row
        } else {
            row
        };
        assert(file_row * self.row_stride <= u64::MAX);
        self.pixel_data_offset + file_row as u64 * self.row_stride
    }
}

/// Every header that parses describes an image whose row offsets fit in 64
/// bits, with rows padded to a multiple of four bytes.
pub proof fn lemma_parsed_header_fits(h: Seq<u8>)
    ensures
        parse_bmp_header(h) matches Ok(info) ==> {
            &&& 1 <= info.width <= MAX_BMP_DIMENSION
            &&& 1 <= info.height <= MAX_BMP_DIMENSION
            &&& info.row_stride % 4 == 0
            &&& info.width * bytes_per_pixel_of(info.pixel_format) <= info.row_stride
            &&& info.row_stride < info.width * bytes_per_pixel_of(info.pixel_format) + 4
            &&& offsets_fit(info)
        },
{
    if let Ok(info) = parse_bmp_header(h) {
        let b = bytes_per_pixel_of(info.pixel_format);
        let w = info.width as nat;
        assert(w * b <= 800_000) by (nonlinear_arith)
            requires
                w <= 200_000,
                b <= 4,
        ;
        let s = row_stride_of(w, b);
        assert(s <= w * b + 3 && s % 4 == 0 && w * b <= s);
        assert(info.row_stride == s);
        assert(info.pixel_data_offset <= 0xffff_ffff);
        assert((info.height - 1) * info.row_stride <= 200_000 * 800_004) by (nonlinear_arith)
            requires
                info.height <= 200_000,
                info.row_stride <= 800_004,
        ;
    }
}


// ───────────────────────── region sampling ─────────────────────────

/// A requested region clipped to the image, and the size it is scaled to.
#[derive(Debug, Clone, Copy)]
pub struct RegionPlan {
    /// Left edge of the clipped region.
    pub src_x: u32,
    /// Top edge of the clipped region.
    pub src_y: u32,
    /// Width of the clipped region (0 when it misses the image).
    pub src_w: u32,
    /// Height of the clipped region (0 when it misses the image).
    pub src_h: u32,
    /// Width of the output.
    pub target_width: u32,
    /// Height of the output.
    pub target_height: u32,
}

/// The smaller of two integers.
pub open spec fn min_int(a: int, b: int) -> int {
    if a <= b {
        a
    } else {
        b
    }
}

/// `rect` clipped to an image of `width`×`height`, to be scaled to
/// `target_width`×`target_height`.
pub open spec fn planned(info: BmpInfo, rect: Rect, target_width: u32, target_height: u32) -> RegionPlan {
    let x = min_int(rect.x as int, info.width as int);
    let y = min_int(rect.y as int, info.height as int);
    let x2 = min_int(rect.x + rect.width, info.width as int);
    let y2 = min_int(rect.y + rect.height, info.height as int);
    RegionPlan {
        src_x: x as u32,
        src_y: y as u32,
        src_w: (if x2 > x { x2 - x } else { 0 }) as u32,
        src_h: (if y2 > y { y2 - y } else { 0 }) as u32,
        target_width,
        target_height,
    }
}

/// Nothing is sampled: the region misses the image or the output is empty.
pub open spec fn plan_is_empty(p: RegionPlan) -> bool {
    p.src_w == 0 || p.src_h == 0 || p.target_width == 0 || p.target_height == 0
}

impl RegionPlan {
    /// Whether nothing is sampled (see `plan_is_empty`).
    pub fn is_empty(&self) -> (r: bool)
        ensures
            r == plan_is_empty(*self),
    {
        self.src_w == 0 || self.src_h == 0 || self.target_width == 0 || self.target_height == 0
    }
}

/// The region lies inside the image.
pub open spec fn plan_fits(info: BmpInfo, p: RegionPlan) -> bool {
    p.src_x + p.src_w <= info.width && p.src_y + p.src_h <= info.height
}

/// The image row that output row `ty` samples.
pub open spec fn source_row(p: RegionPlan, ty: int) -> int {
    p.src_y + nearest(ty, p.src_h as int, p.target_height as int)
}

/// The column, within the region, that output column `tx` samples.
pub open spec fn source_col(p: RegionPlan, tx: int) -> int {
    nearest(tx, p.src_w as int, p.target_width as int)
}

/// File offset of the region's part of the row that output row `ty` samples.
pub open spec fn row_start(info: BmpInfo, p: RegionPlan, ty: int) -> int {
    row_offset(info, source_row(p, ty)) + p.src_x * bytes_per_pixel_of(info.pixel_format)
}

/// Bytes of the region in one row.
pub open spec fn row_len(info: BmpInfo, p: RegionPlan) -> int {
    p.src_w * bytes_per_pixel_of(info.pixel_format)
}

/// Channel `c` (red, green, blue, alpha) of the RGBA pixel converted from
/// the stored pixel at `off` in `bytes`; a 24-bit pixel is opaque.
pub open spec fn rgba_byte(format: PixelFormat, bytes: Seq<u8>, off: int, c: int) -> u8 {
    if c == 0 {
        bytes[off + 2]
    } else if c == 1 {
        bytes[off + 1]
    } else if c == 2 {
        bytes[off]
    } else {
        match format {
            PixelFormat::Bgr24 => 255u8,
            PixelFormat::Bgra32 => bytes[off + 3],
        }
    }
}

/// Every row that output rows `first .. first + count` read lies within a
/// file of `len` bytes.
pub open spec fn band_within(info: BmpInfo, p: RegionPlan, len: int, first: int, count: int) -> bool {
    forall|ty: int|
        first <= ty < first + count ==> #[trigger] row_start(info, p, ty) + row_len(info, p) <= len
}

/// Every row that the plan reads lies within a file of `len` bytes.
pub open spec fn rows_within(info: BmpInfo, p: RegionPlan, len: int) -> bool {
    band_within(info, p, len, 0, p.target_height as int)
}

/// Message of a row that the file is too short to hold.
pub open spec fn row_read_message() -> Seq<char> {
    "读取行数据失败: failed to fill whole buffer"@
}

/// Byte `c` of output pixel (`tx`, `ty`) when the plan samples `file`.
pub open spec fn sampled_byte(
    info: BmpInfo,
    p: RegionPlan,
    file: Seq<u8>,
    ty: int,
    tx: int,
    c: int,
) -> u8 {
    let b = bytes_per_pixel_of(info.pixel_format);
    rgba_byte(info.pixel_format, file, row_start(info, p, ty) + source_col(p, tx) * b, c)
}

/// Output row `ty` as RGBA bytes: `target_width` pixels of four bytes.
pub open spec fn region_row(info: BmpInfo, p: RegionPlan, file: Seq<u8>, ty: int) -> Seq<u8> {
    Seq::new((p.target_width * 4) as nat, |i: int| sampled_byte(info, p, file, ty, i / 4, i % 4))
}

/// Output rows `first .. first + count`, top to bottom, one after another.
pub open spec fn region_rows(info: BmpInfo, p: RegionPlan, file: Seq<u8>, first: int, count: nat) -> Seq<
    u8,
>
    decreases count,
{
    if count == 0 {
        Seq::empty()
    } else {
        region_rows(info, p, file, first, (count - 1) as nat) + region_row(
            info,
            p,
            file,
            first + count - 1,
        )
    }
}

/// Byte `i` of row `t` of a band is byte `i` of output row `first + t`.
pub proof fn lemma_region_rows_index(
    info: BmpInfo,
    p: RegionPlan,
    file: Seq<u8>,
    first: int,
    count: nat,
    t: int,
    i: int,
)
    requires
        0 <= t < count,
        0 <= i < p.target_width * 4,
    ensures
        region_rows(info, p, file, first, count).len() == count * (p.target_width * 4),
        region_rows(info, p, file, first, count)[t * (p.target_width * 4) + i] == region_row(
            info,
            p,
            file,
            first + t,
        )[i],
    decreases count,
{
    let rb = p.target_width * 4;
    lemma_region_rows_len(info, p, file, first, (count - 1) as nat);
    if t < count - 1 {
        lemma_region_rows_index(info, p, file, first, (count - 1) as nat, t, i);
        assert(t * rb + i < (count - 1) * rb) by (nonlinear_arith)
            requires
                0 <= t < count - 1,
                0 <= i < rb,
        ;
    } else {
        assert(t * rb == (count - 1) * rb);
    }
    assert(count * rb == (count - 1) * rb + rb) by (nonlinear_arith);
}

/// A band of `count` rows holds `count` times the bytes of a row.
pub proof fn lemma_region_rows_len(info: BmpInfo, p: RegionPlan, file: Seq<u8>, first: int, count: nat)
    ensures
        region_rows(info, p, file, first, count).len() == count * (p.target_width * 4),
    decreases count,
{
    let rb = p.target_width * 4;
    if count > 0 {
        lemma_region_rows_len(info, p, file, first, (count - 1) as nat);
        assert(region_row(info, p, file, first + count - 1).len() == rb);
        assert(count * rb == (count - 1) * rb + rb) by (nonlinear_arith);
    } else {
        assert(count * rb == 0) by (nonlinear_arith)
            requires
                count == 0,
        ;
    }
}

/// Two adjacent bands, read one after the other, give the band that spans
/// both.
pub proof fn lemma_region_rows_split(
    info: BmpInfo,
    p: RegionPlan,
    file: Seq<u8>,
    first: int,
    a: nat,
    b: nat,
)
    ensures
        region_rows(info, p, file, first, a) + region_rows(info, p, file, first + a, b)
            == region_rows(info, p, file, first, a + b),
    decreases b,
{
    if b == 0 {
        assert(region_rows(info, p, file, first, a) + region_rows(info, p, file, first + a, b)
            =~= region_rows(info, p, file, first, a));
    } else {
        lemma_region_rows_split(info, p, file, first, a, (b - 1) as nat);
        let x = region_rows(info, p, file, first, a);
        let y = region_rows(info, p, file, first + a, (b - 1) as nat);
        let z = region_row(info, p, file, first + a + b - 1);
        assert((x + y) + z =~= x + (y + z));
    }
}

/// Bands `(first row, row count)` that follow one another from row 0 and end
/// at row `n`.
pub open spec fn bands_tile(bands: Seq<(u32, u32)>, n: int) -> bool
    decreases bands.len(),
{
    if bands.len() == 0 {
        n == 0
    } else {
        let last = bands.last();
        last.0 + last.1 == n && bands_tile(bands.drop_last(), last.0 as int)
    }
}

/// The bands' rows, each band read on its own, one after another.
pub open spec fn concat_bands(info: BmpInfo, p: RegionPlan, file: Seq<u8>, bands: Seq<(u32, u32)>) -> Seq<
    u8,
>
    decreases bands.len(),
{
    if bands.len() == 0 {
        Seq::empty()
    } else {
        concat_bands(info, p, file, bands.drop_last()) + region_rows(
            info,
            p,
            file,
            bands.last().0 as int,
            bands.last().1 as nat,
        )
    }
}

/// Reading a region band by band, in any split into adjacent bands, gives
/// byte for byte what reading it in one pass gives.
pub proof fn lemma_bands_match_whole(
    info: BmpInfo,
    p: RegionPlan,
    file: Seq<u8>,
    bands: Seq<(u32, u32)>,
    n: nat,
)
    requires
        bands_tile(bands, n as int),
    ensures
        concat_bands(info, p, file, bands) == region_rows(info, p, file, 0, n),
    decreases bands.len(),
{
    if bands.len() > 0 {
        let last = bands.last();
        lemma_bands_match_whole(info, p, file, bands.drop_last(), last.0 as nat);
        lemma_region_rows_split(info, p, file, 0, last.0 as nat, last.1 as nat);
    }
}

/// Threads actually used for `target_height` output rows when `threads` are
/// asked for: at least one, at most one a row.
pub open spec fn worker_count(target_height: u32, threads: u32) -> int {
    if threads < 1 {
        1
    } else if threads > target_height {
        target_height as int
    } else {
        threads as int
    }
}

/// Output rows each worker takes: the rows divided among the workers,
/// rounded up.
pub open spec fn rows_per_band(target_height: u32, threads: u32) -> int {
    let t = worker_count(target_height, threads);
    (target_height + t - 1) / t
}

/// Splits `target_height` output rows into bands `(first row, row count)`
/// for parallel reading: every band but the last has `rows_per_band` rows,
/// the bands follow one another from row 0, and together they cover every
/// row once.
pub fn row_bands(target_height: u32, threads: u32) -> (r: Vec<(u32, u32)>)
    requires
        target_height > 0,
    ensures
        bands_tile(r@, target_height as int),
        r@.len() > 0,
        r@[0].0 == 0,
        r@.last().0 + r@.last().1 == target_height,
        forall|i: int| 0 <= i < r@.len() - 1 ==> #[trigger] r@[i].0 + r@[i].1 == r@[i + 1].0,
        forall|i: int| 0 <= i < r@.len() ==> #[trigger] r@[i].1 > 0,
        forall|i: int|
            0 <= i < r@.len() ==> #[trigger] r@[i].0 == i * rows_per_band(target_height, threads)
                && r@[i].1 == min_int(
                rows_per_band(target_height, threads),
                target_height - r@[i].0,
            ),
{
    let t = if threads < 1 {
        1
    } else if threads > target_height {
        target_height
    } else {
        threads
    };
    let band = (target_height - 1) / t + 1;
    let ghost bh = rows_per_band(target_height, threads);
    assert(band == bh) by (nonlinear_arith)
        requires
            t >= 1,
            target_height >= 1,
            band == (target_height - 1) / (t as int) + 1,
            bh == (target_height + t - 1) / (t as int),
    ;
    assert(1 <= band <= target_height) by (nonlinear_arith)
        requires
            1 <= t,
            target_height >= 1,
            band == (target_height - 1) / (t as int) + 1,
    ;
    let mut out: Vec<(u32, u32)> = Vec::new();
    let mut start: u32 = 0;
    while start < target_height
        invariant
            band == bh,
            1 <= band <= target_height,
            start <= target_height,
            bands_tile(out@, start as int),
            start < target_height ==> start == out@.len() * band,
            out@.len() > 0 || start == 0,
            forall|i: int| 0 <= i < out@.len() ==> #[trigger] out@[i].1 > 0,
            out@.len() > 0 ==> out@[0].0 == 0 && out@.last().0 + out@.last().1 == start,
            forall|i: int|
                0 <= i < out@.len() - 1 ==> #[trigger] out@[i].0 + out@[i].1 == out@[i + 1].0,
            forall|i: int|
                0 <= i < out@.len() ==> #[trigger] out@[i].0 == i * bh && out@[i].1 == min_int(
                    bh,
                    target_height - out@[i].0,
                ),
        decreases target_height - start,
    {
        let rest = target_height - start;
        let count = if band < rest {
            band
        } else {
            rest
        };
        let ghost before = out@;
        out.push((start, count));
        proof {
            assert(out@.drop_last() =~= before);
            assert((before.len() + 1) * band == before.len() * band + band) by (nonlinear_arith);
        }
        start = start + count;
    }
    out
}

/// Each output pixel is the stored pixel it samples with its colour bytes
/// turned from blue-green-red to red-green-blue: channels 0, 1 and 2 are
/// the stored bytes at offsets 2, 1 and 0 of that pixel, and channel 3 is
/// the stored alpha of a 32-bit pixel or opaque (255) for a 24-bit one.
pub proof fn lemma_output_pixel_is_stored_pixel(
    info: BmpInfo,
    p: RegionPlan,
    file: Seq<u8>,
    ty: int,
    tx: int,
)
    ensures
        ({
            let o = row_start(info, p, ty) + source_col(p, tx) * bytes_per_pixel_of(
                info.pixel_format,
            );
            &&& sampled_byte(info, p, file, ty, tx, 0) == file[o + 2]
            &&& sampled_byte(info, p, file, ty, tx, 1) == file[o + 1]
            &&& sampled_byte(info, p, file, ty, tx, 2) == file[o]
            &&& sampled_byte(info, p, file, ty, tx, 3) == match info.pixel_format {
                PixelFormat::Bgr24 => 255u8,
                PixelFormat::Bgra32 => file[o + 3],
            }
        }),
{
}

/// A BMP file to sample regions from: its header and where it lives.
pub struct BmpReader {
    pub info: BmpInfo,
    pub path: String,
}

impl BmpReader {
    /// Where the file lives.
    pub open spec fn source_path(&self) -> Seq<char> {
        self.path@
    }

    /// The parsed header.
    pub open spec fn header(&self) -> BmpInfo {
        self.info
    }

    /// A reader for the BMP file at `path`, whose first bytes are `header`.
    pub fn open(path: &str, header: &[u8]) -> (r: Result<Self, LargeImageError>)
        ensures
            match parse_bmp_header(header@) {
                Ok(info) => r matches Ok(b) && b.header() == info && b.source_path() == path@,
                Err((code, message)) => r matches Err(e) && e.code@ == code && e.message@
                    == message,
            },
    {
        let info = match BmpInfo::from_reader(header) {
            Ok(info) => info,
            Err(e) => {
                return Err(e);
            },
        };
        Ok(BmpReader { info, path: String::from_str(path) })
    }

    /// Where the file lives.
    pub fn path(&self) -> (r: &str)
        ensures
            r@ == self.source_path(),
    {
        self.path.as_str()
    }

    /// Clips `rect` to the image: the clipped region starts at
    /// `min(x, width)` and ends at `min(x + w, width)` (likewise vertically),
    /// and is empty when the request lies outside the image.
    pub fn plan_region(&self, rect: Rect, target_width: u32, target_height: u32) -> (p: RegionPlan)
        ensures
            p == planned(self.header(), rect, target_width, target_height),
            plan_fits(self.header(), p),
    {
        let img_w = self.info.width;
        let img_h = self.info.height;
        let src_x = if rect.x < img_w { rect.x } else { img_w };
        let src_y = if rect.y < img_h { rect.y } else { img_h };
        let end_x = rect.x.saturating_add(rect.width);
        let end_y = rect.y.saturating_add(rect.height);
        let src_x2 = if end_x < img_w { end_x } else { img_w };
        let src_y2 = if end_y < img_h { end_y } else { img_h };
        let src_w = src_x2.saturating_sub(src_x);
        let src_h = src_y2.saturating_sub(src_y);
        RegionPlan { src_x, src_y, src_w, src_h, target_width, target_height }
    }

    /// Offset and length of the bytes that output row `ty` needs: the
    /// region's part of the image row it samples.
    pub fn row_span(&self, plan: &RegionPlan, ty: u32) -> (r: (u64, u64))
        requires
            !plan_is_empty(*plan),
            plan_fits(self.header(), *plan),
            offsets_fit(self.header()),
            ty < plan.target_height,
        ensures
            r.0 == row_start(self.header(), *plan, ty as int),
            r.1 == row_len(self.header(), *plan),
            r.0 + r.1 <= u64::MAX,
    {
        let info = &self.info;
        let bpp = info.pixel_format.bytes_per_pixel() as u64;
        let rel = nearest_source_index(ty, plan.src_h, plan.target_height);
        let src_row = plan.src_y + rel;
        proof {
            let b = bytes_per_pixel_of(info.pixel_format);
            let file_row = if info.bottom_up {
                info.height - 1 - src_row
            } else {
                src_row as int
            };
            assert(0 <= file_row <= info.height - 1);
            assert(file_row * info.row_stride <= (info.height - 1) * info.row_stride)
                by (nonlinear_arith)
                requires
                    0 <= file_row <= info.height - 1,
            ;
            assert((plan.src_x + plan.src_w) * b <= info.width * b) by (nonlinear_arith)
                requires
                    plan.src_x + plan.src_w <= info.width,
            ;
            assert((plan.src_x + plan.src_w) * b == plan.src_x * b + plan.src_w * b)
                by (nonlinear_arith);
        }
        let row_offset = info.row_file_offset(src_row);
        let start = row_offset + plan.src_x as u64 * bpp;
        let len = plan.src_w as u64 * bpp;
        (start, len)
    }

    /// Converts the region's part of one sampled row (`row`, stored BGR or
    /// BGRA) into one output row of RGBA pixels, picking for each output
    /// column its nearest source column.
    pub fn convert_row(&self, plan: &RegionPlan, row: &[u8]) -> (r: Vec<u8>)
        requires
            !plan_is_empty(*plan),
            row@.len() == row_len(self.header(), *plan),
            plan.target_width * 4 <= usize::MAX,
        ensures
            r@.len() == plan.target_width * 4,
            forall|tx: int, c: int|
                0 <= tx < plan.target_width && 0 <= c < 4 ==> #[trigger] r@[tx * 4 + c]
                    == rgba_byte(
                    self.header().pixel_format,
                    row@,
                    source_col(*plan, tx) * bytes_per_pixel_of(self.header().pixel_format),
                    c,
                ),
    {
        let format = self.info.pixel_format;
        let bpp = format.bytes_per_pixel() as usize;
        let tw = plan.target_width;
        let row_bytes = row.len();
        let mut out: Vec<u8> = Vec::new();
        let mut tx: u32 = 0;
        while tx < tw
            invariant
                0 <= tx <= tw,
                tw == plan.target_width,
                tw > 0,
                plan.src_w > 0,
                tw * 4 <= usize::MAX,
                bpp == bytes_per_pixel_of(format),
                format == self.header().pixel_format,
                row@.len() == plan.src_w * bpp,
                row@.len() == row_bytes,
                out@.len() == tx * 4,
                forall|t: int, c: int|
                    0 <= t < tx && 0 <= c < 4 ==> #[trigger] out@[t * 4 + c] == rgba_byte(
                        format,
                        row@,
                        source_col(*plan, t) * bpp,
                        c,
                    ),
            decreases tw - tx,
        {
            let col = nearest_source_index(tx, plan.src_w, tw);
            proof {
                assert((col + 1) * bpp <= plan.src_w * bpp) by (nonlinear_arith)
                    requires
                        col < plan.src_w,
                ;
                assert((col + 1) * bpp == col * bpp + bpp) by (nonlinear_arith);
            }
            let off = col as usize * bpp;
            let b = row[off];
            let g = row[off + 1];
            let r = row[off + 2];
            let a = match format {
                PixelFormat::Bgr24 => 255u8,
                PixelFormat::Bgra32 => row[off + 3],
            };
            let ghost before = out@;
            out.push(r);
            out.push(g);
            out.push(b);
            out.push(a);
            proof {
                assert forall|t: int, c: int|
                    0 <= t < tx + 1 && 0 <= c < 4 implies #[trigger] out@[t * 4 + c] == rgba_byte(
                        format,
                        row@,
                        source_col(*plan, t) * bpp,
                        c,
                    ) by {
                    if t < tx {
                        assert(out@[t * 4 + c] == before[t * 4 + c]);
                    } else {
                        assert(t == tx);
                    }
                }
            }
            tx += 1;
        }
        out
    }

    /// Output rows `first .. first + count` of the plan, sampled from
    /// `file`, the whole BMP file: `region_rows` of them, or a decode error
    /// when one of the rows they read runs past the end of the file.
    pub fn read_rows(&self, plan: &RegionPlan, first: u32, count: u32, file: &[u8]) -> (r: Result<
        Vec<u8>,
        LargeImageError,
    >)
        requires
            !plan_is_empty(*plan),
            plan_fits(self.header(), *plan),
            offsets_fit(self.header()),
            first + count <= plan.target_height,
            count * (plan.target_width * 4) <= usize::MAX,
        ensures
            band_within(self.header(), *plan, file@.len() as int, first as int, count as int) ==> (r
                matches Ok(v) && v@ == region_rows(
                self.header(),
                *plan,
                file@,
                first as int,
                count as nat,
            )),
            !band_within(self.header(), *plan, file@.len() as int, first as int, count as int) ==> (r
                matches Err(e) && e.code@ == "DECODE_ERROR"@ && e.message@ == row_read_message()),
    {
        proof {
            reveal_strlit("DECODE_ERROR");
        }
        let ghost info = self.header();
        let ghost fmt = info.pixel_format;
        let ghost bpp = bytes_per_pixel_of(fmt);
        let ghost rb = plan.target_width * 4;
        let mut out: Vec<u8> = Vec::new();
        let mut j: u32 = 0;
        while j < count
            invariant
                info == self.header(),
                fmt == info.pixel_format,
                bpp == bytes_per_pixel_of(fmt),
                rb == plan.target_width * 4,
                !plan_is_empty(*plan),
                plan_fits(info, *plan),
                offsets_fit(info),
                first + count <= plan.target_height,
                count * rb <= usize::MAX,
                0 <= j <= count,
                out@ == region_rows(info, *plan, file@, first as int, j as nat),
                band_within(info, *plan, file@.len() as int, first as int, j as int),
            decreases count - j,
        {
            let ty = first + j;
            let (start, len) = self.row_span(plan, ty);
            if start + len > file.len() as u64 {
                return Err(
                    LargeImageError::decode(
                        String::from_str("读取行数据失败: failed to fill whole buffer"),
                    ),
                );
            }
            let row = vstd::slice::slice_subrange(file, start as usize, (start + len) as usize);
            assert(row@ == file@.subrange(start as int, start + len));
            proof {
                lemma_region_rows_len(info, *plan, file@, first as int, j as nat);
                assert((j + 1) * rb <= count * rb) by (nonlinear_arith)
                    requires
                        j + 1 <= count,
                        rb >= 0,
                ;
                assert((j + 1) * rb == j * rb + rb) by (nonlinear_arith);
                assert(rb <= count * rb) by (nonlinear_arith)
                    requires
                        count >= 1,
                        rb >= 0,
                ;
            }
            let mut pixels = self.convert_row(plan, row);
            let ghost conv = pixels@;
            proof {
                assert forall|i: int| 0 <= i < rb implies #[trigger] conv[i] == region_row(
                    info,
                    *plan,
                    file@,
                    ty as int,
                )[i] by {
                    let tx = i / 4;
                    let c = i % 4;
                    assert(i == tx * 4 + c && 0 <= tx < plan.target_width && 0 <= c < 4);
                    let col = source_col(*plan, tx);
                    assert(0 <= col < plan.src_w) by (nonlinear_arith)
                        requires
                            col == (tx * plan.src_w) / (plan.target_width as int),
                            0 <= tx < plan.target_width,
                            plan.src_w > 0,
                    ;
                    assert((col + 1) * bpp <= plan.src_w * bpp) by (nonlinear_arith)
                        requires
                            col < plan.src_w,
                            bpp >= 0,
                    ;
                    assert((col + 1) * bpp == col * bpp + bpp) by (nonlinear_arith);
                    let off = col * bpp;
                    assert(off + bpp <= len);
                    assert(row@[off] == file@[start + off]);
                    assert(row@[off + 1] == file@[start + off + 1]);
                    assert(row@[off + 2] == file@[start + off + 2]);
                    if fmt == PixelFormat::Bgra32 {
                        assert(row@[off + 3] == file@[start + off + 3]);
                    }
                    assert(conv[tx * 4 + c] == rgba_byte(fmt, row@, off, c));
                }
                assert(conv =~= region_row(info, *plan, file@, ty as int));
            }
            out.append(&mut pixels);
            proof {
                assert(region_rows(info, *plan, file@, first as int, (j + 1) as nat) == region_rows(
                    info,
                    *plan,
                    file@,
                    first as int,
                    j as nat,
                ) + region_row(info, *plan, file@, first + j));
            }
            j += 1;
        }
        Ok(out)
    }

    /// Reads `rect` (clipped to the image) from `file`, the whole BMP file,
    /// scaled by nearest-neighbour sampling to `target_width`×`target_height`
    /// RGBA pixels, row by row from the top. A region that misses the image,
    /// or an empty output, gives transparent black; a row beyond the end of
    /// the file is a decode error.
    pub fn read_region(&self, rect: Rect, target_width: u32, target_height: u32, file: &[u8]) -> (r:
        Result<Vec<u8>, LargeImageError>)
        requires
            offsets_fit(self.header()),
            target_width * target_height * 4 <= usize::MAX,
        ensures
            ({
                let p = planned(self.header(), rect, target_width, target_height);
                if plan_is_empty(p) {
                    r matches Ok(v) && v@.len() == target_width * target_height * 4 && forall|i: int|
                        0 <= i < v@.len() ==> #[trigger] v@[i] == 0u8
                } else if rows_within(self.header(), p, file@.len() as int) {
                    r matches Ok(v) && v@ == region_rows(
                        self.header(),
                        p,
                        file@,
                        0,
                        target_height as nat,
                    ) && v@.len() == target_width * target_height * 4 && forall|
                        ty: int,
                        tx: int,
                        c: int,
                    |
                        0 <= ty < target_height && 0 <= tx < target_width && 0 <= c < 4
                            ==> #[trigger] v@[ty * (target_width * 4) + tx * 4 + c]
                            == sampled_byte(self.header(), p, file@, ty, tx, c)
                } else {
                    r matches Err(e) && e.code@ == "DECODE_ERROR"@ && e.message@
                        == row_read_message()
                }
            }),
    {
        let plan = self.plan_region(rect, target_width, target_height);
        assert(target_width * target_height <= target_width * target_height * 4) by (nonlinear_arith);
        let n = target_width as usize * target_height as usize * 4;
        if plan.src_w == 0 || plan.src_h == 0 || target_width == 0 || target_height == 0 {
            return Ok(vec![0u8; n]);
        }
        assert(target_height * (target_width * 4) == target_width * target_height * 4)
            by (nonlinear_arith);
        let r = self.read_rows(&plan, 0, target_height, file);
        proof {
            let info = self.header();
            if let Ok(v) = &r {
                lemma_region_rows_len(info, plan, file@, 0, target_height as nat);
                assert forall|ty: int, tx: int, c: int|
                    0 <= ty < target_height && 0 <= tx < target_width && 0 <= c < 4 implies #[trigger] v@[ty
                        * (target_width * 4) + tx * 4 + c] == sampled_byte(info, plan, file@, ty, tx, c)
                    by {
                    let i = tx * 4 + c;
                    assert(0 <= i < target_width * 4);
                    lemma_region_rows_index(info, plan, file@, 0, target_height as nat, ty, i);
                    assert(i / 4 == tx && i % 4 == c);
                }
            }
        }
        r
    }

    /// `read_region` done band by band, the bands that `row_bands` gives
    /// for `threads` workers read one after another and joined: the same
    /// result, byte for byte, or the same error. Readers that run the bands
    /// on separate threads join exactly these bands.
    pub fn read_region_in_bands(
        &self,
        rect: Rect,
        target_width: u32,
        target_height: u32,
        threads: u32,
        file: &[u8],
    ) -> (r: Result<Vec<u8>, LargeImageError>)
        requires
            offsets_fit(self.header()),
            target_width * target_height * 4 <= usize::MAX,
        ensures
            ({
                let p = planned(self.header(), rect, target_width, target_height);
                if plan_is_empty(p) {
                    r matches Ok(v) && v@.len() == target_width * target_height * 4 && forall|i: int|
                        0 <= i < v@.len() ==> #[trigger] v@[i] == 0u8
                } else if rows_within(self.header(), p, file@.len() as int) {
                    r matches Ok(v) && v@ == region_rows(
                        self.header(),
                        p,
                        file@,
                        0,
                        target_height as nat,
                    )
                } else {
                    r matches Err(e) && e.code@ == "DECODE_ERROR"@ && e.message@
                        == row_read_message()
                }
            }),
    {
        let plan = self.plan_region(rect, target_width, target_height);
        assert(target_width * target_height <= target_width * target_height * 4) by (nonlinear_arith);
        let n = target_width as usize * target_height as usize * 4;
        if plan.src_w == 0 || plan.src_h == 0 || target_width == 0 || target_height == 0 {
            return Ok(vec![0u8; n]);
        }
        let ghost info = self.header();
        let ghost len = file@.len() as int;
        let bands = row_bands(target_height, threads);
        let mut out: Vec<u8> = Vec::new();
        let mut pos: u32 = 0;
        let mut i: usize = 0;
        while i < bands.len()
            invariant
                info == self.header(),
                len == file@.len(),
                plan == planned(info, rect, target_width, target_height),
                !plan_is_empty(plan),
                plan_fits(info, plan),
                offsets_fit(info),
                target_width * target_height * 4 <= usize::MAX,
                bands@.len() > 0,
                bands@[0].0 == 0,
                bands@.last().0 + bands@.last().1 == target_height,
                forall|k: int|
                    0 <= k < bands@.len() - 1 ==> #[trigger] bands@[k].0 + bands@[k].1 == bands@[k
                        + 1].0,
                forall|k: int|
                    0 <= k < bands@.len() ==> #[trigger] bands@[k].0 + bands@[k].1 <= target_height,
                i <= bands@.len(),
                i == 0 ==> pos == 0,
                i > 0 ==> pos == bands@[i - 1].0 + bands@[i - 1].1,
                pos <= target_height,
                out@ == region_rows(info, plan, file@, 0, pos as nat),
                band_within(info, plan, len, 0, pos as int),
            decreases bands@.len() - i,
        {
            let (first, count) = bands[i];
            proof {
                if i > 0 {
                    assert(bands@[i - 1].0 + bands@[i - 1].1 == bands@[i as int].0);
                }
                assert(first == pos);
                assert(first + count <= target_height);
                assert(count * (target_width * 4) <= target_width * target_height * 4)
                    by (nonlinear_arith)
                    requires
                        count <= target_height,
                ;
            }
            let band = self.read_rows(&plan, first, count, file);
            match band {
                Err(e) => {
                    proof {
                        let ty = choose|ty: int|
                            first <= ty < first + count && !(#[trigger] row_start(info, plan, ty)
                                + row_len(info, plan) <= len);
                        assert(!(row_start(info, plan, ty) + row_len(info, plan) <= len));
                    }
                    return Err(e);
                },
                Ok(mut rows) => {
                    proof {
                        lemma_region_rows_split(info, plan, file@, 0, pos as nat, count as nat);
                    }
                    out.append(&mut rows);
                    proof {
                        assert forall|ty: int| 0 <= ty < pos + count implies #[trigger] row_start(
                            info,
                            plan,
                            ty,
                        ) + row_len(info, plan) <= len by {
                            if ty >= pos {
                                assert(first <= ty < first + count);
                            }
                        }
                    }
                    pos = first + count;
                },
            }
            i += 1;
        }
        proof {
            assert(pos == target_height);
        }
        Ok(out)
    }
}

/// A region that starts at or beyond the image's right or bottom edge
/// samples nothing, so it reads as transparent black.
pub proof fn lemma_outside_region_is_empty(info: BmpInfo, rect: Rect, tw: u32, th: u32)
    requires
        rect.x >= info.width || rect.y >= info.height,
    ensures
        plan_is_empty(planned(info, rect, tw, th)),
{
}

/// Reading the whole image at its own size gives every pixel unscaled:
/// output pixel (`x`, `y`) is image pixel (`x`, `y`).
pub proof fn lemma_full_region_identity(info: BmpInfo, file: Seq<u8>, x: int, y: int, c: int)
    requires
        info.width > 0,
        info.height > 0,
        0 <= x < info.width,
        0 <= y < info.height,
    ensures
        ({
            let p = planned(
                info,
                Rect { x: 0, y: 0, width: info.width, height: info.height },
                info.width,
                info.height,
            );
            sampled_byte(info, p, file, y, x, c) == rgba_byte(
                info.pixel_format,
                file,
                row_offset(info, y) + x * bytes_per_pixel_of(info.pixel_format),
                c,
            )
        }),
{
    let p = planned(
        info,
        Rect { x: 0, y: 0, width: info.width, height: info.height },
        info.width,
        info.height,
    );
    assert(p.src_x == 0 && p.src_y == 0 && p.src_w == info.width && p.src_h == info.height);
    lemma_nearest_identity(x, info.width as int);
    lemma_nearest_identity(y, info.height as int);
    assert(source_row(p, y) == y);
    assert(source_col(p, x) == x);
}

} // verus!

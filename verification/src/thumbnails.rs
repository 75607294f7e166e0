//! Thumbnail bookkeeping: which files get thumbnails, the limits that skip
//! them, the cache key, the error codes reported to the UI, and the choices
//! made while decoding (decoder and EXIF orientation).
use crate::extended_formats;
use crate::images;
use crate::text;
use bytemuck::pod_collect_to_vec;
use image::{ColorType, DynamicImage, ImageBuffer, ImageFormat};
use sha2::Digest;
use std::collections::HashMap;
use vstd::prelude::*;

verus! {

broadcast use {vstd::string::group_string_axioms, vstd::std_specs::hash::group_hash_axioms};

/// Thumbnails are skipped when either side exceeds this many pixels.
pub const MAX_SIDE_PIXELS: u32 = 12_000;

/// Thumbnails are skipped for files larger than this (100 MB).
pub const MAX_FILE_BYTES: u64 = 104_857_600;

/// Extensions (lowercase) that get thumbnails.
pub open spec fn thumbnail_extensions() -> Seq<Seq<char>> {
    seq![
        "jpg"@,
        "jpeg"@,
        "png"@,
        "webp"@,
        "gif"@,
        "bmp"@,
        "tiff"@,
        "tif"@,
        "heic"@,
        "heif"@,
        "dng"@,
        "cr2"@,
        "cr3"@,
        "nef"@,
        "arw"@,
        "raf"@,
        "orf"@,
        "rw2"@,
    ]
}

/// An error reported to the UI: a stable code and an English message.
#[derive(Debug)]
pub struct ThumbnailError {
    /// Stable error code; the UI picks its localised text by it.
    pub code: &'static str,
    /// Details, shown when the code is unknown.
    pub message: String,
}

impl ThumbnailError {
    /// An error with the given code and message.
    pub fn new(code: &'static str, message: String) -> (r: Self)
        ensures
            r.code == code,
            r.message@ == message@,
    {
        ThumbnailError { code, message }
    }
}

/// Why generating a thumbnail failed.
#[derive(Debug)]
pub enum GenError {
    /// A side of the image exceeds `MAX_SIDE_PIXELS`.
    ImageTooLarge,
    /// The image could not be decoded.
    DecodeFailed(String),
    /// Reading or writing a file failed.
    IoFailed(String),
}

/// The message reported for an image too large to get a thumbnail.
pub open spec fn too_large_text() -> Seq<char> {
    "Image side exceeds 12000 pixels; thumbnail skipped"@
}

/// The code that a generation error is reported with.
pub open spec fn gen_error_code(e: GenError) -> Seq<char> {
    match e {
        GenError::ImageTooLarge => "IMAGE_TOO_LARGE"@,
        GenError::DecodeFailed(_) => "DECODE_ERROR"@,
        GenError::IoFailed(_) => "IO_ERROR"@,
    }
}

/// The message that a generation error is reported with.
pub open spec fn gen_error_message(e: GenError) -> Seq<char> {
    match e {
        GenError::ImageTooLarge => too_large_text(),
        GenError::DecodeFailed(m) => m@,
        GenError::IoFailed(m) => m@,
    }
}

impl GenError {
    /// The error as reported to the UI: `IMAGE_TOO_LARGE`, `DECODE_ERROR`
    /// or `IO_ERROR`, with the error's message.
    pub fn into_thumbnail_error(self) -> (r: ThumbnailError)
        ensures
            r.code@ == gen_error_code(self),
            r.message@ == gen_error_message(self),
    {
        match self {
            GenError::ImageTooLarge => ThumbnailError::new(
                "IMAGE_TOO_LARGE",
                String::from_str("Image side exceeds 12000 pixels; thumbnail skipped"),
            ),
            GenError::DecodeFailed(msg) => ThumbnailError::new("DECODE_ERROR", msg),
            GenError::IoFailed(msg) => ThumbnailError::new("IO_ERROR", msg),
        }
    }

    /// The code and message handed to the requests that waited for this
    /// generation: the same ones the generating request reports.
    pub fn to_in_flight(&self) -> (r: (&'static str, String))
        ensures
            r.0@ == gen_error_code(*self),
            r.1@ == gen_error_message(*self),
    {
        match self {
            GenError::ImageTooLarge => (
                "IMAGE_TOO_LARGE",
                String::from_str("Image side exceeds 12000 pixels; thumbnail skipped"),
            ),
            GenError::DecodeFailed(msg) => ("DECODE_ERROR", msg.clone()),
            GenError::IoFailed(msg) => ("IO_ERROR", msg.clone()),
        }
    }
}

// ───────────────────────── request checks ─────────────────────────

/// The thumbnail size used for a request: 96, 160 and 256 are kept, any
/// other request gets 160.
pub fn normalize_thumbnail_size(size: u32) -> (r: u32)
    ensures
        r == if size == 96 || size == 160 || size == 256 {
            size
        } else {
            160
        },
{
    if size == 96 || size == 160 || size == 256 {
        size
    } else {
        160
    }
}

/// Whether `ext` (lowercase) gets thumbnails.
pub fn is_thumbnail_extension(ext: &str) -> (r: bool)
    ensures
        r == thumbnail_extensions().contains(ext@),
{
    let ghost list = thumbnail_extensions();
    let r = text::str_eq(ext, "jpg") || text::str_eq(ext, "jpeg") || text::str_eq(ext, "png")
        || text::str_eq(ext, "webp") || text::str_eq(ext, "gif") || text::str_eq(ext, "bmp")
        || text::str_eq(ext, "tiff") || text::str_eq(ext, "tif") || text::str_eq(ext, "heic")
        || text::str_eq(ext, "heif") || text::str_eq(ext, "dng") || text::str_eq(ext, "cr2")
        || text::str_eq(ext, "cr3") || text::str_eq(ext, "nef") || text::str_eq(ext, "arw")
        || text::str_eq(ext, "raf") || text::str_eq(ext, "orf") || text::str_eq(ext, "rw2");
    proof {
        if list.contains(ext@) {
            let k = choose|k: int| 0 <= k < list.len() && list[k] == ext@;
        }
        assert(list[0] == "jpg"@);
        assert(list[1] == "jpeg"@);
        assert(list[2] == "png"@);
        assert(list[3] == "webp"@);
        assert(list[4] == "gif"@);
        assert(list[5] == "bmp"@);
        assert(list[6] == "tiff"@);
        assert(list[7] == "tif"@);
        assert(list[8] == "heic"@);
        assert(list[9] == "heif"@);
        assert(list[10] == "dng"@);
        assert(list[11] == "cr2"@);
        assert(list[12] == "cr3"@);
        assert(list[13] == "nef"@);
        assert(list[14] == "arw"@);
        assert(list[15] == "raf"@);
        assert(list[16] == "orf"@);
        assert(list[17] == "rw2"@);
    }
    r
}

/// The verdict on a file's extension (lowercase): SVG is shown by the UI
/// itself, other formats outside `thumbnail_extensions` are unsupported.
pub open spec fn extension_verdict(ext: Seq<char>) -> Option<Seq<char>> {
    if ext == "svg"@ {
        Some("SVG files should be displayed directly by the frontend"@)
    } else if !thumbnail_extensions().contains(ext) {
        Some("Unsupported format: "@ + ext)
    } else {
        None
    }
}

/// Every format that the system decoder reads gets a thumbnail, and so does
/// every supported image but SVG (which the UI shows itself).
pub proof fn lemma_decodable_formats_get_thumbnails(p: Seq<char>)
    ensures
        extended_formats::is_system_decoded_path(p) ==> extension_verdict(
            extended_formats::lower_extension(p),
        ) is None,
        images::is_supported_path(p) && extended_formats::lower_extension(p) != "svg"@
            ==> extension_verdict(extended_formats::lower_extension(p)) is None,
{
    reveal_strlit("jpg");
    reveal_strlit("jpeg");
    reveal_strlit("png");
    reveal_strlit("webp");
    reveal_strlit("gif");
    reveal_strlit("bmp");
    reveal_strlit("svg");
    reveal_strlit("tif");
    reveal_strlit("tiff");
    reveal_strlit("heic");
    reveal_strlit("heif");
    reveal_strlit("dng");
    reveal_strlit("cr2");
    reveal_strlit("cr3");
    reveal_strlit("nef");
    reveal_strlit("arw");
    reveal_strlit("raf");
    reveal_strlit("orf");
    reveal_strlit("rw2");
    let e = extended_formats::lower_extension(p);
    let list = thumbnail_extensions();
    if extended_formats::tiff_extensions().contains(e) {
        let k = choose|k: int| 0 <= k < 2 && extended_formats::tiff_extensions()[k] == e;
        if k == 0 {
            assert(list[7] == e);
        } else {
            assert(list[6] == e);
        }
        assert(e[0] != "svg"@[0]);
    }
    if extended_formats::system_extensions().contains(e) {
        let k = choose|k: int| 0 <= k < 10 && extended_formats::system_extensions()[k] == e;
        assert(list[k + 8] == extended_formats::system_extensions()[k]);
        assert(e[0] != "svg"@[0]);
    }
    if images::is_supported_path(p) && e != "svg"@ {
        let imgs = images::image_extensions();
        let k = choose|k: int| 0 <= k < 7 && imgs[k] == e;
        assert(k != 6);
        assert(list[k] == imgs[k]);
    }
}

/// Checks a lowercase extension: `Err` with code `UNSUPPORTED_FORMAT` and
/// the message of `extension_verdict` when thumbnails are not made for it.
pub fn check_thumbnail_extension(ext: &str) -> (r: Result<(), ThumbnailError>)
    ensures
        match extension_verdict(ext@) {
            None => r is Ok,
            Some(m) => r matches Err(e) && e.code@ == "UNSUPPORTED_FORMAT"@ && e.message@ == m,
        },
{
    if text::str_eq(ext, "svg") {
        return Err(
            ThumbnailError::new(
                "UNSUPPORTED_FORMAT",
                String::from_str("SVG files should be displayed directly by the frontend"),
            ),
        );
    }
    if !is_thumbnail_extension(ext) {
        let mut m = String::from_str("Unsupported format: ");
        m.append(ext);
        return Err(ThumbnailError::new("UNSUPPORTED_FORMAT", m));
    }
    Ok(())
}

/// Checks the file at `path` by its extension (ASCII case ignored).
pub fn check_thumbnail_format(path: &str) -> (r: Result<(), ThumbnailError>)
    ensures
        match extension_verdict(extended_formats::lower_extension(path@)) {
            None => r is Ok,
            Some(m) => r matches Err(e) && e.code@ == "UNSUPPORTED_FORMAT"@ && e.message@ == m,
        },
{
    let ext = extended_formats::extension(path);
    check_thumbnail_extension(ext.as_str())
}

/// Checks the file size: a file over `MAX_FILE_BYTES` gets no thumbnail
/// (code `FILE_TOO_LARGE`).
pub fn check_file_size(file_size: u64) -> (r: Result<(), ThumbnailError>)
    ensures
        r is Err <==> file_size > MAX_FILE_BYTES,
        r matches Err(e) ==> e.code@ == "FILE_TOO_LARGE"@ && e.message@
            == "File exceeds 100 MB; thumbnail skipped"@,
{
    if file_size > MAX_FILE_BYTES {
        return Err(
            ThumbnailError::new(
                "FILE_TOO_LARGE",
                String::from_str("File exceeds 100 MB; thumbnail skipped"),
            ),
        );
    }
    Ok(())
}

/// Checks the size that a header reports: a side over `MAX_SIDE_PIXELS`
/// gets no thumbnail.
pub fn check_thumbnail_dimensions(width: u32, height: u32) -> (r: Result<(), GenError>)
    ensures
        r is Err <==> width > MAX_SIDE_PIXELS || height > MAX_SIDE_PIXELS,
        r matches Err(e) ==> e is ImageTooLarge,
{
    if width > MAX_SIDE_PIXELS || height > MAX_SIDE_PIXELS {
        Err(GenError::ImageTooLarge)
    } else {
        Ok(())
    }
}

/// The generation error for a failed size report of the system decoder: a
/// size-limit refusal (`IMAGE_TOO_LARGE:` prefix) stays a size error,
/// anything else is a decode failure carrying the message.
pub fn classify_system_probe_error(error: String) -> (r: GenError)
    ensures
        ({
            let marker = "IMAGE_TOO_LARGE:"@;
            if marker.len() <= error@.len() && error@.take(marker.len() as int) == marker {
                r is ImageTooLarge
            } else {
                r matches GenError::DecodeFailed(m) && m@ == error@
            }
        }),
{
    if text::starts_with(error.as_str(), "IMAGE_TOO_LARGE:") {
        GenError::ImageTooLarge
    } else {
        GenError::DecodeFailed(error)
    }
}

/// A size-limit refusal of the system decoder skips the thumbnail as too
/// large rather than as a decode failure.
pub proof fn lemma_size_refusal_skips_as_too_large(width: u32, height: u32)
    ensures
        ({
            let m = extended_formats::too_large_message(width, height);
            let marker = "IMAGE_TOO_LARGE:"@;
            marker.len() <= m.len() && m.take(marker.len() as int) == marker
        }),
{
    extended_formats::lemma_too_large_message_marked(width, height);
}

/// The verdict on the size that the header of the source reported before
/// decoding: `probe` is that report, from the system decoder when `system`
/// holds and from the image decoder otherwise. A failed system report is
/// classified by `classify_system_probe_error`; a failed image-decoder
/// report is a decode failure; a reported size is checked against
/// `MAX_SIDE_PIXELS`.
pub fn check_probed_dimensions(system: bool, probe: Result<(u32, u32), String>) -> (r: Result<
    (),
    GenError,
>)
    ensures
        probe matches Ok((w, h)) ==> (r is Err <==> w > MAX_SIDE_PIXELS || h > MAX_SIDE_PIXELS),
        probe is Ok ==> (r matches Err(e) ==> e is ImageTooLarge),
        probe matches Err(m) ==> (system ==> if "IMAGE_TOO_LARGE:"@.len() <= m@.len() && m@.take(
            "IMAGE_TOO_LARGE:"@.len() as int,
        ) == "IMAGE_TOO_LARGE:"@ {
            r matches Err(GenError::ImageTooLarge)
        } else {
            (r matches Err(GenError::DecodeFailed(d)) && d@ == m@)
        }),
        probe matches Err(m) ==> (!system ==> (r matches Err(GenError::DecodeFailed(d)) && d@
            == "Failed to read image dimensions: "@ + m@)),
{
    match probe {
        Ok((w, h)) => check_thumbnail_dimensions(w, h),
        Err(m) => {
            if system {
                let e = classify_system_probe_error(m);
                proof {
                    reveal_strlit("IMAGE_TOO_LARGE:");
                }
                Err(e)
            } else {
                let mut d = String::from_str("Failed to read image dimensions: ");
                d.append(m.as_str());
                Err(GenError::DecodeFailed(d))
            }
        },
    }
}

// ───────────────────────── cache key ─────────────────────────

/// The `k` low bytes of `n`, least significant first (what `to_le_bytes`
/// gives for a `k`-byte integer).
pub open spec fn le_bytes(n: nat, k: nat) -> Seq<u8>
    decreases k,
{
    if k == 0 {
        Seq::empty()
    } else {
        seq![(n % 256) as u8] + le_bytes(n / 256, (k - 1) as nat)
    }
}

/// The bytes hashed for a cache key: the path's UTF-8 bytes, then the file
/// size, modification time and thumbnail size in little-endian, separated
/// by colons.
pub open spec fn cache_key_input(path: Seq<char>, file_size: u64, modified_ms: u128, size: u32) -> Seq<
    u8,
> {
    vstd::utf8::encode_utf8(path) + seq![58u8] + le_bytes(file_size as nat, 8) + seq![58u8]
        + le_bytes(modified_ms as nat, 16) + seq![58u8] + le_bytes(size as nat, 4)
}

/// Lowercase hexadecimal text of `bytes`, two digits a byte.
pub open spec fn hex_of(bytes: Seq<u8>) -> Seq<char>
    decreases bytes.len(),
{
    if bytes.len() == 0 {
        Seq::empty()
    } else {
        hex_of(bytes.drop_last()) + seq![
            text::hex_char((bytes.last() / 16) as nat),
            text::hex_char((bytes.last() % 16) as nat),
        ]
    }
}

/// Name for the SHA-256 digest that the `sha2` crate computes for `data`.
pub uninterp spec fn sha256_digest(data: Seq<u8>) -> Seq<u8>;

/// Calls `sha2`'s `Sha256::digest` on `data`. The contract names the digest
/// and states its length, which the output type (32 bytes) fixes; the
/// digest's value is not stated.
#[verifier::external_body]
fn sha256(data: &[u8]) -> (r: Vec<u8>)
    ensures
        r@ == sha256_digest(data@),
        r@.len() == 32,
{
    sha2::Sha256::digest(data).to_vec()
}

/// Appends the `k` low bytes of `n`, least significant first.
fn push_le(out: &mut Vec<u8>, n: u128, k: usize)
    ensures
        final(out)@ == old(out)@ + le_bytes(n as nat, k as nat),
    decreases k,
{
    if k > 0 {
        out.push((n % 256) as u8);
        let ghost mid = out@;
        push_le(out, n / 256, k - 1);
        proof {
            assert(final(out)@ =~= old(out)@ + le_bytes(n as nat, k as nat));
        }
    }
}

/// The bytes that `compute_cache_key` hashes.
pub fn cache_key_bytes(canonical_path: &str, file_size: u64, modified_ms: u128, size: u32) -> (r:
    Vec<u8>)
    ensures
        r@ == cache_key_input(canonical_path@, file_size, modified_ms, size),
{
    let mut out = vstd::slice::slice_to_vec(canonical_path.as_bytes());
    out.push(58);
    push_le(&mut out, file_size as u128, 8);
    out.push(58);
    push_le(&mut out, modified_ms, 16);
    out.push(58);
    push_le(&mut out, size as u128, 4);
    out
}

/// The cache key made from a digest: its first 16 bytes as 32 lowercase
/// hexadecimal digits.
pub fn cache_key_from_digest(digest: &[u8]) -> (r: String)
    requires
        digest@.len() >= 16,
    ensures
        r@ == hex_of(digest@.take(16)),
        r@.len() == 32,
{
    let mut s = String::new();
    let mut i: usize = 0;
    proof {
        assert(digest@.take(0) =~= Seq::<u8>::empty());
    }
    while i < 16
        invariant
            i <= 16,
            digest@.len() >= 16,
            s@ == hex_of(digest@.take(i as int)),
            s@.len() == 2 * i,
        decreases 16 - i,
    {
        let b = digest[i];
        s.append(text::hex_digit_str(b / 16));
        s.append(text::hex_digit_str(b % 16));
        proof {
            assert(digest@.take(i + 1).drop_last() =~= digest@.take(i as int));
        }
        i += 1;
    }
    s
}

/// The stable key under which a thumbnail is cached: the first 16 bytes of
/// the SHA-256 of the canonical path, file size, modification time and
/// thumbnail size, as 32 lowercase hexadecimal digits.
pub fn compute_cache_key(canonical_path: &str, file_size: u64, modified_ms: u128, size: u32) -> (r:
    String)
    ensures
        r@ == hex_of(
            sha256_digest(cache_key_input(canonical_path@, file_size, modified_ms, size)).take(16),
        ),
        r@.len() == 32,
{
    let input = cache_key_bytes(canonical_path, file_size, modified_ms, size);
    let digest = sha256(input.as_slice());
    cache_key_from_digest(digest.as_slice())
}

// ───────────────────────── decoding choices ─────────────────────────

/// Which decoder reads an image for a thumbnail.
#[derive(Debug, Clone, Copy, PartialEq, Eq, Structural)]
pub enum DecodeRoute {
    /// The system colour-managed decoder, reading the file by path.
    System,
    /// The GIF decoder; only the first frame is used.
    Gif,
    /// The generic decoder, followed by the EXIF orientation.
    Generic,
}

/// The decoder for a file with lowercase extension `ext` at `path`.
pub open spec fn decode_route_by_rule(ext: Seq<char>, path: Seq<char>) -> DecodeRoute {
    if extended_formats::is_system_decoded_path(path) {
        DecodeRoute::System
    } else if ext == "gif"@ {
        DecodeRoute::Gif
    } else {
        DecodeRoute::Generic
    }
}

/// Chooses the decoder: system formats go to the system decoder, GIF to the
/// GIF decoder, everything else to the generic one.
pub fn decode_route(ext: &str, path: &str) -> (r: DecodeRoute)
    ensures
        r == decode_route_by_rule(ext@, path@),
{
    if extended_formats::needs_colorsync_output(path) {
        DecodeRoute::System
    } else if text::str_eq(ext, "gif") {
        DecodeRoute::Gif
    } else {
        DecodeRoute::Generic
    }
}

/// The transform that an EXIF orientation asks for.
#[derive(Debug, Clone, Copy, PartialEq, Eq, Structural)]
pub enum OrientationOp {
    Identity,
    FlipHorizontal,
    Rotate180,
    FlipVertical,
    Rotate90FlipHorizontal,
    Rotate90,
    Rotate270FlipHorizontal,
    Rotate270,
}

/// The transform for EXIF orientation `o`: 2 to 8 as the EXIF standard
/// numbers them, and no change for 1 or any other value.
pub open spec fn orientation_op_of(o: u32) -> OrientationOp {
    if o == 2 {
        OrientationOp::FlipHorizontal
    } else if o == 3 {
        OrientationOp::Rotate180
    } else if o == 4 {
        OrientationOp::FlipVertical
    } else if o == 5 {
        OrientationOp::Rotate90FlipHorizontal
    } else if o == 6 {
        OrientationOp::Rotate90
    } else if o == 7 {
        OrientationOp::Rotate270FlipHorizontal
    } else if o == 8 {
        OrientationOp::Rotate270
    } else {
        OrientationOp::Identity
    }
}

/// The transform for EXIF orientation `orientation`.
pub fn orientation_op(orientation: u32) -> (r: OrientationOp)
    ensures
        r == orientation_op_of(orientation),
{
    match orientation {
        2 => OrientationOp::FlipHorizontal,
        3 => OrientationOp::Rotate180,
        4 => OrientationOp::FlipVertical,
        5 => OrientationOp::Rotate90FlipHorizontal,
        6 => OrientationOp::Rotate90,
        7 => OrientationOp::Rotate270FlipHorizontal,
        8 => OrientationOp::Rotate270,
        _ => OrientationOp::Identity,
    }
}

/// Name for what `kamadak-exif` finds in `raw` as the SHORT values of the
/// primary image's Orientation field: absent when no Exif data is found,
/// the field is missing, or it is not of type SHORT.
pub uninterp spec fn exif_orientation_values(raw: Seq<u8>) -> Option<Seq<u16>>;

/// Calls `kamadak-exif`'s `Reader::read_from_container` on `raw` and then
/// `Exif::get_field(Tag::Orientation, In::PRIMARY)`, keeping the values of a
/// SHORT field. The contract only names the result: the container and TIFF
/// parsing behind it take pages to state.
#[verifier::external_body]
fn read_orientation_values(raw: &[u8]) -> (r: Option<Vec<u16>>)
    ensures
        r.deep_view() == exif_orientation_values(raw@),
{
    let mut cursor = std::io::Cursor::new(raw);
    match exif::Reader::new().read_from_container(&mut cursor) {
        Ok(data) => match data.get_field(exif::Tag::Orientation, exif::In::PRIMARY) {
            Some(field) => match &field.value {
                exif::Value::Short(values) => Some(values.clone()),
                _ => None,
            },
            None => None,
        },
        Err(_) => None,
    }
}

/// The orientation given by an Orientation field's SHORT values: the first
/// value, if there is one.
pub open spec fn orientation_of_values(values: Option<Seq<u16>>) -> Option<u32> {
    match values {
        Some(v) => if v.len() > 0 {
            Some(v[0] as u32)
        } else {
            None
        },
        None => None,
    }
}

/// `orientation_of_values` on the values read from the Exif data.
pub fn orientation_from_values(values: Option<Vec<u16>>) -> (r: Option<u32>)
    ensures
        r == orientation_of_values(values.deep_view()),
{
    match values {
        Some(v) => if v.len() > 0 {
            Some(v[0] as u32)
        } else {
            None
        },
        None => None,
    }
}

/// The EXIF orientation (1 to 8) of the image in `raw`, when its Exif data
/// has one; absence means the image is shown as stored.
pub fn read_exif_orientation(raw: &[u8]) -> (r: Option<u32>)
    ensures
        r == orientation_of_values(exif_orientation_values(raw@)),
{
    orientation_from_values(read_orientation_values(raw))
}

/// The transform to apply to the decoded image in `raw`: its EXIF
/// orientation, or none when there is no orientation.
pub fn exif_orientation_op(raw: &[u8]) -> (r: OrientationOp)
    ensures
        r == orientation_op_of(
            match orientation_of_values(exif_orientation_values(raw@)) {
                Some(o) => o,
                None => 1,
            },
        ),
{
    let o = match read_exif_orientation(raw) {
        Some(o) => o,
        None => 1,
    };
    orientation_op(o)
}

// ───────────────────────── the steps of a request ─────────────────────────

/// What a thumbnail request has learnt so far from the outside; `None`
/// where the step has not been taken yet.
pub struct RequestFacts {
    /// Whether the canonical path lies in the permission scope.
    pub allowed: Option<bool>,
    /// The file's size, or the text of the error reading its metadata.
    pub metadata: Option<Result<u64, String>>,
    /// Whether the cache already holds the thumbnail.
    pub cached: Option<bool>,
    /// Whether this request claimed the cache key (true) or found a
    /// generation of it under way (false).
    pub claimed: Option<bool>,
}

/// What a thumbnail request does next.
#[derive(Debug)]
pub enum RequestAction {
    /// Check the canonical path against the permission scope.
    CheckScope,
    /// Read the file's metadata.
    ReadMetadata,
    /// Look for the thumbnail in the cache.
    LookUpCache,
    /// Grant the cache directory to the scope and return the cached file.
    ServeCached,
    /// Claim the cache key in the registry of generations in flight.
    Claim,
    /// Generate the thumbnail, then hand the result to the waiters.
    Generate,
    /// Wait for the generation under way and report its result.
    Wait,
    /// Stop with this error.
    Fail(ThumbnailError),
}

/// The next step of a request for the thumbnail of `path`, given what it
/// has learnt: first the format, then the permission scope, then the
/// metadata and the file size, then the cache, then the registry; a
/// request that claims the key generates, one that does not waits.
pub fn next_request_action(path: &str, facts: &RequestFacts) -> (r: RequestAction)
    ensures
        ({
            let verdict = extension_verdict(extended_formats::lower_extension(path@));
            if verdict is Some {
                r matches RequestAction::Fail(e) && e.code@ == "UNSUPPORTED_FORMAT"@ && e.message@
                    == verdict->Some_0
            } else if facts.allowed is None {
                r is CheckScope
            } else if facts.allowed == Some(false) {
                r matches RequestAction::Fail(e) && e.code@ == "NOT_ALLOWED"@ && e.message@
                    == "Path not authorized: "@ + path@
            } else if facts.metadata is None {
                r is ReadMetadata
            } else if facts.metadata.unwrap() is Err {
                r matches RequestAction::Fail(e) && e.code@ == "IO_ERROR"@ && e.message@
                    == "Failed to read file metadata: "@ + facts.metadata.unwrap()->Err_0@
            } else if facts.metadata.unwrap()->Ok_0 > MAX_FILE_BYTES {
                r matches RequestAction::Fail(e) && e.code@ == "FILE_TOO_LARGE"@ && e.message@
                    == "File exceeds 100 MB; thumbnail skipped"@
            } else if facts.cached is None {
                r is LookUpCache
            } else if facts.cached == Some(true) {
                r is ServeCached
            } else if facts.claimed is None {
                r is Claim
            } else if facts.claimed == Some(true) {
                r is Generate
            } else {
                r is Wait
            }
        }),
{
    proof {
        reveal_strlit("NOT_ALLOWED");
        reveal_strlit("IO_ERROR");
    }
    if let Err(e) = check_thumbnail_format(path) {
        return RequestAction::Fail(e);
    }
    match facts.allowed {
        None => {
            return RequestAction::CheckScope;
        },
        Some(false) => {
            let mut m = String::from_str("Path not authorized: ");
            m.append(path);
            return RequestAction::Fail(ThumbnailError::new("NOT_ALLOWED", m));
        },
        Some(true) => {},
    }
    match &facts.metadata {
        None => {
            return RequestAction::ReadMetadata;
        },
        Some(Err(e)) => {
            let mut m = String::from_str("Failed to read file metadata: ");
            m.append(e.as_str());
            return RequestAction::Fail(ThumbnailError::new("IO_ERROR", m));
        },
        Some(Ok(size)) => {
            if let Err(e) = check_file_size(*size) {
                return RequestAction::Fail(e);
            }
        },
    }
    match facts.cached {
        None => RequestAction::LookUpCache,
        Some(true) => RequestAction::ServeCached,
        Some(false) => match facts.claimed {
            None => RequestAction::Claim,
            Some(true) => RequestAction::Generate,
            Some(false) => RequestAction::Wait,
        },
    }
}

// ───────────────────────── requests in flight ─────────────────────────

/// What a request that waited for another request's generation reports: the
/// generated file's path, the generator's error code and message, or an
/// `IO_ERROR` when the generation ended without a result.
pub fn waiter_outcome(result: Option<Result<String, (&'static str, String)>>) -> (r: Result<
    String,
    ThumbnailError,
>)
    ensures
        result matches Some(Ok(p)) ==> (r matches Ok(q) && q@ == p@),
        result matches Some(Err((code, message))) ==> (r matches Err(e) && e.code == code
            && e.message@ == message@),
        result is None ==> (r matches Err(e) && e.code@ == "IO_ERROR"@ && e.message@
            == "Thumbnail task produced no result"@),
{
    match result {
        Some(Ok(p)) => Ok(p),
        Some(Err((code, message))) => Err(ThumbnailError::new(code, message)),
        None => Err(
            ThumbnailError::new("IO_ERROR", String::from_str("Thumbnail task produced no result")),
        ),
    }
}

/// Thumbnail generations under way, by cache id (`compute_cache_id`), each
/// with what the requests waiting for it subscribe to. An id is held at
/// most once, so a file gets one generation however many requests ask for
/// it at once.
pub struct InFlight<T> {
    entries: HashMap<u128, T>,
}

impl<T> InFlight<T> {
    /// The generations under way: cache id to subscription.
    pub closed spec fn view(&self) -> Map<u128, T> {
        self.entries@
    }

    /// No generation under way.
    pub fn new() -> (r: Self)
        ensures
            r@ == Map::<u128, T>::empty(),
    {
        InFlight { entries: HashMap::new() }
    }

    /// The subscription of the generation under way for `id`, if any.
    pub fn get(&self, id: u128) -> (r: Option<&T>)
        ensures
            r is Some <==> self@.contains_key(id),
            r matches Some(v) ==> *v == self@[id],
    {
        self.entries.get(&id)
    }

    /// Registers a generation for `id` unless one is under way: returns
    /// true, with `value` recorded, when this request is to generate, and
    /// false, changing nothing, when it is to wait for the generation
    /// already under way.
    pub fn claim(&mut self, id: u128, value: T) -> (r: bool)
        ensures
            r == !old(self)@.contains_key(id),
            r ==> final(self)@ == old(self)@.insert(id, value),
            !r ==> final(self)@ == old(self)@,
    {
        if self.entries.contains_key(&id) {
            return false;
        }
        self.entries.insert(id, value);
        true
    }

    /// Takes out the generation under way for `id`: its subscription, when
    /// there was one; afterwards no generation is under way for `id`.
    pub fn take(&mut self, id: u128) -> (r: Option<T>)
        ensures
            r is Some <==> old(self)@.contains_key(id),
            r matches Some(v) ==> v == old(self)@[id],
            final(self)@ == old(self)@.remove(id),
    {
        self.entries.remove(&id)
    }
}

/// A request whose id is in flight waits for that generation instead of
/// starting another, and receives the first claimant's subscription; taking
/// the generation out frees the id for a later claim, and taking out
/// another id leaves it in flight.
pub proof fn lemma_one_generation_per_key<T>(m: Map<u128, T>, k: u128, first: T, other: u128)
    requires
        !m.contains_key(k),
        other != k,
    ensures
        m.insert(k, first).contains_key(k),
        m.insert(k, first)[k] == first,
        m.insert(k, first).remove(other).contains_key(k),
        !m.insert(k, first).remove(k).contains_key(k),
{
}

/// The number whose big-endian bytes are `b`.
pub open spec fn be_value(b: Seq<u8>) -> nat
    decreases b.len(),
{
    if b.len() == 0 {
        0
    } else {
        be_value(b.drop_last()) * 256 + (b.last() as nat)
    }
}

/// 256 to the power `n`.
pub open spec fn pow256(n: nat) -> nat
    decreases n,
{
    if n == 0 {
        1
    } else {
        pow256((n - 1) as nat) * 256
    }
}

/// The first 16 bytes of a digest as a 128-bit number, most significant
/// first.
pub fn digest_id(digest: &[u8]) -> (r: u128)
    requires
        digest@.len() >= 16,
    ensures
        r == be_value(digest@.take(16)),
{
    let mut r: u128 = 0;
    let mut i: usize = 0;
    proof {
        assert(digest@.take(0) =~= Seq::<u8>::empty());
        reveal_with_fuel(pow256, 17);
        assert(pow256(16) == 0x1_0000_0000_0000_0000_0000_0000_0000_0000);
    }
    while i < 16
        invariant
            i <= 16,
            digest@.len() >= 16,
            r == be_value(digest@.take(i as int)),
            be_value(digest@.take(i as int)) < pow256(i as nat),
            pow256(16) == 0x1_0000_0000_0000_0000_0000_0000_0000_0000,
        decreases 16 - i,
    {
        let b = digest[i];
        proof {
            assert(digest@.take(i + 1).drop_last() =~= digest@.take(i as int));
            lemma_pow256_monotone(i as nat + 1, 16);
            assert(r * 256 + b < pow256(i as nat) * 256) by (nonlinear_arith)
                requires
                    r < pow256(i as nat),
                    b < 256,
            ;
        }
        r = r * 256 + b as u128;
        i += 1;
    }
    r
}

proof fn lemma_pow256_monotone(a: nat, b: nat)
    requires
        a <= b,
    ensures
        pow256(a) <= pow256(b),
    decreases b,
{
    if a < b {
        lemma_pow256_monotone(a, (b - 1) as nat);
    }
}

/// The number under which the registry of generations knows a thumbnail:
/// the first 16 bytes of the same SHA-256 digest as `compute_cache_key`,
/// most significant first. Two requests get the same id exactly when they
/// get the same cache key.
pub fn compute_cache_id(canonical_path: &str, file_size: u64, modified_ms: u128, size: u32) -> (r:
    u128)
    ensures
        r == be_value(
            sha256_digest(cache_key_input(canonical_path@, file_size, modified_ms, size)).take(16),
        ),
{
    let input = cache_key_bytes(canonical_path, file_size, modified_ms, size);
    let digest = sha256(input.as_slice());
    digest_id(digest.as_slice())
}

/// Bytes freed by clearing the cache: the sizes of the files removed.
pub open spec fn total_size(sizes: Seq<u64>) -> int
    decreases sizes.len(),
{
    if sizes.len() == 0 {
        0
    } else {
        total_size(sizes.drop_last()) + sizes.last()
    }
}

/// The bytes freed by removing files of the given sizes.
pub fn freed_bytes(sizes: &[u64]) -> (r: u64)
    requires
        total_size(sizes@) <= u64::MAX,
    ensures
        r == total_size(sizes@),
{
    let mut total: u64 = 0;
    let mut i: usize = 0;
    while i < sizes.len()
        invariant
            i <= sizes@.len(),
            total == total_size(sizes@.take(i as int)),
            total_size(sizes@) <= u64::MAX,
        decreases sizes@.len() - i,
    {
        proof {
            assert(sizes@.take(i + 1).drop_last() =~= sizes@.take(i as int));
            lemma_total_size_prefix(sizes@, i + 1);
        }
        total = total + sizes[i];
        i += 1;
    }
    assert(sizes@.take(i as int) =~= sizes@);
    total
}

proof fn lemma_total_size_prefix(s: Seq<u64>, n: int)
    requires
        0 <= n <= s.len(),
    ensures
        total_size(s.take(n)) <= total_size(s),
    decreases s.len(),
{
    if n < s.len() {
        assert(s.drop_last().take(n) =~= s.take(n));
        lemma_total_size_prefix(s.drop_last(), n);
    } else {
        assert(s.take(n) =~= s);
    }
}

// ───────────────────────── decoded pixels ─────────────────────────

/// Layout of a decoded image's samples, as the `image` crate decodes them:
/// the channels, and bytes of 8-bit, 16-bit or 32-bit float samples.
#[derive(Debug, Clone, Copy, PartialEq, Eq, Structural)]
pub enum ColorKind {
    /// Grey, 8 bits.
    L8,
    /// Grey and alpha, 8 bits.
    La8,
    /// Red, green, blue, 8 bits.
    Rgb8,
    /// Red, green, blue, alpha, 8 bits.
    Rgba8,
    /// Grey, 16 bits.
    L16,
    /// Grey and alpha, 16 bits.
    La16,
    /// Red, green, blue, 16 bits.
    Rgb16,
    /// Red, green, blue, alpha, 16 bits.
    Rgba16,
    /// Red, green, blue, 32-bit float.
    Rgb32F,
    /// Red, green, blue, alpha, 32-bit float.
    Rgba32F,
}

/// Bytes a pixel takes in the layout.
pub open spec fn pixel_bytes_of(c: ColorKind) -> nat {
    match c {
        ColorKind::L8 => 1,
        ColorKind::La8 => 2,
        ColorKind::Rgb8 => 3,
        ColorKind::Rgba8 => 4,
        ColorKind::L16 => 2,
        ColorKind::La16 => 4,
        ColorKind::Rgb16 => 6,
        ColorKind::Rgba16 => 8,
        ColorKind::Rgb32F => 12,
        ColorKind::Rgba32F => 16,
    }
}

/// Bits of one sample in the layout.
pub open spec fn sample_bits_of(c: ColorKind) -> nat {
    match c {
        ColorKind::L8 | ColorKind::La8 | ColorKind::Rgb8 | ColorKind::Rgba8 => 8,
        ColorKind::L16 | ColorKind::La16 | ColorKind::Rgb16 | ColorKind::Rgba16 => 16,
        ColorKind::Rgb32F | ColorKind::Rgba32F => 32,
    }
}

/// Channels a pixel has in the layout: grey 1, grey and alpha 2, RGB 3,
/// RGBA 4, whatever the depth.
pub open spec fn channels_of(c: ColorKind) -> nat {
    match c {
        ColorKind::L8 | ColorKind::L16 => 1,
        ColorKind::La8 | ColorKind::La16 => 2,
        ColorKind::Rgb8 | ColorKind::Rgb16 | ColorKind::Rgb32F => 3,
        ColorKind::Rgba8 | ColorKind::Rgba16 | ColorKind::Rgba32F => 4,
    }
}

/// The sample width that picks an encoder is the layout's real one: a
/// pixel takes its channel count times the sample width in bytes, so the
/// 8-bit encoder gets exactly the layouts with one byte a channel, the
/// 16-bit encoder those with two and the float encoder those with four.
pub proof fn lemma_sample_width_matches_layout(c: ColorKind)
    ensures
        sample_bits_of(c) == 8 || sample_bits_of(c) == 16 || sample_bits_of(c) == 32,
        pixel_bytes_of(c) == channels_of(c) * (sample_bits_of(c) / 8),
        sample_bits_of(c) == 8 <==> pixel_bytes_of(c) == channels_of(c),
        sample_bits_of(c) == 16 <==> pixel_bytes_of(c) == 2 * channels_of(c),
        sample_bits_of(c) == 32 <==> pixel_bytes_of(c) == 4 * channels_of(c),
{
}

impl ColorKind {
    /// Bytes a pixel takes.
    pub fn pixel_bytes(self) -> (r: usize)
        ensures
            r == pixel_bytes_of(self),
    {
        match self {
            ColorKind::L8 => 1,
            ColorKind::La8 => 2,
            ColorKind::Rgb8 => 3,
            ColorKind::Rgba8 => 4,
            ColorKind::L16 => 2,
            ColorKind::La16 => 4,
            ColorKind::Rgb16 => 6,
            ColorKind::Rgba16 => 8,
            ColorKind::Rgb32F => 12,
            ColorKind::Rgba32F => 16,
        }
    }

    /// Bits of one sample.
    pub fn sample_bits(self) -> (r: u32)
        ensures
            r == sample_bits_of(self),
    {
        match self {
            ColorKind::L8 | ColorKind::La8 | ColorKind::Rgb8 | ColorKind::Rgba8 => 8,
            ColorKind::L16 | ColorKind::La16 | ColorKind::Rgb16 | ColorKind::Rgba16 => 16,
            ColorKind::Rgb32F | ColorKind::Rgba32F => 32,
        }
    }
}

/// A decoded image as plain values, at the depth it was decoded at: pixel
/// (x, y) takes the bytes from `(y * width + x) * pixel_bytes` on, the top
/// row first; wider samples are stored in the machine's byte order (float
/// samples as their bit patterns).
#[derive(Debug)]
pub struct DecodedImage {
    pub width: u32,
    pub height: u32,
    pub color: ColorKind,
    pub samples: Vec<u8>,
}

/// Width, height, layout and sample bytes of an image.
pub type Pixels = (u32, u32, ColorKind, Seq<u8>);

/// The image as width, height, layout and sample bytes.
pub open spec fn pixels_view(img: DecodedImage) -> Pixels {
    (img.width, img.height, img.color, img.samples@)
}

/// The sample bytes hold every pixel of the image.
pub open spec fn holds_pixels(d: Pixels) -> bool {
    d.0 * d.1 * pixel_bytes_of(d.2) <= d.3.len()
}

/// Name for what the `image` crate's `load_from_memory` decodes from `raw`
/// (format guessed from the bytes), at its decoded depth, or the text of
/// its error.
pub uninterp spec fn decoded_any(raw: Seq<u8>) -> Result<Pixels, Seq<char>>;

/// Name for what the `image` crate's `load_from_memory_with_format` decodes
/// from `raw` read as a GIF (its first frame), or the text of its error.
pub uninterp spec fn decoded_gif(raw: Seq<u8>) -> Result<Pixels, Seq<char>>;

/// Name for the WebP file that the `image` crate makes of an image
/// (`DynamicImage::thumbnail` to fit `size`×`size` at the image's depth,
/// then `write_to` as WebP, which brings it to 8 bits), or the text of its
/// error.
pub uninterp spec fn webp_of(d: Pixels, size: u32) -> Result<Seq<u8>, Seq<char>>;

/// Calls the `image` crate's `load_from_memory` on `raw`; the image's
/// `color()` becomes the layout, one variant for one, and `into_bytes()`
/// the sample bytes. The contract names the result; the decoded buffer
/// holds every pixel. A color type that this version of the crate does not
/// have gives an error.
#[verifier::external_body]
fn load_any(raw: &[u8]) -> (r: Result<DecodedImage, String>)
    ensures
        match decoded_any(raw@) {
            Ok(d) => r matches Ok(img) && pixels_view(img) == d && holds_pixels(d),
            Err(m) => r matches Err(e) && e@ == m,
        },
{
    let img = image::load_from_memory(raw).map_err(|e| e.to_string())?;
    let color = match img.color() {
        ColorType::L8 => ColorKind::L8,
        ColorType::La8 => ColorKind::La8,
        ColorType::Rgb8 => ColorKind::Rgb8,
        ColorType::Rgba8 => ColorKind::Rgba8,
        ColorType::L16 => ColorKind::L16,
        ColorType::La16 => ColorKind::La16,
        ColorType::Rgb16 => ColorKind::Rgb16,
        ColorType::Rgba16 => ColorKind::Rgba16,
        ColorType::Rgb32F => ColorKind::Rgb32F,
        ColorType::Rgba32F => ColorKind::Rgba32F,
        other => return Err(format!("unsupported color type {other:?}")),
    };
    Ok(DecodedImage { width: img.width(), height: img.height(), color, samples: img.into_bytes() })
}

/// Calls the `image` crate's `load_from_memory_with_format(raw, Gif)` and
/// converts the image as `load_any` does. The contract names the result;
/// the decoded buffer holds every pixel.
#[verifier::external_body]
fn load_gif(raw: &[u8]) -> (r: Result<DecodedImage, String>)
    ensures
        match decoded_gif(raw@) {
            Ok(d) => r matches Ok(img) && pixels_view(img) == d && holds_pixels(d),
            Err(m) => r matches Err(e) && e@ == m,
        },
{
    let img = image::load_from_memory_with_format(raw, ImageFormat::Gif).map_err(|e| e.to_string())?;
    let color = match img.color() {
        ColorType::L8 => ColorKind::L8,
        ColorType::La8 => ColorKind::La8,
        ColorType::Rgb8 => ColorKind::Rgb8,
        ColorType::Rgba8 => ColorKind::Rgba8,
        ColorType::L16 => ColorKind::L16,
        ColorType::La16 => ColorKind::La16,
        ColorType::Rgb16 => ColorKind::Rgb16,
        ColorType::Rgba16 => ColorKind::Rgba16,
        ColorType::Rgb32F => ColorKind::Rgb32F,
        ColorType::Rgba32F => ColorKind::Rgba32F,
        other => return Err(format!("unsupported color type {other:?}")),
    };
    Ok(DecodedImage { width: img.width(), height: img.height(), color, samples: img.into_bytes() })
}

/// Builds the `image` crate's 8-bit buffer of the image's layout with
/// `ImageBuffer::from_raw`, shrinks it with `DynamicImage::thumbnail(size,
/// size)` and encodes it with `write_to(.., ImageFormat::WebP)`. The
/// contract names the result.
#[verifier::external_body]
fn encode_webp_8bit(img: &DecodedImage, size: u32) -> (r: Result<Vec<u8>, String>)
    requires
        holds_pixels(pixels_view(*img)),
        sample_bits_of(img.color) == 8,
        pixel_bytes_of(img.color) == channels_of(img.color),
    ensures
        match webp_of(pixels_view(*img), size) {
            Ok(b) => r matches Ok(v) && v@ == b,
            Err(m) => r matches Err(e) && e@ == m,
        },
{
    let (w, h, s) = (img.width, img.height, img.samples.clone());
    let buffer = match img.color {
        ColorKind::L8 => ImageBuffer::from_raw(w, h, s).map(DynamicImage::ImageLuma8),
        ColorKind::La8 => ImageBuffer::from_raw(w, h, s).map(DynamicImage::ImageLumaA8),
        ColorKind::Rgb8 => ImageBuffer::from_raw(w, h, s).map(DynamicImage::ImageRgb8),
        _ => ImageBuffer::from_raw(w, h, s).map(DynamicImage::ImageRgba8),
    };
    let mut out = std::io::Cursor::new(Vec::new());
    buffer.ok_or_else(String::new)?.thumbnail(size, size).write_to(&mut out, ImageFormat::WebP).map_err(|e| e.to_string())?;
    Ok(out.into_inner())
}

/// As `encode_webp_8bit`, for 16-bit layouts: the sample bytes are read
/// back as 16-bit samples with `bytemuck::pod_collect_to_vec`.
#[verifier::external_body]
fn encode_webp_16bit(img: &DecodedImage, size: u32) -> (r: Result<Vec<u8>, String>)
    requires
        holds_pixels(pixels_view(*img)),
        sample_bits_of(img.color) == 16,
        pixel_bytes_of(img.color) == 2 * channels_of(img.color),
    ensures
        match webp_of(pixels_view(*img), size) {
            Ok(b) => r matches Ok(v) && v@ == b,
            Err(m) => r matches Err(e) && e@ == m,
        },
{
    let (w, h, s) = (img.width, img.height, pod_collect_to_vec(&img.samples));
    let buffer = match img.color {
        ColorKind::L16 => ImageBuffer::from_raw(w, h, s).map(DynamicImage::ImageLuma16),
        ColorKind::La16 => ImageBuffer::from_raw(w, h, s).map(DynamicImage::ImageLumaA16),
        ColorKind::Rgb16 => ImageBuffer::from_raw(w, h, s).map(DynamicImage::ImageRgb16),
        _ => ImageBuffer::from_raw(w, h, s).map(DynamicImage::ImageRgba16),
    };
    let mut out = std::io::Cursor::new(Vec::new());
    buffer.ok_or_else(String::new)?.thumbnail(size, size).write_to(&mut out, ImageFormat::WebP).map_err(|e| e.to_string())?;
    Ok(out.into_inner())
}

/// As `encode_webp_8bit`, for float layouts: the sample bytes are read back
/// as float samples with `bytemuck::pod_collect_to_vec`.
#[verifier::external_body]
fn encode_webp_float(img: &DecodedImage, size: u32) -> (r: Result<Vec<u8>, String>)
    requires
        holds_pixels(pixels_view(*img)),
        sample_bits_of(img.color) == 32,
        pixel_bytes_of(img.color) == 4 * channels_of(img.color),
    ensures
        match webp_of(pixels_view(*img), size) {
            Ok(b) => r matches Ok(v) && v@ == b,
            Err(m) => r matches Err(e) && e@ == m,
        },
{
    let (w, h, s) = (img.width, img.height, pod_collect_to_vec(&img.samples));
    let buffer = match img.color {
        ColorKind::Rgb32F => ImageBuffer::from_raw(w, h, s).map(DynamicImage::ImageRgb32F),
        _ => ImageBuffer::from_raw(w, h, s).map(DynamicImage::ImageRgba32F),
    };
    let mut out = std::io::Cursor::new(Vec::new());
    buffer.ok_or_else(String::new)?.thumbnail(size, size).write_to(&mut out, ImageFormat::WebP).map_err(|e| e.to_string())?;
    Ok(out.into_inner())
}

// ───────────────────────── turning an image upright ─────────────────────────

/// Quarter turns swap width and height.
pub open spec fn swaps_sides(op: OrientationOp) -> bool {
    op == OrientationOp::Rotate90 || op == OrientationOp::Rotate270 || op
        == OrientationOp::Rotate90FlipHorizontal || op == OrientationOp::Rotate270FlipHorizontal
}

/// The source pixel (column, row) that pixel (`x`, `y`) of the transformed
/// image shows, for a source `w` wide and `h` high: the `image` crate's
/// `fliph`, `rotate180`, `flipv`, `rotate90` then `fliph`, `rotate90`,
/// `rotate270` then `fliph`, and `rotate270`.
pub open spec fn source_pixel(op: OrientationOp, w: int, h: int, x: int, y: int) -> (int, int) {
    match op {
        OrientationOp::Identity => (x, y),
        OrientationOp::FlipHorizontal => (w - 1 - x, y),
        OrientationOp::Rotate180 => (w - 1 - x, h - 1 - y),
        OrientationOp::FlipVertical => (x, h - 1 - y),
        OrientationOp::Rotate90FlipHorizontal => (y, x),
        OrientationOp::Rotate90 => (y, h - 1 - x),
        OrientationOp::Rotate270FlipHorizontal => (w - 1 - y, h - 1 - x),
        OrientationOp::Rotate270 => (w - 1 - y, x),
    }
}

/// Width of the transformed image.
pub open spec fn oriented_width(op: OrientationOp, w: u32, h: u32) -> u32 {
    if swaps_sides(op) {
        h
    } else {
        w
    }
}

/// Height of the transformed image.
pub open spec fn oriented_height(op: OrientationOp, w: u32, h: u32) -> u32 {
    if swaps_sides(op) {
        w
    } else {
        h
    }
}

/// Sample `i` of the transformed image.
pub open spec fn oriented_sample(d: Pixels, op: OrientationOp, i: int) -> u8 {
    let n = pixel_bytes_of(d.2) as int;
    let ow = oriented_width(op, d.0, d.1) as int;
    let p = i / n;
    let src = source_pixel(op, d.0 as int, d.1 as int, p % ow, p / ow);
    d.3[(src.1 * d.0 + src.0) * n + i % n]
}

/// The image transformed by `op`.
pub open spec fn oriented(d: Pixels, op: OrientationOp) -> Pixels {
    let ow = oriented_width(op, d.0, d.1);
    let oh = oriented_height(op, d.0, d.1);
    (ow, oh, d.2, Seq::new((ow * oh * pixel_bytes_of(d.2)) as nat, |i: int| oriented_sample(d, op, i)))
}

fn sides_swap(op: OrientationOp) -> (r: bool)
    ensures
        r == swaps_sides(op),
{
    match op {
        OrientationOp::Rotate90 | OrientationOp::Rotate270 | OrientationOp::Rotate90FlipHorizontal
        | OrientationOp::Rotate270FlipHorizontal => true,
        _ => false,
    }
}

fn source_of(op: OrientationOp, w: u32, h: u32, x: u32, y: u32) -> (r: (u32, u32))
    requires
        x < oriented_width(op, w, h),
        y < oriented_height(op, w, h),
    ensures
        r.0 == source_pixel(op, w as int, h as int, x as int, y as int).0,
        r.1 == source_pixel(op, w as int, h as int, x as int, y as int).1,
        r.0 < w,
        r.1 < h,
{
    match op {
        OrientationOp::Identity => (x, y),
        OrientationOp::FlipHorizontal => (w - 1 - x, y),
        OrientationOp::Rotate180 => (w - 1 - x, h - 1 - y),
        OrientationOp::FlipVertical => (x, h - 1 - y),
        OrientationOp::Rotate90FlipHorizontal => (y, x),
        OrientationOp::Rotate90 => (y, h - 1 - x),
        OrientationOp::Rotate270FlipHorizontal => (w - 1 - y, h - 1 - x),
        OrientationOp::Rotate270 => (w - 1 - y, x),
    }
}

/// Turns the image as `op` asks: each pixel of the result shows the source
/// pixel that `source_pixel` gives, with all its samples.
pub fn orient(img: &DecodedImage, op: OrientationOp) -> (r: DecodedImage)
    requires
        holds_pixels(pixels_view(*img)),
    ensures
        pixels_view(r) == oriented(pixels_view(*img), op),
        holds_pixels(pixels_view(r)),
{
    let ghost d = pixels_view(*img);
    let w = img.width;
    let h = img.height;
    let n = img.color.pixel_bytes();
    let swap = sides_swap(op);
    let ow = if swap {
        h
    } else {
        w
    };
    let oh = if swap {
        w
    } else {
        h
    };
    let ghost total = w * h * n;
    assert(total <= img.samples@.len());
    let len = img.samples.len();
    assert(img.samples@.len() == len);
    assert(ow * oh * n == total) by (nonlinear_arith)
        requires
            (ow == w && oh == h) || (ow == h && oh == w),
            total == w * h * n,
    ;
    let mut out: Vec<u8> = Vec::new();
    let mut y: u32 = 0;
    while y < oh
        invariant
            d == pixels_view(*img),
            holds_pixels(d),
            n == pixel_bytes_of(img.color),
            1 <= n <= 16,
            ow == oriented_width(op, w, h),
            oh == oriented_height(op, w, h),
            w == img.width,
            h == img.height,
            ow * oh * n == total,
            total == w * h * n,
            total <= usize::MAX,
            y <= oh,
            out@.len() == y * ow * n,
            forall|j: int| 0 <= j < out@.len() ==> #[trigger] out@[j] == oriented_sample(d, op, j),
        decreases oh - y,
    {
        let mut x: u32 = 0;
        while x < ow
            invariant
                d == pixels_view(*img),
                holds_pixels(d),
                n == pixel_bytes_of(img.color),
                1 <= n <= 16,
                ow == oriented_width(op, w, h),
                oh == oriented_height(op, w, h),
                w == img.width,
                h == img.height,
                ow * oh * n == total,
                total == w * h * n,
                total <= usize::MAX,
                y < oh,
                x <= ow,
                out@.len() == (y * ow + x) * n,
                forall|j: int|
                    0 <= j < out@.len() ==> #[trigger] out@[j] == oriented_sample(d, op, j),
            decreases ow - x,
        {
            let (sx, sy) = source_of(op, w, h, x, y);
            proof {
                assert((sy * w + sx) * n + n <= total) by (nonlinear_arith)
                    requires
                        sx < w,
                        sy < h,
                        total == w * h * n,
                        n >= 1,
                ;
                assert(sy * w + sx <= (sy * w + sx) * n) by (nonlinear_arith)
                    requires
                        n >= 1,
                        sy * w + sx >= 0,
                ;
                assert(sy * w <= sy * w + sx);
            }
            let base = (sy as usize * w as usize + sx as usize) * n;
            let mut k: usize = 0;
            while k < n
                invariant
                    d == pixels_view(*img),
                    holds_pixels(d),
                    n == pixel_bytes_of(img.color),
                    1 <= n <= 16,
                    ow == oriented_width(op, w, h),
                    w == img.width,
                    h == img.height,
                    total == w * h * n,
                    total <= usize::MAX,
                    y < oh,
                    x < ow,
                    sx == source_pixel(op, w as int, h as int, x as int, y as int).0,
                    sy == source_pixel(op, w as int, h as int, x as int, y as int).1,
                    base == (sy * w + sx) * n,
                    base + n <= total,
                    k <= n,
                    out@.len() == (y * ow + x) * n + k,
                    forall|j: int|
                        0 <= j < out@.len() ==> #[trigger] out@[j] == oriented_sample(d, op, j),
                decreases n - k,
            {
                let ghost j = out@.len() as int;
                proof {
                    let p = y * ow + x;
                    vstd::arithmetic::div_mod::lemma_fundamental_div_mod_converse(
                        j,
                        n as int,
                        p,
                        k as int,
                    );
                    vstd::arithmetic::div_mod::lemma_fundamental_div_mod_converse(
                        p,
                        ow as int,
                        y as int,
                        x as int,
                    );
                }
                out.push(img.samples[base + k]);
                k += 1;
            }
            proof {
                assert((y * ow + x + 1) * n == (y * ow + x) * n + n) by (nonlinear_arith);
            }
            x += 1;
        }
        proof {
            assert((y * ow + ow) * n == (y + 1) * ow * n) by (nonlinear_arith);
        }
        y += 1;
    }
    let r = DecodedImage { width: ow, height: oh, color: img.color, samples: out };
    proof {
        assert(oh * ow * n == total) by (nonlinear_arith)
            requires
                ow * oh * n == total,
        ;
        assert(r.samples@ =~= oriented(d, op).3);
    }
    r
}

// ───────────────────────── thumbnail pipeline ─────────────────────────

/// The orientation that the Exif data in `raw` asks for (none without one).
pub open spec fn exif_op_of(raw: Seq<u8>) -> OrientationOp {
    orientation_op_of(
        match orientation_of_values(exif_orientation_values(raw)) {
            Some(o) => o,
            None => 1,
        },
    )
}

/// Turns the image decoded from `raw` upright by the Exif orientation that
/// `raw` holds (unchanged without one).
pub fn apply_exif_orientation(img: DecodedImage, raw: &[u8]) -> (r: DecodedImage)
    requires
        holds_pixels(pixels_view(img)),
    ensures
        pixels_view(r) == oriented(pixels_view(img), exif_op_of(raw@)),
        holds_pixels(pixels_view(r)),
{
    orient(&img, exif_orientation_op(raw))
}

/// What decoding `raw`, a file with lowercase extension `ext` at `path`,
/// gives when the system decoder is not involved: a GIF's first frame, or
/// any other image turned upright by its Exif orientation; or the error
/// text.
pub open spec fn decoded_view(raw: Seq<u8>, ext: Seq<char>, path: Seq<char>) -> Result<
    Pixels,
    Seq<char>,
> {
    if decode_route_by_rule(ext, path) == DecodeRoute::Gif {
        match decoded_gif(raw) {
            Ok(d) => Ok(d),
            Err(m) => Err("Failed to decode GIF: "@ + m),
        }
    } else {
        match decoded_any(raw) {
            Ok(d) => Ok(oriented(d, exif_op_of(raw))),
            Err(m) => Err("Failed to decode image ("@ + path + "): "@ + m),
        }
    }
}

/// Decodes the image in `raw`, a file with lowercase extension `ext` at
/// `path`, from memory: a GIF by its first frame, any other image turned
/// upright by its Exif orientation. Files for the system decoder are read
/// by path instead (see `system_thumbnail_webp`).
pub fn decode_image(raw: &[u8], ext: &str, path: &str) -> (r: Result<DecodedImage, String>)
    requires
        decode_route_by_rule(ext@, path@) != DecodeRoute::System,
    ensures
        match decoded_view(raw@, ext@, path@) {
            Ok(d) => r matches Ok(img) && pixels_view(img) == d && holds_pixels(d),
            Err(m) => r matches Err(e) && e@ == m,
        },
{
    match decode_route(ext, path) {
        DecodeRoute::Gif => match load_gif(raw) {
            Ok(img) => Ok(img),
            Err(e) => {
                let mut m = String::from_str("Failed to decode GIF: ");
                m.append(e.as_str());
                Err(m)
            },
        },
        _ => match load_any(raw) {
            Ok(img) => Ok(apply_exif_orientation(img, raw)),
            Err(e) => {
                let mut m = String::from_str("Failed to decode image (");
                m.append(path);
                m.append("): ");
                m.append(e.as_str());
                Err(m)
            },
        },
    }
}

/// Shrinks the image to fit `size`×`size` and encodes it as WebP; an
/// encoding failure is an I/O failure of the generation.
pub fn encode_thumbnail(img: &DecodedImage, size: u32) -> (r: Result<Vec<u8>, GenError>)
    requires
        holds_pixels(pixels_view(*img)),
    ensures
        match webp_of(pixels_view(*img), size) {
            Ok(b) => r matches Ok(v) && v@ == b,
            Err(m) => r matches Err(GenError::IoFailed(x)) && x@ == "Failed to encode WebP: "@ + m,
        },
{
    let bits = img.color.sample_bits();
    proof {
        lemma_sample_width_matches_layout(img.color);
    }
    let encoded = if bits == 8 {
        encode_webp_8bit(img, size)
    } else if bits == 16 {
        encode_webp_16bit(img, size)
    } else {
        encode_webp_float(img, size)
    };
    match encoded {
        Ok(v) => Ok(v),
        Err(e) => {
            let mut m = String::from_str("Failed to encode WebP: ");
            m.append(e.as_str());
            Err(GenError::IoFailed(m))
        },
    }
}

/// The thumbnail (WebP bytes) of `raw`, a file with lowercase extension
/// `ext` at `path` that the system decoder does not handle: decoded as
/// `decode_image` does, then shrunk to fit `size`×`size` and encoded. A
/// decoding failure is `DecodeFailed("Failed to decode image: …")`, an
/// encoding failure `IoFailed("Failed to encode WebP: …")`.
pub fn thumbnail_webp(raw: &[u8], ext: &str, path: &str, size: u32) -> (r: Result<Vec<u8>, GenError>)
    requires
        decode_route_by_rule(ext@, path@) != DecodeRoute::System,
    ensures
        match decoded_view(raw@, ext@, path@) {
            Err(m) => r matches Err(GenError::DecodeFailed(x)) && x@ == "Failed to decode image: "@
                + m,
            Ok(d) => match webp_of(d, size) {
                Ok(b) => r matches Ok(v) && v@ == b,
                Err(m) => r matches Err(GenError::IoFailed(x)) && x@ == "Failed to encode WebP: "@
                    + m,
            },
        },
{
    match decode_image(raw, ext, path) {
        Ok(img) => encode_thumbnail(&img, size),
        Err(e) => {
            let mut m = String::from_str("Failed to decode image: ");
            m.append(e.as_str());
            Err(GenError::DecodeFailed(m))
        },
    }
}

/// The message of a system-decoded PNG that cannot be read.
pub open spec fn system_png_message(m: Seq<char>) -> Seq<char> {
    "读取系统解码 PNG 失败: "@ + m
}

/// Decodes the sRGB PNG that the system decoder produced, from memory and as
/// it is (no Exif orientation); a PNG that cannot be read gives
/// `system_png_message` of the error.
pub fn decode_system_png(png: &[u8]) -> (r: Result<DecodedImage, String>)
    ensures
        match decoded_any(png@) {
            Ok(d) => r matches Ok(img) && pixels_view(img) == d && holds_pixels(d),
            Err(m) => r matches Err(e) && e@ == system_png_message(m),
        },
{
    match load_any(png) {
        Ok(img) => Ok(img),
        Err(e) => {
            let mut m = String::from_str("读取系统解码 PNG 失败: ");
            m.append(e.as_str());
            Err(m)
        },
    }
}

/// The thumbnail of a file that the system decoder handles, from what it
/// produced: the bytes of its sRGB PNG, or the text of its failure. The PNG
/// is decoded from memory as it is (no Exif orientation), then shrunk and
/// encoded as `thumbnail_webp` does, with the same error codes.
pub fn system_thumbnail_webp(decoded: Result<Vec<u8>, String>, size: u32) -> (r: Result<
    Vec<u8>,
    GenError,
>)
    ensures
        decoded matches Err(m) ==> (r matches Err(GenError::DecodeFailed(x)) && x@
            == "Failed to decode image: "@ + m@),
        decoded matches Ok(png) ==> match decoded_any(png@) {
            Err(m) => r matches Err(GenError::DecodeFailed(x)) && x@ == "Failed to decode image: "@
                + system_png_message(m),
            Ok(d) => match webp_of(d, size) {
                Ok(b) => r matches Ok(v) && v@ == b,
                Err(m) => r matches Err(GenError::IoFailed(x)) && x@ == "Failed to encode WebP: "@
                    + m,
            },
        },
{
    let mut m = String::from_str("Failed to decode image: ");
    match decoded {
        Err(e) => {
            m.append(e.as_str());
            Err(GenError::DecodeFailed(m))
        },
        Ok(png) => match decode_system_png(png.as_slice()) {
            Ok(img) => encode_thumbnail(&img, size),
            Err(e) => {
                m.append(e.as_str());
                Err(GenError::DecodeFailed(m))
            },
        },
    }
}

} // verus!

//! How an image is loaded, decided from its size and format.
use crate::extended_formats;
use crate::settings::LargeImageSettings;
use super::bmp;
use super::error::system_decode_code;
use super::LargeImageError;
use crate::text;
use vstd::prelude::*;

verus! {

broadcast use vstd::string::group_string_axioms;

/// How an image is loaded.
#[derive(Debug, Clone, Copy, PartialEq, Eq, Structural)]
pub enum LoadMode {
    /// Loaded directly.
    Normal,
    /// A large image: a reduced preview is advised.
    LargeCandidate,
    /// Must be loaded in tiles.
    TileRequired,
}

/// What probing an image file found.
#[derive(Debug)]
pub struct ImageProbe {
    pub width: u32,
    pub height: u32,
    pub format: String,
    pub file_size: u64,
    pub is_large: bool,
    pub load_mode: LoadMode,
    pub tileable: bool,
    pub raw_preview: bool,
    pub can_fallback_to_normal: bool,
}

/// Whole megabytes (MiB) in `file_size` bytes.
pub open spec fn megabytes(file_size: u64) -> int {
    file_size as int / 1_048_576
}

/// Whether an extension names a BMP file once lowercased with std's
/// `str::to_lowercase`.
pub open spec fn is_bmp_name(ext: Seq<char>) -> bool {
    text::unicode_lowercase(ext) == "bmp"@
}

/// An image is large when its pixel count, file size or either side reaches
/// the configured threshold, or when it is a BMP of at least 100 MB.
pub open spec fn large_by_rule(
    w: u32,
    h: u32,
    file_size: u64,
    ext_is_bmp: bool,
    s: LargeImageSettings,
) -> bool {
    w * h >= s.pixel_threshold || megabytes(file_size) >= s.file_size_threshold_mb || w
        >= s.side_threshold || h >= s.side_threshold || (ext_is_bmp && megabytes(file_size) >= 100)
}

/// Largeness does not depend on which side is the width: an image is large
/// as soon as either side reaches the side threshold, its pixel count
/// reaches the pixel threshold or its file size the size threshold, and
/// swapping width and height never changes the verdict.
pub proof fn lemma_largeness_by_sides(
    w: u32,
    h: u32,
    file_size: u64,
    ext_is_bmp: bool,
    s: LargeImageSettings,
)
    ensures
        w >= s.side_threshold ==> large_by_rule(w, h, file_size, ext_is_bmp, s),
        h >= s.side_threshold ==> large_by_rule(w, h, file_size, ext_is_bmp, s),
        w * h >= s.pixel_threshold ==> large_by_rule(w, h, file_size, ext_is_bmp, s),
        megabytes(file_size) >= s.file_size_threshold_mb ==> large_by_rule(
            w,
            h,
            file_size,
            ext_is_bmp,
            s,
        ),
        large_by_rule(w, h, file_size, ext_is_bmp, s) == large_by_rule(
            h,
            w,
            file_size,
            ext_is_bmp,
            s,
        ),
{
    assert(w * h == h * w) by (nonlinear_arith);
}

/// The load mode: a BMP of 300 MB or more needs tiles, one of 100 MB or
/// more is a large candidate; otherwise the pixel-count and file-size
/// thresholds call for tiles, and anything else loads normally.
pub open spec fn load_mode_by_rule(
    w: u32,
    h: u32,
    file_size: u64,
    ext_is_bmp: bool,
    s: LargeImageSettings,
) -> LoadMode {
    if ext_is_bmp && megabytes(file_size) >= 300 {
        LoadMode::TileRequired
    } else if ext_is_bmp && megabytes(file_size) >= 100 {
        LoadMode::LargeCandidate
    } else if w * h >= s.pixel_threshold {
        LoadMode::TileRequired
    } else if megabytes(file_size) >= s.file_size_threshold_mb {
        LoadMode::TileRequired
    } else {
        LoadMode::Normal
    }
}

/// Whether `ext` names a BMP file, ignoring case (Unicode lowercase).
pub fn is_bmp_extension(ext: &str) -> (r: bool)
    ensures
        r == is_bmp_name(ext@),
{
    let lower = text::to_lowercase(ext);
    text::str_eq(lower.as_str(), "bmp")
}

fn pixel_count(w: u32, h: u32) -> (r: u64)
    ensures
        r == w * h,
{
    assert(w * h <= 0xffff_ffff * 0xffff_ffff) by (nonlinear_arith)
        requires
            w <= 0xffff_ffff,
            h <= 0xffff_ffff,
    ;
    (w as u64) * (h as u64)
}

/// `large_by_rule`, with the BMP test already made.
pub fn large_image_rule(
    w: u32,
    h: u32,
    file_size: u64,
    ext_is_bmp: bool,
    settings: &LargeImageSettings,
) -> (r: bool)
    ensures
        r == large_by_rule(w, h, file_size, ext_is_bmp, *settings),
{
    let pixels = pixel_count(w, h);
    let mb = file_size / (1024 * 1024);
    if pixels >= settings.pixel_threshold {
        return true;
    }
    if mb >= settings.file_size_threshold_mb {
        return true;
    }
    if w >= settings.side_threshold || h >= settings.side_threshold {
        return true;
    }
    if ext_is_bmp && mb >= 100 {
        return true;
    }
    false
}

/// `load_mode_by_rule`, with the BMP test already made.
pub fn load_mode_rule(
    w: u32,
    h: u32,
    file_size: u64,
    ext_is_bmp: bool,
    settings: &LargeImageSettings,
) -> (r: LoadMode)
    ensures
        r == load_mode_by_rule(w, h, file_size, ext_is_bmp, *settings),
{
    let pixels = pixel_count(w, h);
    let mb = file_size / (1024 * 1024);
    if ext_is_bmp && mb >= 300 {
        return LoadMode::TileRequired;
    }
    if ext_is_bmp && mb >= 100 {
        return LoadMode::LargeCandidate;
    }
    if pixels >= settings.pixel_threshold {
        return LoadMode::TileRequired;
    }
    if mb >= settings.file_size_threshold_mb {
        return LoadMode::TileRequired;
    }
    LoadMode::Normal
}

/// Whether an image of `w`×`h` pixels and `file_size` bytes, with extension
/// `ext`, counts as large under `settings`.
pub fn is_large_image(
    w: u32,
    h: u32,
    file_size: u64,
    ext: &str,
    settings: &LargeImageSettings,
) -> (r: bool)
    ensures
        r == large_by_rule(w, h, file_size, is_bmp_name(ext@), *settings),
{
    large_image_rule(w, h, file_size, is_bmp_extension(ext), settings)
}

/// How an image of `w`×`h` pixels and `file_size` bytes, with extension
/// `ext`, is loaded under `settings`.
pub fn determine_load_mode(
    w: u32,
    h: u32,
    file_size: u64,
    ext: &str,
    settings: &LargeImageSettings,
) -> (r: LoadMode)
    ensures
        r == load_mode_by_rule(w, h, file_size, is_bmp_name(ext@), *settings),
{
    load_mode_rule(w, h, file_size, is_bmp_extension(ext), settings)
}

/// An image that is not loaded normally always counts as large; so an image
/// that is not large always loads normally.
pub proof fn lemma_special_load_mode_is_large(
    w: u32,
    h: u32,
    file_size: u64,
    ext_is_bmp: bool,
    s: LargeImageSettings,
)
    ensures
        load_mode_by_rule(w, h, file_size, ext_is_bmp, s) != LoadMode::Normal ==> large_by_rule(
            w,
            h,
            file_size,
            ext_is_bmp,
            s,
        ),
{
}

// ───────────────────────── probing ─────────────────────────

/// Which prober reads an image's size.
#[derive(Debug, Clone, Copy, PartialEq, Eq, Structural)]
pub enum ProbeRoute {
    /// SVG: shown by the web view, which finds its natural size itself.
    Svg,
    /// BMP: the header is parsed here.
    Bmp,
    /// A format that only the system decoder reads.
    System,
    /// Anything else: the image decoder reads the header.
    Generic,
}

/// The path's extension lowercased with std's `str::to_lowercase` (empty
/// when it has none): the form in which probing compares it.
pub open spec fn probe_extension_of(p: Seq<char>) -> Seq<char> {
    text::unicode_lowercase(text::extension_or_empty(p))
}

/// Which probe applies to a lowercase extension, given whether the system
/// decoder handles it: `svg` wins over `bmp`, which wins over system formats.
pub open spec fn route_by_rule(ext: Seq<char>, system_decoded: bool) -> ProbeRoute {
    if ext == "svg"@ {
        ProbeRoute::Svg
    } else if ext == "bmp"@ {
        ProbeRoute::Bmp
    } else if system_decoded {
        ProbeRoute::System
    } else {
        ProbeRoute::Generic
    }
}

/// The path's extension, lowercased as probing compares it.
pub fn probe_extension(path: &str) -> (r: String)
    ensures
        r@ == probe_extension_of(path@),
        (forall|i: int|
            0 <= i < text::extension_or_empty(path@).len() ==> (#[trigger] text::extension_or_empty(
                path@,
            )[i] as u32) < 128) ==> r@ == text::ascii_lower(text::extension_or_empty(path@)),
{
    match text::extension_of(path) {
        Some(e) => text::to_lowercase(e.as_str()),
        None => {
            proof {
                reveal_strlit("");
                assert(""@ =~= Seq::<char>::empty());
            }
            text::to_lowercase("")
        },
    }
}

/// `route_by_rule` for an extension already lowercased.
pub fn route_for(ext: &str, system_decoded: bool) -> (r: ProbeRoute)
    ensures
        r == route_by_rule(ext@, system_decoded),
{
    if text::str_eq(ext, "svg") {
        ProbeRoute::Svg
    } else if text::str_eq(ext, "bmp") {
        ProbeRoute::Bmp
    } else if system_decoded {
        ProbeRoute::System
    } else {
        ProbeRoute::Generic
    }
}

/// Which prober reads the size of the image at `path`.
pub fn probe_route(path: &str) -> (r: ProbeRoute)
    ensures
        r == route_by_rule(
            probe_extension_of(path@),
            extended_formats::is_system_decoded_path(path@),
        ),
{
    let ext = probe_extension(path);
    route_for(ext.as_str(), extended_formats::is_system_decoded(path))
}

/// The probe result for an image whose size and format the prober found:
/// largeness and load mode follow the rules, except that a system-decoded
/// image is always a large candidate (preview only) and can never fall back
/// to normal loading.
pub fn build_probe(
    ext_is_bmp: bool,
    system_decoded: bool,
    width: u32,
    height: u32,
    format: String,
    file_size: u64,
    tileable: bool,
    raw_preview: bool,
    settings: &LargeImageSettings,
) -> (r: ImageProbe)
    ensures
        r.width == width,
        r.height == height,
        r.format@ == format@,
        r.file_size == file_size,
        r.is_large == large_by_rule(width, height, file_size, ext_is_bmp, *settings),
        r.load_mode == if system_decoded {
            LoadMode::LargeCandidate
        } else {
            load_mode_by_rule(width, height, file_size, ext_is_bmp, *settings)
        },
        r.tileable == tileable,
        r.raw_preview == raw_preview,
        r.can_fallback_to_normal == !system_decoded,
{
    let is_large = large_image_rule(width, height, file_size, ext_is_bmp, settings);
    let load_mode = if system_decoded {
        LoadMode::LargeCandidate
    } else {
        load_mode_rule(width, height, file_size, ext_is_bmp, settings)
    };
    ImageProbe {
        width,
        height,
        format,
        file_size,
        is_large,
        load_mode,
        tileable,
        raw_preview,
        can_fallback_to_normal: !system_decoded,
    }
}

/// `r` is the probe result for the image at `path` whose prober found the
/// given size and format (`tileable` and `raw_preview` as it reports):
/// largeness and load mode follow the rules, except that a system-decoded
/// image is always a large candidate and never falls back to normal loading.
pub open spec fn probe_matches(
    r: ImageProbe,
    path: Seq<char>,
    file_size: u64,
    width: u32,
    height: u32,
    format: Seq<char>,
    tileable: bool,
    raw_preview: bool,
    settings: LargeImageSettings,
) -> bool {
    let bmp = is_bmp_name(probe_extension_of(path));
    let system = extended_formats::is_system_decoded_path(path);
    &&& r.width == width
    &&& r.height == height
    &&& r.format@ == format
    &&& r.file_size == file_size
    &&& r.is_large == large_by_rule(width, height, file_size, bmp, settings)
    &&& r.load_mode == if system {
        LoadMode::LargeCandidate
    } else {
        load_mode_by_rule(width, height, file_size, bmp, settings)
    }
    &&& r.tileable == tileable
    &&& r.raw_preview == raw_preview
    &&& r.can_fallback_to_normal == !system
}

/// The probe result for the image at `path`, once its prober has found its
/// size and format (`tileable` and `raw_preview` as the prober reports).
pub fn finish_probe(
    path: &str,
    file_size: u64,
    width: u32,
    height: u32,
    format: String,
    tileable: bool,
    raw_preview: bool,
    settings: &LargeImageSettings,
) -> (r: ImageProbe)
    ensures
        probe_matches(r, path@, file_size, width, height, format@, tileable, raw_preview, *settings),
{
    let ext = probe_extension(path);
    let bmp = is_bmp_extension(ext.as_str());
    let system = extended_formats::is_system_decoded(path);
    build_probe(bmp, system, width, height, format, file_size, tileable, raw_preview, settings)
}

/// Probe of an SVG file: the web view shows it directly and finds its size
/// itself, so it is reported as 0×0 in format `svg`.
pub fn probe_svg(path: &str, file_size: u64, settings: &LargeImageSettings) -> (r: ImageProbe)
    ensures
        probe_matches(r, path@, file_size, 0, 0, "svg"@, false, false, *settings),
{
    finish_probe(path, file_size, 0, 0, String::from_str("svg"), false, false, settings)
}

/// Probe of a BMP file from its header bytes: the size the header gives, in
/// format `bmp`, which can be read in tiles; a header that cannot be read
/// gives its error.
pub fn probe_bmp(path: &str, file_size: u64, header: &[u8], settings: &LargeImageSettings) -> (r:
    Result<ImageProbe, LargeImageError>)
    ensures
        match bmp::parse_bmp_header(header@) {
            Ok(info) => r matches Ok(p) && probe_matches(
                p,
                path@,
                file_size,
                info.width,
                info.height,
                "bmp"@,
                true,
                false,
                *settings,
            ),
            Err((code, message)) => r matches Err(e) && e.code@ == code && e.message@ == message,
        },
{
    match bmp::BmpInfo::from_reader(header) {
        Ok(info) => Ok(
            finish_probe(
                path,
                file_size,
                info.width,
                info.height,
                String::from_str("bmp"),
                true,
                false,
                settings,
            ),
        ),
        Err(e) => Err(e),
    }
}

/// Probe of a system-decoded file (TIFF, HEIC, RAW) from the size report of
/// the system decoder: its size, with the lowercased extension as format
/// and a RAW file flagged as an embedded preview; a failed report becomes
/// the error `from_system_decode` gives it.
pub fn probe_system(
    path: &str,
    file_size: u64,
    size: Result<(u32, u32), String>,
    settings: &LargeImageSettings,
) -> (r: Result<ImageProbe, LargeImageError>)
    ensures
        size matches Ok((w, h)) ==> (r matches Ok(p) && probe_matches(
            p,
            path@,
            file_size,
            w,
            h,
            probe_extension_of(path@),
            false,
            extended_formats::is_raw_path(path@),
            *settings,
        )),
        size matches Err(m) ==> (r matches Err(e) && e.code@ == system_decode_code(m@)
            && e.message@ == m@),
{
    match size {
        Ok((w, h)) => {
            let ext = probe_extension(path);
            let raw = extended_formats::is_raw(path);
            Ok(finish_probe(path, file_size, w, h, ext, false, raw, settings))
        },
        Err(m) => Err(LargeImageError::from_system_decode(m)),
    }
}

/// Message of a size that the image decoder could not read.
pub open spec fn size_read_message(m: Seq<char>) -> Seq<char> {
    "读取图像尺寸失败: "@ + m
}

/// Probe of any other file from what the image decoder read of its header:
/// the format it recognised (`format`, lowercased; the lowercased extension
/// when it recognised none) and the size; a size it could not read is a
/// decode error.
pub fn probe_generic(
    path: &str,
    file_size: u64,
    format: Option<String>,
    size: Result<(u32, u32), String>,
    settings: &LargeImageSettings,
) -> (r: Result<ImageProbe, LargeImageError>)
    ensures
        size matches Ok((w, h)) ==> (r matches Ok(p) && probe_matches(
            p,
            path@,
            file_size,
            w,
            h,
            match format {
                Some(f) => f@,
                None => probe_extension_of(path@),
            },
            false,
            false,
            *settings,
        )),
        size matches Err(m) ==> (r matches Err(e) && e.code@ == "DECODE_ERROR"@ && e.message@
            == size_read_message(m@)),
{
    match size {
        Ok((w, h)) => {
            let f = match format {
                Some(f) => f,
                None => probe_extension(path),
            };
            Ok(finish_probe(path, file_size, w, h, f, false, false, settings))
        },
        Err(m) => {
            let mut message = String::from_str("读取图像尺寸失败: ");
            message.append(m.as_str());
            Err(LargeImageError::decode(message))
        },
    }
}

/// ASCII case folding keeps a non-ASCII character, so text that folds to
/// ASCII text was ASCII.
proof fn lemma_folds_to_ascii(e: Seq<char>)
    requires
        forall|i: int| 0 <= i < e.len() ==> (#[trigger] text::ascii_lower(e)[i] as u32) < 128,
    ensures
        forall|i: int| 0 <= i < e.len() ==> (#[trigger] e[i] as u32) < 128,
{
    assert forall|i: int| 0 <= i < e.len() implies (#[trigger] e[i] as u32) < 128 by {
        assert(text::ascii_lower(e)[i] == text::ascii_lower_char(e[i]));
    }
}

/// A path that probing reads as SVG or BMP is no RAW file.
proof fn lemma_svg_bmp_not_raw(path: Seq<char>, lowered: Seq<char>)
    requires
        lowered == probe_extension_of(path),
        lowered == "svg"@ || lowered == "bmp"@,
        (forall|i: int|
            0 <= i < text::extension_or_empty(path).len() ==> (#[trigger] text::extension_or_empty(
                path,
            )[i] as u32) < 128) ==> lowered == text::ascii_lower(text::extension_or_empty(path)),
    ensures
        !extended_formats::is_raw_path(path),
{
    let e = text::extension_or_empty(path);
    let low = text::ascii_lower(e);
    let raws = extended_formats::raw_extensions();
    reveal_strlit("svg");
    reveal_strlit("bmp");
    reveal_strlit("dng");
    reveal_strlit("cr2");
    reveal_strlit("cr3");
    reveal_strlit("nef");
    reveal_strlit("arw");
    reveal_strlit("raf");
    reveal_strlit("orf");
    reveal_strlit("rw2");
    if extended_formats::is_raw_path(path) {
        let k = choose|k: int| 0 <= k < raws.len() && raws[k] == low;
        assert(low.len() == 3);
        assert forall|i: int| 0 <= i < e.len() implies (#[trigger] low[i] as u32) < 128 by {
            assert(low[i] == raws[k][i]);
        }
        lemma_folds_to_ascii(e);
        assert(lowered == low);
        assert(raws[k] != lowered || raws[k][0] != lowered[0] || raws[k][1] != lowered[1]
            || raws[k][2] != lowered[2]);
    }
}

/// What the prober of a route read from the file: nothing for SVG, the
/// header bytes for BMP, the system decoder's size report, or the format
/// and size that the image decoder read from the header.
pub enum ProbeInput {
    Svg,
    Bmp(Vec<u8>),
    System(Result<(u32, u32), String>),
    Generic(Option<String>, Result<(u32, u32), String>),
}

/// The input is the one that the route's prober reads.
pub open spec fn input_fits_route(input: ProbeInput, route: ProbeRoute) -> bool {
    match input {
        ProbeInput::Svg => route == ProbeRoute::Svg,
        ProbeInput::Bmp(_) => route == ProbeRoute::Bmp,
        ProbeInput::System(_) => route == ProbeRoute::System,
        ProbeInput::Generic(_, _) => route == ProbeRoute::Generic,
    }
}

/// The probe of the file at `path`, `file_size` bytes long, from what its
/// route's prober read: the file size as given, largeness and load mode by
/// the rules (a system-decoded file is a large candidate and never falls
/// back to normal loading), tileable exactly for BMP, and an embedded
/// preview exactly for a RAW file read by the system decoder.
pub fn probe_image_input(
    path: &str,
    file_size: u64,
    input: ProbeInput,
    settings: &LargeImageSettings,
) -> (r: Result<ImageProbe, LargeImageError>)
    requires
        input_fits_route(
            input,
            route_by_rule(
                probe_extension_of(path@),
                extended_formats::is_system_decoded_path(path@),
            ),
        ),
    ensures
        ({
            let route = route_by_rule(
                probe_extension_of(path@),
                extended_formats::is_system_decoded_path(path@),
            );
            let bmp = is_bmp_name(probe_extension_of(path@));
            let system = extended_formats::is_system_decoded_path(path@);
            r matches Ok(p) ==> {
                &&& p.file_size == file_size
                &&& p.is_large == large_by_rule(p.width, p.height, file_size, bmp, *settings)
                &&& p.load_mode == if system {
                    LoadMode::LargeCandidate
                } else {
                    load_mode_by_rule(p.width, p.height, file_size, bmp, *settings)
                }
                &&& p.can_fallback_to_normal == !system
                &&& p.tileable == (route == ProbeRoute::Bmp)
                &&& p.tileable == (probe_extension_of(path@) == "bmp"@)
                &&& p.raw_preview == extended_formats::is_raw_path(path@)
            }
        }),
        match input {
            ProbeInput::Svg => r matches Ok(p) && probe_matches(
                p,
                path@,
                file_size,
                0,
                0,
                "svg"@,
                false,
                false,
                *settings,
            ),
            ProbeInput::Bmp(h) => match bmp::parse_bmp_header(h@) {
                Ok(info) => r matches Ok(p) && probe_matches(
                    p,
                    path@,
                    file_size,
                    info.width,
                    info.height,
                    "bmp"@,
                    true,
                    false,
                    *settings,
                ),
                Err((code, message)) => r matches Err(e) && e.code@ == code && e.message@
                    == message,
            },
            ProbeInput::System(size) => match size {
                Ok((w, h)) => r matches Ok(p) && probe_matches(
                    p,
                    path@,
                    file_size,
                    w,
                    h,
                    probe_extension_of(path@),
                    false,
                    extended_formats::is_raw_path(path@),
                    *settings,
                ),
                Err(m) => r matches Err(e) && e.code@ == system_decode_code(m@) && e.message@
                    == m@,
            },
            ProbeInput::Generic(format, size) => match size {
                Ok((w, h)) => r matches Ok(p) && probe_matches(
                    p,
                    path@,
                    file_size,
                    w,
                    h,
                    match format {
                        Some(f) => f@,
                        None => probe_extension_of(path@),
                    },
                    false,
                    false,
                    *settings,
                ),
                Err(m) => r matches Err(e) && e.code@ == "DECODE_ERROR"@ && e.message@
                    == size_read_message(m@),
            },
        },
{
    let lowered = probe_extension(path);
    proof {
        reveal_strlit("svg");
        reveal_strlit("bmp");
        extended_formats::lemma_raw_is_system_decoded(path@);
        if lowered@ == "svg"@ || lowered@ == "bmp"@ {
            lemma_svg_bmp_not_raw(path@, lowered@);
        }
        let route = route_by_rule(
            probe_extension_of(path@),
            extended_formats::is_system_decoded_path(path@),
        );
        assert(route == ProbeRoute::Svg ==> !extended_formats::is_raw_path(path@));
        assert(route == ProbeRoute::Bmp ==> !extended_formats::is_raw_path(path@));
        assert(route == ProbeRoute::Generic ==> !extended_formats::is_raw_path(path@));
        assert("bmp"@[0] != "svg"@[0]);
        assert((route == ProbeRoute::Bmp) == (probe_extension_of(path@) == "bmp"@));
    }
    match input {
        ProbeInput::Svg => Ok(probe_svg(path, file_size, settings)),
        ProbeInput::Bmp(header) => probe_bmp(path, file_size, header.as_slice(), settings),
        ProbeInput::System(size) => probe_system(path, file_size, size, settings),
        ProbeInput::Generic(format, size) => probe_generic(path, file_size, format, size, settings),
    }
}

} // verus!

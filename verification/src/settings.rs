//! Application settings: the option enums and the defaults of the setting
//! groups that the library's logic reads.
use crate::text;
use vstd::prelude::*;

verus! {

/// Interface language.
#[derive(Clone, Copy, Debug, PartialEq, Eq, Structural)]
pub enum Language {
    System,
    ZhCn,
    EnUs,
}

/// Interface theme.
#[derive(Clone, Copy, Debug, PartialEq, Eq, Structural)]
pub enum Theme {
    System,
    Light,
    Dark,
}

/// Zoom applied when an image is opened.
#[derive(Clone, Copy, Debug, PartialEq, Eq, Structural)]
pub enum DefaultZoomMode {
    FitWindow,
    FitWidth,
    ActualSize,
    Remember,
}

/// When the navigator window is shown.
#[derive(Clone, Copy, Debug, PartialEq, Eq, Structural)]
pub enum NavigatorMode {
    Always,
    Auto,
    Hidden,
}

/// Background behind the viewed image.
#[derive(Clone, Copy, Debug, PartialEq, Eq, Structural)]
pub enum ViewerBackground {
    Dark,
    Light,
    Checkerboard,
    Custom,
}

/// Long side of the navigator window, in pixels.
#[derive(Clone, Copy, Debug, PartialEq, Eq, Structural)]
pub enum NavigatorSize {
    Size160,
    Size200,
    Size240,
}

impl NavigatorSize {
    /// The size in pixels (the value the setting is stored as).
    pub fn value(self) -> (r: u32)
        ensures
            r == match self {
                NavigatorSize::Size160 => 160u32,
                NavigatorSize::Size200 => 200u32,
                NavigatorSize::Size240 => 240u32,
            },
    {
        match self {
            NavigatorSize::Size160 => 160,
            NavigatorSize::Size200 => 200,
            NavigatorSize::Size240 => 240,
        }
    }
}

/// Where the thumbnail strip sits.
#[derive(Clone, Copy, Debug, PartialEq, Eq, Structural)]
pub enum ThumbnailPosition {
    Left,
    Bottom,
}

/// Thumbnail size (longest side, in pixels).
#[derive(Clone, Copy, Debug, PartialEq, Eq, Structural)]
pub enum ThumbnailSize {
    Size96,
    Size160,
    Size256,
}

impl ThumbnailSize {
    /// The size in pixels (the value the setting is stored as).
    pub fn value(self) -> (r: u32)
        ensures
            r == match self {
                ThumbnailSize::Size96 => 96u32,
                ThumbnailSize::Size160 => 160u32,
                ThumbnailSize::Size256 => 256u32,
            },
    {
        match self {
            ThumbnailSize::Size96 => 96,
            ThumbnailSize::Size160 => 160,
            ThumbnailSize::Size256 => 256,
        }
    }
}

/// Longest side of a large-image preview, in pixels.
#[derive(Clone, Copy, Debug, PartialEq, Eq, Structural)]
pub enum PreviewMaxSize {
    Size2048,
    Size4096,
    Size8192,
}

impl PreviewMaxSize {
    /// The size in pixels (the value the setting is stored as).
    pub fn value(self) -> (r: u32)
        ensures
            r == match self {
                PreviewMaxSize::Size2048 => 2048u32,
                PreviewMaxSize::Size4096 => 4096u32,
                PreviewMaxSize::Size8192 => 8192u32,
            },
    {
        match self {
            PreviewMaxSize::Size2048 => 2048,
            PreviewMaxSize::Size4096 => 4096,
            PreviewMaxSize::Size8192 => 8192,
        }
    }
}

/// Side of a tile, in pixels.
#[derive(Clone, Copy, Debug, PartialEq, Eq, Structural)]
pub enum TileSize {
    Size256,
    Size512,
    Size1024,
}

impl TileSize {
    /// The size in pixels (the value the setting is stored as).
    pub fn value(self) -> (r: u32)
        ensures
            r == match self {
                TileSize::Size256 => 256u32,
                TileSize::Size512 => 512u32,
                TileSize::Size1024 => 1024u32,
            },
    {
        match self {
            TileSize::Size256 => 256,
            TileSize::Size512 => 512,
            TileSize::Size1024 => 1024,
        }
    }
}

/// Large-image handling.
#[derive(Clone, Copy, Debug, PartialEq, Eq, Structural)]
pub struct LargeImageSettings {
    /// File size, in MB, from which an image counts as large.
    pub file_size_threshold_mb: u64,
    /// Pixel count from which an image counts as large.
    pub pixel_threshold: u64,
    /// Side length from which an image counts as large.
    pub side_threshold: u32,
    /// Longest side of a large-image preview.
    pub preview_max_size: PreviewMaxSize,
    /// Tile side.
    pub tile_size: TileSize,
    /// Whether neighbouring tiles are fetched ahead.
    pub enable_tile_prefetch: bool,
    /// How many tiles around the view are fetched ahead.
    pub prefetch_radius: u32,
}

impl Default for LargeImageSettings {
    fn default() -> (r: Self)
        ensures
            r == (LargeImageSettings {
                file_size_threshold_mb: 300,
                pixel_threshold: 50_000_000,
                side_threshold: 12_000,
                preview_max_size: PreviewMaxSize::Size4096,
                tile_size: TileSize::Size512,
                enable_tile_prefetch: true,
                prefetch_radius: 1,
            }),
    {
        LargeImageSettings {
            file_size_threshold_mb: 300,
            pixel_threshold: 50_000_000,
            side_threshold: 12_000,
            preview_max_size: PreviewMaxSize::Size4096,
            tile_size: TileSize::Size512,
            enable_tile_prefetch: true,
            prefetch_radius: 1,
        }
    }
}

/// Cache limits.
#[derive(Clone, Copy, Debug, PartialEq, Eq, Structural)]
pub struct CacheSettings {
    /// Memory cache limit, in MB.
    pub memory_cache_limit_mb: u64,
    /// Disk cache limit, in MB.
    pub disk_cache_limit_mb: u64,
    /// Whether the disk cache is used.
    pub enable_disk_cache: bool,
    /// Whether temporary tiles are removed on exit.
    pub clear_temp_tile_on_exit: bool,
}

impl Default for CacheSettings {
    fn default() -> (r: Self)
        ensures
            r == (CacheSettings {
                memory_cache_limit_mb: 512,
                disk_cache_limit_mb: 2048,
                enable_disk_cache: true,
                clear_temp_tile_on_exit: true,
            }),
    {
        CacheSettings {
            memory_cache_limit_mb: 512,
            disk_cache_limit_mb: 2048,
            enable_disk_cache: true,
            clear_temp_tile_on_exit: true,
        }
    }
}

/// Concurrency and preloading.
#[derive(Clone, Copy, Debug, PartialEq, Eq, Structural)]
pub struct PerformanceSettings {
    /// Tiles processed at once.
    pub tile_concurrency: u32,
    /// Images decoded at once.
    pub decode_concurrency: u32,
    /// Thumbnails generated at once.
    pub thumbnail_concurrency: u32,
    /// Threads used by a parallel decode.
    pub cpu_threads: u32,
    /// Ordinary images preloaded.
    pub preload_normal_count: u32,
    /// Large-image previews preloaded.
    pub preload_large_preview_count: u32,
}

impl Default for PerformanceSettings {
    fn default() -> (r: Self)
        ensures
            r == (PerformanceSettings {
                tile_concurrency: 4,
                decode_concurrency: 2,
                thumbnail_concurrency: 4,
                cpu_threads: 8,
                preload_normal_count: 2,
                preload_large_preview_count: 1,
            }),
    {
        PerformanceSettings {
            tile_concurrency: 4,
            decode_concurrency: 2,
            thumbnail_concurrency: 4,
            cpu_threads: 8,
            preload_normal_count: 2,
            preload_large_preview_count: 1,
        }
    }
}

/// Window layout.
#[derive(Clone, Copy, Debug, PartialEq, Eq, Structural)]
pub struct LayoutSettings {
    /// Whether the thumbnail strip is shown.
    pub show_thumbnail_bar: bool,
    /// Where the thumbnail strip sits.
    pub thumbnail_position: ThumbnailPosition,
    /// Thumbnail size.
    pub thumbnail_size: ThumbnailSize,
    /// Whether the status bar is shown.
    pub show_status_bar: bool,
    /// Whether the compact layout is used.
    pub compact_mode: bool,
}

impl Default for LayoutSettings {
    fn default() -> (r: Self)
        ensures
            r == (LayoutSettings {
                show_thumbnail_bar: true,
                thumbnail_position: ThumbnailPosition::Bottom,
                thumbnail_size: ThumbnailSize::Size160,
                show_status_bar: true,
                compact_mode: false,
            }),
    {
        LayoutSettings {
            show_thumbnail_bar: true,
            thumbnail_position: ThumbnailPosition::Bottom,
            thumbnail_size: ThumbnailSize::Size160,
            show_status_bar: true,
            compact_mode: false,
        }
    }
}


/// The final component of the path `p`, or the empty text when it has none.
pub open spec fn file_name_or_empty(p: Seq<char>) -> Seq<char> {
    match text::path_file_name(p) {
        Some(n) => n,
        None => Seq::empty(),
    }
}

/// `path` with its final component replaced by that component followed by
/// `suffix`.
fn with_suffixed_name(path: &str, suffix: &str) -> (r: String)
    ensures
        r@ == text::path_with_file_name(path@, file_name_or_empty(path@) + suffix@),
{
    let mut name = match text::file_name_of(path) {
        Some(n) => n,
        None => String::new(),
    };
    name.append(suffix);
    text::with_file_name(path, name.as_str())
}

/// Where a settings file that cannot be read is moved aside: the same
/// directory, with `.bak` appended to the file name.
pub fn backup_path(path: &str) -> (r: String)
    ensures
        r@ == text::path_with_file_name(path@, file_name_or_empty(path@) + ".bak"@),
{
    with_suffixed_name(path, ".bak")
}

/// Where new settings are written before they replace the file: the same
/// directory, with `.tmp` appended to the file name.
pub fn temporary_path(path: &str) -> (r: String)
    ensures
        r@ == text::path_with_file_name(path@, file_name_or_empty(path@) + ".tmp"@),
{
    with_suffixed_name(path, ".tmp")
}

} // verus!

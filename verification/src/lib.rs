//! Verified core of the PicSee image viewer: file-type classification,
//! natural file-name ordering, BMP header parsing and region sampling,
//! large-image policy, settings defaults and thumbnail bookkeeping.
pub mod text;
pub mod images;
pub mod extended_formats;
pub mod settings;
pub mod large_image;
pub mod thumbnails;

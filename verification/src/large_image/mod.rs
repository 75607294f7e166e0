//! Large-image support: BMP header parsing and region sampling, the policy
//! that decides how an image is loaded, and the error reported to the UI.
pub mod bmp;
pub mod error;
pub mod policy;

pub use error::LargeImageError;

//! The error that large-image operations report; the UI maps its code to a
//! localised message.
use crate::extended_formats;
use crate::text;
use vstd::prelude::*;

verus! {

broadcast use vstd::string::group_string_axioms;

/// An error with a stable machine-readable code and a message.
#[derive(Debug)]
pub struct LargeImageError {
    /// Stable error code.
    pub code: &'static str,
    /// Human-readable details.
    pub message: String,
}

/// The message of a session that was not found.
pub open spec fn session_not_found_message(session_id: u64) -> Seq<char> {
    "Session "@ + text::decimal(session_id as nat) + " not found"@
}

/// The message of a tile outside the image.
pub open spec fn tile_out_of_range_message(x: u32, y: u32) -> Seq<char> {
    "Tile ("@ + text::decimal(x as nat) + ", "@ + text::decimal(y as nat)
        + ") is out of image range"@
}

/// The code that `from_system_decode` gives a system-decoder message.
pub open spec fn system_decode_code(message: Seq<char>) -> Seq<char> {
    let marker = "IMAGE_TOO_LARGE:"@;
    if marker.len() <= message.len() && message.take(marker.len() as int) == marker {
        "IMAGE_TOO_LARGE"@
    } else {
        "SYSTEM_DECODE_ERROR"@
    }
}

impl LargeImageError {
    /// An error with the given code and message.
    pub fn new(code: &'static str, message: String) -> (r: Self)
        ensures
            r.code == code,
            r.message@ == message@,
    {
        LargeImageError { code, message }
    }

    /// No session has the given id.
    pub fn session_not_found(session_id: u64) -> (r: Self)
        ensures
            r.code@ == "SESSION_NOT_FOUND"@,
            r.message@ == session_not_found_message(session_id),
    {
        let mut m = text::with_decimal("Session ", session_id);
        m.append(" not found");
        Self::new("SESSION_NOT_FOUND", m)
    }

    /// The tile `(x, y)` lies outside the image.
    pub fn tile_out_of_range(x: u32, y: u32) -> (r: Self)
        ensures
            r.code@ == "TILE_OUT_OF_RANGE"@,
            r.message@ == tile_out_of_range_message(x, y),
    {
        let mut m = text::with_decimal("Tile (", x as u64);
        m.append(", ");
        text::push_decimal(&mut m, y as u64);
        m.append(") is out of image range");
        Self::new("TILE_OUT_OF_RANGE", m)
    }

    /// The format can only be shown as a preview, not in tiles.
    pub fn tiles_unavailable() -> (r: Self)
        ensures
            r.code@ == "TILES_UNAVAILABLE"@,
            r.message@ == "This image format only supports preview rendering"@,
    {
        Self::new(
            "TILES_UNAVAILABLE",
            String::from_str("This image format only supports preview rendering"),
        )
    }

    /// The file's format or variant is not supported.
    pub fn unsupported_format(message: String) -> (r: Self)
        ensures
            r.code@ == "UNSUPPORTED_FORMAT"@,
            r.message@ == message@,
    {
        Self::new("UNSUPPORTED_FORMAT", message)
    }

    /// Reading or writing a file failed.
    pub fn io(message: String) -> (r: Self)
        ensures
            r.code@ == "IO_ERROR"@,
            r.message@ == message@,
    {
        Self::new("IO_ERROR", message)
    }

    /// The file's contents could not be decoded.
    pub fn decode(message: String) -> (r: Self)
        ensures
            r.code@ == "DECODE_ERROR"@,
            r.message@ == message@,
    {
        Self::new("DECODE_ERROR", message)
    }

    /// The system decoder failed.
    pub fn system_decode(message: String) -> (r: Self)
        ensures
            r.code@ == "SYSTEM_DECODE_ERROR"@,
            r.message@ == message@,
    {
        Self::new("SYSTEM_DECODE_ERROR", message)
    }

    /// The image exceeds a size limit.
    pub fn image_too_large(message: String) -> (r: Self)
        ensures
            r.code@ == "IMAGE_TOO_LARGE"@,
            r.message@ == message@,
    {
        Self::new("IMAGE_TOO_LARGE", message)
    }

    /// An error from the system decoder: a size-limit refusal (a message
    /// that starts with `IMAGE_TOO_LARGE:`) keeps that meaning, any other
    /// message is a system decode failure.
    pub fn from_system_decode(message: String) -> (r: Self)
        ensures
            r.code@ == system_decode_code(message@),
            r.message@ == message@,
    {
        proof {
            reveal_strlit("IMAGE_TOO_LARGE");
            reveal_strlit("SYSTEM_DECODE_ERROR");
        }
        if text::starts_with(message.as_str(), "IMAGE_TOO_LARGE:") {
            Self::image_too_large(message)
        } else {
            Self::system_decode(message)
        }
    }

    /// Encoding an output image failed.
    pub fn encode(message: String) -> (r: Self)
        ensures
            r.code@ == "ENCODE_ERROR"@,
            r.message@ == message@,
    {
        Self::new("ENCODE_ERROR", message)
    }
}


/// A size-limit refusal of the system decoder keeps its meaning as
/// `IMAGE_TOO_LARGE` when it reaches the UI.
pub proof fn lemma_size_refusal_is_too_large(width: u32, height: u32)
    ensures
        system_decode_code(extended_formats::too_large_message(width, height))
            == "IMAGE_TOO_LARGE"@,
{
    extended_formats::lemma_too_large_message_marked(width, height);
}

} // verus!

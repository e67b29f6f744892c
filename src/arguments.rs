use vstd::prelude::*;
use crate::error::{Error, ErrorKind};

verus! {

/// The narrowest width that can be asked for.
pub const MIN_WIDTH: u32 = 16;
/// The widest width that can be asked for.
pub const MAX_WIDTH: u32 = 7680;
/// The lowest height that can be asked for.
pub const MIN_HEIGHT: u32 = 16;
/// The highest height that can be asked for.
pub const MAX_HEIGHT: u32 = 4320;

/// A requested resolution is in range where each dimension given lies within
/// its bounds.
pub open spec fn resolution_in_range(width: Option<u32>, height: Option<u32>) -> bool {
    &&& (width matches Some(w) ==> MIN_WIDTH <= w <= MAX_WIDTH)
    &&& (height matches Some(h) ==> MIN_HEIGHT <= h <= MAX_HEIGHT)
}

/// Checks the requested resolution; an `Argument` error exactly where a
/// dimension given lies out of its bounds.
pub fn validate_resolution(width: Option<u32>, height: Option<u32>) -> (r: Result<(), Error>)
    ensures
        r is Ok <==> resolution_in_range(width, height),
        r matches Err(e) ==> e.kind == ErrorKind::Argument,
{
    if let Some(w) = width {
        if w < MIN_WIDTH || w > MAX_WIDTH {
            return Err(Error::with_kind(ErrorKind::Argument, "invalid width: must be between 16 and 7680".to_owned()));
        }
    }
    if let Some(h) = height {
        if h < MIN_HEIGHT || h > MAX_HEIGHT {
            return Err(Error::with_kind(ErrorKind::Argument, "invalid height: must be between 16 and 4320".to_owned()));
        }
    }
    Ok(())
}

/// The lower-case form of a string, as Unicode defines it.
pub uninterp spec fn lower_of(s: Seq<char>) -> Seq<char>;

/// Relies on `str::to_lowercase`: the result depends on the characters alone.
#[verifier::external_body]
fn lowercase(s: &str) -> (r: String)
    ensures
        r@ == lower_of(s@),
{
    s.to_lowercase()
}

/// The container extensions that are read as videos, in lower case.
pub open spec fn video_extension(ext: Seq<char>) -> bool {
    ||| ext == "mp4"@
    ||| ext == "mov"@
    ||| ext == "mkv"@
    ||| ext == "webm"@
    ||| ext == "avi"@
    ||| ext == "flv"@
}

/// Whether a lower-case extension names a video container.
pub fn is_video_extension_lowercase(ext: &String) -> (r: bool)
    ensures
        r == video_extension(ext@),
{
    *ext == "mp4".to_owned() || *ext == "mov".to_owned() || *ext == "mkv".to_owned()
        || *ext == "webm".to_owned() || *ext == "avi".to_owned() || *ext == "flv".to_owned()
}

/// Whether a file extension names a video container, in any case.
pub fn is_video_extension(ext: &str) -> (r: bool)
    ensures
        r == video_extension(lower_of(ext@)),
{
    let lower = lowercase(ext);
    is_video_extension_lowercase(&lower)
}

} // verus!

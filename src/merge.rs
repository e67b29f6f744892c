use vstd::prelude::*;
use crate::codec::png_encoded;
use crate::error::{Error, ErrorKind};
use crate::frame::Frame;

verus! {

/// One frame as the encoder receives it: a PNG file, and the number of times
/// it is written in a row.
pub struct MergeWrite {
    pub bytes: Vec<u8>,
    pub copies: usize,
}

/// Encodes `frame` once, to be written once for itself and once for each
/// duplicate folded into it, which restores the run-length of the source.
pub fn prepare_write(frame: &Frame) -> (r: Result<MergeWrite, Error>)
    requires
        frame.image@.valid(),
        frame.duplicates < usize::MAX,
    ensures
        match r {
            Ok(w) => w.copies == frame.duplicates + 1
                && png_encoded(frame.image.width, frame.image.height, frame.image.pixels@) == Some(w.bytes@),
            Err(e) => png_encoded(frame.image.width, frame.image.height, frame.image.pixels@) is None
                && e.kind == ErrorKind::DecodeFraming,
        },
{
    match frame.to_bytes() {
        Ok(bytes) => Ok(MergeWrite { bytes, copies: frame.copies() }),
        Err(e) => Err(e),
    }
}

} // verus!

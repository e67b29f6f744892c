use vstd::prelude::*;
use crate::codec::{decode_png, encode_png, png_decoded, png_encoded};
use crate::error::{Error, ErrorKind};

verus! {

/// What a raster is: its dimensions and its RGB bytes.
pub ghost struct RasterView {
    pub width: nat,
    pub height: nat,
    pub pixels: Seq<u8>,
}

/// What a frame is: its position, its run-length and its raster.
pub ghost struct FrameView {
    pub index: nat,
    pub duplicates: nat,
    pub image: RasterView,
}

/// A decoded image: `width` by `height` pixels, three bytes (red, green,
/// blue) each, rows top to bottom.
#[derive(Clone, Debug)]
pub struct Raster {
    pub width: u32,
    pub height: u32,
    pub pixels: Vec<u8>,
}

impl View for Raster {
    type V = RasterView;

    open spec fn view(&self) -> RasterView {
        RasterView { width: self.width as nat, height: self.height as nat, pixels: self.pixels@ }
    }
}

/// The raster that a PNG file stands for, where it decodes to one whose byte
/// count matches its dimensions.
pub open spec fn png_raster(bytes: Seq<u8>) -> Option<RasterView> {
    match png_decoded(bytes) {
        Some((w, h, p)) => if p.len() == w * h * 3 {
            Some(RasterView { width: w as nat, height: h as nat, pixels: p })
        } else {
            None
        },
        None => None,
    }
}

impl RasterView {
    /// Three bytes for each pixel.
    pub open spec fn valid(self) -> bool {
        self.pixels.len() == self.width * self.height * 3
    }

    /// Same width and same height.
    pub open spec fn same_size(self, other: RasterView) -> bool {
        self.width == other.width && self.height == other.height
    }
}

/// Whether `len` bytes are three for each pixel of a `width` by `height` raster.
fn holds_pixels(width: u32, height: u32, len: usize) -> (r: bool)
    ensures
        r == (len == width * height * 3),
{
    let w = width as u128;
    let h = height as u128;
    assert(w * h <= 0xffff_ffffu128 * 0xffff_ffffu128) by (nonlinear_arith)
        requires
            w <= 0xffff_ffffu128,
            h <= 0xffff_ffffu128,
    ;
    len as u128 == w * h * 3
}

impl Raster {
    /// A raster of the given dimensions over `pixels`; an `Argument` error
    /// where `pixels` does not hold three bytes for each pixel.
    pub fn new(width: u32, height: u32, pixels: Vec<u8>) -> (r: Result<Raster, Error>)
        ensures
            match r {
                Ok(raster) => raster@ == (RasterView { width: width as nat, height: height as nat, pixels: pixels@ })
                    && raster@.valid(),
                Err(e) => e.kind == ErrorKind::Argument && pixels@.len() != width * height * 3,
            },
    {
        if !holds_pixels(width, height, pixels.len()) {
            return Err(Error::with_kind(ErrorKind::Argument, "pixel buffer does not match the dimensions".to_owned()));
        }
        Ok(Raster { width, height, pixels })
    }

    /// Whether the raster holds three bytes for each pixel.
    pub fn is_valid(&self) -> (r: bool)
        ensures
            r == self@.valid(),
    {
        holds_pixels(self.width, self.height, self.pixels.len())
    }

    /// The dimensions, width first.
    pub fn dimensions(&self) -> (r: (u32, u32))
        ensures
            r == (self.width, self.height),
    {
        (self.width, self.height)
    }

    /// True when both rasters have the same dimensions and the same bytes.
    pub fn same_pixels(&self, other: &Raster) -> (r: bool)
        ensures
            r == (self@ == other@),
    {
        if self.width != other.width || self.height != other.height {
            return false;
        }
        if self.pixels.len() != other.pixels.len() {
            return false;
        }
        let mut i: usize = 0;
        while i < self.pixels.len()
            invariant
                self.pixels@.len() == other.pixels@.len(),
                i <= self.pixels@.len(),
                forall|j: int| 0 <= j < i ==> self.pixels@[j] == other.pixels@[j],
            decreases self.pixels@.len() - i,
        {
            if self.pixels[i] != other.pixels[i] {
                return false;
            }
            i = i + 1;
        }
        assert(self.pixels@ =~= other.pixels@);
        true
    }
}

/// One decoded image with its position in the stream and the number of
/// identical frames that followed it and were folded into it.
#[derive(Debug)]
pub struct Frame {
    pub index: usize,
    pub duplicates: usize,
    pub image: Raster,
}

impl View for Frame {
    type V = FrameView;

    open spec fn view(&self) -> FrameView {
        FrameView { index: self.index as nat, duplicates: self.duplicates as nat, image: self.image@ }
    }
}

/// Two frames are duplicates when their rasters are equal: the same
/// dimensions and the same bytes.
pub open spec fn frames_duplicate(a: FrameView, b: FrameView) -> bool {
    a.image == b.image
}

impl Frame {
    /// A frame at `index` over `image`, standing for itself alone.
    pub fn new(image: Raster, index: usize) -> (r: Frame)
        ensures
            r.index == index,
            r.duplicates == 0,
            r.image@ == image@,
    {
        Frame { index, duplicates: 0, image }
    }

    /// Decodes one PNG file into a frame at `index`; a `DecodeFraming` error
    /// where the bytes are no PNG that decodes to a well-formed raster.
    pub fn from_bytes(bytes: &[u8], index: usize) -> (r: Result<Frame, Error>)
        ensures
            match r {
                Ok(f) => png_raster(bytes@) == Some(f.image@) && f.index == index && f.duplicates == 0,
                Err(e) => png_raster(bytes@) is None && e.kind == ErrorKind::DecodeFraming,
            },
    {
        match decode_png(bytes) {
            Ok((w, h, p)) => {
                if !holds_pixels(w, h, p.len()) {
                    return Err(Error::with_kind(ErrorKind::DecodeFraming, "decoded image has a malformed pixel buffer".to_owned()));
                }
                Ok(Frame::new(Raster { width: w, height: h, pixels: p }, index))
            },
            Err(_) => Err(Error::with_kind(ErrorKind::DecodeFraming, "failed to decode a PNG frame".to_owned())),
        }
    }

    /// Encodes the frame's raster as one PNG file; a `DecodeFraming` error
    /// where the codec refuses it.
    pub fn to_bytes(&self) -> (r: Result<Vec<u8>, Error>)
        requires
            self.image@.valid(),
        ensures
            match r {
                Ok(b) => png_encoded(self.image.width, self.image.height, self.image.pixels@) == Some(b@),
                Err(e) => png_encoded(self.image.width, self.image.height, self.image.pixels@) is None
                    && e.kind == ErrorKind::DecodeFraming,
            },
    {
        match encode_png(self.image.width, self.image.height, self.image.pixels.as_slice()) {
            Ok(b) => Ok(b),
            Err(_) => Err(Error::with_kind(ErrorKind::DecodeFraming, "failed to encode a PNG frame".to_owned())),
        }
    }

    /// Folds one more identical frame into this one.
    pub fn add_duplicate(&mut self)
        requires
            old(self).duplicates < usize::MAX,
        ensures
            final(self).duplicates == old(self).duplicates + 1,
            final(self).index == old(self).index,
            final(self).image@ == old(self).image@,
    {
        self.duplicates = self.duplicates + 1;
    }

    /// True when `frame` has the same dimensions and the same pixels.
    pub fn is_duplicate(&self, frame: &Frame) -> (r: bool)
        ensures
            r == frames_duplicate(self@, frame@),
    {
        self.image.same_pixels(&frame.image)
    }

    /// How many frames of the output video this frame stands for.
    pub fn copies(&self) -> (r: usize)
        requires
            self.duplicates < usize::MAX,
        ensures
            r == self.duplicates + 1,
    {
        self.duplicates + 1
    }
}

/// Duplicate detection does not depend on the order of its arguments, and
/// every frame duplicates itself.
pub proof fn lemma_duplicate_symmetric(a: FrameView, b: FrameView)
    ensures
        frames_duplicate(a, b) == frames_duplicate(b, a),
        frames_duplicate(a, a),
{
}

} // verus!

use vstd::prelude::*;
use crate::error::Error;

verus! {

/// The super-resolution models, with the scale factor that each one applies.
#[derive(Clone, Copy, Debug, PartialEq, Eq, Structural)]
pub enum Model {
    RealCugan(u8),
    RealEsrAnime(u8),
    RealEsrgan,
    RealEsrganAnime,
}

impl Model {
    /// The factor by which the model multiplies width and height.
    pub open spec fn spec_scale(self) -> u8 {
        match self {
            Model::RealCugan(scale) => scale,
            Model::RealEsrAnime(scale) => scale,
            Model::RealEsrgan => 4,
            Model::RealEsrganAnime => 4,
        }
    }

    /// The factor by which the model multiplies width and height.
    pub fn get_scale(&self) -> (r: u8)
        ensures
            r == self.spec_scale(),
    {
        match self {
            Model::RealCugan(scale) => *scale,
            Model::RealEsrAnime(scale) => *scale,
            Model::RealEsrgan => 4,
            Model::RealEsrganAnime => 4,
        }
    }
}

/// The abstract upscaling capability: RGB bytes of a `width` by `height`
/// raster in, RGB bytes of the raster scaled by the model's factor out.
pub trait Upscaler: Sync + Send {
    /// That this upscaler, given the RGB bytes `input` of a `width` by
    /// `height` raster, may return `output`. An implementation says what its
    /// model produces; one that says nothing admits any output.
    open spec fn produces(&self, input: Seq<u8>, width: usize, height: usize, output: Seq<u8>) -> bool {
        true
    }

    fn upscale(&self, input: &[u8], width: usize, height: usize) -> (r: Result<Vec<u8>, Error>)
        ensures
            r matches Ok(o) ==> self.produces(input@, width, height, o@);
}

} // verus!

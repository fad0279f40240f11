//! Configuration of a sampling run: the noise source, the grid size and the
//! file an image is written to.

use vstd::prelude::*;

verus! {

/// Width and height of the grid when none is set.
pub const DEFAULT_DIM: usize = 150;

/// Collects a noise source, a grid size and an optional output file name
/// before the grid is sampled.
pub struct NoiseImageBuilder<F> {
    noise_fn: F,
    width: usize,
    height: usize,
    filename: Option<String>,
}

impl<F> NoiseImageBuilder<F> {
    pub closed spec fn spec_noise_fn(&self) -> F {
        self.noise_fn
    }

    pub closed spec fn spec_width(&self) -> usize {
        self.width
    }

    pub closed spec fn spec_height(&self) -> usize {
        self.height
    }

    pub closed spec fn spec_filename(&self) -> Option<Seq<char>> {
        match self.filename {
            Some(f) => Some(f@),
            None => None,
        }
    }

    /// A builder for `noise_fn` with the default size and no file name.
    pub fn new(noise_fn: F) -> (r: Self)
        ensures
            r.spec_noise_fn() == noise_fn,
            r.spec_width() == DEFAULT_DIM,
            r.spec_height() == DEFAULT_DIM,
            r.spec_filename() == None::<Seq<char>>,
    {
        NoiseImageBuilder { noise_fn, width: DEFAULT_DIM, height: DEFAULT_DIM, filename: None }
    }

    /// The same builder with the grid size set to `width` by `height`.
    pub fn set_size(self, width: usize, height: usize) -> (r: Self)
        ensures
            r.spec_noise_fn() == self.spec_noise_fn(),
            r.spec_width() == width,
            r.spec_height() == height,
            r.spec_filename() == self.spec_filename(),
    {
        NoiseImageBuilder { noise_fn: self.noise_fn, width, height, filename: self.filename }
    }

    /// The same builder with the output file name set to `filename`.
    pub fn set_filename(self, filename: String) -> (r: Self)
        ensures
            r.spec_noise_fn() == self.spec_noise_fn(),
            r.spec_width() == self.spec_width(),
            r.spec_height() == self.spec_height(),
            r.spec_filename() == Some(filename@),
    {
        NoiseImageBuilder {
            noise_fn: self.noise_fn,
            width: self.width,
            height: self.height,
            filename: Some(filename),
        }
    }

    pub fn width(&self) -> (r: usize)
        ensures
            r == self.spec_width(),
    {
        self.width
    }

    pub fn height(&self) -> (r: usize)
        ensures
            r == self.spec_height(),
    {
        self.height
    }

    /// Hands the configuration back for sampling: the noise source, the
    /// width, the height and the file name.
    pub fn into_parts(self) -> (r: (F, usize, usize, Option<String>))
        ensures
            r.0 == self.spec_noise_fn(),
            r.1 == self.spec_width(),
            r.2 == self.spec_height(),
            r.3 is Some <==> self.spec_filename() is Some,
            r.3 matches Some(f) ==> self.spec_filename() == Some(f@),
    {
        (self.noise_fn, self.width, self.height, self.filename)
    }
}

} // verus!

//! Reproducible lattice hashing for gradient noise, and the pixel-buffer
//! layouts that sampled noise fields are rendered into.

pub mod permutation;
pub mod raster;
pub mod builder;

pub use permutation::PermutationTable;
pub use permutation::PERM_TABLE_SIZE;
pub use raster::draw_pixels;
pub use builder::NoiseImageBuilder;

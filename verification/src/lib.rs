//! Elevation sampling over a georeferenced raster grid.
//!
//! The library answers "what is the ground elevation at this geographic
//! point?" for query points that need not align with grid cell centers.
//! All geometry is carried in exact scaled-integer model units chosen by
//! the caller: geographic coordinates, pixel sizes and elevation samples
//! are `i64` values in one consistent scale, and interpolated results are
//! exact rationals.  Decoding of the container file format is the caller's
//! concern; the sampler works on an in-memory raster of tagged samples.

pub mod intdiv;
pub mod raster;
pub mod height;
pub mod sampler;

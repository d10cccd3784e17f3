//! Places a circular avatar onto a background image.
//!
//! An avatar is brought to a square size, everything outside its inscribed
//! circle is made transparent, and the result is laid over a background near a
//! requested anchor, shrunk first where it would not fit.

pub mod compose;
pub mod image_combiner;
pub mod imaging;
pub mod mask;
pub mod raster;
pub mod scaling;

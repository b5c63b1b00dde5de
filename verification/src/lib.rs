//! Hue reflection for raster images.
//!
//! Every pixel's color is converted from 8-bit RGB into an exact
//! hue/saturation/value representation, the hue angle is mirrored about a
//! caller-supplied axis, and the result is converted back to 8-bit RGB with
//! the original alpha channel reattached. All color arithmetic is exact
//! rational arithmetic on integers, so the transform is deterministic and
//! the RGB -> HSV -> RGB round trip is proved to reproduce the input.

pub mod color;
pub mod grid;
pub mod reflect;

//! Integer and layout logic behind a set of 2D shader effects: palette
//! quantization settings, nebula uniform packing, baked palette lookup
//! tables, and the capped source/lens arrays fed to the lensing passes.

pub mod quantize;
pub mod packing;
pub mod nebula;
pub mod lut;
pub mod lensing;

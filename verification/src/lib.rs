//! The renderer probe: a tiny reference scene, its expected pixels, and the
//! comparison that tells whether a device renders it correctly; plus the
//! packing of solid paints into shader-ready strip metadata.

pub mod paint;
pub mod probe;

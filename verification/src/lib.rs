//! A verified decoder for a restricted PNG profile (8-bit RGBA,
//! non-interlaced) together with a software raster compositor and an
//! error-diffusion ditherer.
//!
//! The decoder walks the chunk container, checks every chunk's CRC-32,
//! inflates the image data through `flate2`, and undoes the per-row scanline
//! filters; the compositor fills rectangles, blits textures with alpha
//! blending and quantizes regions to a fixed eight-color palette, always
//! clipped to the destination frame.

pub mod bytes;
pub mod checksum;
pub mod chunks;
pub mod compress;
pub mod decode;
pub mod dither;
pub mod draw;
pub mod error;
pub mod filter;
pub mod state;
pub mod texture;

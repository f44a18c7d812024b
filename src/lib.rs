//! Conversion of full-color images to a packed 16-bit texture format (five
//! bits of red, six of green, five of blue), with posterizing,
//! Floyd-Steinberg error diffusion or ordered (Bayer) dithering, a
//! transparency key chosen among the colors an image leaves unused, and a
//! fixed little-endian file format.
pub mod background;
pub mod color;
pub mod converters;
pub mod dither;
pub mod image;
pub mod plane;
pub mod texture;
pub mod wire;

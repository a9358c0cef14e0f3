//! The animated GIF container: bit packing, compression, frames and the file.
pub mod bits;
pub mod decoder;
pub mod gif;
pub mod gif_image;
pub mod lzw;
pub mod palette;

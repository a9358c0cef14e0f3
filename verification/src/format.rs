//! Canvases and the file formats that serialise them.
pub mod gif;
pub mod image;
pub mod runs;
pub mod stamps;

//! Run-length encoded canvases and a byte-exact animated GIF encoder.
//!
//! The crate is organised in three layers:
//!
//! * [`format::image`] holds the sparse canvas, a row-major pixel grid stored
//!   as a list of runs, together with its mathematical model in
//!   [`format::runs`];
//! * [`format::gif`] holds the dictionary compressor, the bit packer and the
//!   assembly of frames and of the whole container;
//! * [`common`] and [`animator`] hold the plain value types, the bitmap font
//!   and the dense scene buffers that surround them.
pub mod animator;
pub mod common;
pub mod format;

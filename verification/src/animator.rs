//! Dense scene buffers: objects that draw themselves on frames of colors.
pub mod scene;
pub mod types;

//! Value types shared by every image format.
pub mod text;
pub mod types;

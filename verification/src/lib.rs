//! Channel remapping for RGBA images: per-channel lookup tables, a colour
//! matrix that mixes the three channels, and the workspace state machine that
//! drives loading, previewing and exporting a batch of images.

pub mod image_io;
pub mod pixel;
pub mod processing;
pub mod app_state;

//! The capabilities the player asks of its host: audio, rendering,
//! navigation and input.

pub mod audio;
pub mod input;
pub mod navigator;
pub mod render;

//! Memory of the GPU.

pub mod vram;

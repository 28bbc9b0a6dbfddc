//! Falcon microcontrollers.

use vstd::prelude::*;

pub mod fsp;

verus! {

/// One segment of a firmware image and the place in falcon memory that it is copied to.
#[derive(Debug, Clone, Copy, PartialEq, Eq, Structural)]
pub struct FalconDmaLoadTarget {
    /// Offset of the segment in the image.
    pub src_start: u32,
    /// Address that the segment is loaded at.
    pub dst_start: u32,
    /// Size of the segment in bytes.
    pub len: u32,
}

} // verus!

//! What the display driver asks of the core driver.

use vstd::prelude::*;

verus! {

/// The core driver's data of a GPU, as far as others ask for it.
#[derive(Debug, Clone, Copy, PartialEq, Eq, Structural)]
pub struct NovaCore {
    /// Size in bytes of the BAR through which VRAM can be reached.
    pub vram_bar_size: u64,
}

/// A device. It has driver data while the core driver is bound to it.
#[derive(Debug, Clone, Copy, PartialEq, Eq, Structural)]
pub struct Device {
    pub drvdata: Option<NovaCore>,
}

/// The size of the VRAM BAR in bytes for the given parent device, or 0 if the parent is invalid: if
/// there is none, or if the core driver is not bound to it.
pub fn nova_core_vram_bar_size(parent: Option<&Device>) -> (size: u64)
    ensures
        size == match parent {
            Some(device) => match device.drvdata {
                Some(core) => core.vram_bar_size,
                None => 0u64,
            },
            None => 0u64,
        },
{
    match parent {
        Some(device) => match device.drvdata {
            Some(core) => core.vram_bar_size,
            None => 0,
        },
        None => 0,
    }
}

} // verus!

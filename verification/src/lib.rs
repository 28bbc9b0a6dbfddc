//! The verified core of a GPU driver: firmware images, the boot handshake with the FSP, the
//! command queue shared with the GSP, and access to video memory through the BAR0 window.

pub mod drm;
pub mod error;
pub mod falcon;
pub mod firmware;
pub mod fsp;
pub mod gsp;
pub mod iface;
pub mod mm;
pub mod text;
pub mod wire;

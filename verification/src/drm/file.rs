//! The requests that user space makes through an open file.

use vstd::prelude::*;

use crate::error::Error;
use crate::iface::{nova_core_vram_bar_size, Device};

verus! {

/// The parameter that holds the size of the VRAM BAR.
pub const NOVA_GETPARAM_VRAM_BAR_SIZE: u64 = 1;

/// A request for a parameter of the GPU or the driver.
#[derive(Debug, Clone, Copy, PartialEq, Eq, Structural)]
pub struct GetParam {
    pub param: u64,
    pub value: u64,
}

/// A request for a new buffer object.
#[derive(Debug, Clone, Copy, PartialEq, Eq, Structural)]
pub struct GemCreate {
    pub handle: u32,
    pub size: u64,
}

/// A request for what is known of a buffer object.
#[derive(Debug, Clone, Copy, PartialEq, Eq, Structural)]
pub struct GemInfo {
    pub handle: u32,
    pub size: u64,
}

/// An open file.
#[derive(Debug, Clone, Copy, PartialEq, Eq, Structural)]
pub struct File;

impl File {
    /// Fills in the value of a parameter of the device's GPU. The core driver is bound to `parent`.
    pub fn get_param(parent: Option<&Device>, getparam: &mut GetParam) -> (r: Result<u32, Error>)
        ensures
            r is Ok <==> old(getparam).param == NOVA_GETPARAM_VRAM_BAR_SIZE,
            r is Ok <==> old(getparam).param == 1,
            r matches Ok(v) ==> {
                &&& v == 0
                &&& final(getparam).param == old(getparam).param
                &&& final(getparam).value == match parent {
                    Some(device) => match device.drvdata {
                        Some(core) => core.vram_bar_size,
                        None => 0u64,
                    },
                    None => 0u64,
                }
            },
            r matches Err(e) ==> e == Error::EINVAL && *final(getparam) == *old(getparam),
    {
        if getparam.param == NOVA_GETPARAM_VRAM_BAR_SIZE {
            getparam.value = nova_core_vram_bar_size(parent);
            Ok(0)
        } else {
            Err(Error::EINVAL)
        }
    }

    /// The size of the buffer object to create, which has to be one of memory.
    pub fn object_size(req: &GemCreate) -> (r: Result<usize, Error>)
        ensures
            r is Ok <==> req.size <= usize::MAX,
            r matches Ok(size) ==> size == req.size,
            r matches Err(e) ==> e == Error::EINVAL,
    {
        if req.size > usize::MAX as u64 {
            Err(Error::EINVAL)
        } else {
            Ok(req.size as usize)
        }
    }

    /// Reports the handle of the buffer object that was created.
    pub fn gem_create(req: &mut GemCreate, handle: u32) -> (r: Result<u32, Error>)
        ensures
            r == Ok::<u32, Error>(0),
            *final(req) == (GemCreate { handle, ..*old(req) }),
    {
        req.handle = handle;
        Ok(0)
    }

    /// Reports the size of the buffer object that was looked up.
    pub fn gem_info(req: &mut GemInfo, size: usize) -> (r: Result<u32, Error>)
        ensures
            r == Ok::<u32, Error>(0),
            final(req).size == size,
            final(req).handle == old(req).handle,
    {
        req.size = size as u64;
        Ok(0)
    }
}

} // verus!

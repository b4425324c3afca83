//! Events carried over the kernel channel: their wire codec and the
//! canonical attribute hashing that feeds the behavioural matcher.
use vstd::prelude::*;


pub mod file_create;
pub mod image_load;
pub mod registry_set_value;
pub mod process_create;

verus! {

/// Class tag of a file-creation event: "CRE " packed little-endian.
pub const FILE_CREATE_CLASS: u32 = 0x20455243;

/// Class tag of a process-creation event: "PRO " packed little-endian.
pub const PROCESS_CREATE_CLASS: u32 = 0x204F5250;

/// Class tag of a registry-set-value event: "REG " packed little-endian.
pub const REGISTRY_SET_VALUE_CLASS: u32 = 0x20474552;

/// Class tag of an image-load event: "IMG " packed little-endian.
pub const IMAGE_LOAD_CLASS: u32 = 0x20474D49;

/// Reads the class tag at the front of an event frame.
pub fn get_event_type(bytes: &[u8]) -> (r: u32)
    requires
        bytes@.len() >= 4,
    ensures
        r == crate::wire::le32_at(bytes@, 0),
{
    crate::wire::read_u32_le(bytes, 0)
}

} // verus!

//! The decisions of loading and starting a kernel image.
//!
//! The kernel's device path keeps the device part of the running loader's
//! own path and replaces its file part with the entry's kernel path, so the
//! kernel must lie on the loader's volume.
use crate::config::Entry;
use crate::error::{LbootError, Result};
use crate::wide::BoxedCStr16;
use vstd::prelude::*;

verus! {

/// Device path node type of media nodes.
pub const DEVICE_TYPE_MEDIA: u8 = 0x04;

/// Device path node sub-type of a file path under media.
pub const SUBTYPE_MEDIA_FILE_PATH: u8 = 0x04;

/// True when a node of this (type, sub-type) names a file.
pub open spec fn is_file_node(t: (u8, u8)) -> bool {
    t.0 == DEVICE_TYPE_MEDIA && t.1 == SUBTYPE_MEDIA_FILE_PATH
}

/// The kernel path of the entry; an entry without one cannot boot.
pub fn kernel_path(entry: &Entry) -> (r: Result<&BoxedCStr16>)
    ensures
        match entry.vmlinux {
            Some(p) => r == Ok::<&BoxedCStr16, LbootError>(&p),
            None => r == Err::<&BoxedCStr16, LbootError>(LbootError::WrongEntry),
        },
{
    match &entry.vmlinux {
        Some(p) => Ok(p),
        None => Err(LbootError::WrongEntry),
    }
}

/// How many leading nodes of the running image's device path, given by
/// their (type, sub-type), are kept: all of those before the first file
/// node.
pub fn device_prefix_len(node_types: &[(u8, u8)]) -> (r: usize)
    ensures
        r <= node_types@.len(),
        forall|i: int| 0 <= i < r ==> !is_file_node(#[trigger] node_types@[i]),
        r < node_types@.len() ==> is_file_node(node_types@[r as int]),
{
    let mut i: usize = 0;
    while i < node_types.len()
        invariant
            i <= node_types@.len(),
            forall|j: int| 0 <= j < i ==> !is_file_node(#[trigger] node_types@[j]),
        decreases node_types@.len() - i,
    {
        let t = node_types[i];
        if t.0 == DEVICE_TYPE_MEDIA && t.1 == SUBTYPE_MEDIA_FILE_PATH {
            return i;
        }
        i += 1;
    }
    i
}

/// The size in bytes of the load options that carry `param`: two bytes
/// for each code unit, terminator included, or `None` where that size
/// does not fit in 32 bits.
pub fn load_options_size(param: &BoxedCStr16) -> (r: Option<u32>)
    ensures
        2 * (param@.len() + 1) <= u32::MAX ==> r == Some((2 * (param@.len() + 1)) as u32),
        2 * (param@.len() + 1) > u32::MAX ==> r is None,
{
    let n = param.len();
    if n >= 0x7FFF_FFFF {
        None
    } else {
        Some((2 * (n + 1)) as u32)
    }
}

} // verus!

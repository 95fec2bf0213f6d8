//! Constants of the device target that every module is stamped with.

use vstd::prelude::*;

verus! {

/// The data layout of 64-bit device modules.
pub const DATA_LAYOUT: &'static str = "e-i64:64-i128:128-v16:16-v32:32-n16:32:64";

/// The target triple of device modules.
pub const TARGET_TRIPLE: &'static str = "nvptx64-nvidia-cuda";

} // verus!

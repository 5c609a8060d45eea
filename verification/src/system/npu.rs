//! Detection of compute-only (NPU) adapters.

use vstd::prelude::*;
use crate::system::d3dkmt::{COMPUTE_ONLY, SOFTWARE_DEVICE, spec_classify_adapter, AdapterClass,
    decode_utf16_lossy, before_nul};

verus! {

/// A compute-only adapter that is not a software device.
pub fn is_compute_only_adapter(adapter_type_value: u32) -> (r: bool)
    ensures
        r == (adapter_type_value & COMPUTE_ONLY != 0 && adapter_type_value & SOFTWARE_DEVICE == 0),
        r == (spec_classify_adapter(adapter_type_value) == Some(AdapterClass::Npu)),
{
    adapter_type_value & COMPUTE_ONLY != 0 && adapter_type_value & SOFTWARE_DEVICE == 0
}

/// Decode a NUL-terminated UTF-16 buffer.
pub fn utf16_to_string(buf: &[u16]) -> (s: String)
    ensures
        s@ == decode_utf16_lossy(before_nul(buf@)),
{
    crate::system::d3dkmt::utf16_to_string(buf)
}

} // verus!

//! Classification of dxgkrnl adapters and decoding of their UTF-16 names.

use vstd::prelude::*;

verus! {

/// Kind of a tracked adapter.
#[derive(Debug, Clone, Copy, PartialEq, Eq, Structural)]
pub enum AdapterClass {
    Gpu,
    Npu,
}

pub const RENDER_SUPPORTED: u32 = 1;
pub const SOFTWARE_DEVICE: u32 = 4;
pub const COMPUTE_ONLY: u32 = 0x800;

/// Software devices (WARP, the basic render driver) are never tracked;
/// compute-only adapters are NPUs; other render-capable adapters are GPUs.
pub open spec fn spec_classify_adapter(adapter_type_value: u32) -> Option<AdapterClass> {
    if adapter_type_value & SOFTWARE_DEVICE != 0 {
        None
    } else if adapter_type_value & COMPUTE_ONLY != 0 {
        Some(AdapterClass::Npu)
    } else if adapter_type_value & RENDER_SUPPORTED != 0 {
        Some(AdapterClass::Gpu)
    } else {
        None
    }
}

/// Class of an adapter from its `D3DKMT_ADAPTERTYPE` bits.
pub fn classify_adapter(adapter_type_value: u32) -> (r: Option<AdapterClass>)
    ensures
        r == spec_classify_adapter(adapter_type_value),
{
    if adapter_type_value & SOFTWARE_DEVICE != 0 {
        return None;
    }
    if adapter_type_value & COMPUTE_ONLY != 0 {
        return Some(AdapterClass::Npu);
    }
    if adapter_type_value & RENDER_SUPPORTED != 0 {
        return Some(AdapterClass::Gpu);
    }
    None
}

/// The code point of a surrogate pair.
pub open spec fn pair_code_point(high: u16, low: u16) -> int {
    0x10000 + (high - 0xD800) * 0x400 + (low - 0xDC00)
}

/// UTF-16 decoding in which each unpaired surrogate becomes U+FFFD.
pub open spec fn decode_utf16_lossy(units: Seq<u16>) -> Seq<char>
    decreases units.len(),
{
    if units.len() == 0 {
        Seq::empty()
    } else {
        let u = units[0];
        if u < 0xD800 || u > 0xDFFF {
            seq![u as char] + decode_utf16_lossy(units.drop_first())
        } else if u <= 0xDBFF && units.len() > 1 && 0xDC00 <= units[1] <= 0xDFFF {
            seq![pair_code_point(u, units[1]) as char] + decode_utf16_lossy(units.subrange(2, units.len() as int))
        } else {
            seq!['\u{FFFD}'] + decode_utf16_lossy(units.drop_first())
        }
    }
}

/// `String::from_utf16_lossy`: decodes UTF-16, replacing each unpaired
/// surrogate with U+FFFD, as its documentation describes.
#[verifier::external_body]
fn string_from_utf16_lossy(units: &[u16]) -> (r: String)
    ensures
        r@ == decode_utf16_lossy(units@),
{
    String::from_utf16_lossy(units)
}

/// The units of `buf` before its first NUL (all of them when there is none).
pub open spec fn before_nul(buf: Seq<u16>) -> Seq<u16> {
    if exists|i: int| 0 <= i < buf.len() && buf[i] == 0 {
        buf.subrange(0, choose|i: int| 0 <= i < buf.len() && buf[i] == 0 && forall|j: int| 0 <= j < i ==> buf[j] != 0)
    } else {
        buf
    }
}

/// Length of `buf` up to its first NUL.
pub fn nul_terminated_len(buf: &[u16]) -> (n: usize)
    ensures
        n <= buf@.len(),
        forall|j: int| 0 <= j < n ==> buf@[j] != 0,
        n < buf@.len() ==> buf@[n as int] == 0,
        buf@.subrange(0, n as int) == before_nul(buf@),
{
    let mut i: usize = 0;
    while i < buf.len()
        invariant
            0 <= i <= buf@.len(),
            forall|j: int| 0 <= j < i ==> buf@[j] != 0,
        decreases buf.len() - i,
    {
        if buf[i] == 0 {
            proof {
                let k = choose|k: int| 0 <= k < buf@.len() && buf@[k] == 0 && forall|j: int| 0 <= j < k ==> buf@[j] != 0;
                assert(0 <= i < buf@.len() && buf@[i as int] == 0 && forall|j: int| 0 <= j < i ==> buf@[j] != 0);
                if k < i {
                } else if k > i {
                }
                assert(k == i);
            }
            return i;
        }
        i = i + 1;
    }
    assert(buf@.subrange(0, buf@.len() as int) =~= buf@);
    i
}

/// Decode a NUL-terminated UTF-16 buffer.
pub fn utf16_to_string(buf: &[u16]) -> (s: String)
    ensures
        s@ == decode_utf16_lossy(before_nul(buf@)),
{
    let len = nul_terminated_len(buf);
    let head = vstd::slice::slice_subrange(buf, 0, len);
    string_from_utf16_lossy(head)
}

} // verus!

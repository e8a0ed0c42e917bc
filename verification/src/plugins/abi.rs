//! The wire protocol between host and guest.
//!
//! Payloads are UTF-8 JSON in the guest's linear memory, addressed by a pointer
//! and a length that are packed into one number. A guest implements five
//! exports and may import two host functions: that import surface is the
//! whole of the sandbox boundary.
//!
//! Guest exports:
//! - `memory`: the linear memory
//! - `tacitus_abi_version() -> i32`: must return [`ABI_VERSION`]
//! - `tacitus_alloc(len: i32) -> i32`: pointer to `len` writable bytes
//! - `tacitus_dealloc(ptr: i32, len: i32)`: frees them (may do nothing)
//! - `tacitus_run(ptr: i32, len: i32) -> i64`: takes the input JSON and returns
//!   a packed pointer and length of a `{ ok, data | error }` envelope
//!
//! Host imports (module `tacitus`):
//! - `call(tool_ptr, tool_len, args_ptr, args_len) -> i64`: runs a tool and
//!   always returns an envelope
//! - `log(level, ptr, len)`: 0 debug, 1 info, 2 warn, 3 error
use vstd::prelude::*;

verus! {

pub const ABI_VERSION: i32 = 1;

pub const IMPORT_MODULE: &'static str = "tacitus";

pub const IMPORT_CALL: &'static str = "call";

pub const IMPORT_LOG: &'static str = "log";

pub const EXPORT_MEMORY: &'static str = "memory";

pub const EXPORT_ABI_VERSION: &'static str = "tacitus_abi_version";

pub const EXPORT_ALLOC: &'static str = "tacitus_alloc";

pub const EXPORT_DEALLOC: &'static str = "tacitus_dealloc";

pub const EXPORT_RUN: &'static str = "tacitus_run";

/// A pointer and a length in one number.
pub open spec fn packed(ptr: u32, len: u32) -> int {
    ptr * 0x1_0000_0000 + len
}

/// Packs a guest pointer and a length into one number.
pub fn pack(ptr: u32, len: u32) -> (r: u64)
    ensures
        r == packed(ptr, len),
{
    let high: u64 = ptr as u64;
    let low: u64 = len as u64;
    assert(((high << 32u64) | low) == high * 0x1_0000_0000 + low) by (bit_vector)
        requires
            high <= 0xffff_ffff,
            low <= 0xffff_ffff,
    ;
    (high << 32u64) | low
}

/// The pointer and the length of a packed number.
pub fn unpack(packed_value: u64) -> (r: (u32, u32))
    ensures
        packed(r.0, r.1) == packed_value,
{
    let high: u64 = packed_value >> 32u64;
    let low: u64 = packed_value & 0xFFFF_FFFF;
    assert(high <= 0xffff_ffff && low <= 0xffff_ffff && high * 0x1_0000_0000 + low == packed_value)
        by (bit_vector)
        requires
            high == packed_value >> 32u64,
            low == packed_value & 0xFFFF_FFFF,
    ;
    (high as u32, low as u32)
}

/// Packing loses nothing: two pairs that pack to one number are the same pair.
/// So unpacking what was packed gives the pair back.
pub proof fn law_packing_is_exact(a: u32, b: u32, c: u32, d: u32)
    ensures
        packed(a, b) == packed(c, d) ==> a == c && b == d,
        0 <= packed(a, b) <= u64::MAX,
{
}

} // verus!

//! What whole operations promise, in terms of the bytes in guest memory and of
//! what the host sees of them.

pub mod acpi;
pub mod balloon;
pub mod block;
pub mod boot;
pub mod buffers;
pub mod connection;
pub mod cpuid;
pub mod elf;
pub mod files;
pub mod gpu;
pub mod host;
pub mod memory;
pub mod muxer;
pub mod names;
pub mod net;
pub mod ports;
pub mod queue;
pub mod rng;
pub mod shares;
pub mod tree;
pub mod vsock;

use crate::memory::MemView;
use vstd::prelude::*;

verus! {

/// The byte of guest memory at an address.
pub open spec fn byte_at(m: MemView, addr: int) -> u8 {
    m.data[addr - m.base]
}

/// The 16-bit little-endian number in guest memory at an address.
pub open spec fn u16_at(m: MemView, addr: int) -> int {
    byte_at(m, addr) + 0x100 * byte_at(m, addr + 1)
}

/// The 32-bit little-endian number in guest memory at an address.
pub open spec fn u32_at(m: MemView, addr: int) -> int {
    u16_at(m, addr) + 0x1_0000 * u16_at(m, addr + 2)
}

/// The 64-bit little-endian number in guest memory at an address.
pub open spec fn u64_at(m: MemView, addr: int) -> int {
    u32_at(m, addr) + 0x1_0000_0000 * u32_at(m, addr + 4)
}

} // verus!

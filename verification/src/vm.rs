//! What a vCPU stops for, and what happens then.

use vstd::prelude::*;

verus! {

/// The bytes that a guest writes.
#[derive(Debug)]
pub struct ExitData {
    bytes: Vec<u8>,
}

impl View for ExitData {
    type V = Seq<u8>;

    closed spec fn view(&self) -> Seq<u8> {
        self.bytes@
    }
}

impl ExitData {
    /// A copy of bytes.
    #[must_use]
    pub fn from_slice(data: &[u8]) -> (r: Self)
        ensures
            r@ == data@,
    {
        ExitData { bytes: vstd::slice::slice_to_vec(data) }
    }

    /// The bytes.
    #[must_use]
    pub fn as_bytes(&self) -> (r: &[u8])
        ensures
            r@ == self@,
    {
        self.bytes.as_slice()
    }
}

/// What a vCPU stops for.
#[derive(Debug)]
#[non_exhaustive]
pub enum VmExit {
    /// A write to an I/O port.
    IoOut {
        port: u16,
        data: ExitData,
    },
    /// A read from an I/O port.
    IoIn {
        port: u16,
        size: u8,
    },
    /// A write outside of guest memory.
    MmioWrite {
        addr: u64,
        data: ExitData,
    },
    /// A read outside of guest memory.
    MmioRead {
        addr: u64,
        size: u8,
    },
    /// The guest waits for an interrupt.
    Halt,
    /// The guest shuts down.
    Shutdown,
    /// The guest reboots.
    Reboot,
}

/// What a vCPU does next.
#[derive(Debug, Clone, Copy, PartialEq, Eq, Structural)]
#[non_exhaustive]
pub enum ExitAction {
    /// It goes on.
    Continue,
    /// It stops.
    Stop,
}

/// Errors of a vCPU.
#[derive(Debug, Clone, Copy, PartialEq, Eq, Structural)]
#[non_exhaustive]
pub enum VcpuError {
    /// The vCPU cannot go on.
    RunFailed,
}

} // verus!

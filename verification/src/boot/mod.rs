//! Kernel boot protocol setup for guest VMs.
//!
//! Fills guest memory with what the Linux boot protocol asks for and tells
//! where the vCPU starts: [`x86_64`] for the 64-bit protocol of the PC,
//! [`aarch64`] for ARM64 with a device tree.

pub mod aarch64;
pub mod fdt;
pub mod x86_64;

use crate::failure;
use crate::memory::MemoryError;
use crate::text;
use std::io::Error as IoError;
use vstd::prelude::*;

verus! {

/// GDT (Global Descriptor Table) base address in guest memory.
pub const BOOT_GDT_OFFSET: u64 = 0x0500;

/// IDT (Interrupt Descriptor Table) base address in guest memory.
pub const BOOT_IDT_OFFSET: u64 = 0x0520;

/// Linux "zero page" / `boot_params` address in guest memory.
pub const ZERO_PAGE_START: u64 = 0x7000;

/// Initial stack pointer for the boot CPU.
pub const BOOT_STACK_POINTER: u64 = 0x8ff0;

/// PML4 page table base address (CR3 value).
pub const PML4_START: u64 = 0x9000;

/// Page Directory Pointer Table base address.
pub const PDPTE_START: u64 = 0xa000;

/// Page Directory base address.
pub const PDE_START: u64 = 0xb000;

/// Kernel command line start address in guest memory.
pub const CMDLINE_START: u64 = 0x2_0000;

/// Maximum kernel command line length in bytes, the NUL included.
pub const CMDLINE_MAX_SIZE: usize = 2048;

/// Start of high memory: the lowest address at which a kernel may lie.
pub const HIMEM_START: u64 = 0x10_0000;

/// Number of GDT entries (NULL, CODE, DATA, TSS).
pub const BOOT_GDT_COUNT: usize = 4;

/// 64-bit code segment descriptor flags.
pub const GDT_FLAGS_CODE: u16 = 0xa09b;

/// Data segment descriptor flags.
pub const GDT_FLAGS_DATA: u16 = 0xc093;

/// TSS segment descriptor flags.
pub const GDT_FLAGS_TSS: u16 = 0x808b;

/// Present and writable, for PML4 and PDPT entries.
pub const PAGE_PRESENT_WRITABLE: u64 = 0x03;

/// Present, writable and 2 MiB in size, for page directory entries.
pub const PAGE_PRESENT_WRITABLE_HUGE: u64 = 0x83;

/// Number of page directory entries: 512 pages of 2 MiB map 1 GiB.
pub const PDE_ENTRY_COUNT: u64 = 512;

/// CR0: Protected Mode Enable.
pub const X86_CR0_PE: u64 = 0x1;

/// CR0: Paging Enable.
pub const X86_CR0_PG: u64 = 0x8000_0000;

/// CR4: Physical Address Extension.
pub const X86_CR4_PAE: u64 = 0x20;

/// EFER: Long Mode Enable.
pub const EFER_LME: u64 = 0x100;

/// EFER: Long Mode Active.
pub const EFER_LMA: u64 = 0x400;

/// Where an `x86_64` vCPU starts.
#[derive(Debug, Clone, Copy, PartialEq, Eq, Structural)]
#[non_exhaustive]
pub struct BootConfig {
    /// Kernel entry point address (set as RIP).
    pub entry_point: u64,
    /// Initial stack pointer (set as RSP and RBP).
    pub stack_pointer: u64,
    /// Address of `boot_params` / zero page (set as RSI).
    pub boot_params_addr: u64,
    /// PML4 page table base address (set as CR3).
    pub pml4_addr: u64,
}

/// Errors of kernel boot setup.
#[derive(Debug)]
#[non_exhaustive]
pub enum BootError {
    /// Failed to read the kernel file.
    KernelRead(IoError),
    /// The kernel file is not a valid ELF64 executable.
    InvalidElf {
        /// What is wrong with the ELF.
        reason: &'static str,
    },
    /// The kernel file is not a valid ARM64 Image.
    InvalidImage {
        /// What is wrong with the Image.
        reason: &'static str,
    },
    /// A `PT_LOAD` segment would lie below `HIMEM_START`.
    SegmentBelowHimem {
        /// The segment's physical address.
        addr: u64,
        /// The lowest allowed address.
        himem: u64,
    },
    /// A kernel segment exceeds the guest memory.
    SegmentOutOfBounds {
        /// The segment's physical address.
        addr: u64,
        /// The segment's size in bytes.
        size: u64,
    },
    /// A write to guest memory failed.
    MemoryWrite(MemoryError),
    /// The kernel command line is too long.
    CmdlineTooLong {
        /// Its length, the NUL included.
        len: usize,
        /// The maximum.
        max: usize,
    },
    /// The device tree could not be made.
    Fdt(String),
}

/// What an error of kernel boot setup says, as a model.
#[verifier::ext_equal]
pub enum BootFault {
    Elf(Seq<char>),
    Image(Seq<char>),
    BelowHimem(u64),
    OutOfBounds(u64, u64),
    Memory(MemoryError),
    Cmdline(usize),
}

impl BootError {
    /// Whether the error says what `f` models.
    pub open spec fn says(self, f: BootFault) -> bool {
        match f {
            BootFault::Elf(t) => self matches BootError::InvalidElf { reason } && reason@ == t,
            BootFault::Image(t) => self matches BootError::InvalidImage { reason } && reason@ == t,
            BootFault::BelowHimem(a) => self == (BootError::SegmentBelowHimem {
                addr: a,
                himem: HIMEM_START,
            }),
            BootFault::OutOfBounds(a, n) => self == (BootError::SegmentOutOfBounds {
                addr: a,
                size: n,
            }),
            BootFault::Memory(e) => self == BootError::MemoryWrite(e),
            BootFault::Cmdline(n) => self == (BootError::CmdlineTooLong {
                len: n,
                max: CMDLINE_MAX_SIZE,
            }),
        }
    }

    /// What the text that describes the error is, or starts with.
    pub open spec fn spec_message(self) -> Seq<char> {
        match self {
            BootError::KernelRead(_) => "failed to read kernel file: "@,
            BootError::InvalidElf { reason } => "invalid ELF: "@ + reason@,
            BootError::InvalidImage { reason } => "invalid ARM64 Image: "@ + reason@,
            BootError::SegmentBelowHimem { addr, himem } => "kernel segment at 0x"@ + text::hex(
                addr as nat,
            ) + " is below HIMEM_START (0x"@ + text::hex(himem as nat) + ")"@,
            BootError::SegmentOutOfBounds { addr, size } => "kernel segment at 0x"@ + text::hex(
                addr as nat,
            ) + " + 0x"@ + text::hex(size as nat) + " exceeds guest memory"@,
            BootError::MemoryWrite(e) => "guest memory write failed: "@ + e.spec_message(),
            BootError::CmdlineTooLong { len, max } => "cmdline length "@ + text::decimal(
                len as nat,
            ) + " exceeds max "@ + text::decimal(max as nat),
            BootError::Fdt(t) => "FDT generation failed: "@ + t@,
        }
    }

    /// The text that describes the error. Behind a failed read stands the
    /// host's own text.
    pub fn message(&self) -> (r: String)
        ensures
            self is KernelRead ==> text::begins_with(r@, self.spec_message()),
            !(self is KernelRead) ==> r@ == self.spec_message(),
    {
        match self {
            BootError::KernelRead(e) => failure::io_message("failed to read kernel file: ", e),
            BootError::InvalidElf { reason } => {
                let mut s = "invalid ELF: ".to_owned();
                s.append(reason);
                s
            },
            BootError::InvalidImage { reason } => {
                let mut s = "invalid ARM64 Image: ".to_owned();
                s.append(reason);
                s
            },
            BootError::SegmentBelowHimem { addr, himem } => {
                let mut s = "kernel segment at 0x".to_owned();
                text::push_hex(&mut s, *addr);
                s.append(" is below HIMEM_START (0x");
                text::push_hex(&mut s, *himem);
                s.append(")");
                s
            },
            BootError::SegmentOutOfBounds { addr, size } => {
                let mut s = "kernel segment at 0x".to_owned();
                text::push_hex(&mut s, *addr);
                s.append(" + 0x");
                text::push_hex(&mut s, *size);
                s.append(" exceeds guest memory");
                s
            },
            BootError::MemoryWrite(e) => {
                let mut s = "guest memory write failed: ".to_owned();
                s.append(e.message().as_str());
                s
            },
            BootError::CmdlineTooLong { len, max } => {
                let mut s = "cmdline length ".to_owned();
                text::push_decimal(&mut s, *len as u64);
                s.append(" exceeds max ");
                text::push_decimal(&mut s, *max as u64);
                s
            },
            BootError::Fdt(t) => {
                let mut s = "FDT generation failed: ".to_owned();
                s.append(t.as_str());
                s
            },
        }
    }
}

/// Whether a result is what its model says.
pub open spec fn tells<T>(r: Result<T, BootError>, f: Result<T, BootFault>) -> bool {
    match f {
        Ok(v) => r == Ok::<T, BootError>(v),
        Err(x) => r matches Err(e) && e.says(x),
    }
}

} // verus!

//! `x86_64` Linux boot protocol setup.
//!
//! Loads a vmlinux ELF into guest memory, sets up the GDT and identity-mapped
//! page tables for the first GiB, and writes the kernel command line and the
//! zero page (`boot_params`).
//!
//! ```text
//! 0x0000_0500  GDT (4 entries of 8 bytes)
//! 0x0000_0520  IDT (zeroed, 8 bytes)
//! 0x0000_7000  Zero page / `boot_params` (4096 bytes)
//! 0x0000_8ff0  Boot stack pointer
//! 0x0000_9000  PML4 page table
//! 0x0000_a000  PDPT page table
//! 0x0000_b000  PD page table (512 entries of 2 MiB)
//! 0x0002_0000  Kernel command line (up to 2048 bytes)
//! 0x0010_0000+ Kernel `PT_LOAD` segments (at their physical addresses)
//! ```

use crate::boot::{
    self, BootConfig, BootError, BootFault, BOOT_GDT_OFFSET, BOOT_IDT_OFFSET, BOOT_STACK_POINTER,
    CMDLINE_MAX_SIZE, CMDLINE_START, GDT_FLAGS_CODE, GDT_FLAGS_DATA, GDT_FLAGS_TSS, HIMEM_START,
    PAGE_PRESENT_WRITABLE, PAGE_PRESENT_WRITABLE_HUGE, PDE_ENTRY_COUNT, PDE_START, PDPTE_START,
    PML4_START, ZERO_PAGE_START,
};
use crate::bytes::{self, get_le16, get_le32, get_le64, le16_vec, le32_vec, le64_vec};
use crate::memory::{self, GuestMemory, MemView, MemoryError, Patch, PatchView};
use std::io::Error as IoError;
use vstd::prelude::*;

verus! {

/// ELF class: 64-bit.
pub const ELFCLASS64: u8 = 2;

/// ELF data: little-endian.
pub const ELFDATA2LSB: u8 = 1;

/// ELF type: executable.
pub const ET_EXEC: u16 = 2;

/// ELF machine: x86-64.
pub const EM_X86_64: u16 = 62;

/// ELF program header type: loadable segment.
pub const PT_LOAD: u32 = 1;

/// Size of the ELF64 file header.
pub const ELF64_EHDR_SIZE: usize = 64;

/// Size of an ELF64 program header entry.
pub const ELF64_PHDR_SIZE: usize = 56;

/// The fields of an ELF64 header that loading needs.
#[derive(Debug, Clone, Copy, PartialEq, Eq, Structural)]
pub struct ElfHeader {
    /// Kernel entry point address.
    pub entry: u64,
    /// Program header table offset in the file.
    pub phoff: u64,
    /// Size of each program header entry.
    pub phentsize: u16,
    /// Number of program header entries.
    pub phnum: u16,
}

/// The header of an ELF64 x86-64 executable, or what is wrong with it.
pub open spec fn elf_header(data: Seq<u8>) -> Result<ElfHeader, Seq<char>> {
    if data.len() < ELF64_EHDR_SIZE {
        Err("file too small for ELF64 header"@)
    } else if data.subrange(0, 4) != seq![0x7fu8, 0x45u8, 0x4cu8, 0x46u8] {
        Err("bad ELF magic"@)
    } else if data[4] != ELFCLASS64 {
        Err("not ELF64 (wrong class)"@)
    } else if data[5] != ELFDATA2LSB {
        Err("not little-endian"@)
    } else if bytes::le16(data, 16) != ET_EXEC {
        Err("not an executable (wrong e_type)"@)
    } else if bytes::le16(data, 18) != EM_X86_64 {
        Err("not x86-64 (wrong e_machine)"@)
    } else if bytes::le16(data, 54) < ELF64_PHDR_SIZE {
        Err("program header entry too small"@)
    } else {
        Ok(
            ElfHeader {
                entry: bytes::le64(data, 24),
                phoff: bytes::le64(data, 32),
                phentsize: bytes::le16(data, 54),
                phnum: bytes::le16(data, 56),
            },
        )
    }
}

/// Checks and reads the header of an ELF64 x86-64 executable.
pub fn parse_elf_header(data: &[u8]) -> (r: Result<ElfHeader, BootError>)
    ensures
        match elf_header(data@) {
            Ok(h) => r == Ok::<ElfHeader, BootError>(h),
            Err(t) => r matches Err(e) && e.says(BootFault::Elf(t)),
        },
{
    if data.len() < ELF64_EHDR_SIZE {
        return Err(BootError::InvalidElf { reason: "file too small for ELF64 header" });
    }
    let ghost magic = seq![0x7fu8, 0x45u8, 0x4cu8, 0x46u8];
    if data[0] != 0x7f || data[1] != 0x45 || data[2] != 0x4c || data[3] != 0x46 {
        assert(data@.subrange(0, 4)[0] == data@[0] && data@.subrange(0, 4)[1] == data@[1]
            && data@.subrange(0, 4)[2] == data@[2] && data@.subrange(0, 4)[3] == data@[3]);
        assert(magic[0] == 0x7f && magic[1] == 0x45 && magic[2] == 0x4c && magic[3] == 0x46);
        return Err(BootError::InvalidElf { reason: "bad ELF magic" });
    }
    assert(data@.subrange(0, 4) =~= magic);
    if data[4] != ELFCLASS64 {
        return Err(BootError::InvalidElf { reason: "not ELF64 (wrong class)" });
    }
    if data[5] != ELFDATA2LSB {
        return Err(BootError::InvalidElf { reason: "not little-endian" });
    }
    if get_le16(data, 16) != ET_EXEC {
        return Err(BootError::InvalidElf { reason: "not an executable (wrong e_type)" });
    }
    if get_le16(data, 18) != EM_X86_64 {
        return Err(BootError::InvalidElf { reason: "not x86-64 (wrong e_machine)" });
    }
    let phentsize = get_le16(data, 54);
    if (phentsize as usize) < ELF64_PHDR_SIZE {
        return Err(BootError::InvalidElf { reason: "program header entry too small" });
    }
    Ok(
        ElfHeader {
            entry: get_le64(data, 24),
            phoff: get_le64(data, 32),
            phentsize,
            phnum: get_le16(data, 56),
        },
    )
}

/// The zero bytes of a stretch of memory.
pub open spec fn zeros(n: int) -> Seq<u8> {
    Seq::new(n as nat, |i: int| 0u8)
}

/// What loading the segment of the program header at `ph` leaves: its bytes of
/// the file at its physical address, and zeros behind them up to its size in
/// memory.
pub open spec fn segment_loaded(m: MemView, data: Seq<u8>, ph: int) -> (
    MemView,
    Result<(), BootFault>,
) {
    let offset = bytes::le64(data, ph + 8);
    let paddr = bytes::le64(data, ph + 24);
    let filesz = bytes::le64(data, ph + 32);
    let memsz = bytes::le64(data, ph + 40);
    if paddr < HIMEM_START {
        (m, Err(BootFault::BelowHimem(paddr)))
    } else if paddr + memsz > m.end_addr() {
        (m, Err(BootFault::OutOfBounds(paddr, memsz)))
    } else if offset > usize::MAX {
        (m, Err(BootFault::Elf("p_offset too large"@)))
    } else if filesz > usize::MAX {
        (m, Err(BootFault::Elf("p_filesz too large"@)))
    } else if offset + filesz > data.len() {
        (m, Err(BootFault::Elf("segment file data extends past end of file"@)))
    } else {
        match m.write(paddr, data.subrange(offset as int, offset + filesz)) {
            (m1, Err(e)) => (m1, Err(BootFault::Memory(e))),
            (m1, Ok(_)) => if memsz > filesz {
                (m1.store(paddr + filesz, zeros(memsz - filesz)), Ok(()))
            } else {
                (m1, Ok(()))
            },
        }
    }
}

/// Loads the segment of the program header at `ph`.
fn load_single_segment(memory: &mut GuestMemory, data: &[u8], ph: usize) -> (r: Result<
    (),
    BootError,
>)
    requires
        ph + ELF64_PHDR_SIZE <= data@.len(),
    ensures
        final(memory)@ == segment_loaded(old(memory)@, data@, ph as int).0,
        boot::tells(r, segment_loaded(old(memory)@, data@, ph as int).1),
{
    assert(data@.len() == data.len());
    let offset = get_le64(data, ph + 8);
    let paddr = get_le64(data, ph + 24);
    let filesz = get_le64(data, ph + 32);
    let memsz = get_le64(data, ph + 40);
    if paddr < HIMEM_START {
        return Err(BootError::SegmentBelowHimem { addr: paddr, himem: HIMEM_START });
    }
    let end = match paddr.checked_add(memsz) {
        Some(end) => end,
        None => return Err(BootError::SegmentOutOfBounds { addr: paddr, size: memsz }),
    };
    if end > memory.end_addr() {
        return Err(BootError::SegmentOutOfBounds { addr: paddr, size: memsz });
    }
    if offset > usize::MAX as u64 {
        return Err(BootError::InvalidElf { reason: "p_offset too large" });
    }
    if filesz > usize::MAX as u64 {
        return Err(BootError::InvalidElf { reason: "p_filesz too large" });
    }
    let len: usize = data.len();
    if offset as usize > len || filesz as usize > len - offset as usize {
        return Err(
            BootError::InvalidElf { reason: "segment file data extends past end of file" },
        );
    }
    let part = vstd::slice::slice_subrange(data, offset as usize, offset as usize + filesz as usize);
    match memory.write_bytes(paddr, part) {
        Ok(_) => {},
        Err(e) => return Err(BootError::MemoryWrite(e)),
    }
    if memsz > filesz {
        let room: usize = memory.size();
        assert(memory@.in_bounds(paddr + filesz, memsz - filesz) && memsz - filesz <= room);
        let fill = bytes::zero_vec((memsz - filesz) as usize);
        assert(fill@ =~= zeros(memsz - filesz));
        match memory.write_bytes(paddr + filesz, fill.as_slice()) {
            Ok(_) => {},
            Err(_) => assert(false),
        }
    }
    Ok(())
}

/// What loading the program headers from the `i`-th on leaves.
pub open spec fn segments_loaded(m: MemView, data: Seq<u8>, h: ElfHeader, i: int) -> (
    MemView,
    Result<(), BootFault>,
)
    decreases h.phnum - i,
{
    let ph = h.phoff + h.phentsize * i;
    if i >= h.phnum {
        (m, Ok(()))
    } else if h.phoff > usize::MAX {
        (m, Err(BootFault::Elf("phoff too large"@)))
    } else if ph + ELF64_PHDR_SIZE > data.len() {
        (m, Err(BootFault::Elf("program header extends past end of file"@)))
    } else if bytes::le32(data, ph) != PT_LOAD {
        segments_loaded(m, data, h, i + 1)
    } else {
        match segment_loaded(m, data, ph) {
            (m1, Err(f)) => (m1, Err(f)),
            (m1, Ok(_)) => segments_loaded(m1, data, h, i + 1),
        }
    }
}

/// Loads all `PT_LOAD` segments of an ELF into guest memory.
pub fn load_elf_segments(memory: &mut GuestMemory, data: &[u8], header: &ElfHeader) -> (r: Result<
    (),
    BootError,
>)
    ensures
        final(memory)@ == segments_loaded(old(memory)@, data@, *header, 0).0,
        boot::tells(r, segments_loaded(old(memory)@, data@, *header, 0).1),
{
    let ghost want = segments_loaded(memory@, data@, *header, 0);
    let mut i: u16 = 0;
    while i < header.phnum
        invariant
            i <= header.phnum,
            want == segments_loaded(old(memory)@, data@, *header, 0),
            want == segments_loaded(memory@, data@, *header, i as int),
        ensures
            i == header.phnum,
            want == segments_loaded(memory@, data@, *header, i as int),
        decreases header.phnum - i,
    {
        if header.phoff > usize::MAX as u64 {
            return Err(BootError::InvalidElf { reason: "phoff too large" });
        }
        assert(header.phentsize * i <= 0xffff * 0xffff) by (nonlinear_arith)
            requires
                header.phentsize <= 0xffff,
                i <= 0xffff,
        ;
        let skip: u32 = header.phentsize as u32 * i as u32;
        let at: u64 = header.phoff.saturating_add(skip as u64);
        let len: usize = data.len();
        assert(skip == header.phentsize * i);
        if at > len as u64 || ELF64_PHDR_SIZE > len - at as usize {
            return Err(BootError::InvalidElf { reason: "program header extends past end of file" });
        }
        let ph: usize = at as usize;
        if get_le32(data, ph) == PT_LOAD {
            match load_single_segment(memory, data, ph) {
                Ok(_) => {},
                Err(e) => return Err(e),
            }
        }
        i = i + 1;
    }
    Ok(())
}

/// What loading an ELF leaves, and the entry point.
pub open spec fn elf_loaded(m: MemView, data: Seq<u8>) -> (MemView, Result<u64, BootFault>) {
    match elf_header(data) {
        Err(t) => (m, Err(BootFault::Elf(t))),
        Ok(h) => match segments_loaded(m, data, h, 0) {
            (m1, Err(f)) => (m1, Err(f)),
            (m1, Ok(_)) => (m1, Ok(h.entry)),
        },
    }
}

/// Loads the `PT_LOAD` segments of an ELF64 executable into guest memory and
/// gives its entry point.
pub fn load_elf(memory: &mut GuestMemory, data: &[u8]) -> (r: Result<u64, BootError>)
    ensures
        final(memory)@ == elf_loaded(old(memory)@, data@).0,
        boot::tells(r, elf_loaded(old(memory)@, data@).1),
{
    let header = match parse_elf_header(data) {
        Ok(h) => h,
        Err(e) => return Err(e),
    };
    match load_elf_segments(memory, data, &header) {
        Ok(_) => Ok(header.entry),
        Err(e) => Err(e),
    }
}

/// What a list of writes leaves, with the outcome of boot setup.
pub open spec fn patched(m: MemView, list: Seq<PatchView>) -> (MemView, Result<(), BootFault>) {
    match m.writes(list) {
        (m1, Err(e)) => (m1, Err(BootFault::Memory(e))),
        (m1, Ok(_)) => (m1, Ok(())),
    }
}

/// Does a list of writes in order, up to the first that fails.
fn write_list(memory: &mut GuestMemory, list: &Vec<Patch>) -> (r: Result<(), BootError>)
    ensures
        final(memory)@ == patched(old(memory)@, memory::patch_views(list@)).0,
        boot::tells(r, patched(old(memory)@, memory::patch_views(list@)).1),
{
    match memory.write_patches(list) {
        Ok(_) => Ok(()),
        Err(e) => Err(BootError::MemoryWrite(e)),
    }
}

/// The segment descriptor of a base, a limit and flags: bits 0 to 15 and 48 to
/// 51 are the limit, bits 16 to 39 and 56 to 63 the base, bits 40 to 47 and 52
/// to 55 the flags (whose bits 8 to 11 are the limit's place).
pub open spec fn descriptor(flags: u16, base: u32, limit: u32) -> int {
    limit % 0x1_0000 + (base % 0x100_0000) * 0x1_0000 + (flags % 0x100) * 0x100_0000_0000 + (limit
        / 0x1_0000 % 0x10) * 0x1_0000_0000_0000 + (flags / 0x1000) * 0x10_0000_0000_0000 + (base
        / 0x100_0000) * 0x100_0000_0000_0000
}

/// Makes a segment descriptor out of flags, base and limit.
#[must_use]
pub fn gdt_entry(flags: u16, base: u32, limit: u32) -> (r: u64)
    ensures
        r == descriptor(flags, base, limit),
{
    let f: u64 = flags as u64;
    let b: u64 = base as u64;
    let l: u64 = limit as u64;
    let r: u64 = ((b & 0xff00_0000) << 32) | ((f & 0x0000_f0ff) << 40) | ((l & 0x000f_0000) << 32)
        | ((b & 0x00ff_ffff) << 16) | (l & 0x0000_ffff);
    assert(((b & 0xff00_0000) << 32) | ((f & 0x0000_f0ff) << 40) | ((l & 0x000f_0000) << 32) | ((b
        & 0x00ff_ffff) << 16) | (l & 0x0000_ffff) == l % 0x1_0000 + (b % 0x100_0000) * 0x1_0000 + (f
        % 0x100) * 0x100_0000_0000 + (l / 0x1_0000 % 0x10) * 0x1_0000_0000_0000 + (f / 0x1000)
        * 0x10_0000_0000_0000 + (b / 0x100_0000) * 0x100_0000_0000_0000) by (bit_vector)
        requires
            f <= 0xffff,
            b <= 0xffff_ffff,
            l <= 0xffff_ffff,
    ;
    r
}

/// The descriptors of the GDT: NULL, CODE, DATA and TSS.
pub open spec fn gdt() -> Seq<u64> {
    seq![
        descriptor(0, 0, 0) as u64,
        descriptor(GDT_FLAGS_CODE, 0, 0xf_ffff) as u64,
        descriptor(GDT_FLAGS_DATA, 0, 0xf_ffff) as u64,
        descriptor(GDT_FLAGS_TSS, 0, 0xf_ffff) as u64,
    ]
}

/// The writes that put the GDT and an empty IDT into guest memory.
pub open spec fn gdt_patches() -> Seq<PatchView> {
    seq![
        PatchView { addr: BOOT_GDT_OFFSET, bytes: bytes::le64_bytes(gdt()[0]) },
        PatchView { addr: (BOOT_GDT_OFFSET + 8) as u64, bytes: bytes::le64_bytes(gdt()[1]) },
        PatchView { addr: (BOOT_GDT_OFFSET + 16) as u64, bytes: bytes::le64_bytes(gdt()[2]) },
        PatchView { addr: (BOOT_GDT_OFFSET + 24) as u64, bytes: bytes::le64_bytes(gdt()[3]) },
        PatchView { addr: BOOT_IDT_OFFSET, bytes: bytes::le64_bytes(0) },
    ]
}

/// Writes the GDT at [`BOOT_GDT_OFFSET`] and an empty IDT at
/// [`BOOT_IDT_OFFSET`].
pub fn write_gdt(memory: &mut GuestMemory) -> (r: Result<(), BootError>)
    ensures
        final(memory)@ == patched(old(memory)@, gdt_patches()).0,
        boot::tells(r, patched(old(memory)@, gdt_patches()).1),
{
    let mut list: Vec<Patch> = Vec::new();
    memory::push_patch(&mut list, BOOT_GDT_OFFSET, le64_vec(gdt_entry(0, 0, 0)));
    memory::push_patch(
        &mut list,
        BOOT_GDT_OFFSET + 8,
        le64_vec(gdt_entry(GDT_FLAGS_CODE, 0, 0xf_ffff)),
    );
    memory::push_patch(
        &mut list,
        BOOT_GDT_OFFSET + 16,
        le64_vec(gdt_entry(GDT_FLAGS_DATA, 0, 0xf_ffff)),
    );
    memory::push_patch(
        &mut list,
        BOOT_GDT_OFFSET + 24,
        le64_vec(gdt_entry(GDT_FLAGS_TSS, 0, 0xf_ffff)),
    );
    memory::push_patch(&mut list, BOOT_IDT_OFFSET, le64_vec(0));
    assert(memory::patch_views(list@) =~= gdt_patches());
    write_list(memory, &list)
}

/// The page directory entry of the `i`-th 2 MiB page.
pub open spec fn pde(i: int) -> u64 {
    (i * 0x20_0000 + PAGE_PRESENT_WRITABLE_HUGE) as u64
}

/// The write of the page directory's `i`-th entry.
pub open spec fn pde_patch(i: int) -> PatchView {
    PatchView { addr: (PDE_START + i * 8) as u64, bytes: bytes::le64_bytes(pde(i)) }
}

/// The writes that put the page tables into guest memory.
pub open spec fn page_table_patches() -> Seq<PatchView> {
    seq![
        PatchView {
            addr: PML4_START,
            bytes: bytes::le64_bytes((PDPTE_START + PAGE_PRESENT_WRITABLE) as u64),
        },
        PatchView {
            addr: PDPTE_START,
            bytes: bytes::le64_bytes((PDE_START + PAGE_PRESENT_WRITABLE) as u64),
        },
    ] + Seq::new(PDE_ENTRY_COUNT as nat, |i: int| pde_patch(i))
}

/// Writes page tables that map the first GiB of guest memory to itself.
pub fn write_page_tables(memory: &mut GuestMemory) -> (r: Result<(), BootError>)
    ensures
        final(memory)@ == patched(old(memory)@, page_table_patches()).0,
        boot::tells(r, patched(old(memory)@, page_table_patches()).1),
{
    let mut list: Vec<Patch> = Vec::new();
    assert(0xa000u64 | 0x03u64 == 0xa003u64 && 0xb000u64 | 0x03u64 == 0xb003u64) by (bit_vector);
    memory::push_patch(&mut list, PML4_START, le64_vec(PDPTE_START | PAGE_PRESENT_WRITABLE));
    memory::push_patch(&mut list, PDPTE_START, le64_vec(PDE_START | PAGE_PRESENT_WRITABLE));
    let mut i: u64 = 0;
    assert(memory::patch_views(list@) =~= page_table_patches().take(2));
    while i < PDE_ENTRY_COUNT
        invariant
            i <= PDE_ENTRY_COUNT,
            memory::patch_views(list@) == page_table_patches().take(2 + i),
        decreases PDE_ENTRY_COUNT - i,
    {
        assert((i << 21) | 0x83u64 == i * 0x20_0000 + 0x83) by (bit_vector)
            requires
                i < 512,
        ;
        memory::push_patch(
            &mut list,
            PDE_START + i * 8,
            le64_vec((i << 21) | PAGE_PRESENT_WRITABLE_HUGE),
        );
        assert(page_table_patches()[2 + i] == pde_patch(i as int));
        assert(page_table_patches().take(2 + i).push(pde_patch(i as int))
            =~= page_table_patches().take(2 + i + 1));
        i = i + 1;
    }
    assert(page_table_patches().take(2 + PDE_ENTRY_COUNT) =~= page_table_patches());
    write_list(memory, &list)
}

/// A command line as it lies in guest memory, with its NUL.
pub open spec fn cmdline_bytes(cmdline: Seq<char>) -> Seq<u8> {
    vstd::utf8::encode_utf8(cmdline).push(0)
}

/// What writing the command line leaves.
pub open spec fn cmdline_written(m: MemView, cmdline: Seq<char>) -> (
    MemView,
    Result<(), BootFault>,
) {
    let b = cmdline_bytes(cmdline);
    if b.len() > CMDLINE_MAX_SIZE {
        (m, Err(BootFault::Cmdline(if b.len() > usize::MAX {
            usize::MAX
        } else {
            b.len() as usize
        })))
    } else {
        patched(m, seq![PatchView { addr: CMDLINE_START, bytes: b }])
    }
}

/// Writes the kernel command line and a NUL at [`CMDLINE_START`].
pub fn write_cmdline(memory: &mut GuestMemory, cmdline: &str) -> (r: Result<(), BootError>)
    ensures
        final(memory)@ == cmdline_written(old(memory)@, cmdline@).0,
        boot::tells(r, cmdline_written(old(memory)@, cmdline@).1),
{
    let text = cmdline.as_bytes();
    let len: usize = text.len().saturating_add(1);
    if len > CMDLINE_MAX_SIZE {
        return Err(BootError::CmdlineTooLong { len, max: CMDLINE_MAX_SIZE });
    }
    let mut b: Vec<u8> = Vec::new();
    bytes::push_bytes(&mut b, text);
    b.push(0);
    assert(b@ =~= cmdline_bytes(cmdline@));
    let mut list: Vec<Patch> = Vec::new();
    memory::push_patch(&mut list, CMDLINE_START, b);
    assert(memory::patch_views(list@) =~= seq![
        PatchView { addr: CMDLINE_START, bytes: cmdline_bytes(cmdline@) },
    ]);
    write_list(memory, &list)
}

/// Offset of `hdr.type_of_loader` in `boot_params`.
pub const BP_TYPE_OF_LOADER: u64 = 0x210;

/// Offset of `hdr.boot_flag` in `boot_params`.
pub const BP_BOOT_FLAG: u64 = 0x1fe;

/// Offset of the `hdr.header` magic in `boot_params`.
pub const BP_HEADER_MAGIC: u64 = 0x202;

/// Offset of `hdr.cmd_line_ptr` in `boot_params`.
pub const BP_CMD_LINE_PTR: u64 = 0x228;

/// Offset of `hdr.kernel_alignment` in `boot_params`.
pub const BP_KERNEL_ALIGNMENT: u64 = 0x230;

/// Offset of `hdr.cmdline_size` in `boot_params`.
pub const BP_CMDLINE_SIZE: u64 = 0x238;

/// Offset of the `e820_entries` count in `boot_params`.
pub const BP_E820_ENTRIES: u64 = 0x1e8;

/// Offset of the `e820_table` array in `boot_params`.
pub const BP_E820_TABLE: u64 = 0x2d0;

/// Size of an e820 entry: an address and a size of 8 bytes, a type of 4.
pub const E820_ENTRY_SIZE: u64 = 20;

/// e820 type: usable RAM.
pub const E820_RAM: u32 = 1;

/// e820 type: reserved.
pub const E820_RESERVED: u32 = 2;

/// End of conventional low memory.
pub const EBDA_START: u64 = 0x9_FC00;

/// Size of `boot_params`.
pub const BOOT_PARAMS_SIZE: usize = 4096;

/// A region of the e820 memory map.
#[derive(Debug, Clone, Copy, PartialEq, Eq, Structural)]
pub struct E820Entry {
    pub addr: u64,
    pub size: u64,
    pub mem_type: u32,
}

/// The memory map of guest memory that ends at `end`: low and high memory with
/// the ISA hole between them, or one region where there is no high memory.
pub open spec fn e820_map(end: u64) -> Seq<E820Entry> {
    if end > HIMEM_START {
        seq![
            E820Entry { addr: 0, size: EBDA_START, mem_type: E820_RAM },
            E820Entry {
                addr: EBDA_START,
                size: (HIMEM_START - EBDA_START) as u64,
                mem_type: E820_RESERVED,
            },
            E820Entry { addr: HIMEM_START, size: (end - HIMEM_START) as u64, mem_type: E820_RAM },
        ]
    } else {
        seq![E820Entry { addr: 0, size: end, mem_type: E820_RAM }]
    }
}

/// The writes of the `i`-th entry of the memory map.
pub open spec fn e820_patches(e: E820Entry, i: int) -> Seq<PatchView> {
    let at = ZERO_PAGE_START + BP_E820_TABLE + i * E820_ENTRY_SIZE;
    seq![
        PatchView { addr: at as u64, bytes: bytes::le64_bytes(e.addr) },
        PatchView { addr: (at + 8) as u64, bytes: bytes::le64_bytes(e.size) },
        PatchView { addr: (at + 16) as u64, bytes: bytes::le32_bytes(e.mem_type) },
    ]
}

/// Appends the writes of an entry of the memory map, and counts it.
fn push_e820_entry(list: &mut Vec<Patch>, count: &mut u8, e: E820Entry)
    requires
        *old(count) < 128,
    ensures
        memory::patch_views(final(list)@) == memory::patch_views(old(list)@) + e820_patches(
            e,
            *old(count) as int,
        ),
        *final(count) == *old(count) + 1,
{
    let at: u64 = ZERO_PAGE_START + BP_E820_TABLE + *count as u64 * E820_ENTRY_SIZE;
    memory::push_patch(list, at, le64_vec(e.addr));
    memory::push_patch(list, at + 8, le64_vec(e.size));
    memory::push_patch(list, at + 16, le32_vec(e.mem_type));
    assert(memory::patch_views(list@) =~= memory::patch_views(old(list)@) + e820_patches(
        e,
        *old(count) as int,
    ));
    *count = *count + 1;
}

/// The writes of the fixed fields of `boot_params`, behind one that clears it.
pub open spec fn header_patches() -> Seq<PatchView> {
    seq![
        PatchView { addr: ZERO_PAGE_START, bytes: zeros(BOOT_PARAMS_SIZE as int) },
        PatchView {
            addr: (ZERO_PAGE_START + BP_BOOT_FLAG) as u64,
            bytes: bytes::le16_bytes(0xAA55),
        },
        PatchView {
            addr: (ZERO_PAGE_START + BP_HEADER_MAGIC) as u64,
            bytes: bytes::le32_bytes(0x5372_6448),
        },
        PatchView { addr: (ZERO_PAGE_START + BP_TYPE_OF_LOADER) as u64, bytes: seq![0xFFu8] },
        PatchView {
            addr: (ZERO_PAGE_START + BP_CMD_LINE_PTR) as u64,
            bytes: bytes::le32_bytes(CMDLINE_START as u32),
        },
        PatchView {
            addr: (ZERO_PAGE_START + BP_KERNEL_ALIGNMENT) as u64,
            bytes: bytes::le32_bytes(0x0100_0000),
        },
    ]
}

/// The writes of the memory map's entries from the `i`-th on.
pub open spec fn map_patches(map: Seq<E820Entry>, i: int) -> Seq<PatchView>
    decreases map.len() - i,
{
    if i >= map.len() {
        Seq::empty()
    } else {
        e820_patches(map[i], i) + map_patches(map, i + 1)
    }
}

/// The writes of the command line's size and of the memory map.
pub open spec fn size_and_map_patches(len: u32, end: u64) -> Seq<PatchView> {
    seq![
        PatchView {
            addr: (ZERO_PAGE_START + BP_CMDLINE_SIZE) as u64,
            bytes: bytes::le32_bytes(len),
        },
    ] + map_patches(e820_map(end), 0) + seq![
        PatchView {
            addr: (ZERO_PAGE_START + BP_E820_ENTRIES) as u64,
            bytes: seq![e820_map(end).len() as u8],
        },
    ]
}

/// What filling the zero page leaves.
pub open spec fn boot_params_written(m: MemView, cmdline: Seq<char>) -> (
    MemView,
    Result<(), BootFault>,
) {
    let len = vstd::utf8::encode_utf8(cmdline).len();
    match patched(m, header_patches()) {
        (m1, Err(f)) => (m1, Err(f)),
        (m1, Ok(_)) => if len > u32::MAX {
            (m1, Err(BootFault::Elf("cmdline length does not fit in u32"@)))
        } else {
            patched(m1, size_and_map_patches(len as u32, m.end_addr()))
        },
    }
}

/// Fills the zero page (`boot_params`) at [`ZERO_PAGE_START`].
pub fn write_boot_params(memory: &mut GuestMemory, cmdline: &str) -> (r: Result<(), BootError>)
    ensures
        final(memory)@ == boot_params_written(old(memory)@, cmdline@).0,
        boot::tells(r, boot_params_written(old(memory)@, cmdline@).1),
{
    let end = memory.end_addr();
    let mut list: Vec<Patch> = Vec::new();
    let zero = bytes::zero_vec(BOOT_PARAMS_SIZE);
    assert(zero@ =~= zeros(BOOT_PARAMS_SIZE as int));
    memory::push_patch(&mut list, ZERO_PAGE_START, zero);
    memory::push_patch(&mut list, ZERO_PAGE_START + BP_BOOT_FLAG, le16_vec(0xAA55));
    memory::push_patch(&mut list, ZERO_PAGE_START + BP_HEADER_MAGIC, le32_vec(0x5372_6448));
    let mut loader: Vec<u8> = Vec::new();
    loader.push(0xFF);
    assert(loader@ =~= seq![0xFFu8]);
    memory::push_patch(&mut list, ZERO_PAGE_START + BP_TYPE_OF_LOADER, loader);
    memory::push_patch(&mut list, ZERO_PAGE_START + BP_CMD_LINE_PTR, le32_vec(CMDLINE_START as u32));
    memory::push_patch(&mut list, ZERO_PAGE_START + BP_KERNEL_ALIGNMENT, le32_vec(0x0100_0000));
    assert(memory::patch_views(list@) =~= header_patches());
    match write_list(memory, &list) {
        Ok(_) => {},
        Err(e) => return Err(e),
    }
    let len: usize = cmdline.as_bytes().len();
    if len > 0xffff_ffff {
        return Err(BootError::InvalidElf { reason: "cmdline length does not fit in u32" });
    }
    let more = size_and_map_list(len as u32, end);
    write_list(memory, &more)
}

/// The writes of the command line's size and of the memory map.
fn size_and_map_list(len: u32, end: u64) -> (list: Vec<Patch>)
    ensures
        memory::patch_views(list@) == size_and_map_patches(len, end),
{
    let mut list: Vec<Patch> = Vec::new();
    let mut count: u8 = 0;
    memory::push_patch(&mut list, ZERO_PAGE_START + BP_CMDLINE_SIZE, le32_vec(len));
    let ghost map = e820_map(end);
    proof {
        reveal_with_fuel(map_patches, 4);
    }
    if end > HIMEM_START {
        push_e820_entry(
            &mut list,
            &mut count,
            E820Entry { addr: 0, size: EBDA_START, mem_type: E820_RAM },
        );
        push_e820_entry(
            &mut list,
            &mut count,
            E820Entry {
                addr: EBDA_START,
                size: HIMEM_START - EBDA_START,
                mem_type: E820_RESERVED,
            },
        );
        push_e820_entry(
            &mut list,
            &mut count,
            E820Entry { addr: HIMEM_START, size: end - HIMEM_START, mem_type: E820_RAM },
        );
        assert(map_patches(map, 0) =~= e820_patches(map[0], 0) + e820_patches(map[1], 1)
            + e820_patches(map[2], 2));
    } else {
        push_e820_entry(
            &mut list,
            &mut count,
            E820Entry { addr: 0, size: end, mem_type: E820_RAM },
        );
        assert(map_patches(map, 0) =~= e820_patches(map[0], 0));
    }
    let mut entries: Vec<u8> = Vec::new();
    entries.push(count);
    assert(entries@ =~= seq![map.len() as u8]);
    memory::push_patch(&mut list, ZERO_PAGE_START + BP_E820_ENTRIES, entries);
    assert(memory::patch_views(list@) =~= size_and_map_patches(len, end));
    list
}

/// What setting up the boot structures leaves.
#[verifier::opaque]
pub open spec fn boot_memory(m: MemView, cmdline: Seq<char>) -> (MemView, Result<(), BootFault>) {
    match patched(m, gdt_patches()) {
        (m1, Err(f)) => (m1, Err(f)),
        (m1, Ok(_)) => match patched(m1, page_table_patches()) {
            (m2, Err(f)) => (m2, Err(f)),
            (m2, Ok(_)) => match cmdline_written(m2, cmdline) {
                (m3, Err(f)) => (m3, Err(f)),
                (m3, Ok(_)) => boot_params_written(m3, cmdline),
            },
        },
    }
}

/// Sets up the boot structures without loading a kernel: the GDT, the page
/// tables, the command line and the zero page.
pub fn configure_boot_memory(memory: &mut GuestMemory, cmdline: &str) -> (r: Result<(), BootError>)
    ensures
        final(memory)@ == boot_memory(old(memory)@, cmdline@).0,
        boot::tells(r, boot_memory(old(memory)@, cmdline@).1),
{
    proof {
        reveal(boot_memory);
    }
    match write_gdt(memory) {
        Ok(_) => {},
        Err(e) => return Err(e),
    }
    match write_page_tables(memory) {
        Ok(_) => {},
        Err(e) => return Err(e),
    }
    match write_cmdline(memory, cmdline) {
        Ok(_) => {},
        Err(e) => return Err(e),
    }
    write_boot_params(memory, cmdline)
}

/// What loading a kernel and setting up the boot structures leaves, and where
/// the vCPU starts.
pub open spec fn booted(m: MemView, kernel: Seq<u8>, cmdline: Seq<char>) -> (
    MemView,
    Result<BootConfig, BootFault>,
) {
    match elf_loaded(m, kernel) {
        (m1, Err(f)) => (m1, Err(f)),
        (m1, Ok(entry)) => match boot_memory(m1, cmdline) {
            (m2, Err(f)) => (m2, Err(f)),
            (m2, Ok(_)) => (
                m2,
                Ok(
                    BootConfig {
                        entry_point: entry,
                        stack_pointer: BOOT_STACK_POINTER,
                        boot_params_addr: ZERO_PAGE_START,
                        pml4_addr: PML4_START,
                    },
                ),
            ),
        },
    }
}

/// Sets up everything that a Linux kernel needs to start in long mode: loads
/// the vmlinux ELF and sets up the boot structures. `kernel` is what came of
/// reading the ELF's file.
pub fn configure_boot(
    memory: &mut GuestMemory,
    kernel: Result<&[u8], IoError>,
    cmdline: &str,
) -> (r: Result<BootConfig, BootError>)
    ensures
        match kernel {
            Ok(data) => {
                &&& final(memory)@ == booted(old(memory)@, data@, cmdline@).0
                &&& boot::tells(r, booted(old(memory)@, data@, cmdline@).1)
            },
            Err(e) => {
                &&& final(memory)@ == old(memory)@
                &&& r == Err::<BootConfig, BootError>(BootError::KernelRead(e))
            },
        },
{
    let data = match kernel {
        Ok(data) => data,
        Err(e) => return Err(BootError::KernelRead(e)),
    };
    let entry_point = match load_elf(memory, data) {
        Ok(entry) => entry,
        Err(e) => return Err(e),
    };
    match configure_boot_memory(memory, cmdline) {
        Ok(_) => {},
        Err(e) => return Err(e),
    }
    Ok(
        BootConfig {
            entry_point,
            stack_pointer: BOOT_STACK_POINTER,
            boot_params_addr: ZERO_PAGE_START,
            pml4_addr: PML4_START,
        },
    )
}

/// All writes of the boot structures, in order.
#[verifier::opaque]
pub open spec fn boot_patches(cmdline: Seq<char>, end: u64) -> Seq<PatchView> {
    gdt_patches() + page_table_patches() + seq![
        PatchView { addr: CMDLINE_START, bytes: cmdline_bytes(cmdline) },
    ] + (header_patches() + size_and_map_patches(
        vstd::utf8::encode_utf8(cmdline).len() as u32,
        end,
    ))
}

/// Setting up the boot structures, where it succeeds, is doing their writes.
pub proof fn lemma_boot_memory_writes(m: MemView, cmdline: Seq<char>)
    requires
        boot_memory(m, cmdline).1 is Ok,
    ensures
        m.writes(boot_patches(cmdline, m.end_addr())).1 is Ok,
        m.writes(boot_patches(cmdline, m.end_addr())).0 == boot_memory(m, cmdline).0,
        cmdline_bytes(cmdline).len() <= CMDLINE_MAX_SIZE,
{
    reveal(boot_memory);
    reveal(boot_patches);
    let m1 = m.writes(gdt_patches()).0;
    let m2 = m1.writes(page_table_patches()).0;
    let c = seq![PatchView { addr: CMDLINE_START, bytes: cmdline_bytes(cmdline) }];
    let m3 = m2.writes(c).0;
    let len = vstd::utf8::encode_utf8(cmdline).len() as u32;
    let tail = size_and_map_patches(len, m.end_addr());
    memory::law_writes_keep_layout(m, gdt_patches());
    memory::law_writes_keep_layout(m1, page_table_patches());
    memory::law_writes_keep_layout(m2, c);
    memory::law_writes_in_parts(m3, header_patches(), tail);
    memory::law_writes_in_parts(m, gdt_patches(), page_table_patches());
    memory::law_writes_in_parts(m, gdt_patches() + page_table_patches(), c);
    memory::law_writes_in_parts(
        m,
        gdt_patches() + page_table_patches() + c,
        header_patches() + tail,
    );
}

/// The stretches of writes in five parts.
proof fn lemma_five_parts(
    a: Seq<PatchView>,
    b: Seq<PatchView>,
    c: Seq<PatchView>,
    d: Seq<PatchView>,
    e: Seq<PatchView>,
)
    ensures
        ({
            let list = a + b + c + (d + e);
            let ab = (a.len() + b.len()) as int;
            let abc = ab + c.len();
            let abcd = abc + d.len();
            &&& list.len() == abcd + e.len()
            &&& a == list.subrange(0, a.len() as int)
            &&& b == list.subrange(a.len() as int, ab)
            &&& c == list.subrange(ab, abc)
            &&& d == list.subrange(abc, abcd)
            &&& e == list.subrange(abcd, list.len() as int)
        }),
{
    let list = a + b + c + (d + e);
    let ab = (a.len() + b.len()) as int;
    let abc = ab + c.len();
    let abcd = abc + d.len();
    assert(a =~= list.subrange(0, a.len() as int));
    assert(b =~= list.subrange(a.len() as int, ab));
    assert(c =~= list.subrange(ab, abc));
    assert(d =~= list.subrange(abc, abcd));
    assert(e =~= list.subrange(abcd, list.len() as int));
}

/// The stretches that the boot structures' writes are made of.
proof fn lemma_parts(cmdline: Seq<char>, end: u64)
    ensures
        ({
            let list = boot_patches(cmdline, end);
            let tail = size_and_map_patches(vstd::utf8::encode_utf8(cmdline).len() as u32, end);
            &&& list.len() == 526 + tail.len()
            &&& gdt_patches().len() == 5
            &&& page_table_patches().len() == 514
            &&& header_patches().len() == 6
            &&& gdt_patches() == list.subrange(0, 5)
            &&& page_table_patches() == list.subrange(5, 519)
            &&& seq![
                PatchView { addr: CMDLINE_START, bytes: cmdline_bytes(cmdline) },
            ] == list.subrange(519, 520)
            &&& header_patches() == list.subrange(520, 526)
            &&& tail == list.subrange(526, list.len() as int)
        }),
{
    let c = seq![PatchView { addr: CMDLINE_START, bytes: cmdline_bytes(cmdline) }];
    let tail = size_and_map_patches(vstd::utf8::encode_utf8(cmdline).len() as u32, end);
    lemma_five_parts(gdt_patches(), page_table_patches(), c, header_patches(), tail);
    reveal(boot_patches);
}

/// Where the writes of the command line's size and of the memory map lie.
proof fn lemma_tail_places(len: u32, end: u64)
    ensures
        ({
            let tail = size_and_map_patches(len, end);
            forall|k: int|
                0 <= k < tail.len() ==> ZERO_PAGE_START <= (#[trigger] tail[k]).addr && tail[k].addr
                    + tail[k].bytes.len() <= ZERO_PAGE_START + BOOT_PARAMS_SIZE && (tail[k].addr
                    >= ZERO_PAGE_START + BP_CMDLINE_SIZE || tail[k].addr + tail[k].bytes.len()
                    <= ZERO_PAGE_START + BP_BOOT_FLAG)
        }),
{
    reveal_with_fuel(map_patches, 4);
    assert(size_and_map_patches(len, end).len() == 2 + 3 * e820_map(end).len());
}

/// Where the fixed writes of the boot structures lie.
proof fn lemma_fixed_places()
    ensures
        forall|i: int|
            0 <= i < 5 ==> (#[trigger] gdt_patches()[i]).addr + gdt_patches()[i].bytes.len()
                <= CMDLINE_START,
        forall|i: int|
            0 <= i < 514 ==> (#[trigger] page_table_patches()[i]).addr
                + page_table_patches()[i].bytes.len() <= CMDLINE_START,
        forall|i: int|
            0 <= i < 6 ==> ZERO_PAGE_START <= (#[trigger] header_patches()[i]).addr
                && header_patches()[i].addr + header_patches()[i].bytes.len() <= ZERO_PAGE_START
                + BOOT_PARAMS_SIZE,
        forall|i: int| 2 <= i < 514 ==> #[trigger] page_table_patches()[i] == pde_patch(i - 2),
{
}

/// Where the writes of the boot structures lie.
pub proof fn lemma_boot_patch_places(cmdline: Seq<char>, end: u64)
    requires
        cmdline_bytes(cmdline).len() <= CMDLINE_MAX_SIZE,
    ensures
        ({
            let list = boot_patches(cmdline, end);
            &&& list.len() > 519
            &&& forall|i: int| 0 <= i < 5 ==> #[trigger] list[i] == gdt_patches()[i]
            &&& list[5] == page_table_patches()[0]
            &&& list[6] == page_table_patches()[1]
            &&& forall|i: int| 7 <= i < 519 ==> #[trigger] list[i] == pde_patch(i - 7)
            &&& list[519] == (PatchView { addr: CMDLINE_START, bytes: cmdline_bytes(cmdline) })
            &&& forall|i: int| 0 <= i < 6 ==> list[520 + i] == #[trigger] header_patches()[i]
            &&& forall|i: int|
                520 <= i < list.len() ==> ZERO_PAGE_START <= (#[trigger] list[i]).addr
                    && list[i].addr + list[i].bytes.len() <= ZERO_PAGE_START + BOOT_PARAMS_SIZE
            &&& forall|i: int|
                525 < i < list.len() ==> (#[trigger] list[i]).addr >= ZERO_PAGE_START
                    + BP_CMDLINE_SIZE || list[i].addr + list[i].bytes.len() <= ZERO_PAGE_START
                    + BP_BOOT_FLAG
            &&& forall|i: int|
                0 <= i < list.len() ==> (#[trigger] list[i]).addr + list[i].bytes.len()
                    <= CMDLINE_START + CMDLINE_MAX_SIZE
        }),
{
    let list = boot_patches(cmdline, end);
    let len = vstd::utf8::encode_utf8(cmdline).len() as u32;
    let tail = size_and_map_patches(len, end);
    lemma_parts(cmdline, end);
    lemma_tail_places(len, end);
    lemma_fixed_places();
    assert forall|i: int| 0 <= i < 5 implies #[trigger] list[i] == gdt_patches()[i] by {
        assert(list.subrange(0, 5)[i] == list[i]);
    }
    assert forall|i: int| 5 <= i < 519 implies #[trigger] list[i] == page_table_patches()[i
        - 5] by {
        assert(list.subrange(5, 519)[i - 5] == list[i]);
    }
    assert(list.subrange(519, 520)[0] == list[519]);
    assert forall|i: int| 520 <= i < 526 implies #[trigger] list[i] == header_patches()[i
        - 520] by {
        assert(list.subrange(520, 526)[i - 520] == list[i]);
    }
    assert forall|i: int| 526 <= i < list.len() implies #[trigger] list[i] == tail[i - 526] by {
        assert(list.subrange(526, list.len() as int)[i - 526] == list[i]);
    }
    assert forall|i: int| 0 <= i < list.len() implies (#[trigger] list[i]).addr
        + list[i].bytes.len() <= CMDLINE_START + CMDLINE_MAX_SIZE by {
        if i < 5 {
            assert(list[i] == gdt_patches()[i]);
        } else if i < 519 {
            assert(list[i] == page_table_patches()[i - 5]);
        } else if 520 <= i < 526 {
            assert(list[i] == header_patches()[i - 520]);
        } else if i >= 526 {
            assert(list[i] == tail[i - 526]);
        }
    }
    assert forall|i: int| 0 <= i < 6 implies list[520 + i] == #[trigger] header_patches()[i] by {
        assert(list[520 + i] == header_patches()[(520 + i) - 520]);
    }
}

/// The entry of a page table that `index` selects.
pub open spec fn table_entry(m: MemView, table: int, index: int) -> u64 {
    match m.read((table + index * 8) as u64, 8) {
        Ok(b) => bytes::le64(b, 0),
        Err(_) => 0,
    }
}

/// The address that a processor in long mode finds for a virtual address by
/// three levels of page tables, the last of 2 MiB pages.
pub open spec fn translated(m: MemView, cr3: u64, v: u64) -> Option<int> {
    let e4 = table_entry(m, cr3 as int, (v / 0x80_0000_0000 % 512) as int);
    let e3 = table_entry(m, (e4 / 0x1000 * 0x1000) as int, (v / 0x4000_0000 % 512) as int);
    let e2 = table_entry(m, (e3 / 0x1000 * 0x1000) as int, (v / 0x20_0000 % 512) as int);
    if e4 % 2 == 1 && e3 % 2 == 1 && e2 % 2 == 1 && e3 / 0x80 % 2 == 0 && e2 / 0x80 % 2 == 1 {
        Some(e2 / 0x20_0000 * 0x20_0000 + v % 0x20_0000)
    } else {
        None
    }
}

/// No write of the boot structures is longer than a page.
proof fn lemma_boot_patch_sizes(cmdline: Seq<char>, end: u64, k: int)
    requires
        cmdline_bytes(cmdline).len() <= CMDLINE_MAX_SIZE,
        0 <= k < 526,
    ensures
        boot_patches(cmdline, end).len() >= 526,
        boot_patches(cmdline, end)[k].bytes.len() <= 4096,
{
    lemma_boot_patch_places(cmdline, end);
    lemma_parts(cmdline, end);
    let list = boot_patches(cmdline, end);
    if k < 5 {
        assert(list[k] == gdt_patches()[k]);
    }
}

/// No later write of the boot structures touches what the writes of the GDT, of
/// the page tables, of the command line and of the fields of `boot_params` put
/// into guest memory.
proof fn lemma_boot_patch_apart(cmdline: Seq<char>, end: u64, k: int, j: int)
    requires
        cmdline_bytes(cmdline).len() <= CMDLINE_MAX_SIZE,
        0 <= k < 526,
        k != 520,
        k < j < boot_patches(cmdline, end).len(),
    ensures
        memory::disjoint(boot_patches(cmdline, end)[k], boot_patches(cmdline, end)[j]),
{
    let list = boot_patches(cmdline, end);
    lemma_boot_patch_places(cmdline, end);
    let p = list[k];
    let q = list[j];
    if k < 519 && j >= 519 {
        if k < 5 {
            assert(p == gdt_patches()[k]);
        }
    } else if k < 5 {
        assert(p == gdt_patches()[k]);
        if j < 5 {
            assert(q == gdt_patches()[j]);
        }
    } else if k < 519 {
    } else if k > 520 {
        assert(p == header_patches()[k - 520]);
        if j < 526 {
            assert(q == header_patches()[j - 520]);
        }
    }
}

/// With the boot structures in place, guest memory holds what the writes of
/// the GDT, of the page tables, of the command line and of the fields of
/// `boot_params` put there.
pub proof fn lemma_boot_patch_stays(m: MemView, cmdline: Seq<char>, k: int)
    requires
        boot_memory(m, cmdline).1 is Ok,
        0 <= k < 526,
        k != 520,
    ensures
        ({
            let p = boot_patches(cmdline, m.end_addr())[k];
            boot_memory(m, cmdline).0.read(p.addr, p.bytes.len() as usize) == Ok::<
                Seq<u8>,
                MemoryError,
            >(p.bytes)
        }),
{
    let list = boot_patches(cmdline, m.end_addr());
    lemma_boot_memory_writes(m, cmdline);
    lemma_boot_patch_sizes(cmdline, m.end_addr(), k);
    assert forall|j: int| k < j < list.len() implies memory::disjoint(
        list[k],
        #[trigger] list[j],
    ) by {
        lemma_boot_patch_apart(cmdline, m.end_addr(), k, j);
    }
    memory::law_writes_stay(m, list, k);
}

/// With the boot structures in place, the page tables hold their entries.
proof fn lemma_page_tables_in_place(m: MemView, cmdline: Seq<char>, i: int)
    requires
        boot_memory(m, cmdline).1 is Ok,
        0 <= i < PDE_ENTRY_COUNT,
    ensures
        table_entry(boot_memory(m, cmdline).0, PML4_START as int, 0) == 0xa003,
        table_entry(boot_memory(m, cmdline).0, PDPTE_START as int, 0) == 0xb003,
        table_entry(boot_memory(m, cmdline).0, PDE_START as int, i) == pde(i),
{
    lemma_boot_memory_writes(m, cmdline);
    lemma_boot_patch_places(cmdline, m.end_addr());
    lemma_boot_patch_stays(m, cmdline, 5);
    lemma_boot_patch_stays(m, cmdline, 6);
    lemma_boot_patch_stays(m, cmdline, 7 + i);
    assert(boot_patches(cmdline, m.end_addr())[7 + i] == pde_patch(i));
    bytes::law_le64_round_trip(0xa003);
    bytes::law_le64_round_trip(0xb003);
    bytes::law_le64_round_trip(pde(i));
}

/// What three levels of entries give for an address of the first GiB.
proof fn lemma_translated(m: MemView, v: u64)
    requires
        v < 0x4000_0000,
        table_entry(m, PML4_START as int, 0) == 0xa003,
        table_entry(m, PDPTE_START as int, 0) == 0xb003,
        table_entry(m, PDE_START as int, (v / 0x20_0000) as int) == pde((v / 0x20_0000) as int),
    ensures
        translated(m, PML4_START, v) == Some(v as int),
{
    let i = (v / 0x20_0000) as int;
    let e = pde(i);
    assert(e == i * 0x20_0000 + 0x83);
    assert(e % 2 == 1 && e / 0x80 % 2 == 1 && e / 0x20_0000 == i);
}

/// With the boot structures in place, every virtual address of the first GiB
/// is mapped to itself.
pub proof fn law_identity_map(m: MemView, cmdline: Seq<char>, v: u64)
    requires
        boot_memory(m, cmdline).1 is Ok,
        v < 0x4000_0000,
    ensures
        translated(boot_memory(m, cmdline).0, PML4_START, v) == Some(v as int),
{
    lemma_page_tables_in_place(m, cmdline, (v / 0x20_0000) as int);
    lemma_translated(boot_memory(m, cmdline).0, v);
}

/// With the boot structures in place, guest memory holds the GDT.
pub proof fn law_gdt_in_place(m: MemView, cmdline: Seq<char>, i: int)
    requires
        boot_memory(m, cmdline).1 is Ok,
        0 <= i < 4,
    ensures
        table_entry(boot_memory(m, cmdline).0, BOOT_GDT_OFFSET as int, i) == gdt()[i],
{
    lemma_boot_memory_writes(m, cmdline);
    lemma_boot_patch_places(cmdline, m.end_addr());
    lemma_boot_patch_stays(m, cmdline, i);
    assert(boot_patches(cmdline, m.end_addr())[i] == gdt_patches()[i]);
    assert(gdt_patches()[i] == (PatchView {
        addr: (BOOT_GDT_OFFSET + 8 * i) as u64,
        bytes: bytes::le64_bytes(gdt()[i]),
    }));
    bytes::law_le64_round_trip(gdt()[i]);
}

/// With the boot structures in place, guest memory holds the command line with
/// its NUL at the address that `boot_params` gives, and the marks by which the
/// kernel knows `boot_params`.
pub proof fn law_boot_params_in_place(m: MemView, cmdline: Seq<char>)
    requires
        boot_memory(m, cmdline).1 is Ok,
    ensures
        ({
            let after = boot_memory(m, cmdline).0;
            let line = cmdline_bytes(cmdline);
            &&& line.len() <= CMDLINE_MAX_SIZE
            &&& after.read(CMDLINE_START, line.len() as usize) == Ok::<Seq<u8>, MemoryError>(line)
            &&& after.read((ZERO_PAGE_START + BP_BOOT_FLAG) as u64, 2) == Ok::<
                Seq<u8>,
                MemoryError,
            >(bytes::le16_bytes(0xAA55))
            &&& after.read((ZERO_PAGE_START + BP_HEADER_MAGIC) as u64, 4) == Ok::<
                Seq<u8>,
                MemoryError,
            >(bytes::le32_bytes(0x5372_6448))
            &&& after.read((ZERO_PAGE_START + BP_CMD_LINE_PTR) as u64, 4) == Ok::<
                Seq<u8>,
                MemoryError,
            >(bytes::le32_bytes(CMDLINE_START as u32))
        }),
{
    lemma_boot_memory_writes(m, cmdline);
    lemma_boot_patch_places(cmdline, m.end_addr());
    lemma_boot_patch_stays(m, cmdline, 519);
    lemma_boot_patch_stays(m, cmdline, 521);
    lemma_boot_patch_stays(m, cmdline, 522);
    lemma_boot_patch_stays(m, cmdline, 524);
    let list = boot_patches(cmdline, m.end_addr());
    assert(list[521] == header_patches()[1]);
    assert(list[522] == header_patches()[2]);
    assert(list[524] == header_patches()[4]);
}

/// Setting up the boot structures leaves the loaded kernel alone: nothing at
/// or above [`HIMEM_START`] changes.
pub proof fn law_kernel_untouched(m: MemView, cmdline: Seq<char>, addr: u64, n: usize)
    requires
        boot_memory(m, cmdline).1 is Ok,
        addr >= HIMEM_START,
    ensures
        boot_memory(m, cmdline).0.read(addr, n) == m.read(addr, n),
{
    let list = boot_patches(cmdline, m.end_addr());
    lemma_boot_memory_writes(m, cmdline);
    lemma_boot_patch_places(cmdline, m.end_addr());
    let p = PatchView { addr, bytes: zeros(n as int) };
    memory::law_writes_frame(m, list, p);
}

/// The memory map starts at zero, has no gaps and ends where guest memory ends.
pub proof fn law_memory_map_covers(end: u64)
    ensures
        ({
            let map = e820_map(end);
            &&& map.len() > 0
            &&& map[0].addr == 0
            &&& map.last().addr + map.last().size == end
            &&& forall|i: int|
                #![trigger map[i]]
                0 <= i < map.len() - 1 ==> map[i].addr + map[i].size == map[i + 1].addr
        }),
{
}

/// Guest memory that starts at zero and reaches over the place of the command
/// line.
pub open spec fn roomy(m: MemView) -> bool {
    m.base == 0 && m.end() >= CMDLINE_START + CMDLINE_MAX_SIZE
}

/// A stretch of the boot structures' writes finds room.
proof fn lemma_part_fits(m: MemView, cmdline: Seq<char>, end: u64, part: Seq<PatchView>, k: int)
    requires
        roomy(m),
        cmdline_bytes(cmdline).len() <= CMDLINE_MAX_SIZE,
        0 <= k <= k + part.len() <= boot_patches(cmdline, end).len(),
        part == boot_patches(cmdline, end).subrange(k, k + part.len()),
    ensures
        m.writes(part).1 is Ok,
{
    let list = boot_patches(cmdline, end);
    lemma_boot_patch_places(cmdline, end);
    assert forall|j: int| 0 <= j < part.len() implies m.in_bounds(
        (#[trigger] part[j]).addr as int,
        part[j].bytes.len() as int,
    ) by {
        assert(part[j] == list[k + j]);
    }
    memory::law_writes_succeed(m, part);
}

/// Guest memory that reaches over the place of the command line takes the boot
/// structures, whatever it holds, if the command line is not too long.
pub proof fn law_boot_memory_succeeds(m: MemView, cmdline: Seq<char>)
    requires
        roomy(m),
        cmdline_bytes(cmdline).len() <= CMDLINE_MAX_SIZE,
    ensures
        boot_memory(m, cmdline).1 is Ok,
{
    reveal(boot_memory);
    let c = seq![PatchView { addr: CMDLINE_START, bytes: cmdline_bytes(cmdline) }];
    let m1 = m.writes(gdt_patches()).0;
    let m2 = m1.writes(page_table_patches()).0;
    let m3 = m2.writes(c).0;
    let m4 = m3.writes(header_patches()).0;
    memory::law_writes_keep_layout(m, gdt_patches());
    memory::law_writes_keep_layout(m1, page_table_patches());
    memory::law_writes_keep_layout(m2, c);
    memory::law_writes_keep_layout(m3, header_patches());
    let end = m.end_addr();
    lemma_parts(cmdline, end);
    lemma_part_fits(m, cmdline, end, gdt_patches(), 0);
    lemma_part_fits(m1, cmdline, end, page_table_patches(), 5);
    lemma_part_fits(m2, cmdline, end, c, 519);
    lemma_part_fits(m3, cmdline, end, header_patches(), 520);
    lemma_part_fits(
        m4,
        cmdline,
        end,
        size_and_map_patches(vstd::utf8::encode_utf8(cmdline).len() as u32, end),
        526,
    );
}

/// A loaded segment lies in guest memory: its bytes of the file at its physical
/// address, and zeros behind them up to its size in memory.
pub proof fn law_segment_in_place(m: MemView, data: Seq<u8>, ph: int)
    requires
        segment_loaded(m, data, ph).1 is Ok,
        m.data.len() <= usize::MAX,
    ensures
        ({
            let after = segment_loaded(m, data, ph).0;
            let offset = bytes::le64(data, ph + 8);
            let paddr = bytes::le64(data, ph + 24);
            let filesz = bytes::le64(data, ph + 32);
            let memsz = bytes::le64(data, ph + 40);
            &&& after.read(paddr, filesz as usize) == Ok::<Seq<u8>, MemoryError>(
                data.subrange(offset as int, offset + filesz),
            )
            &&& memsz > filesz ==> after.read(
                (paddr + filesz) as u64,
                (memsz - filesz) as usize,
            ) == Ok::<Seq<u8>, MemoryError>(zeros(memsz - filesz))
        }),
{
    let offset = bytes::le64(data, ph + 8);
    let paddr = bytes::le64(data, ph + 24);
    let filesz = bytes::le64(data, ph + 32);
    let memsz = bytes::le64(data, ph + 40);
    let file = data.subrange(offset as int, offset + filesz);
    let m1 = m.write(paddr, file).0;
    memory::law_read_after_write(m, paddr, file);
    if memsz > filesz {
        let bss = (paddr + filesz) as u64;
        let z = zeros(memsz - filesz);
        assert(m1.in_bounds(bss as int, z.len() as int));
        memory::law_read_after_write(m1, bss, z);
        memory::law_write_frame(m1, bss, z, paddr, filesz as usize);
    }
}

/// Loading segments leaves everything below [`HIMEM_START`] as it is.
pub proof fn law_low_memory_untouched(
    m: MemView,
    data: Seq<u8>,
    h: ElfHeader,
    i: int,
    addr: u64,
    n: usize,
)
    requires
        addr + n <= HIMEM_START,
    ensures
        segments_loaded(m, data, h, i).0.read(addr, n) == m.read(addr, n),
    decreases h.phnum - i,
{
    let ph = h.phoff + h.phentsize * i;
    if i < h.phnum && h.phoff <= usize::MAX && ph + ELF64_PHDR_SIZE <= data.len() {
        if bytes::le32(data, ph) != PT_LOAD {
            law_low_memory_untouched(m, data, h, i + 1, addr, n);
        } else {
            lemma_segment_frame(m, data, ph, addr, n);
            let (m1, r) = segment_loaded(m, data, ph);
            if r is Ok {
                law_low_memory_untouched(m1, data, h, i + 1, addr, n);
            }
        }
    }
}

proof fn lemma_segment_frame(m: MemView, data: Seq<u8>, ph: int, addr: u64, n: usize)
    requires
        addr + n <= HIMEM_START,
    ensures
        segment_loaded(m, data, ph).0.read(addr, n) == m.read(addr, n),
{
    let offset = bytes::le64(data, ph + 8);
    let paddr = bytes::le64(data, ph + 24);
    let filesz = bytes::le64(data, ph + 32);
    let memsz = bytes::le64(data, ph + 40);
    let file = data.subrange(offset as int, offset + filesz);
    if paddr >= HIMEM_START && paddr + memsz <= m.end_addr() && offset + filesz <= data.len() {
        let (m1, r) = m.write(paddr, file);
        memory::law_write_frame(m, paddr, file, addr, n);
        if r is Ok && memsz > filesz {
            let bss = (paddr + filesz) as u64;
            let z = zeros(memsz - filesz);
            assert(m1.in_bounds(bss as int, z.len() as int));
            memory::law_write_frame(m1, bss, z, addr, n);
        }
    }
}

} // verus!

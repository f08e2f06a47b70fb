//! `aarch64` ARM64 Linux boot protocol setup.
//!
//! Loads a kernel Image into guest memory, describes the virtual hardware in a
//! device tree, and tells where the vCPU starts and where the tree lies.
//!
//! ```text
//! 0x0800_0000  GICv3 distributor MMIO (typical)
//! 0x080A_0000  GICv3 redistributor MMIO (typical)
//! 0x8000_0000  DRAM start (2 GiB)
//! 0x8020_0000  Kernel Image (DRAM + text_offset, 2 MiB by default)
//! end - 2 MiB  Device tree blob (2 MiB-aligned, up to FDT_MAX_SIZE)
//! ```

use crate::boot::{self, BootError, BootFault};
use crate::boot::fdt::{self, FdtItem, FdtOp, FdtPlace};
use crate::bytes::{self, get_le32, get_le64};
use crate::memory::{self, GuestMemory, MemView, MemoryError};
use crate::text;
use std::io::Error as IoError;
use vstd::prelude::*;

verus! {

/// Start of DRAM in the guest physical address space.
pub const DRAM_MEM_START: u64 = 0x8000_0000;

/// Offset from the start of DRAM of a kernel Image whose header gives none.
pub const KERNEL_LOAD_OFFSET: u64 = 0x0020_0000;

/// Size reserved for the device tree blob (2 MiB).
pub const FDT_MAX_SIZE: usize = 0x0020_0000;

/// Maximum kernel command line length in bytes, the NUL included.
pub const CMDLINE_MAX_SIZE: usize = 2048;

/// Initial PSTATE of the boot vCPU: all exceptions masked, `EL1h` mode.
pub const PSTATE_FAULT_BITS_64: u64 = 0x3C5;

/// ARM64 Image magic number.
pub const ARM64_IMAGE_MAGIC: u32 = 0x644d_5241;

/// Offset of the magic number in the ARM64 Image header.
pub const ARM64_IMAGE_MAGIC_OFFSET: usize = 0x38;

/// Offset of `text_offset` in the ARM64 Image header.
pub const ARM64_IMAGE_TEXT_OFFSET_OFF: usize = 0x08;

/// Size of the ARM64 Image header.
pub const ARM64_IMAGE_HEADER_SIZE: usize = 64;

/// Phandle of the interrupt controller node.
pub const GIC_PHANDLE: u32 = 1;

/// Interrupt type: PPI (Private Peripheral Interrupt).
pub const GIC_FDT_IRQ_TYPE_PPI: u32 = 1;

/// Interrupt type: SPI (Shared Peripheral Interrupt).
pub const GIC_FDT_IRQ_TYPE_SPI: u32 = 0;

/// Interrupt trigger: level-sensitive, active-high.
pub const IRQ_TYPE_LEVEL_HI: u32 = 4;

/// Phandle of the fixed clock node.
pub const CLOCK_PHANDLE: u32 = 2;

/// PL011 UART MMIO base address.
pub const UART_BASE: u64 = 0x0900_0000;

/// PL011 UART MMIO region size.
pub const UART_SIZE: u64 = 0x1000;

/// Interrupt of the PL011 UART.
pub const UART_GSI: u32 = 4;

/// Frequency of the fixed clock of the PL011 UART.
pub const UART_CLOCK_FREQ: u32 = 24_000_000;

/// Where an `aarch64` vCPU starts.
#[derive(Debug, Clone, Copy, PartialEq, Eq, Structural)]
#[non_exhaustive]
pub struct BootConfig {
    /// Kernel entry point address (set as PC on the boot CPU).
    pub entry_point: u64,
    /// Address of the device tree blob (set as X0 on the boot CPU).
    pub fdt_addr: u64,
}

/// Where the GIC's shared interrupts start.
pub const SPI_BASE: u32 = 32;

/// A virtio-mmio device of the device tree.
#[derive(Debug, Clone, Copy, PartialEq, Eq, Structural)]
#[non_exhaustive]
pub struct FdtMmioDevice {
    /// Guest physical base address of the MMIO region.
    pub base_addr: u64,
    /// Size of the MMIO region in bytes.
    pub size: u64,
    /// Interrupt of the device, which the tree gives as SPI `gsi + 32`.
    pub gsi: u32,
}

impl FdtMmioDevice {
    /// A virtio-mmio device.
    #[must_use]
    pub fn new(base_addr: u64, size: u64, gsi: u32) -> (r: Self)
        ensures
            r == (FdtMmioDevice { base_addr, size, gsi }),
    {
        FdtMmioDevice { base_addr, size, gsi }
    }
}

/// The virtual hardware that the device tree describes.
#[derive(Debug, Clone, Copy)]
pub struct FdtConfig<'a> {
    /// Guest RAM size in bytes.
    pub memory_size: u64,
    /// Number of virtual CPUs.
    pub num_cpus: u32,
    /// Kernel command line.
    pub cmdline: &'a str,
    /// GIC distributor MMIO base address.
    pub gic_dist_addr: u64,
    /// GIC distributor MMIO region size.
    pub gic_dist_size: u64,
    /// GIC redistributor MMIO base address.
    pub gic_redist_addr: u64,
    /// GIC redistributor MMIO region size.
    pub gic_redist_size: u64,
    /// The virtio-mmio devices.
    pub mmio_devices: &'a [FdtMmioDevice],
}

/// A short text without a NUL.
pub open spec fn plain_text(s: Seq<char>) -> bool {
    s.len() <= 32 && !fdt::has_nul(s)
}

/// Whether a text can be the value of a property.
pub open spec fn sound_text(s: Seq<char>) -> bool {
    !fdt::has_nul(s) && fdt::text_value(s).len() <= u32::MAX
}

/// A character takes at most four bytes.
proof fn lemma_encoded_len(s: Seq<char>)
    ensures
        vstd::utf8::encode_utf8(s).len() <= 4 * s.len(),
    decreases s.len(),
{
    if s.len() > 0 {
        lemma_encoded_len(s.drop_first());
    }
}

/// A plain text can be the value of a property.
proof fn lemma_lengths()
    ensures
        forall|s: Seq<char>| #[trigger] plain_text(s) ==> sound_text(s),
{
    assert forall|s: Seq<char>| #[trigger] plain_text(s) implies sound_text(s) by {
        lemma_encoded_len(s);
    }
}

/// The names of the tree's properties can be such.
proof fn lemma_property_names()
    ensures
        fdt::property_name_ok("compatible"@),
        fdt::property_name_ok("#address-cells"@),
        fdt::property_name_ok("#size-cells"@),
        fdt::property_name_ok("interrupt-parent"@),
        fdt::property_name_ok("device_type"@),
        fdt::property_name_ok("enable-method"@),
        fdt::property_name_ok("reg"@),
        fdt::property_name_ok("bootargs"@),
        fdt::property_name_ok("stdout-path"@),
        fdt::property_name_ok("interrupt-controller"@),
        fdt::property_name_ok("#interrupt-cells"@),
{
    reveal_strlit("compatible");
    assert("compatible"@ =~= seq!['c', 'o', 'm', 'p', 'a', 't', 'i', 'b', 'l', 'e']);
    reveal_strlit("#address-cells");
    assert("#address-cells"@ =~= seq!['#', 'a', 'd', 'd', 'r', 'e', 's', 's', '-', 'c', 'e', 'l', 'l', 's']);
    reveal_strlit("#size-cells");
    assert("#size-cells"@ =~= seq!['#', 's', 'i', 'z', 'e', '-', 'c', 'e', 'l', 'l', 's']);
    reveal_strlit("interrupt-parent");
    assert("interrupt-parent"@ =~= seq!['i', 'n', 't', 'e', 'r', 'r', 'u', 'p', 't', '-', 'p', 'a', 'r', 'e', 'n', 't']);
    reveal_strlit("device_type");
    assert("device_type"@ =~= seq!['d', 'e', 'v', 'i', 'c', 'e', '_', 't', 'y', 'p', 'e']);
    reveal_strlit("enable-method");
    assert("enable-method"@ =~= seq!['e', 'n', 'a', 'b', 'l', 'e', '-', 'm', 'e', 't', 'h', 'o', 'd']);
    reveal_strlit("reg");
    assert("reg"@ =~= seq!['r', 'e', 'g']);
    reveal_strlit("bootargs");
    assert("bootargs"@ =~= seq!['b', 'o', 'o', 't', 'a', 'r', 'g', 's']);
    reveal_strlit("stdout-path");
    assert("stdout-path"@ =~= seq!['s', 't', 'd', 'o', 'u', 't', '-', 'p', 'a', 't', 'h']);
    reveal_strlit("interrupt-controller");
    assert("interrupt-controller"@ =~= seq!['i', 'n', 't', 'e', 'r', 'r', 'u', 'p', 't', '-', 'c', 'o', 'n', 't', 'r', 'o', 'l', 'l', 'e', 'r']);
    reveal_strlit("#interrupt-cells");
    assert("#interrupt-cells"@ =~= seq!['#', 'i', 'n', 't', 'e', 'r', 'r', 'u', 'p', 't', '-', 'c', 'e', 'l', 'l', 's']);
}

/// The names of the tree's other properties can be such.
proof fn lemma_more_property_names()
    ensures
        fdt::property_name_ok("phandle"@),
        fdt::property_name_ok("always-on"@),
        fdt::property_name_ok("interrupts"@),
        fdt::property_name_ok("method"@),
        fdt::property_name_ok("dma-coherent"@),
        fdt::property_name_ok("#clock-cells"@),
        fdt::property_name_ok("clock-frequency"@),
        fdt::property_name_ok("clock-output-names"@),
        fdt::property_name_ok("clocks"@),
        fdt::property_name_ok("clock-names"@),
{
    reveal_strlit("phandle");
    assert("phandle"@ =~= seq!['p', 'h', 'a', 'n', 'd', 'l', 'e']);
    reveal_strlit("always-on");
    assert("always-on"@ =~= seq!['a', 'l', 'w', 'a', 'y', 's', '-', 'o', 'n']);
    reveal_strlit("interrupts");
    assert("interrupts"@ =~= seq!['i', 'n', 't', 'e', 'r', 'r', 'u', 'p', 't', 's']);
    reveal_strlit("method");
    assert("method"@ =~= seq!['m', 'e', 't', 'h', 'o', 'd']);
    reveal_strlit("dma-coherent");
    assert("dma-coherent"@ =~= seq!['d', 'm', 'a', '-', 'c', 'o', 'h', 'e', 'r', 'e', 'n', 't']);
    reveal_strlit("#clock-cells");
    assert("#clock-cells"@ =~= seq!['#', 'c', 'l', 'o', 'c', 'k', '-', 'c', 'e', 'l', 'l', 's']);
    reveal_strlit("clock-frequency");
    assert("clock-frequency"@ =~= seq!['c', 'l', 'o', 'c', 'k', '-', 'f', 'r', 'e', 'q', 'u', 'e', 'n', 'c', 'y']);
    reveal_strlit("clock-output-names");
    assert("clock-output-names"@ =~= seq!['c', 'l', 'o', 'c', 'k', '-', 'o', 'u', 't', 'p', 'u', 't', '-', 'n', 'a', 'm', 'e', 's']);
    reveal_strlit("clocks");
    assert("clocks"@ =~= seq!['c', 'l', 'o', 'c', 'k', 's']);
    reveal_strlit("clock-names");
    assert("clock-names"@ =~= seq!['c', 'l', 'o', 'c', 'k', '-', 'n', 'a', 'm', 'e', 's']);
}

/// The fixed names of the tree's nodes can be such.
proof fn lemma_node_names()
    ensures
        fdt::node_name_ok("cpus"@),
        fdt::node_name_ok("memory@80000000"@),
        fdt::node_name_ok("chosen"@),
        fdt::node_name_ok("timer"@),
        fdt::node_name_ok("psci"@),
        fdt::node_name_ok("apb-pclk"@),
        fdt::node_name_ok("pl011@9000000"@),
{
    reveal_strlit("cpus");
    assert("cpus"@ =~= seq!['c', 'p', 'u', 's']);
    reveal_strlit("memory@80000000");
    assert("memory@80000000"@ =~= seq!['m', 'e', 'm', 'o', 'r', 'y', '@', '8', '0', '0', '0', '0', '0', '0', '0']);
    reveal_strlit("chosen");
    assert("chosen"@ =~= seq!['c', 'h', 'o', 's', 'e', 'n']);
    reveal_strlit("timer");
    assert("timer"@ =~= seq!['t', 'i', 'm', 'e', 'r']);
    reveal_strlit("psci");
    assert("psci"@ =~= seq!['p', 's', 'c', 'i']);
    reveal_strlit("apb-pclk");
    assert("apb-pclk"@ =~= seq!['a', 'p', 'b', '-', 'p', 'c', 'l', 'k']);
    reveal_strlit("pl011@9000000");
    assert("pl011@9000000"@ =~= seq!['p', 'l', '0', '1', '1', '@', '9', '0', '0', '0', '0', '0', '0']);
}

/// The texts of the tree's properties are plain.
proof fn lemma_texts()
    ensures
        plain_text("linux,dummy-virt"@),
        plain_text("cpu"@),
        plain_text("arm,arm-v8"@),
        plain_text("psci"@),
        plain_text("memory"@),
        plain_text("/pl011@9000000"@),
        plain_text("arm,gic-v3"@),
        plain_text("arm,armv8-timer"@),
        plain_text("hvc"@),
{
    reveal_strlit("linux,dummy-virt");
    assert("linux,dummy-virt"@ =~= seq!['l', 'i', 'n', 'u', 'x', ',', 'd', 'u', 'm', 'm', 'y', '-', 'v', 'i', 'r', 't']);
    reveal_strlit("cpu");
    assert("cpu"@ =~= seq!['c', 'p', 'u']);
    reveal_strlit("arm,arm-v8");
    assert("arm,arm-v8"@ =~= seq!['a', 'r', 'm', ',', 'a', 'r', 'm', '-', 'v', '8']);
    reveal_strlit("psci");
    assert("psci"@ =~= seq!['p', 's', 'c', 'i']);
    reveal_strlit("memory");
    assert("memory"@ =~= seq!['m', 'e', 'm', 'o', 'r', 'y']);
    reveal_strlit("/pl011@9000000");
    assert("/pl011@9000000"@ =~= seq!['/', 'p', 'l', '0', '1', '1', '@', '9', '0', '0', '0', '0', '0', '0']);
    reveal_strlit("arm,gic-v3");
    assert("arm,gic-v3"@ =~= seq!['a', 'r', 'm', ',', 'g', 'i', 'c', '-', 'v', '3']);
    reveal_strlit("arm,armv8-timer");
    assert("arm,armv8-timer"@ =~= seq!['a', 'r', 'm', ',', 'a', 'r', 'm', 'v', '8', '-', 't', 'i', 'm', 'e', 'r']);
    reveal_strlit("hvc");
    assert("hvc"@ =~= seq!['h', 'v', 'c']);
}

/// The other texts of the tree's properties are plain.
proof fn lemma_more_texts()
    ensures
        plain_text("virtio,mmio"@),
        plain_text("fixed-clock"@),
        plain_text("clk24mhz"@),
        plain_text("arm,psci-1.0"@),
        plain_text("arm,psci-0.2"@),
        plain_text("arm,pl011"@),
        plain_text("arm,primecell"@),
        plain_text("uartclk"@),
        plain_text("apb_pclk"@),
{
    reveal_strlit("virtio,mmio");
    assert("virtio,mmio"@ =~= seq!['v', 'i', 'r', 't', 'i', 'o', ',', 'm', 'm', 'i', 'o']);
    reveal_strlit("fixed-clock");
    assert("fixed-clock"@ =~= seq!['f', 'i', 'x', 'e', 'd', '-', 'c', 'l', 'o', 'c', 'k']);
    reveal_strlit("clk24mhz");
    assert("clk24mhz"@ =~= seq!['c', 'l', 'k', '2', '4', 'm', 'h', 'z']);
    reveal_strlit("arm,psci-1.0");
    assert("arm,psci-1.0"@ =~= seq!['a', 'r', 'm', ',', 'p', 's', 'c', 'i', '-', '1', '.', '0']);
    reveal_strlit("arm,psci-0.2");
    assert("arm,psci-0.2"@ =~= seq!['a', 'r', 'm', ',', 'p', 's', 'c', 'i', '-', '0', '.', '2']);
    reveal_strlit("arm,pl011");
    assert("arm,pl011"@ =~= seq!['a', 'r', 'm', ',', 'p', 'l', '0', '1', '1']);
    reveal_strlit("arm,primecell");
    assert("arm,primecell"@ =~= seq!['a', 'r', 'm', ',', 'p', 'r', 'i', 'm', 'e', 'c', 'e', 'l', 'l']);
    reveal_strlit("uartclk");
    assert("uartclk"@ =~= seq!['u', 'a', 'r', 't', 'c', 'l', 'k']);
    reveal_strlit("apb_pclk");
    assert("apb_pclk"@ =~= seq!['a', 'p', 'b', '_', 'p', 'c', 'l', 'k']);
}

/// The name of a CPU's node.
fn cpu_name(i: u32) -> (r: String)
    ensures
        r@ == "cpu@"@ + text::decimal(i as nat),
{
    let mut s = "cpu@".to_owned();
    text::push_decimal(&mut s, i as u64);
    s
}

/// The name of a node with a unit address.
fn unit_name(head: &str, addr: u64) -> (r: String)
    ensures
        r@ == head@ + text::hex(addr as nat),
{
    let mut s = head.to_owned();
    text::push_hex(&mut s, addr);
    s
}

/// Appends a property of two plain texts.
fn push_texts(ops: &mut Vec<FdtOp>, name: &'static str, first: &str, second: &str)
    requires
        plain_text(first@),
        plain_text(second@),
    ensures
        fdt::op_items(final(ops)@) == fdt::op_items(old(ops)@).push(
            FdtItem::Prop(name@, fdt::text_value(first@) + fdt::text_value(second@)),
        ),
        fdt::all_clean(final(ops)@) <==> fdt::all_clean(old(ops)@),
{
    let mut v: Vec<String> = Vec::new();
    v.push(first.to_owned());
    v.push(second.to_owned());
    proof {
        lemma_encoded_len(first@);
        lemma_encoded_len(second@);
        reveal_with_fuel(fdt::texts_value, 3);
        assert(v@.drop_last().drop_last() =~= Seq::<String>::empty());
        assert(fdt::texts_value(v@) =~= fdt::text_value(first@) + fdt::text_value(second@));
    }
    fdt::push_op(ops, FdtOp::Texts(name, v));
}

/// The value of integers has four bytes for each.
proof fn lemma_cells_len(v: Seq<u32>)
    ensures
        fdt::cells_value(v).len() == 4 * v.len(),
    decreases v.len(),
{
    if v.len() > 0 {
        lemma_cells_len(v.drop_last());
    }
}

/// The value of wide integers has eight bytes for each.
proof fn lemma_wide_cells_len(v: Seq<u64>)
    ensures
        fdt::wide_cells_value(v).len() == 8 * v.len(),
    decreases v.len(),
{
    if v.len() > 0 {
        lemma_wide_cells_len(v.drop_last());
    }
}

/// Appends a property of a few integers.
fn push_cells(ops: &mut Vec<FdtOp>, name: &'static str, v: Vec<u32>)
    requires
        v@.len() <= 12,
    ensures
        fdt::op_items(final(ops)@) == fdt::op_items(old(ops)@).push(
            FdtItem::Prop(name@, fdt::cells_value(v@)),
        ),
        fdt::all_clean(final(ops)@) <==> fdt::all_clean(old(ops)@),
{
    proof {
        lemma_cells_len(v@);
    }
    fdt::push_op(ops, FdtOp::Cells(name, v));
}

/// Appends a property of a few wide integers.
fn push_wide_cells(ops: &mut Vec<FdtOp>, name: &'static str, v: Vec<u64>)
    requires
        v@.len() <= 12,
    ensures
        fdt::op_items(final(ops)@) == fdt::op_items(old(ops)@).push(
            FdtItem::Prop(name@, fdt::wide_cells_value(v@)),
        ),
        fdt::all_clean(final(ops)@) <==> fdt::all_clean(old(ops)@),
{
    proof {
        lemma_wide_cells_len(v@);
    }
    fdt::push_op(ops, FdtOp::WideCells(name, v));
}

/// The node of a CPU.
#[verifier::opaque]
pub open spec fn cpu_node_items(i: u32) -> Seq<FdtItem> {
    seq![
        FdtItem::Begin("cpu@"@ + text::decimal(i as nat)),
        FdtItem::Prop("device_type"@, fdt::text_value("cpu"@)),
        FdtItem::Prop("compatible"@, fdt::text_value("arm,arm-v8"@)),
        FdtItem::Prop("enable-method"@, fdt::text_value("psci"@)),
        FdtItem::Prop("reg"@, bytes::be64_bytes(i as u64)),
        FdtItem::End,
    ]
}

/// Describes a CPU.
fn create_cpu_node(ops: &mut Vec<FdtOp>, i: u32)
    ensures
        fdt::op_items(final(ops)@) == fdt::op_items(old(ops)@) + cpu_node_items(i),
        fdt::all_clean(final(ops)@) <==> fdt::all_clean(old(ops)@),
{
    proof {
        lemma_texts();
        lemma_lengths();
    }
    let ghost before = fdt::op_items(ops@);
    reveal(cpu_node_items);
    let ghost items = cpu_node_items(i);
    fdt::push_op(ops, FdtOp::Begin(cpu_name(i)));
    fdt::push_op(ops, FdtOp::Text("device_type", "cpu".to_owned()));
    fdt::push_op(ops, FdtOp::Text("compatible", "arm,arm-v8".to_owned()));
    fdt::push_op(ops, FdtOp::Text("enable-method", "psci".to_owned()));
    fdt::push_op(ops, FdtOp::WideCell("reg", i as u64));
    fdt::push_op(ops, FdtOp::End);
    assert(fdt::op_items(ops@) =~= before + items);
}

/// The node of guest memory.
#[verifier::opaque]
pub open spec fn memory_node_items(memory_size: u64) -> Seq<FdtItem> {
    seq![
        FdtItem::Begin("memory@80000000"@),
        FdtItem::Prop("device_type"@, fdt::text_value("memory"@)),
        FdtItem::Prop("reg"@, fdt::wide_cells_value(seq![DRAM_MEM_START, memory_size])),
        FdtItem::End,
    ]
}

/// Describes guest memory.
fn create_memory_node(ops: &mut Vec<FdtOp>, memory_size: u64)
    ensures
        fdt::op_items(final(ops)@) == fdt::op_items(old(ops)@) + memory_node_items(memory_size),
        fdt::all_clean(final(ops)@) <==> fdt::all_clean(old(ops)@),
{
    proof {
        lemma_texts();
        lemma_lengths();
    }
    let ghost before = fdt::op_items(ops@);
    reveal(memory_node_items);
    let ghost items = memory_node_items(memory_size);
    fdt::push_op(ops, FdtOp::Begin("memory@80000000".to_owned()));
    fdt::push_op(ops, FdtOp::Text("device_type", "memory".to_owned()));
    let cells: Vec<u64> = vec![DRAM_MEM_START, memory_size];
    assert(cells@ =~= seq![DRAM_MEM_START, memory_size]);
    push_wide_cells(ops, "reg", cells);
    fdt::push_op(ops, FdtOp::End);
    assert(fdt::op_items(ops@) =~= before + items);
}

/// The node with the command line and the console.
#[verifier::opaque]
pub open spec fn chosen_node_items(cmdline: Seq<char>) -> Seq<FdtItem> {
    seq![
        FdtItem::Begin("chosen"@),
        FdtItem::Prop("bootargs"@, fdt::text_value(cmdline)),
        FdtItem::Prop("stdout-path"@, fdt::text_value("/pl011@9000000"@)),
        FdtItem::End,
    ]
}

/// Gives the command line and the console.
fn create_chosen_node(ops: &mut Vec<FdtOp>, cmdline: &str)
    ensures
        fdt::op_items(final(ops)@) == fdt::op_items(old(ops)@) + chosen_node_items(cmdline@),
        fdt::all_clean(final(ops)@) <==> fdt::all_clean(old(ops)@) && sound_text(cmdline@),
{
    proof {
        lemma_texts();
        lemma_lengths();
    }
    let ghost before = fdt::op_items(ops@);
    reveal(chosen_node_items);
    let ghost items = chosen_node_items(cmdline@);
    fdt::push_op(ops, FdtOp::Begin("chosen".to_owned()));
    fdt::push_op(ops, FdtOp::Text("bootargs", cmdline.to_owned()));
    fdt::push_op(ops, FdtOp::Text("stdout-path", "/pl011@9000000".to_owned()));
    fdt::push_op(ops, FdtOp::End);
    assert(fdt::op_items(ops@) =~= before + items);
}

/// The node of the `GICv3` interrupt controller.
#[verifier::opaque]
pub open spec fn gic_node_items(
    dist_addr: u64,
    dist_size: u64,
    redist_addr: u64,
    redist_size: u64,
) -> Seq<FdtItem> {
    seq![
        FdtItem::Begin("intc@"@ + text::hex(dist_addr as nat)),
        FdtItem::Prop("compatible"@, fdt::text_value("arm,gic-v3"@)),
        FdtItem::Prop("interrupt-controller"@, Seq::empty()),
        FdtItem::Prop("#interrupt-cells"@, bytes::be32_bytes(3)),
        FdtItem::Prop("reg"@, fdt::wide_cells_value(seq![dist_addr, dist_size, redist_addr, redist_size])),
        FdtItem::Prop("phandle"@, bytes::be32_bytes(GIC_PHANDLE)),
        FdtItem::End,
    ]
}

/// Describes the `GICv3` interrupt controller.
fn create_gic_node(ops: &mut Vec<FdtOp>, dist_addr: u64, dist_size: u64, redist_addr: u64, redist_size: u64)
    ensures
        fdt::op_items(final(ops)@) == fdt::op_items(old(ops)@) + gic_node_items(
            dist_addr,
            dist_size,
            redist_addr,
            redist_size,
        ),
        fdt::all_clean(final(ops)@) <==> fdt::all_clean(old(ops)@),
{
    proof {
        lemma_texts();
        lemma_lengths();
    }
    let ghost before = fdt::op_items(ops@);
    reveal(gic_node_items);
    let ghost items = gic_node_items(dist_addr, dist_size, redist_addr, redist_size);
    fdt::push_op(ops, FdtOp::Begin(unit_name("intc@", dist_addr)));
    fdt::push_op(ops, FdtOp::Text("compatible", "arm,gic-v3".to_owned()));
    fdt::push_op(ops, FdtOp::Null("interrupt-controller"));
    fdt::push_op(ops, FdtOp::Cell("#interrupt-cells", 3));
    let cells: Vec<u64> = vec![dist_addr, dist_size, redist_addr, redist_size];
    assert(cells@ =~= seq![dist_addr, dist_size, redist_addr, redist_size]);
    push_wide_cells(ops, "reg", cells);
    fdt::push_op(ops, FdtOp::Cell("phandle", GIC_PHANDLE));
    fdt::push_op(ops, FdtOp::End);
    assert(fdt::op_items(ops@) =~= before + items);
}

/// The interrupts of the timer, each as kind, number and trigger.
pub open spec fn timer_cells() -> Seq<u32> {
    seq![
        GIC_FDT_IRQ_TYPE_PPI,
        13,
        IRQ_TYPE_LEVEL_HI,
        GIC_FDT_IRQ_TYPE_PPI,
        14,
        IRQ_TYPE_LEVEL_HI,
        GIC_FDT_IRQ_TYPE_PPI,
        11,
        IRQ_TYPE_LEVEL_HI,
        GIC_FDT_IRQ_TYPE_PPI,
        10,
        IRQ_TYPE_LEVEL_HI,
    ]
}

/// The node of the timer: its secure, non-secure, virtual and hypervisor
/// interrupts.
#[verifier::opaque]
pub open spec fn timer_node_items() -> Seq<FdtItem> {
    seq![
        FdtItem::Begin("timer"@),
        FdtItem::Prop("compatible"@, fdt::text_value("arm,armv8-timer"@)),
        FdtItem::Prop("always-on"@, Seq::empty()),
        FdtItem::Prop("interrupts"@, fdt::cells_value(timer_cells())),
        FdtItem::End,
    ]
}

/// Describes the timer.
fn create_timer_node(ops: &mut Vec<FdtOp>)
    ensures
        fdt::op_items(final(ops)@) == fdt::op_items(old(ops)@) + timer_node_items(),
        fdt::all_clean(final(ops)@) <==> fdt::all_clean(old(ops)@),
{
    proof {
        lemma_texts();
        lemma_lengths();
    }
    let ghost before = fdt::op_items(ops@);
    reveal(timer_node_items);
    let ghost items = timer_node_items();
    fdt::push_op(ops, FdtOp::Begin("timer".to_owned()));
    fdt::push_op(ops, FdtOp::Text("compatible", "arm,armv8-timer".to_owned()));
    fdt::push_op(ops, FdtOp::Null("always-on"));
    let cells: Vec<u32> = vec![
        GIC_FDT_IRQ_TYPE_PPI,
        13,
        IRQ_TYPE_LEVEL_HI,
        GIC_FDT_IRQ_TYPE_PPI,
        14,
        IRQ_TYPE_LEVEL_HI,
        GIC_FDT_IRQ_TYPE_PPI,
        11,
        IRQ_TYPE_LEVEL_HI,
        GIC_FDT_IRQ_TYPE_PPI,
        10,
        IRQ_TYPE_LEVEL_HI,
    ];
    assert(cells@ =~= timer_cells());
    push_cells(ops, "interrupts", cells);
    fdt::push_op(ops, FdtOp::End);
    assert(fdt::op_items(ops@) =~= before + items);
}

/// The node of PSCI, version 1.0 with 0.2 to fall back on.
#[verifier::opaque]
pub open spec fn psci_node_items() -> Seq<FdtItem> {
    seq![
        FdtItem::Begin("psci"@),
        FdtItem::Prop("compatible"@, fdt::text_value("arm,psci-1.0"@) + fdt::text_value("arm,psci-0.2"@)),
        FdtItem::Prop("method"@, fdt::text_value("hvc"@)),
        FdtItem::End,
    ]
}

/// Describes PSCI.
fn create_psci_node(ops: &mut Vec<FdtOp>)
    ensures
        fdt::op_items(final(ops)@) == fdt::op_items(old(ops)@) + psci_node_items(),
        fdt::all_clean(final(ops)@) <==> fdt::all_clean(old(ops)@),
{
    proof {
        lemma_texts();
        lemma_more_texts();
        lemma_lengths();
    }
    let ghost before = fdt::op_items(ops@);
    reveal(psci_node_items);
    let ghost items = psci_node_items();
    fdt::push_op(ops, FdtOp::Begin("psci".to_owned()));
    push_texts(ops, "compatible", "arm,psci-1.0", "arm,psci-0.2");
    fdt::push_op(ops, FdtOp::Text("method", "hvc".to_owned()));
    fdt::push_op(ops, FdtOp::End);
    assert(fdt::op_items(ops@) =~= before + items);
}

/// The SPI that a GSI is mapped to.
pub open spec fn spi_of(gsi: u32) -> u32 {
    if gsi + SPI_BASE <= u32::MAX {
        (gsi + SPI_BASE) as u32
    } else {
        u32::MAX
    }
}

/// The node of a virtio-mmio device.
#[verifier::opaque]
pub open spec fn virtio_mmio_node_items(dev: FdtMmioDevice) -> Seq<FdtItem> {
    seq![
        FdtItem::Begin("virtio_mmio@"@ + text::hex(dev.base_addr as nat)),
        FdtItem::Prop("compatible"@, fdt::text_value("virtio,mmio"@)),
        FdtItem::Prop("dma-coherent"@, Seq::empty()),
        FdtItem::Prop("reg"@, fdt::wide_cells_value(seq![dev.base_addr, dev.size])),
        FdtItem::Prop(
            "interrupts"@,
            fdt::cells_value(seq![GIC_FDT_IRQ_TYPE_SPI, spi_of(dev.gsi), IRQ_TYPE_LEVEL_HI]),
        ),
        FdtItem::Prop("interrupt-parent"@, bytes::be32_bytes(GIC_PHANDLE)),
        FdtItem::End,
    ]
}

/// Describes a virtio-mmio device.
fn create_virtio_mmio_node(ops: &mut Vec<FdtOp>, dev: FdtMmioDevice)
    ensures
        fdt::op_items(final(ops)@) == fdt::op_items(old(ops)@) + virtio_mmio_node_items(dev),
        fdt::all_clean(final(ops)@) <==> fdt::all_clean(old(ops)@),
{
    proof {
        lemma_more_texts();
        lemma_lengths();
    }
    let ghost before = fdt::op_items(ops@);
    reveal(virtio_mmio_node_items);
    let ghost items = virtio_mmio_node_items(dev);
    fdt::push_op(ops, FdtOp::Begin(unit_name("virtio_mmio@", dev.base_addr)));
    fdt::push_op(ops, FdtOp::Text("compatible", "virtio,mmio".to_owned()));
    fdt::push_op(ops, FdtOp::Null("dma-coherent"));
    let cells: Vec<u64> = vec![dev.base_addr, dev.size];
    assert(cells@ =~= seq![dev.base_addr, dev.size]);
    push_wide_cells(ops, "reg", cells);
    let cells: Vec<u32> = vec![
        GIC_FDT_IRQ_TYPE_SPI,
        dev.gsi.saturating_add(SPI_BASE),
        IRQ_TYPE_LEVEL_HI,
    ];
    assert(cells@ =~= seq![GIC_FDT_IRQ_TYPE_SPI, spi_of(dev.gsi), IRQ_TYPE_LEVEL_HI]);
    push_cells(ops, "interrupts", cells);
    fdt::push_op(ops, FdtOp::Cell("interrupt-parent", GIC_PHANDLE));
    fdt::push_op(ops, FdtOp::End);
    assert(fdt::op_items(ops@) =~= before + items);
}

/// The node of the fixed clock of the UART.
#[verifier::opaque]
pub open spec fn clock_node_items() -> Seq<FdtItem> {
    seq![
        FdtItem::Begin("apb-pclk"@),
        FdtItem::Prop("compatible"@, fdt::text_value("fixed-clock"@)),
        FdtItem::Prop("#clock-cells"@, bytes::be32_bytes(0)),
        FdtItem::Prop("clock-frequency"@, bytes::be32_bytes(UART_CLOCK_FREQ)),
        FdtItem::Prop("clock-output-names"@, fdt::text_value("clk24mhz"@)),
        FdtItem::Prop("phandle"@, bytes::be32_bytes(CLOCK_PHANDLE)),
        FdtItem::End,
    ]
}

/// Describes the fixed clock of the UART.
fn create_clock_node(ops: &mut Vec<FdtOp>)
    ensures
        fdt::op_items(final(ops)@) == fdt::op_items(old(ops)@) + clock_node_items(),
        fdt::all_clean(final(ops)@) <==> fdt::all_clean(old(ops)@),
{
    proof {
        lemma_more_texts();
        lemma_lengths();
    }
    let ghost before = fdt::op_items(ops@);
    reveal(clock_node_items);
    let ghost items = clock_node_items();
    fdt::push_op(ops, FdtOp::Begin("apb-pclk".to_owned()));
    fdt::push_op(ops, FdtOp::Text("compatible", "fixed-clock".to_owned()));
    fdt::push_op(ops, FdtOp::Cell("#clock-cells", 0));
    fdt::push_op(ops, FdtOp::Cell("clock-frequency", UART_CLOCK_FREQ));
    fdt::push_op(ops, FdtOp::Text("clock-output-names", "clk24mhz".to_owned()));
    fdt::push_op(ops, FdtOp::Cell("phandle", CLOCK_PHANDLE));
    fdt::push_op(ops, FdtOp::End);
    assert(fdt::op_items(ops@) =~= before + items);
}

/// The node of the PL011 UART.
#[verifier::opaque]
pub open spec fn uart_node_items() -> Seq<FdtItem> {
    seq![
        FdtItem::Begin("pl011@9000000"@),
        FdtItem::Prop("compatible"@, fdt::text_value("arm,pl011"@) + fdt::text_value("arm,primecell"@)),
        FdtItem::Prop("reg"@, fdt::wide_cells_value(seq![UART_BASE, UART_SIZE])),
        FdtItem::Prop(
            "interrupts"@,
            fdt::cells_value(seq![GIC_FDT_IRQ_TYPE_SPI, UART_GSI, IRQ_TYPE_LEVEL_HI]),
        ),
        FdtItem::Prop("clocks"@, fdt::cells_value(seq![CLOCK_PHANDLE, CLOCK_PHANDLE])),
        FdtItem::Prop("clock-names"@, fdt::text_value("uartclk"@) + fdt::text_value("apb_pclk"@)),
        FdtItem::End,
    ]
}

/// Describes the PL011 UART.
fn create_uart_node(ops: &mut Vec<FdtOp>)
    ensures
        fdt::op_items(final(ops)@) == fdt::op_items(old(ops)@) + uart_node_items(),
        fdt::all_clean(final(ops)@) <==> fdt::all_clean(old(ops)@),
{
    proof {
        lemma_more_texts();
    }
    let ghost before = fdt::op_items(ops@);
    reveal(uart_node_items);
    let ghost items = uart_node_items();
    fdt::push_op(ops, FdtOp::Begin("pl011@9000000".to_owned()));
    push_texts(ops, "compatible", "arm,pl011", "arm,primecell");
    let cells: Vec<u64> = vec![UART_BASE, UART_SIZE];
    assert(cells@ =~= seq![UART_BASE, UART_SIZE]);
    push_wide_cells(ops, "reg", cells);
    let cells: Vec<u32> = vec![GIC_FDT_IRQ_TYPE_SPI, UART_GSI, IRQ_TYPE_LEVEL_HI];
    assert(cells@ =~= seq![GIC_FDT_IRQ_TYPE_SPI, UART_GSI, IRQ_TYPE_LEVEL_HI]);
    push_cells(ops, "interrupts", cells);
    let cells: Vec<u32> = vec![CLOCK_PHANDLE, CLOCK_PHANDLE];
    assert(cells@ =~= seq![CLOCK_PHANDLE, CLOCK_PHANDLE]);
    push_cells(ops, "clocks", cells);
    push_texts(ops, "clock-names", "uartclk", "apb_pclk");
    fdt::push_op(ops, FdtOp::End);
    assert(fdt::op_items(ops@) =~= before + items);
}

/// The nodes of the first `n` CPUs.
pub open spec fn cpu_nodes(n: nat) -> Seq<FdtItem>
    decreases n,
{
    if n == 0 {
        Seq::empty()
    } else {
        cpu_nodes((n - 1) as nat) + cpu_node_items((n - 1) as u32)
    }
}

/// The node of the CPUs.
#[verifier::opaque]
pub open spec fn cpus_items(n: u32) -> Seq<FdtItem> {
    seq![
        FdtItem::Begin("cpus"@),
        FdtItem::Prop("#address-cells"@, bytes::be32_bytes(2)),
        FdtItem::Prop("#size-cells"@, bytes::be32_bytes(0)),
    ] + cpu_nodes(n as nat) + seq![FdtItem::End]
}

/// Describes the CPUs.
fn create_cpu_nodes(ops: &mut Vec<FdtOp>, num_cpus: u32)
    ensures
        fdt::op_items(final(ops)@) == fdt::op_items(old(ops)@) + cpus_items(num_cpus),
        fdt::all_clean(final(ops)@) <==> fdt::all_clean(old(ops)@),
{
    let ghost before = fdt::op_items(ops@);
    fdt::push_op(ops, FdtOp::Begin("cpus".to_owned()));
    fdt::push_op(ops, FdtOp::Cell("#address-cells", 2));
    fdt::push_op(ops, FdtOp::Cell("#size-cells", 0));
    let ghost head = fdt::op_items(ops@);
    assert(head + cpu_nodes(0) =~= head);
    let mut i: u32 = 0;
    while i < num_cpus
        invariant
            i <= num_cpus,
            fdt::op_items(ops@) == head + cpu_nodes(i as nat),
            fdt::all_clean(ops@) <==> fdt::all_clean(old(ops)@),
        decreases num_cpus - i,
    {
        create_cpu_node(ops, i);
        assert(head + cpu_nodes(i as nat) + cpu_node_items(i) =~= head + (cpu_nodes(i as nat)
            + cpu_node_items(i)));
        i = i + 1;
    }
    fdt::push_op(ops, FdtOp::End);
    reveal(cpus_items);
    assert(fdt::op_items(ops@) =~= before + cpus_items(num_cpus));
}

/// The nodes of virtio-mmio devices.
pub open spec fn virtio_mmio_nodes(devices: Seq<FdtMmioDevice>) -> Seq<FdtItem>
    decreases devices.len(),
{
    if devices.len() == 0 {
        Seq::empty()
    } else {
        virtio_mmio_nodes(devices.drop_last()) + virtio_mmio_node_items(devices.last())
    }
}

/// Describes virtio-mmio devices.
fn create_virtio_mmio_nodes(ops: &mut Vec<FdtOp>, devices: &[FdtMmioDevice])
    ensures
        fdt::op_items(final(ops)@) == fdt::op_items(old(ops)@) + virtio_mmio_nodes(devices@),
        fdt::all_clean(final(ops)@) <==> fdt::all_clean(old(ops)@),
{
    let ghost before = fdt::op_items(ops@);
    assert(before + virtio_mmio_nodes(devices@.take(0)) =~= before);
    let mut i: usize = 0;
    while i < devices.len()
        invariant
            i <= devices@.len(),
            fdt::op_items(ops@) == before + virtio_mmio_nodes(devices@.take(i as int)),
            fdt::all_clean(ops@) <==> fdt::all_clean(old(ops)@),
        decreases devices@.len() - i,
    {
        let ghost done = devices@.take(i as int);
        let ghost more = devices@.take(i + 1);
        create_virtio_mmio_node(ops, devices[i]);
        assert(more.drop_last() =~= done && more.last() == devices@[i as int]);
        assert(before + virtio_mmio_nodes(done) + virtio_mmio_node_items(devices@[i as int])
            =~= before + (virtio_mmio_nodes(done) + virtio_mmio_node_items(devices@[i as int])));
        i = i + 1;
    }
    assert(devices@.take(i as int) =~= devices@);
}

/// The start and the properties of the root node.
pub open spec fn root_head() -> Seq<FdtItem> {
    seq![
        FdtItem::Begin(""@),
        FdtItem::Prop("compatible"@, fdt::text_value("linux,dummy-virt"@)),
        FdtItem::Prop("#address-cells"@, bytes::be32_bytes(2)),
        FdtItem::Prop("#size-cells"@, bytes::be32_bytes(2)),
        FdtItem::Prop("interrupt-parent"@, bytes::be32_bytes(GIC_PHANDLE)),
    ]
}

/// The device tree of the virtual hardware.
pub open spec fn fdt_tree(c: FdtConfig) -> Seq<FdtItem> {
    root_head() + cpus_items(c.num_cpus) + memory_node_items(c.memory_size) + chosen_node_items(
        c.cmdline@,
    ) + gic_node_items(c.gic_dist_addr, c.gic_dist_size, c.gic_redist_addr, c.gic_redist_size)
        + timer_node_items() + psci_node_items() + virtio_mmio_nodes(c.mmio_devices@)
        + clock_node_items() + uart_node_items() + seq![FdtItem::End]
}

/// Lists the operations that write the device tree.
fn tree_ops(config: &FdtConfig) -> (ops: Vec<FdtOp>)
    ensures
        fdt::op_items(ops@) == fdt_tree(*config),
        fdt::all_clean(ops@) <==> sound_text(config.cmdline@),
{
    proof {
        lemma_texts();
        lemma_lengths();
    }
    let mut ops = fdt::no_ops();
    fdt::push_op(&mut ops, FdtOp::Begin("".to_owned()));
    fdt::push_op(&mut ops, FdtOp::Text("compatible", "linux,dummy-virt".to_owned()));
    fdt::push_op(&mut ops, FdtOp::Cell("#address-cells", 2));
    fdt::push_op(&mut ops, FdtOp::Cell("#size-cells", 2));
    fdt::push_op(&mut ops, FdtOp::Cell("interrupt-parent", GIC_PHANDLE));
    assert(fdt::op_items(ops@) =~= root_head());
    create_cpu_nodes(&mut ops, config.num_cpus);
    create_memory_node(&mut ops, config.memory_size);
    create_chosen_node(&mut ops, config.cmdline);
    create_gic_node(
        &mut ops,
        config.gic_dist_addr,
        config.gic_dist_size,
        config.gic_redist_addr,
        config.gic_redist_size,
    );
    create_timer_node(&mut ops);
    create_psci_node(&mut ops);
    create_virtio_mmio_nodes(&mut ops, config.mmio_devices);
    create_clock_node(&mut ops);
    create_uart_node(&mut ops);
    fdt::push_op(&mut ops, FdtOp::End);
    assert(fdt::op_items(ops@) =~= fdt_tree(*config));
    ops
}

/// The digits of a number are characters of node names.
proof fn lemma_decimal_chars(n: nat)
    ensures
        forall|i: int|
            0 <= i < text::decimal(n).len() ==> fdt::node_char(#[trigger] text::decimal(n)[i]),
    decreases n,
{
    let all = text::decimal(n);
    if n >= 10 {
        lemma_decimal_chars(n / 10);
        let front = text::decimal(n / 10);
        assert forall|i: int| 0 <= i < all.len() implies fdt::node_char(#[trigger] all[i]) by {
            if i < front.len() {
                assert(all[i] == front[i]);
            }
        }
    }
}

/// The hexadecimal digits of a number are characters of node names.
proof fn lemma_hex_chars(n: nat)
    ensures
        forall|i: int|
            0 <= i < text::hex(n).len() ==> fdt::node_char(#[trigger] text::hex(n)[i]),
    decreases n,
{
    let all = text::hex(n);
    if n >= 16 {
        lemma_hex_chars(n / 16);
        let front = text::hex(n / 16);
        assert forall|i: int| 0 <= i < all.len() implies fdt::node_char(#[trigger] all[i]) by {
            if i < front.len() {
                assert(all[i] == front[i]);
            }
        }
    }
}

/// A node's name that ends in `@` can be followed by a unit address.
proof fn lemma_unit_name(head: Seq<char>, digits: Seq<char>)
    requires
        fdt::node_name_ok(head),
        2 <= head.len() <= 32,
        head.last() == '@',
        forall|i: int| 0 <= i < digits.len() ==> fdt::node_char(#[trigger] digits[i]),
    ensures
        fdt::node_name_ok(head + digits),
{
    let name = head + digits;
    assert(name[head.len() - 1] == '@');
    assert forall|i: int| 0 <= i < name.len() implies fdt::node_char(#[trigger] name[i]) || name[i]
        == '@' by {
        if i >= head.len() {
            assert(name[i] == digits[i - head.len()]);
        }
    }
    assert forall|i: int, j: int| 0 <= i < j < name.len() implies !(#[trigger] name[i] == '@'
        && #[trigger] name[j] == '@') by {
        if j >= head.len() {
            assert(name[j] == digits[j - head.len()]);
        }
    }
}

/// The beginnings of names with a unit address can be names.
proof fn lemma_unit_heads()
    ensures
        fdt::node_name_ok("cpu@"@),
        2 <= "cpu@"@.len() <= 32,
        "cpu@"@.last() == '@',
        fdt::node_name_ok("intc@"@),
        2 <= "intc@"@.len() <= 32,
        "intc@"@.last() == '@',
        fdt::node_name_ok("virtio_mmio@"@),
        2 <= "virtio_mmio@"@.len() <= 32,
        "virtio_mmio@"@.last() == '@',
{
    reveal_strlit("cpu@");
    assert("cpu@"@ =~= seq!['c', 'p', 'u', '@']);
    reveal_strlit("intc@");
    assert("intc@"@ =~= seq!['i', 'n', 't', 'c', '@']);
    reveal_strlit("virtio_mmio@");
    assert("virtio_mmio@"@ =~= seq!['v', 'i', 'r', 't', 'i', 'o', '_', 'm', 'm', 'i', 'o', '@']);
}

proof fn lemma_cpu_node(i: u32)
    ensures
        fdt::leaf_node(cpu_node_items(i)),
{
    reveal(cpu_node_items);
    lemma_property_names();
    lemma_more_property_names();
    lemma_node_names();
    lemma_unit_heads();
    lemma_decimal_chars(i as nat);
    lemma_unit_name("cpu@"@, text::decimal(i as nat));
}

proof fn lemma_memory_node(memory_size: u64)
    ensures
        fdt::leaf_node(memory_node_items(memory_size)),
{
    reveal(memory_node_items);
    lemma_property_names();
    lemma_more_property_names();
    lemma_node_names();
}

proof fn lemma_chosen_node(cmdline: Seq<char>)
    ensures
        fdt::leaf_node(chosen_node_items(cmdline)),
{
    reveal(chosen_node_items);
    lemma_property_names();
    lemma_more_property_names();
    lemma_node_names();
}

proof fn lemma_gic_node(dist_addr: u64, dist_size: u64, redist_addr: u64, redist_size: u64)
    ensures
        fdt::leaf_node(gic_node_items(dist_addr, dist_size, redist_addr, redist_size)),
{
    reveal(gic_node_items);
    lemma_property_names();
    lemma_more_property_names();
    lemma_node_names();
    lemma_unit_heads();
    lemma_hex_chars(dist_addr as nat);
    lemma_unit_name("intc@"@, text::hex(dist_addr as nat));
}

proof fn lemma_timer_node()
    ensures
        fdt::leaf_node(timer_node_items()),
{
    reveal(timer_node_items);
    lemma_property_names();
    lemma_more_property_names();
    lemma_node_names();
}

proof fn lemma_psci_node()
    ensures
        fdt::leaf_node(psci_node_items()),
{
    reveal(psci_node_items);
    lemma_property_names();
    lemma_more_property_names();
    lemma_node_names();
}

proof fn lemma_virtio_mmio_node(dev: FdtMmioDevice)
    ensures
        fdt::leaf_node(virtio_mmio_node_items(dev)),
{
    reveal(virtio_mmio_node_items);
    lemma_property_names();
    lemma_more_property_names();
    lemma_node_names();
    lemma_unit_heads();
    lemma_hex_chars(dev.base_addr as nat);
    lemma_unit_name("virtio_mmio@"@, text::hex(dev.base_addr as nat));
}

proof fn lemma_clock_node()
    ensures
        fdt::leaf_node(clock_node_items()),
{
    reveal(clock_node_items);
    lemma_property_names();
    lemma_more_property_names();
    lemma_node_names();
}

proof fn lemma_uart_node()
    ensures
        fdt::leaf_node(uart_node_items()),
{
    reveal(uart_node_items);
    lemma_property_names();
    lemma_more_property_names();
    lemma_node_names();
}

/// CPU nodes can stand in a node, and lead behind themselves.
proof fn lemma_cpu_nodes(p: FdtPlace, n: nat)
    requires
        p.depth == 2,
        n <= u32::MAX,
    ensures
        fdt::fdt_run(p, cpu_nodes(n)) matches Some(q) && q.depth == 2,
    decreases n,
{
    if n > 0 {
        lemma_cpu_nodes(p, (n - 1) as nat);
        let q = fdt::fdt_run(p, cpu_nodes((n - 1) as nat))->0;
        lemma_cpu_node((n - 1) as u32);
        fdt::lemma_run_parts(p, cpu_nodes((n - 1) as nat), cpu_node_items((n - 1) as u32));
        fdt::lemma_leaf_run(q, cpu_node_items((n - 1) as u32));
    }
}

/// The node of the CPUs can stand in the root node.
proof fn lemma_cpus(p: FdtPlace, n: u32)
    requires
        p.depth == 1,
    ensures
        fdt::fdt_run(p, cpus_items(n)) matches Some(q) && q.depth == 1,
{
    reveal(cpus_items);
    lemma_property_names();
    lemma_node_names();
    let head = seq![
        FdtItem::Begin("cpus"@),
        FdtItem::Prop("#address-cells"@, bytes::be32_bytes(2)),
        FdtItem::Prop("#size-cells"@, bytes::be32_bytes(0)),
    ];
    let inner = FdtPlace { depth: 2, ended: false };
    assert(fdt::fdt_run(p, head) == Some(inner)) by {
        reveal_with_fuel(fdt::fdt_run, 4);
        assert(head.skip(1)[0] == head[1]);
        assert(head.skip(1).skip(1)[0] == head[2]);
    }
    lemma_cpu_nodes(inner, n as nat);
    let q = fdt::fdt_run(inner, cpu_nodes(n as nat))->0;
    fdt::lemma_run_parts(p, head, cpu_nodes(n as nat));
    fdt::lemma_run_parts(p, head + cpu_nodes(n as nat), seq![FdtItem::End]);
    assert(fdt::fdt_run(q, seq![FdtItem::End]) is Some && fdt::fdt_run(
        q,
        seq![FdtItem::End],
    )->0.depth == 1) by {
        reveal_with_fuel(fdt::fdt_run, 2);
    }
}

/// The nodes of virtio-mmio devices can stand in the root node.
proof fn lemma_virtio_nodes(p: FdtPlace, devices: Seq<FdtMmioDevice>)
    requires
        p.depth == 1,
    ensures
        fdt::fdt_run(p, virtio_mmio_nodes(devices)) matches Some(q) && q.depth == 1,
    decreases devices.len(),
{
    if devices.len() > 0 {
        let front = devices.drop_last();
        lemma_virtio_nodes(p, front);
        let q = fdt::fdt_run(p, virtio_mmio_nodes(front))->0;
        lemma_virtio_mmio_node(devices.last());
        fdt::lemma_run_parts(
            p,
            virtio_mmio_nodes(front),
            virtio_mmio_node_items(devices.last()),
        );
        fdt::lemma_leaf_run(q, virtio_mmio_node_items(devices.last()));
    }
}

/// Items that lead into the root node, and a node that can stand there, lead
/// into the root node.
proof fn lemma_next_node(items: Seq<FdtItem>, node: Seq<FdtItem>)
    requires
        fdt::fdt_run(fdt::fdt_start(), items) matches Some(p) && p.depth == 1,
        fdt::leaf_node(node),
    ensures
        fdt::fdt_run(fdt::fdt_start(), items + node) matches Some(p) && p.depth == 1,
{
    let p = fdt::fdt_run(fdt::fdt_start(), items)->0;
    fdt::lemma_run_parts(fdt::fdt_start(), items, node);
    fdt::lemma_leaf_run(p, node);
}

/// The properties of the root node can stand.
proof fn lemma_root_head()
    ensures
        fdt::fdt_run(fdt::fdt_start(), root_head()) matches Some(p) && p.depth == 1,
{
    lemma_property_names();
    reveal_strlit("");
    let head = root_head();
    reveal_with_fuel(fdt::fdt_run, 6);
    assert(head.skip(1)[0] == head[1]);
    assert(head.skip(1).skip(1)[0] == head[2]);
    assert(head.skip(1).skip(1).skip(1)[0] == head[3]);
    assert(head.skip(1).skip(1).skip(1).skip(1)[0] == head[4]);
}

/// Every device tree that the library describes is one whole node, all of whose
/// names can stand.
pub proof fn law_tree_is_whole(c: FdtConfig)
    ensures
        fdt::whole(fdt_tree(c)),
{
    let s = fdt::fdt_start();
    let t0 = root_head();
    lemma_root_head();
    let t1 = t0 + cpus_items(c.num_cpus);
    fdt::lemma_run_parts(s, t0, cpus_items(c.num_cpus));
    lemma_cpus(fdt::fdt_run(s, t0)->0, c.num_cpus);
    let t2 = t1 + memory_node_items(c.memory_size);
    lemma_memory_node(c.memory_size);
    lemma_next_node(t1, memory_node_items(c.memory_size));
    let t3 = t2 + chosen_node_items(c.cmdline@);
    lemma_chosen_node(c.cmdline@);
    lemma_next_node(t2, chosen_node_items(c.cmdline@));
    let gic = gic_node_items(
        c.gic_dist_addr,
        c.gic_dist_size,
        c.gic_redist_addr,
        c.gic_redist_size,
    );
    let t4 = t3 + gic;
    lemma_gic_node(c.gic_dist_addr, c.gic_dist_size, c.gic_redist_addr, c.gic_redist_size);
    lemma_next_node(t3, gic);
    let t5 = t4 + timer_node_items();
    lemma_timer_node();
    lemma_next_node(t4, timer_node_items());
    let t6 = t5 + psci_node_items();
    lemma_psci_node();
    lemma_next_node(t5, psci_node_items());
    let t7 = t6 + virtio_mmio_nodes(c.mmio_devices@);
    fdt::lemma_run_parts(s, t6, virtio_mmio_nodes(c.mmio_devices@));
    lemma_virtio_nodes(fdt::fdt_run(s, t6)->0, c.mmio_devices@);
    let t8 = t7 + clock_node_items();
    lemma_clock_node();
    lemma_next_node(t7, clock_node_items());
    let t9 = t8 + uart_node_items();
    lemma_uart_node();
    lemma_next_node(t8, uart_node_items());
    fdt::lemma_run_parts(s, t9, seq![FdtItem::End]);
    reveal_with_fuel(fdt::fdt_run, 2);
    assert(seq![FdtItem::End].skip(1) =~= Seq::<FdtItem>::empty());
}

/// How many items the device tree has.
proof fn lemma_tree_len(c: FdtConfig)
    ensures
        fdt_tree(c).len() <= 6 * c.num_cpus + 7 * c.mmio_devices@.len() + 60,
{
    lemma_cpu_nodes_len(c.num_cpus as nat);
    lemma_virtio_nodes_len(c.mmio_devices@);
    reveal(cpus_items);
    reveal(memory_node_items);
    reveal(chosen_node_items);
    reveal(gic_node_items);
    reveal(timer_node_items);
    reveal(psci_node_items);
    reveal(clock_node_items);
    reveal(uart_node_items);
}

proof fn lemma_cpu_nodes_len(n: nat)
    requires
        n <= u32::MAX,
    ensures
        cpu_nodes(n).len() == 6 * n,
    decreases n,
{
    reveal(cpu_node_items);
    if n > 0 {
        lemma_cpu_nodes_len((n - 1) as nat);
    }
}

proof fn lemma_virtio_nodes_len(devices: Seq<FdtMmioDevice>)
    ensures
        virtio_mmio_nodes(devices).len() == 7 * devices.len(),
    decreases devices.len(),
{
    reveal(virtio_mmio_node_items);
    if devices.len() > 0 {
        lemma_virtio_nodes_len(devices.drop_last());
    }
}

/// A text of a plain property takes little room.
proof fn lemma_plain_room()
    ensures
        forall|s: Seq<char>| #[trigger] plain_text(s) ==> fdt::text_value(s).len() <= 129,
{
    assert forall|s: Seq<char>| #[trigger] plain_text(s) implies fdt::text_value(s).len()
        <= 129 by {
        lemma_encoded_len(s);
    }
}

/// A number of 32 bits has at most ten decimal digits.
proof fn lemma_decimal_len(n: nat)
    requires
        n <= u32::MAX,
    ensures
        text::decimal(n).len() <= 10,
{
    reveal_with_fuel(text::decimal, 11);
}

/// A number of 64 bits has at most sixteen hexadecimal digits.
proof fn lemma_hex_len(n: nat)
    requires
        n <= u64::MAX,
    ensures
        text::hex(n).len() <= 16,
{
    reveal_with_fuel(text::hex, 17);
}

/// Whether every item takes little room.
pub open spec fn small_items(items: Seq<FdtItem>) -> bool {
    forall|i: int| 0 <= i < items.len() ==> fdt::item_room(#[trigger] items[i]) <= 512
}

/// The room of the names of the tree's nodes.
proof fn lemma_names_room()
    ensures
        vstd::utf8::encode_utf8(""@).len() <= 64,
        vstd::utf8::encode_utf8("cpus"@).len() <= 64,
        vstd::utf8::encode_utf8("memory@80000000"@).len() <= 64,
        vstd::utf8::encode_utf8("chosen"@).len() <= 64,
        vstd::utf8::encode_utf8("timer"@).len() <= 64,
        vstd::utf8::encode_utf8("psci"@).len() <= 64,
        vstd::utf8::encode_utf8("apb-pclk"@).len() <= 64,
        vstd::utf8::encode_utf8("pl011@9000000"@).len() <= 64,
{
    reveal_strlit("");
    reveal_strlit("cpus");
    reveal_strlit("memory@80000000");
    reveal_strlit("chosen");
    reveal_strlit("timer");
    reveal_strlit("psci");
    reveal_strlit("apb-pclk");
    reveal_strlit("pl011@9000000");
    lemma_encoded_len(""@);
    lemma_encoded_len("cpus"@);
    lemma_encoded_len("memory@80000000"@);
    lemma_encoded_len("chosen"@);
    lemma_encoded_len("timer"@);
    lemma_encoded_len("psci"@);
    lemma_encoded_len("apb-pclk"@);
    lemma_encoded_len("pl011@9000000"@);
}

proof fn lemma_cpu_nodes_room(n: nat)
    requires
        n <= u32::MAX,
    ensures
        small_items(cpu_nodes(n)),
    decreases n,
{
    if n > 0 {
        lemma_cpu_nodes_room((n - 1) as nat);
        let i = (n - 1) as u32;
        let name = "cpu@"@ + text::decimal(i as nat);
        reveal(cpu_node_items);
        reveal_strlit("cpu@");
        lemma_decimal_len(i as nat);
        lemma_encoded_len(name);
        lemma_texts();
        lemma_plain_room();
        assert(small_items(cpu_node_items(i)));
    }
}

proof fn lemma_virtio_nodes_room(devices: Seq<FdtMmioDevice>)
    ensures
        small_items(virtio_mmio_nodes(devices)),
    decreases devices.len(),
{
    if devices.len() > 0 {
        lemma_virtio_nodes_room(devices.drop_last());
        let dev = devices.last();
        let name = "virtio_mmio@"@ + text::hex(dev.base_addr as nat);
        reveal(virtio_mmio_node_items);
        reveal_strlit("virtio_mmio@");
        lemma_hex_len(dev.base_addr as nat);
        lemma_encoded_len(name);
        lemma_more_texts();
        lemma_plain_room();
        lemma_wide_cells_len(seq![dev.base_addr, dev.size]);
        lemma_cells_len(seq![GIC_FDT_IRQ_TYPE_SPI, spi_of(dev.gsi), IRQ_TYPE_LEVEL_HI]);
        assert(small_items(virtio_mmio_node_items(dev)));
    }
}

proof fn lemma_gic_room(dist_addr: u64, dist_size: u64, redist_addr: u64, redist_size: u64)
    ensures
        small_items(gic_node_items(dist_addr, dist_size, redist_addr, redist_size)),
{
    let name = "intc@"@ + text::hex(dist_addr as nat);
    reveal(gic_node_items);
    reveal_strlit("intc@");
    lemma_hex_len(dist_addr as nat);
    lemma_encoded_len(name);
    lemma_texts();
    lemma_plain_room();
    lemma_wide_cells_len(seq![dist_addr, dist_size, redist_addr, redist_size]);
}

proof fn lemma_root_room()
    ensures
        small_items(root_head()),
{
    lemma_names_room();
    lemma_plain_room();
    lemma_texts();
}

proof fn lemma_memory_room(memory_size: u64)
    ensures
        small_items(memory_node_items(memory_size)),
{
    lemma_names_room();
    lemma_plain_room();
    lemma_texts();
    reveal(memory_node_items);
    lemma_wide_cells_len(seq![DRAM_MEM_START, memory_size]);
}

proof fn lemma_timer_room()
    ensures
        small_items(timer_node_items()),
{
    lemma_names_room();
    lemma_plain_room();
    lemma_texts();
    reveal(timer_node_items);
    lemma_cells_len(timer_cells());
}

proof fn lemma_psci_room()
    ensures
        small_items(psci_node_items()),
{
    lemma_names_room();
    lemma_plain_room();
    lemma_texts();
    lemma_more_texts();
    reveal(psci_node_items);
}

proof fn lemma_clock_room()
    ensures
        small_items(clock_node_items()),
{
    lemma_names_room();
    lemma_plain_room();
    lemma_more_texts();
    reveal(clock_node_items);
}

proof fn lemma_uart_room()
    ensures
        small_items(uart_node_items()),
{
    lemma_names_room();
    lemma_plain_room();
    lemma_more_texts();
    reveal(uart_node_items);
    lemma_wide_cells_len(seq![UART_BASE, UART_SIZE]);
    lemma_cells_len(seq![GIC_FDT_IRQ_TYPE_SPI, UART_GSI, IRQ_TYPE_LEVEL_HI]);
    lemma_cells_len(seq![CLOCK_PHANDLE, CLOCK_PHANDLE]);
}

proof fn lemma_cpus_room(n: u32)
    ensures
        small_items(cpus_items(n)),
{
    lemma_names_room();
    lemma_plain_room();
    lemma_cpu_nodes_room(n as nat);
    reveal(cpus_items);
}

/// Of the node for the kernel only the command line can take much room.
proof fn lemma_chosen_room(cmdline: Seq<char>)
    ensures
        fdt::room(chosen_node_items(cmdline)) <= 512 * chosen_node_items(cmdline).len()
            + fdt::text_value(cmdline).len(),
{
    lemma_names_room();
    lemma_plain_room();
    lemma_texts();
    reveal(chosen_node_items);
    reveal_with_fuel(fdt::room, 5);
    let items = chosen_node_items(cmdline);
    assert(items.drop_last().drop_last() =~= seq![items[0], items[1]]);
    assert(items.drop_last().drop_last().drop_last() =~= seq![items[0]]);
    assert(items.drop_last().drop_last().drop_last().drop_last() =~= Seq::<FdtItem>::empty());
}

/// The room of one more part of which every item takes little.
proof fn lemma_more_room(items: Seq<FdtItem>, part: Seq<FdtItem>)
    requires
        small_items(part),
    ensures
        fdt::room(items + part) <= fdt::room(items) + 512 * part.len(),
{
    fdt::lemma_room_parts(items, part);
    fdt::lemma_room_limit(part, 512);
}

/// The room that the device tree takes.
proof fn lemma_tree_room(c: FdtConfig)
    ensures
        fdt::room(fdt_tree(c)) <= 512 * fdt_tree(c).len() + fdt::text_value(c.cmdline@).len(),
{
    let t0 = root_head();
    lemma_root_room();
    fdt::lemma_room_limit(t0, 512);
    let t1 = t0 + cpus_items(c.num_cpus);
    lemma_cpus_room(c.num_cpus);
    lemma_more_room(t0, cpus_items(c.num_cpus));
    let t2 = t1 + memory_node_items(c.memory_size);
    lemma_memory_room(c.memory_size);
    lemma_more_room(t1, memory_node_items(c.memory_size));
    let t3 = t2 + chosen_node_items(c.cmdline@);
    lemma_chosen_room(c.cmdline@);
    fdt::lemma_room_parts(t2, chosen_node_items(c.cmdline@));
    let gic = gic_node_items(
        c.gic_dist_addr,
        c.gic_dist_size,
        c.gic_redist_addr,
        c.gic_redist_size,
    );
    let t4 = t3 + gic;
    lemma_gic_room(c.gic_dist_addr, c.gic_dist_size, c.gic_redist_addr, c.gic_redist_size);
    lemma_more_room(t3, gic);
    let t5 = t4 + timer_node_items();
    lemma_timer_room();
    lemma_more_room(t4, timer_node_items());
    let t6 = t5 + psci_node_items();
    lemma_psci_room();
    lemma_more_room(t5, psci_node_items());
    let t7 = t6 + virtio_mmio_nodes(c.mmio_devices@);
    lemma_virtio_nodes_room(c.mmio_devices@);
    lemma_more_room(t6, virtio_mmio_nodes(c.mmio_devices@));
    let t8 = t7 + clock_node_items();
    lemma_clock_room();
    lemma_more_room(t7, clock_node_items());
    let t9 = t8 + uart_node_items();
    lemma_uart_room();
    lemma_more_room(t8, uart_node_items());
    lemma_more_room(t9, seq![FdtItem::End]);
}

/// Whether the description of the virtual hardware is one that can be written:
/// a command line without a NUL, and not too much of anything.
pub open spec fn describable(c: FdtConfig) -> bool {
    &&& sound_text(c.cmdline@)
    &&& 512 * (6 * c.num_cpus + 7 * c.mmio_devices@.len() + 60) + fdt::text_value(
        c.cmdline@,
    ).len() <= 0xffff_0000
}

/// Makes the device tree blob that describes the virtual hardware.
pub fn create_fdt(config: &FdtConfig) -> (r: Result<Vec<u8>, BootError>)
    ensures
        match r {
            Ok(b) => sound_text(config.cmdline@) && fdt::fdt_blob(fdt_tree(*config)) == Some(b@)
                && b@.len() >= 4 && b@.subrange(0, 4) == bytes::be32_bytes(0xd00d_feed),
            Err(e) => e is Fdt,
        },
        sound_text(config.cmdline@) && fdt_tree(*config).len() <= 0x400_0000 ==> (r is Ok
            <==> fdt::fdt_blob(fdt_tree(*config)) is Some),
        describable(*config) ==> r is Ok,
{
    let ops = tree_ops(config);
    proof {
        law_tree_is_whole(*config);
        lemma_tree_len(*config);
        lemma_tree_room(*config);
        reveal(fdt::op_items);
    }
    fdt::make_blob(&ops)
}

/// The guest physical address of the device tree: [`FDT_MAX_SIZE`] before the
/// end of DRAM, aligned down to 2 MiB.
pub open spec fn fdt_addr(memory_size: u64) -> int {
    (DRAM_MEM_START + if memory_size > FDT_MAX_SIZE {
        memory_size - FDT_MAX_SIZE
    } else {
        0
    }) / 0x20_0000 * 0x20_0000
}

/// Whether addresses reach over DRAM of that size.
pub open spec fn addressable(memory_size: u64) -> bool {
    DRAM_MEM_START + memory_size <= u64::MAX
}

/// Tells at which guest physical address the device tree goes.
#[must_use]
pub fn get_fdt_addr(memory_size: u64) -> (r: u64)
    requires
        addressable(memory_size),
    ensures
        r == fdt_addr(memory_size),
{
    let offset: u64 = memory_size.saturating_sub(FDT_MAX_SIZE as u64);
    let a: u64 = DRAM_MEM_START + offset;
    assert(a & !0x1f_ffffu64 == a / 0x20_0000 * 0x20_0000) by (bit_vector);
    a & !0x1f_ffffu64
}

/// The device tree lies at a multiple of 2 MiB in DRAM, and what is reserved for
/// it ends with DRAM at the latest, if DRAM is no smaller.
pub proof fn law_fdt_place(memory_size: u64)
    ensures
        fdt_addr(memory_size) % 0x20_0000 == 0,
        DRAM_MEM_START <= fdt_addr(memory_size),
        memory_size >= FDT_MAX_SIZE ==> fdt_addr(memory_size) + FDT_MAX_SIZE <= DRAM_MEM_START
            + memory_size,
        memory_size >= FDT_MAX_SIZE ==> DRAM_MEM_START + memory_size < fdt_addr(memory_size)
            + 2 * FDT_MAX_SIZE,
{
}

/// Where a kernel Image goes.
pub open spec fn load_addr(data: Seq<u8>) -> u64 {
    let text_offset = bytes::le64(data, ARM64_IMAGE_TEXT_OFFSET_OFF as int);
    let a = DRAM_MEM_START + if text_offset != 0 {
        text_offset
    } else {
        KERNEL_LOAD_OFFSET
    };
    if a > u64::MAX {
        u64::MAX
    } else {
        a as u64
    }
}

/// What loading a kernel Image leaves, and its entry point.
pub open spec fn image_loaded(m: MemView, data: Seq<u8>) -> (MemView, Result<u64, BootFault>) {
    let at = load_addr(data);
    if data.len() < ARM64_IMAGE_HEADER_SIZE {
        (m, Err(BootFault::Image("file too small for ARM64 Image header"@)))
    } else if bytes::le32(data, ARM64_IMAGE_MAGIC_OFFSET as int) != ARM64_IMAGE_MAGIC {
        (m, Err(BootFault::Image("bad ARM64 Image magic"@)))
    } else if at + data.len() > m.end_addr() {
        (m, Err(BootFault::OutOfBounds(at, data.len() as u64)))
    } else {
        match m.write(at, data) {
            (m1, Err(e)) => (m1, Err(BootFault::Memory(e))),
            (m1, Ok(_)) => (m1, Ok(at)),
        }
    }
}

/// Checks an ARM64 Image and loads it into guest memory. Gives its entry point,
/// which is where it was loaded.
pub fn load_arm64_image(memory: &mut GuestMemory, data: &[u8]) -> (r: Result<u64, BootError>)
    ensures
        final(memory)@ == image_loaded(old(memory)@, data@).0,
        boot::tells(r, image_loaded(old(memory)@, data@).1),
{
    if data.len() < ARM64_IMAGE_HEADER_SIZE {
        return Err(BootError::InvalidImage { reason: "file too small for ARM64 Image header" });
    }
    if get_le32(data, ARM64_IMAGE_MAGIC_OFFSET) != ARM64_IMAGE_MAGIC {
        return Err(BootError::InvalidImage { reason: "bad ARM64 Image magic" });
    }
    let text_offset = get_le64(data, ARM64_IMAGE_TEXT_OFFSET_OFF);
    let offset: u64 = if text_offset != 0 {
        text_offset
    } else {
        KERNEL_LOAD_OFFSET
    };
    let at: u64 = DRAM_MEM_START.saturating_add(offset);
    let size: u64 = data.len() as u64;
    let end = match at.checked_add(size) {
        Some(end) => end,
        None => return Err(BootError::SegmentOutOfBounds { addr: at, size }),
    };
    if end > memory.end_addr() {
        return Err(BootError::SegmentOutOfBounds { addr: at, size });
    }
    match memory.write_bytes(at, data) {
        Ok(_) => Ok(at),
        Err(e) => Err(BootError::MemoryWrite(e)),
    }
}

/// What placing a device tree blob leaves, and where the vCPU starts.
pub open spec fn fdt_placed(m: MemView, entry_point: u64, blob: Seq<u8>, memory_size: u64) -> (
    MemView,
    Result<BootConfig, BootFault>,
) {
    let at = fdt_addr(memory_size) as u64;
    match m.write(at, blob) {
        (m1, Err(e)) => (m1, Err(BootFault::Memory(e))),
        (m1, Ok(_)) => (m1, Ok(BootConfig { entry_point, fdt_addr: at })),
    }
}

/// Puts a device tree blob into guest memory and tells where the vCPU starts.
pub fn place_fdt(memory: &mut GuestMemory, entry_point: u64, blob: &[u8], memory_size: u64) -> (r:
    Result<BootConfig, BootError>)
    requires
        addressable(memory_size),
    ensures
        final(memory)@ == fdt_placed(old(memory)@, entry_point, blob@, memory_size).0,
        boot::tells(r, fdt_placed(old(memory)@, entry_point, blob@, memory_size).1),
{
    let fdt_addr = get_fdt_addr(memory_size);
    match memory.write_bytes(fdt_addr, blob) {
        Ok(_) => Ok(BootConfig { entry_point, fdt_addr }),
        Err(e) => Err(BootError::MemoryWrite(e)),
    }
}

/// Sets up everything that an ARM64 Linux kernel needs to start: loads the
/// Image, makes the device tree and puts it into guest memory. `kernel` is what
/// came of reading the Image's file.
pub fn configure_boot(
    memory: &mut GuestMemory,
    kernel: Result<&[u8], IoError>,
    fdt_config: &FdtConfig,
) -> (r: Result<BootConfig, BootError>)
    requires
        addressable(fdt_config.memory_size),
    ensures
        match kernel {
            Ok(data) => match image_loaded(old(memory)@, data@) {
                (m1, Err(f)) => final(memory)@ == m1 && (r matches Err(e) && e.says(f)),
                (m1, Ok(entry)) => {
                    let blob = fdt::fdt_blob(fdt_tree(*fdt_config));
                    let placed = fdt_placed(m1, entry, blob->0, fdt_config.memory_size);
                    ||| !describable(*fdt_config) && final(memory)@ == m1 && (r matches Err(e)
                        && e is Fdt)
                    ||| sound_text(fdt_config.cmdline@) && blob is Some && final(memory)@
                        == placed.0 && boot::tells(r, placed.1)
                },
            },
            Err(e) => {
                &&& final(memory)@ == old(memory)@
                &&& r == Err::<BootConfig, BootError>(BootError::KernelRead(e))
            },
        },
{
    let data = match kernel {
        Ok(data) => data,
        Err(e) => return Err(BootError::KernelRead(e)),
    };
    let entry_point = match load_arm64_image(memory, data) {
        Ok(entry) => entry,
        Err(e) => return Err(e),
    };
    let blob = match create_fdt(fdt_config) {
        Ok(b) => b,
        Err(e) => return Err(e),
    };
    place_fdt(memory, entry_point, blob.as_slice(), fdt_config.memory_size)
}

/// A kernel Image that ends before the device tree starts is still in guest
/// memory when the device tree is.
pub proof fn law_image_and_fdt_in_place(
    m: MemView,
    data: Seq<u8>,
    blob: Seq<u8>,
    memory_size: u64,
)
    requires
        addressable(memory_size),
        image_loaded(m, data).1 is Ok,
        data.len() <= usize::MAX,
        blob.len() <= usize::MAX,
        load_addr(data) + data.len() <= fdt_addr(memory_size),
        fdt_placed(image_loaded(m, data).0, load_addr(data), blob, memory_size).1 is Ok,
    ensures
        ({
            let after = fdt_placed(
                image_loaded(m, data).0,
                load_addr(data),
                blob,
                memory_size,
            ).0;
            &&& after.read(load_addr(data), data.len() as usize) == Ok::<Seq<u8>, MemoryError>(data)
            &&& after.read(fdt_addr(memory_size) as u64, blob.len() as usize) == Ok::<
                Seq<u8>,
                MemoryError,
            >(blob)
        }),
{
    let m1 = image_loaded(m, data).0;
    let at = fdt_addr(memory_size) as u64;
    memory::law_read_after_write(m, load_addr(data), data);
    memory::law_read_after_write(m1, at, blob);
    memory::law_write_frame(m1, at, blob, load_addr(data), data.len() as usize);
}

} // verus!

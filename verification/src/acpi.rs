//! ACPI tables for `x86_64` guests.
//!
//! Makes the tables that Linux needs to boot with ACPI and writes them to guest
//! memory, one behind the other from [`RSDP_ADDR`] on:
//! `RSDP | DSDT | FADT | MADT | XSDT`. The RSDP points to the XSDT, the XSDT to
//! the FADT and the MADT, the FADT to the DSDT. The DSDT describes each
//! virtio-mmio device as
//!
//! ```text
//! Device (V000) {
//!     Name (_HID, "LNRO0005")
//!     Name (_UID, 0)
//!     Name (_CCA, 1)
//!     Name (_CRS, ResourceTemplate() {
//!         Memory32Fixed (ReadWrite, 0xD0000000, 0x1000)
//!         Interrupt (ResourceConsumer, Level, ActiveHigh, Shared) { 5 }
//!     })
//! }
//! ```

use crate::bytes;
use crate::memory::{self, GuestMemory, MemView, MemoryError, Patch, PatchView};
use crate::text;
use acpi_tables::Aml;
use acpi_tables::aml;
use acpi_tables::fadt::FADTBuilder;
use acpi_tables::madt::MADT;
use acpi_tables::rsdp::Rsdp;
use acpi_tables::sdt::Sdt;
use acpi_tables::xsdt::XSDT;
use vstd::prelude::*;

verus! {

/// Guest physical address of the RSDP (EBDA start on x86).
pub const RSDP_ADDR: u64 = 0xa_0000;

/// Standard x86 I/O APIC base address.
pub const IOAPIC_ADDR: u32 = 0xfec0_0000;

/// Standard x86 Local APIC base address.
pub const LAPIC_ADDR: u32 = 0xfee0_0000;

/// OEM revision of all tables.
pub const OEM_REVISION: u32 = 1;

/// DSDT revision (ACPI 6.x).
pub const DSDT_REVISION: u8 = 6;

/// Size of the header that every table but the RSDP starts with.
pub const TABLE_HEADER_SIZE: u32 = 36;

/// Most virtio-mmio devices that the DSDT can describe.
pub const MAX_DEVICES: usize = 256;

/// Errors of ACPI table generation.
#[derive(Debug, Clone, Copy, PartialEq, Eq, Structural)]
#[non_exhaustive]
pub enum AcpiError {
    /// Writing the tables to guest memory failed.
    MemoryWrite(MemoryError),
    /// The number of vCPUs is not in 1..=255.
    InvalidVcpuCount(u16),
    /// There are too many MMIO devices.
    TooManyDevices(usize),
}

impl AcpiError {
    /// The text that describes the error.
    pub open spec fn spec_message(self) -> Seq<char> {
        match self {
            AcpiError::MemoryWrite(e) => "failed to write ACPI tables to guest memory: "@
                + e.spec_message(),
            AcpiError::InvalidVcpuCount(n) => "invalid vCPU count "@ + text::decimal(n as nat)
                + ": must be 1..=255"@,
            AcpiError::TooManyDevices(n) => "too many MMIO devices: "@ + text::decimal(n as nat)
                + " (max 256)"@,
        }
    }

    /// The text that describes the error.
    pub fn message(&self) -> (r: String)
        ensures
            r@ == self.spec_message(),
    {
        match self {
            AcpiError::MemoryWrite(e) => {
                let mut s = "failed to write ACPI tables to guest memory: ".to_owned();
                s.append(e.message().as_str());
                s
            },
            AcpiError::InvalidVcpuCount(n) => {
                let mut s = "invalid vCPU count ".to_owned();
                text::push_decimal(&mut s, *n as u64);
                s.append(": must be 1..=255");
                s
            },
            AcpiError::TooManyDevices(n) => {
                let mut s = "too many MMIO devices: ".to_owned();
                text::push_decimal(&mut s, *n as u64);
                s.append(" (max 256)");
                s
            },
        }
    }
}

/// A virtio-mmio device that the DSDT describes.
#[derive(Debug, Clone, Copy, PartialEq, Eq, Structural)]
#[non_exhaustive]
pub struct MmioDeviceInfo {
    /// Guest physical base address of the MMIO region.
    pub base_addr: u64,
    /// Size of the MMIO region in bytes.
    pub size: u64,
    /// Interrupt of the device.
    pub gsi: u32,
}

impl MmioDeviceInfo {
    /// A virtio-mmio device.
    #[must_use]
    pub fn new(base_addr: u64, size: u64, gsi: u32) -> (r: Self)
        ensures
            r == (MmioDeviceInfo { base_addr, size, gsi }),
    {
        MmioDeviceInfo { base_addr, size, gsi }
    }
}

/// The sum of bytes.
pub open spec fn byte_sum(b: Seq<u8>) -> nat
    decreases b.len(),
{
    if b.len() == 0 {
        0
    } else {
        byte_sum(b.drop_last()) + b.last() as nat
    }
}

/// The byte that makes a sum of bytes a multiple of 256.
pub open spec fn checksum(b: Seq<u8>) -> u8 {
    ((256 - byte_sum(b) % 256) % 256) as u8
}

/// A table with its checksum, which stands at offset 9.
pub open spec fn sealed(b: Seq<u8>) -> Seq<u8> {
    b.update(9, checksum(b))
}

/// The header of a table of that length, without its checksum.
pub open spec fn table_header(
    signature: Seq<u8>,
    length: u32,
    revision: u8,
    oem_id: Seq<u8>,
    oem_table: Seq<u8>,
    oem_revision: u32,
) -> Seq<u8> {
    signature + bytes::le32_bytes(length) + seq![revision, 0u8] + oem_id + oem_table
        + bytes::le32_bytes(oem_revision) + seq![0x52u8, 0x56u8, 0x41u8, 0x54u8] + seq![
        0u8,
        0u8,
        0u8,
        1u8,
    ]
}

/// Declares `acpi_tables::sdt::Sdt`. Nothing is seen inside a value of it.
#[verifier::external_type_specification]
#[verifier::external_body]
pub struct ExSdt(acpi_tables::sdt::Sdt);

/// Declares `acpi_tables::fadt::FADTBuilder`. Nothing is seen inside a value of it.
#[verifier::external_type_specification]
#[verifier::external_body]
pub struct ExFadtBuilder(acpi_tables::fadt::FADTBuilder);

/// Declares `acpi_tables::madt::MADT`. Nothing is seen inside a value of it.
#[verifier::external_type_specification]
#[verifier::external_body]
pub struct ExMadt(acpi_tables::madt::MADT);

/// Declares `acpi_tables::xsdt::XSDT`. Nothing is seen inside a value of it.
#[verifier::external_type_specification]
#[verifier::external_body]
pub struct ExXsdt(acpi_tables::xsdt::XSDT);

/// The bytes that a table under construction holds.
pub uninterp spec fn sdt_data(t: Sdt) -> Seq<u8>;

/// The bytes that a FADT under construction holds.
pub uninterp spec fn fadt_data(t: FADTBuilder) -> Seq<u8>;

/// The bytes that a MADT under construction holds.
pub uninterp spec fn madt_data(t: MADT) -> Seq<u8>;

/// The bytes that an XSDT under construction holds.
pub uninterp spec fn xsdt_data(t: XSDT) -> Seq<u8>;

/// A table grown by some bytes: its length, which stands at offset 4, and its
/// checksum follow.
pub open spec fn grown(t: Seq<u8>, more: Seq<u8>) -> Seq<u8> {
    sealed(
        t.subrange(0, 4) + bytes::le32_bytes((t.len() + more.len()) as u32) + seq![t[8], 0u8]
            + t.subrange(10, t.len() as int) + more,
    )
}

/// Calls `acpi_tables::sdt::Sdt::new` with the length of a header: a table that
/// is its header.
#[verifier::external_body]
fn sdt_new(
    signature: [u8; 4],
    length: u32,
    revision: u8,
    oem_id: [u8; 6],
    oem_table: [u8; 8],
    oem_revision: u32,
) -> (r: Sdt)
    requires
        length == 36,
    ensures
        sdt_data(r) == sealed(
            table_header(signature@, length, revision, oem_id@, oem_table@, oem_revision),
        ),
{
    Sdt::new(signature, length, revision, oem_id, oem_table, oem_revision)
}

/// Calls `acpi_tables::sdt::Sdt::append_slice`, which grows the table.
#[verifier::external_body]
fn sdt_append_slice(t: &mut Sdt, data: &[u8])
    requires
        36 <= sdt_data(*old(t)).len(),
        sdt_data(*old(t)).len() + data@.len() <= u32::MAX,
    ensures
        sdt_data(*final(t)) == grown(sdt_data(*old(t)), data@),
{
    t.append_slice(data)
}

/// Calls `acpi_tables::sdt::Sdt::as_slice`, which gives the table's bytes.
#[verifier::external_body]
fn sdt_as_slice(t: &Sdt) -> (r: &[u8])
    ensures
        r@ == sdt_data(*t),
{
    t.as_slice()
}

/// Calls `acpi_tables::fadt::FADTBuilder::new`: a FADT of 276 bytes, version
/// 6.5, all of whose other fields are zero.
#[verifier::external_body]
fn fadt_new(oem_id: [u8; 6], oem_table: [u8; 8], oem_revision: u32) -> (r: FADTBuilder)
    ensures
        fadt_data(r) == (table_header(
            seq![0x46u8, 0x41u8, 0x43u8, 0x50u8],
            276,
            6,
            oem_id@,
            oem_table@,
            oem_revision,
        ) + Seq::new(240, |i: int| 0u8)).update(131, 5u8),
{
    FADTBuilder::new(oem_id, oem_table, oem_revision)
}

/// Calls `acpi_tables::fadt::FADTBuilder::dsdt_64`, which sets the 64-bit
/// address of the DSDT, at offset 140, and clears the 32-bit one, at offset 40.
#[verifier::external_body]
fn fadt_dsdt_64(t: FADTBuilder, addr: u64) -> (r: FADTBuilder)
    requires
        fadt_data(t).len() == 276,
    ensures
        fadt_data(r) == fadt_data(t).subrange(0, 40) + bytes::le32_bytes(0) + fadt_data(
            t,
        ).subrange(44, 140) + bytes::le64_bytes(addr) + fadt_data(t).subrange(148, 276),
{
    t.dsdt_64(addr)
}

/// Calls `acpi_tables::fadt::FADTBuilder::flag` with `Flags::Headless`, which
/// sets bit 12 of the flags, at offset 112. Stated for flags that are all clear.
#[verifier::external_body]
fn fadt_headless(t: FADTBuilder) -> (r: FADTBuilder)
    requires
        fadt_data(t).len() == 276,
        fadt_data(t).subrange(112, 116) == bytes::le32_bytes(0),
    ensures
        fadt_data(r) == fadt_data(t).subrange(0, 112) + bytes::le32_bytes(0x1000) + fadt_data(
            t,
        ).subrange(116, 276),
{
    t.flag(acpi_tables::fadt::Flags::Headless)
}

/// Calls `acpi_tables::fadt::FADTBuilder::finalize`, which sets the checksum,
/// and gives the table's bytes. Stated for a checksum that is clear.
#[verifier::external_body]
fn fadt_finalize(t: FADTBuilder) -> (r: Vec<u8>)
    requires
        fadt_data(t).len() == 276,
        fadt_data(t)[9] == 0,
    ensures
        r@ == sealed(fadt_data(t)),
{
    let mut out = Vec::new();
    t.finalize().to_aml_bytes(&mut out);
    out
}

/// Calls `acpi_tables::madt::MADT::new` with the address of the local interrupt
/// controllers: a MADT without structures.
#[verifier::external_body]
fn madt_new(oem_id: [u8; 6], oem_table: [u8; 8], oem_revision: u32, lapic_addr: u32) -> (r: MADT)
    ensures
        madt_data(r) == sealed(
            table_header(
                seq![0x41u8, 0x50u8, 0x49u8, 0x43u8],
                44,
                1,
                oem_id@,
                oem_table@,
                oem_revision,
            ) + bytes::le32_bytes(lapic_addr) + bytes::le32_bytes(0),
        ),
{
    let local = acpi_tables::madt::LocalInterruptController::Address(lapic_addr);
    MADT::new(oem_id, oem_table, oem_revision, local)
}

/// The structure of an I/O APIC.
pub open spec fn io_apic(id: u8, addr: u32, gsi_base: u32) -> Seq<u8> {
    seq![1u8, 12u8, id, 0u8] + bytes::le32_bytes(addr) + bytes::le32_bytes(gsi_base)
}

/// The structure of an enabled local APIC.
pub open spec fn local_apic(uid: u8, apic_id: u8) -> Seq<u8> {
    seq![0u8, 8u8, uid, apic_id] + bytes::le32_bytes(1)
}

/// Calls `acpi_tables::madt::MADT::add_structure` with an
/// `acpi_tables::madt::IoApic`, which grows the table.
#[verifier::external_body]
fn madt_add_io_apic(t: &mut MADT, id: u8, addr: u32, gsi_base: u32)
    requires
        44 <= madt_data(*old(t)).len() <= 0xffff_0000,
    ensures
        madt_data(*final(t)) == grown(madt_data(*old(t)), io_apic(id, addr, gsi_base)),
{
    t.add_structure(acpi_tables::madt::IoApic::new(id, addr, gsi_base))
}

/// Calls `acpi_tables::madt::MADT::add_structure` with an enabled
/// `acpi_tables::madt::ProcessorLocalApic`, which grows the table.
#[verifier::external_body]
fn madt_add_local_apic(t: &mut MADT, uid: u8, apic_id: u8)
    requires
        44 <= madt_data(*old(t)).len() <= 0xffff_0000,
    ensures
        madt_data(*final(t)) == grown(madt_data(*old(t)), local_apic(uid, apic_id)),
{
    let on = acpi_tables::madt::EnabledStatus::Enabled;
    t.add_structure(acpi_tables::madt::ProcessorLocalApic::new(uid, apic_id, on))
}

/// Calls `to_aml_bytes` of `acpi_tables::madt::MADT`, which gives the table's
/// bytes.
#[verifier::external_body]
fn madt_bytes(t: &MADT) -> (r: Vec<u8>)
    ensures
        r@ == madt_data(*t),
{
    let mut out = Vec::new();
    t.to_aml_bytes(&mut out);
    out
}

/// Calls `acpi_tables::xsdt::XSDT::new`: an XSDT without entries.
#[verifier::external_body]
fn xsdt_new(oem_id: [u8; 6], oem_table: [u8; 8], oem_revision: u32) -> (r: XSDT)
    ensures
        xsdt_data(r) == sealed(
            table_header(
                seq![0x58u8, 0x53u8, 0x44u8, 0x54u8],
                36,
                1,
                oem_id@,
                oem_table@,
                oem_revision,
            ),
        ),
{
    XSDT::new(oem_id, oem_table, oem_revision)
}

/// Calls `acpi_tables::xsdt::XSDT::add_entry`, which grows the table by an
/// address.
#[verifier::external_body]
fn xsdt_add_entry(t: &mut XSDT, entry: u64)
    requires
        36 <= xsdt_data(*old(t)).len() <= 0xffff_0000,
    ensures
        xsdt_data(*final(t)) == grown(xsdt_data(*old(t)), bytes::le64_bytes(entry)),
{
    t.add_entry(entry)
}

/// Calls `to_aml_bytes` of `acpi_tables::xsdt::XSDT`, which gives the table's
/// bytes.
#[verifier::external_body]
fn xsdt_bytes(t: &XSDT) -> (r: Vec<u8>)
    ensures
        r@ == xsdt_data(*t),
{
    let mut out = Vec::new();
    t.to_aml_bytes(&mut out);
    out
}

/// The RSDP without its checksums.
pub open spec fn rsdp_open(oem_id: Seq<u8>, xsdt_addr: u64) -> Seq<u8> {
    seq![0x52u8, 0x53u8, 0x44u8, 0x20u8, 0x50u8, 0x54u8, 0x52u8, 0x20u8] + seq![0u8] + oem_id + seq![
        2u8,
    ] + bytes::le32_bytes(0) + bytes::le32_bytes(36) + bytes::le64_bytes(xsdt_addr) + seq![
        0u8,
        0u8,
        0u8,
        0u8,
    ]
}

/// The RSDP: its first checksum, at offset 8, is over 20 bytes, its second, at
/// offset 32, over all.
#[verifier::opaque]
pub open spec fn rsdp_table(oem_id: Seq<u8>, xsdt_addr: u64) -> Seq<u8> {
    let b = rsdp_open(oem_id, xsdt_addr);
    let c = b.update(8, checksum(b.take(20)));
    c.update(32, checksum(c))
}

/// Calls `acpi_tables::rsdp::Rsdp::new` and gives the table's bytes.
#[verifier::external_body]
fn rsdp_bytes(oem_id: [u8; 6], xsdt_addr: u64) -> (r: Vec<u8>)
    ensures
        r@ == rsdp_table(oem_id@, xsdt_addr),
{
    let mut out = Vec::new();
    Rsdp::new(oem_id, xsdt_addr).to_aml_bytes(&mut out);
    out
}

/// Calls `acpi_tables::rsdp::Rsdp::len`, the size of the RSDP.
#[verifier::external_body]
fn rsdp_len() -> (r: usize)
    ensures
        r == 36,
{
    Rsdp::len()
}

/// A name of one segment: four ASCII characters, none of which has a meaning in
/// paths.
pub open spec fn simple_name(s: Seq<char>) -> bool {
    &&& s.len() == 4
    &&& forall|i: int|
        0 <= i < 4 ==> (#[trigger] s[i]) as u32 <= 0x7f && s[i] != '.' && s[i] != '\\'
}

/// Calls `acpi_tables::aml::Path::new` on a name of one segment and gives the
/// path's bytes, which are the name's characters.
#[verifier::external_body]
fn aml_path(name: &str) -> (r: Vec<u8>)
    requires
        simple_name(name@),
    ensures
        r@ == text::char_bytes(name@),
{
    let mut out = Vec::new();
    aml::Path::new(name).to_aml_bytes(&mut out);
    out
}

/// The `PkgLength` of a package whose other bytes are `n`: it counts itself, and
/// is as short as can be.
pub open spec fn pkg_length(n: int) -> Seq<u8> {
    if n + 1 <= 0x3f {
        seq![(n + 1) as u8]
    } else if n + 2 <= 0xfff {
        seq![(0x40 + (n + 2) % 16) as u8, ((n + 2) / 16 % 256) as u8]
    } else if n + 3 <= 0xf_ffff {
        seq![
            (0x80 + (n + 3) % 16) as u8,
            ((n + 3) / 16 % 256) as u8,
            ((n + 3) / 0x1000 % 256) as u8,
        ]
    } else {
        seq![
            (0xc0 + (n + 4) % 16) as u8,
            ((n + 4) / 16 % 256) as u8,
            ((n + 4) / 0x1000 % 256) as u8,
            ((n + 4) / 0x10_0000 % 256) as u8,
        ]
    }
}

/// A number in AML, as short as can be.
pub open spec fn number_aml(v: u64) -> Seq<u8> {
    if v <= 1 {
        seq![v as u8]
    } else if v <= 0xff {
        seq![0x0au8, v as u8]
    } else if v <= 0xffff {
        seq![0x0bu8] + bytes::le16_bytes(v as u16)
    } else if v <= 0xffff_ffff {
        seq![0x0cu8] + bytes::le32_bytes(v as u32)
    } else {
        seq![0x0eu8] + bytes::le64_bytes(v)
    }
}

/// A text in AML: it ends with a zero.
pub open spec fn text_aml(s: Seq<char>) -> Seq<u8> {
    seq![0x0du8] + vstd::utf8::encode_utf8(s) + seq![0u8]
}

/// A fixed range of memory as a resource: whether it is writable, its base and
/// its size.
pub open spec fn memory_aml(range: (bool, u32, u32)) -> Seq<u8> {
    seq![0x86u8, 9, 0, bit(range.0, 1)] + bytes::le32_bytes(range.1) + bytes::le32_bytes(range.2)
}

/// An interrupt as a resource: whether the device consumes it, it is
/// edge-triggered, active-low and shared, and its number.
pub open spec fn interrupt_aml(irq: (bool, bool, bool, bool, u32)) -> Seq<u8> {
    seq![
        0x89u8,
        6,
        0,
        (bit(irq.0, 1) + bit(irq.1, 2) + bit(irq.2, 4) + bit(irq.3, 8)) as u8,
        1,
    ] + bytes::le32_bytes(irq.4)
}

/// A flag as a bit.
pub open spec fn bit(flag: bool, value: u8) -> u8 {
    if flag {
        value
    } else {
        0
    }
}

/// A buffer of resources, behind which an end tag stands.
pub open spec fn resources_aml(resources: Seq<u8>) -> Seq<u8> {
    let body = resources + seq![0x79u8, 0];
    let len = number_aml(body.len() as u64);
    seq![0x11u8] + pkg_length((len.len() + body.len()) as int) + len + body
}

/// A named object.
pub open spec fn name_aml(name: Seq<char>, value: Seq<u8>) -> Seq<u8> {
    seq![0x08u8] + text::char_bytes(name) + value
}

/// A device with objects.
pub open spec fn device_with(name: Seq<char>, objects: Seq<u8>) -> Seq<u8> {
    seq![0x5bu8, 0x82u8] + pkg_length(4 + objects.len() as int) + text::char_bytes(name) + objects
}

/// Declares `acpi_tables::aml::Name`, a named object.
#[verifier::external_type_specification]
#[verifier::external_body]
pub struct ExName(aml::Name);

/// The bytes of a named object.
pub uninterp spec fn name_data(n: aml::Name) -> Seq<u8>;

/// Calls `acpi_tables::aml::Name::new` on a path of one segment and a text.
#[verifier::external_body]
fn name_text(name: &str, value: &'static str) -> (r: aml::Name)
    requires
        simple_name(name@),
    ensures
        name_data(r) == name_aml(name@, text_aml(value@)),
{
    aml::Name::new(name.into(), &value)
}

/// Calls `acpi_tables::aml::Name::new` on a path of one segment and a number.
#[verifier::external_body]
fn name_number(name: &str, value: u64) -> (r: aml::Name)
    requires
        simple_name(name@),
    ensures
        name_data(r) == name_aml(name@, number_aml(value)),
{
    aml::Name::new(name.into(), &value)
}

/// Calls `acpi_tables::aml::Name::new` on a path of one segment and an
/// `aml::ResourceTemplate` of an `aml::Memory32Fixed` and an `aml::Interrupt`,
/// in this order.
#[verifier::external_body]
fn name_resources(
    name: &str,
    range: (bool, u32, u32),
    irq: (bool, bool, bool, bool, u32),
) -> (r: aml::Name)
    requires
        simple_name(name@),
    ensures
        name_data(r) == name_aml(name@, resources_aml(memory_aml(range) + interrupt_aml(irq))),
{
    let mem = aml::Memory32Fixed::new(range.0, range.1, range.2);
    let interrupt = aml::Interrupt::new(irq.0, irq.1, irq.2, irq.3, irq.4);
    let template = aml::ResourceTemplate::new(vec![&mem, &interrupt]);
    aml::Name::new(name.into(), &template)
}

/// Calls `acpi_tables::aml::Device::new` on a path of one segment and four named
/// objects, and gives the device's bytes: the objects stand in the order in which
/// they are given.
#[verifier::external_body]
fn device_bytes(
    name: &str,
    first: &aml::Name,
    second: &aml::Name,
    third: &aml::Name,
    fourth: &aml::Name,
) -> (r: Vec<u8>)
    requires
        simple_name(name@),
        name_data(*first).len() + name_data(*second).len() + name_data(*third).len() + name_data(
            *fourth,
        ).len() <= 0xfff_0000,
    ensures
        r@ == device_with(
            name@,
            name_data(*first) + name_data(*second) + name_data(*third) + name_data(*fourth),
        ),
{
    let mut out = Vec::new();
    aml::Device::new(name.into(), vec![first, second, third, fourth]).to_aml_bytes(&mut out);
    out
}

/// The length that a `PkgLength` stands for.
pub open spec fn pkg_length_value(b: Seq<u8>) -> int {
    let follow = b[0] / 64;
    if follow == 0 {
        b[0] as int % 64
    } else if follow == 1 {
        b[0] % 16 + b[1] * 16
    } else if follow == 2 {
        b[0] % 16 + b[1] * 16 + b[2] * 0x1000
    } else {
        b[0] % 16 + b[1] * 16 + b[2] * 0x1000 + b[3] * 0x10_0000
    }
}

/// A number below 2^28 by its lowest four bits and three groups of eight.
proof fn lemma_groups(m: int)
    requires
        0 <= m < 0x1000_0000,
    ensures
        m == m % 16 + (m / 16 % 256) * 16 + (m / 0x1000 % 256) * 0x1000 + (m / 0x10_0000) * 0x10_0000,
        m / 0x10_0000 % 256 == m / 0x10_0000,
{
    let a = m / 16;
    let b = a / 256;
    let c = b / 256;
    assert(m == 16 * a + m % 16);
    assert(a == 256 * b + a % 256);
    assert(b == 256 * c + b % 256);
    assert(m / 0x1000 == b);
    assert(m / 0x10_0000 == c);
}

/// What the first byte of a longer `PkgLength` holds.
proof fn lemma_lead_byte(follow: int, low: int)
    requires
        1 <= follow <= 3,
        0 <= low < 16,
    ensures
        ({
            let b = (64 * follow + low) as u8;
            b / 64 == follow && b % 16 == low
        }),
{
}

/// A `PkgLength` stands for the length of its package, itself included, and its
/// first byte tells its own length.
pub proof fn law_pkg_length(n: int)
    requires
        0 <= n <= 0xfff_ffff - 4,
    ensures
        pkg_length_value(pkg_length(n)) == n + pkg_length(n).len(),
        pkg_length(n).len() == pkg_length(n)[0] / 64 + 1,
{
    let b = pkg_length(n);
    if n + 1 <= 0x3f {
    } else if n + 2 <= 0xfff {
        lemma_groups(n + 2);
        lemma_lead_byte(1, (n + 2) % 16);
        assert((n + 2) / 0x1000 == 0 && (n + 2) / 0x10_0000 == 0);
    } else if n + 3 <= 0xf_ffff {
        lemma_groups(n + 3);
        lemma_lead_byte(2, (n + 3) % 16);
        assert((n + 3) / 0x10_0000 == 0);
    } else {
        lemma_groups(n + 4);
        lemma_lead_byte(3, (n + 4) % 16);
    }
}

/// Encodes the `PkgLength` of a package whose other bytes are `data_len`.
pub fn encode_pkg_length(data_len: usize) -> (r: Vec<u8>)
    requires
        data_len <= usize::MAX - 4,
    ensures
        r@ == pkg_length(data_len as int),
{
    let mut r: Vec<u8> = Vec::new();
    if data_len < 0x3f {
        r.push((data_len + 1) as u8);
    } else if data_len + 2 <= 0xfff {
        let n: usize = data_len + 2;
        r.push((0x40 + n % 16) as u8);
        r.push((n / 16 % 256) as u8);
    } else if data_len + 3 <= 0xf_ffff {
        let n: usize = data_len + 3;
        r.push((0x80 + n % 16) as u8);
        r.push((n / 16 % 256) as u8);
        r.push((n / 0x1000 % 256) as u8);
    } else {
        let n: usize = data_len + 4;
        r.push((0xc0 + n % 16) as u8);
        r.push((n / 16 % 256) as u8);
        r.push((n / 0x1000 % 256) as u8);
        r.push((n / 0x10_0000 % 256) as u8);
    }
    assert(r@ =~= pkg_length(data_len as int));
    r
}

/// The name of the `i`-th device: `V000`, `V001` and so on.
pub open spec fn device_name(i: int) -> Seq<char> {
    seq![
        'V',
        text::digit((i / 100) as nat),
        text::digit((i / 10 % 10) as nat),
        text::digit((i % 10) as nat),
    ]
}

/// The name of the `i`-th device.
fn device_name_text(i: usize) -> (r: String)
    requires
        i < 1000,
    ensures
        r@ == device_name(i as int),
        simple_name(r@),
{
    let mut s = "V".to_owned();
    s.append(text::digit_str((i / 100) as u64));
    s.append(text::digit_str((i / 10 % 10) as u64));
    s.append(text::digit_str((i % 10) as u64));
    proof {
        reveal_strlit("V");
        assert(s@ =~= device_name(i as int));
    }
    s
}

/// The objects of the `i`-th virtio-mmio device: the hardware ID `LNRO0005`, its
/// number, that it is cache-coherent, and as its resources a writable range and
/// a shared level-triggered active-high interrupt.
pub open spec fn device_objects(dev: MmioDeviceInfo, i: int) -> Seq<u8> {
    let range = (
        true,
        (dev.base_addr % 0x1_0000_0000) as u32,
        (dev.size % 0x1_0000_0000) as u32,
    );
    name_aml("_HID"@, text_aml("LNRO0005"@)) + name_aml("_UID"@, number_aml(i as u64)) + name_aml(
        "_CCA"@,
        number_aml(1),
    ) + name_aml(
        "_CRS"@,
        resources_aml(memory_aml(range) + interrupt_aml((true, false, false, true, dev.gsi))),
    )
}

/// The AML of the `i`-th virtio-mmio device.
pub open spec fn device_aml(dev: MmioDeviceInfo, i: int) -> Seq<u8> {
    device_with(device_name(i), device_objects(dev, i))
}

/// The names of a device's objects are simple, and its hardware ID has eight
/// bytes.
proof fn lemma_object_names()
    ensures
        simple_name("_HID"@),
        simple_name("_UID"@),
        simple_name("_CCA"@),
        simple_name("_CRS"@),
        vstd::utf8::encode_utf8("LNRO0005"@).len() == 8,
{
    reveal_strlit("_HID");
    assert("_HID"@ =~= seq!['_', 'H', 'I', 'D']);
    reveal_strlit("_UID");
    assert("_UID"@ =~= seq!['_', 'U', 'I', 'D']);
    reveal_strlit("_CCA");
    assert("_CCA"@ =~= seq!['_', 'C', 'C', 'A']);
    reveal_strlit("_CRS");
    assert("_CRS"@ =~= seq!['_', 'C', 'R', 'S']);
    reveal_strlit("LNRO0005");
    assert("LNRO0005"@ =~= seq!['L', 'N', 'R', 'O', '0', '0', '0', '5']);
    assert(vstd::utf8::is_ascii_chars("LNRO0005"@));
    vstd::utf8::is_ascii_chars_encode_utf8("LNRO0005"@);
}

/// Makes the AML of the `i`-th virtio-mmio device.
fn device_entry(dev: MmioDeviceInfo, i: usize) -> (r: Vec<u8>)
    requires
        i < 1000,
    ensures
        r@ == device_aml(dev, i as int),
        2 <= r@.len() <= 128,
{
    proof {
        lemma_object_names();
    }
    let name = device_name_text(i);
    let hid = name_text("_HID", "LNRO0005");
    let uid = name_number("_UID", i as u64);
    let cca = name_number("_CCA", 1);
    let crs = name_resources(
        "_CRS",
        (true, (dev.base_addr % 0x1_0000_0000) as u32, (dev.size % 0x1_0000_0000) as u32),
        (true, false, false, true, dev.gsi),
    );
    device_bytes(name.as_str(), &hid, &uid, &cca, &crs)
}

/// The AML of virtio-mmio devices, one behind the other.
pub open spec fn devices_aml(devices: Seq<MmioDeviceInfo>) -> Seq<u8>
    decreases devices.len(),
{
    if devices.len() == 0 {
        Seq::empty()
    } else {
        devices_aml(devices.drop_last()) + device_aml(devices.last(), devices.len() - 1)
    }
}

/// Objects in the scope `_SB_`; without objects there is no scope.
pub open spec fn in_scope(children: Seq<u8>) -> Seq<u8> {
    if children.len() == 0 {
        Seq::empty()
    } else {
        seq![0x10u8] + pkg_length(4 + children.len() as int) + seq![0x5fu8, 0x53u8, 0x42u8, 0x5fu8]
            + children
    }
}

/// Puts objects into the scope `_SB_`.
pub fn scope_aml(children: &[u8]) -> (r: Vec<u8>)
    requires
        children@.len() <= 0xfff_0000,
    ensures
        r@ == in_scope(children@),
{
    let mut r: Vec<u8> = Vec::new();
    if children.len() == 0 {
        return r;
    }
    proof {
        reveal_strlit("_SB_");
        assert("_SB_"@ =~= seq!['_', 'S', 'B', '_']);
    }
    let name = aml_path("_SB_");
    assert(name@ =~= seq![0x5fu8, 0x53u8, 0x42u8, 0x5fu8]);
    let len = encode_pkg_length(name.len() + children.len());
    r.push(0x10);
    bytes::push_bytes(&mut r, len.as_slice());
    bytes::push_bytes(&mut r, name.as_slice());
    bytes::push_bytes(&mut r, children);
    assert(r@ =~= in_scope(children@));
    r
}

/// Makes the AML that the DSDT holds behind its header: the virtio-mmio devices
/// in the scope `_SB_`.
pub fn build_dsdt_aml(devices: &[MmioDeviceInfo]) -> (r: Vec<u8>)
    requires
        devices@.len() <= MAX_DEVICES,
    ensures
        r@ == in_scope(devices_aml(devices@)),
        r@.len() <= 9 + 128 * devices@.len(),
{
    let mut children: Vec<u8> = Vec::new();
    let mut i: usize = 0;
    assert(devices@.take(0) =~= Seq::<MmioDeviceInfo>::empty());
    while i < devices.len()
        invariant
            i <= devices@.len() <= MAX_DEVICES,
            children@ == devices_aml(devices@.take(i as int)),
            children@.len() <= 128 * i,
        decreases devices@.len() - i,
    {
        let dev = devices[i];
        let aml = device_entry(dev, i);
        let ghost more = devices@.take(i + 1);
        assert(more.drop_last() =~= devices@.take(i as int) && more.last() == dev);
        bytes::push_bytes(&mut children, aml.as_slice());
        i = i + 1;
    }
    assert(devices@.take(i as int) =~= devices@);
    scope_aml(children.as_slice())
}

/// The OEM ID of all tables.
pub open spec fn oem_id() -> Seq<u8> {
    seq![0x56u8, 0x49u8, 0x53u8, 0x4fu8, 0x52u8, 0x20u8]
}

/// The OEM table ID of a table: `VISOR` and three letters.
pub open spec fn oem_table(a: u8, b: u8, c: u8) -> Seq<u8> {
    seq![0x56u8, 0x49u8, 0x53u8, 0x4fu8, 0x52u8, a, b, c]
}

/// The DSDT around a body.
#[verifier::opaque]
pub open spec fn dsdt_table(body: Seq<u8>) -> Seq<u8> {
    grown(
        sealed(
            table_header(
                seq![0x44u8, 0x53u8, 0x44u8, 0x54u8],
                36,
                DSDT_REVISION,
                oem_id(),
                oem_table(0x44, 0x53, 0x44),
                OEM_REVISION,
            ),
        ),
        body,
    )
}

/// Makes the DSDT around a body.
pub fn dsdt(body: &[u8]) -> (r: Vec<u8>)
    requires
        36 + body@.len() <= u32::MAX,
    ensures
        r@ == dsdt_table(body@),
        r@.len() == 36 + body@.len(),
{
    let sig: [u8; 4] = [0x44, 0x53, 0x44, 0x54];
    let oem: [u8; 6] = [0x56, 0x49, 0x53, 0x4f, 0x52, 0x20];
    let table: [u8; 8] = [0x56, 0x49, 0x53, 0x4f, 0x52, 0x44, 0x53, 0x44];
    assert(sig@ =~= seq![0x44u8, 0x53u8, 0x44u8, 0x54u8]);
    assert(oem@ =~= oem_id());
    assert(table@ =~= oem_table(0x44, 0x53, 0x44));
    reveal(dsdt_table);
    let mut t = sdt_new(sig, TABLE_HEADER_SIZE, DSDT_REVISION, oem, table, OEM_REVISION);
    sdt_append_slice(&mut t, body);
    vstd::slice::slice_to_vec(sdt_as_slice(&t))
}

/// The FADT without its checksum: headless, with the 64-bit address of the DSDT.
#[verifier::opaque]
pub open spec fn fadt_open(dsdt_addr: u64) -> Seq<u8> {
    let b = (table_header(
        seq![0x46u8, 0x41u8, 0x43u8, 0x50u8],
        276,
        6,
        oem_id(),
        oem_table(0x46, 0x41, 0x44),
        OEM_REVISION,
    ) + Seq::new(240, |i: int| 0u8)).update(131, 5u8);
    b.subrange(0, 112) + bytes::le32_bytes(0x1000) + b.subrange(116, 140) + bytes::le64_bytes(
        dsdt_addr,
    ) + b.subrange(148, 276)
}

/// Makes the FADT that points to a DSDT.
pub fn fadt(dsdt_addr: u64) -> (r: Vec<u8>)
    ensures
        r@ == sealed(fadt_open(dsdt_addr)),
        r@.len() == 276,
{
    let oem: [u8; 6] = [0x56, 0x49, 0x53, 0x4f, 0x52, 0x20];
    let table: [u8; 8] = [0x56, 0x49, 0x53, 0x4f, 0x52, 0x46, 0x41, 0x44];
    assert(oem@ =~= oem_id());
    assert(table@ =~= oem_table(0x46, 0x41, 0x44));
    reveal(fadt_open);
    let t0 = fadt_new(oem, table, OEM_REVISION);
    let t1 = fadt_dsdt_64(t0, dsdt_addr);
    assert(fadt_data(t1).subrange(112, 116) =~= bytes::le32_bytes(0));
    let t2 = fadt_headless(t1);
    assert(fadt_data(t2) =~= fadt_open(dsdt_addr));
    fadt_finalize(t2)
}

/// The MADT with the I/O APIC and the local APICs of the first `n` vCPUs.
pub open spec fn madt_table(n: int) -> Seq<u8>
    decreases n,
{
    if n <= 0 {
        grown(
            sealed(
                table_header(
                    seq![0x41u8, 0x50u8, 0x49u8, 0x43u8],
                    44,
                    1,
                    oem_id(),
                    oem_table(0x4d, 0x41, 0x44),
                    OEM_REVISION,
                ) + bytes::le32_bytes(LAPIC_ADDR) + bytes::le32_bytes(0),
            ),
            io_apic(0, IOAPIC_ADDR, 0),
        )
    } else {
        grown(madt_table(n - 1), local_apic((n - 1) as u8, (n - 1) as u8))
    }
}

/// Makes the MADT of a number of vCPUs.
pub fn madt(num_vcpus: u8) -> (r: Vec<u8>)
    ensures
        r@ == madt_table(num_vcpus as int),
        r@.len() == 56 + 8 * num_vcpus,
{
    let oem: [u8; 6] = [0x56, 0x49, 0x53, 0x4f, 0x52, 0x20];
    let table: [u8; 8] = [0x56, 0x49, 0x53, 0x4f, 0x52, 0x4d, 0x41, 0x44];
    assert(oem@ =~= oem_id());
    assert(table@ =~= oem_table(0x4d, 0x41, 0x44));
    let mut t = madt_new(oem, table, OEM_REVISION, LAPIC_ADDR);
    madt_add_io_apic(&mut t, 0, IOAPIC_ADDR, 0);
    let mut i: u8 = 0;
    while i < num_vcpus
        invariant
            i <= num_vcpus,
            madt_data(t) == madt_table(i as int),
            madt_data(t).len() == 56 + 8 * i,
        decreases num_vcpus - i,
    {
        madt_add_local_apic(&mut t, i, i);
        i = i + 1;
    }
    madt_bytes(&t)
}

/// The XSDT that points to a FADT and a MADT.
#[verifier::opaque]
pub open spec fn xsdt_table(fadt_addr: u64, madt_addr: u64) -> Seq<u8> {
    grown(
        grown(
            sealed(
                table_header(
                    seq![0x58u8, 0x53u8, 0x44u8, 0x54u8],
                    36,
                    1,
                    oem_id(),
                    oem_table(0x58, 0x53, 0x44),
                    OEM_REVISION,
                ),
            ),
            bytes::le64_bytes(fadt_addr),
        ),
        bytes::le64_bytes(madt_addr),
    )
}

/// Makes the XSDT that points to a FADT and a MADT.
pub fn xsdt(fadt_addr: u64, madt_addr: u64) -> (r: Vec<u8>)
    ensures
        r@ == xsdt_table(fadt_addr, madt_addr),
        r@.len() == 52,
{
    let oem: [u8; 6] = [0x56, 0x49, 0x53, 0x4f, 0x52, 0x20];
    let table: [u8; 8] = [0x56, 0x49, 0x53, 0x4f, 0x52, 0x58, 0x53, 0x44];
    assert(oem@ =~= oem_id());
    assert(table@ =~= oem_table(0x58, 0x53, 0x44));
    reveal(xsdt_table);
    let mut t = xsdt_new(oem, table, OEM_REVISION);
    xsdt_add_entry(&mut t, fadt_addr);
    xsdt_add_entry(&mut t, madt_addr);
    xsdt_bytes(&t)
}

/// The address of the DSDT, behind the RSDP.
pub open spec fn dsdt_addr() -> u64 {
    (RSDP_ADDR + 36) as u64
}

/// The address of the FADT, behind a DSDT around `body`.
pub open spec fn fadt_addr(body: Seq<u8>) -> u64 {
    (dsdt_addr() + 36 + body.len()) as u64
}

/// The address of the MADT, behind the FADT.
pub open spec fn madt_addr(body: Seq<u8>) -> u64 {
    (fadt_addr(body) + 276) as u64
}

/// The address of the XSDT, behind the MADT of `n` vCPUs.
pub open spec fn xsdt_addr(body: Seq<u8>, n: int) -> u64 {
    (madt_addr(body) + 56 + 8 * n) as u64
}

/// The writes of the tables: RSDP, DSDT, FADT, MADT and XSDT, one behind the
/// other.
pub open spec fn table_patches(body: Seq<u8>, n: int) -> Seq<PatchView> {
    seq![
        PatchView { addr: RSDP_ADDR, bytes: rsdp_table(oem_id(), xsdt_addr(body, n)) },
        PatchView { addr: dsdt_addr(), bytes: dsdt_table(body) },
        PatchView { addr: fadt_addr(body), bytes: sealed(fadt_open(dsdt_addr())) },
        PatchView { addr: madt_addr(body), bytes: madt_table(n) },
        PatchView {
            addr: xsdt_addr(body, n),
            bytes: xsdt_table(fadt_addr(body), madt_addr(body)),
        },
    ]
}

/// What writing the tables leaves, and their result.
pub open spec fn tables_written(m: MemView, body: Seq<u8>, n: int) -> (
    MemView,
    Result<u64, AcpiError>,
) {
    match m.writes(table_patches(body, n)) {
        (m1, Err(e)) => (m1, Err(AcpiError::MemoryWrite(e))),
        (m1, Ok(_)) => (m1, Ok(RSDP_ADDR)),
    }
}

/// Makes the tables around a DSDT body and writes them to guest memory. Gives
/// the address of the RSDP.
pub fn write_tables(memory: &mut GuestMemory, num_vcpus: u8, body: &[u8]) -> (r: Result<
    u64,
    AcpiError,
>)
    requires
        body@.len() <= 0xffff_0000,
    ensures
        (final(memory)@, r) == tables_written(old(memory)@, body@, num_vcpus as int),
{
    let dsdt_bytes = dsdt(body);
    let dsdt_at: u64 = RSDP_ADDR + rsdp_len() as u64;
    let fadt_at: u64 = dsdt_at + dsdt_bytes.len() as u64;
    let fadt_bytes = fadt(dsdt_at);
    let madt_at: u64 = fadt_at + fadt_bytes.len() as u64;
    let madt_bytes = madt(num_vcpus);
    let xsdt_at: u64 = madt_at + madt_bytes.len() as u64;
    let xsdt_bytes = xsdt(fadt_at, madt_at);
    let oem: [u8; 6] = [0x56, 0x49, 0x53, 0x4f, 0x52, 0x20];
    assert(oem@ =~= oem_id());
    let rsdp_bytes = rsdp_bytes(oem, xsdt_at);
    let mut list: Vec<Patch> = Vec::new();
    memory::push_patch(&mut list, RSDP_ADDR, rsdp_bytes);
    memory::push_patch(&mut list, dsdt_at, dsdt_bytes);
    memory::push_patch(&mut list, fadt_at, fadt_bytes);
    memory::push_patch(&mut list, madt_at, madt_bytes);
    memory::push_patch(&mut list, xsdt_at, xsdt_bytes);
    assert(memory::patch_views(list@) =~= table_patches(body@, num_vcpus as int));
    match memory.write_patches(&list) {
        Ok(_) => Ok(RSDP_ADDR),
        Err(e) => Err(AcpiError::MemoryWrite(e)),
    }
}

/// Makes the ACPI tables and writes them to guest memory. Gives the address of
/// the RSDP, which goes into `boot_params`. With every number of vCPUs and
/// devices that is allowed, the tables end below 1 MiB.
pub fn create_acpi_tables(
    memory: &mut GuestMemory,
    num_vcpus: u8,
    mmio_devices: &[MmioDeviceInfo],
) -> (r: Result<u64, AcpiError>)
    ensures
        (final(memory)@, r) == if num_vcpus == 0 {
            (old(memory)@, Err(AcpiError::InvalidVcpuCount(0)))
        } else if mmio_devices@.len() > MAX_DEVICES {
            (old(memory)@, Err(AcpiError::TooManyDevices(mmio_devices@.len() as usize)))
        } else {
            tables_written(
                old(memory)@,
                in_scope(devices_aml(mmio_devices@)),
                num_vcpus as int,
            )
        },
        r is Ok ==> xsdt_addr(in_scope(devices_aml(mmio_devices@)), num_vcpus as int) + 52
            < 0x10_0000,
{
    if num_vcpus == 0 {
        return Err(AcpiError::InvalidVcpuCount(0));
    }
    if mmio_devices.len() > MAX_DEVICES {
        return Err(AcpiError::TooManyDevices(mmio_devices.len()));
    }
    let body = build_dsdt_aml(mmio_devices);
    write_tables(memory, num_vcpus, body.as_slice())
}

/// Changing one byte changes a sum by the difference.
proof fn lemma_sum_update(b: Seq<u8>, i: int, v: u8)
    requires
        0 <= i < b.len(),
    ensures
        byte_sum(b.update(i, v)) == byte_sum(b) - b[i] + v,
    decreases b.len(),
{
    let c = b.update(i, v);
    if i == b.len() - 1 {
        assert(c.drop_last() =~= b.drop_last());
    } else {
        assert(c.drop_last() =~= b.drop_last().update(i, v));
        lemma_sum_update(b.drop_last(), i, v);
    }
}

/// The bytes of a table with its checksum add up to a multiple of 256.
pub proof fn law_sealed_sum(b: Seq<u8>)
    requires
        b.len() > 9,
        b[9] == 0,
    ensures
        byte_sum(sealed(b)) % 256 == 0,
{
    lemma_sum_update(b, 9, checksum(b));
    let s = byte_sum(b) as int;
    assert((s + (256 - s % 256) % 256) % 256 == 0) by {
        if s % 256 != 0 {
            assert((256 - s % 256) % 256 == 256 - s % 256);
        }
    }
}

/// A grown table has its checksum.
proof fn lemma_grown_sum(t: Seq<u8>, more: Seq<u8>)
    requires
        t.len() >= 36,
    ensures
        byte_sum(grown(t, more)) % 256 == 0,
        grown(t, more).len() == t.len() + more.len(),
{
    let b = t.subrange(0, 4) + bytes::le32_bytes((t.len() + more.len()) as u32) + seq![t[8], 0u8]
        + t.subrange(10, t.len() as int) + more;
    assert(b[9] == 0);
    law_sealed_sum(b);
}

/// The sizes of MADTs.
proof fn lemma_madt_len(n: int)
    requires
        0 <= n,
    ensures
        madt_table(n).len() == 56 + 8 * n,
        byte_sum(madt_table(n)) % 256 == 0,
    decreases n,
{
    let head = sealed(
        table_header(
            seq![0x41u8, 0x50u8, 0x49u8, 0x43u8],
            44,
            1,
            oem_id(),
            oem_table(0x4d, 0x41, 0x44),
            OEM_REVISION,
        ) + bytes::le32_bytes(LAPIC_ADDR) + bytes::le32_bytes(0),
    );
    if n == 0 {
        lemma_grown_sum(head, io_apic(0, IOAPIC_ADDR, 0));
    } else {
        lemma_madt_len(n - 1);
        lemma_grown_sum(madt_table(n - 1), local_apic((n - 1) as u8, (n - 1) as u8));
    }
}

/// The bytes of every table add up to a multiple of 256, and so do the first 20
/// bytes of the RSDP.
pub proof fn law_checksums(body: Seq<u8>, n: int)
    requires
        0 <= n <= 255,
    ensures
        forall|i: int|
            0 <= i < 5 ==> byte_sum((#[trigger] table_patches(body, n)[i]).bytes) % 256 == 0,
        byte_sum(table_patches(body, n)[0].bytes.take(20)) % 256 == 0,
{
    let list = table_patches(body, n);
    reveal(dsdt_table);
    reveal(fadt_open);
    lemma_rsdp_sums(xsdt_addr(body, n));
    lemma_grown_sum(
        sealed(
            table_header(
                seq![0x44u8, 0x53u8, 0x44u8, 0x54u8],
                36,
                DSDT_REVISION,
                oem_id(),
                oem_table(0x44, 0x53, 0x44),
                OEM_REVISION,
            ),
        ),
        body,
    );
    assert(fadt_open(dsdt_addr())[9] == 0);
    law_sealed_sum(fadt_open(dsdt_addr()));
    lemma_madt_len(n);
    lemma_xsdt_sum(fadt_addr(body), madt_addr(body));
    assert forall|i: int| 0 <= i < 5 implies byte_sum((#[trigger] list[i]).bytes) % 256 == 0 by {
        if i == 0 {
        } else if i == 1 {
        } else if i == 2 {
        } else if i == 3 {
        } else {
        }
    }
}

proof fn lemma_rsdp_sums(xsdt_at: u64)
    ensures
        byte_sum(rsdp_table(oem_id(), xsdt_at)) % 256 == 0,
        byte_sum(rsdp_table(oem_id(), xsdt_at).take(20)) % 256 == 0,
        rsdp_table(oem_id(), xsdt_at).len() == 36,
{
    reveal(rsdp_table);
    let b = rsdp_open(oem_id(), xsdt_at);
    let c = b.update(8, checksum(b.take(20)));
    let d = c.update(32, checksum(c));
    assert(b[32] == 0 && b[8] == 0);
    lemma_sum_update(c, 32, checksum(c));
    assert(d.take(20) =~= b.take(20).update(8, checksum(b.take(20))));
    lemma_sum_update(b.take(20), 8, checksum(b.take(20)));
    lemma_seal_arith(byte_sum(c) as int);
    lemma_seal_arith(byte_sum(b.take(20)) as int);
}

proof fn lemma_seal_arith(s: int)
    requires
        0 <= s,
    ensures
        (s + (256 - s % 256) % 256) % 256 == 0,
{
    if s % 256 != 0 {
        assert((256 - s % 256) % 256 == 256 - s % 256);
    }
}

proof fn lemma_xsdt_sum(fadt_at: u64, madt_at: u64)
    ensures
        byte_sum(xsdt_table(fadt_at, madt_at)) % 256 == 0,
        xsdt_table(fadt_at, madt_at).len() == 52,
{
    reveal(xsdt_table);
    let head = sealed(
        table_header(
            seq![0x58u8, 0x53u8, 0x44u8, 0x54u8],
            36,
            1,
            oem_id(),
            oem_table(0x58, 0x53, 0x44),
            OEM_REVISION,
        ),
    );
    lemma_grown_sum(head, bytes::le64_bytes(fadt_at));
    lemma_grown_sum(grown(head, bytes::le64_bytes(fadt_at)), bytes::le64_bytes(madt_at));
}

/// The tables point to each other: the RSDP to the XSDT, the XSDT to the FADT
/// and the MADT, the FADT to the DSDT.
pub proof fn law_tables_linked(body: Seq<u8>, n: int)
    requires
        0 <= n <= 255,
    ensures
        ({
            let list = table_patches(body, n);
            &&& list[0].bytes.subrange(24, 32) == bytes::le64_bytes(list[4].addr)
            &&& list[4].bytes.subrange(36, 44) == bytes::le64_bytes(list[2].addr)
            &&& list[4].bytes.subrange(44, 52) == bytes::le64_bytes(list[3].addr)
            &&& list[2].bytes.subrange(140, 148) == bytes::le64_bytes(list[1].addr)
        }),
{
    let list = table_patches(body, n);
    reveal(rsdp_table);
    reveal(fadt_open);
    assert(list[0].bytes.subrange(24, 32) =~= bytes::le64_bytes(list[4].addr));
    lemma_xsdt_entries(fadt_addr(body), madt_addr(body));
    assert(list[2].bytes.subrange(140, 148) =~= bytes::le64_bytes(list[1].addr));
}

proof fn lemma_xsdt_entries(fadt_at: u64, madt_at: u64)
    ensures
        xsdt_table(fadt_at, madt_at).subrange(36, 44) == bytes::le64_bytes(fadt_at),
        xsdt_table(fadt_at, madt_at).subrange(44, 52) == bytes::le64_bytes(madt_at),
{
    lemma_xsdt_sum(fadt_at, madt_at);
    reveal(xsdt_table);
    let t = xsdt_table(fadt_at, madt_at);
    assert(t.subrange(36, 44) =~= bytes::le64_bytes(fadt_at));
    assert(t.subrange(44, 52) =~= bytes::le64_bytes(madt_at));
}

/// The tables lie one behind the other in guest memory, each of them whole.
pub proof fn law_tables_in_place(m: MemView, body: Seq<u8>, n: int, i: int)
    requires
        0 <= n <= 255,
        body.len() <= 0xffff_0000,
        36 + body.len() <= usize::MAX,
        tables_written(m, body, n).1 is Ok,
        0 <= i < 5,
    ensures
        ({
            let p = table_patches(body, n)[i];
            &&& tables_written(m, body, n).0.read(p.addr, p.bytes.len() as usize) == Ok::<
                Seq<u8>,
                MemoryError,
            >(p.bytes)
            &&& i < 4 ==> p.addr + p.bytes.len() == table_patches(body, n)[i + 1].addr
        }),
{
    let list = table_patches(body, n);
    lemma_rsdp_sums(xsdt_addr(body, n));
    lemma_madt_len(n);
    lemma_xsdt_sum(fadt_addr(body), madt_addr(body));
    reveal(dsdt_table);
    reveal(fadt_open);
    assert(list[1].bytes.len() == 36 + body.len());
    assert(list[2].bytes.len() == 276);
    memory::law_writes_stay(m, list, i);
}

} // verus!

use acpi_tables::rsdp::Rsdp;

use visor_vmm::acpi::{
    build_dsdt_aml, create_acpi_tables, dsdt, encode_pkg_length, fadt, madt, scope_aml, xsdt,
    AcpiError, MmioDeviceInfo, IOAPIC_ADDR, LAPIC_ADDR, RSDP_ADDR,
};
use visor_vmm::memory::GuestMemory;

/// Allocates 4 MiB of guest memory for ACPI tests.
fn test_memory() -> GuestMemory {
    GuestMemory::new(4 * 1024 * 1024, 0).unwrap()
}

/// Reads a 4-byte ACPI table signature from guest memory.
fn read_signature(mem: &GuestMemory, addr: u64) -> [u8; 4] {
    let bytes = mem.read_bytes(addr, 4).unwrap();
    bytes.try_into().unwrap()
}

/// Reads the SDT `length` field (bytes 4..8) from an ACPI table header.
fn read_table_len(mem: &GuestMemory, addr: u64) -> u32 {
    let bytes = mem.read_bytes(addr + 4, 4).unwrap();
    u32::from_le_bytes(bytes.try_into().unwrap())
}

/// Returns `true` if the byte-level checksum of the given data is valid (sum == 0).
fn checksum_valid(data: &[u8]) -> bool {
    data.iter().fold(0u8, |acc, x| acc.wrapping_add(*x)) == 0
}

/// Finds the DSDT guest address (immediately after the RSDP).
fn dsdt_addr() -> u64 {
    RSDP_ADDR + Rsdp::len() as u64
}

/// Finds the FADT guest address (immediately after the DSDT).
fn fadt_addr(mem: &GuestMemory) -> u64 {
    let addr = dsdt_addr();
    addr + u64::from(read_table_len(mem, addr))
}

/// Finds the MADT guest address (immediately after the FADT).
fn madt_addr(mem: &GuestMemory) -> u64 {
    let addr = fadt_addr(mem);
    addr + u64::from(read_table_len(mem, addr))
}

/// Finds the XSDT guest address (immediately after the MADT).
fn xsdt_addr(mem: &GuestMemory) -> u64 {
    let addr = madt_addr(mem);
    addr + u64::from(read_table_len(mem, addr))
}

// RSDP Tests

#[test]
fn returns_rsdp_address() {
    let mut mem = test_memory();
    let addr = create_acpi_tables(&mut mem, 1, &[]).unwrap();
    assert_eq!(addr, RSDP_ADDR);
}

#[test]
fn rsdp_signature_valid() {
    let mut mem = test_memory();
    create_acpi_tables(&mut mem, 1, &[]).unwrap();
    let sig = mem.read_bytes(RSDP_ADDR, 8).unwrap();
    assert_eq!(&sig, b"RSD PTR ");
}

#[test]
fn rsdp_checksum_valid() {
    let mut mem = test_memory();
    create_acpi_tables(&mut mem, 1, &[]).unwrap();
    let data = mem.read_bytes(RSDP_ADDR, Rsdp::len()).unwrap();
    assert!(checksum_valid(&data), "RSDP checksum invalid");
}

#[test]
fn rsdp_points_to_xsdt() {
    let mut mem = test_memory();
    create_acpi_tables(&mut mem, 1, &[]).unwrap();
    let expected_xsdt = xsdt_addr(&mem);
    // xsdt_addr field is at RSDP offset 24 (8 bytes, u64)
    let bytes = mem.read_bytes(RSDP_ADDR + 24, 8).unwrap();
    let xsdt_ptr = u64::from_le_bytes(bytes.try_into().unwrap());
    assert_eq!(xsdt_ptr, expected_xsdt, "RSDP must point to XSDT");
}

// DSDT Tests

#[test]
fn dsdt_follows_rsdp() {
    let mut mem = test_memory();
    create_acpi_tables(&mut mem, 1, &[]).unwrap();
    assert_eq!(read_signature(&mem, dsdt_addr()), *b"DSDT");
}

#[test]
fn dsdt_checksum_valid() {
    let mut mem = test_memory();
    create_acpi_tables(&mut mem, 1, &[]).unwrap();
    let addr = dsdt_addr();
    let len = read_table_len(&mem, addr) as usize;
    let data = mem.read_bytes(addr, len).unwrap();
    assert!(checksum_valid(&data), "DSDT checksum invalid");
}

// FADT Tests

#[test]
fn fadt_follows_dsdt() {
    let mut mem = test_memory();
    create_acpi_tables(&mut mem, 1, &[]).unwrap();
    // FADT uses "FACP" as its ACPI signature
    assert_eq!(read_signature(&mem, fadt_addr(&mem)), *b"FACP");
}

#[test]
fn fadt_checksum_valid() {
    let mut mem = test_memory();
    create_acpi_tables(&mut mem, 1, &[]).unwrap();
    let addr = fadt_addr(&mem);
    let len = read_table_len(&mem, addr) as usize;
    let data = mem.read_bytes(addr, len).unwrap();
    assert!(checksum_valid(&data), "FADT checksum invalid");
}

#[test]
fn fadt_headless_flag_set_without_hw_reduced() {
    let mut mem = test_memory();
    create_acpi_tables(&mut mem, 1, &[]).unwrap();
    let addr = fadt_addr(&mem);
    // flags field is at FADT offset 112 (4 bytes, u32)
    let bytes = mem.read_bytes(addr + 112, 4).unwrap();
    let flags = u32::from_le_bytes(bytes.try_into().unwrap());
    assert_eq!(
        flags & (1 << 20),
        0,
        "HW_REDUCED_ACPI flag must NOT be set (we need legacy ISA IRQs)"
    );
    assert_ne!(flags & (1 << 12), 0, "HEADLESS flag must be set");
}

#[test]
fn fadt_points_to_dsdt_via_x_dsdt() {
    let mut mem = test_memory();
    create_acpi_tables(&mut mem, 1, &[]).unwrap();
    let addr = fadt_addr(&mem);
    let expected_dsdt = dsdt_addr();
    // x_dsdt field is at FADT offset 140 (8 bytes, u64)
    let bytes = mem.read_bytes(addr + 140, 8).unwrap();
    let x_dsdt = u64::from_le_bytes(bytes.try_into().unwrap());
    assert_eq!(x_dsdt, expected_dsdt, "FADT x_dsdt must point to DSDT");
    // 32-bit dsdt field at offset 40 must be zero (we use 64-bit only)
    let bytes32 = mem.read_bytes(addr + 40, 4).unwrap();
    let dsdt32 = u32::from_le_bytes(bytes32.try_into().unwrap());
    assert_eq!(dsdt32, 0, "FADT 32-bit dsdt field must be zero");
}

// MADT Tests

#[test]
fn madt_follows_fadt() {
    let mut mem = test_memory();
    create_acpi_tables(&mut mem, 1, &[]).unwrap();
    // MADT uses "APIC" as its ACPI signature
    assert_eq!(read_signature(&mem, madt_addr(&mem)), *b"APIC");
}

#[test]
fn madt_checksum_valid() {
    let mut mem = test_memory();
    create_acpi_tables(&mut mem, 1, &[]).unwrap();
    let addr = madt_addr(&mem);
    let len = read_table_len(&mem, addr) as usize;
    let data = mem.read_bytes(addr, len).unwrap();
    assert!(checksum_valid(&data), "MADT checksum invalid");
}

#[test]
fn madt_single_vcpu_has_ioapic_and_one_lapic() {
    let mut mem = test_memory();
    create_acpi_tables(&mut mem, 1, &[]).unwrap();
    let len = read_table_len(&mem, madt_addr(&mem));
    // MADT header: 44 bytes, IoApic: 12 bytes, 1x LAPIC: 8 bytes
    assert_eq!(len, 44 + 12 + 8);
}

#[test]
fn madt_multi_vcpu_has_correct_lapic_count() {
    let mut mem = test_memory();
    create_acpi_tables(&mut mem, 4, &[]).unwrap();
    let len = read_table_len(&mem, madt_addr(&mem));
    // MADT header: 44, IoApic: 12, 4x LAPIC: 32
    assert_eq!(len, 44 + 12 + 4 * 8);
}

#[test]
fn madt_max_vcpus() {
    let mut mem = test_memory();
    create_acpi_tables(&mut mem, 255, &[]).unwrap();
    let len = read_table_len(&mem, madt_addr(&mem));
    // MADT header: 44, IoApic: 12, 255x LAPIC: 2040
    assert_eq!(len, 44 + 12 + 255 * 8);
}

#[test]
fn madt_lapic_base_address_set() {
    let mut mem = test_memory();
    create_acpi_tables(&mut mem, 1, &[]).unwrap();
    let addr = madt_addr(&mem);
    // Local APIC address is at MADT offset 36 (4 bytes, u32)
    let bytes = mem.read_bytes(addr + 36, 4).unwrap();
    let lapic_addr = u32::from_le_bytes(bytes.try_into().unwrap());
    assert_eq!(lapic_addr, LAPIC_ADDR);
}

// XSDT Tests

#[test]
fn xsdt_follows_madt() {
    let mut mem = test_memory();
    create_acpi_tables(&mut mem, 1, &[]).unwrap();
    assert_eq!(read_signature(&mem, xsdt_addr(&mem)), *b"XSDT");
}

#[test]
fn xsdt_checksum_valid() {
    let mut mem = test_memory();
    create_acpi_tables(&mut mem, 1, &[]).unwrap();
    let addr = xsdt_addr(&mem);
    let len = read_table_len(&mem, addr) as usize;
    let data = mem.read_bytes(addr, len).unwrap();
    assert!(checksum_valid(&data), "XSDT checksum invalid");
}

#[test]
fn xsdt_contains_fadt_and_madt_entries() {
    let mut mem = test_memory();
    create_acpi_tables(&mut mem, 1, &[]).unwrap();
    let addr = xsdt_addr(&mem);
    let len = read_table_len(&mem, addr);
    // XSDT header: 36 bytes + 2 entries x 8 bytes = 52
    assert_eq!(len, 36 + 2 * 8);
    // First entry (offset 36) must point to FADT
    let bytes = mem.read_bytes(addr + 36, 8).unwrap();
    let entry0 = u64::from_le_bytes(bytes.try_into().unwrap());
    assert_eq!(entry0, fadt_addr(&mem), "XSDT entry 0 must point to FADT");
    // Second entry (offset 44) must point to MADT
    let bytes = mem.read_bytes(addr + 44, 8).unwrap();
    let entry1 = u64::from_le_bytes(bytes.try_into().unwrap());
    assert_eq!(entry1, madt_addr(&mem), "XSDT entry 1 must point to MADT");
}

// Error Cases

#[test]
fn zero_vcpus_returns_error() {
    let mut mem = test_memory();
    let result = create_acpi_tables(&mut mem, 0, &[]);
    assert!(result.is_err());
}

// Full Layout Tests

#[test]
fn all_tables_fit_within_ebda_to_himem() {
    let mut mem = test_memory();
    create_acpi_tables(&mut mem, 1, &[]).unwrap();
    let xsdt_end = xsdt_addr(&mem) + u64::from(read_table_len(&mem, xsdt_addr(&mem)));
    // All tables must fit between EBDA (0xa0000) and HIMEM (0x100000)
    assert!(
        xsdt_end < 0x10_0000,
        "ACPI tables extend past HIMEM boundary"
    );
}

#[test]
fn tables_do_not_overlap_boot_structures() {
    let mut mem = test_memory();
    create_acpi_tables(&mut mem, 1, &[]).unwrap();
    // Boot structures end at PDE_START + 512*8 = 0xb000 + 0x1000 = 0xc000
    // ACPI tables start at 0xa0000 - well above
    assert!(
        RSDP_ADDR > 0xc000,
        "ACPI tables must not overlap page tables"
    );
    // Kernel cmdline is at 0x20000 - also below
    assert!(RSDP_ADDR > 0x2_0000, "ACPI tables must not overlap cmdline");
}

// DSDT contents

#[test]
fn dsdt_describes_the_devices() {
    let mut mem = test_memory();
    let devices = [
        MmioDeviceInfo::new(0xd000_0000, 0x1000, 5),
        MmioDeviceInfo::new(0xd000_1000, 0x1000, 6),
    ];
    create_acpi_tables(&mut mem, 2, &devices).unwrap();
    let addr = dsdt_addr();
    let len = read_table_len(&mem, addr) as usize;
    let data = mem.read_bytes(addr, len).unwrap();
    assert!(checksum_valid(&data));
    for name in [&b"V000"[..], b"V001", b"LNRO0005", b"_SB_"] {
        assert!(
            data.windows(name.len()).any(|w| w == name),
            "{name:?} not found in the DSDT"
        );
    }
    for base in [0xd000_0000u32, 0xd000_1000] {
        let base = base.to_le_bytes();
        assert!(data.windows(4).any(|w| w == base));
    }
    // An extended interrupt descriptor: consumer, level-triggered, active high,
    // shared, one interrupt.
    let irq = [0x89, 0x06, 0x00, 0x09, 0x01, 5, 0, 0, 0];
    assert!(data.windows(irq.len()).any(|w| w == irq));
    // The body is the devices' scope.
    assert_eq!(&data[36..], &build_dsdt_aml(&devices)[..]);
    assert_eq!(dsdt(&build_dsdt_aml(&devices)), data);
}

#[test]
fn package_lengths_count_themselves() {
    assert_eq!(encode_pkg_length(0), vec![1]);
    assert_eq!(encode_pkg_length(62), vec![63]);
    assert_eq!(encode_pkg_length(63), vec![0x41, 0x04]);
    assert_eq!(encode_pkg_length(0x1000), vec![0x83, 0x00, 0x01]);
    assert_eq!(encode_pkg_length(0x10_0000), vec![0xc4, 0x00, 0x00, 0x01]);
    let scope = scope_aml(&[1, 2, 3]);
    assert_eq!(scope[0], 0x10);
    assert_eq!(scope[1] as usize, scope.len() - 1);
    assert!(scope.ends_with(&[1, 2, 3]));
}

#[test]
fn tables_can_be_made_one_by_one() {
    let fadt = fadt(0x1234);
    assert_eq!(&fadt[0..4], b"FACP");
    assert_eq!(&fadt[140..148], &0x1234u64.to_le_bytes());
    let madt = madt(3);
    assert_eq!(madt.len(), 44 + 12 + 3 * 8);
    assert_eq!(&madt[48..52], &IOAPIC_ADDR.to_le_bytes());
    let xsdt = xsdt(0x1000, 0x2000);
    assert_eq!(&xsdt[36..44], &0x1000u64.to_le_bytes());
    assert_eq!(&xsdt[44..52], &0x2000u64.to_le_bytes());
    for table in [fadt, madt, xsdt] {
        assert!(checksum_valid(&table));
    }
}

#[test]
fn errors_are_reported() {
    let mut small = GuestMemory::new(0x1000, 0).unwrap();
    let err = create_acpi_tables(&mut small, 1, &[]).unwrap_err();
    assert!(matches!(err, AcpiError::MemoryWrite(_)), "got: {err:?}");
    let mut mem = test_memory();
    let err = create_acpi_tables(&mut mem, 0, &[]).unwrap_err();
    assert!(matches!(err, AcpiError::InvalidVcpuCount(0)), "got: {err:?}");
}

// Every byte of the tables

/// A table of a header and a body, with its checksum.
fn table(signature: &[u8; 4], revision: u8, oem_table: &[u8; 8], body: &[u8]) -> Vec<u8> {
    let mut t = signature.to_vec();
    let len = u32::try_from(36 + body.len()).unwrap();
    t.extend_from_slice(&len.to_le_bytes());
    t.extend_from_slice(&[revision, 0]);
    t.extend_from_slice(b"VISOR ");
    t.extend_from_slice(oem_table);
    t.extend_from_slice(&1u32.to_le_bytes());
    t.extend_from_slice(b"RVAT");
    t.extend_from_slice(&[0, 0, 0, 1]);
    t.extend_from_slice(body);
    t[9] = t.iter().fold(0u8, |acc, x| acc.wrapping_sub(*x));
    t
}

#[test]
fn tables_byte_by_byte() {
    let mut body = vec![0u8; 240];
    body[131 - 36] = 5;
    body[112 - 36..116 - 36].copy_from_slice(&(1u32 << 12).to_le_bytes());
    body[140 - 36..148 - 36].copy_from_slice(&0x1234_5678_9abc_def0u64.to_le_bytes());
    assert_eq!(fadt(0x1234_5678_9abc_def0), table(b"FACP", 6, b"VISORFAD", &body));

    let mut body = Vec::new();
    body.extend_from_slice(&LAPIC_ADDR.to_le_bytes());
    body.extend_from_slice(&0u32.to_le_bytes());
    body.extend_from_slice(&[1, 12, 0, 0]);
    body.extend_from_slice(&IOAPIC_ADDR.to_le_bytes());
    body.extend_from_slice(&0u32.to_le_bytes());
    for id in 0..3u8 {
        body.extend_from_slice(&[0, 8, id, id, 1, 0, 0, 0]);
    }
    assert_eq!(madt(3), table(b"APIC", 1, b"VISORMAD", &body));

    let mut body = 0x11u64.to_le_bytes().to_vec();
    body.extend_from_slice(&0x22u64.to_le_bytes());
    assert_eq!(xsdt(0x11, 0x22), table(b"XSDT", 1, b"VISORXSD", &body));

    assert_eq!(dsdt(&[7, 8, 9]), table(b"DSDT", 6, b"VISORDSD", &[7, 8, 9]));
}

#[test]
fn rsdp_byte_by_byte() {
    let mut mem = test_memory();
    create_acpi_tables(&mut mem, 1, &[]).unwrap();
    let mut rsdp = b"RSD PTR ".to_vec();
    rsdp.push(0);
    rsdp.extend_from_slice(b"VISOR ");
    rsdp.push(2);
    rsdp.extend_from_slice(&0u32.to_le_bytes());
    rsdp.extend_from_slice(&36u32.to_le_bytes());
    rsdp.extend_from_slice(&xsdt_addr(&mem).to_le_bytes());
    rsdp.extend_from_slice(&[0; 4]);
    rsdp[8] = rsdp[..20].iter().fold(0u8, |acc, x| acc.wrapping_sub(*x));
    rsdp[32] = rsdp.iter().fold(0u8, |acc, x| acc.wrapping_sub(*x));
    assert_eq!(mem.read_bytes(RSDP_ADDR, 36).unwrap(), rsdp);
}

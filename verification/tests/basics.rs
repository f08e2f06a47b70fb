use visor_vmm::bytes::{get_le16, get_le32, get_le64, le16_vec, le32_vec, le64_vec};
use visor_vmm::memory::{push_patch, GuestMemory, MemoryError};
use visor_vmm::path::{is_same_path, join, last_name};
use visor_vmm::pci::{PciBus, PciDevice, PciError};
use visor_vmm::text::{parse_number, push_decimal, push_hex, push_hex_padded, starts_with, trim};
use visor_vmm::transport::{
    read_config_space, DescFault, DeviceType, QueueFault, VirtQueue, VIRTQ_DESC_F_NEXT,
};

// Bytes and texts

#[test]
fn little_endian_round_trip() {
    assert_eq!(get_le16(&le16_vec(0x1234), 0), 0x1234);
    assert_eq!(get_le32(&le32_vec(0x1234_5678), 0), 0x1234_5678);
    assert_eq!(le32_vec(0x1234_5678), vec![0x78, 0x56, 0x34, 0x12]);
    let v = 0x1122_3344_5566_7788;
    assert_eq!(get_le64(&le64_vec(v), 0), v);
}

#[test]
fn numbers_are_written() {
    let mut s = String::new();
    push_decimal(&mut s, 1_234_567_890);
    s.push(' ');
    push_hex(&mut s, 0xd000_00af);
    s.push(' ');
    push_hex_padded(&mut s, 0x7, 4);
    assert_eq!(s, "1234567890 d00000af 0007");
}

#[test]
fn numbers_are_read() {
    assert_eq!(parse_number(b"4294967295", 10, 0xffff_ffff), Some(u64::from(u32::MAX)));
    assert_eq!(parse_number(b"4294967296", 10, 0xffff_ffff), None);
    assert_eq!(parse_number(b"+7f", 16, 0xff), Some(0x7f));
    assert_eq!(parse_number(b"", 10, 9), None);
    assert_eq!(parse_number(b"+", 10, 9), None);
}

#[test]
fn texts_are_trimmed_as_the_standard_library_does() {
    for s in ["", " \t\n", " a b ", "\u{a0}x\u{2003}", "x", "\u{200b}y"] {
        assert_eq!(trim(s), s.trim());
    }
    assert!(starts_with("OK 1", "OK"));
    assert!(!starts_with("O", "OK"));
    assert!(!starts_with("KO", "OK"));
}

#[test]
fn paths_are_joined_and_compared() {
    assert_eq!(join(b"/a", b"b"), b"/a/b");
    assert_eq!(join(b"/a/", b"b"), b"/a/b");
    assert_eq!(join(b"", b"b"), b"b");
    assert_eq!(join(b"/a", b"/b"), b"/b");
    assert!(is_same_path(b"/a//b/.", b"/a/b/"));
    assert!(!is_same_path(b"a/b", b"/a/b"));
    assert_eq!(last_name(b"a/b//"), Some(b"b".to_vec()));
    assert_eq!(last_name(b"a/.."), None);
    assert_eq!(last_name(b"."), None);
    assert_eq!(last_name(b"/"), None);
    assert_eq!(last_name(b"a/."), Some(b"a".to_vec()));
}

// Guest memory

#[test]
fn memory_reads_back_what_was_written() {
    let mut memory = GuestMemory::new(0x1000, 0x8000).unwrap();
    assert_eq!(memory.guest_base(), 0x8000);
    assert_eq!(memory.size(), 0x1000);
    assert_eq!(memory.end_addr(), 0x9000);
    memory.write_bytes(0x8ffe, &[1, 2]).unwrap();
    assert_eq!(memory.read_bytes(0x8ffd, 3).unwrap(), vec![0, 1, 2]);
    let err = memory.write_bytes(0x8fff, &[1, 2]).unwrap_err();
    assert_eq!(
        err,
        MemoryError::OutOfBounds {
            addr: 0x8fff,
            size: 2
        }
    );
    assert_eq!(
        err.message(),
        "guest memory access out of bounds: addr=0x0000000000008fff, size=2"
    );
    assert!(memory.read_bytes(0x7fff, 1).is_err());
    assert!(memory.read_bytes(u64::MAX, 2).is_err());
    assert_eq!(memory.guest_to_host(0x8010), Some(0x10));
    assert_eq!(memory.guest_to_host(0x9000), None);
}

#[test]
fn patches_are_written_in_order() {
    let mut memory = GuestMemory::new(16, 0).unwrap();
    let mut list = Vec::new();
    push_patch(&mut list, 0, vec![1, 1, 1]);
    push_patch(&mut list, 2, vec![2]);
    memory.write_patches(&list).unwrap();
    assert_eq!(memory.read_bytes(0, 4).unwrap(), vec![1, 1, 2, 0]);
    push_patch(&mut list, 15, vec![3, 3]);
    assert!(memory.write_patches(&list).is_err());
}

// Queues

fn queue() -> VirtQueue {
    let mut q = VirtQueue::new(8);
    q.size = 4;
    q.ready = true;
    q.desc_table_addr = 0;
    q.avail_ring_addr = 0x100;
    q.used_ring_addr = 0x200;
    q
}

#[test]
fn chains_are_walked() {
    let mut memory = GuestMemory::new(0x1000, 0).unwrap();
    let q = queue();
    let mut desc = |idx: u64, addr: u64, flags: u16, next: u16| {
        memory.write_bytes(idx * 16, &addr.to_le_bytes()).unwrap();
        memory.write_bytes(idx * 16 + 8, &7u32.to_le_bytes()).unwrap();
        memory.write_bytes(idx * 16 + 12, &flags.to_le_bytes()).unwrap();
        memory.write_bytes(idx * 16 + 14, &next.to_le_bytes()).unwrap();
    };
    desc(2, 0x500, VIRTQ_DESC_F_NEXT, 1);
    desc(1, 0x600, 0, 0);
    desc(3, 0x700, VIRTQ_DESC_F_NEXT, 3);
    let chain = q.read_chain(&memory, 2).unwrap();
    assert_eq!(chain.len(), 2);
    assert_eq!(chain[0].addr, 0x500);
    assert_eq!(chain[1].addr, 0x600);
    assert!(matches!(
        q.read_chain(&memory, 3),
        Err(QueueFault::Descriptor(DescFault::Cycle))
    ));
    let fault = q.read_desc(&memory, 4).unwrap_err();
    let QueueFault::Descriptor(fault) = fault else {
        panic!("the index is at fault");
    };
    assert_eq!(fault.text(), "descriptor index 4 >= queue size 4");
}

#[test]
fn used_ring_is_filled() {
    let mut memory = GuestMemory::new(0x1000, 0).unwrap();
    let mut q = queue();
    q.last_used_idx = 5;
    q.write_used(&mut memory, 3, 77).unwrap();
    q.advance();
    q.write_used_idx(&mut memory).unwrap();
    assert_eq!(memory.read_bytes(0x202, 2).unwrap(), vec![6, 0]);
    // Entry 5 of a ring of four is its second.
    assert_eq!(
        memory.read_bytes(0x204 + 8, 8).unwrap(),
        vec![3, 0, 0, 0, 77, 0, 0, 0]
    );
    q.reset();
    assert!(!q.is_usable());
    assert_eq!(q.max_size, 8);
}

#[test]
fn configuration_ends_in_zeros() {
    let mut data = [0xFF; 4];
    read_config_space(&[1, 2, 3], 1, &mut data);
    assert_eq!(data, [2, 3, 0, 0]);
    read_config_space(&[1, 2, 3], u64::MAX, &mut data);
    assert_eq!(data, [0, 0, 0, 0]);
}

// PCI

#[test]
fn pci_slots() {
    let mut bus = PciBus::new();
    bus.add_device(3, PciDevice::new(DeviceType::Net, 9)).unwrap();
    assert!(matches!(
        bus.add_device(3, PciDevice::new(DeviceType::Net, 9)),
        Err(PciError::SlotTaken)
    ));
    assert!(matches!(
        bus.add_device(32, PciDevice::new(DeviceType::Net, 9)),
        Err(PciError::NoSuchSlot)
    ));
    bus.write(0, &0x8000_1800u32.to_le_bytes());
    let mut data = [0u8; 4];
    bus.read(4, &mut data);
    assert_eq!(u32::from_le_bytes(data), 0x1041_1AF4);
}

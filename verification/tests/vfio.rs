use std::io::{Error, ErrorKind};

use visor_vmm::devices::vfio::{
    check_api_version, check_viable, msix_irq_set, unmap_request, SysfsFault, VfioDmaMap, VfioError,
    VfioPciAddress, VfioRegionInfo, VFIO_API_VERSION, VFIO_CHECK_EXTENSION, VFIO_DEVICE_GET_INFO, VFIO_DEVICE_GET_REGION_INFO, VFIO_DEVICE_RESET, VFIO_DEVICE_SET_IRQS, VFIO_DMA_MAP_FLAG_READ, VFIO_DMA_MAP_FLAG_WRITE, VFIO_GET_API_VERSION, VFIO_GROUP_FLAGS_VIABLE, VFIO_GROUP_GET_DEVICE_FD, VFIO_GROUP_GET_STATUS, VFIO_GROUP_SET_CONTAINER, VFIO_IOMMU_MAP_DMA, VFIO_IOMMU_UNMAP_DMA, VFIO_PCI_BIND_PATH, VFIO_PCI_MSIX_IRQ_INDEX, VFIO_SET_IOMMU, VFIO_TYPE1_IOMMU,
};

fn not_found() -> Error {
    Error::new(ErrorKind::NotFound, "gone")
}

// PCI address parsing

#[test]
fn pci_address_parse_valid() {
    let addr: VfioPciAddress = "0000:03:00.0".parse().unwrap();
    assert_eq!(addr.domain(), 0);
    assert_eq!(addr.bus(), 3);
    assert_eq!(addr.device(), 0);
    assert_eq!(addr.function(), 0);
}

#[test]
fn pci_address_parse_nonzero_domain() {
    let addr: VfioPciAddress = "0001:0a:1f.7".parse().unwrap();
    assert_eq!(addr.domain(), 1);
    assert_eq!(addr.bus(), 0x0A);
    assert_eq!(addr.device(), 0x1F);
    assert_eq!(addr.function(), 7);
}

#[test]
fn pci_address_parse_max_values() {
    let addr: VfioPciAddress = "ffff:ff:1f.7".parse().unwrap();
    assert_eq!(addr.domain(), 0xFFFF);
    assert_eq!(addr.bus(), 0xFF);
    assert_eq!(addr.device(), 31);
    assert_eq!(addr.function(), 7);
}

#[test]
fn pci_address_parse_invalid_format() {
    assert!("invalid".parse::<VfioPciAddress>().is_err());
    assert!("00:00.0".parse::<VfioPciAddress>().is_err());
    assert!("0000:00:00".parse::<VfioPciAddress>().is_err());
    assert!("0000:00:00.".parse::<VfioPciAddress>().is_err());
    assert!("".parse::<VfioPciAddress>().is_err());
}

#[test]
fn pci_address_parse_device_out_of_range() {
    // Device > 31 is invalid (5-bit field)
    assert!("0000:00:20.0".parse::<VfioPciAddress>().is_err());
}

#[test]
fn pci_address_parse_function_out_of_range() {
    // Function > 7 is invalid (3-bit field)
    assert!("0000:00:00.8".parse::<VfioPciAddress>().is_err());
}

#[test]
fn pci_address_display_roundtrip() {
    let addr = VfioPciAddress::new(0, 3, 0, 0);
    let s = addr.text();
    assert_eq!(s, "0000:03:00.0");

    let parsed: VfioPciAddress = s.parse().unwrap();
    assert_eq!(parsed, addr);
}

#[test]
fn pci_address_display_complex() {
    let addr = VfioPciAddress::new(0x0001, 0xFF, 0x1F, 7);
    assert_eq!(addr.text(), "0001:ff:1f.7");
}

#[test]
fn pci_address_components() {
    let addr = VfioPciAddress::new(0x1234, 0xAB, 0x0C, 3);
    assert_eq!(addr.domain(), 0x1234);
    assert_eq!(addr.bus(), 0xAB);
    assert_eq!(addr.device(), 0x0C);
    assert_eq!(addr.function(), 3);
}

#[test]
fn pci_address_sysfs_path() {
    let addr = VfioPciAddress::new(0, 3, 0, 0);
    assert_eq!(
        addr.sysfs_path(),
        "/sys/bus/pci/devices/0000:03:00.0"
    );
}

#[test]
fn pci_address_equality() {
    let a = VfioPciAddress::new(0, 3, 0, 0);
    let b: VfioPciAddress = "0000:03:00.0".parse().unwrap();
    assert_eq!(a, b);

    let c = VfioPciAddress::new(0, 4, 0, 0);
    assert_ne!(a, c);
}

// VFIO error display

#[test]
fn vfio_error_display_messages() {
    let err = VfioError::ApiVersion {
        expected: 0,
        actual: 99,
    };
    let msg = err.message();
    assert!(msg.contains("version mismatch"), "got: {msg}");
    assert!(msg.contains("99"), "got: {msg}");

    let err = VfioError::GroupNotViable { group_id: 42 };
    let msg = err.message();
    assert!(msg.contains("42"), "got: {msg}");
    assert!(msg.contains("not viable"), "got: {msg}");

    let err = VfioError::ParseAddress {
        input: "bad".to_string(),
    };
    let msg = err.message();
    assert!(msg.contains("bad"), "got: {msg}");
}

#[test]
fn find_iommu_group_nonexistent_device() {
    let addr = VfioPciAddress::new(0xFF, 0xFF, 0x1F, 7);
    assert_eq!(
        addr.iommu_group_link(),
        "/sys/bus/pci/devices/00ff:ff:1f.7/iommu_group"
    );
    let result = VfioPciAddress::find_iommu_group(&addr, Err(not_found()));
    assert!(result.is_err());
}

#[test]
fn current_driver_nonexistent_device() {
    let addr = VfioPciAddress::new(0xFF, 0xFF, 0x1F, 7);
    let result = VfioPciAddress::current_driver(&addr, Ok(None));
    // Should return Ok(None) or Err - either is acceptable for nonexistent device
    match result {
        Ok(None) | Err(_) => {} // Either is acceptable for nonexistent device
        Ok(Some(name)) => panic!("unexpected driver {name} for nonexistent device"),
    }
}

// DMA mapping struct

#[test]
fn dma_map_new_rw() {
    let map = VfioDmaMap::new_rw(0x1000, 0x2000, 0x3000);
    assert_eq!(map.iova, 0x1000);
    assert_eq!(map.size, 0x2000);
    assert_eq!(map.user_addr, 0x3000);
    assert_eq!(map.flags, VFIO_DMA_MAP_FLAG_READ | VFIO_DMA_MAP_FLAG_WRITE);
}

// Region info struct

#[test]
fn region_info_new() {
    let info = VfioRegionInfo::new(0, 0x1_0000, 0, 0x07);
    assert_eq!(info.index, 0);
    assert_eq!(info.size, 0x1_0000);
    assert_eq!(info.offset, 0);
    assert!(info.is_readable());
    assert!(info.is_writable());
    assert!(info.is_mmapable());
}

#[test]
fn region_info_flags() {
    // Read-only
    let ro = VfioRegionInfo::new(0, 0x1000, 0, 0x01);
    assert!(ro.is_readable());
    assert!(!ro.is_writable());
    assert!(!ro.is_mmapable());

    // No flags
    let none = VfioRegionInfo::new(0, 0x1000, 0, 0x00);
    assert!(!none.is_readable());
    assert!(!none.is_writable());
    assert!(!none.is_mmapable());
}

// ioctl constant verification

#[test]
fn ioctl_constants_match_expected_values() {
    // Verify our calculated ioctl numbers match what the kernel expects.
    // _IO(';', N) = (0x3B << 8) | N
    assert_eq!(VFIO_GET_API_VERSION, (0x3B << 8) | 100);
    assert_eq!(VFIO_CHECK_EXTENSION, (0x3B << 8) | 101);
    assert_eq!(VFIO_SET_IOMMU, (0x3B << 8) | 102);
    assert_eq!(VFIO_GROUP_GET_STATUS, (0x3B << 8) | 103);
    assert_eq!(VFIO_GROUP_SET_CONTAINER, (0x3B << 8) | 104);
    assert_eq!(VFIO_GROUP_GET_DEVICE_FD, (0x3B << 8) | 106);
    assert_eq!(VFIO_DEVICE_GET_INFO, (0x3B << 8) | 107);
    assert_eq!(VFIO_DEVICE_GET_REGION_INFO, (0x3B << 8) | 108);
    assert_eq!(VFIO_DEVICE_SET_IRQS, (0x3B << 8) | 110);
    assert_eq!(VFIO_DEVICE_RESET, (0x3B << 8) | 111);
    assert_eq!(VFIO_IOMMU_MAP_DMA, (0x3B << 8) | 113);
    assert_eq!(VFIO_IOMMU_UNMAP_DMA, (0x3B << 8) | 114);
}

#[test]
fn vfio_constants_are_correct() {
    assert_eq!(VFIO_API_VERSION, 0);
    assert_eq!(VFIO_TYPE1_IOMMU, 1);
    assert_eq!(VFIO_GROUP_FLAGS_VIABLE, 1);
    assert_eq!(VFIO_DMA_MAP_FLAG_READ, 1);
    assert_eq!(VFIO_DMA_MAP_FLAG_WRITE, 2);
}

// What the kernel is asked, and what it replies

#[test]
fn iommu_group_is_read_from_the_link() {
    let addr = VfioPciAddress::new(0, 3, 0, 0);
    let target = b"../../../kernel/iommu_groups/42".to_vec();
    assert_eq!(
        VfioPciAddress::find_iommu_group(&addr, Ok(target)).unwrap(),
        42
    );
    let err = VfioPciAddress::find_iommu_group(&addr, Ok(b"groups/x7".to_vec())).unwrap_err();
    assert_eq!(
        err.message(),
        "failed to read sysfs for 0000:03:00.0: non-numeric IOMMU group: x7"
    );
    let err = VfioPciAddress::find_iommu_group(&addr, Ok(b"groups/..".to_vec())).unwrap_err();
    assert_eq!(
        err.message(),
        "failed to read sysfs for 0000:03:00.0: invalid iommu_group symlink"
    );
    let err = VfioPciAddress::find_iommu_group(&addr, Ok(b"groups/\xff".to_vec())).unwrap_err();
    assert!(matches!(
        err,
        VfioError::ReadSysfs {
            source: SysfsFault::NoGroupName,
            ..
        }
    ));
}

#[test]
fn driver_is_read_from_the_link() {
    let addr = VfioPciAddress::new(0, 3, 0, 0);
    assert_eq!(addr.driver_link(), "/sys/bus/pci/devices/0000:03:00.0/driver");
    let driver = VfioPciAddress::current_driver(
        &addr,
        Ok(Some(b"../../../bus/pci/drivers/vfio-pci/".to_vec())),
    );
    assert_eq!(driver.unwrap().as_deref(), Some("vfio-pci"));
    let driver = VfioPciAddress::current_driver(&addr, Ok(Some(b"/".to_vec())));
    assert_eq!(driver.unwrap().as_deref(), Some("unknown"));
    let err = VfioPciAddress::current_driver(&addr, Err(not_found())).unwrap_err();
    assert!(err.message().contains("gone"));
}

#[test]
fn binding_reports_the_address() {
    let addr = VfioPciAddress::new(0, 3, 0, 1);
    assert_eq!(
        addr.unbind_path(),
        "/sys/bus/pci/devices/0000:03:00.1/driver/unbind"
    );
    assert_eq!(VFIO_PCI_BIND_PATH, "/sys/bus/pci/drivers/vfio-pci/bind");
    assert!(VfioPciAddress::unbind_device(&addr, Ok(())).is_ok());
    assert!(VfioPciAddress::bind_to_vfio(&addr, Ok(())).is_ok());
    let err = VfioPciAddress::unbind_device(&addr, Err(not_found())).unwrap_err();
    assert_eq!(err.message(), "failed to unbind device 0000:03:00.1: gone");
    let err = VfioPciAddress::bind_to_vfio(&addr, Err(not_found())).unwrap_err();
    assert_eq!(err.message(), "failed to bind 0000:03:00.1 to vfio-pci: gone");
}

#[test]
fn api_version_and_viability_are_checked() {
    assert!(check_api_version(0).is_ok());
    let err = check_api_version(-3).unwrap_err();
    assert_eq!(
        err.message(),
        "VFIO API version mismatch: expected 0, got -3"
    );
    assert!(check_viable(7, 1).is_ok());
    assert!(check_viable(7, 3).is_ok());
    let err = check_viable(7, 2).unwrap_err();
    assert_eq!(
        err.message(),
        "VFIO group 7 is not viable (not all devices bound to vfio-pci)"
    );
}

#[test]
fn mapping_requests_have_the_layout_of_the_kernel() {
    let map = VfioDmaMap::new_rw(0x1000, 0x2000, 0x3000);
    let mut expected = Vec::new();
    expected.extend_from_slice(&32u32.to_le_bytes());
    expected.extend_from_slice(&3u32.to_le_bytes());
    expected.extend_from_slice(&0x3000u64.to_le_bytes());
    expected.extend_from_slice(&0x1000u64.to_le_bytes());
    expected.extend_from_slice(&0x2000u64.to_le_bytes());
    assert_eq!(map.request(), expected);

    let mut expected = Vec::new();
    expected.extend_from_slice(&24u32.to_le_bytes());
    expected.extend_from_slice(&0u32.to_le_bytes());
    expected.extend_from_slice(&0x1000u64.to_le_bytes());
    expected.extend_from_slice(&0x2000u64.to_le_bytes());
    assert_eq!(unmap_request(0x1000, 0x2000), expected);
}

#[test]
fn region_info_is_read_from_the_reply() {
    let mut reply = VfioRegionInfo::request(5);
    assert_eq!(reply.len(), 32);
    assert_eq!(&reply[8..12], &5u32.to_le_bytes());
    reply[4] = 7;
    reply[16..24].copy_from_slice(&0x1_0000u64.to_le_bytes());
    reply[24..32].copy_from_slice(&0x500_0000_0000u64.to_le_bytes());
    let info = VfioRegionInfo::from_reply(&reply).unwrap();
    assert_eq!(info.index, 5);
    assert_eq!(info.size, 0x1_0000);
    assert_eq!(info.offset, 0x500_0000_0000);
    assert_eq!(info.flags, 7);
    assert!(VfioRegionInfo::from_reply(&reply[..31]).is_none());
}

#[test]
fn msix_request_lists_the_event_descriptors() {
    let request = msix_irq_set(&[5, 6]).unwrap();
    assert_eq!(request.len(), 28);
    assert_eq!(&request[0..4], &28u32.to_le_bytes());
    assert_eq!(&request[8..12], &VFIO_PCI_MSIX_IRQ_INDEX.to_le_bytes());
    assert_eq!(&request[16..20], &2u32.to_le_bytes());
    assert_eq!(&request[20..24], &5i32.to_le_bytes());
    assert_eq!(&request[24..28], &6i32.to_le_bytes());
}

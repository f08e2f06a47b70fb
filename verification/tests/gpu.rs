use visor_vmm::devices::gpu::{
    detect_gpus, is_gpu_class, is_passthrough_capable, parse_group, parse_sysfs_hex, vendor_name,
    BarFlags, DmaRegion, GpuBarRegion, GpuConfig, GpuDevice, GpuError, GpuPassthrough,
    PciAttributes, ResetMethod,
};

/// The PCI devices of a host with one GPU, which shows its console.
fn host() -> Vec<PciAttributes> {
    vec![
        PciAttributes {
            pci_address: "0000:21:00.0".into(),
            class: Some("0x020000\n".into()),
            vendor: Some("0x8086\n".into()),
            device: Some("0x1533\n".into()),
            driver: Some("igb".into()),
            iommu_group: Some("41".into()),
            boot_vga: None,
        },
        PciAttributes {
            pci_address: "0000:22:00.0".into(),
            class: Some("0x030000\n".into()),
            vendor: Some("0x1a03\n".into()),
            device: Some("0x2000\n".into()),
            driver: Some("ast".into()),
            iommu_group: Some("42".into()),
            boot_vga: Some("1\n".into()),
        },
    ]
}

fn spare_gpu() -> PciAttributes {
    PciAttributes {
        pci_address: "0000:01:00.0".into(),
        class: Some("0x030200".into()),
        vendor: Some("0x10de".into()),
        device: Some("0x1234".into()),
        driver: Some("nvidia".into()),
        iommu_group: Some("1".into()),
        boot_vga: Some("0".into()),
    }
}

// Detection

#[test]
fn test_detect_gpus_returns_list() {
    let list = detect_gpus(&host());
    assert_eq!(list.len(), 1);
    for gpu in &list {
        assert!(!gpu.pci_address.is_empty(), "PCI address must not be empty");
    }
    assert!(detect_gpus(&Vec::new()).is_empty());
}

#[test]
fn test_gpu_device_from_sysfs_entry() {
    let gpus = detect_gpus(&host());
    let gpu = &gpus[0];
    assert!(!gpu.pci_address.is_empty());
    assert_ne!(gpu.vendor_id, 0, "vendor_id must not be zero");
    assert_ne!(gpu.device_id, 0, "device_id must not be zero");
    assert_eq!(gpu.pci_class, 0x03_0000);
    assert_eq!(gpu.vendor_name, "ASPEED Technology");
    assert_eq!(gpu.iommu_group, Some(42));
    assert!(gpu.is_boot_vga);
}

#[test]
fn test_gpu_device_display() {
    let gpu = GpuDevice {
        pci_address: "0000:22:00.0".into(),
        vendor_id: 0x1a03,
        device_id: 0x2000,
        device_name: "ASPEED AST2500".into(),
        vendor_name: "ASPEED Technology".into(),
        pci_class: 0x0003_0000,
        current_driver: Some("ast".into()),
        iommu_group: Some(42),
        is_boot_vga: true,
    };
    let display = gpu.describe();
    assert!(
        display.contains("0000:22:00.0"),
        "Display should contain PCI address, got: {display}"
    );
    assert!(
        display.contains("ASPEED"),
        "Display should contain vendor or device name, got: {display}"
    );
}

// Config tests

#[test]
fn test_gpu_config_default() {
    let config = GpuConfig::default();
    assert!(config.pci_address.is_none(), "default should auto-detect");
    assert!(
        config.vga_arbitration,
        "VGA arbitration should be on by default"
    );
    assert_eq!(
        config.reset_method,
        ResetMethod::Flr,
        "FLR should be default reset method"
    );
}

#[test]
fn test_gpu_config_with_address() {
    let config = GpuConfig {
        pci_address: Some("0000:01:00.0".into()),
        ..GpuConfig::default()
    };
    assert_eq!(config.pci_address.as_deref(), Some("0000:01:00.0"));
}

// Error tests

#[test]
fn test_gpu_error_display() {
    let err = GpuError::NoGpuFound;
    assert_eq!(err.message(), "no GPU found on host");

    let err = GpuError::GpuNotFound {
        address: "0000:01:00.0".into(),
    };
    assert!(err.message().contains("0000:01:00.0"));

    let err = GpuError::BootVga {
        address: "0000:22:00.0".into(),
    };
    assert!(err.message().contains("boot VGA"));

    let err = GpuError::VgaArbitration(std::io::Error::new(
        std::io::ErrorKind::PermissionDenied,
        "no permission",
    ));
    assert!(err.message().contains("VGA arbitration"));

    let err = GpuError::Passthrough("test error".into());
    assert!(err.message().contains("test error"));

    let err = GpuError::Reset {
        address: "0000:01:00.0".into(),
        source: std::io::Error::other("reset failed"),
    };
    assert!(err.message().contains("reset"));
    assert!(err.message().contains("0000:01:00.0"));
}

// PCI class matching

#[test]
fn test_pci_class_is_gpu() {
    // VGA compatible controller
    assert!(is_gpu_class(0x0003_0000), "0x030000 is VGA controller");
    // 3D controller
    assert!(is_gpu_class(0x0003_0200), "0x030200 is 3D controller");
    // Display controller (0x0380xx) - other subclass
    assert!(is_gpu_class(0x0003_8000), "0x038000 is display controller");
}

#[test]
fn test_pci_class_is_not_gpu() {
    // Network controller
    assert!(!is_gpu_class(0x0002_0000), "0x020000 is network, not GPU");
    // Storage controller
    assert!(!is_gpu_class(0x0001_0000), "0x010000 is storage, not GPU");
    // USB controller
    assert!(!is_gpu_class(0x000c_0300), "0x0c0300 is USB, not GPU");
    // Zero
    assert!(!is_gpu_class(0x0000_0000), "0x000000 is not GPU");
}

// Boot VGA check

#[test]
fn test_boot_vga_check() {
    let gpus = detect_gpus(&host());
    for gpu in &gpus {
        if gpu.pci_address == "0000:22:00.0" {
            assert!(gpu.is_boot_vga, "ASPEED 22:00.0 should be boot VGA");
        }
    }

    // Test that a GpuDevice with is_boot_vga=true is flagged.
    let boot_gpu = GpuDevice {
        pci_address: "0000:22:00.0".into(),
        vendor_id: 0x1a03,
        device_id: 0x2000,
        device_name: String::new(),
        vendor_name: String::new(),
        pci_class: 0x0003_0000,
        current_driver: None,
        iommu_group: None,
        is_boot_vga: true,
    };
    assert!(boot_gpu.is_boot_vga);

    let non_boot_gpu = GpuDevice {
        is_boot_vga: false,
        ..boot_gpu
    };
    assert!(!non_boot_gpu.is_boot_vga);
}

// Reset method preference

#[test]
fn test_reset_method_preference() {
    // FLR is highest priority.
    assert!(ResetMethod::Flr < ResetMethod::BusReset);
    assert!(ResetMethod::BusReset < ResetMethod::PmReset);
    assert!(ResetMethod::Flr < ResetMethod::PmReset);

    // Default is FLR.
    assert_eq!(ResetMethod::default(), ResetMethod::Flr);
}

// BAR region struct

#[test]
fn test_bar_region_struct() {
    let bar = GpuBarRegion {
        index: 0,
        offset: 0,
        size: 256 * 1024 * 1024, // 256 MiB
        flags: BarFlags::memory() | BarFlags::prefetchable(),
    };
    assert_eq!(bar.index, 0);
    assert_eq!(bar.size, 256 * 1024 * 1024);
    assert!(bar.flags.contains(BarFlags::memory()));
    assert!(bar.flags.contains(BarFlags::prefetchable()));
    assert!(!bar.flags.contains(BarFlags::io()));
}

#[test]
fn test_bar_region_default() {
    let bar = GpuBarRegion::default();
    assert_eq!(bar.index, 0);
    assert_eq!(bar.offset, 0);
    assert_eq!(bar.size, 0);
    assert!(bar.flags.is_empty());
}

// Vendor name mapping

#[test]
fn test_gpu_vendor_names() {
    assert_eq!(vendor_name(0x10de), "NVIDIA");
    assert_eq!(vendor_name(0x1002), "AMD");
    assert_eq!(vendor_name(0x8086), "Intel");
    assert_eq!(vendor_name(0x1a03), "ASPEED Technology");
    assert_eq!(vendor_name(0xFFFF), "Unknown");
}

// Passthrough-capable check

/// Returns `true` if a passthrough-capable GPU is available on this host.
fn passthrough_gpu_available() -> bool {
    let gpus = detect_gpus(&host());
    gpus.iter()
        .any(|g| !g.is_boot_vga && is_passthrough_capable(g))
}

#[test]
fn test_passthrough_capable_excludes_boot_vga() {
    let gpu = GpuDevice {
        pci_address: "0000:22:00.0".into(),
        vendor_id: 0x1a03,
        device_id: 0x2000,
        device_name: "ASPEED AST2500".into(),
        vendor_name: "ASPEED Technology".into(),
        pci_class: 0x0003_0000,
        current_driver: Some("ast".into()),
        iommu_group: Some(42),
        is_boot_vga: true,
    };
    assert!(
        !is_passthrough_capable(&gpu),
        "boot VGA device should not be passthrough-capable"
    );
}

#[test]
fn test_passthrough_capable_requires_iommu_group() {
    let gpu = GpuDevice {
        pci_address: "0000:01:00.0".into(),
        vendor_id: 0x10de,
        device_id: 0x1234,
        device_name: "Test GPU".into(),
        vendor_name: "NVIDIA".into(),
        pci_class: 0x0003_0000,
        current_driver: Some("nvidia".into()),
        iommu_group: None,
        is_boot_vga: false,
    };
    assert!(
        !is_passthrough_capable(&gpu),
        "device without IOMMU group should not be passthrough-capable"
    );
}

#[test]
fn test_passthrough_capable_good_device() {
    let gpu = GpuDevice {
        pci_address: "0000:01:00.0".into(),
        vendor_id: 0x10de,
        device_id: 0x1234,
        device_name: "Test GPU".into(),
        vendor_name: "NVIDIA".into(),
        pci_class: 0x0003_0000,
        current_driver: Some("nvidia".into()),
        iommu_group: Some(1),
        is_boot_vga: false,
    };
    assert!(
        is_passthrough_capable(&gpu),
        "non-boot GPU with IOMMU group should be passthrough-capable"
    );
}

// Choosing a GPU

#[test]
fn test_gpu_passthrough_no_gpu_available() {
    if passthrough_gpu_available() {
        return;
    }
    // The only GPU is the boot VGA device.
    let config = GpuConfig::default();
    let result = GpuPassthrough::prepare(&config, Ok(detect_gpus(&host())));
    assert!(
        result.is_err(),
        "should fail when no passthrough GPU available"
    );
    match result {
        Err(GpuError::NoGpuFound) => {} // expected
        Err(other) => panic!("expected NoGpuFound, got: {other:?}"),
        Ok(_) => panic!("should not succeed without a passthrough GPU"),
    }
}

#[test]
fn test_gpu_passthrough_boot_vga_rejected() {
    let config = GpuConfig {
        pci_address: Some("0000:22:00.0".into()),
        ..GpuConfig::default()
    };
    let result = GpuPassthrough::prepare(&config, Ok(detect_gpus(&host())));
    // Should fail because 22:00.0 is boot VGA.
    assert!(result.is_err());
    match result {
        Err(GpuError::BootVga { address }) => {
            assert_eq!(address, "0000:22:00.0");
        }
        Err(GpuError::GpuNotFound { .. }) => {
            // Also acceptable if sysfs parsing doesn't find it as GPU.
        }
        Err(other) => panic!("expected BootVga or GpuNotFound, got: {other:?}"),
        Ok(_) => panic!("should not succeed with boot VGA device"),
    }
}

// DMA region struct

#[test]
fn test_dma_region_struct() {
    let region = DmaRegion {
        iova: 0x0,
        size: 1024 * 1024 * 1024, // 1 GiB
    };
    assert_eq!(region.iova, 0x0);
    assert_eq!(region.size, 1024 * 1024 * 1024);
}

// Bar flags

#[test]
fn test_bar_flags_bitwise() {
    let flags = BarFlags::memory() | BarFlags::prefetchable();
    assert!(flags.contains(BarFlags::memory()));
    assert!(flags.contains(BarFlags::prefetchable()));
    assert!(!flags.contains(BarFlags::io()));

    let io_flags = BarFlags::io();
    assert!(io_flags.contains(BarFlags::io()));
    assert!(!io_flags.contains(BarFlags::memory()));
}

// Reset method ordering

#[test]
fn test_reset_method_names() {
    assert_eq!(ResetMethod::Flr.name(), "FLR");
    assert_eq!(ResetMethod::BusReset.name(), "bus reset");
    assert_eq!(ResetMethod::PmReset.name(), "PM reset");
}

// Preparing, reset and DMA

#[test]
fn spare_gpu_is_prepared() {
    let mut devices = host();
    devices.push(spare_gpu());
    let config = GpuConfig::default();
    let mut p = GpuPassthrough::prepare(&config, Ok(detect_gpus(&devices))).unwrap();
    assert_eq!(p.device.pci_address, "0000:01:00.0");
    assert_eq!(p.original_driver.as_deref(), Some("nvidia"));
    assert!(p.bar_regions().is_empty());
    assert!(p.dma_regions().is_empty());

    assert_eq!(p.reset_path(), "/sys/bus/pci/devices/0000:01:00.0/reset");
    assert!(p.reset(Ok(())).is_ok());
    let err = p.reset(Err(std::io::Error::other("no reset"))).unwrap_err();
    assert!(err.message().contains("0000:01:00.0"));

    assert_eq!(p.vga_command(), "decodes none:PCI:0000:01:00.0");
    assert!(!p.vga_disabled);
    assert!(p
        .disable_vga_arbitration(Err(std::io::Error::other("busy")))
        .is_err());
    assert!(!p.vga_disabled);
    assert!(p.disable_vga_arbitration(Ok(())).is_ok());
    assert!(p.vga_disabled);

    p.setup_dma(&[(0, 0x1000), (0x10_0000, 0x2000)]).unwrap();
    assert_eq!(p.dma_regions().len(), 2);
    assert_eq!(p.dma_regions()[1].iova, 0x10_0000);
    let err = p.setup_dma(&[(0, 0x1000), (0x2000, 0)]).unwrap_err();
    assert!(matches!(err, GpuError::DmaSetup(_)));
    assert_eq!(p.dma_regions().len(), 1);
}

#[test]
fn prepare_reports_failures() {
    let config = GpuConfig {
        pci_address: Some("0000:99:00.0".into()),
        ..GpuConfig::default()
    };
    let result = GpuPassthrough::prepare(&config, Ok(detect_gpus(&host())));
    assert!(
        matches!(result, Err(GpuError::GpuNotFound { ref address }) if address == "0000:99:00.0")
    );
    let result = GpuPassthrough::prepare(&config, Err(std::io::Error::other("no sysfs")));
    assert!(matches!(result, Err(GpuError::Detection(_))));

    let mut alone = spare_gpu();
    alone.iommu_group = None;
    let config = GpuConfig {
        pci_address: Some("0000:01:00.0".into()),
        ..GpuConfig::default()
    };
    let result = GpuPassthrough::prepare(&config, Ok(detect_gpus(&vec![alone])));
    assert!(matches!(result, Err(GpuError::NoGpuFound)));
    let result = GpuPassthrough::prepare(&config, Ok(detect_gpus(&vec![spare_gpu()])));
    assert!(result.is_ok());
}

#[test]
fn attributes_are_read() {
    assert_eq!(parse_sysfs_hex("0x030000\n"), Some(0x03_0000));
    assert_eq!(parse_sysfs_hex(" ff "), Some(0xff));
    assert_eq!(parse_sysfs_hex("0xzz"), None);
    assert_eq!(parse_group("42"), Some(42));
    assert_eq!(parse_group("4x"), None);
}

use std::sync::Arc;
use vfio_passthrough::passthrough::{
    VfioDeviceConfig, VfioDeviceManager, VfioPassthroughDevice, VfioPassthroughError,
};
use vfio_passthrough::vmm_config;

fn vmm_cfg(id: &str) -> vmm_config::VfioDeviceConfig {
    vmm_config::VfioDeviceConfig {
        id: id.to_string(),
        iommu_group: 42,
        host_pci_bdf: "0000:01:00.0".to_string(),
        no_iommu: false,
    }
}

#[test]
fn test_vfio_device_manager_empty() {
    let mgr: VfioDeviceManager<u32> = VfioDeviceManager::new();
    assert_eq!(mgr.count(), 0);
    assert!(mgr.devices.is_empty());
}

#[test]
fn test_vfio_device_config_fields() {
    let cfg = VfioDeviceConfig {
        host_dev_path: "/sys/bus/pci/devices/0000:00:01.0".into(),
    };
    assert!(!cfg.host_dev_path.is_empty());
}

#[test]
fn test_vfio_device_config_default() {
    let cfg = vmm_config::VfioDeviceConfig::default();
    assert!(cfg.id.is_empty());
    assert_eq!(cfg.iommu_group, 0);
    assert!(cfg.host_pci_bdf.is_empty());
    assert!(!cfg.no_iommu);
}

#[test]
fn test_vfio_builder_new_is_empty() {
    let builder: vmm_config::VfioDeviceBuilder<u32> = vmm_config::VfioDeviceBuilder::new();
    assert!(builder.devices.is_empty());
    assert!(builder.configs().is_empty());
}

#[test]
fn builder_makes_devices_in_order() {
    let mut builder: vmm_config::VfioDeviceBuilder<u32> = vmm_config::VfioDeviceBuilder::default();
    assert!(builder.build(vmm_cfg("gpu-0"), |c| Ok::<u32, String>(c.iommu_group)).is_ok());
    let restored = Arc::new(vmm_config::VfioDevice { config: vmm_cfg("nic"), handle: 7 });
    builder.add_device(restored.clone());
    assert!(Arc::ptr_eq(&builder.devices[1], &restored));
    assert_eq!(builder.devices[0].handle, 42);
    assert_eq!(builder.devices[1].handle, 7);
    assert_eq!(builder.configs(), vec![vmm_cfg("gpu-0"), vmm_cfg("nic")]);
}

#[test]
fn builder_refuses_an_empty_id() {
    let mut builder: vmm_config::VfioDeviceBuilder<u32> = vmm_config::VfioDeviceBuilder::new();
    let e = builder
        .build(vmm_cfg(""), |_| -> Result<u32, String> { panic!("a device was made") })
        .unwrap_err();
    assert!(matches!(e, vmm_config::VfioDeviceConfigError::EmptyId));
    assert_eq!(e.message(), "VFIO device ID must not be empty");
    assert!(builder.devices.is_empty());
}

#[test]
fn builder_refuses_a_taken_id() {
    let mut builder: vmm_config::VfioDeviceBuilder<u32> = vmm_config::VfioDeviceBuilder::new();
    builder.build(vmm_cfg("a"), |_| Ok::<u32, String>(1)).unwrap();
    let e = builder
        .build(vmm_cfg("a"), |_| -> Result<u32, String> { panic!("a device was made") })
        .unwrap_err();
    assert_eq!(e.message(), "A VFIO device with id 'a' already exists");
    assert!(matches!(e, vmm_config::VfioDeviceConfigError::DeviceAlreadyExists(id) if id == "a"));
    assert_eq!(builder.devices.len(), 1);
    assert_eq!(builder.devices[0].handle, 1);
}

#[test]
fn builder_reports_a_device_that_fails() {
    let mut builder: vmm_config::VfioDeviceBuilder<u32> = vmm_config::VfioDeviceBuilder::new();
    let e = builder.build(vmm_cfg("a"), |_| Err::<u32, u8>(9)).unwrap_err();
    assert_eq!(e.message(), "Failed to create VFIO device 'a': ");
    assert!(
        matches!(e, vmm_config::VfioDeviceConfigError::CreateDevice(id, 9) if id == "a")
    );
    assert!(builder.devices.is_empty());
    builder.build(vmm_cfg("a"), |_| Ok::<u32, u8>(3)).unwrap();
    assert_eq!(builder.devices[0].handle, 3);
}

#[test]
fn configurations_are_cloned_whole() {
    let cfg = vmm_config::VfioDeviceConfig { no_iommu: true, ..vmm_cfg("x") };
    assert_eq!(cfg.clone(), cfg);
}

#[test]
fn device_is_opened_in_its_container() {
    let cfg = VfioDeviceConfig { host_dev_path: "/sys/x".into() };
    let dev = VfioPassthroughDevice::new(
        &cfg,
        || Ok::<u32, u8>(5),
        |path, container| Ok((path.to_string(), *container + 1)),
    )
    .unwrap();
    assert_eq!(dev.sysfs_path(), "/sys/x");
    assert_eq!(dev.device, ("/sys/x".to_string(), 6));
    assert_eq!(dev.container, 5);
    assert!(dev.map_guest_memory(|c| if *c == 5 { Ok(()) } else { Err(1u8) }).is_ok());
    let e = dev.map_guest_memory(|_| Err(1u8)).unwrap_err();
    assert!(matches!(e, VfioPassthroughError::MapGuestMemory(1)));
    assert_eq!(e.message(), "Failed to map guest memory into IOMMU: ");
    assert!(dev.unmap_guest_memory(|_| Ok::<(), u8>(())).is_ok());
    let e = dev.unmap_guest_memory(|_| Err(2u8)).unwrap_err();
    assert!(matches!(e, VfioPassthroughError::UnmapGuestMemory(2)));
    assert_eq!(e.message(), "Failed to unmap guest memory from IOMMU: ");
}

#[test]
fn device_that_cannot_be_opened_is_reported() {
    let e = VfioPassthroughDevice::from_path(
        "/p",
        || Err::<u32, u8>(1),
        |_, _| -> Result<u32, u8> { panic!("a device was opened") },
    )
    .unwrap_err();
    assert!(matches!(e, VfioPassthroughError::CreateContainer(1)));
    assert_eq!(e.message(), "Failed to create VFIO container: ");
    let e = VfioPassthroughDevice::from_path("/p", || Ok::<u32, u8>(1), |_, _| Err::<u32, u8>(2))
        .unwrap_err();
    assert!(matches!(e, VfioPassthroughError::OpenDevice(2)));
    assert_eq!(e.message(), "Failed to open VFIO device: ");
}

#[test]
fn attached_devices_are_counted() {
    let mut mgr: VfioDeviceManager<u32> = VfioDeviceManager::default();
    let a = mgr.attach(10);
    let b = mgr.attach(20);
    assert_eq!((*a, *b), (10, 20));
    assert_eq!(mgr.count(), 2);
    assert!(Arc::ptr_eq(&mgr.devices[1], &b));
}

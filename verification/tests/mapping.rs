use vfio_passthrough::common::DeviceRelocationError;
use vfio_passthrough::dma_engine::{DmaEngine, DmaRequest};
use vfio_passthrough::mmio_mgr::{
    VfioBarRegionInfo, VfioMmioBlacklistEntry, VfioMmioEngine, VfioMmioPassthroughState,
};
use vfio_passthrough::mmio_utils::{
    map_mmio_regions, mmio_target, plan_mmio_mapping, unmap_mmio_regions, MmapRequest, MmapTarget,
    MmioError, UserMemoryRegion,
};
use vfio_passthrough::msix::VfioInterruptEngine;

#[test]
fn mapping_tells_every_container() {
    let mut engine: DmaEngine<&str> = DmaEngine::new();
    engine.register_container("a");
    engine.register_container("b");
    let requests = engine.map_guest_memory(0x1000, 0x2000, 0x7f00).unwrap();
    assert_eq!(
        requests,
        vec![
            DmaRequest::DmaMap { container: 0, iova: 0x1000, size: 0x2000, user_addr: 0x7f00 },
            DmaRequest::DmaMap { container: 1, iova: 0x1000, size: 0x2000, user_addr: 0x7f00 },
        ]
    );
    assert_eq!(engine.mapped_guest_regions, vec![(0x1000, 0x2000)]);
    assert_eq!(engine.containers, vec!["a", "b"]);
}

#[test]
fn region_is_not_mapped_twice() {
    let mut engine: DmaEngine<u8> = DmaEngine::new();
    engine.map_guest_memory(0x1000, 0x2000, 1).unwrap();
    assert!(engine.map_guest_memory(0x1000, 0x2000, 2).is_err());
    assert!(engine.map_guest_memory(0x1000, 0x1000, 2).is_ok());
    assert_eq!(engine.mapped_guest_regions, vec![(0x1000, 0x2000), (0x1000, 0x1000)]);
}

#[test]
fn unmapping_a_region_undoes_mapping_it() {
    let mut engine: DmaEngine<u8> = DmaEngine::new();
    engine.register_container(9);
    engine.map_guest_memory(0, 10, 1).unwrap();
    engine.map_guest_memory(20, 10, 1).unwrap();
    engine.map_guest_memory(40, 10, 1).unwrap();
    let requests = engine.unmap_guest_memory(20, 10, 1).unwrap();
    assert_eq!(requests, vec![DmaRequest::DmaUnmap { container: 0, iova: 20, size: 10 }]);
    assert_eq!(engine.mapped_guest_regions, vec![(0, 10), (40, 10)]);
    assert!(engine.map_guest_memory(20, 10, 1).is_ok());
    assert_eq!(engine.unmap_guest_memory(77, 7, 0).unwrap().len(), 1);
    assert_eq!(engine.mapped_guest_regions.len(), 3);
}

#[test]
fn everything_is_unmapped_region_by_region() {
    let mut engine: DmaEngine<u8> = DmaEngine::new();
    engine.register_container(1);
    engine.register_container(2);
    engine.map_guest_memory(0, 10, 1).unwrap();
    engine.map_guest_memory(20, 5, 1).unwrap();
    assert_eq!(
        engine.unmap_all().unwrap(),
        vec![
            DmaRequest::DmaUnmap { container: 0, iova: 0, size: 10 },
            DmaRequest::DmaUnmap { container: 1, iova: 0, size: 10 },
            DmaRequest::DmaUnmap { container: 0, iova: 20, size: 5 },
            DmaRequest::DmaUnmap { container: 1, iova: 20, size: 5 },
        ]
    );
    assert!(engine.mapped_guest_regions.is_empty());
    assert!(engine.unmap_all().unwrap().is_empty());
}

#[test]
fn refused_mapping_is_taken_back() {
    let mut engine: DmaEngine<u8> = DmaEngine::new();
    engine.register_container(1);
    engine.register_container(2);
    engine.register_container(3);
    engine.map_guest_memory(0, 10, 1).unwrap();
    engine.map_guest_memory(20, 5, 1).unwrap();
    let undo = engine.undo_map(20, 5, 1);
    assert_eq!(undo, vec![DmaRequest::DmaUnmap { container: 0, iova: 20, size: 5 }]);
    assert_eq!(engine.mapped_guest_regions, vec![(0, 10)]);
    assert!(engine.map_guest_memory(20, 5, 1).is_ok());
    assert!(engine.undo_map(20, 5, 0).is_empty());
    assert_eq!(engine.mapped_guest_regions, vec![(0, 10)]);
}

#[test]
fn mapping_is_planned_from_the_region_flags() {
    let target = mmio_target(Some(3), Some(11), 0x4000, 0x1000).unwrap();
    assert_eq!(target, MmapTarget { slot: 3, fd: 11, len: 0x1000, offset: 0x4000 });
    assert_eq!(
        plan_mmio_mapping(target, 7),
        Ok(MmapRequest { target, read: true, write: true })
    );
    assert_eq!(
        plan_mmio_mapping(target, 5),
        Ok(MmapRequest { target, read: true, write: false })
    );
    assert_eq!(
        plan_mmio_mapping(target, 6),
        Ok(MmapRequest { target, read: false, write: true })
    );
    assert_eq!(plan_mmio_mapping(target, 3), Err(MmioError::NotMappable));
    assert_eq!(MmioError::NotMappable.message(), "region does not support mmap");
    assert!(!MmioError::NotMappable.is_invalid_input());
}

#[test]
fn mapping_that_cannot_be_is_refused() {
    let cases = [
        (mmio_target(None, None, u64::MAX, 0), MmioError::NoSlot, "failed to get MMIO slot"),
        (
            mmio_target(Some(1), None, u64::MAX, 0),
            MmioError::NoFileDescriptor,
            "vfio wrapper does not support as_raw_fd",
        ),
        (
            mmio_target(Some(1), Some(2), 1u64 << 63, 0),
            MmioError::OffsetTooLarge,
            "offset too large",
        ),
    ];
    for (result, error, message) in cases {
        assert_eq!(result, Err(error));
        assert_eq!(error.message(), message);
        assert_eq!(error.is_invalid_input(), error == MmioError::OffsetTooLarge);
    }
    assert_eq!(MmioError::LengthTooLarge.message(), "length too large");
    assert!(MmioError::LengthTooLarge.is_invalid_input());
    assert!(mmio_target(Some(1), Some(2), (1u64 << 63) - 1, 0).is_ok());
}

#[test]
fn guest_region_stands_for_the_mapping() {
    let target = mmio_target(Some(3), Some(11), 0x4000, 0x1000).unwrap();
    let request = plan_mmio_mapping(target, 7).unwrap();
    assert_eq!(
        map_mmio_regions(request, 0x8000_0000, Some(0x7fff_0000)),
        Ok(UserMemoryRegion {
            slot: 3,
            flags: 0,
            guest_phys_addr: 0x8000_0000,
            memory_size: 0x1000,
            userspace_addr: 0x7fff_0000,
        })
    );
    let error = map_mmio_regions(request, 0x8000_0000, None).unwrap_err();
    assert_eq!(error, MmioError::MmapFailed);
    assert_eq!(error.message(), "mmap failed");
    assert_eq!(
        unmap_mmio_regions(Some(3)),
        Ok(UserMemoryRegion {
            slot: 3,
            flags: 0,
            guest_phys_addr: 0,
            memory_size: 0,
            userspace_addr: 0,
        })
    );
    assert_eq!(unmap_mmio_regions(None), Err(MmioError::NoSlot));
}

#[test]
fn mmio_engine_keeps_its_blacklist() {
    let mut engine = VfioMmioEngine::new();
    engine.set_blacklist(5, 0x10, 0x20);
    engine.set_blacklist(6, 0x10, 0x20);
    let shown = format!("{:?}", engine);
    assert_eq!(shown.matches("VfioMmioBlacklistEntry").count(), 1);
    assert!(shown.contains("bar_region_id: 5, offset: 16, len: 32"));
    let bars = [VfioBarRegionInfo::default(); 6];
    assert_eq!(engine.map_mmio_region::<u8>(&bars), Ok(()));
    assert_eq!(engine.move_bar(0, 1, 2, 3), Ok::<(), DeviceRelocationError>(()));
    assert_eq!(engine.allocate_bars::<u8>(0, 1, 2), Ok(()));
    assert_eq!(engine.free_bars::<u8>(0, 1), Ok(()));
    let mut data = [1u8, 2, 3];
    engine.read_bar(0, 0, &mut data);
    assert_eq!(data, [1, 2, 3]);
    assert_eq!(engine.write_bar(0, 0, &data), None);
    assert_eq!(format!("{:?}", engine), shown);
}

#[test]
fn mmio_records_default_to_zero() {
    assert_eq!(
        VfioMmioBlacklistEntry::default(),
        VfioMmioBlacklistEntry { bar_region_id: 0, offset: 0, len: 0 }
    );
    assert_eq!(
        VfioMmioPassthroughState::default(),
        VfioMmioPassthroughState { gpa: 0, len: 0, bar_region_id: 0, bar_offset: 0 }
    );
    assert_eq!(
        VfioBarRegionInfo::default(),
        VfioBarRegionInfo { addr: 0, size: 0, used: false }
    );
}

#[test]
fn interrupt_engine_stores_nothing() {
    let mut engine = VfioInterruptEngine::new(4);
    let before = engine;
    engine.write_table(1, 2, &[3]);
    engine.write_pba(1, &[3]);
    engine.set_msg_ctl(0x8000);
    assert_eq!(engine, before);
    let mut data = [7u8; 4];
    engine.read_table(0, 0, &mut data);
    engine.read_pba(0, &mut data);
    assert_eq!(data, [7; 4]);
    assert_eq!(engine.id, 4);
}

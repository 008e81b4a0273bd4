use vfio_ioctls::{VfioRegionInfoCap, VfioRegionInfoCapType};
use vfio_passthrough::access::{
    access_span, is_aligned_access, remap_segment_type, AccessResolution, IovaAccessData,
    IovaAccessType,
};
use vfio_passthrough::bar_location::{insert_in_order, insert_point, BarLocation};
use vfio_passthrough::common::{
    visible_config_value, BarTarget, ConfigWriteAction, VfioCommon,
};
use vfio_passthrough::config_space::{find_msix_cap_offset, msix_layout_for_bar, ConfigSpace};
use vfio_passthrough::configuration::VfioPcieConfiguration;
use vfio_passthrough::memory_recognizer::{
    DeviceRegion, MemoryRecognizer, VfioPcieMemoryRecognizer,
};
use vfio_passthrough::vfio_device::{VfioPciDevice, VfioPciDeviceError};

/// BAR `i` of `sizes[i]` bytes.
fn regions(sizes: [u64; 6]) -> Vec<DeviceRegion> {
    let mut list = Vec::new();
    for (i, size) in sizes.iter().enumerate() {
        list.push(DeviceRegion {
            flags: 7,
            size: *size,
            offset: 0x1000 * i as u64,
            caps: vec![
                VfioRegionInfoCap::MsixMappable,
                VfioRegionInfoCap::Type(VfioRegionInfoCapType { type_: i as u32, subtype: 1 }),
            ],
        });
    }
    list
}

/// A configuration space whose second capability, at 0x50, is MSI-X: `entries` vectors, the table
/// at `table` and the pending bit array at `pba`.
fn space(entries: u16, table: u32, pba: u32) -> ConfigSpace {
    let mut bytes = vec![0u8; 256];
    bytes[0x34] = 0x42;
    bytes[0x40] = 0x01;
    bytes[0x41] = 0x53;
    bytes[0x50] = 0x11;
    bytes[0x52..0x54].copy_from_slice(&(entries - 1).to_le_bytes());
    bytes[0x54..0x58].copy_from_slice(&table.to_le_bytes());
    bytes[0x58..0x5c].copy_from_slice(&pba.to_le_bytes());
    ConfigSpace { bytes }
}

fn no_msix() -> ConfigSpace {
    ConfigSpace { bytes: vec![0u8; 256] }
}

fn at(bar_index: u8, offset: u64, len: u64) -> BarLocation {
    BarLocation { bar_index, offset, len }
}

/// A recognizer with one BAR 0 of 64 KiB, and MSI-X in it.
fn with_msix() -> VfioPcieMemoryRecognizer {
    VfioPcieMemoryRecognizer::new(
        regions([0x1_0000, 0, 0, 0, 0, 0]),
        &space(4, 0x2000, 0x3000),
    )
}

fn types(list: &Vec<AccessResolution>) -> Vec<IovaAccessType> {
    list.iter().map(|r| r.access_type).collect()
}

fn bytes(r: &AccessResolution) -> Vec<u8> {
    match &r.data {
        IovaAccessData::Read { data } => data.to_vec(),
        IovaAccessData::Write { data } => data.to_vec(),
    }
}

fn forwarded(index: u8, offset: u64, data_len: u8) -> IovaAccessType {
    IovaAccessType::BarRegionCanForwardToVfio { index, offset, data_len }
}

#[test]
fn stretches_end_where_the_numbers_end() {
    let location = at(1, 0x10, 0x20);
    assert_eq!(location.end(), 0x30);
    assert!(!location.contains(0xf));
    assert!(location.contains(0x10));
    assert!(location.contains(0x2f));
    assert!(!location.contains(0x30));
    assert_eq!(at(1, u64::MAX - 1, 5).end(), u64::MAX);
}

#[test]
fn stretches_are_kept_in_order() {
    let mut list = vec![at(0, 8, 1), at(2, 0, 1)];
    insert_in_order(&mut list, at(1, 5, 1));
    insert_in_order(&mut list, at(0, 8, 2));
    insert_in_order(&mut list, at(0, 0, 1));
    insert_in_order(&mut list, at(3, 0, 1));
    assert_eq!(
        list,
        vec![at(0, 0, 1), at(0, 8, 1), at(0, 8, 2), at(1, 5, 1), at(2, 0, 1), at(3, 0, 1)]
    );
}

#[test]
fn points_are_kept_once_in_order() {
    let mut points = vec![];
    for x in [5u64, 1, 9, 5, 3, 9] {
        insert_point(&mut points, x);
    }
    assert_eq!(points, vec![1, 3, 5, 9]);
}

#[test]
fn accesses_are_aligned_to_their_size() {
    assert!(is_aligned_access(7, 1));
    assert!(is_aligned_access(6, 2));
    assert!(!is_aligned_access(7, 2));
    assert!(is_aligned_access(4, 4));
    assert!(!is_aligned_access(6, 4));
    assert!(is_aligned_access(8, 8));
    assert!(!is_aligned_access(4, 8));
    assert!(!is_aligned_access(0, 0));
    assert!(!is_aligned_access(0, 3));
    assert!(!is_aligned_access(0, 16));
}

#[test]
fn only_bar_accesses_have_a_span() {
    let table = IovaAccessType::MsixTable { index: 3, offset: 0x2030, data_len: 4 };
    assert_eq!(access_span(&table), Some((0x2030, 4)));
    assert_eq!(access_span(&forwarded(1, 8, 2)), Some((8, 2)));
    assert_eq!(access_span(&IovaAccessType::Pba { offset: 9, data_len: 1 }), Some((9, 1)));
    assert_eq!(access_span(&IovaAccessType::MsixCtrl), None);
    assert_eq!(access_span(&IovaAccessType::InvalidAccess), None);
    assert_eq!(
        remap_segment_type(&table, 0x2032, 2),
        IovaAccessType::MsixTable { index: 3, offset: 0x2032, data_len: 2 }
    );
    assert_eq!(remap_segment_type(&forwarded(1, 8, 2), 9, 1), forwarded(1, 9, 1));
    assert_eq!(
        remap_segment_type(&IovaAccessType::Pba { offset: 8, data_len: 8 }, 12, 4),
        IovaAccessType::Pba { offset: 12, data_len: 4 }
    );
    assert_eq!(
        remap_segment_type(&IovaAccessType::MsixCtrl, 12, 4),
        IovaAccessType::MsixCtrl
    );
}

#[test]
fn config_space_reads_little_endian() {
    let space = ConfigSpace { bytes: vec![1, 2, 3, 4, 5] };
    assert_eq!(space.read_config_byte(4), 5);
    assert_eq!(space.read_config_byte(5), 0);
    assert_eq!(space.read_config_word(0), 0x0201);
    assert_eq!(space.read_config_word(4), 0);
    assert_eq!(space.read_config_dword(1), 0x0504_0302);
    assert_eq!(space.read_config_dword(2), 0);
    assert_eq!(space.read_config_dword(u32::MAX), 0);
}

#[test]
fn msix_is_found_along_the_capability_chain() {
    assert_eq!(find_msix_cap_offset(&space(4, 0x2000, 0x3000)), Some(0x50));
    assert_eq!(find_msix_cap_offset(&no_msix()), None);
    assert_eq!(find_msix_cap_offset(&ConfigSpace { bytes: vec![] }), None);
}

#[test]
fn capability_chain_that_loops_ends() {
    let mut bytes = vec![0u8; 256];
    bytes[0x34] = 0x40;
    bytes[0x41] = 0x40;
    assert_eq!(find_msix_cap_offset(&ConfigSpace { bytes: bytes.clone() }), None);
    bytes[0x41] = 0x60;
    bytes[0x61] = 0x40;
    assert_eq!(find_msix_cap_offset(&ConfigSpace { bytes }), None);
}

#[test]
fn capability_chain_is_followed_for_forty_eight_entries() {
    let mut bytes = vec![0u8; 256];
    bytes[0x34] = 0x04;
    for k in 0..48usize {
        bytes[4 + 4 * k + 1] = (4 + 4 * (k + 1)) as u8;
    }
    let mut last = bytes.clone();
    last[4 + 4 * 47] = 0x11;
    assert_eq!(find_msix_cap_offset(&ConfigSpace { bytes: last }), Some(4 + 4 * 47));
    bytes[4 + 4 * 48] = 0x11;
    assert_eq!(find_msix_cap_offset(&ConfigSpace { bytes }), None);
}

#[test]
fn msix_layout_is_read_from_the_capability() {
    let (table, pba) = msix_layout_for_bar(&space(65, 0x2003, 0x3004), 0x50);
    assert_eq!(table, at(3, 0x2000, 65 * 16));
    assert_eq!(pba, at(4, 0x3000, 16));
    let (table, pba) = msix_layout_for_bar(&space(2048, 0xffff_ffff, 0x0), 0x50);
    assert_eq!(table, at(7, 0xffff_fff8, 2048 * 16));
    assert_eq!(pba, at(0, 0, 256));
    let (_, pba) = msix_layout_for_bar(&space(64, 0, 0), 0x50);
    assert_eq!(pba.len, 8);
}

#[test]
fn bars_begin_at_zero_and_are_found_in_order() {
    let recognizer =
        VfioPcieMemoryRecognizer::new(regions([0, 0x100, 0x200, 0, 0, 0x1_0000_0001]), &no_msix());
    assert_eq!(recognizer.get_bar_region_size(), [0, 0x100, 0x200, 0, 0, 1]);
    let region = recognizer.find_region(0xff).unwrap();
    assert_eq!((region.index, region.start, region.size), (1, 0, 0x100));
    assert_eq!((region.flags, region.offset), (7, 0x1000));
    assert_eq!(region.caps, regions([0; 6])[1].caps);
    assert_eq!(region.clone().caps, region.caps);
    assert_eq!(recognizer.find_region(0x100).unwrap().index, 2);
    assert_eq!(recognizer.find_region(0x200).unwrap().index, 5);
    assert!(recognizer.find_region(0x1_0000_0001).is_none());
}

#[test]
fn moved_bar_is_found_at_its_new_place() {
    let mut recognizer =
        VfioPcieMemoryRecognizer::new(regions([0x100, 0x100, 0, 0, 0, 0]), &no_msix());
    recognizer.on_bar_reprogrammed(1, 0, 0x8000);
    assert_eq!(recognizer.find_region(0x80ff).unwrap().index, 1);
    assert_eq!(recognizer.find_region(0).unwrap().index, 0);
    recognizer.on_bar_reprogrammed(0, 0, u64::MAX - 0xf);
    assert_eq!(recognizer.find_region(u64::MAX).unwrap().index, 0);
    assert!(recognizer.find_region(0).is_none());
    recognizer.on_bar_reprogrammed(6, 0, 0);
    recognizer.on_bar_reprogrammed(0, 0, 0);
    assert_eq!(recognizer.find_region(0).unwrap().index, 0);
}

#[test]
fn config_reads_of_bar_registers_stay_here() {
    let recognizer = with_msix();
    for reg in [4usize, 9, 12] {
        let mut data = [0u8; 4];
        let list = recognizer.parse_ecam_read(reg, &mut data);
        assert_eq!(types(&list), vec![IovaAccessType::BarReg { index: reg as u8 }]);
    }
    for reg in [0usize, 3, 10, 11, 13, 0x14] {
        let mut data = [0u8; 4];
        let list = recognizer.parse_ecam_read(reg, &mut data);
        assert_eq!(
            types(&list),
            vec![IovaAccessType::EcamCanForwardToVfio { reg_idx: reg, offset: 0, data_len: 4 }]
        );
    }
}

#[test]
fn config_writes_are_recognised() {
    let recognizer = with_msix();
    let kind = |reg: usize, offset: u64, data: &[u8]| {
        let list = recognizer.parse_ecam_write(reg, offset, data);
        assert_eq!(list.len(), 1);
        assert_eq!(bytes(&list[0]), data.to_vec());
        list[0].access_type
    };
    assert_eq!(kind(4, 0, &[1, 2, 3, 4]), IovaAccessType::BarReg { index: 4 });
    assert_eq!(kind(12, 0, &[1, 2, 3, 4]), IovaAccessType::BarReg { index: 12 });
    assert_eq!(kind(4, 0, &[1, 2]), IovaAccessType::InvalidAccess);
    assert_eq!(kind(0x14, 2, &[1, 2]), IovaAccessType::MsixCtrl);
    assert_eq!(kind(0x14, 2, &[1]), IovaAccessType::InvalidAccess);
    assert_eq!(kind(0x14, 3, &[1]), IovaAccessType::InvalidAccess);
    assert_eq!(kind(0x14, 0, &[1, 2, 3, 4]), IovaAccessType::InvalidAccess);
    assert_eq!(
        kind(0x14, 0, &[1, 2]),
        IovaAccessType::EcamCanForwardToVfio { reg_idx: 0x14, offset: 0, data_len: 2 }
    );
    assert_eq!(
        kind(1, 1, &[1]),
        IovaAccessType::EcamCanForwardToVfio { reg_idx: 1, offset: 1, data_len: 1 }
    );
    assert_eq!(kind(1, 1, &[1, 2]), IovaAccessType::InvalidAccess);
    assert_eq!(kind(1, 0, &[1, 2, 3]), IovaAccessType::InvalidAccess);
    assert_eq!(kind(1, 0, &[]), IovaAccessType::InvalidAccess);
}

#[test]
fn without_msix_no_register_is_its_control() {
    let recognizer = VfioPcieMemoryRecognizer::new(regions([0; 6]), &no_msix());
    let data = [1u8, 2];
    let list = recognizer.parse_ecam_write(0, 0, &data);
    assert_eq!(
        types(&list),
        vec![IovaAccessType::EcamCanForwardToVfio { reg_idx: 0, offset: 0, data_len: 2 }]
    );
}

#[test]
fn bar_accesses_to_the_msix_structures_stay_here() {
    let recognizer = with_msix();
    let kind = |offset: u64, data: &[u8]| types(&recognizer.parse_bar_write(0, offset, data));
    let d = [0u8; 8];
    let table = |index, offset, data_len| {
        vec![IovaAccessType::MsixTable { index, offset, data_len }]
    };
    assert_eq!(kind(0x2000, &d[..4]), table(0, 0x2000, 4));
    assert_eq!(kind(0x200c, &d[..4]), table(0, 0x200c, 4));
    assert_eq!(kind(0x2010, &d), table(1, 0x2010, 8));
    assert_eq!(kind(0x2038, &d), table(3, 0x2038, 8));
    assert_eq!(kind(0x2040, &d), vec![forwarded(0, 0x2040, 8)]);
    assert_eq!(kind(0x1ff8, &d), vec![forwarded(0, 0x1ff8, 8)]);
    assert_eq!(kind(0x3000, &d), vec![IovaAccessType::Pba { offset: 0x3000, data_len: 8 }]);
    assert_eq!(kind(0x3007, &d[..1]), vec![IovaAccessType::Pba { offset: 0x3007, data_len: 1 }]);
    assert_eq!(kind(0x3008, &d), vec![forwarded(0, 0x3008, 8)]);
    assert_eq!(kind(0x2004, &d), vec![IovaAccessType::InvalidAccess]);
    assert_eq!(kind(0x2000, &d[..3]), vec![IovaAccessType::InvalidAccess]);
}

#[test]
fn msix_structures_are_those_of_their_own_bar() {
    let mut recognizer = VfioPcieMemoryRecognizer::new(
        regions([0x1_0000, 0x10_0000, 0, 0, 0, 0]),
        &space(4, 0x2001, 0x8_0001),
    );
    recognizer.on_bar_reprogrammed(1, 0, 0x10_0000);
    let d = [0u8; 4];
    assert_eq!(types(&recognizer.parse_bar_write(0, 0x2000, &d)), vec![forwarded(0, 0x2000, 4)]);
    assert_eq!(
        types(&recognizer.parse_bar_write(0x10_0000, 0x2000, &d)),
        vec![IovaAccessType::MsixTable { index: 0, offset: 0x2000, data_len: 4 }]
    );
    assert_eq!(
        types(&recognizer.parse_bar_write(0x10_0000, 0x8_0000, &d)),
        vec![IovaAccessType::Pba { offset: 0x8_0000, data_len: 4 }]
    );
    assert_eq!(
        types(&recognizer.parse_bar_write(0x10_0000, 0x8_0008, &d)),
        vec![forwarded(1, 0x8_0008, 4)]
    );
}

#[test]
fn blocked_stretches_cut_a_write() {
    let mut recognizer = with_msix();
    recognizer.add_region_need_discard(at(0, 0x102, 2));
    recognizer.add_region_need_emulation_in_mem(at(0, 0x103, 3));
    recognizer.add_region_need_discard(at(1, 0x100, 8));
    let data = [10u8, 11, 12, 13, 14, 15, 16, 17];
    let list = recognizer.parse_bar_write(0, 0x100, &data);
    assert_eq!(
        types(&list),
        vec![
            forwarded(0, 0x100, 2),
            IovaAccessType::MmioNeededDiscard,
            IovaAccessType::MmioNeededDiscard,
            IovaAccessType::MmioNeededEmulationInMem,
            forwarded(0, 0x106, 2),
        ]
    );
    let parts: Vec<Vec<u8>> = list.iter().map(bytes).collect();
    assert_eq!(parts, vec![vec![10, 11], vec![12], vec![13], vec![14, 15], vec![16, 17]]);
    assert_eq!(parts.concat(), data.to_vec());
}

#[test]
fn pieces_of_a_read_share_the_buffer_out() {
    let mut recognizer = with_msix();
    recognizer.add_region_need_discard(at(0, 0x101, 2));
    let mut data = [0u8; 4];
    let list = recognizer.parse_bar_read(0, 0x100, &mut data);
    let mut n = 1u8;
    for r in list {
        if let IovaAccessData::Read { data } = r.data {
            for b in data.iter_mut() {
                *b = n;
            }
        }
        n += 1;
    }
    assert_eq!(data, [1, 2, 2, 3]);
}

#[test]
fn unblocked_access_stays_whole() {
    let mut recognizer = with_msix();
    recognizer.add_region_need_discard(at(0, 0x104, 4));
    recognizer.add_region_need_emulation_in_mem(at(0, 0xf0, 0x10));
    let data = [1u8, 2, 3, 4];
    assert_eq!(types(&recognizer.parse_bar_write(0, 0x100, &data)), vec![forwarded(0, 0x100, 4)]);
    assert_eq!(
        types(&recognizer.parse_bar_write(0, 0x104, &data)),
        vec![IovaAccessType::MmioNeededDiscard]
    );
}

#[test]
fn blocked_stretches_cut_table_accesses_too() {
    let mut recognizer = with_msix();
    recognizer.add_region_need_emulation_in_mem(at(0, 0x2014, 4));
    let data = [0u8; 8];
    assert_eq!(
        types(&recognizer.parse_bar_write(0, 0x2010, &data)),
        vec![
            IovaAccessType::MsixTable { index: 1, offset: 0x2010, data_len: 4 },
            IovaAccessType::MmioNeededEmulationInMem,
        ]
    );
}

#[test]
fn cut_points_and_kinds_of_a_bar() {
    let mut recognizer = with_msix();
    recognizer.add_region_need_discard(at(0, 10, 5));
    recognizer.add_region_need_emulation_in_mem(at(0, 12, 10));
    recognizer.add_region_need_emulation_in_mem(at(0, 30, 0));
    assert_eq!(recognizer.split_points_for_bar(0, 0, 40), vec![0, 10, 12, 15, 22, 30, 40]);
    assert_eq!(recognizer.split_points_for_bar(0, 11, 13), vec![11, 12, 13]);
    assert_eq!(recognizer.split_points_for_bar(1, 0, 40), vec![0, 40]);
    assert_eq!(recognizer.region_kind_at(0, 9), None);
    assert_eq!(recognizer.region_kind_at(0, 12), Some(IovaAccessType::MmioNeededDiscard));
    assert_eq!(recognizer.region_kind_at(0, 15), Some(IovaAccessType::MmioNeededEmulationInMem));
    assert_eq!(recognizer.region_kind_at(0, 30), None);
}

#[test]
fn several_accesses_are_cut_in_order() {
    let mut recognizer = with_msix();
    recognizer.add_region_need_discard(at(2, 4, 4));
    let one = [1u8, 2, 3, 4, 5, 6];
    let two = [7u8, 8];
    let access = vec![
        AccessResolution {
            access_type: forwarded(2, 2, 6),
            data: IovaAccessData::Write { data: &one },
        },
        AccessResolution {
            access_type: IovaAccessType::MsixCtrl,
            data: IovaAccessData::Write { data: &two },
        },
        AccessResolution {
            access_type: forwarded(2, 4, 0),
            data: IovaAccessData::Write { data: &two },
        },
    ];
    let list = recognizer.filter_bar_region_access(2, access);
    assert_eq!(
        types(&list),
        vec![
            forwarded(2, 2, 2),
            IovaAccessType::MmioNeededDiscard,
            IovaAccessType::MsixCtrl,
            forwarded(2, 4, 0),
        ]
    );
    assert_eq!(bytes(&list[1]), vec![3, 4, 5, 6]);
    assert_eq!(bytes(&list[3]), vec![7, 8]);
}

#[test]
fn passthrough_is_what_is_left() {
    let mut recognizer =
        VfioPcieMemoryRecognizer::new(regions([0x1000, 0, 0x2000, 0, 0, 0]), &no_msix());
    assert_eq!(
        recognizer.get_region_can_passthrough(),
        vec![at(0, 0, 0x1000), at(2, 0, 0x2000)]
    );
    recognizer.add_region_need_discard(at(0, 0x100, 0x100));
    recognizer.add_region_need_emulation_in_mem(at(0, 0x180, 0x100));
    recognizer.add_region_need_emulation_in_mem(at(2, 0, 0x10));
    recognizer.add_region_need_discard(at(2, 0x1ff0, 0x100));
    recognizer.add_region_need_discard(at(2, 0x800, 0));
    assert_eq!(
        recognizer.get_region_can_passthrough(),
        vec![
            at(0, 0, 0x100),
            at(0, 0x280, 0xd80),
            at(2, 0x10, 0x7f0),
            at(2, 0x800, 0x17f0),
        ]
    );
    recognizer.add_region_need_discard(at(0, 0, 0x1000));
    assert_eq!(recognizer.get_region_can_passthrough()[0].bar_index, 2);
}

#[test]
fn emulated_registers_read_as_zero() {
    let mut configuration = VfioPcieConfiguration::new([1, 2, 3, 4, 5, 6]);
    configuration.write_config_register(4, 0, &[0xff; 4]);
    assert_eq!(configuration.read_config_register(4), 0);
    assert_eq!(configuration.read_config_register(5000), 0);
}

fn device() -> VfioCommon {
    VfioCommon::new(1, 0xff, regions([0x1_0000, 0, 0, 0, 0, 0]), &space(4, 0x2000, 0x3000))
}

#[test]
fn config_writes_are_acted_on() {
    let mut common = device();
    assert_eq!(common.write_config_register(4, 0, &[0xff; 4]), ConfigWriteAction::Done);
    assert_eq!(
        common.write_config_register(0x14, 2, &[0x34, 0x12]),
        ConfigWriteAction::SetMsixControl(0x1234)
    );
    assert_eq!(
        common.write_config_register(1, 2, &[0x34, 0x12]),
        ConfigWriteAction::WriteDevice(6)
    );
    assert_eq!(
        common.write_config_register(1, 1, &[0x34, 0x12]),
        ConfigWriteAction::Ignore(IovaAccessType::InvalidAccess)
    );
}

#[test]
fn config_reads_ask_the_device() {
    let mut common = device();
    assert_eq!(common.read_config_register(2, |offset| offset + 1), 9);
    assert_eq!(common.read_config_register(3, |_| 0xffff_ffff), 0xff7f_ffff);
    assert_eq!(common.read_config_register(4, |_| 0xffff_ffff), 0);
    assert_eq!(common.read_config_register(12, |_| 0xffff_ffff), 0);
    for reg in [4usize, 5, 6, 7, 8, 9, 12] {
        assert_eq!(common.read_config_register(reg, |_| panic!("the device was asked")), 0);
    }
}

#[test]
fn only_the_header_type_register_is_masked() {
    assert_eq!(visible_config_value(3, 0x0080_0001), 1);
    assert_eq!(visible_config_value(2, 0x0080_0001), 0x0080_0001);
}

#[test]
fn bar_accesses_go_to_their_targets() {
    let mut common = device();
    common.add_region_need_discard(at(0, 0x104, 2));
    common.add_region_need_emulation_in_mem(at(0, 0x106, 2));
    let data = [1u8, 2, 3, 4, 5, 6, 7, 8];
    let steps = common.write_bar(0, 0x100, &data);
    let targets: Vec<BarTarget> = steps.iter().map(|s| s.target).collect();
    assert_eq!(
        targets,
        vec![
            BarTarget::Device { index: 0, offset: 0x100 },
            BarTarget::Ignore(IovaAccessType::MmioNeededDiscard),
            BarTarget::Ignore(IovaAccessType::MmioNeededEmulationInMem),
        ]
    );
    assert_eq!(steps[0].data, &data[..4]);
    let steps = common.write_bar(0, 0x2020, &data);
    assert_eq!(steps[0].target, BarTarget::MsixTable { index: 2, offset: 0x2020 });
    let mut buffer = [0u8; 8];
    let steps = common.read_bar(0, 0x100, &mut buffer);
    for step in steps {
        if let BarTarget::Device { offset, .. } = step.target {
            step.data[0] = offset as u8 + 9;
        }
    }
    assert_eq!(buffer, [9, 0, 0, 0, 0, 0, 0, 0]);
    let mut buffer = [0u8; 8];
    let steps = common.read_bar(0, 0x3000, &mut buffer);
    assert_eq!(steps[0].target, BarTarget::Pba { offset: 0x3000 });
}

#[test]
fn device_moves_the_bar_that_is_there() {
    let mut common = device();
    assert!(common.move_bar(0, 0x9_0000).is_ok());
    assert_eq!(common.find_region(0x9_0000).unwrap().start, 0x9_0000);
    assert!(common.find_region(0).is_none());
    assert!(common.move_bar(0x10, 0).is_ok());
    assert!(common.find_region(0).is_none());
    assert_eq!(common.get_region_can_passthrough(), vec![at(0, 0, 0x1_0000)]);
}

#[test]
fn device_moves_the_bar_that_begins_there() {
    let mut common = VfioCommon::new(1, 0xff, regions([0x1_0000, 0x100, 0, 0, 0, 0]), &no_msix());
    assert!(common.move_bar(0, 0x8_0000).is_ok());
    assert!(common.move_bar(0, 0x1000).is_ok());
    assert!(common.move_bar(0x8_0000, 0).is_ok());
    assert_eq!(common.find_region(0x1000).unwrap().index, 0);
    assert!(common.move_bar(0x1000, 0x20_0000).is_ok());
    let moved = common.find_region(0x20_0000).unwrap();
    assert_eq!((moved.index, moved.size), (1, 0x100));
    assert_eq!(common.find_region(0).unwrap().index, 0);
    assert!(common.move_bar(0x10, 0x30_0000).is_ok());
    assert!(common.find_region(0x30_0000).is_none());
}

#[test]
fn pending_bits_far_into_a_bar_stay_here() {
    let mut common =
        VfioCommon::new(1, 0xff, regions([0x10_0000, 0, 0, 0, 0, 0]), &space(64, 0x8000, 0x4_8000));
    let steps = common.write_bar(0, 0x4_8000, &[0; 8]);
    assert_eq!(steps.len(), 1);
    assert_eq!(steps[0].target, BarTarget::Pba { offset: 0x4_8000 });
    let mut buffer = [0u8; 4];
    let steps = common.read_bar(0, 0x4_8004, &mut buffer);
    assert_eq!(steps[0].target, BarTarget::Pba { offset: 0x4_8004 });
}

#[test]
fn access_past_the_end_of_its_bar_is_refused() {
    let recognizer = VfioPcieMemoryRecognizer::new(regions([0x14, 0, 0, 0, 0, 0]), &no_msix());
    assert_eq!(
        types(&recognizer.parse_bar_write(0, 0x10, &[0; 8])),
        vec![IovaAccessType::InvalidAccess]
    );
    assert_eq!(types(&recognizer.parse_bar_write(0, 0x10, &[0; 4])), vec![forwarded(0, 0x10, 4)]);
    let mut buffer = [0u8; 8];
    assert_eq!(
        types(&recognizer.parse_bar_read(0, 0x10, &mut buffer)),
        vec![IovaAccessType::InvalidAccess]
    );
}

#[test]
fn config_reads_are_aligned() {
    let recognizer = with_msix();
    let kind = |reg: usize, n: usize| {
        let mut data = vec![0u8; n];
        types(&recognizer.parse_ecam_read(reg, &mut data))[0]
    };
    let whole = |reg_idx| IovaAccessType::EcamCanForwardToVfio { reg_idx, offset: 0, data_len: 4 };
    for n in [1usize, 2, 4] {
        assert_eq!(kind(1, n), whole(1));
    }
    assert_eq!(kind(2, 8), whole(2));
    for (reg, n) in [(1usize, 8usize), (1, 3), (1, 0), (2, 16), (4, 3)] {
        assert_eq!(kind(reg, n), IovaAccessType::InvalidAccess);
    }
    assert_eq!(kind(4, 4), IovaAccessType::BarReg { index: 4 });
    assert_eq!(kind(8, 8), IovaAccessType::BarReg { index: 8 });
    assert_eq!(kind(12, 4), IovaAccessType::BarReg { index: 12 });
    assert_eq!(kind(12, 8), IovaAccessType::InvalidAccess);
}

#[test]
fn passthrough_does_not_move_with_the_bars() {
    let mut recognizer =
        VfioPcieMemoryRecognizer::new(regions([0x1000, 0, 0x2000, 0, 0, 0]), &no_msix());
    recognizer.add_region_need_discard(at(0, 0x100, 0x100));
    recognizer.add_region_need_emulation_in_mem(at(2, 0, 0x10));
    let expected = vec![at(0, 0, 0x100), at(0, 0x200, 0xe00), at(2, 0x10, 0x1ff0)];
    assert_eq!(recognizer.get_region_can_passthrough(), expected);
    recognizer.on_bar_reprogrammed(0, 0, 0x8_0000);
    recognizer.on_bar_reprogrammed(2, 0, 0x80);
    assert_eq!(recognizer.get_region_can_passthrough(), expected);
}

#[test]
fn pieces_are_not_cut_again() {
    let mut recognizer = with_msix();
    recognizer.add_region_need_discard(at(0, 0x102, 2));
    recognizer.add_region_need_emulation_in_mem(at(0, 0x107, 1));
    let data = [0u8, 1, 2, 3, 4, 5, 6, 7];
    let once = recognizer.parse_bar_write(0, 0x100, &data);
    let kinds = types(&once);
    let parts: Vec<Vec<u8>> = once.iter().map(bytes).collect();
    let twice = recognizer.filter_bar_region_access(0, once);
    assert_eq!(types(&twice), kinds);
    assert_eq!(twice.iter().map(bytes).collect::<Vec<_>>(), parts);
}

#[test]
fn pci_device_does_what_its_parts_do() {
    let mut device = VfioPciDevice::new(
        8,
        "0000:00:01.0",
        regions([0x1_0000, 0, 0, 0, 0, 0]),
        &space(4, 0x2000, 0x3000),
    );
    let shown = format!("{:?}", device);
    assert!(shown.contains("id: \"vfio-pci-0000:00:01.0\", pci_device_bdf: 8"));
    assert!(shown.contains("subclass: 255"));
    assert_eq!(
        device.write_config_register(1, 0, &[1]),
        ConfigWriteAction::WriteDevice(4)
    );
    assert_eq!(device.read_config_register(3, |_| 0x80_0000), 0);
    assert!(device.move_bar(0, 0x9_0000).is_ok());
    assert_eq!(device.find_region(0x9_0000).unwrap().index, 0);
    let mut buffer = [5u8; 2];
    let steps = device.read_bar(0x9_0000, 0x10, &mut buffer);
    assert_eq!(steps[0].target, BarTarget::Device { index: 0, offset: 0x10 });
    let steps = device.write_bar(0x9_0000, 0x2000, &[1, 2, 3, 4]);
    assert_eq!(steps[0].target, BarTarget::MsixTable { index: 0, offset: 0x2000 });
    let e: VfioPciDeviceError<u8> = VfioPciDeviceError::Msi(1);
    assert_eq!(e.message(), "Error creating MSI configuration: ");
    let e: VfioPciDeviceError<u8> = VfioPciDeviceError::CreateVfioPciDevice(
        vfio_passthrough::common::DeviceRelocationError::NotSupported,
    );
    assert_eq!(e.message(), "Failed creating VfioPciDevice: ");
}

#[test]
fn reads_and_writes_are_cut_alike() {
    let mut recognizer = with_msix();
    recognizer.add_region_need_discard(at(0, 0x103, 2));
    for offset in [0x100u64, 0x2000, 0x3000, 0x108, 0x101] {
        let written = [1u8; 8];
        let mut buffer = [2u8; 8];
        let writes = types(&recognizer.parse_bar_write(0, offset, &written));
        let reads = types(&recognizer.parse_bar_read(0, offset, &mut buffer));
        assert_eq!(reads, writes);
    }
}

#[test]
fn access_at_the_end_of_the_offsets_is_cut_short() {
    let mut recognizer =
        VfioPcieMemoryRecognizer::new(regions([0x10, 0, 0, 0, 0, 0]), &no_msix());
    recognizer.on_bar_reprogrammed(0, 0, u64::MAX - 0xf);
    let mut buffer = [0u8; 8];
    let list = recognizer.parse_bar_read(0, u64::MAX - 7, &mut buffer);
    assert_eq!(types(&list), vec![forwarded(0, u64::MAX - 7, 7)]);
    assert_eq!(bytes(&list[0]).len(), 7);
    assert_eq!(
        recognizer.get_region_can_passthrough(),
        vec![at(0, 0, 0x10)]
    );
}

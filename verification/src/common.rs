//! What a passed-through device does with the accesses of its guest.

use crate::access::{views, IovaAccessData, IovaAccessType};
use crate::bar_location::BarLocation;
use crate::config_space::{word_at, ConfigSpace};
use crate::configuration::VfioPcieConfiguration;
use crate::memory_recognizer::{
    behind_its_span, is_bar_register, region_at, region_from, DeviceRegion, MemoryRecognizer,
    RecognizerView, RegionView, VfioPcieMemoryRecognizer, VfioRegion, NUM_BAR_NUMS,
    PCI_CONFIG_REGISTER_SIZE,
};
use vstd::prelude::*;

verus! {

/// The configuration register that holds the header type.
pub const HEADER_TYPE_REGISTER: usize = 3;

/// The bit of the header type register that announces several functions.
pub const MULTI_FUNCTION_BIT: u32 = 0x80_0000;

/// Why a device cannot be moved.
#[derive(Debug, Clone, Copy, PartialEq, Eq)]
pub enum DeviceRelocationError {
    /// The device cannot be moved at all.
    NotSupported,
}

/// What is to be done for a write to the configuration space.
#[derive(Debug, Clone, Copy, PartialEq, Eq)]
pub enum ConfigWriteAction {
    /// Nothing more: the registers in memory have taken the write.
    Done,
    /// Set the MSI-X message control register.
    SetMsixControl(u16),
    /// Write the bytes to the configuration space of the device, at this offset.
    WriteDevice(u32),
    /// Nothing: the write is refused.
    Ignore(IovaAccessType),
}

/// Where a piece of an access to a BAR goes.
#[derive(Debug, Clone, Copy, PartialEq, Eq)]
#[allow(inconsistent_fields)]
pub enum BarTarget {
    /// To an entry of the MSI-X table.
    MsixTable { index: u16, offset: u64 },
    /// To the pending bit array.
    Pba { offset: u64 },
    /// To a region of the device.
    Device { index: u32, offset: u64 },
    /// Nowhere: the bytes stay as they are.
    Ignore(IovaAccessType),
}

/// A piece of a read from a BAR: where to read, and the buffer to fill.
#[derive(Debug)]
pub struct BarRead<'a> {
    /// Where to read.
    pub target: BarTarget,
    /// The buffer to fill.
    pub data: &'a mut [u8],
}

/// A piece of a write to a BAR: where to write, and the bytes to write.
#[derive(Debug)]
pub struct BarWrite<'a> {
    /// Where to write.
    pub target: BarTarget,
    /// The bytes to write.
    pub data: &'a [u8],
}

/// Where an access goes that was recognised so.
pub open spec fn target_of(access_type: IovaAccessType) -> BarTarget {
    match access_type {
        IovaAccessType::MsixTable { index, offset, .. } => BarTarget::MsixTable { index, offset },
        IovaAccessType::Pba { offset, .. } => BarTarget::Pba { offset },
        IovaAccessType::BarRegionCanForwardToVfio { index, offset, .. } => BarTarget::Device {
            index: index as u32,
            offset,
        },
        _ => BarTarget::Ignore(access_type),
    }
}

/// Tells where an access goes that was recognised so.
fn bar_target(access_type: IovaAccessType) -> (r: BarTarget)
    ensures
        r == target_of(access_type),
{
    match access_type {
        IovaAccessType::MsixTable { index, offset, .. } => BarTarget::MsixTable { index, offset },
        IovaAccessType::Pba { offset, .. } => BarTarget::Pba { offset },
        IovaAccessType::BarRegionCanForwardToVfio { index, offset, .. } => BarTarget::Device {
            index: index as u32,
            offset,
        },
        _ => BarTarget::Ignore(access_type),
    }
}

/// What is to be done for a write to the configuration space that was recognised so.
pub open spec fn config_write_action(
    access_type: IovaAccessType,
    data: Seq<u8>,
) -> ConfigWriteAction {
    match access_type {
        IovaAccessType::BarReg { .. } => ConfigWriteAction::Done,
        IovaAccessType::MsixCtrl => ConfigWriteAction::SetMsixControl(word_at(data, 0)),
        IovaAccessType::EcamCanForwardToVfio { reg_idx, offset, .. } =>
            ConfigWriteAction::WriteDevice((4 * reg_idx + offset) as u32),
        _ => ConfigWriteAction::Ignore(access_type),
    }
}

/// What the guest sees of a configuration register that holds `value`. The virtual device has
/// one function only.
pub open spec fn visible_value(reg_idx: usize, value: u32) -> u32 {
    if reg_idx == HEADER_TYPE_REGISTER {
        value & !MULTI_FUNCTION_BIT
    } else {
        value
    }
}

/// Hides from the value of a configuration register what the guest must not see.
pub fn visible_config_value(reg_idx: usize, value: u32) -> (r: u32)
    ensures
        r == visible_value(reg_idx, value),
{
    if reg_idx == HEADER_TYPE_REGISTER {
        value & !MULTI_FUNCTION_BIT
    } else {
        value
    }
}

/// The guest never sees the multi-function bit, and sees everything else as it is.
pub proof fn multi_function_bit_is_hidden(value: u32)
    ensures
        visible_value(HEADER_TYPE_REGISTER, value) & MULTI_FUNCTION_BIT == 0,
        visible_value(HEADER_TYPE_REGISTER, value) | (value & MULTI_FUNCTION_BIT) == value,
{
    assert((value & !0x80_0000u32) & 0x80_0000u32 == 0) by (bit_vector);
    assert((value & !0x80_0000u32) | (value & 0x80_0000u32) == value) by (bit_vector);
}

/// A passed-through device: the registers emulated for it, and what recognises the accesses of
/// its guest.
#[derive(Debug)]
pub struct VfioCommon {
    id: u32,
    subclass: u8,
    configuration: VfioPcieConfiguration,
    memory_recognizer: VfioPcieMemoryRecognizer,
}

impl VfioCommon {
    /// The number of the device.
    pub closed spec fn id(self) -> u32 {
        self.id
    }

    /// The subclass of the device.
    pub closed spec fn subclass(self) -> u8 {
        self.subclass
    }

    /// The registers emulated for the device.
    pub closed spec fn configuration(self) -> VfioPcieConfiguration {
        self.configuration
    }

    /// What is known of the address space of the device.
    pub closed spec fn recognizer(self) -> RecognizerView {
        self.memory_recognizer@
    }

    /// What every device keeps.
    pub open spec fn valid(self) -> bool {
        self.configuration().valid() && self.recognizer().valid()
    }

    /// Makes a device from what it reports of its six BARs and from its configuration space.
    pub fn new(
        id: u32,
        subclass: u8,
        device_regions: Vec<DeviceRegion>,
        config: &ConfigSpace,
    ) -> (r: Self)
        requires
            device_regions@.len() == NUM_BAR_NUMS,
        ensures
            r.valid(),
            r.id() == id,
            r.subclass() == subclass,
            r.configuration().bar_region_size() == Seq::new(
                6,
                |i: int| device_regions@[i].size as u32,
            ),
            forall|i: int|
                0 <= i < NUM_BAR_NUMS ==> #[trigger] r.recognizer().regions[i] == (RegionView {
                    index: i as u32,
                    start: 0,
                    flags: device_regions@[i].flags,
                    size: device_regions@[i].size,
                    offset: device_regions@[i].offset,
                    caps: device_regions@[i].caps@,
                }),
            r.recognizer().blocked.discard.len() == 0,
            r.recognizer().blocked.emulate.len() == 0,
            r.recognizer().has_msix_of(config@),
    {
        let memory_recognizer = VfioPcieMemoryRecognizer::new(device_regions, config);
        let sizes = memory_recognizer.get_bar_region_size();
        proof {
            assert forall|i: int|
                0 <= i < 6 implies sizes@[i] == device_regions@[i].size as u32 by {
                assert(memory_recognizer@.regions[i].size == device_regions@[i].size);
            }
            assert(sizes@ =~= Seq::new(6, |i: int| device_regions@[i].size as u32));
        }
        VfioCommon {
            id,
            subclass,
            configuration: VfioPcieConfiguration::new(sizes),
            memory_recognizer,
        }
    }

    /// Keeps the accesses to a stretch of a BAR from the device; they are dropped.
    pub fn add_region_need_discard(&mut self, region: BarLocation)
        requires
            old(self).valid(),
        ensures
            final(self).valid(),
            final(self).id() == old(self).id(),
            final(self).subclass() == old(self).subclass(),
            final(self).configuration() == old(self).configuration(),
            final(self).recognizer() == old(self).recognizer().with_discard(region),
    {
        self.memory_recognizer.add_region_need_discard(region);
    }

    /// Keeps the accesses to a stretch of a BAR from the device; they are emulated in memory.
    pub fn add_region_need_emulation_in_mem(&mut self, region: BarLocation)
        requires
            old(self).valid(),
        ensures
            final(self).valid(),
            final(self).id() == old(self).id(),
            final(self).subclass() == old(self).subclass(),
            final(self).configuration() == old(self).configuration(),
            final(self).recognizer() == old(self).recognizer().with_emulation(region),
    {
        self.memory_recognizer.add_region_need_emulation_in_mem(region);
    }

    /// The first BAR that holds the guest physical address.
    pub fn find_region(&self, addr: u64) -> (r: Option<VfioRegion>)
        ensures
            match r {
                Some(region) => region_at(self.recognizer().regions, addr as int) == Some(region@),
                None => region_at(self.recognizer().regions, addr as int) is None,
            },
    {
        self.memory_recognizer.find_region(addr)
    }

    /// The stretches of the BARs that the device has, by BAR and offset.
    pub fn get_region_can_passthrough(&self) -> (r: Vec<BarLocation>)
        requires
            self.valid(),
        ensures
            r@ == self.recognizer().passthrough(),
    {
        self.memory_recognizer.get_region_can_passthrough()
    }

    /// Takes a write of the guest to the configuration space, `offset` bytes into a register, and
    /// says what is to be done for it.
    pub fn write_config_register(&mut self, reg_idx: usize, offset: u64, data: &[u8]) -> (r:
        ConfigWriteAction)
        requires
            old(self).valid(),
            reg_idx * PCI_CONFIG_REGISTER_SIZE + offset <= usize::MAX,
        ensures
            *final(self) == *old(self),
            r == config_write_action(
                old(self).recognizer().ecam_write_type(reg_idx, offset, data@.len() as int),
                data@,
            ),
    {
        let access_resolutions = self.memory_recognizer.parse_ecam_write(reg_idx, offset, data);
        proof {
            assert(views(access_resolutions@).len() == 1);
            assert(access_resolutions@[0]@ == views(access_resolutions@)[0]);
        }
        let access_type = access_resolutions[0].access_type;
        match access_type {
            IovaAccessType::BarReg { .. } => {
                self.configuration.write_config_register(reg_idx, offset, data);
                ConfigWriteAction::Done
            },
            IovaAccessType::MsixCtrl => ConfigWriteAction::SetMsixControl(
                data[0] as u16 + 0x100 * (data[1] as u16),
            ),
            IovaAccessType::EcamCanForwardToVfio { reg_idx, offset, .. } => {
                let cfg_offset: u64 = (reg_idx * PCI_CONFIG_REGISTER_SIZE) as u64 + offset;
                ConfigWriteAction::WriteDevice(cfg_offset as u32)
            },
            _ => ConfigWriteAction::Ignore(access_type),
        }
    }

    /// Reads a configuration register for the guest. Unless it is that of a BAR, the device is
    /// asked for the double word at its offset; else it is left alone.
    pub fn read_config_register<F: FnOnce(u32) -> u32>(
        &mut self,
        reg_idx: usize,
        read_config_dword: F,
    ) -> (r: u32)
        requires
            old(self).valid(),
            reg_idx * PCI_CONFIG_REGISTER_SIZE <= usize::MAX,
            !is_bar_register(reg_idx) ==> call_requires(
                read_config_dword,
                ((reg_idx * PCI_CONFIG_REGISTER_SIZE) as u32,),
            ),
        ensures
            *final(self) == *old(self),
            is_bar_register(reg_idx) ==> r == 0,
            !is_bar_register(reg_idx) ==> exists|value: u32| #[trigger]
                call_ensures(
                    read_config_dword,
                    ((reg_idx * PCI_CONFIG_REGISTER_SIZE) as u32,),
                    value,
                ) && r == visible_value(reg_idx, value),
    {
        let mut data: [u8; 4] = [0;4];
        assert((reg_idx * 4) % 4 == 0);
        let access_type = self.recognise_config_read(reg_idx, &mut data);
        let value: u32 = match access_type {
            IovaAccessType::BarReg { .. } => self.configuration.read_config_register(reg_idx),
            IovaAccessType::EcamCanForwardToVfio { reg_idx, .. } => read_config_dword(
                (reg_idx * PCI_CONFIG_REGISTER_SIZE) as u32,
            ),
            _ => 0,
        };
        visible_config_value(reg_idx, value)
    }

    fn recognise_config_read(&self, reg_idx: usize, data: &mut [u8]) -> (r: IovaAccessType)
        ensures
            r == self.recognizer().ecam_read_type(reg_idx, old(data)@.len() as int),
    {
        let access_resolutions = self.memory_recognizer.parse_ecam_read(reg_idx, data);
        proof {
            assert(views(access_resolutions@).len() == 1);
            assert(access_resolutions@[0]@ == views(access_resolutions@)[0]);
        }
        access_resolutions[0].access_type
    }

    /// Takes note that the guest has moved the BAR that begins at `old_base` to `new_base`.
    pub fn move_bar(&mut self, old_base: u64, new_base: u64) -> (r: Result<
        (),
        DeviceRelocationError,
    >)
        requires
            old(self).valid(),
        ensures
            r is Ok,
            final(self).valid(),
            final(self).id() == old(self).id(),
            final(self).subclass() == old(self).subclass(),
            final(self).configuration() == old(self).configuration(),
            final(self).recognizer() == (match region_from(
                old(self).recognizer().regions,
                old_base,
            ) {
                Some(region) => old(self).recognizer().with_bar_at(region.index as u8, new_base),
                None => old(self).recognizer(),
            }),
    {
        if let Some(bar_idx) = self.memory_recognizer.bar_from(old_base) {
            self.memory_recognizer.on_bar_reprogrammed(bar_idx, old_base, new_base);
        }
        Ok(())
    }

    /// Takes a read of the guest from a BAR, `offset` bytes behind `base`, and says where each
    /// piece of it is to be read. The pieces share the buffer out between them, in order.
    pub fn read_bar<'a>(&mut self, base: u64, offset: u64, data: &'a mut [u8]) -> (r: Vec<
        BarRead<'a>,
    >)
        requires
            old(self).valid(),
            old(self).recognizer().reaches_a_bar(base, offset),
        ensures
            *final(self) == *old(self),
            r@.len() == old(self).recognizer().resolve_bar_access(
                base,
                offset,
                false,
                old(data)@,
            ).len(),
            forall|k: int|
                0 <= k < r@.len() ==> {
                    let piece = old(self).recognizer().resolve_bar_access(
                        base,
                        offset,
                        false,
                        old(data)@,
                    )[k];
                    (#[trigger] r@[k]).target == target_of(piece.access_type) && r@[k].data@
                        == piece.bytes
                },
            final(data)@ == Seq::new(r@.len(), |k: int| final(r@[k].data)@).flatten()
                + behind_its_span(
                old(self).recognizer().bar_access(base, offset, false, old(data)@),
            ),
    {
        let access_resolutions = self.memory_recognizer.parse_bar_read(base, offset, data);
        let ghost given = access_resolutions@;
        proof {
            let access = self.recognizer().bar_access(base, offset, false, old(data)@);
            let bar_index = self.recognizer().bar_at(base + offset);
            self.recognizer().blocked.pieces_keep_their_direction(bar_index, access);
        }
        let mut steps: Vec<BarRead<'a>> = Vec::new();
        for resolution in it: access_resolutions
            invariant
                it.seq() == given,
                forall|k: int| 0 <= k < given.len() ==> !(#[trigger] views(given)[k]).write,
                steps@.len() == it.index(),
                forall|k: int|
                    0 <= k < steps@.len() ==> {
                        &&& (#[trigger] steps@[k]).target == target_of(given[k].access_type)
                        &&& steps@[k].data@ == given[k].data->Read_data@
                        &&& final(steps@[k].data)@ == final(given[k].data->Read_data)@
                    },
        {
            assert(!views(given)[it.index() as int].write);
            let target = bar_target(resolution.access_type);
            if let IovaAccessData::Read { data } = resolution.data {
                steps.push(BarRead { target, data });
            }
        }
        proof {
            assert forall|k: int| 0 <= k < steps@.len() implies {
                let piece = views(given)[k];
                (#[trigger] steps@[k]).target == target_of(piece.access_type) && steps@[k].data@
                    == piece.bytes
            } by {
                assert(!views(given)[k].write);
            }
            assert(Seq::new(steps@.len(), |k: int| final(steps@[k].data)@) =~= Seq::new(
                given.len(),
                |k: int| final(given[k].data->Read_data)@,
            ));
        }
        steps
    }

    /// Takes a write of the guest to a BAR, `offset` bytes behind `base`, and says where each
    /// piece of it is to be written.
    pub fn write_bar<'a>(&mut self, base: u64, offset: u64, data: &'a [u8]) -> (r: Vec<
        BarWrite<'a>,
    >)
        requires
            old(self).valid(),
            old(self).recognizer().reaches_a_bar(base, offset),
        ensures
            *final(self) == *old(self),
            r@.len() == old(self).recognizer().resolve_bar_access(base, offset, true, data@).len(),
            forall|k: int|
                0 <= k < r@.len() ==> {
                    let piece = old(self).recognizer().resolve_bar_access(
                        base,
                        offset,
                        true,
                        data@,
                    )[k];
                    (#[trigger] r@[k]).target == target_of(piece.access_type) && r@[k].data@
                        == piece.bytes
                },
    {
        let access_resolutions = self.memory_recognizer.parse_bar_write(base, offset, data);
        let ghost given = access_resolutions@;
        proof {
            let access = self.recognizer().bar_access(base, offset, true, data@);
            let bar_index = self.recognizer().bar_at(base + offset);
            self.recognizer().blocked.pieces_keep_their_direction(bar_index, access);
        }
        let mut steps: Vec<BarWrite<'a>> = Vec::new();
        for resolution in it: access_resolutions
            invariant
                it.seq() == given,
                forall|k: int| 0 <= k < given.len() ==> (#[trigger] views(given)[k]).write,
                steps@.len() == it.index(),
                forall|k: int|
                    0 <= k < steps@.len() ==> {
                        &&& (#[trigger] steps@[k]).target == target_of(views(given)[k].access_type)
                        &&& steps@[k].data@ == views(given)[k].bytes
                    },
        {
            assert(views(given)[it.index() as int].write);
            let target = bar_target(resolution.access_type);
            if let IovaAccessData::Write { data } = resolution.data {
                steps.push(BarWrite { target, data });
            }
        }
        steps
    }
}

} // verus!

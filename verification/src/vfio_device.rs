//! A passed-through device on the PCI bus of the guest.

use crate::common::{
    config_write_action, target_of, visible_value, BarRead, BarWrite, ConfigWriteAction,
    DeviceRelocationError, VfioCommon,
};
use crate::config_space::ConfigSpace;
use crate::memory_recognizer::{
    behind_its_span, is_bar_register, region_at, region_from, DeviceRegion, RecognizerView,
    VfioRegion, NUM_BAR_NUMS, PCI_CONFIG_REGISTER_SIZE,
};
use vstd::prelude::*;

verus! {

/// The subclass of every passed-through device.
pub const VFIO_SUBCLASS: u8 = 0xff;

/// Why a device cannot be put on the bus. `I` is what is wrong with its interrupts.
#[derive(Debug)]
pub enum VfioPciDeviceError<I> {
    /// The device could not be made.
    CreateVfioPciDevice(DeviceRelocationError),
    /// Its interrupts could not be set up.
    Msi(I),
}

impl<I> VfioPciDeviceError<I> {
    /// The error in words, but for the reason.
    pub open spec fn text(self) -> Seq<char> {
        match self {
            VfioPciDeviceError::CreateVfioPciDevice(_) => "Failed creating VfioPciDevice: "@,
            VfioPciDeviceError::Msi(_) => "Error creating MSI configuration: "@,
        }
    }

    /// Puts the error in words; the reason is to be appended.
    pub fn message(&self) -> (r: &'static str)
        ensures
            r@ == self.text(),
    {
        match self {
            VfioPciDeviceError::CreateVfioPciDevice(_) => "Failed creating VfioPciDevice: ",
            VfioPciDeviceError::Msi(_) => "Error creating MSI configuration: ",
        }
    }
}

/// A passed-through device on the PCI bus.
#[derive(Debug)]
pub struct VfioPciDevice {
    id: String,
    pci_device_bdf: u32,
    common: VfioCommon,
}

impl VfioPciDevice {
    /// The name of the device.
    pub closed spec fn id(self) -> Seq<char> {
        self.id@
    }

    /// The place of the device on the bus.
    pub closed spec fn bdf(self) -> u32 {
        self.pci_device_bdf
    }

    /// What the device does.
    pub closed spec fn common(self) -> VfioCommon {
        self.common
    }

    /// What is known of the address space of the device.
    pub open spec fn recognizer(self) -> RecognizerView {
        self.common().recognizer()
    }

    /// What every device keeps.
    pub open spec fn valid(self) -> bool {
        self.common().valid()
    }

    /// Makes a device for a place on the bus, given as a number and in words, from what the
    /// device reports of its six BARs and from its configuration space.
    pub fn new(
        pci_device_bdf: u32,
        bdf_text: &str,
        device_regions: Vec<DeviceRegion>,
        config: &ConfigSpace,
    ) -> (r: Self)
        requires
            device_regions@.len() == NUM_BAR_NUMS,
        ensures
            r.valid(),
            r.id() == "vfio-pci-"@ + bdf_text@,
            r.bdf() == pci_device_bdf,
            call_ensures(
                VfioCommon::new,
                (pci_device_bdf, VFIO_SUBCLASS, device_regions, config),
                r.common(),
            ),
    {
        let common = VfioCommon::new(pci_device_bdf, VFIO_SUBCLASS, device_regions, config);
        let mut id = "vfio-pci-".to_owned();
        id.append(bdf_text);
        VfioPciDevice { id, pci_device_bdf, common }
    }

    /// Takes a write of the guest to the configuration space, and says what is to be done for it.
    pub fn write_config_register(&mut self, reg_idx: usize, offset: u64, data: &[u8]) -> (r:
        ConfigWriteAction)
        requires
            old(self).valid(),
            reg_idx * PCI_CONFIG_REGISTER_SIZE + offset <= usize::MAX,
        ensures
            *final(self) == *old(self),
            r == config_write_action(
                old(self).recognizer().ecam_write_type(reg_idx, offset, data@.len() as int),
                data@,
            ),
    {
        self.common.write_config_register(reg_idx, offset, data)
    }

    /// Reads a configuration register for the guest. Unless it is that of a BAR, the device is
    /// asked for the double word at its offset; else it is left alone.
    pub fn read_config_register<F: FnOnce(u32) -> u32>(
        &mut self,
        reg_idx: usize,
        read_config_dword: F,
    ) -> (r: u32)
        requires
            old(self).valid(),
            reg_idx * PCI_CONFIG_REGISTER_SIZE <= usize::MAX,
            !is_bar_register(reg_idx) ==> call_requires(
                read_config_dword,
                ((reg_idx * PCI_CONFIG_REGISTER_SIZE) as u32,),
            ),
        ensures
            *final(self) == *old(self),
            is_bar_register(reg_idx) ==> r == 0,
            !is_bar_register(reg_idx) ==> exists|value: u32| #[trigger]
                call_ensures(
                    read_config_dword,
                    ((reg_idx * PCI_CONFIG_REGISTER_SIZE) as u32,),
                    value,
                ) && r == visible_value(reg_idx, value),
    {
        self.common.read_config_register(reg_idx, read_config_dword)
    }

    /// The first BAR that holds the guest physical address.
    pub fn find_region(&self, addr: u64) -> (r: Option<VfioRegion>)
        ensures
            match r {
                Some(region) => region_at(self.recognizer().regions, addr as int) == Some(region@),
                None => region_at(self.recognizer().regions, addr as int) is None,
            },
    {
        self.common.find_region(addr)
    }

    /// Takes note that the guest has moved the BAR that begins at `old_base` to `new_base`.
    pub fn move_bar(&mut self, old_base: u64, new_base: u64) -> (r: Result<
        (),
        DeviceRelocationError,
    >)
        requires
            old(self).valid(),
        ensures
            r is Ok,
            final(self).valid(),
            final(self).id() == old(self).id(),
            final(self).bdf() == old(self).bdf(),
            final(self).common().id() == old(self).common().id(),
            final(self).common().subclass() == old(self).common().subclass(),
            final(self).common().configuration() == old(self).common().configuration(),
            final(self).recognizer() == (match region_from(
                old(self).recognizer().regions,
                old_base,
            ) {
                Some(region) => old(self).recognizer().with_bar_at(region.index as u8, new_base),
                None => old(self).recognizer(),
            }),
    {
        self.common.move_bar(old_base, new_base)
    }

    /// Takes a read of the guest from a BAR, and says where each piece of it is to be read.
    pub fn read_bar<'a>(&mut self, base: u64, offset: u64, data: &'a mut [u8]) -> (r: Vec<
        BarRead<'a>,
    >)
        requires
            old(self).valid(),
            old(self).recognizer().reaches_a_bar(base, offset),
        ensures
            *final(self) == *old(self),
            r@.len() == old(self).recognizer().resolve_bar_access(
                base,
                offset,
                false,
                old(data)@,
            ).len(),
            forall|k: int|
                0 <= k < r@.len() ==> {
                    let piece = old(self).recognizer().resolve_bar_access(
                        base,
                        offset,
                        false,
                        old(data)@,
                    )[k];
                    (#[trigger] r@[k]).target == target_of(piece.access_type) && r@[k].data@
                        == piece.bytes
                },
            final(data)@ == Seq::new(r@.len(), |k: int| final(r@[k].data)@).flatten()
                + behind_its_span(
                old(self).recognizer().bar_access(base, offset, false, old(data)@),
            ),
    {
        self.common.read_bar(base, offset, data)
    }

    /// Takes a write of the guest to a BAR, and says where each piece of it is to be written.
    pub fn write_bar<'a>(&mut self, base: u64, offset: u64, data: &'a [u8]) -> (r: Vec<
        BarWrite<'a>,
    >)
        requires
            old(self).valid(),
            old(self).recognizer().reaches_a_bar(base, offset),
        ensures
            *final(self) == *old(self),
            r@.len() == old(self).recognizer().resolve_bar_access(base, offset, true, data@).len(),
            forall|k: int|
                0 <= k < r@.len() ==> {
                    let piece = old(self).recognizer().resolve_bar_access(
                        base,
                        offset,
                        true,
                        data@,
                    )[k];
                    (#[trigger] r@[k]).target == target_of(piece.access_type) && r@[k].data@
                        == piece.bytes
                },
    {
        self.common.write_bar(base, offset, data)
    }
}

} // verus!

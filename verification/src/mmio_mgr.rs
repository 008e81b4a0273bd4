//! Bookkeeping of the BARs that are mapped into the guest.

use crate::common::DeviceRelocationError;
use vstd::prelude::*;

verus! {

/// The number of BAR registers.
pub const NUM_BAR_REGS: usize = 6;

/// A BAR as the guest has programmed it.
#[derive(Debug, Clone, Copy, PartialEq, Eq)]
pub struct VfioBarRegionInfo {
    /// Its address.
    pub addr: u32,
    /// Its size.
    pub size: u32,
    /// Whether the device has it.
    pub used: bool,
}

impl Default for VfioBarRegionInfo {
    fn default() -> (r: Self)
        ensures
            r == (VfioBarRegionInfo { addr: 0, size: 0, used: false }),
    {
        VfioBarRegionInfo { addr: 0, size: 0, used: false }
    }
}

/// A stretch of a BAR that must not be mapped.
#[derive(Debug, Clone, Copy, PartialEq, Eq)]
pub struct VfioMmioBlacklistEntry {
    /// Number of the BAR.
    pub bar_region_id: usize,
    /// Offset of the first byte.
    pub offset: u64,
    /// Length in bytes.
    pub len: u64,
}

impl Default for VfioMmioBlacklistEntry {
    fn default() -> (r: Self)
        ensures
            r == (VfioMmioBlacklistEntry { bar_region_id: 0, offset: 0, len: 0 }),
    {
        VfioMmioBlacklistEntry { bar_region_id: 0, offset: 0, len: 0 }
    }
}

/// A stretch of a BAR that is mapped.
#[derive(Debug, Clone, Copy, PartialEq, Eq)]
pub struct VfioMmioPassthroughState {
    /// Guest physical address.
    pub gpa: u64,
    /// Length in bytes.
    pub len: u64,
    /// Number of the BAR.
    pub bar_region_id: usize,
    /// Offset in the BAR.
    pub bar_offset: u64,
}

impl Default for VfioMmioPassthroughState {
    fn default() -> (r: Self)
        ensures
            r == (VfioMmioPassthroughState { gpa: 0, len: 0, bar_region_id: 0, bar_offset: 0 }),
    {
        VfioMmioPassthroughState { gpa: 0, len: 0, bar_region_id: 0, bar_offset: 0 }
    }
}

/// Keeps for each BAR the stretch that must not be mapped, and the one that is.
#[derive(Debug)]
pub struct VfioMmioEngine {
    blacklist: [Option<VfioMmioBlacklistEntry>; 6],
    passthrough_status: [Option<VfioMmioPassthroughState>; 6],
}

impl VfioMmioEngine {
    /// The stretch of each BAR that must not be mapped.
    pub closed spec fn blacklist(self) -> Seq<Option<VfioMmioBlacklistEntry>> {
        self.blacklist@
    }

    /// The stretch of each BAR that is mapped.
    pub closed spec fn passthrough_status(self) -> Seq<Option<VfioMmioPassthroughState>> {
        self.passthrough_status@
    }

    /// Makes an engine that has nothing mapped and nothing forbidden.
    pub fn new() -> (r: Self)
        ensures
            r.blacklist() == Seq::new(6, |i: int| None::<VfioMmioBlacklistEntry>),
            r.passthrough_status() == Seq::new(6, |i: int| None::<VfioMmioPassthroughState>),
    {
        let r = VfioMmioEngine {
            blacklist: [None, None, None, None, None, None],
            passthrough_status: [None, None, None, None, None, None],
        };
        assert(r.blacklist() =~= Seq::new(6, |i: int| None::<VfioMmioBlacklistEntry>));
        assert(r.passthrough_status() =~= Seq::new(6, |i: int| None::<VfioMmioPassthroughState>));
        r
    }

    /// Forbids to map a stretch of a BAR, in place of the one forbidden before. A BAR that does
    /// not exist is passed over.
    pub fn set_blacklist(&mut self, bar_region_id: usize, offset: u64, len: u64)
        ensures
            final(self).passthrough_status() == old(self).passthrough_status(),
            final(self).blacklist() == if bar_region_id < NUM_BAR_REGS {
                old(self).blacklist().update(
                    bar_region_id as int,
                    Some(VfioMmioBlacklistEntry { bar_region_id, offset, len }),
                )
            } else {
                old(self).blacklist()
            },
    {
        if bar_region_id < NUM_BAR_REGS {
            self.blacklist[bar_region_id] = Some(
                VfioMmioBlacklistEntry { bar_region_id, offset, len },
            );
        }
    }

    /// Maps the BARs into the guest. Nothing is mapped yet.
    pub fn map_mmio_region<E>(&mut self, bar_region_info: &[VfioBarRegionInfo; 6]) -> (r: Result<
        (),
        E,
    >)
        ensures
            r is Ok,
            *final(self) == *old(self),
    {
        Ok(())
    }

    /// Moves the mapping of a BAR. Nothing is mapped yet.
    pub fn move_bar(
        &mut self,
        old_base: u64,
        new_base: u64,
        len: u64,
        host_device_offset: u64,
    ) -> (r: Result<(), DeviceRelocationError>)
        ensures
            r is Ok,
            *final(self) == *old(self),
    {
        Ok(())
    }

    /// Finds addresses for the BARs. None are given out yet.
    pub fn allocate_bars<E>(
        &mut self,
        guest_base: u64,
        len: u64,
        host_device_offset: u64,
    ) -> (r: Result<(), E>)
        ensures
            r is Ok,
            *final(self) == *old(self),
    {
        Ok(())
    }

    /// Gives the addresses of the BARs back. None are given out yet.
    pub fn free_bars<E>(&mut self, guest_base: u64, len: u64) -> (r: Result<(), E>)
        ensures
            r is Ok,
            *final(self) == *old(self),
    {
        Ok(())
    }

    /// Takes a read of the guest. The buffer is left as it is.
    pub fn read_bar(&self, base: u64, offset: u64, data: &mut [u8])
        ensures
            final(data)@ == old(data)@,
    {
    }

    /// Takes a write of the guest. It has no effect, and there is nothing to wait for.
    pub fn write_bar(&self, base: u64, offset: u64, data: &[u8]) -> (r: Option<()>)
        ensures
            r is None,
    {
        None
    }
}

} // verus!

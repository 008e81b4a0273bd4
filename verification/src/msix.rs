//! The interrupts of a passed-through device.

use vstd::prelude::*;

verus! {

/// Answers for the MSI-X structures of a device.
///
/// Nothing is stored yet: a write has no effect, and a read leaves its buffer as it is.
#[derive(Debug, Clone, Copy, PartialEq, Eq)]
pub struct VfioInterruptEngine {
    /// The number of the device.
    pub id: u32,
}

impl VfioInterruptEngine {
    /// Makes the engine of a device.
    pub fn new(id: u32) -> (r: Self)
        ensures
            r.id == id,
    {
        VfioInterruptEngine { id }
    }

    /// Takes a read from an entry of the vector table.
    pub fn read_table(&self, index: u16, offset: u64, data: &mut [u8])
        ensures
            final(data)@ == old(data)@,
    {
    }

    /// Takes a write to an entry of the vector table.
    pub fn write_table(&mut self, index: u16, offset: u64, data: &[u8])
        ensures
            *final(self) == *old(self),
    {
    }

    /// Takes a write to the message control register.
    pub fn set_msg_ctl(&mut self, reg: u16)
        ensures
            *final(self) == *old(self),
    {
    }

    /// Takes a read from the pending bit array.
    pub fn read_pba(&self, offset: u64, data: &mut [u8])
        ensures
            final(data)@ == old(data)@,
    {
    }

    /// Takes a write to the pending bit array.
    pub fn write_pba(&mut self, offset: u64, data: &[u8])
        ensures
            *final(self) == *old(self),
    {
    }
}

} // verus!

//! The configuration registers that are emulated in memory.

use vstd::prelude::*;

verus! {

/// The number of configuration registers.
pub const NUM_CONFIGURATION_REGISTERS: usize = 1024;

/// The part of the configuration space that the device does not answer for itself.
///
/// Nothing is stored yet: a write has no effect, and every register reads as 0.
#[derive(Debug)]
pub struct VfioPcieConfiguration {
    registers: [u32; 1024],
    writable_bits: [u32; 1024],
    bar_region_size: [u32; 6],
}

impl VfioPcieConfiguration {
    /// The values of the registers.
    pub closed spec fn registers(self) -> Seq<u32> {
        self.registers@
    }

    /// The bits of each register that the guest may write.
    pub closed spec fn writable_bits(self) -> Seq<u32> {
        self.writable_bits@
    }

    /// The sizes of the BARs.
    pub closed spec fn bar_region_size(self) -> Seq<u32> {
        self.bar_region_size@
    }

    /// Every register holds 0.
    pub open spec fn valid(self) -> bool {
        &&& self.registers().len() == NUM_CONFIGURATION_REGISTERS
        &&& forall|i: int|
            0 <= i < NUM_CONFIGURATION_REGISTERS ==> #[trigger] self.registers()[i] == 0
    }

    /// Makes the registers of a device with BARs of the given sizes.
    pub fn new(bar_region_size: [u32; 6]) -> (r: Self)
        ensures
            r.valid(),
            r.writable_bits() == Seq::new(1024, |i: int| 0u32),
            r.bar_region_size() == bar_region_size@,
    {
        let r = VfioPcieConfiguration {
            registers: [0u32;1024],
            writable_bits: [0u32;1024],
            bar_region_size,
        };
        assert(r.writable_bits() =~= Seq::new(1024, |i: int| 0u32));
        r
    }

    /// Takes a write of the guest to a register. It has no effect.
    pub fn write_config_register(&mut self, reg_idx: usize, offset: u64, data: &[u8])
        ensures
            *final(self) == *old(self),
    {
    }

    /// Reads a register.
    pub fn read_config_register(&mut self, reg_idx: usize) -> (r: u32)
        ensures
            r == 0,
            *final(self) == *old(self),
    {
        0
    }
}

} // verus!

//! The configuration space of a device, and where MSI-X stands in it.

use crate::bar_location::BarLocation;
use vstd::prelude::*;

verus! {

/// Where the configuration space points to the first capability.
pub const PCI_CONFIG_CAPABILITY_OFFSET: u32 = 0x34;

/// The bits of a capability pointer that count.
pub const PCI_CONFIG_CAPABILITY_PTR_MASK: u8 = 0xfc;

/// The capability id of MSI-X.
pub const PCI_CAPABILITY_ID_MSIX: u8 = 0x11;

/// How many capabilities a search looks at before it gives up.
pub const MAX_CAPABILITIES: usize = 48;

/// The size of an entry of the MSI-X table.
pub const MSIX_TABLE_ENTRY_SIZE: u64 = 16;

/// A copy of the configuration space of a device, as long as the device has it.
#[derive(Debug)]
pub struct ConfigSpace {
    /// The bytes, from offset 0 on.
    pub bytes: Vec<u8>,
}

impl View for ConfigSpace {
    type V = Seq<u8>;

    open spec fn view(&self) -> Seq<u8> {
        self.bytes@
    }
}

/// The byte at `offset`. Behind the end of the space a read gives 0.
pub open spec fn byte_at(space: Seq<u8>, offset: int) -> u8 {
    if 0 <= offset < space.len() {
        space[offset]
    } else {
        0
    }
}

/// The little-endian word at `offset`; 0 unless both bytes are there.
pub open spec fn word_at(space: Seq<u8>, offset: int) -> u16 {
    if 0 <= offset && offset + 2 <= space.len() {
        (space[offset] + 0x100 * space[offset + 1]) as u16
    } else {
        0
    }
}

/// The little-endian double word at `offset`; 0 unless all four bytes are there.
pub open spec fn dword_at(space: Seq<u8>, offset: int) -> u32 {
    if 0 <= offset && offset + 4 <= space.len() {
        (space[offset] + 0x100 * space[offset + 1] + 0x1_0000 * space[offset + 2] + 0x100_0000
            * space[offset + 3]) as u32
    } else {
        0
    }
}

/// The offset of the `k`-th capability, following the chain from its head. The chain has ended
/// where this is 0.
pub open spec fn capability(space: Seq<u8>, k: nat) -> u8
    decreases k,
{
    if k == 0 {
        byte_at(space, PCI_CONFIG_CAPABILITY_OFFSET as int) & PCI_CONFIG_CAPABILITY_PTR_MASK
    } else {
        byte_at(space, capability(space, (k - 1) as nat) + 1) & PCI_CONFIG_CAPABILITY_PTR_MASK
    }
}

/// Whether the `k`-th capability is there and is MSI-X.
pub open spec fn is_msix(space: Seq<u8>, k: nat) -> bool {
    capability(space, k) != 0 && byte_at(space, capability(space, k) as int)
        == PCI_CAPABILITY_ID_MSIX
}

/// Whether the `k`-th capability is there and is another one than MSI-X.
pub open spec fn is_other(space: Seq<u8>, k: nat) -> bool {
    capability(space, k) != 0 && byte_at(space, capability(space, k) as int)
        != PCI_CAPABILITY_ID_MSIX
}

/// Whether MSI-X is the `k`-th capability and none before it.
pub open spec fn msix_found_at(space: Seq<u8>, k: nat) -> bool {
    &&& k < MAX_CAPABILITIES
    &&& is_msix(space, k)
    &&& forall|j: nat| j < k ==> #[trigger] is_other(space, j)
}

/// Whether MSI-X is not among the capabilities.
pub open spec fn no_msix(space: Seq<u8>) -> bool {
    forall|k: nat| !#[trigger] msix_found_at(space, k)
}

/// The number of MSI-X vectors that the capability at `cap` announces.
pub open spec fn msix_entries(space: Seq<u8>, cap: int) -> int {
    (word_at(space, cap + 2) & 0x07ff) + 1
}

/// What a register of the MSI-X capability locates: a BAR in the low three bits, an offset in it
/// in the others.
pub open spec fn msix_location(register: u32, len: u64) -> BarLocation {
    BarLocation {
        bar_index: (register & 0x7) as u8,
        offset: (register & 0xffff_fff8) as u64,
        len,
    }
}

/// Where the capability at `cap` puts the MSI-X table: 16 bytes for each vector.
pub open spec fn msix_table_location(space: Seq<u8>, cap: int) -> BarLocation {
    msix_location(
        dword_at(space, cap + 4),
        (msix_entries(space, cap) * MSIX_TABLE_ENTRY_SIZE) as u64,
    )
}

/// Where the capability at `cap` puts the pending bit array: a bit for each vector, in units of
/// 8 bytes.
pub open spec fn msix_pba_location(space: Seq<u8>, cap: int) -> BarLocation {
    msix_location(dword_at(space, cap + 8), ((msix_entries(space, cap) + 63) / 64 * 8) as u64)
}

impl ConfigSpace {
    /// Reads the byte at `offset`, 0 behind the end.
    pub fn read_config_byte(&self, offset: u32) -> (r: u8)
        ensures
            r == byte_at(self@, offset as int),
    {
        let at: usize = offset as usize;
        if at < self.bytes.len() {
            self.bytes[at]
        } else {
            0
        }
    }

    /// Reads the little-endian word at `offset`, 0 if it reaches behind the end.
    pub fn read_config_word(&self, offset: u32) -> (r: u16)
        ensures
            r == word_at(self@, offset as int),
    {
        let at: usize = offset as usize;
        if self.bytes.len() >= 2 && at <= self.bytes.len() - 2 {
            self.bytes[at] as u16 + 0x100 * (self.bytes[at + 1] as u16)
        } else {
            0
        }
    }

    /// Reads the little-endian double word at `offset`, 0 if it reaches behind the end.
    pub fn read_config_dword(&self, offset: u32) -> (r: u32)
        ensures
            r == dword_at(self@, offset as int),
    {
        let at: usize = offset as usize;
        if self.bytes.len() >= 4 && at <= self.bytes.len() - 4 {
            self.bytes[at] as u32 + 0x100 * (self.bytes[at + 1] as u32) + 0x1_0000 * (self.bytes[at
                + 2] as u32) + 0x100_0000 * (self.bytes[at + 3] as u32)
        } else {
            0
        }
    }
}

/// Looks for the MSI-X capability along the chain of capabilities, and gives its offset.
pub fn find_msix_cap_offset(space: &ConfigSpace) -> (r: Option<usize>)
    ensures
        r matches Some(offset) ==> exists|k: nat| #[trigger]
            msix_found_at(space@, k) && offset == capability(space@, k),
        r is None ==> no_msix(space@),
{
    let mut cap_ptr: u8 = space.read_config_byte(PCI_CONFIG_CAPABILITY_OFFSET)
        & PCI_CONFIG_CAPABILITY_PTR_MASK;
    let mut seen: usize = 0;
    while cap_ptr != 0 && seen < MAX_CAPABILITIES
        invariant
            seen <= MAX_CAPABILITIES,
            cap_ptr == capability(space@, seen as nat),
            forall|j: nat| j < seen ==> #[trigger] is_other(space@, j),
        ensures
            cap_ptr == 0 || seen == MAX_CAPABILITIES || (is_other(space@, seen as nat) && (
            capability(space@, (seen + 1) as nat) == 0 || capability(space@, (seen + 1) as nat)
                == cap_ptr)),
        decreases MAX_CAPABILITIES - seen,
    {
        let cap_id: u8 = space.read_config_byte(cap_ptr as u32);
        if cap_id == PCI_CAPABILITY_ID_MSIX {
            assert(msix_found_at(space@, seen as nat));
            return Some(cap_ptr as usize);
        }
        let next: u8 = space.read_config_byte(cap_ptr as u32 + 1) & PCI_CONFIG_CAPABILITY_PTR_MASK;
        assert(next == capability(space@, (seen + 1) as nat));
        assert(is_other(space@, seen as nat));
        if next == 0 || next == cap_ptr {
            break ;
        }
        cap_ptr = next;
        seen = seen + 1;
    }
    proof {
        assert forall|k: nat| !#[trigger] msix_found_at(space@, k) by {
            if msix_found_at(space@, k) {
                if k < seen {
                    assert(is_other(space@, k));
                } else if k > seen {
                    assert(is_other(space@, seen as nat));
                    if capability(space@, (seen + 1) as nat) == cap_ptr {
                        lemma_chain_stands_still(space@, seen as nat, k);
                    } else if k > seen + 1 {
                        assert(is_other(space@, (seen + 1) as nat));
                    }
                }
            }
        }
    }
    None
}

proof fn lemma_chain_stands_still(space: Seq<u8>, k: nat, m: nat)
    requires
        capability(space, k + 1) == capability(space, k),
        k <= m,
    ensures
        capability(space, m) == capability(space, k),
    decreases m,
{
    if m > k {
        lemma_chain_stands_still(space, k, (m - 1) as nat);
    }
}

/// Capabilities stand on 4-byte bounds, within the first 256 bytes.
pub proof fn capabilities_are_aligned(space: Seq<u8>, k: nat)
    ensures
        capability(space, k) % 4 == 0,
        capability(space, k) <= 0xfc,
{
    let raw: u8 = if k == 0 {
        byte_at(space, PCI_CONFIG_CAPABILITY_OFFSET as int)
    } else {
        byte_at(space, capability(space, (k - 1) as nat) + 1)
    };
    assert((raw & 0xfcu8) % 4 == 0 && raw & 0xfcu8 <= 0xfc) by (bit_vector);
}

/// The MSI-X table has 1 to 2048 entries, and both it and the pending bit array stand on 8-byte
/// bounds below 4 GiB. The array has a bit for every vector.
pub proof fn msix_layout_is_aligned(space: Seq<u8>, cap: int)
    ensures
        1 <= msix_entries(space, cap) <= 2048,
        msix_table_location(space, cap).bar_index < 8,
        msix_table_location(space, cap).offset % 8 == 0,
        msix_table_location(space, cap).offset <= 0xffff_fff8,
        msix_table_location(space, cap).len == 16 * msix_entries(space, cap),
        msix_pba_location(space, cap).bar_index < 8,
        msix_pba_location(space, cap).offset % 8 == 0,
        msix_pba_location(space, cap).offset <= 0xffff_fff8,
        msix_pba_location(space, cap).len % 8 == 0,
        0 < msix_pba_location(space, cap).len <= 256,
        8 * msix_pba_location(space, cap).len >= msix_entries(space, cap),
{
    let control = word_at(space, cap + 2);
    assert(control & 0x07ff <= 0x07ff) by (bit_vector);
    lemma_msix_location(dword_at(space, cap + 4));
    lemma_msix_location(dword_at(space, cap + 8));
}

proof fn lemma_msix_location(register: u32)
    ensures
        (register & 0x7) as u8 == register & 0x7,
        register & 0x7 < 8,
        (register & 0xffff_fff8) % 8 == 0,
        register & 0xffff_fff8 <= 0xffff_fff8,
{
    assert(register & 0x7 < 8) by (bit_vector);
    assert((register & 0xffff_fff8) % 8 == 0) by (bit_vector);
    assert(register & 0xffff_fff8 <= 0xffff_fff8) by (bit_vector);
}

/// Reads from the MSI-X capability at `msix_cap_offset` where the vector table and the pending
/// bit array stand, in this order.
pub fn msix_layout_for_bar(space: &ConfigSpace, msix_cap_offset: u32) -> (r: (
    BarLocation,
    BarLocation,
))
    requires
        msix_cap_offset <= u32::MAX - 8,
    ensures
        r.0 == msix_table_location(space@, msix_cap_offset as int),
        r.1 == msix_pba_location(space@, msix_cap_offset as int),
{
    let msg_ctl: u16 = space.read_config_word(msix_cap_offset + 2);
    let table: u32 = space.read_config_dword(msix_cap_offset + 4);
    let pba: u32 = space.read_config_dword(msix_cap_offset + 8);
    proof {
        assert(msg_ctl & 0x07ff <= 0x07ff) by (bit_vector);
    }
    let table_entries: u64 = (msg_ctl & 0x07ff) as u64 + 1;
    let table_location = BarLocation {
        bar_index: (table & 0x7) as u8,
        offset: (table & 0xffff_fff8) as u64,
        len: table_entries * MSIX_TABLE_ENTRY_SIZE,
    };
    let pba_location = BarLocation {
        bar_index: (pba & 0x7) as u8,
        offset: (pba & 0xffff_fff8) as u64,
        len: (table_entries + 63) / 64 * 8,
    };
    (table_location, pba_location)
}

} // verus!

//! What a caller may rely on where the configuration space is concerned, said of the arguments
//! and results of the functions alone.

use crate::access::{is_aligned_access, views, AccessResolution, IovaAccessType};
use crate::bar_location::BarLocation;
use crate::common::{visible_config_value, ConfigWriteAction, VfioCommon};
use crate::config_space::{
    byte_at, capability, find_msix_cap_offset, is_msix, is_other, msix_entries, msix_found_at,
    msix_layout_for_bar, msix_layout_is_aligned, msix_location, no_msix, ConfigSpace,
};
use crate::memory_recognizer::{DeviceRegion, MemoryRecognizer, VfioPcieMemoryRecognizer};
use crate::vfio_device::VfioPciDevice;
use vstd::prelude::*;

verus! {

/// An access is aligned exactly if it has 1, 2, 4 or 8 bytes and begins at a multiple of that.
pub proof fn alignment(offset: u64, n: usize, r: bool)
    requires
        call_ensures(is_aligned_access, (offset, n), r),
    ensures
        n == 1 ==> r,
        n == 2 ==> r == (offset % 2 == 0),
        n == 4 ==> r == (offset % 4 == 0),
        n == 8 ==> r == (offset % 8 == 0),
        n != 1 && n != 2 && n != 4 && n != 8 ==> !r,
{
}

/// A byte that is there is read as it is; behind the end a read gives 0.
pub proof fn byte_reads(space: &ConfigSpace, offset: u32, r: u8)
    requires
        call_ensures(ConfigSpace::read_config_byte, (space, offset), r),
    ensures
        offset < space.bytes@.len() ==> r == space.bytes@[offset as int],
        offset >= space.bytes@.len() ==> r == 0,
{
}

/// A word is read with its low byte first, and only as a whole.
pub proof fn word_reads(space: &ConfigSpace, offset: u32, r: u16)
    requires
        call_ensures(ConfigSpace::read_config_word, (space, offset), r),
    ensures
        offset + 2 <= space.bytes@.len() ==> r % 256 == space.bytes@[offset as int] && r / 256
            == space.bytes@[offset + 1],
        offset + 2 > space.bytes@.len() ==> r == 0,
{
}

/// A double word is read with its low byte first, and only as a whole.
pub proof fn dword_reads(space: &ConfigSpace, offset: u32, r: u32)
    requires
        call_ensures(ConfigSpace::read_config_dword, (space, offset), r),
    ensures
        offset + 4 <= space.bytes@.len() ==> {
            &&& r % 0x100 == space.bytes@[offset as int]
            &&& r / 0x100 % 0x100 == space.bytes@[offset + 1]
            &&& r / 0x1_0000 % 0x100 == space.bytes@[offset + 2]
            &&& r / 0x100_0000 == space.bytes@[offset + 3]
        },
        offset + 4 > space.bytes@.len() ==> r == 0,
{
}

/// Follow the pointers from byte 0x34 on, past at most 47 capabilities that are not MSI-X, to one
/// that is: the search gives its offset. `chain` holds the offsets on the way.
pub proof fn msix_is_found_at_the_end_of_its_chain(
    space: &ConfigSpace,
    chain: Seq<u8>,
    r: Option<usize>,
)
    requires
        call_ensures(find_msix_cap_offset, (space,), r),
        1 <= chain.len() <= 48,
        space.bytes@.len() > 0x34,
        chain[0] == space.bytes@[0x34] & 0xfc,
        forall|i: int| 0 <= i < chain.len() ==> (#[trigger] chain[i]) != 0,
        forall|i: int|
            0 <= i < chain.len() - 1 ==> (#[trigger] chain[i]) + 1 < space.bytes@.len(),
        forall|i: int, j: int|
            0 <= i < j < chain.len() && j <= i + 1 ==> #[trigger] chain[j] == space.bytes@[(
            #[trigger] chain[i]) + 1] & 0xfc,
        forall|i: int|
            0 <= i < chain.len() - 1 ==> space.bytes@[(#[trigger] chain[i]) as int] != 0x11,
        chain.last() < space.bytes@.len(),
        space.bytes@[chain.last() as int] == 0x11,
    ensures
        r == Some(chain.last() as usize),
{
    lemma_chain(space, chain, chain.len() - 1);
    let last = (chain.len() - 1) as nat;
    assert forall|j: nat| j < last implies #[trigger] is_other(space@, j) by {
        lemma_chain(space, chain, j as int);
    }
    assert(is_msix(space@, last));
    assert(msix_found_at(space@, last));
    if r is None {
        assert(!msix_found_at(space@, last));
    }
    let found = choose|k: nat| #[trigger]
        msix_found_at(space@, k) && r->Some_0 == capability(space@, k);
    if found < last {
        assert(is_other(space@, found));
    } else if last < found {
        assert(is_other(space@, last));
    }
}

proof fn lemma_chain(space: &ConfigSpace, chain: Seq<u8>, i: int)
    requires
        0 <= i < chain.len(),
        space.bytes@.len() > 0x34,
        chain[0] == space.bytes@[0x34] & 0xfc,
        forall|i: int| 0 <= i < chain.len() ==> (#[trigger] chain[i]) != 0,
        forall|i: int|
            0 <= i < chain.len() - 1 ==> (#[trigger] chain[i]) + 1 < space.bytes@.len(),
        forall|i: int, j: int|
            0 <= i < j < chain.len() && j <= i + 1 ==> #[trigger] chain[j] == space.bytes@[(
            #[trigger] chain[i]) + 1] & 0xfc,
    ensures
        capability(space@, i as nat) == chain[i],
    decreases i,
{
    if i > 0 {
        lemma_chain(space, chain, i - 1);
        assert(chain[i] == space.bytes@[chain[i - 1] + 1] & 0xfc);
        assert(byte_at(space@, chain[i - 1] + 1) == space.bytes@[chain[i - 1] + 1]);
    }
}

/// Whatever the search gives is the offset of an MSI-X capability, at the end of a chain of
/// pointers from byte 0x34 on that no other MSI-X capability stands in.
pub proof fn what_is_found_is_msix(space: &ConfigSpace, r: Option<usize>) -> (chain: Seq<u8>)
    requires
        call_ensures(find_msix_cap_offset, (space,), r),
        r is Some,
    ensures
        1 <= chain.len() <= 48,
        r == Some(chain.last() as usize),
        space.bytes@.len() > 0x34,
        chain[0] == space.bytes@[0x34] & 0xfc,
        forall|i: int|
            0 <= i < chain.len() ==> (#[trigger] chain[i]) != 0 && chain[i] % 4 == 0,
        forall|i: int|
            0 <= i < chain.len() - 1 ==> (#[trigger] chain[i]) + 1 < space.bytes@.len(),
        forall|i: int, j: int|
            0 <= i < j < chain.len() && j <= i + 1 ==> #[trigger] chain[j] == space.bytes@[(
            #[trigger] chain[i]) + 1] & 0xfc,
        forall|i: int|
            0 <= i < chain.len() - 1 ==> space.bytes@[(#[trigger] chain[i]) as int] != 0x11,
        chain.last() < space.bytes@.len(),
        space.bytes@[chain.last() as int] == 0x11,
{
    let k = choose|k: nat| #[trigger]
        msix_found_at(space@, k) && r->Some_0 == capability(space@, k);
    let chain = Seq::new(k + 1, |i: int| capability(space@, i as nat));
    lemma_chain_to(space, k, chain);
    chain
}

proof fn lemma_chain_to(space: &ConfigSpace, k: nat, chain: Seq<u8>)
    requires
        msix_found_at(space@, k),
        chain.len() == k + 1,
        forall|i: int| 0 <= i <= k ==> #[trigger] chain[i] == capability(space@, i as nat),
    ensures
        space.bytes@.len() > 0x34,
        chain[0] == space.bytes@[0x34] & 0xfc,
        forall|i: int|
            0 <= i < chain.len() ==> (#[trigger] chain[i]) != 0 && chain[i] % 4 == 0,
        forall|i: int|
            0 <= i < chain.len() - 1 ==> (#[trigger] chain[i]) + 1 < space.bytes@.len(),
        forall|i: int, j: int|
            0 <= i < j < chain.len() && j <= i + 1 ==> #[trigger] chain[j] == space.bytes@[(
            #[trigger] chain[i]) + 1] & 0xfc,
        forall|i: int|
            0 <= i < chain.len() - 1 ==> space.bytes@[(#[trigger] chain[i]) as int] != 0x11,
        chain.last() < space.bytes@.len(),
        space.bytes@[chain.last() as int] == 0x11,
{
    assert forall|i: int| 0 <= i < chain.len() implies (#[trigger] chain[i]) != 0 && chain[i] % 4
        == 0 by {
        lemma_link(space, k, i);
    }
    assert forall|i: int| 0 <= i < chain.len() - 1 implies (#[trigger] chain[i]) + 1
        < space.bytes@.len() by {
        lemma_link(space, k, i + 1);
    }
    assert forall|i: int, j: int|
        0 <= i < j < chain.len() && j <= i + 1 implies #[trigger] chain[j] == space.bytes@[(
    #[trigger] chain[i]) + 1] & 0xfc by {
        lemma_link(space, k, j);
    }
    assert forall|i: int| 0 <= i < chain.len() - 1 implies space.bytes@[(
    #[trigger] chain[i]) as int] != 0x11 by {
        lemma_link(space, k, i + 1);
        assert(is_other(space@, i as nat));
    }
    lemma_link(space, k, 0);
}

proof fn lemma_link(space: &ConfigSpace, k: nat, i: int)
    requires
        msix_found_at(space@, k),
        0 <= i <= k,
    ensures
        capability(space@, i as nat) != 0,
        capability(space@, i as nat) % 4 == 0,
        i == 0 ==> space.bytes@.len() > 0x34 && capability(space@, 0) == space.bytes@[0x34] & 0xfc,
        i > 0 ==> capability(space@, (i - 1) as nat) + 1 < space.bytes@.len() && capability(
            space@,
            i as nat,
        ) == space.bytes@[capability(space@, (i - 1) as nat) + 1] & 0xfc,
{
    assert(0u8 & 0xfc == 0) by (bit_vector);
    crate::config_space::capabilities_are_aligned(space@, i as nat);
    if i < k {
        assert(is_other(space@, i as nat));
    }
}

/// The layout of the MSI-X structures, said of the bytes of the capability. The low three bits of
/// the table's register number its BAR and the others are its offset there; so for the pending bit
/// array. The message control register holds one less than the number of vectors in its low 11
/// bits: the table has 16 bytes for each, the array a bit for each, in units of 8 bytes.
pub proof fn msix_layout(space: &ConfigSpace, cap: u32, r: (BarLocation, BarLocation))
    requires
        call_ensures(msix_layout_for_bar, (space, cap), r),
        cap + 12 <= space.bytes@.len(),
        cap <= u32::MAX - 8,
    ensures
        ({
            let b = space.bytes@;
            let vectors = (b[cap + 2] + 0x100 * b[cap + 3]) % 2048 + 1;
            let (table, pba) = r;
            &&& table.bar_index == b[cap + 4] % 8
            &&& table.offset + table.bar_index == b[cap + 4] + 0x100 * b[cap + 5] + 0x1_0000 * b[cap
                + 6] + 0x100_0000 * b[cap + 7]
            &&& table.len == 16 * vectors
            &&& pba.bar_index == b[cap + 8] % 8
            &&& pba.offset + pba.bar_index == b[cap + 8] + 0x100 * b[cap + 9] + 0x1_0000 * b[cap
                + 10] + 0x100_0000 * b[cap + 11]
            &&& pba.len % 8 == 0
            &&& 8 * pba.len >= vectors
            &&& 8 * (pba.len - 8) < vectors
        }),
{
    let b = space.bytes@;
    let control: u16 = (b[cap + 2] + 0x100 * b[cap + 3]) as u16;
    assert(control & 0x07ff == control % 2048) by (bit_vector);
    assert(msix_entries(space@, cap as int) == control % 2048 + 1);
    msix_layout_is_aligned(space@, cap as int);
    lemma_location(b[cap + 4], b[cap + 5], b[cap + 6], b[cap + 7], r.0.len);
    lemma_location(b[cap + 8], b[cap + 9], b[cap + 10], b[cap + 11], r.1.len);
}

/// The layout of the MSI-X structures is that of three registers, as they are read from the
/// configuration space, also where it ends before them.
pub proof fn msix_layout_by_registers(
    space: &ConfigSpace,
    cap: u32,
    r: (BarLocation, BarLocation),
    control: u16,
    table_register: u32,
    pba_register: u32,
)
    requires
        call_ensures(msix_layout_for_bar, (space, cap), r),
        cap <= u32::MAX - 8,
        call_ensures(ConfigSpace::read_config_word, (space, (cap + 2) as u32), control),
        call_ensures(ConfigSpace::read_config_dword, (space, (cap + 4) as u32), table_register),
        call_ensures(ConfigSpace::read_config_dword, (space, (cap + 8) as u32), pba_register),
    ensures
        ({
            let vectors = control % 2048 + 1;
            let (table, pba) = r;
            &&& table.bar_index == table_register % 8
            &&& table.offset == table_register - table_register % 8
            &&& table.len == 16 * vectors
            &&& pba.bar_index == pba_register % 8
            &&& pba.offset == pba_register - pba_register % 8
            &&& pba.len % 8 == 0
            &&& 8 * pba.len >= vectors
            &&& 8 * (pba.len - 8) < vectors
        }),
{
    assert(control & 0x07ff == control % 2048) by (bit_vector);
    assert(msix_entries(space@, cap as int) == control % 2048 + 1);
    msix_layout_is_aligned(space@, cap as int);
    lemma_split(table_register);
    lemma_split(pba_register);
}

proof fn lemma_split(v: u32)
    ensures
        v & 0x7 == v % 8,
        v & 0xffff_fff8 == v - v % 8,
{
    assert(v & 0x7 == v % 8) by (bit_vector);
    assert(v & 0xffff_fff8 == v - v % 8) by (bit_vector);
}

proof fn lemma_location(b0: u8, b1: u8, b2: u8, b3: u8, len: u64)
    ensures
        ({
            let v = (b0 + 0x100 * b1 + 0x1_0000 * b2 + 0x100_0000 * b3) as u32;
            let location = msix_location(v, len);
            &&& location.bar_index == b0 % 8
            &&& location.offset + location.bar_index == b0 + 0x100 * b1 + 0x1_0000 * b2
                + 0x100_0000 * b3
        }),
{
    let v = (b0 + 0x100 * b1 + 0x1_0000 * b2 + 0x100_0000 * b3) as u32;
    lemma_split(v);
    assert(v % 8 == b0 % 8);
}

/// What a guest sees of a register is what the device gives, but for bit 23 of register 3.
pub proof fn only_one_bit_is_hidden(reg_idx: usize, value: u32, r: u32)
    requires
        call_ensures(visible_config_value, (reg_idx, value), r),
    ensures
        reg_idx != 3 ==> r == value,
        reg_idx == 3 ==> r == value - (value / 0x80_0000 % 2) * 0x80_0000,
{
    lemma_bit(value);
}

proof fn lemma_bit(value: u32)
    ensures
        value & !0x80_0000u32 == value - (value / 0x80_0000 % 2) * 0x80_0000,
{
    assert(value & !0x80_0000u32 == value - (value / 0x80_0000 % 2) * 0x80_0000) by (bit_vector);
}

/// A read of a configuration register changes nothing. Registers 4 to 9 and 12 read as 0; any
/// other reads as what the device has at four times its number, but for bit 23 of register 3.
pub proof fn config_reads<F: FnOnce(u32) -> u32>(
    device: &mut VfioCommon,
    reg_idx: usize,
    ask: F,
    r: u32,
) -> (value: u32)
    requires
        call_ensures(VfioCommon::read_config_register::<F>, (device, reg_idx, ask), r),
    ensures
        *final(device) == *old(device),
        4 <= reg_idx <= 9 || reg_idx == 12 ==> r == 0,
        !(4 <= reg_idx <= 9 || reg_idx == 12) ==> call_ensures(
            ask,
            ((4 * reg_idx) as u32,),
            value,
        ),
        !(4 <= reg_idx <= 9 || reg_idx == 12) && reg_idx != 3 ==> r == value,
        reg_idx == 3 ==> r == value - (value / 0x80_0000 % 2) * 0x80_0000,
{
    let value = choose|value: u32| #[trigger]
        call_ensures(ask, ((reg_idx * 4) as u32,), value) && r
            == crate::common::visible_value(reg_idx, value);
    lemma_bit(value);
    value
}

/// A write to the configuration space changes nothing here, and goes one of four ways. Unless it
/// has 1, 2, 4 or 8 bytes and begins at a multiple of that, it is refused. One to registers 4 to 9
/// or 12 is taken here if it has 4 bytes and refused otherwise. One that touches the two bytes of
/// the message control register sets it, low byte first, if it has 2 bytes and is refused
/// otherwise. Any other goes on to the device, to the byte that the guest named, in 32 bits.
pub proof fn config_writes(
    device: &mut VfioCommon,
    reg_idx: usize,
    offset: u64,
    data: &[u8],
    r: ConfigWriteAction,
)
    requires
        call_ensures(VfioCommon::write_config_register, (device, reg_idx, offset, data), r),
        old(device).valid(),
    ensures
        *final(device) == *old(device),
        ({
            let at = 4 * reg_idx + offset;
            let n = data@.len() as int;
            let aligned = n == 1 || (n == 2 && at % 2 == 0) || (n == 4 && at % 4 == 0) || (n == 8
                && at % 8 == 0);
            let bar = 4 <= reg_idx <= 9 || reg_idx == 12;
            let control = old(device).recognizer().control_start as int;
            let meets_control = old(device).recognizer().table is Some && at < control + 2
                && control < at + n;
            &&& !aligned ==> r == ConfigWriteAction::Ignore(IovaAccessType::InvalidAccess)
            &&& aligned && bar && n == 4 ==> r == ConfigWriteAction::Done
            &&& aligned && bar && n != 4 ==> r == ConfigWriteAction::Ignore(
                IovaAccessType::InvalidAccess,
            )
            &&& aligned && !bar && meets_control && n == 2 ==> {
                r matches ConfigWriteAction::SetMsixControl(value) && value == data@[0] + 0x100
                    * data@[1]
            }
            &&& aligned && !bar && meets_control && n != 2 ==> r == ConfigWriteAction::Ignore(
                IovaAccessType::InvalidAccess,
            )
            &&& aligned && !bar && !meets_control ==> {
                r matches ConfigWriteAction::WriteDevice(to) && to == at as u32
            }
        }),
{
    let at = 4 * reg_idx + offset;
    let n = data@.len() as int;
    assert(at == reg_idx * 4 + offset);
    if n == 8 {
        assert(at % 8 == at % n);
    } else if n == 4 {
        assert(at % 4 == at % n);
    } else if n == 2 {
        assert(at % 2 == at % n);
    } else if n == 1 {
        assert(at % n == 0);
    }
}

/// Every write to a register is taken whose place is a number, whatever its length, and every read
/// of a register where the device can be asked for what stands there.
pub proof fn config_accesses_are_taken<F: FnOnce(u32) -> u32>(
    device: &mut VfioCommon,
    other: &mut VfioCommon,
    reg_idx: usize,
    offset: u64,
    data: &[u8],
    ask: F,
)
    requires
        old(device).valid(),
        old(other).valid(),
        4 * reg_idx + offset <= usize::MAX,
        call_requires(ask, ((4 * reg_idx) as u32,)),
    ensures
        call_requires(VfioCommon::write_config_register, (device, reg_idx, offset, data)),
        call_requires(VfioCommon::read_config_register::<F>, (other, reg_idx, ask)),
{
}

/// Two writes that both go on to the device go to the same byte only if the guest named the same
/// byte.
pub proof fn config_writes_are_kept_apart(
    device: &mut VfioCommon,
    again: &mut VfioCommon,
    reg_idx: usize,
    offset: u64,
    data: &[u8],
    r: ConfigWriteAction,
    other_reg_idx: usize,
    other_offset: u64,
    other_data: &[u8],
    other: ConfigWriteAction,
)
    requires
        call_ensures(VfioCommon::write_config_register, (device, reg_idx, offset, data), r),
        call_ensures(
            VfioCommon::write_config_register,
            (again, other_reg_idx, other_offset, other_data),
            other,
        ),
        old(device).valid(),
        old(again).valid(),
        4 * reg_idx + offset <= u32::MAX,
        4 * other_reg_idx + other_offset <= u32::MAX,
        r is WriteDevice,
        r == other,
    ensures
        4 * reg_idx + offset == 4 * other_reg_idx + other_offset,
{
    config_writes(device, reg_idx, offset, data, r);
    config_writes(again, other_reg_idx, other_offset, other_data, other);
}

/// A device whose MSI-X capability is found has its message control register two bytes behind
/// the start of the capability, and its MSI-X structures where the capability says.
pub proof fn made_with_msix(
    id: u32,
    subclass: u8,
    reported: Vec<DeviceRegion>,
    config: &ConfigSpace,
    r: VfioCommon,
    cap: usize,
    layout: (BarLocation, BarLocation),
)
    requires
        call_ensures(VfioCommon::new, (id, subclass, reported, config), r),
        reported@.len() == 6,
        call_ensures(find_msix_cap_offset, (config,), Some(cap)),
        call_ensures(msix_layout_for_bar, (config, cap as u32), layout),
    ensures
        r.valid(),
        r.recognizer().control_start == cap + 2,
        r.recognizer().table == Some(layout.0),
        r.recognizer().pba == Some(layout.1),
{
    let k = choose|k: nat| #[trigger]
        msix_found_at(config@, k) && cap == capability(config@, k);
    assert(msix_found_at(config@, k));
}

/// A device is made with its BARs as the device reports them, each under its own number, all at
/// address 0, and with nothing kept from it. It has MSI-X only if the search finds it.
pub proof fn made_as_reported(
    id: u32,
    subclass: u8,
    reported: Vec<DeviceRegion>,
    config: &ConfigSpace,
    r: VfioCommon,
    found: Option<usize>,
)
    requires
        call_ensures(VfioCommon::new, (id, subclass, reported, config), r),
        call_ensures(find_msix_cap_offset, (config,), found),
        reported@.len() == 6,
    ensures
        r.valid(),
        r.id() == id,
        r.subclass() == subclass,
        r.recognizer().regions.len() == 6,
        forall|i: int|
            0 <= i < 6 ==> {
                let bar = #[trigger] r.recognizer().regions[i];
                &&& bar.index == i
                &&& bar.start == 0
                &&& bar.flags == reported@[i].flags
                &&& bar.size == reported@[i].size
                &&& bar.offset == reported@[i].offset
                &&& bar.caps == reported@[i].caps@
            },
        r.configuration().bar_region_size().len() == 6,
        forall|i: int|
            0 <= i < 6 ==> (#[trigger] r.configuration().bar_region_size()[i]) == reported@[i].size
                % 0x1_0000_0000,
        r.recognizer().blocked.discard.len() == 0,
        r.recognizer().blocked.emulate.len() == 0,
        r.recognizer().table is Some <==> found is Some,
        r.recognizer().pba is Some <==> found is Some,
        found matches Some(cap) ==> r.recognizer().control_start == cap + 2,
{
    if found is Some {
        let k = choose|k: nat| #[trigger]
            msix_found_at(config@, k) && found->Some_0 == capability(config@, k);
        assert(msix_found_at(config@, k));
    } else {
        assert(no_msix(config@));
    }
    assert forall|i: int| 0 <= i < 6 implies (
    #[trigger] r.configuration().bar_region_size()[i]) == reported@[i].size % 0x1_0000_0000 by {
        let size = reported@[i].size;
        assert(size as u32 == size % 0x1_0000_0000) by (bit_vector);
    }
}

/// A recognizer is made as that of a device is, from the same reports.
pub proof fn recognizers_are_made_as_devices_are(
    id: u32,
    subclass: u8,
    reported: Vec<DeviceRegion>,
    config: &ConfigSpace,
    recognizer: VfioPcieMemoryRecognizer,
    device: VfioCommon,
    found: Option<usize>,
)
    requires
        call_ensures(VfioPcieMemoryRecognizer::new, (reported, config), recognizer),
        call_ensures(VfioCommon::new, (id, subclass, reported, config), device),
        call_ensures(find_msix_cap_offset, (config,), found),
        reported@.len() == 6,
    ensures
        recognizer@.valid(),
        recognizer@.regions == device.recognizer().regions,
        recognizer@.control_start == device.recognizer().control_start,
        recognizer@.control_end == device.recognizer().control_end,
        recognizer@.table == device.recognizer().table,
        recognizer@.pba == device.recognizer().pba,
        recognizer@.blocked.discard.len() == 0,
        recognizer@.blocked.emulate.len() == 0,
{
    if found is Some {
        let k = choose|k: nat| #[trigger]
            msix_found_at(config@, k) && found->Some_0 == capability(config@, k);
        assert(msix_found_at(config@, k));
    } else {
        assert(no_msix(config@));
    }
    assert(recognizer@.regions =~= device.recognizer().regions);
}

/// A register is read into 1, 2, 4 or 8 bytes, the last only where its number is even; else the
/// read is refused. Registers 4 to 9 and 12 are read here, the last without the one behind it; any
/// other goes on to the device, as a whole.
pub proof fn recognised_config_reads<'a>(
    recognizer: &VfioPcieMemoryRecognizer,
    reg_idx: usize,
    data: &'a mut [u8],
    r: Vec<AccessResolution<'a>>,
)
    requires
        call_ensures(
            <VfioPcieMemoryRecognizer as MemoryRecognizer>::parse_ecam_read,
            (recognizer, reg_idx, data),
            r,
        ),
    ensures
        r@.len() == 1,
        r@[0].data is Read,
        r@[0].data->Read_data@ == old(data)@,
        final(r@[0].data->Read_data)@ == final(data)@,
        ({
            let n = old(data)@.len();
            let allowed = n == 1 || n == 2 || n == 4 || (n == 8 && reg_idx % 2 == 0 && reg_idx
                != 12);
            let bar = 4 <= reg_idx <= 9 || reg_idx == 12;
            &&& !allowed ==> r@[0].access_type == IovaAccessType::InvalidAccess
            &&& allowed && bar ==> {
                r@[0].access_type matches IovaAccessType::BarReg { index } && index == reg_idx
            }
            &&& allowed && !bar ==> r@[0].access_type == (IovaAccessType::EcamCanForwardToVfio {
                reg_idx,
                offset: 0,
                data_len: 4,
            })
        }),
{
    let n = old(data)@.len() as int;
    assert(views(r@).len() == 1);
    assert(views(r@)[0] == r@[0]@);
    let at = reg_idx * 4;
    if n == 8 {
        assert(at % 8 == 0 <==> reg_idx % 2 == 0);
    } else if n == 4 || n == 2 || n == 1 {
        assert(at % 4 == 0 && at % 2 == 0 && at % 1 == 0);
    }
}

/// What a write is recognised as, and what is done for it, go together; a write for the device
/// keeps its register, offset and length.
pub proof fn recognised_config_writes<'a>(
    recognizer: &VfioPcieMemoryRecognizer,
    device: &mut VfioCommon,
    reg_idx: usize,
    offset: u64,
    data: &'a [u8],
    r: Vec<AccessResolution<'a>>,
    action: ConfigWriteAction,
)
    requires
        call_ensures(
            <VfioPcieMemoryRecognizer as MemoryRecognizer>::parse_ecam_write,
            (recognizer, reg_idx, offset, data),
            r,
        ),
        call_ensures(VfioCommon::write_config_register, (device, reg_idx, offset, data), action),
        recognizer@ == old(device).recognizer(),
    ensures
        r@.len() == 1,
        r@[0].data is Write,
        r@[0].data->Write_data@ == data@,
        action is Done ==> {
            r@[0].access_type matches IovaAccessType::BarReg { index } && index == reg_idx
        },
        action is SetMsixControl <==> r@[0].access_type == IovaAccessType::MsixCtrl,
        action is Ignore ==> r@[0].access_type == IovaAccessType::InvalidAccess,
        action is WriteDevice ==> {
            r@[0].access_type matches IovaAccessType::EcamCanForwardToVfio {
                reg_idx: register,
                offset: within,
                data_len,
            } && register == reg_idx && within == offset && data_len == data@.len()
        },
{
    assert(views(r@).len() == 1);
    assert(views(r@)[0] == r@[0]@);
}

/// A device on the bus answers configuration accesses as the device in it does.
pub proof fn bus_device_answers_for_its_device(
    bus: &mut VfioPciDevice,
    device: &mut VfioCommon,
    reg_idx: usize,
    offset: u64,
    data: &[u8],
    r: ConfigWriteAction,
    inner: ConfigWriteAction,
)
    requires
        call_ensures(VfioPciDevice::write_config_register, (bus, reg_idx, offset, data), r),
        call_ensures(VfioCommon::write_config_register, (device, reg_idx, offset, data), inner),
        *old(device) == old(bus).common(),
    ensures
        r == inner,
        *final(bus) == *old(bus),
{
}

/// A read of a configuration register through the bus is one of the device in it: registers 4 to
/// 9 and 12 read as 0, any other as the device has it, but for bit 23 of register 3.
pub proof fn bus_config_reads<F: FnOnce(u32) -> u32>(
    bus: &mut VfioPciDevice,
    reg_idx: usize,
    ask: F,
    r: u32,
) -> (value: u32)
    requires
        call_ensures(VfioPciDevice::read_config_register::<F>, (bus, reg_idx, ask), r),
    ensures
        *final(bus) == *old(bus),
        4 <= reg_idx <= 9 || reg_idx == 12 ==> r == 0,
        !(4 <= reg_idx <= 9 || reg_idx == 12) ==> call_ensures(
            ask,
            ((4 * reg_idx) as u32,),
            value,
        ),
        !(4 <= reg_idx <= 9 || reg_idx == 12) && reg_idx != 3 ==> r == value,
        reg_idx == 3 ==> r == value - (value / 0x80_0000 % 2) * 0x80_0000,
{
    let value = choose|value: u32| #[trigger]
        call_ensures(ask, ((reg_idx * 4) as u32,), value) && r
            == crate::common::visible_value(reg_idx, value);
    lemma_bit(value);
    value
}

} // verus!

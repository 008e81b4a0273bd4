//! Recognises what a guest access to a passed-through device is for.

use crate::access::{
    access_span, aligned_access, is_aligned_access, remap_segment_type, span_of, type_of_segment,
    views, AccessResolution, AccessView, IovaAccessData, IovaAccessType,
};
use crate::bar_location::{
    covered, has_edge, in_order, increasing, insert_in_order, insert_point, insertion_point,
    is_edge, meets, BarLocation,
};
use crate::blocked::{access_end, Blocked};
use crate::config_space::{
    capabilities_are_aligned, capability, find_msix_cap_offset, is_other, msix_found_at,
    msix_layout_for_bar, msix_layout_is_aligned, msix_pba_location, msix_table_location, no_msix,
    ConfigSpace, MSIX_TABLE_ENTRY_SIZE,
};
use vfio_ioctls::VfioRegionInfoCap;
use vstd::prelude::*;

verus! {

/// The configuration register of BAR 0.
pub const PCI_CONFIG_BAR0_INDEX: usize = 4;

/// How many BARs a device has.
pub const NUM_BAR_NUMS: usize = 6;

/// The configuration register of the expansion ROM BAR.
pub const PCI_ROM_EXP_BAR_INDEX: usize = 12;

/// The size of a configuration register in bytes.
pub const PCI_CONFIG_REGISTER_SIZE: usize = 4;

/// What a device reports of one of its regions.
#[derive(Debug)]
pub struct DeviceRegion {
    /// Region flags.
    pub flags: u32,
    /// Size in bytes.
    pub size: u64,
    /// Offset from the start of the device file.
    pub offset: u64,
    /// Region capabilities.
    pub caps: Vec<VfioRegionInfoCap>,
}

/// A BAR of the device and where the guest sees it.
#[derive(Debug)]
pub struct VfioRegion {
    /// Number of the BAR.
    pub index: u32,
    /// Guest physical address of its first byte.
    pub start: u64,
    /// Region flags.
    pub flags: u32,
    /// Size in bytes.
    pub size: u64,
    /// Offset from the start of the device file.
    pub offset: u64,
    /// Region capabilities.
    pub caps: Vec<VfioRegionInfoCap>,
}

/// A BAR as plain values.
pub struct RegionView {
    /// Number of the BAR.
    pub index: u32,
    /// Guest physical address of its first byte.
    pub start: u64,
    /// Region flags.
    pub flags: u32,
    /// Size in bytes.
    pub size: u64,
    /// Offset from the start of the device file.
    pub offset: u64,
    /// Region capabilities.
    pub caps: Seq<VfioRegionInfoCap>,
}

impl View for VfioRegion {
    type V = RegionView;

    open spec fn view(&self) -> RegionView {
        RegionView {
            index: self.index,
            start: self.start,
            flags: self.flags,
            size: self.size,
            offset: self.offset,
            caps: self.caps@,
        }
    }
}

impl RegionView {
    /// Whether the guest physical address lies in the BAR.
    pub open spec fn holds(self, addr: int) -> bool {
        self.start <= addr < self.start + self.size
    }

    /// Whether the BAR has bytes, and the first of them stands at the address.
    pub open spec fn begins_at(self, base: u64) -> bool {
        self.start == base && self.size > 0
    }
}

fn clone_caps(caps: &Vec<VfioRegionInfoCap>) -> (r: Vec<VfioRegionInfoCap>)
    ensures
        r@ == caps@,
{
    let r = caps.clone();
    assert(r@ =~= caps@);
    r
}

impl Clone for VfioRegion {
    fn clone(&self) -> (r: Self)
        ensures
            r@ == self@,
    {
        VfioRegion {
            index: self.index,
            start: self.start,
            flags: self.flags,
            size: self.size,
            offset: self.offset,
            caps: clone_caps(&self.caps),
        }
    }
}

/// The first of the BARs that holds the address.
pub open spec fn region_at(regions: Seq<RegionView>, addr: int) -> Option<RegionView>
    decreases regions.len(),
{
    if regions.len() == 0 {
        None
    } else {
        match region_at(regions.drop_last(), addr) {
            Some(region) => Some(region),
            None => if regions.last().holds(addr) {
                Some(regions.last())
            } else {
                None
            },
        }
    }
}

/// The first of the BARs that begins at the address. A BAR of no bytes stands nowhere.
pub open spec fn region_from(regions: Seq<RegionView>, base: u64) -> Option<RegionView>
    decreases regions.len(),
{
    if regions.len() == 0 {
        None
    } else {
        match region_from(regions.drop_last(), base) {
            Some(region) => Some(region),
            None => if regions.last().begins_at(base) {
                Some(regions.last())
            } else {
                None
            },
        }
    }
}

/// Whether a configuration register is that of a BAR.
pub open spec fn is_bar_register(reg_idx: usize) -> bool {
    PCI_CONFIG_BAR0_INDEX <= reg_idx < PCI_CONFIG_BAR0_INDEX + NUM_BAR_NUMS || reg_idx
        == PCI_ROM_EXP_BAR_INDEX
}

/// What a recognizer knows, as plain values.
pub struct RecognizerView {
    /// The BARs, by number.
    pub regions: Seq<RegionView>,
    /// Configuration offset of the MSI-X message control register.
    pub control_start: usize,
    /// Configuration offset just behind it; equal to `control_start` without MSI-X.
    pub control_end: usize,
    /// The MSI-X vector table.
    pub table: Option<BarLocation>,
    /// The MSI-X pending bit array.
    pub pba: Option<BarLocation>,
    /// The stretches kept from the device.
    pub blocked: Blocked,
}

impl RecognizerView {
    /// What every recognizer keeps: its BARs stand in order of their numbers, the MSI-X
    /// structures stand where the hardware may have them, and the stretches kept from the
    /// device are in order.
    pub open spec fn valid(self) -> bool {
        &&& self.regions.len() == NUM_BAR_NUMS
        &&& forall|i: int| 0 <= i < NUM_BAR_NUMS ==> (#[trigger] self.regions[i]).index == i
        &&& in_order(self.blocked.discard)
        &&& in_order(self.blocked.emulate)
        &&& match self.table {
            Some(table) => {
                &&& self.control_start % 4 == 2
                &&& self.control_start <= 0xfe
                &&& self.control_end == self.control_start + 2
                &&& table.offset % 8 == 0
                &&& table.offset <= 0xffff_fff8
                &&& table.len % 16 == 0
                &&& 16 <= table.len <= 0x8000
            },
            None => self.control_start == 0 && self.control_end == 0,
        }
        &&& (self.pba is Some <==> self.table is Some)
        &&& self.pba matches Some(pba) ==> {
            &&& pba.offset % 8 == 0
            &&& pba.offset <= 0xffff_fff8
            &&& pba.len % 8 == 0
            &&& 0 < pba.len <= 256
        }
    }

    /// Whether the MSI-X structures stand where the configuration space says, if it has MSI-X.
    pub open spec fn has_msix_of(self, space: Seq<u8>) -> bool {
        &&& forall|k: nat| #[trigger]
            msix_found_at(space, k) ==> {
                let cap = capability(space, k) as int;
                &&& self.control_start == cap + 2
                &&& self.control_end == cap + 4
                &&& self.table == Some(msix_table_location(space, cap))
                &&& self.pba == Some(msix_pba_location(space, cap))
            }
        &&& no_msix(space) ==> {
            &&& self.control_start == 0
            &&& self.control_end == 0
            &&& self.table is None
            &&& self.pba is None
        }
    }

    /// What a read of a configuration register into `n` bytes is for. No other BAR register
    /// stands behind that of the expansion ROM, so a read must not run past it.
    pub open spec fn ecam_read_type(self, reg_idx: usize, n: int) -> IovaAccessType {
        if !aligned_access(reg_idx * PCI_CONFIG_REGISTER_SIZE, n) {
            IovaAccessType::InvalidAccess
        } else if reg_idx == PCI_ROM_EXP_BAR_INDEX && n > PCI_CONFIG_REGISTER_SIZE {
            IovaAccessType::InvalidAccess
        } else if is_bar_register(reg_idx) {
            IovaAccessType::BarReg { index: reg_idx as u8 }
        } else {
            IovaAccessType::EcamCanForwardToVfio { reg_idx, offset: 0, data_len: 4 }
        }
    }

    /// What a write of `n` bytes to a configuration register is for.
    pub open spec fn ecam_write_type(self, reg_idx: usize, offset: u64, n: int) -> IovaAccessType {
        let at = reg_idx * PCI_CONFIG_REGISTER_SIZE + offset;
        if !aligned_access(at, n) {
            IovaAccessType::InvalidAccess
        } else if is_bar_register(reg_idx) {
            if n == 4 {
                IovaAccessType::BarReg { index: reg_idx as u8 }
            } else {
                IovaAccessType::InvalidAccess
            }
        } else if at < self.control_end && self.control_start < at + n {
            if n == 2 {
                IovaAccessType::MsixCtrl
            } else {
                IovaAccessType::InvalidAccess
            }
        } else {
            IovaAccessType::EcamCanForwardToVfio { reg_idx, offset, data_len: n as u8 }
        }
    }

    /// What an access of `n` bytes at `offset` of a BAR is for, before the stretches kept from
    /// the device are looked at.
    pub open spec fn bar_access_type(self, bar_index: u8, offset: u64, n: int) -> IovaAccessType {
        if !aligned_access(offset as int, n) {
            IovaAccessType::InvalidAccess
        } else if self.table matches Some(table) && table.bar_index == bar_index && table.covers(
            offset as int,
        ) {
            IovaAccessType::MsixTable {
                index: ((offset - self.table->Some_0.offset) / 16) as u16,
                offset,
                data_len: n as u8,
            }
        } else if self.pba matches Some(pba) && pba.bar_index == bar_index && pba.covers(
            offset as int,
        ) {
            IovaAccessType::Pba { offset, data_len: n as u8 }
        } else {
            IovaAccessType::BarRegionCanForwardToVfio {
                index: bar_index,
                offset,
                data_len: n as u8,
            }
        }
    }

    /// The number of the BAR that an access at `addr` goes to.
    pub open spec fn bar_at(self, addr: int) -> u8 {
        region_at(self.regions, addr)->Some_0.index as u8
    }

    /// Whether an access to a BAR can be looked up: its address exists and lies in a BAR.
    pub open spec fn reaches_a_bar(self, base: u64, offset: u64) -> bool {
        base + offset <= u64::MAX && region_at(self.regions, base + offset) is Some
    }

    /// Whether the `n` bytes at `addr` lie in the BAR that holds the first of them.
    pub open spec fn stays_in_its_bar(self, addr: int, n: int) -> bool {
        let region = region_at(self.regions, addr)->Some_0;
        addr + n <= region.start + region.size
    }

    /// An access to a BAR before the stretches kept from the device are looked at. One that runs
    /// past the end of its BAR is not allowed.
    pub open spec fn bar_access(
        self,
        base: u64,
        offset: u64,
        write: bool,
        bytes: Seq<u8>,
    ) -> AccessView {
        AccessView {
            access_type: if self.stays_in_its_bar(base + offset, bytes.len() as int) {
                self.bar_access_type(self.bar_at(base + offset), offset, bytes.len() as int)
            } else {
                IovaAccessType::InvalidAccess
            },
            write,
            bytes,
        }
    }

    /// The pieces of an access to a BAR.
    pub open spec fn resolve_bar_access(
        self,
        base: u64,
        offset: u64,
        write: bool,
        bytes: Seq<u8>,
    ) -> Seq<AccessView> {
        self.blocked.pieces(
            self.bar_at(base + offset),
            self.bar_access(base, offset, write, bytes),
        )
    }

    /// The recognizer once the guest has moved a BAR to `new_gpa`.
    pub open spec fn with_bar_at(self, bar_idx: u8, new_gpa: u64) -> RecognizerView {
        if bar_idx < self.regions.len() {
            RecognizerView {
                regions: self.regions.update(
                    bar_idx as int,
                    RegionView { start: new_gpa, ..self.regions[bar_idx as int] },
                ),
                ..self
            }
        } else {
            self
        }
    }

    /// The recognizer once a stretch of a BAR is to be dropped.
    pub open spec fn with_discard(self, region: BarLocation) -> RecognizerView {
        RecognizerView {
            blocked: Blocked {
                discard: self.blocked.discard.insert(
                    insertion_point(self.blocked.discard, region),
                    region,
                ),
                ..self.blocked
            },
            ..self
        }
    }

    /// The recognizer once a stretch of a BAR is to be emulated in memory.
    pub open spec fn with_emulation(self, region: BarLocation) -> RecognizerView {
        RecognizerView {
            blocked: Blocked {
                emulate: self.blocked.emulate.insert(
                    insertion_point(self.blocked.emulate, region),
                    region,
                ),
                ..self.blocked
            },
            ..self
        }
    }

    /// The stretches of the BARs that the device has, wherever the BARs stand.
    pub open spec fn passthrough(self) -> Seq<BarLocation> {
        self.regions.flat_map(
            |region: RegionView|
                self.blocked.open_stretches(region.index as u8, 0, region.size),
        )
    }
}

/// Whether the buffer of an access holds the bytes that its type names.
pub open spec fn holds_its_span(access: AccessView) -> bool {
    span_of(access.access_type) matches Some((start, len)) ==> access_end(start, len) - start
        <= access.bytes.len()
}

/// The bytes of a buffer behind those that the type of the access names. An access that is not
/// cut has none.
pub open spec fn behind_its_span(access: AccessView) -> Seq<u8> {
    match span_of(access.access_type) {
        Some((start, len)) if len > 0 => access.bytes.skip(access_end(start, len) - start),
        _ => Seq::empty(),
    }
}

/// Recognises accesses to the configuration space and the BARs of a PCIe device.
#[derive(Debug)]
pub struct VfioPcieMemoryRecognizer {
    bar_region_info: Vec<VfioRegion>,
    msix_clt_reg_offset_start: usize,
    msix_clt_reg_offset_end: usize,
    msix_pba_location: Option<BarLocation>,
    msix_vector_location: Option<BarLocation>,
    region_need_discard: Vec<BarLocation>,
    region_need_emulation_in_mem: Vec<BarLocation>,
}

/// A list of BARs as plain values.
pub open spec fn region_views(regions: Seq<VfioRegion>) -> Seq<RegionView> {
    Seq::new(regions.len(), |i: int| regions[i]@)
}

impl View for VfioPcieMemoryRecognizer {
    type V = RecognizerView;

    closed spec fn view(&self) -> RecognizerView {
        RecognizerView {
            regions: region_views(self.bar_region_info@),
            control_start: self.msix_clt_reg_offset_start,
            control_end: self.msix_clt_reg_offset_end,
            table: self.msix_vector_location,
            pba: self.msix_pba_location,
            blocked: Blocked {
                discard: self.region_need_discard@,
                emulate: self.region_need_emulation_in_mem@,
            },
        }
    }
}

impl VfioPcieMemoryRecognizer {
    /// Makes a recognizer from what a device reports of its six BARs and from its configuration
    /// space. The BARs stand at address 0 until the guest moves them, and nothing is kept from
    /// the device yet.
    pub fn new(device_regions: Vec<DeviceRegion>, config: &ConfigSpace) -> (r: Self)
        requires
            device_regions@.len() == NUM_BAR_NUMS,
        ensures
            r@.valid(),
            forall|i: int|
                0 <= i < NUM_BAR_NUMS ==> #[trigger] r@.regions[i] == (RegionView {
                    index: i as u32,
                    start: 0,
                    flags: device_regions@[i].flags,
                    size: device_regions@[i].size,
                    offset: device_regions@[i].offset,
                    caps: device_regions@[i].caps@,
                }),
            r@.blocked.discard.len() == 0,
            r@.blocked.emulate.len() == 0,
            r@.has_msix_of(config@),
    {
        let mut bar_region_info: Vec<VfioRegion> = Vec::new();
        let mut i: usize = 0;
        while i < NUM_BAR_NUMS
            invariant
                i <= NUM_BAR_NUMS,
                device_regions@.len() == NUM_BAR_NUMS,
                bar_region_info@.len() == i,
                forall|j: int|
                    0 <= j < i ==> (#[trigger] bar_region_info@[j])@ == (RegionView {
                        index: j as u32,
                        start: 0,
                        flags: device_regions@[j].flags,
                        size: device_regions@[j].size,
                        offset: device_regions@[j].offset,
                        caps: device_regions@[j].caps@,
                    }),
            decreases NUM_BAR_NUMS - i,
        {
            let reported = &device_regions[i];
            bar_region_info.push(
                VfioRegion {
                    index: i as u32,
                    start: 0,
                    flags: reported.flags,
                    size: reported.size,
                    offset: reported.offset,
                    caps: clone_caps(&reported.caps),
                },
            );
            i = i + 1;
        }
        match find_msix_cap_offset(config) {
            Some(msix_cap_offset) => {
                proof {
                    let k = choose|k: nat| #[trigger]
                        msix_found_at(config@, k) && msix_cap_offset == capability(config@, k);
                    capabilities_are_aligned(config@, k);
                    msix_layout_is_aligned(config@, msix_cap_offset as int);
                    assert forall|j: nat| #[trigger] msix_found_at(config@, j) implies j == k by {
                        if j < k {
                            assert(is_other(config@, j));
                        } else if k < j {
                            assert(is_other(config@, k));
                        }
                    }
                }
                let (msix_vector_location, msix_pba_location) = msix_layout_for_bar(
                    config,
                    msix_cap_offset as u32,
                );
                VfioPcieMemoryRecognizer {
                    bar_region_info,
                    msix_clt_reg_offset_start: msix_cap_offset + 2,
                    msix_clt_reg_offset_end: msix_cap_offset + 4,
                    msix_pba_location: Some(msix_pba_location),
                    msix_vector_location: Some(msix_vector_location),
                    region_need_discard: Vec::new(),
                    region_need_emulation_in_mem: Vec::new(),
                }
            },
            None => VfioPcieMemoryRecognizer {
                bar_region_info,
                msix_clt_reg_offset_start: 0,
                msix_clt_reg_offset_end: 0,
                msix_pba_location: None,
                msix_vector_location: None,
                region_need_discard: Vec::new(),
                region_need_emulation_in_mem: Vec::new(),
            },
        }
    }

    /// The sizes of the BARs, each cut to its low 32 bits.
    pub fn get_bar_region_size(&self) -> (r: [u32; 6])
        requires
            self@.valid(),
        ensures
            forall|i: int| 0 <= i < 6 ==> #[trigger] r@[i] == self@.regions[i].size as u32,
    {
        let mut sizes: [u32; 6] = [0;6];
        let mut i: usize = 0;
        while i < NUM_BAR_NUMS
            invariant
                i <= NUM_BAR_NUMS,
                self@.valid(),
                forall|j: int| 0 <= j < i ==> #[trigger] sizes@[j] == self@.regions[j].size as u32,
            decreases NUM_BAR_NUMS - i,
        {
            assert(self@.regions[i as int] == self.bar_region_info@[i as int]@);
            sizes[i] = self.bar_region_info[i].size as u32;
            i = i + 1;
        }
        sizes
    }

    /// Keeps the accesses to a stretch of a BAR from the device; they are dropped.
    pub fn add_region_need_discard(&mut self, region: BarLocation)
        ensures
            final(self)@ == old(self)@.with_discard(region),
            old(self)@.valid() ==> final(self)@.valid(),
    {
        insert_in_order(&mut self.region_need_discard, region);
    }

    /// Keeps the accesses to a stretch of a BAR from the device; they are emulated in memory.
    pub fn add_region_need_emulation_in_mem(&mut self, region: BarLocation)
        ensures
            final(self)@ == old(self)@.with_emulation(region),
            old(self)@.valid() ==> final(self)@.valid(),
    {
        insert_in_order(&mut self.region_need_emulation_in_mem, region);
    }

    /// The first BAR that holds the guest physical address.
    fn region_holding(&self, addr: u64) -> (r: Option<&VfioRegion>)
        ensures
            match r {
                Some(region) => region_at(self@.regions, addr as int) == Some(region@),
                None => region_at(self@.regions, addr as int) is None,
            },
    {
        let mut i: usize = 0;
        while i < self.bar_region_info.len()
            invariant
                i <= self.bar_region_info@.len(),
                region_at(self@.regions.take(i as int), addr as int) is None,
            decreases self.bar_region_info@.len() - i,
        {
            let region = &self.bar_region_info[i];
            proof {
                let more = self@.regions.take(i + 1);
                assert(more.drop_last() =~= self@.regions.take(i as int));
                assert(more.last() == region@);
            }
            if addr >= region.start && addr - region.start < region.size {
                proof {
                    lemma_first_match_stays(self@.regions, i + 1, addr as int);
                }
                return Some(region);
            }
            i = i + 1;
        }
        proof {
            assert(self@.regions.take(i as int) =~= self@.regions);
        }
        None
    }

    /// The number of the first BAR that begins at the address.
    pub fn bar_from(&self, base: u64) -> (r: Option<u8>)
        requires
            self@.valid(),
        ensures
            match r {
                Some(bar_idx) => region_from(self@.regions, base) matches Some(region)
                    && region.index == bar_idx,
                None => region_from(self@.regions, base) is None,
            },
    {
        let mut i: usize = 0;
        while i < self.bar_region_info.len()
            invariant
                self@.valid(),
                i <= self.bar_region_info@.len(),
                region_from(self@.regions.take(i as int), base) is None,
            decreases self.bar_region_info@.len() - i,
        {
            let region = &self.bar_region_info[i];
            proof {
                let more = self@.regions.take(i + 1);
                assert(more.drop_last() =~= self@.regions.take(i as int));
                assert(more.last() == region@);
                assert(self@.regions[i as int] == region@);
            }
            if region.start == base && region.size > 0 {
                proof {
                    lemma_first_start_stays(self@.regions, i + 1, base);
                }
                return Some(region.index as u8);
            }
            i = i + 1;
        }
        proof {
            assert(self@.regions.take(i as int) =~= self@.regions);
        }
        None
    }

    /// The stretches of the BARs that the device has, by BAR and offset.
    fn get_region_can_passthrough_internal(&self) -> (r: Vec<BarLocation>)
        requires
            self@.valid(),
        ensures
            r@ == self@.passthrough(),
    {
        let ghost all = self@.regions;
        let ghost open = |region: RegionView|
            self@.blocked.open_stretches(region.index as u8, 0, region.size);
        let mut res: Vec<BarLocation> = Vec::new();
        let mut i: usize = 0;
        proof {
            assert(res@ =~= all.take(0).flat_map(open));
        }
        while i < self.bar_region_info.len()
            invariant
                i <= self.bar_region_info@.len(),
                all == self@.regions,
                open == |region: RegionView|
                    self@.blocked.open_stretches(region.index as u8, 0, region.size),
                res@ == all.take(i as int).flat_map(open),
            decreases self.bar_region_info@.len() - i,
        {
            let region = &self.bar_region_info[i];
            let ghost before = res@;
            self.push_open_stretches(&mut res, region.index as u8, 0, region.size);
            proof {
                assert(all[i as int] == region@);
                all.lemma_flat_map_take_append(open, i as int);
            }
            i = i + 1;
        }
        proof {
            assert(all.take(i as int) =~= all);
        }
        res
    }

    /// Appends the stretches of `[start, end)` of a BAR that the device has.
    fn push_open_stretches(
        &self,
        res: &mut Vec<BarLocation>,
        bar_index: u8,
        start: u64,
        end: u64,
    )
        requires
            start <= end,
        ensures
            final(res)@ == old(res)@ + self@.blocked.open_stretches(bar_index, start, end),
    {
        let points = self.split_points_for_bar(bar_index, start, end);
        let ghost all = self@.blocked.stretches(bar_index, start, end);
        let ghost free = |piece: BarLocation|
            self@.blocked.kind_at(bar_index, piece.offset as int) is None;
        let mut i: usize = 0;
        proof {
            self@.blocked.cut_points_span_the_range(bar_index, start, end);
            reveal(Seq::filter);
            assert(res@ =~= old(res)@ + all.take(0).filter(free));
        }
        while i < points.len() - 1
            invariant
                points@.len() >= 1,
                i <= points@.len() - 1,
                increasing(points@),
                points@ == self@.blocked.cut_points(bar_index, start, end),
                all == self@.blocked.stretches(bar_index, start, end),
                free == |piece: BarLocation|
                    self@.blocked.kind_at(bar_index, piece.offset as int) is None,
                res@ == old(res)@ + all.take(i as int).filter(free),
            decreases points@.len() - i,
        {
            let from: u64 = points[i];
            let to: u64 = points[i + 1];
            proof {
                lemma_within(points@, i as int);
                assert(all.take(i + 1) =~= all.take(i as int).push(all[i as int]));
                all.take(i as int).lemma_filter_push(all[i as int], free);
            }
            if self.region_kind_at(bar_index, from).is_none() {
                res.push(BarLocation { bar_index, offset: from, len: to - from });
            }
            i = i + 1;
        }
        proof {
            assert(all.take(i as int) =~= all);
        }
    }

    /// What the byte at `offset` of a BAR is kept for, `None` if the device has it.
    pub fn region_kind_at(&self, bar_index: u8, offset: u64) -> (r: Option<IovaAccessType>)
        ensures
            r == self@.blocked.kind_at(bar_index, offset as int),
    {
        if any_covers(&self.region_need_discard, bar_index, offset) {
            Some(IovaAccessType::MmioNeededDiscard)
        } else if any_covers(&self.region_need_emulation_in_mem, bar_index, offset) {
            Some(IovaAccessType::MmioNeededEmulationInMem)
        } else {
            None
        }
    }

    /// Where `[start, end)` of a BAR is cut: at its ends, and where a stretch kept from the
    /// device begins or ends in it. Increasing, each point once.
    pub fn split_points_for_bar(&self, bar_index: u8, start: u64, end: u64) -> (r: Vec<u64>)
        ensures
            self@.blocked.cuts_at(bar_index, start, end, r@),
            r@ == self@.blocked.cut_points(bar_index, start, end),
    {
        let mut points: Vec<u64> = Vec::new();
        insert_point(&mut points, start);
        let ghost with_start = points@;
        insert_point(&mut points, end);
        let ghost ends = points@;
        add_edges(&mut points, &self.region_need_discard, bar_index, start, end);
        let ghost with_discard = points@;
        add_edges(&mut points, &self.region_need_emulation_in_mem, bar_index, start, end);
        proof {
            assert forall|x: u64| #[trigger]
                points@.contains(x) <==> self@.blocked.is_cut(bar_index, start, end, x) by {
                assert(with_discard.contains(x) <==> ends.contains(x) || has_edge(
                    self.region_need_discard@,
                    bar_index,
                    start,
                    end,
                    x,
                ));
                assert(ends.contains(x) <==> with_start.contains(x) || x == end);
                assert(with_start.contains(x) <==> x == start);
            }
            self@.blocked.cut_points_are_unique(bar_index, start, end, points@);
        }
        points
    }

    /// The type of the piece `[from, to)` of an access.
    fn piece_type(&self, bar_index: u8, access_type: &IovaAccessType, from: u64, to: u64) -> (r:
        IovaAccessType)
        requires
            from <= to,
            to - from <= usize::MAX,
        ensures
            r == (match self@.blocked.kind_at(bar_index, from as int) {
                Some(kind) => kind,
                None => type_of_segment(*access_type, from, (to - from) as usize),
            }),
    {
        match self.region_kind_at(bar_index, from) {
            Some(kind) => kind,
            None => remap_segment_type(access_type, from, (to - from) as usize),
        }
    }

    /// Cuts one access into pieces at the edges of the stretches kept from the device.
    fn split_access<'a>(&self, bar_index: u8, resolution: AccessResolution<'a>) -> (r: Vec<
        AccessResolution<'a>,
    >)
        requires
            holds_its_span(resolution@),
        ensures
            views(r@) == self@.blocked.pieces(bar_index, resolution@),
            resolution.data is Read ==> final(resolution.data->Read_data)@ == Seq::new(
                r@.len(),
                |k: int| final(r@[k].data->Read_data)@,
            ).flatten() + behind_its_span(resolution@),
    {
        let ghost whole = resolution;
        let mut pieces: Vec<AccessResolution<'a>> = Vec::new();
        let (access_start, access_len) = match access_span(&resolution.access_type) {
            Some(span) => span,
            None => (0, 0),
        };
        if access_len == 0 {
            pieces.push(resolution);
            proof {
                assert(views(pieces@) =~= seq![whole@]);
                let parts = Seq::new(pieces@.len(), |k: int| final(pieces@[k].data->Read_data)@);
                parts.lemma_flatten_one_element();
            }
            return pieces;
        }
        let access_end: u64 = access_start.saturating_add(access_len as u64);
        let points = self.split_points_for_bar(bar_index, access_start, access_end);
        proof {
            self@.blocked.cut_points_span_the_range(bar_index, access_start, access_end);
        }
        let access_type = resolution.access_type;
        match resolution.data {
            IovaAccessData::Read { data } => {
                let mut remaining: &'a mut [u8] = data;
                let mut i: usize = 0;
                proof {
                    let parts = Seq::new(
                        pieces@.len(),
                        |k: int| final(pieces@[k].data->Read_data)@,
                    );
                    assert(parts.flatten() =~= Seq::empty());
                    assert(remaining@ =~= whole@.bytes.skip(0));
                    assert(final(whole.data->Read_data)@ =~= parts.flatten() + final(remaining)@);
                }
                while i < points.len() - 1
                    invariant
                        pieces@.len() == i,
                        i + 1 <= points@.len(),
                        increasing(points@),
                        points@.first() == access_start,
                        points@.last() - access_start <= whole@.bytes.len(),
                        points@.last() - access_start <= usize::MAX,
                        access_type == whole.access_type,
                        whole.data is Read,
                        remaining@ == whole@.bytes.skip(points@[i as int] - access_start),
                        forall|k: int|
                            0 <= k < i ==> (#[trigger] pieces@[k])@ == self@.blocked.segment(
                                bar_index,
                                whole@,
                                access_start,
                                points@[k],
                                points@[k + 1],
                            ),
                        final(whole.data->Read_data)@ == Seq::new(
                            pieces@.len(),
                            |k: int| final(pieces@[k].data->Read_data)@,
                        ).flatten() + final(remaining)@,
                    decreases points@.len() - i,
                {
                    let segment_start: u64 = points[i];
                    let segment_end: u64 = points[i + 1];
                    proof {
                        lemma_within(points@, i as int);
                    }
                    let segment_len: usize = (segment_end - segment_start) as usize;
                    let ghost before = pieces@;
                    let ghost uncut = remaining;
                    let (segment_data, rest) = remaining.split_at_mut(segment_len);
                    let ghost cut = segment_data;
                    remaining = rest;
                    let piece_type = self.piece_type(
                        bar_index,
                        &access_type,
                        segment_start,
                        segment_end,
                    );
                    pieces.push(
                        AccessResolution {
                            access_type: piece_type,
                            data: IovaAccessData::Read { data: segment_data },
                        },
                    );
                    proof {
                        let old_parts = Seq::new(
                            before.len(),
                            |k: int| final(before[k].data->Read_data)@,
                        );
                        let parts = Seq::new(
                            pieces@.len(),
                            |k: int| final(pieces@[k].data->Read_data)@,
                        );
                        assert(parts =~= old_parts.push(final(cut)@));
                        old_parts.lemma_flatten_push(final(cut)@);
                        assert(final(uncut)@ == final(cut)@ + final(remaining)@);
                        let rest = final(remaining)@;
                        assert(old_parts.flatten() + final(uncut)@ =~= parts.flatten() + rest);
                        assert(remaining@ =~= whole@.bytes.skip(segment_end - access_start));
                        assert(pieces@[i as int]@.bytes =~= whole@.bytes.subrange(
                            segment_start - access_start,
                            segment_end - access_start,
                        ));
                    }
                    i = i + 1;
                }
                proof {
                    assert(views(pieces@) =~= self@.blocked.pieces(bar_index, whole@));
                }
            },
            IovaAccessData::Write { data } => {
                let mut i: usize = 0;
                while i < points.len() - 1
                    invariant
                        pieces@.len() == i,
                        i + 1 <= points@.len(),
                        increasing(points@),
                        points@.first() == access_start,
                        points@.last() - access_start <= data@.len(),
                        points@.last() - access_start <= usize::MAX,
                        access_type == whole.access_type,
                        whole.data is Write,
                        whole@.bytes == data@,
                        forall|k: int|
                            0 <= k < i ==> (#[trigger] pieces@[k])@ == self@.blocked.segment(
                                bar_index,
                                whole@,
                                access_start,
                                points@[k],
                                points@[k + 1],
                            ),
                    decreases points@.len() - i,
                {
                    let segment_start: u64 = points[i];
                    let segment_end: u64 = points[i + 1];
                    proof {
                        lemma_within(points@, i as int);
                    }
                    let local_start: usize = (segment_start - access_start) as usize;
                    let local_end: usize = (segment_end - access_start) as usize;
                    let piece_type = self.piece_type(
                        bar_index,
                        &access_type,
                        segment_start,
                        segment_end,
                    );
                    pieces.push(
                        AccessResolution {
                            access_type: piece_type,
                            data: IovaAccessData::Write { data: &data[local_start..local_end] },
                        },
                    );
                    i = i + 1;
                }
                proof {
                    assert(views(pieces@) =~= self@.blocked.pieces(bar_index, whole@));
                }
            },
        }
        pieces
    }

    /// Cuts accesses to a BAR at the edges of the stretches kept from the device, and gives each
    /// piece its type. The pieces of a read share its buffer out between them, in order.
    pub fn filter_bar_region_access<'a>(
        &self,
        bar_index: u8,
        access: Vec<AccessResolution<'a>>,
    ) -> (r: Vec<AccessResolution<'a>>)
        requires
            forall|i: int| 0 <= i < access@.len() ==> holds_its_span((#[trigger] access@[i])@),
        ensures
            views(r@) == self@.blocked.filtered(bar_index, views(access@)),
            forall|i: int|
                0 <= i < access@.len() && access@[i].data is Read ==> {
                    let first = self@.blocked.first_piece(bar_index, views(access@), i);
                    final((#[trigger] access@[i]).data->Read_data)@ == Seq::new(
                        self@.blocked.pieces(bar_index, access@[i]@).len(),
                        |k: int| final(r@[first + k].data->Read_data)@,
                    ).flatten() + behind_its_span(access@[i]@)
                },
    {
        let ghost all = views(access@);
        let ghost given = access@;
        let ghost blocked = self@.blocked;
        let mut filtered: Vec<AccessResolution<'a>> = Vec::new();
        proof {
            assert(views(filtered@) =~= blocked.filtered(bar_index, all.take(0)));
        }
        for resolution in it: access
            invariant
                it.seq() == given,
                all == views(given),
                blocked == self@.blocked,
                forall|i: int| 0 <= i < given.len() ==> holds_its_span((#[trigger] given[i])@),
                views(filtered@) == blocked.filtered(bar_index, all.take(it.index() as int)),
                forall|i: int|
                    0 <= i < it.index() && given[i].data is Read ==> {
                        let first = blocked.first_piece(bar_index, all, i);
                        final((#[trigger] given[i]).data->Read_data)@ == Seq::new(
                            blocked.pieces(bar_index, given[i]@).len(),
                            |k: int| final(filtered@[first + k].data->Read_data)@,
                        ).flatten() + behind_its_span(given[i]@)
                    },
        {
            let ghost n = it.index() as int;
            let ghost before = filtered@;
            let mut pieces = self.split_access(bar_index, resolution);
            let ghost added = pieces@;
            filtered.append(&mut pieces);
            proof {
                assert(all.take(n + 1) =~= all.take(n).push(all[n]));
                let cut = |access: AccessView| blocked.pieces(bar_index, access);
                all.take(n).lemma_flat_map_push(cut, all[n]);
                assert(views(filtered@) =~= views(before) + views(added));
                assert forall|i: int| 0 <= i <= n && given[i].data is Read implies {
                    let first = blocked.first_piece(bar_index, all, i);
                    final((#[trigger] given[i]).data->Read_data)@ == Seq::new(
                        blocked.pieces(bar_index, given[i]@).len(),
                        |k: int| final(filtered@[first + k].data->Read_data)@,
                    ).flatten() + behind_its_span(given[i]@)
                } by {
                    let first = blocked.first_piece(bar_index, all, i);
                    let count = blocked.pieces(bar_index, given[i]@).len();
                    let now = Seq::new(
                        count,
                        |k: int| final(filtered@[first + k].data->Read_data)@,
                    );
                    if i < n {
                        blocked.lemma_pieces_follow(bar_index, all, i, n);
                        let was = Seq::new(
                            count,
                            |k: int| final(before[first + k].data->Read_data)@,
                        );
                        assert(now =~= was);
                    } else {
                        assert(added.len() == views(added).len());
                        let own = Seq::new(
                            added.len(),
                            |k: int| final(added[k].data->Read_data)@,
                        );
                        assert(now =~= own);
                    }
                }
            }
        }
        proof {
            assert(all.take(all.len() as int) =~= all);
        }
        filtered
    }
}

/// Recognises what the accesses of a guest are for, and shares their bytes out.
pub trait MemoryRecognizer: View<V = RecognizerView> + Send + Sync {
    /// Recognises a read of a configuration register. The register is read as a whole.
    fn parse_ecam_read<'a>(&self, reg_idx: usize, data: &'a mut [u8]) -> (r: Vec<
        AccessResolution<'a>,
    >)
        ensures
            views(r@) == seq![
                AccessView {
                    access_type: self@.ecam_read_type(reg_idx, old(data)@.len() as int),
                    write: false,
                    bytes: old(data)@,
                },
            ],
            final(data)@ == final(r@[0].data->Read_data)@,
    ;

    /// Recognises a write `offset` bytes into a configuration register.
    fn parse_ecam_write<'a>(&self, reg_idx: usize, offset: u64, data: &'a [u8]) -> (r: Vec<
        AccessResolution<'a>,
    >)
        requires
            reg_idx * PCI_CONFIG_REGISTER_SIZE + offset <= usize::MAX,
        ensures
            views(r@) == seq![
                AccessView {
                    access_type: self@.ecam_write_type(reg_idx, offset, data@.len() as int),
                    write: true,
                    bytes: data@,
                },
            ],
    ;

    /// Recognises a read `offset` bytes behind `base`. The pieces share the buffer out between
    /// them, in order; only a byte behind the last offset there is belongs to none.
    fn parse_bar_read<'a>(&self, base: u64, offset: u64, data: &'a mut [u8]) -> (r: Vec<
        AccessResolution<'a>,
    >)
        requires
            self@.valid(),
            self@.reaches_a_bar(base, offset),
        ensures
            views(r@) == self@.resolve_bar_access(base, offset, false, old(data)@),
            final(data)@ == Seq::new(
                r@.len(),
                |k: int| final(r@[k].data->Read_data)@,
            ).flatten() + behind_its_span(self@.bar_access(base, offset, false, old(data)@)),
    ;

    /// Recognises a write `offset` bytes behind `base`.
    fn parse_bar_write<'a>(&self, base: u64, offset: u64, data: &'a [u8]) -> (r: Vec<
        AccessResolution<'a>,
    >)
        requires
            self@.valid(),
            self@.reaches_a_bar(base, offset),
        ensures
            views(r@) == self@.resolve_bar_access(base, offset, true, data@),
    ;

    /// Takes note that the guest has moved a BAR.
    fn on_bar_reprogrammed(&mut self, bar_idx: u8, old_gpa: u64, new_gpa: u64)
        requires
            old(self)@.valid(),
        ensures
            final(self)@ == old(self)@.with_bar_at(bar_idx, new_gpa),
            final(self)@.valid(),
    ;

    /// The first BAR that holds the guest physical address.
    fn find_region(&self, addr: u64) -> (r: Option<VfioRegion>)
        ensures
            match r {
                Some(region) => region_at(self@.regions, addr as int) == Some(region@),
                None => region_at(self@.regions, addr as int) is None,
            },
    ;

    /// The stretches of the BARs that the device has, by BAR and offset.
    fn get_region_can_passthrough(&self) -> (r: Vec<BarLocation>)
        requires
            self@.valid(),
        ensures
            r@ == self@.passthrough(),
    ;
}

/// Tells whether a configuration register is that of a BAR.
fn register_is_of_bar(reg_idx: usize) -> (r: bool)
    ensures
        r == is_bar_register(reg_idx),
{
    (PCI_CONFIG_BAR0_INDEX <= reg_idx && reg_idx < PCI_CONFIG_BAR0_INDEX + NUM_BAR_NUMS) || reg_idx
        == PCI_ROM_EXP_BAR_INDEX
}

/// Tells whether a configuration register may be read into `n` bytes.
fn register_read_is_aligned(reg_idx: usize, n: usize) -> (r: bool)
    ensures
        r == aligned_access(reg_idx * PCI_CONFIG_REGISTER_SIZE, n as int),
{
    proof {
        assert((reg_idx * 4) % 1 == 0 && (reg_idx * 4) % 2 == 0 && (reg_idx * 4) % 4 == 0);
        assert((reg_idx * 4) % 8 == 0 <==> reg_idx % 2 == 0);
    }
    n == 1 || n == 2 || n == 4 || (n == 8 && reg_idx % 2 == 0)
}

impl VfioPcieMemoryRecognizer {
    /// What an access of `n` bytes at `offset` behind `base` is for, and the number of its BAR.
    fn recognise_access(&self, base: u64, offset: u64, n: usize) -> (r: (u8, IovaAccessType))
        requires
            self@.valid(),
            self@.reaches_a_bar(base, offset),
        ensures
            r.0 == self@.bar_at(base + offset),
            r.1 == if self@.stays_in_its_bar(base + offset, n as int) {
                self@.bar_access_type(r.0, offset, n as int)
            } else {
                IovaAccessType::InvalidAccess
            },
    {
        let addr: u64 = base + offset;
        proof {
            lemma_holder(self@.regions, addr as int);
        }
        match self.region_holding(addr) {
            Some(region) => {
                let bar_index: u8 = region.index as u8;
                if n as u64 > region.size - (addr - region.start) {
                    (bar_index, IovaAccessType::InvalidAccess)
                } else {
                    (bar_index, self.recognise_bar_access(bar_index, offset, n))
                }
            },
            None => (0, IovaAccessType::InvalidAccess),
        }
    }

    /// What an access of `n` bytes at `offset` of a BAR is for, before the stretches kept from
    /// the device are looked at.
    fn recognise_bar_access(&self, bar_index: u8, offset: u64, n: usize) -> (r: IovaAccessType)
        ensures
            r == self@.bar_access_type(bar_index, offset, n as int),
    {
        if !is_aligned_access(offset, n) {
            return IovaAccessType::InvalidAccess;
        }
        let data_len: u8 = n as u8;
        if let Some(table) = self.msix_vector_location {
            if table.bar_index == bar_index && table.contains(offset) {
                let index: u16 = ((offset - table.offset) / MSIX_TABLE_ENTRY_SIZE) as u16;
                return IovaAccessType::MsixTable { index, offset, data_len };
            }
        }
        if let Some(pba) = self.msix_pba_location {
            if pba.bar_index == bar_index && pba.contains(offset) {
                return IovaAccessType::Pba { offset, data_len };
            }
        }
        IovaAccessType::BarRegionCanForwardToVfio { index: bar_index, offset, data_len }
    }
}

impl MemoryRecognizer for VfioPcieMemoryRecognizer {
    fn parse_ecam_read<'a>(&self, reg_idx: usize, data: &'a mut [u8]) -> (r: Vec<
        AccessResolution<'a>,
    >) {
        let access_type = if !register_read_is_aligned(reg_idx, data.len()) {
            IovaAccessType::InvalidAccess
        } else if reg_idx == PCI_ROM_EXP_BAR_INDEX && data.len() > PCI_CONFIG_REGISTER_SIZE {
            IovaAccessType::InvalidAccess
        } else if register_is_of_bar(reg_idx) {
            IovaAccessType::BarReg { index: reg_idx as u8 }
        } else {
            IovaAccessType::EcamCanForwardToVfio { reg_idx, offset: 0, data_len: 4 }
        };
        let mut res: Vec<AccessResolution<'a>> = Vec::new();
        res.push(AccessResolution { access_type, data: IovaAccessData::Read { data } });
        res
    }

    fn parse_ecam_write<'a>(&self, reg_idx: usize, offset: u64, data: &'a [u8]) -> (r: Vec<
        AccessResolution<'a>,
    >) {
        let n: usize = data.len();
        let at: usize = reg_idx * PCI_CONFIG_REGISTER_SIZE + offset as usize;
        let access_type = if !is_aligned_access(at as u64, n) {
            IovaAccessType::InvalidAccess
        } else if register_is_of_bar(reg_idx) {
            if n == 4 {
                IovaAccessType::BarReg { index: reg_idx as u8 }
            } else {
                IovaAccessType::InvalidAccess
            }
        } else if at < self.msix_clt_reg_offset_end && (self.msix_clt_reg_offset_start < at
            || self.msix_clt_reg_offset_start - at < n) {
            if n == 2 {
                IovaAccessType::MsixCtrl
            } else {
                IovaAccessType::InvalidAccess
            }
        } else {
            IovaAccessType::EcamCanForwardToVfio { reg_idx, offset, data_len: n as u8 }
        };
        let mut res: Vec<AccessResolution<'a>> = Vec::new();
        res.push(AccessResolution { access_type, data: IovaAccessData::Write { data } });
        res
    }

    fn parse_bar_read<'a>(&self, base: u64, offset: u64, data: &'a mut [u8]) -> (r: Vec<
        AccessResolution<'a>,
    >) {
        let (bar_index, access_type) = self.recognise_access(base, offset, data.len());
        let mut access: Vec<AccessResolution<'a>> = Vec::new();
        access.push(AccessResolution { access_type, data: IovaAccessData::Read { data } });
        proof {
            let ghost cut = |piece: AccessView| self@.blocked.pieces(bar_index, piece);
            views(access@).lemma_flat_map_singleton(cut);
            assert(views(access@).take(0).flat_map(cut) =~= Seq::empty());
        }
        let ghost whole = access@[0];
        let res = self.filter_bar_region_access(bar_index, access);
        proof {
            assert(final(whole.data->Read_data)@ == Seq::new(
                res@.len(),
                |k: int| final(res@[0 + k].data->Read_data)@,
            ).flatten() + behind_its_span(whole@));
            assert(Seq::new(res@.len(), |k: int| final(res@[0 + k].data->Read_data)@) =~= Seq::new(
                res@.len(),
                |k: int| final(res@[k].data->Read_data)@,
            ));
        }
        res
    }

    fn parse_bar_write<'a>(&self, base: u64, offset: u64, data: &'a [u8]) -> (r: Vec<
        AccessResolution<'a>,
    >) {
        let (bar_index, access_type) = self.recognise_access(base, offset, data.len());
        let mut access: Vec<AccessResolution<'a>> = Vec::new();
        access.push(AccessResolution { access_type, data: IovaAccessData::Write { data } });
        proof {
            let ghost cut = |piece: AccessView| self@.blocked.pieces(bar_index, piece);
            views(access@).lemma_flat_map_singleton(cut);
            assert(views(access@).take(0).flat_map(cut) =~= Seq::empty());
        }
        self.filter_bar_region_access(bar_index, access)
    }

    fn on_bar_reprogrammed(&mut self, bar_idx: u8, old_gpa: u64, new_gpa: u64) {
        let ghost before = self@;
        let mut i: usize = 0;
        while i < self.bar_region_info.len()
            invariant
                before == old(self)@,
                self@ == before,
                before.valid(),
                i <= self.bar_region_info@.len(),
                i <= bar_idx,
            decreases self.bar_region_info@.len() - i,
        {
            assert(before.regions[i as int].index == i);
            if self.bar_region_info[i].index == bar_idx as u32 {
                self.bar_region_info[i].start = new_gpa;
                proof {
                    let after = before.with_bar_at(bar_idx, new_gpa);
                    assert(self@.regions =~= after.regions);
                    assert(self@.blocked == after.blocked);
                }
                return ;
            }
            i = i + 1;
        }
    }

    fn find_region(&self, addr: u64) -> (r: Option<VfioRegion>) {
        match self.region_holding(addr) {
            Some(region) => Some(region.clone()),
            None => None,
        }
    }

    fn get_region_can_passthrough(&self) -> (r: Vec<BarLocation>) {
        self.get_region_can_passthrough_internal()
    }
}

proof fn lemma_first_match_stays(regions: Seq<RegionView>, n: int, addr: int)
    requires
        0 <= n <= regions.len(),
        region_at(regions.take(n), addr) is Some,
    ensures
        region_at(regions, addr) == region_at(regions.take(n), addr),
    decreases regions.len(),
{
    if n == regions.len() {
        assert(regions.take(n) =~= regions);
    } else {
        assert(regions.drop_last().take(n) =~= regions.take(n));
        lemma_first_match_stays(regions.drop_last(), n, addr);
    }
}

proof fn lemma_first_start_stays(regions: Seq<RegionView>, n: int, base: u64)
    requires
        0 <= n <= regions.len(),
        region_from(regions.take(n), base) is Some,
    ensures
        region_from(regions, base) == region_from(regions.take(n), base),
    decreases regions.len(),
{
    if n == regions.len() {
        assert(regions.take(n) =~= regions);
    } else {
        assert(regions.drop_last().take(n) =~= regions.take(n));
        lemma_first_start_stays(regions.drop_last(), n, base);
    }
}

proof fn lemma_holder(regions: Seq<RegionView>, addr: int)
    ensures
        region_at(regions, addr) matches Some(region) ==> region.holds(addr),
    decreases regions.len(),
{
    if regions.len() > 0 {
        lemma_holder(regions.drop_last(), addr);
    }
}

proof fn lemma_within(points: Seq<u64>, i: int)
    requires
        increasing(points),
        0 <= i < points.len() - 1,
    ensures
        points.first() <= points[i] < points[i + 1] <= points.last(),
{
    if i > 0 {
        assert(points[0] < points[i]);
    }
    if i + 1 < points.len() - 1 {
        assert(points[i + 1] < points[points.len() - 1]);
    }
}

/// Whether some stretch of the BAR in `list` covers the byte at `offset`.
fn any_covers(list: &Vec<BarLocation>, bar_index: u8, offset: u64) -> (r: bool)
    ensures
        r == covered(list@, bar_index, offset as int),
{
    let mut i: usize = 0;
    while i < list.len()
        invariant
            i <= list@.len(),
            forall|j: int|
                0 <= j < i ==> !((#[trigger] list@[j]).bar_index == bar_index && list@[j].covers(
                    offset as int,
                )),
        decreases list@.len() - i,
    {
        if list[i].bar_index == bar_index && list[i].contains(offset) {
            return true;
        }
        i = i + 1;
    }
    false
}

/// Puts the edges of the stretches of `list` that meet `[start, end)` among the points.
fn add_edges(points: &mut Vec<u64>, list: &Vec<BarLocation>, bar_index: u8, start: u64, end: u64)
    requires
        increasing(old(points)@),
    ensures
        increasing(final(points)@),
        forall|x: u64| #[trigger]
            final(points)@.contains(x) <==> old(points)@.contains(x) || has_edge(
                list@,
                bar_index,
                start,
                end,
                x,
            ),
{
    let mut i: usize = 0;
    proof {
        assert forall|x: u64| !#[trigger] has_edge(list@.take(0), bar_index, start, end, x) by {}
    }
    while i < list.len()
        invariant
            i <= list@.len(),
            increasing(points@),
            forall|x: u64| #[trigger]
                points@.contains(x) <==> old(points)@.contains(x) || has_edge(
                    list@.take(i as int),
                    bar_index,
                    start,
                    end,
                    x,
                ),
        decreases list@.len() - i,
    {
        let region = list[i];
        let ghost before = points@;
        let hit: bool = region.bar_index == bar_index && start < region.end() && region.offset
            < end;
        proof {
            lemma_edges_of_one_more(list@, i as int, bar_index, start, end);
        }
        if hit {
            let low: u64 = if start < region.offset { region.offset } else { start };
            let high: u64 = if region.end() < end { region.end() } else { end };
            insert_point(points, low);
            let ghost with_low = points@;
            insert_point(points, high);
            proof {
                assert forall|x: u64| #[trigger]
                    points@.contains(x) <==> before.contains(x) || is_edge(
                    region,
                    start,
                    end,
                    x,
                ) by {
                    assert(with_low.contains(x) <==> before.contains(x) || x == low);
                }
            }
        }
        proof {
            assert forall|x: u64| #[trigger]
                points@.contains(x) <==> old(points)@.contains(x) || has_edge(
                    list@.take(i + 1),
                    bar_index,
                    start,
                    end,
                    x,
                ) by {
                assert(before.contains(x) <==> old(points)@.contains(x) || has_edge(
                    list@.take(i as int),
                    bar_index,
                    start,
                    end,
                    x,
                ));
            }
        }
        i = i + 1;
    }
    assert(list@.take(i as int) =~= list@);
}

proof fn lemma_edges_of_one_more(
    list: Seq<BarLocation>,
    i: int,
    bar_index: u8,
    start: u64,
    end: u64,
)
    requires
        0 <= i < list.len(),
    ensures
        forall|x: u64| #[trigger]
            has_edge(list.take(i + 1), bar_index, start, end, x) <==> has_edge(
                list.take(i),
                bar_index,
                start,
                end,
                x,
            ) || (list[i].bar_index == bar_index && meets(list[i], start, end) && is_edge(
                list[i],
                start,
                end,
                x,
            )),
{
    let some = list.take(i);
    let more = list.take(i + 1);
    assert forall|x: u64| #[trigger]
        has_edge(more, bar_index, start, end, x) <==> has_edge(some, bar_index, start, end, x) || (
        list[i].bar_index == bar_index && meets(list[i], start, end) && is_edge(
            list[i],
            start,
            end,
            x,
        )) by {
        if has_edge(more, bar_index, start, end, x) {
            let k = choose|k: int|
                0 <= k < more.len() && (#[trigger] more[k]).bar_index == bar_index && meets(
                    more[k],
                    start,
                    end,
                ) && is_edge(more[k], start, end, x);
            if k < i {
                assert(some[k] == more[k]);
            }
        }
        if has_edge(some, bar_index, start, end, x) {
            let k = choose|k: int|
                0 <= k < some.len() && (#[trigger] some[k]).bar_index == bar_index && meets(
                    some[k],
                    start,
                    end,
                ) && is_edge(some[k], start, end, x);
            assert(more[k] == some[k]);
        }
        assert(more[i] == list[i]);
    }
}

} // verus!

//! What a caller may rely on where mappings, devices and requests are concerned, said of the
//! arguments and results of the functions alone.

use crate::common::{DeviceRelocationError, VfioCommon};
use crate::config_space::ConfigSpace;
use crate::configuration::VfioPcieConfiguration;
use crate::dma_engine::{
    other_than, unmap_requests, unmapped_region_is_gone, unmapping_undoes_mapping, without,
    DmaEngine, DmaRequest,
};
use crate::memory_recognizer::{DeviceRegion, VfioRegion};
use crate::mmio_mgr::{
    VfioBarRegionInfo, VfioMmioBlacklistEntry, VfioMmioEngine, VfioMmioPassthroughState,
};
use crate::mmio_utils::{
    map_mmio_regions, mmio_target, plan_mmio_mapping, unmap_mmio_regions, MmapRequest, MmapTarget,
    MmioError, UserMemoryRegion,
};
use crate::msix::VfioInterruptEngine;
use crate::outside::alphanumeric;
use crate::passthrough::{
    opened, opened_in, VfioDeviceConfig, VfioDeviceManager, VfioPassthroughDevice,
    VfioPassthroughError,
};
use crate::request::{checked_id, parse_put_vfio, RequestError, StatusCode, VmmAction};
use crate::vfio_device::{VfioPciDevice, VfioPciDeviceError};
use crate::vmm_config::{VfioDevice, VfioDeviceBuilder, VfioDeviceConfigError};
use std::sync::Arc;
use vstd::prelude::*;

verus! {

/// What is to be mapped is what was asked for; it is refused only for want of a slot or of a file
/// descriptor, or if a number is too large for the host, and for the first of these reasons.
pub proof fn mapping_targets(
    slot: Option<u32>,
    fd: Option<i32>,
    offset: u64,
    len: u64,
    r: Result<MmapTarget, MmioError>,
)
    requires
        call_ensures(mmio_target, (slot, fd, offset, len), r),
    ensures
        slot is Some && fd is Some && len <= usize::MAX && offset <= i64::MAX ==> {
            r matches Ok(target) && Some(target.slot) == slot && Some(target.fd) == fd && target.len
                == len && target.offset == offset
        },
        slot is None ==> r == Err::<MmapTarget, MmioError>(MmioError::NoSlot),
        slot is Some && fd is None ==> r == Err::<MmapTarget, MmioError>(
            MmioError::NoFileDescriptor,
        ),
        slot is Some && fd is Some && len > usize::MAX ==> r == Err::<MmapTarget, MmioError>(
            MmioError::LengthTooLarge,
        ),
        slot is Some && fd is Some && len <= usize::MAX && offset > i64::MAX ==> r == Err::<
            MmapTarget,
            MmioError,
        >(MmioError::OffsetTooLarge),
{
}

/// A region is mapped exactly if bit 2 of its flags is set, readable if bit 0 is, writable if
/// bit 1 is.
pub proof fn mapping_permissions(
    target: MmapTarget,
    region_flags: u32,
    r: Result<MmapRequest, MmioError>,
)
    requires
        call_ensures(plan_mmio_mapping, (target, region_flags), r),
    ensures
        region_flags / 4 % 2 == 0 ==> r == Err::<MmapRequest, MmioError>(MmioError::NotMappable),
        region_flags / 4 % 2 == 1 ==> {
            r matches Ok(request) && request.target == target && request.read == (region_flags % 2
                == 1) && request.write == (region_flags / 2 % 2 == 1)
        },
{
    assert(region_flags & 4 == 0 <==> region_flags / 4 % 2 == 0) by (bit_vector);
    assert(region_flags & 1 == 0 <==> region_flags % 2 == 0) by (bit_vector);
    assert(region_flags & 2 == 0 <==> region_flags / 2 % 2 == 0) by (bit_vector);
}

/// The guest gets the memory where it asked for it, as long as it is mapped, from where the host
/// has it, in the slot of the mapping; to give it back is to name the slot and no memory.
pub proof fn guest_regions(
    request: MmapRequest,
    guest_base: u64,
    addr: Option<u64>,
    r: Result<UserMemoryRegion, MmioError>,
    slot: Option<u32>,
    freed: Result<UserMemoryRegion, MmioError>,
)
    requires
        call_ensures(map_mmio_regions, (request, guest_base, addr), r),
        call_ensures(unmap_mmio_regions, (slot,), freed),
    ensures
        addr is None ==> r == Err::<UserMemoryRegion, MmioError>(MmioError::MmapFailed),
        addr matches Some(host) ==> {
            r matches Ok(region) && region.slot == request.target.slot && region.flags == 0
                && region.guest_phys_addr == guest_base && region.memory_size == request.target.len
                && region.userspace_addr == host
        },
        slot is None ==> freed == Err::<UserMemoryRegion, MmioError>(MmioError::NoSlot),
        slot matches Some(slot) ==> {
            freed matches Ok(region) && region.slot == slot && region.flags == 0
                && region.guest_phys_addr == 0 && region.memory_size == 0 && region.userspace_addr
                == 0
        },
{
}

/// An error in words, and whether what was asked for was wrong in itself.
pub proof fn mapping_errors(e: &MmioError, r: &'static str, invalid: bool)
    requires
        call_ensures(MmioError::message, (e,), r),
        call_ensures(MmioError::is_invalid_input, (e,), invalid),
    ensures
        *e is NoSlot ==> r@ == "failed to get MMIO slot"@ && !invalid,
        *e is NoFileDescriptor ==> r@ == "vfio wrapper does not support as_raw_fd"@ && !invalid,
        *e is LengthTooLarge ==> r@ == "length too large"@ && invalid,
        *e is OffsetTooLarge ==> r@ == "offset too large"@ && invalid,
        *e is NotMappable ==> r@ == "region does not support mmap"@ && !invalid,
        *e is MmapFailed ==> r@ == "mmap failed"@ && !invalid,
{
}

/// A region that is not yet mapped is mapped: it is the last of the mapped regions, and every
/// container is told so, in order. One that is mapped is refused and nothing changes.
pub proof fn dma_mappings<C>(
    engine: &mut DmaEngine<C>,
    gpa: u64,
    len: u64,
    usr_addr: u64,
    r: Result<Vec<DmaRequest>, ()>,
)
    requires
        call_ensures(DmaEngine::<C>::map_guest_memory, (engine, gpa, len, usr_addr), r),
        old(engine).containers@.len() <= usize::MAX,
    ensures
        final(engine).containers@ == old(engine).containers@,
        (exists|i: int|
            0 <= i < old(engine).mapped_guest_regions@.len()
                && #[trigger] old(engine).mapped_guest_regions@[i] == (gpa, len)) ==> r is Err
            && final(engine).mapped_guest_regions@ == old(engine).mapped_guest_regions@,
        (forall|i: int|
            0 <= i < old(engine).mapped_guest_regions@.len()
                ==> #[trigger] old(engine).mapped_guest_regions@[i] != (gpa, len)) ==> {
            &&& final(engine).mapped_guest_regions@ == old(engine).mapped_guest_regions@.push(
                (gpa, len),
            )
            &&& r matches Ok(requests) && requests@.len() == old(engine).containers@.len()
                && forall|i: int|
                0 <= i < requests@.len() ==> {
                    (#[trigger] requests@[i]) matches DmaRequest::DmaMap {
                        container,
                        iova,
                        size,
                        user_addr,
                    } && container == i && iova == gpa && size == len && user_addr == usr_addr
                }
        },
{
    let before = old(engine).mapped_guest_regions@;
    if exists|i: int| 0 <= i < before.len() && #[trigger] before[i] == (gpa, len) {
        assert(before.contains((gpa, len)));
    }
}

/// A region that is unmapped is no longer mapped, every other stays, and every container is told
/// so, in order.
pub proof fn dma_unmappings<C>(
    engine: &mut DmaEngine<C>,
    gpa: u64,
    len: u64,
    usr_addr: u64,
    r: Result<Vec<DmaRequest>, ()>,
    other: (u64, u64),
)
    requires
        call_ensures(DmaEngine::<C>::unmap_guest_memory, (engine, gpa, len, usr_addr), r),
        old(engine).containers@.len() <= usize::MAX,
    ensures
        final(engine).containers@ == old(engine).containers@,
        final(engine).mapped_guest_regions@.contains(other)
            <==> old(engine).mapped_guest_regions@.contains(other) && other != (gpa, len),
        r matches Ok(requests) && requests@.len() == old(engine).containers@.len() && forall|i: int|
            0 <= i < requests@.len() ==> {
                (#[trigger] requests@[i]) matches DmaRequest::DmaUnmap { container, iova, size }
                    && container == i && iova == gpa && size == len
            },
{
    unmapped_region_is_gone(old(engine).mapped_guest_regions@, (gpa, len), other);
}

/// To map a region and then to unmap it, or to take the mapping back because a container has
/// refused it, leaves the mapped regions as they were. Exactly the containers before the one that
/// refused are told to unmap.
pub proof fn dma_mappings_are_undone<C>(
    engine: &mut DmaEngine<C>,
    then: &mut DmaEngine<C>,
    instead: &mut DmaEngine<C>,
    gpa: u64,
    len: u64,
    usr_addr: u64,
    mapped: Result<Vec<DmaRequest>, ()>,
    unmapped: Result<Vec<DmaRequest>, ()>,
    failed: usize,
    undone: Vec<DmaRequest>,
)
    requires
        call_ensures(DmaEngine::<C>::map_guest_memory, (engine, gpa, len, usr_addr), mapped),
        mapped is Ok,
        call_ensures(DmaEngine::<C>::unmap_guest_memory, (then, gpa, len, usr_addr), unmapped),
        *old(then) == *final(engine),
        call_ensures(DmaEngine::<C>::undo_map, (instead, gpa, len, failed), undone),
        *old(instead) == *final(engine),
        failed <= old(engine).containers@.len(),
    ensures
        final(then).mapped_guest_regions@ == old(engine).mapped_guest_regions@,
        final(instead).mapped_guest_regions@ == old(engine).mapped_guest_regions@,
        final(instead).containers@ == old(engine).containers@,
        undone@.len() == failed,
        forall|i: int|
            0 <= i < failed ==> {
                (#[trigger] undone@[i]) matches DmaRequest::DmaUnmap { container, iova, size }
                    && container == i && iova == gpa && size == len
            },
{
    unmapping_undoes_mapping(old(engine).mapped_guest_regions@, (gpa, len));
}

/// When everything is unmapped no region is left, and every container is told about every region,
/// region by region in the order in which they were mapped. `i` numbers a region, `c` a container.
pub proof fn dma_unmapping_of_all<C>(
    engine: &mut DmaEngine<C>,
    r: Result<Vec<DmaRequest>, ()>,
    i: int,
    c: int,
)
    requires
        call_ensures(DmaEngine::<C>::unmap_all, (engine,), r),
        old(engine).containers@.len() <= usize::MAX,
    ensures
        final(engine).containers@ == old(engine).containers@,
        final(engine).mapped_guest_regions@.len() == 0,
        ({
            let regions = old(engine).mapped_guest_regions@;
            let n = old(engine).containers@.len();
            &&& r is Ok
            &&& r->Ok_0@.len() == regions.len() * n
            &&& 0 <= i < regions.len() && 0 <= c < n ==> {
                &&& 0 <= i * n + c < r->Ok_0@.len()
                &&& r->Ok_0@[i * n + c] == (DmaRequest::DmaUnmap {
                    container: c as usize,
                    iova: regions[i].0,
                    size: regions[i].1,
                })
            }
        }),
{
    let regions = old(engine).mapped_guest_regions@;
    let n = old(engine).containers@.len();
    lemma_unmap_all(n, regions, regions.len() as int, i, c);
    assert(regions.take(regions.len() as int) =~= regions);
}

proof fn lemma_unmap_all(n: nat, regions: Seq<(u64, u64)>, m: int, i: int, c: int)
    requires
        0 <= m <= regions.len(),
    ensures
        ({
            let all = regions.take(m).flat_map(|region: (u64, u64)| unmap_requests(n, region));
            &&& all.len() == m * n
            &&& 0 <= i < m && 0 <= c < n ==> {
                &&& 0 <= i * n + c < all.len()
                &&& all[i * n + c] == (DmaRequest::DmaUnmap {
                    container: c as usize,
                    iova: regions[i].0,
                    size: regions[i].1,
                })
            }
        }),
    decreases m,
{
    let each = |region: (u64, u64)| unmap_requests(n, region);
    if m == 0 {
        assert(regions.take(0).flat_map(each) =~= Seq::empty());
        assert(0 * n == 0) by (nonlinear_arith);
    } else {
        lemma_unmap_all(n, regions, m - 1, i, c);
        regions.lemma_flat_map_take_append(each, m - 1);
        assert(m * n == (m - 1) * n + n) by (nonlinear_arith);
        assert(0 <= (m - 1) * n) by (nonlinear_arith)
            requires
                m >= 1,
        ;
        if 0 <= i < m - 1 && 0 <= c < n {
            assert(i * n + c < (m - 1) * n) by (nonlinear_arith)
                requires
                    i < m - 1,
                    0 <= c < n,
            ;
            assert(0 <= i * n) by (nonlinear_arith)
                requires
                    0 <= i,
            ;
        }
    }
}

/// A new engine has nothing, and a container that is registered is the last of the containers.
pub proof fn dma_containers<C>(fresh: DmaEngine<C>, engine: &mut DmaEngine<C>, container: C)
    requires
        call_ensures(DmaEngine::<C>::new, (), fresh),
        call_ensures(DmaEngine::<C>::register_container, (engine, container), ()),
    ensures
        fresh.containers@.len() == 0,
        fresh.mapped_guest_regions@.len() == 0,
        final(engine).containers@.len() == old(engine).containers@.len() + 1,
        final(engine).containers@.last() == container,
        final(engine).containers@.drop_last() == old(engine).containers@,
        final(engine).mapped_guest_regions@ == old(engine).mapped_guest_regions@,
{
    assert(final(engine).containers@.drop_last() =~= old(engine).containers@);
}

/// Of the stretches that must not be mapped exactly that of the named BAR changes.
pub proof fn blacklists(
    engine: &mut VfioMmioEngine,
    bar_region_id: usize,
    offset: u64,
    len: u64,
)
    requires
        call_ensures(VfioMmioEngine::set_blacklist, (engine, bar_region_id, offset, len), ()),
        old(engine).blacklist().len() == 6,
    ensures
        final(engine).passthrough_status() == old(engine).passthrough_status(),
        final(engine).blacklist().len() == 6,
        bar_region_id < 6 ==> {
            final(engine).blacklist()[bar_region_id as int] matches Some(entry)
                && entry.bar_region_id == bar_region_id && entry.offset == offset && entry.len
                == len
        },
        forall|i: int|
            0 <= i < 6 && i != bar_region_id ==> #[trigger] final(engine).blacklist()[i]
                == old(engine).blacklist()[i],
{
}

/// An identifier is taken exactly if it is not empty and each of its characters is a hyphen or
/// alphanumeric.
pub proof fn identifiers<E>(id: &str, r: Result<&str, RequestError<E>>)
    requires
        call_ensures(checked_id::<E>, (id,), r),
    ensures
        id@.len() == 0 ==> r is Err && r->Err_0 is EmptyID,
        id@.len() > 0 && (forall|i: int|
            0 <= i < id@.len() ==> (#[trigger] id@[i] == '-' || alphanumeric(id@[i]))) ==> r
            == Ok::<&str, RequestError<E>>(id),
        (exists|i: int|
            0 <= i < id@.len() && #[trigger] id@[i] != '-' && !alphanumeric(id@[i]))
            ==> r is Err && r->Err_0 is InvalidID,
{
    if exists|i: int| 0 <= i < id@.len() && #[trigger] id@[i] != '-' && !alphanumeric(id@[i]) {
        let i = choose|i: int|
            0 <= i < id@.len() && #[trigger] id@[i] != '-' && !alphanumeric(id@[i]);
        assert(!crate::request::only_id_chars(id@));
    }
}

/// A request is taken exactly if its path names an allowed identifier, its body is a
/// configuration, and both name the same device; the configuration is handed on as it is. Else it
/// is refused, for the first of these reasons.
pub proof fn requests<E>(
    body: Result<crate::vmm_config::VfioDeviceConfig, E>,
    id_from_path: Option<&str>,
    checked: Result<&str, RequestError<E>>,
    r: Result<VmmAction, RequestError<E>>,
)
    requires
        call_ensures(parse_put_vfio::<E>, (body, id_from_path), r),
        id_from_path matches Some(id) ==> call_ensures(checked_id::<E>, (id,), checked),
    ensures
        id_from_path is None ==> r is Err && r->Err_0 is EmptyID,
        id_from_path is Some && checked is Err && checked->Err_0 is EmptyID ==> r is Err
            && r->Err_0 is EmptyID,
        id_from_path is Some && checked is Err && checked->Err_0 is InvalidID ==> r is Err
            && r->Err_0 is InvalidID,
        id_from_path is Some && checked is Ok && body is Err ==> r == Err::<
            VmmAction,
            RequestError<E>,
        >(RequestError::SerdeJson(body->Err_0)),
        id_from_path is Some && checked is Ok && body is Ok && body->Ok_0.id@
            == id_from_path->Some_0@ ==> r == Ok::<VmmAction, RequestError<E>>(
            VmmAction::InsertVfioDevice(body->Ok_0),
        ),
        id_from_path is Some && checked is Ok && body is Ok && body->Ok_0.id@
            != id_from_path->Some_0@ ==> {
            r matches Err(RequestError::Generic(status, text)) && status == StatusCode::BadRequest
                && text@ == "The id from the path does not match the id from the body!"@
        },
{
}

/// A device is made only for an identifier that is not empty and that no device has. It is then
/// the last of the devices, with the configuration it was made from. In every other case the
/// devices stay as they were.
pub proof fn built_devices<
    D,
    E,
    F: FnOnce(&crate::vmm_config::VfioDeviceConfig) -> Result<D, E>,
>(
    builder: &mut VfioDeviceBuilder<D>,
    config: crate::vmm_config::VfioDeviceConfig,
    create: F,
    r: Result<(), VfioDeviceConfigError<E>>,
)
    requires
        call_ensures(VfioDeviceBuilder::<D>::build::<E, F>, (builder, config, create), r),
    ensures
        ({
            let before = old(builder).devices@;
            let after = final(builder).devices@;
            let taken = exists|i: int|
                0 <= i < before.len() && (#[trigger] before[i]).config.id@ == config.id@;
            &&& r is Err ==> after == before
            &&& config.id@.len() == 0 ==> r == Err::<(), VfioDeviceConfigError<E>>(
                VfioDeviceConfigError::EmptyId,
            )
            &&& config.id@.len() > 0 && taken ==> r == Err::<(), VfioDeviceConfigError<E>>(
                VfioDeviceConfigError::DeviceAlreadyExists(config.id),
            )
            &&& config.id@.len() > 0 && !taken && r is Err ==> {
                r matches Err(VfioDeviceConfigError::CreateDevice(id, e)) && id == config.id
                    && call_ensures(create, (&config,), Err::<D, E>(e))
            }
            &&& r is Ok ==> {
                &&& config.id@.len() > 0
                &&& !taken
                &&& after.len() == before.len() + 1
                &&& after.drop_last() == before
                &&& after.last().config == config
                &&& call_ensures(create, (&config,), Ok::<D, E>(after.last().handle))
            }
        }),
{
    let before = old(builder).devices@;
    let after = final(builder).devices@;
    if r is Ok {
        assert(after.drop_last() =~= before);
    }
}

/// A device that is added is the last of the devices; the configurations are those of the devices,
/// in order.
pub proof fn added_devices<D>(
    builder: &mut VfioDeviceBuilder<D>,
    device: Arc<VfioDevice<D>>,
    same: &VfioDeviceBuilder<D>,
    configs: Vec<crate::vmm_config::VfioDeviceConfig>,
)
    requires
        call_ensures(VfioDeviceBuilder::<D>::add_device, (builder, device), ()),
        *same == *final(builder),
        call_ensures(VfioDeviceBuilder::<D>::configs, (same,), configs),
    ensures
        final(builder).devices@.len() == old(builder).devices@.len() + 1,
        final(builder).devices@.last() == device,
        final(builder).devices@.drop_last() == old(builder).devices@,
        configs@.len() == final(builder).devices@.len(),
        forall|i: int|
            0 <= i < configs@.len() ==> #[trigger] configs@[i] == final(builder).devices@[i].config,
{
    assert(final(builder).devices@.drop_last() =~= old(builder).devices@);
}

/// Guest memory is mapped and unmapped in the container of the device; a failure is reported as
/// one of that kind, with the reason.
pub proof fn guest_memory<D, C, E, F: FnOnce(&C) -> Result<(), E>>(
    device: &VfioPassthroughDevice<D, C>,
    f: F,
    mapped: Result<(), VfioPassthroughError<E>>,
    unmapped: Result<(), VfioPassthroughError<E>>,
)
    requires
        call_ensures(VfioPassthroughDevice::<D, C>::map_guest_memory::<E, F>, (device, f), mapped),
        call_ensures(
            VfioPassthroughDevice::<D, C>::unmap_guest_memory::<E, F>,
            (device, f),
            unmapped,
        ),
    ensures
        mapped is Ok ==> exists|done: Result<(), E>| #[trigger]
            call_ensures(f, (&device.container,), done) && done is Ok,
        mapped is Err ==> mapped->Err_0 is MapGuestMemory && call_ensures(
            f,
            (&device.container,),
            Err::<(), E>(mapped->Err_0->MapGuestMemory_0),
        ),
        unmapped is Ok ==> exists|done: Result<(), E>| #[trigger]
            call_ensures(f, (&device.container,), done) && done is Ok,
        unmapped is Err ==> unmapped->Err_0 is UnmapGuestMemory && call_ensures(
            f,
            (&device.container,),
            Err::<(), E>(unmapped->Err_0->UnmapGuestMemory_0),
        ),
{
}

/// An attached device is the last of the devices, and there is one more of them.
pub proof fn attached_devices<D>(
    manager: &mut VfioDeviceManager<D>,
    device: D,
    r: Arc<D>,
    same: &VfioDeviceManager<D>,
    before: &VfioDeviceManager<D>,
    count: usize,
    count_before: usize,
)
    requires
        call_ensures(VfioDeviceManager::<D>::attach, (manager, device), r),
        *before == *old(manager),
        *same == *final(manager),
        call_ensures(VfioDeviceManager::<D>::count, (before,), count_before),
        call_ensures(VfioDeviceManager::<D>::count, (same,), count),
    ensures
        *r == device,
        final(manager).devices@.last() == r,
        final(manager).devices@.drop_last() == old(manager).devices@,
        count == count_before + 1,
{
    assert(final(manager).devices@.drop_last() =~= old(manager).devices@);
}

/// A device that cannot be made is reported in words that name it.
pub proof fn device_errors<E>(e: &VfioDeviceConfigError<E>, r: String)
    requires
        call_ensures(VfioDeviceConfigError::<E>::message, (e,), r),
    ensures
        match *e {
            VfioDeviceConfigError::EmptyId => r@ == "VFIO device ID must not be empty"@,
            VfioDeviceConfigError::DeviceAlreadyExists(id) => r@ == "A VFIO device with id '"@ + id@
                + "' already exists"@,
            VfioDeviceConfigError::CreateDevice(id, _) => r@ == "Failed to create VFIO device '"@
                + id@ + "': "@,
        },
{
}

/// What failed when a device was opened or its memory mapped, in words.
pub proof fn passthrough_errors<E>(e: &VfioPassthroughError<E>, r: &'static str)
    requires
        call_ensures(VfioPassthroughError::<E>::message, (e,), r),
    ensures
        *e is CreateContainer ==> r@ == "Failed to create VFIO container: "@,
        *e is OpenDevice ==> r@ == "Failed to open VFIO device: "@,
        *e is MapGuestMemory ==> r@ == "Failed to map guest memory into IOMMU: "@,
        *e is UnmapGuestMemory ==> r@ == "Failed to unmap guest memory from IOMMU: "@,
{
}

/// What failed when a device was put on the bus, in words.
pub proof fn bus_errors<I>(e: &VfioPciDeviceError<I>, r: &'static str)
    requires
        call_ensures(VfioPciDeviceError::<I>::message, (e,), r),
    ensures
        *e is CreateVfioPciDevice ==> r@ == "Failed creating VfioPciDevice: "@,
        *e is Msi ==> r@ == "Error creating MSI configuration: "@,
{
}

/// A device on the bus is named by its place, and is made from what the device reports, with
/// subclass 0xff and its place as its number.
pub proof fn bus_devices(
    pci_device_bdf: u32,
    bdf_text: &str,
    reported: Vec<DeviceRegion>,
    config: &ConfigSpace,
    r: VfioPciDevice,
)
    requires
        call_ensures(VfioPciDevice::new, (pci_device_bdf, bdf_text, reported, config), r),
    ensures
        r.id() == "vfio-pci-"@ + bdf_text@,
        r.bdf() == pci_device_bdf,
        r.valid(),
        call_ensures(VfioCommon::new, (pci_device_bdf, 0xffu8, reported, config), r.common()),
{
}

/// The registers that are emulated begin as 0, with the sizes of the BARs as they were given.
pub proof fn fresh_registers(sizes: [u32; 6], r: VfioPcieConfiguration)
    requires
        call_ensures(VfioPcieConfiguration::new, (sizes,), r),
    ensures
        r.registers().len() == 1024,
        forall|i: int| 0 <= i < 1024 ==> #[trigger] r.registers()[i] == 0,
        r.writable_bits().len() == 1024,
        forall|i: int| 0 <= i < 1024 ==> #[trigger] r.writable_bits()[i] == 0,
        r.bar_region_size() == sizes@,
{
}

/// The registers that are emulated read as 0, whatever was written.
pub proof fn emulated_registers(
    configuration: &mut VfioPcieConfiguration,
    reg_idx: usize,
    offset: u64,
    data: &[u8],
    then: &mut VfioPcieConfiguration,
    other_reg_idx: usize,
    r: u32,
)
    requires
        call_ensures(
            VfioPcieConfiguration::write_config_register,
            (configuration, reg_idx, offset, data),
            (),
        ),
        call_ensures(VfioPcieConfiguration::read_config_register, (then, other_reg_idx), r),
    ensures
        *final(configuration) == *old(configuration),
        *final(then) == *old(then),
        r == 0,
{
}

/// A device is opened by making a container first and opening the path in it; what fails first is
/// reported, with the reason.
pub proof fn opened_devices<
    D,
    C,
    E,
    M: FnOnce() -> Result<C, E>,
    O: FnOnce(&str, &C) -> Result<D, E>,
>(
    config: &VfioDeviceConfig,
    create_container: M,
    open_device: O,
    r: Result<VfioPassthroughDevice<D, C>, VfioPassthroughError<E>>,
) -> (container: C)
    requires
        call_ensures(
            VfioPassthroughDevice::<D, C>::new::<E, M, O>,
            (config, create_container, open_device),
            r,
        ),
    ensures
        r matches Ok(opened) ==> {
            &&& opened.sysfs_path@ == config.host_dev_path@
            &&& call_ensures(create_container, (), Ok::<C, E>(opened.container))
            &&& exists|path: &str| #[trigger]
                call_ensures(open_device, (path, &opened.container), Ok::<D, E>(opened.device))
                    && path@ == config.host_dev_path@
        },
        r is Err && r->Err_0 is CreateContainer ==> call_ensures(
            create_container,
            (),
            Err::<C, E>(r->Err_0->CreateContainer_0),
        ),
        r is Err && r->Err_0 is OpenDevice ==> call_ensures(
            create_container,
            (),
            Ok::<C, E>(container),
        ),
        r is Err && r->Err_0 is OpenDevice ==> exists|path: &str| #[trigger]
            call_ensures(
                open_device,
                (path, &container),
                Err::<D, E>(r->Err_0->OpenDevice_0),
            ) && path@ == config.host_dev_path@,
        r is Err ==> r->Err_0 is CreateContainer || r->Err_0 is OpenDevice,
{
    lemma_opened(config.host_dev_path@, create_container, open_device, r)
}

/// A device is opened by its path as it is by a configuration that names the path.
pub proof fn devices_opened_by_path<
    D,
    C,
    E,
    M: FnOnce() -> Result<C, E>,
    O: FnOnce(&str, &C) -> Result<D, E>,
>(
    sysfs_path: &str,
    create_container: M,
    open_device: O,
    r: Result<VfioPassthroughDevice<D, C>, VfioPassthroughError<E>>,
) -> (container: C)
    requires
        call_ensures(
            VfioPassthroughDevice::<D, C>::from_path::<E, M, O>,
            (sysfs_path, create_container, open_device),
            r,
        ),
    ensures
        r matches Ok(opened) ==> {
            &&& opened.sysfs_path@ == sysfs_path@
            &&& call_ensures(create_container, (), Ok::<C, E>(opened.container))
            &&& exists|path: &str| #[trigger]
                call_ensures(open_device, (path, &opened.container), Ok::<D, E>(opened.device))
                    && path@ == sysfs_path@
        },
        r is Err && r->Err_0 is CreateContainer ==> call_ensures(
            create_container,
            (),
            Err::<C, E>(r->Err_0->CreateContainer_0),
        ),
        r is Err && r->Err_0 is OpenDevice ==> call_ensures(
            create_container,
            (),
            Ok::<C, E>(container),
        ),
        r is Err && r->Err_0 is OpenDevice ==> exists|path: &str| #[trigger]
            call_ensures(
                open_device,
                (path, &container),
                Err::<D, E>(r->Err_0->OpenDevice_0),
            ) && path@ == sysfs_path@,
        r is Err ==> r->Err_0 is CreateContainer || r->Err_0 is OpenDevice,
{
    lemma_opened(sysfs_path@, create_container, open_device, r)
}

proof fn lemma_opened<
    D,
    C,
    E,
    M: FnOnce() -> Result<C, E>,
    O: FnOnce(&str, &C) -> Result<D, E>,
>(
    path: Seq<char>,
    create_container: M,
    open_device: O,
    r: Result<VfioPassthroughDevice<D, C>, VfioPassthroughError<E>>,
) -> (container: C)
    requires
        opened(path, create_container, open_device, r),
    ensures
        r matches Ok(opened) ==> {
            &&& opened.sysfs_path@ == path
            &&& call_ensures(create_container, (), Ok::<C, E>(opened.container))
            &&& exists|p: &str| #[trigger]
                call_ensures(open_device, (p, &opened.container), Ok::<D, E>(opened.device)) && p@
                    == path
        },
        r is Err && r->Err_0 is CreateContainer ==> call_ensures(
            create_container,
            (),
            Err::<C, E>(r->Err_0->CreateContainer_0),
        ),
        r is Err && r->Err_0 is OpenDevice ==> call_ensures(
            create_container,
            (),
            Ok::<C, E>(container),
        ),
        r is Err && r->Err_0 is OpenDevice ==> exists|p: &str| #[trigger]
            call_ensures(open_device, (p, &container), Err::<D, E>(r->Err_0->OpenDevice_0)) && p@
                == path,
        r is Err ==> r->Err_0 is CreateContainer || r->Err_0 is OpenDevice,
{
    let made = choose|made: Result<C, E>| #[trigger]
        call_ensures(create_container, (), made) && match made {
            Err(e) => r == Err::<VfioPassthroughDevice<D, C>, VfioPassthroughError<E>>(
                VfioPassthroughError::CreateContainer(e),
            ),
            Ok(container) => opened_in(path, container, open_device, r),
        };
    let container = made->Ok_0;
    if made is Ok {
        assert(opened_in(path, container, open_device, r));
        assert(made == Ok::<C, E>(container));
        let (sysfs_path, got) = choose|sysfs_path: &str, got: Result<D, E>| #[trigger]
            call_ensures(open_device, (sysfs_path, &container), got) && sysfs_path@ == path
                && match got {
                Err(e) => r == Err::<VfioPassthroughDevice<D, C>, VfioPassthroughError<E>>(
                    VfioPassthroughError::OpenDevice(e),
                ),
                Ok(device) => r matches Ok(opened) && opened.sysfs_path@ == path && opened.device
                    == device && opened.container == container,
            };
        assert(call_ensures(open_device, (sysfs_path, &container), got));
        if got is Err {
            assert(got->Err_0 == r->Err_0->OpenDevice_0);
            assert(call_ensures(
                open_device,
                (sysfs_path, &container),
                Err::<D, E>(r->Err_0->OpenDevice_0),
            ));
        } else {
            assert(got == Ok::<D, E>(got->Ok_0));
        }
    }
    container
}

/// A device that is opened is at the path it was opened at.
pub proof fn paths_of_devices<D, C>(device: &VfioPassthroughDevice<D, C>, r: &str)
    requires
        call_ensures(VfioPassthroughDevice::<D, C>::sysfs_path, (device,), r),
    ensures
        r@ == device.sysfs_path@,
{
}

/// Unmapping takes a region out of the mapped regions and leaves the others in their order; a
/// region that is not mapped is passed over. `before` and `behind` are the regions before and
/// behind the one that is unmapped.
pub proof fn unmapping_keeps_the_order<C>(
    engine: &mut DmaEngine<C>,
    gpa: u64,
    len: u64,
    usr_addr: u64,
    r: Result<Vec<DmaRequest>, ()>,
    before: Seq<(u64, u64)>,
    behind: Seq<(u64, u64)>,
)
    requires
        call_ensures(DmaEngine::<C>::unmap_guest_memory, (engine, gpa, len, usr_addr), r),
        !before.contains((gpa, len)),
        !behind.contains((gpa, len)),
    ensures
        old(engine).mapped_guest_regions@ == before + behind
            ==> final(engine).mapped_guest_regions@ == before + behind,
        old(engine).mapped_guest_regions@ == before.push((gpa, len)) + behind
            ==> final(engine).mapped_guest_regions@ == before + behind,
{
    let gone = (gpa, len);
    lemma_without(before, behind, gone);
}

proof fn lemma_without(before: Seq<(u64, u64)>, behind: Seq<(u64, u64)>, gone: (u64, u64))
    requires
        !before.contains(gone),
        !behind.contains(gone),
    ensures
        without(before + behind, gone) == before + behind,
        without(before.push(gone) + behind, gone) == before + behind,
    decreases behind.len(),
{
    let kept = other_than(gone);
    if behind.len() == 0 {
        assert(before + behind =~= before);
        assert(before.push(gone) + behind =~= before.push(gone));
        unmapping_undoes_mapping(before, gone);
        before.lemma_filter_push(gone, kept);
    } else {
        let init = behind.drop_last();
        let last = behind.last();
        assert(!init.contains(gone)) by {
            if init.contains(gone) {
                let i = choose|i: int| 0 <= i < init.len() && init[i] == gone;
                assert(behind[i] == gone);
            }
        }
        lemma_without(before, init, gone);
        lemma_without_but_last(before, init, last, gone);
        lemma_without_but_last(before.push(gone), init, last, gone);
        assert(last != gone) by {
            assert(behind[behind.len() - 1] == last);
        }
        assert(behind =~= init.push(last));
        assert((before + init).push(last) =~= before + behind);
    }
}

proof fn lemma_without_but_last(
    before: Seq<(u64, u64)>,
    init: Seq<(u64, u64)>,
    last: (u64, u64),
    gone: (u64, u64),
)
    ensures
        last != gone ==> without(before + init.push(last), gone) == without(
            before + init,
            gone,
        ).push(last),
{
    assert(before + init.push(last) =~= (before + init).push(last));
    (before + init).lemma_filter_push(last, other_than(gone));
}

/// What is made anew is empty: no devices, no addresses, no sizes, nothing mapped or forbidden.
pub proof fn fresh_values<D>(
    builder: VfioDeviceBuilder<D>,
    default_builder: VfioDeviceBuilder<D>,
    manager: VfioDeviceManager<D>,
    default_manager: VfioDeviceManager<D>,
    config: crate::vmm_config::VfioDeviceConfig,
    bar: VfioBarRegionInfo,
    entry: VfioMmioBlacklistEntry,
    state: VfioMmioPassthroughState,
    engine: VfioMmioEngine,
)
    requires
        call_ensures(VfioDeviceBuilder::<D>::new, (), builder),
        call_ensures(<VfioDeviceBuilder<D> as Default>::default, (), default_builder),
        call_ensures(VfioDeviceManager::<D>::new, (), manager),
        call_ensures(<VfioDeviceManager<D> as Default>::default, (), default_manager),
        call_ensures(<crate::vmm_config::VfioDeviceConfig as Default>::default, (), config),
        call_ensures(<VfioBarRegionInfo as Default>::default, (), bar),
        call_ensures(<VfioMmioBlacklistEntry as Default>::default, (), entry),
        call_ensures(<VfioMmioPassthroughState as Default>::default, (), state),
        call_ensures(VfioMmioEngine::new, (), engine),
    ensures
        builder.devices@.len() == 0,
        default_builder.devices@.len() == 0,
        manager.devices@.len() == 0,
        default_manager.devices@.len() == 0,
        config.id@.len() == 0 && config.host_pci_bdf@.len() == 0,
        config.iommu_group == 0 && !config.no_iommu,
        bar.addr == 0 && bar.size == 0 && !bar.used,
        entry.bar_region_id == 0 && entry.offset == 0 && entry.len == 0,
        state.gpa == 0 && state.len == 0 && state.bar_region_id == 0 && state.bar_offset == 0,
        engine.blacklist().len() == 6 && engine.passthrough_status().len() == 6,
        forall|i: int|
            0 <= i < 6 ==> (#[trigger] engine.blacklist()[i]) is None,
        forall|i: int|
            0 <= i < 6 ==> (#[trigger] engine.passthrough_status()[i]) is None,
{
}

/// A copy of a configuration names the same device of the host under the same identifier; a copy
/// of a BAR is the same BAR.
pub proof fn copies(
    config: &crate::vmm_config::VfioDeviceConfig,
    copy: crate::vmm_config::VfioDeviceConfig,
    region: &VfioRegion,
    region_copy: VfioRegion,
)
    requires
        call_ensures(<crate::vmm_config::VfioDeviceConfig as Clone>::clone, (config,), copy),
        call_ensures(<VfioRegion as Clone>::clone, (region,), region_copy),
    ensures
        copy.id@ == config.id@,
        copy.iommu_group == config.iommu_group,
        copy.host_pci_bdf@ == config.host_pci_bdf@,
        copy.no_iommu == config.no_iommu,
        region_copy.index == region.index,
        region_copy.start == region.start,
        region_copy.flags == region.flags,
        region_copy.size == region.size,
        region_copy.offset == region.offset,
        region_copy.caps@ == region.caps@,
{
    assert(region_copy@.index == region@.index && region_copy@.caps == region@.caps);
}

/// The engine of the interrupts keeps the number of its device, whatever is written, and a read
/// leaves the buffer as it is.
pub proof fn interrupts(
    id: u32,
    fresh: VfioInterruptEngine,
    engine: &VfioInterruptEngine,
    table_written: &mut VfioInterruptEngine,
    pba_written: &mut VfioInterruptEngine,
    control_written: &mut VfioInterruptEngine,
    index: u16,
    offset: u64,
    data: &[u8],
    reg: u16,
    table_buffer: &mut [u8],
    pba_buffer: &mut [u8],
)
    requires
        call_ensures(VfioInterruptEngine::new, (id,), fresh),
        call_ensures(
            VfioInterruptEngine::write_table,
            (table_written, index, offset, data),
            (),
        ),
        call_ensures(VfioInterruptEngine::write_pba, (pba_written, offset, data), ()),
        call_ensures(VfioInterruptEngine::set_msg_ctl, (control_written, reg), ()),
        call_ensures(VfioInterruptEngine::read_table, (engine, index, offset, table_buffer), ()),
        call_ensures(VfioInterruptEngine::read_pba, (engine, offset, pba_buffer), ()),
    ensures
        fresh.id == id,
        final(table_written).id == old(table_written).id,
        final(pba_written).id == old(pba_written).id,
        final(control_written).id == old(control_written).id,
        final(table_buffer)@ == old(table_buffer)@,
        final(pba_buffer)@ == old(pba_buffer)@,
{
}

/// The BARs are neither mapped nor moved yet: whatever is asked succeeds and changes nothing, a
/// read leaves the buffer as it is, and a write has nothing to wait for.
pub proof fn bars_are_not_mapped_yet<E>(
    mapped: &mut VfioMmioEngine,
    info: &[VfioBarRegionInfo; 6],
    of_map: Result<(), E>,
    moved: &mut VfioMmioEngine,
    of_move: Result<(), DeviceRelocationError>,
    allocated: &mut VfioMmioEngine,
    of_allocation: Result<(), E>,
    freed: &mut VfioMmioEngine,
    of_free: Result<(), E>,
    engine: &VfioMmioEngine,
    base: u64,
    offset: u64,
    len: u64,
    buffer: &mut [u8],
    data: &[u8],
    of_write: Option<()>,
)
    requires
        call_ensures(VfioMmioEngine::map_mmio_region::<E>, (mapped, info), of_map),
        call_ensures(VfioMmioEngine::move_bar, (moved, base, offset, len, offset), of_move),
        call_ensures(
            VfioMmioEngine::allocate_bars::<E>,
            (allocated, base, len, offset),
            of_allocation,
        ),
        call_ensures(VfioMmioEngine::free_bars::<E>, (freed, base, len), of_free),
        call_ensures(VfioMmioEngine::read_bar, (engine, base, offset, buffer), ()),
        call_ensures(VfioMmioEngine::write_bar, (engine, base, offset, data), of_write),
    ensures
        of_map is Ok && *final(mapped) == *old(mapped),
        of_move is Ok && *final(moved) == *old(moved),
        of_allocation is Ok && *final(allocated) == *old(allocated),
        of_free is Ok && *final(freed) == *old(freed),
        final(buffer)@ == old(buffer)@,
        of_write is None,
{
}

} // verus!

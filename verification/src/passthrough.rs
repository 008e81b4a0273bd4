//! Devices that are handed to the guest as a whole, and the list of those attached.

use std::sync::Arc;
use vstd::prelude::*;

verus! {

/// Which device of the host to pass through.
#[derive(Debug, PartialEq, Eq)]
pub struct VfioDeviceConfig {
    /// Path of the device in sysfs, such as `/sys/bus/pci/devices/0000:00:01.0`.
    pub host_dev_path: String,
}

/// What failed; `E` says why.
#[derive(Debug)]
pub enum VfioPassthroughError<E> {
    /// The container could not be made.
    CreateContainer(E),
    /// The device could not be opened.
    OpenDevice(E),
    /// The guest memory could not be mapped.
    MapGuestMemory(E),
    /// The guest memory could not be unmapped.
    UnmapGuestMemory(E),
}

impl<E> VfioPassthroughError<E> {
    /// The error in words, but for the reason.
    pub open spec fn text(self) -> Seq<char> {
        match self {
            VfioPassthroughError::CreateContainer(_) => "Failed to create VFIO container: "@,
            VfioPassthroughError::OpenDevice(_) => "Failed to open VFIO device: "@,
            VfioPassthroughError::MapGuestMemory(_) => "Failed to map guest memory into IOMMU: "@,
            VfioPassthroughError::UnmapGuestMemory(_) =>
                "Failed to unmap guest memory from IOMMU: "@,
        }
    }

    /// Puts the error in words; the reason is to be appended.
    pub fn message(&self) -> (r: &'static str)
        ensures
            r@ == self.text(),
    {
        match self {
            VfioPassthroughError::CreateContainer(_) => "Failed to create VFIO container: ",
            VfioPassthroughError::OpenDevice(_) => "Failed to open VFIO device: ",
            VfioPassthroughError::MapGuestMemory(_) => "Failed to map guest memory into IOMMU: ",
            VfioPassthroughError::UnmapGuestMemory(_) =>
                "Failed to unmap guest memory from IOMMU: ",
        }
    }
}

/// A passed-through device `D` with the container `C` that holds its IOMMU group.
#[derive(Debug)]
pub struct VfioPassthroughDevice<D, C> {
    /// Path of the device in sysfs.
    pub sysfs_path: String,
    /// The device.
    pub device: D,
    /// The container.
    pub container: C,
}

/// Whether a device at `path` may have been opened so in the container, or the attempt may have
/// failed so.
pub open spec fn opened_in<D, C, E, O>(
    path: Seq<char>,
    container: C,
    open_device: O,
    r: Result<VfioPassthroughDevice<D, C>, VfioPassthroughError<E>>,
) -> bool where O: FnOnce(&str, &C) -> Result<D, E> {
    exists|sysfs_path: &str, got: Result<D, E>| #[trigger]
        call_ensures(open_device, (sysfs_path, &container), got) && sysfs_path@ == path
            && match got {
            Err(e) => r == Err::<VfioPassthroughDevice<D, C>, VfioPassthroughError<E>>(
                VfioPassthroughError::OpenDevice(e),
            ),
            Ok(device) => r matches Ok(opened) && opened.sysfs_path@ == path && opened.device
                == device && opened.container == container,
        }
}

/// Whether a device at `path` may have been opened so, or the attempt may have failed so.
pub open spec fn opened<D, C, E, M, O>(
    path: Seq<char>,
    create_container: M,
    open_device: O,
    r: Result<VfioPassthroughDevice<D, C>, VfioPassthroughError<E>>,
) -> bool where M: FnOnce() -> Result<C, E>, O: FnOnce(&str, &C) -> Result<D, E> {
    exists|made: Result<C, E>| #[trigger]
        call_ensures(create_container, (), made) && match made {
            Err(e) => r == Err::<VfioPassthroughDevice<D, C>, VfioPassthroughError<E>>(
                VfioPassthroughError::CreateContainer(e),
            ),
            Ok(container) => opened_in(path, container, open_device, r),
        }
}

impl<D, C> VfioPassthroughDevice<D, C> {
    /// Opens the device that a configuration names. First a container is made, then the device
    /// is opened in it.
    pub fn new<E, M: FnOnce() -> Result<C, E>, O: FnOnce(&str, &C) -> Result<D, E>>(
        config: &VfioDeviceConfig,
        create_container: M,
        open_device: O,
    ) -> (r: Result<Self, VfioPassthroughError<E>>)
        requires
            call_requires(create_container, ()),
            forall|path: &str, container: C|
                path@ == config.host_dev_path@ && call_ensures(
                    create_container,
                    (),
                    Ok::<C, E>(container),
                ) ==> #[trigger] call_requires(open_device, (path, &container)),
        ensures
            opened(config.host_dev_path@, create_container, open_device, r),
    {
        Self::from_path(config.host_dev_path.as_str(), create_container, open_device)
    }

    /// Opens the device at a path in sysfs. First a container is made, then the device is opened
    /// in it.
    pub fn from_path<E, M: FnOnce() -> Result<C, E>, O: FnOnce(&str, &C) -> Result<D, E>>(
        sysfs_path: &str,
        create_container: M,
        open_device: O,
    ) -> (r: Result<Self, VfioPassthroughError<E>>)
        requires
            call_requires(create_container, ()),
            forall|container: C|
                call_ensures(create_container, (), Ok::<C, E>(container))
                    ==> #[trigger] call_requires(open_device, (sysfs_path, &container)),
        ensures
            opened(sysfs_path@, create_container, open_device, r),
    {
        let container = match create_container() {
            Ok(container) => container,
            Err(e) => return Err(VfioPassthroughError::CreateContainer(e)),
        };
        let device = match open_device(sysfs_path, &container) {
            Ok(device) => device,
            Err(e) => return Err(VfioPassthroughError::OpenDevice(e)),
        };
        Ok(VfioPassthroughDevice { sysfs_path: sysfs_path.to_owned(), device, container })
    }

    /// Maps the guest memory in the container.
    pub fn map_guest_memory<E, F: FnOnce(&C) -> Result<(), E>>(&self, map: F) -> (r: Result<
        (),
        VfioPassthroughError<E>,
    >)
        requires
            call_requires(map, (&self.container,)),
        ensures
            exists|done: Result<(), E>| #[trigger]
                call_ensures(map, (&self.container,), done) && r == (match done {
                    Ok(()) => Ok(()),
                    Err(e) => Err(VfioPassthroughError::MapGuestMemory(e)),
                }),
    {
        match map(&self.container) {
            Ok(()) => Ok(()),
            Err(e) => Err(VfioPassthroughError::MapGuestMemory(e)),
        }
    }

    /// Unmaps the guest memory in the container.
    pub fn unmap_guest_memory<E, F: FnOnce(&C) -> Result<(), E>>(&self, unmap: F) -> (r: Result<
        (),
        VfioPassthroughError<E>,
    >)
        requires
            call_requires(unmap, (&self.container,)),
        ensures
            exists|done: Result<(), E>| #[trigger]
                call_ensures(unmap, (&self.container,), done) && r == (match done {
                    Ok(()) => Ok(()),
                    Err(e) => Err(VfioPassthroughError::UnmapGuestMemory(e)),
                }),
    {
        match unmap(&self.container) {
            Ok(()) => Ok(()),
            Err(e) => Err(VfioPassthroughError::UnmapGuestMemory(e)),
        }
    }

    /// The path of the device in sysfs.
    pub fn sysfs_path(&self) -> (r: &str)
        ensures
            r@ == self.sysfs_path@,
    {
        self.sysfs_path.as_str()
    }
}

/// The devices attached to a virtual machine.
#[derive(Debug)]
pub struct VfioDeviceManager<D> {
    /// The devices, in the order in which they were attached.
    pub devices: Vec<Arc<D>>,
}

impl<D> Default for VfioDeviceManager<D> {
    fn default() -> (r: Self)
        ensures
            r.devices@.len() == 0,
    {
        VfioDeviceManager { devices: Vec::new() }
    }
}

impl<D> VfioDeviceManager<D> {
    /// Makes a manager without devices.
    pub fn new() -> (r: Self)
        ensures
            r.devices@.len() == 0,
    {
        VfioDeviceManager { devices: Vec::new() }
    }

    /// Attaches a device, and gives a counted reference to it.
    pub fn attach(&mut self, device: D) -> (r: Arc<D>)
        ensures
            *r == device,
            final(self).devices@ == old(self).devices@.push(r),
    {
        let device = Arc::new(device);
        self.devices.push(device.clone());
        device
    }

    /// How many devices are attached.
    pub fn count(&self) -> (r: usize)
        ensures
            r == self.devices@.len(),
    {
        self.devices.len()
    }
}

} // verus!

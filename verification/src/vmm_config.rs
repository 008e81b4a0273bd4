//! The configuration of passed-through devices, and the builder that makes devices from it.

use std::sync::Arc;
use vstd::prelude::*;

verus! {

/// The configuration of a passed-through device. The device must be bound to the `vfio-pci`
/// driver of the host.
#[derive(Debug, PartialEq, Eq)]
pub struct VfioDeviceConfig {
    /// Identifies the device within the virtual machine. Not empty; alphanumeric characters and
    /// hyphens only, such as `"my-nic"` or `"gpu-0"`.
    pub id: String,
    /// Number of the IOMMU group of the device on the host, as in `/dev/vfio/<iommu_group>`.
    pub iommu_group: u32,
    /// Address of the device on the host, such as `"0000:01:00.0"`.
    pub host_pci_bdf: String,
    /// Whether to go without an IOMMU. Nothing then keeps the DMA of the device from the memory
    /// of the host.
    pub no_iommu: bool,
}

impl Default for VfioDeviceConfig {
    fn default() -> (r: Self)
        ensures
            r.id@.len() == 0,
            r.iommu_group == 0,
            r.host_pci_bdf@.len() == 0,
            !r.no_iommu,
    {
        VfioDeviceConfig {
            id: String::new(),
            iommu_group: 0,
            host_pci_bdf: String::new(),
            no_iommu: false,
        }
    }
}

impl Clone for VfioDeviceConfig {
    fn clone(&self) -> (r: Self)
        ensures
            r == *self,
    {
        VfioDeviceConfig {
            id: self.id.clone(),
            iommu_group: self.iommu_group,
            host_pci_bdf: self.host_pci_bdf.clone(),
            no_iommu: self.no_iommu,
        }
    }
}

/// Why a device cannot be made. `E` is what stopped the device itself.
#[derive(Debug)]
pub enum VfioDeviceConfigError<E> {
    /// The identifier is empty.
    EmptyId,
    /// There is a device with this identifier already.
    DeviceAlreadyExists(String),
    /// The device with this identifier could not be made.
    CreateDevice(String, E),
}

impl<E> VfioDeviceConfigError<E> {
    /// The error in words, where it does not rest on the device itself.
    pub open spec fn text(self) -> Seq<char> {
        match self {
            VfioDeviceConfigError::EmptyId => "VFIO device ID must not be empty"@,
            VfioDeviceConfigError::DeviceAlreadyExists(id) => "A VFIO device with id '"@ + id@
                + "' already exists"@,
            VfioDeviceConfigError::CreateDevice(id, _) => "Failed to create VFIO device '"@ + id@
                + "': "@,
        }
    }

    /// Puts the error in words. What stopped the device itself is to be appended.
    pub fn message(&self) -> (r: String)
        ensures
            r@ == self.text(),
    {
        match self {
            VfioDeviceConfigError::EmptyId => "VFIO device ID must not be empty".to_owned(),
            VfioDeviceConfigError::DeviceAlreadyExists(id) => {
                let mut text = "A VFIO device with id '".to_owned();
                text.append(id.as_str());
                text.append("' already exists");
                text
            },
            VfioDeviceConfigError::CreateDevice(id, _) => {
                let mut text = "Failed to create VFIO device '".to_owned();
                text.append(id.as_str());
                text.append("': ");
                text
            },
        }
    }
}

/// A device, with the configuration it was made from.
#[derive(Debug)]
pub struct VfioDevice<D> {
    /// The configuration.
    pub config: VfioDeviceConfig,
    /// The device itself.
    pub handle: D,
}

/// Whether one of the devices has the identifier.
pub open spec fn has_id<D>(devices: Seq<Arc<VfioDevice<D>>>, id: Seq<char>) -> bool {
    exists|i: int| 0 <= i < devices.len() && (#[trigger] devices[i]).config.id@ == id
}

/// Whether no two devices have the same identifier.
pub open spec fn ids_distinct<D>(devices: Seq<Arc<VfioDevice<D>>>) -> bool {
    forall|i: int, j: int|
        0 <= i < j < devices.len() ==> (#[trigger] devices[i]).config.id@ != (
        #[trigger] devices[j]).config.id@
}

/// The configurations of the devices, in order.
pub open spec fn configs_of<D>(devices: Seq<Arc<VfioDevice<D>>>) -> Seq<VfioDeviceConfig> {
    Seq::new(devices.len(), |i: int| devices[i].config)
}

/// Makes devices and keeps them.
#[derive(Debug)]
pub struct VfioDeviceBuilder<D> {
    /// The devices, in the order in which they were made or added.
    pub devices: Vec<Arc<VfioDevice<D>>>,
}

impl<D> Default for VfioDeviceBuilder<D> {
    fn default() -> (r: Self)
        ensures
            r.devices@.len() == 0,
    {
        VfioDeviceBuilder { devices: Vec::new() }
    }
}

impl<D> VfioDeviceBuilder<D> {
    /// Makes a builder without devices.
    pub fn new() -> (r: Self)
        ensures
            r.devices@.len() == 0,
    {
        VfioDeviceBuilder { devices: Vec::new() }
    }

    /// Tells whether one of the devices has the identifier.
    fn is_taken(&self, id: &String) -> (r: bool)
        ensures
            r == has_id(self.devices@, id@),
    {
        let mut i: usize = 0;
        while i < self.devices.len()
            invariant
                i <= self.devices@.len(),
                forall|j: int| 0 <= j < i ==> (#[trigger] self.devices@[j]).config.id@ != id@,
            decreases self.devices@.len() - i,
        {
            if self.devices[i].config.id == *id {
                return true;
            }
            i = i + 1;
        }
        false
    }

    /// Makes a device from a configuration and adds it. An empty identifier and one that is taken
    /// are refused before a device is made; `create` makes the device itself, and may fail.
    pub fn build<E, F: FnOnce(&VfioDeviceConfig) -> Result<D, E>>(
        &mut self,
        config: VfioDeviceConfig,
        create: F,
    ) -> (r: Result<(), VfioDeviceConfigError<E>>)
        requires
            config.id@.len() > 0 && !has_id(old(self).devices@, config.id@) ==> call_requires(
                create,
                (&config,),
            ),
        ensures
            config.id@.len() == 0 ==> {
                &&& r == Err::<(), VfioDeviceConfigError<E>>(VfioDeviceConfigError::EmptyId)
                &&& final(self).devices@ == old(self).devices@
            },
            config.id@.len() > 0 && has_id(old(self).devices@, config.id@) ==> {
                &&& r == Err::<(), VfioDeviceConfigError<E>>(
                    VfioDeviceConfigError::DeviceAlreadyExists(config.id),
                )
                &&& final(self).devices@ == old(self).devices@
            },
            config.id@.len() > 0 && !has_id(old(self).devices@, config.id@) ==> exists|
                made: Result<D, E>,
            | #[trigger]
                call_ensures(create, (&config,), made) && match made {
                    Ok(handle) => {
                        &&& r == Ok::<(), VfioDeviceConfigError<E>>(())
                        &&& final(self).devices@ == old(self).devices@.push(
                            Arc::new(VfioDevice { config, handle }),
                        )
                    },
                    Err(e) => {
                        &&& r == Err::<(), VfioDeviceConfigError<E>>(
                            VfioDeviceConfigError::CreateDevice(config.id, e),
                        )
                        &&& final(self).devices@ == old(self).devices@
                    },
                },
            r is Ok ==> has_id(final(self).devices@, config.id@),
            ids_distinct(old(self).devices@) ==> ids_distinct(final(self).devices@),
    {
        if config.id.as_str().is_empty() {
            return Err(VfioDeviceConfigError::EmptyId);
        }
        if self.is_taken(&config.id) {
            return Err(VfioDeviceConfigError::DeviceAlreadyExists(config.id));
        }
        match create(&config) {
            Ok(handle) => {
                let ghost before = self.devices@;
                self.devices.push(Arc::new(VfioDevice { config, handle }));
                proof {
                    let after = self.devices@;
                    assert(after[before.len() as int].config.id@ == config.id@);
                    assert forall|i: int| 0 <= i < before.len() implies (
                    #[trigger] after[i]).config.id@ != config.id@ by {
                        assert(after[i] == before[i]);
                    }
                    if ids_distinct(before) {
                        assert forall|i: int, j: int| 0 <= i < j < after.len() implies (
                        #[trigger] after[i]).config.id@ != (#[trigger] after[j]).config.id@ by {
                            if j < before.len() {
                                assert(after[i] == before[i] && after[j] == before[j]);
                            }
                        }
                    }
                }
                Ok(())
            },
            Err(e) => Err(VfioDeviceConfigError::CreateDevice(config.id, e)),
        }
    }

    /// Adds a device that was made before, as when a snapshot is restored.
    pub fn add_device(&mut self, device: Arc<VfioDevice<D>>)
        ensures
            final(self).devices@ == old(self).devices@.push(device),
    {
        self.devices.push(device);
    }

    /// The configurations of the devices, in order.
    pub fn configs(&self) -> (r: Vec<VfioDeviceConfig>)
        ensures
            r@ == configs_of(self.devices@),
    {
        let mut configs: Vec<VfioDeviceConfig> = Vec::new();
        let mut i: usize = 0;
        while i < self.devices.len()
            invariant
                i <= self.devices@.len(),
                configs@ == configs_of(self.devices@.take(i as int)),
            decreases self.devices@.len() - i,
        {
            configs.push(self.devices[i].config.clone());
            i = i + 1;
            proof {
                assert(configs@ =~= configs_of(self.devices@.take(i as int)));
            }
        }
        proof {
            assert(self.devices@.take(i as int) =~= self.devices@);
        }
        configs
    }
}

/// The configuration of a device that was made or added is the last of the configurations, and
/// those before it are as they were.
pub proof fn configs_follow_the_devices<D>(
    devices: Seq<Arc<VfioDevice<D>>>,
    device: Arc<VfioDevice<D>>,
)
    ensures
        configs_of(devices.push(device)) == configs_of(devices).push(device.config),
{
    assert(configs_of(devices.push(device)) =~= configs_of(devices).push(device.config));
}

} // verus!

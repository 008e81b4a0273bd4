//! The rules by which a virtual machine monitor hands a VFIO device to its guest.
//!
//! The guest reaches a passed-through PCIe device by its configuration space and its BARs. Most
//! accesses go on to the device. The BAR registers, the MSI-X structures and stretches that are
//! kept from the device do not.
//!
//! - [`config_space`] finds the MSI-X structures; [`bar_location`] and [`blocked`] say which
//!   bytes are kept from the device; [`memory_recognizer`] recognises each access and cuts it into
//!   pieces, and [`routing`] states what holds of that.
//! - [`common`] and [`vfio_device`] say what is to be done for an access; [`configuration`] and
//!   [`msix`] answer for what is emulated.
//! - [`dma_engine`], [`mmio_mgr`] and [`mmio_utils`] say what is to be mapped.
//! - [`vmm_config`], [`passthrough`] and [`request`] take devices and the requests for them.
//! - [`config_guarantees`], [`bar_guarantees`] and [`host_guarantees`] state what a caller may rely
//!   on, in terms of what goes into the functions and what comes out.
//!
//! Nothing here touches a device: the functions take what was read from it as plain values, and
//! say what is to be read, written or mapped. [`outside`] holds what is believed of other crates.

pub mod access;
pub mod bar_guarantees;
pub mod bar_location;
pub mod blocked;
pub mod common;
pub mod config_guarantees;
pub mod config_space;
pub mod configuration;
pub mod dma_engine;
pub mod host_guarantees;
pub mod memory_recognizer;
pub mod mmio_mgr;
pub mod mmio_utils;
pub mod msix;
pub mod outside;
pub mod passthrough;
pub mod request;
pub mod routing;
pub mod vfio_device;
pub mod vmm_config;

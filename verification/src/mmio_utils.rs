//! How a stretch of a BAR is mapped into the guest: what to ask of the host, and which memory
//! region the guest gets.

use crate::outside::{region_flag_mmap, region_flag_read, region_flag_write};
use vstd::prelude::*;

verus! {

/// Why a stretch cannot be mapped.
#[derive(Debug, Clone, Copy, PartialEq, Eq)]
pub enum MmioError {
    /// There is no memory slot for the stretch.
    NoSlot,
    /// The device has no file descriptor.
    NoFileDescriptor,
    /// The length does not fit the address space of the host.
    LengthTooLarge,
    /// The offset does not fit a file offset.
    OffsetTooLarge,
    /// The region of the device cannot be mapped.
    NotMappable,
    /// The host has refused the mapping.
    MmapFailed,
}

impl MmioError {
    /// Whether what was asked for was wrong in itself.
    pub open spec fn invalid_input(self) -> bool {
        self is LengthTooLarge || self is OffsetTooLarge
    }

    /// Tells whether what was asked for was wrong in itself.
    pub fn is_invalid_input(&self) -> (r: bool)
        ensures
            r == self.invalid_input(),
    {
        match self {
            MmioError::LengthTooLarge => true,
            MmioError::OffsetTooLarge => true,
            _ => false,
        }
    }

    /// The error in words.
    pub open spec fn text(self) -> Seq<char> {
        match self {
            MmioError::NoSlot => "failed to get MMIO slot"@,
            MmioError::NoFileDescriptor => "vfio wrapper does not support as_raw_fd"@,
            MmioError::LengthTooLarge => "length too large"@,
            MmioError::OffsetTooLarge => "offset too large"@,
            MmioError::NotMappable => "region does not support mmap"@,
            MmioError::MmapFailed => "mmap failed"@,
        }
    }

    /// Puts the error in words.
    pub fn message(&self) -> (r: &'static str)
        ensures
            r@ == self.text(),
    {
        match self {
            MmioError::NoSlot => "failed to get MMIO slot",
            MmioError::NoFileDescriptor => "vfio wrapper does not support as_raw_fd",
            MmioError::LengthTooLarge => "length too large",
            MmioError::OffsetTooLarge => "offset too large",
            MmioError::NotMappable => "region does not support mmap",
            MmioError::MmapFailed => "mmap failed",
        }
    }
}

/// What of a file of the host is to be mapped, and in which memory slot.
#[derive(Debug, Clone, Copy, PartialEq, Eq)]
pub struct MmapTarget {
    /// The memory slot for the guest.
    pub slot: u32,
    /// The file descriptor of the device.
    pub fd: i32,
    /// Length in bytes.
    pub len: usize,
    /// Offset in the file.
    pub offset: i64,
}

/// A mapping to ask of the host, shared with the device.
#[derive(Debug, Clone, Copy, PartialEq, Eq)]
pub struct MmapRequest {
    /// What is to be mapped.
    pub target: MmapTarget,
    /// Whether the mapping is readable.
    pub read: bool,
    /// Whether the mapping is writable.
    pub write: bool,
}

/// A memory region of the guest that stands for memory of the host.
#[derive(Debug, Clone, Copy, PartialEq, Eq)]
pub struct UserMemoryRegion {
    /// The memory slot.
    pub slot: u32,
    /// Flags of the region.
    pub flags: u32,
    /// Where the guest sees it.
    pub guest_phys_addr: u64,
    /// Size in bytes; a region of size 0 frees the slot.
    pub memory_size: u64,
    /// Where the host has it.
    pub userspace_addr: u64,
}

/// Why a stretch cannot be mapped whatever its region allows, if there is a reason.
pub open spec fn obstacle(
    slot: Option<u32>,
    fd: Option<i32>,
    offset: u64,
    len: u64,
) -> Option<MmioError> {
    if slot is None {
        Some(MmioError::NoSlot)
    } else if fd is None {
        Some(MmioError::NoFileDescriptor)
    } else if len > usize::MAX {
        Some(MmioError::LengthTooLarge)
    } else if offset > i64::MAX {
        Some(MmioError::OffsetTooLarge)
    } else {
        None
    }
}

/// Says what is to be mapped for a stretch: with the memory slot, if there is one, and the file
/// descriptor of the device, if it has one.
pub fn mmio_target(slot: Option<u32>, fd: Option<i32>, offset: u64, len: u64) -> (r: Result<
    MmapTarget,
    MmioError,
>)
    ensures
        r == (match obstacle(slot, fd, offset, len) {
            Some(error) => Err(error),
            None => Ok(
                MmapTarget {
                    slot: slot->Some_0,
                    fd: fd->Some_0,
                    len: len as usize,
                    offset: offset as i64,
                },
            ),
        }),
        r matches Ok(target) ==> target.len == len && target.offset == offset,
{
    let slot: u32 = match slot {
        Some(slot) => slot,
        None => return Err(MmioError::NoSlot),
    };
    let fd: i32 = match fd {
        Some(fd) => fd,
        None => return Err(MmioError::NoFileDescriptor),
    };
    if len > usize::MAX as u64 {
        return Err(MmioError::LengthTooLarge);
    }
    if offset > i64::MAX as u64 {
        return Err(MmioError::OffsetTooLarge);
    }
    Ok(MmapTarget { slot, fd, len: len as usize, offset: offset as i64 })
}

/// Plans a mapping as far as the flags of the region allow it.
pub fn plan_mmio_mapping(target: MmapTarget, region_flags: u32) -> (r: Result<
    MmapRequest,
    MmioError,
>)
    ensures
        r == (if region_flags & 4 == 0 {
            Err(MmioError::NotMappable)
        } else {
            Ok(
                MmapRequest {
                    target,
                    read: region_flags & 1 != 0,
                    write: region_flags & 2 != 0,
                },
            )
        }),
{
    if region_flags & region_flag_mmap() == 0 {
        return Err(MmioError::NotMappable);
    }
    Ok(
        MmapRequest {
            target,
            read: region_flags & region_flag_read() != 0,
            write: region_flags & region_flag_write() != 0,
        },
    )
}

/// The memory region that gives the guest what the host has mapped; `addr` is where, or `None`
/// if the host has refused.
pub fn map_mmio_regions(request: MmapRequest, guest_base: u64, addr: Option<u64>) -> (r: Result<
    UserMemoryRegion,
    MmioError,
>)
    ensures
        r == (match addr {
            Some(addr) => Ok(
                UserMemoryRegion {
                    slot: request.target.slot,
                    flags: 0,
                    guest_phys_addr: guest_base,
                    memory_size: request.target.len as u64,
                    userspace_addr: addr,
                },
            ),
            None => Err(MmioError::MmapFailed),
        }),
{
    match addr {
        Some(userspace_addr) => Ok(
            UserMemoryRegion {
                slot: request.target.slot,
                flags: 0,
                guest_phys_addr: guest_base,
                memory_size: request.target.len as u64,
                userspace_addr,
            },
        ),
        None => Err(MmioError::MmapFailed),
    }
}

/// The memory region that frees a slot again, if there is one.
pub fn unmap_mmio_regions(slot: Option<u32>) -> (r: Result<UserMemoryRegion, MmioError>)
    ensures
        r == (match slot {
            Some(slot) => Ok(
                UserMemoryRegion {
                    slot,
                    flags: 0,
                    guest_phys_addr: 0,
                    memory_size: 0,
                    userspace_addr: 0,
                },
            ),
            None => Err(MmioError::NoSlot),
        }),
{
    match slot {
        Some(slot) => Ok(
            UserMemoryRegion {
                slot,
                flags: 0,
                guest_phys_addr: 0,
                memory_size: 0,
                userspace_addr: 0,
            },
        ),
        None => Err(MmioError::NoSlot),
    }
}

} // verus!

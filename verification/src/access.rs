//! What a guest access is recognised as, and the bytes that travel with it.

use vstd::prelude::*;

verus! {

/// What a guest access to a passed-through device is recognised as.
#[derive(Debug, Clone, Copy, PartialEq, Eq)]
#[allow(inconsistent_fields)]
pub enum IovaAccessType {
    /// A BAR register of the configuration space.
    BarReg { index: u8 },
    /// The MSI-X message control register, accessed as a whole (16 bits).
    MsixCtrl,
    /// Any other part of the configuration space; the device itself may answer.
    EcamCanForwardToVfio { reg_idx: usize, offset: u64, data_len: u8 },
    /// The MSI-X vector table.
    MsixTable { index: u16, offset: u64, data_len: u8 },
    /// The MSI-X pending bit array.
    Pba { offset: u64, data_len: u8 },
    /// Any other part of a BAR; the device itself may answer.
    BarRegionCanForwardToVfio { index: u8, offset: u64, data_len: u8 },
    /// A stretch that is emulated in memory, without the device.
    MmioNeededEmulationInMem,
    /// A stretch whose accesses are dropped.
    MmioNeededDiscard,
    /// An access that ARMv8 device memory does not allow:
    ///
    /// 1. An access of `n` bytes needs an `n` of 1, 2, 4 or 8 and an offset that `n` divides.
    ///    Such an access crosses none of these: the edges of the MSI-X table, of its 16-byte
    ///    entries, of the pending bit array and of its 8-byte units, of the block of BAR
    ///    registers, of the capability area, and the 256-byte and 4-KiB bounds of the
    ///    configuration space.
    /// 2. The message control register is written with 2 bytes, a BAR register with 4.
    /// 3. An access to a BAR lies in that BAR as a whole, a read of BAR registers in those
    ///    registers.
    InvalidAccess,
}

/// The bytes of an access: the buffer a read fills, or the bytes a write brings.
#[derive(Debug, PartialEq, Eq)]
#[allow(inconsistent_fields)]
pub enum IovaAccessData<'a> {
    /// The buffer that a read fills.
    Read { data: &'a mut [u8] },
    /// The bytes that a write brings.
    Write { data: &'a [u8] },
}

/// An access, or a piece of one, with what it was recognised as.
#[derive(Debug)]
pub struct AccessResolution<'a> {
    /// What the access was recognised as.
    pub access_type: IovaAccessType,
    /// Its bytes.
    pub data: IovaAccessData<'a>,
}

/// An access as plain values.
pub struct AccessView {
    /// What the access was recognised as.
    pub access_type: IovaAccessType,
    /// Whether it is a write.
    pub write: bool,
    /// The bytes in the buffer.
    pub bytes: Seq<u8>,
}

impl<'a> View for AccessResolution<'a> {
    type V = AccessView;

    open spec fn view(&self) -> AccessView {
        AccessView {
            access_type: self.access_type,
            write: self.data is Write,
            bytes: match self.data {
                IovaAccessData::Read { data } => data@,
                IovaAccessData::Write { data } => data@,
            },
        }
    }
}

/// A list of accesses as plain values.
pub open spec fn views(list: Seq<AccessResolution<'_>>) -> Seq<AccessView> {
    Seq::new(list.len(), |i: int| list[i]@)
}

/// Whether device memory may be accessed with `n` bytes at `offset`.
pub open spec fn aligned_access(offset: int, n: int) -> bool {
    (n == 1 || n == 2 || n == 4 || n == 8) && offset % n == 0
}

/// Tells whether device memory may be accessed with `n` bytes at `offset`.
pub fn is_aligned_access(offset: u64, n: usize) -> (r: bool)
    ensures
        r == aligned_access(offset as int, n as int),
{
    (n == 1 || n == 2 || n == 4 || n == 8) && offset % (n as u64) == 0
}

/// The offset and length of an access to a BAR, as its type records them.
pub open spec fn span_of(access_type: IovaAccessType) -> Option<(u64, usize)> {
    match access_type {
        IovaAccessType::BarRegionCanForwardToVfio { offset, data_len, .. } => Some(
            (offset, data_len as usize),
        ),
        IovaAccessType::MsixTable { offset, data_len, .. } => Some((offset, data_len as usize)),
        IovaAccessType::Pba { offset, data_len } => Some((offset, data_len as usize)),
        _ => None,
    }
}

/// The offset and length of an access to a BAR; `None` for an access of another type.
pub fn access_span(access_type: &IovaAccessType) -> (r: Option<(u64, usize)>)
    ensures
        r == span_of(*access_type),
{
    match access_type {
        IovaAccessType::BarRegionCanForwardToVfio { offset, data_len, .. } => Some(
            (*offset, *data_len as usize),
        ),
        IovaAccessType::MsixTable { offset, data_len, .. } => Some((*offset, *data_len as usize)),
        IovaAccessType::Pba { offset, data_len } => Some((*offset, *data_len as usize)),
        _ => None,
    }
}

/// The type of a piece of an access: that of the whole with the piece's own offset and length.
pub open spec fn type_of_segment(
    access_type: IovaAccessType,
    segment_start: u64,
    segment_len: usize,
) -> IovaAccessType {
    match access_type {
        IovaAccessType::BarRegionCanForwardToVfio { index, .. } =>
            IovaAccessType::BarRegionCanForwardToVfio {
                index,
                offset: segment_start,
                data_len: segment_len as u8,
            },
        IovaAccessType::MsixTable { index, .. } => IovaAccessType::MsixTable {
            index,
            offset: segment_start,
            data_len: segment_len as u8,
        },
        IovaAccessType::Pba { .. } => IovaAccessType::Pba {
            offset: segment_start,
            data_len: segment_len as u8,
        },
        _ => access_type,
    }
}

/// Gives a piece of an access its type: that of the whole with the piece's own offset and length.
pub fn remap_segment_type(
    access_type: &IovaAccessType,
    segment_start: u64,
    segment_len: usize,
) -> (r: IovaAccessType)
    ensures
        r == type_of_segment(*access_type, segment_start, segment_len),
{
    let data_len: u8 = segment_len as u8;
    match access_type {
        IovaAccessType::BarRegionCanForwardToVfio { index, .. } =>
            IovaAccessType::BarRegionCanForwardToVfio {
                index: *index,
                offset: segment_start,
                data_len,
            },
        IovaAccessType::MsixTable { index, .. } => IovaAccessType::MsixTable {
            index: *index,
            offset: segment_start,
            data_len,
        },
        IovaAccessType::Pba { .. } => IovaAccessType::Pba { offset: segment_start, data_len },
        _ => *access_type,
    }
}

} // verus!

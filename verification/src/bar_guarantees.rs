//! What a caller may rely on where the BARs are concerned, said of the arguments and results of
//! the functions alone.

use crate::access::{
    access_span, remap_segment_type, span_of, views, AccessResolution, AccessView, IovaAccessType,
};
use crate::bar_location::{
    covered, has_edge, in_order, increasing, increasing_lists_are_equal, insert_in_order,
    insert_point, insertion_point, insertion_point_is_in_the_list, is_edge, meets, not_after,
    BarLocation,
};
use crate::blocked::{access_end, Blocked};
use crate::common::{
    target_of, BarRead, BarTarget, BarWrite, DeviceRelocationError, VfioCommon,
};
use crate::memory_recognizer::{
    behind_its_span, region_at, region_from, MemoryRecognizer, RecognizerView, RegionView,
    VfioPcieMemoryRecognizer, VfioRegion,
};
use crate::routing::{
    lemma_first_holder, lemma_parts_in_place, nothing_begins_where_no_bar_does,
    passthrough_is_in_order, passthrough_is_what_is_not_blocked,
    the_bar_that_begins_there_is_found,
};
use crate::vfio_device::VfioPciDevice;
use vstd::prelude::*;

verus! {

/// Every access is taken whose address exists and lies in a BAR, whatever its length.
pub proof fn accesses_to_bars_are_taken<'a, 'b>(
    device: &mut VfioCommon,
    other: &mut VfioCommon,
    bus: &mut VfioPciDevice,
    other_bus: &mut VfioPciDevice,
    base: u64,
    offset: u64,
    data: &'a [u8],
    buffer: &'b mut [u8],
    other_buffer: &'b mut [u8],
    bar: int,
)
    requires
        old(device).valid(),
        *old(other) == *old(device),
        old(bus).common() == *old(device),
        *old(other_bus) == *old(bus),
        base + offset <= u64::MAX,
        0 <= bar < 6,
        old(device).recognizer().regions[bar].start <= base + offset
            < old(device).recognizer().regions[bar].start
            + old(device).recognizer().regions[bar].size,
    ensures
        call_requires(VfioCommon::write_bar, (device, base, offset, data)),
        call_requires(VfioCommon::read_bar, (other, base, offset, buffer)),
        call_requires(VfioPciDevice::write_bar, (bus, base, offset, data)),
        call_requires(VfioPciDevice::read_bar, (other_bus, base, offset, other_buffer)),
{
    lemma_region_at(old(device).recognizer().regions, base + offset);
}

/// A write to a BAR must have 1, 2, 4 or 8 bytes, begin at a multiple of that, and end in the BAR
/// it begins in; else it is refused as a whole. `bar` is the first BAR that holds the address.
pub proof fn refused_bar_writes<'a>(
    device: &mut VfioCommon,
    base: u64,
    offset: u64,
    data: &'a [u8],
    r: Vec<BarWrite<'a>>,
    bar: int,
)
    requires
        call_ensures(VfioCommon::write_bar, (device, base, offset, data), r),
        old(device).valid(),
        base + offset <= u64::MAX,
        0 <= bar < 6,
        ({
            let regions = old(device).recognizer().regions;
            &&& regions[bar].start <= base + offset < regions[bar].start + regions[bar].size
            &&& forall|j: int|
                0 <= j < bar ==> !((#[trigger] regions[j]).start <= base + offset < regions[j].start
                    + regions[j].size)
        }),
        ({
            let n = data@.len();
            let region = old(device).recognizer().regions[bar];
            ||| !(n == 1 || n == 2 || n == 4 || n == 8)
            ||| n == 2 && offset % 2 != 0
            ||| n == 4 && offset % 4 != 0
            ||| n == 8 && offset % 8 != 0
            ||| base + offset + n > region.start + region.size
        }),
    ensures
        *final(device) == *old(device),
        r@.len() == 1,
        r@[0].target == BarTarget::Ignore(IovaAccessType::InvalidAccess),
        r@[0].data@ == data@,
{
    let view = old(device).recognizer();
    lemma_first_holder(view.regions, bar, base + offset);
    let pieces = view.resolve_bar_access(base, offset, true, data@);
    assert(pieces == seq![view.bar_access(base, offset, true, data@)]);
    assert(pieces.len() == 1);
    assert(pieces[0].access_type == IovaAccessType::InvalidAccess);
}

/// The pieces of a write to a BAR that is allowed are its bytes, in order, and none is empty. Only
/// a byte behind the last offset there is is lost.
pub proof fn bar_writes_are_shared_out<'a>(
    device: &mut VfioCommon,
    base: u64,
    offset: u64,
    data: &'a [u8],
    r: Vec<BarWrite<'a>>,
    bar: int,
)
    requires
        call_ensures(VfioCommon::write_bar, (device, base, offset, data), r),
        old(device).valid(),
        base + offset <= u64::MAX,
        offset < u64::MAX,
        0 <= bar < 6,
        ({
            let regions = old(device).recognizer().regions;
            &&& regions[bar].start <= base + offset < regions[bar].start + regions[bar].size
            &&& forall|j: int|
                0 <= j < bar ==> !((#[trigger] regions[j]).start <= base + offset < regions[j].start
                    + regions[j].size)
        }),
        ({
            let n = data@.len();
            let region = old(device).recognizer().regions[bar];
            &&& n == 1 || (n == 2 && offset % 2 == 0) || (n == 4 && offset % 4 == 0) || (n == 8
                && offset % 8 == 0)
            &&& base + offset + n <= region.start + region.size
        }),
    ensures
        *final(device) == *old(device),
        r@.len() >= 1,
        forall|k: int| 0 <= k < r@.len() ==> (#[trigger] r@[k]).data@.len() > 0,
        offset + data@.len() <= u64::MAX ==> Seq::new(
            r@.len(),
            |k: int| r@[k].data@,
        ).flatten() == data@,
        offset + data@.len() > u64::MAX ==> Seq::new(
            r@.len(),
            |k: int| r@[k].data@,
        ).flatten() == data@.take(u64::MAX - offset),
{
    let view = old(device).recognizer();
    let pieces = view.resolve_bar_access(base, offset, true, data@);
    let access = view.bar_access(base, offset, true, data@);
    lemma_pieces(view, base, offset, true, data@, bar);
    view.blocked.pieces_hold_the_access(bar as u8, access);
    let parts = Seq::new(r@.len(), |k: int| r@[k].data@);
    assert(parts =~= pieces.map_values(|piece: AccessView| piece.bytes));
    assert(data@.take(data@.len() as int) =~= data@);
    assert forall|k: int| 0 <= k < r@.len() implies (#[trigger] r@[k]).data@.len() > 0 by {
        assert(pieces[k].bytes.len() > 0);
    }
}

/// The byte at the last offset there is reaches nothing: a write there has no pieces.
pub proof fn the_last_offset_reaches_nothing<'a>(
    device: &mut VfioCommon,
    data: &'a [u8],
    r: Vec<BarWrite<'a>>,
    bar: int,
)
    requires
        call_ensures(VfioCommon::write_bar, (device, 0u64, u64::MAX, data), r),
        old(device).valid(),
        data@.len() == 1,
        0 <= bar < 6,
        ({
            let regions = old(device).recognizer().regions;
            &&& regions[bar].start <= u64::MAX < regions[bar].start + regions[bar].size
            &&& forall|j: int|
                0 <= j < bar ==> !((#[trigger] regions[j]).start <= u64::MAX < regions[j].start
                    + regions[j].size)
        }),
    ensures
        *final(device) == *old(device),
        r@.len() == 0,
{
    let view = old(device).recognizer();
    lemma_first_holder(view.regions, bar, u64::MAX as int);
    let points = view.blocked.cut_points(bar as u8, u64::MAX, u64::MAX);
    view.blocked.cut_points_exist(bar as u8, u64::MAX, u64::MAX);
    view.blocked.cut_points_span_the_range(bar as u8, u64::MAX, u64::MAX);
    if points.len() > 1 {
        assert(points[0] < points[points.len() - 1]);
    }
    assert(view.regions[bar].index == bar);
}

/// Each byte of a write to a BAR that is allowed goes where it should. `x` is the place in the BAR
/// of a byte of piece `k`, which begins at `p`. A byte in a stretch to be dropped is dropped; one
/// in a stretch to be emulated is kept for emulation; the others go to the entry of the MSI-X
/// table that the write begins in, to the pending bit array, or to the region of the device that
/// has the number of the BAR, at the place where the piece begins.
pub proof fn written_bytes_go_where_they_should<'a>(
    device: &mut VfioCommon,
    base: u64,
    offset: u64,
    data: &'a [u8],
    r: Vec<BarWrite<'a>>,
    bar: int,
    k: int,
    p: int,
    x: int,
)
    requires
        call_ensures(VfioCommon::write_bar, (device, base, offset, data), r),
        old(device).valid(),
        base + offset <= u64::MAX,
        offset < u64::MAX,
        0 <= bar < 6,
        ({
            let regions = old(device).recognizer().regions;
            &&& regions[bar].start <= base + offset < regions[bar].start + regions[bar].size
            &&& forall|j: int|
                0 <= j < bar ==> !((#[trigger] regions[j]).start <= base + offset < regions[j].start
                    + regions[j].size)
        }),
        ({
            let n = data@.len();
            let region = old(device).recognizer().regions[bar];
            &&& n == 1 || (n == 2 && offset % 2 == 0) || (n == 4 && offset % 4 == 0) || (n == 8
                && offset % 8 == 0)
            &&& base + offset + n <= region.start + region.size
        }),
        0 <= k < r@.len(),
        p == offset + Seq::new(k as nat, |j: int| r@[j].data@).flatten().len(),
        p <= x < p + r@[k].data@.len(),
    ensures
        ({
            let view = old(device).recognizer();
            let dropped = exists|i: int|
                0 <= i < view.blocked.discard.len() && (
                #[trigger] view.blocked.discard[i]).bar_index == bar
                    && view.blocked.discard[i].offset <= x < view.blocked.discard[i].offset
                    + view.blocked.discard[i].len;
            let emulated = exists|i: int|
                0 <= i < view.blocked.emulate.len() && (
                #[trigger] view.blocked.emulate[i]).bar_index == bar
                    && view.blocked.emulate[i].offset <= x < view.blocked.emulate[i].offset
                    + view.blocked.emulate[i].len;
            let in_table = view.table is Some && view.table->Some_0.bar_index == bar
                && view.table->Some_0.offset <= offset < view.table->Some_0.offset
                + view.table->Some_0.len;
            let in_pba = view.pba is Some && view.pba->Some_0.bar_index == bar
                && view.pba->Some_0.offset <= offset < view.pba->Some_0.offset
                + view.pba->Some_0.len;
            let target = r@[k].target;
            &&& dropped ==> target == BarTarget::Ignore(IovaAccessType::MmioNeededDiscard)
            &&& !dropped && emulated ==> target == BarTarget::Ignore(
                IovaAccessType::MmioNeededEmulationInMem,
            )
            &&& !dropped && !emulated && in_table ==> {
                target matches BarTarget::MsixTable { index, offset: at } && at == p
                    && view.table->Some_0.offset + 16 * index <= offset
                    < view.table->Some_0.offset + 16 * index + 16
            }
            &&& !dropped && !emulated && !in_table && in_pba ==> {
                target matches BarTarget::Pba { offset: at } && at == p
            }
            &&& !dropped && !emulated && !in_table && !in_pba ==> {
                target matches BarTarget::Device { index, offset: at } && index == bar && at == p
            }
        }),
{
    let view = old(device).recognizer();
    let pieces = view.resolve_bar_access(base, offset, true, data@);
    let access = view.bar_access(base, offset, true, data@);
    let end = access_end(offset, data@.len() as usize);
    let points = view.blocked.cut_points(bar as u8, offset, end);
    lemma_pieces(view, base, offset, true, data@, bar);
    let parts = Seq::new(r@.len(), |j: int| r@[j].data@);
    assert forall|j: int| 0 <= j < parts.len() implies (#[trigger] parts[j]).len() == points[j + 1]
        - points[j] by {
        assert(parts[j] == pieces[j].bytes);
    }
    assert(parts[k].len() == points[k + 1] - points[k]);
    assert(points[k] < points[k + 1]);
    lemma_parts_in_place(points, parts, k, k, points[k] as int);
    assert(parts.take(k) =~= Seq::new(k as nat, |j: int| r@[j].data@));
    assert(p == points[k]);
    view.blocked.pieces_are_uniform(bar as u8, offset, end, k, x);
    lemma_kind(view.blocked, bar as u8, x);
    assert(pieces[k].access_type == view.blocked.segment(
        bar as u8,
        access,
        offset,
        points[k],
        points[k + 1],
    ).access_type);
    if view.table is Some {
        let table = view.table->Some_0;
        assert(table.spec_end() == table.offset + table.len);
    }
    if view.pba is Some {
        let pba = view.pba->Some_0;
        assert(pba.spec_end() == pba.offset + pba.len);
    }
}

/// A write to a BAR that is allowed is cut where a stretch kept from the device begins or ends,
/// and nowhere else: no such place lies inside a piece, and where one piece ends and the next
/// begins there is one. `p` is where piece `k` begins in the BAR.
pub proof fn bar_writes_are_cut_at_edges_only<'a>(
    device: &mut VfioCommon,
    base: u64,
    offset: u64,
    data: &'a [u8],
    r: Vec<BarWrite<'a>>,
    bar: int,
    k: int,
    p: int,
)
    requires
        call_ensures(VfioCommon::write_bar, (device, base, offset, data), r),
        old(device).valid(),
        base + offset <= u64::MAX,
        offset < u64::MAX,
        0 <= bar < 6,
        ({
            let regions = old(device).recognizer().regions;
            &&& regions[bar].start <= base + offset < regions[bar].start + regions[bar].size
            &&& forall|j: int|
                0 <= j < bar ==> !((#[trigger] regions[j]).start <= base + offset < regions[j].start
                    + regions[j].size)
        }),
        ({
            let n = data@.len();
            let region = old(device).recognizer().regions[bar];
            &&& n == 1 || (n == 2 && offset % 2 == 0) || (n == 4 && offset % 4 == 0) || (n == 8
                && offset % 8 == 0)
            &&& base + offset + n <= region.start + region.size
        }),
        0 <= k < r@.len(),
        p == offset + Seq::new(k as nat, |j: int| r@[j].data@).flatten().len(),
    ensures
        ({
            let view = old(device).recognizer();
            let all = view.blocked.discard + view.blocked.emulate;
            &&& forall|i: int|
                0 <= i < all.len() && (#[trigger] all[i]).bar_index == bar ==> {
                    &&& !(p < all[i].offset < p + r@[k].data@.len())
                    &&& !(p < all[i].offset + all[i].len < p + r@[k].data@.len())
                }
            &&& k > 0 ==> exists|i: int|
                0 <= i < all.len() && (#[trigger] all[i]).bar_index == bar && (all[i].offset == p
                    || all[i].offset + all[i].len == p)
        }),
{
    let view = old(device).recognizer();
    let pieces = view.resolve_bar_access(base, offset, true, data@);
    let end = access_end(offset, data@.len() as usize);
    let points = view.blocked.cut_points(bar as u8, offset, end);
    lemma_pieces(view, base, offset, true, data@, bar);
    let parts = Seq::new(r@.len(), |j: int| r@[j].data@);
    assert forall|j: int| 0 <= j < parts.len() implies (#[trigger] parts[j]).len() == points[j + 1]
        - points[j] by {
        assert(parts[j] == pieces[j].bytes);
    }
    assert(parts[k].len() == points[k + 1] - points[k]);
    assert(points[k] < points[k + 1]);
    lemma_parts_in_place(points, parts, k, k, points[k] as int);
    assert(parts.take(k) =~= Seq::new(k as nat, |j: int| r@[j].data@));
    assert(p == points[k]);
    view.blocked.cut_points_exist(bar as u8, offset, end);
    view.blocked.cut_points_span_the_range(bar as u8, offset, end);
    lemma_edges(view.blocked, bar as u8, offset, end, points, k);
}

/// A read and a write of as many bytes at one place of one device are cut alike, and their pieces
/// go the same way. The pieces of the read hold its buffer, and when they are filled they are its
/// buffer again; what lies behind them stays as it was.
pub proof fn bar_reads_are_routed_like_writes<'a, 'b>(
    device: &mut VfioCommon,
    base: u64,
    offset: u64,
    buffer: &'a mut [u8],
    read: Vec<BarRead<'a>>,
    again: &mut VfioCommon,
    data: &'b [u8],
    written: Vec<BarWrite<'b>>,
)
    requires
        call_ensures(VfioCommon::read_bar, (device, base, offset, buffer), read),
        call_ensures(VfioCommon::write_bar, (again, base, offset, data), written),
        old(device).recognizer() == old(again).recognizer(),
        old(buffer)@ == data@,
    ensures
        *final(device) == *old(device),
        read@.len() == written@.len(),
        forall|k: int|
            0 <= k < read@.len() ==> (#[trigger] read@[k]).target == written@[k].target
                && read@[k].data@ == written@[k].data@,
        final(buffer)@ == Seq::new(read@.len(), |k: int| final(read@[k].data)@).flatten()
            + data@.skip(
            Seq::new(written@.len(), |k: int| written@[k].data@).flatten().len() as int,
        ),
{
    let view = old(device).recognizer();
    let reads = view.resolve_bar_access(base, offset, false, data@);
    let writes = view.resolve_bar_access(base, offset, true, data@);
    assert(reads.len() == writes.len());
    assert forall|k: int| 0 <= k < read@.len() implies (#[trigger] read@[k]).target
        == written@[k].target && read@[k].data@ == written@[k].data@ by {
        assert(reads[k].access_type == writes[k].access_type && reads[k].bytes == writes[k].bytes);
        assert(written@[k].target == target_of(writes[k].access_type));
    }
    lemma_behind(view, base, offset, data@);
    assert(Seq::new(written@.len(), |k: int| written@[k].data@) =~= writes.map_values(
        |piece: AccessView| piece.bytes,
    ));
}

/// What a recognizer makes of a write to a BAR, and where a device that knows the same sends it,
/// go together piece by piece.
pub proof fn recognised_bar_writes<'a>(
    recognizer: &VfioPcieMemoryRecognizer,
    device: &mut VfioCommon,
    base: u64,
    offset: u64,
    data: &'a [u8],
    recognised: Vec<AccessResolution<'a>>,
    r: Vec<BarWrite<'a>>,
    k: int,
)
    requires
        call_ensures(
            <VfioPcieMemoryRecognizer as MemoryRecognizer>::parse_bar_write,
            (recognizer, base, offset, data),
            recognised,
        ),
        call_ensures(VfioCommon::write_bar, (device, base, offset, data), r),
        recognizer@ == old(device).recognizer(),
        0 <= k < r@.len(),
    ensures
        recognised@.len() == r@.len(),
        recognised@[k].data is Write,
        recognised@[k].data->Write_data@ == r@[k].data@,
        match recognised@[k].access_type {
            IovaAccessType::MsixTable { index, offset: at, .. } => r@[k].target
                == (BarTarget::MsixTable { index, offset: at }),
            IovaAccessType::Pba { offset: at, .. } => r@[k].target == (BarTarget::Pba {
                offset: at,
            }),
            IovaAccessType::BarRegionCanForwardToVfio { index, offset: at, .. } => {
                r@[k].target matches BarTarget::Device { index: region, offset: to } && region
                    == index && to == at
            },
            other => r@[k].target == BarTarget::Ignore(other),
        },
{
    let pieces = recognizer@.resolve_bar_access(base, offset, true, data@);
    let access = recognizer@.bar_access(base, offset, true, data@);
    recognizer@.blocked.pieces_keep_their_direction(recognizer@.bar_at(base + offset), access);
    assert(views(recognised@).len() == pieces.len());
    assert(views(recognised@)[k] == recognised@[k]@);
    assert(pieces[k].write);
}

/// The pieces that a recognizer makes of an allowed write to a BAR are typed with their own
/// lengths.
pub proof fn recognised_lengths<'a>(
    recognizer: &VfioPcieMemoryRecognizer,
    base: u64,
    offset: u64,
    data: &'a [u8],
    r: Vec<AccessResolution<'a>>,
    bar: int,
    k: int,
)
    requires
        call_ensures(
            <VfioPcieMemoryRecognizer as MemoryRecognizer>::parse_bar_write,
            (recognizer, base, offset, data),
            r,
        ),
        recognizer@.valid(),
        base + offset <= u64::MAX,
        offset < u64::MAX,
        0 <= bar < 6,
        ({
            let regions = recognizer@.regions;
            &&& regions[bar].start <= base + offset < regions[bar].start + regions[bar].size
            &&& forall|j: int|
                0 <= j < bar ==> !((#[trigger] regions[j]).start <= base + offset < regions[j].start
                    + regions[j].size)
        }),
        ({
            let n = data@.len();
            let region = recognizer@.regions[bar];
            &&& n == 1 || (n == 2 && offset % 2 == 0) || (n == 4 && offset % 4 == 0) || (n == 8
                && offset % 8 == 0)
            &&& base + offset + n <= region.start + region.size
        }),
        0 <= k < r@.len(),
    ensures
        match r@[k].access_type {
            IovaAccessType::MsixTable { data_len, .. } => data_len == r@[k]@.bytes.len(),
            IovaAccessType::Pba { data_len, .. } => data_len == r@[k]@.bytes.len(),
            IovaAccessType::BarRegionCanForwardToVfio { data_len, .. } => data_len
                == r@[k]@.bytes.len(),
            IovaAccessType::MmioNeededDiscard => true,
            IovaAccessType::MmioNeededEmulationInMem => true,
            _ => false,
        },
{
    let pieces = recognizer@.resolve_bar_access(base, offset, true, data@);
    let end = access_end(offset, data@.len() as usize);
    let points = recognizer@.blocked.cut_points(bar as u8, offset, end);
    lemma_pieces(recognizer@, base, offset, true, data@, bar);
    assert(views(r@).len() == r@.len());
    assert(views(r@)[k] == r@[k]@);
    assert(pieces[k].bytes.len() == points[k + 1] - points[k]);
    assert(k == 0 || points[0] < points[k]);
    assert(k + 1 == points.len() - 1 || points[k + 1] < points[points.len() - 1]);
}

/// What a recognizer makes of a read from a BAR is what it makes of a write there.
pub proof fn recognised_bar_reads<'a, 'b>(
    recognizer: &VfioPcieMemoryRecognizer,
    base: u64,
    offset: u64,
    buffer: &'a mut [u8],
    read: Vec<AccessResolution<'a>>,
    data: &'b [u8],
    written: Vec<AccessResolution<'b>>,
)
    requires
        call_ensures(
            <VfioPcieMemoryRecognizer as MemoryRecognizer>::parse_bar_read,
            (recognizer, base, offset, buffer),
            read,
        ),
        call_ensures(
            <VfioPcieMemoryRecognizer as MemoryRecognizer>::parse_bar_write,
            (recognizer, base, offset, data),
            written,
        ),
        old(buffer)@ == data@,
    ensures
        read@.len() == written@.len(),
        forall|k: int|
            0 <= k < read@.len() ==> {
                &&& (#[trigger] read@[k]).access_type == written@[k].access_type
                &&& read@[k].data is Read
                &&& written@[k].data is Write
                &&& read@[k].data->Read_data@ == written@[k].data->Write_data@
            },
        final(buffer)@ == Seq::new(
            read@.len(),
            |k: int| final(read@[k].data->Read_data)@,
        ).flatten() + data@.skip(
            Seq::new(
                written@.len(),
                |k: int| written@[k].data->Write_data@,
            ).flatten().len() as int,
        ),
{
    let view = recognizer@;
    let bar_index = view.bar_at(base + offset);
    let reads = view.resolve_bar_access(base, offset, false, data@);
    let writes = view.resolve_bar_access(base, offset, true, data@);
    view.blocked.pieces_keep_their_direction(
        bar_index,
        view.bar_access(base, offset, false, data@),
    );
    view.blocked.pieces_keep_their_direction(bar_index, view.bar_access(base, offset, true, data@));
    assert(views(read@).len() == reads.len());
    assert(views(written@).len() == writes.len());
    assert(reads.len() == writes.len());
    assert forall|k: int| 0 <= k < read@.len() implies {
        &&& (#[trigger] read@[k]).access_type == written@[k].access_type
        &&& read@[k].data is Read
        &&& written@[k].data is Write
        &&& read@[k].data->Read_data@ == written@[k].data->Write_data@
    } by {
        assert(views(read@)[k] == read@[k]@);
        assert(views(written@)[k] == written@[k]@);
        assert(!reads[k].write && writes[k].write);
        assert(reads[k].access_type == writes[k].access_type && reads[k].bytes == writes[k].bytes);
    }
    lemma_behind(view, base, offset, data@);
    let parts = Seq::new(written@.len(), |k: int| written@[k].data->Write_data@);
    assert forall|k: int| 0 <= k < written@.len() implies parts[k] == writes[k].bytes by {
        assert(views(written@)[k] == written@[k]@);
        assert(read@[k].data is Read && written@[k].data is Write);
    }
    assert(parts =~= writes.map_values(|piece: AccessView| piece.bytes));
}

/// Of a list of accesses each is cut for itself: an access that names no bytes of a BAR stays as
/// it is, and one that does is cut as if it were alone.
pub proof fn accesses_are_cut_one_by_one<'a>(
    recognizer: &VfioPcieMemoryRecognizer,
    bar_index: u8,
    list: Vec<AccessResolution<'a>>,
    last: Vec<AccessResolution<'a>>,
    all: Vec<AccessResolution<'a>>,
    of_list: Vec<AccessResolution<'a>>,
    of_last: Vec<AccessResolution<'a>>,
    of_all: Vec<AccessResolution<'a>>,
)
    requires
        call_ensures(
            VfioPcieMemoryRecognizer::filter_bar_region_access,
            (recognizer, bar_index, list),
            of_list,
        ),
        call_ensures(
            VfioPcieMemoryRecognizer::filter_bar_region_access,
            (recognizer, bar_index, last),
            of_last,
        ),
        call_ensures(
            VfioPcieMemoryRecognizer::filter_bar_region_access,
            (recognizer, bar_index, all),
            of_all,
        ),
        last@.len() == 1,
        all@ == list@ + last@,
    ensures
        of_all@.len() == of_list@.len() + of_last@.len(),
        forall|k: int|
            0 <= k < of_list@.len() ==> (#[trigger] of_all@[k])@ == of_list@[k]@,
        forall|k: int|
            of_list@.len() <= k < of_all@.len() ==> (#[trigger] of_all@[k])@ == of_last@[k
                - of_list@.len()]@,
        ({
            let t = last@[0].access_type;
            ||| t is BarReg
            ||| t is MsixCtrl
            ||| t is EcamCanForwardToVfio
            ||| t is MmioNeededEmulationInMem
            ||| t is MmioNeededDiscard
            ||| t is InvalidAccess
            ||| t is MsixTable && t->MsixTable_data_len == 0
            ||| t is Pba && t->Pba_data_len == 0
            ||| t is BarRegionCanForwardToVfio && t->BarRegionCanForwardToVfio_data_len == 0
        }) ==> of_last@.len() == 1 && of_last@[0]@ == last@[0]@,
{
    let cut = |access: AccessView| recognizer@.blocked.pieces(bar_index, access);
    assert(views(all@) =~= views(list@).push(views(last@)[0]));
    views(list@).lemma_flat_map_push(cut, views(last@)[0]);
    views(last@).lemma_flat_map_singleton(cut);
    assert(views(of_all@) == views(of_list@) + views(of_last@));
    assert(views(of_all@).len() == of_all@.len());
    assert(views(of_list@).len() == of_list@.len());
    assert(views(of_last@).len() == of_last@.len());
    assert forall|k: int| 0 <= k < of_list@.len() implies (#[trigger] of_all@[k])@
        == of_list@[k]@ by {
        assert(views(of_all@)[k] == of_all@[k]@);
        assert(views(of_list@)[k] == of_list@[k]@);
    }
    assert forall|k: int| of_list@.len() <= k < of_all@.len() implies (#[trigger] of_all@[k])@
        == of_last@[k - of_list@.len()]@ by {
        assert(views(of_all@)[k] == of_all@[k]@);
        assert(views(of_last@)[k - of_list@.len()] == of_last@[k - of_list@.len()]@);
    }
    assert(views(last@)[0] == last@[0]@);
    if of_last@.len() == 1 {
        assert(views(of_last@)[0] == of_last@[0]@);
    }
}

/// The pieces of an access that names bytes of a BAR are those bytes, in order, and none is empty;
/// each is a read or a write as the access is. When the pieces of a read are filled the named bytes
/// are filled, and those behind them stay as they were. `named` is how many bytes are named; none
/// lies behind the last offset there is.
pub proof fn cut_accesses_hold_their_bytes<'a>(
    recognizer: &VfioPcieMemoryRecognizer,
    bar_index: u8,
    given: Vec<AccessResolution<'a>>,
    r: Vec<AccessResolution<'a>>,
    start: u64,
    len: u8,
    named: int,
)
    requires
        call_ensures(
            VfioPcieMemoryRecognizer::filter_bar_region_access,
            (recognizer, bar_index, given),
            r,
        ),
        given@.len() == 1,
        match given@[0].access_type {
            IovaAccessType::MsixTable { offset, data_len, .. } => offset == start && data_len
                == len,
            IovaAccessType::Pba { offset, data_len } => offset == start && data_len == len,
            IovaAccessType::BarRegionCanForwardToVfio { offset, data_len, .. } => offset == start
                && data_len == len,
            _ => false,
        },
        len > 0,
        start < u64::MAX,
        named == if start + len <= u64::MAX { len as int } else { u64::MAX - start },
        given@[0]@.bytes.len() >= named,
    ensures
        r@.len() >= 1,
        forall|k: int|
            0 <= k < r@.len() ==> (#[trigger] r@[k])@.bytes.len() > 0 && r@[k].data is Write == (
            given@[0].data is Write),
        Seq::new(r@.len(), |k: int| r@[k]@.bytes).flatten() == given@[0]@.bytes.take(named),
        given@[0].data is Read ==> final(given@[0].data->Read_data)@ == Seq::new(
            r@.len(),
            |k: int| final(r@[k].data->Read_data)@,
        ).flatten() + given@[0]@.bytes.skip(named),
{
    let blocked = recognizer@.blocked;
    let access = given@[0]@;
    let pieces = blocked.pieces(bar_index, access);
    lemma_cut(blocked, bar_index, access, start, len as usize);
    lemma_filtered_one(recognizer@, bar_index, given@, r@);
    blocked.pieces_hold_the_access(bar_index, access);
    blocked.pieces_keep_their_direction(bar_index, access);
    let parts = Seq::new(r@.len(), |k: int| r@[k]@.bytes);
    assert(parts =~= pieces.map_values(|piece: AccessView| piece.bytes));
    assert forall|k: int| 0 <= k < r@.len() implies (#[trigger] r@[k])@.bytes.len() > 0
        && r@[k].data is Write == (given@[0].data is Write) by {
        assert(r@[k]@ == pieces[k]);
    }
    if given@[0].data is Read {
        let filled = Seq::new(r@.len(), |k: int| final(r@[k].data->Read_data)@);
        let again = Seq::new(pieces.len(), |k: int| final(r@[0 + k].data->Read_data)@);
        assert(filled =~= again);
        assert(views(given@).take(0) =~= Seq::empty());
        assert(blocked.first_piece(bar_index, views(given@), 0) == 0) by {
            let cut = |access: AccessView| blocked.pieces(bar_index, access);
            assert(views(given@).take(0).flat_map(cut) =~= Seq::empty());
        }
    }
}

/// A piece of an access that names bytes of a BAR is to be dropped, to be emulated, or what the
/// whole is, with an offset and length of its own; it is cut where a stretch kept from the device
/// begins or ends, and nowhere else. `p` is where piece `k` begins, `x` the place of a byte in it.
pub proof fn cut_accesses_go_where_they_should<'a>(
    recognizer: &VfioPcieMemoryRecognizer,
    bar_index: u8,
    given: Vec<AccessResolution<'a>>,
    r: Vec<AccessResolution<'a>>,
    start: u64,
    len: u8,
    k: int,
    p: int,
    x: int,
)
    requires
        call_ensures(
            VfioPcieMemoryRecognizer::filter_bar_region_access,
            (recognizer, bar_index, given),
            r,
        ),
        given@.len() == 1,
        match given@[0].access_type {
            IovaAccessType::MsixTable { offset, data_len, .. } => offset == start && data_len
                == len,
            IovaAccessType::Pba { offset, data_len } => offset == start && data_len == len,
            IovaAccessType::BarRegionCanForwardToVfio { offset, data_len, .. } => offset == start
                && data_len == len,
            _ => false,
        },
        len > 0,
        start < u64::MAX,
        given@[0]@.bytes.len() >= if start + len <= u64::MAX { len as int } else {
            u64::MAX - start
        },
        0 <= k < r@.len(),
        p == start + Seq::new(k as nat, |j: int| r@[j]@.bytes).flatten().len(),
        p <= x < p + r@[k]@.bytes.len(),
    ensures
        ({
            let discard = recognizer@.blocked.discard;
            let emulate = recognizer@.blocked.emulate;
            let dropped = exists|i: int|
                0 <= i < discard.len() && (#[trigger] discard[i]).bar_index == bar_index
                    && discard[i].offset <= x < discard[i].offset + discard[i].len;
            let emulated = exists|i: int|
                0 <= i < emulate.len() && (#[trigger] emulate[i]).bar_index == bar_index
                    && emulate[i].offset <= x < emulate[i].offset + emulate[i].len;
            let n = r@[k]@.bytes.len();
            &&& dropped ==> r@[k].access_type == IovaAccessType::MmioNeededDiscard
            &&& !dropped && emulated ==> r@[k].access_type
                == IovaAccessType::MmioNeededEmulationInMem
            &&& !dropped && !emulated ==> match given@[0].access_type {
                IovaAccessType::MsixTable { index, .. } => {
                    r@[k].access_type matches IovaAccessType::MsixTable {
                        index: same,
                        offset,
                        data_len,
                    } && same == index && offset == p && data_len == n
                },
                IovaAccessType::Pba { .. } => {
                    r@[k].access_type matches IovaAccessType::Pba { offset, data_len } && offset
                        == p && data_len == n
                },
                IovaAccessType::BarRegionCanForwardToVfio { index, .. } => {
                    r@[k].access_type matches IovaAccessType::BarRegionCanForwardToVfio {
                        index: same,
                        offset,
                        data_len,
                    } && same == index && offset == p && data_len == n
                },
                _ => false,
            }
        }),
        ({
            let all = recognizer@.blocked.discard + recognizer@.blocked.emulate;
            &&& forall|i: int|
                0 <= i < all.len() && (#[trigger] all[i]).bar_index == bar_index ==> {
                    &&& !(p < all[i].offset < p + r@[k]@.bytes.len())
                    &&& !(p < all[i].offset + all[i].len < p + r@[k]@.bytes.len())
                }
            &&& k > 0 ==> exists|i: int|
                0 <= i < all.len() && (#[trigger] all[i]).bar_index == bar_index && (all[i].offset
                    == p || all[i].offset + all[i].len == p)
        }),
{
    let blocked = recognizer@.blocked;
    let access = given@[0]@;
    let end = access_end(start, len as usize);
    let pieces = blocked.pieces(bar_index, access);
    let points = blocked.cut_points(bar_index, start, end);
    lemma_cut(blocked, bar_index, access, start, len as usize);
    lemma_filtered_one(recognizer@, bar_index, given@, r@);
    let parts = Seq::new(r@.len(), |j: int| r@[j]@.bytes);
    assert forall|j: int| 0 <= j < parts.len() implies (#[trigger] parts[j]).len() == points[j + 1]
        - points[j] by {
        assert(r@[j]@ == pieces[j]);
    }
    assert(r@[k]@ == pieces[k]);
    assert(parts[k].len() == points[k + 1] - points[k]);
    assert(points[k] < points[k + 1]);
    lemma_parts_in_place(points, parts, k, k, points[k] as int);
    assert(parts.take(k) =~= Seq::new(k as nat, |j: int| r@[j]@.bytes));
    assert(p == points[k]);
    assert(points[k + 1] - points[k] < 256) by {
        assert(k == 0 || points[0] < points[k]);
        assert(k + 1 == points.len() - 1 || points[k + 1] < points[points.len() - 1]);
    }
    blocked.pieces_are_uniform(bar_index, start, end, k, x);
    blocked.cut_points_exist(bar_index, start, end);
    lemma_kind(blocked, bar_index, x);
    lemma_edges(blocked, bar_index, start, end, points, k);
}

proof fn lemma_filtered_one(
    view: RecognizerView,
    bar_index: u8,
    given: Seq<AccessResolution<'_>>,
    r: Seq<AccessResolution<'_>>,
)
    requires
        given.len() == 1,
        views(r) == view.blocked.filtered(bar_index, views(given)),
    ensures
        r.len() == view.blocked.pieces(bar_index, given[0]@).len(),
        forall|k: int|
            0 <= k < r.len() ==> (#[trigger] r[k])@ == view.blocked.pieces(
                bar_index,
                given[0]@,
            )[k],
{
    let cut = |access: AccessView| view.blocked.pieces(bar_index, access);
    views(given).lemma_flat_map_singleton(cut);
    assert(views(given)[0] == given[0]@);
    assert(views(r).len() == r.len());
    assert forall|k: int| 0 <= k < r.len() implies (#[trigger] r[k])@ == view.blocked.pieces(
        bar_index,
        given[0]@,
    )[k] by {
        assert(views(r)[k] == r[k]@);
    }
}

/// The pieces of an access, by the points it is cut at.
proof fn lemma_cut(blocked: Blocked, bar: u8, access: AccessView, start: u64, len: usize)
    requires
        span_of(access.access_type) == Some((start, len)),
        len > 0,
        start < u64::MAX,
        access_end(start, len) - start <= access.bytes.len(),
    ensures
        ({
            let end = access_end(start, len);
            let points = blocked.cut_points(bar, start, end);
            let pieces = blocked.pieces(bar, access);
            &&& points.len() >= 2
            &&& points.len() == pieces.len() + 1
            &&& points.first() == start
            &&& points.last() == end
            &&& increasing(points)
            &&& forall|k: int|
                0 <= k < pieces.len() ==> (#[trigger] pieces[k]) == blocked.segment(
                    bar,
                    access,
                    start,
                    points[k],
                    points[k + 1],
                ) && pieces[k].bytes.len() == points[k + 1] - points[k] && pieces[k].bytes.len()
                    > 0
        }),
{
    let end = access_end(start, len);
    let points = blocked.cut_points(bar, start, end);
    let pieces = blocked.pieces(bar, access);
    blocked.cut_points_exist(bar, start, end);
    blocked.cut_points_span_the_range(bar, start, end);
    assert forall|k: int| 0 <= k < pieces.len() implies (#[trigger] pieces[k])
        == blocked.segment(bar, access, start, points[k], points[k + 1])
        && pieces[k].bytes.len() == points[k + 1] - points[k] && pieces[k].bytes.len() > 0 by {
        assert(points[k] < points[k + 1]);
        assert(k == 0 || points[0] < points[k]);
        assert(k + 1 == points.len() - 1 || points[k + 1] < points[points.len() - 1]);
    }
}

/// A BAR that is found holds the address, and no BAR of a lower number does; where none is found
/// none holds it.
pub proof fn found_regions(recognizer: &VfioPcieMemoryRecognizer, addr: u64, r: Option<VfioRegion>)
    requires
        call_ensures(
            <VfioPcieMemoryRecognizer as MemoryRecognizer>::find_region,
            (recognizer, addr),
            r,
        ),
        recognizer@.valid(),
    ensures
        r is None ==> forall|j: int|
            0 <= j < 6 ==> !((#[trigger] recognizer@.regions[j]).start <= addr
                < recognizer@.regions[j].start + recognizer@.regions[j].size),
        r matches Some(region) ==> {
            &&& region.index < 6
            &&& region@ == recognizer@.regions[region.index as int]
            &&& region.start <= addr < region.start + region.size
            &&& forall|j: int|
                0 <= j < region.index ==> !((#[trigger] recognizer@.regions[j]).start <= addr
                    < recognizer@.regions[j].start + recognizer@.regions[j].size)
        },
{
    lemma_region_at(recognizer@.regions, addr as int);
}

/// A device finds the BARs that its guest reaches: the one of the lowest number that holds the
/// address.
pub proof fn device_finds_regions(device: &VfioCommon, addr: u64, r: Option<VfioRegion>)
    requires
        call_ensures(VfioCommon::find_region, (device, addr), r),
        device.valid(),
    ensures
        r is None ==> forall|j: int|
            0 <= j < 6 ==> !((#[trigger] device.recognizer().regions[j]).start <= addr
                < device.recognizer().regions[j].start + device.recognizer().regions[j].size),
        r matches Some(region) ==> {
            &&& region.index < 6
            &&& region@ == device.recognizer().regions[region.index as int]
            &&& region.start <= addr < region.start + region.size
            &&& forall|j: int|
                0 <= j < region.index ==> !((#[trigger] device.recognizer().regions[j]).start
                    <= addr < device.recognizer().regions[j].start
                    + device.recognizer().regions[j].size)
        },
{
    lemma_region_at(device.recognizer().regions, addr as int);
}

/// Through the bus the same BAR is found as by the device itself.
pub proof fn bus_finds_regions(
    bus: &VfioPciDevice,
    device: &VfioCommon,
    addr: u64,
    r: Option<VfioRegion>,
    inner: Option<VfioRegion>,
)
    requires
        call_ensures(VfioPciDevice::find_region, (bus, addr), r),
        call_ensures(VfioCommon::find_region, (device, addr), inner),
        *device == bus.common(),
    ensures
        r is Some <==> inner is Some,
        r matches Some(region) ==> region@ == inner->Some_0@,
{
}

proof fn lemma_region_at(regions: Seq<RegionView>, addr: int)
    ensures
        region_at(regions, addr) is None ==> forall|j: int|
            0 <= j < regions.len() ==> !((#[trigger] regions[j]).start <= addr < regions[j].start
                + regions[j].size),
        region_at(regions, addr) is Some ==> exists|i: int|
            0 <= i < regions.len() && region_at(regions, addr) == Some(#[trigger] regions[i])
                && regions[i].start <= addr < regions[i].start + regions[i].size && forall|j: int|
                0 <= j < i ==> !((#[trigger] regions[j]).start <= addr < regions[j].start
                    + regions[j].size),
    decreases regions.len(),
{
    if regions.len() > 0 {
        let init = regions.drop_last();
        lemma_region_at(init, addr);
        if region_at(init, addr) is Some {
            let i = choose|i: int|
                0 <= i < init.len() && region_at(init, addr) == Some(#[trigger] init[i])
                    && init[i].start <= addr < init[i].start + init[i].size && forall|j: int|
                    0 <= j < i ==> !((#[trigger] init[j]).start <= addr < init[j].start
                        + init[j].size);
            assert(regions[i] == init[i]);
            assert forall|j: int| 0 <= j < i implies !((#[trigger] regions[j]).start <= addr
                < regions[j].start + regions[j].size) by {
                assert(init[j] == regions[j]);
            }
        } else {
            assert forall|j: int| 0 <= j < regions.len() - 1 implies !((
            #[trigger] regions[j]).start <= addr < regions[j].start + regions[j].size) by {
                assert(init[j] == regions[j]);
            }
            if regions.last().holds(addr) {
                assert(regions[regions.len() - 1] == regions.last());
            }
        }
    }
}

/// When a guest has moved a BAR, exactly the first BAR that has bytes and begins at the old base
/// stands at the new one; its number, size and all else of every BAR, and what is kept from the
/// device, stay. `bar` is that BAR.
pub proof fn moved_bars(
    device: &mut VfioCommon,
    old_base: u64,
    new_base: u64,
    r: Result<(), DeviceRelocationError>,
    bar: int,
)
    requires
        call_ensures(VfioCommon::move_bar, (device, old_base, new_base), r),
        old(device).valid(),
        0 <= bar < 6,
        old(device).recognizer().regions[bar].start == old_base,
        old(device).recognizer().regions[bar].size > 0,
        forall|j: int|
            0 <= j < bar ==> (#[trigger] old(device).recognizer().regions[j]).start != old_base
                || old(device).recognizer().regions[j].size == 0,
    ensures
        r is Ok,
        final(device).valid(),
        ({
            let before = old(device).recognizer();
            let after = final(device).recognizer();
            &&& after.regions.len() == 6
            &&& after.regions[bar].start == new_base
            &&& after.regions[bar].index == bar
            &&& after.regions[bar].size == before.regions[bar].size
            &&& after.regions[bar].flags == before.regions[bar].flags
            &&& after.regions[bar].offset == before.regions[bar].offset
            &&& after.regions[bar].caps == before.regions[bar].caps
            &&& forall|j: int|
                0 <= j < 6 && j != bar ==> #[trigger] after.regions[j] == before.regions[j]
            &&& after.table == before.table
            &&& after.pba == before.pba
            &&& after.control_start == before.control_start
            &&& after.control_end == before.control_end
            &&& after.blocked == before.blocked
        }),
        final(device).id() == old(device).id(),
        final(device).subclass() == old(device).subclass(),
        final(device).configuration() == old(device).configuration(),
{
    the_bar_that_begins_there_is_found(old(device).recognizer().regions, old_base, bar);
    assert(old(device).recognizer().regions[bar].index == bar);
}

/// The BAR that is found by its base is the first that has bytes and begins there; where none is
/// found none begins.
pub proof fn bars_found_by_base(recognizer: &VfioPcieMemoryRecognizer, base: u64, r: Option<u8>)
    requires
        call_ensures(VfioPcieMemoryRecognizer::bar_from, (recognizer, base), r),
        recognizer@.valid(),
    ensures
        r is None ==> forall|j: int|
            0 <= j < 6 ==> (#[trigger] recognizer@.regions[j]).start != base
                || recognizer@.regions[j].size == 0,
        r matches Some(bar) ==> {
            &&& bar < 6
            &&& recognizer@.regions[bar as int].start == base
            &&& recognizer@.regions[bar as int].size > 0
            &&& forall|j: int|
                0 <= j < bar ==> (#[trigger] recognizer@.regions[j]).start != base
                    || recognizer@.regions[j].size == 0
        },
{
    lemma_region_from(recognizer@.regions, base);
}

proof fn lemma_region_from(regions: Seq<RegionView>, base: u64)
    ensures
        region_from(regions, base) is None ==> forall|j: int|
            0 <= j < regions.len() ==> (#[trigger] regions[j]).start != base || regions[j].size
                == 0,
        region_from(regions, base) is Some ==> exists|i: int|
            0 <= i < regions.len() && region_from(regions, base) == Some(#[trigger] regions[i])
                && regions[i].start == base && regions[i].size > 0 && forall|j: int|
                0 <= j < i ==> (#[trigger] regions[j]).start != base || regions[j].size == 0,
    decreases regions.len(),
{
    if regions.len() > 0 {
        let init = regions.drop_last();
        lemma_region_from(init, base);
        if region_from(init, base) is Some {
            let i = choose|i: int|
                0 <= i < init.len() && region_from(init, base) == Some(#[trigger] init[i])
                    && init[i].start == base && init[i].size > 0 && forall|j: int|
                    0 <= j < i ==> (#[trigger] init[j]).start != base || init[j].size == 0;
            assert(regions[i] == init[i]);
            assert forall|j: int| 0 <= j < i implies (#[trigger] regions[j]).start != base
                || regions[j].size == 0 by {
                assert(init[j] == regions[j]);
            }
        } else {
            assert forall|j: int| 0 <= j < regions.len() - 1 implies (#[trigger] regions[j]).start
                != base || regions[j].size == 0 by {
                assert(init[j] == regions[j]);
            }
            if regions.last().begins_at(base) {
                assert(regions[regions.len() - 1] == regions.last());
            }
        }
    }
}

/// A move from where no BAR begins changes nothing.
pub proof fn moves_from_nowhere(
    device: &mut VfioCommon,
    old_base: u64,
    new_base: u64,
    r: Result<(), DeviceRelocationError>,
)
    requires
        call_ensures(VfioCommon::move_bar, (device, old_base, new_base), r),
        old(device).valid(),
        forall|j: int|
            0 <= j < 6 ==> (#[trigger] old(device).recognizer().regions[j]).start != old_base
                || old(device).recognizer().regions[j].size == 0,
    ensures
        r is Ok,
        final(device).recognizer() == old(device).recognizer(),
        final(device).id() == old(device).id(),
        final(device).subclass() == old(device).subclass(),
        final(device).configuration() == old(device).configuration(),
{
    nothing_begins_where_no_bar_does(old(device).recognizer().regions, old_base);
}

/// A BAR that is reported as moved stands at its new place, and nothing else changes; a number
/// that no BAR has is passed over.
pub proof fn reprogrammed_bars(
    recognizer: &mut VfioPcieMemoryRecognizer,
    bar_idx: u8,
    old_gpa: u64,
    new_gpa: u64,
)
    requires
        call_ensures(
            <VfioPcieMemoryRecognizer as MemoryRecognizer>::on_bar_reprogrammed,
            (recognizer, bar_idx, old_gpa, new_gpa),
            (),
        ),
        old(recognizer)@.valid(),
    ensures
        bar_idx >= 6 ==> final(recognizer)@ == old(recognizer)@,
        bar_idx < 6 ==> {
            let before = old(recognizer)@;
            let after = final(recognizer)@;
            &&& after.regions.len() == 6
            &&& after.regions[bar_idx as int].start == new_gpa
            &&& after.regions[bar_idx as int].index == bar_idx
            &&& after.regions[bar_idx as int].size == before.regions[bar_idx as int].size
            &&& after.regions[bar_idx as int].flags == before.regions[bar_idx as int].flags
            &&& after.regions[bar_idx as int].offset == before.regions[bar_idx as int].offset
            &&& after.regions[bar_idx as int].caps == before.regions[bar_idx as int].caps
            &&& forall|j: int|
                0 <= j < 6 && j != bar_idx ==> #[trigger] after.regions[j] == before.regions[j]
            &&& after.table == before.table
            &&& after.pba == before.pba
            &&& after.control_start == before.control_start
            &&& after.control_end == before.control_end
            &&& after.blocked == before.blocked
        },
{
    assert(bar_idx < 6 ==> old(recognizer)@.regions[bar_idx as int].index == bar_idx);
}

/// What may be passed through covers exactly the bytes of the BARs that are neither to be dropped
/// nor to be emulated. `x` is a place in the BAR of number `bar`.
pub proof fn passed_through_bytes(
    device: &VfioCommon,
    r: Vec<BarLocation>,
    bar: int,
    x: int,
)
    requires
        call_ensures(VfioCommon::get_region_can_passthrough, (device,), r),
        device.valid(),
        0 <= bar < 6,
        0 <= x,
    ensures
        ({
            let view = device.recognizer();
            let listed = exists|i: int|
                0 <= i < r@.len() && (#[trigger] r@[i]).bar_index == bar && r@[i].offset <= x
                    < r@[i].offset + r@[i].len;
            let dropped = exists|i: int|
                0 <= i < view.blocked.discard.len() && (
                #[trigger] view.blocked.discard[i]).bar_index == bar
                    && view.blocked.discard[i].offset <= x < view.blocked.discard[i].offset
                    + view.blocked.discard[i].len;
            let emulated = exists|i: int|
                0 <= i < view.blocked.emulate.len() && (
                #[trigger] view.blocked.emulate[i]).bar_index == bar
                    && view.blocked.emulate[i].offset <= x < view.blocked.emulate[i].offset
                    + view.blocked.emulate[i].len;
            listed <==> x < view.regions[bar].size && !dropped && !emulated
        }),
{
    let view = device.recognizer();
    passthrough_is_what_is_not_blocked(view, bar as u8, x);
    if x < u64::MAX {
        lemma_kind(view.blocked, bar as u8, x);
        lemma_covered(r@, bar as u8, x);
    } else {
        passthrough_is_in_order(view);
        assert forall|i: int| 0 <= i < r@.len() implies (#[trigger] r@[i]).offset + r@[i].len
            <= u64::MAX by {
            assert(r@[i] == view.passthrough()[i]);
        }
    }
}

/// What may be passed through is listed by BAR and by offset; no stretch is empty, none runs past
/// its BAR, and those of one BAR do not overlap. A recognizer that knows the same lists the same.
pub proof fn passed_through_stretches(
    device: &VfioCommon,
    recognizer: &VfioPcieMemoryRecognizer,
    r: Vec<BarLocation>,
    same: Vec<BarLocation>,
)
    requires
        call_ensures(VfioCommon::get_region_can_passthrough, (device,), r),
        call_ensures(
            <VfioPcieMemoryRecognizer as MemoryRecognizer>::get_region_can_passthrough,
            (recognizer,),
            same,
        ),
        device.valid(),
        recognizer@ == device.recognizer(),
    ensures
        same@ == r@,
        forall|i: int|
            0 <= i < r@.len() ==> {
                &&& (#[trigger] r@[i]).bar_index < 6
                &&& r@[i].len > 0
                &&& r@[i].offset + r@[i].len
                    <= device.recognizer().regions[r@[i].bar_index as int].size
            },
        forall|i: int, j: int|
            0 <= i < j < r@.len() ==> {
                let a = #[trigger] r@[i];
                let b = #[trigger] r@[j];
                a.bar_index < b.bar_index || (a.bar_index == b.bar_index && a.offset + a.len
                    <= b.offset)
            },
{
    let view = device.recognizer();
    passthrough_is_in_order(view);
    let list = view.passthrough();
    assert forall|i: int| 0 <= i < r@.len() implies {
        &&& (#[trigger] r@[i]).bar_index < 6
        &&& r@[i].len > 0
        &&& r@[i].offset + r@[i].len <= view.regions[r@[i].bar_index as int].size
    } by {
        assert(r@[i] == list[i]);
    }
    assert forall|i: int, j: int| 0 <= i < j < r@.len() implies {
        let a = #[trigger] r@[i];
        let b = #[trigger] r@[j];
        a.bar_index < b.bar_index || (a.bar_index == b.bar_index && a.offset + a.len <= b.offset)
    } by {
        assert(not_after(list[i], list[j]));
        assert(r@[i].offset + r@[i].len <= u64::MAX);
        if list[i].bar_index == list[j].bar_index {
            assert(list[i].spec_end() <= list[j].offset);
        }
    }
}

/// A stretch that may be passed through is as long as it can be: it begins at the start of its BAR
/// or at an edge of a stretch kept from the device, ends at the end of the BAR or at such an edge,
/// and no such edge lies inside it.
pub proof fn passed_through_stretches_end_at_edges(
    device: &VfioCommon,
    r: Vec<BarLocation>,
    i: int,
)
    requires
        call_ensures(VfioCommon::get_region_can_passthrough, (device,), r),
        device.valid(),
        0 <= i < r@.len(),
    ensures
        ({
            let view = device.recognizer();
            let all = view.blocked.discard + view.blocked.emulate;
            let bar = r@[i].bar_index;
            let from = r@[i].offset;
            let to = r@[i].offset + r@[i].len;
            &&& from == 0 || exists|j: int|
                0 <= j < all.len() && (#[trigger] all[j]).bar_index == bar && (all[j].offset == from
                    || all[j].offset + all[j].len == from)
            &&& to == view.regions[bar as int].size || exists|j: int|
                0 <= j < all.len() && (#[trigger] all[j]).bar_index == bar && (all[j].offset == to
                    || all[j].offset + all[j].len == to)
            &&& forall|j: int|
                0 <= j < all.len() && (#[trigger] all[j]).bar_index == bar ==> !(from
                    < all[j].offset < to) && !(from < all[j].offset + all[j].len < to)
        }),
{
    let view = device.recognizer();
    assert(view.regions.take(6) =~= view.regions);
    let k = lemma_listed(view, 6, i);
    let bar = r@[i].bar_index;
    let size = view.regions[bar as int].size;
    let points = view.blocked.cut_points(bar, 0, size);
    view.blocked.cut_points_exist(bar, 0, size);
    view.blocked.cut_points_span_the_range(bar, 0, size);
    assert(points[k] < points[k + 1]);
    lemma_edges(view.blocked, bar, 0, size, points, k);
    if k + 1 < points.len() - 1 {
        lemma_edges(view.blocked, bar, 0, size, points, k + 1);
    }
}

proof fn lemma_listed(view: RecognizerView, n: int, i: int) -> (k: int)
    requires
        view.valid(),
        0 <= n <= 6,
        ({
            let listed = view.regions.take(n).flat_map(
                |region: RegionView|
                    view.blocked.open_stretches(region.index as u8, 0, region.size),
            );
            0 <= i < listed.len()
        }),
    ensures
        ({
            let location = view.regions.take(n).flat_map(
                |region: RegionView|
                    view.blocked.open_stretches(region.index as u8, 0, region.size),
            )[i];
            let stretches = view.blocked.stretches(
                location.bar_index,
                0,
                view.regions[location.bar_index as int].size,
            );
            &&& location.bar_index < n
            &&& 0 <= k < stretches.len()
            &&& stretches[k] == location
        }),
    decreases n,
{
    let open = |region: RegionView|
        view.blocked.open_stretches(region.index as u8, 0, region.size);
    if n == 0 {
        assert(view.regions.take(0).flat_map(open) =~= Seq::empty());
        0
    } else {
        let less = view.regions.take(n - 1).flat_map(open);
        view.regions.lemma_flat_map_take_append(open, n - 1);
        if i < less.len() {
            lemma_listed(view, n - 1, i)
        } else {
            let region = view.regions[n - 1];
            let bar = (n - 1) as u8;
            let all = view.blocked.stretches(bar, 0, region.size);
            let free = |piece: BarLocation|
                view.blocked.kind_at(bar, piece.offset as int) is None;
            let location = all.filter(free)[i - less.len()];
            assert(region.index == n - 1);
            all.lemma_filter_contains_rev(free, location);
            choose|k: int| 0 <= k < all.len() && all[k] == location
        }
    }
}

/// What is added to the stretches to be dropped is just one stretch: every other stays, in order.
pub proof fn added_discards(device: &mut VfioCommon, region: BarLocation) -> (at: int)
    requires
        call_ensures(VfioCommon::add_region_need_discard, (device, region), ()),
        old(device).valid(),
    ensures
        final(device).valid(),
        0 <= at <= old(device).recognizer().blocked.discard.len(),
        final(device).recognizer().blocked.discard
            == old(device).recognizer().blocked.discard.insert(at, region),
        forall|i: int|
            0 <= i < at ==> {
                let a = #[trigger] old(device).recognizer().blocked.discard[i];
                a.bar_index < region.bar_index || (a.bar_index == region.bar_index && a.offset
                    <= region.offset)
            },
        forall|i: int|
            at <= i < old(device).recognizer().blocked.discard.len() ==> {
                let a = #[trigger] old(device).recognizer().blocked.discard[i];
                a.bar_index > region.bar_index || (a.bar_index == region.bar_index && a.offset
                    > region.offset)
            },
        final(device).recognizer().blocked.emulate == old(device).recognizer().blocked.emulate,
        final(device).recognizer().regions == old(device).recognizer().regions,
        final(device).recognizer().table == old(device).recognizer().table,
        final(device).recognizer().pba == old(device).recognizer().pba,
        final(device).recognizer().control_start == old(device).recognizer().control_start,
        final(device).recognizer().control_end == old(device).recognizer().control_end,
        final(device).id() == old(device).id(),
        final(device).subclass() == old(device).subclass(),
        final(device).configuration() == old(device).configuration(),
{
    let list = old(device).recognizer().blocked.discard;
    lemma_place(list, region);
    insertion_point(list, region)
}

/// What is added to the stretches to be emulated is just one stretch: every other stays, in order.
pub proof fn added_emulations(device: &mut VfioCommon, region: BarLocation) -> (at: int)
    requires
        call_ensures(VfioCommon::add_region_need_emulation_in_mem, (device, region), ()),
        old(device).valid(),
    ensures
        final(device).valid(),
        0 <= at <= old(device).recognizer().blocked.emulate.len(),
        final(device).recognizer().blocked.emulate
            == old(device).recognizer().blocked.emulate.insert(at, region),
        forall|i: int|
            0 <= i < at ==> {
                let a = #[trigger] old(device).recognizer().blocked.emulate[i];
                a.bar_index < region.bar_index || (a.bar_index == region.bar_index && a.offset
                    <= region.offset)
            },
        forall|i: int|
            at <= i < old(device).recognizer().blocked.emulate.len() ==> {
                let a = #[trigger] old(device).recognizer().blocked.emulate[i];
                a.bar_index > region.bar_index || (a.bar_index == region.bar_index && a.offset
                    > region.offset)
            },
        final(device).recognizer().blocked.discard == old(device).recognizer().blocked.discard,
        final(device).recognizer().regions == old(device).recognizer().regions,
        final(device).recognizer().table == old(device).recognizer().table,
        final(device).recognizer().pba == old(device).recognizer().pba,
        final(device).recognizer().control_start == old(device).recognizer().control_start,
        final(device).recognizer().control_end == old(device).recognizer().control_end,
        final(device).id() == old(device).id(),
        final(device).subclass() == old(device).subclass(),
        final(device).configuration() == old(device).configuration(),
{
    let list = old(device).recognizer().blocked.emulate;
    lemma_place(list, region);
    insertion_point(list, region)
}

/// A recognizer takes a stretch to be dropped or emulated as a device that knows the same does.
pub proof fn recognizers_are_added_to_as_devices_are(
    recognizer: &mut VfioPcieMemoryRecognizer,
    other_recognizer: &mut VfioPcieMemoryRecognizer,
    device: &mut VfioCommon,
    other_device: &mut VfioCommon,
    region: BarLocation,
)
    requires
        call_ensures(
            VfioPcieMemoryRecognizer::add_region_need_discard,
            (recognizer, region),
            (),
        ),
        call_ensures(
            VfioPcieMemoryRecognizer::add_region_need_emulation_in_mem,
            (other_recognizer, region),
            (),
        ),
        call_ensures(VfioCommon::add_region_need_discard, (device, region), ()),
        call_ensures(VfioCommon::add_region_need_emulation_in_mem, (other_device, region), ()),
        old(recognizer)@ == old(device).recognizer(),
        old(other_recognizer)@ == old(other_device).recognizer(),
    ensures
        final(recognizer)@ == final(device).recognizer(),
        final(other_recognizer)@ == final(other_device).recognizer(),
{
}

proof fn lemma_place(list: Seq<BarLocation>, region: BarLocation)
    requires
        in_order(list),
    ensures
        0 <= insertion_point(list, region) <= list.len(),
        forall|i: int|
            0 <= i < insertion_point(list, region) ==> {
                let a = #[trigger] list[i];
                a.bar_index < region.bar_index || (a.bar_index == region.bar_index && a.offset
                    <= region.offset)
            },
        forall|i: int|
            insertion_point(list, region) <= i < list.len() ==> {
                let a = #[trigger] list[i];
                a.bar_index > region.bar_index || (a.bar_index == region.bar_index && a.offset
                    > region.offset)
            },
{
    insertion_point_is_in_the_list(list, region);
    let at = insertion_point(list, region);
    assert forall|i: int| 0 <= i < at implies {
        let a = #[trigger] list[i];
        a.bar_index < region.bar_index || (a.bar_index == region.bar_index && a.offset
            <= region.offset)
    } by {
        assert(not_after(list[at - 1], region));
        assert(i == at - 1 || not_after(list[i], list[at - 1]));
    }
}

/// A byte is kept from the device for what the stretches over it say; to be dropped comes first.
/// No stretch reaches the last offset there is.
pub proof fn kinds_of_bytes(
    recognizer: &VfioPcieMemoryRecognizer,
    bar_index: u8,
    offset: u64,
    r: Option<IovaAccessType>,
)
    requires
        call_ensures(VfioPcieMemoryRecognizer::region_kind_at, (recognizer, bar_index, offset), r),
    ensures
        offset < u64::MAX ==> {
            let discard = recognizer@.blocked.discard;
            let emulate = recognizer@.blocked.emulate;
            let dropped = exists|i: int|
                0 <= i < discard.len() && (#[trigger] discard[i]).bar_index == bar_index
                    && discard[i].offset <= offset < discard[i].offset + discard[i].len;
            let emulated = exists|i: int|
                0 <= i < emulate.len() && (#[trigger] emulate[i]).bar_index == bar_index
                    && emulate[i].offset <= offset < emulate[i].offset + emulate[i].len;
            &&& dropped ==> r == Some(IovaAccessType::MmioNeededDiscard)
            &&& !dropped && emulated ==> r == Some(IovaAccessType::MmioNeededEmulationInMem)
            &&& !dropped && !emulated ==> r is None
        },
        offset == u64::MAX ==> r is None,
{
    if offset < u64::MAX {
        lemma_kind(recognizer@.blocked, bar_index, offset as int);
    }
}

/// A range of a BAR is cut at its ends and, within it, where a stretch kept from the device begins
/// or ends; nowhere else. Each place is given once, in increasing order.
pub proof fn cut_places(
    recognizer: &VfioPcieMemoryRecognizer,
    bar_index: u8,
    start: u64,
    end: u64,
    r: Vec<u64>,
    x: u64,
)
    requires
        call_ensures(
            VfioPcieMemoryRecognizer::split_points_for_bar,
            (recognizer, bar_index, start, end),
            r,
        ),
        start < end,
    ensures
        forall|i: int, j: int| 0 <= i < j < r@.len() ==> #[trigger] r@[i] < #[trigger] r@[j],
        r@.len() >= 2,
        r@.first() == start,
        r@.last() == end,
        start < x < end ==> (r@.contains(x) <==> {
            let all = recognizer@.blocked.discard + recognizer@.blocked.emulate;
            exists|i: int|
                0 <= i < all.len() && (#[trigger] all[i]).bar_index == bar_index && (all[i].offset
                    == x || all[i].offset + all[i].len == x)
        }),
{
    let blocked = recognizer@.blocked;
    blocked.cut_points_span_the_range(bar_index, start, end);
    let all = blocked.discard + blocked.emulate;
    if start < x < end {
        if exists|i: int|
            0 <= i < all.len() && (#[trigger] all[i]).bar_index == bar_index && (all[i].offset == x
                || all[i].offset + all[i].len == x) {
            let i = choose|i: int|
                0 <= i < all.len() && (#[trigger] all[i]).bar_index == bar_index && (all[i].offset
                    == x || all[i].offset + all[i].len == x);
            let list = if i < blocked.discard.len() { blocked.discard } else { blocked.emulate };
            let at = if i < blocked.discard.len() { i } else { i - blocked.discard.len() };
            assert(list[at] == all[i]);
            assert(meets(list[at], start, end));
            assert(is_edge(list[at], start, end, x));
            assert(has_edge(list, bar_index, start, end, x));
            assert(r@.contains(x));
        }
        if r@.contains(x) {
            let k = choose|k: int| 0 <= k < r@.len() && r@[k] == x;
            lemma_edges(blocked, bar_index, start, end, r@, k);
        }
    }
}

/// A range without bytes is cut at its ends only.
pub proof fn cut_places_without_bytes(
    recognizer: &VfioPcieMemoryRecognizer,
    bar_index: u8,
    start: u64,
    end: u64,
    r: Vec<u64>,
)
    requires
        call_ensures(
            VfioPcieMemoryRecognizer::split_points_for_bar,
            (recognizer, bar_index, start, end),
            r,
        ),
        end <= start,
    ensures
        start == end ==> r@ == seq![start],
        end < start ==> r@ == seq![end, start],
{
    let ends = if start == end { seq![start] } else { seq![end, start] };
    assert forall|x: u64| #[trigger] r@.contains(x) <==> ends.contains(x) by {
        assert(ends[0] == end && ends.last() == start);
        assert(recognizer@.blocked.is_cut(bar_index, start, end, x) ==> x == start || x == end);
    }
    increasing_lists_are_equal(r@, ends);
}

/// Through the bus a device is written and read as it is by itself.
pub proof fn bus_accesses_are_those_of_the_device<'a>(
    bus: &mut VfioPciDevice,
    device: &mut VfioCommon,
    base: u64,
    offset: u64,
    data: &'a [u8],
    r: Vec<BarWrite<'a>>,
    inner: Vec<BarWrite<'a>>,
)
    requires
        call_ensures(VfioPciDevice::write_bar, (bus, base, offset, data), r),
        call_ensures(VfioCommon::write_bar, (device, base, offset, data), inner),
        *old(device) == old(bus).common(),
    ensures
        *final(bus) == *old(bus),
        r@.len() == inner@.len(),
        forall|k: int|
            0 <= k < r@.len() ==> (#[trigger] r@[k]).target == inner@[k].target && r@[k].data@
                == inner@[k].data@,
{
    assert forall|k: int| 0 <= k < r@.len() implies (#[trigger] r@[k]).target == inner@[k].target
        && r@[k].data@ == inner@[k].data@ by {
        let piece = old(device).recognizer().resolve_bar_access(base, offset, true, data@)[k];
        assert(inner@[k].target == target_of(piece.access_type));
    }
}

/// Through the bus the BARs of a device are read as they are by the device itself.
pub proof fn bus_reads_are_those_of_the_device<'a, 'b>(
    bus: &mut VfioPciDevice,
    device: &mut VfioCommon,
    base: u64,
    offset: u64,
    buffer: &'a mut [u8],
    r: Vec<BarRead<'a>>,
    data: &'b [u8],
    inner: Vec<BarWrite<'b>>,
)
    requires
        call_ensures(VfioPciDevice::read_bar, (bus, base, offset, buffer), r),
        call_ensures(VfioCommon::write_bar, (device, base, offset, data), inner),
        *old(device) == old(bus).common(),
        old(buffer)@ == data@,
    ensures
        *final(bus) == *old(bus),
        r@.len() == inner@.len(),
        forall|k: int|
            0 <= k < r@.len() ==> (#[trigger] r@[k]).target == inner@[k].target && r@[k].data@
                == inner@[k].data@,
        final(buffer)@ == Seq::new(r@.len(), |k: int| final(r@[k].data)@).flatten() + data@.skip(
            Seq::new(inner@.len(), |k: int| inner@[k].data@).flatten().len() as int,
        ),
{
    let view = old(device).recognizer();
    let reads = view.resolve_bar_access(base, offset, false, data@);
    let writes = view.resolve_bar_access(base, offset, true, data@);
    assert(reads.len() == writes.len());
    assert forall|k: int| 0 <= k < r@.len() implies (#[trigger] r@[k]).target == inner@[k].target
        && r@[k].data@ == inner@[k].data@ by {
        assert(reads[k].access_type == writes[k].access_type && reads[k].bytes == writes[k].bytes);
        assert(inner@[k].target == target_of(writes[k].access_type));
    }
    lemma_behind(view, base, offset, data@);
    assert(Seq::new(inner@.len(), |k: int| inner@[k].data@) =~= writes.map_values(
        |piece: AccessView| piece.bytes,
    ));
}

proof fn lemma_behind(view: RecognizerView, base: u64, offset: u64, bytes: Seq<u8>)
    ensures
        behind_its_span(view.bar_access(base, offset, false, bytes)) == bytes.skip(
            view.resolve_bar_access(base, offset, true, bytes).map_values(
                |piece: AccessView| piece.bytes,
            ).flatten().len() as int,
        ),
{
    let access = view.bar_access(base, offset, true, bytes);
    let pieces = view.resolve_bar_access(base, offset, true, bytes);
    let parts = pieces.map_values(|piece: AccessView| piece.bytes);
    if span_of(access.access_type) is Some {
        let (start, len) = span_of(access.access_type)->Some_0;
        assert(start == offset && len == bytes.len() && len > 0);
        view.blocked.pieces_hold_the_access(view.bar_at(base + offset), access);
    } else {
        assert(parts =~= seq![bytes]);
        parts.lemma_flatten_one_element();
        assert(bytes.skip(bytes.len() as int) =~= Seq::empty());
    }
}

/// Through the bus a BAR is moved as it is by the device itself.
pub proof fn bus_moves_are_those_of_the_device(
    bus: &mut VfioPciDevice,
    device: &mut VfioCommon,
    old_base: u64,
    new_base: u64,
    r: Result<(), DeviceRelocationError>,
    inner: Result<(), DeviceRelocationError>,
)
    requires
        call_ensures(VfioPciDevice::move_bar, (bus, old_base, new_base), r),
        call_ensures(VfioCommon::move_bar, (device, old_base, new_base), inner),
        *old(device) == old(bus).common(),
    ensures
        r is Ok,
        final(bus).recognizer() == final(device).recognizer(),
        final(bus).id() == old(bus).id(),
        final(bus).bdf() == old(bus).bdf(),
        final(bus).common().id() == old(bus).common().id(),
        final(bus).common().subclass() == old(bus).common().subclass(),
        final(bus).common().configuration() == old(bus).common().configuration(),
{
}

/// A stretch ends `len` bytes behind its offset, or at the largest number there is, and contains
/// what lies between.
pub proof fn stretches(location: BarLocation, end: u64, x: u64, inside: bool)
    requires
        call_ensures(BarLocation::end, (location,), end),
        call_ensures(BarLocation::contains, (location, x), inside),
    ensures
        location.offset + location.len <= u64::MAX ==> end == location.offset + location.len,
        location.offset + location.len > u64::MAX ==> end == u64::MAX,
        x < u64::MAX ==> inside == (location.offset <= x < location.offset + location.len),
        x == u64::MAX ==> !inside,
{
}

/// A stretch is put in behind those that come before it by BAR and offset or stand at the same
/// place, and before all others; the others keep their order.
pub proof fn inserted_stretches(list: &mut Vec<BarLocation>, location: BarLocation) -> (at: int)
    requires
        call_ensures(insert_in_order, (list, location), ()),
        forall|i: int, j: int|
            0 <= i < j < old(list)@.len() ==> {
                let a = #[trigger] old(list)@[i];
                let b = #[trigger] old(list)@[j];
                a.bar_index < b.bar_index || (a.bar_index == b.bar_index && a.offset <= b.offset)
            },
    ensures
        0 <= at <= old(list)@.len(),
        final(list)@ == old(list)@.insert(at, location),
        forall|i: int|
            0 <= i < at ==> {
                let a = #[trigger] old(list)@[i];
                a.bar_index < location.bar_index || (a.bar_index == location.bar_index && a.offset
                    <= location.offset)
            },
        forall|i: int|
            at <= i < old(list)@.len() ==> {
                let a = #[trigger] old(list)@[i];
                a.bar_index > location.bar_index || (a.bar_index == location.bar_index && a.offset
                    > location.offset)
            },
{
    assert(in_order(old(list)@));
    lemma_place(old(list)@, location);
    insertion_point(old(list)@, location)
}

/// A point is put among increasing points, once, and they stay increasing.
pub proof fn inserted_points(points: &mut Vec<u64>, x: u64, y: u64)
    requires
        call_ensures(insert_point, (points, x), ()),
        forall|i: int, j: int|
            0 <= i < j < old(points)@.len() ==> #[trigger] old(points)@[i]
                < #[trigger] old(points)@[j],
    ensures
        forall|i: int, j: int|
            0 <= i < j < final(points)@.len() ==> #[trigger] final(points)@[i]
                < #[trigger] final(points)@[j],
        final(points)@.contains(y) <==> old(points)@.contains(y) || y == x,
{
}

/// The offset and length of an access are those that its type records; only accesses to a BAR
/// that may reach the device or the MSI-X structures have them.
pub proof fn spans(access_type: &IovaAccessType, r: Option<(u64, usize)>)
    requires
        call_ensures(access_span, (access_type,), r),
    ensures
        match *access_type {
            IovaAccessType::MsixTable { offset, data_len, .. } => {
                r matches Some((at, n)) && at == offset && n == data_len
            },
            IovaAccessType::Pba { offset, data_len } => {
                r matches Some((at, n)) && at == offset && n == data_len
            },
            IovaAccessType::BarRegionCanForwardToVfio { offset, data_len, .. } => {
                r matches Some((at, n)) && at == offset && n == data_len
            },
            _ => r is None,
        },
{
}

/// A piece of an access keeps what the whole is for, with an offset and length of its own.
pub proof fn piece_types(
    access_type: &IovaAccessType,
    segment_start: u64,
    segment_len: usize,
    r: IovaAccessType,
)
    requires
        call_ensures(remap_segment_type, (access_type, segment_start, segment_len), r),
    ensures
        match *access_type {
            IovaAccessType::MsixTable { index, .. } => {
                r matches IovaAccessType::MsixTable { index: same, offset, data_len } && same
                    == index && offset == segment_start && data_len == segment_len as u8
            },
            IovaAccessType::Pba { .. } => {
                r matches IovaAccessType::Pba { offset, data_len } && offset == segment_start
                    && data_len == segment_len as u8
            },
            IovaAccessType::BarRegionCanForwardToVfio { index, .. } => {
                r matches IovaAccessType::BarRegionCanForwardToVfio {
                    index: same,
                    offset,
                    data_len,
                } && same == index && offset == segment_start && data_len == segment_len as u8
            },
            _ => r == *access_type,
        },
{
}

/// The sizes of the BARs are those that the device reports, each cut to its low 32 bits.
pub proof fn bar_sizes(recognizer: &VfioPcieMemoryRecognizer, r: [u32; 6], i: int)
    requires
        call_ensures(VfioPcieMemoryRecognizer::get_bar_region_size, (recognizer,), r),
        recognizer@.valid(),
        0 <= i < 6,
    ensures
        r@[i] == recognizer@.regions[i].size % 0x1_0000_0000,
{
    let size = recognizer@.regions[i].size;
    assert(size as u32 == size % 0x1_0000_0000) by (bit_vector);
}

proof fn lemma_edges(
    blocked: Blocked,
    bar: u8,
    start: u64,
    end: u64,
    points: Seq<u64>,
    k: int,
)
    requires
        blocked.cuts_at(bar, start, end, points),
        points.len() >= 2,
        points.first() == start,
        points.last() == end,
        0 <= k < points.len() - 1,
    ensures
        ({
            let all = blocked.discard + blocked.emulate;
            &&& forall|i: int|
                0 <= i < all.len() && (#[trigger] all[i]).bar_index == bar ==> {
                    &&& !(points[k] < all[i].offset < points[k + 1])
                    &&& !(points[k] < all[i].offset + all[i].len < points[k + 1])
                }
            &&& k > 0 ==> exists|i: int|
                0 <= i < all.len() && (#[trigger] all[i]).bar_index == bar && (all[i].offset
                    == points[k] || all[i].offset + all[i].len == points[k])
        }),
{
    let all = blocked.discard + blocked.emulate;
    assert(k == 0 || points[0] < points[k]);
    assert(points[k] < points[k + 1]);
    assert(k + 1 == points.len() - 1 || points[k + 1] < points[points.len() - 1]);
    assert forall|i: int| 0 <= i < all.len() && (#[trigger] all[i]).bar_index == bar implies {
        &&& !(points[k] < all[i].offset < points[k + 1])
        &&& !(points[k] < all[i].offset + all[i].len < points[k + 1])
    } by {
        let location = all[i];
        let list = if i < blocked.discard.len() { blocked.discard } else { blocked.emulate };
        let at = if i < blocked.discard.len() { i } else { i - blocked.discard.len() };
        assert(list[at] == location);
        if points[k] < location.offset < points[k + 1] {
            assert(meets(location, start, end));
            assert(is_edge(location, start, end, location.offset));
            assert(has_edge(list, bar, start, end, location.offset));
            lemma_no_point_between(points, k, location.offset);
        }
        if points[k] < location.offset + location.len < points[k + 1] {
            let edge = location.spec_end();
            assert(meets(location, start, end));
            assert(is_edge(location, start, end, edge));
            assert(has_edge(list, bar, start, end, edge));
            lemma_no_point_between(points, k, edge);
        }
    }
    if k > 0 {
        let x = points[k];
        assert(points.contains(x));
        assert(blocked.is_cut(bar, start, end, x));
        let list = if has_edge(blocked.discard, bar, start, end, x) {
            blocked.discard
        } else {
            blocked.emulate
        };
        let i = choose|i: int|
            0 <= i < list.len() && (#[trigger] list[i]).bar_index == bar && meets(
                list[i],
                start,
                end,
            ) && is_edge(list[i], start, end, x);
        let at = if has_edge(blocked.discard, bar, start, end, x) {
            i
        } else {
            i + blocked.discard.len()
        };
        assert(all[at] == list[i]);
    }
}

proof fn lemma_no_point_between(points: Seq<u64>, k: int, x: u64)
    requires
        increasing(points),
        0 <= k < points.len() - 1,
        points[k] < x < points[k + 1],
    ensures
        !points.contains(x),
{
    if points.contains(x) {
        let m = choose|m: int| 0 <= m < points.len() && points[m] == x;
        assert(m <= k ==> points[m] <= points[k]);
        assert(m > k ==> points[k + 1] <= points[m]);
    }
}

proof fn lemma_kind(blocked: Blocked, bar: u8, x: int)
    requires
        0 <= x < u64::MAX,
    ensures
        covered(blocked.discard, bar, x) <==> exists|i: int|
            0 <= i < blocked.discard.len() && (#[trigger] blocked.discard[i]).bar_index == bar
                && blocked.discard[i].offset <= x < blocked.discard[i].offset
                + blocked.discard[i].len,
        covered(blocked.emulate, bar, x) <==> exists|i: int|
            0 <= i < blocked.emulate.len() && (#[trigger] blocked.emulate[i]).bar_index == bar
                && blocked.emulate[i].offset <= x < blocked.emulate[i].offset
                + blocked.emulate[i].len,
{
    lemma_covered(blocked.discard, bar, x);
    lemma_covered(blocked.emulate, bar, x);
}

proof fn lemma_covered(list: Seq<BarLocation>, bar: u8, x: int)
    requires
        0 <= x < u64::MAX,
    ensures
        covered(list, bar, x) <==> exists|i: int|
            0 <= i < list.len() && (#[trigger] list[i]).bar_index == bar && list[i].offset <= x
                < list[i].offset + list[i].len,
{
    if covered(list, bar, x) {
        let i = choose|i: int|
            0 <= i < list.len() && (#[trigger] list[i]).bar_index == bar && list[i].covers(x);
        assert(list[i].offset <= x < list[i].offset + list[i].len);
    }
    if exists|i: int|
        0 <= i < list.len() && (#[trigger] list[i]).bar_index == bar && list[i].offset <= x
            < list[i].offset + list[i].len {
        let i = choose|i: int|
            0 <= i < list.len() && (#[trigger] list[i]).bar_index == bar && list[i].offset <= x
                < list[i].offset + list[i].len;
        assert(list[i].covers(x));
    }
}

/// The pieces of an allowed access, by the points it is cut at.
proof fn lemma_pieces(
    view: RecognizerView,
    base: u64,
    offset: u64,
    write: bool,
    bytes: Seq<u8>,
    bar: int,
)
    requires
        view.valid(),
        base + offset <= u64::MAX,
        offset < u64::MAX,
        0 <= bar < 6,
        view.regions[bar].start <= base + offset < view.regions[bar].start
            + view.regions[bar].size,
        forall|j: int|
            0 <= j < bar ==> !((#[trigger] view.regions[j]).start <= base + offset
                < view.regions[j].start + view.regions[j].size),
        ({
            let n = bytes.len();
            &&& n == 1 || (n == 2 && offset % 2 == 0) || (n == 4 && offset % 4 == 0) || (n == 8
                && offset % 8 == 0)
            &&& base + offset + n <= view.regions[bar].start + view.regions[bar].size
        }),
    ensures
        ({
            let end = access_end(offset, bytes.len() as usize);
            let points = view.blocked.cut_points(bar as u8, offset, end);
            let pieces = view.resolve_bar_access(base, offset, write, bytes);
            let access = view.bar_access(base, offset, write, bytes);
            &&& region_at(view.regions, base + offset) == Some(view.regions[bar])
            &&& view.bar_at(base + offset) == bar
            &&& access.access_type == view.bar_access_type(
                bar as u8,
                offset,
                bytes.len() as int,
            )
            &&& access.access_type !is InvalidAccess
            &&& span_of(access.access_type) == Some((offset, bytes.len() as usize))
            &&& points.len() >= 2
            &&& points.len() == pieces.len() + 1
            &&& points.first() == offset
            &&& points.last() == end
            &&& increasing(points)
            &&& forall|k: int|
                0 <= k < pieces.len() ==> (#[trigger] pieces[k]) == view.blocked.segment(
                    bar as u8,
                    access,
                    offset,
                    points[k],
                    points[k + 1],
                ) && pieces[k].bytes.len() == points[k + 1] - points[k] && pieces[k].bytes.len()
                    > 0
        }),
{
    lemma_first_holder(view.regions, bar, base + offset);
    let n = bytes.len() as int;
    let access = view.bar_access(base, offset, write, bytes);
    assert(offset as int % n == 0) by {
        if n == 8 {
            assert(offset % 8 == 0);
        } else if n == 4 {
            assert(offset % 4 == 0);
        } else if n == 2 {
            assert(offset % 2 == 0);
        }
    }
    assert(view.regions[bar].index == bar);
    lemma_cut(view.blocked, bar as u8, access, offset, bytes.len() as usize);
}

} // verus!

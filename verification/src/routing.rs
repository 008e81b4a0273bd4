//! What holds of the way accesses are routed.

use crate::access::{aligned_access, span_of, AccessView, IovaAccessType};
use crate::bar_location::{covered, in_order, insertion_point, not_after, BarLocation};
use crate::blocked::{access_end, Blocked};
use crate::memory_recognizer::{
    region_at, region_from, RecognizerView, RegionView, NUM_BAR_NUMS,
};
use vstd::prelude::*;

verus! {

/// Whether some byte of the `n` bytes at `offset` lies in the stretch.
pub open spec fn touches(location: BarLocation, offset: int, n: int) -> bool {
    exists|x: int| offset <= x < offset + n && #[trigger] location.covers(x)
}

/// An access that is recognised as one to the MSI-X table lies in one entry of it, and the
/// index is that of the entry.
pub proof fn table_accesses_stay_in_one_entry(
    view: RecognizerView,
    bar_index: u8,
    offset: u64,
    n: int,
)
    requires
        view.valid(),
        view.bar_access_type(bar_index, offset, n) is MsixTable,
    ensures
        view.bar_access_type(bar_index, offset, n) matches IovaAccessType::MsixTable {
            index,
            offset: at,
            data_len,
        } && view.table matches Some(table) && {
            &&& at == offset
            &&& data_len == n
            &&& table.bar_index == bar_index
            &&& index < table.len / 16
            &&& table.offset + 16 * index <= offset
            &&& offset + n <= table.offset + 16 * index + 16
        },
{
    let table = view.table->Some_0;
    let index = (offset - table.offset) / 16;
    assert(table.spec_end() == table.offset + table.len);
    assert(offset + n <= table.offset + 16 * index + 16) by {
        aligned_accesses_cross_no_bound(offset as int, n, table.offset + 16 * index + 16);
    }
}

/// An access that goes to the device touches neither the MSI-X table nor the pending bit array.
pub proof fn forwarded_accesses_miss_the_msix_structures(
    view: RecognizerView,
    bar_index: u8,
    offset: u64,
    n: int,
)
    requires
        view.valid(),
        view.bar_access_type(bar_index, offset, n) is BarRegionCanForwardToVfio,
    ensures
        view.table matches Some(table) ==> table.bar_index == bar_index ==> !touches(
            table,
            offset as int,
            n,
        ),
        view.pba matches Some(pba) ==> pba.bar_index == bar_index ==> !touches(
            pba,
            offset as int,
            n,
        ),
{
    if view.table is Some && view.table->Some_0.bar_index == bar_index && touches(
        view.table->Some_0,
        offset as int,
        n,
    ) {
        let table = view.table->Some_0;
        aligned_accesses_cross_no_bound(offset as int, n, table.offset as int);
    }
    if view.pba is Some && view.pba->Some_0.bar_index == bar_index && touches(
        view.pba->Some_0,
        offset as int,
        n,
    ) {
        let pba = view.pba->Some_0;
        aligned_accesses_cross_no_bound(offset as int, n, pba.offset as int);
    }
}

/// An access that is recognised as one to the pending bit array lies in one 8-byte unit of it.
pub proof fn pba_accesses_stay_in_one_unit(
    view: RecognizerView,
    bar_index: u8,
    offset: u64,
    n: int,
)
    requires
        view.valid(),
        view.bar_access_type(bar_index, offset, n) is Pba,
    ensures
        view.bar_access_type(bar_index, offset, n) matches IovaAccessType::Pba {
            offset: at,
            data_len,
        } && view.pba matches Some(pba) && {
            &&& at == offset
            &&& data_len == n
            &&& pba.bar_index == bar_index
            &&& pba.offset <= offset
            &&& offset + n <= pba.offset + pba.len
            &&& offset / 8 == (offset + n - 1) / 8
        },
{
    let pba = view.pba->Some_0;
    assert(pba.spec_end() == pba.offset + pba.len);
    aligned_accesses_cross_no_bound(offset as int, n, (offset as int / 8) * 8 + 8);
}

/// An allowed access crosses no bound that 8 divides. Such bounds are those of the block of BAR
/// registers, of the capability area, and of the configuration space itself.
pub proof fn aligned_accesses_cross_no_bound(offset: int, n: int, bound: int)
    requires
        aligned_access(offset, n),
        bound % 8 == 0,
        offset < bound,
    ensures
        offset + n <= bound,
{
}

/// A write that is forwarded to the configuration space of the device touches neither a BAR
/// register nor the MSI-X message control register.
pub proof fn forwarded_writes_miss_the_emulated_registers(
    view: RecognizerView,
    reg_idx: usize,
    offset: u64,
    n: int,
    x: int,
)
    requires
        view.valid(),
        offset < 4,
        view.ecam_write_type(reg_idx, offset, n) is EcamCanForwardToVfio,
        4 * reg_idx + offset <= x < 4 * reg_idx + offset + n,
    ensures
        !(0x10 <= x < 0x28),
        !(0x30 <= x < 0x34),
        !(view.control_start <= x < view.control_end),
{
    let at = 4 * reg_idx + offset;
    if n == 8 {
        assert(at % 8 == 0);
    } else if n == 4 {
        assert(at % 4 == 0);
    } else if n == 2 {
        assert(at % 2 == 0);
    }
}

/// A read of the configuration space covers BAR registers only, or none: one that is answered
/// here lies in BAR registers as a whole, and one that is forwarded touches none.
pub proof fn config_reads_stay_on_one_side(view: RecognizerView, reg_idx: usize, n: int, x: int)
    requires
        4 * reg_idx <= x < 4 * reg_idx + n,
    ensures
        view.ecam_read_type(reg_idx, n) is BarReg ==> 0x10 <= x < 0x28 || 0x30 <= x < 0x34,
        view.ecam_read_type(reg_idx, n) is EcamCanForwardToVfio ==> !(0x10 <= x < 0x28) && !(0x30
            <= x < 0x34),
{
    if n == 8 {
        assert((4 * reg_idx) % 8 == 0 ==> reg_idx % 2 == 0);
    }
}

/// Whatever is recognised as allowed is aligned, and lies in the BAR that holds its first byte.
pub proof fn allowed_accesses_stay_in_their_bar(
    view: RecognizerView,
    base: u64,
    offset: u64,
    write: bool,
    bytes: Seq<u8>,
)
    requires
        view.reaches_a_bar(base, offset),
        view.bar_access(base, offset, write, bytes).access_type !is InvalidAccess,
    ensures
        aligned_access(offset as int, bytes.len() as int),
        region_at(view.regions, base + offset) matches Some(region) && region.start <= base + offset
            && base + offset + bytes.len() <= region.start + region.size,
{
    region_at_finds_a_holder(view.regions, base + offset);
}

/// The BAR that is taken to begin at an address is the one that does, if there is just one.
pub proof fn the_bar_that_begins_there_is_found(regions: Seq<RegionView>, base: u64, i: int)
    requires
        0 <= i < regions.len(),
        regions[i].begins_at(base),
        forall|j: int| 0 <= j < i ==> !(#[trigger] regions[j]).begins_at(base),
    ensures
        region_from(regions, base) == Some(regions[i]),
    decreases regions.len(),
{
    let init = regions.drop_last();
    if i < regions.len() - 1 {
        the_bar_that_begins_there_is_found(init, base, i);
    } else {
        nothing_begins_where_no_bar_does(init, base);
    }
}

/// No BAR is taken to begin at an address where none does.
pub proof fn nothing_begins_where_no_bar_does(regions: Seq<RegionView>, base: u64)
    requires
        forall|j: int| 0 <= j < regions.len() ==> !(#[trigger] regions[j]).begins_at(base),
    ensures
        region_from(regions, base) is None,
    decreases regions.len(),
{
    if regions.len() > 0 {
        nothing_begins_where_no_bar_does(regions.drop_last(), base);
    }
}

/// A moved BAR is found at its new place, unless a BAR of a lower number holds the address too.
pub proof fn moved_bar_is_found(view: RecognizerView, bar_idx: u8, new_gpa: u64, addr: int)
    requires
        view.valid(),
        bar_idx < NUM_BAR_NUMS,
        view.with_bar_at(bar_idx, new_gpa).regions[bar_idx as int].holds(addr),
        forall|i: int| 0 <= i < bar_idx ==> !(#[trigger] view.regions[i]).holds(addr),
    ensures
        region_at(view.with_bar_at(bar_idx, new_gpa).regions, addr) == Some(
            RegionView { start: new_gpa, ..view.regions[bar_idx as int] },
        ),
{
    let moved = view.with_bar_at(bar_idx, new_gpa).regions;
    assert forall|i: int| 0 <= i < bar_idx implies !(#[trigger] moved[i]).holds(addr) by {
        assert(moved[i] == view.regions[i]);
    }
    lemma_first_holder(moved, bar_idx as int, addr);
}

pub(crate) proof fn lemma_first_holder(regions: Seq<RegionView>, first: int, addr: int)
    requires
        0 <= first < regions.len(),
        regions[first].holds(addr),
        forall|i: int| 0 <= i < first ==> !(#[trigger] regions[i]).holds(addr),
    ensures
        region_at(regions, addr) == Some(regions[first]),
    decreases regions.len(),
{
    let init = regions.drop_last();
    if first < regions.len() - 1 {
        lemma_first_holder(init, first, addr);
    } else {
        lemma_no_holder(init, addr);
    }
}

proof fn lemma_no_holder(regions: Seq<RegionView>, addr: int)
    requires
        forall|i: int| 0 <= i < regions.len() ==> !(#[trigger] regions[i]).holds(addr),
    ensures
        region_at(regions, addr) is None,
    decreases regions.len(),
{
    if regions.len() > 0 {
        lemma_no_holder(regions.drop_last(), addr);
    }
}

/// No BAR is found exactly where none holds the address, and the BAR that is found holds it.
pub proof fn region_at_finds_a_holder(regions: Seq<RegionView>, addr: int)
    ensures
        region_at(regions, addr) is None <==> forall|i: int|
            0 <= i < regions.len() ==> !(#[trigger] regions[i]).holds(addr),
        region_at(regions, addr) matches Some(region) ==> region.holds(addr) && regions.contains(
            region,
        ),
    decreases regions.len(),
{
    if regions.len() > 0 {
        let init = regions.drop_last();
        region_at_finds_a_holder(init, addr);
        assert(regions.contains(regions[regions.len() - 1]));
        if region_at(init, addr) is Some {
            let i = choose|i: int| 0 <= i < init.len() && init[i] == region_at(init, addr)->Some_0;
            assert(regions[i] == init[i]);
        } else {
            assert forall|i: int| 0 <= i < regions.len() - 1 implies !(
            #[trigger] regions[i]).holds(addr) by {
                assert(init[i] == regions[i]);
            }
        }
    }
}

/// A BAR that is moved and moved back is where it was, and all else is untouched.
pub proof fn moving_a_bar_back_restores(view: RecognizerView, bar_idx: u8, new_gpa: u64)
    requires
        bar_idx < view.regions.len(),
    ensures
        view.with_bar_at(bar_idx, new_gpa).with_bar_at(
            bar_idx,
            view.regions[bar_idx as int].start,
        ) == view,
{
    let back = view.with_bar_at(bar_idx, new_gpa).with_bar_at(
        bar_idx,
        view.regions[bar_idx as int].start,
    );
    assert(back.regions =~= view.regions);
}

/// Once a stretch is added to a list, exactly its bytes are covered in addition.
pub proof fn added_stretch_is_covered(
    list: Seq<BarLocation>,
    location: BarLocation,
    bar_index: u8,
    x: int,
)
    ensures
        covered(list.insert(insertion_point(list, location), location), bar_index, x) <==> covered(
            list,
            bar_index,
            x,
        ) || (location.bar_index == bar_index && location.covers(x)),
{
    crate::bar_location::insertion_point_is_in_the_list(list, location);
    let p = insertion_point(list, location);
    let new = list.insert(p, location);
    assert(new[p] == location);
    if covered(list, bar_index, x) {
        let k = choose|k: int|
            0 <= k < list.len() && (#[trigger] list[k]).bar_index == bar_index && list[k].covers(x);
        if k < p {
            assert(new[k] == list[k]);
        } else {
            assert(new[k + 1] == list[k]);
        }
    }
    if covered(new, bar_index, x) {
        let k = choose|k: int|
            0 <= k < new.len() && (#[trigger] new[k]).bar_index == bar_index && new[k].covers(x);
        if k < p {
            assert(new[k] == list[k]);
        } else if k > p {
            assert(new[k] == list[k - 1]);
        }
    }
}

/// Once a stretch is to be dropped, each of its bytes is, and every other byte is kept for what
/// it was.
pub proof fn discarded_stretch_is_dropped(
    view: RecognizerView,
    region: BarLocation,
    bar_index: u8,
    x: int,
)
    ensures
        view.with_discard(region).blocked.kind_at(bar_index, x) == if region.bar_index == bar_index
            && region.covers(x) {
            Some(IovaAccessType::MmioNeededDiscard)
        } else {
            view.blocked.kind_at(bar_index, x)
        },
{
    added_stretch_is_covered(view.blocked.discard, region, bar_index, x);
}

/// Once a stretch is to be emulated, each of its bytes is, but for those that are to be dropped;
/// every other byte is kept for what it was.
pub proof fn emulated_stretch_is_emulated(
    view: RecognizerView,
    region: BarLocation,
    bar_index: u8,
    x: int,
)
    ensures
        view.with_emulation(region).blocked.kind_at(bar_index, x) == if region.bar_index
            == bar_index && region.covers(x) && !covered(view.blocked.discard, bar_index, x) {
            Some(IovaAccessType::MmioNeededEmulationInMem)
        } else {
            view.blocked.kind_at(bar_index, x)
        },
{
    added_stretch_is_covered(view.blocked.emulate, region, bar_index, x);
}

/// A read and a write of as many bytes at one place are cut alike, and their pieces go the same
/// way.
pub proof fn reads_and_writes_go_the_same_way(
    view: RecognizerView,
    base: u64,
    offset: u64,
    read: Seq<u8>,
    written: Seq<u8>,
    k: int,
)
    requires
        read.len() == written.len(),
    ensures
        view.resolve_bar_access(base, offset, false, read).len() == view.resolve_bar_access(
            base,
            offset,
            true,
            written,
        ).len(),
        0 <= k < view.resolve_bar_access(base, offset, false, read).len()
            ==> view.resolve_bar_access(base, offset, false, read)[k].access_type
            == view.resolve_bar_access(base, offset, true, written)[k].access_type,
{
}

/// A piece of an access that goes on to the device or to the MSI-X structures holds no byte that
/// is kept from the device; a piece that does not holds no other.
pub proof fn blocked_bytes_never_pass(
    blocked: Blocked,
    bar_index: u8,
    access: AccessView,
    i: int,
    x: int,
)
    requires
        span_of(access.access_type) matches Some((start, len)) && len > 0 && {
            let points = blocked.cut_points(bar_index, start, access_end(start, len));
            0 <= i < points.len() - 1 && points[i] <= x < points[i + 1]
        },
    ensures
        span_of(blocked.pieces(bar_index, access)[i].access_type) is Some <==> blocked.kind_at(
            bar_index,
            x,
        ) is None,
        blocked.kind_at(bar_index, x) matches Some(kind) ==> blocked.pieces(
            bar_index,
            access,
        )[i].access_type == kind,
{
    let (start, len) = span_of(access.access_type)->Some_0;
    blocked.pieces_are_uniform(bar_index, start, access_end(start, len), i, x);
}

/// However the pieces of an access are filled, each byte of the whole is the byte that its own
/// piece was given there. So the bytes of a piece that is left alone stay as they were.
pub proof fn every_byte_comes_from_its_piece(
    blocked: Blocked,
    bar_index: u8,
    access: AccessView,
    parts: Seq<Seq<u8>>,
    i: int,
    x: int,
)
    requires
        span_of(access.access_type) matches Some((start, len)) && len > 0 && access_end(start, len)
            - start <= access.bytes.len() && {
            let points = blocked.cut_points(bar_index, start, access_end(start, len));
            0 <= i < points.len() - 1 && points[i] <= x < points[i + 1]
        },
        parts.len() == blocked.pieces(bar_index, access).len(),
        forall|k: int|
            0 <= k < parts.len() ==> (#[trigger] parts[k]).len() == blocked.pieces(
                bar_index,
                access,
            )[k].bytes.len(),
    ensures
        span_of(access.access_type) matches Some((start, len)) && {
            let points = blocked.cut_points(bar_index, start, access_end(start, len));
            &&& parts.flatten().len() == access_end(start, len) - start
            &&& parts.flatten()[x - start] == parts[i][x - points[i]]
            &&& parts[i] == blocked.pieces(bar_index, access)[i].bytes ==> parts.flatten()[x
                - start] == access.bytes[x - start]
        },
{
    let (start, len) = span_of(access.access_type)->Some_0;
    let end = access_end(start, len);
    let points = blocked.cut_points(bar_index, start, end);
    blocked.cut_points_exist(bar_index, start, end);
    blocked.cut_points_span_the_range(bar_index, start, end);
    assert forall|k: int| 0 <= k < parts.len() implies (#[trigger] parts[k]).len() == points[k + 1]
        - points[k] by {
        assert(blocked.pieces(bar_index, access)[k].bytes == access.bytes.subrange(
            points[k] - start,
            points[k + 1] - start,
        ));
        assert(points[k] < points[k + 1]);
        assert(k == 0 || points[0] < points[k]);
        assert(k + 1 == points.len() - 1 || points[k + 1] < points[points.len() - 1]);
    }
    lemma_parts_in_place(points, parts, parts.len() as int, i, x);
    assert(parts.take(parts.len() as int) =~= parts);
    assert(i == 0 || points[0] < points[i]);
    assert(i + 1 == points.len() - 1 || points[i + 1] < points[points.len() - 1]);
}

pub(crate) proof fn lemma_parts_in_place(
    points: Seq<u64>,
    parts: Seq<Seq<u8>>,
    n: int,
    i: int,
    x: int,
)
    requires
        points.len() == parts.len() + 1,
        0 <= n <= parts.len(),
        forall|k: int|
            0 <= k < parts.len() ==> (#[trigger] parts[k]).len() == points[k + 1] - points[k],
        0 <= i < parts.len(),
        points[i] <= x < points[i + 1],
    ensures
        parts.take(n).flatten().len() == points[n] - points[0],
        i < n ==> 0 <= x - points[0] < parts.take(n).flatten().len() && parts.take(n).flatten()[x
            - points[0]] == parts[i][x - points[i]],
    decreases n,
{
    if n == 0 {
        assert(parts.take(0).flatten() =~= Seq::empty());
    } else {
        lemma_parts_in_place(points, parts, n - 1, i, x);
        assert(parts.take(n) =~= parts.take(n - 1).push(parts[n - 1]));
        parts.take(n - 1).lemma_flatten_push(parts[n - 1]);
        assert(parts[n - 1].len() == points[n] - points[n - 1]);
    }
}

/// What may be passed through is exactly what no stretch keeps from the device.
pub proof fn passthrough_is_what_is_not_blocked(view: RecognizerView, bar_index: u8, x: int)
    requires
        view.valid(),
    ensures
        covered(view.passthrough(), bar_index, x) <==> bar_index < NUM_BAR_NUMS && 0 <= x
            < view.regions[bar_index as int].size && view.blocked.kind_at(bar_index, x) is None,
{
    lemma_passthrough_of_first(view, NUM_BAR_NUMS as int, bar_index, x);
    assert(view.regions.take(NUM_BAR_NUMS as int) =~= view.regions);
}

/// What may be passed through stays the same when a BAR is moved.
pub proof fn moving_a_bar_keeps_the_passthrough(view: RecognizerView, bar_idx: u8, new_gpa: u64)
    requires
        view.valid(),
    ensures
        view.with_bar_at(bar_idx, new_gpa).passthrough() == view.passthrough(),
{
    let moved = view.with_bar_at(bar_idx, new_gpa);
    let open = |region: RegionView|
        view.blocked.open_stretches(region.index as u8, 0, region.size);
    assert(moved.regions.map_values(open) =~= view.regions.map_values(open));
}

/// What may be passed through is listed by BAR, then by offset; no stretch is empty, none runs
/// past the end of its BAR, and no two of one BAR overlap.
pub proof fn passthrough_is_in_order(view: RecognizerView)
    requires
        view.valid(),
    ensures
        in_order(view.passthrough()),
        forall|i: int|
            0 <= i < view.passthrough().len() ==> {
                let piece = #[trigger] view.passthrough()[i];
                piece.bar_index < NUM_BAR_NUMS && piece.len > 0 && piece.offset + piece.len
                    <= view.regions[piece.bar_index as int].size
            },
        forall|i: int, j: int|
            0 <= i < j < view.passthrough().len() && view.passthrough()[i].bar_index
                == view.passthrough()[j].bar_index ==> (
            #[trigger] view.passthrough()[i]).spec_end() <= (
            #[trigger] view.passthrough()[j]).offset,
{
    lemma_passthrough_order(view, NUM_BAR_NUMS as int);
    assert(view.regions.take(NUM_BAR_NUMS as int) =~= view.regions);
}

/// What may be passed through of the first `n` BARs.
spec fn open_of_first(view: RecognizerView, n: int) -> Seq<BarLocation> {
    view.regions.take(n).flat_map(
        |region: RegionView|
            view.blocked.open_stretches(region.index as u8, 0, region.size),
    )
}

proof fn lemma_open_of_one_more(view: RecognizerView, n: int)
    requires
        view.valid(),
        0 <= n < NUM_BAR_NUMS,
    ensures
        open_of_first(view, n + 1) == open_of_first(view, n) + view.blocked.open_stretches(
            n as u8,
            0,
            view.regions[n].size,
        ),
{
    view.regions.lemma_flat_map_take_append(
        |region: RegionView|
            view.blocked.open_stretches(region.index as u8, 0, region.size),
        n,
    );
}

proof fn lemma_covered_concat(a: Seq<BarLocation>, b: Seq<BarLocation>, bar_index: u8, x: int)
    ensures
        covered(a + b, bar_index, x) <==> covered(a, bar_index, x) || covered(b, bar_index, x),
{
    let all = a + b;
    if covered(all, bar_index, x) {
        let k = choose|k: int|
            0 <= k < all.len() && (#[trigger] all[k]).bar_index == bar_index && all[k].covers(x);
        if k < a.len() {
            assert(a[k] == all[k]);
        } else {
            assert(b[k - a.len()] == all[k]);
        }
    }
    if covered(a, bar_index, x) {
        let k = choose|k: int|
            0 <= k < a.len() && (#[trigger] a[k]).bar_index == bar_index && a[k].covers(x);
        assert(all[k] == a[k]);
    }
    if covered(b, bar_index, x) {
        let k = choose|k: int|
            0 <= k < b.len() && (#[trigger] b[k]).bar_index == bar_index && b[k].covers(x);
        assert(all[k + a.len()] == b[k]);
    }
}

proof fn lemma_passthrough_of_first(view: RecognizerView, n: int, bar_index: u8, x: int)
    requires
        view.valid(),
        0 <= n <= NUM_BAR_NUMS,
    ensures
        covered(open_of_first(view, n), bar_index, x) <==> bar_index < n && 0 <= x
            < view.regions[bar_index as int].size && view.blocked.kind_at(bar_index, x) is None,
    decreases n,
{
    if n == 0 {
        assert(open_of_first(view, 0) =~= Seq::empty());
    } else {
        lemma_passthrough_of_first(view, n - 1, bar_index, x);
        lemma_open_of_one_more(view, n - 1);
        let region = view.regions[n - 1];
        let more = view.blocked.open_stretches((n - 1) as u8, 0, region.size);
        lemma_covered_concat(open_of_first(view, n - 1), more, bar_index, x);
        view.blocked.open_stretches_are_apart((n - 1) as u8, 0, region.size);
        view.blocked.open_stretches_hold_the_unblocked_bytes(
            (n - 1) as u8,
            0,
            region.size,
            x,
        );
    }
}

proof fn lemma_passthrough_order(view: RecognizerView, n: int)
    requires
        view.valid(),
        0 <= n <= NUM_BAR_NUMS,
    ensures
        in_order(open_of_first(view, n)),
        forall|i: int|
            0 <= i < open_of_first(view, n).len() ==> {
                let piece = #[trigger] open_of_first(view, n)[i];
                piece.bar_index < n && piece.len > 0 && piece.offset + piece.len
                    <= view.regions[piece.bar_index as int].size
            },
        forall|i: int, j: int|
            0 <= i < j < open_of_first(view, n).len() && open_of_first(view, n)[i].bar_index
                == open_of_first(view, n)[j].bar_index ==> (
            #[trigger] open_of_first(view, n)[i]).spec_end() <= (
            #[trigger] open_of_first(view, n)[j]).offset,
    decreases n,
{
    if n == 0 {
        assert(open_of_first(view, 0) =~= Seq::empty());
    } else {
        lemma_passthrough_order(view, n - 1);
        lemma_open_of_one_more(view, n - 1);
        let region = view.regions[n - 1];
        let less = open_of_first(view, n - 1);
        let more = view.blocked.open_stretches((n - 1) as u8, 0, region.size);
        view.blocked.open_stretches_are_apart((n - 1) as u8, 0, region.size);
        let all = less + more;
        assert forall|i: int, j: int| 0 <= i < j < all.len() implies not_after(
            #[trigger] all[i],
            #[trigger] all[j],
        ) by {
            if j < less.len() {
                assert(not_after(less[i], less[j]));
            } else if i < less.len() {
                assert(less[i].bar_index < n - 1 && more[j - less.len()].bar_index == n - 1);
            } else {
                assert(more[i - less.len()].spec_end() <= more[j - less.len()].offset);
            }
        }
        assert forall|i: int| 0 <= i < all.len() implies {
            let piece = #[trigger] all[i];
            piece.bar_index < n && piece.len > 0 && piece.offset + piece.len
                <= view.regions[piece.bar_index as int].size
        } by {
            if i < less.len() {
                assert(less[i].bar_index < n - 1);
            } else {
                assert(more[i - less.len()].bar_index == n - 1);
            }
        }
        assert forall|i: int, j: int|
            0 <= i < j < all.len() && all[i].bar_index == all[j].bar_index implies (
        #[trigger] all[i]).spec_end() <= (#[trigger] all[j]).offset by {
            if j < less.len() {
                assert(less[i].spec_end() <= less[j].offset);
            } else if i < less.len() {
                assert(less[i].bar_index < n - 1 && more[j - less.len()].bar_index == n - 1);
            } else {
                assert(more[i - less.len()].spec_end() <= more[j - less.len()].offset);
            }
        }
    }
}

} // verus!

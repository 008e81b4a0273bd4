//! Stretches of a BAR that are kept from the device, and what they make of an access.

use crate::access::{span_of, type_of_segment, AccessView, IovaAccessType};
use crate::bar_location::{covered, has_edge, increasing, is_edge, meets, BarLocation};
use vstd::prelude::*;

verus! {

/// The stretches that are kept from the device.
pub struct Blocked {
    /// Stretches whose accesses are dropped.
    pub discard: Seq<BarLocation>,
    /// Stretches that are emulated in memory.
    pub emulate: Seq<BarLocation>,
}

/// The offset just behind an access of `len` bytes at `start`, capped at the largest `u64`.
pub open spec fn access_end(start: u64, len: usize) -> u64 {
    if start + len > u64::MAX {
        u64::MAX
    } else {
        (start + len) as u64
    }
}

impl Blocked {
    /// What the byte at `offset` of a BAR is kept for, `None` if the device has it. A byte that
    /// is to be dropped is dropped even where it is emulated as well.
    pub open spec fn kind_at(self, bar_index: u8, offset: int) -> Option<IovaAccessType> {
        if covered(self.discard, bar_index, offset) {
            Some(IovaAccessType::MmioNeededDiscard)
        } else if covered(self.emulate, bar_index, offset) {
            Some(IovaAccessType::MmioNeededEmulationInMem)
        } else {
            None
        }
    }

    /// Whether `[start, end)` is cut at `x`: at its own ends, and where a stretch that meets it
    /// begins or ends.
    pub open spec fn is_cut(self, bar_index: u8, start: u64, end: u64, x: u64) -> bool {
        ||| x == start
        ||| x == end
        ||| has_edge(self.discard, bar_index, start, end, x)
        ||| has_edge(self.emulate, bar_index, start, end, x)
    }

    /// Whether `points` are the cuts of `[start, end)`, each once, in increasing order.
    pub open spec fn cuts_at(self, bar_index: u8, start: u64, end: u64, points: Seq<u64>) -> bool {
        &&& increasing(points)
        &&& forall|x: u64| #[trigger]
            points.contains(x) <==> self.is_cut(bar_index, start, end, x)
    }

    /// The cuts of `[start, end)`, each once, in increasing order.
    pub open spec fn cut_points(self, bar_index: u8, start: u64, end: u64) -> Seq<u64> {
        choose|points: Seq<u64>| self.cuts_at(bar_index, start, end, points)
    }

    /// The piece `[from, to)` of an access that begins at `start`.
    pub open spec fn segment(
        self,
        bar_index: u8,
        access: AccessView,
        start: u64,
        from: u64,
        to: u64,
    ) -> AccessView {
        AccessView {
            access_type: match self.kind_at(bar_index, from as int) {
                Some(kind) => kind,
                None => type_of_segment(access.access_type, from, (to - from) as usize),
            },
            write: access.write,
            bytes: access.bytes.subrange(from - start, to - start),
        }
    }

    /// The pieces of an access to a BAR, between one cut and the next. An access of another type
    /// and an access of no bytes stay whole.
    pub open spec fn pieces(self, bar_index: u8, access: AccessView) -> Seq<AccessView> {
        match span_of(access.access_type) {
            Some((start, len)) if len > 0 => {
                let points = self.cut_points(bar_index, start, access_end(start, len));
                Seq::new(
                    (points.len() - 1) as nat,
                    |i: int| self.segment(bar_index, access, start, points[i], points[i + 1]),
                )
            },
            _ => seq![access],
        }
    }

    /// The pieces of a list of accesses, in order.
    pub open spec fn filtered(self, bar_index: u8, list: Seq<AccessView>) -> Seq<AccessView> {
        list.flat_map(|access: AccessView| self.pieces(bar_index, access))
    }

    /// Where the pieces of the `i`-th access of a list begin among the pieces of them all.
    pub open spec fn first_piece(self, bar_index: u8, list: Seq<AccessView>, i: int) -> int {
        self.filtered(bar_index, list.take(i)).len() as int
    }

    /// The stretches of `[start, end)` between one cut and the next.
    pub open spec fn stretches(self, bar_index: u8, start: u64, end: u64) -> Seq<BarLocation> {
        let points = self.cut_points(bar_index, start, end);
        Seq::new(
            (points.len() - 1) as nat,
            |i: int|
                BarLocation {
                    bar_index,
                    offset: points[i],
                    len: (points[i + 1] - points[i]) as u64,
                },
        )
    }

    /// The stretches of `[start, end)` that the device has, in increasing order.
    pub open spec fn open_stretches(self, bar_index: u8, start: u64, end: u64) -> Seq<BarLocation> {
        self.stretches(bar_index, start, end).filter(
            |piece: BarLocation| self.kind_at(bar_index, piece.offset as int) is None,
        )
    }

    /// Increasing points that hold exactly the cuts are the cut points.
    pub proof fn cut_points_are_unique(
        self,
        bar_index: u8,
        start: u64,
        end: u64,
        points: Seq<u64>,
    )
        requires
            self.cuts_at(bar_index, start, end, points),
        ensures
            self.cut_points(bar_index, start, end) == points,
    {
        let other = self.cut_points(bar_index, start, end);
        assert(self.cuts_at(bar_index, start, end, other));
        crate::bar_location::increasing_lists_are_equal(other, points);
    }

    /// Every range has its cut points.
    pub proof fn cut_points_exist(self, bar_index: u8, start: u64, end: u64)
        ensures
            self.cuts_at(bar_index, start, end, self.cut_points(bar_index, start, end)),
    {
        let none = Seq::<u64>::empty();
        let with_start = lemma_with_point(none, start);
        let ends = lemma_with_point(with_start, end);
        let with_discard = lemma_with_edges(ends, self.discard, bar_index, start, end);
        let points = lemma_with_edges(with_discard, self.emulate, bar_index, start, end);
        assert(self.cuts_at(bar_index, start, end, points)) by {
            assert forall|x: u64| #[trigger]
                points.contains(x) <==> self.is_cut(bar_index, start, end, x) by {
                assert(with_discard.contains(x) <==> ends.contains(x) || has_edge(
                    self.discard,
                    bar_index,
                    start,
                    end,
                    x,
                ));
                assert(ends.contains(x) <==> with_start.contains(x) || x == end);
                assert(with_start.contains(x) <==> none.contains(x) || x == start);
            }
        }
    }

    pub(crate) proof fn lemma_pieces_follow(
        self,
        bar_index: u8,
        list: Seq<AccessView>,
        i: int,
        n: int,
    )
        requires
            0 <= i < n <= list.len(),
        ensures
            self.first_piece(bar_index, list, i) + self.pieces(bar_index, list[i]).len()
                <= self.first_piece(bar_index, list, n),
        decreases n,
    {
        list.lemma_flat_map_take_append(
            |access: AccessView| self.pieces(bar_index, access),
            n - 1,
        );
        if i < n - 1 {
            self.lemma_pieces_follow(bar_index, list, i, n - 1);
        }
    }

    /// The first cut of a range is its start, the last its end.
    pub proof fn cut_points_span_the_range(self, bar_index: u8, start: u64, end: u64)
        requires
            start <= end,
        ensures
            self.cut_points(bar_index, start, end).len() >= 1,
            self.cut_points(bar_index, start, end).first() == start,
            self.cut_points(bar_index, start, end).last() == end,
            start < end ==> self.cut_points(bar_index, start, end).len() >= 2,
    {
        self.cut_points_exist(bar_index, start, end);
        let points = self.cut_points(bar_index, start, end);
        assert(points.contains(start) && points.contains(end));
        assert(points.contains(points.first()));
        assert(points.contains(points.last()));
        assert(start <= points.first() <= end && start <= points.last() <= end);
        let i = choose|i: int| 0 <= i < points.len() && points[i] == start;
        let j = choose|j: int| 0 <= j < points.len() && points[j] == end;
        if i > 0 {
            assert(points[0] < points[i]);
        }
        if j < points.len() - 1 {
            assert(points[j] < points[points.len() - 1]);
        }
    }

    /// No piece straddles the edge of a stretch: what holds of its first byte holds of every
    /// byte in it.
    pub proof fn pieces_are_uniform(self, bar_index: u8, start: u64, end: u64, i: int, x: int)
        requires
            start <= end,
            0 <= i < self.cut_points(bar_index, start, end).len() - 1,
            self.cut_points(bar_index, start, end)[i] <= x < self.cut_points(
                bar_index,
                start,
                end,
            )[i + 1],
        ensures
            self.kind_at(bar_index, x) == self.kind_at(
                bar_index,
                self.cut_points(bar_index, start, end)[i] as int,
            ),
    {
        self.cut_points_exist(bar_index, start, end);
        self.cut_points_span_the_range(bar_index, start, end);
        let points = self.cut_points(bar_index, start, end);
        let from = points[i];
        let to = points[i + 1];
        assert(start <= from && to <= end) by {
            if i > 0 {
                assert(points[0] < points[i]);
            }
            if i + 1 < points.len() - 1 {
                assert(points[i + 1] < points[points.len() - 1]);
            }
        }
        assert forall|y: u64|
            #![trigger has_edge(self.discard, bar_index, start, end, y)]
            #![trigger has_edge(self.emulate, bar_index, start, end, y)]
            from < y < to implies !has_edge(self.discard, bar_index, start, end, y) && !has_edge(
            self.emulate,
            bar_index,
            start,
            end,
            y,
        ) by {
            if self.is_cut(bar_index, start, end, y) {
                assert(points.contains(y));
                let k = choose|k: int| 0 <= k < points.len() && points[k] == y;
                if k <= i {
                    assert(k == i || points[k] < points[i]);
                } else {
                    assert(k == i + 1 || points[i + 1] < points[k]);
                }
            }
        }
        lemma_uniform(self.discard, bar_index, start, end, from, to, x);
        lemma_uniform(self.emulate, bar_index, start, end, from, to, x);
    }

    /// An access that meets no blocked stretch of its BAR stays whole.
    pub proof fn unblocked_access_stays_whole(self, bar_index: u8, access: AccessView)
        requires
            span_of(access.access_type) matches Some((start, len)) && start + len <= u64::MAX
                && access.bytes.len() == len && forall|i: int|
                #![trigger self.discard[i]]
                0 <= i < self.discard.len() && self.discard[i].bar_index == bar_index ==> !meets(
                    self.discard[i],
                    start,
                    (start + len) as u64,
                ),
            span_of(access.access_type) matches Some((start, len)) && forall|i: int|
                #![trigger self.emulate[i]]
                0 <= i < self.emulate.len() && self.emulate[i].bar_index == bar_index ==> !meets(
                    self.emulate[i],
                    start,
                    (start + len) as u64,
                ),
        ensures
            self.pieces(bar_index, access) == seq![access],
    {
        let (start, len) = span_of(access.access_type)->Some_0;
        if len > 0 {
            let end = (start + len) as u64;
            let points = seq![start, end];
            assert(self.cuts_at(bar_index, start, end, points)) by {
                assert forall|x: u64| #[trigger]
                    points.contains(x) <==> self.is_cut(bar_index, start, end, x) by {
                    assert(points[0] == start && points[1] == end);
                    if has_edge(self.discard, bar_index, start, end, x) {
                        let k = choose|k: int|
                            0 <= k < self.discard.len() && (#[trigger] self.discard[k]).bar_index
                                == bar_index && meets(self.discard[k], start, end) && is_edge(
                                self.discard[k],
                                start,
                                end,
                                x,
                            );
                        assert(!meets(self.discard[k], start, end));
                    }
                    if has_edge(self.emulate, bar_index, start, end, x) {
                        let k = choose|k: int|
                            0 <= k < self.emulate.len() && (#[trigger] self.emulate[k]).bar_index
                                == bar_index && meets(self.emulate[k], start, end) && is_edge(
                                self.emulate[k],
                                start,
                                end,
                                x,
                            );
                        assert(!meets(self.emulate[k], start, end));
                    }
                }
            }
            self.cut_points_are_unique(bar_index, start, end, points);
            assert(self.kind_at(bar_index, start as int) is None) by {
                if covered(self.discard, bar_index, start as int) {
                    let k = choose|k: int|
                        0 <= k < self.discard.len() && (#[trigger] self.discard[k]).bar_index
                            == bar_index && self.discard[k].covers(start as int);
                    assert(meets(self.discard[k], start, end));
                }
                if covered(self.emulate, bar_index, start as int) {
                    let k = choose|k: int|
                        0 <= k < self.emulate.len() && (#[trigger] self.emulate[k]).bar_index
                            == bar_index && self.emulate[k].covers(start as int);
                    assert(meets(self.emulate[k], start, end));
                }
            }
            let pieces = self.pieces(bar_index, access);
            assert(access.bytes.subrange(0, len as int) =~= access.bytes);
            assert(pieces.len() == 1);
            assert(pieces[0] == access);
            assert(pieces =~= seq![access]);
        }
    }

    /// Put together again, the pieces of an access are the bytes it named.
    pub proof fn pieces_hold_the_access(self, bar_index: u8, access: AccessView)
        requires
            span_of(access.access_type) matches Some((start, len)) && len > 0 && access_end(
                start,
                len,
            ) - start <= access.bytes.len(),
        ensures
            span_of(access.access_type) matches Some((start, len)) && self.pieces(
                bar_index,
                access,
            ).map_values(|piece: AccessView| piece.bytes).flatten() == access.bytes.take(
                access_end(start, len) - start,
            ),
    {
        let (start, len) = span_of(access.access_type)->Some_0;
        let end = access_end(start, len);
        let points = self.cut_points(bar_index, start, end);
        self.cut_points_exist(bar_index, start, end);
        self.cut_points_span_the_range(bar_index, start, end);
        let pieces = self.pieces(bar_index, access);
        lemma_segments(points, access.bytes, start, (points.len() - 1) as int);
        let parts = pieces.map_values(|piece: AccessView| piece.bytes);
        assert(parts =~= Seq::new(
            (points.len() - 1) as nat,
            |i: int| access.bytes.subrange(points[i] - start, points[i + 1] - start),
        ));
    }

    /// A piece of an access is not cut again.
    pub proof fn pieces_are_not_cut_again(self, bar_index: u8, access: AccessView, k: int)
        requires
            span_of(access.access_type) matches Some((start, len)) ==> access_end(start, len)
                - start <= access.bytes.len(),
            0 <= k < self.pieces(bar_index, access).len(),
        ensures
            self.pieces(bar_index, self.pieces(bar_index, access)[k]) == seq![
                self.pieces(bar_index, access)[k],
            ],
    {
        let piece = self.pieces(bar_index, access)[k];
        if span_of(access.access_type) is Some && span_of(access.access_type)->Some_0.1 > 0
            && span_of(piece.access_type) is Some {
            let (start, len) = span_of(access.access_type)->Some_0;
            let end = access_end(start, len);
            let points = self.cut_points(bar_index, start, end);
            self.cut_points_exist(bar_index, start, end);
            self.cut_points_span_the_range(bar_index, start, end);
            let from = points[k];
            let to = points[k + 1];
            assert(points[k] < points[k + 1]);
            assert(k == 0 || points[0] < points[k]);
            assert(k + 1 == points.len() - 1 || points[k + 1] < points[points.len() - 1]);
            assert(self.kind_at(bar_index, from as int) is None);
            assert(span_of(piece.access_type) == Some((from, (to - from) as usize)));
            let ends = seq![from, to];
            assert(self.cuts_at(bar_index, from, to, ends)) by {
                assert forall|x: u64| #[trigger]
                    ends.contains(x) <==> self.is_cut(bar_index, from, to, x) by {
                    assert(ends[0] == from && ends[1] == to);
                    if has_edge(self.discard, bar_index, from, to, x) {
                        lemma_edge_of_the_whole(self.discard, bar_index, start, end, from, to, x);
                    }
                    if has_edge(self.emulate, bar_index, from, to, x) {
                        lemma_edge_of_the_whole(self.emulate, bar_index, start, end, from, to, x);
                    }
                    if from < x < to && self.is_cut(bar_index, start, end, x) {
                        assert(points.contains(x));
                        let m = choose|m: int| 0 <= m < points.len() && points[m] == x;
                        assert(m <= k ==> points[m] <= points[k]);
                        assert(m > k ==> points[k + 1] <= points[m]);
                    }
                }
            }
            self.cut_points_are_unique(bar_index, from, to, ends);
            assert(piece.bytes.subrange(0, to - from) =~= piece.bytes);
            assert(self.pieces(bar_index, piece) =~= seq![piece]);
        }
    }

    /// The pieces of a read are reads, those of a write are writes.
    pub proof fn pieces_keep_their_direction(self, bar_index: u8, access: AccessView)
        ensures
            forall|k: int|
                0 <= k < self.pieces(bar_index, access).len() ==> (#[trigger] self.pieces(
                    bar_index,
                    access,
                )[k]).write == access.write,
    {
    }

    /// A byte of the range lies in an open stretch exactly if no blocked stretch covers it.
    pub proof fn open_stretches_hold_the_unblocked_bytes(
        self,
        bar_index: u8,
        start: u64,
        end: u64,
        x: int,
    )
        requires
            start <= end,
        ensures
            covered(self.open_stretches(bar_index, start, end), bar_index, x) <==> (start <= x < end
                && self.kind_at(bar_index, x) is None),
    {
        let points = self.cut_points(bar_index, start, end);
        let all = self.stretches(bar_index, start, end);
        let free = |piece: BarLocation| self.kind_at(bar_index, piece.offset as int) is None;
        let open = all.filter(free);
        self.cut_points_exist(bar_index, start, end);
        self.cut_points_span_the_range(bar_index, start, end);
        if covered(open, bar_index, x) {
            let k = choose|k: int|
                0 <= k < open.len() && (#[trigger] open[k]).bar_index == bar_index
                    && open[k].covers(x);
            all.lemma_filter_contains_rev(free, open[k]);
            all.lemma_filter_pred(free, k);
            let i = choose|i: int| 0 <= i < all.len() && all[i] == open[k];
            assert(points[i] < points[i + 1]);
            self.pieces_are_uniform(bar_index, start, end, i, x);
            if i > 0 {
                assert(points[0] < points[i]);
            }
            if i + 1 < points.len() - 1 {
                assert(points[i + 1] < points[points.len() - 1]);
            }
        }
        if start <= x < end && self.kind_at(bar_index, x) is None {
            let i = lemma_find_piece(points, x);
            assert(points[i] < points[i + 1]);
            self.pieces_are_uniform(bar_index, start, end, i, x);
            assert(free(all[i]));
            all.lemma_filter_contains(free, i);
            let k = choose|k: int| 0 <= k < open.len() && open[k] == all[i];
            assert(open[k].covers(x));
        }
    }

    /// The open stretches of a range stand in increasing order, apart from each other, and none
    /// is empty.
    pub proof fn open_stretches_are_apart(self, bar_index: u8, start: u64, end: u64)
        requires
            start <= end,
        ensures
            forall|i: int|
                0 <= i < self.open_stretches(bar_index, start, end).len() ==> {
                    let piece = #[trigger] self.open_stretches(bar_index, start, end)[i];
                    piece.bar_index == bar_index && piece.len > 0 && start <= piece.offset
                        && piece.offset + piece.len <= end
                },
            forall|i: int, j: int|
                0 <= i < j < self.open_stretches(bar_index, start, end).len() ==> (
                #[trigger] self.open_stretches(bar_index, start, end)[i]).spec_end() <= (
                #[trigger] self.open_stretches(bar_index, start, end)[j]).offset,
    {
        let points = self.cut_points(bar_index, start, end);
        let all = self.stretches(bar_index, start, end);
        let free = |piece: BarLocation| self.kind_at(bar_index, piece.offset as int) is None;
        self.cut_points_exist(bar_index, start, end);
        self.cut_points_span_the_range(bar_index, start, end);
        assert forall|i: int| 0 <= i < all.len() implies {
            let piece = #[trigger] all[i];
            piece.bar_index == bar_index && piece.len > 0 && start <= piece.offset && piece.offset
                + piece.len <= end
        } by {
            assert(points[i] < points[i + 1]);
            if i > 0 {
                assert(points[0] < points[i]);
            }
            if i + 1 < points.len() - 1 {
                assert(points[i + 1] < points[points.len() - 1]);
            }
        }
        assert forall|i: int, j: int| 0 <= i < j < all.len() implies (
        #[trigger] all[i]).spec_end() <= (#[trigger] all[j]).offset by {
            assert(points[i] < points[i + 1]);
            assert(i + 1 == j || points[i + 1] < points[j]);
        }
        lemma_filter_keeps_apart(all, free, bar_index, start, end);
    }
}

proof fn lemma_with_point(points: Seq<u64>, x: u64) -> (r: Seq<u64>)
    requires
        increasing(points),
    ensures
        increasing(r),
        forall|y: u64| #[trigger] r.contains(y) <==> points.contains(y) || y == x,
    decreases points.len(),
{
    if points.len() == 0 {
        let r = seq![x];
        assert(r[0] == x);
        r
    } else {
        let last = points.last();
        let init = points.drop_last();
        assert(points =~= init.push(last));
        assert forall|y: u64| #[trigger] points.contains(y) <==> init.contains(y) || y == last by {
            if init.contains(y) {
                let k = choose|k: int| 0 <= k < init.len() && init[k] == y;
                assert(points[k] == y);
            }
            if points.contains(y) && y != last {
                let k = choose|k: int| 0 <= k < points.len() && points[k] == y;
                assert(init[k] == y);
            }
            if y == last {
                assert(points[points.len() - 1] == y);
            }
        }
        if x == last {
            points
        } else if last < x {
            let r = points.push(x);
            assert forall|y: u64| #[trigger] r.contains(y) <==> points.contains(y) || y == x by {
                if points.contains(y) {
                    let k = choose|k: int| 0 <= k < points.len() && points[k] == y;
                    assert(r[k] == y);
                }
                assert(r[r.len() - 1] == x);
            }
            r
        } else {
            let rest = lemma_with_point(init, x);
            let r = rest.push(last);
            assert forall|i: int, j: int| 0 <= i < j < r.len() implies #[trigger] r[i]
                < #[trigger] r[j] by {
                if j == r.len() - 1 {
                    assert(rest.contains(rest[i]));
                    if init.contains(rest[i]) {
                        let k = choose|k: int| 0 <= k < init.len() && init[k] == rest[i];
                        assert(points[k] < points[points.len() - 1]);
                    }
                }
            }
            assert forall|y: u64| #[trigger] r.contains(y) <==> points.contains(y) || y == x by {
                assert(points.contains(y) <==> init.contains(y) || y == last);
                if rest.contains(y) {
                    let k = choose|k: int| 0 <= k < rest.len() && rest[k] == y;
                    assert(r[k] == y);
                }
                if r.contains(y) && y != last {
                    let k = choose|k: int| 0 <= k < r.len() && r[k] == y;
                    assert(rest[k] == y);
                    assert(rest.contains(y));
                }
                assert(r[r.len() - 1] == last);
                assert(rest.contains(y) <==> init.contains(y) || y == x);
            }
            r
        }
    }
}

proof fn lemma_with_edges(
    points: Seq<u64>,
    list: Seq<BarLocation>,
    bar_index: u8,
    start: u64,
    end: u64,
) -> (r: Seq<u64>)
    requires
        increasing(points),
    ensures
        increasing(r),
        forall|y: u64| #[trigger]
            r.contains(y) <==> points.contains(y) || has_edge(list, bar_index, start, end, y),
    decreases list.len(),
{
    if list.len() == 0 {
        points
    } else {
        let init = list.drop_last();
        let last = list.last();
        let rest = lemma_with_edges(points, init, bar_index, start, end);
        let hit = last.bar_index == bar_index && meets(last, start, end);
        assert forall|y: u64| #[trigger]
            has_edge(list, bar_index, start, end, y) <==> has_edge(init, bar_index, start, end, y)
                || (hit && is_edge(last, start, end, y)) by {
            if has_edge(list, bar_index, start, end, y) {
                let k = choose|k: int|
                    0 <= k < list.len() && (#[trigger] list[k]).bar_index == bar_index && meets(
                        list[k],
                        start,
                        end,
                    ) && is_edge(list[k], start, end, y);
                if k < list.len() - 1 {
                    assert(init[k] == list[k]);
                }
            }
            if has_edge(init, bar_index, start, end, y) {
                let k = choose|k: int|
                    0 <= k < init.len() && (#[trigger] init[k]).bar_index == bar_index && meets(
                        init[k],
                        start,
                        end,
                    ) && is_edge(init[k], start, end, y);
                assert(list[k] == init[k]);
            }
            if hit && is_edge(last, start, end, y) {
                assert(list[list.len() - 1] == last);
            }
        }
        if hit {
            let low = if start < last.offset { last.offset } else { start };
            let high = if last.spec_end() < end { last.spec_end() } else { end };
            let one = lemma_with_point(rest, low);
            let two = lemma_with_point(one, high);
            assert forall|y: u64| #[trigger]
                two.contains(y) <==> points.contains(y) || has_edge(
                list,
                bar_index,
                start,
                end,
                y,
            ) by {
                assert(one.contains(y) <==> rest.contains(y) || y == low);
            }
            two
        } else {
            rest
        }
    }
}

proof fn lemma_uniform(
    list: Seq<BarLocation>,
    bar_index: u8,
    start: u64,
    end: u64,
    from: u64,
    to: u64,
    x: int,
)
    requires
        start <= from <= x < to <= end,
        forall|y: u64| from < y < to ==> !#[trigger] has_edge(list, bar_index, start, end, y),
    ensures
        covered(list, bar_index, x) == covered(list, bar_index, from as int),
{
    if covered(list, bar_index, x) != covered(list, bar_index, from as int) {
        let at = if covered(list, bar_index, x) { x } else { from as int };
        let k = choose|k: int|
            0 <= k < list.len() && (#[trigger] list[k]).bar_index == bar_index
                && list[k].covers(at);
        let edge = if at == from as int { list[k].spec_end() } else { list[k].offset };
        assert(!list[k].covers(if at == x { from as int } else { x }));
        assert(meets(list[k], start, end));
        assert(from < edge < to);
        assert(is_edge(list[k], start, end, edge));
        assert(has_edge(list, bar_index, start, end, edge));
    }
}

proof fn lemma_edge_of_the_whole(
    list: Seq<BarLocation>,
    bar_index: u8,
    start: u64,
    end: u64,
    from: u64,
    to: u64,
    x: u64,
)
    requires
        start <= from < to <= end,
        has_edge(list, bar_index, from, to, x),
    ensures
        x == from || x == to || (from < x < to && has_edge(list, bar_index, start, end, x)),
{
    let i = choose|i: int|
        0 <= i < list.len() && (#[trigger] list[i]).bar_index == bar_index && meets(
            list[i],
            from,
            to,
        ) && is_edge(list[i], from, to, x);
    assert(meets(list[i], start, end));
    if x != from && x != to {
        assert(is_edge(list[i], start, end, x));
    }
}

proof fn lemma_find_piece(points: Seq<u64>, x: int) -> (i: int)
    requires
        points.len() >= 1,
        points.first() <= x < points.last(),
    ensures
        0 <= i < points.len() - 1,
        points[i] <= x < points[i + 1],
    decreases points.len(),
{
    if x >= points[points.len() - 2] {
        points.len() - 2
    } else {
        lemma_find_piece(points.drop_last(), x)
    }
}

proof fn lemma_segments(points: Seq<u64>, bytes: Seq<u8>, start: u64, n: int)
    requires
        increasing(points),
        points.len() >= 1,
        points.first() == start,
        points.last() - start <= bytes.len(),
        0 <= n < points.len(),
    ensures
        Seq::new(
            n as nat,
            |i: int| bytes.subrange(points[i] - start, points[i + 1] - start),
        ).flatten() == bytes.take(points[n] - start),
    decreases n,
{
    let part = |i: int| bytes.subrange(points[i] - start, points[i + 1] - start);
    let parts = Seq::new(n as nat, part);
    if n == 0 {
        assert(parts.flatten() =~= bytes.take(0));
    } else {
        lemma_segments(points, bytes, start, n - 1);
        let init = Seq::new((n - 1) as nat, part);
        assert(parts =~= init.push(part(n - 1)));
        init.lemma_flatten_push(part(n - 1));
        assert(points[n - 1] < points[n]);
        assert(n == points.len() - 1 || points[n] < points[points.len() - 1]);
        assert(n == 1 || points[0] < points[n - 1]);
        assert(bytes.take(points[n] - start) =~= bytes.take(points[n - 1] - start) + part(n - 1));
    }
}

proof fn lemma_filter_keeps_apart(
    all: Seq<BarLocation>,
    pred: spec_fn(BarLocation) -> bool,
    bar_index: u8,
    start: u64,
    end: u64,
)
    requires
        forall|i: int|
            0 <= i < all.len() ==> {
                let piece = #[trigger] all[i];
                piece.bar_index == bar_index && piece.len > 0 && start <= piece.offset
                    && piece.offset + piece.len <= end
            },
        forall|i: int, j: int|
            0 <= i < j < all.len() ==> (#[trigger] all[i]).spec_end() <= (
            #[trigger] all[j]).offset,
    ensures
        forall|i: int|
            0 <= i < all.filter(pred).len() ==> {
                let piece = #[trigger] all.filter(pred)[i];
                piece.bar_index == bar_index && piece.len > 0 && start <= piece.offset
                    && piece.offset + piece.len <= end
            },
        forall|i: int, j: int|
            0 <= i < j < all.filter(pred).len() ==> (#[trigger] all.filter(pred)[i]).spec_end() <= (
            #[trigger] all.filter(pred)[j]).offset,
        all.len() > 0 ==> forall|i: int|
            0 <= i < all.filter(pred).len() ==> (#[trigger] all.filter(pred)[i]).spec_end()
                <= all.last().spec_end(),
    decreases all.len(),
{
    reveal(Seq::filter);
    if all.len() > 0 {
        let init = all.drop_last();
        assert(all[all.len() - 1] == all.last());
        assert forall|i: int| 0 <= i < init.len() implies init[i] == all[i] by {}
        lemma_filter_keeps_apart(init, pred, bar_index, start, end);
        if init.len() > 0 {
            assert(all[init.len() - 1] == init.last());
        }
        let rest = init.filter(pred);
        let r = all.filter(pred);
        assert(r == if pred(all.last()) { rest.push(all.last()) } else { rest });
        if init.len() == 0 {
            assert(rest.len() == 0);
        }
    }
}

} // verus!

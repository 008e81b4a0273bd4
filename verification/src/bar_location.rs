//! Stretches of a BAR, and how a list of them cuts an access into pieces.

use vstd::prelude::*;

verus! {

/// A stretch of `len` bytes that starts `offset` bytes into a BAR.
#[derive(Debug, Clone, Copy, PartialEq, Eq)]
pub struct BarLocation {
    /// Number of the BAR.
    pub bar_index: u8,
    /// Offset of the first byte from the start of the BAR.
    pub offset: u64,
    /// Length in bytes.
    pub len: u64,
}

impl BarLocation {
    /// The offset just behind the stretch, capped at the largest `u64`.
    pub open spec fn spec_end(self) -> u64 {
        if self.offset + self.len > u64::MAX {
            u64::MAX
        } else {
            (self.offset + self.len) as u64
        }
    }

    /// Whether the byte at `offset` belongs to the stretch.
    pub open spec fn covers(self, offset: int) -> bool {
        self.offset <= offset < self.spec_end()
    }

    /// The offset just behind the stretch; it saturates instead of wrapping.
    pub fn end(self) -> (r: u64)
        ensures
            r == self.spec_end(),
    {
        self.offset.saturating_add(self.len)
    }

    /// Whether the byte at `offset` belongs to the stretch.
    pub fn contains(self, offset: u64) -> (r: bool)
        ensures
            r == self.covers(offset as int),
    {
        self.offset <= offset && offset < self.end()
    }
}

/// Whether some stretch of BAR `bar_index` in `list` covers the byte at `offset`.
pub open spec fn covered(list: Seq<BarLocation>, bar_index: u8, offset: int) -> bool {
    exists|i: int|
        0 <= i < list.len() && (#[trigger] list[i]).bar_index == bar_index && list[i].covers(offset)
}

/// The order of a list of stretches: by BAR, then by offset.
pub open spec fn not_after(a: BarLocation, b: BarLocation) -> bool {
    a.bar_index < b.bar_index || (a.bar_index == b.bar_index && a.offset <= b.offset)
}

/// A list of stretches in the order of `not_after`.
pub open spec fn in_order(list: Seq<BarLocation>) -> bool {
    forall|i: int, j: int|
        0 <= i < j < list.len() ==> not_after(#[trigger] list[i], #[trigger] list[j])
}

/// Where `location` goes in `list`: just behind the last entry that may stand before it.
pub open spec fn insertion_point(list: Seq<BarLocation>, location: BarLocation) -> int
    decreases list.len(),
{
    if list.len() == 0 {
        0
    } else if not_after(list.last(), location) {
        list.len() as int
    } else {
        insertion_point(list.drop_last(), location)
    }
}

/// The insertion point lies in the list: all entries behind it go after the new stretch, and the
/// one just before it does not.
pub proof fn insertion_point_is_in_the_list(list: Seq<BarLocation>, location: BarLocation)
    ensures
        0 <= insertion_point(list, location) <= list.len(),
        forall|i: int|
            insertion_point(list, location) <= i < list.len() ==> !not_after(
                #[trigger] list[i],
                location,
            ),
        insertion_point(list, location) > 0 ==> not_after(
            list[insertion_point(list, location) - 1],
            location,
        ),
    decreases list.len(),
{
    if list.len() > 0 && !not_after(list.last(), location) {
        insertion_point_is_in_the_list(list.drop_last(), location);
        let p = insertion_point(list, location);
        assert forall|i: int| p <= i < list.len() implies !not_after(
            #[trigger] list[i],
            location,
        ) by {
            if i < list.len() - 1 {
                assert(list.drop_last()[i] == list[i]);
            }
        }
    }
}

/// An ordered list stays ordered when a stretch is put in at its insertion point.
pub proof fn insertion_keeps_order(list: Seq<BarLocation>, location: BarLocation)
    requires
        in_order(list),
    ensures
        in_order(list.insert(insertion_point(list, location), location)),
{
    insertion_point_is_in_the_list(list, location);
    let p = insertion_point(list, location);
    let new = list.insert(p, location);
    assert forall|i: int, j: int| 0 <= i < j < new.len() implies not_after(
        #[trigger] new[i],
        #[trigger] new[j],
    ) by {
        if j == p {
            assert(new[i] == list[i]);
            assert(not_after(list[p - 1], location));
            if i < p - 1 {
                assert(not_after(list[i], list[p - 1]));
            }
        } else if i == p {
            assert(new[j] == list[j - 1]);
        } else {
            let a = if i < p { i } else { i - 1 };
            let b = if j < p { j } else { j - 1 };
            assert(new[i] == list[a] && new[j] == list[b]);
            assert(not_after(list[a], list[b]));
        }
    }
}

/// Puts `location` into `list` behind every entry that may stand before it.
pub fn insert_in_order(list: &mut Vec<BarLocation>, location: BarLocation)
    ensures
        final(list)@ == old(list)@.insert(insertion_point(old(list)@, location), location),
        in_order(old(list)@) ==> in_order(final(list)@),
{
    let mut at: usize = list.len();
    proof {
        assert(list@.take(at as int) =~= list@);
        if in_order(list@) {
            insertion_keeps_order(list@, location);
        }
        insertion_point_is_in_the_list(list@, location);
    }
    while at > 0 && (list[at - 1].bar_index > location.bar_index || (list[at - 1].bar_index
        == location.bar_index && list[at - 1].offset > location.offset))
        invariant
            at <= list@.len(),
            list@ == old(list)@,
            insertion_point(list@, location) == insertion_point(list@.take(at as int), location),
        decreases at,
    {
        proof {
            let t = list@.take(at as int);
            assert(t.last() == list@[at - 1]);
            assert(t.drop_last() =~= list@.take(at - 1));
        }
        at = at - 1;
    }
    proof {
        let t = list@.take(at as int);
        if at > 0 {
            assert(t.last() == list@[at - 1]);
        }
    }
    list.insert(at, location);
}

/// Strictly increasing.
pub open spec fn increasing(points: Seq<u64>) -> bool {
    forall|i: int, j: int| 0 <= i < j < points.len() ==> #[trigger] points[i] < #[trigger] points[j]
}

/// Whether the stretch meets `[start, end)`. An empty stretch strictly inside counts.
pub open spec fn meets(location: BarLocation, start: u64, end: u64) -> bool {
    start < location.spec_end() && location.offset < end
}

/// Whether `x` is where the stretch begins or ends within `[start, end]`.
pub open spec fn is_edge(location: BarLocation, start: u64, end: u64, x: u64) -> bool {
    ||| x == if start < location.offset { location.offset } else { start }
    ||| x == if location.spec_end() < end { location.spec_end() } else { end }
}

/// Whether a stretch of `list` in BAR `bar_index` that meets `[start, end)` begins or ends at `x`.
pub open spec fn has_edge(
    list: Seq<BarLocation>,
    bar_index: u8,
    start: u64,
    end: u64,
    x: u64,
) -> bool {
    exists|i: int|
        0 <= i < list.len() && (#[trigger] list[i]).bar_index == bar_index && meets(
            list[i],
            start,
            end,
        ) && is_edge(list[i], start, end, x)
}

/// Puts `x` among increasing points unless it is there already.
pub fn insert_point(points: &mut Vec<u64>, x: u64)
    requires
        increasing(old(points)@),
    ensures
        increasing(final(points)@),
        forall|y: u64| #[trigger]
            final(points)@.contains(y) <==> old(points)@.contains(y) || y == x,
{
    let ghost before = points@;
    let mut at: usize = points.len();
    while at > 0 && points[at - 1] > x
        invariant
            at <= points@.len(),
            points@ == before,
            increasing(before),
            forall|i: int| at <= i < points@.len() ==> points@[i] > x,
        decreases at,
    {
        at = at - 1;
    }
    if at > 0 && points[at - 1] == x {
        assert(before.contains(before[at - 1]));
        return ;
    }
    points.insert(at, x);
    proof {
        let after = points@;
        assert(after == before.insert(at as int, x));
        assert forall|i: int, j: int| 0 <= i < j < after.len() implies #[trigger] after[i]
            < #[trigger] after[j] by {
            let a = if i < at { i } else { i - 1 };
            let b = if j < at { j } else { j - 1 };
            if i != at {
                assert(after[i] == before[a]);
            }
            if j != at {
                assert(after[j] == before[b]);
            }
            if at > 0 {
                assert(before[at - 1] < x);
            }
        }
        assert forall|y: u64| #[trigger] after.contains(y) <==> before.contains(y) || y == x by {
            if after.contains(y) {
                let i = choose|i: int| 0 <= i < after.len() && after[i] == y;
                if i < at {
                    assert(before[i] == y);
                } else if i > at {
                    assert(before[i - 1] == y);
                }
            }
            if before.contains(y) {
                let i = choose|i: int| 0 <= i < before.len() && before[i] == y;
                if i < at {
                    assert(after[i] == y);
                } else {
                    assert(after[i + 1] == y);
                }
            }
            if y == x {
                assert(after[at as int] == y);
            }
        }
    }
}

/// Two increasing lists of the same points are the same list.
pub proof fn increasing_lists_are_equal(a: Seq<u64>, b: Seq<u64>)
    requires
        increasing(a),
        increasing(b),
        forall|x: u64| #[trigger] a.contains(x) <==> b.contains(x),
    ensures
        a == b,
    decreases a.len(),
{
    if a.len() == 0 {
        if b.len() > 0 {
            assert(b.contains(b[0]));
            assert(a.contains(b[0]));
        }
        assert(a =~= b);
    } else {
        assert(a.contains(a.last()));
        assert(b.len() > 0);
        assert(b.contains(b.last()));
        assert(a.contains(b.last()));
        let i = choose|i: int| 0 <= i < b.len() && b[i] == a.last();
        let j = choose|j: int| 0 <= j < a.len() && a[j] == b.last();
        assert(a.last() == b.last()) by {
            if i < b.len() - 1 {
                assert(b[i] < b[b.len() - 1]);
            }
            if j < a.len() - 1 {
                assert(a[j] < a[a.len() - 1]);
            }
        }
        let a0 = a.drop_last();
        let b0 = b.drop_last();
        assert forall|x: u64| #[trigger] a0.contains(x) <==> b0.contains(x) by {
            if a0.contains(x) {
                let k = choose|k: int| 0 <= k < a0.len() && a0[k] == x;
                assert(a[k] == x && a[k] < a[a.len() - 1]);
                assert(a.contains(x));
                let m = choose|m: int| 0 <= m < b.len() && b[m] == x;
                assert(b0[m] == x);
            }
            if b0.contains(x) {
                let k = choose|k: int| 0 <= k < b0.len() && b0[k] == x;
                assert(b[k] == x && b[k] < b[b.len() - 1]);
                assert(b.contains(x));
                assert(a.contains(x));
                let m = choose|m: int| 0 <= m < a.len() && a[m] == x;
                assert(a0[m] == x);
            }
        }
        increasing_lists_are_equal(a0, b0);
        assert(a =~= a0.push(a.last()));
        assert(b =~= b0.push(b.last()));
    }
}

} // verus!

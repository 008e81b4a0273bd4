//! Which guest memory is mapped for DMA, and what each container has to be told about it.

use vstd::prelude::*;

verus! {

/// What a container is to be told.
#[derive(Debug, Clone, Copy, PartialEq, Eq)]
#[allow(inconsistent_fields)]
pub enum DmaRequest {
    /// Map `size` bytes at `user_addr` for the device to reach at `iova`.
    DmaMap { container: usize, iova: u64, size: u64, user_addr: u64 },
    /// Take back the mapping of `size` bytes at `iova`.
    DmaUnmap { container: usize, iova: u64, size: u64 },
}

/// The requests that map a region in each of `n` containers.
pub open spec fn map_requests(n: nat, iova: u64, size: u64, user_addr: u64) -> Seq<DmaRequest> {
    Seq::new(n, |i: int| DmaRequest::DmaMap { container: i as usize, iova, size, user_addr })
}

/// The requests that take a region back from each of `n` containers.
pub open spec fn unmap_requests(n: nat, region: (u64, u64)) -> Seq<DmaRequest> {
    Seq::new(
        n,
        |i: int| DmaRequest::DmaUnmap { container: i as usize, iova: region.0, size: region.1 },
    )
}

/// The requests that take every region back from each of `n` containers, region by region.
pub open spec fn unmap_all_requests(n: nat, regions: Seq<(u64, u64)>) -> Seq<DmaRequest> {
    regions.flat_map(|region: (u64, u64)| unmap_requests(n, region))
}

/// What tells the other regions from one of them.
pub open spec fn other_than(gone: (u64, u64)) -> spec_fn((u64, u64)) -> bool {
    |region: (u64, u64)| region != gone
}

/// The regions without one of them.
pub open spec fn without(regions: Seq<(u64, u64)>, gone: (u64, u64)) -> Seq<(u64, u64)> {
    regions.filter(other_than(gone))
}

/// Keeps the guest memory mapped in the containers.
#[derive(Debug)]
pub struct DmaEngine<C> {
    /// The containers, in the order in which they were registered.
    pub containers: Vec<C>,
    /// The mapped regions: guest physical address and length.
    pub mapped_guest_regions: Vec<(u64, u64)>,
}

impl<C> DmaEngine<C> {
    /// Makes an engine without containers and regions.
    pub fn new() -> (r: Self)
        ensures
            r.containers@.len() == 0,
            r.mapped_guest_regions@.len() == 0,
    {
        DmaEngine { containers: Vec::new(), mapped_guest_regions: Vec::new() }
    }

    /// Registers a container for the mappings to come.
    pub fn register_container(&mut self, container: C)
        ensures
            final(self).containers@ == old(self).containers@.push(container),
            final(self).mapped_guest_regions@ == old(self).mapped_guest_regions@,
    {
        self.containers.push(container);
    }

    /// Takes note of a region and says what to tell the containers. A region that is mapped
    /// already is refused.
    pub fn map_guest_memory(&mut self, gpa: u64, len: u64, usr_addr: u64) -> (r: Result<
        Vec<DmaRequest>,
        (),
    >)
        ensures
            final(self).containers@ == old(self).containers@,
            r is Err <==> old(self).mapped_guest_regions@.contains((gpa, len)),
            r is Err ==> final(self).mapped_guest_regions@ == old(self).mapped_guest_regions@,
            r matches Ok(requests) ==> {
                &&& final(self).mapped_guest_regions@ == old(self).mapped_guest_regions@.push(
                    (gpa, len),
                )
                &&& requests@ == map_requests(old(self).containers@.len(), gpa, len, usr_addr)
            },
            old(self).mapped_guest_regions@.no_duplicates()
                ==> final(self).mapped_guest_regions@.no_duplicates(),
    {
        let mut i: usize = 0;
        while i < self.mapped_guest_regions.len()
            invariant
                *self == *old(self),
                i <= self.mapped_guest_regions@.len(),
                forall|j: int|
                    0 <= j < i ==> #[trigger] self.mapped_guest_regions@[j] != (gpa, len),
            decreases self.mapped_guest_regions@.len() - i,
        {
            let (start, l) = self.mapped_guest_regions[i];
            if start == gpa && l == len {
                return Err(());
            }
            i = i + 1;
        }
        self.mapped_guest_regions.push((gpa, len));
        let mut requests: Vec<DmaRequest> = Vec::new();
        let mut container: usize = 0;
        while container < self.containers.len()
            invariant
                container <= self.containers@.len(),
                requests@ == map_requests(container as nat, gpa, len, usr_addr),
            decreases self.containers@.len() - container,
        {
            requests.push(
                DmaRequest::DmaMap { container, iova: gpa, size: len, user_addr: usr_addr },
            );
            container = container + 1;
        }
        Ok(requests)
    }

    /// Forgets a region and says what to tell the containers, whether it was mapped or not.
    pub fn unmap_guest_memory(&mut self, gpa: u64, len: u64, usr_addr: u64) -> (r: Result<
        Vec<DmaRequest>,
        (),
    >)
        ensures
            final(self).containers@ == old(self).containers@,
            final(self).mapped_guest_regions@ == without(
                old(self).mapped_guest_regions@,
                (gpa, len),
            ),
            r matches Ok(requests) && requests@ == unmap_requests(
                old(self).containers@.len(),
                (gpa, len),
            ),
            old(self).mapped_guest_regions@.no_duplicates()
                ==> final(self).mapped_guest_regions@.no_duplicates(),
    {
        self.forget(gpa, len);
        let requests = unmap_in_each(self.containers.len(), (gpa, len));
        Ok(requests)
    }

    /// Takes a region out of the mapped regions.
    fn forget(&mut self, gpa: u64, len: u64)
        ensures
            final(self).containers@ == old(self).containers@,
            final(self).mapped_guest_regions@ == without(
                old(self).mapped_guest_regions@,
                (gpa, len),
            ),
            old(self).mapped_guest_regions@.no_duplicates()
                ==> final(self).mapped_guest_regions@.no_duplicates(),
    {
        let ghost before = self.mapped_guest_regions@;
        let ghost kept = other_than((gpa, len));
        let mut rest: Vec<(u64, u64)> = Vec::new();
        let mut i: usize = 0;
        proof {
            reveal(Seq::filter);
            assert(rest@ =~= before.take(0).filter(kept));
        }
        while i < self.mapped_guest_regions.len()
            invariant
                self.mapped_guest_regions@ == before,
                self.containers@ == old(self).containers@,
                kept == other_than((gpa, len)),
                i <= before.len(),
                rest@ == before.take(i as int).filter(kept),
            decreases before.len() - i,
        {
            let (start, region_len) = self.mapped_guest_regions[i];
            proof {
                assert(before.take(i + 1) =~= before.take(i as int).push(before[i as int]));
                before.take(i as int).lemma_filter_push(before[i as int], kept);
            }
            if !(start == gpa && region_len == len) {
                rest.push((start, region_len));
            }
            i = i + 1;
        }
        proof {
            assert(before.take(i as int) =~= before);
            if before.no_duplicates() {
                unmapping_keeps_regions_distinct(before, (gpa, len));
            }
        }
        self.mapped_guest_regions = rest;
    }

    /// Takes a region back whose mapping the container number `failed` has refused: forgets it,
    /// and says what to tell the containers before that one, which have mapped it.
    pub fn undo_map(&mut self, gpa: u64, len: u64, failed: usize) -> (r: Vec<DmaRequest>)
        requires
            failed <= old(self).containers@.len(),
        ensures
            final(self).containers@ == old(self).containers@,
            final(self).mapped_guest_regions@ == without(
                old(self).mapped_guest_regions@,
                (gpa, len),
            ),
            r@ == unmap_requests(failed as nat, (gpa, len)),
            old(self).mapped_guest_regions@.no_duplicates()
                ==> final(self).mapped_guest_regions@.no_duplicates(),
    {
        self.forget(gpa, len);
        unmap_in_each(failed, (gpa, len))
    }

    /// Forgets every region and says what to tell the containers.
    pub fn unmap_all(&mut self) -> (r: Result<Vec<DmaRequest>, ()>)
        ensures
            final(self).containers@ == old(self).containers@,
            final(self).mapped_guest_regions@.len() == 0,
            r matches Ok(requests) && requests@ == unmap_all_requests(
                old(self).containers@.len(),
                old(self).mapped_guest_regions@,
            ),
    {
        let ghost regions = self.mapped_guest_regions@;
        let ghost n = self.containers@.len();
        let ghost each = |region: (u64, u64)| unmap_requests(n, region);
        let mut requests: Vec<DmaRequest> = Vec::new();
        let mut i: usize = 0;
        proof {
            assert(requests@ =~= regions.take(0).flat_map(each));
        }
        while i < self.mapped_guest_regions.len()
            invariant
                *self == *old(self),
                regions == self.mapped_guest_regions@,
                n == self.containers@.len(),
                each == |region: (u64, u64)| unmap_requests(n, region),
                i <= regions.len(),
                requests@ == regions.take(i as int).flat_map(each),
            decreases regions.len() - i,
        {
            let mut some = unmap_in_each(self.containers.len(), self.mapped_guest_regions[i]);
            proof {
                regions.lemma_flat_map_take_append(each, i as int);
            }
            requests.append(&mut some);
            i = i + 1;
        }
        proof {
            assert(regions.take(i as int) =~= regions);
        }
        self.mapped_guest_regions.clear();
        Ok(requests)
    }
}

fn unmap_in_each(containers: usize, region: (u64, u64)) -> (r: Vec<DmaRequest>)
    ensures
        r@ == unmap_requests(containers as nat, region),
{
    let mut requests: Vec<DmaRequest> = Vec::new();
    let mut container: usize = 0;
    while container < containers
        invariant
            container <= containers,
            requests@ == unmap_requests(container as nat, region),
        decreases containers - container,
    {
        requests.push(DmaRequest::DmaUnmap { container, iova: region.0, size: region.1 });
        container = container + 1;
    }
    requests
}

/// What the containers are told when a mapping fails takes back exactly what those before the
/// one that failed were told to map.
pub proof fn undoing_reaches_what_was_mapped(
    n: nat,
    failed: nat,
    iova: u64,
    size: u64,
    user_addr: u64,
    i: int,
)
    requires
        failed <= n <= usize::MAX,
        0 <= i < n,
    ensures
        map_requests(n, iova, size, user_addr)[i] == (DmaRequest::DmaMap {
            container: i as usize,
            iova,
            size,
            user_addr,
        }),
        unmap_requests(failed, (iova, size)).contains(
            DmaRequest::DmaUnmap { container: i as usize, iova, size },
        ) <==> i < failed,
{
    let undone = unmap_requests(failed, (iova, size));
    let wanted = DmaRequest::DmaUnmap { container: i as usize, iova, size };
    if i < failed {
        assert(undone[i] == wanted);
    }
    if undone.contains(wanted) {
        let k = choose|k: int| 0 <= k < undone.len() && undone[k] == wanted;
        assert(k as usize == i as usize);
    }
}

/// To map a region and to unmap it again leaves the regions as they were.
pub proof fn unmapping_undoes_mapping(regions: Seq<(u64, u64)>, region: (u64, u64))
    requires
        !regions.contains(region),
    ensures
        without(regions.push(region), region) == regions,
{
    let kept = other_than(region);
    regions.lemma_filter_push(region, kept);
    lemma_filter_keeps_all(regions, kept);
}

proof fn lemma_filter_keeps_all(regions: Seq<(u64, u64)>, kept: spec_fn((u64, u64)) -> bool)
    requires
        forall|i: int| 0 <= i < regions.len() ==> kept(#[trigger] regions[i]),
    ensures
        regions.filter(kept) == regions,
    decreases regions.len(),
{
    reveal(Seq::filter);
    if regions.len() > 0 {
        let init = regions.drop_last();
        assert forall|i: int| 0 <= i < init.len() implies kept(#[trigger] init[i]) by {
            assert(init[i] == regions[i]);
        }
        lemma_filter_keeps_all(init, kept);
        assert(kept(regions[regions.len() - 1]));
        assert(regions =~= init.push(regions.last()));
    } else {
        assert(regions.filter(kept) =~= regions);
    }
}

/// An unmapped region is gone, and every other region stays: it may be mapped again.
pub proof fn unmapped_region_is_gone(
    regions: Seq<(u64, u64)>,
    region: (u64, u64),
    other: (u64, u64),
)
    ensures
        without(regions, region).contains(other) <==> regions.contains(other) && other != region,
{
    let kept = other_than(region);
    let rest = regions.filter(kept);
    if rest.contains(other) {
        let k = choose|k: int| 0 <= k < rest.len() && rest[k] == other;
        regions.lemma_filter_contains_rev(kept, other);
        regions.lemma_filter_pred(kept, k);
    }
    if regions.contains(other) && other != region {
        let k = choose|k: int| 0 <= k < regions.len() && regions[k] == other;
        regions.lemma_filter_contains(kept, k);
    }
}

/// Distinct regions stay distinct when one is unmapped.
pub proof fn unmapping_keeps_regions_distinct(regions: Seq<(u64, u64)>, region: (u64, u64))
    requires
        regions.no_duplicates(),
    ensures
        without(regions, region).no_duplicates(),
    decreases regions.len(),
{
    reveal(Seq::filter);
    if regions.len() > 0 {
        let init = regions.drop_last();
        let last = regions.last();
        assert(init.no_duplicates());
        unmapping_keeps_regions_distinct(init, region);
        unmapped_region_is_gone(init, region, last);
        if init.contains(last) {
            let k = choose|k: int| 0 <= k < init.len() && init[k] == last;
            assert(regions[k] == regions[regions.len() - 1]);
        }
        let rest = without(init, region);
        assert(without(regions, region) == if last != region { rest.push(last) } else { rest });
    }
}

/// When everything is unmapped, every container is told about every region.
pub proof fn unmapping_all_reaches_every_mapping(
    n: nat,
    regions: Seq<(u64, u64)>,
    region: (u64, u64),
    container: usize,
)
    requires
        regions.contains(region),
        container < n,
    ensures
        unmap_all_requests(n, regions).contains(
            DmaRequest::DmaUnmap { container, iova: region.0, size: region.1 },
        ),
    decreases regions.len(),
{
    let each = |r: (u64, u64)| unmap_requests(n, r);
    let wanted = DmaRequest::DmaUnmap { container, iova: region.0, size: region.1 };
    let init = regions.drop_last();
    let last = regions.last();
    assert(regions =~= init.push(last));
    init.lemma_flat_map_push(each, last);
    let before = init.flat_map(each);
    let all = regions.flat_map(each);
    assert(all == before + unmap_requests(n, last));
    if last == region {
        assert(unmap_requests(n, last)[container as int] == wanted);
        assert(all[before.len() + container] == wanted);
    } else {
        let k = choose|k: int| 0 <= k < regions.len() && regions[k] == region;
        assert(init[k] == region);
        unmapping_all_reaches_every_mapping(n, init, region, container);
        let m = choose|m: int| 0 <= m < before.len() && before[m] == wanted;
        assert(all[m] == wanted);
    }
}

} // verus!

//! A process's address space as a set of mapped virtual pages.
//!
//! The address space is kept as a list of areas, each a run of pages with one
//! permission set. No page lies in two areas. What the rest of the crate sees
//! is the map from page number to permission that the areas add up to.

use vstd::prelude::*;

verus! {

/// Bytes in a page.
pub const PAGE_SIZE: usize = 4096;

/// What may be done with a mapped page.
#[derive(Clone, Copy, PartialEq, Eq, Structural, Debug)]
pub struct MapPermission {
    pub read: bool,
    pub write: bool,
    pub execute: bool,
    pub user: bool,
}

/// A run of pages, from `start_vpn` up to and not including `end_vpn`, mapped
/// with one permission set.
#[derive(Clone, Copy, Debug)]
pub struct MapArea {
    pub start_vpn: usize,
    pub end_vpn: usize,
    pub perm: MapPermission,
}

/// The page that holds address `addr`.
pub open spec fn page_floor(addr: int) -> int {
    addr / (PAGE_SIZE as int)
}

/// The first page that starts at or after address `addr`.
pub open spec fn page_ceil(addr: int) -> int {
    (addr + PAGE_SIZE - 1) / (PAGE_SIZE as int)
}

/// The pages from `start_vpn` up to and not including `end_vpn`.
pub open spec fn page_range(start_vpn: int, end_vpn: int) -> Set<int> {
    Set::new(|vpn: int| start_vpn <= vpn < end_vpn)
}

/// The mapping of the pages from `start_vpn` up to and not including
/// `end_vpn`, each with permission `perm`.
pub open spec fn framed(start_vpn: int, end_vpn: int, perm: MapPermission) -> Map<
    int,
    MapPermission,
> {
    Map::new(|vpn: int| start_vpn <= vpn < end_vpn, |vpn: int| perm)
}

/// Page `vpn` lies in area `a`.
pub open spec fn area_holds(a: MapArea, vpn: int) -> bool {
    a.start_vpn <= vpn < a.end_vpn
}

/// Page `vpn` lies in one of `areas`.
pub open spec fn areas_hold(areas: Seq<MapArea>, vpn: int) -> bool {
    exists|i: int| 0 <= i < areas.len() && area_holds(#[trigger] areas[i], vpn)
}

/// An area among `areas` in which page `vpn` lies.
pub open spec fn area_of(areas: Seq<MapArea>, vpn: int) -> int {
    choose|i: int| 0 <= i < areas.len() && area_holds(#[trigger] areas[i], vpn)
}

/// No page lies in two of `areas`.
pub open spec fn disjoint(areas: Seq<MapArea>) -> bool {
    forall|i: int, j: int, vpn: int|
        0 <= i < areas.len() && 0 <= j < areas.len() && i != j && #[trigger] area_holds(
            areas[i],
            vpn,
        ) ==> !#[trigger] area_holds(areas[j], vpn)
}

/// The mapping that `areas` add up to.
pub open spec fn pages(areas: Seq<MapArea>) -> Map<int, MapPermission> {
    Map::new(|vpn: int| areas_hold(areas, vpn), |vpn: int| areas[area_of(areas, vpn)].perm)
}

/// A page that lies in an area is mapped with that area's permission.
pub proof fn lemma_page_lookup(areas: Seq<MapArea>, i: int, vpn: int)
    requires
        disjoint(areas),
        0 <= i < areas.len(),
        area_holds(areas[i], vpn),
    ensures
        pages(areas).dom().contains(vpn),
        pages(areas)[vpn] == areas[i].perm,
{
    let j = area_of(areas, vpn);
    assert(0 <= j < areas.len() && area_holds(areas[j], vpn));
    if i != j {
        assert(!area_holds(areas[j], vpn));
    }
}

/// Without its last area, a list of areas is still free of overlap.
pub proof fn lemma_disjoint_drop(areas: Seq<MapArea>, a: MapArea)
    requires
        disjoint(areas.push(a)),
    ensures
        disjoint(areas),
{
    let more = areas.push(a);
    assert forall|i: int, j: int, vpn: int|
        0 <= i < areas.len() && 0 <= j < areas.len() && i != j && #[trigger] area_holds(
            areas[i],
            vpn,
        ) implies !#[trigger] area_holds(areas[j], vpn) by {
        assert(more[i] == areas[i] && more[j] == areas[j]);
        assert(area_holds(more[i], vpn));
    }
}

/// One more area adds its pages, with its permission, to the mapping.
pub proof fn lemma_pages_push(areas: Seq<MapArea>, a: MapArea)
    requires
        disjoint(areas.push(a)),
    ensures
        pages(areas.push(a)) == pages(areas).union_prefer_right(
            framed(a.start_vpn as int, a.end_vpn as int, a.perm),
        ),
{
    let more = areas.push(a);
    lemma_disjoint_drop(areas, a);
    let sum = pages(areas).union_prefer_right(framed(a.start_vpn as int, a.end_vpn as int, a.perm));
    assert forall|vpn: int| pages(more).dom().contains(vpn) implies #[trigger] sum.dom().contains(
        vpn,
    ) && sum[vpn] == pages(more)[vpn] by {
        let i = area_of(more, vpn);
        assert(0 <= i < more.len() && area_holds(more[i], vpn));
        lemma_page_lookup(more, i, vpn);
        if i < areas.len() {
            assert(more[i] == areas[i]);
            lemma_page_lookup(areas, i, vpn);
            assert(!area_holds(more[areas.len() as int], vpn));
        }
    }
    assert forall|vpn: int| sum.dom().contains(vpn) implies #[trigger] pages(more).dom().contains(
        vpn,
    ) by {
        if area_holds(a, vpn) {
            assert(area_holds(more[areas.len() as int], vpn));
        } else {
            let i = area_of(areas, vpn);
            assert(0 <= i < areas.len() && area_holds(areas[i], vpn));
            assert(area_holds(more[i], vpn));
        }
    }
    assert(pages(more) =~= sum);
}

/// The first areas of a list free of overlap are free of overlap.
pub proof fn lemma_disjoint_prefix(areas: Seq<MapArea>, n: int)
    requires
        disjoint(areas),
        0 <= n <= areas.len(),
    ensures
        disjoint(areas.take(n)),
{
    let first = areas.take(n);
    assert forall|i: int, j: int, vpn: int|
        0 <= i < first.len() && 0 <= j < first.len() && i != j && #[trigger] area_holds(
            first[i],
            vpn,
        ) implies !#[trigger] area_holds(first[j], vpn) by {
        assert(first[i] == areas[i] && first[j] == areas[j]);
        assert(area_holds(areas[i], vpn));
    }
}

/// An area that shares no page with a list free of overlap can join it.
pub proof fn lemma_disjoint_push(areas: Seq<MapArea>, a: MapArea)
    requires
        disjoint(areas),
        forall|vpn: int| #[trigger] area_holds(a, vpn) ==> !areas_hold(areas, vpn),
    ensures
        disjoint(areas.push(a)),
{
    let more = areas.push(a);
    assert forall|i: int, j: int, vpn: int|
        0 <= i < more.len() && 0 <= j < more.len() && i != j && #[trigger] area_holds(
            more[i],
            vpn,
        ) implies !#[trigger] area_holds(more[j], vpn) by {
        if i < areas.len() && j < areas.len() {
            assert(area_holds(areas[i], vpn));
        } else if i < areas.len() {
            assert(area_holds(areas[i], vpn));
            assert(areas_hold(areas, vpn));
        } else {
            assert(area_holds(a, vpn));
            if area_holds(more[j], vpn) {
                assert(area_holds(areas[j], vpn));
                assert(areas_hold(areas, vpn));
            }
        }
    }
}

/// The page that holds address `addr`.
pub fn vpn_floor(addr: usize) -> (vpn: usize)
    ensures
        vpn == page_floor(addr as int),
{
    addr / PAGE_SIZE
}

/// The first page that starts at or after address `addr`.
pub fn vpn_ceil(addr: usize) -> (vpn: usize)
    ensures
        vpn == page_ceil(addr as int),
{
    if addr % PAGE_SIZE == 0 {
        addr / PAGE_SIZE
    } else {
        addr / PAGE_SIZE + 1
    }
}

/// A process's address space.
pub struct MemorySet {
    areas: Vec<MapArea>,
}

impl View for MemorySet {
    type V = Map<int, MapPermission>;

    /// The mapped pages, each with its permission.
    closed spec fn view(&self) -> Map<int, MapPermission> {
        pages(self.areas@)
    }
}

impl MemorySet {
    /// No page lies in two areas.
    pub closed spec fn wf(&self) -> bool {
        disjoint(self.areas@)
    }

    /// An address space with nothing mapped.
    pub fn new() -> (space: MemorySet)
        ensures
            space.wf(),
            space@ == Map::<int, MapPermission>::empty(),
    {
        let space = MemorySet { areas: Vec::new() };
        assert(space@ =~= Map::<int, MapPermission>::empty());
        space
    }

    /// The permission that page `vpn` is mapped with, or `None` where it is
    /// not mapped.
    pub fn translate(&self, vpn: usize) -> (perm: Option<MapPermission>)
        requires
            self.wf(),
        ensures
            self@.dom().contains(vpn as int) ==> perm == Some(self@[vpn as int]),
            !self@.dom().contains(vpn as int) ==> perm.is_none(),
    {
        let mut i: usize = 0;
        while i < self.areas.len()
            invariant
                0 <= i <= self.areas.len(),
                self.wf(),
                forall|k: int| 0 <= k < i ==> !area_holds(#[trigger] self.areas[k], vpn as int),
            decreases self.areas.len() - i,
        {
            let a = self.areas[i];
            if a.start_vpn <= vpn && vpn < a.end_vpn {
                proof {
                    lemma_page_lookup(self.areas@, i as int, vpn as int);
                }
                return Some(a.perm);
            }
            i += 1;
        }
        None
    }

    /// Maps the pages that the addresses from `start_va` up to `end_va` touch,
    /// each with `permission`. None of them may be mapped before.
    pub fn insert_framed_area(&mut self, start_va: usize, end_va: usize, permission: MapPermission)
        requires
            old(self).wf(),
            forall|vpn: int|
                page_floor(start_va as int) <= vpn < page_ceil(end_va as int) ==> !old(self)@.dom().contains(vpn),
        ensures
            final(self).wf(),
            final(self)@ == old(self)@.union_prefer_right(
                framed(page_floor(start_va as int), page_ceil(end_va as int), permission),
            ),
    {
        let start_vpn: usize = vpn_floor(start_va);
        let end_vpn: usize = vpn_ceil(end_va);
        if start_vpn < end_vpn {
            let a = MapArea { start_vpn, end_vpn, perm: permission };
            proof {
                let more = self.areas@.push(a);
                assert forall|i: int, j: int, vpn: int|
                    0 <= i < more.len() && 0 <= j < more.len() && i != j && #[trigger] area_holds(
                        more[i],
                        vpn,
                    ) implies !#[trigger] area_holds(more[j], vpn) by {
                    if i < self.areas.len() {
                        assert(area_holds(self.areas[i], vpn));
                        assert(self@.dom().contains(vpn));
                    }
                    if j < self.areas.len() && area_holds(more[j], vpn) {
                        assert(area_holds(self.areas[j], vpn));
                        assert(self@.dom().contains(vpn));
                    }
                }
                lemma_pages_push(self.areas@, a);
            }
            self.areas.push(a);
        } else {
            assert(self@ =~= self@.union_prefer_right(
                framed(page_floor(start_va as int), page_ceil(end_va as int), permission),
            ));
        }
    }

    /// Unmaps every mapped page that the addresses from `start_va` up to
    /// `end_va` touch. An area that reaches beyond those pages keeps the rest.
    pub fn remove_framed_area(&mut self, start_va: usize, end_va: usize)
        requires
            old(self).wf(),
        ensures
            final(self).wf(),
            final(self)@ == old(self)@.remove_keys(
                page_range(page_floor(start_va as int), page_ceil(end_va as int)),
            ),
    {
        let start_vpn: usize = vpn_floor(start_va);
        let end_vpn: usize = vpn_ceil(end_va);
        let ghost gone = page_range(start_vpn as int, end_vpn as int);
        if start_vpn >= end_vpn {
            assert(self@ =~= self@.remove_keys(gone));
            return ;
        }
        let mut kept: Vec<MapArea> = Vec::new();
        let mut i: usize = 0;
        assert(pages(kept@) =~= pages(self.areas@.take(0)).remove_keys(gone));
        while i < self.areas.len()
            invariant
                0 <= i <= self.areas.len(),
                start_vpn < end_vpn,
                gone == page_range(start_vpn as int, end_vpn as int),
                disjoint(self.areas@),
                disjoint(kept@),
                pages(kept@) == pages(self.areas@.take(i as int)).remove_keys(gone),
            decreases self.areas.len() - i,
        {
            let a = self.areas[i];
            let ghost before = self.areas@.take(i as int);
            let ghost kept_before = kept@;
            proof {
                assert(self.areas@.take(i + 1) =~= before.push(a));
                lemma_disjoint_prefix(self.areas@, i + 1);
                lemma_pages_push(before, a);
                assert forall|vpn: int| #[trigger] area_holds(a, vpn) implies !areas_hold(
                    kept@,
                    vpn,
                ) by {
                    if areas_hold(kept@, vpn) {
                        assert(pages(kept@).dom().contains(vpn));
                        assert(pages(before).dom().contains(vpn));
                        let k = area_of(before, vpn);
                        assert(0 <= k < i && area_holds(before[k], vpn));
                        assert(before[k] == self.areas[k]);
                        assert(area_holds(self.areas[k], vpn));
                        assert(!area_holds(self.areas[i as int], vpn));
                    }
                }
            }
            if a.end_vpn <= start_vpn || a.start_vpn >= end_vpn {
                proof {
                    lemma_disjoint_push(kept@, a);
                    lemma_pages_push(kept@, a);
                }
                kept.push(a);
            } else {
                if a.start_vpn < start_vpn {
                    let left = MapArea { start_vpn: a.start_vpn, end_vpn: start_vpn, perm: a.perm };
                    proof {
                        assert forall|vpn: int| #[trigger] area_holds(left, vpn) implies !areas_hold(
                            kept@,
                            vpn,
                        ) by {
                            assert(area_holds(a, vpn));
                        }
                        lemma_disjoint_push(kept@, left);
                        lemma_pages_push(kept@, left);
                    }
                    kept.push(left);
                }
                if a.end_vpn > end_vpn {
                    let right = MapArea { start_vpn: end_vpn, end_vpn: a.end_vpn, perm: a.perm };
                    proof {
                        assert forall|vpn: int| #[trigger] area_holds(right, vpn) implies !areas_hold(
                            kept@,
                            vpn,
                        ) by {
                            assert(area_holds(a, vpn));
                            if areas_hold(kept@, vpn) {
                                assert(pages(kept@).dom().contains(vpn));
                                assert(pages(kept_before).dom().contains(vpn));
                                assert(areas_hold(kept_before, vpn));
                            }
                        }
                        lemma_disjoint_push(kept@, right);
                        lemma_pages_push(kept@, right);
                    }
                    kept.push(right);
                }
            }
            i += 1;
            assert(pages(kept@) =~= pages(self.areas@.take(i as int)).remove_keys(gone));
        }
        assert(self.areas@.take(i as int) =~= self.areas@);
        self.areas = kept;
    }
}


/// A process's heap: where it starts and where it ends now.
#[derive(Clone, Copy, Debug)]
pub struct Heap {
    /// The address at which the heap starts.
    pub heap_bottom: usize,
    /// The program break: the address at which the heap ends now.
    pub program_brk: usize,
}

impl Heap {
    /// The break is not below the bottom, and fits a signed result.
    pub open spec fn wf(&self) -> bool {
        self.heap_bottom <= self.program_brk <= isize::MAX
    }

    /// The break can move by `size` bytes: it stays within the heap's bounds.
    pub open spec fn can_move(&self, size: int) -> bool {
        self.heap_bottom <= self.program_brk + size <= isize::MAX
    }

    /// An empty heap that starts at `heap_bottom`.
    pub fn new(heap_bottom: usize) -> (heap: Heap)
        requires
            heap_bottom <= isize::MAX,
        ensures
            heap.wf(),
            heap.heap_bottom == heap_bottom,
            heap.program_brk == heap_bottom,
    {
        Heap { heap_bottom, program_brk: heap_bottom }
    }

    /// Moves the program break by `size` bytes, up or down, and returns where
    /// it was before. Where the break would leave the heap's bounds it stays,
    /// and `None` is returned.
    pub fn change_program_brk(&mut self, size: i32) -> (old_brk: Option<usize>)
        requires
            old(self).wf(),
        ensures
            final(self).wf(),
            final(self).heap_bottom == old(self).heap_bottom,
            old(self).can_move(size as int) ==> old_brk == Some(old(self).program_brk) && final(self).program_brk == old(self).program_brk + size,
            !old(self).can_move(size as int) ==> old_brk.is_none() && final(self).program_brk
                == old(self).program_brk,
    {
        let old_brk: usize = self.program_brk;
        let new_brk: i128 = old_brk as i128 + size as i128;
        if new_brk < self.heap_bottom as i128 || new_brk > isize::MAX as i128 {
            return None;
        }
        self.program_brk = new_brk as usize;
        Some(old_brk)
    }
}

} // verus!

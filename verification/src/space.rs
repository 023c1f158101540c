//! The address map of a bus: named regions with pairwise disjoint windows,
//! found by name or by an address inside them.

use vstd::prelude::*;
use std::rc::Rc;
use crate::memory::MemInfo;
use crate::memory::region;
use crate::memory::region::{
    share, BytesAccess, GlobalHeap, Region, U16Access, U32Access, U64Access, U8Access,
};

verus! {

/// Why a region could not be added to a space.
#[derive(Debug, PartialEq, Eq)]
pub enum Error {
    /// The window of the region named first shares an address with that of
    /// the region named second, which the space holds.
    Overlap(String, String),
    /// The space already holds a region of this name.
    Renamed(String),
}

/// One region of a space, under its name and keyed by the base of its window.
struct SpaceElem {
    key: u64,
    name: String,
    region: Rc<Region>,
}

/// An address map: regions ordered by the base of their windows.
pub struct Space {
    regions: Vec<SpaceElem>,
}

/// Whether the entries are keyed by the bases of windows that are not empty,
/// lie in ascending order without sharing an address, and bear different
/// names.
spec fn elems_wf(s: Seq<SpaceElem>) -> bool {
    &&& forall|i: int|
        0 <= i < s.len() ==> (#[trigger] s[i]).key == s[i].region.window().base
            && s[i].region.window().size > 0 && s[i].region.window().end() <= u64::MAX
    &&& forall|i: int, j: int|
        0 <= i < j < s.len() ==> (#[trigger] s[i]).region.window().end() <= (#[trigger] s[j]).key
    &&& forall|i: int, j: int|
        0 <= i < s.len() && 0 <= j < s.len() && i != j ==> (#[trigger] s[i]).name@ != (
        #[trigger] s[j]).name@
}

impl Space {
    /// The space's invariant: windows are not empty, lie in ascending order
    /// without sharing an address, and names differ.
    #[verifier::type_invariant]
    pub closed spec fn wf(&self) -> bool {
        elems_wf(self.regions@)
    }

    /// The number of regions.
    pub closed spec fn len(&self) -> nat {
        self.regions@.len()
    }

    /// The name of the `i`-th region, in ascending order of base.
    pub closed spec fn name_at(&self, i: int) -> Seq<char> {
        self.regions@[i].name@
    }

    /// The `i`-th region, in ascending order of base.
    pub closed spec fn region_at(&self, i: int) -> Region {
        *self.regions@[i].region
    }

    /// Whether the `i`-th region presents `addr`.
    pub open spec fn covers(&self, i: int, addr: u64) -> bool {
        0 <= i < self.len() && self.region_at(i).window().contains(addr as int)
    }

    /// Whether some region presents `addr`.
    pub open spec fn maps(&self, addr: u64) -> bool {
        exists|i: int| self.covers(i, addr)
    }

    /// Whether some region bears `name`.
    pub open spec fn has_name(&self, name: Seq<char>) -> bool {
        exists|i: int| 0 <= i < self.len() && #[trigger] self.name_at(i) == name
    }

    /// Whether the window of some region shares an address with `info`.
    pub open spec fn overlapped(&self, info: MemInfo) -> bool {
        exists|i: int| 0 <= i < self.len() && (#[trigger] self.region_at(i)).window().overlaps(info)
    }

    /// The number of regions among the first `k` whose base lies below
    /// `base`.
    pub open spec fn rank_upto(&self, base: u64, k: int) -> int
        decreases k,
    {
        if k <= 0 {
            0
        } else {
            self.rank_upto(base, k - 1) + if self.region_at(k - 1).window().base < base {
                1int
            } else {
                0int
            }
        }
    }

    /// The number of regions whose base lies below `base`: the place of a
    /// region with that base in the ascending order.
    pub open spec fn rank(&self, base: u64) -> int {
        self.rank_upto(base, self.len() as int)
    }

    /// Whether this space is `before` with the region `region` added under
    /// `name` at the place `at`.
    pub open spec fn inserted(&self, before: &Space, at: int, name: Seq<char>,
        region: Region) -> bool {
        &&& 0 <= at <= before.len()
        &&& self.len() == before.len() + 1
        &&& self.name_at(at) == name
        &&& self.region_at(at) == region
        &&& forall|i: int|
            0 <= i < at ==> #[trigger] self.name_at(i) == before.name_at(i) && self.region_at(i)
                == before.region_at(i)
        &&& forall|i: int|
            at <= i < before.len() ==> #[trigger] self.name_at(i + 1) == before.name_at(i)
                && self.region_at(i + 1) == before.region_at(i)
    }

    /// Whether this space is `before` without its `at`-th region.
    pub open spec fn removed(&self, before: &Space, at: int) -> bool {
        &&& 0 <= at < before.len()
        &&& self.len() == before.len() - 1
        &&& forall|i: int|
            0 <= i < at ==> #[trigger] self.name_at(i) == before.name_at(i) && self.region_at(i)
                == before.region_at(i)
        &&& forall|i: int|
            at <= i < self.len() ==> #[trigger] self.name_at(i) == before.name_at(i + 1)
                && self.region_at(i) == before.region_at(i + 1)
    }

    /// Whether the two spaces hold the same regions under the same names.
    pub open spec fn same(&self, before: &Space) -> bool {
        &&& self.len() == before.len()
        &&& forall|i: int|
            0 <= i < self.len() ==> #[trigger] self.name_at(i) == before.name_at(i)
                && self.region_at(i) == before.region_at(i)
    }

    /// A space without regions.
    pub fn new() -> (s: Space)
        ensures
            s.len() == 0,
    {
        Space { regions: Vec::new() }
    }

    /// Index of the region that bears `name`, if there is one.
    fn find_name(&self, name: &String) -> (r: Option<usize>)
        ensures
            match r {
                Some(i) => i < self.len() && self.name_at(i as int) == name@,
                None => !self.has_name(name@),
            },
    {
        let n: usize = self.regions.len();
        let mut i: usize = 0;
        while i < n
            invariant
                n == self.regions@.len(),
                i <= n,
                forall|k: int| 0 <= k < i ==> self.name_at(k) != name@,
            decreases n - i,
        {
            if self.regions[i].name == *name {
                return Some(i);
            }
            i += 1;
        }
        None
    }

    /// Index of the first region whose window shares an address with `info`,
    /// if there is one.
    fn find_overlap(&self, info: MemInfo) -> (r: Option<usize>)
        requires
            info.base + info.size <= u64::MAX,
        ensures
            match r {
                Some(i) => i < self.len() && self.region_at(i as int).window().overlaps(info)
                    && forall|k: int| 0 <= k < i ==> !self.region_at(k).window().overlaps(info),
                None => !self.overlapped(info),
            },
    {
        let n: usize = self.regions.len();
        let mut i: usize = 0;
        while i < n
            invariant
                n == self.regions@.len(),
                i <= n,
                info.base + info.size <= u64::MAX,
                forall|k: int| 0 <= k < i ==> !self.region_at(k).window().overlaps(info),
            decreases n - i,
        {
            let w: MemInfo = self.regions[i].region.info();
            if w.size > 0 && info.size > 0 && w.base < info.base + info.size && info.base < w.base
                + w.size {
                return Some(i);
            }
            i += 1;
        }
        None
    }

    /// The number of regions whose base lies below `base`.
    fn place(&self, base: u64) -> (r: usize)
        ensures
            r == self.rank(base),
            r <= self.len(),
            forall|k: int| 0 <= k < r ==> self.region_at(k).window().base < base,
            forall|k: int| r <= k < self.len() ==> self.region_at(k).window().base >= base,
    {
        proof {
            use_type_invariant(self);
        }
        let n: usize = self.regions.len();
        let mut i: usize = 0;
        while i < n && self.regions[i].key < base
            invariant
                n == self.regions@.len(),
                i <= n,
                elems_wf(self.regions@),
                i == self.rank_upto(base, i as int),
                forall|k: int| 0 <= k < i ==> self.region_at(k).window().base < base,
            decreases n - i,
        {
            i += 1;
        }
        proof {
            let r = i as int;
            assert forall|k: int| r <= k < n implies self.region_at(k).window().base >= base by {
                if k > r {
                    assert(self.regions@[r].region.window().end() <= self.regions@[k].key);
                }
            }
            self.lemma_rank_stops(base, r, n as int);
        }
        i
    }

    /// Regions whose base is not below `base` do not count towards the rank.
    proof fn lemma_rank_stops(&self, base: u64, r: int, k: int)
        requires
            0 <= r <= k <= self.len(),
            forall|j: int| r <= j < self.len() ==> self.region_at(j).window().base >= base,
        ensures
            self.rank_upto(base, k) == self.rank_upto(base, r),
        decreases k - r,
    {
        if k > r {
            self.lemma_rank_stops(base, r, k - 1);
        }
    }
}

impl Space {
    /// Adds `region` under `name` and answers with another handle to it.
    /// Fails with `Renamed` when a region bears the name already, else with
    /// `Overlap`, naming the first region in ascending order that is in the
    /// way, when the window shares an address with that of a region of the
    /// space; a failure changes nothing. Otherwise the region takes its place
    /// in the ascending order of bases.
    pub fn add_region(&mut self, name: &str, region: &Rc<Region>) -> (r: Result<Rc<Region>, Error>)
        requires
            region.window().size > 0,
        ensures
            old(self).has_name(name@) ==> (r matches Err(Error::Renamed(n)) && n@ == name@)
                && final(self).same(old(self)),
            !old(self).has_name(name@) && old(self).overlapped(region.window()) ==> {
                &&& final(self).same(old(self))
                &&& r matches Err(Error::Overlap(n, other)) && n@ == name@ && exists|i: int|
                    {
                        &&& 0 <= i < old(self).len()
                        &&& other@ == #[trigger] old(self).name_at(i)
                        &&& old(self).region_at(i).window().overlaps(region.window())
                        &&& forall|k: int|
                            0 <= k < i ==> !old(self).region_at(k).window().overlaps(
                                region.window(),
                            )
                    }
            },
            !old(self).has_name(name@) && !old(self).overlapped(region.window()) ==> (r matches Ok(
                stored,
            ) && *stored == **region) && final(self).inserted(
                old(self),
                old(self).rank(region.window().base),
                name@,
                **region,
            ),
    {
        proof {
            use_type_invariant(&*self);
        }
        let owned: String = name.to_owned();
        match self.find_name(&owned) {
            Some(_) => {
                return Err(Error::Renamed(owned));
            },
            None => {},
        }
        let info: MemInfo = region.info();
        match self.find_overlap(info) {
            Some(i) => {
                let other: String = self.regions[i].name.clone();
                proof {
                    assert(other@ == old(self).name_at(i as int));
                    assert(old(self).region_at(i as int).window().overlaps(region.window()));
                    assert(self.same(old(self)));
                }
                return Err(Error::Overlap(owned, other));
            },
            None => {},
        }
        let at: usize = self.place(info.base);
        let mut regions: Vec<SpaceElem> = Vec::new();
        core::mem::swap(&mut self.regions, &mut regions);
        let ghost before = regions@;
        regions.insert(at, SpaceElem { key: info.base, name: owned, region: share(region) });
        proof {
            let after = regions@;
            assert forall|i: int| 0
                <= i < before.len() implies !(#[trigger] before[i]).region.window().overlaps(
                info,
            ) by {
                assert(old(self).region_at(i) == *before[i].region);
            }
            assert forall|i: int| 0 <= i < before.len() implies (#[trigger] before[i]).name@
                != name@ by {
                assert(old(self).name_at(i) == before[i].name@);
            }
            assert forall|i: int| 0 <= i < at implies (#[trigger] before[i]).key < info.base by {
                assert(old(self).region_at(i) == *before[i].region);
            }
            assert forall|i: int| at <= i < before.len() implies (#[trigger] before[i]).key
                >= info.base by {
                assert(old(self).region_at(i) == *before[i].region);
            }
            assert forall|i: int, j: int| 0 <= i < j < after.len() implies (
            #[trigger] after[i]).region.window().end() <= (#[trigger] after[j]).key by {
                let oi = if i < at { i } else { i - 1 };
                let oj = if j < at { j } else { j - 1 };
                if i != at && j != at {
                    assert(after[i] == before[oi]);
                    assert(after[j] == before[oj]);
                } else if i == at {
                    assert(after[j] == before[oj]);
                    assert(!before[oj].region.window().overlaps(info));
                } else {
                    assert(after[i] == before[oi]);
                    assert(!before[oi].region.window().overlaps(info));
                }
            }
            assert forall|i: int, j: int|
                0 <= i < after.len() && 0 <= j < after.len() && i != j implies (
            #[trigger] after[i]).name@ != (#[trigger] after[j]).name@ by {
                let oi = if i < at { i } else { i - 1 };
                let oj = if j < at { j } else { j - 1 };
                if i != at {
                    assert(after[i] == before[oi]);
                }
                if j != at {
                    assert(after[j] == before[oj]);
                }
            }
            assert forall|i: int| 0 <= i < after.len() implies (#[trigger] after[i]).key
                == after[i].region.window().base && after[i].region.window().size > 0
                && after[i].region.window().end() <= u64::MAX by {
                let oi = if i < at { i } else { i - 1 };
                if i != at {
                    assert(after[i] == before[oi]);
                }
            }
        }
        core::mem::swap(&mut self.regions, &mut regions);
        proof {
            assert forall|i: int| at <= i < old(self).len() implies #[trigger] self.name_at(i + 1)
                == old(self).name_at(i) && self.region_at(i + 1) == old(self).region_at(i) by {
                assert(self.regions@[i + 1] == before[i]);
            }
        }
        Ok(share(region))
    }

    /// Takes the region that bears `name` out of the space and gives up the
    /// space's handle to it; changes nothing where no region bears the name.
    pub fn delete_region(&mut self, heap: &mut GlobalHeap, name: &str)
        ensures
            final(heap).shrunk_from(old(heap)),
            !old(self).has_name(name@) ==> final(self).same(old(self)) && *final(heap)
                == *old(heap),
            forall|i: int|
                0 <= i < old(self).len() && #[trigger] old(self).name_at(i) == name@
                    ==> final(self).removed(old(self), i),
    {
        proof {
            use_type_invariant(&*self);
        }
        let owned: String = name.to_owned();
        match self.find_name(&owned) {
            Some(at) => {
                let mut regions: Vec<SpaceElem> = Vec::new();
                core::mem::swap(&mut self.regions, &mut regions);
                let ghost before = regions@;
                let elem: SpaceElem = regions.remove(at);
                proof {
                    let after = regions@;
                    assert forall|i: int| 0 <= i < after.len() implies #[trigger] after[i]
                        == before[if i
                        < at {
                        i
                    } else {
                        i + 1
                    }] by {}
                    assert(elems_wf(after)) by {
                        assert forall|i: int, j: int| 0 <= i < j < after.len() implies (
                        #[trigger] after[i]).region.window().end() <= (#[trigger] after[j]).key by {
                            let oi = if i < at { i } else { i + 1 };
                            let oj = if j < at { j } else { j + 1 };
                            assert(after[i] == before[oi]);
                            assert(after[j] == before[oj]);
                        }
                        assert forall|i: int, j: int|
                            0 <= i < after.len() && 0 <= j < after.len() && i != j implies (
                        #[trigger] after[i]).name@ != (#[trigger] after[j]).name@ by {
                            let oi = if i < at { i } else { i + 1 };
                            let oj = if j < at { j } else { j + 1 };
                            assert(after[i] == before[oi]);
                            assert(after[j] == before[oj]);
                        }
                    }
                }
                core::mem::swap(&mut self.regions, &mut regions);
                proof {
                    assert forall|i: int|
                        0 <= i < old(self).len() && #[trigger] old(self).name_at(i)
                            == name@ implies i == at by {
                        if i != at {
                            assert(before[i].name@ != before[at as int].name@);
                        }
                    }
                    assert forall|i: int| at <= i < self.len() implies #[trigger] self.name_at(i)
                        == old(self).name_at(i + 1) && self.region_at(i) == old(self).region_at(
                        i + 1,
                    ) by {
                        assert(self.regions@[i] == before[i + 1]);
                    }
                    assert forall|i: int| 0 <= i < at implies #[trigger] self.name_at(i)
                        == old(self).name_at(i) && self.region_at(i) == old(self).region_at(i) by {
                        assert(self.regions@[i] == before[i]);
                    }
                }
                let SpaceElem { key: _, name: _, region } = elem;
                heap.release(region);
            },
            None => {
                proof {
                    assert(forall|s: int| heap.live(s) ==> heap.same_slot(old(heap), s));
                }
            },
        }
    }

    /// Another handle to the region that bears `name`, if there is one.
    pub fn get_region(&self, name: &str) -> (r: Option<Rc<Region>>)
        ensures
            match r {
                Some(region) => exists|i: int|
                    0 <= i < self.len() && #[trigger] self.name_at(i) == name@ && *region
                        == self.region_at(i),
                None => !self.has_name(name@),
            },
    {
        let owned: String = name.to_owned();
        match self.find_name(&owned) {
            Some(i) => Some(share(&self.regions[i].region)),
            None => None,
        }
    }

    /// Another handle to the region that presents `addr`; fails with
    /// `NotMapped` exactly when no region does. The region is found by
    /// bisection over the ascending bases.
    pub fn get_region_by_addr(&self, addr: &u64) -> (r: region::Result<Rc<Region>>)
        ensures
            match r {
                Ok(region) => exists|i: int| self.covers(i, *addr) && *region == self.region_at(i),
                Err(e) => e == region::Error::NotMapped(*addr) && !self.maps(*addr),
            },
    {
        proof {
            use_type_invariant(self);
        }
        let mut lo: usize = 0;
        let mut hi: usize = self.regions.len();
        while lo < hi
            invariant
                lo <= hi <= self.regions@.len(),
                elems_wf(self.regions@),
                forall|k: int| 0 <= k < lo ==> (#[trigger] self.regions@[k]).key <= *addr,
                forall|k: int| hi <= k < self.regions@.len() ==> (#[trigger] self.regions@[k]).key
                    > *addr,
            decreases hi - lo,
        {
            let mid: usize = lo + (hi - lo) / 2;
            if self.regions[mid].key <= *addr {
                proof {
                    assert forall|k: int| 0 <= k < mid + 1 implies (#[trigger] self.regions@[k]).key
                        <= *addr by {
                        if k < mid {
                            assert(self.regions@[k].region.window().end()
                                <= self.regions@[mid as int].key);
                        }
                    }
                }
                lo = mid + 1;
            } else {
                proof {
                    assert forall|k: int| mid <= k < self.regions@.len() implies (
                    #[trigger] self.regions@[k]).key > *addr by {
                        if k > mid {
                            assert(self.regions@[mid as int].region.window().end()
                                <= self.regions@[k].key);
                        }
                    }
                }
                hi = mid;
            }
        }
        if lo > 0 {
            let e: &SpaceElem = &self.regions[lo - 1];
            let w: MemInfo = e.region.info();
            if *addr - w.base < w.size {
                assert(self.covers(lo - 1, *addr));
                return Ok(share(&e.region));
            }
        }
        proof {
            assert forall|i: int| !self.covers(i, *addr) by {
                if 0 <= i < self.len() {
                    if i < lo - 1 {
                        assert(self.regions@[i].region.window().end() <= self.regions@[lo - 1].key);
                    } else if i >= lo {
                        assert(self.regions@[i].key > *addr);
                    }
                }
            }
        }
        Err(region::Error::NotMapped(*addr))
    }

    /// At most one region of a space presents any one address.
    pub proof fn lemma_one_region_per_address(&self, addr: u64, i: int, j: int)
        requires
            self.wf(),
            self.covers(i, addr),
            self.covers(j, addr),
        ensures
            i == j,
    {
        if i < j {
            assert(self.regions@[i].region.window().end() <= self.regions@[j].key);
        } else if j < i {
            assert(self.regions@[j].region.window().end() <= self.regions@[i].key);
        }
    }

    /// No two regions of a space share an address, and no two bear the same
    /// name.
    pub proof fn lemma_regions_are_disjoint(&self, i: int, j: int)
        requires
            self.wf(),
            0 <= i < self.len(),
            0 <= j < self.len(),
            i != j,
        ensures
            !self.region_at(i).window().overlaps(self.region_at(j).window()),
            self.name_at(i) != self.name_at(j),
    {
        if i < j {
            assert(self.regions@[i].region.window().end() <= self.regions@[j].key);
        } else {
            assert(self.regions@[j].region.window().end() <= self.regions@[i].key);
        }
    }

    /// Writes `data` at `addr` through the region that presents `addr`;
    /// fails with `NotMapped`, changing nothing, where there is none.
    pub fn write_u8(&self, heap: &mut GlobalHeap, addr: &u64, data: u8) -> (r: region::Result<()>)
        ensures
            !self.maps(*addr) ==> r == Err::<(), region::Error>(region::Error::NotMapped(*addr))
                && *final(heap) == *old(heap),
            forall|i: int|
                self.covers(i, *addr) ==> self.region_at(i).wrote_u8(
                    old(heap),
                    final(heap),
                    *addr,
                    data,
                    r,
                ),
    {
        match self.get_region_by_addr(addr) {
            Ok(region) => {
                proof {
                    use_type_invariant(self);
                    let i = choose|i: int| self.covers(i, *addr) && *region == self.region_at(i);
                    assert forall|j: int| self.covers(j, *addr) implies j == i by {
                        self.lemma_one_region_per_address(*addr, i, j);
                    }
                }
                U8Access::write(&*region, heap, addr, data)
            },
            Err(e) => Err(e),
        }
    }

    /// Reads the value at `addr` through the region that presents `addr`;
    /// fails with `NotMapped` where there is none.
    pub fn read_u8(&self, heap: &GlobalHeap, addr: &u64) -> (r: region::Result<u8>)
        ensures
            !self.maps(*addr) ==> r == Err::<u8, region::Error>(region::Error::NotMapped(*addr)),
            forall|i: int|
                self.covers(i, *addr) ==> self.region_at(i).was_read_u8(heap, *addr, r),
    {
        match self.get_region_by_addr(addr) {
            Ok(region) => {
                proof {
                    use_type_invariant(self);
                    let i = choose|i: int| self.covers(i, *addr) && *region == self.region_at(i);
                    assert forall|j: int| self.covers(j, *addr) implies j == i by {
                        self.lemma_one_region_per_address(*addr, i, j);
                    }
                }
                U8Access::read(&*region, heap, addr)
            },
            Err(e) => Err(e),
        }
    }

    /// Writes `data` at `addr` through the region that presents `addr`;
    /// fails with `NotMapped`, changing nothing, where there is none.
    pub fn write_u16(&self, heap: &mut GlobalHeap, addr: &u64, data: u16) -> (r: region::Result<()>)
        ensures
            !self.maps(*addr) ==> r == Err::<(), region::Error>(region::Error::NotMapped(*addr))
                && *final(heap) == *old(heap),
            forall|i: int|
                self.covers(i, *addr) ==> self.region_at(i).wrote_u16(
                    old(heap),
                    final(heap),
                    *addr,
                    data,
                    r,
                ),
    {
        match self.get_region_by_addr(addr) {
            Ok(region) => {
                proof {
                    use_type_invariant(self);
                    let i = choose|i: int| self.covers(i, *addr) && *region == self.region_at(i);
                    assert forall|j: int| self.covers(j, *addr) implies j == i by {
                        self.lemma_one_region_per_address(*addr, i, j);
                    }
                }
                U16Access::write(&*region, heap, addr, data)
            },
            Err(e) => Err(e),
        }
    }

    /// Reads the value at `addr` through the region that presents `addr`;
    /// fails with `NotMapped` where there is none.
    pub fn read_u16(&self, heap: &GlobalHeap, addr: &u64) -> (r: region::Result<u16>)
        ensures
            !self.maps(*addr) ==> r == Err::<u16, region::Error>(region::Error::NotMapped(*addr)),
            forall|i: int|
                self.covers(i, *addr) ==> self.region_at(i).was_read_u16(heap, *addr, r),
    {
        match self.get_region_by_addr(addr) {
            Ok(region) => {
                proof {
                    use_type_invariant(self);
                    let i = choose|i: int| self.covers(i, *addr) && *region == self.region_at(i);
                    assert forall|j: int| self.covers(j, *addr) implies j == i by {
                        self.lemma_one_region_per_address(*addr, i, j);
                    }
                }
                U16Access::read(&*region, heap, addr)
            },
            Err(e) => Err(e),
        }
    }

    /// Writes `data` at `addr` through the region that presents `addr`;
    /// fails with `NotMapped`, changing nothing, where there is none.
    pub fn write_u32(&self, heap: &mut GlobalHeap, addr: &u64, data: u32) -> (r: region::Result<()>)
        ensures
            !self.maps(*addr) ==> r == Err::<(), region::Error>(region::Error::NotMapped(*addr))
                && *final(heap) == *old(heap),
            forall|i: int|
                self.covers(i, *addr) ==> self.region_at(i).wrote_u32(
                    old(heap),
                    final(heap),
                    *addr,
                    data,
                    r,
                ),
    {
        match self.get_region_by_addr(addr) {
            Ok(region) => {
                proof {
                    use_type_invariant(self);
                    let i = choose|i: int| self.covers(i, *addr) && *region == self.region_at(i);
                    assert forall|j: int| self.covers(j, *addr) implies j == i by {
                        self.lemma_one_region_per_address(*addr, i, j);
                    }
                }
                U32Access::write(&*region, heap, addr, data)
            },
            Err(e) => Err(e),
        }
    }

    /// Reads the value at `addr` through the region that presents `addr`;
    /// fails with `NotMapped` where there is none.
    pub fn read_u32(&self, heap: &GlobalHeap, addr: &u64) -> (r: region::Result<u32>)
        ensures
            !self.maps(*addr) ==> r == Err::<u32, region::Error>(region::Error::NotMapped(*addr)),
            forall|i: int|
                self.covers(i, *addr) ==> self.region_at(i).was_read_u32(heap, *addr, r),
    {
        match self.get_region_by_addr(addr) {
            Ok(region) => {
                proof {
                    use_type_invariant(self);
                    let i = choose|i: int| self.covers(i, *addr) && *region == self.region_at(i);
                    assert forall|j: int| self.covers(j, *addr) implies j == i by {
                        self.lemma_one_region_per_address(*addr, i, j);
                    }
                }
                U32Access::read(&*region, heap, addr)
            },
            Err(e) => Err(e),
        }
    }

    /// Writes `data` at `addr` through the region that presents `addr`;
    /// fails with `NotMapped`, changing nothing, where there is none.
    pub fn write_u64(&self, heap: &mut GlobalHeap, addr: &u64, data: u64) -> (r: region::Result<()>)
        ensures
            !self.maps(*addr) ==> r == Err::<(), region::Error>(region::Error::NotMapped(*addr))
                && *final(heap) == *old(heap),
            forall|i: int|
                self.covers(i, *addr) ==> self.region_at(i).wrote_u64(
                    old(heap),
                    final(heap),
                    *addr,
                    data,
                    r,
                ),
    {
        match self.get_region_by_addr(addr) {
            Ok(region) => {
                proof {
                    use_type_invariant(self);
                    let i = choose|i: int| self.covers(i, *addr) && *region == self.region_at(i);
                    assert forall|j: int| self.covers(j, *addr) implies j == i by {
                        self.lemma_one_region_per_address(*addr, i, j);
                    }
                }
                U64Access::write(&*region, heap, addr, data)
            },
            Err(e) => Err(e),
        }
    }

    /// Reads the value at `addr` through the region that presents `addr`;
    /// fails with `NotMapped` where there is none.
    pub fn read_u64(&self, heap: &GlobalHeap, addr: &u64) -> (r: region::Result<u64>)
        ensures
            !self.maps(*addr) ==> r == Err::<u64, region::Error>(region::Error::NotMapped(*addr)),
            forall|i: int|
                self.covers(i, *addr) ==> self.region_at(i).was_read_u64(heap, *addr, r),
    {
        match self.get_region_by_addr(addr) {
            Ok(region) => {
                proof {
                    use_type_invariant(self);
                    let i = choose|i: int| self.covers(i, *addr) && *region == self.region_at(i);
                    assert forall|j: int| self.covers(j, *addr) implies j == i by {
                        self.lemma_one_region_per_address(*addr, i, j);
                    }
                }
                U64Access::read(&*region, heap, addr)
            },
            Err(e) => Err(e),
        }
    }

    /// Writes all of `data` at `addr` through the region that presents
    /// `addr`; fails with `NotMapped`, changing nothing, where there is none.
    pub fn write_bytes(&self, heap: &mut GlobalHeap, addr: &u64, data: &[u8]) -> (r: region::Result<
        usize,
    >)
        ensures
            !self.maps(*addr) ==> r == Err::<usize, region::Error>(
                region::Error::NotMapped(*addr),
            ) && *final(heap) == *old(heap),
            forall|i: int|
                self.covers(i, *addr) ==> self.region_at(i).wrote_bytes(
                    old(heap),
                    final(heap),
                    *addr,
                    data@,
                    r,
                ),
    {
        match self.get_region_by_addr(addr) {
            Ok(region) => {
                proof {
                    use_type_invariant(self);
                    let i = choose|i: int| self.covers(i, *addr) && *region == self.region_at(i);
                    assert forall|j: int| self.covers(j, *addr) implies j == i by {
                        self.lemma_one_region_per_address(*addr, i, j);
                    }
                }
                BytesAccess::write(&*region, heap, addr, data)
            },
            Err(e) => Err(e),
        }
    }

    /// Fills `data` from `addr` through the region that presents `addr`;
    /// fails with `NotMapped`, leaving `data` as it was, where there is none.
    pub fn read_bytes(&self, heap: &GlobalHeap, addr: &u64, data: &mut Vec<u8>) -> (r:
        region::Result<usize>)
        ensures
            !self.maps(*addr) ==> r == Err::<usize, region::Error>(
                region::Error::NotMapped(*addr),
            ) && final(data)@ == old(data)@,
            forall|i: int|
                self.covers(i, *addr) ==> self.region_at(i).was_read_bytes(
                    heap,
                    *addr,
                    old(data)@,
                    final(data)@,
                    r,
                ),
    {
        match self.get_region_by_addr(addr) {
            Ok(region) => {
                proof {
                    use_type_invariant(self);
                    let i = choose|i: int| self.covers(i, *addr) && *region == self.region_at(i);
                    assert forall|j: int| self.covers(j, *addr) implies j == i by {
                        self.lemma_one_region_per_address(*addr, i, j);
                    }
                }
                BytesAccess::read(&*region, heap, addr, data)
            },
            Err(e) => Err(e),
        }
    }
}

impl Space {
    /// The names and the windows of the regions, in ascending order of base.
    pub fn regions(&self) -> (r: Vec<(String, MemInfo)>)
        ensures
            r@.len() == self.len(),
            forall|i: int|
                0 <= i < self.len() ==> (#[trigger] r@[i]).0@ == self.name_at(i) && r@[i].1
                    == self.region_at(i).window(),
    {
        let mut out: Vec<(String, MemInfo)> = Vec::new();
        let n: usize = self.regions.len();
        let mut i: usize = 0;
        while i < n
            invariant
                n == self.regions@.len(),
                i <= n,
                out@.len() == i,
                forall|k: int|
                    0 <= k < i ==> (#[trigger] out@[k]).0@ == self.name_at(k) && out@[k].1
                        == self.region_at(k).window(),
            decreases n - i,
        {
            let e: &SpaceElem = &self.regions[i];
            out.push((e.name.clone(), e.region.info()));
            i += 1;
        }
        out
    }
}

/// The spaces of the process by name. A space comes into being when it is
/// first asked for, so that every core that asks for a name gets the same
/// space.
pub struct SpaceTable {
    names: Vec<String>,
    spaces: Vec<Space>,
}

impl SpaceTable {
    /// The table's invariant: every space has its name.
    pub closed spec fn wf(&self) -> bool {
        self.names@.len() == self.spaces@.len()
    }

    /// The number of spaces.
    pub closed spec fn len(&self) -> nat {
        self.spaces@.len()
    }

    /// The name of the `i`-th space, in the order in which they came into
    /// being.
    pub closed spec fn name_at(&self, i: int) -> Seq<char> {
        self.names@[i]@
    }

    /// The `i`-th space.
    pub closed spec fn space_at(&self, i: int) -> Space {
        self.spaces@[i]
    }

    /// Whether the table has a space of this name.
    pub open spec fn has_name(&self, name: Seq<char>) -> bool {
        exists|i: int| 0 <= i < self.len() && #[trigger] self.name_at(i) == name
    }

    /// Whether space `i` is the first of its name.
    pub open spec fn first_of(&self, i: int, name: Seq<char>) -> bool {
        &&& 0 <= i < self.len()
        &&& self.name_at(i) == name
        &&& forall|k: int| 0 <= k < i ==> self.name_at(k) != name
    }

    /// Whether the two tables have the same names, and the same spaces but
    /// for space `except`.
    pub open spec fn same_but(&self, before: &SpaceTable, except: int) -> bool {
        &&& self.len() >= before.len()
        &&& forall|k: int|
            0 <= k < before.len() ==> #[trigger] self.name_at(k) == before.name_at(k)
        &&& forall|k: int|
            0 <= k < before.len() && k != except ==> #[trigger] self.space_at(k)
                == before.space_at(k)
    }

    /// A table without spaces.
    pub fn new() -> (t: SpaceTable)
        ensures
            t.wf(),
            t.len() == 0,
    {
        SpaceTable { names: Vec::new(), spaces: Vec::new() }
    }

    /// The index of the first space of this name; a new, empty space is
    /// added under the name where the table has none.
    pub fn find_or_create(&mut self, name: &str) -> (i: usize)
        requires
            old(self).wf(),
        ensures
            final(self).wf(),
            final(self).first_of(i as int, name@),
            final(self).same_but(old(self), -1),
            old(self).has_name(name@) ==> final(self).len() == old(self).len(),
            !old(self).has_name(name@) ==> {
                &&& final(self).len() == old(self).len() + 1
                &&& i == old(self).len()
                &&& final(self).space_at(i as int).len() == 0
            },
    {
        let owned: String = name.to_owned();
        let n: usize = self.names.len();
        let mut i: usize = 0;
        while i < n
            invariant
                n == self.names@.len(),
                self.names == old(self).names,
                self.spaces == old(self).spaces,
                self.wf(),
                i <= n,
                owned@ == name@,
                forall|k: int| 0 <= k < i ==> self.name_at(k) != name@,
            decreases n - i,
        {
            if self.names[i] == owned {
                proof {
                    assert(old(self).name_at(i as int) == name@);
                    assert(old(self).has_name(name@));
                }
                return i;
            }
            i += 1;
        }
        self.names.push(owned);
        self.spaces.push(Space::new());
        proof {
            assert(self.names@[n as int]@ == name@);
            assert forall|k: int| 0 <= k < n implies self.name_at(k) == old(self).name_at(k)
                && self.space_at(k) == old(self).space_at(k) by {}
            assert forall|k: int| 0 <= k < n implies self.name_at(k) != name@ by {
                assert(old(self).name_at(k) != name@);
            }
            assert(self.first_of(n as int, name@));
        }
        n
    }

    /// The first space of this name, to be changed in place; a new, empty
    /// space where the table has none of this name.
    pub fn get_space(&mut self, name: &str) -> (r: &mut Space)
        requires
            old(self).wf(),
        ensures
            final(self).wf(),
            old(self).has_name(name@) ==> final(self).len() == old(self).len() && exists|i: int|
                {
                    &&& #[trigger] old(self).first_of(i, name@)
                    &&& *r == old(self).space_at(i)
                    &&& final(self).space_at(i) == *final(r)
                    &&& final(self).same_but(old(self), i)
                },
            !old(self).has_name(name@) ==> {
                &&& final(self).len() == old(self).len() + 1
                &&& r.len() == 0
                &&& final(self).name_at(old(self).len() as int) == name@
                &&& final(self).space_at(old(self).len() as int) == *final(r)
                &&& final(self).same_but(old(self), -1)
            },
    {
        let i: usize = self.find_or_create(name);
        proof {
            let grown = *self;
            if old(self).has_name(name@) {
                assert(grown.name_at(i as int) == old(self).name_at(i as int));
                assert forall|k: int| 0 <= k < i implies old(self).name_at(k) != name@ by {
                    assert(grown.name_at(k) == old(self).name_at(k));
                }
                assert(old(self).first_of(i as int, name@));
                assert(grown.space_at(i as int) == old(self).space_at(i as int));
            }
        }
        self.space_mut(i)
    }

    /// The `i`-th space, to be changed in place.
    pub fn space_mut(&mut self, i: usize) -> (r: &mut Space)
        requires
            old(self).wf(),
            i < old(self).len(),
        ensures
            final(self).wf(),
            *r == old(self).space_at(i as int),
            final(self).len() == old(self).len(),
            final(self).space_at(i as int) == *final(r),
            final(self).same_but(old(self), i as int),
    {
        &mut self.spaces[i]
    }

    /// The `i`-th space.
    pub fn space(&self, i: usize) -> (r: &Space)
        requires
            self.wf(),
            i < self.len(),
        ensures
            *r == self.space_at(i as int),
    {
        &self.spaces[i]
    }

    /// The first space of this name, if the table has one.
    pub fn find_space(&self, name: &str) -> (r: Option<&Space>)
        requires
            self.wf(),
        ensures
            match r {
                Some(space) => exists|i: int| #[trigger] self.first_of(i, name@) && *space
                    == self.space_at(i),
                None => !self.has_name(name@),
            },
    {
        let owned: String = name.to_owned();
        let n: usize = self.names.len();
        let mut i: usize = 0;
        while i < n
            invariant
                n == self.names@.len(),
                self.wf(),
                i <= n,
                owned@ == name@,
                forall|k: int| 0 <= k < i ==> self.name_at(k) != name@,
            decreases n - i,
        {
            if self.names[i] == owned {
                assert(self.first_of(i as int, name@));
                return Some(&self.spaces[i]);
            }
            i += 1;
        }
        None
    }
}

} // verus!

//! First-fit block allocator over a fixed universe of addresses.

use vstd::prelude::*;

pub mod list;

use crate::memory::{MemInfo, valid_align, spec_align_gap, align_gap};

verus! {

/// A block handed out or held free by an [`Allocator`].
pub type AllocationInfo = MemInfo;

/// Whether a request of `size` bytes at alignment `align` fits into `block`.
pub open spec fn fits(block: MemInfo, size: u64, align: u64) -> bool {
    size + spec_align_gap(block.base as int, align as int) <= block.size
}

/// Index of the first block at or after `k` into which the request fits, or
/// the length of `s` when there is none.
pub open spec fn first_fit_from(s: Seq<MemInfo>, size: u64, align: u64, k: int) -> int
    decreases s.len() - k,
{
    if k < 0 || k >= s.len() {
        s.len() as int
    } else if fits(s[k], size, align) {
        k
    } else {
        first_fit_from(s, size, align, k + 1)
    }
}

/// Index of the first block into which the request fits, or the length of `s`.
pub open spec fn first_fit(s: Seq<MemInfo>, size: u64, align: u64) -> int {
    first_fit_from(s, size, align, 0)
}

/// Index of the first block at or after `k` whose base is `addr`, or the
/// length of `s` when there is none.
pub open spec fn find_base_from(s: Seq<MemInfo>, addr: int, k: int) -> int
    decreases s.len() - k,
{
    if k < 0 || k >= s.len() {
        s.len() as int
    } else if s[k].base == addr {
        k
    } else {
        find_base_from(s, addr, k + 1)
    }
}

/// Index of the first block whose base is `addr`, or the length of `s`.
pub open spec fn find_base(s: Seq<MemInfo>, addr: int) -> int {
    find_base_from(s, addr, 0)
}

/// Index of the first block at or after `k` that ends at `addr`, or the
/// length of `s` when there is none.
pub open spec fn find_end_from(s: Seq<MemInfo>, addr: int, k: int) -> int
    decreases s.len() - k,
{
    if k < 0 || k >= s.len() {
        s.len() as int
    } else if s[k].end() == addr {
        k
    } else {
        find_end_from(s, addr, k + 1)
    }
}

/// Index of the first block that ends at `addr`, or the length of `s`.
pub open spec fn find_end(s: Seq<MemInfo>, addr: int) -> int {
    find_end_from(s, addr, 0)
}

/// Every block of `s` lies inside `outer`.
pub open spec fn all_inside(s: Seq<MemInfo>, outer: MemInfo) -> bool {
    forall|i: int| 0 <= i < s.len() ==> (#[trigger] s[i]).inside(outer)
}

/// No two blocks of `s` share an address.
pub open spec fn pairwise_disjoint(s: Seq<MemInfo>) -> bool {
    forall|i: int, j: int|
        0 <= i < s.len() && 0 <= j < s.len() && i != j ==> !(#[trigger] s[i]).overlaps(
            #[trigger] s[j],
        )
}

/// No block of `a` shares an address with a block of `b`.
pub open spec fn lists_disjoint(a: Seq<MemInfo>, b: Seq<MemInfo>) -> bool {
    forall|i: int, j: int|
        0 <= i < a.len() && 0 <= j < b.len() ==> !(#[trigger] a[i]).overlaps(#[trigger] b[j])
}

/// Some block of `s` contains `addr`.
pub open spec fn holds(s: Seq<MemInfo>, addr: int) -> bool {
    exists|i: int| 0 <= i < s.len() && (#[trigger] s[i]).contains(addr)
}

/// No block of `s` has size zero.
pub open spec fn all_nonempty(s: Seq<MemInfo>) -> bool {
    forall|i: int| 0 <= i < s.len() ==> (#[trigger] s[i]).size > 0
}

/// No block of `s` ends where another block of `s` begins.
pub open spec fn none_adjacent(s: Seq<MemInfo>) -> bool {
    forall|i: int, j: int|
        0 <= i < s.len() && 0 <= j < s.len() && i != j ==> (#[trigger] s[i]).end() != (
        #[trigger] s[j]).base
}

/// The head fragment that an allocation at `gap` bytes into `block` leaves.
pub open spec fn head_fragment(block: MemInfo, gap: int) -> Seq<MemInfo> {
    if gap != 0 {
        seq![MemInfo { base: block.base, size: gap as u64 }]
    } else {
        seq![]
    }
}

/// The tail fragment that an allocation of `size` bytes at `gap` bytes into
/// `block` leaves.
pub open spec fn tail_fragment(block: MemInfo, gap: int, size: int) -> Seq<MemInfo> {
    if block.size != size + gap {
        seq![
            MemInfo {
                base: (block.base + gap + size) as u64,
                size: (block.size - size - gap) as u64,
            },
        ]
    } else {
        seq![]
    }
}

/// The free block that releasing `item` produces, given the free list before
/// the release: `item` merged with the first free block that ends at its base,
/// if any.
pub open spec fn merged_before(free: Seq<MemInfo>, item: MemInfo) -> MemInfo {
    let p = find_end(free, item.base as int);
    if p < free.len() {
        MemInfo { base: free[p].base, size: (free[p].size + item.size) as u64 }
    } else {
        item
    }
}

/// The free list after the predecessor of `item`, if any, has been taken out.
pub open spec fn without_before(free: Seq<MemInfo>, item: MemInfo) -> Seq<MemInfo> {
    let p = find_end(free, item.base as int);
    if p < free.len() {
        free.remove(p)
    } else {
        free
    }
}

/// The block `pre` merged with the first block of `free` that begins where
/// `pre` ends, if any.
pub open spec fn merged_after(free: Seq<MemInfo>, pre: MemInfo) -> MemInfo {
    let q = find_base(free, pre.end());
    if q < free.len() {
        MemInfo { base: pre.base, size: (pre.size + free[q].size) as u64 }
    } else {
        pre
    }
}

/// The free list after the successor of `pre`, if any, has been taken out.
pub open spec fn without_after(free: Seq<MemInfo>, pre: MemInfo) -> Seq<MemInfo> {
    let q = find_base(free, pre.end());
    if q < free.len() {
        free.remove(q)
    } else {
        free
    }
}

/// The free list that releasing `item` leaves: the coalesced block in front of
/// what remains of the old list.
pub open spec fn free_list_after_release(free: Seq<MemInfo>, item: MemInfo) -> Seq<MemInfo> {
    let pre = merged_before(free, item);
    let rest = without_before(free, item);
    seq![merged_after(rest, pre)] + without_after(rest, pre)
}

/// Whether a request for `size` bytes at alignment `align` fits into a block
/// of `free`.
pub open spec fn can_fit(free: Seq<MemInfo>, size: u64, align: u64) -> bool {
    first_fit(free, size, align) < free.len()
}

/// The base of the block that a request for `size` bytes at alignment `align`
/// is answered with: the aligned base of the first block into which it fits.
pub open spec fn fit_base(free: Seq<MemInfo>, size: u64, align: u64) -> int {
    let block = free[first_fit(free, size, align)];
    block.base + spec_align_gap(block.base as int, align as int)
}

/// The free list after a request for `size` bytes at alignment `align` has
/// been answered from it.
pub open spec fn free_after_fit(free: Seq<MemInfo>, size: u64, align: u64) -> Seq<MemInfo> {
    let i = first_fit(free, size, align);
    let gap = spec_align_gap(free[i].base as int, align as int);
    tail_fragment(free[i], gap, size as int) + head_fragment(free[i], gap) + free.remove(i)
}

/// Whether the requests from the `k`-th on, each a size and an alignment, fit
/// one after the other: each into the free list that the one before it
/// leaves.
pub open spec fn fit_all(free: Seq<MemInfo>, requests: Seq<(u64, u64)>, k: int) -> bool
    decreases requests.len() - k,
{
    if k < 0 || k >= requests.len() {
        true
    } else {
        can_fit(free, requests[k].0, requests[k].1) && fit_all(
            free_after_fit(free, requests[k].0, requests[k].1),
            requests,
            k + 1,
        )
    }
}

/// The invariant of a pair of block lists over `universe`: every block lies
/// in the universe, no two blocks share an address, and every address of the
/// universe lies in some block.
pub open spec fn lists_wf(free: Seq<MemInfo>, allocated: Seq<MemInfo>, universe: MemInfo) -> bool {
    &&& universe.base + universe.size <= u64::MAX
    &&& all_inside(free, universe)
    &&& all_inside(allocated, universe)
    &&& pairwise_disjoint(free)
    &&& pairwise_disjoint(allocated)
    &&& lists_disjoint(free, allocated)
    &&& forall|addr: int| #[trigger]
        universe.contains(addr) ==> holds(free, addr) || holds(allocated, addr)
}

/// Free blocks are maximal: no block is empty and no free block ends where
/// another begins.
pub open spec fn lists_coalesced(free: Seq<MemInfo>, allocated: Seq<MemInfo>) -> bool {
    &&& all_nonempty(free)
    &&& all_nonempty(allocated)
    &&& none_adjacent(free)
}

/// A first-fit allocator over the universe `info`, with a list of free blocks
/// and a list of allocated blocks, most recent first.
pub struct Allocator {
    info: MemInfo,
    free_blocks: Vec<MemInfo>,
    alloced_blocks: Vec<MemInfo>,
}

impl Allocator {
    /// The universe that the allocator manages.
    pub closed spec fn universe(&self) -> MemInfo {
        self.info
    }

    /// The free blocks, head of the list first.
    pub closed spec fn free_list(&self) -> Seq<MemInfo> {
        self.free_blocks@
    }

    /// The allocated blocks, most recent first.
    pub closed spec fn allocated(&self) -> Seq<MemInfo> {
        self.alloced_blocks@
    }

    /// The allocator's invariant: every block lies in the universe, no two
    /// blocks share an address, and every address of the universe lies in a
    /// free or an allocated block.
    pub open spec fn wf(&self) -> bool {
        lists_wf(self.free_list(), self.allocated(), self.universe())
    }

    /// Free blocks are maximal: no block is empty and no free block ends where
    /// another begins.
    pub open spec fn coalesced(&self) -> bool {
        lists_coalesced(self.free_list(), self.allocated())
    }

    /// Whether some allocated block begins at `addr`.
    pub open spec fn is_allocated(&self, addr: u64) -> bool {
        find_base(self.allocated(), addr as int) < self.allocated().len()
    }

    /// Whether this allocator is `before` after a request for `size` bytes at
    /// alignment `align` that was answered with `r`: the first free block
    /// into which the request fits gives the aligned block, and what it held
    /// before and after the block goes to the head of the free list, the tail
    /// fragment in front; the answer is `None`, and nothing changes, exactly
    /// when the request fits into no free block.
    pub open spec fn after_allocate(
        &self,
        before: &Allocator,
        size: u64,
        align: u64,
        r: Option<MemInfo>,
    ) -> bool {
        &&& self.universe() == before.universe()
        &&& match r {
            None => {
                &&& first_fit(before.free_list(), size, align) == before.free_list().len()
                &&& self.free_list() == before.free_list()
                &&& self.allocated() == before.allocated()
            },
            Some(b) => {
                let i = first_fit(before.free_list(), size, align);
                let block = before.free_list()[i];
                let gap = spec_align_gap(block.base as int, align as int);
                &&& 0 <= i < before.free_list().len()
                &&& b.base == block.base + gap
                &&& b.size == size
                &&& self.free_list() == tail_fragment(block, gap, size as int) + head_fragment(
                    block,
                    gap,
                ) + before.free_list().remove(i)
                &&& self.allocated() == seq![b] + before.allocated()
            },
        }
    }

    /// Whether this allocator is `before` after the release of the first
    /// allocated block that begins at `addr`: the block has left the
    /// allocated list, and the free list is as [`free_list_after_release`]
    /// says.
    pub open spec fn after_free(&self, before: &Allocator, addr: u64) -> bool {
        let at = find_base(before.allocated(), addr as int);
        &&& self.universe() == before.universe()
        &&& self.allocated() == before.allocated().remove(at)
        &&& self.free_list() == free_list_after_release(before.free_list(), before.allocated()[at])
    }

    /// Whether the two allocators manage the same universe with the same
    /// lists.
    pub open spec fn same_lists(&self, other: &Allocator) -> bool {
        &&& self.universe() == other.universe()
        &&& self.free_list() == other.free_list()
        &&& self.allocated() == other.allocated()
    }

    /// An allocator whose whole universe `[base, base + size)` is free.
    pub fn new(base: u64, size: u64) -> (a: Allocator)
        requires
            base + size <= u64::MAX,
        ensures
            a.wf(),
            a.universe() == (MemInfo { base, size }),
            a.free_list() == seq![MemInfo { base, size }],
            a.allocated() == Seq::<MemInfo>::empty(),
            size > 0 ==> a.coalesced(),
    {
        let mut free_blocks: Vec<MemInfo> = Vec::new();
        free_blocks.push(MemInfo { base, size });
        let a = Allocator { info: MemInfo { base, size }, free_blocks, alloced_blocks: Vec::new() };
        proof {
            assert(a.free_list() =~= seq![MemInfo { base, size }]);
            assert(a.allocated() =~= Seq::<MemInfo>::empty());
            assert forall|addr: int| #[trigger] a.universe().contains(addr) implies holds(
                a.free_list(),
                addr,
            ) by {
                assert(a.free_list()[0].contains(addr));
            }
        }
        a
    }

    /// Takes `size` bytes at alignment `align` out of the first free block
    /// into which they fit. What the block holds before the aligned base and
    /// after the allocation goes back to the head of the free list, the
    /// tail fragment in front. Returns `None`, changing nothing, when no free
    /// block is large enough.
    pub fn allocate(&mut self, size: u64, align: u64) -> (r: Option<AllocationInfo>)
        requires
            old(self).wf(),
            valid_align(align),
        ensures
            final(self).wf(),
            old(self).coalesced() && size > 0 ==> final(self).coalesced(),
            final(self).after_allocate(old(self), size, align, r),
            r matches Some(b) ==> b.inside(old(self).universe()),
    {
        let n: usize = self.free_blocks.len();
        let mut i: usize = 0;
        while i < n && !Self::block_fits(self.free_blocks[i], size, align)
            invariant
                n == self.free_blocks.len(),
                self.free_blocks@ == old(self).free_blocks@,
                i <= n,
                valid_align(align),
                first_fit_from(self.free_blocks@, size, align, i as int) == first_fit(
                    self.free_blocks@,
                    size,
                    align,
                ),
            decreases n - i,
        {
            i += 1;
        }
        if i == n {
            return None;
        }
        let ghost free = self.free_blocks@;
        let ghost allocated = self.alloced_blocks@;
        let block: MemInfo = self.free_blocks.remove(i);
        let gap: u64 = align_gap(block.base, align);
        let base: u64 = block.base + gap;
        let result = MemInfo { base, size };
        if gap != 0 {
            self.free_blocks.insert(0, MemInfo { base: block.base, size: gap });
        }
        if block.size - gap != size {
            self.free_blocks.insert(0, MemInfo { base: base + size, size: block.size - gap
                - size });
        }
        self.alloced_blocks.insert(0, result);
        proof {
            assert(self.free_blocks@ =~= tail_fragment(block, gap as int, size as int)
                + head_fragment(block, gap as int) + free.remove(i as int));
            assert(self.alloced_blocks@ =~= seq![result] + allocated);
            lemma_alloc_keeps_wf(free, allocated, self.info, i as int, gap as int, size);
            lemma_first_fit_from(free, size, align, 0);
            assert(free[i as int].inside(self.info));
        }
        Some(result)
    }

    /// Whether the request fits into `block`.
    fn block_fits(block: MemInfo, size: u64, align: u64) -> (r: bool)
        requires
            valid_align(align),
        ensures
            r == fits(block, size, align),
    {
        let gap: u64 = align_gap(block.base, align);
        block.size >= gap && block.size - gap >= size
    }

    /// Index of the first block of `list` whose base is `addr`, or its length.
    fn position_of_base(list: &Vec<MemInfo>, addr: u64) -> (r: usize)
        ensures
            r == find_base(list@, addr as int),
            r <= list.len(),
    {
        let n: usize = list.len();
        let mut i: usize = 0;
        while i < n && list[i].base != addr
            invariant
                n == list.len(),
                i <= n,
                find_base_from(list@, addr as int, i as int) == find_base(list@, addr as int),
            decreases n - i,
        {
            i += 1;
        }
        i
    }

    /// Index of the first block of `list` that ends at `addr`, or its length.
    fn position_of_end(list: &Vec<MemInfo>, addr: u64) -> (r: usize)
        requires
            forall|k: int| 0 <= k < list.len() ==> (#[trigger] list@[k]).end() <= u64::MAX,
        ensures
            r == find_end(list@, addr as int),
            r <= list.len(),
    {
        let n: usize = list.len();
        let mut i: usize = 0;
        while i < n && list[i].base + list[i].size != addr
            invariant
                n == list.len(),
                i <= n,
                forall|k: int| 0 <= k < list.len() ==> (#[trigger] list@[k]).end() <= u64::MAX,
                find_end_from(list@, addr as int, i as int) == find_end(list@, addr as int),
            decreases n - i,
        {
            i += 1;
        }
        i
    }

    /// Whether some allocated block begins at `addr`.
    pub fn has_block_at(&self, addr: u64) -> (r: bool)
        ensures
            r == self.is_allocated(addr),
    {
        Self::position_of_base(&self.alloced_blocks, addr) < self.alloced_blocks.len()
    }

    /// Releases the first allocated block that begins at `addr`. The block is
    /// merged with the first free block that ends at its base and then with
    /// the first remaining free block that begins at its end, where there are
    /// such blocks, and the result becomes the head of the free list.
    pub fn free(&mut self, addr: u64)
        requires
            old(self).wf(),
            old(self).is_allocated(addr),
        ensures
            final(self).wf(),
            old(self).coalesced() ==> final(self).coalesced(),
            final(self).after_free(old(self), addr),
    {
        let ghost free = self.free_blocks@;
        let ghost allocated = self.alloced_blocks@;
        let at: usize = Self::position_of_base(&self.alloced_blocks, addr);
        proof {
            lemma_find_base_from(allocated, addr as int, 0);
        }
        let item: MemInfo = self.alloced_blocks.remove(at);
        let before: usize = Self::position_of_end(&self.free_blocks, item.base);
        proof {
            lemma_find_end_from(free, item.base as int, 0);
        }
        let pre: MemInfo = if before < self.free_blocks.len() {
            let b: MemInfo = self.free_blocks.remove(before);
            MemInfo { base: b.base, size: b.size + item.size }
        } else {
            item
        };
        let ghost rest = self.free_blocks@;
        proof {
            assert(rest == without_before(free, item));
            assert(pre == merged_before(free, item));
            assert(pre.end() == item.end());
            lemma_find_base_from(rest, pre.end(), 0);
        }
        let after: usize = Self::position_of_base(&self.free_blocks, pre.base + pre.size);
        let post: MemInfo = if after < self.free_blocks.len() {
            let a: MemInfo = self.free_blocks.remove(after);
            MemInfo { base: pre.base, size: pre.size + a.size }
        } else {
            pre
        };
        self.free_blocks.insert(0, post);
        proof {
            assert(self.free_blocks@ =~= free_list_after_release(free, item));
            lemma_free_keeps_wf(free, allocated, self.info, at as int);
        }
    }

    /// An allocator with the same universe and the same lists.
    pub fn duplicate(&self) -> (a: Allocator)
        ensures
            a.same_lists(self),
    {
        Allocator {
            info: self.info,
            free_blocks: self.free_blocks.clone(),
            alloced_blocks: self.alloced_blocks.clone(),
        }
    }

    /// Whether the requests, each a size and an alignment, can all be
    /// answered one after the other. The allocator itself stays as it is.
    pub fn fits_all(&self, requests: &Vec<(u64, u64)>) -> (r: bool)
        requires
            self.wf(),
            forall|i: int| 0 <= i < requests@.len() ==> valid_align((#[trigger] requests@[i]).1),
        ensures
            r == fit_all(self.free_list(), requests@, 0),
    {
        let mut trial: Allocator = self.duplicate();
        let n: usize = requests.len();
        let mut i: usize = 0;
        while i < n
            invariant
                n == requests@.len(),
                i <= n,
                trial.wf(),
                forall|k: int|
                    0 <= k < requests@.len() ==> valid_align((#[trigger] requests@[k]).1),
                fit_all(self.free_list(), requests@, 0) == fit_all(
                    trial.free_list(),
                    requests@,
                    i as int,
                ),
            decreases n - i,
        {
            let request: (u64, u64) = requests[i];
            match trial.allocate(request.0, request.1) {
                Some(_) => {},
                None => {
                    return false;
                },
            }
            i += 1;
        }
        true
    }

    /// The universe that the allocator manages.
    pub fn info(&self) -> (r: MemInfo)
        ensures
            r == self.universe(),
    {
        self.info
    }

    /// The free blocks, head of the list first.
    pub fn free_blocks(&self) -> (v: Vec<MemInfo>)
        ensures
            v@ == self.free_list(),
    {
        self.free_blocks.clone()
    }

    /// The allocated blocks, most recent first.
    pub fn alloced_blocks(&self) -> (v: Vec<MemInfo>)
        ensures
            v@ == self.allocated(),
    {
        self.alloced_blocks.clone()
    }
}

/// An allocator behind exclusive access: every operation takes the allocator
/// by unique reference, so no two callers are ever inside it at once.
pub struct LockedAllocator {
    inner: Allocator,
}

impl LockedAllocator {
    /// The allocator that the lock guards.
    pub closed spec fn view(&self) -> Allocator {
        self.inner
    }

    /// A locked allocator whose whole universe `[base, base + size)` is free.
    pub fn new(base: u64, size: u64) -> (a: LockedAllocator)
        requires
            base + size <= u64::MAX,
        ensures
            a@.wf(),
            a@.universe() == (MemInfo { base, size }),
            a@.free_list() == seq![MemInfo { base, size }],
            a@.allocated() == Seq::<MemInfo>::empty(),
            size > 0 ==> a@.coalesced(),
    {
        LockedAllocator { inner: Allocator::new(base, size) }
    }

    /// Allocates from the guarded allocator, as [`Allocator::allocate`] does.
    pub fn allocate(&mut self, size: u64, align: u64) -> (r: Option<AllocationInfo>)
        requires
            old(self)@.wf(),
            valid_align(align),
        ensures
            final(self)@.wf(),
            old(self)@.coalesced() && size > 0 ==> final(self)@.coalesced(),
            final(self)@.after_allocate(&old(self)@, size, align, r),
            r matches Some(b) ==> b.inside(old(self)@.universe()),
    {
        self.inner.allocate(size, align)
    }

    /// Releases a block of the guarded allocator, as [`Allocator::free`] does.
    pub fn free(&mut self, addr: u64)
        requires
            old(self)@.wf(),
            old(self)@.is_allocated(addr),
        ensures
            final(self)@.wf(),
            old(self)@.coalesced() ==> final(self)@.coalesced(),
            final(self)@.after_free(&old(self)@, addr),
    {
        self.inner.free(addr)
    }

    /// Whether some allocated block begins at `addr`.
    pub fn has_block_at(&self, addr: u64) -> (r: bool)
        ensures
            r == self@.is_allocated(addr),
    {
        self.inner.has_block_at(addr)
    }

    /// The allocated blocks, most recent first.
    pub fn alloced_blocks(&self) -> (v: Vec<MemInfo>)
        ensures
            v@ == self@.allocated(),
    {
        self.inner.alloced_blocks()
    }

    /// The free blocks, head of the list first.
    pub fn free_blocks(&self) -> (v: Vec<MemInfo>)
        ensures
            v@ == self@.free_list(),
    {
        self.inner.free_blocks()
    }
}

/// What `first_fit_from` returns lies between `k` and the length, is a block
/// that fits when it is an index, and no block before it fits.
pub proof fn lemma_first_fit_from(s: Seq<MemInfo>, size: u64, align: u64, k: int)
    requires
        0 <= k <= s.len(),
    ensures
        k <= first_fit_from(s, size, align, k) <= s.len(),
        first_fit_from(s, size, align, k) < s.len() ==> fits(
            s[first_fit_from(s, size, align, k)],
            size,
            align,
        ),
        forall|j: int|
            k <= j < first_fit_from(s, size, align, k) ==> !fits(#[trigger] s[j], size, align),
    decreases s.len() - k,
{
    if k < s.len() && !fits(s[k], size, align) {
        lemma_first_fit_from(s, size, align, k + 1);
    }
}

/// What `find_base_from` returns lies between `k` and the length, is a block
/// with that base when it is an index, and no block before it has that base.
pub proof fn lemma_find_base_from(s: Seq<MemInfo>, addr: int, k: int)
    requires
        0 <= k <= s.len(),
    ensures
        k <= find_base_from(s, addr, k) <= s.len(),
        find_base_from(s, addr, k) < s.len() ==> s[find_base_from(s, addr, k)].base == addr,
        forall|j: int| k <= j < find_base_from(s, addr, k) ==> (#[trigger] s[j]).base != addr,
    decreases s.len() - k,
{
    if k < s.len() && s[k].base != addr {
        lemma_find_base_from(s, addr, k + 1);
    }
}

/// What `find_end_from` returns lies between `k` and the length, is a block
/// with that end when it is an index, and no block before it has that end.
pub proof fn lemma_find_end_from(s: Seq<MemInfo>, addr: int, k: int)
    requires
        0 <= k <= s.len(),
    ensures
        k <= find_end_from(s, addr, k) <= s.len(),
        find_end_from(s, addr, k) < s.len() ==> s[find_end_from(s, addr, k)].end() == addr,
        forall|j: int| k <= j < find_end_from(s, addr, k) ==> (#[trigger] s[j]).end() != addr,
    decreases s.len() - k,
{
    if k < s.len() && s[k].end() != addr {
        lemma_find_end_from(s, addr, k + 1);
    }
}

/// Splitting a free block into fragments and an allocated block keeps the
/// invariant of the lists, and keeps them coalesced when the allocation is
/// not empty.
pub proof fn lemma_alloc_keeps_wf(
    free: Seq<MemInfo>,
    allocated: Seq<MemInfo>,
    universe: MemInfo,
    i: int,
    gap: int,
    size: u64,
)
    requires
        lists_wf(free, allocated, universe),
        0 <= i < free.len(),
        0 <= gap,
        size + gap <= free[i].size,
    ensures
        lists_wf(
            tail_fragment(free[i], gap, size as int) + head_fragment(free[i], gap) + free.remove(i),
            seq![MemInfo { base: (free[i].base + gap) as u64, size }] + allocated,
            universe,
        ),
        lists_coalesced(free, allocated) && size > 0 ==> lists_coalesced(
            tail_fragment(free[i], gap, size as int) + head_fragment(free[i], gap) + free.remove(i),
            seq![MemInfo { base: (free[i].base + gap) as u64, size }] + allocated,
        ),
{
    let block = free[i];
    let b = MemInfo { base: (block.base + gap) as u64, size };
    let frags = tail_fragment(block, gap, size as int) + head_fragment(block, gap);
    let rest = free.remove(i);
    let f2 = frags + rest;
    let a2 = seq![b] + allocated;
    assert(block.inside(universe));
    assert forall|k: int| 0 <= k < frags.len() implies (#[trigger] frags[k]).inside(block)
        && !frags[k].overlaps(b) && frags[k].size > 0 by {}
    assert forall|k: int| 0 <= k < rest.len() implies exists|m: int|
        0 <= m < free.len() && m != i && #[trigger] rest[k] == free[m] by {
        let m = if k < i { k } else { k + 1 };
        assert(rest[k] == free[m]);
    }
    assert forall|k: int| 0 <= k < rest.len() implies !(#[trigger] rest[k]).overlaps(block)
        && rest[k].inside(universe) by {
        let m = if k < i { k } else { k + 1 };
        assert(rest[k] == free[m]);
    }
    assert forall|k: int, j: int|
        0 <= k < f2.len() && 0 <= j < f2.len() && k != j implies !(#[trigger] f2[k]).overlaps(
        #[trigger] f2[j],
    ) by {
        if k >= frags.len() && j >= frags.len() {
            let mk = if k - frags.len() < i { k - frags.len() } else { k - frags.len() + 1 };
            let mj = if j - frags.len() < i { j - frags.len() } else { j - frags.len() + 1 };
            assert(f2[k] == free[mk]);
            assert(f2[j] == free[mj]);
        } else if k >= frags.len() {
            assert(f2[k] == rest[k - frags.len()]);
            assert(f2[j] == frags[j]);
        } else if j >= frags.len() {
            assert(f2[j] == rest[j - frags.len()]);
            assert(f2[k] == frags[k]);
        } else {
            assert(f2[k] == frags[k]);
            assert(f2[j] == frags[j]);
        }
    }
    assert forall|k: int| 0 <= k < f2.len() implies (#[trigger] f2[k]).inside(universe) by {
        if k >= frags.len() {
            assert(f2[k] == rest[k - frags.len()]);
        } else {
            assert(f2[k] == frags[k]);
        }
    }
    assert forall|k: int| 0 <= k < a2.len() implies (#[trigger] a2[k]).inside(universe) by {
        if k >= 1 {
            assert(a2[k] == allocated[k - 1]);
        }
    }
    assert forall|k: int, j: int|
        0 <= k < a2.len() && 0 <= j < a2.len() && k != j implies !(#[trigger] a2[k]).overlaps(
        #[trigger] a2[j],
    ) by {
        if k >= 1 {
            assert(a2[k] == allocated[k - 1]);
            assert(!free[i].overlaps(allocated[k - 1]));
        }
        if j >= 1 {
            assert(a2[j] == allocated[j - 1]);
            assert(!free[i].overlaps(allocated[j - 1]));
        }
    }
    assert forall|k: int, j: int| 0 <= k < f2.len() && 0 <= j < a2.len() implies !(
    #[trigger] f2[k]).overlaps(#[trigger] a2[j]) by {
        if j >= 1 {
            assert(a2[j] == allocated[j - 1]);
            assert(!free[i].overlaps(allocated[j - 1]));
        }
        if k >= frags.len() {
            let m = if k - frags.len() < i { k - frags.len() } else { k - frags.len() + 1 };
            assert(f2[k] == free[m]);
            if j >= 1 {
                assert(!free[m].overlaps(allocated[j - 1]));
            }
        } else {
            assert(f2[k] == frags[k]);
        }
    }
    assert forall|addr: int| #[trigger] universe.contains(addr) implies holds(f2, addr) || holds(
        a2,
        addr,
    ) by {
        if holds(allocated, addr) {
            let j = choose|j: int| 0 <= j < allocated.len()
                && (#[trigger] allocated[j]).contains(addr);
            assert(a2[j + 1].contains(addr));
        } else {
            let m = choose|m: int| 0 <= m < free.len() && (#[trigger] free[m]).contains(addr);
            if m == i {
                if b.contains(addr) {
                    assert(a2[0].contains(addr));
                } else if addr < b.base {
                    assert(gap != 0);
                    let hk = tail_fragment(block, gap, size as int).len() as int;
                    assert(f2[hk] == MemInfo { base: block.base, size: gap as u64 });
                    assert(f2[hk].contains(addr));
                } else {
                    assert(f2[0].contains(addr));
                }
            } else {
                let k = if m < i { m } else { m - 1 };
                assert(rest[k] == free[m]);
                assert(f2[k + frags.len()].contains(addr));
            }
        }
    }
    if lists_coalesced(free, allocated) && size > 0 {
        assert forall|k: int| 0 <= k < f2.len() implies (#[trigger] f2[k]).size > 0 by {
            if k >= frags.len() {
                let m = if k - frags.len() < i { k - frags.len() } else { k - frags.len() + 1 };
                assert(f2[k] == free[m]);
            } else {
                assert(f2[k] == frags[k]);
            }
        }
        assert forall|k: int| 0 <= k < a2.len() implies (#[trigger] a2[k]).size > 0 by {
            if k >= 1 {
                assert(a2[k] == allocated[k - 1]);
            }
        }
        assert forall|k: int, j: int|
            0 <= k < f2.len() && 0 <= j < f2.len() && k != j implies (#[trigger] f2[k]).end() != (
            #[trigger] f2[j]).base by {
            let mk = if k - frags.len() < i { k - frags.len() } else { k - frags.len() + 1 };
            let mj = if j - frags.len() < i { j - frags.len() } else { j - frags.len() + 1 };
            if k >= frags.len() {
                assert(f2[k] == free[mk]);
                assert(!free[mk].overlaps(free[i]));
                assert(free[mk].end() != free[i].base);
                assert(free[i].end() != free[mk].base);
            } else {
                assert(f2[k] == frags[k]);
            }
            if j >= frags.len() {
                assert(f2[j] == free[mj]);
                assert(!free[mj].overlaps(free[i]));
                assert(free[mj].end() != free[i].base);
                assert(free[i].end() != free[mj].base);
            } else {
                assert(f2[j] == frags[j]);
            }
        }
    }
}

/// Releasing an allocated block and merging it with its free neighbours keeps
/// the invariant of the lists, and keeps them coalesced.
pub proof fn lemma_free_keeps_wf(
    free: Seq<MemInfo>,
    allocated: Seq<MemInfo>,
    universe: MemInfo,
    at: int,
)
    requires
        lists_wf(free, allocated, universe),
        0 <= at < allocated.len(),
    ensures
        lists_wf(free_list_after_release(free, allocated[at]), allocated.remove(at), universe),
        lists_coalesced(free, allocated) ==> lists_coalesced(
            free_list_after_release(free, allocated[at]),
            allocated.remove(at),
        ),
{
    let item = allocated[at];
    let p = find_end(free, item.base as int);
    let pre = merged_before(free, item);
    let rest = without_before(free, item);
    let q = find_base(rest, pre.end());
    let post = merged_after(rest, pre);
    let rest2 = without_after(rest, pre);
    let f2 = seq![post] + rest2;
    let a2 = allocated.remove(at);
    lemma_find_end_from(free, item.base as int, 0);
    lemma_find_base_from(rest, pre.end(), 0);
    assert(item.inside(universe));
    if p < free.len() {
        assert(free[p].inside(universe));
    }
    if q < rest.len() {
        let m = if p < free.len() && q >= p { q + 1 } else { q };
        assert(rest[q] == free[m]);
        assert(free[m].inside(universe));
    }
    assert(post.inside(universe));
    // every remaining free block is an old free block other than the merged ones
    assert forall|k: int| 0 <= k < rest2.len() implies (#[trigger] rest2[k]).inside(universe)
        && !rest2[k].overlaps(post) && (lists_coalesced(free, allocated) ==> rest2[k].size > 0
        && rest2[k].end() != post.base && post.end() != rest2[k].base) by {
        let k1 = if q < rest.len() && k >= q { k + 1 } else { k };
        assert(rest2[k] == rest[k1]);
        let k0 = if p < free.len() && k1 >= p { k1 + 1 } else { k1 };
        assert(rest[k1] == free[k0]);
        assert(!free[k0].overlaps(item));
        if p < free.len() {
            assert(k0 != p);
            assert(!free[k0].overlaps(free[p]));
        }
        if q < rest.len() {
            let m = if p < free.len() && q >= p { q + 1 } else { q };
            assert(rest[q] == free[m]);
            assert(k0 != m);
            assert(!free[k0].overlaps(free[m]));
        }
    }
    assert forall|k: int, j: int|
        0 <= k < rest2.len() && 0 <= j < rest2.len() && k != j implies !(
    #[trigger] rest2[k]).overlaps(#[trigger] rest2[j]) && (lists_coalesced(free, allocated)
        ==> rest2[k].end() != rest2[j].base) by {
        let k1 = if q < rest.len() && k >= q { k + 1 } else { k };
        let k0 = if p < free.len() && k1 >= p { k1 + 1 } else { k1 };
        let j1 = if q < rest.len() && j >= q { j + 1 } else { j };
        let j0 = if p < free.len() && j1 >= p { j1 + 1 } else { j1 };
        assert(rest2[k] == rest[k1]);
        assert(rest[k1] == free[k0]);
        assert(rest2[j] == rest[j1]);
        assert(rest[j1] == free[j0]);
        assert(!free[k0].overlaps(free[j0]));
    }
    assert forall|k: int, j: int|
        0 <= k < f2.len() && 0 <= j < f2.len() && k != j implies !(#[trigger] f2[k]).overlaps(
        #[trigger] f2[j],
    ) by {
        if k >= 1 {
            assert(f2[k] == rest2[k - 1]);
        }
        if j >= 1 {
            assert(f2[j] == rest2[j - 1]);
        }
    }
    assert forall|k: int| 0 <= k < f2.len() implies (#[trigger] f2[k]).inside(universe) by {
        if k >= 1 {
            assert(f2[k] == rest2[k - 1]);
        }
    }
    assert forall|j: int| 0 <= j < a2.len() implies (#[trigger] a2[j]).inside(universe)
        && !a2[j].overlaps(post) && (lists_coalesced(free, allocated) ==> a2[j].size > 0) by {
        let j0 = if j >= at { j + 1 } else { j };
        assert(a2[j] == allocated[j0]);
        assert(!allocated[j0].overlaps(item));
        if p < free.len() {
            assert(!free[p].overlaps(allocated[j0]));
        }
        if q < rest.len() {
            let m = if p < free.len() && q >= p { q + 1 } else { q };
            assert(rest[q] == free[m]);
            assert(!free[m].overlaps(allocated[j0]));
        }
    }
    assert forall|k: int, j: int|
        0 <= k < a2.len() && 0 <= j < a2.len() && k != j implies !(#[trigger] a2[k]).overlaps(
        #[trigger] a2[j],
    ) by {
        let k0 = if k >= at { k + 1 } else { k };
        let j0 = if j >= at { j + 1 } else { j };
        assert(a2[k] == allocated[k0]);
        assert(a2[j] == allocated[j0]);
    }
    assert forall|k: int, j: int| 0 <= k < f2.len() && 0 <= j < a2.len() implies !(
    #[trigger] f2[k]).overlaps(#[trigger] a2[j]) by {
        let j0 = if j >= at { j + 1 } else { j };
        assert(a2[j] == allocated[j0]);
        if k >= 1 {
            let k1 = if q < rest.len() && k - 1 >= q { k } else { k - 1 };
            let k0 = if p < free.len() && k1 >= p { k1 + 1 } else { k1 };
            assert(f2[k] == rest2[k - 1]);
            assert(rest2[k - 1] == rest[k1]);
            assert(rest[k1] == free[k0]);
            assert(!free[k0].overlaps(allocated[j0]));
        }
    }
    assert forall|addr: int| #[trigger] universe.contains(addr) implies holds(f2, addr) || holds(
        a2,
        addr,
    ) by {
        if post.contains(addr) {
            assert(f2[0].contains(addr));
        } else if holds(allocated, addr) {
            let j0 = choose|j: int| 0 <= j < allocated.len()
                && (#[trigger] allocated[j]).contains(addr);
            assert(j0 != at);
            let j = if j0 > at { j0 - 1 } else { j0 };
            assert(a2[j] == allocated[j0]);
            assert(a2[j].contains(addr));
        } else {
            let k0 = choose|k: int| 0 <= k < free.len() && (#[trigger] free[k]).contains(addr);
            if p < free.len() {
                assert(k0 != p);
            }
            let k1 = if p < free.len() && k0 > p { k0 - 1 } else { k0 };
            assert(rest[k1] == free[k0]);
            if q < rest.len() {
                assert(k1 != q);
            }
            let k = if q < rest.len() && k1 > q { k1 - 1 } else { k1 };
            assert(rest2[k] == rest[k1]);
            assert(f2[k + 1] == rest2[k]);
            assert(f2[k + 1].contains(addr));
        }
    }
    if lists_coalesced(free, allocated) {
        assert(item.size > 0);
        assert forall|k: int| 0 <= k < f2.len() implies (#[trigger] f2[k]).size > 0 by {
            if k >= 1 {
                assert(f2[k] == rest2[k - 1]);
            }
        }
        assert forall|k: int, j: int|
            0 <= k < f2.len() && 0 <= j < f2.len() && k != j implies (#[trigger] f2[k]).end() != (
            #[trigger] f2[j]).base by {
            if k >= 1 {
                assert(f2[k] == rest2[k - 1]);
            }
            if j >= 1 {
                assert(f2[j] == rest2[j - 1]);
            }
        }
    }
}

/// An allocator that has handed out only blocks that are not empty, and has
/// all of them back, holds its universe as a single free block: whatever the
/// order of the requests and of the releases, the free blocks have merged.
pub proof fn lemma_released_allocator_is_whole(a: &Allocator)
    requires
        a.wf(),
        a.coalesced(),
        a.allocated().len() == 0,
        a.universe().size > 0,
    ensures
        a.free_list() == seq![a.universe()],
{
    lemma_all_free_is_universe(a.free_list(), a.allocated(), a.universe());
}

/// Once every allocated block has been released, the free list of coalesced
/// lists is the universe as a single block.
pub proof fn lemma_all_free_is_universe(
    free: Seq<MemInfo>,
    allocated: Seq<MemInfo>,
    universe: MemInfo,
)
    requires
        lists_wf(free, allocated, universe),
        lists_coalesced(free, allocated),
        allocated.len() == 0,
        universe.size > 0,
    ensures
        free == seq![universe],
{
    assert(universe.contains(universe.base as int));
    assert(holds(free, universe.base as int));
    let k = choose|k: int| 0 <= k < free.len()
        && (#[trigger] free[k]).contains(universe.base as int);
    let first = free[k];
    assert(first.inside(universe));
    if first.end() < universe.end() {
        assert(universe.contains(first.end()));
        assert(holds(free, first.end()));
        let m = choose|m: int| 0 <= m < free.len() && (#[trigger] free[m]).contains(first.end());
        assert(m != k);
        assert(!free[m].overlaps(free[k]));
        assert(free[k].end() != free[m].base);
        assert(false);
    }
    assert(first == universe);
    if free.len() > 1 {
        let m: int = if k == 0 { 1 } else { 0 };
        assert(free[m].inside(universe));
        assert(free[m].size > 0);
        assert(!free[m].overlaps(free[k]));
        assert(false);
    }
    assert(free =~= seq![universe]);
}

} // verus!

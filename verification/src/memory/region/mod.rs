//! Memory regions: windows of the guest physical address space, backed by
//! bytes that the global heap holds, by another region seen through a remap,
//! or by a device.

use vstd::prelude::*;
use vstd::bytes::{
    spec_u16_from_le_bytes, spec_u16_to_le_bytes, spec_u32_from_le_bytes, spec_u32_to_le_bytes,
    spec_u64_from_le_bytes, spec_u64_to_le_bytes, u16_from_le_bytes, u16_to_le_bytes,
    u32_from_le_bytes, u32_to_le_bytes, u64_from_le_bytes, u64_to_le_bytes,
};
use std::collections::HashMap;
use std::rc::Rc;
use crate::memory::{MemInfo, valid_align};
use crate::memory::allocator::{Allocator, LockedAllocator, first_fit, fit_all};

verus! {

/// Why an access to a region failed.
#[derive(Debug, PartialEq, Eq)]
pub enum Error {
    /// The address is not a multiple of the access width.
    Misalign(u64),
    /// The access at this address could not be carried out.
    AccessErr(u64, String),
    /// No region is mapped at this address.
    NotMapped(u64),
    /// The address lies outside the region.
    OutOfRange,
}

pub type Result<T> = std::result::Result<T, Error>;

/// An eager backing: one byte of storage for every address of `info`.
struct Model {
    info: MemInfo,
    inner: Vec<u8>,
}

impl Model {
    /// The backing's invariant: it holds one byte for each address of its
    /// window.
    spec fn wf(&self) -> bool {
        self.inner@.len() == self.info.size && self.info.size <= usize::MAX
    }

    /// The window that the backing covers.
    spec fn window(&self) -> MemInfo {
        self.info
    }

    /// The byte stored for `addr`.
    spec fn byte(&self, addr: int) -> u8 {
        if self.info.contains(addr) {
            self.inner@[addr - self.info.base]
        } else {
            0u8
        }
    }

    /// A zero-filled backing for `info`.
    fn new(info: MemInfo) -> (m: Model)
        requires
            info.size <= usize::MAX,
        ensures
            m.wf(),
            m.window() == info,
            forall|addr: int| m.byte(addr) == 0u8,
    {
        Model { info, inner: vec![0u8; info.size as usize] }
    }

    fn read(&self, addr: u64) -> (r: u8)
        requires
            self.wf(),
            self.window().contains(addr as int),
        ensures
            r == self.byte(addr as int),
    {
        self.inner[(addr - self.info.base) as usize]
    }

    fn write(&mut self, addr: u64, data: u8)
        requires
            old(self).wf(),
            old(self).window().contains(addr as int),
        ensures
            final(self).wf(),
            final(self).window() == old(self).window(),
            forall|a: int| final(self).byte(a) == if a == addr { data } else { old(self).byte(a) },
    {
        let offset: usize = (addr - self.info.base) as usize;
        self.inner[offset] = data;
    }
}

/// A sparse backing: bytes are stored once written, and read as zero before.
struct LazyModel {
    info: MemInfo,
    inner: HashMap<u64, u8>,
}

impl LazyModel {
    /// The window that the backing covers.
    spec fn window(&self) -> MemInfo {
        self.info
    }

    /// The byte stored for `addr`.
    spec fn byte(&self, addr: int) -> u8 {
        if 0 <= addr <= u64::MAX && self.inner@.contains_key(addr as u64) {
            self.inner@[addr as u64]
        } else {
            0u8
        }
    }

    /// An empty backing for `info`.
    fn new(info: MemInfo) -> (m: LazyModel)
        ensures
            m.window() == info,
            forall|addr: int| m.byte(addr) == 0u8,
    {
        LazyModel { info, inner: HashMap::new() }
    }

    fn read(&self, addr: u64) -> (r: u8)
        ensures
            r == self.byte(addr as int),
    {
        match self.inner.get(&addr) {
            Some(v) => *v,
            None => 0,
        }
    }

    fn write(&mut self, addr: u64, data: u8)
        ensures
            final(self).window() == old(self).window(),
            forall|a: int| final(self).byte(a) == if a == addr { data } else { old(self).byte(a) },
    {
        self.inner.insert(addr, data);
    }
}

/// The size of the global heap's universe, which begins at address zero.
pub const GLOBAL_HEAP_SIZE: u64 = 0x8000_0000_0000_0000;

/// What a storage slot of the global heap holds.
enum Slot {
    Vacant,
    Model(Model),
    LazyModel(LazyModel),
}

/// Whether every eager backing of `slots` keeps its invariant.
spec fn slots_wf(slots: Seq<Slot>) -> bool {
    forall|i: int| 0 <= i < slots.len() ==> ((#[trigger] slots[i]) matches Slot::Model(m)
        ==> m.wf())
}

spec fn slots_live(slots: Seq<Slot>, slot: int) -> bool {
    0 <= slot < slots.len() && !(slots[slot] is Vacant)
}

spec fn slots_info(slots: Seq<Slot>, slot: int) -> MemInfo {
    if 0 <= slot < slots.len() {
        match slots[slot] {
            Slot::Model(m) => m.window(),
            Slot::LazyModel(m) => m.window(),
            Slot::Vacant => MemInfo { base: 0, size: 0 },
        }
    } else {
        MemInfo { base: 0, size: 0 }
    }
}

spec fn slots_byte(slots: Seq<Slot>, slot: int, addr: int) -> u8 {
    if 0 <= slot < slots.len() {
        match slots[slot] {
            Slot::Model(m) => m.byte(addr),
            Slot::LazyModel(m) => m.byte(addr),
            Slot::Vacant => 0u8,
        }
    } else {
        0u8
    }
}

/// The process-wide heap: the allocator that hands out windows of the
/// universe `[0, 2^63)`, the bytes that back each window handed out, and the
/// allocators of the sub-heaps laid over regions.
pub struct GlobalHeap {
    allocator: LockedAllocator,
    slots: Vec<Slot>,
    heaps: Vec<Option<Allocator>>,
}

impl GlobalHeap {
    /// The heap's invariant: its allocators keep theirs, and every eager
    /// backing holds one byte for each address of its window.
    #[verifier::type_invariant]
    pub closed spec fn wf(&self) -> bool {
        &&& self.allocator@.wf()
        &&& slots_wf(self.slots@)
        &&& forall|i: int|
            0 <= i < self.heaps@.len() ==> ((#[trigger] self.heaps@[i]) matches Some(a) ==> a.wf())
    }

    /// The allocator of the universe.
    pub closed spec fn allocator_view(&self) -> Allocator {
        self.allocator@
    }

    /// The allocator of sub-heap `id`, while that sub-heap exists.
    pub closed spec fn sub_allocator(&self, id: int) -> Option<Allocator> {
        if 0 <= id < self.heaps@.len() {
            self.heaps@[id]
        } else {
            None
        }
    }

    /// Only a number below the count of sub-heaps names a sub-heap.
    pub proof fn lemma_sub_allocator_index(&self, id: int)
        ensures
            self.sub_allocator(id) is Some ==> 0 <= id < self.heap_count(),
    {
    }

    /// The number of sub-heaps ever created.
    pub closed spec fn heap_count(&self) -> int {
        self.heaps@.len() as int
    }

    /// The number of storage slots ever created.
    pub closed spec fn slot_count(&self) -> int {
        self.slots@.len() as int
    }

    /// Whether storage slot `slot` holds a backing.
    pub closed spec fn live(&self, slot: int) -> bool {
        slots_live(self.slots@, slot)
    }

    /// The window that the backing in `slot` covers.
    pub closed spec fn slot_info(&self, slot: int) -> MemInfo {
        slots_info(self.slots@, slot)
    }

    /// The byte that the backing in `slot` holds for `addr`; zero where the
    /// slot holds none.
    pub closed spec fn byte(&self, slot: int, addr: int) -> u8 {
        slots_byte(self.slots@, slot, addr)
    }

    /// Whether the two heaps have the same allocators and the same backings,
    /// whatever bytes these hold.
    pub open spec fn same_layout(&self, other: &GlobalHeap) -> bool {
        &&& self.same_allocators(other)
        &&& self.slot_count() == other.slot_count()
        &&& forall|slot: int| #[trigger] self.live(slot) == other.live(slot)
        &&& forall|slot: int| #[trigger] self.slot_info(slot) == other.slot_info(slot)
    }

    /// Whether the two heaps have allocators with the same lists, for the
    /// universe and for every sub-heap.
    pub open spec fn same_allocators(&self, other: &GlobalHeap) -> bool {
        &&& self.allocator_view().same_lists(&other.allocator_view())
        &&& self.same_sub_allocators(other, -1)
    }

    /// Whether the two heaps have the same sub-heaps, each with the same
    /// lists, but for the sub-heap `except`.
    pub open spec fn same_sub_allocators(&self, other: &GlobalHeap, except: int) -> bool {
        &&& self.heap_count() == other.heap_count()
        &&& forall|id: int|
            id != except ==> match (#[trigger] self.sub_allocator(id), other.sub_allocator(id)) {
                (Some(a), Some(b)) => a.same_lists(&b),
                (None, None) => true,
                _ => false,
            }
    }

    /// Whether every backing of this heap is a backing of `before` with the
    /// same bytes, and every sub-heap of this heap a sub-heap of `before`:
    /// what a release leaves.
    pub open spec fn shrunk_from(&self, before: &GlobalHeap) -> bool {
        &&& self.slot_count() == before.slot_count()
        &&& self.heap_count() == before.heap_count()
        &&& self.allocator_view().universe() == before.allocator_view().universe()
        &&& forall|slot: int| #[trigger] self.live(slot) ==> self.same_slot(before, slot)
        &&& forall|id: int|
            (#[trigger] self.sub_allocator(id)) matches Some(a) ==> (before.sub_allocator(
                id,
            ) matches Some(b) && a.universe() == b.universe())
    }

    /// Whether slot `slot` holds the same backing with the same bytes in both
    /// heaps.
    pub open spec fn same_slot(&self, other: &GlobalHeap, slot: int) -> bool {
        &&& self.live(slot) == other.live(slot)
        &&& self.slot_info(slot) == other.slot_info(slot)
        &&& forall|addr: int| #[trigger] self.byte(slot, addr) == other.byte(slot, addr)
    }

    /// A heap whose whole universe is free.
    pub fn new() -> (heap: GlobalHeap)
        ensures
            heap.allocator_view().universe() == (MemInfo { base: 0, size: GLOBAL_HEAP_SIZE }),
            heap.allocator_view().free_list() == seq![MemInfo { base: 0, size: GLOBAL_HEAP_SIZE }],
            heap.allocator_view().allocated() == Seq::<MemInfo>::empty(),
            heap.allocator_view().coalesced(),
            heap.allocator_view().wf(),
            heap.slot_count() == 0,
            heap.heap_count() == 0,
    {
        GlobalHeap {
            allocator: LockedAllocator::new(0, GLOBAL_HEAP_SIZE),
            slots: Vec::new(),
            heaps: Vec::new(),
        }
    }

    /// The allocator of the universe.
    pub fn allocator(&self) -> (a: &LockedAllocator)
        ensures
            a@ == self.allocator_view(),
            a@.wf(),
    {
        proof {
            use_type_invariant(self);
        }
        &self.allocator
    }

    /// Whether `slot` holds a backing for exactly the window `info`.
    fn holds(&self, slot: usize, info: MemInfo) -> (r: bool)
        ensures
            r == (self.live(slot as int) && self.slot_info(slot as int) == info),
    {
        if slot >= self.slots.len() {
            return false;
        }
        match &self.slots[slot] {
            Slot::Model(m) => m.info.base == info.base && m.info.size == info.size,
            Slot::LazyModel(m) => m.info.base == info.base && m.info.size == info.size,
            Slot::Vacant => false,
        }
    }

    /// Reads the `len` bytes at `addr` from the backing in `slot`.
    fn load(&self, slot: usize, addr: u64, len: usize) -> (r: Vec<u8>)
        requires
            self.live(slot as int),
            self.slot_info(slot as int).contains_range(addr as int, len as int),
            addr + len <= u64::MAX,
        ensures
            r@ == Seq::new(len as nat, |i: int| self.byte(slot as int, addr + i)),
    {
        proof {
            use_type_invariant(self);
        }
        let mut out: Vec<u8> = Vec::new();
        let mut i: usize = 0;
        while i < len
            invariant
                i <= len,
                self.wf(),
                self.live(slot as int),
                self.slot_info(slot as int).contains_range(addr as int, len as int),
                addr + len <= u64::MAX,
                out@ == Seq::new(i as nat, |k: int| self.byte(slot as int, addr + k)),
            decreases len - i,
        {
            let a: u64 = addr + i as u64;
            let b: u8 = match &self.slots[slot] {
                Slot::Model(m) => m.read(a),
                Slot::LazyModel(m) => m.read(a),
                Slot::Vacant => 0,
            };
            out.push(b);
            i += 1;
            assert(out@ =~= Seq::new(i as nat, |k: int| self.byte(slot as int, addr + k)));
        }
        out
    }
}

/// Writes `data` at `addr` into the backing in `slot` of `slots`.
fn store_bytes(slots: &mut Vec<Slot>, slot: usize, addr: u64, data: &[u8])
    requires
        slots_wf(old(slots)@),
        slots_live(old(slots)@, slot as int),
        slots_info(old(slots)@, slot as int).contains_range(addr as int, data@.len() as int),
        addr + data@.len() <= u64::MAX,
    ensures
        slots_wf(final(slots)@),
        final(slots)@.len() == old(slots)@.len(),
        forall|s: int| #[trigger] slots_live(final(slots)@, s) == slots_live(old(slots)@, s),
        forall|s: int| #[trigger] slots_info(final(slots)@, s) == slots_info(old(slots)@, s),
        forall|s: int, a: int| #[trigger]
            slots_byte(final(slots)@, s, a) == if s == slot && addr <= a < addr + data@.len() {
                data@[a - addr]
            } else {
                slots_byte(old(slots)@, s, a)
            },
{
    let len: usize = data.len();
    let mut i: usize = 0;
    while i < len
        invariant
            i <= len,
            len == data@.len(),
            slots_wf(slots@),
            slots@.len() == old(slots)@.len(),
            slots_live(old(slots)@, slot as int),
            slots_info(old(slots)@, slot as int).contains_range(addr as int, len as int),
            addr + len <= u64::MAX,
            forall|s: int| #[trigger] slots_live(slots@, s) == slots_live(old(slots)@, s),
            forall|s: int| #[trigger] slots_info(slots@, s) == slots_info(old(slots)@, s),
            forall|s: int, a: int| #[trigger]
                slots_byte(slots@, s, a) == if s == slot && addr <= a < addr + i {
                    data@[a - addr]
                } else {
                    slots_byte(old(slots)@, s, a)
                },
        decreases len - i,
    {
        let a: u64 = addr + i as u64;
        let b: u8 = data[i];
        let ghost before = slots@;
        assert(slots_info(before, slot as int) == slots_info(old(slots)@, slot as int));
        assert(slots_live(before, slot as int));
        match &mut slots[slot] {
            Slot::Model(m) => m.write(a, b),
            Slot::LazyModel(m) => m.write(a, b),
            Slot::Vacant => {},
        }
        proof {
            assert(slots@.len() == before.len());
            assert forall|k: int| 0 <= k < slots@.len() && k != slot implies slots@[k]
                == before[k] by {}
            assert forall|s2: int, a2: int| #[trigger]
                slots_byte(slots@, s2, a2) == if s2 == slot && a2 == a {
                    b
                } else {
                    slots_byte(before, s2, a2)
                } by {}
            assert forall|s2: int| #[trigger]
                slots_live(slots@, s2) == slots_live(before, s2) by {}
            assert forall|s2: int| #[trigger]
                slots_info(slots@, s2) == slots_info(before, s2) by {}
        }
        i += 1;
    }
}

impl GlobalHeap {
    /// Writes `data` at `addr` into the backing in `slot`.
    fn store(&mut self, slot: usize, addr: u64, data: &[u8])
        requires
            old(self).live(slot as int),
            old(self).slot_info(slot as int).contains_range(addr as int, data@.len() as int),
            addr + data@.len() <= u64::MAX,
        ensures
            final(self).same_layout(old(self)),
            forall|s: int, a: int| #[trigger]
                final(self).byte(s, a) == if s == slot && addr <= a < addr + data@.len() {
                    data@[a - addr]
                } else {
                    old(self).byte(s, a)
                },
    {
        proof {
            use_type_invariant(&*self);
        }
        let mut slots: Vec<Slot> = Vec::new();
        core::mem::swap(&mut self.slots, &mut slots);
        store_bytes(&mut slots, slot, addr, data);
        core::mem::swap(&mut self.slots, &mut slots);
    }
}

/// Another handle to the value that `rc` points to.
///
/// Wraps `Rc::clone`, which hands back a pointer to the same allocation: the
/// value seen through the result is the value seen through `rc`.
#[verifier::external_body]
pub(crate) fn share<T>(rc: &Rc<T>) -> (res: Rc<T>)
    ensures
        res == *rc,
{
    Rc::clone(rc)
}

/// The error that an accessor answers with when the device does not provide
/// it: `AccessErr` at `addr`, with `what` as its text.
pub fn missing_access(addr: u64, what: &str) -> (e: Error)
    ensures
        e matches Error::AccessErr(a, m) && a == addr && m@ == what@,
{
    Error::AccessErr(addr, what.to_owned())
}

/// The accessors of a device.
pub enum Access {
    U8Write,
    U8Read,
    U16Write,
    U16Read,
    U32Write,
    U32Read,
    U64Write,
    U64Read,
    BytesWrite,
    BytesRead,
}

/// The text of the error that an accessor answers with when the device does
/// not provide it.
pub open spec fn missing_text(access: Access) -> Seq<char> {
    match access {
        Access::U8Write => "IOAccess::u8_write not implemented"@,
        Access::U8Read => "IOAccess::u8_read not implemented"@,
        Access::U16Write => "IOAccess::u16_write not implemented"@,
        Access::U16Read => "IOAccess::u16_read not implemented"@,
        Access::U32Write => "IOAccess::u32_write not implemented"@,
        Access::U32Read => "IOAccess::u32_read not implemented"@,
        Access::U64Write => "IOAccess::u64_write not implemented"@,
        Access::U64Read => "IOAccess::u64_read not implemented"@,
        Access::BytesWrite => "IOAccess::bytes_write not implemented"@,
        Access::BytesRead => "IOAccess::bytes_read not implemented"@,
    }
}

/// Whether `r` is the answer of an accessor that the device does not
/// provide: `AccessErr` at `addr`, with the text for that accessor.
pub open spec fn is_missing<T>(r: Result<T>, addr: u64, access: Access) -> bool {
    r matches Err(Error::AccessErr(a, m)) && a == addr && m@ == missing_text(access)
}

/// The answer of an accessor that a device does not provide: `AccessErr` at
/// `addr`, with the text for that accessor.
pub fn unprovided<T>(addr: u64, access: Access) -> (r: Result<T>)
    ensures
        is_missing(r, addr, access),
{
    let what: &str = match access {
        Access::U8Write => "IOAccess::u8_write not implemented",
        Access::U8Read => "IOAccess::u8_read not implemented",
        Access::U16Write => "IOAccess::u16_write not implemented",
        Access::U16Read => "IOAccess::u16_read not implemented",
        Access::U32Write => "IOAccess::u32_write not implemented",
        Access::U32Read => "IOAccess::u32_read not implemented",
        Access::U64Write => "IOAccess::u64_write not implemented",
        Access::U64Read => "IOAccess::u64_read not implemented",
        Access::BytesWrite => "IOAccess::bytes_write not implemented",
        Access::BytesRead => "IOAccess::bytes_read not implemented",
    };
    Err(missing_access(addr, what))
}

/// An access that a device is handed: the accessor, the address that the
/// device sees, and the data that is written or, for a run of bytes that is
/// read, the buffer as it is handed over.
pub enum Call {
    U8Write(u64, u8),
    U8Read(u64),
    U16Write(u64, u16),
    U16Read(u64),
    U32Write(u64, u32),
    U32Read(u64),
    U64Write(u64, u64),
    U64Read(u64),
    BytesWrite(u64, Seq<u8>),
    BytesRead(u64, Seq<u8>),
}

/// What a device answers to an access: that a value was written, the value
/// that was read, the number of bytes that were written, or the number of
/// bytes that were read together with the buffer as it then is.
pub enum Answer {
    Done(Result<()>),
    U8(Result<u8>),
    U16(Result<u16>),
    U32(Result<u32>),
    U64(Result<u64>),
    Count(Result<usize>),
    Filled(Result<usize>, Seq<u8>),
}

/// What a device implements to appear as a region: an accessor for each
/// width, and one for runs of bytes. A device says in `provides` which
/// accessors it supports; each of the others answers as [`unprovided`] does
/// and leaves the heap alone. Beside each accessor stands a relation in
/// which the device says what the accessor does; a device that says nothing
/// there promises nothing. Each accessor is handed the global heap, so that
/// a device can reach guest memory.
pub trait IOAccess {
    /// Whether the device provides the accessor.
    open spec fn provides(&self, access: Access) -> bool {
        false
    }

    /// Whether `r` and `after` are what the device makes of `before` when
    /// `data` is written at `addr`.
    open spec fn u8_wrote(
        &self,
        before: &GlobalHeap,
        after: &GlobalHeap,
        addr: u64,
        data: u8,
        r: Result<()>,
    ) -> bool {
        true
    }

    /// Whether `r` is what the device answers when it is read at `addr`.
    open spec fn u8_was_read(&self, heap: &GlobalHeap, addr: u64, r: Result<u8>) -> bool {
        true
    }

    fn u8_write(&self, heap: &mut GlobalHeap, addr: u64, data: u8) -> (r: Result<()>)
        ensures
            !self.provides(Access::U8Write) ==> is_missing(r, addr, Access::U8Write)
                && *final(heap) == *old(heap),
            self.u8_wrote(old(heap), final(heap), addr, data, r),
    ;

    fn u8_read(&self, heap: &GlobalHeap, addr: u64) -> (r: Result<u8>)
        ensures
            !self.provides(Access::U8Read) ==> is_missing(r, addr, Access::U8Read),
            self.u8_was_read(heap, addr, r),
    ;

    /// Whether `r` and `after` are what the device makes of `before` when
    /// `data` is written at `addr`.
    open spec fn u16_wrote(
        &self,
        before: &GlobalHeap,
        after: &GlobalHeap,
        addr: u64,
        data: u16,
        r: Result<()>,
    ) -> bool {
        true
    }

    /// Whether `r` is what the device answers when it is read at `addr`.
    open spec fn u16_was_read(&self, heap: &GlobalHeap, addr: u64, r: Result<u16>) -> bool {
        true
    }

    fn u16_write(&self, heap: &mut GlobalHeap, addr: u64, data: u16) -> (r: Result<()>)
        ensures
            !self.provides(Access::U16Write) ==> is_missing(r, addr, Access::U16Write)
                && *final(heap) == *old(heap),
            self.u16_wrote(old(heap), final(heap), addr, data, r),
    ;

    fn u16_read(&self, heap: &GlobalHeap, addr: u64) -> (r: Result<u16>)
        ensures
            !self.provides(Access::U16Read) ==> is_missing(r, addr, Access::U16Read),
            self.u16_was_read(heap, addr, r),
    ;

    /// Whether `r` and `after` are what the device makes of `before` when
    /// `data` is written at `addr`.
    open spec fn u32_wrote(
        &self,
        before: &GlobalHeap,
        after: &GlobalHeap,
        addr: u64,
        data: u32,
        r: Result<()>,
    ) -> bool {
        true
    }

    /// Whether `r` is what the device answers when it is read at `addr`.
    open spec fn u32_was_read(&self, heap: &GlobalHeap, addr: u64, r: Result<u32>) -> bool {
        true
    }

    fn u32_write(&self, heap: &mut GlobalHeap, addr: u64, data: u32) -> (r: Result<()>)
        ensures
            !self.provides(Access::U32Write) ==> is_missing(r, addr, Access::U32Write)
                && *final(heap) == *old(heap),
            self.u32_wrote(old(heap), final(heap), addr, data, r),
    ;

    fn u32_read(&self, heap: &GlobalHeap, addr: u64) -> (r: Result<u32>)
        ensures
            !self.provides(Access::U32Read) ==> is_missing(r, addr, Access::U32Read),
            self.u32_was_read(heap, addr, r),
    ;

    /// Whether `r` and `after` are what the device makes of `before` when
    /// `data` is written at `addr`.
    open spec fn u64_wrote(
        &self,
        before: &GlobalHeap,
        after: &GlobalHeap,
        addr: u64,
        data: u64,
        r: Result<()>,
    ) -> bool {
        true
    }

    /// Whether `r` is what the device answers when it is read at `addr`.
    open spec fn u64_was_read(&self, heap: &GlobalHeap, addr: u64, r: Result<u64>) -> bool {
        true
    }

    fn u64_write(&self, heap: &mut GlobalHeap, addr: u64, data: u64) -> (r: Result<()>)
        ensures
            !self.provides(Access::U64Write) ==> is_missing(r, addr, Access::U64Write)
                && *final(heap) == *old(heap),
            self.u64_wrote(old(heap), final(heap), addr, data, r),
    ;

    fn u64_read(&self, heap: &GlobalHeap, addr: u64) -> (r: Result<u64>)
        ensures
            !self.provides(Access::U64Read) ==> is_missing(r, addr, Access::U64Read),
            self.u64_was_read(heap, addr, r),
    ;

    /// Whether `r` and `after` are what the device makes of `before` when
    /// the bytes `data` are written at `addr`.
    open spec fn bytes_wrote(
        &self,
        before: &GlobalHeap,
        after: &GlobalHeap,
        addr: u64,
        data: Seq<u8>,
        r: Result<usize>,
    ) -> bool {
        true
    }

    /// Whether `r` and `filled` are what the device makes of `buffer` when
    /// it is read at `addr`.
    open spec fn bytes_were_read(
        &self,
        heap: &GlobalHeap,
        addr: u64,
        buffer: Seq<u8>,
        filled: Seq<u8>,
        r: Result<usize>,
    ) -> bool {
        true
    }

    /// Writes all of `data` at `addr`; answers with the number of bytes.
    fn bytes_write(&self, heap: &mut GlobalHeap, addr: u64, data: &[u8]) -> (r: Result<usize>)
        ensures
            !self.provides(Access::BytesWrite) ==> is_missing(r, addr, Access::BytesWrite)
                && *final(heap) == *old(heap),
            self.bytes_wrote(old(heap), final(heap), addr, data@, r),
    ;

    /// Fills `data` from `addr`; answers with the number of bytes.
    fn bytes_read(&self, heap: &GlobalHeap, addr: u64, data: &mut Vec<u8>) -> (r: Result<usize>)
        ensures
            !self.provides(Access::BytesRead) ==> is_missing(r, addr, Access::BytesRead)
                && final(data)@ == old(data)@,
            self.bytes_were_read(heap, addr, old(data)@, final(data)@, r),
    ;
}

/// Whether the device `io` gives `answer` to `call`, making `after` of
/// `before`: what the relation of the accessor that `call` names says. A read
/// leaves the heap as it is.
pub open spec fn said_by(
    io: &Box<dyn IOAccess>,
    before: GlobalHeap,
    after: GlobalHeap,
    call: Call,
    answer: Answer,
) -> bool {
    match (call, answer) {
        (Call::U8Write(at, data), Answer::Done(r)) => io.u8_wrote(&before, &after, at, data, r),
        (Call::U16Write(at, data), Answer::Done(r)) => io.u16_wrote(&before, &after, at, data, r),
        (Call::U32Write(at, data), Answer::Done(r)) => io.u32_wrote(&before, &after, at, data, r),
        (Call::U64Write(at, data), Answer::Done(r)) => io.u64_wrote(&before, &after, at, data, r),
        (Call::BytesWrite(at, data), Answer::Count(r)) => io.bytes_wrote(
            &before,
            &after,
            at,
            data,
            r,
        ),
        (Call::U8Read(at), Answer::U8(r)) => after == before && io.u8_was_read(&before, at, r),
        (Call::U16Read(at), Answer::U16(r)) => after == before && io.u16_was_read(&before, at, r),
        (Call::U32Read(at), Answer::U32(r)) => after == before && io.u32_was_read(&before, at, r),
        (Call::U64Read(at), Answer::U64(r)) => after == before && io.u64_was_read(&before, at, r),
        (Call::BytesRead(at, buffer), Answer::Filled(r, filled)) => after == before
            && io.bytes_were_read(&before, at, buffer, filled, r),
        _ => false,
    }
}

/// A run of `len` zero bytes.
pub open spec fn zeros(len: nat) -> Seq<u8> {
    Seq::new(len, |i: int| 0u8)
}

/// The relation of a region that ends at no device: nothing is said.
spec fn quiet() -> spec_fn(GlobalHeap, GlobalHeap, Call, Answer) -> bool {
    |b: GlobalHeap, a: GlobalHeap, c: Call, ans: Answer| false
}

/// The name of a remap's kind: `Remap(` followed by `inner`, `@`, `base` and
/// `end` in hexadecimal with `0x` in front, padded with zeros to 16
/// characters and parted by ` -> `, and `)`.
pub uninterp spec fn remap_label(inner: Seq<char>, base: u64, end: u64) -> Seq<char>;

/// Writes out the name of a remap's kind.
///
/// Wraps `format!`: the result is the text that [`remap_label`] names, a
/// function of the three arguments alone.
#[verifier::external_body]
fn format_remap(inner: &str, base: u64, end: u64) -> (r: String)
    ensures
        r@ == remap_label(inner@, base, end),
{
    format!("Remap({}@{:#016x} -> {:#016x})", inner, base, end)
}

/// The window of a target region that a remap projects.
struct Remap {
    region: Rc<Region>,
    info: MemInfo,
}

impl Remap {
    fn new(region: &Rc<Region>, info: MemInfo) -> (r: Remap)
        ensures
            r.region == *region,
            r.info == info,
    {
        Remap { region: share(region), info }
    }
}

/// What supplies the bytes of a region.
enum Memory {
    Model(usize),
    LazyModel(usize),
    Block(Rc<Heap>, Rc<Region>),
    RootBlock(Box<Region>),
    Remap(Remap),
    IO(Box<dyn IOAccess>),
}

impl Memory {
    /// Whether this is a device that provides the accessor.
    spec fn offers(&self, access: Access) -> bool {
        self matches Memory::IO(io) && io.provides(access)
    }

    /// Whether this is a device that gives `answer` to `call`, making
    /// `after` of `before`.
    spec fn said(&self, before: GlobalHeap, after: GlobalHeap, call: Call, answer: Answer) -> bool {
        self matches Memory::IO(io) && said_by(io, before, after, call, answer)
    }
}

/// Where the bytes of a region lie once every remap on the way has been
/// applied: the storage slot of the global heap (none for a device), the
/// window of that backing, the address in it of the region's first byte, the
/// accessors that the device provides (none for bytes), and the device.
#[derive(Clone, Copy)]
struct Root {
    slot: Option<usize>,
    info: MemInfo,
    origin: u64,
    provided: Ghost<Set<Access>>,
    said: Ghost<spec_fn(GlobalHeap, GlobalHeap, Call, Answer) -> bool>,
}

/// A window `[base, base + size)` of the guest physical address space
/// together with what backs it. Regions are shared through counted handles.
/// A handle is given up with [`GlobalHeap::release`], which takes the region
/// apart once its last handle is gone; a handle that is merely dropped leaves
/// the region's block allocated.
pub struct Region {
    memory: Memory,
    info: MemInfo,
    root: Root,
    label: Ghost<Seq<char>>,
}

/// An allocator laid over a region: it hands out sub-windows of the region,
/// which share the region's bytes. The allocator itself is kept by the global
/// heap; a handle to the sub-heap is given up with
/// [`GlobalHeap::release_heap`].
pub struct Heap {
    memory: Rc<Region>,
    allocator: usize,
}

impl Region {
    /// The region's invariant: its window does not wrap and lies, translated,
    /// inside the backing; a remap presents a window of the size it projects
    /// and projects a window of its target; a block lies inside the region it
    /// was taken from; and each of them continues where its target says.
    #[verifier::type_invariant]
    pub closed spec fn wf(&self) -> bool {
        &&& self.info.base + self.info.size <= u64::MAX
        &&& self.root.info.base + self.root.info.size <= u64::MAX
        &&& self.root.info.contains_range(self.root.origin as int, self.info.size as int)
        &&& match self.memory {
            Memory::Remap(remap) => {
                &&& remap.info.size == self.info.size
                &&& remap.info.inside(remap.region.info)
                &&& remap.region.info.base + remap.region.info.size <= u64::MAX
                &&& self.root.slot == remap.region.root.slot
                &&& self.root.info == remap.region.root.info
                &&& self.root.origin == remap.region.root.origin + (remap.info.base
                    - remap.region.info.base)
                &&& self.root.provided@ == remap.region.root.provided@
                &&& self.root.said@ == remap.region.root.said@
                &&& self.label@ == remap_label(
                    remap.region.label@,
                    remap.info.base,
                    (remap.info.base + remap.info.size) as u64,
                )
            },
            Memory::Block(_, r) => {
                &&& self.info.inside(r.info)
                &&& r.info.base + r.info.size <= u64::MAX
                &&& self.root.slot == r.root.slot
                &&& self.root.info == r.root.info
                &&& self.root.origin == r.root.origin + (self.info.base - r.info.base)
                &&& self.root.provided@ == r.root.provided@
                &&& self.root.said@ == r.root.said@
                &&& self.label@ == "Block"@
            },
            Memory::RootBlock(inner) => {
                &&& inner.info == self.info
                &&& inner.root == self.root
                &&& (inner.memory is Model || inner.memory is LazyModel)
                &&& self.label@ == "Block"@
            },
            Memory::Model(s) => {
                &&& self.root.slot == Some(s)
                &&& self.root.info == self.info
                &&& self.root.origin == self.info.base
                &&& self.root.provided@ == Set::<Access>::empty()
                &&& self.label@ == "Model"@
            },
            Memory::LazyModel(s) => {
                &&& self.root.slot == Some(s)
                &&& self.root.info == self.info
                &&& self.root.origin == self.info.base
                &&& self.root.provided@ == Set::<Access>::empty()
                &&& self.label@ == "LazyModel"@
            },
            Memory::IO(_) => {
                &&& self.root.slot is None
                &&& self.root.info == self.info
                &&& self.root.origin == self.info.base
                &&& forall|a: Access| #[trigger]
                    self.root.provided@.contains(a) == self.memory.offers(a)
                &&& forall|b: GlobalHeap, a: GlobalHeap, c: Call, ans: Answer| #[trigger]
                    (self.root.said@)(b, a, c, ans) == self.memory.said(b, a, c, ans)
                &&& self.label@ == "IO"@
            },
        }
    }

    /// The window that the region presents.
    pub closed spec fn window(&self) -> MemInfo {
        self.info
    }

    /// Whether accesses to the region end at a device.
    pub closed spec fn is_io(&self) -> bool {
        self.root.slot is None
    }

    /// The storage slot of the global heap in which the region's bytes lie;
    /// -1 for a device.
    pub closed spec fn slot(&self) -> int {
        match self.root.slot {
            Some(s) => s as int,
            None => -1,
        }
    }

    /// The accessors that the device at which accesses to the region end
    /// provides; none for a region that holds bytes.
    pub closed spec fn provided(&self) -> Set<Access> {
        self.root.provided@
    }

    /// Whether the device at which accesses to the region end gives `answer`
    /// to `call`, making `after` of `before`, as the relations of
    /// [`IOAccess`] say; `false` for a region that holds bytes.
    pub closed spec fn said(
        &self,
        before: GlobalHeap,
        after: GlobalHeap,
        call: Call,
        answer: Answer,
    ) -> bool {
        (self.root.said@)(before, after, call, answer)
    }

    /// Whether the device at which accesses to the region end provides the
    /// accessor.
    pub open spec fn provides(&self, access: Access) -> bool {
        self.provided().contains(access)
    }

    /// The accessor of the device that an access of `width` bytes at `addr`
    /// uses: `wide`, the accessor of that width, where the address that the
    /// device sees is a multiple of the width, and else `bytes`, the accessor
    /// for runs of bytes.
    pub open spec fn chosen(&self, addr: u64, width: int, wide: Access, bytes: Access) -> Access {
        if self.locate(addr as int) % width == 0 {
            wide
        } else {
            bytes
        }
    }

    /// Whether accesses to the two regions end at devices that answer alike.
    pub open spec fn answers_as(&self, other: &Region) -> bool {
        forall|b: GlobalHeap, a: GlobalHeap, c: Call, ans: Answer| #[trigger]
            self.said(b, a, c, ans) == other.said(b, a, c, ans)
    }

    /// The address that the device sees when the region is accessed at
    /// `addr`.
    pub open spec fn seen(&self, addr: u64) -> u64 {
        self.locate(addr as int) as u64
    }

    /// Whether `r` and `after` are what the device makes of `before` when it
    /// is handed a write of `width` bytes at `addr`. Where the address that
    /// the device sees is a multiple of the width the device is handed `wide`,
    /// and its answer is `r`. Elsewhere it is handed `bytes` as a run of
    /// bytes, and `r` is `Ok` when the device succeeds and the device's error
    /// when it fails.
    pub open spec fn handed_write(
        &self,
        before: &GlobalHeap,
        after: &GlobalHeap,
        addr: u64,
        width: nat,
        wide: Call,
        bytes: Seq<u8>,
        r: Result<()>,
    ) -> bool {
        if self.locate(addr as int) % (width as int) == 0 {
            self.said(*before, *after, wide, Answer::Done(r))
        } else {
            exists|got: Result<usize>| #[trigger]
                self.said(
                    *before,
                    *after,
                    Call::BytesWrite(self.seen(addr), bytes),
                    Answer::Count(got),
                ) && r == (match got {
                    Ok(_) => Ok::<(), Error>(()),
                    Err(e) => Err::<(), Error>(e),
                })
        }
    }

    /// Whether `r` is what the device makes of a read of `width` bytes at
    /// `addr` that it is handed. Where the address that the device sees is a
    /// multiple of the width the device is handed `wide`, and `answer`, which
    /// holds `r`, is its answer. Elsewhere it is handed a buffer of `width`
    /// zero bytes to fill: `r` is what `decode` makes of the buffer when the
    /// device succeeds and leaves `width` bytes in it, `AccessErr` at `addr`
    /// when it succeeds and leaves another number, and the device's error
    /// when it fails.
    pub open spec fn handed_read<T>(
        &self,
        heap: &GlobalHeap,
        addr: u64,
        width: nat,
        wide: Call,
        answer: Answer,
        r: Result<T>,
        decode: spec_fn(Seq<u8>) -> T,
    ) -> bool {
        if self.locate(addr as int) % (width as int) == 0 {
            self.said(*heap, *heap, wide, answer)
        } else {
            exists|got: Result<usize>, filled: Seq<u8>| #[trigger]
                self.said(
                    *heap,
                    *heap,
                    Call::BytesRead(self.seen(addr), zeros(width)),
                    Answer::Filled(got, filled),
                ) && (match got {
                    Ok(_) => if filled.len() == width {
                        r == Ok::<T, Error>(decode(filled))
                    } else {
                        r matches Err(Error::AccessErr(a, _)) && a == addr
                    },
                    Err(e) => r == Err::<T, Error>(e),
                })
        }
    }

    /// Whether `r` is what a read at `addr` of a region that ends at a device
    /// answers when the device does not provide the accessor: the error of
    /// the missing accessor, at the address that the device sees.
    pub open spec fn read_refused<T>(&self, r: Result<T>, addr: u64, access: Access) -> bool {
        self.is_io() && !self.provides(access) ==> is_missing(
            r,
            self.locate(addr as int) as u64,
            access,
        )
    }

    /// Whether `r` and `after` are what a write at `addr` of a region that
    /// ends at a device yields when the device does not provide the
    /// accessor: the error of the missing accessor, at the address that the
    /// device sees, and the heap as it was.
    pub open spec fn write_refused<T>(
        &self,
        before: &GlobalHeap,
        after: &GlobalHeap,
        r: Result<T>,
        addr: u64,
        access: Access,
    ) -> bool {
        self.is_io() && !self.provides(access) ==> is_missing(
            r,
            self.locate(addr as int) as u64,
            access,
        ) && *after == *before
    }

    /// The window of the backing in which the region's bytes lie.
    pub closed spec fn leaf_info(&self) -> MemInfo {
        self.root.info
    }

    /// The address, in the backing, of the first byte of the window.
    pub closed spec fn origin(&self) -> int {
        self.root.origin as int
    }

    /// The address, in the backing, of the byte that the region presents at
    /// `addr`.
    pub open spec fn locate(&self, addr: int) -> int {
        addr - self.window().base + self.origin()
    }

    /// Whether the region is a remap that projects `window` of `target`.
    pub closed spec fn remaps(&self, target: Region, window: MemInfo) -> bool {
        self.memory matches Memory::Remap(remap) && *remap.region == target && remap.info
            == window
    }

    /// Whether the region is a block that `heap` took out of its region.
    pub closed spec fn is_block_of(&self, heap: Heap) -> bool {
        self.memory matches Memory::Block(h, r) && *h == heap && *r == *heap.memory
    }

    /// Whether the region is a block of the global heap.
    pub closed spec fn is_root(&self) -> bool {
        self.memory is RootBlock
    }

    /// The name of the region's kind: `Model`, `LazyModel`, `Block`, `IO`, or
    /// for a remap what [`remap_label`] makes of its target's name and the
    /// window it projects.
    pub closed spec fn type_label(&self) -> Seq<char> {
        self.label@
    }

    /// The window of a region and what it projects onto end inside the
    /// address space.
    pub proof fn lemma_window_bounded(&self)
        requires
            self.wf(),
        ensures
            self.window().end() <= u64::MAX,
            self.leaf_info().end() <= u64::MAX,
            self.leaf_info().contains_range(self.origin(), self.window().size as int),
            self.origin() >= 0,
    {
    }

    /// The name of the region's kind.
    pub fn get_type(&self) -> (r: String)
        ensures
            r@ == self.type_label(),
        decreases self,
    {
        proof {
            use_type_invariant(self);
        }
        match &self.memory {
            Memory::Model(_) => "Model".to_owned(),
            Memory::LazyModel(_) => "LazyModel".to_owned(),
            Memory::Block(_, _) => "Block".to_owned(),
            Memory::RootBlock(_) => "Block".to_owned(),
            Memory::Remap(remap) => {
                let inner: String = remap.region.get_type();
                format_remap(inner.as_str(), remap.info.base, remap.info.base + remap.info.size)
            },
            Memory::IO(_) => "IO".to_owned(),
        }
    }

    /// The window that the region presents.
    pub fn info(&self) -> (r: MemInfo)
        ensures
            r == self.window(),
            r.base + r.size <= u64::MAX,
    {
        proof {
            use_type_invariant(self);
        }
        self.info
    }

    /// A region of `size` bytes at `base` whose accesses go to the device
    /// `io`, at the address they name; the accessors that the region
    /// provides are those of the device.
    pub fn io(base: u64, size: u64, io: Box<dyn IOAccess>) -> (r: Rc<Region>)
        requires
            base + size <= u64::MAX,
        ensures
            r.wf(),
            r.window() == (MemInfo { base, size }),
            r.is_io(),
            r.origin() == base,
            r.type_label() == "IO"@,
    {
        let info = MemInfo { base, size };
        let memory = Memory::IO(io);
        let ghost provided = Set::new(|a: Access| memory.offers(a));
        let ghost said = |b: GlobalHeap, a: GlobalHeap, c: Call, ans: Answer|
            memory.said(b, a, c, ans);
        Rc::new(
            Region {
                memory,
                info,
                root: Root {
                    slot: None,
                    info,
                    origin: base,
                    provided: Ghost(provided),
                    said: Ghost(said),
                },
                label: Ghost("IO"@),
            },
        )
    }

    fn lazy_model(base: u64, size: u64, slot: usize) -> (r: Region)
        requires
            base + size <= u64::MAX,
        ensures
            r.wf(),
            r.info == (MemInfo { base, size }),
            r.memory == Memory::LazyModel(slot),
            r.root == (Root {
                slot: Some(slot),
                info: r.info,
                origin: base,
                provided: Ghost(Set::empty()),
                said: Ghost(quiet()),
            }),
    {
        let info = MemInfo { base, size };
        Region {
            memory: Memory::LazyModel(slot),
            info,
            root: Root {
                slot: Some(slot),
                info,
                origin: base,
                provided: Ghost(Set::empty()),
                said: Ghost(quiet()),
            },
            label: Ghost("LazyModel"@),
        }
    }

    fn model(base: u64, size: u64, slot: usize) -> (r: Region)
        requires
            base + size <= u64::MAX,
        ensures
            r.wf(),
            r.info == (MemInfo { base, size }),
            r.memory == Memory::Model(slot),
            r.root == (Root {
                slot: Some(slot),
                info: r.info,
                origin: base,
                provided: Ghost(Set::empty()),
                said: Ghost(quiet()),
            }),
    {
        let info = MemInfo { base, size };
        Region {
            memory: Memory::Model(slot),
            info,
            root: Root {
                slot: Some(slot),
                info,
                origin: base,
                provided: Ghost(Set::empty()),
                said: Ghost(quiet()),
            },
            label: Ghost("Model"@),
        }
    }

    fn block(base: u64, size: u64, heap: &Rc<Heap>, memory: &Rc<Region>) -> (r: Rc<Region>)
        requires
            (MemInfo { base, size }).inside(memory.info),
            heap.memory == *memory,
        ensures
            r.wf(),
            r.window() == (MemInfo { base, size }),
            r.is_block_of(**heap),
            r.type_label() == "Block"@,
            r.provided() == memory.provided(),
            r.answers_as(memory),
            r.is_io() == memory.is_io(),
            r.slot() == memory.slot(),
            r.leaf_info() == memory.leaf_info(),
            r.origin() == memory.origin() + (base - memory.window().base),
    {
        proof {
            use_type_invariant(&**memory);
        }
        let root = Root {
            slot: memory.root.slot,
            info: memory.root.info,
            origin: memory.root.origin + (base - memory.info.base),
            provided: memory.root.provided,
            said: memory.root.said,
        };
        Rc::new(
            Region {
                memory: Memory::Block(share(heap), share(memory)),
                info: MemInfo { base, size },
                root,
                label: Ghost("Block"@),
            },
        )
    }

    fn root_block(base: u64, size: u64, memory: Region) -> (r: Rc<Region>)
        requires
            memory.info == (MemInfo { base, size }),
            memory.memory is Model || memory.memory is LazyModel,
        ensures
            r.wf(),
            r.window() == (MemInfo { base, size }),
            r.is_root(),
            r.type_label() == "Block"@,
            r.root == memory.root,
    {
        proof {
            use_type_invariant(&memory);
        }
        let root = memory.root;
        Rc::new(
            Region {
                memory: Memory::RootBlock(Box::new(memory)),
                info: MemInfo { base, size },
                root,
                label: Ghost("Block"@),
            },
        )
    }

    /// A view of the whole of `memory` at `base`: the byte that the view
    /// presents at `base + i` is the byte that `memory` presents at its own
    /// base plus `i`.
    pub fn remap(base: u64, memory: &Rc<Region>) -> (r: Rc<Region>)
        requires
            base + memory.window().size <= u64::MAX,
        ensures
            r.wf(),
            r.window() == (MemInfo { base, size: memory.window().size }),
            r.remaps(**memory, memory.window()),
            r.type_label() == remap_label(
                memory.type_label(),
                memory.window().base,
                memory.window().end() as u64,
            ),
            r.provided() == memory.provided(),
            r.answers_as(memory),
            r.is_io() == memory.is_io(),
            r.slot() == memory.slot(),
            r.leaf_info() == memory.leaf_info(),
            r.origin() == memory.origin(),
    {
        proof {
            use_type_invariant(&**memory);
        }
        let info: MemInfo = memory.info;
        let root = memory.root;
        Rc::new(
            Region {
                memory: Memory::Remap(Remap::new(memory, info)),
                info: MemInfo { base, size: info.size },
                root,
                label: Ghost(
                    remap_label(memory.label@, info.base, (info.base + info.size) as u64),
                ),
            },
        )
    }

    /// A view at `base` of the `size` bytes that begin `offset` bytes into
    /// `memory`.
    pub fn remap_partial(base: u64, memory: &Rc<Region>, offset: u64, size: u64) -> (r: Rc<Region>)
        requires
            offset + size <= memory.window().size,
            base + size <= u64::MAX,
        ensures
            r.wf(),
            r.window() == (MemInfo { base, size }),
            r.remaps(
                **memory,
                MemInfo { base: (memory.window().base + offset) as u64, size },
            ),
            r.type_label() == remap_label(
                memory.type_label(),
                (memory.window().base + offset) as u64,
                (memory.window().base + offset + size) as u64,
            ),
            r.provided() == memory.provided(),
            r.answers_as(memory),
            r.is_io() == memory.is_io(),
            r.slot() == memory.slot(),
            r.leaf_info() == memory.leaf_info(),
            r.origin() == memory.origin() + offset,
    {
        proof {
            use_type_invariant(&**memory);
        }
        let info: MemInfo = memory.info;
        let root = Root {
            slot: memory.root.slot,
            info: memory.root.info,
            origin: memory.root.origin + offset,
            provided: memory.root.provided,
            said: memory.root.said,
        };
        Rc::new(
            Region {
                memory: Memory::Remap(
                    Remap::new(memory, MemInfo { base: info.base + offset, size }),
                ),
                info: MemInfo { base, size },
                root,
                label: Ghost(
                    remap_label(
                        memory.label@,
                        (info.base + offset) as u64,
                        (info.base + offset + size) as u64,
                    ),
                ),
            },
        )
    }

    /// The address in the target at which an access of `size` bytes at `va`
    /// continues, where the region is a remap; `None` where the address goes
    /// on unchanged.
    fn translate(&self, va: &u64, size: usize) -> (r: Option<u64>)
        requires
            self.window().contains_range(*va as int, size as int),
        ensures
            match self.memory {
                Memory::Remap(remap) => r == Some((*va - self.info.base + remap.info.base) as u64)
                    && *va - self.info.base + remap.info.base <= u64::MAX,
                _ => r is None,
            },
    {
        proof {
            use_type_invariant(self);
        }
        match &self.memory {
            Memory::Remap(remap) => Some(*va - self.info.base + remap.info.base),
            _ => None,
        }
    }

    /// The region that an access to this one is handed on to, if any.
    fn target(&self) -> (r: Option<&Region>)
        ensures
            match self.memory {
                Memory::Remap(remap) => r == Some(&*remap.region),
                Memory::Block(_, t) => r == Some(&*t),
                Memory::RootBlock(inner) => r == Some(&*inner),
                _ => r is None,
            },
    {
        match &self.memory {
            Memory::Remap(remap) => Some(&*remap.region),
            Memory::Block(_, t) => Some(&**t),
            Memory::RootBlock(inner) => Some(&**inner),
            _ => None,
        }
    }

    /// Follows an access of `len` bytes at `addr` down to the region that
    /// holds the bytes or stands for the device, translating the address once
    /// at every remap on the way.
    fn resolve(&self, addr: u64, len: usize) -> (r: (&Region, u64))
        requires
            self.window().contains_range(addr as int, len as int),
        ensures
            r.1 == self.locate(addr as int),
            r.0.root.slot == self.root.slot,
            r.0.root.provided@ == self.root.provided@,
            r.0.root.said@ == self.root.said@,
            r.0.info == self.root.info,
            self.leaf_info().contains_range(r.1 as int, len as int),
            r.1 + len <= u64::MAX,
            r.0.memory is Model || r.0.memory is LazyModel || r.0.memory is IO,
        decreases self,
    {
        proof {
            use_type_invariant(self);
        }
        let next: Option<u64> = self.translate(&addr, len);
        match self.target() {
            None => (self, addr),
            Some(t) => {
                let a: u64 = match next {
                    Some(a) => a,
                    None => addr,
                };
                t.resolve(a, len)
            },
        }
    }
}

impl Heap {
    /// The number under which the global heap keeps the sub-heap's allocator.
    pub closed spec fn id(&self) -> int {
        self.allocator as int
    }

    /// The region that the sub-heap is laid over.
    pub closed spec fn region(&self) -> Region {
        *self.memory
    }

    /// The region that the sub-heap is laid over.
    pub fn get_region(&self) -> (r: &Rc<Region>)
        ensures
            **r == self.region(),
    {
        &self.memory
    }
}

/// Why an access is refused before any byte is touched.
pub enum Fault {
    /// The address is not a multiple of the access width.
    Misalign,
    /// The first byte of the access lies outside the region's window.
    OutOfRange,
    /// The access begins inside the window and runs past its end.
    Crossing,
    /// The region's bytes are no longer held by the heap.
    Unbacked,
}

/// Whether `e` is the error that stands for the fault `f` of an access at
/// `addr`.
pub open spec fn reports(e: Error, f: Fault, addr: u64) -> bool {
    match f {
        Fault::Misalign => e == Error::Misalign(addr),
        Fault::OutOfRange => e == Error::OutOfRange,
        Fault::Crossing => e matches Error::AccessErr(a, _) && a == addr,
        Fault::Unbacked => e matches Error::AccessErr(a, _) && a == addr,
    }
}

impl GlobalHeap {
    /// Whether the heap holds the bytes of `region`.
    pub open spec fn backs(&self, region: &Region) -> bool {
        &&& !region.is_io()
        &&& self.live(region.slot())
        &&& self.slot_info(region.slot()) == region.leaf_info()
    }

    /// The `len` bytes that `region` presents from `addr` on.
    pub open spec fn bytes_of(&self, region: &Region, addr: int, len: int) -> Seq<u8> {
        Seq::new(len as nat, |i: int| self.byte(region.slot(), region.locate(addr) + i))
    }

    /// Whether this heap is `before` with `data` written where `region`
    /// presents `addr`, and nothing else changed.
    pub open spec fn wrote(
        &self,
        before: &GlobalHeap,
        region: &Region,
        addr: int,
        data: Seq<u8>,
    ) -> bool {
        &&& self.same_layout(before)
        &&& forall|s: int, a: int| #[trigger]
            self.byte(s, a) == if s == region.slot() && region.locate(addr) <= a < region.locate(
                addr,
            ) + data.len() {
                data[a - region.locate(addr)]
            } else {
                before.byte(s, a)
            }
    }
}

/// Access to single bytes.
pub trait U8Access {
    /// Whether `r` and `after` are what writing `data` at `addr` makes of
    /// `before`.
    spec fn wrote_u8(
        &self,
        before: &GlobalHeap,
        after: &GlobalHeap,
        addr: u64,
        data: u8,
        r: Result<()>,
    ) -> bool;

    /// Whether `r` is what reading at `addr` answers with.
    spec fn was_read_u8(&self, heap: &GlobalHeap, addr: u64, r: Result<u8>) -> bool;

    fn write(&self, heap: &mut GlobalHeap, addr: &u64, data: u8) -> (r: Result<()>)
        ensures
            self.wrote_u8(old(heap), final(heap), *addr, data, r),
    ;

    fn read(&self, heap: &GlobalHeap, addr: &u64) -> (r: Result<u8>)
        ensures
            self.was_read_u8(heap, *addr, r),
    ;
}

/// Access to runs of bytes, at any address.
pub trait BytesAccess {
    /// Whether `r` and `after` are what writing `data` at `addr` makes of
    /// `before`.
    spec fn wrote_bytes(
        &self,
        before: &GlobalHeap,
        after: &GlobalHeap,
        addr: u64,
        data: Seq<u8>,
        r: Result<usize>,
    ) -> bool;

    /// Whether `r` and `filled` are what reading at `addr` into `buffer`
    /// yields.
    spec fn was_read_bytes(
        &self,
        heap: &GlobalHeap,
        addr: u64,
        buffer: Seq<u8>,
        filled: Seq<u8>,
        r: Result<usize>,
    ) -> bool;

    /// Writes all of `data` at `addr`; answers with the number of bytes.
    fn write(&self, heap: &mut GlobalHeap, addr: &u64, data: &[u8]) -> (r: Result<usize>)
        ensures
            self.wrote_bytes(old(heap), final(heap), *addr, data@, r),
    ;

    /// Fills `data` from `addr`; answers with the number of bytes.
    fn read(&self, heap: &GlobalHeap, addr: &u64, data: &mut Vec<u8>) -> (r: Result<usize>)
        ensures
            self.was_read_bytes(heap, *addr, old(data)@, final(data)@, r),
    ;
}

/// Access to little-endian 16-bit values at addresses that are multiples of 2.
pub trait U16Access {
    /// Whether `r` and `after` are what writing `data` at `addr` makes of
    /// `before`.
    spec fn wrote_u16(
        &self,
        before: &GlobalHeap,
        after: &GlobalHeap,
        addr: u64,
        data: u16,
        r: Result<()>,
    ) -> bool;

    /// Whether `r` is what reading at `addr` answers with.
    spec fn was_read_u16(&self, heap: &GlobalHeap, addr: u64, r: Result<u16>) -> bool;

    fn write(&self, heap: &mut GlobalHeap, addr: &u64, data: u16) -> (r: Result<()>)
        ensures
            self.wrote_u16(old(heap), final(heap), *addr, data, r),
    ;

    fn read(&self, heap: &GlobalHeap, addr: &u64) -> (r: Result<u16>)
        ensures
            self.was_read_u16(heap, *addr, r),
    ;
}

/// Access to little-endian 32-bit values at addresses that are multiples of 4.
pub trait U32Access {
    /// Whether `r` and `after` are what writing `data` at `addr` makes of
    /// `before`.
    spec fn wrote_u32(
        &self,
        before: &GlobalHeap,
        after: &GlobalHeap,
        addr: u64,
        data: u32,
        r: Result<()>,
    ) -> bool;

    /// Whether `r` is what reading at `addr` answers with.
    spec fn was_read_u32(&self, heap: &GlobalHeap, addr: u64, r: Result<u32>) -> bool;

    fn write(&self, heap: &mut GlobalHeap, addr: &u64, data: u32) -> (r: Result<()>)
        ensures
            self.wrote_u32(old(heap), final(heap), *addr, data, r),
    ;

    fn read(&self, heap: &GlobalHeap, addr: &u64) -> (r: Result<u32>)
        ensures
            self.was_read_u32(heap, *addr, r),
    ;
}

/// Access to little-endian 64-bit values at addresses that are multiples of 8.
pub trait U64Access {
    /// Whether `r` and `after` are what writing `data` at `addr` makes of
    /// `before`.
    spec fn wrote_u64(
        &self,
        before: &GlobalHeap,
        after: &GlobalHeap,
        addr: u64,
        data: u64,
        r: Result<()>,
    ) -> bool;

    /// Whether `r` is what reading at `addr` answers with.
    spec fn was_read_u64(&self, heap: &GlobalHeap, addr: u64, r: Result<u64>) -> bool;

    fn write(&self, heap: &mut GlobalHeap, addr: &u64, data: u64) -> (r: Result<()>)
        ensures
            self.wrote_u64(old(heap), final(heap), *addr, data, r),
    ;

    fn read(&self, heap: &GlobalHeap, addr: &u64) -> (r: Result<u64>)
        ensures
            self.was_read_u64(heap, *addr, r),
    ;
}

impl Region {
    /// The fault, if any, of an access of `len` bytes of width `width` at
    /// `addr`: a misaligned address comes first, then an address outside the
    /// window, then an access that runs past the window's end, then bytes
    /// that the heap no longer holds.
    pub open spec fn fault(&self, heap: &GlobalHeap, addr: u64, len: int, width: int) -> Option<
        Fault,
    > {
        if addr as int % width != 0 {
            Some(Fault::Misalign)
        } else if !self.window().contains(addr as int) {
            Some(Fault::OutOfRange)
        } else if addr + len > self.window().end() {
            Some(Fault::Crossing)
        } else if !self.is_io() && !heap.backs(self) {
            Some(Fault::Unbacked)
        } else {
            None
        }
    }

    /// Tests an access for its fault.
    fn check(&self, heap: &GlobalHeap, addr: u64, len: usize, width: u64) -> (r: Result<()>)
        requires
            width > 0,
        ensures
            match self.fault(heap, addr, len as int, width as int) {
                Some(f) => r matches Err(e) && reports(e, f, addr),
                None => r is Ok,
            },
    {
        proof {
            use_type_invariant(self);
        }
        if addr % width != 0 {
            return Err(Error::Misalign(addr));
        }
        if addr < self.info.base || addr - self.info.base >= self.info.size {
            return Err(Error::OutOfRange);
        }
        if len as u64 > self.info.size - (addr - self.info.base) {
            return Err(Error::AccessErr(addr, "access crosses the end of the region".to_owned()));
        }
        match self.root.slot {
            Some(slot) => {
                if !heap.holds(slot, self.root.info) {
                    return Err(
                        Error::AccessErr(addr, "the bytes of the region were released".to_owned()),
                    );
                }
            },
            None => {},
        }
        Ok(())
    }

    /// The device that an access of `len` bytes at `addr` ends at, with the
    /// address that the device sees; `None` for a region that holds bytes.
    fn device(&self, addr: u64, len: usize) -> (r: Option<(&Box<dyn IOAccess>, u64)>)
        requires
            self.window().contains_range(addr as int, len as int),
        ensures
            r is Some == self.is_io(),
            r matches Some(d) ==> {
                &&& d.1 == self.locate(addr as int)
                &&& forall|a: Access| #[trigger] d.0.provides(a) == self.provides(a)
                &&& forall|b: GlobalHeap, a: GlobalHeap, c: Call, ans: Answer| #[trigger]
                    self.said(b, a, c, ans) == said_by(d.0, b, a, c, ans)
            },
    {
        let (leaf, at) = self.resolve(addr, len);
        proof {
            use_type_invariant(leaf);
        }
        match &leaf.memory {
            Memory::IO(io) => Some((io, at)),
            _ => None,
        }
    }

    /// Reads the `len` bytes that the region presents from `addr` on.
    fn fetch(&self, heap: &GlobalHeap, addr: u64, len: usize) -> (r: Vec<u8>)
        requires
            self.window().contains_range(addr as int, len as int),
            heap.backs(self),
        ensures
            r@ == heap.bytes_of(self, addr as int, len as int),
    {
        proof {
            use_type_invariant(self);
        }
        let (leaf, at) = self.resolve(addr, len);
        match self.root.slot {
            Some(slot) => {
                let out = heap.load(slot, at, len);
                assert(out@ =~= heap.bytes_of(self, addr as int, len as int));
                out
            },
            None => Vec::new(),
        }
    }

    /// Writes `data` where the region presents `addr`.
    fn put(&self, heap: &mut GlobalHeap, addr: u64, data: &[u8])
        requires
            self.window().contains_range(addr as int, data@.len() as int),
            old(heap).backs(self),
        ensures
            final(heap).wrote(old(heap), self, addr as int, data@),
    {
        proof {
            use_type_invariant(self);
        }
        let (leaf, at) = self.resolve(addr, data.len());
        match self.root.slot {
            Some(slot) => {
                heap.store(slot, at, data);
            },
            None => {},
        }
    }
}

impl U8Access for Region {
    /// Writing fails as [`Region::fault`] says, changing nothing; otherwise
    /// the bytes of a region that the heap backs become those of `data`,
    /// least significant first, and a device is handed the access at the
    /// address it sees and answers as [`Region::said`] says; it fails as
    /// [`Region::write_refused`] says where the device does not provide the
    /// accessor.
    open spec fn wrote_u8(
        &self,
        before: &GlobalHeap,
        after: &GlobalHeap,
        addr: u64,
        data: u8,
        r: Result<()>,
    ) -> bool {
        match self.fault(before, addr, 1, 1) {
            Some(f) => r matches Err(e) && reports(e, f, addr) && *after == *before,
            None => if self.is_io() {
                &&& self.write_refused(before, after, r, addr, Access::U8Write)
                &&& self.said(
                    *before,
                    *after,
                    Call::U8Write(self.seen(addr), data),
                    Answer::Done(r),
                )
            } else {
                r is Ok && after.wrote(before, self, addr as int, seq![data])
            },
        }
    }

    /// Reading fails as [`Region::fault`] says; otherwise it answers with
    /// the value that the bytes of a region that the heap backs hold, least
    /// significant first, and hands the access to a device at the address it
    /// sees and answers as [`Region::said`] says; it fails as
    /// [`Region::read_refused`] says where the device does not provide the
    /// accessor.
    open spec fn was_read_u8(&self, heap: &GlobalHeap, addr: u64, r: Result<u8>) -> bool {
        match self.fault(heap, addr, 1, 1) {
            Some(f) => r matches Err(e) && reports(e, f, addr),
            None => if self.is_io() {
                &&& self.read_refused(r, addr, Access::U8Read)
                &&& self.said(*heap, *heap, Call::U8Read(self.seen(addr)), Answer::U8(r))
            } else {
                r == Ok::<u8, Error>(heap.byte(self.slot(), self.locate(addr as int)))
            },
        }
    }

    fn write(&self, heap: &mut GlobalHeap, addr: &u64, data: u8) -> (r: Result<()>) {
        match self.check(heap, *addr, 1, 1) {
            Err(e) => {
                return Err(e);
            },
            Ok(()) => {},
        }
        match self.device(*addr, 1) {
            Some((io, at)) => io.u8_write(heap, at, data),
            None => {
                let mut bytes: Vec<u8> = Vec::new();
                bytes.push(data);
                assert(bytes@ =~= seq![data]);
                self.put(heap, *addr, bytes.as_slice());
                Ok(())
            },
        }
    }

    fn read(&self, heap: &GlobalHeap, addr: &u64) -> (r: Result<u8>) {
        match self.check(heap, *addr, 1, 1) {
            Err(e) => {
                return Err(e);
            },
            Ok(()) => {},
        }
        match self.device(*addr, 1) {
            Some((io, at)) => io.u8_read(heap, at),
            None => {
                let bytes: Vec<u8> = self.fetch(heap, *addr, 1);
                Ok(bytes[0])
            },
        }
    }
}

impl BytesAccess for Region {
    /// Writing fails as [`Region::fault`] says, changing nothing; otherwise
    /// the bytes of a region that the heap backs become `data`, all of them
    /// are counted, and a device is handed the access at the address it sees
    /// and answers as [`Region::said`] says.
    open spec fn wrote_bytes(
        &self,
        before: &GlobalHeap,
        after: &GlobalHeap,
        addr: u64,
        data: Seq<u8>,
        r: Result<usize>,
    ) -> bool {
        match self.fault(before, addr, data.len() as int, 1) {
            Some(f) => r matches Err(e) && reports(e, f, addr) && *after == *before,
            None => if self.is_io() {
                &&& self.write_refused(before, after, r, addr, Access::BytesWrite)
                &&& self.said(
                    *before,
                    *after,
                    Call::BytesWrite(self.seen(addr), data),
                    Answer::Count(r),
                )
            } else {
                r == Ok::<usize, Error>(data.len() as usize) && after.wrote(
                    before,
                    self,
                    addr as int,
                    data,
                )
            },
        }
    }

    /// Reading fails as [`Region::fault`] says, leaving the buffer as it
    /// was; otherwise the buffer is filled with the bytes of a region that
    /// the heap backs, all of them are counted, and a device is handed the
    /// access at the address it sees and answers as [`Region::said`] says.
    open spec fn was_read_bytes(
        &self,
        heap: &GlobalHeap,
        addr: u64,
        buffer: Seq<u8>,
        filled: Seq<u8>,
        r: Result<usize>,
    ) -> bool {
        match self.fault(heap, addr, buffer.len() as int, 1) {
            Some(f) => r matches Err(e) && reports(e, f, addr) && filled == buffer,
            None => if self.is_io() {
                &&& self.read_refused(r, addr, Access::BytesRead)
                &&& !self.provides(Access::BytesRead) ==> filled == buffer
                &&& self.said(
                    *heap,
                    *heap,
                    Call::BytesRead(self.seen(addr), buffer),
                    Answer::Filled(r, filled),
                )
            } else {
                r == Ok::<usize, Error>(buffer.len() as usize) && filled == heap.bytes_of(
                    self,
                    addr as int,
                    buffer.len() as int,
                )
            },
        }
    }

    fn write(&self, heap: &mut GlobalHeap, addr: &u64, data: &[u8]) -> (r: Result<usize>) {
        match self.check(heap, *addr, data.len(), 1) {
            Err(e) => {
                return Err(e);
            },
            Ok(()) => {},
        }
        match self.device(*addr, data.len()) {
            Some((io, at)) => io.bytes_write(heap, at, data),
            None => {
                self.put(heap, *addr, data);
                Ok(data.len())
            },
        }
    }

    fn read(&self, heap: &GlobalHeap, addr: &u64, data: &mut Vec<u8>) -> (r: Result<usize>) {
        let len: usize = data.len();
        match self.check(heap, *addr, len, 1) {
            Err(e) => {
                assert(data@ == old(data)@);
                assert(self.fault(heap, *addr, old(data)@.len() as int, 1) is Some);
                let r = Err(e);
                assert(self.was_read_bytes(heap, *addr, old(data)@, data@, r));
                r
            },
            Ok(()) => {
                assert(self.fault(heap, *addr, old(data)@.len() as int, 1) is None);
                match self.device(*addr, len) {
                    Some((io, at)) => {
                        assert(self.is_io());
                        io.bytes_read(heap, at, data)
                    },
                    None => {
                        let bytes: Vec<u8> = self.fetch(heap, *addr, len);
                        *data = bytes;
                        let r = Ok(len);
                        assert(self.was_read_bytes(heap, *addr, old(data)@, data@, r));
                        r
                    },
                }
            },
        }
    }
}

impl U16Access for Region {
    /// Writing fails as [`Region::fault`] says, changing nothing; otherwise
    /// the bytes of a region that the heap backs become those of `data`,
    /// least significant first, and a device is handed the access at the
    /// address it sees, as [`Region::handed_write`] says; it fails as
    /// [`Region::write_refused`] says where the device does not provide the
    /// accessor.
    open spec fn wrote_u16(
        &self,
        before: &GlobalHeap,
        after: &GlobalHeap,
        addr: u64,
        data: u16,
        r: Result<()>,
    ) -> bool {
        match self.fault(before, addr, 2, 2) {
            Some(f) => r matches Err(e) && reports(e, f, addr) && *after == *before,
            None => if self.is_io() {
                &&& self.write_refused(
                    before,
                    after,
                    r,
                    addr,
                    self.chosen(addr, 2, Access::U16Write, Access::BytesWrite),
                )
                &&& self.handed_write(
                    before,
                    after,
                    addr,
                    2,
                    Call::U16Write(self.seen(addr), data),
                    spec_u16_to_le_bytes(data),
                    r,
                )
            } else {
                r is Ok && after.wrote(before, self, addr as int, spec_u16_to_le_bytes(data))
            },
        }
    }

    /// Reading fails as [`Region::fault`] says; otherwise it answers with
    /// the value that the bytes of a region that the heap backs hold, least
    /// significant first, and hands the access to a device at the address it
    /// sees, as [`Region::handed_read`] says; it fails as
    /// [`Region::read_refused`] says where the device does not provide the
    /// accessor.
    open spec fn was_read_u16(&self, heap: &GlobalHeap, addr: u64, r: Result<u16>) -> bool {
        match self.fault(heap, addr, 2, 2) {
            Some(f) => r matches Err(e) && reports(e, f, addr),
            None => if self.is_io() {
                &&& self.read_refused(
                    r,
                    addr,
                    self.chosen(addr, 2, Access::U16Read, Access::BytesRead),
                )
                &&& self.handed_read(
                    heap,
                    addr,
                    2,
                    Call::U16Read(self.seen(addr)),
                    Answer::U16(r),
                    r,
                    |b: Seq<u8>| spec_u16_from_le_bytes(b),
                )
            } else {
                r == Ok::<u16, Error>(spec_u16_from_le_bytes(heap.bytes_of(self, addr as int, 2)))
            },
        }
    }

    fn write(&self, heap: &mut GlobalHeap, addr: &u64, data: u16) -> (r: Result<()>) {
        match self.check(heap, *addr, 2, 2) {
            Err(e) => {
                return Err(e);
            },
            Ok(()) => {},
        }
        match self.device(*addr, 2) {
            Some((io, at)) => {
                if at % 2 == 0 {
                    io.u16_write(heap, at, data)
                } else {
                    let bytes: Vec<u8> = u16_to_le_bytes(data);
                    let got: Result<usize> = io.bytes_write(heap, at, bytes.as_slice());
                    proof {
                        assert(self.said(
                            *old(heap),
                            *heap,
                            Call::BytesWrite(at, bytes@),
                            Answer::Count(got),
                        ));
                    }
                    match got {
                        Ok(_) => Ok(()),
                        Err(e) => Err(e),
                    }
                }
            },
            None => {
                let bytes: Vec<u8> = u16_to_le_bytes(data);
                proof {
                    vstd::bytes::lemma_auto_spec_u16_to_from_le_bytes();
                }
                self.put(heap, *addr, bytes.as_slice());
                Ok(())
            },
        }
    }

    fn read(&self, heap: &GlobalHeap, addr: &u64) -> (r: Result<u16>) {
        match self.check(heap, *addr, 2, 2) {
            Err(e) => {
                return Err(e);
            },
            Ok(()) => {},
        }
        match self.device(*addr, 2) {
            Some((io, at)) => {
                if at % 2 == 0 {
                    io.u16_read(heap, at)
                } else {
                    let mut bytes: Vec<u8> = vec![0u8; 2];
                    assert(bytes@ =~= zeros(2));
                    let got: Result<usize> = io.bytes_read(heap, at, &mut bytes);
                    proof {
                        assert(self.said(
                            *heap,
                            *heap,
                            Call::BytesRead(at, zeros(2)),
                            Answer::Filled(got, bytes@),
                        ));
                    }
                    match got {
                        Ok(_) => {
                            if bytes.len() == 2 {
                                Ok(u16_from_le_bytes(bytes.as_slice()))
                            } else {
                                Err(Error::AccessErr(*addr, "device answered with another length".to_owned()))
                            }
                        },
                        Err(e) => Err(e),
                    }
                }
            },
            None => {
                let bytes: Vec<u8> = self.fetch(heap, *addr, 2);
                Ok(u16_from_le_bytes(bytes.as_slice()))
            },
        }
    }
}

impl U32Access for Region {
    /// Writing fails as [`Region::fault`] says, changing nothing; otherwise
    /// the bytes of a region that the heap backs become those of `data`,
    /// least significant first, and a device is handed the access at the
    /// address it sees, as [`Region::handed_write`] says; it fails as
    /// [`Region::write_refused`] says where the device does not provide the
    /// accessor.
    open spec fn wrote_u32(
        &self,
        before: &GlobalHeap,
        after: &GlobalHeap,
        addr: u64,
        data: u32,
        r: Result<()>,
    ) -> bool {
        match self.fault(before, addr, 4, 4) {
            Some(f) => r matches Err(e) && reports(e, f, addr) && *after == *before,
            None => if self.is_io() {
                &&& self.write_refused(
                    before,
                    after,
                    r,
                    addr,
                    self.chosen(addr, 4, Access::U32Write, Access::BytesWrite),
                )
                &&& self.handed_write(
                    before,
                    after,
                    addr,
                    4,
                    Call::U32Write(self.seen(addr), data),
                    spec_u32_to_le_bytes(data),
                    r,
                )
            } else {
                r is Ok && after.wrote(before, self, addr as int, spec_u32_to_le_bytes(data))
            },
        }
    }

    /// Reading fails as [`Region::fault`] says; otherwise it answers with
    /// the value that the bytes of a region that the heap backs hold, least
    /// significant first, and hands the access to a device at the address it
    /// sees, as [`Region::handed_read`] says; it fails as
    /// [`Region::read_refused`] says where the device does not provide the
    /// accessor.
    open spec fn was_read_u32(&self, heap: &GlobalHeap, addr: u64, r: Result<u32>) -> bool {
        match self.fault(heap, addr, 4, 4) {
            Some(f) => r matches Err(e) && reports(e, f, addr),
            None => if self.is_io() {
                &&& self.read_refused(
                    r,
                    addr,
                    self.chosen(addr, 4, Access::U32Read, Access::BytesRead),
                )
                &&& self.handed_read(
                    heap,
                    addr,
                    4,
                    Call::U32Read(self.seen(addr)),
                    Answer::U32(r),
                    r,
                    |b: Seq<u8>| spec_u32_from_le_bytes(b),
                )
            } else {
                r == Ok::<u32, Error>(spec_u32_from_le_bytes(heap.bytes_of(self, addr as int, 4)))
            },
        }
    }

    fn write(&self, heap: &mut GlobalHeap, addr: &u64, data: u32) -> (r: Result<()>) {
        match self.check(heap, *addr, 4, 4) {
            Err(e) => {
                return Err(e);
            },
            Ok(()) => {},
        }
        match self.device(*addr, 4) {
            Some((io, at)) => {
                if at % 4 == 0 {
                    io.u32_write(heap, at, data)
                } else {
                    let bytes: Vec<u8> = u32_to_le_bytes(data);
                    let got: Result<usize> = io.bytes_write(heap, at, bytes.as_slice());
                    proof {
                        assert(self.said(
                            *old(heap),
                            *heap,
                            Call::BytesWrite(at, bytes@),
                            Answer::Count(got),
                        ));
                    }
                    match got {
                        Ok(_) => Ok(()),
                        Err(e) => Err(e),
                    }
                }
            },
            None => {
                let bytes: Vec<u8> = u32_to_le_bytes(data);
                proof {
                    vstd::bytes::lemma_auto_spec_u32_to_from_le_bytes();
                }
                self.put(heap, *addr, bytes.as_slice());
                Ok(())
            },
        }
    }

    fn read(&self, heap: &GlobalHeap, addr: &u64) -> (r: Result<u32>) {
        match self.check(heap, *addr, 4, 4) {
            Err(e) => {
                return Err(e);
            },
            Ok(()) => {},
        }
        match self.device(*addr, 4) {
            Some((io, at)) => {
                if at % 4 == 0 {
                    io.u32_read(heap, at)
                } else {
                    let mut bytes: Vec<u8> = vec![0u8; 4];
                    assert(bytes@ =~= zeros(4));
                    let got: Result<usize> = io.bytes_read(heap, at, &mut bytes);
                    proof {
                        assert(self.said(
                            *heap,
                            *heap,
                            Call::BytesRead(at, zeros(4)),
                            Answer::Filled(got, bytes@),
                        ));
                    }
                    match got {
                        Ok(_) => {
                            if bytes.len() == 4 {
                                Ok(u32_from_le_bytes(bytes.as_slice()))
                            } else {
                                Err(Error::AccessErr(*addr, "device answered with another length".to_owned()))
                            }
                        },
                        Err(e) => Err(e),
                    }
                }
            },
            None => {
                let bytes: Vec<u8> = self.fetch(heap, *addr, 4);
                Ok(u32_from_le_bytes(bytes.as_slice()))
            },
        }
    }
}

impl U64Access for Region {
    /// Writing fails as [`Region::fault`] says, changing nothing; otherwise
    /// the bytes of a region that the heap backs become those of `data`,
    /// least significant first, and a device is handed the access at the
    /// address it sees, as [`Region::handed_write`] says; it fails as
    /// [`Region::write_refused`] says where the device does not provide the
    /// accessor.
    open spec fn wrote_u64(
        &self,
        before: &GlobalHeap,
        after: &GlobalHeap,
        addr: u64,
        data: u64,
        r: Result<()>,
    ) -> bool {
        match self.fault(before, addr, 8, 8) {
            Some(f) => r matches Err(e) && reports(e, f, addr) && *after == *before,
            None => if self.is_io() {
                &&& self.write_refused(
                    before,
                    after,
                    r,
                    addr,
                    self.chosen(addr, 8, Access::U64Write, Access::BytesWrite),
                )
                &&& self.handed_write(
                    before,
                    after,
                    addr,
                    8,
                    Call::U64Write(self.seen(addr), data),
                    spec_u64_to_le_bytes(data),
                    r,
                )
            } else {
                r is Ok && after.wrote(before, self, addr as int, spec_u64_to_le_bytes(data))
            },
        }
    }

    /// Reading fails as [`Region::fault`] says; otherwise it answers with
    /// the value that the bytes of a region that the heap backs hold, least
    /// significant first, and hands the access to a device at the address it
    /// sees, as [`Region::handed_read`] says; it fails as
    /// [`Region::read_refused`] says where the device does not provide the
    /// accessor.
    open spec fn was_read_u64(&self, heap: &GlobalHeap, addr: u64, r: Result<u64>) -> bool {
        match self.fault(heap, addr, 8, 8) {
            Some(f) => r matches Err(e) && reports(e, f, addr),
            None => if self.is_io() {
                &&& self.read_refused(
                    r,
                    addr,
                    self.chosen(addr, 8, Access::U64Read, Access::BytesRead),
                )
                &&& self.handed_read(
                    heap,
                    addr,
                    8,
                    Call::U64Read(self.seen(addr)),
                    Answer::U64(r),
                    r,
                    |b: Seq<u8>| spec_u64_from_le_bytes(b),
                )
            } else {
                r == Ok::<u64, Error>(spec_u64_from_le_bytes(heap.bytes_of(self, addr as int, 8)))
            },
        }
    }

    fn write(&self, heap: &mut GlobalHeap, addr: &u64, data: u64) -> (r: Result<()>) {
        match self.check(heap, *addr, 8, 8) {
            Err(e) => {
                return Err(e);
            },
            Ok(()) => {},
        }
        match self.device(*addr, 8) {
            Some((io, at)) => {
                if at % 8 == 0 {
                    io.u64_write(heap, at, data)
                } else {
                    let bytes: Vec<u8> = u64_to_le_bytes(data);
                    let got: Result<usize> = io.bytes_write(heap, at, bytes.as_slice());
                    proof {
                        assert(self.said(
                            *old(heap),
                            *heap,
                            Call::BytesWrite(at, bytes@),
                            Answer::Count(got),
                        ));
                    }
                    match got {
                        Ok(_) => Ok(()),
                        Err(e) => Err(e),
                    }
                }
            },
            None => {
                let bytes: Vec<u8> = u64_to_le_bytes(data);
                proof {
                    vstd::bytes::lemma_auto_spec_u64_to_from_le_bytes();
                }
                self.put(heap, *addr, bytes.as_slice());
                Ok(())
            },
        }
    }

    fn read(&self, heap: &GlobalHeap, addr: &u64) -> (r: Result<u64>) {
        match self.check(heap, *addr, 8, 8) {
            Err(e) => {
                return Err(e);
            },
            Ok(()) => {},
        }
        match self.device(*addr, 8) {
            Some((io, at)) => {
                if at % 8 == 0 {
                    io.u64_read(heap, at)
                } else {
                    let mut bytes: Vec<u8> = vec![0u8; 8];
                    assert(bytes@ =~= zeros(8));
                    let got: Result<usize> = io.bytes_read(heap, at, &mut bytes);
                    proof {
                        assert(self.said(
                            *heap,
                            *heap,
                            Call::BytesRead(at, zeros(8)),
                            Answer::Filled(got, bytes@),
                        ));
                    }
                    match got {
                        Ok(_) => {
                            if bytes.len() == 8 {
                                Ok(u64_from_le_bytes(bytes.as_slice()))
                            } else {
                                Err(Error::AccessErr(*addr, "device answered with another length".to_owned()))
                            }
                        },
                        Err(e) => Err(e),
                    }
                }
            },
            None => {
                let bytes: Vec<u8> = self.fetch(heap, *addr, 8);
                Ok(u64_from_le_bytes(bytes.as_slice()))
            },
        }
    }
}

/// The text of the error for a request that fits into no free block.
pub open spec fn oom() -> Seq<char> {
    "oom!"@
}

impl GlobalHeap {
    /// Whether this heap and the answer `r` are what a request to the
    /// universe's allocator for `size` bytes at alignment `align` makes of
    /// `before`. The request succeeds exactly when it fits into a free block
    /// and, for an eager backing, `size` bytes can be addressed; it then
    /// yields a region over the allocated window whose bytes, all zero, lie
    /// in a new storage slot. A failed request changes nothing.
    pub open spec fn after_root_alloc(
        &self,
        before: &GlobalHeap,
        size: u64,
        align: u64,
        eager: bool,
        r: std::result::Result<Rc<Region>, String>,
    ) -> bool {
        let fit = first_fit(before.allocator_view().free_list(), size, align);
        match r {
            Ok(region) => {
                &&& eager ==> size <= usize::MAX
                &&& self.allocator_view().after_allocate(
                    &before.allocator_view(),
                    size,
                    align,
                    Some(region.window()),
                )
                &&& self.same_sub_allocators(before, -1)
                &&& region.wf()
                &&& region.is_root()
                &&& region.type_label() == "Block"@
                &&& !region.is_io()
                &&& region.origin() == region.window().base
                &&& region.leaf_info() == region.window()
                &&& region.slot() == before.slot_count()
                &&& self.slot_count() == before.slot_count() + 1
                &&& self.backs(&region)
                &&& forall|a: int| #[trigger] self.byte(region.slot(), a) == 0u8
                &&& forall|s: int| s != region.slot() ==> #[trigger] self.same_slot(before, s)
            },
            Err(msg) => {
                &&& (eager && size > usize::MAX) || fit == before.allocator_view().free_list().len()
                &&& !(eager && size > usize::MAX) ==> msg@ == oom()
                &&& self.same_layout(before)
                &&& forall|s: int| #[trigger] self.same_slot(before, s)
            },
        }
    }

    /// Requests a block from the universe's allocator.
    fn reserve(&mut self, size: u64, align: u64) -> (r: Option<MemInfo>)
        requires
            valid_align(align),
        ensures
            final(self).allocator@.after_allocate(&old(self).allocator@, size, align, r),
            r matches Some(b) ==> b.base + b.size <= u64::MAX,
            final(self).slots == old(self).slots,
            final(self).heaps == old(self).heaps,
    {
        proof {
            use_type_invariant(&*self);
        }
        let mut allocator = LockedAllocator::new(0, 0);
        core::mem::swap(&mut self.allocator, &mut allocator);
        let r = allocator.allocate(size, align);
        core::mem::swap(&mut self.allocator, &mut allocator);
        r
    }

    /// Puts a backing into a new storage slot and answers with the slot.
    fn add_slot(&mut self, slot: Slot) -> (index: usize)
        requires
            slot matches Slot::Model(m) ==> m.wf(),
        ensures
            index == old(self).slots@.len(),
            final(self).slots@ == old(self).slots@.push(slot),
            final(self).allocator == old(self).allocator,
            final(self).heaps == old(self).heaps,
    {
        proof {
            use_type_invariant(&*self);
        }
        let mut slots: Vec<Slot> = Vec::new();
        core::mem::swap(&mut self.slots, &mut slots);
        let index: usize = slots.len();
        slots.push(slot);
        core::mem::swap(&mut self.slots, &mut slots);
        index
    }

    /// Allocates `size` bytes at alignment `align` from the universe, backed
    /// by zeroed bytes held eagerly.
    pub fn allocate(&mut self, size: u64, align: u64) -> (r: std::result::Result<Rc<Region>,
        String>)
        requires
            valid_align(align),
        ensures
            final(self).after_root_alloc(old(self), size, align, true, r),
    {
        proof {
            use_type_invariant(&*self);
        }
        if size > usize::MAX as u64 {
            return Err(
                "an eager allocation cannot exceed the address width, use lazy_alloc".to_owned(),
            );
        }
        match self.reserve(size, align) {
            Some(info) => {
                let ghost before = self.slots@;
                let slot: usize = self.add_slot(Slot::Model(Model::new(info)));
                proof {
                    assert forall|s: int| s
                        != slot implies #[trigger] self.same_slot(old(self), s) by {
                        if 0 <= s < before.len() {
                            assert(self.slots@[s] == before[s]);
                        }
                    }
                }
                Ok(Region::root_block(info.base, info.size, Region::model(info.base, info.size,
                    slot)))
            },
            None => {
                proof {
                    reveal_strlit("oom!");
                }
                Err("oom!".to_owned())
            },
        }
    }

    /// Allocates `size` bytes at alignment `align` from the universe, backed
    /// by bytes that are stored once written and read as zero before.
    pub fn lazy_alloc(&mut self, size: u64, align: u64) -> (r: std::result::Result<
        Rc<Region>,
        String,
    >)
        requires
            valid_align(align),
        ensures
            final(self).after_root_alloc(old(self), size, align, false, r),
    {
        proof {
            use_type_invariant(&*self);
        }
        match self.reserve(size, align) {
            Some(info) => {
                let ghost before = self.slots@;
                let slot: usize = self.add_slot(Slot::LazyModel(LazyModel::new(info)));
                proof {
                    assert forall|s: int| s
                        != slot implies #[trigger] self.same_slot(old(self), s) by {
                        if 0 <= s < before.len() {
                            assert(self.slots@[s] == before[s]);
                        }
                    }
                }
                Ok(
                    Region::root_block(
                        info.base,
                        info.size,
                        Region::lazy_model(info.base, info.size, slot),
                    ),
                )
            },
            None => {
                proof {
                    reveal_strlit("oom!");
                }
                Err("oom!".to_owned())
            },
        }
    }
}

impl GlobalHeap {
    /// Whether nothing differs between the two heaps but what cannot be
    /// seen: the same allocators, the same backings, the same bytes.
    pub open spec fn unchanged(&self, before: &GlobalHeap) -> bool {
        &&& self.same_layout(before)
        &&& forall|s: int| #[trigger] self.same_slot(before, s)
    }

    /// Whether this heap and the answer `r` are what a request to the
    /// sub-heap `heap` for `size` bytes at alignment `align` makes of
    /// `before`. The request succeeds exactly when the sub-heap still exists,
    /// manages the window of its region, and has a free block into which the
    /// request fits; it then yields a block of the sub-heap's region that
    /// shares the region's bytes. A failed request changes nothing.
    pub open spec fn after_block_alloc(
        &self,
        before: &GlobalHeap,
        heap: &Heap,
        size: u64,
        align: u64,
        r: std::result::Result<Rc<Region>, String>,
    ) -> bool {
        let usable = before.sub_allocator(heap.id()) matches Some(a) && a.universe()
            == heap.region().window();
        match r {
            Ok(region) => {
                &&& usable
                &&& self.sub_allocator(heap.id()) matches Some(a2) && a2.after_allocate(
                    &before.sub_allocator(heap.id())->0,
                    size,
                    align,
                    Some(region.window()),
                )
                &&& self.allocator_view().same_lists(&before.allocator_view())
                &&& self.same_sub_allocators(before, heap.id())
                &&& self.slot_count() == before.slot_count()
                &&& forall|s: int| #[trigger] self.same_slot(before, s)
                &&& region.wf()
                &&& region.is_block_of(*heap)
                &&& region.type_label() == "Block"@
                &&& region.window().inside(heap.region().window())
                &&& region.is_io() == heap.region().is_io()
                &&& region.provided() == heap.region().provided()
                &&& region.answers_as(&heap.region())
                &&& region.slot() == heap.region().slot()
                &&& region.leaf_info() == heap.region().leaf_info()
                &&& region.origin() == heap.region().origin() + (region.window().base
                    - heap.region().window().base)
            },
            Err(msg) => {
                &&& usable
                    ==> first_fit(before.sub_allocator(heap.id())->0.free_list(), size, align)
                    == before.sub_allocator(heap.id())->0.free_list().len() && msg@ == oom()
                &&& self.unchanged(before)
            },
        }
    }

    /// Whether this heap is `before` after the last handle to the block
    /// `region` of the universe has gone: the block has left the allocated
    /// list, where it was on it, and its bytes have left the heap.
    pub open spec fn root_released(&self, before: &GlobalHeap, region: &Region) -> bool {
        &&& if before.allocator_view().is_allocated(region.window().base) {
            self.allocator_view().after_free(&before.allocator_view(), region.window().base)
        } else {
            self.allocator_view().same_lists(&before.allocator_view())
        }
        &&& self.same_sub_allocators(before, -1)
        &&& self.slot_count() == before.slot_count()
        &&& before.backs(region) ==> !self.live(region.slot())
        &&& forall|s: int| s != region.slot() ==> #[trigger] self.same_slot(before, s)
    }

    /// Whether this heap is `before` after the block at `base` has left the
    /// allocated list of sub-heap `id`, where that sub-heap exists and the
    /// block was on its list.
    pub open spec fn block_released(&self, before: &GlobalHeap, id: int, base: u64) -> bool {
        &&& self.allocator_view().same_lists(&before.allocator_view())
        &&& self.same_sub_allocators(before, id)
        &&& self.slot_count() == before.slot_count()
        &&& forall|s: int| #[trigger] self.same_slot(before, s)
        &&& match before.sub_allocator(id) {
            Some(a) => self.sub_allocator(id) matches Some(a2) && if a.is_allocated(base) {
                a2.after_free(&a, base)
            } else {
                a2.same_lists(&a)
            },
            None => self.sub_allocator(id) is None,
        }
    }

    /// Whether this heap is what taking `region` apart, once no handle to it
    /// is left, makes of `before`. A block of the universe is released as
    /// [`GlobalHeap::root_released`] says. A block of a sub-heap is released
    /// as [`GlobalHeap::block_released`] says, and then its handles to the
    /// sub-heap and to the sub-heap's region are given up, which leaves a
    /// heap that has shrunk. A remap gives up its handle to its target, which
    /// leaves a heap that has shrunk.
    pub open spec fn reclaimed(&self, before: &GlobalHeap, region: &Region) -> bool {
        &&& self.shrunk_from(before)
        &&& region.is_root() ==> self.root_released(before, region)
        &&& forall|heap: Heap| #[trigger]
            region.is_block_of(heap) ==> exists|mid: GlobalHeap| #[trigger]
                mid.block_released(before, heap.id(), region.window().base) && self.shrunk_from(
                    &mid,
                )
    }

    /// Registers an allocator for a new sub-heap over `universe`.
    fn add_heap(&mut self, universe: MemInfo) -> (id: usize)
        requires
            universe.base + universe.size <= u64::MAX,
        ensures
            id == old(self).heaps@.len(),
            final(self).heaps@.len() == id + 1,
            forall|k: int| 0 <= k < id ==> final(self).heaps@[k] == old(self).heaps@[k],
            final(self).heaps@[id as int] matches Some(a) && a.universe() == universe
                && a.free_list() == seq![universe] && a.allocated() == Seq::<MemInfo>::empty(),
            final(self).allocator == old(self).allocator,
            final(self).slots == old(self).slots,
    {
        proof {
            use_type_invariant(&*self);
        }
        let mut heaps: Vec<Option<Allocator>> = Vec::new();
        core::mem::swap(&mut self.heaps, &mut heaps);
        let id: usize = heaps.len();
        heaps.push(Some(Allocator::new(universe.base, universe.size)));
        core::mem::swap(&mut self.heaps, &mut heaps);
        id
    }

    /// Requests a block from the allocator of sub-heap `id`, where that
    /// sub-heap exists and manages `universe`.
    fn sub_reserve(&mut self, id: usize, universe: MemInfo, size: u64, align: u64) -> (r: Option<
        Option<MemInfo>,
    >)
        requires
            valid_align(align),
        ensures
            final(self).allocator == old(self).allocator,
            final(self).slots == old(self).slots,
            final(self).heaps@.len() == old(self).heaps@.len(),
            forall|k: int|
                0 <= k < old(self).heaps@.len() && k != id ==> final(self).heaps@[k]
                    == old(self).heaps@[k],
            r is Some == (old(self).sub_allocator(id as int) matches Some(a) && a.universe()
                == universe),
            match r {
                Some(got) => {
                    &&& final(self).sub_allocator(id as int) matches Some(a2) && a2.after_allocate(
                        &old(self).sub_allocator(id as int)->0,
                        size,
                        align,
                        got,
                    )
                    &&& got matches Some(b) ==> b.inside(universe)
                },
                None => final(self).heaps@ == old(self).heaps@,
            },
    {
        proof {
            use_type_invariant(&*self);
        }
        if id >= self.heaps.len() {
            return None;
        }
        let mut heaps: Vec<Option<Allocator>> = Vec::new();
        core::mem::swap(&mut self.heaps, &mut heaps);
        let ghost before = heaps@;
        let mut taken: Option<Allocator> = None;
        core::mem::swap(&mut heaps[id], &mut taken);
        let r = match taken {
            Some(mut a) => {
                let u: MemInfo = a.info();
                let r = if u.base == universe.base && u.size == universe.size {
                    Some(a.allocate(size, align))
                } else {
                    None
                };
                heaps.set(id, Some(a));
                r
            },
            None => None,
        };
        proof {
            assert forall|k: int| 0 <= k < before.len() && k != id implies heaps@[k]
                == before[k] by {}
            if r is None {
                assert(heaps@ =~= before);
            }
        }
        core::mem::swap(&mut self.heaps, &mut heaps);
        r
    }
}

impl GlobalHeap {
    /// Whether sub-heap `id` exists, manages `universe`, and can answer all
    /// the requests one after the other.
    fn sub_fits_all(&self, id: usize, universe: MemInfo, requests: &Vec<(u64, u64)>) -> (r: bool)
        requires
            forall|i: int| 0 <= i < requests@.len() ==> valid_align((#[trigger] requests@[i]).1),
        ensures
            r == (self.sub_allocator(id as int) matches Some(a) && a.universe() == universe
                && fit_all(a.free_list(), requests@, 0)),
    {
        proof {
            use_type_invariant(self);
        }
        if id >= self.heaps.len() {
            return false;
        }
        match &self.heaps[id] {
            Some(a) => {
                let u: MemInfo = a.info();
                u.base == universe.base && u.size == universe.size && a.fits_all(requests)
            },
            None => false,
        }
    }
}

impl Heap {
    /// Whether the sub-heap can answer all the requests, each a size and an
    /// alignment, one after the other: it can when it still exists, manages
    /// the window of its region, and each request fits into the free list
    /// that the one before it leaves. Nothing is allocated.
    pub fn can_allocate_all(self: &Rc<Self>, heap: &GlobalHeap, requests: &Vec<(u64, u64)>) -> (r:
        bool)
        requires
            forall|i: int| 0 <= i < requests@.len() ==> valid_align((#[trigger] requests@[i]).1),
        ensures
            r == (heap.sub_allocator(self.id()) matches Some(a) && a.universe()
                == self.region().window() && fit_all(a.free_list(), requests@, 0)),
    {
        let universe: MemInfo = self.memory.info();
        heap.sub_fits_all(self.allocator, universe, requests)
    }

    /// A sub-heap over the whole of `memory`, with every byte of it free.
    pub fn new(heap: &mut GlobalHeap, memory: &Rc<Region>) -> (r: Rc<Heap>)
        ensures
            r.region() == **memory,
            r.id() == old(heap).heap_count(),
            final(heap).heap_count() == old(heap).heap_count() + 1,
            final(heap).sub_allocator(r.id()) matches Some(a) && a.wf() && a.universe()
                == memory.window() && a.free_list() == seq![memory.window()] && a.allocated()
                == Seq::<MemInfo>::empty(),
            forall|id: int|
                id != r.id() ==> #[trigger] final(heap).sub_allocator(id)
                    == old(heap).sub_allocator(
                    id,
                ),
            final(heap).allocator_view() == old(heap).allocator_view(),
            final(heap).slot_count() == old(heap).slot_count(),
            forall|s: int| #[trigger] final(heap).same_slot(old(heap), s),
    {
        let info: MemInfo = memory.info();
        let id: usize = heap.add_heap(info);
        proof {
            use_type_invariant(&*heap);
        }
        Rc::new(Heap { memory: share(memory), allocator: id })
    }

    /// Allocates `size` bytes at alignment `align` from the sub-heap: a block
    /// of its region.
    pub fn allocate(self: &Rc<Self>, heap: &mut GlobalHeap, size: u64, align: u64) -> (r:
        std::result::Result<Rc<Region>, String>)
        requires
            valid_align(align),
        ensures
            final(heap).after_block_alloc(old(heap), &**self, size, align, r),
    {
        let universe: MemInfo = self.memory.info();
        match heap.sub_reserve(self.allocator, universe, size, align) {
            Some(Some(info)) => Ok(Region::block(info.base, info.size, self, &self.memory)),
            Some(None) => {
                proof {
                    reveal_strlit("oom!");
                }
                Err("oom!".to_owned())
            },
            None => Err("the heap was released".to_owned()),
        }
    }
}

impl GlobalHeap {
    /// Takes the block at `base` off the universe's allocated list, where it
    /// is on it.
    fn unreserve(&mut self, base: u64)
        ensures
            if old(self).allocator@.is_allocated(base) {
                final(self).allocator@.after_free(&old(self).allocator@, base)
            } else {
                final(self).allocator@.same_lists(&old(self).allocator@)
            },
            final(self).slots == old(self).slots,
            final(self).heaps == old(self).heaps,
    {
        proof {
            use_type_invariant(&*self);
        }
        let mut allocator = LockedAllocator::new(0, 0);
        core::mem::swap(&mut self.allocator, &mut allocator);
        if allocator.has_block_at(base) {
            allocator.free(base);
        }
        core::mem::swap(&mut self.allocator, &mut allocator);
    }

    /// Empties storage slot `slot`, where it holds the backing of `info`.
    fn vacate(&mut self, slot: usize, info: MemInfo)
        ensures
            final(self).allocator == old(self).allocator,
            final(self).heaps == old(self).heaps,
            final(self).slots@.len() == old(self).slots@.len(),
            forall|s: int|
                0 <= s < old(self).slots@.len() && s != slot ==> final(self).slots@[s]
                    == old(self).slots@[s],
            old(self).live(slot as int) && old(self).slot_info(slot as int) == info
                ==> !final(self).live(slot as int),
            !(old(self).live(slot as int) && old(self).slot_info(slot as int) == info)
                ==> final(self).slots@ == old(self).slots@,
    {
        proof {
            use_type_invariant(&*self);
        }
        if self.holds(slot, info) {
            let mut slots: Vec<Slot> = Vec::new();
            core::mem::swap(&mut self.slots, &mut slots);
            slots.set(slot, Slot::Vacant);
            core::mem::swap(&mut self.slots, &mut slots);
        }
    }

    /// Takes the block at `base` off the allocated list of sub-heap `id`,
    /// where that sub-heap exists and the block is on its list.
    fn sub_unreserve(&mut self, id: usize, base: u64)
        ensures
            final(self).allocator == old(self).allocator,
            final(self).slots == old(self).slots,
            final(self).heaps@.len() == old(self).heaps@.len(),
            forall|k: int|
                0 <= k < old(self).heaps@.len() && k != id ==> final(self).heaps@[k]
                    == old(self).heaps@[k],
            match old(self).sub_allocator(id as int) {
                Some(a) => final(self).sub_allocator(id as int) matches Some(a2) && a2.universe()
                    == a.universe() && if a.is_allocated(base) {
                    a2.after_free(&a, base)
                } else {
                    a2.same_lists(&a)
                },
                None => final(self).sub_allocator(id as int) is None,
            },
    {
        proof {
            use_type_invariant(&*self);
        }
        if id >= self.heaps.len() {
            return ;
        }
        let mut heaps: Vec<Option<Allocator>> = Vec::new();
        core::mem::swap(&mut self.heaps, &mut heaps);
        let ghost before = heaps@;
        let mut taken: Option<Allocator> = None;
        core::mem::swap(&mut heaps[id], &mut taken);
        match taken {
            Some(mut a) => {
                if a.has_block_at(base) {
                    a.free(base);
                }
                heaps.set(id, Some(a));
            },
            None => {},
        }
        proof {
            assert forall|k: int| 0 <= k < before.len() && k != id implies heaps@[k]
                == before[k] by {}
        }
        core::mem::swap(&mut self.heaps, &mut heaps);
    }

    /// Forgets the allocator of sub-heap `id`.
    fn drop_heap(&mut self, id: usize)
        ensures
            final(self).allocator == old(self).allocator,
            final(self).slots == old(self).slots,
            final(self).heaps@.len() == old(self).heaps@.len(),
            forall|k: int|
                0 <= k < old(self).heaps@.len() && k != id ==> final(self).heaps@[k]
                    == old(self).heaps@[k],
            final(self).sub_allocator(id as int) is None,
    {
        proof {
            use_type_invariant(&*self);
        }
        if id < self.heaps.len() {
            let mut heaps: Vec<Option<Allocator>> = Vec::new();
            core::mem::swap(&mut self.heaps, &mut heaps);
            heaps.set(id, None);
            core::mem::swap(&mut self.heaps, &mut heaps);
        }
    }

    /// Gives up one handle to `region`. Where it was the last one, the region
    /// is taken apart as [`GlobalHeap::reclaim`] says. Whether it was the
    /// last one is for the reference count to say, so the heap afterwards is
    /// either as before or as the reclaiming leaves it: in both cases what is
    /// left of it is unchanged.
    pub fn release(&mut self, region: Rc<Region>)
        ensures
            final(self).shrunk_from(old(self)),
            *final(self) == *old(self) || final(self).reclaimed(old(self), &*region),
        decreases region, 1nat,
    {
        match Rc::try_unwrap(region) {
            Ok(owned) => self.reclaim(owned),
            Err(_) => {},
        }
    }

    /// Takes apart a region to which no handle is left. A block of the
    /// universe leaves the allocated list and its bytes leave the heap; a
    /// block of a sub-heap leaves that sub-heap's allocated list, and its
    /// handles to the sub-heap and to the sub-heap's region are given up; a
    /// remap gives up its handle to its target.
    pub fn reclaim(&mut self, region: Region)
        ensures
            final(self).reclaimed(old(self), &region),
        decreases region, 0nat,
    {
        proof {
            use_type_invariant(&region);
            use_type_invariant(&*self);
        }
        let ghost whole = region;
        let Region { memory, info, root, label: _ } = region;
        match memory {
            Memory::RootBlock(_) => {
                self.unreserve(info.base);
                match root.slot {
                    Some(slot) => {
                        self.vacate(slot, root.info);
                    },
                    None => {},
                }
                proof {
                    assert forall|s: int| s != whole.slot() implies #[trigger] self.same_slot(
                        old(self),
                        s,
                    ) by {
                        if 0 <= s < old(self).slots@.len() {
                            assert(self.slots@[s] == old(self).slots@[s]);
                        }
                    }
                }
            },
            Memory::Block(heap, parent) => {
                self.sub_unreserve(heap.allocator, info.base);
                let ghost mid = *self;
                assert(mid.shrunk_from(old(self)));
                assert(mid.block_released(old(self), heap.id(), info.base));
                self.release_heap(heap);
                let ghost mid2 = *self;
                assert(mid2.shrunk_from(old(self)));
                self.release(parent);
                proof {
                    assert(self.shrunk_from(&mid));
                    assert forall|other: Heap| #[trigger] whole.is_block_of(other) implies exists|
                        m: GlobalHeap,
                    | #[trigger]
                        m.block_released(old(self), other.id(), whole.window().base)
                            && self.shrunk_from(&m) by {
                        assert(mid.block_released(old(self), other.id(), whole.window().base)
                            && self.shrunk_from(&mid));
                    }
                }
            },
            Memory::Remap(remap) => {
                self.release(remap.region);
            },
            _ => {},
        }
    }

    /// Whether this heap is `before` with the allocator of sub-heap `id`
    /// forgotten and nothing else changed.
    pub open spec fn heap_dropped(&self, before: &GlobalHeap, id: int) -> bool {
        &&& self.allocator_view().same_lists(&before.allocator_view())
        &&& self.same_sub_allocators(before, id)
        &&& self.sub_allocator(id) is None
        &&& self.slot_count() == before.slot_count()
        &&& forall|s: int| #[trigger] self.same_slot(before, s)
    }

    /// Whether this heap is what taking the sub-heap `heap` apart, once no
    /// handle to it is left, makes of `before`: the sub-heap's allocator is
    /// forgotten, and then the sub-heap's handle to its region is given up,
    /// which either changes nothing more or takes that region apart as
    /// [`GlobalHeap::reclaimed`] says.
    pub open spec fn heap_reclaimed(&self, before: &GlobalHeap, heap: &Heap) -> bool {
        &&& self.shrunk_from(before)
        &&& exists|mid: GlobalHeap| #[trigger]
            mid.heap_dropped(before, heap.id()) && (*self == mid || self.reclaimed(
                &mid,
                &heap.region(),
            ))
    }

    /// Gives up one handle to the sub-heap `heap`. Where it was the last one,
    /// the sub-heap is taken apart as [`GlobalHeap::reclaim_heap`] says.
    /// Whether it was the last one is for the reference count to say, so the
    /// heap afterwards is either as before or as the reclaiming leaves it.
    pub fn release_heap(&mut self, heap: Rc<Heap>)
        ensures
            final(self).shrunk_from(old(self)),
            *final(self) == *old(self) || final(self).heap_reclaimed(old(self), &*heap),
        decreases heap, 1nat,
    {
        match Rc::try_unwrap(heap) {
            Ok(owned) => self.reclaim_heap(owned),
            Err(_) => {},
        }
    }

    /// Takes apart a sub-heap to which no handle is left: its allocator is
    /// forgotten, and its handle to its region is given up.
    pub fn reclaim_heap(&mut self, heap: Heap)
        ensures
            final(self).heap_reclaimed(old(self), &heap),
        decreases heap, 0nat,
    {
        let ghost whole = heap;
        let Heap { memory, allocator } = heap;
        self.drop_heap(allocator);
        let ghost mid = *self;
        proof {
            assert(mid.shrunk_from(old(self)));
            assert(mid.heap_dropped(old(self), whole.id()));
        }
        self.release(memory);
        proof {
            assert(mid.heap_dropped(old(self), whole.id()) && (*self == mid || self.reclaimed(
                &mid,
                &whole.region(),
            )));
        }
    }
}

/// A value written to a region that the heap backs is the value read back
/// from the same address: for single bytes.
pub proof fn lemma_write_then_read_u8(
    region: &Region,
    before: &GlobalHeap,
    after: &GlobalHeap,
    addr: u64,
    data: u8,
)
    requires
        !region.is_io(),
        region.wrote_u8(before, after, addr, data, Ok(())),
    ensures
        region.was_read_u8(after, addr, Ok(data)),
{
}

/// A value written to a region that the heap backs is the value read back
/// from the same address: for 16-bit values.
pub proof fn lemma_write_then_read_u16(
    region: &Region,
    before: &GlobalHeap,
    after: &GlobalHeap,
    addr: u64,
    data: u16,
)
    requires
        !region.is_io(),
        region.wrote_u16(before, after, addr, data, Ok(())),
    ensures
        region.was_read_u16(after, addr, Ok(data)),
{
    vstd::bytes::lemma_auto_spec_u16_to_from_le_bytes();
    assert(after.bytes_of(region, addr as int, 2) =~= spec_u16_to_le_bytes(data));
}

/// A value written to a region that the heap backs is the value read back
/// from the same address: for 32-bit values.
pub proof fn lemma_write_then_read_u32(
    region: &Region,
    before: &GlobalHeap,
    after: &GlobalHeap,
    addr: u64,
    data: u32,
)
    requires
        !region.is_io(),
        region.wrote_u32(before, after, addr, data, Ok(())),
    ensures
        region.was_read_u32(after, addr, Ok(data)),
{
    vstd::bytes::lemma_auto_spec_u32_to_from_le_bytes();
    assert(after.bytes_of(region, addr as int, 4) =~= spec_u32_to_le_bytes(data));
}

/// A value written to a region that the heap backs is the value read back
/// from the same address: for 64-bit values.
pub proof fn lemma_write_then_read_u64(
    region: &Region,
    before: &GlobalHeap,
    after: &GlobalHeap,
    addr: u64,
    data: u64,
)
    requires
        !region.is_io(),
        region.wrote_u64(before, after, addr, data, Ok(())),
    ensures
        region.was_read_u64(after, addr, Ok(data)),
{
    vstd::bytes::lemma_auto_spec_u64_to_from_le_bytes();
    assert(after.bytes_of(region, addr as int, 8) =~= spec_u64_to_le_bytes(data));
}

/// Bytes written to a region that the heap backs are the bytes read back from
/// the same address.
pub proof fn lemma_write_then_read_bytes(
    region: &Region,
    before: &GlobalHeap,
    after: &GlobalHeap,
    addr: u64,
    data: Seq<u8>,
    buffer: Seq<u8>,
)
    requires
        !region.is_io(),
        data.len() <= usize::MAX,
        buffer.len() == data.len(),
        region.wrote_bytes(before, after, addr, data, Ok(data.len() as usize)),
    ensures
        region.was_read_bytes(after, addr, buffer, data, Ok(data.len() as usize)),
{
    assert(after.bytes_of(region, addr as int, data.len() as int) =~= data);
}

/// A remap presents, at every address `addr` of its window, the byte that
/// its target presents at `addr - remap.base + window.base`, where `window`
/// is the window of the target that the remap projects: reading the one is
/// reading the other. This holds of a remap of the whole target and of a
/// partial one alike.
pub proof fn lemma_remap_reads_target(
    heap: &GlobalHeap,
    remap: &Region,
    target: &Region,
    window: MemInfo,
    addr: u64,
    value: u8,
)
    requires
        remap.wf(),
        target.wf(),
        remap.remaps(*target, window),
        remap.window().contains(addr as int),
        !remap.is_io(),
    ensures
        remap.window().size == window.size,
        window.inside(target.window()),
        target.window().contains(addr - remap.window().base + window.base),
        heap.backs(remap) == heap.backs(target),
        remap.slot() == target.slot(),
        remap.locate(addr as int) == target.locate(addr - remap.window().base + window.base),
        remap.was_read_u8(heap, addr, Ok(value)) <==> target.was_read_u8(
            heap,
            (addr - remap.window().base + window.base) as u64,
            Ok(value),
        ),
{
}

/// Every run of bytes that lies in the window of a remap is, byte for byte,
/// the run at the translated address of its target.
pub proof fn lemma_remap_bytes_are_target_bytes(
    heap: &GlobalHeap,
    remap: &Region,
    target: &Region,
    window: MemInfo,
    addr: u64,
    len: nat,
)
    requires
        remap.wf(),
        target.wf(),
        remap.remaps(*target, window),
        remap.window().contains_range(addr as int, len as int),
    ensures
        target.window().contains_range(addr - remap.window().base + window.base, len as int),
        heap.backs(remap) == heap.backs(target),
        remap.is_io() == target.is_io(),
        heap.bytes_of(remap, addr as int, len as int) == heap.bytes_of(
            target,
            addr - remap.window().base + window.base,
            len as int,
        ),
{
    assert(heap.bytes_of(remap, addr as int, len as int) =~= heap.bytes_of(
        target,
        addr - remap.window().base + window.base,
        len as int,
    ));
}

/// A remap whose target the heap backs reads, at an address of its window
/// that is a multiple of 2 together with the translated address, the
/// 16-bit value that its target reads at the translated address.
pub proof fn lemma_remap_reads_target_u16(
    heap: &GlobalHeap,
    remap: &Region,
    target: &Region,
    window: MemInfo,
    addr: u64,
    value: u16,
)
    requires
        remap.wf(),
        target.wf(),
        remap.remaps(*target, window),
        remap.window().contains_range(addr as int, 2),
        addr % 2 == 0,
        (addr - remap.window().base + window.base) % 2 == 0,
        heap.backs(target),
    ensures
        remap.was_read_u16(heap, addr, Ok(value)) <==> target.was_read_u16(
            heap,
            (addr - remap.window().base + window.base) as u64,
            Ok(value),
        ),
{
    lemma_remap_bytes_are_target_bytes(heap, remap, target, window, addr, 2);
}

/// A remap whose target the heap backs reads, at an address of its window
/// that is a multiple of 4 together with the translated address, the
/// 32-bit value that its target reads at the translated address.
pub proof fn lemma_remap_reads_target_u32(
    heap: &GlobalHeap,
    remap: &Region,
    target: &Region,
    window: MemInfo,
    addr: u64,
    value: u32,
)
    requires
        remap.wf(),
        target.wf(),
        remap.remaps(*target, window),
        remap.window().contains_range(addr as int, 4),
        addr % 4 == 0,
        (addr - remap.window().base + window.base) % 4 == 0,
        heap.backs(target),
    ensures
        remap.was_read_u32(heap, addr, Ok(value)) <==> target.was_read_u32(
            heap,
            (addr - remap.window().base + window.base) as u64,
            Ok(value),
        ),
{
    lemma_remap_bytes_are_target_bytes(heap, remap, target, window, addr, 4);
}

/// A remap whose target the heap backs reads, at an address of its window
/// that is a multiple of 8 together with the translated address, the
/// 64-bit value that its target reads at the translated address.
pub proof fn lemma_remap_reads_target_u64(
    heap: &GlobalHeap,
    remap: &Region,
    target: &Region,
    window: MemInfo,
    addr: u64,
    value: u64,
)
    requires
        remap.wf(),
        target.wf(),
        remap.remaps(*target, window),
        remap.window().contains_range(addr as int, 8),
        addr % 8 == 0,
        (addr - remap.window().base + window.base) % 8 == 0,
        heap.backs(target),
    ensures
        remap.was_read_u64(heap, addr, Ok(value)) <==> target.was_read_u64(
            heap,
            (addr - remap.window().base + window.base) as u64,
            Ok(value),
        ),
{
    lemma_remap_bytes_are_target_bytes(heap, remap, target, window, addr, 8);
}

} // verus!

//! The split virtqueue: a descriptor table, an available ring and a used
//! ring in guest memory, with the driver's and the device's side of it.

use vstd::prelude::*;
use vstd::bytes::{
    spec_u16_from_le_bytes, spec_u16_to_le_bytes, spec_u32_from_le_bytes, spec_u32_to_le_bytes,
    spec_u64_from_le_bytes, spec_u64_to_le_bytes, u16_from_le_bytes, u16_to_le_bytes,
    u32_from_le_bytes, u32_to_le_bytes, u64_from_le_bytes, u64_to_le_bytes,
};
use vstd::slice::slice_subrange;
use std::rc::Rc;
use crate::memory::region;
use crate::irq::IrqVec;
use crate::memory::MemInfo;
use crate::memory::allocator::{can_fit, fit_all, fit_base, free_after_fit};
use crate::memory::valid_align;
use crate::memory::region::{share, BytesAccess, GlobalHeap, Heap, Region};
use crate::virtio::{DESC_F_NEXT, DESC_F_WRITE};

verus! {

/// Why an operation on a queue failed.
#[derive(Debug, PartialEq, Eq)]
pub enum Error {
    InvalidDesc(String),
    InvalidAvail(String),
    InvalidUsed(String),
    InvalidInit(String),
    ServerError(String),
    ClientError(String),
    NotReady,
    MemError(region::Error),
}

pub type Result<T> = std::result::Result<T, Error>;

/// What a queue is made with.
#[derive(Copy, Clone, Debug, PartialEq, Eq, Structural)]
pub struct QueueSetting {
    pub max_queue_size: u16,
}

/// A descriptor: a buffer in guest memory and the link to the next
/// descriptor of its chain. In memory it takes 16 bytes: the address, the
/// length, the flags and the link, each little-endian.
#[derive(Debug, Copy, Clone, PartialEq, Eq, Structural)]
pub struct DescMeta {
    pub addr: u64,
    pub len: u32,
    pub flags: u16,
    pub next: u16,
}

/// The size of a descriptor in memory.
pub const DESC_SIZE: usize = 16;

/// The size of the header of a ring in memory.
pub const RING_HEADER_SIZE: usize = 4;

/// The size of an element of the available ring in memory.
pub const AVAIL_ELEM_SIZE: usize = 2;

/// The size of an element of the used ring in memory.
pub const USED_ELEM_SIZE: usize = 8;

impl DescMeta {
    /// The descriptor with every field zero.
    pub fn empty() -> (d: DescMeta)
        ensures
            d == (DescMeta { addr: 0, len: 0, flags: 0, next: 0 }),
    {
        DescMeta { addr: 0, len: 0, flags: 0, next: 0 }
    }

    /// The 16 bytes of the descriptor in memory.
    pub open spec fn bytes(self) -> Seq<u8> {
        spec_u64_to_le_bytes(self.addr) + spec_u32_to_le_bytes(self.len) + spec_u16_to_le_bytes(
            self.flags,
        ) + spec_u16_to_le_bytes(self.next)
    }

    /// The descriptor that 16 bytes in memory hold.
    pub open spec fn from_bytes(s: Seq<u8>) -> DescMeta {
        DescMeta {
            addr: spec_u64_from_le_bytes(s.subrange(0, 8)),
            len: spec_u32_from_le_bytes(s.subrange(8, 12)),
            flags: spec_u16_from_le_bytes(s.subrange(12, 14)),
            next: spec_u16_from_le_bytes(s.subrange(14, 16)),
        }
    }

    /// Whether the descriptor continues in another one.
    pub open spec fn has_next(self) -> bool {
        self.flags & DESC_F_NEXT == DESC_F_NEXT
    }

    /// Writes the descriptor out as it lies in memory.
    pub fn encode(&self) -> (v: Vec<u8>)
        ensures
            v@ == self.bytes(),
            v@.len() == 16,
    {
        proof {
            vstd::bytes::lemma_auto_spec_u64_to_from_le_bytes();
            vstd::bytes::lemma_auto_spec_u32_to_from_le_bytes();
            vstd::bytes::lemma_auto_spec_u16_to_from_le_bytes();
        }
        let mut v: Vec<u8> = u64_to_le_bytes(self.addr);
        let mut len: Vec<u8> = u32_to_le_bytes(self.len);
        let mut flags: Vec<u8> = u16_to_le_bytes(self.flags);
        let mut next: Vec<u8> = u16_to_le_bytes(self.next);
        v.append(&mut len);
        v.append(&mut flags);
        v.append(&mut next);
        v
    }

    /// Reads a descriptor from the 16 bytes that hold it in memory.
    pub fn decode(s: &[u8]) -> (d: DescMeta)
        requires
            s@.len() == 16,
        ensures
            d == DescMeta::from_bytes(s@),
    {
        DescMeta {
            addr: u64_from_le_bytes(slice_subrange(s, 0, 8)),
            len: u32_from_le_bytes(slice_subrange(s, 8, 12)),
            flags: u16_from_le_bytes(slice_subrange(s, 12, 14)),
            next: u16_from_le_bytes(slice_subrange(s, 14, 16)),
        }
    }

    /// A descriptor written out and read back is the same descriptor.
    pub proof fn lemma_bytes_round_trip(self)
        ensures
            self.bytes().len() == 16,
            DescMeta::from_bytes(self.bytes()) == self,
    {
        vstd::bytes::lemma_auto_spec_u64_to_from_le_bytes();
        vstd::bytes::lemma_auto_spec_u32_to_from_le_bytes();
        vstd::bytes::lemma_auto_spec_u16_to_from_le_bytes();
        let s = self.bytes();
        assert(s.subrange(0, 8) =~= spec_u64_to_le_bytes(self.addr));
        assert(s.subrange(8, 12) =~= spec_u32_to_le_bytes(self.len));
        assert(s.subrange(12, 14) =~= spec_u16_to_le_bytes(self.flags));
        assert(s.subrange(14, 16) =~= spec_u16_to_le_bytes(self.next));
    }
}

/// The header of a ring.
#[derive(Debug, Copy, Clone, PartialEq, Eq, Structural)]
pub struct RingMetaHeader {
    pub flags: u16,
    pub idx: u16,
}

impl RingMetaHeader {
    /// The header with every field zero.
    pub fn empty() -> (h: RingMetaHeader)
        ensures
            h == (RingMetaHeader { flags: 0, idx: 0 }),
    {
        RingMetaHeader { flags: 0, idx: 0 }
    }
}

/// An element of the available ring: the head of a descriptor chain.
pub type RingAvailMetaElem = u16;

/// An element of the used ring: the head of a chain that the device is done
/// with, and the number of bytes it wrote. In memory it takes 8 bytes: the
/// head and the length, each little-endian.
#[derive(Copy, Clone, Debug, PartialEq, Eq, Structural)]
pub struct RingUsedMetaElem {
    pub id: u32,
    pub len: u32,
}

impl RingUsedMetaElem {
    /// The element with every field zero.
    pub fn empty() -> (e: RingUsedMetaElem)
        ensures
            e == (RingUsedMetaElem { id: 0, len: 0 }),
    {
        RingUsedMetaElem { id: 0, len: 0 }
    }

    /// The 8 bytes of the element in memory.
    pub open spec fn bytes(self) -> Seq<u8> {
        spec_u32_to_le_bytes(self.id) + spec_u32_to_le_bytes(self.len)
    }

    /// The element that 8 bytes in memory hold.
    pub open spec fn from_bytes(s: Seq<u8>) -> RingUsedMetaElem {
        RingUsedMetaElem {
            id: spec_u32_from_le_bytes(s.subrange(0, 4)),
            len: spec_u32_from_le_bytes(s.subrange(4, 8)),
        }
    }

    /// Writes the element out as it lies in memory.
    pub fn encode(&self) -> (v: Vec<u8>)
        ensures
            v@ == self.bytes(),
            v@.len() == 8,
    {
        proof {
            vstd::bytes::lemma_auto_spec_u32_to_from_le_bytes();
        }
        let mut v: Vec<u8> = u32_to_le_bytes(self.id);
        let mut len: Vec<u8> = u32_to_le_bytes(self.len);
        v.append(&mut len);
        v
    }

    /// Reads an element from the 8 bytes that hold it in memory.
    pub fn decode(s: &[u8]) -> (e: RingUsedMetaElem)
        requires
            s@.len() == 8,
        ensures
            e == RingUsedMetaElem::from_bytes(s@),
    {
        RingUsedMetaElem {
            id: u32_from_le_bytes(slice_subrange(s, 0, 4)),
            len: u32_from_le_bytes(slice_subrange(s, 4, 8)),
        }
    }

    /// An element written out and read back is the same element.
    pub proof fn lemma_bytes_round_trip(self)
        ensures
            self.bytes().len() == 8,
            RingUsedMetaElem::from_bytes(self.bytes()) == self,
    {
        vstd::bytes::lemma_auto_spec_u32_to_from_le_bytes();
        let s = self.bytes();
        assert(s.subrange(0, 4) =~= spec_u32_to_le_bytes(self.id));
        assert(s.subrange(4, 8) =~= spec_u32_to_le_bytes(self.len));
    }
}

/// The fields of a queue, but for its memory.
pub struct QueueState {
    pub max_queue_size: u16,
    pub ready: bool,
    pub queue_size: u16,
    pub last_avail_idx: u16,
    pub desc_addr: u64,
    pub avail_addr: u64,
    pub used_addr: u64,
}

/// A split virtqueue: where its three tables lie in `memory`, how many
/// descriptors it has, and how far the device has read the available ring.
pub struct Queue {
    setting: QueueSetting,
    memory: Rc<Region>,
    ready: bool,
    queue_size: u16,
    last_avail_idx: u16,
    desc_addr: u64,
    avail_addr: u64,
    used_addr: u64,
}

impl Queue {
    /// The fields of the queue.
    pub closed spec fn view(&self) -> QueueState {
        QueueState {
            max_queue_size: self.setting.max_queue_size,
            ready: self.ready,
            queue_size: self.queue_size,
            last_avail_idx: self.last_avail_idx,
            desc_addr: self.desc_addr,
            avail_addr: self.avail_addr,
            used_addr: self.used_addr,
        }
    }

    /// The region in which the tables lie.
    pub closed spec fn memory(&self) -> Region {
        *self.memory
    }

    /// The number of descriptors in use: the size that the driver set, but
    /// at most the size that the queue was made with.
    pub open spec fn size(&self) -> int {
        if self@.queue_size < self@.max_queue_size {
            self@.queue_size as int
        } else {
            self@.max_queue_size as int
        }
    }

    /// The address of descriptor `idx`.
    pub open spec fn desc_pos(&self, idx: int) -> int {
        self@.desc_addr + 16 * idx
    }

    /// The address of the index field of the available ring.
    pub open spec fn avail_idx_pos(&self) -> int {
        self@.avail_addr + 2
    }

    /// The address of the element of the available ring that index `idx`
    /// falls on.
    pub open spec fn avail_pos(&self, idx: int) -> int {
        self@.avail_addr + 4 + (idx % self.size()) * 2
    }

    /// The address of the index field of the used ring.
    pub open spec fn used_idx_pos(&self) -> int {
        self@.used_addr + 2
    }

    /// The address of the element of the used ring that index `idx` falls on.
    pub open spec fn used_pos(&self, idx: int) -> int {
        self@.used_addr + 4 + (idx % self.size()) * 8
    }

    /// Whether the `len` bytes at `pos` are bytes of the queue's memory that
    /// the heap holds.
    pub open spec fn reaches(&self, heap: &GlobalHeap, pos: int, len: int) -> bool {
        &&& 0 <= pos && pos + len <= u64::MAX
        &&& !self.memory().is_io()
        &&& self.memory().fault(heap, pos as u64, len, 1) is None
    }

    /// The `len` bytes at `pos` of the queue's memory.
    pub open spec fn bytes_at(&self, heap: &GlobalHeap, pos: int, len: int) -> Seq<u8> {
        heap.bytes_of(&self.memory(), pos, len)
    }

    /// The descriptor that memory holds at index `idx`.
    pub open spec fn desc_at(&self, heap: &GlobalHeap, idx: int) -> DescMeta {
        DescMeta::from_bytes(self.bytes_at(heap, self.desc_pos(idx), 16))
    }

    /// The index field of the available ring.
    pub open spec fn avail_idx(&self, heap: &GlobalHeap) -> u16 {
        spec_u16_from_le_bytes(self.bytes_at(heap, self.avail_idx_pos(), 2))
    }

    /// The element of the available ring that index `idx` falls on.
    pub open spec fn avail_at(&self, heap: &GlobalHeap, idx: int) -> u16 {
        spec_u16_from_le_bytes(self.bytes_at(heap, self.avail_pos(idx), 2))
    }

    /// The index field of the used ring.
    pub open spec fn used_idx(&self, heap: &GlobalHeap) -> u16 {
        spec_u16_from_le_bytes(self.bytes_at(heap, self.used_idx_pos(), 2))
    }

    /// The element of the used ring that index `idx` falls on.
    pub open spec fn used_at(&self, heap: &GlobalHeap, idx: int) -> RingUsedMetaElem {
        RingUsedMetaElem::from_bytes(self.bytes_at(heap, self.used_pos(idx), 8))
    }

    /// Whether `after` is `before` with `data` written at `pos` of the
    /// queue's memory.
    pub open spec fn stored(
        &self,
        before: &GlobalHeap,
        after: &GlobalHeap,
        pos: int,
        data: Seq<u8>,
    ) -> bool {
        after.wrote(before, &self.memory(), pos, data)
    }

    /// A queue over `memory` with the size of `setting`, not ready, with every
    /// address zero.
    pub fn new(memory: &Rc<Region>, setting: QueueSetting) -> (q: Queue)
        ensures
            q.memory() == **memory,
            q@ == (QueueState {
                max_queue_size: setting.max_queue_size,
                ready: false,
                queue_size: setting.max_queue_size,
                last_avail_idx: 0,
                desc_addr: 0,
                avail_addr: 0,
                used_addr: 0,
            }),
    {
        Queue {
            setting,
            memory: share(memory),
            ready: false,
            queue_size: setting.max_queue_size,
            last_avail_idx: 0,
            desc_addr: 0,
            avail_addr: 0,
            used_addr: 0,
        }
    }

    /// Puts the queue back into the state in which it was made.
    pub fn reset(&mut self)
        ensures
            final(self).memory() == old(self).memory(),
            final(self)@ == (QueueState {
                max_queue_size: old(self)@.max_queue_size,
                ready: false,
                queue_size: old(self)@.max_queue_size,
                last_avail_idx: 0,
                desc_addr: 0,
                avail_addr: 0,
                used_addr: 0,
            }),
    {
        self.ready = false;
        self.last_avail_idx = 0;
        self.queue_size = self.setting.max_queue_size;
        self.desc_addr = 0;
        self.avail_addr = 0;
        self.used_addr = 0;
    }

    /// The region in which the tables lie.
    pub fn get_memory(&self) -> (r: &Rc<Region>)
        ensures
            **r == self.memory(),
    {
        &self.memory
    }

    /// Fails with `InvalidDesc` exactly when `idx` is no index of a
    /// descriptor in use.
    fn check_idx(&self, idx: u16) -> (r: Result<()>)
        ensures
            idx < self.size() ==> r is Ok,
            idx >= self.size() ==> r matches Err(Error::InvalidDesc(_)),
    {
        if idx as usize >= self.get_queue_size() {
            Err(Error::InvalidDesc("invalid desc idx!".to_owned()))
        } else {
            Ok(())
        }
    }

    /// The address of descriptor `idx`; fails with `InvalidDesc` when `idx`
    /// is no index of a descriptor in use or the descriptor would lie past
    /// the end of the address space.
    fn desc_addr(&self, idx: u16) -> (r: Result<u64>)
        ensures
            idx < self.size() && self.desc_pos(idx as int) + 16 <= u64::MAX ==> r == Ok::<
                u64,
                Error,
            >(self.desc_pos(idx as int) as u64),
            !(idx < self.size() && self.desc_pos(idx as int) + 16 <= u64::MAX) ==> r matches Err(
                Error::InvalidDesc(_),
            ),
    {
        match self.check_idx(idx) {
            Ok(()) => {},
            Err(e) => {
                return Err(e);
            },
        }
        let offset: u64 = idx as u64 * 16;
        if self.desc_addr > u64::MAX - 16 - offset {
            return Err(Error::InvalidDesc("descriptor lies past the end of memory".to_owned()));
        }
        Ok(self.desc_addr + offset)
    }

    /// The number of bytes of the descriptor table.
    pub fn desc_table_size(&self) -> (r: usize)
        ensures
            r == 16 * self.size(),
    {
        DESC_SIZE * self.get_queue_size()
    }

    /// The number of bytes of the elements of the available ring.
    pub fn avail_ring_size(&self) -> (r: usize)
        ensures
            r == 2 * self.size(),
    {
        AVAIL_ELEM_SIZE * self.get_queue_size()
    }

    /// The number of bytes of the elements of the used ring.
    pub fn used_ring_size(&self) -> (r: usize)
        ensures
            r == 8 * self.size(),
    {
        USED_ELEM_SIZE * self.get_queue_size()
    }

    /// Whether the `size` bytes at `base` lie inside the queue's memory.
    fn check_range(&self, base: u64, size: u64) -> (r: bool)
        ensures
            r == (self.memory().window().base <= base && base + size
                <= self.memory().window().end()),
    {
        let info = self.memory.info();
        base >= info.base && base - info.base <= info.size && size <= info.size - (base
            - info.base)
    }

    /// Whether the queue is ready.
    pub fn get_ready(&self) -> (r: bool)
        ensures
            r == self@.ready,
    {
        self.ready
    }

    pub fn set_ready(&mut self, ready: bool)
        ensures
            final(self).memory() == old(self).memory(),
            final(self)@ == (QueueState { ready, ..old(self)@ }),
    {
        self.ready = ready
    }

    pub fn get_desc_addr(&self) -> (r: u64)
        ensures
            r == self@.desc_addr,
    {
        self.desc_addr
    }

    pub fn set_desc_addr(&mut self, desc_addr: u64)
        ensures
            final(self).memory() == old(self).memory(),
            final(self)@ == (QueueState { desc_addr, ..old(self)@ }),
    {
        self.desc_addr = desc_addr
    }

    pub fn get_avail_addr(&self) -> (r: u64)
        ensures
            r == self@.avail_addr,
    {
        self.avail_addr
    }

    pub fn set_avail_addr(&mut self, avail_addr: u64)
        ensures
            final(self).memory() == old(self).memory(),
            final(self)@ == (QueueState { avail_addr, ..old(self)@ }),
    {
        self.avail_addr = avail_addr
    }

    pub fn get_used_addr(&self) -> (r: u64)
        ensures
            r == self@.used_addr,
    {
        self.used_addr
    }

    pub fn set_used_addr(&mut self, used_addr: u64)
        ensures
            final(self).memory() == old(self).memory(),
            final(self)@ == (QueueState { used_addr, ..old(self)@ }),
    {
        self.used_addr = used_addr
    }

    /// The number of descriptors in use.
    pub fn get_queue_size(&self) -> (r: usize)
        ensures
            r == self.size(),
            r <= u16::MAX,
    {
        if self.queue_size < self.setting.max_queue_size {
            self.queue_size as usize
        } else {
            self.setting.max_queue_size as usize
        }
    }

    /// The size that the queue was made with.
    pub fn get_queue_max_size(&self) -> (r: u16)
        ensures
            r == self@.max_queue_size,
    {
        self.setting.max_queue_size
    }

    /// Sets the size that the driver asks for.
    pub fn set_queue_size(&mut self, size: u16)
        ensures
            final(self).memory() == old(self).memory(),
            final(self)@ == (QueueState { queue_size: size, ..old(self)@ }),
    {
        self.queue_size = size
    }

    /// How far the device has read the available ring.
    pub fn get_last_avail_idx(&self) -> (r: u16)
        ensures
            r == self@.last_avail_idx,
    {
        self.last_avail_idx
    }

    pub fn set_last_avail_idx(&mut self, idx: u16)
        ensures
            final(self).memory() == old(self).memory(),
            final(self)@ == (QueueState { last_avail_idx: idx, ..old(self)@ }),
    {
        self.last_avail_idx = idx
    }

    /// Reads `len` bytes at `addr` of the queue's memory.
    fn load(&self, heap: &GlobalHeap, addr: u64, len: usize) -> (r: Result<Vec<u8>>)
        ensures
            self.reaches(heap, addr as int, len as int) ==> (r matches Ok(v) && v@
                == self.bytes_at(heap, addr as int, len as int)),
            !self.memory().is_io() && !self.reaches(heap, addr as int, len as int)
                ==> r matches Err(Error::MemError(_)),
            r matches Ok(v) ==> v@.len() == len,
            r is Ok || r matches Err(Error::MemError(_)),
    {
        proof {
            use_type_invariant(&*self.memory);
            self.memory.lemma_window_bounded();
        }
        let mut data: Vec<u8> = vec![0u8; len];
        match BytesAccess::read(&*self.memory, heap, &addr, &mut data) {
            Ok(_) => {
                if data.len() == len {
                    Ok(data)
                } else {
                    Err(
                        Error::MemError(
                            region::Error::AccessErr(
                                addr,
                                "device answered with another length".to_owned(),
                            ),
                        ),
                    )
                }
            },
            Err(e) => Err(Error::MemError(e)),
        }
    }

    /// Writes `data` at `addr` of the queue's memory.
    fn save(&self, heap: &mut GlobalHeap, addr: u64, data: &[u8]) -> (r: Result<()>)
        ensures
            self.reaches(old(heap), addr as int, data@.len() as int) ==> r is Ok && self.stored(
                old(heap),
                final(heap),
                addr as int,
                data@,
            ),
            !self.memory().is_io() && !self.reaches(old(heap), addr as int, data@.len() as int)
                ==> (r matches Err(Error::MemError(_))) && *final(heap) == *old(heap),
            r is Ok || r matches Err(Error::MemError(_)),
    {
        proof {
            use_type_invariant(&*self.memory);
            self.memory.lemma_window_bounded();
        }
        match BytesAccess::write(&*self.memory, heap, &addr, data) {
            Ok(_) => Ok(()),
            Err(e) => Err(Error::MemError(e)),
        }
    }
}

impl Queue {
    /// Bytes written are the bytes read back from the same place, and bytes
    /// that lie apart from them are as before; what could be reached before
    /// can be reached after.
    pub proof fn lemma_stored(
        &self,
        before: &GlobalHeap,
        after: &GlobalHeap,
        pos: int,
        data: Seq<u8>,
    )
        requires
            self.stored(before, after, pos, data),
        ensures
            self.bytes_at(after, pos, data.len() as int) == data,
            forall|p: int, l: int|
                0 <= l && (p + l <= pos || pos + data.len() <= p) ==> #[trigger] self.bytes_at(
                    after,
                    p,
                    l,
                ) == self.bytes_at(before, p, l),
            forall|p: int, l: int| #[trigger]
                self.reaches(after, p, l) == self.reaches(before, p, l),
    {
        assert(self.bytes_at(after, pos, data.len() as int) =~= data);
        assert forall|p: int, l: int|
            0 <= l && (p + l <= pos || pos + data.len() <= p) implies #[trigger] self.bytes_at(
            after,
            p,
            l,
        ) == self.bytes_at(before, p, l) by {
            assert(self.bytes_at(after, p, l) =~= self.bytes_at(before, p, l));
        }
    }

    /// Writes `desc` into the descriptor table at index `idx`. Fails with
    /// `InvalidDesc` when `idx` is no index of a descriptor in use, and with
    /// `MemError` when the descriptor does not lie in bytes of the queue's
    /// memory that the heap holds; a failure changes nothing.
    pub fn set_desc(&self, heap: &mut GlobalHeap, idx: u16, desc: &DescMeta) -> (r: Result<()>)
        ensures
            !(idx < self.size() && self.desc_pos(idx as int) + 16 <= u64::MAX) ==> (
            r matches Err(Error::InvalidDesc(_))) && *final(heap) == *old(heap),
            idx < self.size() && self.reaches(old(heap), self.desc_pos(idx as int), 16) ==> r is Ok
                && self.stored(old(heap), final(heap), self.desc_pos(idx as int), desc.bytes()),
            idx < self.size() && self.desc_pos(idx as int) + 16 <= u64::MAX
                && !self.memory().is_io() && !self.reaches(
                old(heap),
                self.desc_pos(idx as int),
                16,
            ) ==> (r matches Err(Error::MemError(_))) && *final(heap) == *old(heap),
    {
        match self.desc_addr(idx) {
            Ok(addr) => {
                let bytes: Vec<u8> = desc.encode();
                self.save(heap, addr, bytes.as_slice())
            },
            Err(e) => Err(e),
        }
    }

    /// Reads the descriptor at index `idx` of the descriptor table. Fails
    /// with `InvalidDesc` when `idx` is no index of a descriptor in use, and
    /// with `MemError` when the descriptor does not lie in bytes of the
    /// queue's memory that the heap holds.
    pub fn get_desc(&self, heap: &GlobalHeap, idx: u16) -> (r: Result<DescMeta>)
        ensures
            !(idx < self.size() && self.desc_pos(idx as int) + 16 <= u64::MAX) ==> r matches Err(
                Error::InvalidDesc(_),
            ),
            idx < self.size() && self.reaches(heap, self.desc_pos(idx as int), 16) ==> r == Ok::<
                DescMeta,
                Error,
            >(self.desc_at(heap, idx as int)),
            idx < self.size() && self.desc_pos(idx as int) + 16 <= u64::MAX
                && !self.memory().is_io() && !self.reaches(heap, self.desc_pos(idx as int), 16)
                ==> r matches Err(Error::MemError(_)),
    {
        match self.desc_addr(idx) {
            Ok(addr) => {
                match self.load(heap, addr, DESC_SIZE) {
                    Ok(bytes) => Ok(DescMeta::decode(bytes.as_slice())),
                    Err(e) => Err(e),
                }
            },
            Err(e) => Err(e),
        }
    }

    /// Reads the 16-bit value at `addr`; `None` when the value would lie past
    /// the end of the address space.
    fn load_u16(&self, heap: &GlobalHeap, addr: u64, offset: u64) -> (r: Option<Result<u16>>)
        ensures
            addr + offset + 2 > u64::MAX ==> r is None,
            addr + offset + 2 <= u64::MAX ==> r is Some,
            r matches Some(got) ==> {
                &&& self.reaches(heap, addr + offset, 2) ==> got == Ok::<u16, Error>(
                    spec_u16_from_le_bytes(self.bytes_at(heap, addr + offset, 2)),
                )
                &&& !self.memory().is_io() && !self.reaches(heap, addr + offset, 2) ==> (
                got matches Err(Error::MemError(_)))
                &&& (got is Ok || got matches Err(Error::MemError(_)))
            },
    {
        if offset > u64::MAX - 2 || addr > u64::MAX - 2 - offset {
            return None;
        }
        match self.load(heap, addr + offset, 2) {
            Ok(bytes) => Some(Ok(u16_from_le_bytes(bytes.as_slice()))),
            Err(e) => Some(Err(e)),
        }
    }

    /// Writes the 16-bit `value` at `addr + offset`; `None`, changing
    /// nothing, when the value would lie past the end of the address space.
    fn save_u16(&self, heap: &mut GlobalHeap, addr: u64, offset: u64, value: u16) -> (r: Option<
        Result<()>,
    >)
        ensures
            addr + offset + 2 > u64::MAX ==> r is None && *final(heap) == *old(heap),
            addr + offset + 2 <= u64::MAX ==> r is Some,
            r matches Some(got) ==> {
                &&& self.reaches(old(heap), addr + offset, 2) ==> got is Ok && self.stored(
                    old(heap),
                    final(heap),
                    addr + offset,
                    spec_u16_to_le_bytes(value),
                )
                &&& !self.memory().is_io() && !self.reaches(old(heap), addr + offset, 2) ==> (
                got matches Err(Error::MemError(_))) && *final(heap) == *old(heap)
                &&& (got is Ok || got matches Err(Error::MemError(_)))
            },
    {
        if offset > u64::MAX - 2 || addr > u64::MAX - 2 - offset {
            return None;
        }
        let bytes: Vec<u8> = u16_to_le_bytes(value);
        proof {
            vstd::bytes::lemma_auto_spec_u16_to_from_le_bytes();
        }
        Some(self.save(heap, addr + offset, bytes.as_slice()))
    }

    /// The index field of the available ring: the number of chains that the
    /// driver has made available, modulo 2^16. Fails with `InvalidAvail` when
    /// the field would lie past the end of the address space, and with
    /// `MemError` when it does not lie in bytes that the heap holds.
    pub fn get_avail_idx(&self, heap: &GlobalHeap) -> (r: Result<u16>)
        ensures
            self.avail_idx_pos() + 2 > u64::MAX ==> r matches Err(Error::InvalidAvail(_)),
            self.reaches(heap, self.avail_idx_pos(), 2) ==> r == Ok::<u16, Error>(
                self.avail_idx(heap),
            ),
            self.avail_idx_pos() + 2 <= u64::MAX && !self.memory().is_io() && !self.reaches(
                heap,
                self.avail_idx_pos(),
                2,
            ) ==> r matches Err(Error::MemError(_)),
    {
        match self.load_u16(heap, self.avail_addr, 2) {
            Some(r) => r,
            None => Err(Error::InvalidAvail("available ring lies past the end of memory".to_owned())),
        }
    }

    /// Sets the index field of the available ring.
    pub fn set_avail_idx(&self, heap: &mut GlobalHeap, idx: u16) -> (r: Result<()>)
        ensures
            self.avail_idx_pos() + 2 > u64::MAX ==> (r matches Err(Error::InvalidAvail(_)))
                && *final(heap) == *old(heap),
            self.reaches(old(heap), self.avail_idx_pos(), 2) ==> r is Ok && self.stored(
                old(heap),
                final(heap),
                self.avail_idx_pos(),
                spec_u16_to_le_bytes(idx),
            ),
            self.avail_idx_pos() + 2 <= u64::MAX && !self.memory().is_io() && !self.reaches(
                old(heap),
                self.avail_idx_pos(),
                2,
            ) ==> (r matches Err(Error::MemError(_))) && *final(heap) == *old(heap),
    {
        match self.save_u16(heap, self.avail_addr, 2, idx) {
            Some(r) => r,
            None => Err(Error::InvalidAvail("available ring lies past the end of memory".to_owned())),
        }
    }

    /// The offset, from the base of a ring, of the element of `width` bytes
    /// that index `idx` falls on.
    fn elem_offset(&self, idx: u16, width: u64) -> (r: u64)
        requires
            self.size() > 0,
            width == 2 || width == 8,
        ensures
            r == 4 + (idx as int % self.size()) * width,
            r <= 4 + 65535 * 8,
    {
        let n: usize = self.get_queue_size();
        let slot: usize = idx as usize % n;
        assert(slot < 65536);
        assert(slot * width <= 65535 * 8) by (nonlinear_arith)
            requires
                slot <= 65535,
                width <= 8,
        ;
        RING_HEADER_SIZE as u64 + slot as u64 * width
    }

    /// Writes the head `desc_idx` of a chain into the element of the
    /// available ring that index `avail_idx` falls on. Fails with
    /// `InvalidDesc` when `desc_idx` is no index of a descriptor in use, with
    /// `InvalidAvail` when the element would lie past the end of the address
    /// space, and with `MemError` when it does not lie in bytes that the heap
    /// holds; a failure changes nothing.
    pub fn set_avail_desc(&self, heap: &mut GlobalHeap, avail_idx: u16, desc_idx: u16) -> (r:
        Result<()>)
        ensures
            desc_idx >= self.size() ==> (r matches Err(Error::InvalidDesc(_))) && *final(heap)
                == *old(heap),
            desc_idx < self.size() && self.avail_pos(avail_idx as int) + 2 > u64::MAX ==> (
            r matches Err(Error::InvalidAvail(_))) && *final(heap) == *old(heap),
            desc_idx < self.size() && self.reaches(old(heap), self.avail_pos(avail_idx as int), 2)
                ==> r is Ok && self.stored(
                old(heap),
                final(heap),
                self.avail_pos(avail_idx as int),
                spec_u16_to_le_bytes(desc_idx),
            ),
            desc_idx < self.size() && self.avail_pos(avail_idx as int) + 2 <= u64::MAX
                && !self.memory().is_io() && !self.reaches(
                old(heap),
                self.avail_pos(avail_idx as int),
                2,
            ) ==> (r matches Err(Error::MemError(_))) && *final(heap) == *old(heap),
    {
        match self.check_idx(desc_idx) {
            Ok(()) => {},
            Err(e) => {
                return Err(e);
            },
        }
        let offset: u64 = self.elem_offset(avail_idx, 2);
        match self.save_u16(heap, self.avail_addr, offset, desc_idx) {
            Some(r) => r,
            None => Err(Error::InvalidAvail("available ring lies past the end of memory".to_owned())),
        }
    }

    /// Reads the head of a chain from the element of the available ring that
    /// index `avail_idx` falls on. Fails with `InvalidAvail` when the queue
    /// has no descriptors or the element would lie past the end of the
    /// address space, and with `MemError` when it does not lie in bytes that
    /// the heap holds.
    pub fn get_avail_desc(&self, heap: &GlobalHeap, avail_idx: u16) -> (r: Result<u16>)
        ensures
            self.size() == 0 || self.avail_pos(avail_idx as int) + 2 > u64::MAX ==> r matches Err(
                Error::InvalidAvail(_),
            ),
            self.size() > 0 && self.reaches(heap, self.avail_pos(avail_idx as int), 2) ==> r
                == Ok::<
                u16,
                Error,
            >(self.avail_at(heap, avail_idx as int)),
            self.size() > 0 && self.avail_pos(avail_idx as int) + 2 <= u64::MAX
                && !self.memory().is_io() && !self.reaches(
                heap,
                self.avail_pos(avail_idx as int),
                2,
            ) ==> r matches Err(Error::MemError(_)),
    {
        if self.get_queue_size() == 0 {
            return Err(Error::InvalidAvail("the queue has no descriptors".to_owned()));
        }
        let offset: u64 = self.elem_offset(avail_idx, 2);
        match self.load_u16(heap, self.avail_addr, offset) {
            Some(r) => r,
            None => Err(Error::InvalidAvail("available ring lies past the end of memory".to_owned())),
        }
    }

    /// The index field of the used ring: the number of chains that the
    /// device is done with, modulo 2^16. Fails with `InvalidUsed` when the
    /// field would lie past the end of the address space, and with
    /// `MemError` when it does not lie in bytes that the heap holds.
    pub fn get_used_idx(&self, heap: &GlobalHeap) -> (r: Result<u16>)
        ensures
            self.used_idx_pos() + 2 > u64::MAX ==> r matches Err(Error::InvalidUsed(_)),
            self.reaches(heap, self.used_idx_pos(), 2) ==> r == Ok::<u16, Error>(
                self.used_idx(heap),
            ),
            self.used_idx_pos() + 2 <= u64::MAX && !self.memory().is_io() && !self.reaches(
                heap,
                self.used_idx_pos(),
                2,
            ) ==> r matches Err(Error::MemError(_)),
    {
        match self.load_u16(heap, self.used_addr, 2) {
            Some(r) => r,
            None => Err(Error::InvalidUsed("used ring lies past the end of memory".to_owned())),
        }
    }

    /// Sets the index field of the used ring.
    fn set_used_idx(&self, heap: &mut GlobalHeap, idx: u16) -> (r: Result<()>)
        ensures
            self.used_idx_pos() + 2 > u64::MAX ==> (r matches Err(Error::InvalidUsed(_)))
                && *final(heap) == *old(heap),
            self.reaches(old(heap), self.used_idx_pos(), 2) ==> r is Ok && self.stored(
                old(heap),
                final(heap),
                self.used_idx_pos(),
                spec_u16_to_le_bytes(idx),
            ),
            self.used_idx_pos() + 2 <= u64::MAX && !self.memory().is_io() && !self.reaches(
                old(heap),
                self.used_idx_pos(),
                2,
            ) ==> (r matches Err(Error::MemError(_))) && *final(heap) == *old(heap),
    {
        match self.save_u16(heap, self.used_addr, 2, idx) {
            Some(r) => r,
            None => Err(Error::InvalidUsed("used ring lies past the end of memory".to_owned())),
        }
    }

    /// The address of the element of the used ring that index `idx` falls
    /// on; `None` when the element would lie past the end of the address
    /// space.
    fn used_elem_addr(&self, idx: u16) -> (r: Option<u64>)
        requires
            self.size() > 0,
        ensures
            self.used_pos(idx as int) + 8 <= u64::MAX ==> r
                == Some(self.used_pos(idx as int) as u64),
            self.used_pos(idx as int) + 8 > u64::MAX ==> r is None,
    {
        let offset: u64 = self.elem_offset(idx, 8);
        if self.used_addr > u64::MAX - 8 - offset {
            None
        } else {
            Some(self.used_addr + offset)
        }
    }

    /// Reads the element of the used ring that index `used_idx` falls on.
    /// Fails with `InvalidUsed` when the queue has no descriptors or the
    /// element would lie past the end of the address space, and with
    /// `MemError` when it does not lie in bytes that the heap holds.
    pub fn get_used_elem(&self, heap: &GlobalHeap, used_idx: u16) -> (r: Result<RingUsedMetaElem>)
        ensures
            self.size() == 0 || self.used_pos(used_idx as int) + 8 > u64::MAX ==> r matches Err(
                Error::InvalidUsed(_),
            ),
            self.size() > 0 && self.reaches(heap, self.used_pos(used_idx as int), 8) ==> r == Ok::<
                RingUsedMetaElem,
                Error,
            >(self.used_at(heap, used_idx as int)),
            self.size() > 0 && self.used_pos(used_idx as int) + 8 <= u64::MAX
                && !self.memory().is_io() && !self.reaches(
                heap,
                self.used_pos(used_idx as int),
                8,
            ) ==> r matches Err(Error::MemError(_)),
    {
        if self.get_queue_size() == 0 {
            return Err(Error::InvalidUsed("the queue has no descriptors".to_owned()));
        }
        match self.used_elem_addr(used_idx) {
            Some(addr) => {
                match self.load(heap, addr, USED_ELEM_SIZE) {
                    Ok(bytes) => Ok(RingUsedMetaElem::decode(bytes.as_slice())),
                    Err(e) => Err(e),
                }
            },
            None => Err(Error::InvalidUsed("used ring lies past the end of memory".to_owned())),
        }
    }

    /// Writes `elem` into the element of the used ring that index `used_idx`
    /// falls on. Fails with `InvalidDesc` when the head that `elem` names is
    /// no index of a descriptor in use, with `InvalidUsed` when the element
    /// would lie past the end of the address space, and with `MemError` when
    /// it does not lie in bytes that the heap holds; a failure changes
    /// nothing.
    fn set_used_elem(&self, heap: &mut GlobalHeap, used_idx: u16, elem: &RingUsedMetaElem) -> (r:
        Result<()>)
        ensures
            elem.id % 0x1_0000 >= self.size() ==> (r matches Err(Error::InvalidDesc(_)))
                && *final(heap) == *old(heap),
            elem.id % 0x1_0000 < self.size() && self.used_pos(used_idx as int) + 8 > u64::MAX ==> (
            r matches Err(Error::InvalidUsed(_))) && *final(heap) == *old(heap),
            elem.id % 0x1_0000 < self.size() && self.reaches(
                old(heap),
                self.used_pos(used_idx as int),
                8,
            ) ==> r is Ok && self.stored(
                old(heap),
                final(heap),
                self.used_pos(used_idx as int),
                elem.bytes(),
            ),
            elem.id % 0x1_0000 < self.size() && self.used_pos(used_idx as int) + 8 <= u64::MAX
                && !self.memory().is_io() && !self.reaches(
                old(heap),
                self.used_pos(used_idx as int),
                8,
            ) ==> (r matches Err(Error::MemError(_))) && *final(heap) == *old(heap),
    {
        let head: u16 = (elem.id % 0x1_0000) as u16;
        match self.check_idx(head) {
            Ok(()) => {},
            Err(e) => {
                return Err(e);
            },
        }
        match self.used_elem_addr(used_idx) {
            Some(addr) => {
                let bytes: Vec<u8> = elem.encode();
                self.save(heap, addr, bytes.as_slice())
            },
            None => Err(Error::InvalidUsed("used ring lies past the end of memory".to_owned())),
        }
    }

    /// Fails with `NotReady` exactly when the queue is not ready.
    fn check_ready(&self) -> (r: Result<()>)
        ensures
            self@.ready ==> r is Ok,
            !self@.ready ==> r == Err::<(), Error>(Error::NotReady),
    {
        if !self.get_ready() {
            Err(Error::NotReady)
        } else {
            Ok(())
        }
    }

    /// Whether the descriptor table and both rings, header and elements, lie
    /// inside the queue's memory.
    pub open spec fn tables_inside(&self) -> bool {
        let w = self.memory().window();
        &&& w.contains_range(self@.desc_addr as int, 16 * self.size())
        &&& w.contains_range(self@.avail_addr as int, 4 + 2 * self.size())
        &&& w.contains_range(self@.used_addr as int, 4 + 8 * self.size())
    }

    /// Tests whether the queue can be made ready: fails with `InvalidInit`
    /// when it is ready already, or when the descriptor table or a ring does
    /// not lie inside the queue's memory.
    pub fn check_init(&self) -> (r: Result<()>)
        ensures
            !self@.ready && self.tables_inside() ==> r is Ok,
            !(!self@.ready && self.tables_inside()) ==> r matches Err(Error::InvalidInit(_)),
    {
        if self.get_ready() {
            return Err(Error::InvalidInit("init when ready is not unset!".to_owned()));
        }
        if !self.check_range(self.get_desc_addr(), self.desc_table_size() as u64) {
            return Err(Error::InvalidInit("invalid desc addr".to_owned()));
        }
        if !self.check_range(
            self.get_avail_addr(),
            (self.avail_ring_size() + RING_HEADER_SIZE) as u64,
        ) {
            return Err(Error::InvalidInit("invalid avail addr".to_owned()));
        }
        if !self.check_range(
            self.get_used_addr(),
            (self.used_ring_size() + RING_HEADER_SIZE) as u64,
        ) {
            return Err(Error::InvalidInit("invalid used addr".to_owned()));
        }
        Ok(())
    }
}

/// The walk along a chain of descriptors: where it is, and how many
/// descriptors it has passed.
#[derive(Copy, Clone, Debug, PartialEq, Eq, Structural)]
pub struct DescIter {
    /// One more than the number of descriptors passed.
    pub ttl: u32,
    /// The head of the chain.
    pub head: u16,
    /// The index of the descriptor that comes next.
    pub idx: u16,
    /// Whether the last descriptor of the chain has been passed.
    pub last: bool,
}

/// The walk along the available ring, from the first entry that the device
/// has not read to the last one that the driver has written.
#[derive(Copy, Clone, Debug, PartialEq, Eq, Structural)]
pub struct AvailIter {
    /// The index at which the walk ends.
    pub end_idx: u16,
    /// The index of the entry that comes next.
    pub next_idx: u16,
}

/// The text of the error for a chain that does not end within as many
/// descriptors as the queue has.
pub open spec fn endless_chain() -> Seq<char> {
    "infinity descriptor chain"@
}

/// The device's side of a queue: what is done with a chain that the driver
/// has made available.
pub trait QueueClient {
    /// Whether `r`, `heap_after` and `irq_after` are what the client makes
    /// of the chain that begins at `desc_head`: a client that says nothing
    /// here promises nothing.
    open spec fn received(
        &self,
        queue: &Queue,
        heap_before: &GlobalHeap,
        heap_after: &GlobalHeap,
        irq_before: &IrqVec,
        irq_after: &IrqVec,
        desc_head: u16,
        r: Result<bool>,
    ) -> bool {
        true
    }

    /// Handles the chain that begins at `desc_head`. Answers with `true` when
    /// the chain is done with and the next one can follow, with `false` when
    /// the device stops here and will take the chain up again later.
    fn receive(
        &self,
        queue: &Queue,
        heap: &mut GlobalHeap,
        irq: &mut IrqVec,
        desc_head: u16,
    ) -> (r: Result<bool>)
        ensures
            self.received(queue, old(heap), final(heap), old(irq), final(irq), desc_head, r),
    ;
}

impl Queue {
    /// Whether the queue's memory holds bytes that the heap backs, and the
    /// descriptor table and both rings lie inside it.
    pub open spec fn usable(&self, heap: &GlobalHeap) -> bool {
        &&& !self.memory().is_io()
        &&& heap.backs(&self.memory())
        &&& self.memory().window().end() <= u64::MAX
        &&& self.tables_inside()
    }

    /// Whether the queue's memory holds bytes that the heap backs, and the
    /// descriptor table lies inside it: what a walk along a chain needs.
    pub open spec fn walkable(&self, heap: &GlobalHeap) -> bool {
        &&& !self.memory().is_io()
        &&& heap.backs(&self.memory())
        &&& self.memory().window().end() <= u64::MAX
        &&& self.memory().window().contains_range(self@.desc_addr as int, 16 * self.size())
    }

    /// In a walkable queue every descriptor can be reached.
    pub proof fn lemma_walkable_reaches(&self, heap: &GlobalHeap)
        requires
            self.walkable(heap),
        ensures
            forall|i: int|
                0 <= i < self.size() ==> #[trigger] self.reaches(heap, self.desc_pos(i), 16),
    {
    }

    /// Whether the queue's memory holds bytes, and the heap holds them no
    /// longer.
    pub open spec fn lost(&self, heap: &GlobalHeap) -> bool {
        !self.memory().is_io() && !heap.backs(&self.memory())
    }

    /// Nothing of a queue whose memory is lost can be reached.
    pub proof fn lemma_lost_reaches_nothing(&self, heap: &GlobalHeap)
        requires
            self.lost(heap),
        ensures
            forall|p: int, l: int| !#[trigger] self.reaches(heap, p, l),
    {
    }

    /// In a usable queue every descriptor and every field and element of the
    /// rings can be reached.
    pub proof fn lemma_usable_reaches(&self, heap: &GlobalHeap)
        requires
            self.usable(heap),
        ensures
            forall|i: int|
                0 <= i < self.size() ==> #[trigger] self.reaches(heap, self.desc_pos(i), 16),
            self.reaches(heap, self.avail_idx_pos(), 2),
            self.reaches(heap, self.used_idx_pos(), 2),
            self.size() > 0 ==> forall|i: int|
                0 <= i ==> #[trigger] self.reaches(heap, self.avail_pos(i), 2),
            self.size() > 0 ==> forall|i: int|
                0 <= i ==> #[trigger] self.reaches(heap, self.used_pos(i), 8),
    {
        let n = self.size();
        if n > 0 {
            assert forall|i: int| 0 <= i implies #[trigger] self.reaches(
                heap,
                self.avail_pos(i),
                2,
            ) by {
                assert(0 <= i % n < n) by (nonlinear_arith)
                    requires
                        n > 0,
                        i >= 0,
                ;
            }
            assert forall|i: int| 0 <= i implies #[trigger] self.reaches(
                heap,
                self.used_pos(i),
                8,
            ) by {
                assert(0 <= i % n < n) by (nonlinear_arith)
                    requires
                        n > 0,
                        i >= 0,
                ;
            }
        }
    }

    /// Records that the device is done with the chain whose head is
    /// `desc_idx` and wrote `len` bytes: the element goes into the used ring
    /// at the ring's index, and the index goes up by one, modulo 2^16. Fails
    /// with `NotReady`, changing nothing, when the queue is not ready, and
    /// with `InvalidDesc`, changing nothing, when `desc_idx` is no index of a
    /// descriptor in use.
    pub fn set_used(&self, heap: &mut GlobalHeap, desc_idx: u16, len: u32) -> (r: Result<()>)
        ensures
            !self@.ready ==> r == Err::<(), Error>(Error::NotReady) && *final(heap) == *old(heap),
            self@.ready && self.usable(old(heap)) && desc_idx >= self.size() ==> (
            r matches Err(Error::InvalidDesc(_))) && *final(heap) == *old(heap),
            self@.ready && self.usable(old(heap)) && desc_idx < self.size() ==> r is Ok
                && self.marked_used(old(heap), final(heap), desc_idx, len),
            self.lost(old(heap)) ==> r is Err && *final(heap) == *old(heap),
    {
        match self.check_ready() {
            Ok(()) => {},
            Err(e) => {
                return Err(e);
            },
        }
        proof {
            if self.usable(heap) {
                self.lemma_usable_reaches(heap);
            }
            if self.lost(heap) {
                self.lemma_lost_reaches_nothing(heap);
            }
        }
        let used_idx: u16 = match self.get_used_idx(heap) {
            Ok(i) => i,
            Err(e) => {
                return Err(e);
            },
        };
        let used_elem = RingUsedMetaElem { id: desc_idx as u32, len };
        match self.set_used_elem(heap, used_idx, &used_elem) {
            Ok(()) => {},
            Err(e) => {
                return Err(e);
            },
        }
        let ghost mid = *heap;
        proof {
            if self.usable(old(heap)) {
                self.lemma_stored(old(heap), &mid, self.used_pos(used_idx as int),
                    used_elem.bytes());
            }
        }
        self.set_used_idx(heap, used_idx.wrapping_add(1))
    }

    /// Whether `after` is `before` with the element for the chain `desc_idx`
    /// and `len` bytes written into the used ring at the ring's index, and
    /// the index then raised by one.
    pub open spec fn marked_used(
        &self,
        before: &GlobalHeap,
        after: &GlobalHeap,
        desc_idx: u16,
        len: u32,
    ) -> bool {
        let at = self.used_idx(before);
        exists|mid: GlobalHeap|
            {
                &&& #[trigger] self.stored(
                    before,
                    &mid,
                    self.used_pos(at as int),
                    (RingUsedMetaElem { id: desc_idx as u32, len }).bytes(),
                )
                &&& self.stored(
                    &mid,
                    after,
                    self.used_idx_pos(),
                    spec_u16_to_le_bytes(if at == 0xffff {
                        0u16
                    } else {
                        (at + 1) as u16
                    }),
                )
            }
    }

    /// A walk along the chain that begins at `idx`.
    pub fn desc_iter(&self, idx: u16) -> (it: DescIter)
        ensures
            it == (DescIter { ttl: 1, head: idx, idx, last: false }),
            it.budget(self) <= self.size() + 1,
    {
        DescIter::new(idx)
    }

    /// A walk along the entries of the available ring that the device has
    /// not read yet. Fails as [`Queue::get_avail_idx`] does.
    pub fn avail_iter(&self, heap: &GlobalHeap) -> (r: Result<AvailIter>)
        ensures
            self.avail_idx_pos() + 2 > u64::MAX ==> r matches Err(Error::InvalidAvail(_)),
            self.reaches(heap, self.avail_idx_pos(), 2) ==> r == Ok::<AvailIter, Error>(
                AvailIter { end_idx: self.avail_idx(heap), next_idx: self@.last_avail_idx },
            ),
            self.avail_idx_pos() + 2 <= u64::MAX && !self.memory().is_io() && !self.reaches(
                heap,
                self.avail_idx_pos(),
                2,
            ) ==> r matches Err(Error::MemError(_)),
    {
        match self.get_avail_idx(heap) {
            Ok(end) => Ok(AvailIter::new(end, self.last_avail_idx)),
            Err(e) => Err(e),
        }
    }

    /// The chain that begins at `idx`, if it ends within `fuel` descriptors
    /// and names only descriptors in use: each descriptor with its index, in
    /// the order of the links.
    pub open spec fn walk(&self, heap: &GlobalHeap, idx: u16, fuel: nat) -> Option<
        Seq<(u16, DescMeta)>,
    >
        decreases fuel,
    {
        if fuel == 0 || idx >= self.size() {
            None
        } else {
            let d = self.desc_at(heap, idx as int);
            if !d.has_next() {
                Some(seq![(idx, d)])
            } else {
                match self.walk(heap, d.next, (fuel - 1) as nat) {
                    Some(rest) => Some(seq![(idx, d)] + rest),
                    None => None,
                }
            }
        }
    }

    /// A chain that a walk finds has at most as many descriptors as the walk
    /// had fuel, begins at the index at which the walk began, and holds each
    /// descriptor of the table under its index.
    pub proof fn lemma_walk_is_bounded(&self, heap: &GlobalHeap, idx: u16, fuel: nat)
        ensures
            self.walk(heap, idx, fuel) matches Some(c) ==> 1 <= c.len() <= fuel && c[0].0 == idx
                && !c.last().1.has_next() && forall|k: int|
                0 <= k < c.len() ==> (#[trigger] c[k]).0 < self.size() && c[k].1 == self.desc_at(
                    heap,
                    c[k].0 as int,
                ),
        decreases fuel,
    {
        if fuel > 0 && idx < self.size() {
            let d = self.desc_at(heap, idx as int);
            if d.has_next() {
                self.lemma_walk_is_bounded(heap, d.next, (fuel - 1) as nat);
            }
        }
    }

    /// Walks the chain that begins at `head` to its end, as
    /// [`DescIter::next`] does step by step. The walk passes at most as many
    /// descriptors as the queue has in use: a chain that has not ended by
    /// then, as one that runs in a circle, fails with `InvalidDesc`, and so
    /// does one that names a descriptor that is not in use. Only the
    /// descriptor table has to lie inside memory.
    pub fn desc_chain(&self, heap: &GlobalHeap, head: u16) -> (r: Result<Vec<(u16, DescMeta)>>)
        ensures
            r matches Ok(v) ==> 1 <= v@.len() <= self.size(),
            self.walkable(heap) ==> match self.walk(heap, head, self.size() as nat) {
                Some(c) => r matches Ok(v) && v@ == c,
                None => r matches Err(Error::InvalidDesc(_)),
            },
            self.lost(heap) ==> r is Err,
    {
        proof {
            if self.lost(heap) {
                self.lemma_lost_reaches_nothing(heap);
            }
            if self.walkable(heap) {
                self.lemma_walkable_reaches(heap);
            }
        }
        let mut it: DescIter = self.desc_iter(head);
        let mut out: Vec<(u16, DescMeta)> = Vec::new();
        let n: usize = self.get_queue_size();
        loop
            invariant
                n == self.size(),
                it.ttl == out@.len() + 1,
                out@.len() <= n,
                it.last ==> out@.len() >= 1,
                self.lost(heap) ==> out@.len() == 0 && !it.last,
                self.lost(heap) ==> forall|p: int, l: int| !#[trigger] self.reaches(heap, p, l),
                self.walkable(heap) ==> forall|i: int|
                    0 <= i < self.size() ==> #[trigger] self.reaches(heap, self.desc_pos(i), 16),
                self.walkable(heap) ==> if it.last {
                    self.walk(heap, head, n as nat) == Some(out@)
                } else {
                    self.walk(heap, head, n as nat) == match self.walk(
                        heap,
                        it.idx,
                        (n - out@.len()) as nat,
                    ) {
                        Some(rest) => Some(out@ + rest),
                        None => None,
                    }
                },
            decreases n + 1 - out@.len() + if it.last { 0int } else { 1int },
        {
            let ghost before = it;
            let ghost so_far = out@;
            match it.next(self, heap) {
                None => {
                    return Ok(out);
                },
                Some(Err(e)) => {
                    return Err(e);
                },
                Some(Ok(item)) => {
                    out.push(item);
                    proof {
                        if self.walkable(heap) {
                            let d = self.desc_at(heap, before.idx as int);
                            let fuel = (n - so_far.len()) as nat;
                            assert(item == (before.idx, d));
                            if !d.has_next() {
                                assert(self.walk(heap, before.idx, fuel) == Some(seq![item]));
                                assert(out@ =~= so_far + seq![item]);
                            } else {
                                match self.walk(heap, d.next, (fuel - 1) as nat) {
                                    Some(rest) => {
                                        assert(so_far + (seq![item] + rest) =~= out@ + rest);
                                    },
                                    None => {},
                                }
                            }
                        }
                    }
                },
            }
        }
    }

    /// Takes note of what the client made of a chain: after `Ok(true)` the
    /// device has read one more entry of the available ring and goes on; after
    /// anything else it stops where it is.
    pub fn advance(&mut self, outcome: &Result<bool>) -> (go_on: bool)
        ensures
            final(self).memory() == old(self).memory(),
            go_on == (*outcome == Ok::<bool, Error>(true)),
            final(self)@ == (QueueState {
                last_avail_idx: if go_on {
                    if old(self)@.last_avail_idx == 0xffff {
                        0u16
                    } else {
                        (old(self)@.last_avail_idx + 1) as u16
                    }
                } else {
                    old(self)@.last_avail_idx
                },
                ..old(self)@
            }),
    {
        match outcome {
            Ok(true) => {
                self.last_avail_idx = self.last_avail_idx.wrapping_add(1);
                true
            },
            _ => false,
        }
    }

    /// What a notification makes of the client's answer to a chain. After
    /// `Ok(true)` the device has read one more entry of the available ring,
    /// and the notification goes on: the answer is `None`. After `Ok(false)`
    /// the notification ends with `Ok`, and after an error it ends with that
    /// error; in both cases the device stays where it is.
    pub fn settle(&mut self, outcome: Result<bool>) -> (r: Option<Result<()>>)
        ensures
            final(self).memory() == old(self).memory(),
            match outcome {
                Ok(true) => r is None && final(self)@ == (QueueState {
                    last_avail_idx: if old(self)@.last_avail_idx == 0xffff {
                        0u16
                    } else {
                        (old(self)@.last_avail_idx + 1) as u16
                    },
                    ..old(self)@
                }),
                Ok(false) => r == Some(Ok::<(), Error>(())) && final(self)@ == old(self)@,
                Err(e) => r == Some(Err::<(), Error>(e)) && final(self)@ == old(self)@,
            },
    {
        if self.advance(&outcome) {
            None
        } else {
            match outcome {
                Ok(_) => Some(Ok(())),
                Err(e) => Some(Err(e)),
            }
        }
    }

    /// Hands the chains that the driver has made available to `client`, one
    /// after the other, from the first that the device has not read up to the
    /// ring's index as it is when the call begins. After each chain that the
    /// client is done with the device has read one entry more; at the first
    /// chain at which the client stops or fails the call ends, with the
    /// client's error if it failed: each entry is read as [`AvailIter::next`]
    /// says, and each answer of the client is dealt with as
    /// [`Queue::settle`] says. Where the call ends before the client is
    /// asked, as [`Queue::ends_early`] says, nothing is changed: it fails
    /// with `NotReady` when the queue is not ready, with `InvalidAvail` or
    /// `MemError` when the index of the ring or the entry that is next cannot
    /// be read, and succeeds when the driver has made nothing available.
    pub fn notify_client<C: QueueClient + ?Sized>(
        &mut self,
        heap: &mut GlobalHeap,
        irq: &mut IrqVec,
        client: &C,
    ) -> (r: Result<()>)
        ensures
            final(self).memory() == old(self).memory(),
            final(self)@ == (QueueState {
                last_avail_idx: final(self)@.last_avail_idx,
                ..old(self)@
            }),
            old(self).ends_early(old(heap)) matches Some(early) ==> {
                &&& early.answered(r)
                &&& *final(heap) == *old(heap)
                &&& *final(irq) == *old(irq)
                &&& final(self)@ == old(self)@
            },
            old(self)@.ready && !old(self).memory().is_io() && old(self).reaches(
                old(heap),
                old(self).avail_idx_pos(),
                2,
            ) ==> old(self).served(
                client,
                old(self).avail_idx(old(heap)),
                *old(heap),
                *old(irq),
                final(self)@.last_avail_idx,
                *final(heap),
                *final(irq),
                r,
            ),
    {
        match self.check_ready() {
            Ok(()) => {},
            Err(e) => {
                return Err(e);
            },
        }
        let mut it: AvailIter = match self.avail_iter(heap) {
            Ok(it) => it,
            Err(e) => {
                return Err(e);
            },
        };
        let ghost mut fresh: bool = true;
        let ghost plain: bool = !old(self).memory().is_io() && old(self).reaches(
            old(heap),
            old(self).avail_idx_pos(),
            2,
        );
        let ghost end: u16 = old(self).avail_idx(old(heap));
        loop
            invariant
                old(self)@.ready,
                self.memory() == old(self).memory(),
                self@ == (QueueState { last_avail_idx: self@.last_avail_idx, ..old(self)@ }),
                old(self).avail_idx_pos() + 2 <= u64::MAX,
                !fresh ==> old(self).ends_early(old(heap)) is None,
                fresh ==> {
                    &&& *heap == *old(heap)
                    &&& *irq == *old(irq)
                    &&& self@ == old(self)@
                    &&& old(self).memory().is_io() || {
                        &&& old(self).reaches(old(heap), old(self).avail_idx_pos(), 2)
                        &&& it.end_idx == old(self).avail_idx(old(heap))
                        &&& it.next_idx == old(self)@.last_avail_idx
                    }
                },
                plain == (!old(self).memory().is_io() && old(self).reaches(
                    old(heap),
                    old(self).avail_idx_pos(),
                    2,
                )),
                end == old(self).avail_idx(old(heap)),
                plain ==> it.end_idx == end && it.next_idx == self@.last_avail_idx,
                plain ==> forall|last: u16, ha: GlobalHeap, ia: IrqVec, r: Result<()>| #[trigger]
                    self.served(client, end, *heap, *irq, last, ha, ia, r) ==> old(self).served(
                        client,
                        end,
                        *old(heap),
                        *old(irq),
                        last,
                        ha,
                        ia,
                        r,
                    ),
            decreases it.remaining(),
        {
            let ghost q0 = *self;
            let ghost h0 = *heap;
            let ghost i0 = *irq;
            let head: u16 = match it.next(self, heap) {
                None => {
                    let r = Ok(());
                    proof {
                        if plain {
                            assert(self.served(
                                client,
                                end,
                                *heap,
                                *irq,
                                self@.last_avail_idx,
                                *heap,
                                *irq,
                                r,
                            ));
                        }
                    }
                    return r;
                },
                Some(Err(e)) => {
                    let r = Err(e);
                    proof {
                        if plain {
                            assert(self.served(
                                client,
                                end,
                                *heap,
                                *irq,
                                self@.last_avail_idx,
                                *heap,
                                *irq,
                                r,
                            ));
                        }
                    }
                    return r;
                },
                Some(Ok(head)) => head,
            };
            proof {
                fresh = false;
            }
            let outcome: Result<bool> = client.receive(self, heap, irq, head);
            let ghost given = outcome;
            match self.settle(outcome) {
                Some(r) => {
                    proof {
                        if plain {
                            assert(client.received(&q0, &h0, heap, &i0, irq, head, given));
                            assert(q0.served(
                                client,
                                end,
                                h0,
                                i0,
                                self@.last_avail_idx,
                                *heap,
                                *irq,
                                r,
                            ));
                        }
                    }
                    return r;
                },
                None => {
                    proof {
                        if plain {
                            assert(*self == q0.moved_to(following(q0@.last_avail_idx)));
                            assert forall|last: u16, ha: GlobalHeap, ia: IrqVec, r: Result<()>|
                                #[trigger] self.served(
                                    client,
                                    end,
                                    *heap,
                                    *irq,
                                    last,
                                    ha,
                                    ia,
                                    r,
                                ) implies old(self).served(
                                client,
                                end,
                                *old(heap),
                                *old(irq),
                                last,
                                ha,
                                ia,
                                r,
                            ) by {
                                assert(client.received(&q0, &h0, heap, &i0, irq, head, given));
                                assert(q0.served(client, end, h0, i0, last, ha, ia, r));
                            }
                        }
                    }
                },
            }
        }
    }
}

impl Queue {
    /// In a usable queue a notification ends early in three cases only: the
    /// queue is not ready, the driver has made nothing available, or the
    /// queue has no descriptors.
    pub proof fn lemma_usable_ends_early(&self, heap: &GlobalHeap)
        requires
            self.usable(heap),
        ensures
            self.ends_early(heap) == if !self@.ready {
                Some(Early::NotReady)
            } else if self.avail_idx(heap) == self@.last_avail_idx {
                Some(Early::Idle)
            } else if self.size() == 0 {
                Some(Early::InvalidAvail)
            } else {
                None
            },
    {
        self.lemma_usable_reaches(heap);
    }
}

/// The index that follows `idx` in a ring: one more, modulo 2^16.
pub open spec fn following(idx: u16) -> u16 {
    if idx == 0xffff {
        0u16
    } else {
        (idx + 1) as u16
    }
}

/// The number of entries of a ring from index `next` up to index `end`.
pub open spec fn ahead(end: u16, next: u16) -> int {
    if end >= next {
        end - next
    } else {
        end - next + 0x1_0000
    }
}

impl Queue {
    /// This queue with the device having read the available ring up to
    /// `idx`.
    pub closed spec fn moved_to(&self, idx: u16) -> Queue {
        Queue { last_avail_idx: idx, ..*self }
    }

    /// A queue that has moved differs in the place up to which the device
    /// has read, and in nothing else.
    pub proof fn lemma_moved_to(&self, idx: u16)
        ensures
            self.moved_to(idx)@ == (QueueState { last_avail_idx: idx, ..self@ }),
            self.moved_to(idx).memory() == self.memory(),
            self.moved_to(self@.last_avail_idx) == *self,
    {
    }

    /// Whether `last`, `heap_after`, `irq_after` and `r` are what a
    /// notification makes of this queue, `heap` and `irq` when it hands the
    /// entries of the available ring up to index `end` to `client`: the place
    /// up to which the device has then read, the heap, the interrupts and the
    /// answer. With no entry left it ends with `Ok`. An entry that cannot be
    /// read ends it with `InvalidAvail` or `MemError`. Else the client is
    /// handed the chain that the entry names, in the queue as it then is:
    /// after `Ok(true)` the device has read the entry and the notification
    /// goes on from what the client left; after `Ok(false)` it ends with
    /// `Ok`, and after an error with that error, where the client left off.
    pub open spec fn served<C: QueueClient + ?Sized>(
        &self,
        client: &C,
        end: u16,
        heap: GlobalHeap,
        irq: IrqVec,
        last: u16,
        heap_after: GlobalHeap,
        irq_after: IrqVec,
        r: Result<()>,
    ) -> bool
        decreases ahead(end, self@.last_avail_idx),
    {
        let next = self@.last_avail_idx;
        if next == end {
            r is Ok && last == next && heap_after == heap && irq_after == irq
        } else if self.size() == 0 || self.avail_pos(next as int) + 2 > u64::MAX {
            (r matches Err(Error::InvalidAvail(_))) && last == next && heap_after == heap
                && irq_after == irq
        } else if !self.reaches(&heap, self.avail_pos(next as int), 2) {
            (r matches Err(Error::MemError(_))) && last == next && heap_after == heap
                && irq_after == irq
        } else {
            exists|mid: GlobalHeap, irq_mid: IrqVec, outcome: Result<bool>|
                {
                    &&& #[trigger] client.received(
                        self,
                        &heap,
                        &mid,
                        &irq,
                        &irq_mid,
                        self.avail_at(&heap, next as int),
                        outcome,
                    )
                    &&& match outcome {
                        Ok(true) => self.moved_to(following(next)).served(
                            client,
                            end,
                            mid,
                            irq_mid,
                            last,
                            heap_after,
                            irq_after,
                            r,
                        ),
                        Ok(false) => r is Ok && last == next && heap_after == mid && irq_after
                            == irq_mid,
                        Err(e) => r == Err::<(), Error>(e) && last == next && heap_after == mid
                            && irq_after == irq_mid,
                    }
                }
        }
    }
}

/// How a notification ends when it never comes to ask the client.
pub enum Early {
    /// The queue is not ready.
    NotReady,
    /// The available ring cannot be where the queue has it.
    InvalidAvail,
    /// The available ring lies in no bytes that the heap holds.
    MemError,
    /// The driver has made nothing available.
    Idle,
}

impl Early {
    /// Whether `r` is the answer of a notification that ended this way.
    pub open spec fn answered(&self, r: Result<()>) -> bool {
        match self {
            Early::NotReady => r == Err::<(), Error>(Error::NotReady),
            Early::InvalidAvail => r matches Err(Error::InvalidAvail(_)),
            Early::MemError => r matches Err(Error::MemError(_)),
            Early::Idle => r is Ok,
        }
    }
}

impl Queue {
    /// How a notification of this queue ends before the client is asked, if
    /// it does: the queue is not ready, the index field of the available ring
    /// or the element that is next cannot be read, or the index field is
    /// where the queue has stopped reading. `None` where the client is asked,
    /// and where the queue's memory is a device, which alone decides then.
    pub open spec fn ends_early(&self, heap: &GlobalHeap) -> Option<Early> {
        let next = self@.last_avail_idx as int;
        if !self@.ready {
            Some(Early::NotReady)
        } else if self.avail_idx_pos() + 2 > u64::MAX {
            Some(Early::InvalidAvail)
        } else if self.memory().is_io() {
            None
        } else if !self.reaches(heap, self.avail_idx_pos(), 2) {
            Some(Early::MemError)
        } else if self.avail_idx(heap) == self@.last_avail_idx {
            Some(Early::Idle)
        } else if self.size() == 0 || self.avail_pos(next) + 2 > u64::MAX {
            Some(Early::InvalidAvail)
        } else if !self.reaches(heap, self.avail_pos(next), 2) {
            Some(Early::MemError)
        } else {
            None
        }
    }
}

impl DescIter {
    fn new(head: u16) -> (it: DescIter)
        ensures
            it == (DescIter { ttl: 1, head, idx: head, last: false }),
    {
        DescIter { ttl: 1, head, idx: head, last: false }
    }

    fn has_next(&self, meta: &DescMeta) -> (r: bool)
        ensures
            r == meta.has_next(),
    {
        meta.flags & DESC_F_NEXT == DESC_F_NEXT
    }

    /// Whether the walk has passed as many descriptors as the queue has in
    /// use.
    fn dead_loop(&self, queue: &Queue) -> (r: bool)
        ensures
            r == (self.ttl > queue.size()),
    {
        self.ttl as usize > queue.get_queue_size()
    }

    /// The number of steps that the walk has before it at most: none once it
    /// is over, and else one for each descriptor that the queue has in use
    /// and the walk has not passed, and one more.
    pub open spec fn budget(&self, queue: &Queue) -> int {
        if self.last {
            0
        } else if self.ttl <= queue.size() {
            queue.size() + 2 - self.ttl
        } else {
            1
        }
    }

    /// The next descriptor of the chain, with its index. After the last
    /// descriptor of the chain, and after an error, the walk is over and the
    /// answer is `None`. A walk that comes to an index that is not in use
    /// fails with `InvalidDesc`; one that comes to a descriptor that does not
    /// lie in bytes of the queue's memory that the heap holds fails with
    /// `MemError`; one that has passed as many descriptors as the queue has
    /// in use and has not reached the end fails with `InvalidDesc`. Every
    /// step uses up some of the walk's budget, so every walk ends, after at
    /// most as many descriptors as the queue has in use and one error.
    pub fn next(&mut self, queue: &Queue, heap: &GlobalHeap) -> (r: Option<
        Result<(u16, DescMeta)>,
    >)
        ensures
            old(self).last ==> r is None && *final(self) == *old(self),
            !old(self).last ==> r is Some,
            r is Some ==> final(self).budget(queue) < old(self).budget(queue),
            r matches Some(Ok(item)) ==> old(self).ttl <= queue.size() && *final(self)
                == (DescIter {
                ttl: (old(self).ttl + 1) as u32,
                head: old(self).head,
                idx: item.1.next,
                last: !item.1.has_next(),
            }) && item.0 == old(self).idx,
            r matches Some(Err(_)) ==> *final(self) == (DescIter { last: true, ..*old(self) }),
            !old(self).last && !queue.memory().is_io() ==> {
                let idx = old(self).idx as int;
                if idx >= queue.size() || queue.desc_pos(idx) + 16 > u64::MAX {
                    r matches Some(Err(Error::InvalidDesc(_)))
                } else if !queue.reaches(heap, queue.desc_pos(idx), 16) {
                    r matches Some(Err(Error::MemError(_)))
                } else if old(self).ttl > queue.size() {
                    r matches Some(Err(Error::InvalidDesc(m))) && m@ == endless_chain()
                } else {
                    r == Some(
                        Ok::<(u16, DescMeta), Error>((old(self).idx, queue.desc_at(heap, idx))),
                    )
                }
            },
    {
        if self.last {
            return None;
        }
        match queue.get_desc(heap, self.idx) {
            Ok(meta) => {
                if self.dead_loop(queue) {
                    self.last = true;
                    proof {
                        reveal_strlit("infinity descriptor chain");
                    }
                    Some(Err(Error::InvalidDesc("infinity descriptor chain".to_owned())))
                } else {
                    let cur_idx: u16 = self.idx;
                    self.ttl += 1;
                    self.idx = meta.next;
                    self.last = !self.has_next(&meta);
                    Some(Ok((cur_idx, meta)))
                }
            },
            Err(e) => {
                self.last = true;
                Some(Err(e))
            },
        }
    }
}

impl AvailIter {
    fn new(end_idx: u16, next_idx: u16) -> (it: AvailIter)
        ensures
            it == (AvailIter { end_idx, next_idx }),
    {
        AvailIter { end_idx, next_idx }
    }

    /// The number of entries that the walk has before it.
    pub open spec fn remaining(&self) -> int {
        if self.end_idx >= self.next_idx {
            self.end_idx - self.next_idx
        } else {
            self.end_idx - self.next_idx + 0x1_0000
        }
    }

    /// The head of the next chain that the driver has made available, or
    /// `None` when the walk has come to the index at which it ends. Fails as
    /// [`Queue::get_avail_desc`] does, and then stays where it is.
    pub fn next(&mut self, queue: &Queue, heap: &GlobalHeap) -> (r: Option<Result<u16>>)
        ensures
            old(self).end_idx == old(self).next_idx ==> r is None && *final(self) == *old(self),
            old(self).end_idx != old(self).next_idx ==> r is Some,
            final(self).end_idx == old(self).end_idx,
            r matches Some(Ok(_)) ==> final(self).remaining() == old(self).remaining() - 1
                && final(self).next_idx == following(old(self).next_idx),
            r matches Some(Err(_)) ==> *final(self) == *old(self),
            old(self).end_idx != old(self).next_idx ==> {
                let at = old(self).next_idx as int;
                &&& queue.size() == 0 || queue.avail_pos(at) + 2 > u64::MAX ==> (r matches Some(
                    Err(Error::InvalidAvail(_)),
                ))
                &&& queue.size() > 0 && queue.reaches(heap, queue.avail_pos(at), 2) ==> r == Some(
                    Ok::<u16, Error>(queue.avail_at(heap, at)),
                )
                &&& queue.size() > 0 && queue.avail_pos(at) + 2 <= u64::MAX
                    && !queue.memory().is_io() && !queue.reaches(heap, queue.avail_pos(at), 2)
                    ==> (r matches Some(Err(Error::MemError(_))))
            },
    {
        if self.end_idx == self.next_idx {
            return None;
        }
        match queue.get_avail_desc(heap, self.next_idx) {
            Ok(desc_idx) => {
                self.next_idx = self.next_idx.wrapping_add(1);
                Some(Ok(desc_idx))
            },
            Err(e) => Some(Err(e)),
        }
    }
}

impl Queue {
    /// The descriptor table as memory holds it.
    pub open spec fn table(&self, heap: &GlobalHeap) -> Seq<DescMeta> {
        Seq::new(self.size() as nat, |i: int| self.desc_at(heap, i))
    }

    /// Whether the `len` bytes at `pos` lie apart from the descriptor table.
    pub open spec fn off_table(&self, pos: int, len: int) -> bool {
        pos + len <= self@.desc_addr || self@.desc_addr + 16 * self.size() <= pos
    }

    /// Whether `after` is `before` with the descriptor table replaced by
    /// `table` and every byte outside the table as it was.
    pub open spec fn table_became(
        &self,
        before: &GlobalHeap,
        after: &GlobalHeap,
        table: Seq<DescMeta>,
    ) -> bool {
        &&& after.same_layout(before)
        &&& self.table(after) == table
        &&& forall|p: int, l: int|
            0 <= l && self.off_table(p, l) ==> #[trigger] self.bytes_at(after, p, l)
                == self.bytes_at(before, p, l)
    }

    /// Writing a descriptor into the table of a usable queue replaces that
    /// entry of the table and nothing else.
    pub proof fn lemma_stored_desc(
        &self,
        before: &GlobalHeap,
        after: &GlobalHeap,
        idx: int,
        desc: DescMeta,
    )
        requires
            self.usable(before),
            0 <= idx < self.size(),
            self.stored(before, after, self.desc_pos(idx), desc.bytes()),
        ensures
            self.usable(after),
            self.table_became(before, after, self.table(before).update(idx, desc)),
    {
        desc.lemma_bytes_round_trip();
        self.lemma_stored(before, after, self.desc_pos(idx), desc.bytes());
        assert(self.table(after) =~= self.table(before).update(idx, desc)) by {
            assert forall|i: int| 0 <= i < self.size() implies self.desc_at(after, i) == if i
                == idx {
                desc
            } else {
                self.desc_at(before, i)
            } by {
                if i != idx {
                    assert(self.bytes_at(after, self.desc_pos(i), 16) == self.bytes_at(
                        before,
                        self.desc_pos(i),
                        16,
                    ));
                }
            }
        }
    }

    /// A change of the table followed by another is a change of the table.
    pub proof fn lemma_table_became_twice(
        &self,
        before: &GlobalHeap,
        mid: &GlobalHeap,
        after: &GlobalHeap,
        first: Seq<DescMeta>,
        second: Seq<DescMeta>,
    )
        requires
            self.table_became(before, mid, first),
            self.table_became(mid, after, second),
        ensures
            self.table_became(before, after, second),
    {
    }
}

/// The driver's side of a queue: the list of free descriptors, and how far
/// the driver has read the used ring.
pub struct DefaultQueueServer {
    heap: Rc<Heap>,
    desc_region: Option<Rc<Region>>,
    avail_region: Option<Rc<Region>>,
    used_region: Option<Rc<Region>>,
    num_used: u16,
    free_head: u16,
    last_used_idx: u16,
}

/// The counters of a server.
pub struct ServerState {
    /// The number of descriptors that are in chains handed to the device.
    pub num_used: u16,
    /// The head of the chain of free descriptors.
    pub free_head: u16,
    /// The index of the used ring up to which the driver has read.
    pub last_used_idx: u16,
}

impl DefaultQueueServer {
    /// The counters of the server.
    pub closed spec fn view(&self) -> ServerState {
        ServerState {
            num_used: self.num_used,
            free_head: self.free_head,
            last_used_idx: self.last_used_idx,
        }
    }

    /// The sub-heap from which the server takes the tables of its queue.
    pub closed spec fn heap(&self) -> Heap {
        *self.heap
    }

    /// A server that takes its tables from `heap`, with every counter zero.
    pub fn new(heap: &Rc<Heap>) -> (s: DefaultQueueServer)
        ensures
            s.heap() == **heap,
            s@ == (ServerState { num_used: 0, free_head: 0, last_used_idx: 0 }),
    {
        DefaultQueueServer {
            heap: share(heap),
            desc_region: None,
            avail_region: None,
            used_region: None,
            num_used: 0,
            free_head: 0,
            last_used_idx: 0,
        }
    }




    /// Makes the chain whose head is `head` available to the device: the head
    /// goes into the available ring at the ring's index, and the index goes
    /// up by one, modulo 2^16. Fails with `InvalidDesc`, changing nothing,
    /// when `head` is no index of a descriptor in use.
    pub fn publish(&self, heap: &mut GlobalHeap, queue: &Queue, head: u16) -> (r: Result<()>)
        ensures
            queue.usable(old(heap)) && head >= queue.size() ==> (r matches Err(
                Error::InvalidDesc(_),
            )) && *final(heap) == *old(heap),
            queue.usable(old(heap)) && head < queue.size() ==> r is Ok && queue.published(
                old(heap),
                final(heap),
                head,
            ),
            queue.lost(old(heap)) ==> r is Err && *final(heap) == *old(heap),
    {
        proof {
            if queue.usable(heap) {
                queue.lemma_usable_reaches(heap);
            }
            if queue.lost(heap) {
                queue.lemma_lost_reaches_nothing(heap);
            }
        }
        let avail_idx: u16 = match queue.get_avail_idx(heap) {
            Ok(i) => i,
            Err(e) => {
                return Err(e);
            },
        };
        match queue.set_avail_desc(heap, avail_idx, head) {
            Ok(()) => {},
            Err(e) => {
                return Err(e);
            },
        }
        let ghost mid = *heap;
        proof {
            if queue.usable(old(heap)) {
                queue.lemma_stored(
                    old(heap),
                    &mid,
                    queue.avail_pos(avail_idx as int),
                    spec_u16_to_le_bytes(head),
                );
            }
        }
        queue.set_avail_idx(heap, avail_idx.wrapping_add(1))
    }

}

impl Queue {
    /// Whether `after` is `before` with `head` written into the available
    /// ring at the ring's index, and the index then raised by one.
    pub open spec fn published(&self, before: &GlobalHeap, after: &GlobalHeap, head: u16) -> bool {
        let at = self.avail_idx(before);
        exists|mid: GlobalHeap|
            {
                &&& #[trigger] self.stored(
                    before,
                    &mid,
                    self.avail_pos(at as int),
                    spec_u16_to_le_bytes(head),
                )
                &&& self.stored(
                    &mid,
                    after,
                    self.avail_idx_pos(),
                    spec_u16_to_le_bytes(if at == 0xffff {
                        0u16
                    } else {
                        (at + 1) as u16
                    }),
                )
            }
    }
}

/// The alignments of the three tables of a queue.
pub proof fn lemma_table_alignments()
    ensures
        valid_align(8),
        valid_align(2),
        valid_align(4),
{
    assert(8u64 & 7u64 == 0) by (bit_vector);
    assert(2u64 & 1u64 == 0) by (bit_vector);
    assert(4u64 & 3u64 == 0) by (bit_vector);
}

/// The table of `n` free descriptors as a server lays it out: each
/// descriptor is empty and linked to the next one, the last to the first.
pub open spec fn free_chain(n: int) -> Seq<DescMeta> {
    Seq::new(
        n as nat,
        |i: int|
            DescMeta {
                addr: 0,
                len: 0,
                flags: DESC_F_NEXT,
                next: if i + 1 == n {
                    0u16
                } else {
                    (i + 1) as u16
                },
            },
    )
}

/// The last descriptor of a chain that is given back, linked in front of the
/// chain of free descriptors whose head is `free_head`.
pub open spec fn relinked(desc: DescMeta, free_head: u16) -> DescMeta {
    DescMeta { addr: desc.addr, len: desc.len, flags: desc.flags | DESC_F_NEXT, next: free_head }
}

impl DefaultQueueServer {
    /// The bases of the descriptor table, the available ring and the used
    /// ring that the server's sub-heap answers with when asked, in this
    /// order, for 16 bytes for each descriptor at alignment 8, for 4 bytes
    /// and 2 for each descriptor at alignment 2, and for 4 bytes and 8 for
    /// each descriptor at alignment 4; `None` when the sub-heap is gone or
    /// one of the requests does not fit.
    pub open spec fn plan(&self, heap: &GlobalHeap, n: int) -> Option<(u64, u64, u64)> {
        match heap.sub_allocator(self.heap().id()) {
            Some(a) => {
                let f0 = a.free_list();
                let f1 = free_after_fit(f0, (16 * n) as u64, 8);
                let f2 = free_after_fit(f1, (4 + 2 * n) as u64, 2);
                if a.universe() == self.heap().region().window() && can_fit(
                    f0,
                    (16 * n) as u64,
                    8,
                ) && can_fit(f1, (4 + 2 * n) as u64, 2) && can_fit(f2, (4 + 8 * n) as u64, 4) {
                    Some(
                        (
                            fit_base(f0, (16 * n) as u64, 8) as u64,
                            fit_base(f1, (4 + 2 * n) as u64, 2) as u64,
                            fit_base(f2, (4 + 8 * n) as u64, 4) as u64,
                        ),
                    )
                } else {
                    None
                }
            },
            None => None,
        }
    }

    /// Whether `after` is `before` with the three tables for `n` descriptors
    /// taken from the server's sub-heap as [`DefaultQueueServer::plan`] says:
    /// the used ring, the available ring and the descriptor table stand, in
    /// this order, in front of the sub-heap's allocated blocks, its free list
    /// is what the three requests leave, and every other allocator and every
    /// backing is as it was, whatever bytes the backings hold.
    pub open spec fn tables_taken(&self, before: &GlobalHeap, after: &GlobalHeap, n: int) -> bool {
        let id = self.heap().id();
        let a0 = before.sub_allocator(id)->0;
        let f0 = a0.free_list();
        let f1 = free_after_fit(f0, (16 * n) as u64, 8);
        let f2 = free_after_fit(f1, (4 + 2 * n) as u64, 2);
        let desc = MemInfo { base: fit_base(f0, (16 * n) as u64, 8) as u64, size: (16 * n) as u64 };
        let avail = MemInfo {
            base: fit_base(f1, (4 + 2 * n) as u64, 2) as u64,
            size: (4 + 2 * n) as u64,
        };
        let used = MemInfo {
            base: fit_base(f2, (4 + 8 * n) as u64, 4) as u64,
            size: (4 + 8 * n) as u64,
        };
        &&& after.allocator_view().same_lists(&before.allocator_view())
        &&& after.same_sub_allocators(before, id)
        &&& after.slot_count() == before.slot_count()
        &&& forall|s: int| #[trigger] after.live(s) == before.live(s)
        &&& forall|s: int| #[trigger] after.slot_info(s) == before.slot_info(s)
        &&& after.sub_allocator(id) matches Some(a3) && a3.universe() == a0.universe()
            && a3.free_list() == free_after_fit(f2, (4 + 8 * n) as u64, 4) && a3.allocated()
            == seq![used, avail, desc] + a0.allocated()
    }

    /// Tables that are taken stay taken where nothing but bytes changes.
    pub proof fn lemma_tables_stay_taken(
        &self,
        before: &GlobalHeap,
        mid: &GlobalHeap,
        after: &GlobalHeap,
        n: int,
    )
        requires
            self.tables_taken(before, mid, n),
            after.same_layout(mid),
        ensures
            self.tables_taken(before, after, n),
    {
        let id = self.heap().id();
        mid.lemma_sub_allocator_index(id);
        assert(after.sub_allocator(id) is Some);
        assert forall|other: int| other != id implies match (
            #[trigger] after.sub_allocator(other),
            before.sub_allocator(other),
        ) {
            (Some(a), Some(b)) => a.same_lists(&b),
            (None, None) => true,
            _ => false,
        } by {
            after.lemma_sub_allocator_index(other);
            mid.lemma_sub_allocator_index(other);
            before.lemma_sub_allocator_index(other);
            if other != -1 {
                assert(mid.sub_allocator(other) is Some == after.sub_allocator(other) is Some);
            }
        }
    }

    /// Gives the chain whose head is `idx` back to the free descriptors: the
    /// last descriptor of the chain is linked to the head of the free chain,
    /// `idx` becomes the new head, and the descriptors of the chain count as
    /// used no longer. Fails with `InvalidDesc` when the chain does not end
    /// within the descriptors in use, and with `ServerError` when it has more
    /// descriptors than are in use; a failure changes nothing.
    fn free_desc(&mut self, heap: &mut GlobalHeap, queue: &Queue, idx: u16) -> (r: Result<()>)
        ensures
            final(self).heap() == old(self).heap(),
            queue.usable(old(heap)) ==> match queue.walk(
                old(heap),
                idx,
                queue.size() as nat,
            ) {
                None => (r matches Err(Error::InvalidDesc(_))) && *final(heap) == *old(heap)
                    && final(self)@ == old(self)@,
                Some(c) => if c.len() > old(self)@.num_used {
                    &&& r matches Err(Error::ServerError(_))
                    &&& *final(heap) == *old(heap)
                    &&& final(self)@ == old(self)@
                } else {
                    &&& r is Ok
                    &&& queue.table_became(
                        old(heap),
                        final(heap),
                        queue.table(old(heap)).update(
                            c.last().0 as int,
                            relinked(c.last().1, old(self)@.free_head),
                        ),
                    )
                    &&& final(self)@ == (ServerState {
                        num_used: (old(self)@.num_used - c.len()) as u16,
                        free_head: idx,
                        last_used_idx: old(self)@.last_used_idx,
                    })
                },
            },
    {
        proof {
            if queue.usable(heap) {
                queue.lemma_usable_reaches(heap);
                queue.lemma_walk_is_bounded(heap, idx, queue.size() as nat);
            }
        }
        let chain: Vec<(u16, DescMeta)> = match queue.desc_chain(heap, idx) {
            Ok(c) => c,
            Err(e) => {
                return Err(e);
            },
        };
        let n: usize = chain.len();
        if n > self.num_used as usize {
            return Err(Error::ServerError("more descriptors freed than are in use".to_owned()));
        }
        let (last_idx, last): (u16, DescMeta) = chain[n - 1];
        let desc = DescMeta {
            addr: last.addr,
            len: last.len,
            flags: last.flags | DESC_F_NEXT,
            next: self.free_head,
        };
        match queue.set_desc(heap, last_idx, &desc) {
            Ok(()) => {},
            Err(e) => {
                return Err(e);
            },
        }
        proof {
            if queue.usable(old(heap)) {
                queue.lemma_stored_desc(old(heap), heap, last_idx as int, desc);
            }
        }
        self.num_used = self.num_used - n as u16;
        self.free_head = idx;
        Ok(())
    }

}

/// One buffer of a chain that the driver hands to the device: where it lies,
/// and whether the device writes it.
pub struct Buffer {
    pub base: u64,
    pub size: u64,
    pub write: bool,
}

/// The buffers of a chain: the windows of `inputs`, which the device reads,
/// followed by the windows of `outputs`, which the device writes.
pub open spec fn buffers(inputs: Seq<&Region>, outputs: Seq<&Region>) -> Seq<Buffer> {
    Seq::new(
        inputs.len() + outputs.len(),
        |i: int|
            if i < inputs.len() {
                Buffer {
                    base: inputs[i].window().base,
                    size: inputs[i].window().size,
                    write: false,
                }
            } else {
                Buffer {
                    base: outputs[i - inputs.len()].window().base,
                    size: outputs[i - inputs.len()].window().size,
                    write: true,
                }
            },
    )
}

/// The free descriptor `desc` made to point at `buffer`: it keeps its link,
/// continues in the next descriptor, and is marked writable for a buffer that
/// the device writes. The length is the buffer's size modulo 2^32.
pub open spec fn filled(desc: DescMeta, buffer: Buffer) -> DescMeta {
    DescMeta {
        addr: buffer.base,
        len: (buffer.size % 0x1_0000_0000) as u32,
        flags: if buffer.write {
            3u16
        } else {
            1u16
        },
        next: desc.next,
    }
}

/// The descriptor `desc` as the last one of its chain.
pub open spec fn ended(desc: DescMeta) -> DescMeta {
    DescMeta { addr: desc.addr, len: desc.len, flags: desc.flags & !DESC_F_NEXT, next: desc.next }
}

/// What filling descriptors from the free chain yields: the table, the new
/// head of the free chain, and the index of the descriptor filled last.
pub struct Fill {
    pub table: Seq<DescMeta>,
    pub free_head: u16,
    pub last: u16,
}

/// The buffers from the `k`-th on put, one after the other, into the
/// descriptors of the free chain that begins at `head`. There is no result
/// when the chain leaves the table or ends before the last buffer has its
/// descriptor.
pub open spec fn fill(table: Seq<DescMeta>, head: u16, bufs: Seq<Buffer>, k: int) -> Option<Fill>
    decreases bufs.len() - k,
{
    if k < 0 || k >= bufs.len() || head >= table.len() {
        None
    } else {
        let d = table[head as int];
        let t = table.update(head as int, filled(d, bufs[k]));
        if k + 1 == bufs.len() {
            Some(Fill { table: t, free_head: d.next, last: head })
        } else if !d.has_next() {
            None
        } else {
            fill(t, d.next, bufs, k + 1)
        }
    }
}

impl DefaultQueueServer {
    /// Puts one buffer into the descriptor at the head of the free chain and
    /// moves the head on; answers with the index of the descriptor.
    fn fill_one(
        &mut self,
        heap: &mut GlobalHeap,
        queue: &Queue,
        it: &mut DescIter,
        buffer: &Region,
        write: bool,
    ) -> (r: Result<u16>)
        requires
            old(it).idx == old(self)@.free_head,
            old(it).ttl <= queue.size(),
        ensures
            final(self).heap() == old(self).heap(),
            final(self)@.num_used == old(self)@.num_used,
            final(self)@.last_used_idx == old(self)@.last_used_idx,
            final(it).head == old(it).head,
            r is Ok ==> final(it).ttl == old(it).ttl + 1 && final(it).idx == final(self)@.free_head,
            queue.lost(old(heap)) ==> r is Err && *final(heap) == *old(heap),
            queue.usable(old(heap)) ==> {
                let head = old(self)@.free_head;
                let d = queue.desc_at(old(heap), head as int);
                let b = Buffer { base: buffer.window().base, size: buffer.window().size, write };
                if old(it).last || head >= queue.size() {
                    r matches Err(Error::InvalidDesc(_))
                } else {
                    &&& r == Ok::<u16, Error>(head)
                    &&& queue.usable(final(heap))
                    &&& queue.table_became(
                        old(heap),
                        final(heap),
                        queue.table(old(heap)).update(head as int, filled(d, b)),
                    )
                    &&& final(self)@.free_head == d.next
                    &&& *final(it) == (DescIter {
                        ttl: (old(it).ttl + 1) as u32,
                        head: old(it).head,
                        idx: d.next,
                        last: !d.has_next(),
                    })
                }
            },
    {
        let info: MemInfo = buffer.info();
        proof {
            if queue.lost(heap) {
                queue.lemma_lost_reaches_nothing(heap);
            }
            if queue.usable(heap) {
                queue.lemma_usable_reaches(heap);
            }
        }
        let found: (u16, DescMeta) = match it.next(queue, heap) {
            Some(Ok(found)) => found,
            Some(Err(e)) => {
                return Err(e);
            },
            None => {
                return Err(Error::InvalidDesc("the chain of free descriptors has ended".to_owned()));
            },
        };
        let desc = DescMeta {
            addr: info.base,
            len: (info.size % 0x1_0000_0000) as u32,
            flags: if write {
                3
            } else {
                1
            },
            next: found.1.next,
        };
        proof {
            if queue.usable(heap) {
                queue.lemma_usable_reaches(heap);
            }
        }
        match queue.set_desc(heap, self.free_head, &desc) {
            Ok(()) => {},
            Err(e) => {
                return Err(e);
            },
        }
        proof {
            if queue.usable(old(heap)) {
                queue.lemma_stored_desc(old(heap), heap, self.free_head as int, desc);
            }
        }
        let last: u16 = self.free_head;
        self.free_head = desc.next;
        Ok(last)
    }

}

/// The driver's side of a queue.
pub trait QueueServer {
    /// Lays out the tables of `queue` and makes it ready.
    fn init_queue(&mut self, heap: &mut GlobalHeap, queue: &mut Queue) -> Result<()>;

    /// Builds a chain over `inputs`, which the device reads, followed by
    /// `outputs`, which the device writes, and answers with its head.
    fn add_to_queue(
        &mut self,
        heap: &mut GlobalHeap,
        queue: &Queue,
        inputs: &[&Region],
        outputs: &[&Region],
    ) -> Result<u16>;

    /// Makes the chain whose head is `head` available and notifies the
    /// device.
    fn notify_queue<C: QueueClient + ?Sized>(
        &self,
        heap: &mut GlobalHeap,
        irq: &mut IrqVec,
        queue: &mut Queue,
        client: &C,
        head: u16,
    ) -> Result<()>;

    /// Whether the device is done with a chain that the driver has not read
    /// from the used ring yet.
    fn has_used(&self, heap: &GlobalHeap, queue: &Queue) -> bool;

    /// The number of descriptors that are free.
    fn num_available_desc(&self, queue: &Queue) -> usize;

    /// The element of the used ring that the driver reads next, if any.
    fn pop_used(&self, heap: &GlobalHeap, queue: &Queue) -> Option<RingUsedMetaElem>;

    /// Takes note that the driver has read the used ring, and gives the
    /// chain that `used` names back unless `keep_desc`.
    fn free_used(
        &mut self,
        heap: &mut GlobalHeap,
        queue: &Queue,
        used: &RingUsedMetaElem,
        keep_desc: bool,
    ) -> Result<()>;
}

impl QueueServer for DefaultQueueServer {
    /// Lays out the tables of `queue` and makes it ready. The tables are
    /// taken from the server's sub-heap as [`DefaultQueueServer::plan`] says,
    /// and their bases become the addresses of the queue; then the queue is
    /// tested as [`Queue::check_init`] does; then every descriptor in use is
    /// written as [`free_chain`] says. Fails with `ServerError`, changing
    /// nothing, when the sub-heap cannot supply all three tables; in every
    /// other case the tables are taken as [`DefaultQueueServer::tables_taken`]
    /// says and stay with the server. Fails with
    /// `InvalidInit` when the queue is ready already, has no descriptors, or
    /// the tables do not lie inside its memory; and with `MemError` when the
    /// heap does not hold the bytes of the queue's memory.
    fn init_queue(&mut self, heap: &mut GlobalHeap, queue: &mut Queue) -> (r: Result<()>)
        ensures
            final(self).heap() == old(self).heap(),
            final(self)@ == old(self)@,
            final(queue).memory() == old(queue).memory(),
            match old(self).plan(old(heap), old(queue).size()) {
                None => (r matches Err(Error::ServerError(_))) && final(queue)@ == old(queue)@
                    && *final(heap) == *old(heap),
                Some(bases) => {
                    let placed = QueueState {
                        desc_addr: bases.0,
                        avail_addr: bases.1,
                        used_addr: bases.2,
                        ..old(queue)@
                    };
                    if old(queue)@.ready || old(queue).size() == 0
                        || !final(queue).tables_inside() {
                        (r matches Err(Error::InvalidInit(_))) && final(queue)@ == placed
                            && old(self).tables_taken(old(heap), final(heap), old(queue).size())
                    } else if old(queue).memory().is_io() {
                        true
                    } else if !old(heap).backs(&old(queue).memory()) {
                        (r matches Err(Error::MemError(_))) && old(self).tables_taken(
                            old(heap),
                            final(heap),
                            old(queue).size(),
                        )
                    } else {
                        &&& r is Ok
                        &&& old(self).tables_taken(old(heap), final(heap), old(queue).size())
                        &&& final(queue)@ == (QueueState { ready: true, ..placed })
                        &&& final(queue).usable(final(heap))
                        &&& final(queue).table(final(heap)) == free_chain(old(queue).size())
                        &&& forall|p: int, l: int|
                            0 <= l && final(queue).off_table(p, l)
                                ==> #[trigger] final(queue).bytes_at(
                                final(heap),
                                p,
                                l,
                            ) == old(queue).bytes_at(old(heap), p, l)
                    }
                },
            },
    {
        let n: usize = queue.get_queue_size();
        proof {
            lemma_table_alignments();
            use_type_invariant(&*queue.memory);
            queue.memory.lemma_window_bounded();
        }
        let mut requests: Vec<(u64, u64)> = Vec::new();
        requests.push(((16 * n) as u64, 8));
        requests.push(((4 + 2 * n) as u64, 2));
        requests.push(((4 + 8 * n) as u64, 4));
        proof {
            match heap.sub_allocator(self.heap().id()) {
                Some(a) => {
                    let reqs = requests@;
                    let f0 = a.free_list();
                    let f1 = free_after_fit(f0, (16 * n) as u64, 8);
                    let f2 = free_after_fit(f1, (4 + 2 * n) as u64, 2);
                    let f3 = free_after_fit(f2, (4 + 8 * n) as u64, 4);
                    assert(reqs[0] == ((16 * n) as u64, 8u64));
                    assert(reqs[1] == ((4 + 2 * n) as u64, 2u64));
                    assert(reqs[2] == ((4 + 8 * n) as u64, 4u64));
                    assert(fit_all(f3, reqs, 3));
                    assert(fit_all(f2, reqs, 2) == can_fit(f2, (4 + 8 * n) as u64, 4));
                    assert(fit_all(f1, reqs, 1) == (can_fit(f1, (4 + 2 * n) as u64, 2) && fit_all(
                        f2,
                        reqs,
                        2,
                    )));
                    assert(fit_all(f0, reqs, 0) == (can_fit(f0, (16 * n) as u64, 8) && fit_all(
                        f1,
                        reqs,
                        1,
                    )));
                },
                None => {},
            }
        }
        if !self.heap.can_allocate_all(heap, &requests) {
            return Err(Error::ServerError("oom!".to_owned()));
        }
        let desc_region: Rc<Region> = match self.heap.allocate(heap, (16 * n) as u64, 8) {
            Ok(region) => region,
            Err(_) => {
                return Err(Error::ServerError("oom!".to_owned()));
            },
        };
        let ghost heap1 = *heap;
        let avail_region: Rc<Region> = match self.heap.allocate(
            heap,
            (4 + 2 * n) as u64,
            2,
        ) {
            Ok(region) => region,
            Err(_) => {
                return Err(Error::ServerError("oom!".to_owned()));
            },
        };
        let ghost heap2 = *heap;
        let used_region: Rc<Region> = match self.heap.allocate(heap, (4 + 8 * n) as u64, 4) {
            Ok(region) => region,
            Err(_) => {
                return Err(Error::ServerError("oom!".to_owned()));
            },
        };
        let ghost heap3 = *heap;
        proof {
            let id = self.heap().id();
            let a0 = old(heap).sub_allocator(id)->0;
            assert(heap3.sub_allocator(id)->0.allocated() =~= seq![
                used_region.window(),
                avail_region.window(),
                desc_region.window(),
            ] + a0.allocated());
            assert forall|s: int| #[trigger] heap3.live(s) == old(heap).live(s) by {
                assert(heap3.same_slot(&heap2, s));
                assert(heap2.same_slot(&heap1, s));
                assert(heap1.same_slot(old(heap), s));
            }
            assert forall|s: int| #[trigger] heap3.slot_info(s) == old(heap).slot_info(s) by {
                assert(heap3.same_slot(&heap2, s));
                assert(heap2.same_slot(&heap1, s));
                assert(heap1.same_slot(old(heap), s));
            }
            assert(self.tables_taken(old(heap), &heap3, n as int));
        }
        queue.set_desc_addr(desc_region.info().base);
        queue.set_avail_addr(avail_region.info().base);
        queue.set_used_addr(used_region.info().base);
        self.desc_region = Some(desc_region);
        self.avail_region = Some(avail_region);
        self.used_region = Some(used_region);
        match queue.check_init() {
            Ok(()) => {},
            Err(e) => {
                return Err(e);
            },
        }
        if n == 0 {
            return Err(Error::InvalidInit("the queue has no descriptors".to_owned()));
        }
        proof {
            assert forall|p: int, l: int| #[trigger]
                queue.bytes_at(&heap3, p, l) == old(queue).bytes_at(old(heap), p, l) by {
                assert(heap3.same_slot(&heap2, queue.memory().slot()));
                assert(heap2.same_slot(&heap1, queue.memory().slot()));
                assert(heap1.same_slot(old(heap), queue.memory().slot()));
                assert(queue.bytes_at(&heap3, p, l) =~= old(queue).bytes_at(old(heap), p, l));
            }
            assert(heap3.same_slot(&heap2, queue.memory().slot()));
            assert(heap2.same_slot(&heap1, queue.memory().slot()));
            assert(heap1.same_slot(old(heap), queue.memory().slot()));
        }
        let mut i: usize = 0;
        while i < n
            invariant
                0 < n == queue.size(),
                n <= u16::MAX,
                i <= n,
                self.heap() == old(self).heap(),
                self@ == old(self)@,
                queue.memory() == old(queue).memory(),
                queue.size() == old(queue).size(),
                !old(queue)@.ready,
                old(self).plan(old(heap), old(queue).size()) == Some(
                    (queue@.desc_addr, queue@.avail_addr, queue@.used_addr),
                ),
                queue@ == (QueueState {
                    desc_addr: queue@.desc_addr,
                    avail_addr: queue@.avail_addr,
                    used_addr: queue@.used_addr,
                    ..old(queue)@
                }),
                queue.tables_inside(),
                queue.memory().window().end() <= u64::MAX,
                !queue.memory().is_io() ==> heap.backs(&queue.memory()) == old(heap).backs(
                    &old(queue).memory(),
                ),
                !queue.memory().is_io() ==> old(self).tables_taken(old(heap), heap, n as int),
                !queue.memory().is_io() && i > 0 ==> queue.usable(heap),
                queue.usable(heap) ==> forall|j: int|
                    0 <= j < i ==> #[trigger] queue.desc_at(heap, j) == free_chain(n as int)[j],
                !queue.memory().is_io() ==> forall|p: int, l: int|
                    0 <= l && queue.off_table(p, l) ==> #[trigger] queue.bytes_at(heap, p, l)
                        == old(queue).bytes_at(old(heap), p, l),
            decreases n - i,
        {
            let desc = DescMeta {
                addr: 0,
                len: 0,
                flags: DESC_F_NEXT,
                next: if i + 1 == n {
                    0
                } else {
                    (i + 1) as u16
                },
            };
            let ghost before = *heap;
            proof {
                if queue.usable(heap) {
                    queue.lemma_usable_reaches(heap);
                }
            }
            match queue.set_desc(heap, i as u16, &desc) {
                Ok(()) => {},
                Err(e) => {
                    return Err(e);
                },
            }
            proof {
                if queue.usable(&before) {
                    old(self).lemma_tables_stay_taken(old(heap), &before, heap, n as int);
                    queue.lemma_stored_desc(&before, heap, i as int, desc);
                    assert forall|j: int| 0 <= j < i + 1 implies #[trigger] queue.desc_at(heap, j)
                        == free_chain(n as int)[j] by {
                        assert(queue.table(heap)[j] == queue.desc_at(heap, j));
                        if j < i {
                            assert(queue.table(&before)[j] == queue.desc_at(&before, j));
                        }
                    }
                }
            }
            i += 1;
        }
        let ghost laid = *queue;
        proof {
            if laid.usable(heap) {
                assert(laid.table(heap) =~= free_chain(n as int));
            }
        }
        queue.set_ready(true);
        proof {
            if queue.usable(heap) {
                assert(laid.usable(heap));
                assert(queue.table(heap) =~= laid.table(heap));
                assert forall|p: int, l: int| 0 <= l
                    && queue.off_table(p, l) implies #[trigger] queue.bytes_at(
                    heap,
                    p,
                    l,
                ) == old(queue).bytes_at(old(heap), p, l) by {
                    assert(laid.off_table(p, l));
                    assert(queue.bytes_at(heap, p, l) == laid.bytes_at(heap, p, l));
                }
            }
        }
        Ok(())
    }

    /// Builds a chain over `inputs`, which the device reads, followed by
    /// `outputs`, which the device writes, from the descriptors at the head
    /// of the free chain, and answers with the head of the new chain. Each
    /// buffer gets the next free descriptor, as [`fill`] says; the last
    /// descriptor of the chain loses its link flag; the descriptors count as
    /// used. Fails with `ServerError`, changing nothing, when there is no
    /// buffer at all or when there are more buffers than free descriptors,
    /// and with `InvalidDesc` when the free chain leaves the table or ends
    /// too early.
    fn add_to_queue(
        &mut self,
        heap: &mut GlobalHeap,
        queue: &Queue,
        inputs: &[&Region],
        outputs: &[&Region],
    ) -> (r: Result<u16>)
        ensures
            final(self).heap() == old(self).heap(),
            ({
                let wanted = inputs@.len() + outputs@.len();
                wanted == 0 || wanted + old(self)@.num_used > queue.size()
            }) ==> {
                &&& r matches Err(Error::ServerError(_))
                &&& *final(heap) == *old(heap)
                &&& final(self)@ == old(self)@
            },
            ({
                let wanted = inputs@.len() + outputs@.len();
                0 < wanted && wanted + old(self)@.num_used <= queue.size() && queue.usable(
                    old(heap),
                )
            }) ==> match fill(
                queue.table(old(heap)),
                old(self)@.free_head,
                buffers(inputs@, outputs@),
                0,
            ) {
                Some(f) => {
                    &&& r == Ok::<u16, Error>(old(self)@.free_head)
                    &&& queue.table_became(
                        old(heap),
                        final(heap),
                        f.table.update(f.last as int, ended(f.table[f.last as int])),
                    )
                    &&& final(self)@ == (ServerState {
                        num_used: (old(self)@.num_used + inputs@.len() + outputs@.len()) as u16,
                        free_head: f.free_head,
                        last_used_idx: old(self)@.last_used_idx,
                    })
                },
                None => r matches Err(Error::InvalidDesc(_)),
            },
            queue.lost(old(heap)) ==> r is Err && *final(heap) == *old(heap),
    {
        let n: usize = queue.get_queue_size();
        let n_in: usize = inputs.len();
        let n_out: usize = outputs.len();
        if n_in == 0 && n_out == 0 {
            return Err(Error::ServerError("inputs and outputs are both empty!".to_owned()));
        }
        if n_in > n || n_out > n - n_in || self.num_used as usize > n - n_in - n_out {
            return Err(Error::ServerError("inputs and outputs are too big!".to_owned()));
        }
        let total: usize = n_in + n_out;
        let head: u16 = self.free_head;
        let mut last: u16 = self.free_head;
        let mut it: DescIter = queue.desc_iter(self.free_head);
        let ghost bufs = buffers(inputs@, outputs@);
        let ghost first = fill(queue.table(old(heap)), head, bufs, 0);
        let mut i: usize = 0;
        while i < n_in
            invariant
                n == queue.size(),
                n_in == inputs@.len(),
                n_out == outputs@.len(),
                total == n_in + n_out,
                0 < total <= n,
                total + old(self)@.num_used <= n,
                queue.usable(old(heap)) && i > 0 ==> last < n,
                queue.lost(old(heap)) ==> *heap == *old(heap) && i == 0,
                i <= n_in,
                bufs == buffers(inputs@, outputs@),
                head == old(self)@.free_head,
                first == fill(queue.table(old(heap)), head, bufs, 0),
                self.heap() == old(self).heap(),
                self@.num_used == old(self)@.num_used,
                self@.last_used_idx == old(self)@.last_used_idx,
                it.idx == self@.free_head,
                it.ttl == i + 1,
                queue.usable(old(heap)) ==> queue.usable(heap) && queue.table_became(
                    old(heap),
                    heap,
                    queue.table(heap),
                ) && first == if i < total {
                    if it.last {
                        None
                    } else {
                        fill(queue.table(heap), self@.free_head, bufs, i as int)
                    }
                } else {
                    Some(Fill { table: queue.table(heap), free_head: self@.free_head, last })
                },
            decreases n_in - i,
        {
            let ghost before = *heap;
            let ghost was = *self;
            let ghost k: int = i as int;
            proof {
                assert(bufs[k] == Buffer {
                    base: inputs[i as int].window().base,
                    size: inputs[i as int].window().size,
                    write: false,
                });
                assert(queue.table(&before).len() == n);
                if was@.free_head < n {
                    assert(queue.table(&before)[was@.free_head as int] == queue.desc_at(
                        &before,
                        was@.free_head as int,
                    ));
                }
            }
            let ghost walked = it;
            last = match self.fill_one(heap, queue, &mut it, inputs[i], false) {
                Ok(last) => last,
                Err(e) => {
                    proof {
                        if queue.usable(old(heap)) {
                            assert(walked.last || was@.free_head >= n);
                            assert(first is None);
                        }
                    }
                    return Err(e);
                },
            };
            proof {
                if queue.usable(old(heap)) {
                    queue.lemma_table_became_twice(
                        old(heap),
                        &before,
                        heap,
                        queue.table(&before),
                        queue.table(heap),
                    );
                }
            }
            i += 1;
        }
        let mut j: usize = 0;
        while j < n_out
            invariant
                n == queue.size(),
                n_in == inputs@.len(),
                n_out == outputs@.len(),
                total == n_in + n_out,
                0 < total <= n,
                total + old(self)@.num_used <= n,
                queue.usable(old(heap)) && n_in + j > 0 ==> last < n,
                queue.lost(old(heap)) ==> *heap == *old(heap) && n_in == 0 && j == 0,
                i == n_in,
                j <= n_out,
                bufs == buffers(inputs@, outputs@),
                head == old(self)@.free_head,
                first == fill(queue.table(old(heap)), head, bufs, 0),
                self.heap() == old(self).heap(),
                self@.num_used == old(self)@.num_used,
                self@.last_used_idx == old(self)@.last_used_idx,
                it.idx == self@.free_head,
                it.ttl == n_in + j + 1,
                queue.usable(old(heap)) ==> queue.usable(heap) && queue.table_became(
                    old(heap),
                    heap,
                    queue.table(heap),
                ) && first == if n_in + j < total {
                    if it.last {
                        None
                    } else {
                        fill(queue.table(heap), self@.free_head, bufs, n_in + j)
                    }
                } else {
                    Some(Fill { table: queue.table(heap), free_head: self@.free_head, last })
                },
            decreases n_out - j,
        {
            let ghost before = *heap;
            let ghost was = *self;
            let ghost k: int = n_in + j;
            proof {
                assert(bufs[k] == Buffer {
                    base: outputs[j as int].window().base,
                    size: outputs[j as int].window().size,
                    write: true,
                });
                assert(queue.table(&before).len() == n);
                if was@.free_head < n {
                    assert(queue.table(&before)[was@.free_head as int] == queue.desc_at(
                        &before,
                        was@.free_head as int,
                    ));
                }
            }
            let ghost walked = it;
            last = match self.fill_one(heap, queue, &mut it, outputs[j], true) {
                Ok(last) => last,
                Err(e) => {
                    proof {
                        if queue.usable(old(heap)) {
                            assert(walked.last || was@.free_head >= n);
                            assert(first is None);
                        }
                    }
                    return Err(e);
                },
            };
            proof {
                if queue.usable(old(heap)) {
                    queue.lemma_table_became_twice(
                        old(heap),
                        &before,
                        heap,
                        queue.table(&before),
                        queue.table(heap),
                    );
                }
            }
            j += 1;
        }
        proof {
            if queue.usable(heap) {
                queue.lemma_usable_reaches(heap);
            }
        }
        let found: DescMeta = match queue.get_desc(heap, last) {
            Ok(d) => d,
            Err(e) => {
                return Err(e);
            },
        };
        let desc = DescMeta {
            addr: found.addr,
            len: found.len,
            flags: found.flags & !DESC_F_NEXT,
            next: found.next,
        };
        let ghost before = *heap;
        match queue.set_desc(heap, last, &desc) {
            Ok(()) => {},
            Err(e) => {
                return Err(e);
            },
        }
        proof {
            if queue.usable(old(heap)) {
                queue.lemma_stored_desc(&before, heap, last as int, desc);
                queue.lemma_table_became_twice(
                    old(heap),
                    &before,
                    heap,
                    queue.table(&before),
                    queue.table(heap),
                );
            }
        }
        self.num_used = self.num_used + total as u16;
        Ok(head)
    }

    /// Makes the chain whose head is `head` available, as
    /// [`DefaultQueueServer::publish`] does, and then notifies the device,
    /// as [`Queue::notify_client`] does: in a queue that is ready the
    /// entries up to the one just published are handed to the client as
    /// [`Queue::served`] says. Where the queue is not ready, or has read the
    /// ring up to the index that the ring then has, the chain is published
    /// and the client is not asked.
    fn notify_queue<C: QueueClient + ?Sized>(
        &self,
        heap: &mut GlobalHeap,
        irq: &mut IrqVec,
        queue: &mut Queue,
        client: &C,
        head: u16,
    ) -> (r: Result<()>)
        ensures
            final(queue).memory() == old(queue).memory(),
            final(queue)@ == (QueueState {
                last_avail_idx: final(queue)@.last_avail_idx,
                ..old(queue)@
            }),
            old(queue).usable(old(heap)) && head >= old(queue).size() ==> (r matches Err(
                Error::InvalidDesc(_),
            )) && *final(heap) == *old(heap) && *final(irq) == *old(irq) && final(queue)@
                == old(queue)@,
            old(queue).usable(old(heap)) && head < old(queue).size() && !old(queue)@.ready ==> {
                &&& r == Err::<(), Error>(Error::NotReady)
                &&& old(queue).published(old(heap), final(heap), head)
                &&& *final(irq) == *old(irq)
                &&& final(queue)@ == old(queue)@
            },
            old(queue).usable(old(heap)) && head < old(queue).size() && old(queue)@.ready
                && old(queue)@.last_avail_idx == (if old(queue).avail_idx(old(heap)) == 0xffff {
                0u16
            } else {
                (old(queue).avail_idx(old(heap)) + 1) as u16
            }) ==> {
                &&& r is Ok
                &&& old(queue).published(old(heap), final(heap), head)
                &&& *final(irq) == *old(irq)
                &&& final(queue)@ == old(queue)@
            },
            old(queue).usable(old(heap)) && head < old(queue).size() && old(queue)@.ready
                ==> exists|mid: GlobalHeap|
                {
                    &&& #[trigger] old(queue).published(old(heap), &mid, head)
                    &&& old(queue).served(
                        client,
                        following(old(queue).avail_idx(old(heap))),
                        mid,
                        *old(irq),
                        final(queue)@.last_avail_idx,
                        *final(heap),
                        *final(irq),
                        r,
                    )
                },
            old(queue).lost(old(heap)) ==> {
                &&& r is Err
                &&& *final(heap) == *old(heap)
                &&& *final(irq) == *old(irq)
                &&& final(queue)@ == old(queue)@
            },
    {
        match self.publish(heap, queue, head) {
            Ok(()) => {},
            Err(e) => {
                return Err(e);
            },
        }
        let ghost mid = *heap;
        proof {
            if old(queue).usable(old(heap)) && head < old(queue).size() {
                queue.lemma_published_is_offered(old(heap), heap, head);
                queue.lemma_usable_reaches(heap);
            }
        }
        let r = queue.notify_client(heap, irq, client);
        proof {
            if old(queue).usable(old(heap)) && head < old(queue).size() && old(queue)@.ready {
                assert(old(queue).published(old(heap), &mid, head));
            }
        }
        r
    }

    /// Whether the device is done with a chain that the driver has not read
    /// from the used ring yet; `false` too when the queue is not ready or the
    /// ring cannot be read.
    fn has_used(&self, heap: &GlobalHeap, queue: &Queue) -> (r: bool)
        ensures
            !queue@.ready ==> !r,
            queue.usable(heap) ==> r == (queue@.ready && self@.last_used_idx != queue.used_idx(
                heap,
            )),
            queue.lost(heap) ==> !r,
    {
        if !queue.get_ready() {
            return false;
        }
        proof {
            if queue.usable(heap) {
                queue.lemma_usable_reaches(heap);
            }
            if queue.lost(heap) {
                queue.lemma_lost_reaches_nothing(heap);
            }
        }
        match queue.get_used_idx(heap) {
            Ok(idx) => self.last_used_idx != idx,
            Err(_) => false,
        }
    }

    /// The number of descriptors that are free: those in use less those
    /// that are in chains handed to the device.
    fn num_available_desc(&self, queue: &Queue) -> (r: usize)
        ensures
            r == if queue.size() >= self@.num_used {
                queue.size() - self@.num_used
            } else {
                0
            },
    {
        let n: usize = queue.get_queue_size();
        if n >= self.num_used as usize {
            n - self.num_used as usize
        } else {
            0
        }
    }

    /// The element of the used ring that the driver reads next, if the device
    /// is done with a chain that the driver has not read yet.
    fn pop_used(&self, heap: &GlobalHeap, queue: &Queue) -> (r: Option<RingUsedMetaElem>)
        ensures
            !queue@.ready ==> r is None,
            queue.lost(heap) ==> r is None,
            queue.usable(heap) && queue.size() > 0 ==> r == if queue@.ready
                && self@.last_used_idx != queue.used_idx(heap) {
                Some(queue.used_at(heap, self@.last_used_idx as int))
            } else {
                None
            },
    {
        if !self.has_used(heap, queue) {
            return None;
        }
        proof {
            if queue.usable(heap) {
                queue.lemma_usable_reaches(heap);
            }
        }
        match queue.get_used_elem(heap, self.last_used_idx) {
            Ok(elem) => Some(elem),
            Err(_) => None,
        }
    }

    /// Takes note that the driver has read the used ring up to its index,
    /// and, unless `keep_desc`, gives the chain that `used` names back to the
    /// free descriptors, as [`DefaultQueueServer::free_desc`] does. Fails
    /// with `ServerError`, changing nothing, when the device is done with no
    /// chain that the driver has not read yet.
    fn free_used(
        &mut self,
        heap: &mut GlobalHeap,
        queue: &Queue,
        used: &RingUsedMetaElem,
        keep_desc: bool,
    ) -> (r: Result<()>)
        ensures
            final(self).heap() == old(self).heap(),
            queue.lost(old(heap)) ==> (r matches Err(Error::ServerError(_))) && *final(heap)
                == *old(heap) && final(self)@ == old(self)@,
            queue.usable(old(heap)) && !(queue@.ready && old(self)@.last_used_idx
                != queue.used_idx(old(heap))) ==> (r matches Err(Error::ServerError(_)))
                && *final(heap) == *old(heap) && final(self)@ == old(self)@,
            queue.usable(old(heap)) && queue@.ready && old(self)@.last_used_idx != queue.used_idx(
                old(heap),
            ) && keep_desc ==> r is Ok && *final(heap) == *old(heap) && final(self)@
                == (ServerState {
                last_used_idx: queue.used_idx(old(heap)),
                ..old(self)@
            }),
            queue.usable(old(heap)) && queue@.ready && old(self)@.last_used_idx != queue.used_idx(
                old(heap),
            ) && !keep_desc ==> match queue.walk(
                old(heap),
                (used.id % 0x1_0000) as u16,
                queue.size() as nat,
            ) {
                None => (r matches Err(Error::InvalidDesc(_))) && *final(heap) == *old(heap)
                    && final(self)@ == old(self)@,
                Some(c) => if c.len() > old(self)@.num_used {
                    &&& r matches Err(Error::ServerError(_))
                    &&& *final(heap) == *old(heap)
                    &&& final(self)@ == old(self)@
                } else {
                    &&& r is Ok
                    &&& queue.table_became(
                        old(heap),
                        final(heap),
                        queue.table(old(heap)).update(
                            c.last().0 as int,
                            relinked(c.last().1, old(self)@.free_head),
                        ),
                    )
                    &&& final(self)@ == (ServerState {
                        num_used: (old(self)@.num_used - c.len()) as u16,
                        free_head: (used.id % 0x1_0000) as u16,
                        last_used_idx: queue.used_idx(final(heap)),
                    })
                },
            },
    {
        if !self.has_used(heap, queue) {
            return Err(
                Error::ServerError("there's no used, free_used() shouldn't be called!".to_owned()),
            );
        }
        if !keep_desc {
            match self.free_desc(heap, queue, (used.id % 0x1_0000) as u16) {
                Ok(()) => {},
                Err(e) => {
                    return Err(e);
                },
            }
        }
        proof {
            if queue.usable(heap) {
                queue.lemma_usable_reaches(heap);
            }
        }
        match queue.get_used_idx(heap) {
            Ok(idx) => {
                self.last_used_idx = idx;
                Ok(())
            },
            Err(e) => Err(e),
        }
    }
}

impl Queue {
    /// What the device records as used is what the driver finds: after
    /// [`Queue::set_used`] for the chain `desc_idx` and `len` bytes, the
    /// index of the used ring has gone up by one, and the element at the
    /// index that the ring had before names that chain and that length. A
    /// driver that had read the ring up to that index is therefore handed
    /// exactly this element by `pop_used`.
    pub proof fn lemma_used_is_found(
        &self,
        before: &GlobalHeap,
        after: &GlobalHeap,
        desc_idx: u16,
        len: u32,
    )
        requires
            self.usable(before),
            self.size() > 0,
            self.marked_used(before, after, desc_idx, len),
        ensures
            self.usable(after),
            self.used_idx(after) == if self.used_idx(before) == 0xffff {
                0u16
            } else {
                (self.used_idx(before) + 1) as u16
            },
            self.used_idx(after) != self.used_idx(before),
            self.used_at(after, self.used_idx(before) as int) == (RingUsedMetaElem {
                id: desc_idx as u32,
                len,
            }),
    {
        let at = self.used_idx(before);
        let elem = RingUsedMetaElem { id: desc_idx as u32, len };
        let next = if at == 0xffff {
            0u16
        } else {
            (at + 1) as u16
        };
        let n = self.size();
        assert(0 <= (at as int) % n < n) by (nonlinear_arith)
            requires
                n > 0,
                at >= 0,
        ;
        let mid = choose|mid: GlobalHeap| #[trigger]
            self.stored(before, &mid, self.used_pos(at as int), elem.bytes()) && self.stored(
                &mid,
                after,
                self.used_idx_pos(),
                spec_u16_to_le_bytes(next),
            );
        elem.lemma_bytes_round_trip();
        vstd::bytes::lemma_auto_spec_u16_to_from_le_bytes();
        self.lemma_stored(before, &mid, self.used_pos(at as int), elem.bytes());
        self.lemma_stored(&mid, after, self.used_idx_pos(), spec_u16_to_le_bytes(next));
        assert(self.bytes_at(after, self.used_pos(at as int), 8) == self.bytes_at(
            &mid,
            self.used_pos(at as int),
            8,
        ));
    }

    /// What the driver publishes is what the device is handed: after
    /// [`DefaultQueueServer::publish`] of the chain `head`, the index of the
    /// available ring has gone up by one, and the entry at the index that the
    /// ring had before is `head`. A device that had read the ring up to that
    /// index is therefore handed exactly this chain next.
    pub proof fn lemma_published_is_offered(
        &self,
        before: &GlobalHeap,
        after: &GlobalHeap,
        head: u16,
    )
        requires
            self.usable(before),
            self.size() > 0,
            self.published(before, after, head),
        ensures
            self.usable(after),
            self.avail_idx(after) == if self.avail_idx(before) == 0xffff {
                0u16
            } else {
                (self.avail_idx(before) + 1) as u16
            },
            self.avail_idx(after) != self.avail_idx(before),
            self.avail_at(after, self.avail_idx(before) as int) == head,
    {
        let at = self.avail_idx(before);
        let next = if at == 0xffff {
            0u16
        } else {
            (at + 1) as u16
        };
        let n = self.size();
        assert(0 <= (at as int) % n < n) by (nonlinear_arith)
            requires
                n > 0,
                at >= 0,
        ;
        let mid = choose|mid: GlobalHeap| #[trigger]
            self.stored(before, &mid, self.avail_pos(at as int), spec_u16_to_le_bytes(head))
                && self.stored(&mid, after, self.avail_idx_pos(), spec_u16_to_le_bytes(next));
        vstd::bytes::lemma_auto_spec_u16_to_from_le_bytes();
        self.lemma_stored(before, &mid, self.avail_pos(at as int), spec_u16_to_le_bytes(head));
        self.lemma_stored(&mid, after, self.avail_idx_pos(), spec_u16_to_le_bytes(next));
        assert(self.bytes_at(after, self.avail_pos(at as int), 2) == self.bytes_at(
            &mid,
            self.avail_pos(at as int),
            2,
        ));
    }
}

} // verus!

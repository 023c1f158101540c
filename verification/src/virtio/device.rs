//! The register file of a VirtIO device on a memory-mapped bus.

use vstd::prelude::*;
use vstd::bytes::{spec_u32_from_le_bytes, spec_u32_to_le_bytes, u32_from_le_bytes, u32_to_le_bytes};
use std::rc::Rc;
use crate::irq;
use crate::irq::{pending_mask, IrqBit, IrqVec, IrqVecSender, bit_set};
use crate::memory::region::{share, GlobalHeap, Region};
use crate::virtio::queue;
use crate::virtio::queue::{Queue, QueueClient, QueueState};
use crate::virtio::{
    MAX_QUEUE, MMIO_CONFIG, MMIO_DEVICE_FEATURES, MMIO_DEVICE_FEATURES_SEL, MMIO_DEVICE_ID,
    MMIO_INTERRUPT_ACK, MMIO_INTERRUPT_STATUS, MMIO_MAGIC_VALUE, MMIO_QUEUE_AVAIL_HIGH,
    MMIO_QUEUE_AVAIL_LOW, MMIO_QUEUE_DESC_HIGH, MMIO_QUEUE_DESC_LOW, MMIO_QUEUE_NOTIFY,
    MMIO_QUEUE_NUM, MMIO_QUEUE_NUM_MAX, MMIO_QUEUE_READY, MMIO_QUEUE_SEL, MMIO_QUEUE_USED_HIGH,
    MMIO_QUEUE_USED_LOW, MMIO_STATUS, MMIO_VENDOR_ID, MMIO_VERSION,
};

verus! {

/// The value of the magic register: `virt`, little-endian.
pub const MAGIC: u32 = 0x74726976;

/// The value of the version register.
pub const VERSION: u32 = 2;

/// The low 32 bits of `x`.
pub open spec fn low32(x: u64) -> u32 {
    (x % 0x1_0000_0000) as u32
}

/// The high 32 bits of `x`.
pub open spec fn high32(x: u64) -> u32 {
    (x / 0x1_0000_0000) as u32
}

/// `x` with its low 32 bits replaced by `val`.
pub open spec fn with_low32(x: u64, val: u32) -> u64 {
    ((x / 0x1_0000_0000) * 0x1_0000_0000 + val) as u64
}

/// `x` with its high 32 bits replaced by `val`.
pub open spec fn with_high32(x: u64, val: u32) -> u64 {
    (val * 0x1_0000_0000 + x % 0x1_0000_0000) as u64
}

fn low_half(x: u64) -> (r: u32)
    ensures
        r == low32(x),
{
    (x % 0x1_0000_0000) as u32
}

fn high_half(x: u64) -> (r: u32)
    ensures
        r == high32(x),
{
    (x / 0x1_0000_0000) as u32
}

fn set_low_half(x: u64, val: u32) -> (r: u64)
    ensures
        r == with_low32(x, val),
{
    (x / 0x1_0000_0000) * 0x1_0000_0000 + val as u64
}

fn set_high_half(x: u64, val: u32) -> (r: u64)
    ensures
        r == with_high32(x, val),
{
    val as u64 * 0x1_0000_0000 + x % 0x1_0000_0000
}

/// The registers of a device that are its own.
pub struct DeviceState {
    pub queue_sel: u32,
    pub status: u32,
    pub device_id: u32,
    pub vendor_id: u32,
    pub device_features: u32,
    pub device_features_sel: u32,
}

/// A sequence with one more element is one longer.
proof fn lemma_one_longer<A>(s: Seq<A>, a: A)
    ensures
        s.push(a).len() == s.len() + 1,
{
}

/// A VirtIO device: its queues, its interrupts and its registers.
pub struct Device {
    memory: Rc<Region>,
    queues: Vec<Queue>,
    clients: Vec<Box<dyn QueueClient>>,
    irq_sender: IrqVecSender,
    irq_vec: IrqVec,
    queue_sel: u32,
    status: u32,
    device_id: u32,
    vendor_id: u32,
    device_features: u32,
    device_features_sel: u32,
}

/// The state of a queue after a reset.
pub open spec fn reset_queue(q: QueueState) -> QueueState {
    QueueState {
        max_queue_size: q.max_queue_size,
        ready: false,
        queue_size: q.max_queue_size,
        last_avail_idx: 0,
        desc_addr: 0,
        avail_addr: 0,
        used_addr: 0,
    }
}

/// The bits of a vector after the pending bits that `mask` names have been
/// cleared.
pub open spec fn cleared(bits: Seq<IrqBit>, mask: u64) -> Seq<IrqBit> {
    Seq::new(
        bits.len(),
        |i: int| IrqBit { enable: bits[i].enable, pending: bits[i].pending && !bit_set(mask, i) },
    )
}

/// The bits of a vector after interrupt `num` has been cleared, where the
/// vector has it.
pub open spec fn lowered(bits: Seq<IrqBit>, num: usize) -> Seq<IrqBit> {
    if num < bits.len() {
        bits.update(num as int, IrqBit { enable: bits[num as int].enable, pending: false })
    } else {
        bits
    }
}

/// The bits of a vector after interrupt `num` has been sent, where the
/// vector has it.
pub open spec fn raised(bits: Seq<IrqBit>, num: usize) -> Seq<IrqBit> {
    if num < bits.len() {
        bits.update(
            num as int,
            IrqBit { enable: bits[num as int].enable, pending: bits[num as int].enable },
        )
    } else {
        bits
    }
}

impl Device {
    /// The registers of the device that are its own.
    pub closed spec fn view(&self) -> DeviceState {
        DeviceState {
            queue_sel: self.queue_sel,
            status: self.status,
            device_id: self.device_id,
            vendor_id: self.vendor_id,
            device_features: self.device_features,
            device_features_sel: self.device_features_sel,
        }
    }

    /// The region in which the queues of the device lie.
    pub closed spec fn memory_view(&self) -> Region {
        *self.memory
    }

    /// The fields of the queues of the device, in the order in which they
    /// were added.
    pub closed spec fn queues(&self) -> Seq<QueueState> {
        Seq::new(self.queues@.len(), |i: int| self.queues@[i]@)
    }

    /// The `i`-th queue of the device.
    pub closed spec fn queue_at(&self, i: int) -> Queue {
        self.queues@[i]
    }

    /// Whether `last`, `heap_after`, `irq_after` and `r` are what a
    /// notification makes of the `i`-th queue of the device, `heap` and `irq`
    /// when it hands the entries of the available ring up to index `end` to
    /// the client that the queue was added with, as [`Queue::served`] says.
    pub closed spec fn queue_served(
        &self,
        i: int,
        end: u16,
        heap: GlobalHeap,
        irq: IrqVec,
        last: u16,
        heap_after: GlobalHeap,
        irq_after: IrqVec,
        r: queue::Result<()>,
    ) -> bool {
        self.queues@[i].served(&*self.clients@[i], end, heap, irq, last, heap_after, irq_after, r)
    }

    /// The number of clients that the device holds: the device's side of
    /// each queue.
    pub closed spec fn client_count(&self) -> int {
        self.clients@.len() as int
    }

    /// Whether the device holds one client for each of its queues, as every
    /// device does that was made by [`Device::new`] and changed by the
    /// functions of this module.
    pub open spec fn wf(&self) -> bool {
        self.client_count() == self.queues().len()
    }

    /// The fields of the queues are those of the queues themselves.
    pub proof fn lemma_queue_at(&self, i: int)
        requires
            0 <= i < self.queues().len(),
        ensures
            self.queue_at(i)@ == self.queues()[i],
    {
    }

    /// The bits of the device's own interrupts.
    pub closed spec fn irq_status(&self) -> Seq<IrqBit> {
        self.irq_vec.status()
    }

    /// The device's own interrupts.
    pub closed spec fn irq_view(&self) -> IrqVec {
        self.irq_vec
    }

    /// The number of the interrupt that the device raises on the bus.
    pub closed spec fn line(&self) -> usize {
        self.irq_sender.id_spec()
    }

    /// The fields of the queue that the queue selector names, if it names
    /// one.
    pub open spec fn selected(&self) -> Option<QueueState> {
        if self@.queue_sel < self.queues().len() {
            Some(self.queues()[self@.queue_sel as int])
        } else {
            None
        }
    }

    /// A device without queues, with `num_irqs` interrupts of its own, all
    /// disabled, and every register that can be written zero. The device
    /// raises the interrupt that `irq_sender` names on the bus: one of its
    /// own interrupts is forwarded there by [`Device::send_irq`], and after a
    /// notification by [`Device::queue_notify`].
    pub fn new(
        memory: &Rc<Region>,
        irq_sender: IrqVecSender,
        num_irqs: usize,
        device_id: u32,
        vendor_id: u32,
        device_features: u32,
    ) -> (d: Device)
        ensures
            d.memory_view() == **memory,
            d.line() == irq_sender.id_spec(),
            d.queues().len() == 0,
            d.wf(),
            d.irq_status().len() == num_irqs,
            forall|i: int|
                0 <= i < num_irqs ==> (#[trigger] d.irq_status()[i]) == (IrqBit {
                    enable: false,
                    pending: false,
                }),
            d@ == (DeviceState {
                queue_sel: 0,
                status: 0,
                device_id,
                vendor_id,
                device_features,
                device_features_sel: 0,
            }),
    {
        Device {
            memory: share(memory),
            queues: Vec::new(),
            clients: Vec::new(),
            irq_sender,
            irq_vec: IrqVec::new(num_irqs),
            queue_sel: 0,
            status: 0,
            device_id,
            vendor_id,
            device_features,
            device_features_sel: 0,
        }
    }

    /// Resets the device: its interrupt on the bus is cleared, the queue
    /// selector, the status and the feature selector become zero, and every
    /// queue is reset.
    pub fn reset(&mut self, upstream: &mut IrqVec)
        ensures
            final(self).memory_view() == old(self).memory_view(),
            final(self).client_count() == old(self).client_count(),
            final(self).line() == old(self).line(),
            final(self).irq_view() == old(self).irq_view(),
            final(self)@ == (DeviceState {
                queue_sel: 0,
                status: 0,
                device_features_sel: 0,
                ..old(self)@
            }),
            final(self).queues() == old(self).queues().map_values(|q: QueueState| reset_queue(q)),
            final(upstream).status() == lowered(old(upstream).status(), old(self).line()),
            final(upstream).same_handlers(old(upstream)),
    {
        let cleared = self.irq_sender.clear(upstream);
        self.queue_sel = 0;
        self.status = 0;
        self.device_features_sel = 0;
        let n: usize = self.queues.len();
        let mut i: usize = 0;
        while i < n
            invariant
                n == self.queues@.len(),
                n == old(self).queues@.len(),
                i <= n,
                self.memory == old(self).memory,
                self.clients@.len() == old(self).clients@.len(),
                self.irq_sender == old(self).irq_sender,
                self.irq_vec == old(self).irq_vec,
                self@ == (DeviceState {
                    queue_sel: 0,
                    status: 0,
                    device_features_sel: 0,
                    ..old(self)@
                }),
                forall|k: int| 0 <= k < i ==> (#[trigger] self.queues@[k])@ == reset_queue(
                    old(self).queues@[k]@,
                ),
                forall|k: int| i <= k < n ==> (#[trigger] self.queues@[k])@
                    == old(self).queues@[k]@,
            decreases n - i,
        {
            self.queues[i].reset();
            i += 1;
        }
        assert(self.queues() =~= old(self).queues().map_values(|q: QueueState| reset_queue(q)));
    }

    /// Raises the device's own interrupt `num`, as [`IrqVecSender::send`]
    /// does, and forwards it: where the interrupt is enabled, the device's
    /// interrupt on the bus is sent too. Fails with `UnknownIRQ`, changing
    /// nothing, exactly when the device has no interrupt `num`.
    pub fn send_irq(&mut self, upstream: &mut IrqVec, num: usize) -> (r: irq::Result<()>)
        ensures
            final(self).memory_view() == old(self).memory_view(),
            final(self).client_count() == old(self).client_count(),
            final(self).line() == old(self).line(),
            final(self)@ == old(self)@,
            final(self).queues() == old(self).queues(),
            final(self).irq_view().same_handlers(&old(self).irq_view()),
            final(upstream).same_handlers(old(upstream)),
            num >= old(self).irq_status().len() ==> {
                &&& r == Err::<(), irq::Error>(irq::Error::UnknownIRQ(num))
                &&& final(self).irq_status() == old(self).irq_status()
                &&& final(upstream).status() == old(upstream).status()
            },
            num < old(self).irq_status().len() ==> {
                &&& r is Ok
                &&& final(self).irq_status() == raised(old(self).irq_status(), num)
                &&& final(upstream).status() == if old(self).irq_status()[num as int].enable {
                    raised(old(upstream).status(), old(self).line())
                } else {
                    old(upstream).status()
                }
            },
    {
        let sender: IrqVecSender = match self.irq_vec.sender(num) {
            Ok(sender) => sender,
            Err(e) => {
                return Err(e);
            },
        };
        let enabled: bool = self.irq_vec.enable_uncheck(num);
        let r = sender.send(&mut self.irq_vec);
        if enabled {
            let _ = self.irq_sender.send(upstream);
        }
        r
    }

    /// The number of the interrupt that the device raises on the bus.
    pub fn irq_id(&self) -> (r: usize)
        ensures
            r == self.line(),
    {
        self.irq_sender.id()
    }

    /// The number of queues.
    pub fn queue_count(&self) -> (r: usize)
        ensures
            r == self.queues().len(),
    {
        self.queues.len()
    }

    /// Adds `queue` as the last queue of the device, with `client` as the
    /// device's side of it: the device then holds one client more, so that
    /// it keeps one for each queue.
    pub fn add_queue(&mut self, queue: Queue, client: Box<dyn QueueClient>)
        requires
            old(self).queues().len() < MAX_QUEUE,
        ensures
            final(self).memory_view() == old(self).memory_view(),
            final(self).client_count() == old(self).client_count() + 1,
            old(self).wf() ==> final(self).wf(),
            final(self).line() == old(self).line(),
            final(self).irq_view() == old(self).irq_view(),
            final(self)@ == old(self)@,
            final(self).queues() == old(self).queues().push(queue@),
            final(self).queue_at(old(self).queues().len() as int) == queue,
            forall|i: int|
                0 <= i < old(self).queues().len() ==> #[trigger] final(self).queue_at(i)
                    == old(self).queue_at(i),
    {
        let ghost state = queue@;
        let ghost side = client;
        self.queues.push(queue);
        self.clients.push(client);
        proof {
            lemma_one_longer(old(self).clients@, side);
        }
        assert(self.queues() =~= old(self).queues().push(state));
    }

    /// The `id`-th queue.
    pub fn get_queue(&self, id: usize) -> (q: &Queue)
        requires
            id < self.queues().len(),
        ensures
            *q == self.queue_at(id as int),
            q@ == self.queues()[id as int],
    {
        &self.queues[id]
    }

    /// The device's own interrupts.
    pub fn get_irq_vec(&self) -> (v: &IrqVec)
        ensures
            *v == self.irq_view(),
            v.status() == self.irq_status(),
    {
        &self.irq_vec
    }

    /// The region in which the queues of the device lie.
    pub fn memory(&self) -> (m: &Rc<Region>)
        ensures
            **m == self.memory_view(),
    {
        &self.memory
    }
}

impl Device {
    /// Whether the two devices differ in nothing but the fields of their
    /// queues.
    pub open spec fn same_but_queues(&self, before: &Device) -> bool {
        &&& self.memory_view() == before.memory_view()
        &&& self.client_count() == before.client_count()
        &&& self.line() == before.line()
        &&& self.irq_view() == before.irq_view()
        &&& self@ == before@
        &&& self.queues().len() == before.queues().len()
        &&& forall|i: int|
            0 <= i < self.queues().len() ==> #[trigger] self.queue_at(i).memory()
                == before.queue_at(
                i,
            ).memory()
    }

    /// The index of the queue that the queue selector names, if it names
    /// one.
    fn selected_index(&self) -> (r: Option<usize>)
        ensures
            match r {
                Some(i) => i == self@.queue_sel && i < self.queues().len() && self.selected()
                    == Some(self.queues()[i as int]),
                None => self.selected() is None,
            },
    {
        if (self.queue_sel as usize) < self.queues.len() {
            Some(self.queue_sel as usize)
        } else {
            None
        }
    }

    /// The magic value.
    pub fn magic(&self) -> (r: u32)
        ensures
            r == MAGIC,
    {
        MAGIC
    }

    /// The version of the register layout.
    pub fn version(&self) -> (r: u32)
        ensures
            r == VERSION,
    {
        VERSION
    }

    pub fn device_id(&self) -> (r: u32)
        ensures
            r == self@.device_id,
    {
        self.device_id
    }

    pub fn vendor_id(&self) -> (r: u32)
        ensures
            r == self@.vendor_id,
    {
        self.vendor_id
    }

    /// The word of the device's features that the feature selector names:
    /// the features themselves for 0, the value 1 for 1, and 0 for any other.
    pub fn device_features(&self) -> (r: u32)
        ensures
            r == self.features_word(),
    {
        if self.device_features_sel == 0 {
            self.device_features
        } else if self.device_features_sel == 1 {
            1
        } else {
            0
        }
    }

    /// The word of the device's features that the feature selector names.
    pub open spec fn features_word(&self) -> u32 {
        if self@.device_features_sel == 0 {
            self@.device_features
        } else if self@.device_features_sel == 1 {
            1
        } else {
            0
        }
    }

    pub fn device_features_sel(&self) -> (r: u32)
        ensures
            r == self@.device_features_sel,
    {
        self.device_features_sel
    }

    pub fn set_device_features_sel(&mut self, val: &u32)
        ensures
            final(self).memory_view() == old(self).memory_view(),
            final(self).client_count() == old(self).client_count(),
            final(self).line() == old(self).line(),
            final(self).irq_view() == old(self).irq_view(),
            final(self).queues() == old(self).queues(),
            final(self)@ == (DeviceState { device_features_sel: *val, ..old(self)@ }),
    {
        self.device_features_sel = *val
    }

    pub fn queue_sel(&self) -> (r: u32)
        ensures
            r == self@.queue_sel,
    {
        self.queue_sel
    }

    /// Selects the queue `val`, which the device has.
    pub fn set_queue_sel(&mut self, val: &u32)
        requires
            *val < old(self).queues().len(),
        ensures
            final(self).memory_view() == old(self).memory_view(),
            final(self).client_count() == old(self).client_count(),
            final(self).line() == old(self).line(),
            final(self).irq_view() == old(self).irq_view(),
            final(self).queues() == old(self).queues(),
            final(self)@ == (DeviceState { queue_sel: *val, ..old(self)@ }),
    {
        self.queue_sel = *val
    }

    /// The size that the selected queue was made with; 0 when no queue is selected.
    pub fn queue_num_max(&self) -> (r: u32)
        ensures
            r == match self.selected() {
                Some(q) => q.max_queue_size as u32,
                None => 0u32,
            },
    {
        match self.selected_index() {
            Some(i) => {
                let q: &Queue = &self.queues[i];
                assert(q@ == self.queues()[i as int]);
                q.get_queue_max_size() as u32
            },
            None => 0,
        }
    }

    /// The number of descriptors that the selected queue has in use; 0 when no queue is selected.
    pub fn queue_num(&self) -> (r: u32)
        ensures
            r == match self.selected() {
                Some(q) => (if q.queue_size < q.max_queue_size {
                    q.queue_size
                } else {
                    q.max_queue_size
                }) as u32,
                None => 0u32,
            },
    {
        match self.selected_index() {
            Some(i) => {
                let q: &Queue = &self.queues[i];
                assert(q@ == self.queues()[i as int]);
                q.get_queue_size() as u32
            },
            None => 0,
        }
    }

    /// Sets the size of the selected queue to the low 16 bits of `val`; does nothing when no queue is selected.
    pub fn set_queue_num(&mut self, val: &u32)
        ensures
            final(self).same_but_queues(old(self)),
            final(self).queues() == match old(self).selected() {
                Some(q) => old(self).queues().update(
                    old(self)@.queue_sel as int,
                    QueueState { queue_size: (*val % 0x1_0000) as u16, ..q },
                ),
                None => old(self).queues(),
            },
    {
        match self.selected_index() {
            Some(i) => {
                let ghost before = self.queues@;
                assert(before[i as int]@ == self.queues()[i as int]);
                self.queues[i].set_queue_size((*val % 0x1_0000) as u16);
                assert(self.queues() =~= old(self).queues().update(
                    i as int,
                    self.queues@[i as int]@,
                ));
            },
            None => {},
        }
    }

    /// The low half of the address of the selected queue's descriptor table.
    pub fn queue_desc_low(&self) -> (r: u32)
        ensures
            r == match self.selected() {
                Some(q) => low32(q.desc_addr),
                None => 0u32,
            },
    {
        match self.selected_index() {
            Some(i) => {
                let q: &Queue = &self.queues[i];
                assert(q@ == self.queues()[i as int]);
                low_half(q.get_desc_addr())
            },
            None => 0,
        }
    }

    /// Sets the low half of the address of the selected queue's descriptor table.
    pub fn set_queue_desc_low(&mut self, val: &u32)
        ensures
            final(self).same_but_queues(old(self)),
            final(self).queues() == match old(self).selected() {
                Some(q) => old(self).queues().update(
                    old(self)@.queue_sel as int,
                    QueueState { desc_addr: with_low32(q.desc_addr, *val), ..q },
                ),
                None => old(self).queues(),
            },
    {
        match self.selected_index() {
            Some(i) => {
                let ghost before = self.queues@;
                assert(before[i as int]@ == self.queues()[i as int]);
                let addr: u64 = set_low_half(self.queues[i].get_desc_addr(), *val);
                self.queues[i].set_desc_addr(addr);
                assert(self.queues() =~= old(self).queues().update(
                    i as int,
                    self.queues@[i as int]@,
                ));
            },
            None => {},
        }
    }

    /// The high half of the address of the selected queue's descriptor table.
    pub fn queue_desc_high(&self) -> (r: u32)
        ensures
            r == match self.selected() {
                Some(q) => high32(q.desc_addr),
                None => 0u32,
            },
    {
        match self.selected_index() {
            Some(i) => {
                let q: &Queue = &self.queues[i];
                assert(q@ == self.queues()[i as int]);
                high_half(q.get_desc_addr())
            },
            None => 0,
        }
    }

    /// Sets the high half of the address of the selected queue's descriptor table.
    pub fn set_queue_desc_high(&mut self, val: &u32)
        ensures
            final(self).same_but_queues(old(self)),
            final(self).queues() == match old(self).selected() {
                Some(q) => old(self).queues().update(
                    old(self)@.queue_sel as int,
                    QueueState { desc_addr: with_high32(q.desc_addr, *val), ..q },
                ),
                None => old(self).queues(),
            },
    {
        match self.selected_index() {
            Some(i) => {
                let ghost before = self.queues@;
                assert(before[i as int]@ == self.queues()[i as int]);
                let addr: u64 = set_high_half(self.queues[i].get_desc_addr(), *val);
                self.queues[i].set_desc_addr(addr);
                assert(self.queues() =~= old(self).queues().update(
                    i as int,
                    self.queues@[i as int]@,
                ));
            },
            None => {},
        }
    }

    /// The low half of the address of the selected queue's available ring.
    pub fn queue_avail_low(&self) -> (r: u32)
        ensures
            r == match self.selected() {
                Some(q) => low32(q.avail_addr),
                None => 0u32,
            },
    {
        match self.selected_index() {
            Some(i) => {
                let q: &Queue = &self.queues[i];
                assert(q@ == self.queues()[i as int]);
                low_half(q.get_avail_addr())
            },
            None => 0,
        }
    }

    /// Sets the low half of the address of the selected queue's available ring.
    pub fn set_queue_avail_low(&mut self, val: &u32)
        ensures
            final(self).same_but_queues(old(self)),
            final(self).queues() == match old(self).selected() {
                Some(q) => old(self).queues().update(
                    old(self)@.queue_sel as int,
                    QueueState { avail_addr: with_low32(q.avail_addr, *val), ..q },
                ),
                None => old(self).queues(),
            },
    {
        match self.selected_index() {
            Some(i) => {
                let ghost before = self.queues@;
                assert(before[i as int]@ == self.queues()[i as int]);
                let addr: u64 = set_low_half(self.queues[i].get_avail_addr(), *val);
                self.queues[i].set_avail_addr(addr);
                assert(self.queues() =~= old(self).queues().update(
                    i as int,
                    self.queues@[i as int]@,
                ));
            },
            None => {},
        }
    }

    /// The high half of the address of the selected queue's available ring.
    pub fn queue_avail_high(&self) -> (r: u32)
        ensures
            r == match self.selected() {
                Some(q) => high32(q.avail_addr),
                None => 0u32,
            },
    {
        match self.selected_index() {
            Some(i) => {
                let q: &Queue = &self.queues[i];
                assert(q@ == self.queues()[i as int]);
                high_half(q.get_avail_addr())
            },
            None => 0,
        }
    }

    /// Sets the high half of the address of the selected queue's available ring.
    pub fn set_queue_avail_high(&mut self, val: &u32)
        ensures
            final(self).same_but_queues(old(self)),
            final(self).queues() == match old(self).selected() {
                Some(q) => old(self).queues().update(
                    old(self)@.queue_sel as int,
                    QueueState { avail_addr: with_high32(q.avail_addr, *val), ..q },
                ),
                None => old(self).queues(),
            },
    {
        match self.selected_index() {
            Some(i) => {
                let ghost before = self.queues@;
                assert(before[i as int]@ == self.queues()[i as int]);
                let addr: u64 = set_high_half(self.queues[i].get_avail_addr(), *val);
                self.queues[i].set_avail_addr(addr);
                assert(self.queues() =~= old(self).queues().update(
                    i as int,
                    self.queues@[i as int]@,
                ));
            },
            None => {},
        }
    }

    /// The low half of the address of the selected queue's used ring.
    pub fn queue_used_low(&self) -> (r: u32)
        ensures
            r == match self.selected() {
                Some(q) => low32(q.used_addr),
                None => 0u32,
            },
    {
        match self.selected_index() {
            Some(i) => {
                let q: &Queue = &self.queues[i];
                assert(q@ == self.queues()[i as int]);
                low_half(q.get_used_addr())
            },
            None => 0,
        }
    }

    /// Sets the low half of the address of the selected queue's used ring.
    pub fn set_queue_used_low(&mut self, val: &u32)
        ensures
            final(self).same_but_queues(old(self)),
            final(self).queues() == match old(self).selected() {
                Some(q) => old(self).queues().update(
                    old(self)@.queue_sel as int,
                    QueueState { used_addr: with_low32(q.used_addr, *val), ..q },
                ),
                None => old(self).queues(),
            },
    {
        match self.selected_index() {
            Some(i) => {
                let ghost before = self.queues@;
                assert(before[i as int]@ == self.queues()[i as int]);
                let addr: u64 = set_low_half(self.queues[i].get_used_addr(), *val);
                self.queues[i].set_used_addr(addr);
                assert(self.queues() =~= old(self).queues().update(
                    i as int,
                    self.queues@[i as int]@,
                ));
            },
            None => {},
        }
    }

    /// The high half of the address of the selected queue's used ring.
    pub fn queue_used_high(&self) -> (r: u32)
        ensures
            r == match self.selected() {
                Some(q) => high32(q.used_addr),
                None => 0u32,
            },
    {
        match self.selected_index() {
            Some(i) => {
                let q: &Queue = &self.queues[i];
                assert(q@ == self.queues()[i as int]);
                high_half(q.get_used_addr())
            },
            None => 0,
        }
    }

    /// Sets the high half of the address of the selected queue's used ring.
    pub fn set_queue_used_high(&mut self, val: &u32)
        ensures
            final(self).same_but_queues(old(self)),
            final(self).queues() == match old(self).selected() {
                Some(q) => old(self).queues().update(
                    old(self)@.queue_sel as int,
                    QueueState { used_addr: with_high32(q.used_addr, *val), ..q },
                ),
                None => old(self).queues(),
            },
    {
        match self.selected_index() {
            Some(i) => {
                let ghost before = self.queues@;
                assert(before[i as int]@ == self.queues()[i as int]);
                let addr: u64 = set_high_half(self.queues[i].get_used_addr(), *val);
                self.queues[i].set_used_addr(addr);
                assert(self.queues() =~= old(self).queues().update(
                    i as int,
                    self.queues@[i as int]@,
                ));
            },
            None => {},
        }
    }

    /// 1 when the selected queue is ready, else 0.
    pub fn queue_ready(&self) -> (r: u32)
        ensures
            r == match self.selected() {
                Some(q) => if q.ready { 1u32 } else { 0u32 },
                None => 0u32,
            },
    {
        match self.selected_index() {
            Some(i) => {
                let q: &Queue = &self.queues[i];
                assert(q@ == self.queues()[i as int]);
                if q.get_ready() { 1 } else { 0 }
            },
            None => 0,
        }
    }

    /// Makes the selected queue ready when bit 0 of `val` is set, and not ready when it is not.
    pub fn set_queue_ready(&mut self, val: &u32)
        ensures
            final(self).same_but_queues(old(self)),
            final(self).queues() == match old(self).selected() {
                Some(q) => old(self).queues().update(
                    old(self)@.queue_sel as int,
                    QueueState { ready: *val % 2 == 1, ..q },
                ),
                None => old(self).queues(),
            },
    {
        match self.selected_index() {
            Some(i) => {
                let ghost before = self.queues@;
                assert(before[i as int]@ == self.queues()[i as int]);
                self.queues[i].set_ready(*val % 2 == 1);
                assert(self.queues() =~= old(self).queues().update(
                    i as int,
                    self.queues@[i as int]@,
                ));
            },
            None => {},
        }
    }

    /// The low 32 bits of the mask of the device's interrupts that are
    /// enabled and pending.
    pub fn int_status(&self) -> (r: u32)
        ensures
            r == low32(pending_mask(self.irq_status())),
    {
        low_half(self.irq_vec.pendings())
    }

    /// Acknowledges the interrupts that `val` names: their pending bits are
    /// cleared; when no interrupt of the device is enabled and pending any
    /// more, the device's interrupt on the bus is cleared too.
    pub fn int_ack(&mut self, upstream: &mut IrqVec, val: &u32)
        ensures
            final(self).memory_view() == old(self).memory_view(),
            final(self).client_count() == old(self).client_count(),
            final(self).line() == old(self).line(),
            final(self).queues() == old(self).queues(),
            final(self)@ == old(self)@,
            final(self).irq_status() == cleared(old(self).irq_status(), *val as u64),
            final(self).irq_view().same_handlers(&old(self).irq_view()),
            final(upstream).same_handlers(old(upstream)),
            final(upstream).status() == if pending_mask(
                cleared(old(self).irq_status(), *val as u64),
            ) == 0 {
                lowered(old(upstream).status(), old(self).line())
            } else {
                old(upstream).status()
            },
    {
        self.irq_vec.clr_pendings(*val as u64);
        assert(self.irq_status() =~= cleared(old(self).irq_status(), *val as u64));
        if self.irq_vec.pendings() == 0 {
            let _ = self.irq_sender.clear(upstream);
        }
    }

    pub fn status(&self) -> (r: u32)
        ensures
            r == self@.status,
    {
        self.status
    }

    /// Sets the status; the value 0 resets the device, as
    /// [`Device::reset`] does.
    pub fn set_status(&mut self, upstream: &mut IrqVec, val: &u32)
        ensures
            final(self).memory_view() == old(self).memory_view(),
            final(self).client_count() == old(self).client_count(),
            final(self).line() == old(self).line(),
            final(self).irq_view() == old(self).irq_view(),
            final(upstream).same_handlers(old(upstream)),
            *val != 0 ==> {
                &&& final(self)@ == (DeviceState { status: *val, ..old(self)@ })
                &&& final(self).queues() == old(self).queues()
                &&& final(upstream).status() == old(upstream).status()
            },
            *val == 0 ==> {
                &&& final(self)@ == (DeviceState {
                    queue_sel: 0,
                    status: 0,
                    device_features_sel: 0,
                    ..old(self)@
                })
                &&& final(self).queues() == old(self).queues().map_values(
                    |q: QueueState| reset_queue(q),
                )
                &&& final(upstream).status() == lowered(old(upstream).status(), old(self).line())
            },
    {
        if *val == 0 {
            self.reset(upstream);
        }
        self.status = *val;
    }

    /// The value at `offset` of the device-specific configuration: a plain
    /// device has none, and answers with 0.
    pub fn config(&self, offset: u64) -> (r: u32)
        ensures
            r == 0,
    {
        0
    }

    /// Writes into the device-specific configuration: a plain device has
    /// none, and ignores the write.
    pub fn set_config(&mut self, offset: u64, val: &u32)
        ensures
            *final(self) == *old(self),
    {
    }

    /// The mask of the bytes that an access at `offset` of the configuration
    /// covers: one byte at an odd offset, two at an offset that is a multiple
    /// of 2 only, four at a multiple of 4 only, and eight at a multiple of 8.
    pub fn config_mask(&self, offset: &u64) -> (r: u64)
        ensures
            r == if *offset % 2 != 0 {
                0xffu64
            } else if *offset % 4 != 0 {
                0xffffu64
            } else if *offset % 8 != 0 {
                0xffff_ffffu64
            } else {
                0xffff_ffff_ffff_ffffu64
            },
    {
        if *offset % 2 != 0 {
            0xff
        } else if *offset % 4 != 0 {
            0xffff
        } else if *offset % 8 != 0 {
            0xffff_ffff
        } else {
            0xffff_ffff_ffff_ffff
        }
    }

    /// Whether this device, `heap_after`, `bus_after` and the answer `r` are
    /// what a notification of queue `val` can make of `before`,
    /// `heap_before` and `bus_before`. The device's own registers stay, and of
    /// the queues only the place up to which queue `val` has read the
    /// available ring changes. A notification of a queue that the device does
    /// not have changes nothing, and one of a queue that is not ready fails
    /// with `NotReady` and changes nothing but the bus; so does every
    /// notification that ends before the client is asked, with the answer
    /// that [`Queue::ends_early`] gives. In a queue that is ready and whose
    /// ring can be read, the entries are handed to the queue's client as
    /// [`Device::queue_served`] says, with the device's own interrupts. On the
    /// bus the
    /// device's interrupt is sent exactly when, after the notification, one
    /// of the device's own interrupts is enabled and pending.
    pub open spec fn notified(
        &self,
        before: &Device,
        heap_before: &GlobalHeap,
        heap_after: &GlobalHeap,
        bus_before: &IrqVec,
        bus_after: &IrqVec,
        val: u32,
        r: queue::Result<()>,
    ) -> bool {
        &&& self.memory_view() == before.memory_view()
        &&& self.client_count() == before.client_count()
        &&& self.line() == before.line()
        &&& self@ == before@
        &&& self.queues().len() == before.queues().len()
        &&& forall|i: int|
            0 <= i < before.queues().len() ==> (#[trigger] self.queues()[i]) == if i == val {
                QueueState {
                    last_avail_idx: self.queues()[i].last_avail_idx,
                    ..before.queues()[i]
                }
            } else {
                before.queues()[i]
            }
        &&& bus_after.same_handlers(bus_before)
        &&& val >= before.queues().len() ==> {
            &&& r is Ok
            &&& *heap_after == *heap_before
            &&& bus_after.status() == bus_before.status()
            &&& self.irq_view() == before.irq_view()
            &&& self.queues() == before.queues()
        }
        &&& val < before.queues().len() ==> bus_after.status() == if pending_mask(
            self.irq_status(),
        ) != 0 {
            raised(bus_before.status(), before.line())
        } else {
            bus_before.status()
        }
        &&& val < before.queues().len() && !before.queues()[val as int].ready ==> {
            &&& r == Err::<(), queue::Error>(queue::Error::NotReady)
            &&& *heap_after == *heap_before
            &&& self.queues() == before.queues()
            &&& self.irq_view() == before.irq_view()
        }
        &&& val < before.queues().len() && before.queues()[val as int].ready && before.queue_at(
            val as int,
        ).usable(heap_before) && before.queue_at(val as int).avail_idx(heap_before)
            == before.queues()[val as int].last_avail_idx ==> {
            &&& r is Ok
            &&& *heap_after == *heap_before
            &&& self.queues() == before.queues()
            &&& self.irq_view() == before.irq_view()
        }
        &&& val < before.queues().len() ==> (before.queue_at(val as int).ends_early(
            heap_before,
        ) matches Some(early) ==> {
            &&& early.answered(r)
            &&& *heap_after == *heap_before
            &&& self.queues() == before.queues()
            &&& self.irq_view() == before.irq_view()
        })
        &&& val < before.queues().len() ==> {
            let q = before.queue_at(val as int);
            q@.ready && !q.memory().is_io() && q.reaches(heap_before, q.avail_idx_pos(), 2)
                ==> before.queue_served(
                val as int,
                q.avail_idx(heap_before),
                *heap_before,
                before.irq_view(),
                self.queues()[val as int].last_avail_idx,
                *heap_after,
                self.irq_view(),
                r,
            )
        }
    }

    /// Notifies queue `val` that the driver has made chains available, as
    /// [`Queue::notify_client`] does with the client that the queue was
    /// added with; afterwards the device's interrupt on the bus is sent when
    /// one of the device's own interrupts is enabled and pending. Does
    /// nothing when the device has no queue `val`.
    pub fn queue_notify(&mut self, heap: &mut GlobalHeap, upstream: &mut IrqVec, val: &u32) -> (r:
        queue::Result<()>)
        requires
            old(self).wf(),
        ensures
            final(self).wf(),
            final(self).notified(
                old(self),
                old(heap),
                final(heap),
                old(upstream),
                final(upstream),
                *val,
                r,
            ),
    {
        let id: usize = *val as usize;
        if id >= self.queues.len() {
            proof {
                assert(self.queues() =~= old(self).queues());
            }
            return Ok(());
        }
        let ghost before = self.queues@;
        let r = self.queues[id].notify_client(heap, &mut self.irq_vec, &*self.clients[id]);
        proof {
            assert forall|i: int| 0 <= i < before.len() && i != id implies self.queues@[i]
                == before[i] by {}
        }
        proof {
            if before[id as int].usable(old(heap)) {
                before[id as int].lemma_usable_ends_early(old(heap));
            }
            if before[id as int].ends_early(old(heap)) is Some {
                assert(self.queues() =~= old(self).queues());
            }
            let q = before[id as int];
            if q@.ready && !q.memory().is_io() && q.reaches(old(heap), q.avail_idx_pos(), 2) {
                assert(self.clients@ == old(self).clients@);
                assert(q.served(
                    &*self.clients@[id as int],
                    q.avail_idx(old(heap)),
                    *old(heap),
                    old(self).irq_vec,
                    self.queues@[id as int]@.last_avail_idx,
                    *heap,
                    self.irq_vec,
                    r,
                ));
            }
        }
        if self.irq_vec.pendings() != 0 {
            let _ = self.irq_sender.send(upstream);
        }
        r
    }
}

/// The offset of a register that is read or written at `offset`: the offset
/// itself where it is a multiple of 4 below the configuration area, and else
/// an offset at which there is no register.
pub open spec fn register_at(offset: u64) -> u64 {
    if offset % 4 == 0 && offset < MMIO_CONFIG {
        offset
    } else {
        0xffff
    }
}

impl Device {
    /// The value that a read of the register at `offset` answers with. An
    /// offset that is no multiple of 4, an offset at which there is no
    /// register, and an offset in the configuration area read as 0.
    pub open spec fn register(&self, offset: u64) -> u32 {
        let reg = register_at(offset);
        let q = self.selected();
        if reg == MMIO_MAGIC_VALUE {
            MAGIC
        } else if reg == MMIO_VERSION {
            VERSION
        } else if reg == MMIO_DEVICE_ID {
            self@.device_id
        } else if reg == MMIO_VENDOR_ID {
            self@.vendor_id
        } else if reg == MMIO_DEVICE_FEATURES {
            self.features_word()
        } else if reg == MMIO_DEVICE_FEATURES_SEL {
            self@.device_features_sel
        } else if reg == MMIO_QUEUE_SEL {
            self@.queue_sel
        } else if reg == MMIO_INTERRUPT_STATUS {
            low32(pending_mask(self.irq_status()))
        } else if reg == MMIO_STATUS {
            self@.status
        } else {
            match q {
                None => 0u32,
                Some(q) => if reg == MMIO_QUEUE_NUM_MAX {
                    q.max_queue_size as u32
                } else if reg == MMIO_QUEUE_NUM {
                    (if q.queue_size < q.max_queue_size {
                        q.queue_size
                    } else {
                        q.max_queue_size
                    }) as u32
                } else if reg == MMIO_QUEUE_DESC_LOW {
                    low32(q.desc_addr)
                } else if reg == MMIO_QUEUE_DESC_HIGH {
                    high32(q.desc_addr)
                } else if reg == MMIO_QUEUE_AVAIL_LOW {
                    low32(q.avail_addr)
                } else if reg == MMIO_QUEUE_AVAIL_HIGH {
                    high32(q.avail_addr)
                } else if reg == MMIO_QUEUE_USED_LOW {
                    low32(q.used_addr)
                } else if reg == MMIO_QUEUE_USED_HIGH {
                    high32(q.used_addr)
                } else if reg == MMIO_QUEUE_READY {
                    if q.ready {
                        1u32
                    } else {
                        0u32
                    }
                } else {
                    0u32
                },
            }
        }
    }

    /// The device's own registers after `val` has been written to the
    /// register at `offset`.
    pub open spec fn state_after(&self, offset: u64, val: u32) -> DeviceState {
        let reg = register_at(offset);
        if reg == MMIO_DEVICE_FEATURES_SEL {
            DeviceState { device_features_sel: val, ..self@ }
        } else if reg == MMIO_QUEUE_SEL && val < self.queues().len() {
            DeviceState { queue_sel: val, ..self@ }
        } else if reg == MMIO_STATUS && val == 0 {
            DeviceState { queue_sel: 0, status: 0, device_features_sel: 0, ..self@ }
        } else if reg == MMIO_STATUS {
            DeviceState { status: val, ..self@ }
        } else {
            self@
        }
    }

    /// The fields of the selected queue after `val` has been written to the
    /// register at `offset`.
    pub open spec fn queue_after(q: QueueState, offset: u64, val: u32) -> QueueState {
        let reg = register_at(offset);
        if reg == MMIO_QUEUE_NUM {
            QueueState { queue_size: (val % 0x1_0000) as u16, ..q }
        } else if reg == MMIO_QUEUE_DESC_LOW {
            QueueState { desc_addr: with_low32(q.desc_addr, val), ..q }
        } else if reg == MMIO_QUEUE_DESC_HIGH {
            QueueState { desc_addr: with_high32(q.desc_addr, val), ..q }
        } else if reg == MMIO_QUEUE_AVAIL_LOW {
            QueueState { avail_addr: with_low32(q.avail_addr, val), ..q }
        } else if reg == MMIO_QUEUE_AVAIL_HIGH {
            QueueState { avail_addr: with_high32(q.avail_addr, val), ..q }
        } else if reg == MMIO_QUEUE_USED_LOW {
            QueueState { used_addr: with_low32(q.used_addr, val), ..q }
        } else if reg == MMIO_QUEUE_USED_HIGH {
            QueueState { used_addr: with_high32(q.used_addr, val), ..q }
        } else if reg == MMIO_QUEUE_READY {
            QueueState { ready: val % 2 == 1, ..q }
        } else {
            q
        }
    }

    /// The fields of the queues after `val` has been written to the register
    /// at `offset`.
    pub open spec fn queues_after(&self, offset: u64, val: u32) -> Seq<QueueState> {
        if register_at(offset) == MMIO_STATUS && val == 0 {
            self.queues().map_values(|q: QueueState| reset_queue(q))
        } else {
            match self.selected() {
                Some(q) => self.queues().update(
                    self@.queue_sel as int,
                    Self::queue_after(q, offset, val),
                ),
                None => self.queues(),
            }
        }
    }

    /// The bits of the device's own interrupts after `val` has been written
    /// to the register at `offset`.
    pub open spec fn irq_after(&self, offset: u64, val: u32) -> Seq<IrqBit> {
        if register_at(offset) == MMIO_INTERRUPT_ACK {
            cleared(self.irq_status(), val as u64)
        } else {
            self.irq_status()
        }
    }

    /// The bits of the interrupts of the bus after `val` has been written to
    /// the register at `offset`.
    pub open spec fn bus_after(&self, bus: Seq<IrqBit>, offset: u64, val: u32) -> Seq<IrqBit> {
        let reg = register_at(offset);
        if (reg == MMIO_INTERRUPT_ACK && pending_mask(self.irq_after(offset, val)) == 0) || (reg
            == MMIO_STATUS && val == 0) {
            lowered(bus, self.line())
        } else {
            bus
        }
    }

    /// Whether this device and `bus_after` are what a write of `val` to a
    /// register other than the notification register at `offset` makes of
    /// `before` and `bus_before`.
    pub open spec fn written(
        &self,
        before: &Device,
        bus_before: &IrqVec,
        bus_after: &IrqVec,
        offset: u64,
        val: u32,
    ) -> bool {
        &&& self.memory_view() == before.memory_view()
        &&& self.client_count() == before.client_count()
        &&& self.line() == before.line()
        &&& self.irq_view().same_handlers(&before.irq_view())
        &&& bus_after.same_handlers(bus_before)
        &&& self@ == before.state_after(offset, val)
        &&& self.queues() == before.queues_after(offset, val)
        &&& self.irq_status() == before.irq_after(offset, val)
        &&& bus_after.status() == before.bus_after(bus_before.status(), offset, val)
    }

    /// Reads the register at `offset`.
    pub fn read_register(&self, offset: &u64) -> (r: u32)
        ensures
            r == self.register(*offset),
    {
        if *offset >= MMIO_CONFIG {
            return self.config(*offset - MMIO_CONFIG);
        }
        if *offset % 4 != 0 {
            return 0;
        }
        let reg: u64 = *offset;
        if reg == MMIO_MAGIC_VALUE {
            self.magic()
        } else if reg == MMIO_VERSION {
            self.version()
        } else if reg == MMIO_DEVICE_ID {
            self.device_id()
        } else if reg == MMIO_VENDOR_ID {
            self.vendor_id()
        } else if reg == MMIO_DEVICE_FEATURES {
            self.device_features()
        } else if reg == MMIO_DEVICE_FEATURES_SEL {
            self.device_features_sel()
        } else if reg == MMIO_QUEUE_SEL {
            self.queue_sel()
        } else if reg == MMIO_QUEUE_NUM_MAX {
            self.queue_num_max()
        } else if reg == MMIO_QUEUE_NUM {
            self.queue_num()
        } else if reg == MMIO_QUEUE_DESC_LOW {
            self.queue_desc_low()
        } else if reg == MMIO_QUEUE_AVAIL_LOW {
            self.queue_avail_low()
        } else if reg == MMIO_QUEUE_USED_LOW {
            self.queue_used_low()
        } else if reg == MMIO_QUEUE_DESC_HIGH {
            self.queue_desc_high()
        } else if reg == MMIO_QUEUE_AVAIL_HIGH {
            self.queue_avail_high()
        } else if reg == MMIO_QUEUE_USED_HIGH {
            self.queue_used_high()
        } else if reg == MMIO_QUEUE_READY {
            self.queue_ready()
        } else if reg == MMIO_INTERRUPT_STATUS {
            self.int_status()
        } else if reg == MMIO_STATUS {
            self.status()
        } else {
            0
        }
    }

    /// Writes `val` to the register at `offset`. A write to the notification
    /// register is a [`Device::queue_notify`]; a write to any other register
    /// changes the device and the bus as [`Device::written`] says and leaves
    /// the heap alone. A write at an offset that is no multiple of 4, at
    /// which there is no register, or in the configuration area, and a write
    /// of the number of a queue that the device does not have to the queue
    /// selector, change nothing.
    pub fn write_register(
        &mut self,
        heap: &mut GlobalHeap,
        upstream: &mut IrqVec,
        offset: &u64,
        val: &u32,
    ) -> (r: queue::Result<()>)
        requires
            old(self).wf(),
        ensures
            final(self).wf(),
            register_at(*offset) != MMIO_QUEUE_NOTIFY ==> r is Ok && *final(heap) == *old(heap)
                && final(self).written(old(self), old(upstream), final(upstream), *offset, *val),
            register_at(*offset) == MMIO_QUEUE_NOTIFY ==> final(self).notified(
                old(self),
                old(heap),
                final(heap),
                old(upstream),
                final(upstream),
                *val,
                r,
            ),
    {
        proof {
            match self.selected() {
                Some(q) => {
                    assert(self.queues().update(self@.queue_sel as int, q) =~= self.queues());
                },
                None => {},
            }
        }
        if *offset >= MMIO_CONFIG {
            self.set_config(*offset - MMIO_CONFIG, val);
            return Ok(());
        }
        if *offset % 4 != 0 {
            return Ok(());
        }
        let reg: u64 = *offset;
        if reg == MMIO_DEVICE_FEATURES_SEL {
            self.set_device_features_sel(val);
        } else if reg == MMIO_QUEUE_SEL {
            if (*val as usize) < self.queue_count() {
                self.set_queue_sel(val);
            }
        } else if reg == MMIO_QUEUE_NUM {
            self.set_queue_num(val);
        } else if reg == MMIO_QUEUE_DESC_LOW {
            self.set_queue_desc_low(val);
        } else if reg == MMIO_QUEUE_AVAIL_LOW {
            self.set_queue_avail_low(val);
        } else if reg == MMIO_QUEUE_USED_LOW {
            self.set_queue_used_low(val);
        } else if reg == MMIO_QUEUE_DESC_HIGH {
            self.set_queue_desc_high(val);
        } else if reg == MMIO_QUEUE_AVAIL_HIGH {
            self.set_queue_avail_high(val);
        } else if reg == MMIO_QUEUE_USED_HIGH {
            self.set_queue_used_high(val);
        } else if reg == MMIO_QUEUE_READY {
            self.set_queue_ready(val);
        } else if reg == MMIO_STATUS {
            self.set_status(upstream, val);
        } else if reg == MMIO_QUEUE_NOTIFY {
            return self.queue_notify(heap, upstream, val);
        } else if reg == MMIO_INTERRUPT_ACK {
            self.int_ack(upstream, val);
        }
        Ok(())
    }

    /// Reads the first bytes of the register at `offset`, least significant
    /// first, into `data`, which has room for at most four.
    pub fn read_bytes(&self, offset: &u64, data: &mut Vec<u8>)
        requires
            old(data)@.len() <= 4,
        ensures
            final(data)@ == spec_u32_to_le_bytes(self.register(*offset)).subrange(
                0,
                old(data)@.len() as int,
            ),
    {
        let res: Vec<u8> = u32_to_le_bytes(self.read_register(offset));
        proof {
            vstd::bytes::lemma_auto_spec_u32_to_from_le_bytes();
        }
        let len: usize = data.len();
        let mut i: usize = 0;
        while i < len
            invariant
                len == data@.len(),
                len <= 4,
                res@.len() == 4,
                i <= len,
                forall|k: int| 0 <= k < i ==> data@[k] == res@[k],
            decreases len - i,
        {
            data.set(i, res[i]);
            i += 1;
        }
        assert(data@ =~= res@.subrange(0, len as int));
    }

    /// The value that at most four bytes, least significant first, stand
    /// for: the bytes that are missing count as zero.
    pub open spec fn word_of(data: Seq<u8>) -> u32 {
        spec_u32_from_le_bytes(
            Seq::new(
                4,
                |i: int|
                    if i < data.len() {
                        data[i]
                    } else {
                        0u8
                    },
            ),
        )
    }

    /// Writes the value that `data`, at most four bytes, stands for to the
    /// register at `offset`, as [`Device::write_register`] does.
    pub fn write_bytes(
        &mut self,
        heap: &mut GlobalHeap,
        upstream: &mut IrqVec,
        offset: &u64,
        data: &[u8],
    ) -> (r: queue::Result<()>)
        requires
            old(self).wf(),
            data@.len() <= 4,
        ensures
            final(self).wf(),
            register_at(*offset) != MMIO_QUEUE_NOTIFY ==> r is Ok && *final(heap) == *old(heap)
                && final(self).written(
                old(self),
                old(upstream),
                final(upstream),
                *offset,
                Self::word_of(data@),
            ),
            register_at(*offset) == MMIO_QUEUE_NOTIFY ==> final(self).notified(
                old(self),
                old(heap),
                final(heap),
                old(upstream),
                final(upstream),
                Self::word_of(data@),
                r,
            ),
    {
        let mut bytes: Vec<u8> = vec![0u8; 4];
        let len: usize = data.len();
        let mut i: usize = 0;
        while i < len
            invariant
                len == data@.len(),
                len <= 4,
                bytes@.len() == 4,
                i <= len,
                forall|k: int| 0 <= k < i ==> bytes@[k] == data@[k],
                forall|k: int| i <= k < 4 ==> bytes@[k] == 0u8,
            decreases len - i,
        {
            bytes.set(i, data[i]);
            i += 1;
        }
        assert(bytes@ =~= Seq::new(
            4,
            |i: int|
                if i < data@.len() {
                    data@[i]
                } else {
                    0u8
                },
        ));
        let val: u32 = u32_from_le_bytes(bytes.as_slice());
        self.write_register(heap, upstream, offset, &val)
    }
}

impl Device {
    /// The `id`-th queue, to be changed in place.
    pub fn get_queue_mut(&mut self, id: usize) -> (q: &mut Queue)
        requires
            id < old(self).queues().len(),
        ensures
            *q == old(self).queue_at(id as int),
            final(self).memory_view() == old(self).memory_view(),
            final(self).client_count() == old(self).client_count(),
            final(self).line() == old(self).line(),
            final(self).irq_view() == old(self).irq_view(),
            final(self)@ == old(self)@,
            final(self).queues() == old(self).queues().update(id as int, final(q)@),
    {
        let ghost before = self.queues@;
        let q = &mut self.queues[id];
        proof {
            assert(Seq::new(before.len(), |i: int| before.update(id as int, *final(q))[i]@)
                =~= Seq::new(before.len(), |i: int| before[i]@).update(id as int, final(q)@));
        }
        q
    }

    /// The device's own interrupts, to be changed in place.
    pub fn get_irq_vec_mut(&mut self) -> (v: &mut IrqVec)
        ensures
            *v == old(self).irq_view(),
            final(self).memory_view() == old(self).memory_view(),
            final(self).client_count() == old(self).client_count(),
            final(self).line() == old(self).line(),
            final(self).irq_view() == *final(v),
            final(self)@ == old(self)@,
            final(self).queues() == old(self).queues(),
    {
        &mut self.irq_vec
    }
}

/// What a device with registers of its own adds to a [`Device`]: the device-
/// specific configuration area.
pub trait DeviceAccess {
    /// The device whose registers are accessed.
    spec fn device_view(&self) -> Device;

    fn device(&self) -> (d: &Device)
        ensures
            *d == self.device_view(),
    ;

    /// The device whose registers are accessed, to be changed in place.
    fn device_mut(&mut self) -> (d: &mut Device)
        ensures
            *d == old(self).device_view(),
            *final(d) == final(self).device_view(),
    ;

    /// The value at `offset` of the configuration area.
    fn config(&self, offset: u64) -> u32;

    /// Writes `val` at `offset` of the configuration area.
    fn set_config(&mut self, offset: u64, val: &u32);
}

/// Reading the registers of a device on a memory-mapped bus: the
/// configuration area from offset `0x100` on, and the registers of the
/// [`Device`] below it.
pub trait MMIODevice: DeviceAccess {
    /// Reads the register at `offset`: below the configuration area this is
    /// the register of the device, as [`Device::register`] says.
    fn read(&self, offset: &u64) -> (r: u32)
        ensures
            *offset < MMIO_CONFIG ==> r == self.device_view().register(*offset),
    {
        if *offset >= MMIO_CONFIG {
            self.config(*offset - MMIO_CONFIG)
        } else {
            self.device().read_register(offset)
        }
    }

    /// Writes `val` to the register at `offset`: below the configuration
    /// area this is a write to the register of the device, as
    /// [`Device::write_register`] says.
    fn write(
        &mut self,
        heap: &mut GlobalHeap,
        upstream: &mut IrqVec,
        offset: &u64,
        val: &u32,
    ) -> (r: queue::Result<()>)
        requires
            old(self).device_view().wf(),
        ensures
            *offset < MMIO_CONFIG ==> final(self).device_view().wf(),
            *offset < MMIO_CONFIG && register_at(*offset) != MMIO_QUEUE_NOTIFY ==> r is Ok
                && *final(heap) == *old(heap) && final(self).device_view().written(
                &old(self).device_view(),
                old(upstream),
                final(upstream),
                *offset,
                *val,
            ),
            register_at(*offset) == MMIO_QUEUE_NOTIFY ==> final(self).device_view().notified(
                &old(self).device_view(),
                old(heap),
                final(heap),
                old(upstream),
                final(upstream),
                *val,
                r,
            ),
    {
        if *offset >= MMIO_CONFIG {
            self.set_config(*offset - MMIO_CONFIG, val);
            Ok(())
        } else {
            self.device_mut().write_register(heap, upstream, offset, val)
        }
    }
}

impl DeviceAccess for Device {
    open spec fn device_view(&self) -> Device {
        *self
    }

    fn device(&self) -> (d: &Device) {
        self
    }

    fn device_mut(&mut self) -> (d: &mut Device) {
        self
    }

    /// A plain device has no configuration area: every offset reads as 0.
    fn config(&self, offset: u64) -> (r: u32)
        ensures
            r == 0,
    {
        0
    }

    /// A plain device has no configuration area: the write is ignored.
    fn set_config(&mut self, offset: u64, val: &u32)
        ensures
            *final(self) == *old(self),
    {
    }
}

impl MMIODevice for Device {

}

} // verus!

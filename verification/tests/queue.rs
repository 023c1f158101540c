use std::rc::Rc;
use terminus_spaceport::irq::IrqVec;
use terminus_spaceport::memory::region::{BytesAccess, GlobalHeap, Heap, Region, U16Access};
use terminus_spaceport::virtio::queue::{
    DefaultQueueServer, DescMeta, Error, Queue, QueueClient, QueueServer, QueueSetting, Result,
    RingMetaHeader, RingUsedMetaElem,
};
use terminus_spaceport::virtio::{DESC_F_NEXT, DESC_F_WRITE};

struct DummyClient();

impl QueueClient for DummyClient {
    fn receive(&self, _: &Queue, _: &mut GlobalHeap, _: &mut IrqVec, _: u16) -> Result<bool> {
        Ok(false)
    }
}

struct QueueFixture {
    gheap: GlobalHeap,
    memory: Rc<Region>,
    heap: Rc<Heap>,
    queue: Queue,
    server: DefaultQueueServer,
    irq: IrqVec,
}

fn fixture(size: u16) -> QueueFixture {
    let mut gheap = GlobalHeap::new();
    let memory = gheap.allocate(1024, 16).unwrap();
    let queue = Queue::new(&memory, QueueSetting { max_queue_size: size });
    let heap = Heap::new(&mut gheap, &memory);
    let server = DefaultQueueServer::new(&heap);
    QueueFixture { gheap, memory, heap, queue, server, irq: IrqVec::new(1) }
}

fn ready(size: u16) -> QueueFixture {
    let mut f = fixture(size);
    f.server.init_queue(&mut f.gheap, &mut f.queue).unwrap();
    f
}

#[test]
fn get_desc_test() {
    const QUEUE_SIZE: usize = 2;
    let mut gheap = GlobalHeap::new();
    let memory = gheap.allocate(1024, 16).unwrap();
    let mut queue = Queue::new(&memory, QueueSetting { max_queue_size: QUEUE_SIZE as u16 });
    let heap = Heap::new(&mut gheap, &memory);
    let mut server = DefaultQueueServer::new(&heap);
    server.init_queue(&mut gheap, &mut queue).unwrap();
    queue
        .set_desc(
            &mut gheap,
            0,
            &DescMeta { addr: 0xa5a5, len: 0x5a5a, flags: 0, next: 0xbeaf },
        )
        .unwrap();
    let mut desc_iter = queue.desc_iter(0);
    let desc = desc_iter.next(&queue, &gheap).unwrap().unwrap();
    assert_eq!(desc.1, DescMeta { addr: 0xa5a5, len: 0x5a5a, flags: 0, next: 0xbeaf });
    assert_eq!(desc_iter.next(&queue, &gheap).is_none(), true);
}

#[test]
fn avail_iter_test() {
    const QUEUE_SIZE: usize = 10;
    let mut gheap = GlobalHeap::new();
    let memory = gheap.allocate(1024, 16).unwrap();
    let mut queue = Queue::new(&memory, QueueSetting { max_queue_size: QUEUE_SIZE as u16 });
    let heap = Heap::new(&mut gheap, &memory);
    let desc_mem = heap.allocate(&mut gheap, 16 * queue.get_queue_size() as u64, 4).unwrap();
    let mut ring = [0u16; QUEUE_SIZE];
    ring[1] = 3;
    ring[2] = 5;
    ring[3] = 8;
    ring[4] = 7;
    ring[5] = 1;
    let mut avail_bytes: Vec<u8> = vec![];
    avail_bytes.extend_from_slice(&0u16.to_le_bytes());
    avail_bytes.extend_from_slice(&14u16.to_le_bytes());
    for r in ring.iter() {
        avail_bytes.extend_from_slice(&r.to_le_bytes());
    }
    let avail_mem = heap.allocate(&mut gheap, avail_bytes.len() as u64, 2).unwrap();
    let used_mem = heap.allocate(&mut gheap, (4 + 8 * QUEUE_SIZE) as u64, 2).unwrap();
    queue.set_desc_addr(desc_mem.info().base);
    queue.set_avail_addr(avail_mem.info().base);
    queue.set_used_addr(used_mem.info().base);

    assert_eq!(avail_mem.info().size, 4 + 10 * 2);
    BytesAccess::write(&*avail_mem, &mut gheap, &avail_mem.info().base, &avail_bytes).unwrap();
    queue.set_last_avail_idx(11);
    let mut it = queue.avail_iter(&gheap).unwrap();
    let mut count = 0;
    while let Some(item) = it.next(&queue, &gheap) {
        assert_eq!(
            ring[count + queue.get_last_avail_idx() as usize % queue.get_queue_size()],
            item.unwrap()
        );
        count += 1;
    }
    assert_eq!(count, 3);
    queue.set_last_avail_idx(14);
    U16Access::write(&*avail_mem, &mut gheap, &(avail_mem.info().base + 2), 16).unwrap();
    let mut it = queue.avail_iter(&gheap).unwrap();
    let mut count = 0;
    while let Some(item) = it.next(&queue, &gheap) {
        assert_eq!(
            ring[count + queue.get_last_avail_idx() as usize % queue.get_queue_size()],
            item.unwrap()
        );
        count += 1;
    }
    assert_eq!(count, 2);
}

#[test]
fn add_to_queue_test() {
    const QUEUE_SIZE: usize = 10;
    let mut gheap = GlobalHeap::new();
    let memory = gheap.allocate(1024, 16).unwrap();
    let mut queue = Queue::new(&memory, QueueSetting { max_queue_size: QUEUE_SIZE as u16 });
    let heap = Heap::new(&mut gheap, &memory);
    let mut server = DefaultQueueServer::new(&heap);
    let mut irq = IrqVec::new(1);
    server.init_queue(&mut gheap, &mut queue).unwrap();
    for i in 0..(queue.get_queue_size() - 1) {
        let desc = queue.get_desc(&gheap, i as u16).unwrap();
        assert_eq!(desc.next, i as u16 + 1)
    }

    let read_mem = heap.allocate(&mut gheap, 7, 1).unwrap();
    let write_mem = heap.allocate(&mut gheap, 6, 1).unwrap();

    let head = server
        .add_to_queue(&mut gheap, &queue, vec![&*read_mem].as_slice(), vec![&*write_mem].as_slice())
        .unwrap();
    server.notify_queue(&mut gheap, &mut irq, &mut queue, &DummyClient(), head).unwrap();

    let read_mem1 = heap.allocate(&mut gheap, 7, 1).unwrap();
    let write_mem1 = heap.allocate(&mut gheap, 6, 1).unwrap();
    let write_mem2 = heap.allocate(&mut gheap, 6, 1).unwrap();
    let write_mem3 = heap.allocate(&mut gheap, 6, 1).unwrap();

    let head = server
        .add_to_queue(
            &mut gheap,
            &queue,
            vec![&*read_mem1].as_slice(),
            vec![&*write_mem1, &*write_mem2, &*write_mem3].as_slice(),
        )
        .unwrap();
    server.notify_queue(&mut gheap, &mut irq, &mut queue, &DummyClient(), head).unwrap();

    let mut avail_iter = queue.avail_iter(&gheap).unwrap();
    let mut desc_iter = queue.desc_iter(avail_iter.next(&queue, &gheap).unwrap().unwrap());
    assert_eq!(
        desc_iter.next(&queue, &gheap).unwrap().unwrap().1,
        DescMeta {
            addr: read_mem.info().base,
            len: read_mem.info().size as u32,
            flags: DESC_F_NEXT,
            next: 1,
        }
    );
    assert_eq!(
        desc_iter.next(&queue, &gheap).unwrap().unwrap().1,
        DescMeta {
            addr: write_mem.info().base,
            len: write_mem.info().size as u32,
            flags: DESC_F_WRITE,
            next: 2,
        }
    );

    assert!(desc_iter.next(&queue, &gheap).is_none());

    let mut desc_iter = queue.desc_iter(avail_iter.next(&queue, &gheap).unwrap().unwrap());
    assert_eq!(
        desc_iter.next(&queue, &gheap).unwrap().unwrap().1,
        DescMeta {
            addr: read_mem1.info().base,
            len: read_mem1.info().size as u32,
            flags: DESC_F_NEXT,
            next: 3,
        }
    );

    let mut i = 0;
    while let Some(rest) = desc_iter.next(&queue, &gheap) {
        let (desc_idx, desc) = rest.unwrap();
        assert_eq!(desc.len, 6);
        assert_eq!(desc.flags & DESC_F_WRITE, DESC_F_WRITE);
        assert_eq!(desc.next, i as u16 + 4);
        assert_eq!(desc_idx, i as u16 + 3);
        if desc.flags & DESC_F_NEXT == 0 {
            assert_eq!(i, 2);
        }
        i += 1;
    }
    assert_eq!(i, 3);
}

#[test]
fn new_queue_is_not_ready() {
    let f = fixture(4);
    assert!(!f.queue.get_ready());
    assert_eq!(f.queue.get_queue_size(), 4);
    assert_eq!(f.queue.get_queue_max_size(), 4);
    assert_eq!(f.queue.get_desc_addr(), 0);
    assert_eq!(f.queue.get_avail_addr(), 0);
    assert_eq!(f.queue.get_used_addr(), 0);
    assert_eq!(f.queue.get_last_avail_idx(), 0);
    assert_eq!(f.queue.desc_table_size(), 64);
    assert_eq!(f.queue.avail_ring_size(), 8);
    assert_eq!(f.queue.used_ring_size(), 32);
    assert_eq!(f.queue.get_memory().info(), f.memory.info());
    assert_eq!(RingMetaHeader::empty(), RingMetaHeader { flags: 0, idx: 0 });
    assert_eq!(RingUsedMetaElem::empty(), RingUsedMetaElem { id: 0, len: 0 });
    assert_eq!(DescMeta::empty(), DescMeta { addr: 0, len: 0, flags: 0, next: 0 });
}

#[test]
fn queue_size_is_clamped_to_the_maximum() {
    let mut f = fixture(4);
    f.queue.set_queue_size(9);
    assert_eq!(f.queue.get_queue_size(), 4);
    f.queue.set_queue_size(3);
    assert_eq!(f.queue.get_queue_size(), 3);
    f.queue.set_ready(true);
    f.queue.set_desc_addr(0x10);
    f.queue.set_avail_addr(0x20);
    f.queue.set_used_addr(0x30);
    f.queue.set_last_avail_idx(7);
    f.queue.reset();
    assert_eq!(f.queue.get_queue_size(), 4);
    assert!(!f.queue.get_ready());
    assert_eq!(f.queue.get_desc_addr(), 0);
    assert_eq!(f.queue.get_avail_addr(), 0);
    assert_eq!(f.queue.get_used_addr(), 0);
    assert_eq!(f.queue.get_last_avail_idx(), 0);
}

#[test]
fn descriptors_are_sixteen_little_endian_bytes() {
    let d = DescMeta { addr: 0x0102030405060708, len: 0x11121314, flags: 0x2122, next: 0x3132 };
    let bytes = d.encode();
    assert_eq!(
        bytes,
        vec![8, 7, 6, 5, 4, 3, 2, 1, 0x14, 0x13, 0x12, 0x11, 0x22, 0x21, 0x32, 0x31]
    );
    assert_eq!(DescMeta::decode(&bytes), d);
    let u = RingUsedMetaElem { id: 0x01020304, len: 0x05060708 };
    assert_eq!(u.encode(), vec![4, 3, 2, 1, 8, 7, 6, 5]);
    assert_eq!(RingUsedMetaElem::decode(&u.encode()), u);
}

#[test]
fn init_lays_out_a_free_chain() {
    let f = ready(4);
    assert!(f.queue.get_ready());
    for i in 0..4u16 {
        assert_eq!(
            f.queue.get_desc(&f.gheap, i).unwrap(),
            DescMeta { addr: 0, len: 0, flags: DESC_F_NEXT, next: (i + 1) % 4 }
        );
    }
    let base = f.memory.info().base;
    assert_eq!(f.queue.get_desc_addr(), base);
    assert_eq!(f.queue.get_avail_addr(), base + 64);
    assert_eq!(f.queue.get_used_addr(), base + 64 + 12);
    assert_eq!(f.server.num_available_desc(&f.queue), 4);
    assert_eq!(f.queue.get_avail_idx(&f.gheap), Ok(0));
    assert_eq!(f.queue.get_used_idx(&f.gheap), Ok(0));
}

#[test]
fn init_of_a_queue_of_one() {
    let f = ready(1);
    assert_eq!(
        f.queue.get_desc(&f.gheap, 0).unwrap(),
        DescMeta { addr: 0, len: 0, flags: DESC_F_NEXT, next: 0 }
    );
}

#[test]
fn init_twice_is_refused() {
    let mut f = ready(2);
    match f.server.init_queue(&mut f.gheap, &mut f.queue) {
        Err(Error::InvalidInit(_)) => {}
        other => panic!("{:?}", other),
    }
}

#[test]
fn init_without_room_is_refused() {
    let mut gheap = GlobalHeap::new();
    let memory = gheap.allocate(32, 16).unwrap();
    let mut queue = Queue::new(&memory, QueueSetting { max_queue_size: 4 });
    let heap = Heap::new(&mut gheap, &memory);
    let mut server = DefaultQueueServer::new(&heap);
    match server.init_queue(&mut gheap, &mut queue) {
        Err(Error::ServerError(_)) => {}
        other => panic!("{:?}", other),
    }
    assert!(!queue.get_ready());
}

#[test]
fn check_init_wants_tables_inside_memory() {
    let mut f = fixture(2);
    let base = f.memory.info().base;
    f.queue.set_desc_addr(base);
    f.queue.set_avail_addr(base + 32);
    f.queue.set_used_addr(base + 1024 - 20);
    assert_eq!(f.queue.check_init(), Ok(()));
    f.queue.set_used_addr(base + 1024 - 19);
    match f.queue.check_init() {
        Err(Error::InvalidInit(_)) => {}
        other => panic!("{:?}", other),
    }
    f.queue.set_used_addr(base + 64);
    f.queue.set_ready(true);
    match f.queue.check_init() {
        Err(Error::InvalidInit(_)) => {}
        other => panic!("{:?}", other),
    }
}

#[test]
fn chain_of_input_and_output() {
    let mut f = ready(2);
    let buf_in = f.heap.allocate(&mut f.gheap, 4, 4).unwrap();
    let buf_out = f.heap.allocate(&mut f.gheap, 4, 4).unwrap();
    let head = f
        .server
        .add_to_queue(&mut f.gheap, &f.queue, &[&*buf_in], &[&*buf_out])
        .unwrap();
    assert_eq!(head, 0);
    assert_eq!(
        f.queue.desc_chain(&f.gheap, head).unwrap(),
        vec![
            (0, DescMeta { addr: buf_in.info().base, len: 4, flags: DESC_F_NEXT, next: 1 }),
            (1, DescMeta { addr: buf_out.info().base, len: 4, flags: DESC_F_WRITE, next: 0 }),
        ]
    );
    assert_eq!(f.server.num_available_desc(&f.queue), 0);
}

#[test]
fn chain_that_does_not_fit_is_refused() {
    let mut f = ready(1);
    let buf_in = f.heap.allocate(&mut f.gheap, 4, 4).unwrap();
    let buf_out = f.heap.allocate(&mut f.gheap, 4, 4).unwrap();
    match f.server.add_to_queue(&mut f.gheap, &f.queue, &[&*buf_in], &[&*buf_out]) {
        Err(Error::ServerError(_)) => {}
        other => panic!("{:?}", other),
    }
    assert_eq!(
        f.queue.get_desc(&f.gheap, 0).unwrap(),
        DescMeta { addr: 0, len: 0, flags: DESC_F_NEXT, next: 0 }
    );
    assert_eq!(f.server.num_available_desc(&f.queue), 1);
}

#[test]
fn empty_chain_is_refused() {
    let mut f = ready(2);
    match f.server.add_to_queue(&mut f.gheap, &f.queue, &[], &[]) {
        Err(Error::ServerError(_)) => {}
        other => panic!("{:?}", other),
    }
}

#[test]
fn descriptor_index_out_of_range_is_refused() {
    let mut f = ready(2);
    match f.queue.get_desc(&f.gheap, 2) {
        Err(Error::InvalidDesc(_)) => {}
        other => panic!("{:?}", other),
    }
    match f.queue.set_desc(&mut f.gheap, 2, &DescMeta::empty()) {
        Err(Error::InvalidDesc(_)) => {}
        other => panic!("{:?}", other),
    }
    match f.queue.set_avail_desc(&mut f.gheap, 0, 2) {
        Err(Error::InvalidDesc(_)) => {}
        other => panic!("{:?}", other),
    }
    match f.queue.set_used(&mut f.gheap, 2, 0) {
        Err(Error::InvalidDesc(_)) => {}
        other => panic!("{:?}", other),
    }
}

#[test]
fn tables_outside_memory_give_memory_errors() {
    let mut f = fixture(2);
    f.queue.set_desc_addr(f.memory.info().base + 1024);
    match f.queue.get_desc(&f.gheap, 0) {
        Err(Error::MemError(_)) => {}
        other => panic!("{:?}", other),
    }
    f.queue.set_avail_addr(u64::MAX - 2);
    match f.queue.get_avail_idx(&f.gheap) {
        Err(Error::InvalidAvail(_)) => {}
        other => panic!("{:?}", other),
    }
    f.queue.set_used_addr(u64::MAX - 2);
    match f.queue.get_used_idx(&f.gheap) {
        Err(Error::InvalidUsed(_)) => {}
        other => panic!("{:?}", other),
    }
}

#[test]
fn circular_chain_is_reported() {
    let mut f = ready(3);
    for i in 0..3u16 {
        f.queue
            .set_desc(
                &mut f.gheap,
                i,
                &DescMeta { addr: 0, len: 0, flags: DESC_F_NEXT, next: (i + 1) % 3 },
            )
            .unwrap();
    }
    let mut it = f.queue.desc_iter(1);
    let mut steps = 0;
    loop {
        match it.next(&f.queue, &f.gheap) {
            Some(Ok(_)) => steps += 1,
            Some(Err(Error::InvalidDesc(msg))) => {
                assert_eq!(msg, "infinity descriptor chain");
                break;
            }
            other => panic!("{:?}", other),
        }
    }
    assert_eq!(steps, 3);
    assert!(it.next(&f.queue, &f.gheap).is_none());
    match f.queue.desc_chain(&f.gheap, 1) {
        Err(Error::InvalidDesc(_)) => {}
        other => panic!("{:?}", other),
    }
}

#[test]
fn used_ring_records_completions() {
    let mut f = ready(2);
    assert_eq!(f.queue.set_used(&mut f.gheap, 1, 12), Ok(()));
    assert_eq!(f.queue.get_used_idx(&f.gheap), Ok(1));
    assert_eq!(
        f.queue.get_used_elem(&f.gheap, 0),
        Ok(RingUsedMetaElem { id: 1, len: 12 })
    );
    assert!(f.server.has_used(&f.gheap, &f.queue));
    assert_eq!(
        f.server.pop_used(&f.gheap, &f.queue),
        Some(RingUsedMetaElem { id: 1, len: 12 })
    );
}

#[test]
fn set_used_wants_a_ready_queue() {
    let mut f = fixture(2);
    assert_eq!(f.queue.set_used(&mut f.gheap, 0, 0), Err(Error::NotReady));
    let mut irq = IrqVec::new(1);
    assert_eq!(
        f.queue.notify_client(&mut f.gheap, &mut irq, &DummyClient()),
        Err(Error::NotReady)
    );
    assert!(!f.server.has_used(&f.gheap, &f.queue));
    assert_eq!(f.server.pop_used(&f.gheap, &f.queue), None);
}

#[test]
fn publish_writes_the_available_ring() {
    let mut f = ready(2);
    f.server.publish(&mut f.gheap, &f.queue, 1).unwrap();
    assert_eq!(f.queue.get_avail_idx(&f.gheap), Ok(1));
    assert_eq!(f.queue.get_avail_desc(&f.gheap, 0), Ok(1));
    f.server.publish(&mut f.gheap, &f.queue, 0).unwrap();
    assert_eq!(f.queue.get_avail_idx(&f.gheap), Ok(2));
    assert_eq!(f.queue.get_avail_desc(&f.gheap, 1), Ok(0));
    match f.server.publish(&mut f.gheap, &f.queue, 2) {
        Err(Error::InvalidDesc(_)) => {}
        other => panic!("{:?}", other),
    }
    f.queue.set_avail_idx(&mut f.gheap, 0xffff).unwrap();
    f.server.publish(&mut f.gheap, &f.queue, 1).unwrap();
    assert_eq!(f.queue.get_avail_idx(&f.gheap), Ok(0));
}

struct TakeAll;

impl QueueClient for TakeAll {
    fn receive(&self, queue: &Queue, heap: &mut GlobalHeap, _: &mut IrqVec,
        head: u16) -> Result<bool> {
        queue.set_used(heap, head, 0)?;
        Ok(true)
    }
}

struct Failing;

impl QueueClient for Failing {
    fn receive(&self, _: &Queue, _: &mut GlobalHeap, _: &mut IrqVec, _: u16) -> Result<bool> {
        Err(Error::ClientError("no valid buffer!".to_string()))
    }
}

#[test]
fn notify_hands_over_every_available_chain() {
    let mut f = ready(4);
    f.server.publish(&mut f.gheap, &f.queue, 2).unwrap();
    f.server.publish(&mut f.gheap, &f.queue, 3).unwrap();
    assert_eq!(f.queue.notify_client(&mut f.gheap, &mut f.irq, &DummyClient()), Ok(()));
    assert_eq!(f.queue.get_last_avail_idx(), 0);
    assert_eq!(f.queue.advance(&Ok(false)), false);
    assert_eq!(f.queue.advance(&Err(Error::NotReady)), false);
    assert_eq!(f.queue.get_last_avail_idx(), 0);
    assert_eq!(
        f.queue.notify_client(&mut f.gheap, &mut f.irq, &Failing),
        Err(Error::ClientError("no valid buffer!".to_string()))
    );
    assert_eq!(f.queue.get_last_avail_idx(), 0);
    assert_eq!(f.queue.notify_client(&mut f.gheap, &mut f.irq, &TakeAll), Ok(()));
    assert_eq!(f.queue.get_last_avail_idx(), 2);
    assert_eq!(f.queue.get_used_idx(&f.gheap), Ok(2));
    assert_eq!(f.queue.get_used_elem(&f.gheap, 0), Ok(RingUsedMetaElem { id: 2, len: 0 }));
    assert_eq!(f.queue.get_used_elem(&f.gheap, 1), Ok(RingUsedMetaElem { id: 3, len: 0 }));
    assert_eq!(f.queue.advance(&Ok(true)), true);
    assert_eq!(f.queue.get_last_avail_idx(), 3);
}

#[test]
fn freed_chain_returns_to_the_free_descriptors() {
    let mut f = ready(3);
    let a = f.heap.allocate(&mut f.gheap, 4, 4).unwrap();
    let b = f.heap.allocate(&mut f.gheap, 4, 4).unwrap();
    let head = f.server.add_to_queue(&mut f.gheap, &f.queue, &[&*a], &[&*b]).unwrap();
    assert_eq!(f.server.num_available_desc(&f.queue), 1);
    let used = RingUsedMetaElem { id: head as u32, len: 4 };
    match f.server.free_used(&mut f.gheap, &f.queue, &used, false) {
        Err(Error::ServerError(_)) => {}
        other => panic!("{:?}", other),
    }
    f.queue.set_used(&mut f.gheap, head, 4).unwrap();
    assert_eq!(f.server.pop_used(&f.gheap, &f.queue), Some(used));
    assert_eq!(f.server.free_used(&mut f.gheap, &f.queue, &used, false), Ok(()));
    assert!(!f.server.has_used(&f.gheap, &f.queue));
    assert_eq!(f.server.num_available_desc(&f.queue), 3);
    assert_eq!(
        f.queue.get_desc(&f.gheap, 1).unwrap(),
        DescMeta { addr: b.info().base, len: 4, flags: DESC_F_WRITE | DESC_F_NEXT, next: 2 }
    );
    let c = f.heap.allocate(&mut f.gheap, 4, 4).unwrap();
    let again = f.server.add_to_queue(&mut f.gheap, &f.queue, &[&*c, &*a, &*b], &[]).unwrap();
    assert_eq!(again, 0);
    let chain = f.queue.desc_chain(&f.gheap, again).unwrap();
    assert_eq!(chain.len(), 3);
    assert_eq!(chain[0].0, 0);
    assert_eq!(chain[1].0, 1);
    assert_eq!(chain[2].0, 2);
}

#[test]
fn kept_chain_stays_in_use() {
    let mut f = ready(2);
    let a = f.heap.allocate(&mut f.gheap, 4, 4).unwrap();
    let head = f.server.add_to_queue(&mut f.gheap, &f.queue, &[&*a], &[]).unwrap();
    f.queue.set_used(&mut f.gheap, head, 4).unwrap();
    let used = f.server.pop_used(&f.gheap, &f.queue).unwrap();
    assert_eq!(f.server.free_used(&mut f.gheap, &f.queue, &used, true), Ok(()));
    assert_eq!(f.server.num_available_desc(&f.queue), 1);
    assert_eq!(f.server.pop_used(&f.gheap, &f.queue), None);
}

#[test]
fn queue_whose_memory_is_gone_fails() {
    let mut f = ready(2);
    let a = f.heap.allocate(&mut f.gheap, 4, 4).unwrap();
    let mut other = GlobalHeap::new();
    match f.queue.get_desc(&other, 0) {
        Err(Error::MemError(_)) => {}
        other => panic!("{:?}", other),
    }
    assert!(f.queue.set_used(&mut other, 0, 0).is_err());
    assert!(f.queue.desc_chain(&other, 0).is_err());
    assert!(f.server.publish(&mut other, &f.queue, 0).is_err());
    assert!(f.server.add_to_queue(&mut other, &f.queue, &[&*a], &[]).is_err());
    assert!(!f.server.has_used(&other, &f.queue));
    assert_eq!(f.server.pop_used(&other, &f.queue), None);
    let used = RingUsedMetaElem { id: 0, len: 0 };
    match f.server.free_used(&mut other, &f.queue, &used, false) {
        Err(Error::ServerError(_)) => {}
        other => panic!("{:?}", other),
    }
    assert_eq!(f.server.num_available_desc(&f.queue), 2);
    assert_eq!(other.allocator().alloced_blocks(), vec![]);
}

#[test]
fn failed_init_takes_nothing_from_the_sub_heap() {
    let mut gheap = GlobalHeap::new();
    let memory = gheap.allocate(100, 16).unwrap();
    let mut queue = Queue::new(&memory, QueueSetting { max_queue_size: 4 });
    let heap = Heap::new(&mut gheap, &memory);
    let mut server = DefaultQueueServer::new(&heap);
    match server.init_queue(&mut gheap, &mut queue) {
        Err(Error::ServerError(_)) => {}
        other => panic!("{:?}", other),
    }
    assert_eq!(queue.get_desc_addr(), 0);
    let all = heap.allocate(&mut gheap, 100, 1).unwrap();
    assert_eq!(all.info(), memory.info());
}

#[test]
fn init_takes_three_tables() {
    let mut f = fixture(4);
    let before = f.heap.can_allocate_all(&f.gheap, &vec![(1024, 1)]);
    assert!(before);
    f.server.init_queue(&mut f.gheap, &mut f.queue).unwrap();
    assert!(f.heap.can_allocate_all(&f.gheap, &vec![(1024 - 64 - 12 - 36, 1)]));
    assert!(!f.heap.can_allocate_all(&f.gheap, &vec![(1024 - 64 - 12 - 36 + 1, 1)]));
}

#[test]
fn walk_is_over_after_an_error() {
    let mut f = ready(2);
    let mut it = f.queue.desc_iter(5);
    match it.next(&f.queue, &f.gheap) {
        Some(Err(Error::InvalidDesc(_))) => {}
        other => panic!("{:?}", other),
    }
    assert!(it.next(&f.queue, &f.gheap).is_none());
    f.queue
        .set_desc(&mut f.gheap, 0, &DescMeta { addr: 0, len: 0, flags: DESC_F_NEXT, next: 7 })
        .unwrap();
    let mut it = f.queue.desc_iter(0);
    assert!(it.next(&f.queue, &f.gheap).unwrap().is_ok());
    match it.next(&f.queue, &f.gheap) {
        Some(Err(Error::InvalidDesc(_))) => {}
        other => panic!("{:?}", other),
    }
    assert!(it.next(&f.queue, &f.gheap).is_none());
    let other = GlobalHeap::new();
    let mut it = f.queue.desc_iter(0);
    match it.next(&f.queue, &other) {
        Some(Err(Error::MemError(_))) => {}
        other => panic!("{:?}", other),
    }
    assert!(it.next(&f.queue, &other).is_none());
}

#[test]
fn chain_of_as_many_descriptors_as_the_queue_has_ends_without_error() {
    let mut f = ready(3);
    f.queue
        .set_desc(&mut f.gheap, 2, &DescMeta { addr: 0, len: 0, flags: 0, next: 0 })
        .unwrap();
    let mut it = f.queue.desc_iter(0);
    for i in 0..3u16 {
        assert_eq!(it.next(&f.queue, &f.gheap).unwrap().unwrap().0, i);
    }
    assert!(it.next(&f.queue, &f.gheap).is_none());
    assert_eq!(f.queue.desc_chain(&f.gheap, 0).unwrap().len(), 3);
}

#[test]
fn walk_needs_the_descriptor_table_only() {
    let mut f = ready(2);
    f.queue
        .set_desc(&mut f.gheap, 0, &DescMeta { addr: 0, len: 0, flags: 0, next: 0 })
        .unwrap();
    f.queue.set_avail_addr(u64::MAX - 1);
    f.queue.set_used_addr(f.memory.info().base + 1024);
    assert_eq!(
        f.queue.desc_chain(&f.gheap, 1).unwrap(),
        vec![
            (1, DescMeta { addr: 0, len: 0, flags: DESC_F_NEXT, next: 0 }),
            (0, DescMeta { addr: 0, len: 0, flags: 0, next: 0 }),
        ]
    );
}

#[test]
fn settle_ends_the_notification_or_goes_on() {
    let mut f = fixture(2);
    assert_eq!(f.queue.settle(Ok(false)), Some(Ok(())));
    assert_eq!(f.queue.get_last_avail_idx(), 0);
    assert_eq!(
        f.queue.settle(Err(Error::ClientError("no valid buffer!".to_string()))),
        Some(Err(Error::ClientError("no valid buffer!".to_string())))
    );
    assert_eq!(f.queue.get_last_avail_idx(), 0);
    assert_eq!(f.queue.settle(Ok(true)), None);
    assert_eq!(f.queue.get_last_avail_idx(), 1);
    f.queue.set_last_avail_idx(0xffff);
    assert_eq!(f.queue.settle(Ok(true)), None);
    assert_eq!(f.queue.get_last_avail_idx(), 0);
}

#[test]
fn notify_of_a_queue_that_is_not_ready_publishes_and_fails() {
    let mut f = ready(2);
    f.queue.set_ready(false);
    assert_eq!(
        f.server.notify_queue(&mut f.gheap, &mut f.irq, &mut f.queue, &TakeAll, 1),
        Err(Error::NotReady)
    );
    assert_eq!(f.queue.get_avail_idx(&f.gheap), Ok(1));
    assert_eq!(f.queue.get_avail_desc(&f.gheap, 0), Ok(1));
    assert_eq!(f.queue.get_used_idx(&f.gheap), Ok(0));
    assert_eq!(f.queue.get_last_avail_idx(), 0);
    let mut other = GlobalHeap::new();
    assert!(f.server.notify_queue(&mut other, &mut f.irq, &mut f.queue, &TakeAll, 1).is_err());
    f.queue.set_ready(true);
    assert_eq!(
        f.server.notify_queue(&mut f.gheap, &mut f.irq, &mut f.queue, &TakeAll, 0),
        Ok(())
    );
    assert_eq!(f.queue.get_last_avail_idx(), 2);
    assert_eq!(f.queue.get_used_elem(&f.gheap, 0), Ok(RingUsedMetaElem { id: 1, len: 0 }));
    assert_eq!(f.queue.get_used_elem(&f.gheap, 1), Ok(RingUsedMetaElem { id: 0, len: 0 }));
}

struct Never;

impl QueueClient for Never {
    fn receive(&self, _: &Queue, _: &mut GlobalHeap, _: &mut IrqVec, _: u16) -> Result<bool> {
        panic!("the client is asked")
    }
}

#[test]
fn notification_with_nothing_available_leaves_the_client_alone() {
    let mut f = ready(4);
    assert_eq!(f.queue.notify_client(&mut f.gheap, &mut f.irq, &Never), Ok(()));
    assert_eq!(f.queue.get_last_avail_idx(), 0);
    assert_eq!(f.queue.get_used_idx(&f.gheap), Ok(0));
    f.queue.set_last_avail_idx(1);
    assert_eq!(
        f.server.notify_queue(&mut f.gheap, &mut f.irq, &mut f.queue, &Never, 3),
        Ok(())
    );
    assert_eq!(f.queue.get_avail_idx(&f.gheap), Ok(1));
    assert_eq!(f.queue.get_avail_desc(&f.gheap, 0), Ok(3));
    assert_eq!(f.queue.get_last_avail_idx(), 1);
}

#[test]
fn notification_fails_where_the_available_ring_cannot_be_read() {
    let mut f = ready(4);
    f.server.publish(&mut f.gheap, &f.queue, 1).unwrap();
    let avail = f.queue.get_avail_addr();
    f.queue.set_avail_addr(u64::MAX - 1);
    match f.queue.notify_client(&mut f.gheap, &mut f.irq, &Never) {
        Err(Error::InvalidAvail(_)) => {}
        other => panic!("{:?}", other),
    }
    f.queue.set_avail_addr(f.memory.info().base + f.memory.info().size);
    match f.queue.notify_client(&mut f.gheap, &mut f.irq, &Never) {
        Err(Error::MemError(_)) => {}
        other => panic!("{:?}", other),
    }
    f.queue.set_avail_addr(f.memory.info().base + f.memory.info().size - 4);
    f.queue.set_last_avail_idx(5);
    match f.queue.notify_client(&mut f.gheap, &mut f.irq, &Never) {
        Err(Error::MemError(_)) => {}
        other => panic!("{:?}", other),
    }
    assert_eq!(f.queue.get_last_avail_idx(), 5);
    f.queue.set_last_avail_idx(0);
    f.queue.set_avail_addr(avail);
    f.queue.set_queue_size(0);
    match f.queue.notify_client(&mut f.gheap, &mut f.irq, &Never) {
        Err(Error::InvalidAvail(_)) => {}
        other => panic!("{:?}", other),
    }
    assert_eq!(f.queue.get_last_avail_idx(), 0);
    assert_eq!(f.queue.get_used_idx(&f.gheap), Ok(0));
    assert_eq!(f.irq.pendings(), 0);
    f.queue.set_queue_size(4);
    assert_eq!(f.queue.notify_client(&mut f.gheap, &mut f.irq, &TakeAll), Ok(()));
    assert_eq!(f.queue.get_last_avail_idx(), 1);
}

#[test]
fn walk_along_the_available_ring_fails_as_the_ring_does() {
    let mut f = ready(2);
    f.server.publish(&mut f.gheap, &f.queue, 1).unwrap();
    let mut it = f.queue.avail_iter(&f.gheap).unwrap();
    f.queue.set_queue_size(0);
    match it.next(&f.queue, &f.gheap) {
        Some(Err(Error::InvalidAvail(_))) => {}
        other => panic!("{:?}", other),
    }
    f.queue.set_queue_size(2);
    let other = GlobalHeap::new();
    match it.next(&f.queue, &other) {
        Some(Err(Error::MemError(_))) => {}
        other => panic!("{:?}", other),
    }
    assert_eq!(it.next(&f.queue, &f.gheap), Some(Ok(1)));
    assert_eq!(it.next(&f.queue, &f.gheap), None);
}

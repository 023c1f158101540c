use std::cell::Cell;
use std::rc::Rc;
use terminus_spaceport::memory::region::{
    unprovided, Access, BytesAccess, Error, GlobalHeap, Heap, IOAccess, Region, U16Access,
    U32Access, U64Access, U8Access, GLOBAL_HEAP_SIZE,
};
use terminus_spaceport::memory::MemInfo;

fn allocated(heap: &GlobalHeap, info: MemInfo) -> bool {
    heap.allocator()
        .alloced_blocks()
        .iter()
        .find(|i| **i == info)
        .is_some()
}

#[test]
fn region_drop() {
    let mut heap = GlobalHeap::new();
    println!("{:?}", heap.allocator().alloced_blocks());
    let region = heap.allocate(9, 1).unwrap();
    let info = region.info();
    let heap1 = Heap::new(&mut heap, &region);
    let remap = Region::remap(0x80000000, &region);
    let remap2 = Region::remap(0x10000000, &region);
    println!("{:?}", heap.allocator().alloced_blocks());
    assert_ne!(heap.allocator().alloced_blocks().iter().find(|i| **i == info), None);
    heap.release(region);
    assert_ne!(heap.allocator().alloced_blocks().iter().find(|i| **i == info), None);
    heap.release(remap2);
    assert_ne!(heap.allocator().alloced_blocks().iter().find(|i| **i == info), None);
    let region1 = heap1.allocate(&mut heap, 2, 1).unwrap();
    heap.release_heap(heap1);
    assert_ne!(heap.allocator().alloced_blocks().iter().find(|i| **i == info), None);
    let remap3 = Region::remap(0x10000000, &region1);
    heap.release(region1);
    assert_ne!(heap.allocator().alloced_blocks().iter().find(|i| **i == info), None);
    heap.release(remap3);
    assert_ne!(heap.allocator().alloced_blocks().iter().find(|i| **i == info), None);
    heap.release(remap);
    assert_eq!(heap.allocator().alloced_blocks().iter().find(|i| **i == info), None);
}

#[test]
fn region_access() {
    let mut heap = GlobalHeap::new();
    {
        let region = heap.allocate(9, 8).unwrap();
        let remap = Region::remap(0x80000000, &region);
        let remap2 = Region::remap_partial(0x10000000, &region, 0, 5);
        let remap3 = Region::remap_partial(0x20000000, &region, 5, 4);
        U64Access::write(&*region, &mut heap, &region.info().base, 0x5a5aa5a5aaaa5555).unwrap();
        U8Access::write(&*region, &mut heap, &(region.info().base + 8), 0xab).unwrap();
        assert_eq!(U32Access::read(&*remap, &heap, &remap.info().base), Ok(0xaaaa5555));
        assert_eq!(U8Access::read(&*remap2, &heap, &(remap2.info().base + 4)), Ok(0xa5));
        assert_eq!(U32Access::read(&*remap3, &heap, &remap3.info().base), Ok(0xab5a5aa5));
        U32Access::write(&*remap, &mut heap, &remap.info().base, 0xbeefdead).unwrap();
        U8Access::write(&*remap2, &mut heap, &(remap2.info().base + 4), 0xef).unwrap();
        U32Access::write(&*remap3, &mut heap, &remap3.info().base, 0xccdeadbe).unwrap();
        assert_eq!(
            U64Access::read(&*region, &heap, &region.info().base),
            Ok(0xdeadbeefbeefdead)
        );
        assert_eq!(U8Access::read(&*region, &heap, &(region.info().base + 8)), Ok(0xcc));
    }
}

#[test]
fn global_heap_starts_with_the_whole_universe_free() {
    let heap = GlobalHeap::new();
    assert_eq!(
        heap.allocator().free_blocks(),
        vec![MemInfo { base: 0, size: GLOBAL_HEAP_SIZE }]
    );
    assert_eq!(heap.allocator().alloced_blocks(), vec![]);
}

#[test]
fn remapped_u64_reads_back_as_u32() {
    let mut heap = GlobalHeap::new();
    let region = heap.allocate(9, 8).unwrap();
    let remap = Region::remap(0x8000_0000, &region);
    U64Access::write(&*region, &mut heap, &region.info().base, 0x5a5aa5a5aaaa5555).unwrap();
    assert_eq!(U32Access::read(&*remap, &heap, &0x8000_0000), Ok(0xaaaa5555));
    assert_eq!(U32Access::read(&*remap, &heap, &0x8000_0004), Ok(0x5a5aa5a5));
}

#[test]
fn fresh_memory_reads_zero() {
    let mut heap = GlobalHeap::new();
    let eager = heap.allocate(16, 8).unwrap();
    let lazy = heap.lazy_alloc(1 << 40, 8).unwrap();
    assert_eq!(U64Access::read(&*eager, &heap, &eager.info().base), Ok(0));
    assert_eq!(U64Access::read(&*lazy, &heap, &(lazy.info().base + (1 << 39))), Ok(0));
    assert_eq!(lazy.info().size, 1 << 40);
}

#[test]
fn every_width_round_trips() {
    let mut heap = GlobalHeap::new();
    for lazy in [false, true].iter() {
        let region = if *lazy {
            heap.lazy_alloc(64, 8).unwrap()
        } else {
            heap.allocate(64, 8).unwrap()
        };
        let base = region.info().base;
        U8Access::write(&*region, &mut heap, &(base + 1), 0x12).unwrap();
        assert_eq!(U8Access::read(&*region, &heap, &(base + 1)), Ok(0x12));
        U16Access::write(&*region, &mut heap, &(base + 2), 0x3456).unwrap();
        assert_eq!(U16Access::read(&*region, &heap, &(base + 2)), Ok(0x3456));
        U32Access::write(&*region, &mut heap, &(base + 4), 0x789abcde).unwrap();
        assert_eq!(U32Access::read(&*region, &heap, &(base + 4)), Ok(0x789abcde));
        U64Access::write(&*region, &mut heap, &(base + 8), 0x0123456789abcdef).unwrap();
        assert_eq!(U64Access::read(&*region, &heap, &(base + 8)), Ok(0x0123456789abcdef));
        assert_eq!(
            BytesAccess::write(&*region, &mut heap, &(base + 17), &[1, 2, 3]),
            Ok(3)
        );
        let mut buf = vec![0u8; 3];
        assert_eq!(BytesAccess::read(&*region, &heap, &(base + 17), &mut buf), Ok(3));
        assert_eq!(buf, vec![1, 2, 3]);
    }
}

#[test]
fn values_are_little_endian() {
    let mut heap = GlobalHeap::new();
    let region = heap.allocate(8, 8).unwrap();
    let base = region.info().base;
    U32Access::write(&*region, &mut heap, &base, 0x11223344).unwrap();
    let mut buf = vec![0u8; 4];
    BytesAccess::read(&*region, &heap, &base, &mut buf).unwrap();
    assert_eq!(buf, vec![0x44, 0x33, 0x22, 0x11]);
    assert_eq!(U16Access::read(&*region, &heap, &(base + 2)), Ok(0x1122));
}

#[test]
fn misaligned_access_is_refused() {
    let mut heap = GlobalHeap::new();
    let region = heap.allocate(16, 8).unwrap();
    let base = region.info().base;
    assert_eq!(U16Access::read(&*region, &heap, &(base + 1)), Err(Error::Misalign(base + 1)));
    assert_eq!(U32Access::read(&*region, &heap, &(base + 2)), Err(Error::Misalign(base + 2)));
    assert_eq!(U64Access::read(&*region, &heap, &(base + 4)), Err(Error::Misalign(base + 4)));
    assert_eq!(
        U32Access::write(&*region, &mut heap, &(base + 1), 7),
        Err(Error::Misalign(base + 1))
    );
}

#[test]
fn access_outside_the_window_is_refused() {
    let mut heap = GlobalHeap::new();
    let first = heap.allocate(16, 16).unwrap();
    let region = heap.allocate(16, 16).unwrap();
    let base = region.info().base;
    assert_eq!(U8Access::read(&*region, &heap, &(base + 16)), Err(Error::OutOfRange));
    assert_eq!(U8Access::read(&*region, &heap, &(base - 1)), Err(Error::OutOfRange));
    assert_eq!(U8Access::write(&*region, &mut heap, &(base + 16), 1), Err(Error::OutOfRange));
    assert_eq!(U8Access::read(&*first, &heap, &first.info().base), Ok(0));
}

#[test]
fn access_across_the_end_is_refused() {
    let mut heap = GlobalHeap::new();
    let region = heap.allocate(10, 8).unwrap();
    let base = region.info().base;
    match U64Access::read(&*region, &heap, &(base + 8)) {
        Err(Error::AccessErr(addr, _)) => assert_eq!(addr, base + 8),
        other => panic!("{:?}", other),
    }
    let mut buf = vec![0u8; 4];
    match BytesAccess::read(&*region, &heap, &(base + 7), &mut buf) {
        Err(Error::AccessErr(addr, _)) => assert_eq!(addr, base + 7),
        other => panic!("{:?}", other),
    }
    assert_eq!(buf, vec![0u8; 4]);
}

#[test]
fn partial_remap_presents_its_size() {
    let mut heap = GlobalHeap::new();
    let region = heap.allocate(32, 8).unwrap();
    let base = region.info().base;
    for i in 0..32u64 {
        U8Access::write(&*region, &mut heap, &(base + i), i as u8).unwrap();
    }
    let part = Region::remap_partial(0x4000, &region, 8, 16);
    assert_eq!(part.info(), MemInfo { base: 0x4000, size: 16 });
    for i in 0..16u64 {
        assert_eq!(U8Access::read(&*part, &heap, &(0x4000 + i)), Ok((8 + i) as u8));
    }
    assert_eq!(U8Access::read(&*part, &heap, &(0x4000 + 16)), Err(Error::OutOfRange));
    let nested = Region::remap_partial(0x9000, &part, 4, 4);
    assert_eq!(U32Access::read(&*nested, &heap, &0x9000), Ok(0x0f0e0d0c));
}

#[test]
fn region_kinds_have_names() {
    let mut heap = GlobalHeap::new();
    let region = heap.allocate(16, 1).unwrap();
    assert_eq!(region.get_type(), "Block");
    let sub = Heap::new(&mut heap, &region);
    let block = sub.allocate(&mut heap, 4, 1).unwrap();
    assert_eq!(block.get_type(), "Block");
    let remap = Region::remap(0x1000, &region);
    let expected = format!(
        "Remap(Block@{:#016x} -> {:#016x})",
        region.info().base,
        region.info().base + 16
    );
    assert_eq!(remap.get_type(), expected);
    assert_ne!(remap.get_type(), "Block");
}

#[test]
fn sub_heap_blocks_share_the_bytes_of_the_region() {
    let mut heap = GlobalHeap::new();
    let region = heap.allocate(64, 16).unwrap();
    let sub = Heap::new(&mut heap, &region);
    assert_eq!(sub.get_region().info(), region.info());
    let a = sub.allocate(&mut heap, 8, 8).unwrap();
    let b = sub.allocate(&mut heap, 8, 8).unwrap();
    assert_eq!(a.info(), MemInfo { base: region.info().base, size: 8 });
    assert_eq!(b.info(), MemInfo { base: region.info().base + 8, size: 8 });
    U64Access::write(&*b, &mut heap, &b.info().base, 0x1122334455667788).unwrap();
    assert_eq!(
        U64Access::read(&*region, &heap, &(region.info().base + 8)),
        Ok(0x1122334455667788)
    );
    assert_eq!(U64Access::read(&*a, &heap, &a.info().base), Ok(0));
}

#[test]
fn sub_heap_runs_out_of_memory() {
    let mut heap = GlobalHeap::new();
    let region = heap.allocate(16, 16).unwrap();
    let sub = Heap::new(&mut heap, &region);
    assert!(sub.allocate(&mut heap, 16, 1).is_ok());
    match sub.allocate(&mut heap, 1, 1) {
        Err(msg) => assert_eq!(msg, "oom!"),
        Ok(_) => panic!("the heap is full"),
    }
}

#[test]
fn global_heap_runs_out_of_memory() {
    let mut heap = GlobalHeap::new();
    match heap.lazy_alloc(GLOBAL_HEAP_SIZE + 1, 1) {
        Err(msg) => assert_eq!(msg, "oom!"),
        Ok(_) => panic!("larger than the universe"),
    }
    assert!(heap.lazy_alloc(GLOBAL_HEAP_SIZE, 1).is_ok());
    match heap.allocate(1, 1) {
        Err(msg) => assert_eq!(msg, "oom!"),
        Ok(_) => panic!("the universe is taken"),
    }
}

#[test]
fn released_block_returns_to_the_universe() {
    let mut heap = GlobalHeap::new();
    let region = heap.allocate(32, 1).unwrap();
    let info = region.info();
    assert!(allocated(&heap, info));
    heap.release(region);
    assert!(!allocated(&heap, info));
    assert_eq!(
        heap.allocator().free_blocks(),
        vec![MemInfo { base: 0, size: GLOBAL_HEAP_SIZE }]
    );
}

#[test]
fn released_sub_block_returns_to_the_sub_heap() {
    let mut heap = GlobalHeap::new();
    let region = heap.allocate(16, 16).unwrap();
    let sub = Heap::new(&mut heap, &region);
    let a = sub.allocate(&mut heap, 16, 1).unwrap();
    assert!(sub.allocate(&mut heap, 1, 1).is_err());
    heap.release(a);
    assert!(sub.allocate(&mut heap, 16, 1).is_ok());
}

struct Latch {
    value: Cell<u32>,
}

struct LatchPort(Rc<Latch>);

impl IOAccess for LatchPort {
    fn u32_write(&self, _: &mut GlobalHeap, _: u64, data: u32) -> Result<(), Error> {
        self.0.value.set(data);
        Ok(())
    }

    fn u32_read(&self, _: &GlobalHeap, addr: u64) -> Result<u32, Error> {
        Ok(self.0.value.get() + addr as u32)
    }

    fn u8_write(&self, _: &mut GlobalHeap, addr: u64, _: u8) -> Result<(), Error> {
        unprovided(addr, Access::U8Write)
    }

    fn u8_read(&self, _: &GlobalHeap, addr: u64) -> Result<u8, Error> {
        unprovided(addr, Access::U8Read)
    }

    fn u16_write(&self, _: &mut GlobalHeap, addr: u64, _: u16) -> Result<(), Error> {
        unprovided(addr, Access::U16Write)
    }

    fn u16_read(&self, _: &GlobalHeap, addr: u64) -> Result<u16, Error> {
        unprovided(addr, Access::U16Read)
    }

    fn u64_write(&self, _: &mut GlobalHeap, addr: u64, _: u64) -> Result<(), Error> {
        unprovided(addr, Access::U64Write)
    }

    fn u64_read(&self, _: &GlobalHeap, addr: u64) -> Result<u64, Error> {
        unprovided(addr, Access::U64Read)
    }

    fn bytes_write(&self, _: &mut GlobalHeap, addr: u64, _: &[u8]) -> Result<usize, Error> {
        unprovided(addr, Access::BytesWrite)
    }

    fn bytes_read(&self, _: &GlobalHeap, addr: u64, _: &mut Vec<u8>) -> Result<usize, Error> {
        unprovided(addr, Access::BytesRead)
    }
}

#[test]
fn unprovided_names_the_accessor() {
    let all = [
        (Access::U8Write, "IOAccess::u8_write not implemented"),
        (Access::U8Read, "IOAccess::u8_read not implemented"),
        (Access::U16Write, "IOAccess::u16_write not implemented"),
        (Access::U16Read, "IOAccess::u16_read not implemented"),
        (Access::U32Write, "IOAccess::u32_write not implemented"),
        (Access::U32Read, "IOAccess::u32_read not implemented"),
        (Access::U64Write, "IOAccess::u64_write not implemented"),
        (Access::U64Read, "IOAccess::u64_read not implemented"),
        (Access::BytesWrite, "IOAccess::bytes_write not implemented"),
        (Access::BytesRead, "IOAccess::bytes_read not implemented"),
    ];
    for (access, text) in all {
        let r: Result<u8, Error> = unprovided(0x20, access);
        assert_eq!(r, Err(Error::AccessErr(0x20, text.to_string())));
    }
}

#[test]
fn io_region_forwards_to_the_device() {
    let mut heap = GlobalHeap::new();
    let latch = Rc::new(Latch { value: Cell::new(0) });
    let region = Region::io(0x1000, 0x100, Box::new(LatchPort(Rc::clone(&latch))));
    assert_eq!(region.get_type(), "IO");
    U32Access::write(&*region, &mut heap, &0x1004, 0x40).unwrap();
    assert_eq!(latch.value.get(), 0x40);
    assert_eq!(U32Access::read(&*region, &heap, &0x1008), Ok(0x40 + 0x1008));
    let remap = Region::remap(0x8000, &region);
    assert_eq!(U32Access::read(&*remap, &heap, &0x8008), Ok(0x40 + 0x1008));
}

#[test]
fn io_region_without_accessor_fails() {
    let mut heap = GlobalHeap::new();
    let latch = Rc::new(Latch { value: Cell::new(0) });
    let region = Region::io(0x1000, 0x100, Box::new(LatchPort(latch)));
    match U8Access::read(&*region, &heap, &0x1000) {
        Err(Error::AccessErr(addr, msg)) => {
            assert_eq!(addr, 0x1000);
            assert_eq!(msg, "IOAccess::u8_read not implemented");
        }
        other => panic!("{:?}", other),
    }
    match U64Access::write(&*region, &mut heap, &0x1000, 1) {
        Err(Error::AccessErr(addr, msg)) => {
            assert_eq!(addr, 0x1000);
            assert_eq!(msg, "IOAccess::u64_write not implemented");
        }
        other => panic!("{:?}", other),
    }
    assert_eq!(U16Access::read(&*region, &heap, &0x1001), Err(Error::Misalign(0x1001)));
    assert_eq!(U8Access::read(&*region, &heap, &0x1100), Err(Error::OutOfRange));
}

#[test]
fn region_of_another_heap_is_not_backed() {
    let mut heap = GlobalHeap::new();
    let region = heap.allocate(16, 8).unwrap();
    let mut other = GlobalHeap::new();
    match U8Access::read(&*region, &other, &region.info().base) {
        Err(Error::AccessErr(addr, _)) => assert_eq!(addr, region.info().base),
        other => panic!("{:?}", other),
    }
    match U32Access::write(&*region, &mut other, &region.info().base, 1) {
        Err(Error::AccessErr(addr, _)) => assert_eq!(addr, region.info().base),
        other => panic!("{:?}", other),
    }
    assert_eq!(U32Access::read(&*region, &heap, &region.info().base), Ok(0));
}

#[test]
fn reclaiming_the_only_handle_frees_the_block() {
    let mut heap = GlobalHeap::new();
    let region = heap.allocate(32, 1).unwrap();
    let other = heap.allocate(32, 1).unwrap();
    let info = region.info();
    U8Access::write(&*other, &mut heap, &other.info().base, 7).unwrap();
    match Rc::try_unwrap(region) {
        Ok(owned) => heap.reclaim(owned),
        Err(_) => panic!("the region has one handle"),
    }
    assert!(!allocated(&heap, info));
    assert!(allocated(&heap, other.info()));
    assert_eq!(U8Access::read(&*other, &heap, &other.info().base), Ok(7));
}

#[test]
fn reclaiming_a_sub_heap_gives_up_its_region() {
    let mut heap = GlobalHeap::new();
    let region = heap.allocate(64, 16).unwrap();
    let info = region.info();
    let sub = Heap::new(&mut heap, &region);
    heap.release(region);
    assert!(allocated(&heap, info));
    match Rc::try_unwrap(sub) {
        Ok(owned) => heap.reclaim_heap(owned),
        Err(_) => panic!("the sub-heap has one handle"),
    }
    assert!(!allocated(&heap, info));
    assert_eq!(
        heap.allocator().free_blocks(),
        vec![MemInfo { base: 0, size: GLOBAL_HEAP_SIZE }]
    );
}

#[test]
fn shared_sub_heap_outlives_one_handle() {
    let mut heap = GlobalHeap::new();
    let region = heap.allocate(64, 16).unwrap();
    let sub = Heap::new(&mut heap, &region);
    let block = sub.allocate(&mut heap, 8, 8).unwrap();
    heap.release_heap(sub);
    heap.release(region);
    assert_eq!(U8Access::write(&*block, &mut heap, &block.info().base, 9), Ok(()));
    assert_eq!(U8Access::read(&*block, &heap, &block.info().base), Ok(9));
    let info = block.info();
    heap.release(block);
    assert!(!allocated(&heap, info));
    assert_eq!(heap.allocator().alloced_blocks(), vec![]);
}

#[test]
fn missing_accessor_is_reported_at_the_address_the_device_sees() {
    let mut heap = GlobalHeap::new();
    let latch = Rc::new(Latch { value: Cell::new(0) });
    let region = Region::io(0x1000, 0x100, Box::new(LatchPort(latch)));
    let remap = Region::remap(0x8000, &region);
    assert_eq!(
        U8Access::read(&*remap, &heap, &0x8004),
        Err(Error::AccessErr(0x1004, "IOAccess::u8_read not implemented".to_string()))
    );
    assert_eq!(
        U16Access::write(&*remap, &mut heap, &0x8006, 1),
        Err(Error::AccessErr(0x1006, "IOAccess::u16_write not implemented".to_string()))
    );
    let shifted = Region::remap_partial(0x9000, &region, 1, 0x40);
    assert_eq!(
        U32Access::read(&*shifted, &heap, &0x9004),
        Err(Error::AccessErr(0x1005, "IOAccess::bytes_read not implemented".to_string()))
    );
    assert_eq!(
        U64Access::write(&*shifted, &mut heap, &0x9008, 1),
        Err(Error::AccessErr(0x1009, "IOAccess::bytes_write not implemented".to_string()))
    );
    assert_eq!(U32Access::read(&*shifted, &heap, &0x9003), Err(Error::Misalign(0x9003)));
    let mut buf = vec![7u8; 3];
    assert_eq!(
        BytesAccess::read(&*remap, &heap, &0x8001, &mut buf),
        Err(Error::AccessErr(0x1001, "IOAccess::bytes_read not implemented".to_string()))
    );
    assert_eq!(buf, vec![7u8; 3]);
    assert_eq!(heap.allocator().alloced_blocks(), vec![]);
}

#[test]
fn allocated_regions_are_blocks() {
    let mut heap = GlobalHeap::new();
    let eager = heap.allocate(9, 8).unwrap();
    let lazy = heap.lazy_alloc(9, 8).unwrap();
    let sub = Heap::new(&mut heap, &eager);
    let block = sub.allocate(&mut heap, 4, 1).unwrap();
    assert_eq!(eager.get_type(), "Block");
    assert_eq!(lazy.get_type(), "Block");
    assert_eq!(block.get_type(), "Block");
    assert!(Region::remap(0x8000_0000, &eager).get_type().starts_with("Remap(Block@"));
}

#[test]
fn sub_heap_tells_whether_requests_fit() {
    let mut heap = GlobalHeap::new();
    let region = heap.allocate(64, 16).unwrap();
    let sub = Heap::new(&mut heap, &region);
    assert!(sub.can_allocate_all(&heap, &vec![(32, 8), (16, 16), (16, 1)]));
    assert!(!sub.can_allocate_all(&heap, &vec![(32, 8), (16, 16), (17, 1)]));
    assert!(!sub.can_allocate_all(&heap, &vec![(33, 1), (16, 16), (16, 1)]));
    assert!(sub.can_allocate_all(&heap, &vec![]));
    assert!(sub.allocate(&mut heap, 64, 1).is_ok());
    assert!(!sub.can_allocate_all(&heap, &vec![(1, 1)]));
    let other = GlobalHeap::new();
    assert!(!sub.can_allocate_all(&other, &vec![(1, 1)]));
}

struct Tape {
    written: Cell<(u64, u64, usize)>,
    leave: usize,
}

struct TapePort(Rc<Tape>);

impl IOAccess for TapePort {
    fn u8_write(&self, _: &mut GlobalHeap, addr: u64, _: u8) -> Result<(), Error> {
        unprovided(addr, Access::U8Write)
    }

    fn u8_read(&self, _: &GlobalHeap, addr: u64) -> Result<u8, Error> {
        unprovided(addr, Access::U8Read)
    }

    fn u16_write(&self, _: &mut GlobalHeap, addr: u64, _: u16) -> Result<(), Error> {
        unprovided(addr, Access::U16Write)
    }

    fn u16_read(&self, _: &GlobalHeap, addr: u64) -> Result<u16, Error> {
        unprovided(addr, Access::U16Read)
    }

    fn u32_write(&self, _: &mut GlobalHeap, addr: u64, _: u32) -> Result<(), Error> {
        unprovided(addr, Access::U32Write)
    }

    fn u32_read(&self, _: &GlobalHeap, addr: u64) -> Result<u32, Error> {
        unprovided(addr, Access::U32Read)
    }

    fn u64_write(&self, _: &mut GlobalHeap, addr: u64, _: u64) -> Result<(), Error> {
        unprovided(addr, Access::U64Write)
    }

    fn u64_read(&self, _: &GlobalHeap, addr: u64) -> Result<u64, Error> {
        unprovided(addr, Access::U64Read)
    }

    fn bytes_write(&self, _: &mut GlobalHeap, addr: u64, data: &[u8]) -> Result<usize, Error> {
        let mut value = 0u64;
        for (i, b) in data.iter().enumerate() {
            value |= (*b as u64) << (8 * i);
        }
        self.0.written.set((addr, value, data.len()));
        Ok(0)
    }

    fn bytes_read(&self, _: &GlobalHeap, addr: u64, data: &mut Vec<u8>) -> Result<usize, Error> {
        assert!(data.iter().all(|b| *b == 0));
        for (i, b) in data.iter_mut().enumerate() {
            *b = addr as u8 + i as u8;
        }
        data.truncate(self.0.leave);
        Ok(0)
    }
}

#[test]
fn access_off_the_width_goes_to_the_device_as_bytes() {
    let mut heap = GlobalHeap::new();
    let tape = Rc::new(Tape { written: Cell::new((0, 0, 0)), leave: 8 });
    let region = Region::io(0x1000, 0x100, Box::new(TapePort(Rc::clone(&tape))));
    let shifted = Region::remap_partial(0x9000, &region, 1, 0x40);
    assert_eq!(U16Access::read(&*shifted, &heap, &0x9002), Ok(0x0403));
    assert_eq!(U32Access::read(&*shifted, &heap, &0x9004), Ok(0x0807_0605));
    assert_eq!(U64Access::read(&*shifted, &heap, &0x9008), Ok(0x100f_0e0d_0c0b_0a09));
    assert_eq!(U16Access::write(&*shifted, &mut heap, &0x9002, 0xbeef), Ok(()));
    assert_eq!(tape.written.get(), (0x1003, 0xbeef, 2));
    assert_eq!(U32Access::write(&*shifted, &mut heap, &0x9004, 0xdead_beef), Ok(()));
    assert_eq!(tape.written.get(), (0x1005, 0xdead_beef, 4));
    assert_eq!(U64Access::write(&*shifted, &mut heap, &0x9008, 0x0123_4567_89ab_cdef), Ok(()));
    assert_eq!(tape.written.get(), (0x1009, 0x0123_4567_89ab_cdef, 8));
    assert_eq!(
        U32Access::read(&*region, &heap, &0x1004),
        Err(Error::AccessErr(0x1004, "IOAccess::u32_read not implemented".to_string()))
    );
    let mut buf = vec![0u8; 3];
    assert_eq!(BytesAccess::read(&*shifted, &heap, &0x9001, &mut buf), Ok(0));
    assert_eq!(buf, vec![2, 3, 4]);
    assert_eq!(BytesAccess::write(&*shifted, &mut heap, &0x9001, &[1, 2, 3]), Ok(0));
    assert_eq!(tape.written.get(), (0x1002, 0x03_0201, 3));
}

#[test]
fn device_that_leaves_another_length_is_reported() {
    let heap = GlobalHeap::new();
    let tape = Rc::new(Tape { written: Cell::new((0, 0, 0)), leave: 3 });
    let region = Region::io(0x1000, 0x100, Box::new(TapePort(tape)));
    let shifted = Region::remap_partial(0x9000, &region, 1, 0x40);
    match U32Access::read(&*shifted, &heap, &0x9004) {
        Err(Error::AccessErr(addr, _)) => assert_eq!(addr, 0x9004),
        other => panic!("{:?}", other),
    }
    match U64Access::read(&*shifted, &heap, &0x9008) {
        Err(Error::AccessErr(addr, _)) => assert_eq!(addr, 0x9008),
        other => panic!("{:?}", other),
    }
    assert_eq!(U16Access::read(&*shifted, &heap, &0x9002), Ok(0x0403));
}

use terminus_spaceport::memory::region::{
    Error as RegionError, GlobalHeap, Heap, Region, U32Access, U64Access,
};
use terminus_spaceport::memory::MemInfo;
use terminus_spaceport::space::{Error, Space, SpaceTable};

#[test]
fn space_drop() {
    let mut space = Space::new();
    let mut heap = GlobalHeap::new();
    let allocated = heap.allocate(188, 1024).unwrap();
    let region = space.add_region("region", &allocated).unwrap();
    heap.release(allocated);
    let info = region.info();
    let heap1 = Heap::new(&mut heap, &space.get_region("region").unwrap());
    let remap = Region::remap(0x80000000, &space.get_region("region").unwrap());
    let remap2 = Region::remap(0x10000000, &space.get_region("region").unwrap());
    println!("{:?}", heap.allocator().alloced_blocks());
    assert_ne!(heap.allocator().alloced_blocks().iter().find(|i| **i == info), None);
    heap.release(region);
    println!("{:?}", heap.allocator().alloced_blocks());
    assert_ne!(heap.allocator().alloced_blocks().iter().find(|i| **i == info), None);
    heap.release(remap2);
    println!("{:?}", heap.allocator().alloced_blocks());
    assert_ne!(heap.allocator().alloced_blocks().iter().find(|i| **i == info), None);
    let region1 = heap1.allocate(&mut heap, 2, 1).unwrap();
    heap.release_heap(heap1);
    println!("{:?}", heap.allocator().alloced_blocks());
    assert_ne!(heap.allocator().alloced_blocks().iter().find(|i| **i == info), None);
    let remap3 = Region::remap(0x10000000, &region1);
    heap.release(region1);
    println!("{:?}", heap.allocator().alloced_blocks());
    assert_ne!(heap.allocator().alloced_blocks().iter().find(|i| **i == info), None);
    heap.release(remap3);
    println!("{:?}", heap.allocator().alloced_blocks());
    assert_ne!(heap.allocator().alloced_blocks().iter().find(|i| **i == info), None);
    heap.release(remap);
    assert_ne!(heap.allocator().alloced_blocks().iter().find(|i| **i == info), None);
    space.delete_region(&mut heap, "region");
    println!("{:?}", heap.allocator().alloced_blocks());
    assert_eq!(heap.allocator().alloced_blocks().iter().find(|i| **i == info), None);
}

#[test]
fn space_query() {
    let mut space = Space::new();
    let mut heap = GlobalHeap::new();
    let region = space.add_region("region", &heap.allocate(9, 1).unwrap()).unwrap();
    let region2 = space
        .add_region(
            "region2",
            &Region::remap(0x80000000, &heap.allocate(9, 1).unwrap()),
        )
        .unwrap();
    let region3 = space
        .add_region("region3", &Region::remap(0x10000000, &region))
        .unwrap();
    assert_eq!(
        space.get_region_by_addr(&region2.info().base).unwrap().info(),
        region2.info()
    );
    assert_eq!(
        space.get_region_by_addr(&(region3.info().base + 2)).unwrap().info(),
        region3.info()
    );
}

fn two_regions(heap: &mut GlobalHeap) -> Space {
    let mut space = Space::new();
    let a = heap.allocate(0xc0000, 8).unwrap();
    let b = heap.lazy_alloc(0x1_0000_0000, 8).unwrap();
    space.add_region("B", &Region::remap(0x8000_0000, &b)).unwrap();
    space.add_region("A", &Region::remap(0x200_0000, &a)).unwrap();
    space
}

#[test]
fn accesses_are_routed_by_address() {
    let mut heap = GlobalHeap::new();
    let space = two_regions(&mut heap);
    assert_eq!(space.write_u64(&mut heap, &0x8000_0080, 0x1122334455667788), Ok(()));
    assert_eq!(space.read_u64(&heap, &0x8000_0080), Ok(0x1122334455667788));
    let b = space.get_region("B").unwrap();
    assert_eq!(b.info(), MemInfo { base: 0x8000_0000, size: 0x1_0000_0000 });
    assert_eq!(U64Access::read(&*b, &heap, &(b.info().base + 0x80)), Ok(0x1122334455667788));
    assert_eq!(space.read_u64(&heap, &0x300_0000), Err(RegionError::NotMapped(0x300_0000)));
    assert_eq!(space.read_u64(&heap, &0x200_0000), Ok(0));
    assert_eq!(space.read_u64(&heap, &0x1ff_fff8), Err(RegionError::NotMapped(0x1ff_fff8)));
    assert_eq!(space.read_u64(&heap, &0x20c_0000), Err(RegionError::NotMapped(0x20c_0000)));
    assert_eq!(space.read_u64(&heap, &0x20b_fff8), Ok(0));
}

#[test]
fn every_width_goes_through_the_space() {
    let mut heap = GlobalHeap::new();
    let space = two_regions(&mut heap);
    assert_eq!(space.write_u8(&mut heap, &0x200_0001, 0x12), Ok(()));
    assert_eq!(space.read_u8(&heap, &0x200_0001), Ok(0x12));
    assert_eq!(space.write_u16(&mut heap, &0x200_0002, 0x3456), Ok(()));
    assert_eq!(space.read_u16(&heap, &0x200_0002), Ok(0x3456));
    assert_eq!(space.write_u32(&mut heap, &0x200_0004, 0x789abcde), Ok(()));
    assert_eq!(space.read_u32(&heap, &0x200_0004), Ok(0x789abcde));
    assert_eq!(space.write_bytes(&mut heap, &0x200_0009, &[9, 8, 7]), Ok(3));
    let mut buf = vec![0u8; 3];
    assert_eq!(space.read_bytes(&heap, &0x200_0009, &mut buf), Ok(3));
    assert_eq!(buf, vec![9, 8, 7]);
    assert_eq!(space.read_u32(&heap, &0x200_0002), Err(RegionError::Misalign(0x200_0002)));
    assert_eq!(space.write_u8(&mut heap, &0x100, 1), Err(RegionError::NotMapped(0x100)));
    assert_eq!(space.write_u16(&mut heap, &0x100, 1), Err(RegionError::NotMapped(0x100)));
    assert_eq!(space.write_u32(&mut heap, &0x100, 1), Err(RegionError::NotMapped(0x100)));
    assert_eq!(space.write_u64(&mut heap, &0x100, 1), Err(RegionError::NotMapped(0x100)));
    assert_eq!(space.write_bytes(&mut heap, &0x100, &[1]), Err(RegionError::NotMapped(0x100)));
    assert_eq!(space.read_u8(&heap, &0x100), Err(RegionError::NotMapped(0x100)));
    assert_eq!(space.read_u16(&heap, &0x100), Err(RegionError::NotMapped(0x100)));
    assert_eq!(space.read_bytes(&heap, &0x100, &mut buf), Err(RegionError::NotMapped(0x100)));
}

#[test]
fn overlapping_region_is_rejected() {
    let mut heap = GlobalHeap::new();
    let mut space = two_regions(&mut heap);
    let c = heap.allocate(0x1000, 8).unwrap();
    assert_eq!(
        space.add_region("C", &Region::remap(0x20b_f000 + 0x800, &c)).err(),
        Some(Error::Overlap("C".to_string(), "A".to_string()))
    );
    assert_eq!(
        space.add_region("C", &Region::remap(0x7fff_f800, &c)).err(),
        Some(Error::Overlap("C".to_string(), "B".to_string()))
    );
    assert_eq!(
        space.add_region("C", &Region::remap(0x8000_1000, &c)).err(),
        Some(Error::Overlap("C".to_string(), "B".to_string()))
    );
    assert!(space.add_region("C", &Region::remap(0x20c_0000, &c)).is_ok());
    assert!(space.add_region("D", &Region::remap(0x1ff_f000, &c)).is_ok());
    assert_eq!(
        space.get_region_by_addr(&0x20c_0fff).unwrap().info(),
        MemInfo { base: 0x20c_0000, size: 0x1000 }
    );
    assert_eq!(
        space.get_region_by_addr(&0x1ff_ffff).unwrap().info(),
        MemInfo { base: 0x1ff_f000, size: 0x1000 }
    );
}

#[test]
fn taken_name_is_rejected() {
    let mut heap = GlobalHeap::new();
    let mut space = two_regions(&mut heap);
    let c = heap.allocate(0x1000, 8).unwrap();
    assert_eq!(
        space.add_region("A", &Region::remap(0x4000_0000, &c)).err(),
        Some(Error::Renamed("A".to_string()))
    );
    assert_eq!(
        space.add_region("A", &Region::remap(0x200_0000, &c)).err(),
        Some(Error::Renamed("A".to_string()))
    );
    assert!(space.get_region_by_addr(&0x4000_0000).is_err());
}

#[test]
fn regions_are_found_by_name() {
    let mut heap = GlobalHeap::new();
    let mut space = two_regions(&mut heap);
    assert_eq!(
        space.get_region("A").unwrap().info(),
        MemInfo { base: 0x200_0000, size: 0xc0000 }
    );
    assert!(space.get_region("C").is_none());
    space.delete_region(&mut heap, "A");
    assert!(space.get_region("A").is_none());
    assert_eq!(space.read_u32(&heap, &0x200_0000), Err(RegionError::NotMapped(0x200_0000)));
    assert_eq!(U32Access::read(&*space.get_region("B").unwrap(), &heap, &0x8000_0000), Ok(0));
    space.delete_region(&mut heap, "nothing");
    assert!(space.get_region("B").is_some());
}

#[test]
fn lookup_finds_every_region_among_many() {
    let mut heap = GlobalHeap::new();
    let mut space = Space::new();
    let backing = heap.lazy_alloc(0x100, 8).unwrap();
    let order: [u64; 9] = [5, 1, 8, 3, 0, 7, 2, 6, 4];
    for i in order.iter() {
        let name = format!("r{}", i);
        space.add_region(&name, &Region::remap(i * 0x1000, &backing)).unwrap();
    }
    for i in 0..9u64 {
        assert_eq!(
            space.get_region_by_addr(&(i * 0x1000 + 0xff)).unwrap().info(),
            MemInfo { base: i * 0x1000, size: 0x100 }
        );
        assert_eq!(
            space.get_region_by_addr(&(i * 0x1000 + 0x100)).err(),
            Some(RegionError::NotMapped(i * 0x1000 + 0x100))
        );
    }
}

#[test]
fn regions_are_listed_in_ascending_order() {
    let mut heap = GlobalHeap::new();
    let space = two_regions(&mut heap);
    assert_eq!(
        space.regions(),
        vec![
            ("A".to_string(), MemInfo { base: 0x200_0000, size: 0xc0000 }),
            ("B".to_string(), MemInfo { base: 0x8000_0000, size: 0x1_0000_0000 }),
        ]
    );
    assert_eq!(Space::new().regions(), vec![]);
}

#[test]
fn table_creates_a_space_on_first_lookup() {
    let mut heap = GlobalHeap::new();
    let mut table = SpaceTable::new();
    assert!(table.find_space("main").is_none());
    let region = heap.allocate(16, 8).unwrap();
    table.get_space("main").add_region("ram", &Region::remap(0x1000, &region)).unwrap();
    assert!(table.get_space("other").get_region("ram").is_none());
    assert_eq!(
        table.get_space("main").get_region("ram").unwrap().info(),
        MemInfo { base: 0x1000, size: 16 }
    );
    assert_eq!(table.find_or_create("main"), 0);
    assert_eq!(table.find_or_create("other"), 1);
    assert_eq!(table.find_or_create("third"), 2);
    assert_eq!(table.space(0).regions().len(), 1);
    assert_eq!(table.space_mut(1).regions().len(), 0);
    assert!(table.find_space("main").unwrap().get_region("ram").is_some());
    assert!(table.find_space("nothing").is_none());
}

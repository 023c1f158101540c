use terminus_spaceport::memory::allocator::{AllocationInfo, Allocator, LockedAllocator};
use terminus_spaceport::memory::{align_down, align_gap, align_up, is_valid_align, MemInfo};

fn block(base: u64, size: u64) -> MemInfo {
    MemInfo { base, size }
}

#[test]
fn align_down_rounds_to_a_multiple() {
    assert_eq!(align_down(0x1237, 0x10), 0x1230);
    assert_eq!(align_down(0x1230, 0x10), 0x1230);
    assert_eq!(align_down(7, 0), 7);
    assert_eq!(align_down(7, 1), 7);
}

#[test]
fn align_up_rounds_to_a_multiple() {
    assert_eq!(align_up(5, 4), 8);
    assert_eq!(align_up(8, 4), 8);
    assert_eq!(align_up(5, 0), 5);
    assert_eq!(align_up(0, 8), 0);
    assert_eq!(align_gap(5, 4), 3);
    assert_eq!(align_gap(8, 4), 0);
}

#[test]
fn alignments_are_zero_or_powers_of_two() {
    assert!(is_valid_align(0));
    assert!(is_valid_align(1));
    assert!(is_valid_align(1 << 63));
    assert!(!is_valid_align(3));
    assert!(!is_valid_align(12));
}

#[test]
fn new_allocator_has_one_free_block() {
    let a = Allocator::new(1, 9);
    assert_eq!(a.info(), block(1, 9));
    assert_eq!(a.free_blocks(), vec![block(1, 9)]);
    assert_eq!(a.alloced_blocks(), vec![]);
}

#[test]
fn first_fit_splits_blocks() {
    let mut a = Allocator::new(1, 9);
    assert_eq!(a.allocate(4, 1), Some(block(1, 4)));
    assert_eq!(a.free_blocks(), vec![block(5, 5)]);
    assert_eq!(a.allocate(2, 4), Some(block(8, 2)));
    assert_eq!(a.free_blocks(), vec![block(5, 3)]);
    assert_eq!(a.allocate(1, 1), Some(block(5, 1)));
    assert_eq!(a.free_blocks(), vec![block(6, 2)]);
    assert_eq!(a.allocate(2, 1), Some(block(6, 2)));
    assert_eq!(a.free_blocks(), vec![]);
    assert_eq!(a.allocate(1, 1), None);
    assert_eq!(
        a.alloced_blocks(),
        vec![block(6, 2), block(5, 1), block(8, 2), block(1, 4)]
    );
}

#[test]
fn tail_fragment_goes_in_front_of_head_fragment() {
    let mut a = Allocator::new(1, 20);
    assert_eq!(a.allocate(2, 4), Some(block(4, 2)));
    assert_eq!(a.free_blocks(), vec![block(6, 15), block(1, 3)]);
}

#[test]
fn failed_request_changes_nothing() {
    let mut a = Allocator::new(0, 8);
    assert_eq!(a.allocate(9, 1), None);
    assert_eq!(a.free_blocks(), vec![block(0, 8)]);
    assert_eq!(a.alloced_blocks(), vec![]);
}

fn free_all_in_order(order: [u64; 4]) {
    let mut a = Allocator::new(1, 9);
    a.allocate(4, 1).unwrap();
    a.allocate(2, 4).unwrap();
    a.allocate(1, 1).unwrap();
    a.allocate(2, 1).unwrap();
    for base in order.iter() {
        assert!(a.has_block_at(*base));
        a.free(*base);
    }
    assert_eq!(a.free_blocks(), vec![block(1, 9)]);
    assert_eq!(a.alloced_blocks(), vec![]);
}

#[test]
fn freeing_everything_leaves_the_universe() {
    free_all_in_order([1, 8, 5, 6]);
    free_all_in_order([6, 5, 8, 1]);
    free_all_in_order([5, 1, 6, 8]);
    free_all_in_order([8, 6, 1, 5]);
}

#[test]
fn free_merges_with_both_neighbours() {
    let mut a = Allocator::new(0, 12);
    a.allocate(4, 1).unwrap();
    a.allocate(4, 1).unwrap();
    a.allocate(4, 1).unwrap();
    a.free(0);
    a.free(8);
    assert_eq!(a.free_blocks(), vec![block(8, 4), block(0, 4)]);
    a.free(4);
    assert_eq!(a.free_blocks(), vec![block(0, 12)]);
}

#[test]
fn free_without_neighbours_adds_a_block() {
    let mut a = Allocator::new(0, 12);
    a.allocate(4, 1).unwrap();
    a.allocate(4, 1).unwrap();
    a.allocate(4, 1).unwrap();
    a.free(4);
    assert_eq!(a.free_blocks(), vec![block(4, 4)]);
    assert_eq!(a.alloced_blocks(), vec![block(8, 4), block(0, 4)]);
    assert!(!a.has_block_at(4));
}

#[test]
fn blocks_stay_disjoint_and_cover_the_universe() {
    let mut a = Allocator::new(0, 64);
    let sizes: [(u64, u64); 6] = [(3, 1), (8, 8), (5, 2), (16, 16), (1, 1), (7, 4)];
    let mut bases: Vec<u64> = vec![];
    for (size, align) in sizes.iter() {
        if let Some(b) = a.allocate(*size, *align) {
            bases.push(b.base);
        }
        check_partition(&a);
    }
    for base in bases.iter().rev() {
        a.free(*base);
        check_partition(&a);
    }
    assert_eq!(a.free_blocks(), vec![block(0, 64)]);
}

fn check_partition(a: &Allocator) {
    let mut all: Vec<AllocationInfo> = a.free_blocks();
    all.extend(a.alloced_blocks());
    for addr in 0..64u64 {
        let owners = all
            .iter()
            .filter(|b| b.base <= addr && addr < b.base + b.size)
            .count();
        assert_eq!(owners, 1);
    }
}

#[test]
fn locked_allocator_behaves_as_the_allocator() {
    let mut a = LockedAllocator::new(1, 9);
    assert_eq!(a.allocate(4, 1), Some(block(1, 4)));
    assert_eq!(a.allocate(2, 4), Some(block(8, 2)));
    assert!(a.has_block_at(8));
    a.free(8);
    a.free(1);
    assert_eq!(a.free_blocks(), vec![block(1, 9)]);
    assert_eq!(a.alloced_blocks(), vec![]);
}

#[test]
fn trial_of_requests_leaves_the_allocator_alone() {
    let mut a = Allocator::new(1, 9);
    assert!(a.fits_all(&vec![(4, 1), (2, 4), (1, 1), (2, 1)]));
    assert!(!a.fits_all(&vec![(4, 1), (2, 4), (1, 1), (2, 1), (1, 1)]));
    assert!(!a.fits_all(&vec![(10, 1)]));
    assert_eq!(a.free_blocks(), vec![block(1, 9)]);
    assert_eq!(a.alloced_blocks(), vec![]);
    a.allocate(4, 1).unwrap();
    let copy = a.duplicate();
    assert_eq!(copy.info(), a.info());
    assert_eq!(copy.free_blocks(), a.free_blocks());
    assert_eq!(copy.alloced_blocks(), a.alloced_blocks());
    assert!(a.fits_all(&vec![(5, 1)]));
    assert!(!a.fits_all(&vec![(5, 1), (1, 1)]));
}

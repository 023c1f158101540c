use std::sync::Arc;
use terminus_spaceport::devices::display::{
    PixelFormat, MOUSE_BTN_LEFT, MOUSE_BTN_MIDDLE, MOUSE_BTN_RIGHT,
};
use terminus_spaceport::memory::allocator::list::List;

fn values(list: &Arc<List<u32>>) -> Vec<u32> {
    let mut out = vec![];
    let mut it = list.iter();
    while let Some(cell) = it.next() {
        out.push(cell.car().unwrap());
    }
    out
}

#[test]
fn cons_puts_a_value_in_front() {
    let nil = List::<u32>::nil();
    assert_eq!(values(&nil), vec![]);
    let one = List::cons(1, &nil);
    let two = List::cons(2, &one);
    assert_eq!(values(&two), vec![2, 1]);
    assert_eq!(values(&one), vec![1]);
    assert_eq!(two.car(), Some(2));
    assert_eq!(nil.car(), None);
}

#[test]
fn cdr_drops_the_first_value() {
    let nil = List::<u32>::nil();
    let list = List::cons(3, &List::cons(2, &List::cons(1, &nil)));
    assert_eq!(values(list.cdr()), vec![2, 1]);
    assert_eq!(values(nil.cdr()), vec![]);
    assert_eq!(values(list.last()), vec![1]);
    assert_eq!(values(nil.last()), vec![]);
    assert_eq!(values(List::cons(9, &nil).last()), vec![9]);
}

#[test]
fn append_keeps_both_lists() {
    let nil = List::<u32>::nil();
    let a = List::cons(1, &List::cons(2, &nil));
    let b = List::cons(3, &List::cons(4, &nil));
    let ab = List::append(&a, &b);
    assert_eq!(values(&ab), vec![1, 2, 3, 4]);
    assert_eq!(values(&a), vec![1, 2]);
    assert_eq!(values(&b), vec![3, 4]);
    assert_eq!(values(&List::append(&nil, &b)), vec![3, 4]);
    assert_eq!(values(&List::append(&a, &nil)), vec![1, 2]);
}

#[test]
fn pixels_take_two_or_four_bytes() {
    assert_eq!(PixelFormat::RGB565.size(), 2);
    assert_eq!(PixelFormat::RGB888.size(), 4);
    assert_eq!(MOUSE_BTN_LEFT, 1);
    assert_eq!(MOUSE_BTN_RIGHT, 2);
    assert_eq!(MOUSE_BTN_MIDDLE, 3);
}

use std::cell::Cell;
use std::rc::Rc;
use terminus_spaceport::irq::{Error, Handler, IrqStatus, IrqVec, IrqVecInner};

struct Counter(Rc<Cell<u32>>);

impl Handler for Counter {
    fn handle(&mut self) {
        self.0.set(self.0.get() + 1);
    }
}

#[test]
fn new_vector_is_quiet() {
    let v = IrqVec::new(3);
    assert_eq!(v.pendings(), 0);
    for i in 0..3 {
        assert_eq!(v.enable(i), Ok(false));
        assert_eq!(v.pending(i), Ok(false));
    }
    assert_eq!(v.enable(3), Err(Error::UnknownIRQ(3)));
    assert_eq!(v.pending(3), Err(Error::UnknownIRQ(3)));
    let _ = IrqVecInner::new(2);
}

#[test]
fn pendings_shows_enabled_and_pending() {
    let mut v = IrqVec::new(4);
    v.set_enable(0, true).unwrap();
    v.set_enable(2, true).unwrap();
    v.set_pending(0, true).unwrap();
    v.set_pending(1, true).unwrap();
    v.set_pending(2, true).unwrap();
    assert_eq!(v.pendings(), 0b101);
    v.set_enable(1, true).unwrap();
    assert_eq!(v.pendings(), 0b111);
    v.set_enable(0, false).unwrap();
    assert_eq!(v.pendings(), 0b110);
}

#[test]
fn clr_pendings_clears_the_named_bits() {
    let mut v = IrqVec::new(4);
    for i in 0..4 {
        v.set_enable(i, true).unwrap();
        v.set_pending(i, true).unwrap();
    }
    v.clr_pendings(0b0101);
    assert_eq!(v.pendings(), 0b1010);
    assert_eq!(v.pending(0), Ok(false));
    assert_eq!(v.pending(1), Ok(true));
    assert_eq!(v.enable(0), Ok(true));
    v.clr_pendings(v.pendings());
    assert_eq!(v.pendings(), 0);
}

#[test]
fn unchecked_accessors_agree_with_the_checked() {
    let mut v = IrqVec::new(2);
    v.set_enable_uncheck(1, true);
    v.set_pending_uncheck(1, true);
    assert!(v.enable_uncheck(1));
    assert!(v.pending_uncheck(1));
    assert!(!v.enable_uncheck(0));
    assert!(!v.pending_uncheck(0));
    assert_eq!(v.set_enable(2, true), Err(Error::UnknownIRQ(2)));
    assert_eq!(v.set_pending(2, true), Err(Error::UnknownIRQ(2)));
}

#[test]
fn send_raises_enabled_interrupts_only() {
    let mut v = IrqVec::new(2);
    let calls = Rc::new(Cell::new(0));
    v.binder().bind(&mut v, 0, Box::new(Counter(Rc::clone(&calls)))).unwrap();
    v.binder().bind(&mut v, 1, Box::new(Counter(Rc::clone(&calls)))).unwrap();
    let s0 = v.sender(0).unwrap();
    let s1 = v.sender(1).unwrap();
    assert_eq!(s0.id(), 0);
    assert_eq!(s0.send(&mut v), Ok(()));
    assert_eq!(s0.pending(&v), Ok(false));
    assert_eq!(calls.get(), 0);
    v.set_enable(1, true).unwrap();
    assert_eq!(s1.send(&mut v), Ok(()));
    assert_eq!(s1.pending(&v), Ok(true));
    assert!(s1.pending_uncheck(&v));
    assert_eq!(calls.get(), 1);
    assert_eq!(s1.send(&mut v), Ok(()));
    assert_eq!(calls.get(), 2);
    assert_eq!(s1.clear(&mut v), Ok(()));
    assert_eq!(s1.pending(&v), Ok(false));
    assert_eq!(v.pendings(), 0);
}

#[test]
fn send_drops_a_pending_bit_of_a_disabled_interrupt() {
    let mut v = IrqVec::new(1);
    v.set_pending(0, true).unwrap();
    let s = v.sender(0).unwrap();
    s.send(&mut v).unwrap();
    assert_eq!(v.pending(0), Ok(false));
}

#[test]
fn unknown_interrupts_are_refused() {
    let mut v = IrqVec::new(2);
    assert_eq!(v.sender(2).err(), Some(Error::UnknownIRQ(2)));
    let calls = Rc::new(Cell::new(0));
    assert_eq!(
        v.binder().bind(&mut v, 5, Box::new(Counter(Rc::clone(&calls)))),
        Err(Error::UnknownIRQ(5))
    );
    let s = v.sender(1).unwrap();
    let mut small = IrqVec::new(1);
    assert_eq!(s.send(&mut small), Err(Error::UnknownIRQ(1)));
    assert_eq!(s.clear(&mut small), Err(Error::UnknownIRQ(1)));
    assert_eq!(s.pending(&small), Err(Error::UnknownIRQ(1)));
}

#[test]
fn second_handler_is_refused() {
    let mut v = IrqVec::new(2);
    let calls = Rc::new(Cell::new(0));
    assert_eq!(v.binder().bind(&mut v, 1, Box::new(Counter(Rc::clone(&calls)))), Ok(()));
    assert_eq!(
        v.binder().bind(&mut v, 1, Box::new(Counter(Rc::clone(&calls)))),
        Err(Error::ExistedHandler(1))
    );
    assert_eq!(v.binder().bind(&mut v, 0, Box::new(Counter(Rc::clone(&calls)))), Ok(()));
}

#[test]
fn status_bits_beyond_the_mask_are_left_alone() {
    let mut v = IrqVec::new(70);
    v.set_enable(69, true).unwrap();
    v.set_pending(69, true).unwrap();
    v.set_enable(63, true).unwrap();
    v.set_pending(63, true).unwrap();
    assert_eq!(v.pendings(), 1 << 63);
    v.clr_pendings(u64::MAX);
    assert_eq!(v.pending(63), Ok(false));
    assert_eq!(v.pending(69), Ok(true));
    let _: Option<IrqStatus> = None;
}

#[test]
fn raise_says_whether_the_handler_runs() {
    let mut v = IrqVec::new(3);
    let calls = Rc::new(Cell::new(0));
    v.binder().bind(&mut v, 0, Box::new(Counter(Rc::clone(&calls)))).unwrap();
    v.binder().bind(&mut v, 1, Box::new(Counter(Rc::clone(&calls)))).unwrap();
    v.set_enable(1, true).unwrap();
    v.set_enable(2, true).unwrap();
    assert_eq!(v.sender(0).unwrap().raise(&mut v), Ok(false));
    assert_eq!(v.sender(1).unwrap().raise(&mut v), Ok(true));
    assert_eq!(v.sender(2).unwrap().raise(&mut v), Ok(false));
    assert_eq!(v.pendings(), 0b110);
    assert_eq!(calls.get(), 0);
    let mut small = IrqVec::new(1);
    assert_eq!(v.sender(2).unwrap().raise(&mut small), Err(Error::UnknownIRQ(2)));
}

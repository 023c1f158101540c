//! Interrupt vectors: a fixed number of interrupts, each with an enable bit,
//! a pending bit and at most one handler.

use vstd::prelude::*;

verus! {

/// Why an operation on an interrupt vector failed.
#[derive(Debug, PartialEq, Eq)]
pub enum Error {
    /// The interrupt already has a handler.
    ExistedHandler(usize),
    /// The vector has no interrupt of this number.
    UnknownIRQ(usize),
}

pub type Result<T> = std::result::Result<T, Error>;

/// The state of one interrupt.
#[derive(Clone, Copy, Debug, PartialEq, Eq, Structural)]
pub struct IrqBit {
    pub enable: bool,
    pub pending: bool,
}

impl IrqBit {
    fn new() -> (b: IrqBit)
        ensures
            b == (IrqBit { enable: false, pending: false }),
    {
        IrqBit { enable: false, pending: false }
    }
}

/// What runs when an enabled interrupt is sent.
pub trait Handler {
    fn handle(&mut self);
}

/// The handler bound to one interrupt, if any.
pub struct IrqHandler(Option<Box<dyn Handler>>);

impl IrqHandler {
    /// Whether a handler is bound.
    pub closed spec fn is_bound(&self) -> bool {
        self.0 is Some
    }

    fn new() -> (h: IrqHandler)
        ensures
            !h.is_bound(),
    {
        IrqHandler(None)
    }

    fn bind_handler(&mut self, handler: Box<dyn Handler>)
        ensures
            final(self).is_bound(),
    {
        self.0 = Some(handler);
    }

    fn bound(&self) -> (r: bool)
        ensures
            r == self.is_bound(),
    {
        self.0.is_some()
    }

    /// Runs the handler, where one is bound.
    pub fn send_irq(&mut self)
        ensures
            final(self).is_bound() == old(self).is_bound(),
    {
        match &mut self.0 {
            Some(handler) => {
                handler.handle();
            },
            None => {},
        }
    }
}

/// One entry for each interrupt of a vector.
pub struct IrqCollection<T>(Vec<T>);

impl<T> IrqCollection<T> {
    /// The entries, by interrupt number.
    pub closed spec fn view(&self) -> Seq<T> {
        self.0@
    }

    fn new() -> (c: IrqCollection<T>)
        ensures
            c@.len() == 0,
    {
        IrqCollection(Vec::new())
    }

    /// Fails with `UnknownIRQ` exactly when the collection has no entry
    /// `irq_num`.
    fn check_irq_num(&self, irq_num: usize) -> (r: Result<()>)
        ensures
            irq_num < self@.len() ==> r is Ok,
            irq_num >= self@.len() ==> r == Err::<(), Error>(Error::UnknownIRQ(irq_num)),
    {
        if irq_num >= self.0.len() {
            Err(Error::UnknownIRQ(irq_num))
        } else {
            Ok(())
        }
    }
}

/// The enable and pending bits of a vector.
pub type IrqStatus = IrqCollection<IrqBit>;

/// Whether bit `i` of `mask` is set.
pub open spec fn bit_set(mask: u64, i: int) -> bool {
    0 <= i < 64 && (mask >> (i as u64)) & 1 == 1
}

/// The mask of the interrupts among the first `k` that are enabled and
/// pending.
pub open spec fn mask_upto(bits: Seq<IrqBit>, k: int) -> u64
    decreases k,
{
    if k <= 0 {
        0u64
    } else if k <= 64 && k <= bits.len() && bits[k - 1].enable && bits[k - 1].pending {
        mask_upto(bits, k - 1) | (1u64 << ((k - 1) as u64))
    } else {
        mask_upto(bits, k - 1)
    }
}

/// The mask of the interrupts that are enabled and pending: bit `i` is set
/// exactly when interrupt `i` exists, is enabled and is pending.
pub open spec fn pending_mask(bits: Seq<IrqBit>) -> u64 {
    mask_upto(bits, 64)
}

/// Bit `i` of the mask of pending interrupts is set exactly when interrupt
/// `i` is among those counted, is enabled and is pending.
pub proof fn lemma_mask_bits(bits: Seq<IrqBit>, k: int)
    requires
        0 <= k <= 64,
    ensures
        forall|i: int|
            0 <= i < 64 ==> (#[trigger] bit_set(mask_upto(bits, k), i) <==> (i < k && i
                < bits.len() && bits[i].enable && bits[i].pending)),
    decreases k,
{
    if k == 0 {
        assert forall|i: int| 0 <= i < 64 implies !#[trigger] bit_set(mask_upto(bits, k), i) by {
            lemma_zero_bits(i as u64);
        }
    } else {
        lemma_mask_bits(bits, k - 1);
        let before = mask_upto(bits, k - 1);
        if k <= bits.len() && bits[k - 1].enable && bits[k - 1].pending {
            assert forall|i: int| 0 <= i < 64 implies (#[trigger] bit_set(mask_upto(bits, k), i)
                <==> (bit_set(before, i) || i == k - 1)) by {
                lemma_or_bit(before, (k - 1) as u64, i as u64);
            }
        }
    }
}

/// Interrupts that do not exist add nothing to the mask.
pub proof fn lemma_mask_stops(bits: Seq<IrqBit>, k: int, m: int)
    requires
        0 <= k <= m,
        k >= bits.len() || k >= 64,
    ensures
        mask_upto(bits, m) == mask_upto(bits, k),
    decreases m - k,
{
    if m > k {
        lemma_mask_stops(bits, k, m - 1);
    }
}

/// Setting bit `i` of a mask sets that bit and leaves the others.
proof fn lemma_or_bit(mask: u64, i: u64, j: u64)
    requires
        i < 64,
        j < 64,
    ensures
        ((mask | (1u64 << i)) >> j) & 1 == 1 <==> ((mask >> j) & 1 == 1 || i == j),
{
    assert(((mask | (1u64 << i)) >> j) & 1 == 1 <==> ((mask >> j) & 1 == 1 || i == j))
        by (bit_vector)
        requires
            i < 64,
            j < 64,
    ;
}

/// No bit of zero is set.
proof fn lemma_zero_bits(j: u64)
    requires
        j < 64,
    ensures
        (0u64 >> j) & 1 == 0,
{
    assert((0u64 >> j) & 1 == 0) by (bit_vector)
        requires
            j < 64,
    ;
}

impl IrqCollection<IrqBit> {
    /// The mask of interrupts that are enabled and pending: bit `i` is set
    /// exactly when interrupt `i` exists, is enabled and is pending. A mask
    /// has 64 bits, so interrupts from 64 on do not show in it.
    pub fn pendings(&self) -> (r: u64)
        ensures
            r == pending_mask(self@),
            forall|i: int|
                0 <= i < 64 ==> (#[trigger] bit_set(r, i) <==> (i < self@.len() && self@[i].enable
                    && self@[i].pending)),
    {
        let n: usize = self.0.len();
        let mut acc: u64 = 0;
        let mut i: usize = 0;
        while i < n && i < 64
            invariant
                n == self.0@.len(),
                i <= n,
                i <= 64,
                acc == mask_upto(self@, i as int),
            decreases n - i,
        {
            let s: IrqBit = self.0[i];
            if s.enable && s.pending {
                acc = acc | (1u64 << (i as u64));
            }
            i += 1;
        }
        proof {
            lemma_mask_stops(self@, i as int, 64);
            lemma_mask_bits(self@, 64);
        }
        acc
    }

    /// Clears the pending bit of every interrupt whose bit in `val` is set,
    /// and of no other.
    pub fn clr_pendings(&mut self, val: u64)
        ensures
            final(self)@.len() == old(self)@.len(),
            forall|i: int|
                0 <= i < old(self)@.len() ==> (#[trigger] final(self)@[i]) == (IrqBit {
                    enable: old(self)@[i].enable,
                    pending: old(self)@[i].pending && !bit_set(val, i),
                }),
    {
        let n: usize = self.0.len();
        let mut i: usize = 0;
        while i < n && i < 64
            invariant
                n == self.0@.len(),
                n == old(self)@.len(),
                i <= n,
                i <= 64,
                forall|j: int|
                    0 <= j < i ==> (#[trigger] self@[j]) == (IrqBit {
                        enable: old(self)@[j].enable,
                        pending: old(self)@[j].pending && !bit_set(val, j),
                    }),
                forall|j: int| i <= j < n ==> (#[trigger] self@[j]) == old(self)@[j],
            decreases n - i,
        {
            let ghost before = self@;
            if (val >> (i as u64)) & 1 == 1 {
                let s: IrqBit = self.0[i];
                self.0.set(i, IrqBit { enable: s.enable, pending: false });
            }
            proof {
                assert(bit_set(val, i as int) == ((val >> (i as u64)) & 1 == 1));
                assert forall|j: int| 0 <= j < n && j != i implies self@[j] == before[j] by {}
            }
            i += 1;
        }
    }

    /// Whether interrupt `irq_num` is enabled.
    pub fn enable(&self, irq_num: usize) -> (r: Result<bool>)
        ensures
            irq_num < self@.len() ==> r == Ok::<bool, Error>(self@[irq_num as int].enable),
            irq_num >= self@.len() ==> r == Err::<bool, Error>(Error::UnknownIRQ(irq_num)),
    {
        match self.check_irq_num(irq_num) {
            Ok(()) => Ok(self.enable_uncheck(irq_num)),
            Err(e) => Err(e),
        }
    }

    /// Whether interrupt `irq_num`, which exists, is enabled.
    pub fn enable_uncheck(&self, irq_num: usize) -> (r: bool)
        requires
            irq_num < self@.len(),
        ensures
            r == self@[irq_num as int].enable,
    {
        self.0[irq_num].enable
    }

    /// Enables or disables interrupt `irq_num`.
    pub fn set_enable(&mut self, irq_num: usize, value: bool) -> (r: Result<()>)
        ensures
            irq_num < old(self)@.len() ==> r is Ok && final(self)@ == old(self)@.update(
                irq_num as int,
                IrqBit { enable: value, pending: old(self)@[irq_num as int].pending },
            ),
            irq_num >= old(self)@.len() ==> r == Err::<(), Error>(Error::UnknownIRQ(irq_num))
                && final(self)@ == old(self)@,
    {
        match self.check_irq_num(irq_num) {
            Ok(()) => {
                self.set_enable_uncheck(irq_num, value);
                Ok(())
            },
            Err(e) => Err(e),
        }
    }

    /// Enables or disables interrupt `irq_num`, which exists.
    pub fn set_enable_uncheck(&mut self, irq_num: usize, value: bool)
        requires
            irq_num < old(self)@.len(),
        ensures
            final(self)@ == old(self)@.update(
                irq_num as int,
                IrqBit { enable: value, pending: old(self)@[irq_num as int].pending },
            ),
    {
        let s: IrqBit = self.0[irq_num];
        self.0.set(irq_num, IrqBit { enable: value, pending: s.pending });
    }

    /// Whether interrupt `irq_num` is pending.
    pub fn pending(&self, irq_num: usize) -> (r: Result<bool>)
        ensures
            irq_num < self@.len() ==> r == Ok::<bool, Error>(self@[irq_num as int].pending),
            irq_num >= self@.len() ==> r == Err::<bool, Error>(Error::UnknownIRQ(irq_num)),
    {
        match self.check_irq_num(irq_num) {
            Ok(()) => Ok(self.pending_uncheck(irq_num)),
            Err(e) => Err(e),
        }
    }

    /// Whether interrupt `irq_num`, which exists, is pending.
    pub fn pending_uncheck(&self, irq_num: usize) -> (r: bool)
        requires
            irq_num < self@.len(),
        ensures
            r == self@[irq_num as int].pending,
    {
        self.0[irq_num].pending
    }

    /// Sets or clears the pending bit of interrupt `irq_num`.
    pub fn set_pending(&mut self, irq_num: usize, value: bool) -> (r: Result<()>)
        ensures
            irq_num < old(self)@.len() ==> r is Ok && final(self)@ == old(self)@.update(
                irq_num as int,
                IrqBit { enable: old(self)@[irq_num as int].enable, pending: value },
            ),
            irq_num >= old(self)@.len() ==> r == Err::<(), Error>(Error::UnknownIRQ(irq_num))
                && final(self)@ == old(self)@,
    {
        match self.check_irq_num(irq_num) {
            Ok(()) => {
                self.set_pending_uncheck(irq_num, value);
                Ok(())
            },
            Err(e) => Err(e),
        }
    }

    /// Sets or clears the pending bit of interrupt `irq_num`, which exists.
    pub fn set_pending_uncheck(&mut self, irq_num: usize, value: bool)
        requires
            irq_num < old(self)@.len(),
        ensures
            final(self)@ == old(self)@.update(
                irq_num as int,
                IrqBit { enable: old(self)@[irq_num as int].enable, pending: value },
            ),
    {
        let s: IrqBit = self.0[irq_num];
        self.0.set(irq_num, IrqBit { enable: s.enable, pending: value });
    }
}

/// The handlers of a vector.
pub type IrqHandlers = IrqCollection<IrqHandler>;

/// The bits and the handlers of a vector.
pub struct IrqVecInner {
    status: IrqStatus,
    handlers: IrqHandlers,
}

impl IrqVecInner {
    /// The bits of the interrupts, by number.
    pub closed spec fn status(&self) -> Seq<IrqBit> {
        self.status@
    }

    /// Whether interrupt `i` has a handler.
    pub closed spec fn bound(&self, i: int) -> bool {
        0 <= i < self.handlers@.len() && self.handlers@[i].is_bound()
    }

    /// A vector of `len` interrupts, all disabled, none pending, none with a
    /// handler.
    pub fn new(len: usize) -> (irq: IrqVecInner)
        ensures
            irq.status().len() == len,
            forall|i: int|
                0 <= i < len ==> (#[trigger] irq.status()[i]) == (IrqBit {
                    enable: false,
                    pending: false,
                }),
            forall|i: int| !#[trigger] irq.bound(i),
    {
        let mut irq = IrqVecInner { status: IrqStatus::new(), handlers: IrqHandlers::new() };
        let mut i: usize = 0;
        while i < len
            invariant
                i <= len,
                irq.status@.len() == i,
                irq.handlers@.len() == i,
                forall|k: int|
                    0 <= k < i ==> (#[trigger] irq.status@[k]) == (IrqBit {
                        enable: false,
                        pending: false,
                    }),
                forall|k: int| 0 <= k < i ==> !(#[trigger] irq.handlers@[k]).is_bound(),
            decreases len - i,
        {
            irq.status.0.push(IrqBit::new());
            irq.handlers.0.push(IrqHandler::new());
            i += 1;
        }
        irq
    }
}

/// A vector of interrupts.
pub struct IrqVec {
    vec: IrqVecInner,
}

/// A handle to one interrupt of a vector, to raise and to clear it. It names
/// the interrupt; the vector it is used on is handed to each operation.
#[derive(Clone, Copy, Debug)]
pub struct IrqVecSender {
    irq_num: usize,
}

/// A handle to a vector, to bind handlers.
#[derive(Clone, Copy, Debug)]
pub struct IrqVecBinder {}

impl IrqVec {
    /// The bits of the interrupts, by number.
    pub closed spec fn status(&self) -> Seq<IrqBit> {
        self.vec.status()
    }

    /// The number of interrupts.
    pub open spec fn len(&self) -> nat {
        self.status().len()
    }

    /// Whether interrupt `i` has a handler.
    pub closed spec fn bound(&self, i: int) -> bool {
        self.vec.bound(i)
    }

    /// Whether the two vectors have handlers on the same interrupts.
    pub open spec fn same_handlers(&self, other: &IrqVec) -> bool {
        forall|i: int| #[trigger] self.bound(i) == other.bound(i)
    }

    /// A vector of `len` interrupts, all disabled, none pending, none with a
    /// handler.
    pub fn new(len: usize) -> (v: IrqVec)
        ensures
            v.len() == len,
            forall|i: int|
                0 <= i < len ==> (#[trigger] v.status()[i]) == (IrqBit {
                    enable: false,
                    pending: false,
                }),
            forall|i: int| !#[trigger] v.bound(i),
    {
        IrqVec { vec: IrqVecInner::new(len) }
    }

    /// A handle to interrupt `irq_num`; fails with `UnknownIRQ` exactly when
    /// the vector has no such interrupt.
    pub fn sender(&self, irq_num: usize) -> (r: Result<IrqVecSender>)
        ensures
            irq_num < self.len() ==> (r matches Ok(s) && s.id_spec() == irq_num),
            irq_num >= self.len() ==> (r matches Err(e) && e == Error::UnknownIRQ(irq_num)),
    {
        match self.vec.status.check_irq_num(irq_num) {
            Ok(()) => Ok(IrqVecSender { irq_num }),
            Err(e) => Err(e),
        }
    }

    /// A handle to bind handlers with.
    pub fn binder(&self) -> IrqVecBinder {
        IrqVecBinder {  }
    }

    /// The mask of interrupts that are enabled and pending: bit `i` is set
    /// exactly when interrupt `i` exists, is enabled and is pending.
    pub fn pendings(&self) -> (r: u64)
        ensures
            r == pending_mask(self.status()),
            forall|i: int|
                0 <= i < 64 ==> (#[trigger] bit_set(r, i) <==> (i < self.len()
                    && self.status()[i].enable && self.status()[i].pending)),
    {
        self.vec.status.pendings()
    }

    /// Clears the pending bit of every interrupt whose bit in `val` is set,
    /// and of no other.
    pub fn clr_pendings(&mut self, val: u64)
        ensures
            final(self).len() == old(self).len(),
            final(self).same_handlers(old(self)),
            forall|i: int|
                0 <= i < old(self).len() ==> (#[trigger] final(self).status()[i]) == (IrqBit {
                    enable: old(self).status()[i].enable,
                    pending: old(self).status()[i].pending && !bit_set(val, i),
                }),
    {
        self.vec.status.clr_pendings(val)
    }

    /// Whether interrupt `irq_num` is enabled.
    pub fn enable(&self, irq_num: usize) -> (r: Result<bool>)
        ensures
            irq_num < self.len() ==> r == Ok::<bool, Error>(self.status()[irq_num as int].enable),
            irq_num >= self.len() ==> r == Err::<bool, Error>(Error::UnknownIRQ(irq_num)),
    {
        self.vec.status.enable(irq_num)
    }

    /// Whether interrupt `irq_num`, which exists, is enabled.
    pub fn enable_uncheck(&self, irq_num: usize) -> (r: bool)
        requires
            irq_num < self.len(),
        ensures
            r == self.status()[irq_num as int].enable,
    {
        self.vec.status.enable_uncheck(irq_num)
    }

    /// Enables or disables interrupt `irq_num`.
    pub fn set_enable(&mut self, irq_num: usize, value: bool) -> (r: Result<()>)
        ensures
            final(self).same_handlers(old(self)),
            irq_num < old(self).len() ==> r is Ok && final(self).status()
                == old(self).status().update(
                irq_num as int,
                IrqBit { enable: value, pending: old(self).status()[irq_num as int].pending },
            ),
            irq_num >= old(self).len() ==> r == Err::<(), Error>(Error::UnknownIRQ(irq_num))
                && final(self).status() == old(self).status(),
    {
        self.vec.status.set_enable(irq_num, value)
    }

    /// Enables or disables interrupt `irq_num`, which exists.
    pub fn set_enable_uncheck(&mut self, irq_num: usize, value: bool)
        requires
            irq_num < old(self).len(),
        ensures
            final(self).same_handlers(old(self)),
            final(self).status() == old(self).status().update(
                irq_num as int,
                IrqBit { enable: value, pending: old(self).status()[irq_num as int].pending },
            ),
    {
        self.vec.status.set_enable_uncheck(irq_num, value)
    }

    /// Whether interrupt `irq_num` is pending.
    pub fn pending(&self, irq_num: usize) -> (r: Result<bool>)
        ensures
            irq_num < self.len() ==> r == Ok::<bool, Error>(self.status()[irq_num as int].pending),
            irq_num >= self.len() ==> r == Err::<bool, Error>(Error::UnknownIRQ(irq_num)),
    {
        self.vec.status.pending(irq_num)
    }

    /// Whether interrupt `irq_num`, which exists, is pending.
    pub fn pending_uncheck(&self, irq_num: usize) -> (r: bool)
        requires
            irq_num < self.len(),
        ensures
            r == self.status()[irq_num as int].pending,
    {
        self.vec.status.pending_uncheck(irq_num)
    }

    /// Sets or clears the pending bit of interrupt `irq_num`.
    pub fn set_pending(&mut self, irq_num: usize, value: bool) -> (r: Result<()>)
        ensures
            final(self).same_handlers(old(self)),
            irq_num < old(self).len() ==> r is Ok && final(self).status()
                == old(self).status().update(
                irq_num as int,
                IrqBit { enable: old(self).status()[irq_num as int].enable, pending: value },
            ),
            irq_num >= old(self).len() ==> r == Err::<(), Error>(Error::UnknownIRQ(irq_num))
                && final(self).status() == old(self).status(),
    {
        self.vec.status.set_pending(irq_num, value)
    }

    /// Sets or clears the pending bit of interrupt `irq_num`, which exists.
    pub fn set_pending_uncheck(&mut self, irq_num: usize, value: bool)
        requires
            irq_num < old(self).len(),
        ensures
            final(self).same_handlers(old(self)),
            final(self).status() == old(self).status().update(
                irq_num as int,
                IrqBit { enable: old(self).status()[irq_num as int].enable, pending: value },
            ),
    {
        self.vec.status.set_pending_uncheck(irq_num, value)
    }
}

impl IrqVecSender {
    /// The number of the interrupt.
    pub closed spec fn id_spec(&self) -> usize {
        self.irq_num
    }

    /// The number of the interrupt.
    pub fn id(&self) -> (r: usize)
        ensures
            r == self.id_spec(),
    {
        self.irq_num
    }

    /// Whether `after` is `before` with the interrupt raised: an enabled
    /// interrupt pending, a disabled one not pending, every other interrupt
    /// and every handler as it was.
    pub open spec fn raised(&self, before: &IrqVec, after: &IrqVec) -> bool {
        &&& after.same_handlers(before)
        &&& after.status() == before.status().update(
            self.id_spec() as int,
            IrqBit {
                enable: before.status()[self.id_spec() as int].enable,
                pending: before.status()[self.id_spec() as int].enable,
            },
        )
    }

    /// Raises the interrupt on `vec` without running its handler, and says
    /// whether the handler is to run: it is when the interrupt is enabled and
    /// has a handler. Fails with `UnknownIRQ`, changing nothing, exactly when
    /// `vec` has no such interrupt.
    pub fn raise(&self, vec: &mut IrqVec) -> (r: Result<bool>)
        ensures
            self.id_spec() < old(vec).len() ==> self.raised(old(vec), final(vec)) && r == Ok::<
                bool,
                Error,
            >(
                old(vec).status()[self.id_spec() as int].enable && old(vec).bound(
                    self.id_spec() as int,
                ),
            ),
            self.id_spec() >= old(vec).len() ==> r == Err::<bool, Error>(
                Error::UnknownIRQ(self.id_spec()),
            ) && final(vec).status() == old(vec).status() && final(vec).same_handlers(old(vec)),
    {
        match vec.vec.status.set_pending(self.irq_num, false) {
            Ok(()) => {},
            Err(e) => {
                return Err(e);
            },
        }
        if !vec.vec.status.enable_uncheck(self.irq_num) {
            assert(vec.status() =~= old(vec).status().update(
                self.irq_num as int,
                IrqBit { enable: false, pending: false },
            ));
            return Ok(false);
        }
        vec.vec.status.set_pending_uncheck(self.irq_num, true);
        assert(vec.status() =~= old(vec).status().update(
            self.irq_num as int,
            IrqBit { enable: true, pending: true },
        ));
        Ok(self.irq_num < vec.vec.handlers.0.len() && vec.vec.handlers.0[self.irq_num].bound())
    }

    /// Raises the interrupt on `vec`, as [`IrqVecSender::raise`] does, and
    /// runs its handler where `raise` says so: an enabled interrupt becomes
    /// pending and its handler, if it has one, runs; a disabled interrupt is
    /// left not pending and the event is dropped. Fails with `UnknownIRQ`,
    /// changing nothing, exactly when `vec` has no such interrupt.
    pub fn send(&self, vec: &mut IrqVec) -> (r: Result<()>)
        ensures
            final(vec).same_handlers(old(vec)),
            self.id_spec() < old(vec).len() ==> r is Ok && self.raised(old(vec), final(vec)),
            self.id_spec() >= old(vec).len() ==> r == Err::<(), Error>(
                Error::UnknownIRQ(self.id_spec()),
            ) && final(vec).status() == old(vec).status(),
    {
        match self.raise(vec) {
            Ok(true) => {
                let ghost before = *vec;
                if self.irq_num < vec.vec.handlers.0.len() {
                    vec.vec.handlers.0[self.irq_num].send_irq();
                }
                assert forall|i: int| #[trigger] vec.bound(i) == before.bound(i) by {
                    if 0 <= i < before.vec.handlers@.len() && i != self.irq_num {
                        assert(vec.vec.handlers@[i] == before.vec.handlers@[i]);
                    }
                }
                Ok(())
            },
            Ok(false) => Ok(()),
            Err(e) => Err(e),
        }
    }

    /// Clears the pending bit of the interrupt on `vec`.
    pub fn clear(&self, vec: &mut IrqVec) -> (r: Result<()>)
        ensures
            final(vec).same_handlers(old(vec)),
            self.id_spec() < old(vec).len() ==> r is Ok && final(vec).status()
                == old(vec).status().update(
                self.id_spec() as int,
                IrqBit {
                    enable: old(vec).status()[self.id_spec() as int].enable,
                    pending: false,
                },
            ),
            self.id_spec() >= old(vec).len() ==> r == Err::<(), Error>(
                Error::UnknownIRQ(self.id_spec()),
            ) && final(vec).status() == old(vec).status(),
    {
        vec.vec.status.set_pending(self.irq_num, false)
    }

    /// Whether the interrupt is pending on `vec`.
    pub fn pending(&self, vec: &IrqVec) -> (r: Result<bool>)
        ensures
            self.id_spec() < vec.len() ==> r == Ok::<bool, Error>(
                vec.status()[self.id_spec() as int].pending,
            ),
            self.id_spec() >= vec.len() ==> r == Err::<bool, Error>(
                Error::UnknownIRQ(self.id_spec()),
            ),
    {
        vec.vec.status.pending(self.irq_num)
    }

    /// Whether the interrupt, which `vec` has, is pending on it.
    pub fn pending_uncheck(&self, vec: &IrqVec) -> (r: bool)
        requires
            self.id_spec() < vec.len(),
        ensures
            r == vec.status()[self.id_spec() as int].pending,
    {
        vec.vec.status.pending_uncheck(self.irq_num)
    }
}

impl IrqVecBinder {
    /// Binds `handler` to interrupt `irq_num` of `vec`. Fails with
    /// `UnknownIRQ` exactly when `vec` has no such interrupt, and with
    /// `ExistedHandler` exactly when the interrupt has a handler already; a
    /// failure changes nothing.
    pub fn bind(&self, vec: &mut IrqVec, irq_num: usize, handler: Box<dyn Handler>) -> (r: Result<
        (),
    >)
        ensures
            final(vec).status() == old(vec).status(),
            irq_num >= old(vec).len() ==> r == Err::<(), Error>(Error::UnknownIRQ(irq_num))
                && final(vec).same_handlers(old(vec)),
            irq_num < old(vec).len() && old(vec).bound(irq_num as int) ==> r == Err::<(), Error>(
                Error::ExistedHandler(irq_num),
            ) && final(vec).same_handlers(old(vec)),
            irq_num < old(vec).len() && !old(vec).bound(irq_num as int) ==> r is Ok && forall|
                i: int,
            | #[trigger] final(vec).bound(i) == (i == irq_num || old(vec).bound(i)),
    {
        match vec.vec.status.check_irq_num(irq_num) {
            Ok(()) => {},
            Err(e) => {
                return Err(e);
            },
        }
        while vec.vec.handlers.0.len() <= irq_num
            invariant
                vec.status() == old(vec).status(),
                vec.same_handlers(old(vec)),
            decreases irq_num + 1 - vec.vec.handlers.0.len(),
        {
            let ghost mid = *vec;
            let ghost before = vec.vec.handlers@;
            vec.vec.handlers.0.push(IrqHandler::new());
            assert(vec.vec.handlers@ == before.push(vec.vec.handlers@[before.len() as int]));
            assert forall|i: int| #[trigger] vec.bound(i) == old(vec).bound(i) by {
                assert(mid.bound(i) == old(vec).bound(i));
                if 0 <= i < before.len() {
                    assert(vec.vec.handlers@[i] == before[i]);
                } else if i == before.len() {
                    assert(!vec.vec.handlers@[i].is_bound());
                    assert(!mid.bound(i));
                }
            }
        }
        if vec.vec.handlers.0[irq_num].bound() {
            assert(vec.bound(irq_num as int));
            return Err(Error::ExistedHandler(irq_num));
        }
        assert(!vec.bound(irq_num as int));
        let ghost mid = *vec;
        let ghost before = vec.vec.handlers@;
        vec.vec.handlers.0[irq_num].bind_handler(handler);
        assert(vec.vec.handlers@.len() == before.len());
        assert forall|i: int| #[trigger] vec.bound(i) == (i == irq_num || old(vec).bound(i)) by {
            assert(mid.bound(i) == old(vec).bound(i));
            if 0 <= i < before.len() && i != irq_num {
                assert(vec.vec.handlers@[i] == before[i]);
            }
        }
        Ok(())
    }
}

/// The mask of pending interrupts shows exactly the interrupts that are
/// enabled and pending, and clearing by a mask clears exactly the interrupts
/// that the mask names: after clearing by the mask of pending interrupts
/// itself, none of the first 64 interrupts is both enabled and pending.
pub proof fn lemma_clearing_pendings_leaves_none(before: &IrqVec, after: &IrqVec, mask: u64)
    requires
        forall|i: int|
            0 <= i < 64 ==> (#[trigger] bit_set(mask, i) <==> (i < before.len()
                && before.status()[i].enable && before.status()[i].pending)),
        after.len() == before.len(),
        forall|i: int|
            0 <= i < before.len() ==> (#[trigger] after.status()[i]) == (IrqBit {
                enable: before.status()[i].enable,
                pending: before.status()[i].pending && !bit_set(mask, i),
            }),
    ensures
        forall|i: int|
            0 <= i < 64 && i < after.len() ==> !((#[trigger] after.status()[i]).enable
                && after.status()[i].pending),
{
}

} // verus!

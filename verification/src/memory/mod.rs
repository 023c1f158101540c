//! Address intervals and alignment arithmetic shared by the memory modules.

use vstd::prelude::*;

pub mod allocator;
pub mod region;

verus! {

/// A half-open interval `[base, base + size)` of an address space.
#[derive(Copy, Clone, Debug, PartialEq, Eq, Structural)]
pub struct MemInfo {
    pub base: u64,
    pub size: u64,
}

impl MemInfo {
    /// The first address past the interval, as a mathematical integer.
    pub open spec fn end(self) -> int {
        self.base + self.size
    }

    /// Whether `addr` lies inside the interval.
    pub open spec fn contains(self, addr: int) -> bool {
        self.base <= addr < self.base + self.size
    }

    /// Whether the two intervals share at least one address.
    pub open spec fn overlaps(self, other: MemInfo) -> bool {
        &&& self.size > 0
        &&& other.size > 0
        &&& self.base < other.base + other.size
        &&& other.base < self.base + self.size
    }

    /// Whether every address of the interval lies in `outer`.
    pub open spec fn inside(self, outer: MemInfo) -> bool {
        outer.base <= self.base && self.base + self.size <= outer.base + outer.size
    }

    /// Whether the `len` bytes starting at `addr` all lie inside the interval.
    pub open spec fn contains_range(self, addr: int, len: int) -> bool {
        self.base <= addr && addr + len <= self.base + self.size
    }
}

/// An alignment is zero (no constraint) or a power of two.
pub open spec fn valid_align(align: u64) -> bool {
    align == 0 || align & ((align - 1) as u64) == 0
}

/// The largest multiple of `align` that is at most `addr`; `addr` itself when
/// `align` is zero.
pub open spec fn spec_align_down(addr: int, align: int) -> int {
    if align <= 0 {
        addr
    } else {
        addr - addr % align
    }
}

/// The distance from `addr` up to the next multiple of `align`; zero when
/// `addr` is aligned or `align` is zero.
pub open spec fn spec_align_gap(addr: int, align: int) -> int {
    if align <= 0 || addr % align == 0 {
        0
    } else {
        align - addr % align
    }
}

/// The smallest multiple of `align` that is at least `addr`; `addr` itself
/// when `align` is zero.
pub open spec fn spec_align_up(addr: int, align: int) -> int {
    addr + spec_align_gap(addr, align)
}

/// Whether `align` is an acceptable alignment.
pub fn is_valid_align(align: u64) -> (r: bool)
    ensures
        r == valid_align(align),
{
    align == 0 || align & (align - 1) == 0
}

/// Rounds `addr` down to a multiple of `align`.
pub fn align_down(addr: u64, align: u64) -> (r: u64)
    requires
        valid_align(align),
    ensures
        r == spec_align_down(addr as int, align as int),
        r <= addr,
        align > 0 ==> r % align == 0 && addr - r < align,
{
    if align == 0 {
        addr
    } else {
        let rem: u64 = addr % align;
        proof {
            lemma_rounded_down(addr as int, align as int);
        }
        addr - rem
    }
}

/// The number of bytes between `addr` and the next multiple of `align`.
pub fn align_gap(addr: u64, align: u64) -> (r: u64)
    requires
        valid_align(align),
    ensures
        r == spec_align_gap(addr as int, align as int),
        align > 0 ==> r < align && (addr + r) % (align as int) == 0,
        align == 0 ==> r == 0,
{
    if align == 0 {
        0
    } else {
        let rem: u64 = addr % align;
        if rem == 0 {
            0
        } else {
            proof {
                lemma_gap_aligned(addr as int, align as int);
            }
            align - rem
        }
    }
}

/// Rounds `addr` up to a multiple of `align`.
pub fn align_up(addr: u64, align: u64) -> (r: u64)
    requires
        valid_align(align),
        spec_align_up(addr as int, align as int) <= u64::MAX,
    ensures
        r == spec_align_up(addr as int, align as int),
        r >= addr,
        align > 0 ==> r % align == 0 && r - addr < align,
{
    let gap: u64 = align_gap(addr, align);
    addr + gap
}

/// Taking the remainder off an address yields a multiple of the alignment.
pub proof fn lemma_rounded_down(addr: int, align: int)
    requires
        addr >= 0,
        align > 0,
    ensures
        0 <= addr % align <= addr,
        addr % align < align,
        (addr - addr % align) % align == 0,
{
    assert(0 <= addr % align <= addr && addr % align < align && (addr - addr % align) % align
        == 0) by (nonlinear_arith)
        requires
            addr >= 0,
            align > 0,
    ;
}

/// Adding the gap to an unaligned address yields a multiple of the alignment.
pub proof fn lemma_gap_aligned(addr: int, align: int)
    requires
        addr >= 0,
        align > 0,
    ensures
        (addr + spec_align_gap(addr, align)) % align == 0,
        0 <= spec_align_gap(addr, align) < align,
{
    let r = addr % align;
    if r != 0 {
        assert((addr + (align - r)) % align == 0) by (nonlinear_arith)
            requires
                r == addr % align,
                align > 0,
                addr >= 0,
        ;
    }
}

} // verus!

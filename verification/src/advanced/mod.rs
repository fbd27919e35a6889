//! The executable slab and the size and layout queries on it.
use vstd::prelude::*;

pub mod executable;
pub mod sizecalc;
pub mod transaction;

pub use executable::{MemoryExecutable, SlabState};

verus! {

/// The outcome of writing a function into a slab.
#[derive(Debug, Clone, Copy)]
pub enum WriteFnResult {
    /// The slab has no room left for it.
    OutOfSlab,
    /// The function was written; this is its address in the executable view.
    Executable(usize),
}

/// The size and alignment of a block to be placed in a slab.
#[derive(Debug, Clone, Copy)]
pub struct SizeAlign {
    pub size: usize,
    pub align: usize,
}

/// `n` is a power of two.
pub open spec fn is_pow2(n: nat) -> bool
    decreases n,
{
    if n == 0 {
        false
    } else if n == 1 {
        true
    } else {
        n % 2 == 0 && is_pow2(n / 2)
    }
}

/// The least multiple of `a` that is at least `x` (for `a > 0`).
pub open spec fn align_up(x: int, a: int) -> int {
    if x % a == 0 {
        x
    } else {
        x + (a - x % a)
    }
}

/// Where a run of blocks laid out from address `curr` ends: each block starts
/// at the next multiple of its alignment. `None` when an alignment is not a
/// power of two or an address passes `usize::MAX`.
pub open spec fn layout_end(curr: int, items: Seq<SizeAlign>) -> Option<int>
    decreases items.len(),
{
    if items.len() == 0 {
        Some(curr)
    } else {
        let it = items[0];
        if !is_pow2(it.align as nat) {
            None
        } else {
            let start = align_up(curr, it.align as int);
            if start > usize::MAX || start + it.size > usize::MAX {
                None
            } else {
                layout_end(start + it.size, items.drop_first())
            }
        }
    }
}

pub fn is_power_of_two(n: usize) -> (r: bool)
    ensures
        r == is_pow2(n as nat),
{
    let mut x = n;
    while x > 1 && x % 2 == 0
        invariant
            is_pow2(x as nat) == is_pow2(n as nat),
        decreases x,
    {
        x = x / 2;
    }
    x == 1
}

/// The next multiple of `a` from `x`, if it fits in a `usize`.
pub fn checked_align_up(x: usize, a: usize) -> (r: Option<usize>)
    ensures
        a == 0 ==> r is None,
        a > 0 ==> (match r {
            Some(v) => v == align_up(x as int, a as int),
            None => align_up(x as int, a as int) > usize::MAX,
        }),
{
    if a == 0 {
        return None;
    }
    let rem = x % a;
    if rem == 0 {
        Some(x)
    } else {
        x.checked_add(a - rem)
    }
}

/// Whether a slab has room for blocks, and where it stands.
pub trait SizeCheck {
    /// Whether a block of `size` bytes, 16-byte aligned, fits in the slab.
    fn under_size(&self, size: usize) -> Option<bool>;

    /// Whether the blocks, laid out one after the other, fit in the slab.
    fn under_size_adv(&self, size_align: &[SizeAlign]) -> Option<bool>;

    /// The address of the slab's executable view.
    fn base_address(&self) -> usize;
}

/// The size of a slab and how much of it is used.
pub trait MemorySizeInfo {
    fn size(&self) -> usize;

    fn cursor(&self) -> usize;

    /// The offset of the next `align`-aligned address, if it is inside the slab.
    fn next_cursor(&self, align: usize) -> Option<usize>;
}

} // verus!

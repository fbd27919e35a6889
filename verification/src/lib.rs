//! SaJIT: an executable-region slab allocator with its own relocators and a
//! COFF linker, with the bookkeeping and the relocation arithmetic verified.
use vstd::prelude::*;

pub mod advanced;
pub mod bytes;
pub mod coffr;
pub mod memory;
pub mod relcar;
pub mod relocations;

verus! {

} // verus!

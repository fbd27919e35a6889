//! The relocations that RELCAR applies to code written into a slab.
use vstd::prelude::*;

verus! {

/// A relocation of a function's machine code.
#[derive(Debug, Clone, Copy)]
pub struct Relocation {
    pub addend: i64,
    /// The address of the symbol (or, for the "provided relative bytes"
    /// kinds, the displacement itself).
    pub symbol_addr: u64,
    /// Where the patch goes, from the start of the function.
    pub offset: u32,
    pub kind: RelocKind,
}

#[derive(Debug, Clone, Copy)]
pub enum RelocKind {
    /// An absolute 64-bit address.
    Abs8,
    /// A signed 32-bit displacement from the end of the patched field (±2 GiB);
    /// `symbol_addr` is the absolute target.
    X86CallPCRel4,
    /// A signed 32-bit displacement from the end of the patched field (±2 GiB);
    /// `symbol_addr` is the absolute target.
    X86PCRel4,
    /// A signed 32-bit displacement given directly in `symbol_addr`.
    X86CallPCRelOrPCRelProvidedRelativeBytes,
    /// An AArch64 `B`/`BL` to `symbol_addr` (±128 MiB).
    Arm64Call,
    /// An AArch64 `B`/`BL` whose byte displacement is given in `symbol_addr`.
    Arm64CallProvidedRelativeBytes,
    /// An absolute 32-bit address (i686).
    Abs4,
    /// A relocation that the relocator's user handles.
    UserCustom { customdefined: u16 },
}

} // verus!

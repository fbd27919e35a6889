//! RELCAR: SaJIT's single-pass, extensible relocator for code written into a slab.
use vstd::prelude::*;

use std::marker::PhantomData;

use crate::bytes::{read_u32_at, read_u64_at, write_u32_at, write_u64_at, read_u32, write_u32, write_u64, lemma_u32_roundtrip, lemma_u64_roundtrip};
use crate::coffr::arch::arm64::fits_bits;
use crate::coffr::arch::lemma_two_pow_values;
use crate::relocations::{RelocKind, Relocation};

verus! {

/// `x` taken modulo `2^64` into the range of an `i64`.
pub open spec fn wrap_i64(x: int) -> int {
    let m = x % 0x1_0000_0000_0000_0000;
    if m >= 0x8000_0000_0000_0000 {
        m - 0x1_0000_0000_0000_0000
    } else {
        m
    }
}

/// A function's code in a slab: it starts at offset `mmap` of the slab's
/// bytes, at address `mmap_addr`, and is `len` bytes long.
#[derive(Debug, Clone, Copy)]
pub struct RelocInfo<'a> {
    pub mmap: usize,
    pub mmap_addr: usize,
    pub len: usize,
    pub relocation: &'a Relocation,
    /// `mmap + relocation.offset`: where the patch goes in the slab's bytes.
    pub patch_site: usize,
}

/// The address of the patch site.
pub open spec fn patch_addr(mmap_addr: usize, r: Relocation) -> int {
    mmap_addr + r.offset
}

/// The byte displacement of an `X86*PCRel4` relocation: from the end of the
/// 4-byte field to the target, in wrapping `i64` arithmetic.
pub open spec fn x86_displacement(mmap_addr: usize, r: Relocation) -> int {
    wrap_i64((r.symbol_addr as i64) - wrap_i64((patch_addr(mmap_addr, r) as i64) + 4))
}

/// The byte displacement of an AArch64 call.
pub open spec fn arm64_displacement(mmap_addr: usize, r: Relocation) -> int {
    match r.kind {
        RelocKind::Arm64Call => wrap_i64((r.symbol_addr as i64) - (patch_addr(mmap_addr, r) as i64)),
        _ => (r.symbol_addr as i64) as int,
    }
}

/// `inst` with its 26-bit branch immediate replaced by `displacement`.
pub open spec fn arm64_call_insert(inst: u32, displacement: int) -> u32 {
    (inst & 0xFC000000u32) | ((displacement as u32) & 0x03FFFFFFu32)
}

/// The relocation can be applied: its field lies inside the function and the
/// value it stores fits, as RELCAR checks in debug builds; `UserCustom`
/// relocations are accepted when the relocator `accepts` them.
pub open spec fn relcar_accepts(mmap_addr: usize, len: usize, r: Relocation, accepts: bool) -> bool {
    &&& mmap_addr + r.offset + 4 <= usize::MAX
    &&& match r.kind {
        RelocKind::Abs8 => r.addend == 0 && r.offset + 8 <= len,
        RelocKind::Abs4 => r.addend == 0 && r.offset + 4 <= len,
        RelocKind::X86CallPCRel4 | RelocKind::X86PCRel4 => r.offset + 4 <= len
            && fits_bits(true, 32, x86_displacement(mmap_addr, r)),
        RelocKind::X86CallPCRelOrPCRelProvidedRelativeBytes => r.offset + 4 <= len,
        RelocKind::Arm64Call | RelocKind::Arm64CallProvidedRelativeBytes => r.offset + 4 <= len
            && arm64_displacement(mmap_addr, r) % 4 == 0
            && fits_bits(true, 26, arm64_displacement(mmap_addr, r) / 4),
        RelocKind::UserCustom { .. } => accepts && r.offset <= len,
    }
}

/// What RELCAR writes for a relocation of a function at slab offset `mmap`.
pub open spec fn relcar_effect(mem: Seq<u8>, mmap: usize, mmap_addr: usize, r: Relocation) -> Seq<u8> {
    let q = mmap + r.offset;
    match r.kind {
        RelocKind::Abs8 => write_u64_at(mem, q, r.symbol_addr),
        RelocKind::Abs4 => write_u32_at(mem, q, r.symbol_addr as u32),
        RelocKind::X86CallPCRel4 | RelocKind::X86PCRel4 => write_u32_at(
            mem,
            q,
            x86_displacement(mmap_addr, r) as u32,
        ),
        RelocKind::X86CallPCRelOrPCRelProvidedRelativeBytes => write_u32_at(mem, q, r.symbol_addr as u32),
        RelocKind::Arm64Call | RelocKind::Arm64CallProvidedRelativeBytes => write_u32_at(
            mem,
            q,
            arm64_call_insert(read_u32_at(mem, q), arm64_displacement(mmap_addr, r) / 4),
        ),
        RelocKind::UserCustom { .. } => mem,
    }
}

/// What a standard handler may assume: the patch site is the relocation's
/// place in the function, the function lies in the slab, and RELCAR accepts
/// the relocation.
pub open spec fn handler_ready(mem: Seq<u8>, info: RelocInfo) -> bool {
    &&& info.patch_site == info.mmap + info.relocation.offset
    &&& info.mmap + info.len <= mem.len()
    &&& relcar_accepts(info.mmap_addr, info.len, *info.relocation, true)
}

/// A relocator: RELCAR hands each relocation to the relocator's handler for
/// its kind. The handlers of the standard kinds have default bodies, which
/// write what [`relcar_effect`] says; a relocator may replace them, and says
/// by [`Relocator::keeps_standard`] whether its handlers still write that.
/// `UserCustom` relocations go to [`Relocator::handle_usercustom`].
pub trait Relocator: Sized {
    /// The custom relocation codes this relocator handles.
    spec fn accepts_custom(code: u16) -> bool;

    /// The handlers of the standard kinds write what [`relcar_effect`] says.
    spec fn keeps_standard() -> bool;

    /// An absolute 64-bit address.
    fn handle_abs8(mem: &mut Vec<u8>, info: RelocInfo)
        requires
            handler_ready(old(mem)@, info),
            info.relocation.kind is Abs8,
        ensures
            final(mem)@.len() == old(mem)@.len(),
            Self::keeps_standard() ==> final(mem)@ == relcar_effect(old(mem)@, info.mmap, info.mmap_addr, *info.relocation),
    {
        write_abs8(mem, info)
    }

    /// An absolute 32-bit address.
    fn handle_abs4(mem: &mut Vec<u8>, info: RelocInfo)
        requires
            handler_ready(old(mem)@, info),
            info.relocation.kind is Abs4,
        ensures
            final(mem)@.len() == old(mem)@.len(),
            Self::keeps_standard() ==> final(mem)@ == relcar_effect(old(mem)@, info.mmap, info.mmap_addr, *info.relocation),
    {
        write_abs4(mem, info)
    }

    /// The 32-bit displacement of an x86 call.
    fn handle_x86call_pc_rel4(mem: &mut Vec<u8>, info: RelocInfo)
        requires
            handler_ready(old(mem)@, info),
            info.relocation.kind is X86CallPCRel4,
        ensures
            final(mem)@.len() == old(mem)@.len(),
            Self::keeps_standard() ==> final(mem)@ == relcar_effect(old(mem)@, info.mmap, info.mmap_addr, *info.relocation),
    {
        x86rel(mem, info)
    }

    /// A 32-bit PC-relative x86 displacement.
    fn handle_x86_pc_rel4(mem: &mut Vec<u8>, info: RelocInfo)
        requires
            handler_ready(old(mem)@, info),
            info.relocation.kind is X86PCRel4,
        ensures
            final(mem)@.len() == old(mem)@.len(),
            Self::keeps_standard() ==> final(mem)@ == relcar_effect(old(mem)@, info.mmap, info.mmap_addr, *info.relocation),
    {
        x86rel(mem, info)
    }

    /// An x86 displacement given in bytes.
    fn handle_x86call_relbytes(mem: &mut Vec<u8>, info: RelocInfo)
        requires
            handler_ready(old(mem)@, info),
            info.relocation.kind is X86CallPCRelOrPCRelProvidedRelativeBytes,
        ensures
            final(mem)@.len() == old(mem)@.len(),
            Self::keeps_standard() ==> final(mem)@ == relcar_effect(old(mem)@, info.mmap, info.mmap_addr, *info.relocation),
    {
        let sym = info.relocation.symbol_addr;
        let d = sym as u32 as i32;
        assert(d as u32 == sym as u32) by (bit_vector)
            requires
                d == sym as u32 as i32,
        ;
        x86rel_i32(mem, d, info.patch_site)
    }

    /// An AArch64 call to an address.
    fn handle_arm64call(mem: &mut Vec<u8>, info: RelocInfo)
        requires
            handler_ready(old(mem)@, info),
            info.relocation.kind is Arm64Call,
        ensures
            final(mem)@.len() == old(mem)@.len(),
            Self::keeps_standard() ==> final(mem)@ == relcar_effect(old(mem)@, info.mmap, info.mmap_addr, *info.relocation),
    {
        let target_addr = info.relocation.symbol_addr as i64;
        let here = (info.mmap_addr + info.relocation.offset as usize) as i64;
        let d = target_addr.wrapping_sub(here);
        proof {
            lemma_wrapping_i64(target_addr - here);
        }
        assert(d == arm64_displacement(info.mmap_addr, *info.relocation));
        arm64callhwnd(mem, d, info)
    }

    /// An AArch64 call by a displacement given in bytes.
    fn handle_arm64call_relbytes(mem: &mut Vec<u8>, info: RelocInfo)
        requires
            handler_ready(old(mem)@, info),
            info.relocation.kind is Arm64CallProvidedRelativeBytes,
        ensures
            final(mem)@.len() == old(mem)@.len(),
            Self::keeps_standard() ==> final(mem)@ == relcar_effect(old(mem)@, info.mmap, info.mmap_addr, *info.relocation),
    {
        arm64callhwnd(mem, info.relocation.symbol_addr as i64, info)
    }

    /// Applies a `UserCustom` relocation; it keeps the slab's size.
    fn handle_usercustom(mem: &mut Vec<u8>, info: RelocInfo, userdefined: u16)
        requires
            Self::accepts_custom(userdefined),
            info.mmap + info.len <= old(mem).len(),
        ensures
            final(mem)@.len() == old(mem)@.len(),
    ;
}

/// The relocator with no custom relocations.
pub struct BasicRelocator;

impl Relocator for BasicRelocator {
    open spec fn accepts_custom(code: u16) -> bool {
        false
    }

    open spec fn keeps_standard() -> bool {
        true
    }

    fn handle_usercustom(mem: &mut Vec<u8>, info: RelocInfo, userdefined: u16) {
    }
}

/// RELCAR, parameterised by the relocator that handles custom relocations.
pub struct Relcar<B: Relocator = BasicRelocator> {
    relcar_relocator: PhantomData<B>,
}

impl<B: Relocator> Relcar<B> {
    pub fn new() -> Self {
        Relcar { relcar_relocator: PhantomData }
    }

    /// Applies one relocation to the function at slab offset `mmap`.
    pub fn relocate(&self, mem: &mut Vec<u8>, mmap: usize, mmap_addr: usize, len: usize, relocation: &Relocation)
        requires
            mmap + len <= old(mem).len(),
            mmap + relocation.offset <= old(mem).len(),
            relcar_accepts(mmap_addr, len, *relocation, match relocation.kind {
                RelocKind::UserCustom { customdefined } => B::accepts_custom(customdefined),
                _ => true,
            }),
        ensures
            final(mem)@.len() == old(mem)@.len(),
            !(relocation.kind is UserCustom) && B::keeps_standard() ==> final(mem)@ == relcar_effect(
                old(mem)@,
                mmap,
                mmap_addr,
                *relocation,
            ),
    {
        let patch_site = mmap + relocation.offset as usize;
        let info = RelocInfo { mmap, mmap_addr, len, relocation, patch_site };
        match relocation.kind {
            RelocKind::Abs8 => B::handle_abs8(mem, info),
            RelocKind::Abs4 => B::handle_abs4(mem, info),
            RelocKind::X86CallPCRel4 => B::handle_x86call_pc_rel4(mem, info),
            RelocKind::X86PCRel4 => B::handle_x86_pc_rel4(mem, info),
            RelocKind::X86CallPCRelOrPCRelProvidedRelativeBytes => B::handle_x86call_relbytes(mem, info),
            RelocKind::Arm64Call => B::handle_arm64call(mem, info),
            RelocKind::Arm64CallProvidedRelativeBytes => B::handle_arm64call_relbytes(mem, info),
            RelocKind::UserCustom { customdefined } => B::handle_usercustom(mem, info, customdefined),
        }
    }
}

fn write_abs8(mem: &mut Vec<u8>, info: RelocInfo)
    requires
        info.patch_site == info.mmap + info.relocation.offset,
        info.mmap + info.len <= old(mem).len(),
        info.relocation.offset + 8 <= info.len,
    ensures
        final(mem)@ == write_u64_at(old(mem)@, info.patch_site as int, info.relocation.symbol_addr),
        final(mem)@.len() == old(mem)@.len(),
{
    write_u64(mem, info.patch_site, info.relocation.symbol_addr);
}

fn write_abs4(mem: &mut Vec<u8>, info: RelocInfo)
    requires
        info.patch_site == info.mmap + info.relocation.offset,
        info.mmap + info.len <= old(mem).len(),
        info.relocation.offset + 4 <= info.len,
    ensures
        final(mem)@ == write_u32_at(old(mem)@, info.patch_site as int, info.relocation.symbol_addr as u32),
        final(mem)@.len() == old(mem)@.len(),
{
    write_u32(mem, info.patch_site, info.relocation.symbol_addr as u32);
}

/// Writes a PC-relative displacement: from the end of the 4-byte field to the target.
fn x86rel(mem: &mut Vec<u8>, info: RelocInfo)
    requires
        info.patch_site == info.mmap + info.relocation.offset,
        info.mmap + info.len <= old(mem).len(),
        info.relocation.offset + 4 <= info.len,
        info.mmap_addr + info.relocation.offset + 4 <= usize::MAX,
        fits_bits(true, 32, x86_displacement(info.mmap_addr, *info.relocation)),
    ensures
        final(mem)@ == write_u32_at(
            old(mem)@,
            info.patch_site as int,
            x86_displacement(info.mmap_addr, *info.relocation) as u32,
        ),
        final(mem)@.len() == old(mem)@.len(),
{
    let target_addr = info.relocation.symbol_addr as i64;
    let here = (info.mmap_addr + info.relocation.offset as usize) as i64;
    let rip_after_instr = here.wrapping_add(4);
    let displacement = target_addr.wrapping_sub(rip_after_instr);
    proof {
        lemma_wrapping_i64(here as int + 4);
        lemma_wrapping_i64(target_addr - rip_after_instr);
        lemma_two_pow_values();
    }
    x86rel_i32(mem, displacement as i32, info.patch_site);
}

proof fn lemma_wrapping_i64(x: int)
    requires
        -0x1_0000_0000_0000_0000 <= x < 0x1_0000_0000_0000_0000,
    ensures
        wrap_i64(x) == if x > i64::MAX {
            x - 0x1_0000_0000_0000_0000
        } else if x < i64::MIN {
            x + 0x1_0000_0000_0000_0000
        } else {
            x
        },
{
}

/// Writes a 32-bit displacement at `patchsite`.
fn x86rel_i32(mem: &mut Vec<u8>, displacement_32: i32, patchsite: usize)
    requires
        patchsite + 4 <= old(mem).len(),
    ensures
        final(mem)@ == write_u32_at(old(mem)@, patchsite as int, displacement_32 as u32),
        final(mem)@.len() == old(mem)@.len(),
{
    write_u32(mem, patchsite, displacement_32 as u32);
}

/// Patches the 26-bit immediate of an AArch64 `B`/`BL` with a byte displacement.
fn arm64callhwnd(mem: &mut Vec<u8>, displacement_bytes: i64, info: RelocInfo)
    requires
        info.patch_site == info.mmap + info.relocation.offset,
        info.mmap + info.len <= old(mem).len(),
        info.relocation.offset + 4 <= info.len,
        displacement_bytes % 4 == 0,
        fits_bits(true, 26, displacement_bytes / 4),
    ensures
        final(mem)@ == write_u32_at(
            old(mem)@,
            info.patch_site as int,
            arm64_call_insert(read_u32_at(old(mem)@, info.patch_site as int), displacement_bytes / 4),
        ),
        final(mem)@.len() == old(mem)@.len(),
{
    let displacement = displacement_bytes / 4;
    let mut instruction = read_u32(mem, info.patch_site);
    instruction = instruction & 0xFC000000;
    instruction = instruction | ((displacement as u32) & 0x03FFFFFF);
    write_u32(mem, info.patch_site, instruction);
}

/// An absolute 64-bit relocation leaves the symbol's address at its site:
/// the 8 bytes there read back as `symbol_addr`, and the code keeps its length.
pub proof fn law_abs8_reads_back(mem: Seq<u8>, mmap: usize, mmap_addr: usize, r: Relocation)
    requires
        r.kind is Abs8,
        mmap + r.offset + 8 <= mem.len(),
    ensures
        read_u64_at(relcar_effect(mem, mmap, mmap_addr, r), mmap + r.offset) == r.symbol_addr,
        relcar_effect(mem, mmap, mmap_addr, r).len() == mem.len(),
{
    lemma_u64_roundtrip(mem, mmap + r.offset, r.symbol_addr);
}

/// An absolute 32-bit relocation leaves the low 32 bits of the symbol's
/// address at its site.
pub proof fn law_abs4_reads_back(mem: Seq<u8>, mmap: usize, mmap_addr: usize, r: Relocation)
    requires
        r.kind is Abs4,
        mmap + r.offset + 4 <= mem.len(),
    ensures
        read_u32_at(relcar_effect(mem, mmap, mmap_addr, r), mmap + r.offset) == r.symbol_addr as u32,
        relcar_effect(mem, mmap, mmap_addr, r).len() == mem.len(),
{
    lemma_u32_roundtrip(mem, mmap + r.offset, r.symbol_addr as u32);
}

/// A PC-relative x86 relocation that RELCAR accepts leaves at its site the
/// signed 32-bit displacement from the end of the field to the symbol.
pub proof fn law_pcrel_reads_back(mem: Seq<u8>, mmap: usize, mmap_addr: usize, r: Relocation)
    requires
        r.kind is X86CallPCRel4 || r.kind is X86PCRel4,
        mmap + r.offset + 4 <= mem.len(),
        fits_bits(true, 32, x86_displacement(mmap_addr, r)),
    ensures
        (read_u32_at(relcar_effect(mem, mmap, mmap_addr, r), mmap + r.offset) as i32) as int
            == x86_displacement(mmap_addr, r),
{
    let d = x86_displacement(mmap_addr, r);
    lemma_two_pow_values();
    lemma_u32_roundtrip(mem, mmap + r.offset, d as u32);
    let di = d as i64;
    assert(-0x8000_0000 <= d < 0x8000_0000);
    assert(di == d);
    assert(((di as u32) as i32) as i64 == di) by (bit_vector)
        requires
            -0x8000_0000 <= di < 0x8000_0000,
    ;
    assert((d as u32) == (di as u32));
}

/// An AArch64 call that RELCAR accepts keeps the opcode (the top six bits of
/// the instruction) and holds in its low 26 bits the distance in
/// instructions from the call's own address to the symbol (or, for the
/// relative kind, the given byte distance divided by four), as a signed
/// 26-bit value.
pub proof fn law_arm64_call_reads_back(mem: Seq<u8>, mmap: usize, mmap_addr: usize, len: usize, r: Relocation)
    requires
        r.kind is Arm64Call || r.kind is Arm64CallProvidedRelativeBytes,
        mmap + r.offset + 4 <= mem.len(),
        relcar_accepts(mmap_addr, len, r, true),
        mmap_addr + r.offset <= i64::MAX,
        r.kind is Arm64Call ==> i64::MIN <= (r.symbol_addr as i64) as int - (mmap_addr + r.offset),
    ensures
        ({
            let q = mmap + r.offset;
            let bytes = if r.kind is Arm64Call {
                (r.symbol_addr as i64) as int - (mmap_addr + r.offset)
            } else {
                (r.symbol_addr as i64) as int
            };
            let inst = read_u32_at(relcar_effect(mem, mmap, mmap_addr, r), q);
            let f = (inst & 0x03FF_FFFFu32) as int;
            &&& inst & 0xFC00_0000u32 == read_u32_at(mem, q) & 0xFC00_0000u32
            &&& (if f >= 0x200_0000 { f - 0x400_0000 } else { f }) == bytes / 4
        }),
{
    lemma_two_pow_values();
    let q = mmap + r.offset;
    let old_inst = read_u32_at(mem, q);
    let d = arm64_displacement(mmap_addr, r);
    let t = (r.symbol_addr as i64) as int - (mmap_addr + r.offset);
    if r.kind is Arm64Call {
        assert(patch_addr(mmap_addr, r) as i64 == mmap_addr + r.offset);
        assert(wrap_i64(t) == t);
        assert(d == t);
    }
    let v = arm64_call_insert(old_inst, d / 4);
    lemma_u32_roundtrip(mem, q, v);
    assert(-0x200_0000 <= d / 4 < 0x200_0000);
    let di = (d / 4) as i64;
    assert(di == d / 4);
    assert(-0x200_0000 <= di < 0x200_0000);
    assert({
        let w = (old_inst & 0xFC000000u32) | ((di as u32) & 0x03FFFFFFu32);
        let f = w & 0x03FF_FFFFu32;
        &&& w & 0xFC00_0000u32 == old_inst & 0xFC00_0000u32
        &&& (f >= 0x200_0000 ==> f as i64 - 0x400_0000 == di)
        &&& (f < 0x200_0000 ==> f as i64 == di)
    }) by (bit_vector)
        requires
            -0x200_0000 <= di < 0x200_0000,
    ;
    assert((d / 4) as u32 == di as u32);
}

} // verus!

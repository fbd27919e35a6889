//! Section layout and the per-architecture relocators.
use vstd::prelude::*;

use crate::advanced::{SlabState, WriteFnResult, SizeCheck};
use crate::advanced::executable::{flatten, placement};
use crate::advanced::transaction::MemoryTransaction;
use crate::bytes::splice;
use crate::coffr::{
    Arch, CoFFRError, CoffImage, CoffSection, Name, Relocation, Resolved, SectionIdx, Symbol,
    starts_with, text_name, rdata_name, relocs_of, relocparser, bytes_starts_with, text_bytes,
    rdata_bytes,
};
use crate::coffr::cache::{LinkerTransaction, entry_of, lemma_entry_of_member};
use crate::relcar::{BasicRelocator, Relcar};
use crate::relocations::Relocation as RelcarRelocation;
use crate::coffr::arch::arm64::{arm64_apply, arm64_count, arm64_stub_spec};
use crate::coffr::arch::x64::{x64_apply, x64_count, x64_trampoline_spec};
use crate::coffr::arch::x86::x86_apply;

pub mod arm64;
pub mod x64;
pub mod x86;

verus! {

/// A place in the slab: `rw` is its offset in the slab's bytes (the
/// read-write view), `rx` its address in the executable view.
#[derive(Debug, Clone, Copy)]
pub struct RWRXPtr {
    pub rw: usize,
    pub rx: usize,
}

/// Where a section and its trampoline pool were placed in the slab.
#[derive(Debug, Clone, Copy)]
pub struct SectionView {
    pub trampolines: u32,
    pub len: u32,
    pub trampoline: RWRXPtr,
    pub data: RWRXPtr,
}

/// Where a section was placed, relative to the start of the slab.
#[derive(Debug, Clone, Copy)]
pub struct CompressedSectionView {
    pub trampolines: u32,
    pub len: u32,
    pub cursor_trampolines: u32,
    pub cursor: u32,
}

/// A relocation whose symbol has been given its final address.
#[derive(Debug, Clone, Copy)]
pub struct ResolvedRelocation {
    pub typ: u16,
    pub sectidx: u16,
    pub position_offset: u64,
    pub sectionstart: u64,
    pub symbol: u64,
}

/// A placed section with the relocations to apply to it.
pub struct LinkSection {
    pub view: SectionView,
    pub reloc: Vec<Result<ResolvedRelocation, CoFFRError>>,
}

/// A placed section with its relocations before symbol resolution.
pub struct CheckLinkSection {
    pub view: SectionView,
    pub reloc: Vec<Result<Relocation, CoFFRError>>,
}

/// The section and its trampoline pool lie inside a slab of `len` bytes.
pub open spec fn view_in_slab(view: SectionView, len: nat) -> bool {
    &&& view.data.rw + view.len <= len
    &&& view.trampoline.rw + view.trampolines * 16 <= len
    &&& view.data.rx + view.len <= usize::MAX
    &&& view.trampoline.rx + view.trampolines * 16 <= usize::MAX
}

/// The trampoline slot already in use for the target `t`: the first of the
/// slots in use (whose targets are `used`, in slot order) that jumps to `t`.
/// Trampolines are shared: one slot for each target.
pub open spec fn find_slot(used: Seq<u64>, t: u64) -> Option<nat> {
    if exists|j: int| 0 <= j < used.len() && used[j] == t {
        Some((choose|j: int| 0 <= j < used.len() && used[j] == t && forall|k: int| 0 <= k < j ==> used[k] != t) as nat)
    } else {
        None
    }
}

/// Finds the trampoline slot in use for the target `t` (see [`find_slot`]).
pub fn find_slot_exec(used: &Vec<u64>, t: u64) -> (r: Option<usize>)
    ensures
        match r {
            Some(j) => find_slot(used@, t) == Some(j as nat) && j < used.len() && used@[j as int] == t,
            None => find_slot(used@, t) is None,
        },
{
    let mut j: usize = 0;
    while j < used.len()
        invariant
            j <= used.len(),
            forall|k: int| 0 <= k < j ==> used@[k] != t,
        decreases used.len() - j,
    {
        if used[j] == t {
            let ghost c = choose|i: int| 0 <= i < used@.len() && used@[i] == t && forall|k: int| 0 <= k < i ==> used@[k] != t;
            assert(0 <= j < used@.len() && used@[j as int] == t && forall|k: int| 0 <= k < j ==> used@[k] != t);
            assert(c == j) by {
                if c < j {
                    assert(used@[c] != t);
                } else if c > j {
                    assert(used@[j as int] != t);
                }
            }
            return Some(j);
        }
        j = j + 1;
    }
    None
}

/// Writing bytes at `p` leaves every byte outside them as it was.
pub proof fn lemma_splice_keeps(s: Seq<u8>, p: int, t: Seq<u8>, k: int)
    requires
        0 <= p,
        p + t.len() <= s.len(),
        0 <= k < s.len(),
        k < p || p + t.len() <= k,
    ensures
        splice(s, p, t)[k] == s[k],
        splice(s, p, t).len() == s.len(),
{
}

/// The byte at slab offset `k` is off every place a relocator may write for
/// these relocations: outside the trampoline pool and outside the eight bytes
/// from each relocation's site.
pub open spec fn off_sites(view: SectionView, relocs: Seq<Result<ResolvedRelocation, CoFFRError>>, k: int) -> bool {
    &&& !(view.trampoline.rw <= k < view.trampoline.rw + view.trampolines * 16)
    &&& forall|i: int| 0 <= i < relocs.len() && (#[trigger] relocs[i]) is Ok ==> !(
        site(view, relocs[i]->Ok_0.position_offset) <= k < site(view, relocs[i]->Ok_0.position_offset) + 8)
}

/// A relocation's patch site `[off, off + width)` lies inside the section.
pub open spec fn site_ok(view: SectionView, off: u64, width: nat) -> bool {
    off + width <= view.len
}

/// The slab offset of the patch site of a relocation.
pub open spec fn site(view: SectionView, off: u64) -> int {
    view.data.rw + off
}

/// The executable address `P` of the patch site, as the relocators compute it.
pub open spec fn place(view: SectionView, off: u64) -> int {
    (view.data.rx as i64) as int + (off as i64) as int
}

/// `x` reduced modulo `2^64`.
pub open spec fn wrap64(x: int) -> u64 {
    (x % 0x1_0000_0000_0000_0000) as u64
}

/// `x` reduced modulo `2^32`.
pub open spec fn wrap32(x: int) -> u32 {
    (x % 0x1_0000_0000) as u32
}

/// `x` reduced modulo `2^16`.
pub open spec fn wrap16(x: int) -> u16 {
    (x % 0x1_0000) as u16
}

pub fn floor_div4(x: i128) -> (r: i128)
    ensures
        r == x / 4,
{
    assert(x >> 2 == x / 4) by (bit_vector);
    x >> 2
}

pub fn mod4096(x: i128) -> (r: i128)
    ensures
        r == x % 4096,
{
    assert(x & 0xFFF == x % 4096) by (bit_vector);
    x & 0xFFF
}

pub fn wrap_u64(x: i128) -> (r: u64)
    ensures
        r == wrap64(x as int),
{
    assert(x as u64 == (x % 0x1_0000_0000_0000_0000) as u64) by (bit_vector);
    x as u64
}

pub fn wrap_u32(x: i128) -> (r: u32)
    ensures
        r == wrap32(x as int),
{
    assert(x as u32 == (x % 0x1_0000_0000) as u32) by (bit_vector);
    x as u32
}

pub fn wrap_u16(x: i128) -> (r: u16)
    ensures
        r == wrap16(x as int),
{
    assert(x as u16 == (x % 0x1_0000) as u16) by (bit_vector);
    x as u16
}

/// `2` to the power `n`.
pub open spec fn two_pow(n: nat) -> nat
    decreases n,
{
    if n == 0 {
        1
    } else {
        2 * two_pow((n - 1) as nat)
    }
}

pub proof fn lemma_two_pow_pos(n: nat)
    ensures
        two_pow(n) > 0,
    decreases n,
{
    if n > 0 {
        lemma_two_pow_pos((n - 1) as nat);
    }
}

pub proof fn lemma_two_pow_mono(a: nat, b: nat)
    requires
        a <= b,
    ensures
        two_pow(a) <= two_pow(b),
    decreases b,
{
    if a < b {
        lemma_two_pow_mono(a, (b - 1) as nat);
    }
}

pub proof fn lemma_two_pow_values()
    ensures
        two_pow(2) == 4,
        two_pow(7) == 128,
        two_pow(12) == 0x1000,
        two_pow(13) == 0x2000,
        two_pow(14) == 0x4000,
        two_pow(18) == 0x4_0000,
        two_pow(19) == 0x8_0000,
        two_pow(20) == 0x10_0000,
        two_pow(21) == 0x20_0000,
        two_pow(25) == 0x200_0000,
        two_pow(26) == 0x400_0000,
        two_pow(31) == 0x8000_0000,
        two_pow(32) == 0x1_0000_0000,
        two_pow(62) == 0x4000_0000_0000_0000,
        two_pow(63) == 0x8000_0000_0000_0000,
        two_pow(64) == 0x1_0000_0000_0000_0000,
{
    assert(two_pow(0) == 1);
    assert(two_pow(1) == 0x2);
    assert(two_pow(2) == 0x4);
    assert(two_pow(3) == 0x8);
    assert(two_pow(4) == 0x10);
    assert(two_pow(5) == 0x20);
    assert(two_pow(6) == 0x40);
    assert(two_pow(7) == 0x80);
    assert(two_pow(8) == 0x100);
    assert(two_pow(9) == 0x200);
    assert(two_pow(10) == 0x400);
    assert(two_pow(11) == 0x800);
    assert(two_pow(12) == 0x1000);
    assert(two_pow(13) == 0x2000);
    assert(two_pow(14) == 0x4000);
    assert(two_pow(15) == 0x8000);
    assert(two_pow(16) == 0x10000);
    assert(two_pow(17) == 0x20000);
    assert(two_pow(18) == 0x40000);
    assert(two_pow(19) == 0x80000);
    assert(two_pow(20) == 0x100000);
    assert(two_pow(21) == 0x200000);
    assert(two_pow(22) == 0x400000);
    assert(two_pow(23) == 0x800000);
    assert(two_pow(24) == 0x1000000);
    assert(two_pow(25) == 0x2000000);
    assert(two_pow(26) == 0x4000000);
    assert(two_pow(27) == 0x8000000);
    assert(two_pow(28) == 0x10000000);
    assert(two_pow(29) == 0x20000000);
    assert(two_pow(30) == 0x40000000);
    assert(two_pow(31) == 0x80000000);
    assert(two_pow(32) == 0x100000000);
    assert(two_pow(33) == 0x200000000);
    assert(two_pow(34) == 0x400000000);
    assert(two_pow(35) == 0x800000000);
    assert(two_pow(36) == 0x1000000000);
    assert(two_pow(37) == 0x2000000000);
    assert(two_pow(38) == 0x4000000000);
    assert(two_pow(39) == 0x8000000000);
    assert(two_pow(40) == 0x10000000000);
    assert(two_pow(41) == 0x20000000000);
    assert(two_pow(42) == 0x40000000000);
    assert(two_pow(43) == 0x80000000000);
    assert(two_pow(44) == 0x100000000000);
    assert(two_pow(45) == 0x200000000000);
    assert(two_pow(46) == 0x400000000000);
    assert(two_pow(47) == 0x800000000000);
    assert(two_pow(48) == 0x1000000000000);
    assert(two_pow(49) == 0x2000000000000);
    assert(two_pow(50) == 0x4000000000000);
    assert(two_pow(51) == 0x8000000000000);
    assert(two_pow(52) == 0x10000000000000);
    assert(two_pow(53) == 0x20000000000000);
    assert(two_pow(54) == 0x40000000000000);
    assert(two_pow(55) == 0x80000000000000);
    assert(two_pow(56) == 0x100000000000000);
    assert(two_pow(57) == 0x200000000000000);
    assert(two_pow(58) == 0x400000000000000);
    assert(two_pow(59) == 0x800000000000000);
    assert(two_pow(60) == 0x1000000000000000);
    assert(two_pow(61) == 0x2000000000000000);
    assert(two_pow(62) == 0x4000000000000000);
    assert(two_pow(63) == 0x8000000000000000);
    assert(two_pow(64) == 0x10000000000000000);
}

/// A section that the linker places: its name starts with `.rdata` or `.text`.
pub open spec fn is_linked(s: CoffSection) -> bool {
    starts_with(s.name@, rdata_name()) || starts_with(s.name@, text_name())
}

/// Writing `data` into the slab at the next multiple of `align`: the slab
/// afterwards and where the data starts; `None` when it does not fit.
pub open spec fn write_block(s: SlabState, align: usize, data: Seq<u8>) -> Option<(SlabState, nat)> {
    match placement(s, align) {
        Some(start) => if start + data.len() <= s.bytes.len() {
            Some((
                SlabState {
                    bytes: splice(s.bytes, start as int, data),
                    cursor: start + data.len(),
                    stored: s.stored + 1,
                    ..s
                },
                start,
            ))
        } else {
            None
        },
        None => None,
    }
}

/// `t` repeated `n` times.
pub open spec fn repeat_bytes(t: Seq<u8>, n: nat) -> Seq<u8>
    decreases n,
{
    if n == 0 {
        Seq::empty()
    } else {
        repeat_bytes(t, (n - 1) as nat) + t
    }
}

/// The trampoline that an architecture's pool is made of (none on i386).
pub open spec fn arch_template(arch: Arch) -> Seq<u8> {
    match arch {
        Arch::X64 => x64_trampoline_spec(),
        Arch::Arm64 => arm64_stub_spec(),
        _ => Seq::empty(),
    }
}

/// The number of trampolines a section needs on `arch`, or the first error.
pub open spec fn arch_count(
    arch: Arch,
    mem: Seq<u8>,
    view: SectionView,
    relocs: Seq<Result<Relocation, CoFFRError>>,
) -> Result<nat, CoFFRError> {
    match arch {
        Arch::X64 => x64_count(mem, view, relocs),
        Arch::Arm64 => arm64_count(mem, view, relocs),
        _ => Ok(0),
    }
}

/// Applying a placed section's relocations on `arch`.
pub open spec fn arch_apply(
    arch: Arch,
    mem: Seq<u8>,
    view: SectionView,
    base: u64,
    relocs: Seq<Result<ResolvedRelocation, CoFFRError>>,
) -> (Seq<u8>, Result<(), CoFFRError>) {
    match arch {
        Arch::Arm64 => arm64_apply(mem, view, base, Seq::empty(), relocs),
        Arch::X64 => x64_apply(mem, view, base, Seq::empty(), relocs),
        Arch::X86 => x86_apply(mem, view, base, relocs),
    }
}

/// The view of a section just written at slab offset `start`, before its
/// trampoline pool exists.
pub open spec fn check_view(rx: nat, start: nat, len: nat) -> SectionView {
    SectionView {
        trampolines: 0,
        len: len as u32,
        trampoline: RWRXPtr { rw: 0, rx: 0 },
        data: RWRXPtr { rw: start as usize, rx: (rx + start) as usize },
    }
}

/// The view of a placed section, in a slab whose executable view is at `rx`.
pub open spec fn link_view(v: CompressedSectionView, rx: nat) -> SectionView {
    SectionView {
        trampolines: v.trampolines,
        len: v.len,
        trampoline: RWRXPtr {
            rw: v.cursor_trampolines as usize,
            rx: (rx + v.cursor_trampolines) as usize,
        },
        data: RWRXPtr { rw: v.cursor as usize, rx: (rx + v.cursor) as usize },
    }
}

/// Placing one section: its contents at the next multiple of its alignment,
/// then, 16-aligned, the trampolines its relocations need. Gives the slab
/// afterwards and where both went, or the error.
pub open spec fn place_section(
    img: CoffImage,
    arch: Arch,
    table: Seq<Result<Symbol, CoFFRError>>,
    s: SlabState,
    sec: CoffSection,
) -> Result<(SlabState, CompressedSectionView), CoFFRError> {
    match write_block(s, sec.header.align as usize, sec.data@) {
        None => Err(CoFFRError::UnderSized),
        Some((s1, start)) => if start > u32::MAX || sec.data@.len() > u32::MAX {
            Err(CoFFRError::ConvertU32Err)
        } else {
            let view = check_view(s.rx, start, sec.data@.len());
            match arch_count(arch, s1.bytes, view, relocs_of(img, table, sec.relocations@)) {
                Err(e) => Err(e),
                Ok(n) => match write_block(s1, 16, repeat_bytes(arch_template(arch), n)) {
                    None => Err(CoFFRError::UnderSized),
                    Some((s2, tstart)) => if tstart > u32::MAX {
                        Err(CoFFRError::ConvertU32Err)
                    } else {
                        Ok((
                            s2,
                            CompressedSectionView {
                                trampolines: n as u32,
                                len: sec.data@.len() as u32,
                                cursor_trampolines: tstart as u32,
                                cursor: start as u32,
                            },
                        ))
                    },
                },
            }
        },
    }
}

/// Placing the linked sections from position `i` on, in order, each recorded
/// under its section index; the indices must ascend.
pub open spec fn place_all(
    img: CoffImage,
    arch: Arch,
    table: Seq<Result<Symbol, CoFFRError>>,
    s: SlabState,
    i: nat,
    entries: Seq<(u32, CompressedSectionView)>,
) -> Result<(SlabState, Seq<(u32, CompressedSectionView)>), CoFFRError>
    decreases img.sections.len() - i,
{
    if i >= img.sections.len() {
        Ok((s, entries))
    } else if !is_linked(img.sections@[i as int]) {
        place_all(img, arch, table, s, i + 1, entries)
    } else {
        match place_section(img, arch, table, s, img.sections@[i as int]) {
            Err(e) => Err(e),
            Ok((s2, v)) => {
                let key = img.sections@[i as int].header.index as u32;
                if entries.len() > 0 && entries.last().0 >= key {
                    Err(CoFFRError::InvalidObject)
                } else {
                    place_all(img, arch, table, s2, i + 1, entries.push((key, v)))
                }
            },
        }
    }
}

/// The final value of a symbol, with the start and index of its section (0
/// for an absolute one): a section symbol is placed where its section went.
pub open spec fn symbol_address(
    entries: Seq<(u32, CompressedSectionView)>,
    rx: nat,
    sym: Resolved,
) -> Result<(u64, u64, u16), CoFFRError> {
    match sym {
        Resolved::Absolute(x) => Ok((x, 0, 0)),
        Resolved::Section { idx, offset } => {
            let id = match idx {
                SectionIdx::Text(id) => id,
                SectionIdx::RData(id) => id,
            };
            match entry_of(entries, id as u32) {
                None => Err(CoFFRError::InvalidObject),
                Some(v) => {
                    let start = rx + v.cursor;
                    Ok((wrap64(start + offset), start as u64, id as u16))
                },
            }
        },
    }
}

/// A relocation with its symbol placed.
pub open spec fn resolve_reloc(
    x: Result<Relocation, CoFFRError>,
    entries: Seq<(u32, CompressedSectionView)>,
    rx: nat,
) -> Result<ResolvedRelocation, CoFFRError> {
    match x {
        Err(e) => Err(e),
        Ok(rel) => match symbol_address(entries, rx, rel.symbol) {
            Err(e) => Err(e),
            Ok((symbol, sectionstart, sectidx)) => Ok(ResolvedRelocation {
                typ: rel.typ,
                sectidx,
                position_offset: rel.position_offset,
                sectionstart,
                symbol,
            }),
        },
    }
}

/// Each relocation, with its symbol placed.
pub open spec fn resolve_relocs(
    xs: Seq<Result<Relocation, CoFFRError>>,
    entries: Seq<(u32, CompressedSectionView)>,
    rx: nat,
) -> Seq<Result<ResolvedRelocation, CoFFRError>> {
    Seq::new(xs.len(), |j: int| resolve_reloc(xs[j], entries, rx))
}

/// Relocating the linked sections from position `i` on, in order, stopping at
/// the first error.
pub open spec fn relink_all(
    img: CoffImage,
    arch: Arch,
    table: Seq<Result<Symbol, CoFFRError>>,
    entries: Seq<(u32, CompressedSectionView)>,
    rx: nat,
    base: u64,
    mem: Seq<u8>,
    i: nat,
) -> (Seq<u8>, Result<(), CoFFRError>)
    decreases img.sections.len() - i,
{
    if i >= img.sections.len() {
        (mem, Ok(()))
    } else if !is_linked(img.sections@[i as int]) {
        relink_all(img, arch, table, entries, rx, base, mem, i + 1)
    } else {
        let sec = img.sections@[i as int];
        match entry_of(entries, sec.header.index as u32) {
            None => (mem, Err(CoFFRError::InvalidObject)),
            Some(v) => {
                let relocs = resolve_relocs(relocs_of(img, table, sec.relocations@), entries, rx);
                let (m, r) = arch_apply(arch, mem, link_view(v, rx), base, relocs);
                match r {
                    Err(e) => (m, Err(e)),
                    Ok(()) => relink_all(img, arch, table, entries, rx, base, m, i + 1),
                }
            },
        }
    }
}

/// The image base of a link: the 64 KiB boundary at or below the slab's
/// first free executable address.
pub open spec fn imagebase(s: SlabState) -> u64 {
    let at = s.rx + s.cursor;
    (at - at % 0x1_0000) as u64
}

/// The image base of a link is 64 KiB-aligned and lies in the 64 KiB just
/// below the slab's first free executable address.
pub proof fn law_imagebase_aligned(s: SlabState)
    requires
        s.rx + s.cursor <= u64::MAX,
    ensures
        imagebase(s) % 0x1_0000 == 0,
        imagebase(s) <= s.rx + s.cursor < imagebase(s) + 0x1_0000,
{
    let at = (s.rx + s.cursor) as int;
    assert(at - at % 0x1_0000 >= 0);
    assert((at - at % 0x1_0000) % 0x1_0000 == 0);
}

/// What the link gives for one symbol: its name and final address.
pub open spec fn link_output<'a>(
    sym: Result<Symbol<'a>, CoFFRError>,
    entries: Seq<(u32, CompressedSectionView)>,
    rx: nat,
) -> Result<(Name<'a>, u64), CoFFRError> {
    match sym {
        Err(e) => Err(e),
        Ok(s) => match symbol_address(entries, rx, s.resolved) {
            Err(e) => Err(e),
            Ok((v, _, _)) => Ok((s.name, v)),
        },
    }
}

/// Every placement lies inside a slab of `len` bytes.
pub open spec fn entries_in_slab(entries: Seq<(u32, CompressedSectionView)>, len: nat) -> bool {
    forall|i: int| 0 <= i < entries.len() ==> {
        &&& (#[trigger] entries[i]).1.cursor + entries[i].1.len <= len
        &&& entries[i].1.cursor_trampolines + entries[i].1.trampolines * 16 <= len
    }
}

/// Writes the chunks one after the other as one block at the next multiple of
/// `align`; gives the block's slab offset, or `None` when it does not fit.
fn write_block_exec(
    memory: &mut MemoryTransaction,
    align: usize,
    chunks: &Vec<Vec<u8>>,
    size: usize,
) -> (r: Option<usize>)
    requires
        old(memory).wf(),
        old(memory).memory@.stored < usize::MAX,
        size == flatten(chunks@).len(),
    ensures
        final(memory).wf(),
        *final(final(memory).memory) == *final(old(memory).memory),
        final(memory).total == old(memory).total,
        final(memory).cursor == old(memory).cursor,
        match write_block(old(memory).memory@, align, flatten(chunks@)) {
            Some((s1, start)) => {
                &&& r == Some(start as usize)
                &&& final(memory).memory@ == s1
                &&& final(memory).writes == old(memory).writes + 1
            },
            None => {
                &&& r is None
                &&& final(memory).memory@ == old(memory).memory@
                &&& final(memory).writes == old(memory).writes
            },
        },
{
    let relocs: Vec<RelcarRelocation> = Vec::new();
    let relcar: Relcar<BasicRelocator> = Relcar::new();
    let rx = memory.memory.base_address();
    proof {
        memory.memory.lemma_wf();
    }
    let r = memory.write_fn_iterated(align, size, chunks, &relocs, &relcar, true);
    match r {
        WriteFnResult::Executable(addr) => {
            assert(relocs@ =~= Seq::<RelcarRelocation>::empty());
            assert(memory.memory@.bytes =~= splice(
                old(memory).memory@.bytes,
                (addr - rx) as int,
                flatten(chunks@),
            ));
            Some(addr - rx)
        },
        WriteFnResult::OutOfSlab => None,
    }
}

proof fn lemma_repeat_len(t: Seq<u8>, n: nat)
    ensures
        repeat_bytes(t, n).len() == n * t.len(),
        repeat_bytes(t, n).len() == t.len() * n,
    decreases n,
{
    if n > 0 {
        lemma_repeat_len(t, (n - 1) as nat);
        let m = (n - 1) as nat;
        assert(repeat_bytes(t, n) == repeat_bytes(t, m) + t);
        assert(n * t.len() == m * t.len() + t.len() && t.len() * n == n * t.len()) by (nonlinear_arith)
            requires
                m == n - 1,
        ;
    } else {
        assert(0 * t.len() == 0 && t.len() * 0 == 0);
    }
}

/// `n` copies of `t`, as chunks to write one after the other.
fn repeat_chunks(t: &Vec<u8>, n: u32) -> (r: Vec<Vec<u8>>)
    ensures
        flatten(r@) == repeat_bytes(t@, n as nat),
{
    let mut r: Vec<Vec<u8>> = Vec::new();
    let mut j: u32 = 0;
    while j < n
        invariant
            j <= n,
            flatten(r@) == repeat_bytes(t@, j as nat),
        decreases n - j,
    {
        let ghost before = r@;
        let c = t.clone();
        assert(c@ =~= t@);
        r.push(c);
        assert(r@.drop_last() =~= before);
        j = j + 1;
    }
    r
}

/// Places one linked section (see [`place_section`]).
fn place_section_exec<'d>(
    memory: &mut MemoryTransaction,
    img: &CoffImage,
    arch: Arch,
    table: &Vec<Result<Symbol<'d>, CoFFRError>>,
    i: usize,
) -> (r: Result<CompressedSectionView, CoFFRError>)
    requires
        old(memory).wf(),
        old(memory).memory@.stored + 2 < usize::MAX,
        i < img.sections.len(),
        table.len() == img.symbols.len(),
        img.sections@[i as int].relocations.len() < u32::MAX,
    ensures
        final(memory).wf(),
        *final(final(memory).memory) == *final(old(memory).memory),
        final(memory).total == old(memory).total,
        final(memory).cursor == old(memory).cursor,
        final(memory).memory@.rx == old(memory).memory@.rx,
        final(memory).memory@.rw == old(memory).memory@.rw,
        final(memory).memory@.bytes.len() == old(memory).memory@.bytes.len(),
        final(memory).writes >= old(memory).writes,
        final(memory).memory@.stored - final(memory).writes == old(memory).memory@.stored - old(memory).writes,
        final(memory).memory@.stored <= old(memory).memory@.stored + 2,
        match place_section(*img, arch, table@, old(memory).memory@, img.sections@[i as int]) {
            Ok((s2, v)) => r == Ok::<CompressedSectionView, CoFFRError>(v) && final(memory).memory@ == s2,
            Err(e) => r == Err::<CompressedSectionView, CoFFRError>(e),
        },
{
    let sec = &img.sections[i];
    let ghost s0 = memory.memory@;
    let rx = memory.memory.base_address();
    proof {
        memory.memory.lemma_wf();
    }
    let chunks = vec![sec.data.clone()];
    proof {
        assert(chunks@[0]@ =~= sec.data@);
        assert(chunks@.drop_last() =~= Seq::<Vec<u8>>::empty());
        reveal_with_fuel(flatten, 2);
        assert(flatten(chunks@) =~= sec.data@);
    }
    let start = match write_block_exec(memory, sec.header.align as usize, &chunks, sec.data.len()) {
        None => {
            return Err(CoFFRError::UnderSized);
        },
        Some(st) => st,
    };
    let ghost s1 = memory.memory@;
    if start > 0xFFFF_FFFFusize || sec.data.len() > 0xFFFF_FFFFusize {
        return Err(CoFFRError::ConvertU32Err);
    }
    let relocs = relocparser(img, &sec.relocations, table);
    let check = CheckLinkSection {
        view: SectionView {
            trampolines: 0,
            len: sec.data.len() as u32,
            trampoline: RWRXPtr { rw: 0, rx: 0 },
            data: RWRXPtr { rw: start, rx: rx + start },
        },
        reloc: relocs,
    };
    assert(check.view == check_view(s0.rx, start as nat, sec.data@.len()));
    let (n, template) = match arch {
        Arch::X64 => match crate::coffr::arch::x64::count_trampolines(&check, memory.memory.bytes()) {
            Ok(v) => v,
            Err(e) => {
                return Err(e);
            },
        },
        Arch::Arm64 => match crate::coffr::arch::arm64::count_trampolines(&check, memory.memory.bytes()) {
            Ok(v) => v,
            Err(e) => {
                return Err(e);
            },
        },
        _ => (0u32, Vec::new()),
    };
    assert(template@ =~= arch_template(arch));
    let size = match template.len().checked_mul(n as usize) {
        None => {
            proof {
                lemma_repeat_len(template@, n as nat);
                assert(arch_count(arch, s1.bytes, check.view, relocs_of(*img, table@, sec.relocations@))
                    == Ok::<nat, CoFFRError>(n as nat));
                assert(repeat_bytes(arch_template(arch), n as nat).len() > s1.bytes.len());
                assert(write_block(s1, 16, repeat_bytes(arch_template(arch), n as nat)) is None);
            }
            return Err(CoFFRError::UnderSized);
        },
        Some(z) => z,
    };
    let pool = repeat_chunks(&template, n);
    proof {
        lemma_repeat_len(template@, n as nat);
    }
    let tstart = match write_block_exec(memory, 16, &pool, size) {
        None => {
            return Err(CoFFRError::UnderSized);
        },
        Some(t) => t,
    };
    if tstart > 0xFFFF_FFFFusize {
        return Err(CoFFRError::ConvertU32Err);
    }
    Ok(CompressedSectionView {
        trampolines: n,
        len: sec.data.len() as u32,
        cursor_trampolines: tstart as u32,
        cursor: start as u32,
    })
}

/// The placement found under a key is one of the recorded placements.
proof fn lemma_entry_in_slab(entries: Seq<(u32, CompressedSectionView)>, key: u32, len: nat)
    requires
        entries_in_slab(entries, len),
        entry_of(entries, key) is Some,
    ensures
        entry_of(entries, key).unwrap().cursor + entry_of(entries, key).unwrap().len <= len,
        entry_of(entries, key).unwrap().cursor_trampolines + entry_of(entries, key).unwrap().trampolines * 16 <= len,
{
    lemma_entry_of_member(entries, key);
    let i = choose|i: int| 0 <= i < entries.len() && #[trigger] entries[i] == (key, entry_of(entries, key).unwrap());
    assert(entries[i].1 == entry_of(entries, key).unwrap());
}

/// The final value of a symbol (see [`symbol_address`]).
fn symbol_address_exec(
    sectview: &LinkerTransaction,
    rx: usize,
    sym: Resolved,
    Ghost(len): Ghost<nat>,
) -> (r: Result<(u64, u64, u16), CoFFRError>)
    requires
        sectview.wf(),
        entries_in_slab(sectview.entries(), len),
        rx + len <= usize::MAX,
    ensures
        r == symbol_address(sectview.entries(), rx as nat, sym),
{
    match sym {
        Resolved::Absolute(x) => Ok((x, 0, 0)),
        Resolved::Section { idx, offset } => {
            let id = match idx {
                SectionIdx::Text(id) => id,
                SectionIdx::RData(id) => id,
            };
            match sectview.get(id as u32) {
                None => Err(CoFFRError::InvalidObject),
                Some(v) => {
                    proof {
                        lemma_entry_in_slab(sectview.entries(), id as u32, len);
                    }
                    let start = rx as u64 + v.cursor as u64;
                    let value = start.wrapping_add(offset);
                    assert(value == wrap64(start + offset));
                    Ok((value, start, id as u16))
                },
            }
        },
    }
}

/// Places the symbol of each relocation (see [`resolve_relocs`]).
fn resolve_relocs_exec(
    xs: &Vec<Result<Relocation, CoFFRError>>,
    sectview: &LinkerTransaction,
    rx: usize,
    Ghost(len): Ghost<nat>,
) -> (r: Vec<Result<ResolvedRelocation, CoFFRError>>)
    requires
        sectview.wf(),
        entries_in_slab(sectview.entries(), len),
        rx + len <= usize::MAX,
    ensures
        r@ == resolve_relocs(xs@, sectview.entries(), rx as nat),
{
    let mut out: Vec<Result<ResolvedRelocation, CoFFRError>> = Vec::new();
    let mut j: usize = 0;
    while j < xs.len()
        invariant
            j <= xs.len(),
            sectview.wf(),
            entries_in_slab(sectview.entries(), len),
            rx + len <= usize::MAX,
            out@ =~= resolve_relocs(xs@, sectview.entries(), rx as nat).take(j as int),
        decreases xs.len() - j,
    {
        let item = match &xs[j] {
            Err(e) => Err(*e),
            Ok(rel) => match symbol_address_exec(sectview, rx, rel.symbol, Ghost(len)) {
                Err(e) => Err(e),
                Ok((symbol, sectionstart, sectidx)) => Ok(ResolvedRelocation {
                    typ: rel.typ,
                    sectidx,
                    position_offset: rel.position_offset,
                    sectionstart,
                    symbol,
                }),
            },
        };
        assert(item == resolve_reloc(xs@[j as int], sectview.entries(), rx as nat));
        out.push(item);
        j = j + 1;
    }
    out
}

/// Relocates one linked section where it was placed (see [`relink_all`]).
fn relink_section_exec<'d>(
    memory: &mut MemoryTransaction,
    img: &CoffImage,
    arch: Arch,
    table: &Vec<Result<Symbol<'d>, CoFFRError>>,
    sectview: &LinkerTransaction,
    rx: usize,
    base: u64,
    i: usize,
) -> (r: Result<(), CoFFRError>)
    requires
        old(memory).wf(),
        i < img.sections.len(),
        table.len() == img.symbols.len(),
        sectview.wf(),
        entries_in_slab(sectview.entries(), old(memory).memory@.bytes.len()),
        rx == old(memory).memory@.rx,
    ensures
        final(memory).wf(),
        *final(final(memory).memory) == *final(old(memory).memory),
        final(memory).total == old(memory).total,
        final(memory).cursor == old(memory).cursor,
        final(memory).writes == old(memory).writes,
        final(memory).memory@ == (SlabState { bytes: final(memory).memory@.bytes, ..old(memory).memory@ }),
        final(memory).memory@.bytes.len() == old(memory).memory@.bytes.len(),
        ({
            let sec = img.sections@[i as int];
            match entry_of(sectview.entries(), sec.header.index as u32) {
                None => r == Err::<(), CoFFRError>(CoFFRError::InvalidObject)
                    && final(memory).memory@ == old(memory).memory@,
                Some(v) => (final(memory).memory@.bytes, r) == arch_apply(
                    arch,
                    old(memory).memory@.bytes,
                    link_view(v, rx as nat),
                    base,
                    resolve_relocs(relocs_of(*img, table@, sec.relocations@), sectview.entries(), rx as nat),
                ),
            }
        }),
{
    let sec = &img.sections[i];
    let ghost len = memory.memory@.bytes.len();
    proof {
        memory.memory.lemma_wf();
    }
    let v = match sectview.get(sec.header.index as u32) {
        None => {
            return Err(CoFFRError::InvalidObject);
        },
        Some(v) => *v,
    };
    proof {
        lemma_entry_in_slab(sectview.entries(), sec.header.index as u32, len);
    }
    let raw = relocparser(img, &sec.relocations, table);
    let resolved = resolve_relocs_exec(&raw, sectview, rx, Ghost(len));
    let section = LinkSection {
        view: SectionView {
            trampolines: v.trampolines,
            len: v.len,
            trampoline: RWRXPtr { rw: v.cursor_trampolines as usize, rx: rx + v.cursor_trampolines as usize },
            data: RWRXPtr { rw: v.cursor as usize, rx: rx + v.cursor as usize },
        },
        reloc: resolved,
    };
    assert(section.view == link_view(v, rx as nat));
    let bytes = memory.memory.bytes_mut();
    match arch {
        Arch::Arm64 => crate::coffr::arch::arm64::link(base, &section, bytes),
        Arch::X64 => crate::coffr::arch::x64::link(base, &section, bytes),
        Arch::X86 => crate::coffr::arch::x86::link(base, &section, bytes),
    }
}

/// Whether the linker places a section (see [`is_linked`]).
fn is_linked_exec(sec: &CoffSection) -> (r: bool)
    ensures
        r == is_linked(*sec),
{
    let rdata = rdata_bytes();
    let text = text_bytes();
    bytes_starts_with(sec.name.as_slice(), rdata.as_slice()) || bytes_starts_with(sec.name.as_slice(), text.as_slice())
}

/// A placed section and its trampoline pool lie inside the slab.
proof fn lemma_placed_in_slab(
    img: CoffImage,
    arch: Arch,
    table: Seq<Result<Symbol, CoFFRError>>,
    s: SlabState,
    sec: CoffSection,
    s2: SlabState,
    v: CompressedSectionView,
)
    requires
        place_section(img, arch, table, s, sec) == Ok::<(SlabState, CompressedSectionView), CoFFRError>((s2, v)),
        sec.relocations.len() < u32::MAX,
    ensures
        v.cursor + v.len <= s.bytes.len(),
        v.cursor_trampolines + v.trampolines * 16 <= s.bytes.len(),
{
    let (s1, start) = write_block(s, sec.header.align as usize, sec.data@).unwrap();
    let view = check_view(s.rx, start, sec.data@.len());
    lemma_count_bound(arch, s1.bytes, view, relocs_of(img, table, sec.relocations@));
    let t = arch_template(arch);
    let n = v.trampolines as nat;
    lemma_repeat_len(t, n);
    assert(t.len() == 16 || t.len() == 0);
    assert(n * t.len() <= n * 16) by (nonlinear_arith)
        requires
            t.len() <= 16,
    ;
}

/// A section needs at most one trampoline for each of its relocations.
proof fn lemma_count_bound(
    arch: Arch,
    mem: Seq<u8>,
    view: SectionView,
    relocs: Seq<Result<Relocation, CoFFRError>>,
)
    ensures
        arch_count(arch, mem, view, relocs) matches Ok(n) ==> n <= relocs.len(),
    decreases relocs.len(),
{
    if (arch == Arch::X64 || arch == Arch::Arm64) && relocs.len() > 0 {
        lemma_count_bound(arch, mem, view, relocs.drop_first());
    }
}

proof fn lemma_entries_push(
    entries: Seq<(u32, CompressedSectionView)>,
    len: nat,
    key: u32,
    v: CompressedSectionView,
)
    requires
        entries_in_slab(entries, len),
        v.cursor + v.len <= len,
        v.cursor_trampolines + v.trampolines * 16 <= len,
    ensures
        entries_in_slab(entries.push((key, v)), len),
{
    let t = entries.push((key, v));
    assert forall|j: int| 0 <= j < t.len() implies {
        &&& (#[trigger] t[j]).1.cursor + t[j].1.len <= len
        &&& t[j].1.cursor_trampolines + t[j].1.trampolines * 16 <= len
    } by {
        if j < entries.len() {
            assert(t[j] == entries[j]);
        }
    }
}

/// Places every linked section, in order (see [`place_all`]).
fn place_sections<'d>(
    memory: &mut MemoryTransaction,
    img: &CoffImage,
    arch: Arch,
    symbols: &Vec<Result<Symbol<'d>, CoFFRError>>,
    sectview: &mut LinkerTransaction,
) -> (r: Result<(), CoFFRError>)
    requires
        old(memory).wf(),
        old(memory).memory@.stored + 2 * img.sections.len() + old(memory).total < usize::MAX,
        old(sectview).wf(),
        old(sectview).entries().len() == 0,
        symbols.len() == img.symbols.len(),
        forall|i: int| 0 <= i < img.sections.len() ==> #[trigger] img.sections@[i].relocations.len() < u32::MAX,
    ensures
        final(memory).wf(),
        *final(final(memory).memory) == *final(old(memory).memory),
        *final(final(sectview).0) == *final(old(sectview).0),
        final(memory).cursor == old(memory).cursor,
        final(memory).total == old(memory).total,
        final(memory).memory@.rx == old(memory).memory@.rx,
        final(memory).memory@.rw == old(memory).memory@.rw,
        final(memory).memory@.bytes.len() == old(memory).memory@.bytes.len(),
        final(memory).writes >= old(memory).writes,
        final(memory).memory@.stored - final(memory).writes == old(memory).memory@.stored - old(memory).writes,
        final(memory).memory@.stored + final(memory).total < usize::MAX,
        final(sectview).wf(),
        entries_in_slab(final(sectview).entries(), old(memory).memory@.bytes.len()),
        match place_all(*img, arch, symbols@, old(memory).memory@, 0, Seq::empty()) {
            Err(e) => r == Err::<(), CoFFRError>(e),
            Ok((s1, entries)) => {
                &&& r is Ok
                &&& final(memory).memory@ == s1
                &&& final(sectview).entries() == entries
            },
        },
{
    let ghost s0 = memory.memory@;
    let ghost w0 = memory.writes;
    assert(sectview.entries() =~= Seq::<(u32, CompressedSectionView)>::empty());
    let n = img.sections.len();
    let mut last: Option<u32> = None;
    let mut i: usize = 0;
    while i < n
        invariant
            i <= n,
            n == img.sections.len(),
            memory.wf(),
            *final(memory.memory) == *final(old(memory).memory),
            *final(sectview.0) == *final(old(sectview).0),
            memory.cursor == old(memory).cursor,
            memory.total == old(memory).total,
            s0 == old(memory).memory@,
            w0 == old(memory).writes,
            memory.memory@.rx == s0.rx,
            memory.memory@.rw == s0.rw,
            memory.memory@.bytes.len() == s0.bytes.len(),
            memory.writes >= w0,
            memory.memory@.stored - memory.writes == s0.stored - w0,
            memory.memory@.stored + 2 * (n - i) + memory.total < usize::MAX,
            sectview.wf(),
            entries_in_slab(sectview.entries(), s0.bytes.len()),
            last == (if sectview.entries().len() == 0 {
                None::<u32>
            } else {
                Some(sectview.entries().last().0)
            }),
            symbols.len() == img.symbols.len(),
            forall|j: int| 0 <= j < img.sections.len() ==> #[trigger] img.sections@[j].relocations.len() < u32::MAX,
            place_all(*img, arch, symbols@, s0, 0, Seq::empty())
                == place_all(*img, arch, symbols@, memory.memory@, i as nat, sectview.entries()),
        decreases n - i,
    {
        if is_linked_exec(&img.sections[i]) {
            let ghost before = memory.memory@;
            let v = place_section_exec(memory, img, arch, symbols, i)?;
            let key = img.sections[i].header.index as u32;
            match last {
                Some(l) => {
                    if l >= key {
                        return Err(CoFFRError::InvalidObject);
                    }
                },
                None => {},
            }
            proof {
                lemma_placed_in_slab(*img, arch, symbols@, before, img.sections@[i as int], memory.memory@, v);
                lemma_entries_push(sectview.entries(), s0.bytes.len(), key, v);
            }
            sectview.insert_sorted(key, v);
            last = Some(key);
        }
        i = i + 1;
    }
    Ok(())
}

/// Relocates every linked section where it was placed (see [`relink_all`]).
fn relink_sections<'d>(
    memory: &mut MemoryTransaction,
    img: &CoffImage,
    arch: Arch,
    symbols: &Vec<Result<Symbol<'d>, CoFFRError>>,
    sectview: &LinkerTransaction,
    rx: usize,
    base: u64,
) -> (r: Result<(), CoFFRError>)
    requires
        old(memory).wf(),
        symbols.len() == img.symbols.len(),
        sectview.wf(),
        entries_in_slab(sectview.entries(), old(memory).memory@.bytes.len()),
        rx == old(memory).memory@.rx,
    ensures
        final(memory).wf(),
        *final(final(memory).memory) == *final(old(memory).memory),
        final(memory).total == old(memory).total,
        final(memory).cursor == old(memory).cursor,
        final(memory).writes == old(memory).writes,
        final(memory).memory@ == (SlabState { bytes: final(memory).memory@.bytes, ..old(memory).memory@ }),
        final(memory).memory@.bytes.len() == old(memory).memory@.bytes.len(),
        (final(memory).memory@.bytes, r) == relink_all(
            *img,
            arch,
            symbols@,
            sectview.entries(),
            rx as nat,
            base,
            old(memory).memory@.bytes,
            0,
        ),
{
    let ghost s1 = memory.memory@;
    let n = img.sections.len();
    let mut i: usize = 0;
    while i < n
        invariant
            i <= n,
            n == img.sections.len(),
            memory.wf(),
            *final(memory.memory) == *final(old(memory).memory),
            memory.total == old(memory).total,
            memory.cursor == old(memory).cursor,
            memory.writes == old(memory).writes,
            s1 == old(memory).memory@,
            memory.memory@ == (SlabState { bytes: memory.memory@.bytes, ..s1 }),
            memory.memory@.bytes.len() == s1.bytes.len(),
            rx == s1.rx,
            sectview.wf(),
            entries_in_slab(sectview.entries(), s1.bytes.len()),
            symbols.len() == img.symbols.len(),
            relink_all(*img, arch, symbols@, sectview.entries(), rx as nat, base, s1.bytes, 0)
                == relink_all(*img, arch, symbols@, sectview.entries(), rx as nat, base, memory.memory@.bytes, i as nat),
        decreases n - i,
    {
        if is_linked_exec(&img.sections[i]) {
            relink_section_exec(memory, img, arch, symbols, sectview, rx, base, i)?;
        }
        i = i + 1;
    }
    Ok(())
}

/// Each symbol with its final address (see [`link_output`]).
fn link_outputs<'d>(
    symbols: &Vec<Result<Symbol<'d>, CoFFRError>>,
    sectview: &LinkerTransaction,
    rx: usize,
    Ghost(len): Ghost<nat>,
) -> (r: Vec<Result<(Name<'d>, u64), CoFFRError>>)
    requires
        sectview.wf(),
        entries_in_slab(sectview.entries(), len),
        rx + len <= usize::MAX,
    ensures
        r@ == Seq::new(symbols.len() as nat, |k: int| link_output(symbols@[k], sectview.entries(), rx as nat)),
{
    let mut out: Vec<Result<(Name<'d>, u64), CoFFRError>> = Vec::new();
    let mut k: usize = 0;
    while k < symbols.len()
        invariant
            k <= symbols.len(),
            sectview.wf(),
            entries_in_slab(sectview.entries(), len),
            rx + len <= usize::MAX,
            out@ =~= Seq::new(symbols.len() as nat, |j: int| link_output(symbols@[j], sectview.entries(), rx as nat)).take(k as int),
        decreases symbols.len() - k,
    {
        let item = match &symbols[k] {
            Err(e) => Err(*e),
            Ok(sym) => match symbol_address_exec(sectview, rx, sym.resolved, Ghost(len)) {
                Err(e) => Err(e),
                Ok((v, _, _)) => Ok((sym.name, v)),
            },
        };
        out.push(item);
        k = k + 1;
    }
    out
}

/// What a link of `img` on `arch`, with resolved symbols `table`, does to a
/// slab in state `s0` under a transaction that began at `cursor` with
/// `writes` writes and counts `total` functions: `s1` is the slab afterwards
/// and `r` the outcome. On an error, the transaction is rolled back; on
/// success it is committed and each symbol comes with its final address.
pub open spec fn link_result<'d>(
    img: CoffImage,
    arch: Arch,
    table: Seq<Result<Symbol<'d>, CoFFRError>>,
    s0: SlabState,
    cursor: usize,
    writes: usize,
    total: usize,
    s1: SlabState,
    r: Result<Vec<Result<(Name<'d>, u64), CoFFRError>>, CoFFRError>,
) -> bool {
    let rolled_back = s1.cursor == cursor && s1.stored == s0.stored - writes;
    &&& s1.rx == s0.rx
    &&& s1.rw == s0.rw
    &&& s1.bytes.len() == s0.bytes.len()
    &&& match place_all(img, arch, table, s0, 0, Seq::empty()) {
        Err(e) => r == Err::<Vec<Result<(Name<'d>, u64), CoFFRError>>, CoFFRError>(e) && rolled_back,
        Ok((placed, entries)) => {
            let (m, res) = relink_all(img, arch, table, entries, s0.rx, imagebase(s0), placed.bytes, 0);
            match res {
                Err(e) => r == Err::<Vec<Result<(Name<'d>, u64), CoFFRError>>, CoFFRError>(e) && rolled_back,
                Ok(()) => {
                    &&& r is Ok
                    &&& r.unwrap()@ == Seq::new(table.len(), |k: int| link_output(table[k], entries, s0.rx))
                    &&& s1 == (SlabState { bytes: m, stored: (placed.stored + total) as nat, ..placed })
                },
            }
        },
    }
}

/// Links an image into the slab under `memory`, on `arch`, with the symbols
/// of the image already resolved (`symbols`, one for each symbol, in order).
///
/// Each section whose name starts with `.rdata` or `.text` is written at the
/// next multiple of its alignment, followed by the trampoline pool its
/// relocations need, and recorded in `sectview` under its index (see
/// [`place_all`]). Then each such section is relocated where it went, against
/// an image base at the 64 KiB boundary below the slab's first free address
/// (see [`relink_all`]). On success the writes are committed and each symbol
/// is given with its final address (see [`link_output`]); on the first error
/// the writes are rolled back. Either way the cache is left empty.
pub fn link_binary<'d, 'm, 't>(
    memory: MemoryTransaction<'m>,
    img: &'d CoffImage,
    arch: Arch,
    symbols: &Vec<Result<Symbol<'d>, CoFFRError>>,
    sectview: LinkerTransaction<'t>,
) -> (r: Result<Vec<Result<(Name<'d>, u64), CoFFRError>>, CoFFRError>)
    requires
        memory.wf(),
        memory.memory@.stored + 2 * img.sections.len() + memory.total < usize::MAX,
        sectview.wf(),
        sectview.entries().len() == 0,
        symbols.len() == img.symbols.len(),
        forall|i: int| 0 <= i < img.sections.len() ==> #[trigger] img.sections@[i].relocations.len() < u32::MAX,
    ensures
        final(sectview.0).wf(),
        final(sectview.0)@.len() == 0,
        final(memory.memory).wf(),
        final(memory.memory)@.rx == old(memory.memory)@.rx,
        final(memory.memory)@.rw == old(memory.memory)@.rw,
        final(memory.memory)@.bytes.len() == old(memory.memory)@.bytes.len(),
        link_result(
            *img,
            arch,
            symbols@,
            old(memory.memory)@,
            memory.cursor,
            memory.writes,
            memory.total,
            final(memory.memory)@,
            r,
        ),
{
    let mut memory = memory;
    let mut sectview = sectview;
    let ghost s0 = memory.memory@;
    proof {
        memory.memory.lemma_wf();
    }
    let rx = memory.memory.base_address();
    let at = rx + memory.memory.cursor_of();
    let base = (at - at % 0x1_0000) as u64;
    assert(base == imagebase(s0));
    match place_sections(&mut memory, img, arch, symbols, &mut sectview) {
        Err(e) => {
            memory.rollback();
            sectview.finish();
            return Err(e);
        },
        Ok(()) => {},
    }
    match relink_sections(&mut memory, img, arch, symbols, &sectview, rx, base) {
        Err(e) => {
            memory.rollback();
            sectview.finish();
            return Err(e);
        },
        Ok(()) => {},
    }
    let out = link_outputs(symbols, &sectview, rx, Ghost(s0.bytes.len()));
    memory.commit();
    sectview.finish();
    Ok(out)
}

} // verus!

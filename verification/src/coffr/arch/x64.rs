//! x86-64 relocations, with trampolines for calls that do not reach.
use vstd::prelude::*;

use crate::bytes::{
    le_bytes, lemma_le_bytes_len, lemma_u32_roundtrip, lemma_u64_roundtrip, lemma_u32_write_keeps, read_u16_at, read_u32_at, read_u64_at, write_u16_at, write_u32_at, write_u64_at, read_u16,
    read_u32, read_u64, write_u16, write_u32, write_u64,
};
use crate::coffr::{CoFFRError, Resolved};
use crate::coffr::arch::{
    SectionView, ResolvedRelocation, LinkSection, CheckLinkSection, view_in_slab, site_ok, site,
    place, wrap64, wrap16, wrap_u64, wrap_u16, lemma_two_pow_values, find_slot, find_slot_exec, lemma_splice_keeps, off_sites,
};
use crate::coffr::arch::arm64::{fits_bits, within_bits};

verus! {

pub const IMAGE_REL_AMD64_ABSOLUTE: u16 = 0x0000;
pub const IMAGE_REL_AMD64_ADDR64: u16 = 0x0001;
pub const IMAGE_REL_AMD64_ADDR32: u16 = 0x0002;
pub const IMAGE_REL_AMD64_ADDR32NB: u16 = 0x0003;
pub const IMAGE_REL_AMD64_REL32: u16 = 0x0004;
pub const IMAGE_REL_AMD64_REL32_1: u16 = 0x0005;
pub const IMAGE_REL_AMD64_REL32_2: u16 = 0x0006;
pub const IMAGE_REL_AMD64_REL32_3: u16 = 0x0007;
pub const IMAGE_REL_AMD64_REL32_4: u16 = 0x0008;
pub const IMAGE_REL_AMD64_REL32_5: u16 = 0x0009;
pub const IMAGE_REL_AMD64_SECTION: u16 = 0x000A;
pub const IMAGE_REL_AMD64_SECREL: u16 = 0x000B;

/// The size of one trampoline: `nop; nop; jmp qword ptr [rip + 0]`, then the target.
pub const X64_TRAMPOLINE_SIZE: usize = 16;

/// The bytes of one trampoline, with a zero target.
pub open spec fn x64_trampoline_spec() -> Seq<u8> {
    seq![0x66u8, 0x90, 0xFF, 0x25, 0, 0, 0, 0, 0, 0, 0, 0, 0, 0, 0, 0]
}

pub fn x64_trampoline_template() -> (r: Vec<u8>)
    ensures
        r@ == x64_trampoline_spec(),
{
    let r = vec![0x66u8, 0x90, 0xFF, 0x25, 0, 0, 0, 0, 0, 0, 0, 0, 0, 0, 0, 0];
    assert(r@ =~= x64_trampoline_spec());
    r
}

/// The 32-bit relocation types that hold `S + A`, relative to something.
pub open spec fn x64_rel32_like(typ: u16) -> bool {
    ||| typ == IMAGE_REL_AMD64_ADDR32
    ||| typ == IMAGE_REL_AMD64_ADDR32NB
    ||| typ == IMAGE_REL_AMD64_REL32_1
    ||| typ == IMAGE_REL_AMD64_REL32_2
    ||| typ == IMAGE_REL_AMD64_REL32_3
    ||| typ == IMAGE_REL_AMD64_REL32_4
    ||| typ == IMAGE_REL_AMD64_REL32_5
    ||| typ == IMAGE_REL_AMD64_SECREL
}

/// The value that a 32-bit relocation stores, and whether it is signed.
pub open spec fn x64_value32(typ: u16, s: int, a: int, p: int, b: int, sect_start: int) -> (int, bool) {
    if typ == IMAGE_REL_AMD64_ADDR32 {
        (s + a, false)
    } else if typ == IMAGE_REL_AMD64_ADDR32NB {
        (s + a - b, false)
    } else if typ == IMAGE_REL_AMD64_REL32_1 {
        (s + a - (p + 5), true)
    } else if typ == IMAGE_REL_AMD64_REL32_2 {
        (s + a - (p + 6), true)
    } else if typ == IMAGE_REL_AMD64_REL32_3 {
        (s + a - (p + 7), true)
    } else if typ == IMAGE_REL_AMD64_REL32_4 {
        (s + a - (p + 8), true)
    } else if typ == IMAGE_REL_AMD64_REL32_5 {
        (s + a - (p + 9), true)
    } else {
        (s - sect_start + a, true)
    }
}

/// A `REL32` at slab offset `q` and address `p`, to `S` = `s`: the site holds
/// `S + A - (P + 4)` when that fits in 32 signed bits. Else the call goes
/// through a trampoline that jumps to `S + A`: the one already in use for that
/// target (see [`find_slot`]), or else the next free one, whose target slot is
/// then filled; the site holds the displacement to the trampoline. The result
/// is the slab and the targets of the trampolines in use (or the error).
pub open spec fn x64_rel32(
    mem: Seq<u8>,
    view: SectionView,
    q: int,
    s: int,
    p: int,
    used: Seq<u64>,
) -> (Seq<u8>, Result<Seq<u64>, CoFFRError>) {
    let sa = s + (read_u32_at(mem, q) as i32);
    let patch = sa - (p + 4);
    let t = wrap64(sa);
    if fits_bits(true, 32, patch) {
        (write_u32_at(mem, q, patch as u32), Ok(used))
    } else {
        match find_slot(used, t) {
            Some(j) => {
                let patch2 = (view.trampoline.rx + j * 16) - (p + 4);
                if fits_bits(true, 32, patch2) {
                    (write_u32_at(mem, q, patch2 as u32), Ok(used))
                } else {
                    (mem, Err(CoFFRError::RelocationOverflow(patch2 as u64, 32)))
                }
            },
            None => if used.len() >= view.trampolines {
                (mem, Err(CoFFRError::RelocationOverflow(patch as u64, 32)))
            } else {
                let m1 = write_u64_at(mem, view.trampoline.rw + used.len() * 16 + 8, t);
                let patch2 = (view.trampoline.rx + used.len() * 16) - (p + 4);
                if fits_bits(true, 32, patch2) {
                    (write_u32_at(m1, q, patch2 as u32), Ok(used.push(t)))
                } else {
                    (m1, Err(CoFFRError::RelocationOverflow(patch2 as u64, 32)))
                }
            },
        }
    }
}

/// What applying one x86-64 relocation does: the slab afterwards, and the
/// targets of the trampolines in use (or the error); `used` are those in use
/// before. A `REL32` whose target is out of reach goes through a trampoline
/// (see [`x64_rel32`]).
#[verifier::opaque]
pub open spec fn x64_patch(
    mem: Seq<u8>,
    view: SectionView,
    base: u64,
    used: Seq<u64>,
    r: ResolvedRelocation,
) -> (Seq<u8>, Result<Seq<u64>, CoFFRError>) {
    let q = site(view, r.position_offset);
    let s = (r.symbol as i64) as int;
    let p = place(view, r.position_offset);
    let b = (base as i64) as int;
    let typ = r.typ;
    if typ == IMAGE_REL_AMD64_ABSOLUTE {
        (mem, Ok(used))
    } else if !(typ == IMAGE_REL_AMD64_ADDR64 || typ == IMAGE_REL_AMD64_SECTION
        || typ == IMAGE_REL_AMD64_REL32 || x64_rel32_like(typ)) {
        (mem, Err(CoFFRError::UnknownRelocation(typ)))
    } else if typ == IMAGE_REL_AMD64_ADDR64 {
        if !site_ok(view, r.position_offset, 8) {
            (mem, Err(CoFFRError::InvalidObject))
        } else {
            let a = (read_u64_at(mem, q) as i64) as int;
            (write_u64_at(mem, q, wrap64(s + a)), Ok(used))
        }
    } else if typ == IMAGE_REL_AMD64_SECTION {
        if !site_ok(view, r.position_offset, 2) {
            (mem, Err(CoFFRError::InvalidObject))
        } else {
            (write_u16_at(mem, q, wrap16(r.sectidx + read_u16_at(mem, q))), Ok(used))
        }
    } else if !site_ok(view, r.position_offset, 4) {
        (mem, Err(CoFFRError::InvalidObject))
    } else if typ == IMAGE_REL_AMD64_REL32 {
        x64_rel32(mem, view, q, s, p, used)
    } else {
        let a = (read_u32_at(mem, q) as i32) as int;
        let (v, signed) = x64_value32(typ, s, a, p, b, (r.sectionstart as i64) as int);
        if fits_bits(signed, 32, v) {
            (write_u32_at(mem, q, v as u32), Ok(used))
        } else {
            (mem, Err(CoFFRError::RelocationOverflow(v as u64, 32)))
        }
    }
}

/// Applying the relocations in order, with the trampolines whose targets are
/// `used` already in use.
pub open spec fn x64_apply(
    mem: Seq<u8>,
    view: SectionView,
    base: u64,
    used: Seq<u64>,
    relocs: Seq<Result<ResolvedRelocation, CoFFRError>>,
) -> (Seq<u8>, Result<(), CoFFRError>)
    decreases relocs.len(),
{
    if relocs.len() == 0 {
        (mem, Ok(()))
    } else {
        match relocs[0] {
            Err(e) => (mem, Err(e)),
            Ok(r) => {
                let (m, res) = x64_patch(mem, view, base, used, r);
                match res {
                    Err(e) => (m, Err(e)),
                    Ok(u) => x64_apply(m, view, base, u, relocs.drop_first()),
                }
            },
        }
    }
}

/// Whether a relocation will need a trampoline: a `REL32` to an absolute
/// symbol whose displacement `S + A - (P + 4)` is outside the signed 32-bit
/// range.
pub open spec fn x64_needs_trampoline(mem: Seq<u8>, view: SectionView, r: crate::coffr::Relocation) -> Result<nat, CoFFRError> {
    match r.symbol {
        Resolved::Absolute(dt) => if r.typ != IMAGE_REL_AMD64_REL32 {
            Ok(0)
        } else if !site_ok(view, r.position_offset, 4) {
            Err(CoFFRError::InvalidObject)
        } else {
            let patch = (dt as i64) as int + (read_u32_at(mem, site(view, r.position_offset)) as i32) as int
                - (place(view, r.position_offset) + 4);
            if fits_bits(true, 32, patch) {
                Ok(0)
            } else {
                Ok(1)
            }
        },
        _ => Ok(0),
    }
}

/// The number of trampolines a section needs, or the first error.
pub open spec fn x64_count(
    mem: Seq<u8>,
    view: SectionView,
    relocs: Seq<Result<crate::coffr::Relocation, CoFFRError>>,
) -> Result<nat, CoFFRError>
    decreases relocs.len(),
{
    if relocs.len() == 0 {
        Ok(0)
    } else {
        match relocs[0] {
            Err(e) => Err(e),
            Ok(r) => match x64_needs_trampoline(mem, view, r) {
                Err(e) => Err(e),
                Ok(c) => match x64_count(mem, view, relocs.drop_first()) {
                    Err(e) => Err(e),
                    Ok(n) => Ok(c + n),
                },
            },
        }
    }
}

/// Counts the trampolines that a section needs, and gives their template.
pub fn count_trampolines(section: &CheckLinkSection, mem: &Vec<u8>) -> (r: Result<(u32, Vec<u8>), CoFFRError>)
    requires
        view_in_slab(section.view, mem.len() as nat),
        section.reloc.len() < u32::MAX,
    ensures
        match x64_count(mem@, section.view, section.reloc@) {
            Ok(n) => r is Ok && r.unwrap().0 == n && r.unwrap().1@ == x64_trampoline_spec(),
            Err(e) => r == Err::<(u32, Vec<u8>), CoFFRError>(e),
        },
{
    let view = section.view;
    let n = section.reloc.len();
    let mut i: usize = 0;
    let mut count: u32 = 0;
    assert(section.reloc@.skip(0) =~= section.reloc@);
    while i < n
        invariant
            i <= n,
            n == section.reloc.len(),
            n < u32::MAX,
            view == section.view,
            view_in_slab(view, mem.len() as nat),
            count <= i,
            x64_count(mem@, view, section.reloc@) == (match x64_count(mem@, view, section.reloc@.skip(i as int)) {
                Ok(k) => Ok::<nat, CoFFRError>(count as nat + k),
                Err(e) => Err(e),
            }),
        decreases n - i,
    {
        let ghost rest = section.reloc@.skip(i as int);
        assert(rest.drop_first() =~= section.reloc@.skip(i + 1));
        assert(rest[0] == section.reloc@[i as int]);
        let mut c: u32 = 0;
        match &section.reloc[i] {
            Err(e) => {
                return Err(*e);
            },
            Ok(rel) => {
                match rel.symbol {
                    Resolved::Absolute(dt) => {
                        if rel.typ == IMAGE_REL_AMD64_REL32 {
                            if rel.position_offset > view.len as u64 || 4 > view.len as u64 - rel.position_offset {
                                return Err(CoFFRError::InvalidObject);
                            }
                            let a = read_u32(mem, view.data.rw + rel.position_offset as usize) as i32;
                            let p: i128 = (view.data.rx as i64) as i128 + (rel.position_offset as i64) as i128;
                            let patch: i128 = (dt as i64) as i128 + a as i128 - (p + 4);
                            proof {
                                lemma_two_pow_values();
                            }
                            if within_bits(true, 32, patch).is_err() {
                                c = 1;
                            }
                        }
                    },
                    _ => {},
                }
            },
        }
        count = count + c;
        i = i + 1;
    }
    assert(section.reloc@.skip(n as int) =~= Seq::<Result<crate::coffr::Relocation, CoFFRError>>::empty());
    Ok((count, x64_trampoline_template()))
}

fn rel32_exec(
    mem: &mut Vec<u8>,
    view: SectionView,
    q: usize,
    s: i128,
    p: i128,
    used: &mut Vec<u64>,
) -> (res: Result<(), CoFFRError>)
    requires
        view_in_slab(view, old(mem).len() as nat),
        old(used).len() <= view.trampolines,
        q + 4 <= old(mem).len(),
        -0x1_0000_0000_0000_0000 <= s <= 0x1_0000_0000_0000_0000,
        -0x1_0000_0000_0000_0000 <= p <= 0x1_0000_0000_0000_0000,
    ensures
        final(mem)@.len() == old(mem)@.len(),
        final(used).len() <= view.trampolines,
        final(mem)@ == x64_rel32(old(mem)@, view, q as int, s as int, p as int, old(used)@).0,
        match x64_rel32(old(mem)@, view, q as int, s as int, p as int, old(used)@).1 {
            Ok(u) => res is Ok && final(used)@ == u,
            Err(e) => res == Err::<(), CoFFRError>(e),
        },
{
    proof {
        lemma_two_pow_values();
    }
    let a = read_u32(mem, q) as i32;
    let sa: i128 = s + a as i128;
    let patch: i128 = sa - (p + 4);
    if within_bits(true, 32, patch).is_ok() {
        write_u32(mem, q, patch as u32);
        return Ok(());
    }
    let t = wrap_u64(sa);
    match find_slot_exec(used, t) {
        Some(j) => {
            let target: i128 = (view.trampoline.rx + j * 16) as i128;
            let patch2: i128 = target - (p + 4);
            within_bits(true, 32, patch2)?;
            write_u32(mem, q, patch2 as u32);
            Ok(())
        },
        None => {
            let n = used.len();
            if n >= view.trampolines as usize {
                return Err(CoFFRError::RelocationOverflow(patch as u64, 32));
            }
            write_u64(mem, view.trampoline.rw + n * 16 + 8, t);
            let target: i128 = (view.trampoline.rx + n * 16) as i128;
            let patch2: i128 = target - (p + 4);
            within_bits(true, 32, patch2)?;
            write_u32(mem, q, patch2 as u32);
            used.push(t);
            Ok(())
        },
    }
}

fn patch_exec(
    mem: &mut Vec<u8>,
    view: SectionView,
    base: u64,
    used: &mut Vec<u64>,
    r: ResolvedRelocation,
) -> (res: Result<(), CoFFRError>)
    requires
        view_in_slab(view, old(mem).len() as nat),
        old(used).len() <= view.trampolines,
    ensures
        final(mem)@.len() == old(mem)@.len(),
        final(used).len() <= view.trampolines,
        final(mem)@ == x64_patch(old(mem)@, view, base, old(used)@, r).0,
        match x64_patch(old(mem)@, view, base, old(used)@, r).1 {
            Ok(u) => res is Ok && final(used)@ == u,
            Err(e) => res == Err::<(), CoFFRError>(e),
        },
{
    reveal(x64_patch);
    let typ = r.typ;
    if typ == IMAGE_REL_AMD64_ABSOLUTE {
        return Ok(());
    }
    let rel32_like = typ == IMAGE_REL_AMD64_ADDR32 || typ == IMAGE_REL_AMD64_ADDR32NB
        || typ == IMAGE_REL_AMD64_REL32_1 || typ == IMAGE_REL_AMD64_REL32_2
        || typ == IMAGE_REL_AMD64_REL32_3 || typ == IMAGE_REL_AMD64_REL32_4
        || typ == IMAGE_REL_AMD64_REL32_5 || typ == IMAGE_REL_AMD64_SECREL;
    if !(typ == IMAGE_REL_AMD64_ADDR64 || typ == IMAGE_REL_AMD64_SECTION
        || typ == IMAGE_REL_AMD64_REL32 || rel32_like) {
        return Err(CoFFRError::UnknownRelocation(typ));
    }
    let width: u64 = if typ == IMAGE_REL_AMD64_ADDR64 {
        8
    } else if typ == IMAGE_REL_AMD64_SECTION {
        2
    } else {
        4
    };
    if r.position_offset > view.len as u64 || width > view.len as u64 - r.position_offset {
        return Err(CoFFRError::InvalidObject);
    }
    let q: usize = view.data.rw + r.position_offset as usize;
    let s: i128 = (r.symbol as i64) as i128;
    let p: i128 = (view.data.rx as i64) as i128 + (r.position_offset as i64) as i128;
    let b: i128 = (base as i64) as i128;
    if typ == IMAGE_REL_AMD64_ADDR64 {
        let a = read_u64(mem, q) as i64;
        write_u64(mem, q, wrap_u64(s + a as i128));
        Ok(())
    } else if typ == IMAGE_REL_AMD64_SECTION {
        let a = read_u16(mem, q);
        write_u16(mem, q, wrap_u16(r.sectidx as i128 + a as i128));
        Ok(())
    } else if typ == IMAGE_REL_AMD64_REL32 {
        rel32_exec(mem, view, q, s, p, used)
    } else {
        let a = read_u32(mem, q) as i32;
        let a: i128 = a as i128;
        let sect_start: i128 = (r.sectionstart as i64) as i128;
        let (v, signed): (i128, bool) = if typ == IMAGE_REL_AMD64_ADDR32 {
            (s + a, false)
        } else if typ == IMAGE_REL_AMD64_ADDR32NB {
            (s + a - b, false)
        } else if typ == IMAGE_REL_AMD64_REL32_1 {
            (s + a - (p + 5), true)
        } else if typ == IMAGE_REL_AMD64_REL32_2 {
            (s + a - (p + 6), true)
        } else if typ == IMAGE_REL_AMD64_REL32_3 {
            (s + a - (p + 7), true)
        } else if typ == IMAGE_REL_AMD64_REL32_4 {
            (s + a - (p + 8), true)
        } else if typ == IMAGE_REL_AMD64_REL32_5 {
            (s + a - (p + 9), true)
        } else {
            (s - sect_start + a, true)
        };
        proof {
            lemma_two_pow_values();
        }
        within_bits(signed, 32, v)?;
        write_u32(mem, q, v as u32);
        Ok(())
    }
}

/// Applies the relocations of a placed section in order, sending calls that
/// do not reach through the section's trampolines, one for each target;
/// stops at the first error.
pub fn link(base: u64, section: &LinkSection, mem: &mut Vec<u8>) -> (r: Result<(), CoFFRError>)
    requires
        view_in_slab(section.view, old(mem).len() as nat),
    ensures
        final(mem)@.len() == old(mem)@.len(),
        (final(mem)@, r) == x64_apply(old(mem)@, section.view, base, Seq::empty(), section.reloc@),
        forall|k: int| 0 <= k < old(mem)@.len() && off_sites(section.view, section.reloc@, k)
            ==> #[trigger] final(mem)@[k] == old(mem)@[k],
{
    proof {
        assert forall|k: int| 0 <= k < old(mem)@.len() && off_sites(section.view, section.reloc@, k)
            implies x64_apply(old(mem)@, section.view, base, Seq::empty(), section.reloc@).0[k] == old(mem)@[k] by {
            law_x64_frame(old(mem)@, section.view, base, Seq::empty(), section.reloc@, k);
        }
    }
    let view = section.view;
    let ghost m0 = mem@;
    let mut i: usize = 0;
    let mut used: Vec<u64> = Vec::new();
    assert(section.reloc@.skip(0) =~= section.reloc@);
    assert(used@ =~= Seq::<u64>::empty());
    while i < section.reloc.len()
        invariant
            i <= section.reloc.len(),
            m0 == old(mem)@,
            mem@.len() == m0.len(),
            view == section.view,
            view_in_slab(view, mem@.len() as nat),
            used.len() <= view.trampolines,
            forall|k: int| 0 <= k < m0.len() && off_sites(view, section.reloc@, k)
                ==> #[trigger] x64_apply(m0, view, base, Seq::empty(), section.reloc@).0[k] == m0[k],
            x64_apply(m0, view, base, Seq::empty(), section.reloc@) == x64_apply(
                mem@,
                view,
                base,
                used@,
                section.reloc@.skip(i as int),
            ),
        decreases section.reloc.len() - i,
    {
        let ghost rest = section.reloc@.skip(i as int);
        assert(rest.drop_first() =~= section.reloc@.skip(i + 1));
        assert(rest[0] == section.reloc@[i as int]);
        match &section.reloc[i] {
            Err(e) => {
                assert(x64_apply(m0, view, base, Seq::empty(), section.reloc@) == (mem@, Err::<(), CoFFRError>(*e)));
                assert(mem@ == x64_apply(m0, view, base, Seq::empty(), section.reloc@).0);
                return Err(*e);
            },
            Ok(rel) => {
                let ghost before = mem@;
                let ghost ubefore = used@;
                let res = patch_exec(mem, view, base, &mut used, *rel);
                match res {
                    Err(e) => {
                        assert(x64_apply(before, view, base, ubefore, rest) == (mem@, Err::<(), CoFFRError>(e)));
                        return Err(e);
                    },
                    Ok(()) => {
                        assert(x64_apply(before, view, base, ubefore, rest) == x64_apply(
                            mem@, view, base, used@, section.reloc@.skip(i + 1)));
                    },
                }
            },
        }
        i = i + 1;
    }
    assert(section.reloc@.skip(i as int) =~= Seq::<Result<ResolvedRelocation, CoFFRError>>::empty());
    Ok(())
}

/// A `REL32` whose target `S + A` is out of the signed 32-bit reach of its
/// site, and for which no trampoline is in use yet, goes through the next
/// free trampoline: the trampoline's target slot then holds `S + A`, the site
/// holds the displacement to the trampoline, and the trampoline is in use for
/// that target.
pub proof fn law_x64_trampoline(mem: Seq<u8>, view: SectionView, base: u64, used: Seq<u64>, r: ResolvedRelocation)
    requires
        r.typ == IMAGE_REL_AMD64_REL32,
        view_in_slab(view, mem.len()),
        site_ok(view, r.position_offset, 4),
        used.len() < view.trampolines,
        !fits_bits(
            true,
            32,
            (r.symbol as i64) as int + (read_u32_at(mem, site(view, r.position_offset)) as i32) - (place(view, r.position_offset) + 4),
        ),
        find_slot(used, wrap64((r.symbol as i64) as int + (read_u32_at(mem, site(view, r.position_offset)) as i32))) is None,
        fits_bits(true, 32, (view.trampoline.rx + used.len() * 16) - (place(view, r.position_offset) + 4)),
        view.trampoline.rw + used.len() * 16 + 16 <= site(view, r.position_offset)
            || site(view, r.position_offset) + 4 <= view.trampoline.rw + used.len() * 16 + 8,
    ensures
        ({
            let q = site(view, r.position_offset);
            let sa = (r.symbol as i64) as int + (read_u32_at(mem, q) as i32);
            let slot = view.trampoline.rw + used.len() * 16 + 8;
            let (m, res) = x64_patch(mem, view, base, used, r);
            &&& res == Ok::<Seq<u64>, CoFFRError>(used.push(wrap64(sa)))
            &&& read_u64_at(m, slot) == wrap64(sa)
            &&& read_u32_at(m, q) == ((view.trampoline.rx + used.len() * 16) - (place(view, r.position_offset) + 4)) as u32
        }),
{
    reveal(x64_patch);
    let q = site(view, r.position_offset);
    let sa = (r.symbol as i64) as int + (read_u32_at(mem, q) as i32);
    let slot = view.trampoline.rw + used.len() * 16 + 8;
    let patch2 = (view.trampoline.rx + used.len() * 16) - (place(view, r.position_offset) + 4);
    assert(slot + 8 <= mem.len()) by (nonlinear_arith)
        requires
            slot == view.trampoline.rw + used.len() * 16 + 8,
            view.trampoline.rw + view.trampolines * 16 <= mem.len(),
            used.len() < view.trampolines,
    ;
    let m1 = write_u64_at(mem, slot, wrap64(sa));
    lemma_u64_roundtrip(mem, slot, wrap64(sa));
    lemma_u32_roundtrip(m1, q, patch2 as u32);
    lemma_u32_write_keeps(m1, q, patch2 as u32, slot, 8);
}

/// Trampolines are shared: a `REL32` out of reach to a target for which a
/// trampoline is already in use goes through that trampoline. Only the site
/// is written, with the displacement to it, and no more trampolines are in
/// use.
pub proof fn law_x64_shared_trampoline(mem: Seq<u8>, view: SectionView, base: u64, used: Seq<u64>, r: ResolvedRelocation, j: nat)
    requires
        r.typ == IMAGE_REL_AMD64_REL32,
        view_in_slab(view, mem.len()),
        site_ok(view, r.position_offset, 4),
        !fits_bits(
            true,
            32,
            (r.symbol as i64) as int + (read_u32_at(mem, site(view, r.position_offset)) as i32) - (place(view, r.position_offset) + 4),
        ),
        find_slot(used, wrap64((r.symbol as i64) as int + (read_u32_at(mem, site(view, r.position_offset)) as i32))) == Some(j),
        fits_bits(true, 32, (view.trampoline.rx + j * 16) - (place(view, r.position_offset) + 4)),
    ensures
        x64_patch(mem, view, base, used, r) == (
            write_u32_at(
                mem,
                site(view, r.position_offset),
                ((view.trampoline.rx + j * 16) - (place(view, r.position_offset) + 4)) as u32,
            ),
            Ok::<Seq<u64>, CoFFRError>(used),
        ),
{
    reveal(x64_patch);
}

/// The trampolines in use stay within the pool: applying relocations with at
/// most as many trampolines in use as the pool has never uses more.
proof fn lemma_x64_patch_used(mem: Seq<u8>, view: SectionView, base: u64, used: Seq<u64>, r: ResolvedRelocation)
    requires
        used.len() <= view.trampolines,
    ensures
        x64_patch(mem, view, base, used, r).1 matches Ok(u) ==> u.len() <= view.trampolines,
{
    reveal(x64_patch);
}

/// The x86-64 relocator writes only inside the section and its trampoline
/// pool: applying a section's relocations, from any number of trampolines in
/// use up to the pool's size, leaves every other byte of the slab as it was.
pub proof fn law_x64_writes_inside(
    mem: Seq<u8>,
    view: SectionView,
    base: u64,
    used: Seq<u64>,
    relocs: Seq<Result<ResolvedRelocation, CoFFRError>>,
    k: int,
)
    requires
        view_in_slab(view, mem.len()),
        used.len() <= view.trampolines,
        0 <= k < mem.len(),
        !(view.data.rw <= k < view.data.rw + view.len),
        !(view.trampoline.rw <= k < view.trampoline.rw + view.trampolines * 16),
    ensures
        x64_apply(mem, view, base, used, relocs).0.len() == mem.len(),
        x64_apply(mem, view, base, used, relocs).0[k] == mem[k],
    decreases relocs.len(),
{
    if relocs.len() > 0 {
        if let Ok(r) = relocs[0] {
            lemma_x64_patch_keeps(mem, view, base, used, r, k);
            lemma_x64_patch_used(mem, view, base, used, r);
            let (m, res) = x64_patch(mem, view, base, used, r);
            if let Ok(u) = res {
                law_x64_writes_inside(m, view, base, u, relocs.drop_first(), k);
            }
        }
    }
}

/// One relocation writes only inside its site (within the section) and the
/// trampoline pool.
proof fn lemma_x64_patch_keeps(mem: Seq<u8>, view: SectionView, base: u64, used: Seq<u64>, r: ResolvedRelocation, k: int)
    requires
        view_in_slab(view, mem.len()),
        used.len() <= view.trampolines,
        0 <= k < mem.len(),
        !(view.data.rw <= k < view.data.rw + view.len)
            || !(site(view, r.position_offset) <= k < site(view, r.position_offset) + 8),
        !(view.trampoline.rw <= k < view.trampoline.rw + view.trampolines * 16),
    ensures
        x64_patch(mem, view, base, used, r).0.len() == mem.len(),
        x64_patch(mem, view, base, used, r).0[k] == mem[k],
{
    reveal(x64_patch);
    let q = site(view, r.position_offset);
    lemma_le_bytes_len(0, 2);
    assert forall|v: nat, n: nat| #[trigger] le_bytes(v, n).len() == n by {
        lemma_le_bytes_len(v, n);
    }
    if site_ok(view, r.position_offset, 8) {
        lemma_splice_keeps(mem, q, le_bytes(0, 8), k);
    }
    if r.typ == IMAGE_REL_AMD64_REL32 && site_ok(view, r.position_offset, 4) {
        let s = (r.symbol as i64) as int;
        let p = place(view, r.position_offset);
        let sa = s + (read_u32_at(mem, q) as i32);
        let t = wrap64(sa);
        if find_slot(used, t) is None && used.len() < view.trampolines {
            let slot = view.trampoline.rw + used.len() * 16 + 8;
            assert(slot + 8 <= view.trampoline.rw + view.trampolines * 16) by (nonlinear_arith)
                requires
                    slot == view.trampoline.rw + used.len() * 16 + 8,
                    used.len() < view.trampolines,
            ;
            let m1 = write_u64_at(mem, slot, t);
            lemma_splice_keeps(mem, slot, le_bytes(t as nat, 8), k);
            lemma_splice_keeps(m1, q, le_bytes(0, 4), k);
        }
    }
}

/// The x86-64 relocator writes only at the relocations' sites and in the
/// trampoline pool: applying relocations, from any number of trampolines in
/// use up to the pool's size, leaves every byte off the sites (see
/// [`off_sites`]) as it was.
pub proof fn law_x64_frame(
    mem: Seq<u8>,
    view: SectionView,
    base: u64,
    used: Seq<u64>,
    relocs: Seq<Result<ResolvedRelocation, CoFFRError>>,
    k: int,
)
    requires
        view_in_slab(view, mem.len()),
        used.len() <= view.trampolines,
        0 <= k < mem.len(),
        off_sites(view, relocs, k),
    ensures
        x64_apply(mem, view, base, used, relocs).0.len() == mem.len(),
        x64_apply(mem, view, base, used, relocs).0[k] == mem[k],
    decreases relocs.len(),
{
    if relocs.len() > 0 {
        if let Ok(r) = relocs[0] {
            assert(relocs[0] is Ok);
            lemma_x64_patch_keeps(mem, view, base, used, r, k);
            lemma_x64_patch_used(mem, view, base, used, r);
            let (m, res) = x64_patch(mem, view, base, used, r);
            if let Ok(u) = res {
                let rest = relocs.drop_first();
                assert forall|i: int| 0 <= i < rest.len() && (#[trigger] rest[i]) is Ok implies !(
                    site(view, rest[i]->Ok_0.position_offset) <= k < site(view, rest[i]->Ok_0.position_offset) + 8) by {
                    assert(rest[i] == relocs[i + 1]);
                }
                law_x64_frame(m, view, base, u, rest, k);
            }
        }
    }
}

/// A `REL32_k` relocation (`k` from 1 to 5: `k` bytes of the instruction
/// follow the 32-bit field) stores the displacement from the end of the
/// instruction, `S + A - (P + 4 + k)`, as a signed 32-bit value, with `A` the
/// signed value that was at the site; it fails with an overflow when the
/// displacement does not fit in 32 signed bits. It uses no trampoline.
pub proof fn law_x64_rel32_k(mem: Seq<u8>, view: SectionView, base: u64, used: Seq<u64>, r: ResolvedRelocation)
    requires
        IMAGE_REL_AMD64_REL32_1 <= r.typ <= IMAGE_REL_AMD64_REL32_5,
        view_in_slab(view, mem.len()),
        site_ok(view, r.position_offset, 4),
    ensures
        ({
            let q = site(view, r.position_offset);
            let k = r.typ - IMAGE_REL_AMD64_REL32;
            let a = (read_u32_at(mem, q) as i32) as int;
            let v = (r.symbol as i64) as int + a - (place(view, r.position_offset) + 4 + k);
            let (m, res) = x64_patch(mem, view, base, used, r);
            &&& -0x8000_0000 <= v <= 0x7FFF_FFFF ==> {
                &&& res == Ok::<Seq<u64>, CoFFRError>(used)
                &&& m.len() == mem.len()
                &&& (read_u32_at(m, q) as i32) as int == v
            }
            &&& !(-0x8000_0000 <= v <= 0x7FFF_FFFF) ==> res == Err::<Seq<u64>, CoFFRError>(
                CoFFRError::RelocationOverflow(v as u64, 32),
            )
        }),
{
    reveal(x64_patch);
    lemma_two_pow_values();
    let q = site(view, r.position_offset);
    let k = r.typ - IMAGE_REL_AMD64_REL32;
    let a = (read_u32_at(mem, q) as i32) as int;
    let v = (r.symbol as i64) as int + a - (place(view, r.position_offset) + 4 + k);
    assert(x64_value32(r.typ, (r.symbol as i64) as int, a, place(view, r.position_offset), (base as i64) as int,
        (r.sectionstart as i64) as int) == (v, true));
    if -0x8000_0000 <= v <= 0x7FFF_FFFF {
        lemma_u32_roundtrip(mem, q, v as u32);
        let vi = v as i64;
        assert(vi == v);
        assert(((vi as u32) as i32) as i64 == vi) by (bit_vector)
            requires
                -0x8000_0000 <= vi < 0x8000_0000,
        ;
        assert((v as u32) == (vi as u32));
    }
}

/// The 32-bit relocations that store an address (`ADDR32`: `S + A`;
/// `ADDR32NB`: `S + A` less the image base `B`; `SECREL`: `S + A` less the
/// start of the symbol's section) store that value at the site, with `A` the
/// signed value that was there, when it fits (in 32 unsigned bits for the
/// first two, 32 signed bits for `SECREL`); else they fail with an overflow.
pub proof fn law_x64_addr32(mem: Seq<u8>, view: SectionView, base: u64, used: Seq<u64>, r: ResolvedRelocation)
    requires
        r.typ == IMAGE_REL_AMD64_ADDR32 || r.typ == IMAGE_REL_AMD64_ADDR32NB || r.typ == IMAGE_REL_AMD64_SECREL,
        view_in_slab(view, mem.len()),
        site_ok(view, r.position_offset, 4),
    ensures
        ({
            let q = site(view, r.position_offset);
            let sa = (r.symbol as i64) as int + (read_u32_at(mem, q) as i32) as int;
            let v = if r.typ == IMAGE_REL_AMD64_ADDR32 {
                sa
            } else if r.typ == IMAGE_REL_AMD64_ADDR32NB {
                sa - (base as i64) as int
            } else {
                sa - (r.sectionstart as i64) as int
            };
            let ok = if r.typ == IMAGE_REL_AMD64_SECREL {
                -0x8000_0000 <= v <= 0x7FFF_FFFF
            } else {
                0 <= v <= 0xFFFF_FFFF
            };
            let (m, res) = x64_patch(mem, view, base, used, r);
            &&& ok ==> res == Ok::<Seq<u64>, CoFFRError>(used) && m.len() == mem.len()
                && read_u32_at(m, q) as int == (if v < 0 { v + 0x1_0000_0000 } else { v })
            &&& !ok ==> res == Err::<Seq<u64>, CoFFRError>(CoFFRError::RelocationOverflow(v as u64, 32))
        }),
{
    reveal(x64_patch);
    lemma_two_pow_values();
    let q = site(view, r.position_offset);
    let sa = (r.symbol as i64) as int + (read_u32_at(mem, q) as i32) as int;
    let v = if r.typ == IMAGE_REL_AMD64_ADDR32 {
        sa
    } else if r.typ == IMAGE_REL_AMD64_ADDR32NB {
        sa - (base as i64) as int
    } else {
        sa - (r.sectionstart as i64) as int
    };
    if -0x8000_0000 <= v <= 0xFFFF_FFFF {
        lemma_u32_roundtrip(mem, q, v as u32);
        let vi = v as i64;
        assert(vi == v);
        assert(vi < 0 ==> (vi as u32) as int == vi + 0x1_0000_0000) by (bit_vector)
            requires
                -0x8000_0000 <= vi <= 0xFFFF_FFFF,
        ;
        assert(vi >= 0 ==> (vi as u32) as int == vi) by (bit_vector)
            requires
                -0x8000_0000 <= vi <= 0xFFFF_FFFF,
        ;
        assert((v as u32) == (vi as u32));
    }
}

/// A `REL32` whose target `S + A` is in reach of its site stores the
/// displacement from the end of the field, `S + A - (P + 4)`, and uses no
/// trampoline.
pub proof fn law_x64_rel32_near(mem: Seq<u8>, view: SectionView, base: u64, used: Seq<u64>, r: ResolvedRelocation)
    requires
        r.typ == IMAGE_REL_AMD64_REL32,
        view_in_slab(view, mem.len()),
        site_ok(view, r.position_offset, 4),
        ({
            let q = site(view, r.position_offset);
            let v = (r.symbol as i64) as int + (read_u32_at(mem, q) as i32) as int - (place(view, r.position_offset) + 4);
            -0x8000_0000 <= v <= 0x7FFF_FFFF
        }),
    ensures
        ({
            let q = site(view, r.position_offset);
            let v = (r.symbol as i64) as int + (read_u32_at(mem, q) as i32) as int - (place(view, r.position_offset) + 4);
            let (m, res) = x64_patch(mem, view, base, used, r);
            &&& res == Ok::<Seq<u64>, CoFFRError>(used)
            &&& m.len() == mem.len()
            &&& (read_u32_at(m, q) as i32) as int == v
        }),
{
    reveal(x64_patch);
    lemma_two_pow_values();
    let q = site(view, r.position_offset);
    let v = (r.symbol as i64) as int + (read_u32_at(mem, q) as i32) as int - (place(view, r.position_offset) + 4);
    lemma_u32_roundtrip(mem, q, v as u32);
    let vi = v as i64;
    assert(vi == v);
    assert(((vi as u32) as i32) as i64 == vi) by (bit_vector)
        requires
            -0x8000_0000 <= vi < 0x8000_0000,
    ;
    assert((v as u32) == (vi as u32));
}

/// An `ADDR64` stores `S + A` modulo `2^64`, with `A` the value that was at
/// the site; a `SECTION` adds the symbol's section number to the 16-bit value
/// at the site, modulo `2^16`. Neither can fail on a site inside the section.
pub proof fn law_x64_addr64_section(mem: Seq<u8>, view: SectionView, base: u64, used: Seq<u64>, r: ResolvedRelocation)
    requires
        view_in_slab(view, mem.len()),
    ensures
        ({
            let q = site(view, r.position_offset);
            let (m, res) = x64_patch(mem, view, base, used, r);
            &&& r.typ == IMAGE_REL_AMD64_ADDR64 && site_ok(view, r.position_offset, 8) ==> {
                &&& res == Ok::<Seq<u64>, CoFFRError>(used)
                &&& read_u64_at(m, q) as int == (r.symbol as int + read_u64_at(mem, q) as int) % 0x1_0000_0000_0000_0000
            }
            &&& r.typ == IMAGE_REL_AMD64_SECTION && site_ok(view, r.position_offset, 2) ==> {
                &&& res == Ok::<Seq<u64>, CoFFRError>(used)
                &&& read_u16_at(m, q) as int == (r.sectidx as int + read_u16_at(mem, q) as int) % 0x1_0000
            }
        }),
{
    reveal(x64_patch);
    let q = site(view, r.position_offset);
    let s = (r.symbol as i64) as int;
    if r.typ == IMAGE_REL_AMD64_ADDR64 && site_ok(view, r.position_offset, 8) {
        let a = (read_u64_at(mem, q) as i64) as int;
        lemma_u64_roundtrip(mem, q, wrap64(s + a));
        let sym = r.symbol;
        let old = read_u64_at(mem, q);
        assert(((sym as i64) as int + (old as i64) as int) % 0x1_0000_0000_0000_0000
            == (sym as int + old as int) % 0x1_0000_0000_0000_0000) by (bit_vector);
    }
    if r.typ == IMAGE_REL_AMD64_SECTION && site_ok(view, r.position_offset, 2) {
        crate::bytes::lemma_u16_roundtrip(mem, q, wrap16(r.sectidx + read_u16_at(mem, q)));
    }
}

} // verus!

//! i386 relocations.
use vstd::prelude::*;

use crate::bytes::{read_u16_at, read_u32_at, write_u16_at, write_u32_at, read_u16, read_u32, write_u16, write_u32};
use crate::coffr::CoFFRError;
use crate::coffr::arch::{
    SectionView, ResolvedRelocation, LinkSection, view_in_slab, site_ok, site, place, wrap32,
    wrap16, wrap_u32, wrap_u16, off_sites,
};

verus! {

pub const IMAGE_REL_I386_ABSOLUTE: u16 = 0x0000;
pub const IMAGE_REL_I386_DIR16: u16 = 0x0001;
pub const IMAGE_REL_I386_REL16: u16 = 0x0002;
pub const IMAGE_REL_I386_DIR32: u16 = 0x0006;
pub const IMAGE_REL_I386_DIR32NB: u16 = 0x0007;
pub const IMAGE_REL_I386_SEG12: u16 = 0x0009;
pub const IMAGE_REL_I386_SECTION: u16 = 0x000A;
pub const IMAGE_REL_I386_SECREL: u16 = 0x000B;
pub const IMAGE_REL_I386_TOKEN: u16 = 0x000C;
pub const IMAGE_REL_I386_SECREL7: u16 = 0x000D;
pub const IMAGE_REL_I386_REL32: u16 = 0x0014;

/// What applying one i386 relocation does to the slab. The 32-bit values are
/// stored modulo `2^32`, without a range check.
#[verifier::opaque]
pub open spec fn x86_patch(
    mem: Seq<u8>,
    view: SectionView,
    base: u64,
    r: ResolvedRelocation,
) -> Result<Seq<u8>, CoFFRError> {
    let q = site(view, r.position_offset);
    let s = (r.symbol as i64) as int;
    let p = place(view, r.position_offset);
    let b = (base as i64) as int;
    let typ = r.typ;
    if typ == IMAGE_REL_I386_ABSOLUTE {
        Ok(mem)
    } else if !(typ == IMAGE_REL_I386_SECTION || typ == IMAGE_REL_I386_DIR32
        || typ == IMAGE_REL_I386_DIR32NB || typ == IMAGE_REL_I386_SECREL
        || typ == IMAGE_REL_I386_REL32) {
        Err(CoFFRError::UnknownRelocation(typ))
    } else if typ == IMAGE_REL_I386_SECTION {
        if !site_ok(view, r.position_offset, 2) {
            Err(CoFFRError::InvalidObject)
        } else {
            Ok(write_u16_at(mem, q, wrap16(r.sectidx + read_u16_at(mem, q))))
        }
    } else if !site_ok(view, r.position_offset, 4) {
        Err(CoFFRError::InvalidObject)
    } else {
        let a = (read_u32_at(mem, q) as i32) as int;
        let v = if typ == IMAGE_REL_I386_DIR32 {
            s + a
        } else if typ == IMAGE_REL_I386_DIR32NB {
            s + a - b
        } else if typ == IMAGE_REL_I386_SECREL {
            s - (r.sectionstart as i64) as int + a
        } else {
            s + a - (p + 4)
        };
        Ok(write_u32_at(mem, q, wrap32(v)))
    }
}

/// Applying the relocations in order: the slab afterwards, and the first error.
pub open spec fn x86_apply(
    mem: Seq<u8>,
    view: SectionView,
    base: u64,
    relocs: Seq<Result<ResolvedRelocation, CoFFRError>>,
) -> (Seq<u8>, Result<(), CoFFRError>)
    decreases relocs.len(),
{
    if relocs.len() == 0 {
        (mem, Ok(()))
    } else {
        match relocs[0] {
            Err(e) => (mem, Err(e)),
            Ok(r) => match x86_patch(mem, view, base, r) {
                Err(e) => (mem, Err(e)),
                Ok(m) => x86_apply(m, view, base, relocs.drop_first()),
            },
        }
    }
}

fn patch_exec(
    mem: &mut Vec<u8>,
    view: SectionView,
    base: u64,
    r: ResolvedRelocation,
) -> (res: Result<(), CoFFRError>)
    requires
        view_in_slab(view, old(mem).len() as nat),
    ensures
        final(mem)@.len() == old(mem)@.len(),
        match x86_patch(old(mem)@, view, base, r) {
            Ok(m) => res is Ok && final(mem)@ == m,
            Err(e) => res == Err::<(), CoFFRError>(e) && final(mem)@ == old(mem)@,
        },
{
    reveal(x86_patch);
    let typ = r.typ;
    if typ == IMAGE_REL_I386_ABSOLUTE {
        return Ok(());
    }
    if !(typ == IMAGE_REL_I386_SECTION || typ == IMAGE_REL_I386_DIR32
        || typ == IMAGE_REL_I386_DIR32NB || typ == IMAGE_REL_I386_SECREL
        || typ == IMAGE_REL_I386_REL32) {
        return Err(CoFFRError::UnknownRelocation(typ));
    }
    let width: u64 = if typ == IMAGE_REL_I386_SECTION {
        2
    } else {
        4
    };
    if r.position_offset > view.len as u64 || width > view.len as u64 - r.position_offset {
        return Err(CoFFRError::InvalidObject);
    }
    let q: usize = view.data.rw + r.position_offset as usize;
    if typ == IMAGE_REL_I386_SECTION {
        let a = read_u16(mem, q);
        write_u16(mem, q, wrap_u16(r.sectidx as i128 + a as i128));
        return Ok(());
    }
    let s: i128 = (r.symbol as i64) as i128;
    let p: i128 = (view.data.rx as i64) as i128 + (r.position_offset as i64) as i128;
    let b: i128 = (base as i64) as i128;
    let a: i128 = (read_u32(mem, q) as i32) as i128;
    let v: i128 = if typ == IMAGE_REL_I386_DIR32 {
        s + a
    } else if typ == IMAGE_REL_I386_DIR32NB {
        s + a - b
    } else if typ == IMAGE_REL_I386_SECREL {
        s - (r.sectionstart as i64) as i128 + a
    } else {
        s + a - (p + 4)
    };
    write_u32(mem, q, wrap_u32(v));
    Ok(())
}

/// Applies the relocations of a placed section, in order, stopping at the first error.
pub fn link(base: u64, section: &LinkSection, mem: &mut Vec<u8>) -> (r: Result<(), CoFFRError>)
    requires
        view_in_slab(section.view, old(mem).len() as nat),
    ensures
        final(mem)@.len() == old(mem)@.len(),
        (final(mem)@, r) == x86_apply(old(mem)@, section.view, base, section.reloc@),
        forall|k: int| 0 <= k < old(mem)@.len() && off_sites(section.view, section.reloc@, k)
            ==> #[trigger] final(mem)@[k] == old(mem)@[k],
{
    proof {
        assert forall|k: int| 0 <= k < old(mem)@.len() && off_sites(section.view, section.reloc@, k)
            implies x86_apply(old(mem)@, section.view, base, section.reloc@).0[k] == old(mem)@[k] by {
            law_x86_frame(old(mem)@, section.view, base, section.reloc@, k);
        }
    }
    let view = section.view;
    let ghost m0 = mem@;
    let mut i: usize = 0;
    assert(section.reloc@.skip(0) =~= section.reloc@);
    while i < section.reloc.len()
        invariant
            i <= section.reloc.len(),
            m0 == old(mem)@,
            mem@.len() == m0.len(),
            view == section.view,
            view_in_slab(view, mem@.len() as nat),
            forall|k: int| 0 <= k < m0.len() && off_sites(view, section.reloc@, k)
                ==> #[trigger] x86_apply(m0, view, base, section.reloc@).0[k] == m0[k],
            x86_apply(m0, view, base, section.reloc@) == x86_apply(
                mem@,
                view,
                base,
                section.reloc@.skip(i as int),
            ),
        decreases section.reloc.len() - i,
    {
        let ghost rest = section.reloc@.skip(i as int);
        assert(rest.drop_first() =~= section.reloc@.skip(i + 1));
        assert(rest[0] == section.reloc@[i as int]);
        match &section.reloc[i] {
            Err(e) => {
                assert(x86_apply(m0, view, base, section.reloc@) == (mem@, Err::<(), CoFFRError>(*e)));
                assert(mem@ == x86_apply(m0, view, base, section.reloc@).0);
                return Err(*e);
            },
            Ok(rel) => {
                let ghost before = mem@;
                let res = patch_exec(mem, view, base, *rel);
                match res {
                    Err(e) => {
                        assert(x86_apply(before, view, base, rest) == (before, Err::<(), CoFFRError>(e)));
                        assert(x86_apply(m0, view, base, section.reloc@) == (mem@, Err::<(), CoFFRError>(e)));
                        assert(mem@ == x86_apply(m0, view, base, section.reloc@).0);
                        return Err(e);
                    },
                    Ok(()) => {},
                }
            },
        }
        i = i + 1;
    }
    assert(section.reloc@.skip(i as int) =~= Seq::<Result<ResolvedRelocation, CoFFRError>>::empty());
    Ok(())
}

/// One relocation writes only inside its site.
proof fn lemma_x86_patch_keeps(mem: Seq<u8>, view: SectionView, base: u64, r: ResolvedRelocation, k: int)
    requires
        view_in_slab(view, mem.len()),
        0 <= k < mem.len(),
        !(site(view, r.position_offset) <= k < site(view, r.position_offset) + 8),
    ensures
        x86_patch(mem, view, base, r) matches Ok(m) ==> m.len() == mem.len() && m[k] == mem[k],
{
    reveal(x86_patch);
    assert forall|v: nat, n: nat| #[trigger] crate::bytes::le_bytes(v, n).len() == n by {
        crate::bytes::lemma_le_bytes_len(v, n);
    }
}

/// The i386 relocator writes only at the relocations' sites: applying
/// relocations leaves every byte off the sites (see [`off_sites`]) as it was.
pub proof fn law_x86_frame(
    mem: Seq<u8>,
    view: SectionView,
    base: u64,
    relocs: Seq<Result<ResolvedRelocation, CoFFRError>>,
    k: int,
)
    requires
        view_in_slab(view, mem.len()),
        0 <= k < mem.len(),
        off_sites(view, relocs, k),
    ensures
        x86_apply(mem, view, base, relocs).0.len() == mem.len(),
        x86_apply(mem, view, base, relocs).0[k] == mem[k],
    decreases relocs.len(),
{
    if relocs.len() > 0 {
        if let Ok(r) = relocs[0] {
            assert(relocs[0] is Ok);
            lemma_x86_patch_keeps(mem, view, base, r, k);
            if let Ok(m) = x86_patch(mem, view, base, r) {
                let rest = relocs.drop_first();
                assert forall|i: int| 0 <= i < rest.len() && (#[trigger] rest[i]) is Ok implies !(
                    site(view, rest[i]->Ok_0.position_offset) <= k < site(view, rest[i]->Ok_0.position_offset) + 8) by {
                    assert(rest[i] == relocs[i + 1]);
                }
                law_x86_frame(m, view, base, rest, k);
            }
        }
    }
}

/// What the i386 relocator leaves at a site, modulo `2^32`, with `A` the
/// signed value that was there: `DIR32` stores `S + A`, `DIR32NB` stores
/// `S + A - B` (`B` the image base), `SECREL` stores `S + A` less the start of
/// the symbol's section, and `REL32` stores `S + A - (P + 4)`, the distance
/// from the end of the field. `SECTION` adds the section number to the 16-bit
/// value there, modulo `2^16`. None of them fails on a site inside the
/// section.
pub proof fn law_x86_site(mem: Seq<u8>, view: SectionView, base: u64, r: ResolvedRelocation)
    requires
        view_in_slab(view, mem.len()),
    ensures
        ({
            let q = site(view, r.position_offset);
            let s = (r.symbol as i64) as int;
            let a = (read_u32_at(mem, q) as i32) as int;
            let p = place(view, r.position_offset);
            let res = x86_patch(mem, view, base, r);
            &&& (r.typ == IMAGE_REL_I386_DIR32 || r.typ == IMAGE_REL_I386_DIR32NB || r.typ == IMAGE_REL_I386_SECREL
                || r.typ == IMAGE_REL_I386_REL32) && site_ok(view, r.position_offset, 4) ==> {
                let v = if r.typ == IMAGE_REL_I386_DIR32 {
                    s + a
                } else if r.typ == IMAGE_REL_I386_DIR32NB {
                    s + a - (base as i64) as int
                } else if r.typ == IMAGE_REL_I386_SECREL {
                    s + a - (r.sectionstart as i64) as int
                } else {
                    s + a - (p + 4)
                };
                res matches Ok(m) && read_u32_at(m, q) as int == v % 0x1_0000_0000
            }
            &&& r.typ == IMAGE_REL_I386_SECTION && site_ok(view, r.position_offset, 2) ==> (res matches Ok(m)
                && read_u16_at(m, q) as int == (r.sectidx as int + read_u16_at(mem, q) as int) % 0x1_0000)
        }),
{
    reveal(x86_patch);
    let q = site(view, r.position_offset);
    if site_ok(view, r.position_offset, 4) {
        let s = (r.symbol as i64) as int;
        let a = (read_u32_at(mem, q) as i32) as int;
        let p = place(view, r.position_offset);
        let v = if r.typ == IMAGE_REL_I386_DIR32 {
            s + a
        } else if r.typ == IMAGE_REL_I386_DIR32NB {
            s + a - (base as i64) as int
        } else if r.typ == IMAGE_REL_I386_SECREL {
            s - (r.sectionstart as i64) as int + a
        } else {
            s + a - (p + 4)
        };
        crate::bytes::lemma_u32_roundtrip(mem, q, wrap32(v));
    }
    if site_ok(view, r.position_offset, 2) {
        crate::bytes::lemma_u16_roundtrip(mem, q, wrap16(r.sectidx + read_u16_at(mem, q)));
    }
}

} // verus!

//! A loader for i686 COFF objects: it lays the sections with data out in a
//! slab, each at the next multiple of its alignment, and applies their `DIR32`
//! and `REL32` relocations.
use vstd::prelude::*;

use crate::advanced::{MemoryExecutable, SlabState, SizeCheck, align_up, checked_align_up};
use crate::advanced::executable::copy_into;
use crate::bytes::{read_u32_at, write_u32_at, read_u32, write_u32, splice};
use crate::coffr::{CoffImage, CoffSection, CoffSymbol, RelocTarget, SymSection, find_symbol, find_symbol_exec, bytes_eq};
use crate::coffr::arch::{wrap32, wrap_u32};
use crate::coffr::arch::x86::{IMAGE_REL_I386_DIR32, IMAGE_REL_I386_REL32};
use crate::coffr::object_read::{image_of, image_read, read_image};

verus! {

/// An i686 COFF object to be loaded into a slab.
pub struct I686COFFRelocator<'b> {
    pub coff: CoffImage,
    pub mem: &'b mut MemoryExecutable,
}

/// The read-write address where the sections end when laid out from `cur`:
/// each section with data at the next multiple of its alignment.
pub open spec fn i686_end(secs: Seq<CoffSection>, cur: int) -> int
    decreases secs.len(),
{
    if secs.len() == 0 {
        cur
    } else {
        let e = i686_end(secs.drop_last(), cur);
        let s = secs.last();
        if s.data.len() == 0 {
            e
        } else {
            align_up(e, s.header.align as int) + s.data.len()
        }
    }
}

/// The read-write address where section `i` starts.
pub open spec fn i686_base(secs: Seq<CoffSection>, i: int, cur: int) -> int {
    align_up(i686_end(secs.take(i), cur), secs[i].header.align as int)
}

/// The COFF storage class of an external symbol.
pub const IMAGE_SYM_CLASS_EXTERNAL: u8 = 2;

/// A symbol the loader exports: a function whose storage class is
/// `EXTERNAL` (not a weak external, nor a static symbol).
pub open spec fn exported(s: crate::coffr::RawSymbol) -> bool {
    s.storage_class == Some(IMAGE_SYM_CLASS_EXTERNAL) && s.is_text
}

/// The symbols of the section with index `index`, in order, placed with the
/// section at executable address `brx`: name, address, and whether it is an
/// exported function (see [`exported`]).
pub open spec fn section_entries(syms: Seq<CoffSymbol>, index: usize, brx: int) -> Seq<(Seq<u8>, u32, bool)>
    decreases syms.len(),
{
    if syms.len() == 0 {
        Seq::empty()
    } else {
        let rest = section_entries(syms.drop_last(), index, brx);
        let s = syms.last();
        if s.info.section == SymSection::Section(index) {
            rest.push((s.name@, (wrap32(brx) + (s.info.address as u32)) as u32, exported(s.info)))
        } else {
            rest
        }
    }
}

/// The placed symbols of the sections with data, in order, laid out from
/// read-write address `cur` in a slab whose views are at `rx` and `rw`.
pub open spec fn i686_entries(
    syms: Seq<CoffSymbol>,
    secs: Seq<CoffSection>,
    cur: int,
    rx: int,
    rw: int,
) -> Seq<(Seq<u8>, u32, bool)>
    decreases secs.len(),
{
    if secs.len() == 0 {
        Seq::empty()
    } else {
        let rest = i686_entries(syms, secs.drop_last(), cur, rx, rw);
        let i = secs.len() - 1;
        let s = secs[i];
        if s.data.len() == 0 {
            rest
        } else {
            rest + section_entries(syms, s.header.index, rx + (i686_base(secs, i, cur) - rw))
        }
    }
}

/// The address of the last placed symbol named `name`. The placed symbols
/// are kept in a list and looked up from the latest back, which answers as a
/// map from names to addresses filled in order would, and whose lookups are
/// specified over the list itself.
#[verifier::opaque]
pub open spec fn lookup(entries: Seq<(Seq<u8>, u32, bool)>, name: Seq<u8>) -> Option<u32>
    decreases entries.len(),
{
    if entries.len() == 0 {
        None
    } else if entries.last().0 == name {
        Some(entries.last().1)
    } else {
        lookup(entries.drop_last(), name)
    }
}

/// The exported functions among the placed symbols, in order: those whose
/// flag is set, that is the functions of storage class `EXTERNAL` (see
/// [`exported`]).
pub open spec fn exports_of(entries: Seq<(Seq<u8>, u32, bool)>) -> Seq<(Seq<u8>, u32)>
    decreases entries.len(),
{
    if entries.len() == 0 {
        Seq::empty()
    } else {
        let rest = exports_of(entries.drop_last());
        if entries.last().2 {
            rest.push((entries.last().0, entries.last().1))
        } else {
            rest
        }
    }
}

/// The name of the symbol a relocation refers to.
#[verifier::opaque]
pub open spec fn reloc_name(img: CoffImage, r: crate::coffr::RawRelocation) -> Seq<u8> {
    match r.target {
        RelocTarget::Symbol(idx) => match find_symbol(img, idx) {
            Some(k) => img.symbols@[k].name@,
            None => Seq::empty(),
        },
        _ => Seq::empty(),
    }
}

/// Applying one relocation to the section at slab offset `at`, whose
/// executable address is `brx`, against the symbol address `target`.
#[verifier::opaque]
pub open spec fn i686_patch(bytes: Seq<u8>, at: int, brx: int, r: crate::coffr::RawRelocation, target: u32) -> Seq<u8> {
    let site = at + r.offset;
    let existing = read_u32_at(bytes, site);
    if r.typ == Some(IMAGE_REL_I386_DIR32) {
        write_u32_at(bytes, site, wrap32(existing + target))
    } else {
        let pc = wrap32(brx + r.offset + 4);
        write_u32_at(bytes, site, wrap32(target - pc + existing))
    }
}

/// What the loader leaves at a relocation's site: for a `DIR32`, the 32-bit
/// value that was there plus the symbol's address; for a `REL32`, the value
/// that was there plus the distance from the end of the field (at executable
/// address `brx + offset + 4`) to the symbol; both modulo `2^32`. The other
/// bytes stay as they were.
pub proof fn law_i686_site(bytes: Seq<u8>, at: int, brx: int, r: crate::coffr::RawRelocation, target: u32)
    requires
        0 <= at + r.offset,
        at + r.offset + 4 <= bytes.len(),
    ensures
        ({
            let q = at + r.offset;
            let before = read_u32_at(bytes, q) as int;
            let after = read_u32_at(i686_patch(bytes, at, brx, r, target), q) as int;
            &&& i686_patch(bytes, at, brx, r, target).len() == bytes.len()
            &&& r.typ == Some(IMAGE_REL_I386_DIR32) ==> after == (before + target) % 0x1_0000_0000
            &&& r.typ != Some(IMAGE_REL_I386_DIR32) ==> after
                == (before + target - (brx + r.offset + 4)) % 0x1_0000_0000
            &&& forall|k: int| 0 <= k < bytes.len() && !(q <= k < q + 4)
                ==> #[trigger] i686_patch(bytes, at, brx, r, target)[k] == bytes[k]
        }),
{
    reveal(i686_patch);
    let q = at + r.offset;
    let before = read_u32_at(bytes, q) as int;
    let m: int = 0x1_0000_0000;
    assert forall|v: nat| #[trigger] crate::bytes::le_bytes(v, 4).len() == 4 by {
        crate::bytes::lemma_le_bytes_len(v, 4);
    }
    if r.typ == Some(IMAGE_REL_I386_DIR32) {
        let w = wrap32(before + target);
        crate::bytes::lemma_u32_roundtrip(bytes, q, w);
        assert(w as int == (before + target) % m);
    } else {
        let x = brx + r.offset + 4;
        let pc = wrap32(x);
        assert(pc as int == x % m);
        let w = wrap32(target - pc + before);
        crate::bytes::lemma_u32_roundtrip(bytes, q, w);
        assert(w as int == (target - pc + before) % m);
        vstd::arithmetic::div_mod::lemma_fundamental_div_mod(x, m);
        assert(target - pc + before == m * (x / m) + (before + target - x)) by (nonlinear_arith)
            requires
                x == m * (x / m) + x % m,
                pc as int == x % m,
        ;
        vstd::arithmetic::div_mod::lemma_mod_multiples_vanish(x / m, before + target - x, m);
    }
    assert forall|k: int| 0 <= k < bytes.len() && !(q <= k < q + 4)
        implies #[trigger] i686_patch(bytes, at, brx, r, target)[k] == bytes[k] by {
        if r.typ == Some(IMAGE_REL_I386_DIR32) {
            crate::coffr::arch::lemma_splice_keeps(bytes, q, crate::bytes::le_bytes(wrap32(before + target) as nat, 4), k);
        } else {
            let pc = wrap32(brx + r.offset + 4);
            crate::coffr::arch::lemma_splice_keeps(bytes, q, crate::bytes::le_bytes(wrap32(target - pc + before) as nat, 4), k);
        }
    }
}

/// The address a relocation's symbol is given: where it was placed, else the
/// resolver's answer.
pub open spec fn reloc_target(
    img: CoffImage,
    entries: Seq<(Seq<u8>, u32, bool)>,
    r: crate::coffr::RawRelocation,
    answer: u32,
) -> u32 {
    match lookup(entries, reloc_name(img, r)) {
        Some(v) => v,
        None => answer,
    }
}

/// Applying the relocations of a section in order, the `k`-th one taking the
/// resolver's answer `answers[k]` when its symbol was not placed.
pub open spec fn i686_apply(
    img: CoffImage,
    entries: Seq<(Seq<u8>, u32, bool)>,
    bytes: Seq<u8>,
    at: int,
    brx: int,
    relocs: Seq<crate::coffr::RawRelocation>,
    answers: Seq<u32>,
) -> Seq<u8>
    decreases relocs.len(),
{
    if relocs.len() == 0 {
        bytes
    } else {
        let b = i686_apply(img, entries, bytes, at, brx, relocs.drop_last(), answers);
        let r = relocs.last();
        i686_patch(b, at, brx, r, reloc_target(img, entries, r, answers[relocs.len() - 1]))
    }
}

/// The sections with data fit before read-write address `limit` when laid
/// out from `cur`.
pub open spec fn i686_fits(secs: Seq<CoffSection>, cur: int, limit: int) -> bool
    decreases secs.len(),
{
    if secs.len() == 0 {
        true
    } else {
        &&& i686_fits(secs.drop_last(), cur, limit)
        &&& (secs.last().data.len() == 0 || i686_end(secs, cur) <= limit)
    }
}

/// The slab's bytes after loading the sections in order from read-write
/// address `cur` in a slab whose views are at `rx` and `rw`: each section's
/// data copied where it goes, then its relocations applied, the `k`-th
/// relocation of section `i` taking `answers[i][k]` when its symbol was not
/// placed.
pub open spec fn i686_load(
    img: CoffImage,
    entries: Seq<(Seq<u8>, u32, bool)>,
    secs: Seq<CoffSection>,
    bytes: Seq<u8>,
    cur: int,
    rx: int,
    rw: int,
    answers: Seq<Seq<u32>>,
) -> Seq<u8>
    decreases secs.len(),
{
    if secs.len() == 0 {
        bytes
    } else {
        let b = i686_load(img, entries, secs.drop_last(), bytes, cur, rx, rw, answers);
        let i = secs.len() - 1;
        let s = secs[i];
        if s.data.len() == 0 {
            b
        } else {
            let at = i686_base(secs, i, cur) - rw;
            i686_apply(img, entries, splice(b, at, s.data@), at, rx + at, s.relocations@, answers[i])
        }
    }
}

/// `v` is what the resolver may answer for the name `name`.
#[verifier::opaque]
pub open spec fn resolves_to<R: Fn(&[u8]) -> u32>(resolver: R, name: Seq<u8>, v: u32) -> bool {
    exists|s: &[u8]| s@ == name && call_ensures(resolver, (s,), v)
}

/// `answers` holds one answer for each relocation of each section, and for
/// each relocation of a section with data whose symbol was not placed, an
/// answer the resolver may give for that symbol's name.
pub open spec fn answered<R: Fn(&[u8]) -> u32>(
    img: CoffImage,
    entries: Seq<(Seq<u8>, u32, bool)>,
    resolver: R,
    answers: Seq<Seq<u32>>,
    n: int,
) -> bool {
    &&& answers.len() == n
    &&& forall|i: int| 0 <= i < n ==> (#[trigger] answers[i]).len() == img.sections@[i].relocations.len()
    &&& forall|i: int, k: int| 0 <= i < n && img.sections@[i].data.len() > 0 && 0 <= k < answers[i].len()
        && lookup(entries, reloc_name(img, img.sections@[i].relocations@[k])) is None ==> resolves_to(
            resolver,
            reloc_name(img, img.sections@[i].relocations@[k]),
            #[trigger] answers[i][k],
        )
}

/// What the loader takes, in a slab in state `s`: each section with data has
/// a nonzero alignment, its layout stays within the address space, its
/// symbols' 32-bit addresses do not overflow, and each of its relocations is
/// a `DIR32` or `REL32` to a symbol of the image, with its site inside the
/// section.
pub open spec fn i686_loadable(img: CoffImage, s: SlabState) -> bool {
    forall|i: int| 0 <= i < img.sections.len() ==> #[trigger] section_loadable(img, s, i)
}

/// The loader takes section `i` of the image (see [`i686_loadable`]).
pub open spec fn section_loadable(img: CoffImage, s: SlabState, i: int) -> bool {
    let secs = img.sections@;
    let base = i686_base(secs, i, (s.rw + s.cursor) as int);
    let brx = s.rx + (base - s.rw);
    secs[i].data.len() > 0 ==> {
        &&& 0 < secs[i].header.align <= usize::MAX
        &&& base + secs[i].data.len() <= usize::MAX
        &&& brx + secs[i].data.len() <= usize::MAX
        &&& forall|k: int| 0 <= k < img.symbols.len() && (#[trigger] img.symbols@[k]).info.section
            == SymSection::Section(secs[i].header.index) ==> wrap32(brx) + (img.symbols@[k].info.address as u32) <= u32::MAX
        &&& forall|j: int| 0 <= j < secs[i].relocations.len() ==> reloc_loadable(img, #[trigger] secs[i].relocations@[j], secs[i].data@.len())
    }
}

/// The loader takes a relocation of a section of `len` bytes: a `DIR32` or
/// `REL32` to a symbol of the image, with its site inside the section.
pub open spec fn reloc_loadable(img: CoffImage, r: crate::coffr::RawRelocation, len: nat) -> bool {
    &&& r.target matches RelocTarget::Symbol(idx) && find_symbol(img, idx) is Some
    &&& (r.typ == Some(IMAGE_REL_I386_DIR32) || r.typ == Some(IMAGE_REL_I386_REL32))
    &&& r.offset + 4 <= len
}

/// The placed symbols as plain values.
pub open spec fn entries_view(v: Seq<(Vec<u8>, u32, bool)>) -> Seq<(Seq<u8>, u32, bool)> {
    v.map_values(|e: (Vec<u8>, u32, bool)| (e.0@, e.1, e.2))
}

/// The exported functions as plain values.
pub open spec fn exports_view(v: Seq<(Vec<u8>, u32)>) -> Seq<(Seq<u8>, u32)> {
    v.map_values(|e: (Vec<u8>, u32)| (e.0@, e.1))
}

/// The address of the last placed symbol named `name` (see [`lookup`]).
fn lookup_exec(entries: &Vec<(Vec<u8>, u32, bool)>, name: &Vec<u8>) -> (r: Option<u32>)
    ensures
        r == lookup(entries_view(entries@), name@),
{
    let mut k = entries.len();
    assert(entries_view(entries@).take(k as int) =~= entries_view(entries@));
    while k > 0
        invariant
            k <= entries.len(),
            lookup(entries_view(entries@), name@) == lookup(entries_view(entries@).take(k as int), name@),
        decreases k,
    {
        let ghost t = entries_view(entries@).take(k as int);
        assert(t.drop_last() =~= entries_view(entries@).take(k - 1));
        proof {
            reveal(lookup);
        }
        if bytes_eq(entries[k - 1].0.as_slice(), name.as_slice()) {
            return Some(entries[k - 1].1);
        }
        k = k - 1;
    }
    assert(entries_view(entries@).take(0) =~= Seq::<(Seq<u8>, u32, bool)>::empty());
    proof {
        reveal(lookup);
    }
    None
}

proof fn lemma_apply_frame(
    img: CoffImage,
    entries: Seq<(Seq<u8>, u32, bool)>,
    bytes: Seq<u8>,
    at: int,
    brx: int,
    relocs: Seq<crate::coffr::RawRelocation>,
    a1: Seq<u32>,
    a2: Seq<u32>,
)
    requires
        forall|k: int| 0 <= k < relocs.len() ==> a1[k] == a2[k],
    ensures
        i686_apply(img, entries, bytes, at, brx, relocs, a1) == i686_apply(img, entries, bytes, at, brx, relocs, a2),
    decreases relocs.len(),
{
    if relocs.len() > 0 {
        lemma_apply_frame(img, entries, bytes, at, brx, relocs.drop_last(), a1, a2);
    }
}

proof fn lemma_load_frame(
    img: CoffImage,
    entries: Seq<(Seq<u8>, u32, bool)>,
    secs: Seq<CoffSection>,
    bytes: Seq<u8>,
    cur: int,
    rx: int,
    rw: int,
    a1: Seq<Seq<u32>>,
    a2: Seq<Seq<u32>>,
)
    requires
        forall|i: int| 0 <= i < secs.len() ==> a1[i] == a2[i],
    ensures
        i686_load(img, entries, secs, bytes, cur, rx, rw, a1) == i686_load(img, entries, secs, bytes, cur, rx, rw, a2),
    decreases secs.len(),
{
    if secs.len() > 0 {
        lemma_load_frame(img, entries, secs.drop_last(), bytes, cur, rx, rw, a1, a2);
    }
}

/// Places the symbols of section `i`, whose executable address is `base_rx`.
fn section_symbols(
    img: &CoffImage,
    i: usize,
    base_rx: usize,
    Ghost(s): Ghost<SlabState>,
    Ghost(cur): Ghost<int>,
    entries: &mut Vec<(Vec<u8>, u32, bool)>,
    exports: &mut Vec<(Vec<u8>, u32)>,
)
    requires
        i < img.sections.len(),
        img.sections@[i as int].data.len() > 0,
        section_loadable(*img, s, i as int),
        cur == s.rw + s.cursor,
        base_rx == s.rx + (i686_base(img.sections@, i as int, cur) - s.rw),
        exports_view(old(exports)@) == exports_of(entries_view(old(entries)@)),
    ensures
        entries_view(final(entries)@) == entries_view(old(entries)@) + section_entries(
            img.symbols@,
            img.sections@[i as int].header.index,
            base_rx as int,
        ),
        exports_view(final(exports)@) == exports_of(entries_view(final(entries)@)),
{
    let brx32 = wrap_u32(base_rx as i128);
    let index = img.sections[i].header.index;
    let ghost before = entries_view(entries@);
    let mut k: usize = 0;
    assert(section_entries(img.symbols@.take(0), index, base_rx as int) =~= Seq::<(Seq<u8>, u32, bool)>::empty());
    assert(before + Seq::<(Seq<u8>, u32, bool)>::empty() =~= before);
    while k < img.symbols.len()
        invariant
            k <= img.symbols.len(),
            section_loadable(*img, s, i as int),
            i < img.sections.len(),
            img.sections@[i as int].data.len() > 0,
            cur == s.rw + s.cursor,
            base_rx == s.rx + (i686_base(img.sections@, i as int, cur) - s.rw),
            index == img.sections@[i as int].header.index,
            brx32 == wrap32(base_rx as int),
            entries_view(entries@) == before + section_entries(img.symbols@.take(k as int), index, base_rx as int),
            exports_view(exports@) == exports_of(entries_view(entries@)),
        decreases img.symbols.len() - k,
    {
        let sym = &img.symbols[k];
        let ghost st = img.symbols@.take(k + 1);
        assert(st.drop_last() =~= img.symbols@.take(k as int));
        assert(st.last() == img.symbols@[k as int]);
        if sym.info.section == SymSection::Section(index) {
            assert(wrap32(base_rx as int) + (img.symbols@[k as int].info.address as u32) <= u32::MAX);
            let addr = brx32 + (sym.info.address as u32);
            let flag = match sym.info.storage_class {
                Some(c) => c == IMAGE_SYM_CLASS_EXTERNAL && sym.info.is_text,
                None => false,
            };
            let ghost ev = entries_view(entries@);
            entries.push((sym.name.clone(), addr, flag));
            assert(entries_view(entries@) =~= ev.push((sym.name@, addr, flag)));
            assert(ev.push((sym.name@, addr, flag)).drop_last() =~= ev);
            if flag {
                let ghost xv = exports_view(exports@);
                exports.push((sym.name.clone(), addr));
                assert(exports_view(exports@) =~= xv.push((sym.name@, addr)));
            }
        }
        k = k + 1;
    }
    assert(img.symbols@.take(img.symbols.len() as int) =~= img.symbols@);
}

/// Places the symbols of the sections with data (the loader's first pass),
/// laid out from read-write address `cur` in a slab with views at `rx` and
/// `rw`: each placed symbol, and the exported functions among them.
fn place_symbols(img: &CoffImage, cur: usize, rx: usize, rw: usize, Ghost(s): Ghost<SlabState>) -> (r: (
    Vec<(Vec<u8>, u32, bool)>,
    Vec<(Vec<u8>, u32)>,
))
    requires
        i686_loadable(*img, s),
        cur == s.rw + s.cursor,
        rx == s.rx,
        rw == s.rw,
    ensures
        entries_view(r.0@) == i686_entries(img.symbols@, img.sections@, cur as int, rx as int, rw as int),
        exports_view(r.1@) == exports_of(entries_view(r.0@)),
{
    let mut entries: Vec<(Vec<u8>, u32, bool)> = Vec::new();
    let mut exports: Vec<(Vec<u8>, u32)> = Vec::new();
    let mut cursor = cur;
    let mut i: usize = 0;
    assert(entries_view(entries@) =~= Seq::<(Seq<u8>, u32, bool)>::empty());
    assert(exports_view(exports@) =~= Seq::<(Seq<u8>, u32)>::empty());
    while i < img.sections.len()
        invariant
            i <= img.sections.len(),
            i686_loadable(*img, s),
            cur == s.rw + s.cursor,
            rx == s.rx,
            rw == s.rw,
            cursor == i686_end(img.sections@.take(i as int), cur as int),
            cursor >= cur,
            entries_view(entries@) == i686_entries(img.symbols@, img.sections@.take(i as int), cur as int, rx as int, rw as int),
            exports_view(exports@) == exports_of(entries_view(entries@)),
        decreases img.sections.len() - i,
    {
        let sec = &img.sections[i];
        let ghost pre = img.sections@.take(i as int);
        let ghost next = img.sections@.take(i + 1);
        assert(next.drop_last() =~= pre);
        assert(next.last() == img.sections@[i as int]);
        if sec.data.len() > 0 {
            assert(section_loadable(*img, s, i as int));
            let base = match checked_align_up(cursor, sec.header.align as usize) {
                Some(b) => b,
                None => {
                    assert(false);
                    return (entries, exports);
                },
            };
            assert(base == i686_base(img.sections@, i as int, cur as int));
            assert(i686_base(next, i as int, cur as int) == base) by {
                assert(next.take(i as int) =~= pre);
            }
            assert(align_up(cursor as int, sec.header.align as int) >= cursor) by (nonlinear_arith)
                requires
                    sec.header.align > 0,
            ;
            let base_rx = rx + (base - rw);
            let brx32 = wrap_u32(base_rx as i128);
            proof {
                assert(section_loadable(*img, s, i as int));
            }
            section_symbols(img, i, base_rx, Ghost(s), Ghost(cur as int), &mut entries, &mut exports);
            cursor = base + sec.data.len();
        }
        i = i + 1;
    }
    assert(img.sections@.take(img.sections.len() as int) =~= img.sections@);
    (entries, exports)
}

/// Fitting is kept by every prefix of the sections.
proof fn lemma_fits_prefix(secs: Seq<CoffSection>, cur: int, limit: int, i: int)
    requires
        0 <= i <= secs.len(),
        i686_fits(secs, cur, limit),
    ensures
        i686_fits(secs.take(i), cur, limit),
    decreases secs.len() - i,
{
    if i < secs.len() {
        assert(secs.drop_last().take(i) =~= secs.take(i));
        lemma_fits_prefix(secs.drop_last(), cur, limit, i);
    } else {
        assert(secs.take(i) =~= secs);
    }
}

/// Applies one relocation of a section at slab offset `at`, whose executable
/// address is `brx` and whose data is `len` bytes (see [`i686_patch`]);
/// gives the resolver's answer when it was asked.
fn apply_reloc<R: Fn(&[u8]) -> u32>(
    mem: &mut MemoryExecutable,
    img: &CoffImage,
    entries: &Vec<(Vec<u8>, u32, bool)>,
    at: usize,
    brx: usize,
    len: usize,
    r: crate::coffr::RawRelocation,
    resolver: &R,
) -> (answer: Ghost<u32>)
    requires
        old(mem).wf(),
        reloc_loadable(*img, r, len as nat),
        at + len <= old(mem)@.bytes.len(),
        brx + len <= usize::MAX,
        forall|s: &[u8]| call_requires(*resolver, (s,)),
    ensures
        final(mem).wf(),
        final(mem)@.bytes.len() == old(mem)@.bytes.len(),
        final(mem)@ == (SlabState {
            bytes: i686_patch(old(mem)@.bytes, at as int, brx as int, r, reloc_target(*img, entries_view(entries@), r, answer@)),
            ..old(mem)@
        }),
        lookup(entries_view(entries@), reloc_name(*img, r)) is None ==> resolves_to(*resolver, reloc_name(*img, r), answer@),
{
    proof {
        mem.lemma_wf();
    }
    let idx = match r.target {
        RelocTarget::Symbol(i) => i,
        _ => {
            assert(false);
            0
        },
    };
    let k = match find_symbol_exec(img, idx) {
        Some(k) => k,
        None => {
            assert(false);
            0
        },
    };
    let name = &img.symbols[k].name;
    assert(reloc_name(*img, r) == name@) by {
        reveal(reloc_name);
    }
    let (target, answer) = match lookup_exec(entries, name) {
        Some(v) => (v, Ghost(0u32)),
        None => {
            let slice = name.as_slice();
            let v = resolver(slice);
            assert(slice@ == name@ && call_ensures(*resolver, (slice,), v));
            assert(resolves_to(*resolver, name@, v)) by {
                reveal(resolves_to);
            }
            (v, Ghost(v))
        },
    };
    let off = r.offset as usize;
    assert(off == r.offset);
    let site = at + off;
    let existing = read_u32(mem.bytes(), site);
    let dir32 = match r.typ {
        Some(t) => t == IMAGE_REL_I386_DIR32,
        None => false,
    };
    let value = if dir32 {
        wrap_u32(existing as i128 + target as i128)
    } else {
        let pc = wrap_u32((brx + off + 4) as i128);
        wrap_u32(target as i128 - pc as i128 + existing as i128)
    };
    write_u32(mem.bytes_mut(), site, value);
    proof {
        reveal(i686_patch);
    }
    answer
}

/// Applying the relocations up to the `k`-th is applying those before it,
/// then the `k`-th.
proof fn lemma_apply_step(
    img: CoffImage,
    entries: Seq<(Seq<u8>, u32, bool)>,
    bytes: Seq<u8>,
    at: int,
    brx: int,
    relocs: Seq<crate::coffr::RawRelocation>,
    k: int,
    ans: Seq<u32>,
    v: u32,
)
    requires
        0 <= k < relocs.len(),
        ans.len() == k,
    ensures
        i686_apply(img, entries, bytes, at, brx, relocs.take(k + 1), ans.push(v)) == i686_patch(
            i686_apply(img, entries, bytes, at, brx, relocs.take(k), ans),
            at,
            brx,
            relocs[k],
            reloc_target(img, entries, relocs[k], v),
        ),
{
    let t = relocs.take(k + 1);
    assert(t.drop_last() =~= relocs.take(k));
    assert(t.last() == relocs[k]);
    lemma_apply_frame(img, entries, bytes, at, brx, relocs.take(k), ans, ans.push(v));
}

/// Copies section `i` to slab offset `at` and applies its relocations.
#[verifier::rlimit(100)]
#[verifier::spinoff_prover]
fn load_section<R: Fn(&[u8]) -> u32>(
    mem: &mut MemoryExecutable,
    img: &CoffImage,
    entries: &Vec<(Vec<u8>, u32, bool)>,
    i: usize,
    at: usize,
    brx: usize,
    resolver: &R,
) -> (answers: Ghost<Seq<u32>>)
    requires
        old(mem).wf(),
        i < img.sections.len(),
        forall|j: int| 0 <= j < img.sections@[i as int].relocations.len() ==> reloc_loadable(
            *img,
            #[trigger] img.sections@[i as int].relocations@[j],
            img.sections@[i as int].data@.len(),
        ),
        at + img.sections@[i as int].data.len() <= old(mem)@.bytes.len(),
        brx + img.sections@[i as int].data.len() <= usize::MAX,
        forall|s: &[u8]| call_requires(*resolver, (s,)),
    ensures
        final(mem).wf(),
        final(mem)@.bytes.len() == old(mem)@.bytes.len(),
        final(mem)@ == (SlabState {
            bytes: i686_apply(
                *img,
                entries_view(entries@),
                splice(old(mem)@.bytes, at as int, img.sections@[i as int].data@),
                at as int,
                brx as int,
                img.sections@[i as int].relocations@,
                answers@,
            ),
            ..old(mem)@
        }),
        answers@.len() == img.sections@[i as int].relocations.len(),
        forall|k: int| 0 <= k < answers@.len() && lookup(
            entries_view(entries@),
            reloc_name(*img, img.sections@[i as int].relocations@[k]),
        ) is None ==> resolves_to(*resolver, reloc_name(*img, img.sections@[i as int].relocations@[k]), #[trigger] answers@[k]),
{
    let sec = &img.sections[i];
    let ghost s0 = mem@;
    proof {
        mem.lemma_wf();
    }
    copy_into(mem.bytes_mut(), at, &sec.data);
    let ghost copied = mem@.bytes;
    let ghost mut ans: Seq<u32> = Seq::empty();
    let mut k: usize = 0;
    while k < sec.relocations.len()
        invariant
            k <= sec.relocations.len(),
            *sec == img.sections@[i as int],
            i < img.sections.len(),
            mem.wf(),
            mem@ == (SlabState { bytes: mem@.bytes, ..s0 }),
            mem@.bytes.len() == s0.bytes.len(),
            forall|j: int| 0 <= j < sec.relocations.len() ==> reloc_loadable(
                *img,
                #[trigger] sec.relocations@[j],
                sec.data@.len(),
            ),
            at + sec.data.len() <= s0.bytes.len(),
            brx + sec.data.len() <= usize::MAX,
            forall|s: &[u8]| call_requires(*resolver, (s,)),
            ans.len() == k,
            mem@.bytes == i686_apply(*img, entries_view(entries@), copied, at as int, brx as int, sec.relocations@.take(k as int), ans),
            forall|j: int| 0 <= j < k && lookup(entries_view(entries@), reloc_name(*img, sec.relocations@[j])) is None
                ==> resolves_to(*resolver, reloc_name(*img, sec.relocations@[j]), #[trigger] ans[j]),
        decreases sec.relocations.len() - k,
    {
        let r = sec.relocations[k];
        assert(reloc_loadable(*img, sec.relocations@[k as int], sec.data@.len()));
        let ghost before = mem@.bytes;
        let Ghost(v) = apply_reloc(mem, img, entries, at, brx, sec.data.len(), r, resolver);
        proof {
            lemma_apply_step(*img, entries_view(entries@), copied, at as int, brx as int, sec.relocations@, k as int, ans, v);
            ans = ans.push(v);
        }
        k = k + 1;
    }
    assert(sec.relocations@.take(sec.relocations.len() as int) =~= sec.relocations@);
    Ghost(ans)
}

/// Loads the sections with data (the loader's second pass), laid out from
/// read-write address `cur`; stops when one does not fit in the slab. Gives
/// whether all fit, the address where they end, and the resolver's answers.
fn load_sections<R: Fn(&[u8]) -> u32>(
    mem: &mut MemoryExecutable,
    img: &CoffImage,
    entries: &Vec<(Vec<u8>, u32, bool)>,
    cur: usize,
    resolver: &R,
) -> (r: (bool, usize, Ghost<Seq<Seq<u32>>>))
    requires
        old(mem).wf(),
        i686_loadable(*img, old(mem)@),
        cur == old(mem)@.rw + old(mem)@.cursor,
        forall|s: &[u8]| call_requires(*resolver, (s,)),
    ensures
        final(mem).wf(),
        final(mem)@ == (SlabState { bytes: final(mem)@.bytes, ..old(mem)@ }),
        final(mem)@.bytes.len() == old(mem)@.bytes.len(),
        r.0 == i686_fits(img.sections@, cur as int, (old(mem)@.rw + old(mem)@.bytes.len()) as int),
        !r.0 ==> exists|k: int, answers: Seq<Seq<u32>>| {
            &&& 0 <= k < img.sections.len()
            &&& i686_fits(img.sections@.take(k), cur as int, (old(mem)@.rw + old(mem)@.bytes.len()) as int)
            &&& !i686_fits(img.sections@.take(k + 1), cur as int, (old(mem)@.rw + old(mem)@.bytes.len()) as int)
            &&& #[trigger] answered(*img, entries_view(entries@), *resolver, answers, k)
            &&& final(mem)@.bytes == i686_load(
                *img,
                entries_view(entries@),
                img.sections@.take(k),
                old(mem)@.bytes,
                cur as int,
                old(mem)@.rx as int,
                old(mem)@.rw as int,
                answers,
            )
        },
        r.0 ==> {
            &&& r.1 == i686_end(img.sections@, cur as int)
            &&& cur <= r.1 <= old(mem)@.rw + old(mem)@.bytes.len()
            &&& answered(*img, entries_view(entries@), *resolver, r.2@, img.sections.len() as int)
            &&& final(mem)@.bytes == i686_load(
                *img,
                entries_view(entries@),
                img.sections@,
                old(mem)@.bytes,
                cur as int,
                old(mem)@.rx as int,
                old(mem)@.rw as int,
                r.2@,
            )
        },
{
    let ghost s0 = mem@;
    proof {
        mem.lemma_wf();
    }
    let rx = mem.base_address();
    let rw = mem.rw_address();
    let limit = rw + mem.bytes().len();
    let ghost ev = entries_view(entries@);
    let ghost mut ans: Seq<Seq<u32>> = Seq::empty();
    let mut cursor = cur;
    let mut i: usize = 0;
    while i < img.sections.len()
        invariant
            i <= img.sections.len(),
            mem.wf(),
            s0 == old(mem)@,
            mem@ == (SlabState { bytes: mem@.bytes, ..s0 }),
            mem@.bytes.len() == s0.bytes.len(),
            crate::advanced::executable::slab_wf(s0),
            i686_loadable(*img, s0),
            cur == s0.rw + s0.cursor,
            rx == s0.rx,
            rw == s0.rw,
            limit == s0.rw + s0.bytes.len(),
            ev == entries_view(entries@),
            forall|s: &[u8]| call_requires(*resolver, (s,)),
            cursor == i686_end(img.sections@.take(i as int), cur as int),
            cur <= cursor <= limit,
            i686_fits(img.sections@.take(i as int), cur as int, limit as int),
            ans.len() == i,
            forall|j: int| 0 <= j < i ==> (#[trigger] ans[j]).len() == img.sections@[j].relocations.len(),
            forall|j: int, k: int| 0 <= j < i && img.sections@[j].data.len() > 0 && 0 <= k < ans[j].len()
                && lookup(ev, reloc_name(*img, img.sections@[j].relocations@[k])) is None ==> resolves_to(
                    *resolver,
                    reloc_name(*img, img.sections@[j].relocations@[k]),
                    #[trigger] ans[j][k],
                ),
            mem@.bytes == i686_load(*img, ev, img.sections@.take(i as int), s0.bytes, cur as int, rx as int, rw as int, ans),
        decreases img.sections.len() - i,
    {
        let sec = &img.sections[i];
        let ghost pre = img.sections@.take(i as int);
        let ghost next = img.sections@.take(i + 1);
        assert(next.drop_last() =~= pre);
        assert(next.last() == img.sections@[i as int]);
        assert(next.take(i as int) =~= pre);
        if sec.data.len() > 0 {
            assert(section_loadable(*img, s0, i as int));
            let base = match checked_align_up(cursor, sec.header.align as usize) {
                Some(b) => b,
                None => {
                    assert(false);
                    return (false, cursor, Ghost(ans));
                },
            };
            assert(base == i686_base(img.sections@, i as int, cur as int));
            assert(i686_base(next, i as int, cur as int) == base);
            if base + sec.data.len() > limit {
                proof {
                    assert(!i686_fits(next, cur as int, limit as int));
                    assert(answered(*img, ev, *resolver, ans, i as int));
                    if i686_fits(img.sections@, cur as int, limit as int) {
                        lemma_fits_prefix(img.sections@, cur as int, limit as int, i + 1);
                    }
                }
                return (false, cursor, Ghost(ans));
            }
            assert(align_up(cursor as int, sec.header.align as int) >= cursor) by (nonlinear_arith)
                requires
                    sec.header.align > 0,
            ;
            let at = base - rw;
            let brx = rx + at;
            let Ghost(sa) = load_section(mem, img, entries, i, at, brx, resolver);
            proof {
                lemma_load_frame(*img, ev, pre, s0.bytes, cur as int, rx as int, rw as int, ans, ans.push(sa));
                ans = ans.push(sa);
            }
            cursor = base + sec.data.len();
        } else {
            proof {
                let sa = Seq::new(sec.relocations@.len(), |k: int| 0u32);
                lemma_load_frame(*img, ev, pre, s0.bytes, cur as int, rx as int, rw as int, ans, ans.push(sa));
                ans = ans.push(sa);
            }
        }
        i = i + 1;
    }
    assert(img.sections@.take(img.sections.len() as int) =~= img.sections@);
    (true, cursor, Ghost(ans))
}

/// Whether the loader takes section `i`, which starts (before alignment) at
/// read-write address `cursor` (see [`section_loadable`]).
fn section_check(
    img: &CoffImage,
    i: usize,
    cursor: usize,
    rx: usize,
    rw: usize,
    Ghost(s): Ghost<SlabState>,
    Ghost(cur): Ghost<int>,
) -> (r: bool)
    requires
        i < img.sections.len(),
        crate::advanced::executable::slab_wf(s),
        rx == s.rx,
        rw == s.rw,
        cur == s.rw + s.cursor,
        cursor == i686_end(img.sections@.take(i as int), cur),
        cursor >= cur,
    ensures
        r == section_loadable(*img, s, i as int),
{
    let sec = &img.sections[i];
    if sec.data.len() == 0 {
        return true;
    }
    if sec.header.align == 0 || sec.header.align > usize::MAX as u64 {
        return false;
    }
    assert(i686_base(img.sections@, i as int, cur) == align_up(cursor as int, sec.header.align as int));
    let base = match checked_align_up(cursor, sec.header.align as usize) {
        Some(b) => b,
        None => {
            return false;
        },
    };
    assert(align_up(cursor as int, sec.header.align as int) >= cursor) by (nonlinear_arith)
        requires
            sec.header.align > 0,
    ;
    if base > usize::MAX - sec.data.len() {
        return false;
    }
    let off = base - rw;
    if rx > usize::MAX - sec.data.len() || off > usize::MAX - sec.data.len() - rx {
        return false;
    }
    let brx = rx + off;
    assert(brx == s.rx + (i686_base(img.sections@, i as int, cur) - s.rw));
    let brx32 = wrap_u32(brx as i128);
    let mut k: usize = 0;
    while k < img.symbols.len()
        invariant
            k <= img.symbols.len(),
            i < img.sections.len(),
            *sec == img.sections@[i as int],
            cur == s.rw + s.cursor,
            sec.data.len() > 0,
            0 < sec.header.align <= usize::MAX,
            i686_base(img.sections@, i as int, cur) + sec.data.len() <= usize::MAX,
            brx + sec.data.len() <= usize::MAX,
            brx32 == wrap32(brx as int),
            brx == s.rx + (i686_base(img.sections@, i as int, cur) - s.rw),
            forall|j: int| 0 <= j < k && (#[trigger] img.symbols@[j]).info.section
                == SymSection::Section(sec.header.index) ==> wrap32(brx as int) + (img.symbols@[j].info.address as u32) <= u32::MAX,
        decreases img.symbols.len() - k,
    {
        let sym = &img.symbols[k];
        if sym.info.section == SymSection::Section(sec.header.index) {
            if brx32 as u64 + (sym.info.address as u32) as u64 > u32::MAX as u64 {
                assert(img.symbols@[k as int].info.section == SymSection::Section(sec.header.index));
                assert(!section_loadable(*img, s, i as int));
                return false;
            }
        }
        k = k + 1;
    }
    let mut j: usize = 0;
    while j < sec.relocations.len()
        invariant
            j <= sec.relocations.len(),
            i < img.sections.len(),
            *sec == img.sections@[i as int],
            cur == s.rw + s.cursor,
            sec.data.len() > 0,
            0 < sec.header.align <= usize::MAX,
            i686_base(img.sections@, i as int, cur) + sec.data.len() <= usize::MAX,
            brx + sec.data.len() <= usize::MAX,
            brx == s.rx + (i686_base(img.sections@, i as int, cur) - s.rw),
            forall|k: int| 0 <= k < img.symbols.len() && (#[trigger] img.symbols@[k]).info.section
                == SymSection::Section(sec.header.index) ==> wrap32(brx as int) + (img.symbols@[k].info.address as u32) <= u32::MAX,
            forall|m: int| 0 <= m < j ==> reloc_loadable(*img, #[trigger] sec.relocations@[m], sec.data@.len()),
        decreases sec.relocations.len() - j,
    {
        let r = sec.relocations[j];
        let ok = match r.target {
            RelocTarget::Symbol(idx) => find_symbol_exec(img, idx).is_some(),
            _ => false,
        };
        let typ_ok = match r.typ {
            Some(t) => t == IMAGE_REL_I386_DIR32 || t == IMAGE_REL_I386_REL32,
            None => false,
        };
        let site_ok = r.offset <= u64::MAX - 4 && r.offset + 4 <= sec.data.len() as u64;
        assert(r == sec.relocations@[j as int]);
        if !(ok && typ_ok && site_ok) {
            assert(!reloc_loadable(*img, r, sec.data@.len()));
            assert(!section_loadable(*img, s, i as int));
            return false;
        }
        j = j + 1;
    }
    true
}

impl<'b> I686COFFRelocator<'b> {
    /// Reads the object file `buf` (see [`read_image`]), to be loaded into
    /// `mem`; fails when the file cannot be read, and then leaves `mem` as it
    /// was.
    pub fn load(buf: &[u8], mem: &'b mut MemoryExecutable) -> (r: Result<Self, ()>)
        ensures
            r matches Ok(l) ==> image_of(buf@, l.coff) && *l.mem == *old(mem) && *final(l.mem) == *final(mem),
            r matches Ok(l) ==> image_read(buf@, l.coff),
            r is Ok <==> exists|img: CoffImage| image_read(buf@, img),
            r is Err ==> *final(mem) == *old(mem),
    {
        match read_image(buf) {
            Ok(coff) => Ok(I686COFFRelocator { coff, mem }),
            Err(_) => Err(()),
        }
    }

    /// Loads the object into the slab, from its cursor: places the symbols of
    /// the sections with data (see [`i686_entries`]), then copies each such
    /// section at the next multiple of its alignment and applies its
    /// relocations, asking `resolver` for each symbol that was not placed. The
    /// exported functions are given either way; when a section does not fit
    /// in the slab, the load stops there (the sections before it stay written
    /// and relocated) and the slab's cursor stays where it was, else it moves
    /// past the last section.
    pub fn prepare<R: Fn(&[u8]) -> u32>(self, resolver: &R) -> (r: (Vec<(Vec<u8>, u32)>, Option<()>))
        requires
            self.mem.wf(),
            i686_loadable(self.coff, self.mem@),
            forall|s: &[u8]| call_requires(*resolver, (s,)),
        ensures
            final(self.mem).wf(),
            ({
                let s0 = old(self.mem)@;
                let cur = (s0.rw + s0.cursor) as int;
                let entries = i686_entries(self.coff.symbols@, self.coff.sections@, cur, s0.rx as int, s0.rw as int);
                &&& exports_view(r.0@) == exports_of(entries)
                &&& r.1 is Some == i686_fits(self.coff.sections@, cur, (s0.rw + s0.bytes.len()) as int)
                &&& r.1 is None ==> final(self.mem)@ == (SlabState { bytes: final(self.mem)@.bytes, ..s0 })
                &&& r.1 is None ==> final(self.mem)@.bytes.len() == s0.bytes.len()
                &&& r.1 is None ==> exists|k: int, answers: Seq<Seq<u32>>| {
                    &&& 0 <= k < self.coff.sections.len()
                    &&& i686_fits(self.coff.sections@.take(k), cur, (s0.rw + s0.bytes.len()) as int)
                    &&& !i686_fits(self.coff.sections@.take(k + 1), cur, (s0.rw + s0.bytes.len()) as int)
                    &&& #[trigger] answered(self.coff, entries, *resolver, answers, k)
                    &&& final(self.mem)@.bytes == i686_load(
                        self.coff,
                        entries,
                        self.coff.sections@.take(k),
                        s0.bytes,
                        cur,
                        s0.rx as int,
                        s0.rw as int,
                        answers,
                    )
                }
                &&& r.1 is Some ==> exists|answers: Seq<Seq<u32>>| {
                    &&& #[trigger] answered(self.coff, entries, *resolver, answers, self.coff.sections.len() as int)
                    &&& final(self.mem)@ == (SlabState {
                        bytes: i686_load(self.coff, entries, self.coff.sections@, s0.bytes, cur, s0.rx as int, s0.rw as int, answers),
                        cursor: (i686_end(self.coff.sections@, cur) - s0.rw) as nat,
                        ..s0
                    })
                }
            }),
    {
        let ghost s0 = self.mem@;
        proof {
            self.mem.lemma_wf();
        }
        let rx = self.mem.base_address();
        let rw = self.mem.rw_address();
        let cur = rw + self.mem.cursor_of();
        let (entries, exports) = place_symbols(&self.coff, cur, rx, rw, Ghost(s0));
        let (ok, end, Ghost(answers)) = load_sections(self.mem, &self.coff, &entries, cur, resolver);
        if !ok {
            proof {
                let limit = (s0.rw + s0.bytes.len()) as int;
                let (k, a) = choose|k: int, a: Seq<Seq<u32>>| {
                    &&& 0 <= k < self.coff.sections.len()
                    &&& i686_fits(self.coff.sections@.take(k), cur as int, limit)
                    &&& !i686_fits(self.coff.sections@.take(k + 1), cur as int, limit)
                    &&& #[trigger] answered(self.coff, entries_view(entries@), *resolver, a, k)
                    &&& self.mem@.bytes == i686_load(
                        self.coff,
                        entries_view(entries@),
                        self.coff.sections@.take(k),
                        s0.bytes,
                        cur as int,
                        s0.rx as int,
                        s0.rw as int,
                        a,
                    )
                };
                assert(answered(self.coff, entries_view(entries@), *resolver, a, k));
            }
            return (exports, None);
        }
        self.mem.set_cursor(end - rw);
        (exports, Some(()))
    }

    /// Whether the loader takes the object in the slab as it stands (see
    /// [`i686_loadable`]).
    pub fn is_loadable(&self) -> (r: bool)
        requires
            self.mem.wf(),
        ensures
            r == i686_loadable(self.coff, old(self.mem)@),
    {
        let ghost s = self.mem@;
        proof {
            self.mem.lemma_wf();
        }
        let img = &self.coff;
        let rx = self.mem.base_address();
        let rw = self.mem.rw_address();
        let cur = rw + self.mem.cursor_of();
        let mut cursor = cur;
        let mut i: usize = 0;
        while i < img.sections.len()
            invariant
                i <= img.sections.len(),
                *img == self.coff,
                s == self.mem@,
                crate::advanced::executable::slab_wf(s),
                rx == s.rx,
                rw == s.rw,
                cur == s.rw + s.cursor,
                cursor == i686_end(img.sections@.take(i as int), cur as int),
                cursor >= cur,
                forall|j: int| 0 <= j < i ==> #[trigger] section_loadable(*img, s, j),
            decreases img.sections.len() - i,
        {
            let ghost pre = img.sections@.take(i as int);
            let ghost next = img.sections@.take(i + 1);
            assert(next.drop_last() =~= pre);
            assert(next.last() == img.sections@[i as int]);
            let ok = section_check(img, i, cursor, rx, rw, Ghost(s), Ghost(cur as int));
            if !ok {
                return false;
            }
            let sec = &img.sections[i];
            if sec.data.len() > 0 {
                let base = match checked_align_up(cursor, sec.header.align as usize) {
                    Some(b) => b,
                    None => {
                        return false;
                    },
                };
                assert(align_up(cursor as int, sec.header.align as int) >= cursor) by (nonlinear_arith)
                    requires
                        sec.header.align > 0,
                ;
                cursor = base + sec.data.len();
            }
            i = i + 1;
        }
        assert(img.sections@.take(img.sections.len() as int) =~= img.sections@);
        true
    }
}

} // verus!

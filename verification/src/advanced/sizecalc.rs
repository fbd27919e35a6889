//! How much slab an object file needs: its sections and the stubs its
//! relocations may call for.
use vstd::prelude::*;

use crate::advanced::{MemoryExecutable, SizeAlign};
use crate::coffr::{CoFFRError, ObjArch, RawSection, RelocClass, SectKind};
use crate::coffr::object_read::{
    object_arch, object_section, object_section_size, object_relocation_class, obj_arch, obj_section,
    obj_section_size, obj_relocation_class,
};

verus! {

/// The size and alignment of one call stub on an architecture.
pub open spec fn stubsize(arch: ObjArch) -> SizeAlign {
    match arch {
        ObjArch::X86_64 => SizeAlign { size: 32, align: 16 },
        ObjArch::X86_64X32 => SizeAlign { size: 8, align: 4 },
        ObjArch::Aarch64 | ObjArch::Aarch64Ilp32 => SizeAlign { size: 20, align: 8 },
        ObjArch::Arm => SizeAlign { size: 16, align: 4 },
        ObjArch::PowerPc64 => SizeAlign { size: 64, align: 16 },
        ObjArch::Riscv64 => SizeAlign { size: 32, align: 8 },
        _ => SizeAlign { size: 64, align: 64 },
    }
}

/// The size and alignment of one call stub on `arch`.
pub fn get_stubsize(arch: ObjArch) -> (r: SizeAlign)
    ensures
        r == stubsize(arch),
{
    match arch {
        ObjArch::X86_64 => SizeAlign { size: 32, align: 16 },
        ObjArch::X86_64X32 => SizeAlign { size: 8, align: 4 },
        ObjArch::Aarch64 | ObjArch::Aarch64Ilp32 => SizeAlign { size: 20, align: 8 },
        ObjArch::Arm => SizeAlign { size: 16, align: 4 },
        ObjArch::PowerPc64 => SizeAlign { size: 64, align: 16 },
        ObjArch::Riscv64 => SizeAlign { size: 32, align: 8 },
        _ => SizeAlign { size: 64, align: 64 },
    }
}

/// A section as size calculation reads it: its header, its size once
/// decompressed, and the kind of each of its relocations.
pub struct SectionSize {
    pub header: RawSection,
    pub size: u64,
    pub classes: Vec<RelocClass>,
}

/// Debugging sections and metadata take no slab.
pub open spec fn is_loaded(kind: SectKind) -> bool {
    !(kind == SectKind::Debug || kind == SectKind::DebugString || kind == SectKind::Metadata)
}

/// One stub for each relocation that may need one: all but absolute,
/// section-index and section-offset ones.
pub open spec fn stubs(classes: Seq<RelocClass>, stub: SizeAlign) -> Seq<SizeAlign>
    decreases classes.len(),
{
    if classes.len() == 0 {
        Seq::empty()
    } else {
        let rest = stubs(classes.drop_last(), stub);
        match classes.last() {
            RelocClass::Other => rest.push(stub),
            _ => rest,
        }
    }
}

/// The blocks that the sections need, in order: for each loaded section its
/// own block (its alignment and size), then one stub for each relocation that
/// may need one.
pub open spec fn layout_items(sections: Seq<SectionSize>, stub: SizeAlign) -> Seq<SizeAlign>
    decreases sections.len(),
{
    if sections.len() == 0 {
        Seq::empty()
    } else {
        let s = sections.last();
        let rest = layout_items(sections.drop_last(), stub);
        if is_loaded(s.header.kind) {
            rest + seq![SizeAlign { align: s.header.align as usize, size: s.size as usize }] + stubs(s.classes@, stub)
        } else {
            rest
        }
    }
}

/// The relocation kinds that may call through a stub: all but absolute,
/// section-index and section-offset ones.
pub open spec fn calls_through_stub(c: RelocClass) -> bool {
    c != RelocClass::Absolute && c != RelocClass::SectionIndex && c != RelocClass::SectionOffset
}

/// A section's stubs are one stub for each of its relocations that may call
/// through one, and nothing else: as many copies of the stub as there are
/// relocations of a kind other than absolute, section-index and
/// section-offset.
pub proof fn law_one_stub_per_call(classes: Seq<RelocClass>, stub: SizeAlign)
    ensures
        stubs(classes, stub) == Seq::new(classes.filter(|c: RelocClass| calls_through_stub(c)).len(), |i: int| stub),
    decreases classes.len(),
{
    let pred = |c: RelocClass| calls_through_stub(c);
    if classes.len() > 0 {
        law_one_stub_per_call(classes.drop_last(), stub);
        let sub = classes.drop_last().filter(pred);
        let n = sub.len();
        assert(classes.filter(pred) == (if pred(classes.last()) { sub.push(classes.last()) } else { sub })) by {
            reveal(Seq::filter);
        }
        let rest = stubs(classes.drop_last(), stub);
        assert(rest == Seq::new(n, |i: int| stub));
        if calls_through_stub(classes.last()) {
            assert(classes.last() is Other);
            assert(stubs(classes, stub) == rest.push(stub));
            assert(rest.push(stub) =~= Seq::new(n + 1, |i: int| stub));
        } else {
            assert(stubs(classes, stub) == rest);
        }
    } else {
        assert(classes.filter(pred).len() == 0) by {
            reveal(Seq::filter);
        }
        assert(stubs(classes, stub) =~= Seq::new(classes.filter(pred).len(), |i: int| stub));
    }
}

/// The blocks of one more section: a debugging section or metadata adds
/// none; any other section adds its own block (its alignment and its size),
/// then one stub for each of its relocations that may call through one.
pub proof fn law_layout_of_one_more(sections: Seq<SectionSize>, s: SectionSize, stub: SizeAlign)
    ensures
        (s.header.kind == SectKind::Debug || s.header.kind == SectKind::DebugString || s.header.kind == SectKind::Metadata)
            ==> layout_items(sections.push(s), stub) == layout_items(sections, stub),
        !(s.header.kind == SectKind::Debug || s.header.kind == SectKind::DebugString || s.header.kind == SectKind::Metadata)
            ==> layout_items(sections.push(s), stub) == layout_items(sections, stub)
                + seq![SizeAlign { align: s.header.align as usize, size: s.size as usize }]
                + Seq::new(s.classes@.filter(|c: RelocClass| calls_through_stub(c)).len(), |i: int| stub),
{
    let t = sections.push(s);
    assert(t.drop_last() =~= sections);
    assert(t.last() == s);
    law_one_stub_per_call(s.classes@, stub);
}

/// The blocks that the sections need (see [`layout_items`]).
pub fn size_layout(sections: &Vec<SectionSize>, stub: SizeAlign) -> (r: Vec<SizeAlign>)
    ensures
        r@ == layout_items(sections@, stub),
{
    let mut out: Vec<SizeAlign> = Vec::new();
    let mut i: usize = 0;
    while i < sections.len()
        invariant
            i <= sections.len(),
            out@ == layout_items(sections@.take(i as int), stub),
        decreases sections.len() - i,
    {
        let s = &sections[i];
        proof {
            assert(sections@.take(i + 1).drop_last() =~= sections@.take(i as int));
            assert(sections@.take(i + 1).last() == sections@[i as int]);
        }
        let loaded = match s.header.kind {
            SectKind::Debug | SectKind::DebugString | SectKind::Metadata => false,
            _ => true,
        };
        if loaded {
            out.push(SizeAlign { align: s.header.align as usize, size: s.size as usize });
            let mut k: usize = 0;
            let ghost base = out@;
            while k < s.classes.len()
                invariant
                    k <= s.classes.len(),
                    out@ == base + stubs(s.classes@.take(k as int), stub),
                decreases s.classes.len() - k,
            {
                proof {
                    assert(s.classes@.take(k + 1).drop_last() =~= s.classes@.take(k as int));
                    assert(s.classes@.take(k + 1).last() == s.classes@[k as int]);
                }
                match s.classes[k] {
                    RelocClass::Other => {
                        out.push(stub);
                        assert(out@ =~= base + stubs(s.classes@.take(k + 1), stub));
                    },
                    _ => {},
                }
                k = k + 1;
            }
            assert(s.classes@.take(s.classes.len() as int) =~= s.classes@);
        }
        i = i + 1;
    }
    assert(sections@.take(sections.len() as int) =~= sections@);
    out
}

/// `sections` is what size calculation reads from `bin`: each section in
/// order and, for a loaded one, its size and the kind of each relocation.
pub open spec fn sizes_of(bin: Seq<u8>, sections: Seq<SectionSize>) -> bool {
    &&& object_section(bin, sections.len() as usize) == Some(None::<RawSection>)
    &&& forall|i: int| 0 <= i < sections.len() ==> {
        let s = #[trigger] sections[i];
        &&& object_section(bin, i as usize) == Some(Some(s.header))
        &&& is_loaded(s.header.kind) ==> {
            &&& object_section_size(bin, i as usize) == Some(Some(s.size))
            &&& object_relocation_class(bin, i as usize, s.classes.len() as usize) == Some(None::<RelocClass>)
            &&& forall|k: int| 0 <= k < s.classes.len() ==> object_relocation_class(bin, i as usize, k as usize)
                == Some(Some(#[trigger] s.classes@[k]))
        }
    }
}

/// `v` is the kind of every relocation of the `i`-th section of `bin`, in
/// order, fewer than the bytes of `bin`.
pub open spec fn classes_read(bin: Seq<u8>, i: usize, v: Seq<RelocClass>) -> bool {
    &&& v.len() < bin.len()
    &&& object_relocation_class(bin, i, v.len() as usize) == Some(None::<RelocClass>)
    &&& forall|k: int| 0 <= k < v.len() ==> object_relocation_class(bin, i, k as usize) == Some(Some(#[trigger] v[k]))
}

/// `sections` is what size calculation reads from `bin` (see [`sizes_of`]),
/// with fewer sections, and for each loaded one fewer relocations, than the
/// bytes of `bin`.
pub open spec fn sizes_read(bin: Seq<u8>, sections: Seq<SectionSize>) -> bool {
    &&& sizes_of(bin, sections)
    &&& sections.len() < bin.len()
    &&& forall|i: int| 0 <= i < sections.len() && is_loaded(sections[i].header.kind)
        ==> (#[trigger] sections[i]).classes.len() < bin.len()
}

/// Reads the kinds of the relocations of the `i`-th section.
fn read_classes(bin: &[u8], i: usize) -> (r: Result<Vec<RelocClass>, CoFFRError>)
    ensures
        r matches Ok(v) ==> classes_read(bin@, i, v@),
        (exists|v: Seq<RelocClass>| classes_read(bin@, i, v)) ==> r is Ok,
{
    let ghost has = exists|v: Seq<RelocClass>| classes_read(bin@, i, v);
    let ghost w = choose|v: Seq<RelocClass>| classes_read(bin@, i, v);
    let mut out: Vec<RelocClass> = Vec::new();
    let mut k: usize = 0;
    while k < bin.len()
        invariant
            out.len() == k,
            forall|j: int| 0 <= j < k ==> object_relocation_class(bin@, i, j as usize) == Some(Some(#[trigger] out@[j])),
            has == exists|v: Seq<RelocClass>| classes_read(bin@, i, v),
            has ==> classes_read(bin@, i, w) && k <= w.len(),
        decreases bin.len() - k,
    {
        proof {
            if has && k < w.len() {
                assert(object_relocation_class(bin@, i, k) == Some(Some(w[k as int])));
            }
        }
        match obj_relocation_class(bin, i, k) {
            Err(e) => {
                return Err(CoFFRError::Object(e));
            },
            Ok(None) => {
                return Ok(out);
            },
            Ok(Some(c)) => {
                out.push(c);
            },
        }
        k = k + 1;
    }
    Err(CoFFRError::InvalidObject)
}

impl MemoryExecutable {
    /// The blocks that linking an object file takes in a slab, in order: for
    /// each section but debugging ones and metadata, its own block, then one
    /// stub for each relocation that may need one (see [`layout_items`]).
    /// Errors of the `object` crate come back as [`CoFFRError::Object`]; a
    /// file with more sections, or a loaded section with more relocations,
    /// than it has bytes is refused as [`CoFFRError::InvalidObject`].
    pub fn sizecalc(object: &[u8]) -> (r: Result<Vec<SizeAlign>, CoFFRError>)
        ensures
            r matches Ok(v) ==> object_arch(object@) is Some && exists|sections: Seq<SectionSize>| {
                &&& #[trigger] sizes_read(object@, sections)
                &&& v@ == layout_items(sections, stubsize(object_arch(object@).unwrap()))
            },
            r is Ok <==> object_arch(object@) is Some && exists|sections: Seq<SectionSize>| sizes_read(object@, sections),
    {
        let ghost has = exists|sections: Seq<SectionSize>| sizes_read(object@, sections);
        let ghost w = choose|sections: Seq<SectionSize>| sizes_read(object@, sections);
        let arch = match obj_arch(object) {
            Ok(a) => a,
            Err(e) => {
                return Err(CoFFRError::Object(e));
            },
        };
        let stub = get_stubsize(arch);
        let mut sections: Vec<SectionSize> = Vec::new();
        let mut i: usize = 0;
        let mut done = false;
        while i < object.len() && !done
            invariant
                sections.len() == i,
                forall|j: int| 0 <= j < i ==> {
                    let s = #[trigger] sections@[j];
                    &&& object_section(object@, j as usize) == Some(Some(s.header))
                    &&& is_loaded(s.header.kind) ==> {
                        &&& object_section_size(object@, j as usize) == Some(Some(s.size))
                        &&& object_relocation_class(object@, j as usize, s.classes.len() as usize) == Some(None::<RelocClass>)
                        &&& forall|k: int| 0 <= k < s.classes.len() ==> object_relocation_class(object@, j as usize, k as usize)
                            == Some(Some(#[trigger] s.classes@[k]))
                    }
                },
                forall|j: int| 0 <= j < i && is_loaded(sections@[j].header.kind)
                    ==> (#[trigger] sections@[j]).classes.len() < object.len(),
                done ==> object_section(object@, i as usize) == Some(None::<RawSection>),
                done ==> i < object.len(),
                has == exists|sections: Seq<SectionSize>| sizes_read(object@, sections),
                has ==> sizes_read(object@, w) && i <= w.len(),
            decreases object.len() - i + (if done { 0int } else { 1 }),
        {
            proof {
                if has && i < w.len() {
                    let ws = w[i as int];
                    assert(object_section(object@, i) == Some(Some(ws.header)));
                    if is_loaded(ws.header.kind) {
                        assert(classes_read(object@, i, ws.classes@));
                    }
                }
            }
            match obj_section(object, i) {
                Err(e) => {
                    return Err(CoFFRError::Object(e));
                },
                Ok(None) => {
                    done = true;
                },
                Ok(Some(header)) => {
                    let loaded = match header.kind {
                        SectKind::Debug | SectKind::DebugString | SectKind::Metadata => false,
                        _ => true,
                    };
                    let (size, classes) = if loaded {
                        let size = match obj_section_size(object, i) {
                            Err(e) => {
                                return Err(CoFFRError::Object(e));
                            },
                            Ok(Some(z)) => z,
                            Ok(None) => {
                                return Err(CoFFRError::InvalidObject);
                            },
                        };
                        (size, read_classes(object, i)?)
                    } else {
                        (0u64, Vec::new())
                    };
                    sections.push(SectionSize { header, size, classes });
                    i = i + 1;
                },
            }
        }
        if !done {
            return Err(CoFFRError::InvalidObject);
        }
        let r = size_layout(&sections, stub);
        assert(sizes_read(object@, sections@));
        Ok(r)
    }
}

} // verus!

//! Reading an object file, through the `object` crate, into plain values.
//!
//! Each reader below parses the bytes anew and returns plain values, so that
//! no value of the `object` crate outlives the call; what they return is
//! named, as a function of the bytes, by the `object_*` specifications.
use vstd::prelude::*;

use object::{Object, ObjectSection, ObjectSymbol};
use object::read::coff::ImageSymbol;

use crate::coffr::{
    CoFFRError, CoffImage, CoffSection, CoffSymbol, ObjArch, ObjKind, RawRelocation, RawSection,
    RawSymbol, RelocClass, RelocTarget, SectKind, SymSection,
};

verus! {

/// The kind of object file the bytes hold (`None` when they do not parse).
pub uninterp spec fn object_kind(bin: Seq<u8>) -> Option<ObjKind>;

/// The architecture of the object file.
pub uninterp spec fn object_arch(bin: Seq<u8>) -> Option<ObjArch>;

/// The `i`-th section, in file order (`Some(None)` past the last one).
pub uninterp spec fn object_section(bin: Seq<u8>, i: usize) -> Option<Option<RawSection>>;

/// The name of the `i`-th section.
pub uninterp spec fn object_section_name(bin: Seq<u8>, i: usize) -> Option<Option<Seq<u8>>>;

/// The contents of the `i`-th section, decompressed.
pub uninterp spec fn object_section_data(bin: Seq<u8>, i: usize) -> Option<Option<Seq<u8>>>;

/// The decompressed size of the `i`-th section.
pub uninterp spec fn object_section_size(bin: Seq<u8>, i: usize) -> Option<Option<u64>>;

/// The offset and target of the `k`-th relocation of the `i`-th section.
pub uninterp spec fn object_relocation(bin: Seq<u8>, i: usize, k: usize) -> Option<Option<(u64, RelocTarget)>>;

/// The COFF type of the `k`-th relocation of the `i`-th section (`None` for other formats).
pub uninterp spec fn object_relocation_type(bin: Seq<u8>, i: usize, k: usize) -> Option<Option<Option<u16>>>;

/// The kind of the `k`-th relocation of the `i`-th section.
pub uninterp spec fn object_relocation_class(bin: Seq<u8>, i: usize, k: usize) -> Option<Option<RelocClass>>;

/// The index and section of the `k`-th symbol, in file order.
pub uninterp spec fn object_symbol(bin: Seq<u8>, k: usize) -> Option<Option<(usize, SymSection)>>;

/// The address and kind (code or not) of the `k`-th symbol.
pub uninterp spec fn object_symbol_info(bin: Seq<u8>, k: usize) -> Option<Option<(u64, bool)>>;

/// The COFF storage class of the `k`-th symbol (`None` for other formats).
pub uninterp spec fn object_symbol_class(bin: Seq<u8>, k: usize) -> Option<Option<Option<u8>>>;

/// The name of the `k`-th symbol.
pub uninterp spec fn object_symbol_name(bin: Seq<u8>, k: usize) -> Option<Option<Seq<u8>>>;

/// `File::parse` and which kind of file it found.
#[verifier::external_body]
pub(crate) fn obj_kind(bin: &[u8]) -> (r: Result<ObjKind, object::Error>)
    ensures
        match r {
            Ok(v) => object_kind(bin@) == Some(v),
            Err(_) => object_kind(bin@) is None,
        },
{
    Ok(match object::File::parse(bin)? {
        object::File::Coff(_) => ObjKind::Coff,
        object::File::CoffBig(_) => ObjKind::CoffBig,
        _ => ObjKind::Other,
    })
}

/// `Object::architecture` of the parsed file.
#[verifier::external_body]
pub(crate) fn obj_arch(bin: &[u8]) -> (r: Result<ObjArch, object::Error>)
    ensures
        match r {
            Ok(v) => object_arch(bin@) == Some(v),
            Err(_) => object_arch(bin@) is None,
        },
{
    Ok(match object::File::parse(bin)?.architecture() {
        object::Architecture::Aarch64 => ObjArch::Aarch64,
        object::Architecture::Aarch64_Ilp32 => ObjArch::Aarch64Ilp32,
        object::Architecture::Arm => ObjArch::Arm,
        object::Architecture::X86_64 => ObjArch::X86_64,
        object::Architecture::X86_64_X32 => ObjArch::X86_64X32,
        object::Architecture::I386 => ObjArch::I386,
        object::Architecture::PowerPc64 => ObjArch::PowerPc64,
        object::Architecture::Riscv64 => ObjArch::Riscv64,
        _ => ObjArch::Other,
    })
}

/// The `i`-th item of `Object::sections`: its index, alignment and kind.
#[verifier::external_body]
pub(crate) fn obj_section(bin: &[u8], i: usize) -> (r: Result<Option<RawSection>, object::Error>)
    ensures
        match r {
            Ok(v) => object_section(bin@, i) == Some(v),
            Err(_) => object_section(bin@, i) is None,
        },
{
    let file = object::File::parse(bin)?;
    Ok(file.sections().nth(i).map(|s| RawSection {
        index: s.index().0,
        align: s.align(),
        kind: match s.kind() {
            object::SectionKind::Debug => SectKind::Debug,
            object::SectionKind::DebugString => SectKind::DebugString,
            object::SectionKind::Metadata => SectKind::Metadata,
            _ => SectKind::Other,
        },
    }))
}

/// `ObjectSection::name_bytes` of the `i`-th section.
#[verifier::external_body]
fn obj_section_name(bin: &[u8], i: usize) -> (r: Result<Option<Vec<u8>>, object::Error>)
    ensures
        match r {
            Ok(Some(v)) => object_section_name(bin@, i) == Some(Some(v@)),
            Ok(None) => object_section_name(bin@, i) == Some(None::<Seq<u8>>),
            Err(_) => object_section_name(bin@, i) is None,
        },
{
    let file = object::File::parse(bin)?;
    match file.sections().nth(i) {
        Some(s) => Ok(Some(s.name_bytes()?.to_vec())),
        None => Ok(None),
    }
}

/// `ObjectSection::uncompressed_data` of the `i`-th section.
#[verifier::external_body]
fn obj_section_data(bin: &[u8], i: usize) -> (r: Result<Option<Vec<u8>>, object::Error>)
    ensures
        match r {
            Ok(Some(v)) => object_section_data(bin@, i) == Some(Some(v@)),
            Ok(None) => object_section_data(bin@, i) == Some(None::<Seq<u8>>),
            Err(_) => object_section_data(bin@, i) is None,
        },
{
    let file = object::File::parse(bin)?;
    match file.sections().nth(i) {
        Some(s) => Ok(Some(s.uncompressed_data()?.into_owned())),
        None => Ok(None),
    }
}

/// The `uncompressed_size` of `ObjectSection::compressed_data` of the `i`-th section.
#[verifier::external_body]
pub(crate) fn obj_section_size(bin: &[u8], i: usize) -> (r: Result<Option<u64>, object::Error>)
    ensures
        match r {
            Ok(v) => object_section_size(bin@, i) == Some(v),
            Err(_) => object_section_size(bin@, i) is None,
        },
{
    let file = object::File::parse(bin)?;
    match file.sections().nth(i) {
        Some(s) => Ok(Some(s.compressed_data()?.uncompressed_size)),
        None => Ok(None),
    }
}

/// The offset and target of the `k`-th item of `ObjectSection::relocations`
/// of the `i`-th section.
#[verifier::external_body]
fn obj_relocation(bin: &[u8], i: usize, k: usize) -> (r: Result<Option<(u64, RelocTarget)>, object::Error>)
    ensures
        match r {
            Ok(v) => object_relocation(bin@, i, k) == Some(v),
            Err(_) => object_relocation(bin@, i, k) is None,
        },
{
    let file = object::File::parse(bin)?;
    Ok(file.sections().nth(i).and_then(|s| s.relocations().nth(k)).map(|(offset, r)| match r.target() {
        object::RelocationTarget::Symbol(idx) => (offset, RelocTarget::Symbol(idx.0)),
        object::RelocationTarget::Section(idx) => (offset, RelocTarget::Section(idx.0)),
        _ => (offset, RelocTarget::Absolute),
    }))
}

/// `Relocation::flags` (its COFF type) of the `k`-th relocation of the `i`-th section.
#[verifier::external_body]
fn obj_relocation_type(bin: &[u8], i: usize, k: usize) -> (r: Result<Option<Option<u16>>, object::Error>)
    ensures
        match r {
            Ok(v) => object_relocation_type(bin@, i, k) == Some(v),
            Err(_) => object_relocation_type(bin@, i, k) is None,
        },
{
    let file = object::File::parse(bin)?;
    Ok(file.sections().nth(i).and_then(|s| s.relocations().nth(k)).map(|(_, r)| match r.flags() {
        object::RelocationFlags::Coff { typ } => Some(typ),
        _ => None,
    }))
}

/// `Relocation::kind` of the `k`-th relocation of the `i`-th section.
#[verifier::external_body]
pub(crate) fn obj_relocation_class(bin: &[u8], i: usize, k: usize) -> (r: Result<Option<RelocClass>, object::Error>)
    ensures
        match r {
            Ok(v) => object_relocation_class(bin@, i, k) == Some(v),
            Err(_) => object_relocation_class(bin@, i, k) is None,
        },
{
    let file = object::File::parse(bin)?;
    Ok(file.sections().nth(i).and_then(|s| s.relocations().nth(k)).map(|(_, r)| match r.kind() {
        object::RelocationKind::Absolute => RelocClass::Absolute,
        object::RelocationKind::SectionIndex => RelocClass::SectionIndex,
        object::RelocationKind::SectionOffset => RelocClass::SectionOffset,
        _ => RelocClass::Other,
    }))
}

/// The index and `ObjectSymbol::section` of the `k`-th item of `Object::symbols`.
#[verifier::external_body]
fn obj_symbol(bin: &[u8], k: usize) -> (r: Result<Option<(usize, SymSection)>, object::Error>)
    ensures
        match r {
            Ok(v) => object_symbol(bin@, k) == Some(v),
            Err(_) => object_symbol(bin@, k) is None,
        },
{
    let file = object::File::parse(bin)?;
    Ok(file.symbols().nth(k).map(|s| (s.index().0, match s.section() {
        object::SymbolSection::None => SymSection::NoSection,
        object::SymbolSection::Undefined => SymSection::Undefined,
        object::SymbolSection::Absolute => SymSection::Absolute,
        object::SymbolSection::Common => SymSection::Common,
        object::SymbolSection::Section(idx) => SymSection::Section(idx.0),
        _ => SymSection::Unknown,
    })))
}

/// `ObjectSymbol::address` and whether `kind` is `Text`, of the `k`-th symbol.
#[verifier::external_body]
fn obj_symbol_info(bin: &[u8], k: usize) -> (r: Result<Option<(u64, bool)>, object::Error>)
    ensures
        match r {
            Ok(v) => object_symbol_info(bin@, k) == Some(v),
            Err(_) => object_symbol_info(bin@, k) is None,
        },
{
    let file = object::File::parse(bin)?;
    Ok(file.symbols().nth(k).map(|s| (s.address(), match s.kind() {
        object::SymbolKind::Text => true,
        _ => false,
    })))
}

/// The storage class (`ImageSymbol::storage_class` of `CoffSymbol::coff_symbol`)
/// of the `k`-th symbol of a COFF file; `None` for the symbols of other formats.
#[verifier::external_body]
fn obj_symbol_class(bin: &[u8], k: usize) -> (r: Result<Option<Option<u8>>, object::Error>)
    ensures
        match r {
            Ok(v) => object_symbol_class(bin@, k) == Some(v),
            Err(_) => object_symbol_class(bin@, k) is None,
        },
{
    Ok(match object::File::parse(bin)? {
        object::File::Coff(f) => f.symbols().nth(k).map(|s| Some(s.coff_symbol().storage_class())),
        object::File::CoffBig(f) => f.symbols().nth(k).map(|s| Some(s.coff_symbol().storage_class())),
        f => f.symbols().nth(k).map(|_| None),
    })
}

/// `ObjectSymbol::name_bytes` of the `k`-th symbol.
#[verifier::external_body]
fn obj_symbol_name(bin: &[u8], k: usize) -> (r: Result<Option<Vec<u8>>, object::Error>)
    ensures
        match r {
            Ok(Some(v)) => object_symbol_name(bin@, k) == Some(Some(v@)),
            Ok(None) => object_symbol_name(bin@, k) == Some(None::<Seq<u8>>),
            Err(_) => object_symbol_name(bin@, k) is None,
        },
{
    let file = object::File::parse(bin)?;
    match file.symbols().nth(k) {
        Some(s) => Ok(Some(s.name_bytes()?.to_vec())),
        None => Ok(None),
    }
}

/// `img` is what the `object` crate reads from `bin`: its kind and
/// architecture, each section in order (header, name, contents, size and
/// every relocation), and each symbol in order.
pub open spec fn image_of(bin: Seq<u8>, img: CoffImage) -> bool {
    &&& object_kind(bin) == Some(img.kind)
    &&& object_arch(bin) == Some(img.arch)
    &&& object_section(bin, img.sections.len() as usize) == Some(None::<RawSection>)
    &&& forall|i: int| 0 <= i < img.sections.len() ==> section_of(bin, i as usize, #[trigger] img.sections@[i])
    &&& object_symbol(bin, img.symbols.len() as usize) == Some(None::<(usize, SymSection)>)
    &&& forall|k: int| 0 <= k < img.symbols.len() ==> symbol_of(bin, k as usize, #[trigger] img.symbols@[k])
}

/// `s` is the `i`-th section of `bin`, with all its relocations.
pub open spec fn section_of(bin: Seq<u8>, i: usize, s: CoffSection) -> bool {
    &&& object_section(bin, i) == Some(Some(s.header))
    &&& object_section_name(bin, i) == Some(Some(s.name@))
    &&& object_section_data(bin, i) == Some(Some(s.data@))
    &&& object_section_size(bin, i) == Some(Some(s.size))
    &&& object_relocation(bin, i, s.relocations.len() as usize) == Some(None::<(u64, RelocTarget)>)
    &&& forall|k: int| 0 <= k < s.relocations.len() ==> relocation_of(bin, i, k as usize, #[trigger] s.relocations@[k])
}

/// `r` is the `k`-th relocation of the `i`-th section of `bin`.
pub open spec fn relocation_of(bin: Seq<u8>, i: usize, k: usize, r: RawRelocation) -> bool {
    &&& object_relocation(bin, i, k) == Some(Some((r.offset, r.target)))
    &&& object_relocation_type(bin, i, k) == Some(Some(r.typ))
    &&& object_relocation_class(bin, i, k) == Some(Some(r.class))
}

/// `s` is the `k`-th symbol of `bin`.
pub open spec fn symbol_of(bin: Seq<u8>, k: usize, s: CoffSymbol) -> bool {
    &&& object_symbol(bin, k) == Some(Some((s.info.index, s.info.section)))
    &&& object_symbol_info(bin, k) == Some(Some((s.info.address, s.info.is_text)))
    &&& object_symbol_class(bin, k) == Some(Some(s.info.storage_class))
    &&& object_symbol_name(bin, k) == Some(Some(s.name@))
}

/// `v` is every relocation of the `i`-th section of `bin`, in order, fewer
/// than the bytes of `bin` and than `u32::MAX - 1`.
pub open spec fn relocations_read(bin: Seq<u8>, i: usize, v: Seq<RawRelocation>) -> bool {
    &&& v.len() < bin.len()
    &&& v.len() < 0xFFFF_FFFE
    &&& object_relocation(bin, i, v.len() as usize) == Some(None::<(u64, RelocTarget)>)
    &&& forall|k: int| 0 <= k < v.len() ==> relocation_of(bin, i, k as usize, #[trigger] v[k])
}

/// `s` is the `i`-th section of `bin`, with all its relocations, fewer than
/// the bytes of `bin` and than `u32::MAX - 1`.
pub open spec fn section_read(bin: Seq<u8>, i: usize, s: CoffSection) -> bool {
    &&& section_of(bin, i, s)
    &&& s.relocations.len() < bin.len()
    &&& s.relocations.len() < 0xFFFF_FFFE
}

/// `img` is the image of `bin`, and its sections, symbols and each section's
/// relocations are fewer than the bytes of `bin` (relocations also fewer than
/// `u32::MAX - 1`): what [`read_image`] reads.
pub open spec fn image_read(bin: Seq<u8>, img: CoffImage) -> bool {
    &&& image_of(bin, img)
    &&& img.sections.len() < bin.len()
    &&& img.symbols.len() < bin.len()
    &&& forall|i: int| 0 <= i < img.sections.len() ==> section_read(bin, i as usize, #[trigger] img.sections@[i])
}

fn read_relocations(bin: &[u8], i: usize) -> (r: Result<Vec<RawRelocation>, CoFFRError>)
    ensures
        r matches Ok(v) ==> v.len() < u32::MAX && relocations_read(bin@, i, v@),
        (exists|v: Seq<RawRelocation>| relocations_read(bin@, i, v)) ==> r is Ok,
{
    let ghost has = exists|v: Seq<RawRelocation>| relocations_read(bin@, i, v);
    let ghost w = choose|v: Seq<RawRelocation>| relocations_read(bin@, i, v);
    let mut out: Vec<RawRelocation> = Vec::new();
    let mut k: usize = 0;
    while k < bin.len() && k < 0xFFFF_FFFE
        invariant
            out.len() == k,
            k <= 0xFFFF_FFFE,
            forall|j: int| 0 <= j < k ==> relocation_of(bin@, i, j as usize, #[trigger] out@[j]),
            has == exists|v: Seq<RawRelocation>| relocations_read(bin@, i, v),
            has ==> relocations_read(bin@, i, w) && k <= w.len(),
        decreases bin.len() - k,
    {
        proof {
            if has && k < w.len() {
                assert(relocation_of(bin@, i, k, w[k as int]));
            }
        }
        let (offset, target) = match obj_relocation(bin, i, k) {
            Err(e) => {
                return Err(CoFFRError::Object(e));
            },
            Ok(None) => {
                return Ok(out);
            },
            Ok(Some(v)) => v,
        };
        let typ = match obj_relocation_type(bin, i, k) {
            Err(e) => {
                return Err(CoFFRError::Object(e));
            },
            Ok(Some(t)) => t,
            Ok(None) => {
                return Err(CoFFRError::InvalidObject);
            },
        };
        let class = match obj_relocation_class(bin, i, k) {
            Err(e) => {
                return Err(CoFFRError::Object(e));
            },
            Ok(Some(c)) => c,
            Ok(None) => {
                return Err(CoFFRError::InvalidObject);
            },
        };
        out.push(RawRelocation { offset, target, typ, class });
        k = k + 1;
    }
    assert(!has);
    Err(CoFFRError::InvalidObject)
}

fn read_section(bin: &[u8], i: usize, header: RawSection) -> (r: Result<CoffSection, CoFFRError>)
    requires
        object_section(bin@, i) == Some(Some(header)),
    ensures
        r matches Ok(s) ==> section_read(bin@, i, s) && s.relocations.len() < u32::MAX,
        (exists|s: CoffSection| section_read(bin@, i, s)) ==> r is Ok,
{
    let ghost has = exists|s: CoffSection| section_read(bin@, i, s);
    let ghost w = choose|s: CoffSection| section_read(bin@, i, s);
    proof {
        if has {
            assert(relocations_read(bin@, i, w.relocations@));
        }
    }
    let name = match obj_section_name(bin, i) {
        Err(e) => {
            return Err(CoFFRError::Object(e));
        },
        Ok(Some(n)) => n,
        Ok(None) => {
            return Err(CoFFRError::InvalidObject);
        },
    };
    let data = match obj_section_data(bin, i) {
        Err(e) => {
            return Err(CoFFRError::Object(e));
        },
        Ok(Some(d)) => d,
        Ok(None) => {
            return Err(CoFFRError::InvalidObject);
        },
    };
    let size = match obj_section_size(bin, i) {
        Err(e) => {
            return Err(CoFFRError::Object(e));
        },
        Ok(Some(z)) => z,
        Ok(None) => {
            return Err(CoFFRError::InvalidObject);
        },
    };
    let relocations = read_relocations(bin, i)?;
    Ok(CoffSection { header, name, data, size, relocations })
}

fn read_symbol(bin: &[u8], k: usize, index: usize, section: SymSection) -> (r: Result<CoffSymbol, CoFFRError>)
    requires
        object_symbol(bin@, k) == Some(Some((index, section))),
    ensures
        r matches Ok(s) ==> symbol_of(bin@, k, s),
        (exists|s: CoffSymbol| symbol_of(bin@, k, s)) ==> r is Ok,
{
    let (address, is_text) = match obj_symbol_info(bin, k) {
        Err(e) => {
            return Err(CoFFRError::Object(e));
        },
        Ok(Some(v)) => v,
        Ok(None) => {
            return Err(CoFFRError::InvalidObject);
        },
    };
    let name = match obj_symbol_name(bin, k) {
        Err(e) => {
            return Err(CoFFRError::Object(e));
        },
        Ok(Some(n)) => n,
        Ok(None) => {
            return Err(CoFFRError::InvalidObject);
        },
    };
    let storage_class = match obj_symbol_class(bin, k) {
        Err(e) => {
            return Err(CoFFRError::Object(e));
        },
        Ok(Some(c)) => c,
        Ok(None) => {
            return Err(CoFFRError::InvalidObject);
        },
    };
    Ok(CoffSymbol { info: RawSymbol { index, section, address, storage_class, is_text }, name })
}

/// Reads an object file into plain values. Errors of the `object` crate come
/// back as [`CoFFRError::Object`]; a file with more sections, symbols or
/// relocations than it has bytes, or with a section of `u32::MAX - 1` or more
/// relocations, is refused as [`CoFFRError::InvalidObject`].
pub fn read_image(bin: &[u8]) -> (r: Result<CoffImage, CoFFRError>)
    ensures
        r matches Ok(img) ==> image_of(bin@, img),
        r matches Ok(img) ==> forall|i: int| 0 <= i < img.sections.len() ==> #[trigger] img.sections@[i].relocations.len() < u32::MAX,
        r matches Ok(img) ==> image_read(bin@, img),
        r is Ok <==> exists|img: CoffImage| image_read(bin@, img),
        object_kind(bin@) is None ==> r is Err,
{
    let ghost has = exists|img: CoffImage| image_read(bin@, img);
    let ghost w = choose|img: CoffImage| image_read(bin@, img);
    let kind = match obj_kind(bin) {
        Ok(k) => k,
        Err(e) => {
            return Err(CoFFRError::Object(e));
        },
    };
    let arch = match obj_arch(bin) {
        Ok(a) => a,
        Err(e) => {
            return Err(CoFFRError::Object(e));
        },
    };
    let mut sections: Vec<CoffSection> = Vec::new();
    let mut i: usize = 0;
    let mut done = false;
    while i < bin.len() && !done
        invariant
            sections.len() == i,
            forall|j: int| 0 <= j < i ==> section_of(bin@, j as usize, #[trigger] sections@[j]),
            forall|j: int| 0 <= j < i ==> #[trigger] sections@[j].relocations.len() < u32::MAX,
            forall|j: int| 0 <= j < i ==> section_read(bin@, j as usize, #[trigger] sections@[j]),
            done ==> object_section(bin@, i) == Some(None::<RawSection>),
            done ==> i < bin.len(),
            object_kind(bin@) == Some(kind),
            object_arch(bin@) == Some(arch),
            has == exists|img: CoffImage| image_read(bin@, img),
            has ==> image_read(bin@, w) && i <= w.sections.len(),
        decreases bin.len() - i + (if done { 0int } else { 1 }),
    {
        proof {
            if has && i < w.sections.len() {
                assert(section_read(bin@, i, w.sections@[i as int]));
            }
        }
        match obj_section(bin, i) {
            Err(e) => {
                return Err(CoFFRError::Object(e));
            },
            Ok(None) => {
                done = true;
            },
            Ok(Some(header)) => {
                let s = read_section(bin, i, header)?;
                sections.push(s);
                i = i + 1;
            },
        }
    }
    if !done {
        assert(!has);
        return Err(CoFFRError::InvalidObject);
    }
    let mut symbols: Vec<CoffSymbol> = Vec::new();
    let mut k: usize = 0;
    let mut done_sym = false;
    while k < bin.len() && !done_sym
        invariant
            symbols.len() == k,
            forall|j: int| 0 <= j < k ==> symbol_of(bin@, j as usize, #[trigger] symbols@[j]),
            done_sym ==> object_symbol(bin@, k) == Some(None::<(usize, SymSection)>),
            done_sym ==> k < bin.len(),
            has == exists|img: CoffImage| image_read(bin@, img),
            has ==> image_read(bin@, w) && k <= w.symbols.len(),
        decreases bin.len() - k + (if done_sym { 0int } else { 1 }),
    {
        proof {
            if has && k < w.symbols.len() {
                assert(symbol_of(bin@, k, w.symbols@[k as int]));
            }
        }
        match obj_symbol(bin, k) {
            Err(e) => {
                return Err(CoFFRError::Object(e));
            },
            Ok(None) => {
                done_sym = true;
            },
            Ok(Some((index, section))) => {
                let s = read_symbol(bin, k, index, section)?;
                symbols.push(s);
                k = k + 1;
            },
        }
    }
    if !done_sym {
        assert(!has);
        return Err(CoFFRError::InvalidObject);
    }
    let img = CoffImage { kind, arch, sections, symbols };
    assert(image_read(bin@, img));
    Ok(img)
}

} // verus!

//! COFFR: the linker for PE/COFF object files.
use vstd::prelude::*;

pub mod arch;
pub mod cache;
pub mod gp;
pub mod loader;
pub mod object_read;

use crate::advanced::SlabState;
use crate::advanced::transaction::MemoryTransaction;
use crate::coffr::arch::{link_binary, link_result};
use crate::coffr::cache::LinkerTransaction;
use crate::coffr::object_read::{image_of, image_read, object_kind, obj_kind, read_image};

verus! {

#[verifier::external_type_specification]
#[verifier::external_body]
pub struct ExObjectError(object::Error);

/// What can go wrong while linking a COFF object.
#[derive(Debug, Clone, Copy)]
pub enum CoFFRError {
    RelocsOutsideTextData,
    InvalidObject,
    UnderSized,
    UnknownRelocation(u16),
    Arm64AlignmentError(u64, u64),
    /// The value that did not fit, and the width of the field in bits.
    RelocationOverflow(u64, u64),
    ConvertU32Err,
    Object(object::Error),
}

impl From<object::Error> for CoFFRError {
    fn from(value: object::Error) -> (r: Self) {
        CoFFRError::Object(value)
    }
}

impl vstd::std_specs::convert::FromSpecImpl<object::Error> for CoFFRError {
    open spec fn obeys_from_spec() -> bool {
        true
    }

    open spec fn from_spec(value: object::Error) -> Self {
        CoFFRError::Object(value)
    }
}

/// The kind of object file.
#[derive(Debug, Clone, Copy, PartialEq, Eq, Structural)]
pub enum ObjKind {
    Coff,
    CoffBig,
    Other,
}

/// The architecture an object file is for.
#[derive(Debug, Clone, Copy, PartialEq, Eq, Structural)]
pub enum ObjArch {
    Aarch64,
    Aarch64Ilp32,
    Arm,
    X86_64,
    X86_64X32,
    I386,
    PowerPc64,
    Riscv64,
    Other,
}

/// The kinds of section that size calculation leaves out, and the rest.
#[derive(Debug, Clone, Copy, PartialEq, Eq, Structural)]
pub enum SectKind {
    Debug,
    DebugString,
    Metadata,
    Other,
}

/// What a relocation in an object file refers to.
#[derive(Debug, Clone, Copy, PartialEq, Eq, Structural)]
pub enum RelocTarget {
    Symbol(usize),
    Section(usize),
    Absolute,
}

/// The generic kind of a relocation in an object file.
#[derive(Debug, Clone, Copy, PartialEq, Eq, Structural)]
pub enum RelocClass {
    Absolute,
    SectionIndex,
    SectionOffset,
    Other,
}

/// Where a symbol of an object file is defined.
#[derive(Debug, Clone, Copy, PartialEq, Eq, Structural)]
pub enum SymSection {
    Unknown,
    NoSection,
    Undefined,
    Absolute,
    Common,
    Section(usize),
}

/// A section header: its index, alignment and kind.
#[derive(Debug, Clone, Copy)]
pub struct RawSection {
    pub index: usize,
    pub align: u64,
    pub kind: SectKind,
}

/// A relocation of an object file.
#[derive(Debug, Clone, Copy)]
pub struct RawRelocation {
    pub offset: u64,
    pub target: RelocTarget,
    /// The COFF relocation type; `None` for other formats.
    pub typ: Option<u16>,
    pub class: RelocClass,
}

/// A symbol of an object file (its name apart).
#[derive(Debug, Clone, Copy)]
pub struct RawSymbol {
    pub index: usize,
    pub section: SymSection,
    pub address: u64,
    /// The COFF storage class of the symbol (`None` for other formats).
    pub storage_class: Option<u8>,
    /// The symbol is code (a function).
    pub is_text: bool,
}

/// A section of an object file, with its contents and relocations.
pub struct CoffSection {
    pub header: RawSection,
    pub name: Vec<u8>,
    pub data: Vec<u8>,
    /// The decompressed size of the section.
    pub size: u64,
    pub relocations: Vec<RawRelocation>,
}

/// A symbol of an object file, with its name.
pub struct CoffSymbol {
    pub info: RawSymbol,
    pub name: Vec<u8>,
}

/// An object file, read into plain values.
pub struct CoffImage {
    pub kind: ObjKind,
    pub arch: ObjArch,
    pub sections: Vec<CoffSection>,
    pub symbols: Vec<CoffSymbol>,
}

/// Which of the two linked sections a symbol lies in, with the section index.
#[derive(Debug, Clone, Copy)]
pub enum SectionIdx {
    Text(usize),
    RData(usize),
}

/// A symbol's value before placement: an absolute address, or an offset in a section.
#[derive(Debug, Clone, Copy)]
pub enum Resolved {
    Absolute(u64),
    Section { idx: SectionIdx, offset: u64 },
}

/// A COFF relocation: its type, the offset `P` of its site, and its symbol `S`.
#[derive(Debug, Clone, Copy)]
pub struct Relocation {
    pub typ: u16,
    pub position_offset: u64,
    pub symbol: Resolved,
}

/// The architectures the COFF linker handles.
#[derive(Debug, Clone, Copy, PartialEq, Eq, Structural)]
pub enum Arch {
    Arm64,
    X64,
    X86,
}

/// A symbol's name: as text when it is UTF-8, else as bytes.
#[derive(Debug, Clone, Copy, PartialEq, Eq, PartialOrd, Ord, Hash)]
pub enum Name<'a> {
    UTF8(&'a str),
    Bytes(&'a [u8]),
}

/// A symbol with its name and its value before placement.
#[derive(Debug, Clone, Copy)]
pub struct Symbol<'a> {
    pub name: Name<'a>,
    pub resolved: Resolved,
}

/// The text that `bytes` encode in UTF-8, if they are valid UTF-8.
pub uninterp spec fn utf8_decode(bytes: Seq<u8>) -> Option<Seq<char>>;

/// `std::str::from_utf8`: the bytes as text, when they are valid UTF-8.
#[verifier::external_body]
fn str_from_utf8(bytes: &[u8]) -> (r: Option<&str>)
    ensures
        match r {
            Some(s) => utf8_decode(bytes@) == Some(s@),
            None => utf8_decode(bytes@) is None,
        },
{
    std::str::from_utf8(bytes).ok()
}

/// `n` is the name made from `bytes`.
pub open spec fn name_from(n: Name, bytes: Seq<u8>) -> bool {
    match n {
        Name::UTF8(s) => utf8_decode(bytes) == Some(s@),
        Name::Bytes(b) => utf8_decode(bytes) is None && b@ == bytes,
    }
}

/// Makes a symbol's name from its bytes.
pub fn make_name<'a>(bytes: &'a Vec<u8>) -> (r: Name<'a>)
    ensures
        name_from(r, bytes@),
{
    match str_from_utf8(bytes.as_slice()) {
        Some(s) => Name::UTF8(s),
        None => Name::Bytes(bytes.as_slice()),
    }
}

/// The bytes `.text`.
pub open spec fn text_name() -> Seq<u8> {
    seq![0x2eu8, 0x74, 0x65, 0x78, 0x74]
}

/// The bytes `.rdata`.
pub open spec fn rdata_name() -> Seq<u8> {
    seq![0x2eu8, 0x72, 0x64, 0x61, 0x74, 0x61]
}

/// The bytes `.data`.
pub open spec fn data_name() -> Seq<u8> {
    seq![0x2eu8, 0x64, 0x61, 0x74, 0x61]
}

/// The bytes `.bss`.
pub open spec fn bss_name() -> Seq<u8> {
    seq![0x2eu8, 0x62, 0x73, 0x73]
}

/// `prefix` starts `s`.
pub open spec fn starts_with(s: Seq<u8>, prefix: Seq<u8>) -> bool {
    prefix.len() <= s.len() && s.subrange(0, prefix.len() as int) == prefix
}

pub fn bytes_eq(a: &[u8], b: &[u8]) -> (r: bool)
    ensures
        r == (a@ == b@),
{
    if a.len() != b.len() {
        return false;
    }
    let mut i: usize = 0;
    while i < a.len()
        invariant
            a.len() == b.len(),
            i <= a.len(),
            forall|j: int| 0 <= j < i ==> a@[j] == b@[j],
        decreases a.len() - i,
    {
        if a[i] != b[i] {
            return false;
        }
        i = i + 1;
    }
    assert(a@ =~= b@);
    true
}

pub fn bytes_starts_with(a: &[u8], prefix: &[u8]) -> (r: bool)
    ensures
        r == starts_with(a@, prefix@),
{
    if prefix.len() > a.len() {
        return false;
    }
    let mut i: usize = 0;
    while i < prefix.len()
        invariant
            prefix.len() <= a.len(),
            i <= prefix.len(),
            forall|j: int| 0 <= j < i ==> a@[j] == prefix@[j],
        decreases prefix.len() - i,
    {
        if a[i] != prefix[i] {
            return false;
        }
        i = i + 1;
    }
    assert(a@.subrange(0, prefix.len() as int) =~= prefix@);
    true
}

pub(crate) fn text_bytes() -> (r: Vec<u8>)
    ensures
        r@ == text_name(),
{
    let r = vec![0x2eu8, 0x74, 0x65, 0x78, 0x74];
    assert(r@ =~= text_name());
    r
}

pub(crate) fn rdata_bytes() -> (r: Vec<u8>)
    ensures
        r@ == rdata_name(),
{
    let r = vec![0x2eu8, 0x72, 0x64, 0x61, 0x74, 0x61];
    assert(r@ =~= rdata_name());
    r
}

pub(crate) fn data_bytes() -> (r: Vec<u8>)
    ensures
        r@ == data_name(),
{
    let r = vec![0x2eu8, 0x64, 0x61, 0x74, 0x61];
    assert(r@ =~= data_name());
    r
}

pub(crate) fn bss_bytes() -> (r: Vec<u8>)
    ensures
        r@ == bss_name(),
{
    let r = vec![0x2eu8, 0x62, 0x73, 0x73];
    assert(r@ =~= bss_name());
    r
}

/// The position of the first symbol with index `idx`.
pub open spec fn find_symbol(img: CoffImage, idx: usize) -> Option<int> {
    if exists|k: int| 0 <= k < img.symbols.len() && img.symbols@[k].info.index == idx {
        Some(choose|k: int| 0 <= k < img.symbols.len() && img.symbols@[k].info.index == idx
            && forall|j: int| 0 <= j < k ==> img.symbols@[j].info.index != idx)
    } else {
        None
    }
}

/// The position of the first section with index `idx`.
pub open spec fn find_section(img: CoffImage, idx: usize) -> Option<int> {
    if exists|k: int| 0 <= k < img.sections.len() && img.sections@[k].header.index == idx {
        Some(choose|k: int| 0 <= k < img.sections.len() && img.sections@[k].header.index == idx
            && forall|j: int| 0 <= j < k ==> img.sections@[j].header.index != idx)
    } else {
        None
    }
}

/// The placement-relative value of section `id`, at `offset`, when it is
/// `.text` or `.rdata`. An index that names no section of the image is
/// refused as [`CoFFRError::InvalidObject`]: the image holds no error of the
/// `object` crate to give back for it.
pub open spec fn section_symbol(img: CoffImage, id: usize, offset: u64) -> Result<Resolved, CoFFRError> {
    match find_section(img, id) {
        None => Err(CoFFRError::InvalidObject),
        Some(j) => if img.sections@[j].name@ == text_name() {
            Ok(Resolved::Section { idx: SectionIdx::Text(id), offset })
        } else if img.sections@[j].name@ == rdata_name() {
            Ok(Resolved::Section { idx: SectionIdx::RData(id), offset })
        } else {
            Err(CoFFRError::RelocsOutsideTextData)
        },
    }
}

/// The value of the symbol at position `k`, with `undefined` the value the
/// resolver gave for it if it is undefined.
pub open spec fn symbol_value(img: CoffImage, k: int, undefined: u64) -> Result<Resolved, CoFFRError> {
    let info = img.symbols@[k].info;
    match info.section {
        SymSection::Absolute => Ok(Resolved::Absolute(info.address)),
        SymSection::Undefined => Ok(Resolved::Absolute(undefined)),
        SymSection::Section(id) => section_symbol(img, id, info.address),
        _ => Err(CoFFRError::InvalidObject),
    }
}

/// `r` is what resolving the symbol at position `k` may give: its name, and its
/// value, asking the resolver for it when the symbol is undefined.
pub open spec fn resolved_at<'a, R: Fn(Name<'a>) -> u64>(
    img: CoffImage,
    k: int,
    resolve: R,
    r: Result<Symbol<'a>, CoFFRError>,
) -> bool {
    match r {
        Ok(sym) => name_from(sym.name, img.symbols@[k].name@) && exists|v: u64| {
            &&& (img.symbols@[k].info.section == SymSection::Undefined ==> call_ensures(resolve, (sym.name,), v))
            &&& symbol_value(img, k, v) == Ok::<Resolved, CoFFRError>(sym.resolved)
        },
        Err(e) => forall|v: u64| symbol_value(img, k, v) == Err::<Resolved, CoFFRError>(e),
    }
}

pub fn find_symbol_exec(img: &CoffImage, idx: usize) -> (r: Option<usize>)
    ensures
        match r {
            Some(k) => k < img.symbols.len() && find_symbol(*img, idx) == Some(k as int),
            None => find_symbol(*img, idx) is None,
        },
{
    let mut k: usize = 0;
    while k < img.symbols.len()
        invariant
            k <= img.symbols.len(),
            forall|j: int| 0 <= j < k ==> img.symbols@[j].info.index != idx,
        decreases img.symbols.len() - k,
    {
        if img.symbols[k].info.index == idx {
            assert(find_symbol(*img, idx) == Some(k as int));
            return Some(k);
        }
        k = k + 1;
    }
    None
}

pub fn find_section_exec(img: &CoffImage, idx: usize) -> (r: Option<usize>)
    ensures
        match r {
            Some(k) => k < img.sections.len() && find_section(*img, idx) == Some(k as int),
            None => find_section(*img, idx) is None,
        },
{
    let mut k: usize = 0;
    while k < img.sections.len()
        invariant
            k <= img.sections.len(),
            forall|j: int| 0 <= j < k ==> img.sections@[j].header.index != idx,
        decreases img.sections.len() - k,
    {
        if img.sections[k].header.index == idx {
            assert(find_section(*img, idx) == Some(k as int));
            return Some(k);
        }
        k = k + 1;
    }
    None
}

fn section_symbol_exec(img: &CoffImage, id: usize, offset: u64) -> (r: Result<Resolved, CoFFRError>)
    ensures
        r == section_symbol(*img, id, offset),
{
    match find_section_exec(img, id) {
        None => Err(CoFFRError::InvalidObject),
        Some(j) => {
            let name = &img.sections[j].name;
            if bytes_eq(name.as_slice(), text_bytes().as_slice()) {
                Ok(Resolved::Section { idx: SectionIdx::Text(id), offset })
            } else if bytes_eq(name.as_slice(), rdata_bytes().as_slice()) {
                Ok(Resolved::Section { idx: SectionIdx::RData(id), offset })
            } else {
                Err(CoFFRError::RelocsOutsideTextData)
            }
        },
    }
}

/// Resolves the symbol at position `k` of the image: its name, and its value,
/// asking `resolve` when the symbol is undefined. A symbol in no section, or
/// in a common or unknown one, is refused as [`CoFFRError::InvalidObject`].
pub fn resolve_symbol<'a, R: Fn(Name<'a>) -> u64>(
    img: &'a CoffImage,
    k: usize,
    resolve: &R,
) -> (r: Result<Symbol<'a>, CoFFRError>)
    requires
        k < img.symbols.len(),
        forall|n: Name<'a>| call_requires(*resolve, (n,)),
    ensures
        resolved_at(*img, k as int, *resolve, r),
{
    let symbol = &img.symbols[k];
    let name = make_name(&symbol.name);
    let resolved = match symbol.info.section {
        SymSection::Absolute => Resolved::Absolute(symbol.info.address),
        SymSection::Undefined => {
            let v = resolve(name);
            assert(symbol_value(*img, k as int, v) == Ok::<Resolved, CoFFRError>(Resolved::Absolute(v)));
            Resolved::Absolute(v)
        },
        SymSection::Section(id) => {
            match section_symbol_exec(img, id, symbol.info.address) {
                Ok(r) => r,
                Err(e) => {
                    return Err(e);
                },
            }
        },
        _ => {
            return Err(CoFFRError::InvalidObject);
        },
    };
    let sym = Symbol { name, resolved };
    assert(symbol_value(*img, k as int, 0) == Ok::<Resolved, CoFFRError>(resolved)
        || img.symbols@[k as int].info.section == SymSection::Undefined);
    Ok(sym)
}

/// Resolves every symbol of the image, in order, asking `resolve` once for
/// each undefined one.
pub fn resolve_symbols<'a, R: Fn(Name<'a>) -> u64>(
    img: &'a CoffImage,
    resolve: &R,
) -> (r: Vec<Result<Symbol<'a>, CoFFRError>>)
    requires
        forall|n: Name<'a>| call_requires(*resolve, (n,)),
    ensures
        r.len() == img.symbols.len(),
        forall|k: int| 0 <= k < r.len() ==> resolved_at(*img, k, *resolve, #[trigger] r@[k]),
{
    let mut out: Vec<Result<Symbol<'a>, CoFFRError>> = Vec::new();
    let mut k: usize = 0;
    while k < img.symbols.len()
        invariant
            k <= img.symbols.len(),
            out.len() == k,
            forall|n: Name<'a>| call_requires(*resolve, (n,)),
            forall|j: int| 0 <= j < k ==> resolved_at(*img, j, *resolve, #[trigger] out@[j]),
        decreases img.symbols.len() - k,
    {
        let s = resolve_symbol(img, k, resolve);
        out.push(s);
        k = k + 1;
    }
    out
}

/// The symbol `S` that a relocation refers to, before placement.
pub open spec fn reloc_symbol(
    img: CoffImage,
    table: Seq<Result<Symbol, CoFFRError>>,
    target: RelocTarget,
) -> Result<Resolved, CoFFRError> {
    match target {
        RelocTarget::Absolute => Ok(Resolved::Absolute(0)),
        RelocTarget::Symbol(idx) => match find_symbol(img, idx) {
            None => Err(CoFFRError::InvalidObject),
            Some(k) => match table[k] {
                Ok(s) => Ok(s.resolved),
                Err(e) => Err(e),
            },
        },
        RelocTarget::Section(idx) => section_symbol(img, idx, 0),
    }
}

/// A relocation of the image as the linker reads it: its COFF type, the
/// offset of its site, and its symbol, taken from the resolved symbols
/// `table` (one for each symbol of the image, in order).
pub open spec fn reloc_of(
    img: CoffImage,
    table: Seq<Result<Symbol, CoFFRError>>,
    r: RawRelocation,
) -> Result<Relocation, CoFFRError> {
    match reloc_symbol(img, table, r.target) {
        Err(e) => Err(e),
        Ok(symbol) => match r.typ {
            None => Err(CoFFRError::InvalidObject),
            Some(typ) => Ok(Relocation { typ, position_offset: r.offset, symbol }),
        },
    }
}

/// Each relocation of a section, as the linker reads it.
pub open spec fn relocs_of(
    img: CoffImage,
    table: Seq<Result<Symbol, CoFFRError>>,
    raws: Seq<RawRelocation>,
) -> Seq<Result<Relocation, CoFFRError>> {
    Seq::new(raws.len(), |j: int| reloc_of(img, table, raws[j]))
}

/// Reads the relocations of a section: each one's symbol comes from the
/// resolved symbols `table`, a section symbol must be `.text` or `.rdata`, and
/// a relocation without a COFF type is refused as [`CoFFRError::InvalidObject`].
pub fn relocparser<'a>(
    img: &CoffImage,
    raws: &Vec<RawRelocation>,
    table: &Vec<Result<Symbol<'a>, CoFFRError>>,
) -> (r: Vec<Result<Relocation, CoFFRError>>)
    requires
        table.len() == img.symbols.len(),
    ensures
        r@ == relocs_of(*img, table@, raws@),
{
    let mut out: Vec<Result<Relocation, CoFFRError>> = Vec::new();
    let mut j: usize = 0;
    while j < raws.len()
        invariant
            j <= raws.len(),
            table.len() == img.symbols.len(),
            out@ =~= relocs_of(*img, table@, raws@).take(j as int),
        decreases raws.len() - j,
    {
        let raw = raws[j];
        let symbol: Result<Resolved, CoFFRError> = match raw.target {
            RelocTarget::Absolute => Ok(Resolved::Absolute(0)),
            RelocTarget::Symbol(idx) => match find_symbol_exec(img, idx) {
                None => Err(CoFFRError::InvalidObject),
                Some(k) => match &table[k] {
                    Ok(s) => Ok(s.resolved),
                    Err(e) => Err(*e),
                },
            },
            RelocTarget::Section(idx) => section_symbol_exec(img, idx, 0),
        };
        let item = match symbol {
            Err(e) => Err(e),
            Ok(symbol) => match raw.typ {
                None => Err(CoFFRError::InvalidObject),
                Some(typ) => Ok(Relocation { typ, position_offset: raw.offset, symbol }),
            },
        };
        assert(item == reloc_of(*img, table@, raws@[j as int]));
        out.push(item);
        j = j + 1;
    }
    out
}

/// A COFF object file, read for linking.
pub struct CoFFR {
    pub image: CoffImage,
}

/// `r` is what reading `bin` as an object file of `kind` gives: an error of
/// the `object` crate when it is no object file, [`CoFFRError::InvalidObject`]
/// when it is of another kind, and else the image of `bin`, which it gives
/// exactly when the whole file can be read (see [`image_read`]).
pub open spec fn parsed(bin: Seq<u8>, kind: ObjKind, r: Result<CoFFR, CoFFRError>) -> bool {
    match object_kind(bin) {
        None => r matches Err(CoFFRError::Object(_)),
        Some(k) => if k != kind {
            r == Err::<CoFFR, CoFFRError>(CoFFRError::InvalidObject)
        } else {
            &&& (r is Ok <==> exists|img: CoffImage| image_read(bin, img))
            &&& r matches Ok(c) ==> image_of(bin, c.image) && image_read(bin, c.image) && c.wf()
        },
    }
}

/// Reads `bin` as an object file of `kind`.
fn parse_kind(bin: &[u8], kind: ObjKind) -> (r: Result<CoFFR, CoFFRError>)
    ensures
        parsed(bin@, kind, r),
{
    match obj_kind(bin) {
        Err(e) => Err(CoFFRError::Object(e)),
        Ok(k) => {
            if k != kind {
                Err(CoFFRError::InvalidObject)
            } else {
                let image = read_image(bin)?;
                Ok(CoFFR { image })
            }
        },
    }
}

/// A kind of COFF object file that the linker reads.
pub trait SaJITCoffType {
    /// The kind of object file.
    spec fn kind() -> ObjKind;

    /// Reads `bin` as an object file of this kind.
    fn parse(bin: &[u8]) -> (r: Result<CoFFR, CoFFRError>)
        ensures
            parsed(bin@, Self::kind(), r),
    ;
}

/// The plain COFF file.
pub struct SaJITCoffNormal;

impl SaJITCoffType for SaJITCoffNormal {
    open spec fn kind() -> ObjKind {
        ObjKind::Coff
    }

    fn parse(bin: &[u8]) -> (r: Result<CoFFR, CoFFRError>) {
        parse_kind(bin, ObjKind::Coff)
    }
}

/// The big-object COFF file (`/bigobj`).
pub struct SaJITCoffBig;

impl SaJITCoffType for SaJITCoffBig {
    open spec fn kind() -> ObjKind {
        ObjKind::CoffBig
    }

    fn parse(bin: &[u8]) -> (r: Result<CoFFR, CoFFRError>) {
        parse_kind(bin, ObjKind::CoffBig)
    }
}

/// The linker's architecture for an object file's one.
pub open spec fn link_arch(arch: ObjArch) -> Arch {
    match arch {
        ObjArch::Aarch64 => Arch::Arm64,
        ObjArch::I386 => Arch::X86,
        _ => Arch::X64,
    }
}

/// An image the linker takes: its architecture is AArch64, x86-64 or i386, it
/// has a section named `.text`, and its sections named `.bss` or `.data` are
/// empty.
pub open spec fn linkable(img: CoffImage) -> bool {
    &&& (img.arch == ObjArch::Aarch64 || img.arch == ObjArch::X86_64 || img.arch == ObjArch::I386)
    &&& exists|i: int| 0 <= i < img.sections.len() && #[trigger] img.sections@[i].name@ == text_name()
    &&& forall|i: int| 0 <= i < img.sections.len() ==> empty_if_bss_or_data(#[trigger] img.sections@[i])
}

/// A section named `.bss` or `.data` is empty.
pub open spec fn empty_if_bss_or_data(s: CoffSection) -> bool {
    (s.name@ == bss_name() || s.name@ == data_name()) ==> s.size == 0
}

/// `r` is what linking `img` gives, with each symbol resolved by `resolve`
/// (see [`link_result`]): for some resolution of the symbols, one for each
/// symbol, as `resolve` may answer.
pub open spec fn linked_with<'d, R: Fn(Name<'d>) -> u64>(
    img: CoffImage,
    resolve: R,
    s0: SlabState,
    cursor: usize,
    writes: usize,
    total: usize,
    s1: SlabState,
    r: Result<Vec<Result<(Name<'d>, u64), CoFFRError>>, CoFFRError>,
) -> bool {
    exists|table: Seq<Result<Symbol<'d>, CoFFRError>>| {
        &&& table.len() == img.symbols.len()
        &&& forall|k: int| 0 <= k < table.len() ==> resolved_at(img, k, resolve, #[trigger] table[k])
        &&& #[trigger] link_result(img, link_arch(img.arch), table, s0, cursor, writes, total, s1, r)
    }
}

/// Every section name of the image is text (valid UTF-8).
pub open spec fn names_are_text(img: CoffImage) -> bool {
    forall|i: int| 0 <= i < img.sections.len() ==> #[trigger] utf8_decode(img.sections@[i].name@) is Some
}

/// Whether every section name of the image is text (see [`names_are_text`]).
fn names_are_text_exec(img: &CoffImage) -> (r: bool)
    ensures
        r == names_are_text(*img),
{
    let mut i: usize = 0;
    while i < img.sections.len()
        invariant
            i <= img.sections.len(),
            forall|j: int| 0 <= j < i ==> #[trigger] utf8_decode(img.sections@[j].name@) is Some,
        decreases img.sections.len() - i,
    {
        if str_from_utf8(img.sections[i].name.as_slice()).is_none() {
            return false;
        }
        i = i + 1;
    }
    true
}

impl CoFFR {
    /// No section has `u32::MAX` or more relocations.
    pub open spec fn wf(&self) -> bool {
        forall|i: int| 0 <= i < self.image.sections.len() ==> #[trigger] self.image.sections@[i].relocations.len() < u32::MAX
    }

    /// Reads a plain COFF file.
    pub fn new(bin: &[u8]) -> (r: Result<CoFFR, CoFFRError>)
        ensures
            parsed(bin@, ObjKind::Coff, r),
    {
        Self::new_with::<SaJITCoffNormal>(bin)
    }

    /// Reads a COFF file of the kind `E`.
    pub fn new_with<E: SaJITCoffType>(bin: &[u8]) -> (r: Result<CoFFR, CoFFRError>)
        ensures
            parsed(bin@, E::kind(), r),
    {
        E::parse(bin)
    }

    /// Whether the linker takes this image (see [`linkable`]).
    pub fn is_linkable(&self) -> (r: bool)
        ensures
            r == linkable(self.image),
    {
        let img = &self.image;
        if !(img.arch == ObjArch::Aarch64 || img.arch == ObjArch::X86_64 || img.arch == ObjArch::I386) {
            return false;
        }
        let text = text_bytes();
        let bss = bss_bytes();
        let data = data_bytes();
        let mut has_text = false;
        let mut i: usize = 0;
        while i < img.sections.len()
            invariant
                i <= img.sections.len(),
                *img == self.image,
                text@ == text_name(),
                bss@ == bss_name(),
                data@ == data_name(),
                has_text == exists|j: int| 0 <= j < i && #[trigger] img.sections@[j].name@ == text_name(),
                forall|j: int| 0 <= j < i ==> empty_if_bss_or_data(#[trigger] img.sections@[j]),
            decreases img.sections.len() - i,
        {
            let name = img.sections[i].name.as_slice();
            if bytes_eq(name, text.as_slice()) {
                has_text = true;
            }
            if (bytes_eq(name, bss.as_slice()) || bytes_eq(name, data.as_slice())) && img.sections[i].size != 0 {
                assert(!empty_if_bss_or_data(img.sections@[i as int]));
                return false;
            }
            i = i + 1;
        }
        has_text
    }

    /// Links the image into the slab under `memory`: resolves its symbols
    /// with `resolve`, then places and relocates its `.text` and `.rdata`
    /// sections (see [`link_binary`]). Gives each symbol with its final
    /// address; on an error the transaction is rolled back. A file with a
    /// section name that is not text is refused as
    /// [`CoFFRError::InvalidObject`] before anything is written.
    pub fn link<'d, 'm, 't, R: Fn(Name<'d>) -> u64>(
        &'d self,
        resolve: &R,
        memory: MemoryTransaction<'m>,
        vect: LinkerTransaction<'t>,
    ) -> (r: Result<Vec<Result<(Name<'d>, u64), CoFFRError>>, CoFFRError>)
        requires
            self.wf(),
            linkable(self.image),
            forall|n: Name<'d>| call_requires(*resolve, (n,)),
            memory.wf(),
            memory.memory@.stored + 2 * self.image.sections.len() + memory.total < usize::MAX,
            vect.wf(),
            vect.entries().len() == 0,
        ensures
            final(vect.0).wf(),
            final(vect.0)@.len() == 0,
            final(memory.memory).wf(),
            !names_are_text(self.image) ==> {
                &&& r == Err::<Vec<Result<(Name<'d>, u64), CoFFRError>>, CoFFRError>(CoFFRError::InvalidObject)
                &&& final(memory.memory)@ == old(memory.memory)@
            },
            names_are_text(self.image) ==> linked_with(
                self.image,
                *resolve,
                old(memory.memory)@,
                memory.cursor,
                memory.writes,
                memory.total,
                final(memory.memory)@,
                r,
            ),
    {
        if !names_are_text_exec(&self.image) {
            return Err(CoFFRError::InvalidObject);
        }
        let arch = match self.image.arch {
            ObjArch::Aarch64 => Arch::Arm64,
            ObjArch::I386 => Arch::X86,
            _ => Arch::X64,
        };
        let table = resolve_symbols(&self.image, resolve);
        let r = link_binary(memory, &self.image, arch, &table, vect);
        assert(link_result(
            self.image,
            link_arch(self.image.arch),
            table@,
            old(memory.memory)@,
            memory.cursor,
            memory.writes,
            memory.total,
            final(memory.memory)@,
            r,
        ));
        r
    }
}

} // verus!

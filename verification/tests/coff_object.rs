use sajit::advanced::transaction::MemoryTransaction;
use sajit::advanced::{MemoryExecutable, MemorySizeInfo, SizeAlign};
use sajit::coffr::cache::{LinkerTransaction, ReusableLinkerCache};
use sajit::coffr::gp::{GPCoffr, LinkIter};
use sajit::coffr::loader::I686COFFRelocator;
use sajit::coffr::object_read::read_image;
use sajit::coffr::{CoFFR, CoFFRError, Name, ObjArch, ObjKind, SaJITCoffBig};

const RX: usize = 0x7000_0000;
const RW: usize = 0x5000_0000;

fn put16(b: &mut Vec<u8>, v: u16) {
    b.extend_from_slice(&v.to_le_bytes());
}

fn put32(b: &mut Vec<u8>, v: u32) {
    b.extend_from_slice(&v.to_le_bytes());
}

fn name8(b: &mut Vec<u8>, s: &str) {
    let mut n = [0u8; 8];
    n[..s.len()].copy_from_slice(s.as_bytes());
    b.extend_from_slice(&n);
}

fn section(b: &mut Vec<u8>, name: &str, size: u32, raw: u32, relocs: u32, nrelocs: u16, flags: u32) {
    name8(b, name);
    put32(b, 0);
    put32(b, 0);
    put32(b, size);
    put32(b, raw);
    put32(b, relocs);
    put32(b, 0);
    put16(b, nrelocs);
    put16(b, 0);
    put32(b, flags);
}

fn symbol(b: &mut Vec<u8>, name: &str, value: u32, section: i16, typ: u16, class: u8) {
    name8(b, name);
    put32(b, value);
    put16(b, section as u16);
    put16(b, typ);
    b.push(class);
    b.push(0);
}

/// A COFF object for `machine` with `.text` (16 bytes of code whose two
/// relocations of type `r1` at `o1` and `r2` at `o2` refer to `data` and to
/// the undefined `ext`) and `.rdata` (`rdata_len` bytes, aligned as `rflags`
/// says); the symbols are `f` (a global function at the start of `.text`),
/// `data` (static, at the start of `.rdata`) and `ext`.
fn object(machine: u16, code: [u8; 16], r1: (u32, u16), r2: (u32, u16), rdata: &[u8], rflags: u32) -> Vec<u8> {
    let mut b = Vec::new();
    let text_raw = 100u32;
    let relocs_at = text_raw + 16;
    let rdata_raw = relocs_at + 20;
    let symtab = rdata_raw + rdata.len() as u32;
    put16(&mut b, machine);
    put16(&mut b, 2);
    put32(&mut b, 0);
    put32(&mut b, symtab);
    put32(&mut b, 3);
    put16(&mut b, 0);
    put16(&mut b, 0);
    section(&mut b, ".text", 16, text_raw, relocs_at, 2, 0x6050_0020);
    section(&mut b, ".rdata", rdata.len() as u32, rdata_raw, 0, 0, rflags);
    assert_eq!(b.len(), 100);
    b.extend_from_slice(&code);
    put32(&mut b, r1.0);
    put32(&mut b, 1);
    put16(&mut b, r1.1);
    put32(&mut b, r2.0);
    put32(&mut b, 2);
    put16(&mut b, r2.1);
    b.extend_from_slice(rdata);
    symbol(&mut b, "f", 0, 1, 0x20, 2);
    symbol(&mut b, "data", 0, 2, 0, 3);
    symbol(&mut b, "ext", 0, 0, 0x20, 2);
    put32(&mut b, 4);
    b
}

fn x64_object() -> Vec<u8> {
    let code = [0x48, 0x8D, 0x05, 0, 0, 0, 0, 0xE8, 0, 0, 0, 0, 0xC3, 0x90, 0x90, 0x90];
    object(0x8664, code, (3, 4), (8, 4), &[1, 2, 3, 4, 5, 6, 7, 8], 0x4040_0040)
}

fn i386_object() -> Vec<u8> {
    let code = [0xA1, 0, 0, 0, 0, 0xE8, 0, 0, 0, 0, 0xC3, 0x90, 0x90, 0x90, 0x90, 0x90];
    object(0x014C, code, (1, 0x06), (6, 0x14), &[9, 9, 9, 9], 0x4030_0040)
}

fn resolve(n: Name) -> u64 {
    match n {
        Name::UTF8("ext") => 0x7000_1000,
        _ => 0,
    }
}

#[test]
fn reads_a_coff_image() {
    let bin = x64_object();
    let img = read_image(&bin).ok().unwrap();
    assert_eq!(img.kind, ObjKind::Coff);
    assert_eq!(img.arch, ObjArch::X86_64);
    assert_eq!(img.sections.len(), 2);
    assert_eq!(img.sections[0].name, b".text".to_vec());
    assert_eq!(img.sections[0].header.index, 1);
    assert_eq!(img.sections[0].header.align, 16);
    assert_eq!(img.sections[0].relocations.len(), 2);
    assert_eq!(img.sections[0].relocations[0].offset, 3);
    assert_eq!(img.sections[0].relocations[0].typ, Some(4));
    assert_eq!(img.sections[1].data, vec![1, 2, 3, 4, 5, 6, 7, 8]);
    assert_eq!(img.symbols.len(), 3);
    assert_eq!(img.symbols[2].name, b"ext".to_vec());
}

#[test]
fn refuses_what_is_not_an_object() {
    assert!(matches!(CoFFR::new(&[1u8, 2, 3]), Err(CoFFRError::Object(_))));
    assert!(matches!(GPCoffr::new(&[0u8; 4]), Err(CoFFRError::Object(_))));
    let bin = x64_object();
    assert!(matches!(CoFFR::new_with::<SaJITCoffBig>(&bin), Err(CoFFRError::InvalidObject)));
}

#[test]
fn links_an_x64_object() {
    let bin = x64_object();
    let coff = GPCoffr::new(&bin).ok().unwrap();
    assert!(matches!(coff, GPCoffr::COFF(_)));
    let inner = match &coff {
        GPCoffr::COFF(c) => c,
        GPCoffr::COFFBig(c) => c,
    };
    assert!(inner.is_linkable());
    let mut slab = MemoryExecutable::new_slab(None, RX, RW);
    let mut cache = ReusableLinkerCache::create();
    let tx = MemoryTransaction::new(&mut slab, 1);
    let ltx = LinkerTransaction::create(&mut cache);
    let out = coff.link(&resolve, tx, ltx).ok().unwrap();
    assert!(matches!(out, LinkIter::Standard(_)));
    let items = out.into_items();
    assert_eq!(items.len(), 3);
    assert!(matches!(items[0], Ok((Name::UTF8("f"), a)) if a == RX as u64));
    assert!(matches!(items[1], Ok((Name::UTF8("data"), a)) if a == RX as u64 + 16));
    assert!(matches!(items[2], Ok((Name::UTF8("ext"), 0x7000_1000))));
    let bytes = slab.bytes();
    assert_eq!(&bytes[0..3], &[0x48, 0x8D, 0x05]);
    assert_eq!(&bytes[3..7], &9u32.to_le_bytes());
    assert_eq!(&bytes[8..12], &0xFF4u32.to_le_bytes());
    assert_eq!(&bytes[16..24], &[1, 2, 3, 4, 5, 6, 7, 8]);
    assert_eq!(slab.cursor(), 32);
    assert_eq!(slab.stored(), 5);
}

#[test]
fn failed_link_rolls_back() {
    let bin = x64_object();
    let coff = CoFFR::new(&bin).ok().unwrap();
    // A slab with no room left for the `.rdata` section.
    let mut slab = MemoryExecutable::new_slab(None, RX, RW);
    let relcar: sajit::relcar::Relcar = sajit::relcar::Relcar::new();
    let fill = MemoryExecutable::DEFAULT_SLAB_SIZE - 24;
    slab.write_fn_iterated(16, fill, &vec![], &vec![], &relcar, false);
    let before = slab.cursor();
    let mut cache = ReusableLinkerCache::create();
    let tx = MemoryTransaction::new(&mut slab, 1);
    let ltx = LinkerTransaction::create(&mut cache);
    let r = coff.link(&resolve, tx, ltx);
    assert!(matches!(r, Err(CoFFRError::UnderSized)));
    assert_eq!(slab.cursor(), before);
    assert_eq!(slab.stored(), 1);
}

#[test]
fn size_of_an_object() {
    let bin = x64_object();
    let sizes = MemoryExecutable::sizecalc(&bin).ok().unwrap();
    assert_eq!(sizes.len(), 4);
    assert_eq!((sizes[0].size, sizes[0].align), (16, 16));
    assert_eq!((sizes[1].size, sizes[1].align), (32, 16));
    assert_eq!((sizes[2].size, sizes[2].align), (32, 16));
    assert_eq!((sizes[3].size, sizes[3].align), (8, 8));
}

#[test]
fn loads_an_i386_object() {
    let bin = i386_object();
    let mut slab = MemoryExecutable::new_slab(None, RX, RW);
    let loader = I686COFFRelocator::load(&bin, &mut slab).ok().unwrap();
    assert!(loader.is_loadable());
    let ext = |name: &[u8]| -> u32 {
        if name == b"ext" { 0x7000_2000 } else { 0 }
    };
    let (exports, done) = loader.prepare(&ext);
    assert!(done.is_some());
    assert_eq!(exports.len(), 1);
    assert_eq!(exports[0].0, b"f".to_vec());
    assert_eq!(exports[0].1, 0x7000_0000);
    let bytes = slab.bytes();
    assert_eq!(bytes[0], 0xA1);
    assert_eq!(&bytes[1..5], &0x7000_0010u32.to_le_bytes());
    assert_eq!(&bytes[6..10], &0x1FF6u32.to_le_bytes());
    assert_eq!(&bytes[16..20], &[9, 9, 9, 9]);
    assert_eq!(slab.cursor(), 20);
}

#[test]
fn stub_sizes() {
    let s = sajit::advanced::sizecalc::get_stubsize(ObjArch::Aarch64);
    assert_eq!((s.size, s.align), (20, 8));
    let s = sajit::advanced::sizecalc::get_stubsize(ObjArch::Other);
    assert_eq!((s.size, s.align), (64, 64));
    let s: SizeAlign = sajit::advanced::sizecalc::get_stubsize(ObjArch::Riscv64);
    assert_eq!((s.size, s.align), (32, 8));
}

#[test]
fn image_base_is_the_64k_boundary_below_the_slab_cursor() {
    // `ext` is referred to by an ADDR32NB relocation: its value less the image base.
    let code = [0x48, 0x8D, 0x05, 0, 0, 0, 0, 0xE8, 0, 0, 0, 0, 0xC3, 0x90, 0x90, 0x90];
    let bin = object(0x8664, code, (3, 4), (8, 3), &[1, 2, 3, 4, 5, 6, 7, 8], 0x4040_0040);
    let coff = CoFFR::new(&bin).ok().unwrap();
    let high = |n: Name| -> u64 {
        match n {
            Name::UTF8("ext") => 0x7002_0010,
            _ => 0,
        }
    };
    let mut slab = MemoryExecutable::new_slab(None, RX, RW);
    let relcar: sajit::relcar::Relcar = sajit::relcar::Relcar::new();
    // Move the cursor past the first 64 KiB: the image base is then RX + 0x1_0000.
    slab.write_fn_iterated(16, 0x1_2345, &vec![], &vec![], &relcar, false);
    let mut cache = ReusableLinkerCache::create();
    let tx = MemoryTransaction::new(&mut slab, 1);
    let ltx = LinkerTransaction::create(&mut cache);
    let out = coff.link(&high, tx, ltx).ok().unwrap();
    assert_eq!(out.len(), 3);
    let text = 0x1_2350usize;
    let bytes = slab.bytes();
    assert_eq!(&bytes[text + 8..text + 12], &0x1_0010u32.to_le_bytes());
    // Below the image base, the unsigned field cannot hold the value.
    let mut slab2 = MemoryExecutable::new_slab(None, RX, RW);
    slab2.write_fn_iterated(16, 0x1_2345, &vec![], &vec![], &relcar, false);
    let mut cache2 = ReusableLinkerCache::create();
    let tx2 = MemoryTransaction::new(&mut slab2, 1);
    let ltx2 = LinkerTransaction::create(&mut cache2);
    assert!(matches!(coff.link(&resolve, tx2, ltx2), Err(CoFFRError::RelocationOverflow(_, 32))));
    assert_eq!(slab2.cursor(), 0x1_2345);
}

#[test]
fn loader_does_not_export_weak_externals() {
    let mut bin = i386_object();
    // The storage class of `f`, the first symbol: WEAK_EXTERNAL in place of EXTERNAL.
    assert_eq!(bin[140 + 16], 2);
    bin[140 + 16] = 105;
    let img = read_image(&bin).ok().unwrap();
    assert_eq!(img.symbols[0].info.storage_class, Some(105));
    assert!(img.symbols[0].info.is_text);
    let mut slab = MemoryExecutable::new_slab(None, RX, RW);
    let loader = I686COFFRelocator::load(&bin, &mut slab).ok().unwrap();
    let ext = |name: &[u8]| -> u32 {
        if name == b"ext" { 0x7000_2000 } else { 0 }
    };
    let (exports, _) = loader.prepare(&ext);
    assert_eq!(exports.len(), 0);
}

#[test]
fn reads_storage_classes() {
    let img = read_image(&i386_object()).ok().unwrap();
    assert_eq!(img.symbols[0].info.storage_class, Some(2));
    assert_eq!(img.symbols[1].info.storage_class, Some(3));
}

#[test]
fn link_refuses_a_section_name_that_is_not_text() {
    let mut bin = x64_object();
    // The second section's name, `.rdata`, gets a byte that is not UTF-8.
    assert_eq!(&bin[60..66], b".rdata");
    bin[66] = 0xFF;
    let coff = CoFFR::new(&bin).ok().unwrap();
    assert!(coff.is_linkable());
    let mut slab = MemoryExecutable::new_slab(None, RX, RW);
    let mut cache = ReusableLinkerCache::create();
    let tx = MemoryTransaction::new(&mut slab, 1);
    let ltx = LinkerTransaction::create(&mut cache);
    assert!(matches!(coff.link(&resolve, tx, ltx), Err(CoFFRError::InvalidObject)));
    assert_eq!(slab.cursor(), 0);
}

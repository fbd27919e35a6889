use sajit::bytes::{read_u32, read_u64};
use sajit::relcar::{BasicRelocator, Relcar, RelocInfo, Relocator};
use sajit::relocations::{RelocKind, Relocation};

fn reloc(kind: RelocKind, offset: u32, symbol_addr: u64) -> Relocation {
    Relocation { addend: 0, symbol_addr, offset, kind }
}

#[test]
fn abs8_stores_the_address() {
    let relcar: Relcar<BasicRelocator> = Relcar::new();
    let mut mem = vec![0u8; 64];
    relcar.relocate(&mut mem, 16, 0x10_0000, 16, &reloc(RelocKind::Abs8, 4, 0x1122_3344_5566_7788));
    assert_eq!(read_u64(&mem, 20), 0x1122_3344_5566_7788);
    assert_eq!(mem[19], 0);
    assert_eq!(mem[28], 0);
}

#[test]
fn abs4_stores_the_low_half() {
    let relcar: Relcar<BasicRelocator> = Relcar::new();
    let mut mem = vec![0u8; 32];
    relcar.relocate(&mut mem, 0, 0x1000, 8, &reloc(RelocKind::Abs4, 2, 0x1_2345_6789));
    assert_eq!(read_u32(&mem, 2), 0x2345_6789);
}

#[test]
fn x86_pc_relative_is_from_the_end_of_the_field() {
    let relcar: Relcar<BasicRelocator> = Relcar::new();
    let mut mem = vec![0u8; 32];
    // The field is at 0x2000 + 1; its end is at 0x2005; the target is 0x2105.
    relcar.relocate(&mut mem, 0, 0x2000, 16, &reloc(RelocKind::X86CallPCRel4, 1, 0x2105));
    assert_eq!(read_u32(&mem, 1), 0x100);
    relcar.relocate(&mut mem, 0, 0x2000, 16, &reloc(RelocKind::X86PCRel4, 8, 0x1F00));
    assert_eq!(read_u32(&mem, 8) as i32, 0x1F00 - 0x200C);
}

#[test]
fn provided_relative_bytes_are_stored_as_given() {
    let relcar: Relcar<BasicRelocator> = Relcar::new();
    let mut mem = vec![0u8; 16];
    relcar.relocate(
        &mut mem,
        0,
        0x4000,
        8,
        &reloc(RelocKind::X86CallPCRelOrPCRelProvidedRelativeBytes, 0, (-16i64) as u64),
    );
    assert_eq!(read_u32(&mem, 0) as i32, -16);
}

#[test]
fn arm64_call_sets_the_branch_immediate() {
    let relcar: Relcar<BasicRelocator> = Relcar::new();
    let mut mem = vec![0u8; 16];
    // BL with a zero immediate at 0x8000 + 4.
    mem[4..8].copy_from_slice(&0x9400_0000u32.to_le_bytes());
    relcar.relocate(&mut mem, 0, 0x8000, 8, &reloc(RelocKind::Arm64Call, 4, 0x8104));
    assert_eq!(read_u32(&mem, 4), 0x9400_0040);
    // A backward branch by one instruction.
    relcar.relocate(&mut mem, 0, 0x8000, 8, &reloc(RelocKind::Arm64CallProvidedRelativeBytes, 4, (-4i64) as u64));
    assert_eq!(read_u32(&mem, 4), 0x97FF_FFFF);
}

/// A relocator that stores every absolute 64-bit address byte-swapped.
struct SwappingRelocator;

impl Relocator for SwappingRelocator {
    fn accepts_custom(_code: u16) -> bool {
        false
    }

    fn keeps_standard() -> bool {
        false
    }

    fn handle_abs8(mem: &mut Vec<u8>, info: RelocInfo) {
        let bytes = info.relocation.symbol_addr.to_be_bytes();
        mem[info.patch_site..info.patch_site + 8].copy_from_slice(&bytes);
    }

    fn handle_usercustom(_mem: &mut Vec<u8>, _info: RelocInfo, _userdefined: u16) {
        panic!("no custom relocations");
    }
}

#[test]
fn a_relocator_can_replace_a_standard_handler() {
    let relcar: Relcar<SwappingRelocator> = Relcar::new();
    let mut mem = vec![0u8; 32];
    relcar.relocate(&mut mem, 0, 0x1000, 16, &reloc(RelocKind::Abs8, 4, 0x1122_3344_5566_7788));
    assert_eq!(read_u64(&mem, 4), 0x8877_6655_4433_2211);
    // The handlers it keeps still write what RELCAR writes.
    relcar.relocate(&mut mem, 0, 0x1000, 16, &reloc(RelocKind::Abs4, 12, 0xAABB_CCDD));
    assert_eq!(read_u32(&mem, 12), 0xAABB_CCDD);
}

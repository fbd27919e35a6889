use sajit::bytes::{read_u16, read_u32, read_u64, write_u32, write_u64};
use sajit::coffr::arch::{
    CheckLinkSection, LinkSection, RWRXPtr, ResolvedRelocation, SectionView, arm64, x64, x86,
};
use sajit::coffr::{CoFFRError, Relocation, Resolved};

fn view(rw: usize, rx: usize, len: u32, trampolines: u32, trw: usize, trx: usize) -> SectionView {
    SectionView {
        trampolines,
        len,
        trampoline: RWRXPtr { rw: trw, rx: trx },
        data: RWRXPtr { rw, rx },
    }
}

fn rr(typ: u16, position_offset: u64, symbol: u64) -> Result<ResolvedRelocation, CoFFRError> {
    Ok(ResolvedRelocation { typ, sectidx: 3, position_offset, sectionstart: 0x1000, symbol })
}

#[test]
fn x64_addr64_and_section() {
    let mut mem = vec![0u8; 64];
    write_u64(&mut mem, 8, 0x10);
    mem[16] = 2;
    let section = LinkSection {
        view: view(8, 0x1000, 16, 0, 0, 0),
        reloc: vec![rr(x64::IMAGE_REL_AMD64_ADDR64, 0, 0x1122_3344_5566_0000), rr(x64::IMAGE_REL_AMD64_SECTION, 8, 0)],
    };
    assert!(x64::link(0, &section, &mut mem).is_ok());
    assert_eq!(read_u64(&mem, 8), 0x1122_3344_5566_0010);
    assert_eq!(read_u16(&mem, 16), 5);
}

#[test]
fn x64_rel32_in_reach() {
    let mut mem = vec![0u8; 32];
    let section = LinkSection { view: view(0, 0x1000, 16, 0, 0, 0), reloc: vec![rr(x64::IMAGE_REL_AMD64_REL32, 4, 0x1100)] };
    assert!(x64::link(0, &section, &mut mem).is_ok());
    assert_eq!(read_u32(&mem, 4), 0x1100 - 0x1008);
}

#[test]
fn x64_rel32_through_a_trampoline() {
    let mut mem = vec![0u8; 64];
    let far = 0x0000_7FFF_0000_0000u64;
    let template = x64::x64_trampoline_template();
    mem[32..48].copy_from_slice(&template);
    let section = LinkSection { view: view(0, 0x1000, 16, 1, 32, 0x1020), reloc: vec![rr(x64::IMAGE_REL_AMD64_REL32, 4, far)] };
    assert!(x64::link(0, &section, &mut mem).is_ok());
    assert_eq!(read_u64(&mem, 40), far);
    assert_eq!(read_u32(&mem, 4), 0x1020 - 0x1008);
    assert_eq!(&mem[32..36], &[0x66, 0x90, 0xFF, 0x25]);
}

#[test]
fn x64_far_calls_to_one_target_share_a_trampoline() {
    let mut mem = vec![0u8; 64];
    let far = 0x0000_7FFF_0000_0000u64;
    let template = x64::x64_trampoline_template();
    mem[32..48].copy_from_slice(&template);
    let section = LinkSection {
        view: view(0, 0x1000, 16, 1, 32, 0x1020),
        reloc: vec![rr(x64::IMAGE_REL_AMD64_REL32, 4, far), rr(x64::IMAGE_REL_AMD64_REL32, 8, far)],
    };
    assert!(x64::link(0, &section, &mut mem).is_ok());
    assert_eq!(read_u64(&mem, 40), far);
    assert_eq!(read_u32(&mem, 4), 0x1020 - 0x1008);
    assert_eq!(read_u32(&mem, 8), 0x1020 - 0x100C);
}

#[test]
fn x64_far_calls_to_two_targets_need_two_trampolines() {
    let mut mem = vec![0u8; 64];
    let far = 0x0000_7FFF_0000_0000u64;
    let section = LinkSection {
        view: view(0, 0x1000, 16, 1, 32, 0x1020),
        reloc: vec![rr(x64::IMAGE_REL_AMD64_REL32, 4, far), rr(x64::IMAGE_REL_AMD64_REL32, 8, far + 16)],
    };
    assert!(matches!(x64::link(0, &section, &mut mem), Err(CoFFRError::RelocationOverflow(_, 32))));
}

#[test]
fn x64_rel32_without_room_overflows() {
    let mut mem = vec![0u8; 32];
    let section = LinkSection { view: view(0, 0x1000, 16, 0, 0, 0), reloc: vec![rr(x64::IMAGE_REL_AMD64_REL32, 4, 0x1_0000_0000_0000)] };
    assert!(matches!(x64::link(0, &section, &mut mem), Err(CoFFRError::RelocationOverflow(_, 32))));
}

#[test]
fn x64_unknown_and_outside() {
    let mut mem = vec![0u8; 32];
    let unknown = LinkSection { view: view(0, 0x1000, 16, 0, 0, 0), reloc: vec![rr(0x20, 0, 0)] };
    assert!(matches!(x64::link(0, &unknown, &mut mem), Err(CoFFRError::UnknownRelocation(0x20))));
    let outside = LinkSection { view: view(0, 0x1000, 16, 0, 0, 0), reloc: vec![rr(x64::IMAGE_REL_AMD64_ADDR32, 14, 0)] };
    assert!(matches!(x64::link(0, &outside, &mut mem), Err(CoFFRError::InvalidObject)));
    let earlier = LinkSection { view: view(0, 0x1000, 16, 0, 0, 0), reloc: vec![Err(CoFFRError::RelocsOutsideTextData)] };
    assert!(matches!(x64::link(0, &earlier, &mut mem), Err(CoFFRError::RelocsOutsideTextData)));
}

#[test]
fn x64_addr32nb_is_relative_to_the_image_base() {
    let mut mem = vec![0u8; 32];
    let section = LinkSection { view: view(0, 0x1_0000, 16, 0, 0, 0), reloc: vec![rr(x64::IMAGE_REL_AMD64_ADDR32NB, 0, 0x1_2345)] };
    assert!(x64::link(0x1_0000, &section, &mut mem).is_ok());
    assert_eq!(read_u32(&mem, 0), 0x2345);
    let below = LinkSection { view: view(0, 0x1_0000, 16, 0, 0, 0), reloc: vec![rr(x64::IMAGE_REL_AMD64_ADDR32NB, 0, 0x100)] };
    assert!(matches!(x64::link(0x1_0000, &below, &mut mem), Err(CoFFRError::RelocationOverflow(_, 32))));
}

#[test]
fn x64_counts_trampolines() {
    let mut mem = vec![0u8; 32];
    write_u32(&mut mem, 4, 0);
    let section = CheckLinkSection {
        view: view(0, 0x1000, 16, 0, 0, 0),
        reloc: vec![
            Ok(Relocation { typ: x64::IMAGE_REL_AMD64_REL32, position_offset: 4, symbol: Resolved::Absolute(0x1_0000_0000) }),
            Ok(Relocation { typ: x64::IMAGE_REL_AMD64_REL32, position_offset: 8, symbol: Resolved::Absolute(0x100) }),
            Ok(Relocation { typ: x64::IMAGE_REL_AMD64_ADDR64, position_offset: 0, symbol: Resolved::Absolute(0x1_0000_0000) }),
        ],
    };
    let (n, template) = x64::count_trampolines(&section, &mem).ok().unwrap();
    assert_eq!(n, 1);
    assert_eq!(template.len(), 16);
}

#[test]
fn x86_dir32_and_rel32() {
    let mut mem = vec![0u8; 32];
    write_u32(&mut mem, 0, 4);
    let section = LinkSection {
        view: view(0, 0x40_0000, 16, 0, 0, 0),
        reloc: vec![rr(x86::IMAGE_REL_I386_DIR32, 0, 0x40_1000), rr(x86::IMAGE_REL_I386_REL32, 8, 0x40_2000)],
    };
    assert!(x86::link(0, &section, &mut mem).is_ok());
    assert_eq!(read_u32(&mem, 0), 0x40_1004);
    assert_eq!(read_u32(&mem, 8), 0x40_2000 - 0x40_000C);
    let unknown = LinkSection { view: view(0, 0x40_0000, 16, 0, 0, 0), reloc: vec![rr(x86::IMAGE_REL_I386_DIR16, 0, 0)] };
    assert!(matches!(x86::link(0, &unknown, &mut mem), Err(CoFFRError::UnknownRelocation(1))));
}

#[test]
fn arm64_branch26() {
    let mut mem = vec![0u8; 32];
    write_u32(&mut mem, 4, 0x9400_0000);
    let section = LinkSection { view: view(0, 0x8000, 16, 0, 0, 0), reloc: vec![rr(arm64::IMAGE_REL_ARM64_BRANCH26, 4, 0x8104)] };
    assert!(arm64::link(0, &section, &mut mem).is_ok());
    assert_eq!(read_u32(&mem, 4), 0x9400_0040);
}

#[test]
fn arm64_page_offset_alignment() {
    let mut mem = vec![0u8; 32];
    // LDR X0, [X1, #0]: an 8-byte access.
    write_u32(&mut mem, 0, 0xF940_0020);
    let aligned = LinkSection { view: view(0, 0x8000, 16, 0, 0, 0), reloc: vec![rr(arm64::IMAGE_REL_ARM64_PAGEOFFSET_12L, 0, 0x1_2348)] };
    assert!(arm64::link(0, &aligned, &mut mem).is_ok());
    assert_eq!(read_u32(&mem, 0), 0xF940_0020 | (0x348 / 8) << 10);
    write_u32(&mut mem, 0, 0xF940_0020);
    let misaligned = LinkSection { view: view(0, 0x8000, 16, 0, 0, 0), reloc: vec![rr(arm64::IMAGE_REL_ARM64_PAGEOFFSET_12L, 0, 0x1_2344)] };
    assert!(matches!(arm64::link(0, &misaligned, &mut mem), Err(CoFFRError::Arm64AlignmentError(0x344, 12))));
}

#[test]
fn arm64_relocates_text_then_rdata() {
    let mut mem = vec![0u8; 64];
    let text = LinkSection { view: view(0, 0x8000, 16, 0, 0, 0), reloc: vec![rr(arm64::IMAGE_REL_ARM64_ADDR64, 0, 0xABCD)] };
    let rdata = LinkSection { view: view(32, 0x8020, 16, 0, 0, 0), reloc: vec![rr(arm64::IMAGE_REL_ARM64_ADDR32, 0, 0x1234)] };
    assert!(arm64::relocate(0, &text, Some(&rdata), &mut mem).is_ok());
    assert_eq!(read_u64(&mem, 0), 0xABCD);
    assert_eq!(read_u32(&mem, 32), 0x1234);
}

#[test]
fn arm64_far_branches_share_a_stub() {
    let mut mem = vec![0u8; 64];
    write_u32(&mut mem, 4, 0x9400_0000);
    write_u32(&mut mem, 8, 0x9400_0000);
    let stub = arm64::arm64_stub_template();
    mem[32..48].copy_from_slice(&stub);
    let far = 0x1_0000_0000u64;
    let section = LinkSection {
        view: view(0, 0x8000, 16, 1, 32, 0x8020),
        reloc: vec![rr(arm64::IMAGE_REL_ARM64_BRANCH26, 4, far), rr(arm64::IMAGE_REL_ARM64_BRANCH26, 8, far)],
    };
    assert!(arm64::link(0, &section, &mut mem).is_ok());
    assert_eq!(read_u32(&mem, 4), 0x9400_0007);
    assert_eq!(read_u32(&mem, 8), 0x9400_0006);
    assert_eq!(read_u64(&mem, 40), far);
    assert_eq!(&mem[32..40], &[0x50, 0x00, 0x00, 0x58, 0x00, 0x02, 0x1F, 0xD6]);
}

#[test]
fn arm64_far_branch_without_a_stub_overflows() {
    let mut mem = vec![0u8; 64];
    write_u32(&mut mem, 4, 0x9400_0000);
    let section = LinkSection {
        view: view(0, 0x8000, 16, 0, 0, 0),
        reloc: vec![rr(arm64::IMAGE_REL_ARM64_BRANCH26, 4, 0x1_0000_0000)],
    };
    assert!(matches!(arm64::link(0, &section, &mut mem), Err(CoFFRError::RelocationOverflow(_, 26))));
    assert_eq!(read_u32(&mem, 4), 0x9400_0000);
}

#[test]
fn arm64_counts_far_branches() {
    let mut mem = vec![0u8; 32];
    write_u32(&mut mem, 4, 0x9400_0000);
    write_u32(&mut mem, 8, 0x9400_0000);
    let section = CheckLinkSection {
        view: view(0, 0x8000, 16, 0, 0, 0),
        reloc: vec![
            Ok(Relocation { typ: arm64::IMAGE_REL_ARM64_BRANCH26, position_offset: 4, symbol: Resolved::Absolute(0x1_0000_0000) }),
            Ok(Relocation { typ: arm64::IMAGE_REL_ARM64_BRANCH26, position_offset: 8, symbol: Resolved::Absolute(0x8100) }),
        ],
    };
    let (n, template) = arm64::count_trampolines(&section, &mem).ok().unwrap();
    assert_eq!(n, 1);
    assert_eq!(template.len(), 16);
}

#[test]
fn x64_counts_far_displacements_to_low_targets() {
    let mem = vec![0u8; 32];
    // The target 0x100 fits in 32 bits, but the section runs far above it.
    let section = CheckLinkSection {
        view: view(0, 0x7000_0000_0000, 16, 0, 0, 0),
        reloc: vec![Ok(Relocation { typ: x64::IMAGE_REL_AMD64_REL32, position_offset: 4, symbol: Resolved::Absolute(0x100) })],
    };
    let (n, _) = x64::count_trampolines(&section, &mem).ok().unwrap();
    assert_eq!(n, 1);
}

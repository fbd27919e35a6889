use sajit::bytes::{read_u16, read_u32, read_u64, write_u16, write_u32, write_u64};
use sajit::coffr::CoFFRError;
use sajit::coffr::arch::arm64::{
    compact, compact_adr21, extract, extract_adr21, maxint, minint, scale, shift, within_bits, ShifterType,
};
use sajit::coffr::arch::{floor_div4, mod4096, wrap_u16, wrap_u32, wrap_u64};

#[test]
fn u32_written_reads_back_little_endian() {
    let mut buf = vec![0u8; 8];
    write_u32(&mut buf, 2, 0xDEAD_BEEF);
    assert_eq!(buf, vec![0, 0, 0xEF, 0xBE, 0xAD, 0xDE, 0, 0]);
    assert_eq!(read_u32(&buf, 2), 0xDEAD_BEEF);
}

#[test]
fn u64_and_u16_written_read_back() {
    let mut buf = vec![0xFFu8; 12];
    write_u64(&mut buf, 1, 0x0102_0304_0506_0708);
    assert_eq!(read_u64(&buf, 1), 0x0102_0304_0506_0708);
    assert_eq!(buf[0], 0xFF);
    assert_eq!(buf[9], 0xFF);
    write_u16(&mut buf, 10, 0xBEEF);
    assert_eq!(read_u16(&buf, 10), 0xBEEF);
    assert_eq!(buf[10], 0xEF);
    assert_eq!(buf.len(), 12);
}

#[test]
fn field_limits() {
    assert_eq!(maxint(true, 26), 0x1FF_FFFF);
    assert_eq!(maxint(false, 12), 0xFFF);
    assert_eq!(maxint(false, 32), 0xFFFF_FFFF);
    assert_eq!(minint(true, 21), -0x10_0000);
    assert_eq!(minint(false, 8), 0);
}

#[test]
fn within_bits_bounds() {
    assert!(within_bits(true, 26, 0x1FF_FFFF).is_ok());
    assert!(within_bits(true, 26, -0x200_0000).is_ok());
    assert!(matches!(
        within_bits(true, 26, 0x200_0000),
        Err(CoFFRError::RelocationOverflow(0x200_0000, 26))
    ));
    assert!(matches!(within_bits(false, 12, -1), Err(CoFFRError::RelocationOverflow(u64::MAX, 12))));
    assert!(within_bits(false, 32, 0xFFFF_FFFF).is_ok());
}

#[test]
fn shifts() {
    assert_eq!(shift(ShifterType::Unshifted, -7), -7);
    assert_eq!(shift(ShifterType::Shl(2), 5), 20);
    assert_eq!(shift(ShifterType::Shr(1), -8), -4);
    assert_eq!(shift(ShifterType::Shl(63), -1), i64::MIN);
}

#[test]
fn load_store_scale() {
    // LDR X0, [X1, #imm]: size 0b11.
    assert_eq!(scale(0xF940_0020), 3);
    // LDR W0: size 0b10.
    assert_eq!(scale(0xB940_0020), 2);
    // LDR Q0: size 0b00 with the 128-bit bits set.
    assert_eq!(scale(0x3DC0_0020), 4);
}

#[test]
fn branch_field_extract_and_compact() {
    // BL with all-ones 26-bit field: a displacement of -1 instruction.
    let (value, cleared, mask) = extract(true, 26, 0x97FF_FFFF, 0, ShifterType::Shl(2));
    assert_eq!(value, -4);
    assert_eq!(cleared, 0x9400_0000);
    assert_eq!(mask, 0x03FF_FFFF);
    assert_eq!(compact(26, cleared, 0x40, 0), 0x9400_0040);
    // B.cond field at bit 5.
    assert_eq!(compact(19, 0x5400_0000, 3, 5), 0x5400_0060);
    let (v, _, _) = extract(true, 19, 0x5400_0060, 5, ShifterType::Unshifted);
    assert_eq!(v, 3);
}

#[test]
fn adr_immediate_roundtrip() {
    let adrp = 0x9000_0000u32;
    assert_eq!(extract_adr21(adrp), 0);
    let patched = compact_adr21(adrp, 0x12345);
    assert_eq!(extract_adr21(patched), 0x12345);
    assert_eq!(patched & 0x9F00_001F, adrp);
    let negative = compact_adr21(adrp, -3);
    assert_eq!(extract_adr21(negative), -3);
    // immlo = 1, immhi = 0.
    assert_eq!(extract_adr21(0x3000_0000), 1);
}

#[test]
fn wrapping_helpers() {
    assert_eq!(wrap_u64(-1), u64::MAX);
    assert_eq!(wrap_u32(0x1_0000_0005), 5);
    assert_eq!(wrap_u16(-2), 0xFFFE);
    assert_eq!(floor_div4(-5), -2);
    assert_eq!(mod4096(0x1234), 0x234);
    assert_eq!(mod4096(-1), 0xFFF);
}

//! AArch64 relocations and the instruction-field arithmetic they need.
use vstd::prelude::*;

use crate::bytes::{
    read_u16_at, read_u32_at, read_u64_at, write_u16_at, write_u32_at, write_u64_at, read_u32,
    read_u64, write_u16, write_u32, write_u64,
};
use crate::coffr::{CoFFRError, Resolved};
use crate::coffr::arch::{
    two_pow, lemma_two_pow_mono, lemma_two_pow_pos, lemma_two_pow_values, SectionView, ResolvedRelocation,
    LinkSection, CheckLinkSection, view_in_slab, site_ok, site, place, wrap64, floor_div4, mod4096, wrap_u64,
    find_slot, find_slot_exec, off_sites,
};

verus! {

/// The largest value that a field of `bits` bits holds.
pub open spec fn maxint_spec(signed: bool, bits: nat) -> int {
    two_pow((bits - (if signed { 1int } else { 0int })) as nat) - 1
}

/// The smallest value that a field of `bits` bits holds.
pub open spec fn minint_spec(signed: bool, bits: nat) -> int {
    if signed {
        -(two_pow((bits - 1) as nat) as int)
    } else {
        0
    }
}

/// `v` can be stored in a field of `bits` bits.
pub open spec fn fits_bits(signed: bool, bits: nat, v: int) -> bool {
    minint_spec(signed, bits) <= v <= maxint_spec(signed, bits)
}

/// The mask of the `bits` low-order bits of a `u32`.
pub open spec fn mask_of(bits: nat) -> u32 {
    (two_pow(bits) - 1) as u32
}

/// The `bits`-bit field of `data` that starts at bit `offset`.
pub open spec fn field_of(data: u32, offset: u32, bits: nat) -> u32 {
    (data >> offset) & mask_of(bits)
}

/// The value of a field, sign-extended when the field is signed.
pub open spec fn sign_extend(signed: bool, bits: nat, f: u32) -> int {
    if signed && bits != 0 && f as int >= two_pow((bits - 1) as nat) {
        f - two_pow(bits)
    } else {
        f as int
    }
}

/// `inst` with the `bits`-bit field at `offset` replaced by the low bits of `value`.
pub open spec fn compact_spec(bits: nat, inst: u32, value: i64, offset: u32) -> u32 {
    (inst & !(mask_of(bits) << offset)) | (((value as u32) & mask_of(bits)) << offset)
}

/// The field widths and positions of the AArch64 immediates that COFF relocates.
pub open spec fn imm_field(bits: nat, offset: nat) -> bool {
    ||| (bits == 26 && offset == 0)
    ||| (bits == 19 && offset == 5)
    ||| (bits == 14 && offset == 5)
    ||| (bits == 12 && offset == 10)
}

pub enum ShifterType {
    Unshifted,
    Shl(u8),
    Shr(u8),
}

/// What a shift does to `v`: a left shift multiplies by a power of two.
pub open spec fn shift_spec(s: ShifterType, v: i64) -> int {
    match s {
        ShifterType::Unshifted => v as int,
        ShifterType::Shl(n) => v * two_pow(n as nat),
        ShifterType::Shr(n) => (v >> n) as int,
    }
}

/// The shift can be done in an `i64` without overflow.
pub open spec fn shift_ok(s: ShifterType, v: i64) -> bool {
    match s {
        ShifterType::Unshifted => true,
        ShifterType::Shl(n) => n < 64 && i64::MIN <= v * two_pow(n as nat) <= i64::MAX,
        ShifterType::Shr(n) => n < 64,
    }
}

/// The sign-extended 21-bit immediate of an ADR/ADRP instruction
/// (`immhi` at bits 5..24, `immlo` at bits 29..31).
pub open spec fn adr21_imm(inst: u32) -> int {
    let raw = ((inst >> 5u32) & 0x7FFFF) as int * 4 + ((inst >> 29u32) & 0x3) as int;
    if raw >= 0x10_0000 {
        raw - 0x20_0000
    } else {
        raw
    }
}

/// The bits of an ADR/ADRP instruction that hold its immediate.
pub open spec fn adr21_mask() -> u32 {
    (0x3u32 << 29u32) | (0x7FFFFu32 << 5u32)
}

/// `inst` with its ADR/ADRP immediate replaced by the low 21 bits of `dt`.
pub open spec fn adr21_insert(inst: u32, dt: i64) -> u32 {
    let imm21 = (dt as u32) & 0x1FFFFF;
    (inst & !adr21_mask()) | ((imm21 & 0x3) << 29u32) | (((imm21 >> 2u32) & 0x7FFFF) << 5u32)
}

/// The access size (log2 of bytes) of a load/store with unsigned 12-bit offset:
/// the `size` field, plus 4 for 128-bit SIMD/FP registers.
pub open spec fn scale_spec(inst: u32) -> u32 {
    if inst & 0x04800000 == 0x04800000 {
        ((inst >> 30u32) + 4) as u32
    } else {
        inst >> 30u32
    }
}

pub fn maxint(signed: bool, bits: u8) -> (r: i64)
    requires
        bits <= 64,
        signed ==> bits >= 1,
    ensures
        r == maxint_spec(signed, bits as nat) as i64,
{
    let limit: u8 = if signed { bits - 1 } else { bits };
    let mut acc: u64 = 0;
    let mut bit: u8 = 0;
    proof {
        lemma_two_pow_values();
    }
    while bit < limit
        invariant
            bit <= limit,
            limit <= 64,
            acc == two_pow(bit as nat) - 1,
            two_pow(64) == 0x1_0000_0000_0000_0000,
        decreases limit - bit,
    {
        proof {
            lemma_two_pow_mono((bit + 1) as nat, 64);
        }
        acc = acc * 2 + 1;
        bit = bit + 1;
    }
    acc as i64
}

pub fn minint(signed: bool, bits: u8) -> (r: i64)
    requires
        signed ==> 1 <= bits <= 64,
    ensures
        r == minint_spec(signed, bits as nat),
{
    if !signed {
        return 0;
    }
    let m = maxint(false, bits - 1);
    proof {
        lemma_two_pow_mono((bits - 1) as nat, 63);
        lemma_two_pow_values();
    }
    -m - 1
}

/// Checks that `patch` fits in a field of `bits` bits.
pub fn within_bits(signed: bool, bits: u8, patch: i128) -> (r: Result<(), CoFFRError>)
    requires
        bits < 64,
        signed ==> bits >= 1,
    ensures
        r is Ok <==> fits_bits(signed, bits as nat, patch as int),
        r is Err ==> r == Err::<(), CoFFRError>(
            CoFFRError::RelocationOverflow(patch as u64, bits as u64),
        ),
{
    let lo = minint(signed, bits);
    let hi = maxint(signed, bits);
    proof {
        lemma_two_pow_mono(bits as nat, 63);
        lemma_two_pow_values();
    }
    if !(lo as i128 <= patch && patch <= hi as i128) {
        return Err(CoFFRError::RelocationOverflow(patch as u64, bits as u64));
    }
    Ok(())
}

/// `2^n` as an `i64`.
fn two_pow_i64(n: u8) -> (r: i64)
    requires
        n < 63,
    ensures
        r == two_pow(n as nat),
{
    let mut r: i64 = 1;
    let mut k: u8 = 0;
    proof {
        lemma_two_pow_values();
    }
    while k < n
        invariant
            k <= n,
            n < 63,
            r == two_pow(k as nat),
            two_pow(63) == 0x8000_0000_0000_0000,
        decreases n - k,
    {
        proof {
            lemma_two_pow_mono((k + 1) as nat, 62);
            reveal_with_fuel(two_pow, 2);
        }
        r = r * 2;
        k = k + 1;
    }
    r
}

pub fn shift(data: ShifterType, val: i64) -> (r: i64)
    requires
        shift_ok(data, val),
    ensures
        r == shift_spec(data, val),
{
    match data {
        ShifterType::Unshifted => val,
        ShifterType::Shl(n) => {
            if n == 63 {
                proof {
                    lemma_two_pow_values();
                    assert(val == 0 || val == -1) by (nonlinear_arith)
                        requires
                            i64::MIN <= val * 0x8000_0000_0000_0000 <= i64::MAX,
                    ;
                }
                if val == 0 { 0 } else { i64::MIN }
            } else {
                let p = two_pow_i64(n);
                val * p
            }
        },
        ShifterType::Shr(n) => val >> n,
    }
}

/// The access size of a load/store with a scaled 12-bit offset.
pub fn scale(inst: u32) -> (r: u32)
    ensures
        r == scale_spec(inst),
        r <= 7,
{
    let mut size = inst >> 30;
    assert(inst >> 30u32 <= 3) by (bit_vector);
    if (inst & 0x04800000) == 0x04800000 {
        size += 4;
    }
    size
}

/// Splits the field at `offset` off an instruction: its (shifted) value, the
/// instruction with the field cleared, and the field mask.
pub fn extract(
    signed: bool,
    bits: u8,
    data: u32,
    offset: u8,
    shifter: ShifterType,
) -> (r: (i64, u32, u32))
    requires
        bits <= 32,
        offset < 32,
        sign_extend(signed, bits as nat, field_of(data, offset as u32, bits as nat)) as i64
            == sign_extend(signed, bits as nat, field_of(data, offset as u32, bits as nat)),
        shift_ok(
            shifter,
            sign_extend(signed, bits as nat, field_of(data, offset as u32, bits as nat)) as i64,
        ),
    ensures
        r.2 == mask_of(bits as nat),
        r.1 == data & !(mask_of(bits as nat) << (offset as u32)),
        r.0 == shift_spec(
            shifter,
            sign_extend(signed, bits as nat, field_of(data, offset as u32, bits as nat)) as i64,
        ),
{
    proof {
        lemma_two_pow_mono(bits as nat, 32);
        lemma_two_pow_values();
    }
    let mask: u32 = maxint(false, bits) as u32;
    let field = (data >> offset) & mask;
    assert((data >> offset) & mask <= mask) by (bit_vector);
    let value: i64 = if signed && bits != 0 {
        let half = maxint(false, bits - 1) as u32;
        proof {
            lemma_two_pow_mono((bits - 1) as nat, 31);
            reveal_with_fuel(two_pow, 2);
        }
        if field > half {
            field as i64 - mask as i64 - 1
        } else {
            field as i64
        }
    } else {
        field as i64
    };
    (shift(shifter, value), data & !(mask << offset), mask)
}

/// Writes the low `bits` bits of `value` into the field at `offset` of `inst`.
pub fn compact(bits: u8, inst: u32, value: i64, offset: u8) -> (r: u32)
    requires
        bits <= 32,
        offset < 32,
    ensures
        r == compact_spec(bits as nat, inst, value, offset as u32),
{
    proof {
        lemma_two_pow_mono(bits as nat, 32);
        lemma_two_pow_values();
    }
    let mask = maxint(false, bits) as u32;
    (inst & !(mask << offset)) | ((value as u32 & mask) << offset)
}

/// The sign-extended immediate of an ADR/ADRP instruction.
pub fn extract_adr21(inst: u32) -> (r: i64)
    ensures
        r == adr21_imm(inst),
{
    let immlo = (inst >> 29) & 0x3;
    let immhi = (inst >> 5) & 0x7FFFF;
    assert(((inst >> 5u32) & 0x7FFFF) << 2u32 | ((inst >> 29u32) & 0x3)
        == ((inst >> 5u32) & 0x7FFFF) * 4 + ((inst >> 29u32) & 0x3)) by (bit_vector);
    assert(((inst >> 5u32) & 0x7FFFF) * 4 + ((inst >> 29u32) & 0x3) < 0x20_0000) by (bit_vector);
    let raw = ((immhi << 2) | immlo) as i64;
    assert(0 <= raw < 0x20_0000 ==> ((raw & (1i64 << 20u64)) != 0 <==> raw >= 0x10_0000))
        by (bit_vector);
    assert(0 <= raw < 0x20_0000 && raw >= 0x10_0000 ==> (raw | !0x1FFFFFi64) == raw - 0x20_0000)
        by (bit_vector);
    if (raw & (1 << 20)) != 0 {
        raw | !0x1FFFFF
    } else {
        raw
    }
}

/// Writes the low 21 bits of `dt` into the immediate of an ADR/ADRP instruction.
pub fn compact_adr21(inst: u32, dt: i64) -> (r: u32)
    ensures
        r == adr21_insert(inst, dt),
{
    let imm21 = (dt as u32) & 0x1FFFFF;
    let immlo = imm21 & 0x3;
    let immhi = (imm21 >> 2) & 0x7FFFF;
    (inst & !(0x3 << 29 | 0x7FFFF << 5)) | (immlo << 29) | (immhi << 5)
}

/// Writing a 21-bit immediate into an ADR/ADRP instruction and reading it
/// back gives the same value.
pub proof fn law_adr21_roundtrip(inst: u32, dt: i64)
    requires
        fits_bits(true, 21, dt as int),
    ensures
        adr21_imm(adr21_insert(inst, dt)) == dt,
{
    lemma_two_pow_values();
    assert(-0x10_0000 <= dt < 0x10_0000 ==> {
        let imm21 = (dt as u32) & 0x1FFFFF;
        let r = (inst & !((0x3u32 << 29u32) | (0x7FFFFu32 << 5u32))) | ((imm21 & 0x3) << 29u32)
            | (((imm21 >> 2u32) & 0x7FFFF) << 5u32);
        let raw = ((r >> 5u32) & 0x7FFFF) * 4 + ((r >> 29u32) & 0x3);
        &&& (raw >= 0x10_0000 ==> raw - 0x20_0000 == dt)
        &&& (raw < 0x10_0000 ==> raw == dt)
    }) by (bit_vector);
}

/// Reading the immediate of an ADR/ADRP instruction and writing it back
/// leaves the instruction unchanged.
pub proof fn law_adr21_identity(inst: u32)
    ensures
        adr21_insert(inst, adr21_imm(inst) as i64) == inst,
{
    assert(((inst >> 5u32) & 0x7FFFF) * 4 + ((inst >> 29u32) & 0x3) < 0x20_0000) by (bit_vector);
    assert({
        let raw = ((inst >> 5u32) & 0x7FFFF) * 4 + ((inst >> 29u32) & 0x3);
        let v: i64 = if raw >= 0x10_0000 { (raw - 0x20_0000) as i64 } else { raw as i64 };
        let imm21 = (v as u32) & 0x1FFFFF;
        (inst & !((0x3u32 << 29u32) | (0x7FFFFu32 << 5u32))) | ((imm21 & 0x3) << 29u32)
            | (((imm21 >> 2u32) & 0x7FFFF) << 5u32) == inst
    }) by (bit_vector);
}

/// Writing the immediate of an ADR/ADRP instruction leaves every other bit
/// of the instruction unchanged.
pub proof fn law_adr21_keeps_opcode(inst: u32, dt: i64)
    ensures
        adr21_insert(inst, dt) & !adr21_mask() == inst & !adr21_mask(),
{
    assert({
        let imm21 = (dt as u32) & 0x1FFFFF;
        let m = (0x3u32 << 29u32) | (0x7FFFFu32 << 5u32);
        ((inst & !m) | ((imm21 & 0x3) << 29u32) | (((imm21 >> 2u32) & 0x7FFFF) << 5u32)) & !m
            == inst & !m
    }) by (bit_vector);
}

proof fn lemma_masks()
    ensures
        mask_of(26) == 0x3FF_FFFFu32,
        mask_of(19) == 0x7_FFFFu32,
        mask_of(14) == 0x3FFFu32,
        mask_of(12) == 0xFFFu32,
{
    lemma_two_pow_values();
}

/// Reading a relocated immediate field and writing it back leaves the
/// instruction unchanged.
pub proof fn law_field_identity(bits: nat, offset: nat, inst: u32)
    requires
        imm_field(bits, offset),
    ensures
        compact_spec(
            bits,
            inst & !(mask_of(bits) << (offset as u32)),
            field_of(inst, offset as u32, bits) as i64,
            offset as u32,
        ) == inst,
{
    lemma_masks();
    if bits == 26 {
        assert((inst & !(0x3FF_FFFFu32 << 0u32)) & !(0x3FF_FFFFu32 << 0u32)
            | ((((inst >> 0u32) & 0x3FF_FFFFu32) as i64 as u32 & 0x3FF_FFFFu32) << 0u32) == inst)
            by (bit_vector);
    } else if bits == 19 {
        assert((inst & !(0x7_FFFFu32 << 5u32)) & !(0x7_FFFFu32 << 5u32)
            | ((((inst >> 5u32) & 0x7_FFFFu32) as i64 as u32 & 0x7_FFFFu32) << 5u32) == inst)
            by (bit_vector);
    } else if bits == 14 {
        assert((inst & !(0x3FFFu32 << 5u32)) & !(0x3FFFu32 << 5u32)
            | ((((inst >> 5u32) & 0x3FFFu32) as i64 as u32 & 0x3FFFu32) << 5u32) == inst)
            by (bit_vector);
    } else {
        assert((inst & !(0xFFFu32 << 10u32)) & !(0xFFFu32 << 10u32)
            | ((((inst >> 10u32) & 0xFFFu32) as i64 as u32 & 0xFFFu32) << 10u32) == inst)
            by (bit_vector);
    }
}

/// Writing a value that fits into a relocated immediate field and reading it
/// back gives the same value, and the other bits of the instruction are kept.
pub proof fn law_field_roundtrip(signed: bool, bits: nat, offset: nat, inst: u32, v: i64)
    requires
        imm_field(bits, offset),
        fits_bits(signed, bits, v as int),
    ensures
        sign_extend(
            signed,
            bits,
            field_of(compact_spec(bits, inst, v, offset as u32), offset as u32, bits),
        ) == v,
        compact_spec(bits, inst, v, offset as u32) & !(mask_of(bits) << (offset as u32))
            == inst & !(mask_of(bits) << (offset as u32)),
{
    lemma_masks();
    lemma_two_pow_values();
    if bits == 26 {
        assert({
            let r = (inst & !(0x3FF_FFFFu32 << 0u32)) | (((v as u32) & 0x3FF_FFFFu32) << 0u32);
            let f = (r >> 0u32) & 0x3FF_FFFFu32;
            &&& (-0x200_0000 <= v < 0x200_0000 && f >= 0x200_0000 ==> f - 0x400_0000 == v)
            &&& (-0x200_0000 <= v < 0x200_0000 && f < 0x200_0000 ==> f == v)
            &&& (0 <= v < 0x400_0000 ==> f == v)
            &&& r & !(0x3FF_FFFFu32 << 0u32) == inst & !(0x3FF_FFFFu32 << 0u32)
        }) by (bit_vector);
    } else if bits == 19 {
        assert({
            let r = (inst & !(0x7_FFFFu32 << 5u32)) | (((v as u32) & 0x7_FFFFu32) << 5u32);
            let f = (r >> 5u32) & 0x7_FFFFu32;
            &&& (-0x4_0000 <= v < 0x4_0000 && f >= 0x4_0000 ==> f - 0x8_0000 == v)
            &&& (-0x4_0000 <= v < 0x4_0000 && f < 0x4_0000 ==> f == v)
            &&& (0 <= v < 0x8_0000 ==> f == v)
            &&& r & !(0x7_FFFFu32 << 5u32) == inst & !(0x7_FFFFu32 << 5u32)
        }) by (bit_vector);
    } else if bits == 14 {
        assert({
            let r = (inst & !(0x3FFFu32 << 5u32)) | (((v as u32) & 0x3FFFu32) << 5u32);
            let f = (r >> 5u32) & 0x3FFFu32;
            &&& (-0x2000 <= v < 0x2000 && f >= 0x2000 ==> f - 0x4000 == v)
            &&& (-0x2000 <= v < 0x2000 && f < 0x2000 ==> f == v)
            &&& (0 <= v < 0x4000 ==> f == v)
            &&& r & !(0x3FFFu32 << 5u32) == inst & !(0x3FFFu32 << 5u32)
        }) by (bit_vector);
    } else {
        assert({
            let r = (inst & !(0xFFFu32 << 10u32)) | (((v as u32) & 0xFFFu32) << 10u32);
            let f = (r >> 10u32) & 0xFFFu32;
            &&& (-0x800 <= v < 0x800 && f >= 0x800 ==> f - 0x1000 == v)
            &&& (-0x800 <= v < 0x800 && f < 0x800 ==> f == v)
            &&& (0 <= v < 0x1000 ==> f == v)
            &&& r & !(0xFFFu32 << 10u32) == inst & !(0xFFFu32 << 10u32)
        }) by (bit_vector);
    }
}

/// A power of two below `2^64` is a shifted one.
proof fn lemma_two_pow_shl(n: nat)
    requires
        n < 64,
    ensures
        two_pow(n) == (1u64 << (n as u64)) as nat,
    decreases n,
{
    let k = n as u64;
    if n == 0 {
        assert(1u64 << 0u64 == 1u64) by (bit_vector);
    } else {
        lemma_two_pow_shl((n - 1) as nat);
        let j = (n - 1) as u64;
        assert(1u64 << k == 2 * (1u64 << j)) by (bit_vector)
            requires
                k == j + 1,
                k < 64,
        ;
    }
}

/// Extracting any field of an instruction and putting it back gives the
/// instruction again: for a field of `bits >= 1` bits at `offset`, inside the
/// 32 bits, the extracted value (sign-extended when `signed`) lies between
/// [`minint_spec`] and [`maxint_spec`], the field's mask is `2^bits - 1`, and
/// writing the value back into the instruction with the field cleared gives
/// `inst`.
pub proof fn law_extract_compact(signed: bool, bits: nat, offset: nat, inst: u32)
    requires
        1 <= bits,
        offset + bits <= 32,
    ensures
        ({
            let m = mask_of(bits);
            let f = field_of(inst, offset as u32, bits);
            let v = sign_extend(signed, bits, f);
            &&& m == two_pow(bits) - 1
            &&& fits_bits(signed, bits, v)
            &&& compact_spec(bits, inst & !(m << (offset as u32)), v as i64, offset as u32) == inst
        }),
{
    lemma_two_pow_shl(bits);
    lemma_two_pow_shl((bits - 1) as nat);
    lemma_two_pow_values();
    lemma_two_pow_mono(bits, 32);
    let b = bits as u64;
    let o = offset as u32;
    let m = mask_of(bits);
    let p = 1u64 << b;
    assert(p >= 2 && p <= 0x1_0000_0000) by (bit_vector)
        requires
            p == 1u64 << b,
            1 <= b <= 32,
    ;
    assert(two_pow(bits) == 2 * two_pow((bits - 1) as nat));
    assert(m == (p - 1) as u32);
    let f = field_of(inst, o, bits);
    assert(f <= m && f as u64 <= p - 1) by (bit_vector)
        requires
            f == (inst >> o) & m,
            m == (p - 1) as u32,
            p <= 0x1_0000_0000,
            p >= 2,
    ;
    assert(((inst & !(m << o)) & !(m << o)) | ((f & m) << o) == inst) by (bit_vector)
        requires
            f == (inst >> o) & m,
            m == (p - 1) as u32,
            p == 1u64 << b,
            1 <= b,
            o as u64 + b <= 32,
    ;
    let v = sign_extend(signed, bits, f);
    if signed && f as int >= two_pow((bits - 1) as nat) {
        assert(v == f - p);
        assert(((((f as i64) - (p as i64)) as i64) as u32) & m == f & m) by (bit_vector)
            requires
                m == (p - 1) as u32,
                p == 1u64 << b,
                1 <= b <= 32,
        ;
        assert((v as i64) == (f as i64) - (p as i64));
    } else {
        assert(v == f);
        assert(((f as i64) as u32) & m == f & m) by (bit_vector);
    }
}

pub const IMAGE_REL_ARM64_ABSOLUTE: u16 = 0x0000;
pub const IMAGE_REL_ARM64_ADDR32: u16 = 0x0001;
pub const IMAGE_REL_ARM64_ADDR32NB: u16 = 0x0002;
pub const IMAGE_REL_ARM64_BRANCH26: u16 = 0x0003;
pub const IMAGE_REL_ARM64_PAGEBASE_REL21: u16 = 0x0004;
pub const IMAGE_REL_ARM64_REL21: u16 = 0x0005;
pub const IMAGE_REL_ARM64_PAGEOFFSET_12A: u16 = 0x0006;
pub const IMAGE_REL_ARM64_PAGEOFFSET_12L: u16 = 0x0007;
pub const IMAGE_REL_ARM64_SECTION: u16 = 0x000D;
pub const IMAGE_REL_ARM64_ADDR64: u16 = 0x000E;
pub const IMAGE_REL_ARM64_BRANCH19: u16 = 0x000F;
pub const IMAGE_REL_ARM64_BRANCH14: u16 = 0x0010;
pub const IMAGE_REL_ARM64_REL32: u16 = 0x0011;

/// The relocation types that the AArch64 relocator applies (besides `ABSOLUTE`).
pub open spec fn arm64_known(typ: u16) -> bool {
    ||| typ == IMAGE_REL_ARM64_ADDR32
    ||| typ == IMAGE_REL_ARM64_ADDR32NB
    ||| typ == IMAGE_REL_ARM64_BRANCH26
    ||| typ == IMAGE_REL_ARM64_PAGEBASE_REL21
    ||| typ == IMAGE_REL_ARM64_REL21
    ||| typ == IMAGE_REL_ARM64_PAGEOFFSET_12A
    ||| typ == IMAGE_REL_ARM64_PAGEOFFSET_12L
    ||| typ == IMAGE_REL_ARM64_SECTION
    ||| typ == IMAGE_REL_ARM64_ADDR64
    ||| typ == IMAGE_REL_ARM64_BRANCH19
    ||| typ == IMAGE_REL_ARM64_BRANCH14
    ||| typ == IMAGE_REL_ARM64_REL32
}

/// How many bytes a relocation of this type patches.
pub open spec fn arm64_width(typ: u16) -> nat {
    if typ == IMAGE_REL_ARM64_ADDR64 {
        8
    } else if typ == IMAGE_REL_ARM64_SECTION {
        2
    } else {
        4
    }
}

/// The width and position of the immediate of a branch relocation.
pub open spec fn branch_field(typ: u16) -> (nat, nat) {
    if typ == IMAGE_REL_ARM64_BRANCH26 {
        (26, 0)
    } else if typ == IMAGE_REL_ARM64_BRANCH19 {
        (19, 5)
    } else {
        (14, 5)
    }
}

/// A branch: the immediate holds `(S + A - P) / 4`.
pub open spec fn branch_patch(mem: Seq<u8>, q: int, s: int, p: int, bits: nat, off: nat) -> Result<Seq<u8>, CoFFRError> {
    let inst = read_u32_at(mem, q);
    let a = 4 * sign_extend(true, bits, field_of(inst, off as u32, bits));
    let dt = (s + a - p) / 4;
    if fits_bits(true, bits, dt) {
        Ok(write_u32_at(
            mem,
            q,
            compact_spec(bits, inst & !(mask_of(bits) << (off as u32)), dt as i64, off as u32),
        ))
    } else {
        Err(CoFFRError::RelocationOverflow(dt as u64, bits as u64))
    }
}

/// A 32-bit value `t` stored at `q`, if it fits.
pub open spec fn store32(mem: Seq<u8>, q: int, signed: bool, t: int) -> Result<Seq<u8>, CoFFRError> {
    if fits_bits(signed, 32, t) {
        Ok(write_u32_at(mem, q, t as u32))
    } else {
        Err(CoFFRError::RelocationOverflow(t as u64, 32))
    }
}

/// What applying one AArch64 relocation does to the slab, with
/// `S` the symbol, `A` the addend found at the site, `P` the site's address
/// and `B` the image base.
#[verifier::opaque]
pub open spec fn arm64_patch(
    mem: Seq<u8>,
    view: SectionView,
    base: u64,
    r: ResolvedRelocation,
) -> Result<Seq<u8>, CoFFRError> {
    let q = site(view, r.position_offset);
    let s = (r.symbol as i64) as int;
    let p = place(view, r.position_offset);
    let b = (base as i64) as int;
    let typ = r.typ;
    if typ == IMAGE_REL_ARM64_ABSOLUTE {
        Ok(mem)
    } else if !arm64_known(typ) {
        Err(CoFFRError::UnknownRelocation(typ))
    } else if !site_ok(view, r.position_offset, arm64_width(typ)) {
        Err(CoFFRError::InvalidObject)
    } else if typ == IMAGE_REL_ARM64_ADDR64 {
        Ok(write_u64_at(mem, q, wrap64(r.symbol + read_u64_at(mem, q))))
    } else if typ == IMAGE_REL_ARM64_SECTION {
        Ok(write_u16_at(mem, q, r.sectidx))
    } else if typ == IMAGE_REL_ARM64_ADDR32 {
        store32(mem, q, false, s + read_u32_at(mem, q))
    } else if typ == IMAGE_REL_ARM64_ADDR32NB {
        store32(mem, q, false, s + read_u32_at(mem, q) - b)
    } else if typ == IMAGE_REL_ARM64_REL32 {
        store32(mem, q, true, s + (read_u32_at(mem, q) as i32) - p)
    } else if typ == IMAGE_REL_ARM64_BRANCH26 || typ == IMAGE_REL_ARM64_BRANCH19
        || typ == IMAGE_REL_ARM64_BRANCH14 {
        branch_patch(mem, q, s, p, branch_field(typ).0, branch_field(typ).1)
    } else if typ == IMAGE_REL_ARM64_PAGEOFFSET_12A {
        let inst = read_u32_at(mem, q);
        let dt = (s + field_of(inst, 10, 12)) % 4096;
        Ok(write_u32_at(mem, q, compact_spec(12, inst & !(mask_of(12) << 10u32), dt as i64, 10)))
    } else if typ == IMAGE_REL_ARM64_PAGEOFFSET_12L {
        let inst = read_u32_at(mem, q);
        let sc = scale_spec(inst) as nat;
        let page_offset = (s + field_of(inst, 10, 12) * two_pow(sc)) % 4096;
        if page_offset % (two_pow(sc) as int) != 0 {
            Err(CoFFRError::Arm64AlignmentError(page_offset as u64, 12))
        } else {
            let dt = page_offset / (two_pow(sc) as int);
            Ok(write_u32_at(mem, q, compact_spec(12, inst & !(mask_of(12) << 10u32), dt as i64, 10)))
        }
    } else if typ == IMAGE_REL_ARM64_REL21 {
        let inst = read_u32_at(mem, q);
        let dt = s + adr21_imm(inst) - p;
        if fits_bits(true, 21, dt) {
            Ok(write_u32_at(mem, q, adr21_insert(inst, dt as i64)))
        } else {
            Err(CoFFRError::RelocationOverflow(dt as u64, 21))
        }
    } else {
        // IMAGE_REL_ARM64_PAGEBASE_REL21: the page of S + A, relative to the page of P.
        let inst = read_u32_at(mem, q);
        let target = s + adr21_imm(inst) * 4096;
        let target_page = target - target % 4096;
        let cur_page = p - p % 4096;
        let dt = (target_page - cur_page) / 4096;
        if fits_bits(true, 21, dt) {
            Ok(write_u32_at(mem, q, adr21_insert(inst, dt as i64)))
        } else {
            Err(CoFFRError::RelocationOverflow(dt as u64, 21))
        }
    }
}

/// The size of one stub of the trampoline pool.
pub const ARM64_STUB_SIZE: usize = 16;

/// The bytes of one stub, with a zero target: `ldr x16, #8; br x16`, then
/// the target.
pub open spec fn arm64_stub_spec() -> Seq<u8> {
    seq![0x50u8, 0x00, 0x00, 0x58, 0x00, 0x02, 0x1F, 0xD6, 0, 0, 0, 0, 0, 0, 0, 0]
}

pub fn arm64_stub_template() -> (r: Vec<u8>)
    ensures
        r@ == arm64_stub_spec(),
{
    let r = vec![0x50u8, 0x00, 0x00, 0x58, 0x00, 0x02, 0x1F, 0xD6, 0, 0, 0, 0, 0, 0, 0, 0];
    assert(r@ =~= arm64_stub_spec());
    r
}

/// The target `S + A` of the 26-bit branch at slab offset `q`.
pub open spec fn branch26_target(mem: Seq<u8>, q: int, s: int) -> int {
    s + 4 * sign_extend(true, 26, field_of(read_u32_at(mem, q), 0, 26))
}

/// A 26-bit branch at `q` and address `p` whose target `S + A` (`s` being
/// `S`) is out of its reach goes through a stub of the trampoline pool that
/// jumps to `S + A`: the one already in use for that target (see
/// [`find_slot`]), or else the next free one, whose target slot is then
/// filled. The branch then reaches the stub. The result is the slab and the
/// targets of the stubs in use; on an error the slab is unchanged.
pub open spec fn branch26_stub(
    mem: Seq<u8>,
    view: SectionView,
    q: int,
    s: int,
    p: int,
    used: Seq<u64>,
) -> Result<(Seq<u8>, Seq<u64>), CoFFRError> {
    let inst = read_u32_at(mem, q);
    let sa = branch26_target(mem, q, s);
    let t = wrap64(sa);
    let found = find_slot(used, t);
    if found is None && used.len() >= view.trampolines {
        Err(CoFFRError::RelocationOverflow(((sa - p) / 4) as u64, 26))
    } else {
        let j = match found {
            Some(j) => j,
            None => used.len(),
        };
        let dt = ((view.trampoline.rx + j * 16) - p) / 4;
        if !fits_bits(true, 26, dt) {
            Err(CoFFRError::RelocationOverflow(dt as u64, 26))
        } else {
            let m1 = match found {
                Some(_) => mem,
                None => write_u64_at(mem, view.trampoline.rw + j * 16 + 8, t),
            };
            let u = match found {
                Some(_) => used,
                None => used.push(t),
            };
            Ok((write_u32_at(m1, q, compact_spec(26, inst & !(mask_of(26) << 0u32), dt as i64, 0)), u))
        }
    }
}

/// Applying one AArch64 relocation with the stubs whose targets are `used`
/// in use: the slab afterwards and the targets of the stubs in use, or the
/// error. A `BRANCH26` out of reach goes through a stub (see
/// [`branch26_stub`]); every other relocation is [`arm64_patch`].
pub open spec fn arm64_step(
    mem: Seq<u8>,
    view: SectionView,
    base: u64,
    used: Seq<u64>,
    r: ResolvedRelocation,
) -> Result<(Seq<u8>, Seq<u64>), CoFFRError> {
    let q = site(view, r.position_offset);
    let s = (r.symbol as i64) as int;
    let p = place(view, r.position_offset);
    if r.typ == IMAGE_REL_ARM64_BRANCH26 && site_ok(view, r.position_offset, 4)
        && !fits_bits(true, 26, (branch26_target(mem, q, s) - p) / 4) {
        branch26_stub(mem, view, q, s, p, used)
    } else {
        match arm64_patch(mem, view, base, r) {
            Ok(m) => Ok((m, used)),
            Err(e) => Err(e),
        }
    }
}

/// Applying the relocations in order, with the stubs whose targets are
/// `used` in use: the slab afterwards, and the first error.
pub open spec fn arm64_apply(
    mem: Seq<u8>,
    view: SectionView,
    base: u64,
    used: Seq<u64>,
    relocs: Seq<Result<ResolvedRelocation, CoFFRError>>,
) -> (Seq<u8>, Result<(), CoFFRError>)
    decreases relocs.len(),
{
    if relocs.len() == 0 {
        (mem, Ok(()))
    } else {
        match relocs[0] {
            Err(e) => (mem, Err(e)),
            Ok(r) => match arm64_step(mem, view, base, used, r) {
                Err(e) => (mem, Err(e)),
                Ok((m, u)) => arm64_apply(m, view, base, u, relocs.drop_first()),
            },
        }
    }
}

/// Whether a relocation will need a stub: a `BRANCH26` to an absolute symbol
/// whose target is out of the branch's reach.
pub open spec fn arm64_needs_stub(mem: Seq<u8>, view: SectionView, r: crate::coffr::Relocation) -> Result<nat, CoFFRError> {
    match r.symbol {
        Resolved::Absolute(dt) => if r.typ != IMAGE_REL_ARM64_BRANCH26 {
            Ok(0)
        } else if !site_ok(view, r.position_offset, 4) {
            Err(CoFFRError::InvalidObject)
        } else {
            let q = site(view, r.position_offset);
            if fits_bits(true, 26, (branch26_target(mem, q, (dt as i64) as int) - place(view, r.position_offset)) / 4) {
                Ok(0)
            } else {
                Ok(1)
            }
        },
        _ => Ok(0),
    }
}

/// The number of stubs a section needs, or the first error.
pub open spec fn arm64_count(
    mem: Seq<u8>,
    view: SectionView,
    relocs: Seq<Result<crate::coffr::Relocation, CoFFRError>>,
) -> Result<nat, CoFFRError>
    decreases relocs.len(),
{
    if relocs.len() == 0 {
        Ok(0)
    } else {
        match relocs[0] {
            Err(e) => Err(e),
            Ok(r) => match arm64_needs_stub(mem, view, r) {
                Err(e) => Err(e),
                Ok(c) => match arm64_count(mem, view, relocs.drop_first()) {
                    Err(e) => Err(e),
                    Ok(n) => Ok(c + n),
                },
            },
        }
    }
}

proof fn lemma_field_bound(data: u32, off: u32, bits: nat)
    requires
        bits <= 32,
    ensures
        field_of(data, off, bits) <= mask_of(bits),
{
    let m = mask_of(bits);
    assert((data >> off) & m <= m) by (bit_vector);
}

fn store32_exec(mem: &mut Vec<u8>, q: usize, signed: bool, t: i128) -> (r: Result<(), CoFFRError>)
    requires
        q + 4 <= old(mem).len(),
    ensures
        final(mem)@.len() == old(mem)@.len(),
        match store32(old(mem)@, q as int, signed, t as int) {
            Ok(m) => r is Ok && final(mem)@ == m,
            Err(e) => r == Err::<(), CoFFRError>(e) && final(mem)@ == old(mem)@,
        },
{
    within_bits(signed, 32, t)?;
    write_u32(mem, q, t as u32);
    Ok(())
}

proof fn lemma_signed_field(bits: nat, off: u32, inst: u32)
    requires
        imm_field(bits, off as nat),
    ensures
        sign_extend(true, bits, field_of(inst, off, bits)) as i64
            == sign_extend(true, bits, field_of(inst, off, bits)),
        shift_ok(ShifterType::Shl(2), sign_extend(true, bits, field_of(inst, off, bits)) as i64),
        -0x200_0000 <= sign_extend(true, bits, field_of(inst, off, bits)) < 0x200_0000,
{
    lemma_field_bound(inst, off, bits);
    lemma_masks();
    lemma_two_pow_values();
    let v = sign_extend(true, bits, field_of(inst, off, bits));
    assert(-0x200_0000 <= v < 0x200_0000);
    assert(v as i64 == v);
    assert((v as i64) * two_pow(2u8 as nat) == v * 4);
}

fn branch_exec(
    mem: &mut Vec<u8>,
    q: usize,
    s: i128,
    p: i128,
    bits: u8,
    off: u8,
) -> (r: Result<(), CoFFRError>)
    requires
        q + 4 <= old(mem).len(),
        imm_field(bits as nat, off as nat),
        -0x1_0000_0000_0000_0000 <= s <= 0x1_0000_0000_0000_0000,
        -0x1_0000_0000_0000_0000 <= p <= 0x1_0000_0000_0000_0000,
    ensures
        final(mem)@.len() == old(mem)@.len(),
        match branch_patch(old(mem)@, q as int, s as int, p as int, bits as nat, off as nat) {
            Ok(m) => r is Ok && final(mem)@ == m,
            Err(e) => r == Err::<(), CoFFRError>(e) && final(mem)@ == old(mem)@,
        },
{
    let inst = read_u32(mem, q);
    proof {
        lemma_signed_field(bits as nat, off as u32, inst);
        lemma_two_pow_values();
    }
    let (a, inst2, _) = extract(true, bits, inst, off, ShifterType::Shl(2));
    let ghost fv = sign_extend(true, bits as nat, field_of(inst, off as u32, bits as nat));
    let ghost fa = 4 * fv;
    assert(two_pow(2u8 as nat) == 4);
    assert(shift_spec(ShifterType::Shl(2), fv as i64) == (fv as i64) * two_pow(2u8 as nat));
    assert(a == fa);
    let t: i128 = s + a as i128 - p;
    let dt = floor_div4(t);
    assert(dt == (s + fa - p) / 4);
    within_bits(true, bits, dt)?;
    let v = compact(bits, inst2, dt as i64, off);
    assert(v == compact_spec(bits as nat, inst & !(mask_of(bits as nat) << (off as u32)), dt as i64, off as u32));
    write_u32(mem, q, v);
    Ok(())
}

/// A 26-bit branch at `q`: patched in place when its target is in reach,
/// else through a stub of the pool (see [`branch26_stub`]).
fn branch26_exec(
    mem: &mut Vec<u8>,
    view: SectionView,
    q: usize,
    s: i128,
    p: i128,
    used: &mut Vec<u64>,
) -> (r: Result<(), CoFFRError>)
    requires
        view_in_slab(view, old(mem).len() as nat),
        old(used).len() <= view.trampolines,
        q + 4 <= old(mem).len(),
        -0x1_0000_0000_0000_0000 <= s <= 0x1_0000_0000_0000_0000,
        -0x1_0000_0000_0000_0000 <= p <= 0x1_0000_0000_0000_0000,
    ensures
        final(mem)@.len() == old(mem)@.len(),
        final(used).len() <= view.trampolines,
        ({
            let m0 = old(mem)@;
            let want = if fits_bits(true, 26, (branch26_target(m0, q as int, s as int) - p) / 4) {
                match branch_patch(m0, q as int, s as int, p as int, 26, 0) {
                    Ok(m) => Ok((m, old(used)@)),
                    Err(e) => Err(e),
                }
            } else {
                branch26_stub(m0, view, q as int, s as int, p as int, old(used)@)
            };
            match want {
                Ok((m, u)) => r is Ok && final(mem)@ == m && final(used)@ == u,
                Err(e) => r == Err::<(), CoFFRError>(e) && final(mem)@ == m0,
            }
        }),
{
    let inst = read_u32(mem, q);
    proof {
        lemma_signed_field(26, 0, inst);
        lemma_two_pow_values();
    }
    let (a, inst2, _) = extract(true, 26, inst, 0, ShifterType::Shl(2));
    let ghost fv = sign_extend(true, 26, field_of(inst, 0, 26));
    let ghost fa = 4 * fv;
    assert(two_pow(2u8 as nat) == 4);
    assert(shift_spec(ShifterType::Shl(2), fv as i64) == (fv as i64) * two_pow(2u8 as nat));
    assert(a == fa);
    let sa: i128 = s + a as i128;
    let dt = floor_div4(sa - p);
    assert(dt == (s + fa - p) / 4);
    if within_bits(true, 26, dt).is_ok() {
        let v = compact(26, inst2, dt as i64, 0);
        assert(v == compact_spec(26, inst & !(mask_of(26) << 0u32), dt as i64, 0));
        write_u32(mem, q, v);
        return Ok(());
    }
    let t = wrap_u64(sa);
    let found = find_slot_exec(used, t);
    let j: usize = match found {
        Some(j) => j,
        None => {
            if used.len() >= view.trampolines as usize {
                return Err(CoFFRError::RelocationOverflow(dt as u64, 26));
            }
            used.len()
        },
    };
    let stub: i128 = (view.trampoline.rx + j * 16) as i128;
    let dt2 = floor_div4(stub - p);
    within_bits(true, 26, dt2)?;
    if found.is_none() {
        assert(view.trampoline.rw + j * 16 + 16 <= mem.len()) by (nonlinear_arith)
            requires
                view.trampoline.rw + view.trampolines * 16 <= mem.len(),
                j < view.trampolines,
        ;
        write_u64(mem, view.trampoline.rw + j * 16 + 8, t);
        used.push(t);
    }
    let v = compact(26, inst2, dt2 as i64, 0);
    assert(v == compact_spec(26, inst & !(mask_of(26) << 0u32), dt2 as i64, 0));
    write_u32(mem, q, v);
    Ok(())
}

/// Counts the stubs that a section needs, and gives their template.
pub fn count_trampolines(section: &CheckLinkSection, mem: &Vec<u8>) -> (r: Result<(u32, Vec<u8>), CoFFRError>)
    requires
        view_in_slab(section.view, mem.len() as nat),
        section.reloc.len() < u32::MAX,
    ensures
        match arm64_count(mem@, section.view, section.reloc@) {
            Ok(n) => r is Ok && r.unwrap().0 == n && r.unwrap().1@ == arm64_stub_spec(),
            Err(e) => r == Err::<(u32, Vec<u8>), CoFFRError>(e),
        },
{
    let view = section.view;
    let n = section.reloc.len();
    let mut i: usize = 0;
    let mut count: u32 = 0;
    assert(section.reloc@.skip(0) =~= section.reloc@);
    while i < n
        invariant
            i <= n,
            n == section.reloc.len(),
            n < u32::MAX,
            view == section.view,
            view_in_slab(view, mem.len() as nat),
            count <= i,
            arm64_count(mem@, view, section.reloc@) == (match arm64_count(mem@, view, section.reloc@.skip(i as int)) {
                Ok(k) => Ok::<nat, CoFFRError>(count as nat + k),
                Err(e) => Err(e),
            }),
        decreases n - i,
    {
        let ghost rest = section.reloc@.skip(i as int);
        assert(rest.drop_first() =~= section.reloc@.skip(i + 1));
        assert(rest[0] == section.reloc@[i as int]);
        let mut c: u32 = 0;
        match &section.reloc[i] {
            Err(e) => {
                return Err(*e);
            },
            Ok(rel) => {
                match rel.symbol {
                    Resolved::Absolute(dt) => {
                        if rel.typ == IMAGE_REL_ARM64_BRANCH26 {
                            if rel.position_offset > view.len as u64 || 4 > view.len as u64 - rel.position_offset {
                                return Err(CoFFRError::InvalidObject);
                            }
                            let q: usize = view.data.rw + rel.position_offset as usize;
                            let inst = read_u32(mem, q);
                            proof {
                                lemma_signed_field(26, 0, inst);
                                lemma_two_pow_values();
                            }
                            let (a, _, _) = extract(true, 26, inst, 0, ShifterType::Shl(2));
                            let ghost fv = sign_extend(true, 26, field_of(inst, 0, 26));
                            assert(two_pow(2u8 as nat) == 4);
                            assert(shift_spec(ShifterType::Shl(2), fv as i64) == (fv as i64) * two_pow(2u8 as nat));
                            let p: i128 = (view.data.rx as i64) as i128 + (rel.position_offset as i64) as i128;
                            let d = floor_div4((dt as i64) as i128 + a as i128 - p);
                            if within_bits(true, 26, d).is_err() {
                                c = 1;
                            }
                        }
                    },
                    _ => {},
                }
            },
        }
        count = count + c;
        i = i + 1;
    }
    assert(section.reloc@.skip(n as int) =~= Seq::<Result<crate::coffr::Relocation, CoFFRError>>::empty());
    Ok((count, arm64_stub_template()))
}

fn data_exec(
    mem: &mut Vec<u8>,
    q: usize,
    typ: u16,
    symbol: u64,
    sectidx: u16,
    s: i128,
    p: i128,
    b: i128,
) -> (r: Result<(), CoFFRError>)
    requires
        q + arm64_width(typ) <= old(mem).len(),
        typ == IMAGE_REL_ARM64_ADDR64 || typ == IMAGE_REL_ARM64_SECTION
            || typ == IMAGE_REL_ARM64_ADDR32 || typ == IMAGE_REL_ARM64_ADDR32NB
            || typ == IMAGE_REL_ARM64_REL32,
        -0x1_0000_0000_0000_0000 <= s <= 0x1_0000_0000_0000_0000,
        -0x1_0000_0000_0000_0000 <= p <= 0x1_0000_0000_0000_0000,
        -0x1_0000_0000_0000_0000 <= b <= 0x1_0000_0000_0000_0000,
    ensures
        final(mem)@.len() == old(mem)@.len(),
        ({
            let m0 = old(mem)@;
            let qi = q as int;
            let want = if typ == IMAGE_REL_ARM64_ADDR64 {
                Ok(write_u64_at(m0, qi, wrap64(symbol + read_u64_at(m0, qi))))
            } else if typ == IMAGE_REL_ARM64_SECTION {
                Ok(write_u16_at(m0, qi, sectidx))
            } else if typ == IMAGE_REL_ARM64_ADDR32 {
                store32(m0, qi, false, s + read_u32_at(m0, qi))
            } else if typ == IMAGE_REL_ARM64_ADDR32NB {
                store32(m0, qi, false, s + read_u32_at(m0, qi) - b)
            } else {
                store32(m0, qi, true, s + (read_u32_at(m0, qi) as i32) - p)
            };
            match want {
                Ok(m) => r is Ok && final(mem)@ == m,
                Err(e) => r == Err::<(), CoFFRError>(e) && final(mem)@ == old(mem)@,
            }
        }),
{
    if typ == IMAGE_REL_ARM64_ADDR64 {
        let a = read_u64(mem, q);
        write_u64(mem, q, wrap_u64(symbol as i128 + a as i128));
        Ok(())
    } else if typ == IMAGE_REL_ARM64_SECTION {
        write_u16(mem, q, sectidx);
        Ok(())
    } else if typ == IMAGE_REL_ARM64_ADDR32 {
        let a = read_u32(mem, q);
        store32_exec(mem, q, false, s + a as i128)
    } else if typ == IMAGE_REL_ARM64_ADDR32NB {
        let a = read_u32(mem, q);
        store32_exec(mem, q, false, s + a as i128 - b)
    } else {
        let a = read_u32(mem, q) as i32;
        store32_exec(mem, q, true, s + a as i128 - p)
    }
}

fn pageoffset_exec(mem: &mut Vec<u8>, q: usize, typ: u16, s: i128) -> (r: Result<(), CoFFRError>)
    requires
        q + 4 <= old(mem).len(),
        typ == IMAGE_REL_ARM64_PAGEOFFSET_12A || typ == IMAGE_REL_ARM64_PAGEOFFSET_12L,
        -0x1_0000_0000_0000_0000 <= s <= 0x1_0000_0000_0000_0000,
    ensures
        final(mem)@.len() == old(mem)@.len(),
        ({
            let m0 = old(mem)@;
            let inst = read_u32_at(m0, q as int);
            let want = if typ == IMAGE_REL_ARM64_PAGEOFFSET_12A {
                let dt = (s + field_of(inst, 10, 12)) % 4096;
                Ok(write_u32_at(m0, q as int, compact_spec(12, inst & !(mask_of(12) << 10u32), dt as i64, 10)))
            } else {
                let sc = scale_spec(inst) as nat;
                let page_offset = (s + field_of(inst, 10, 12) * two_pow(sc)) % 4096;
                if page_offset % (two_pow(sc) as int) != 0 {
                    Err(CoFFRError::Arm64AlignmentError(page_offset as u64, 12))
                } else {
                    let dt = page_offset / (two_pow(sc) as int);
                    Ok(write_u32_at(m0, q as int, compact_spec(12, inst & !(mask_of(12) << 10u32), dt as i64, 10)))
                }
            };
            match want {
                Ok(m) => r is Ok && final(mem)@ == m,
                Err(e) => r == Err::<(), CoFFRError>(e) && final(mem)@ == old(mem)@,
            }
        }),
{
    let inst = read_u32(mem, q);
    proof {
        lemma_field_bound(inst, 10, 12);
        lemma_masks();
        lemma_two_pow_values();
    }
    if typ == IMAGE_REL_ARM64_PAGEOFFSET_12A {
        let (a, inst2, _) = extract(false, 12, inst, 10, ShifterType::Unshifted);
        let dt = mod4096(s + a as i128);
        write_u32(mem, q, compact(12, inst2, dt as i64, 10));
        Ok(())
    } else {
        let sc = scale(inst);
        proof {
            lemma_two_pow_mono(sc as nat, 7);
            let f = field_of(inst, 10, 12);
            assert(0 <= f * two_pow(sc as nat) <= 4095 * 128) by (nonlinear_arith)
                requires
                    f <= 4095,
                    two_pow(sc as nat) <= 128,
            ;
        }
        let (a, inst2, _) = extract(false, 12, inst, 10, ShifterType::Shl(sc as u8));
        let target: i128 = s + a as i128;
        let page_offset = mod4096(target);
        let d: i128 = two_pow_i64(sc as u8) as i128;
        proof {
            lemma_two_pow_pos(sc as nat);
        }
        if page_offset % d != 0 {
            return Err(CoFFRError::Arm64AlignmentError(page_offset as u64, 12));
        }
        let dt = page_offset / d;
        write_u32(mem, q, compact(12, inst2, dt as i64, 10));
        Ok(())
    }
}

fn adr_exec(mem: &mut Vec<u8>, q: usize, typ: u16, s: i128, p: i128) -> (r: Result<(), CoFFRError>)
    requires
        q + 4 <= old(mem).len(),
        typ == IMAGE_REL_ARM64_REL21 || typ == IMAGE_REL_ARM64_PAGEBASE_REL21,
        -0x1_0000_0000_0000_0000 <= s <= 0x1_0000_0000_0000_0000,
        -0x1_0000_0000_0000_0000 <= p <= 0x1_0000_0000_0000_0000,
    ensures
        final(mem)@.len() == old(mem)@.len(),
        ({
            let m0 = old(mem)@;
            let inst = read_u32_at(m0, q as int);
            let dt = if typ == IMAGE_REL_ARM64_REL21 {
                s + adr21_imm(inst) - p
            } else {
                let target = s + adr21_imm(inst) * 4096;
                ((target - target % 4096) - (p - p % 4096)) / 4096
            };
            if fits_bits(true, 21, dt) {
                r is Ok && final(mem)@ == write_u32_at(m0, q as int, adr21_insert(inst, dt as i64))
            } else {
                r == Err::<(), CoFFRError>(CoFFRError::RelocationOverflow(dt as u64, 21))
                    && final(mem)@ == old(mem)@
            }
        }),
{
    let inst = read_u32(mem, q);
    proof {
        lemma_two_pow_values();
    }
    let a = extract_adr21(inst);
    let dt: i128 = if typ == IMAGE_REL_ARM64_REL21 {
        s + a as i128 - p
    } else {
        let target: i128 = s + a as i128 * 4096;
        let target_page = target - mod4096(target);
        let cur_page = p - mod4096(p);
        (target_page - cur_page) / 4096
    };
    within_bits(true, 21, dt)?;
    write_u32(mem, q, compact_adr21(inst, dt as i64));
    Ok(())
}

/// Applies one relocation to the slab.
fn patch(
    mem: &mut Vec<u8>,
    view: SectionView,
    base: u64,
    used: &mut Vec<u64>,
    r: ResolvedRelocation,
) -> (res: Result<(), CoFFRError>)
    requires
        view_in_slab(view, old(mem).len() as nat),
        old(used).len() <= view.trampolines,
    ensures
        final(mem)@.len() == old(mem)@.len(),
        final(used).len() <= view.trampolines,
        match arm64_step(old(mem)@, view, base, old(used)@, r) {
            Ok((m, u)) => res is Ok && final(mem)@ == m && final(used)@ == u,
            Err(e) => res == Err::<(), CoFFRError>(e) && final(mem)@ == old(mem)@,
        },
{
    reveal(arm64_patch);
    let typ = r.typ;
    if typ == IMAGE_REL_ARM64_ABSOLUTE {
        return Ok(());
    }
    if !(typ == IMAGE_REL_ARM64_ADDR32 || typ == IMAGE_REL_ARM64_ADDR32NB
        || typ == IMAGE_REL_ARM64_BRANCH26 || typ == IMAGE_REL_ARM64_PAGEBASE_REL21
        || typ == IMAGE_REL_ARM64_REL21 || typ == IMAGE_REL_ARM64_PAGEOFFSET_12A
        || typ == IMAGE_REL_ARM64_PAGEOFFSET_12L || typ == IMAGE_REL_ARM64_SECTION
        || typ == IMAGE_REL_ARM64_ADDR64 || typ == IMAGE_REL_ARM64_BRANCH19
        || typ == IMAGE_REL_ARM64_BRANCH14 || typ == IMAGE_REL_ARM64_REL32) {
        return Err(CoFFRError::UnknownRelocation(typ));
    }
    let width: u64 = if typ == IMAGE_REL_ARM64_ADDR64 {
        8
    } else if typ == IMAGE_REL_ARM64_SECTION {
        2
    } else {
        4
    };
    if r.position_offset > view.len as u64 || width > view.len as u64 - r.position_offset {
        return Err(CoFFRError::InvalidObject);
    }
    let q: usize = view.data.rw + r.position_offset as usize;
    let s: i128 = (r.symbol as i64) as i128;
    let p: i128 = (view.data.rx as i64) as i128 + (r.position_offset as i64) as i128;
    let b: i128 = (base as i64) as i128;
    if typ == IMAGE_REL_ARM64_ADDR64 || typ == IMAGE_REL_ARM64_SECTION
        || typ == IMAGE_REL_ARM64_ADDR32 || typ == IMAGE_REL_ARM64_ADDR32NB
        || typ == IMAGE_REL_ARM64_REL32 {
        data_exec(mem, q, typ, r.symbol, r.sectidx, s, p, b)
    } else if typ == IMAGE_REL_ARM64_BRANCH26 {
        branch26_exec(mem, view, q, s, p, used)
    } else if typ == IMAGE_REL_ARM64_BRANCH19 {
        branch_exec(mem, q, s, p, 19, 5)
    } else if typ == IMAGE_REL_ARM64_BRANCH14 {
        branch_exec(mem, q, s, p, 14, 5)
    } else if typ == IMAGE_REL_ARM64_PAGEOFFSET_12A || typ == IMAGE_REL_ARM64_PAGEOFFSET_12L {
        pageoffset_exec(mem, q, typ, s)
    } else {
        adr_exec(mem, q, typ, s, p)
    }
}

/// Applies the relocations of a placed section, in order, sending branches
/// that do not reach through the section's stubs, one for each target;
/// stops at the first error.
pub fn link(base: u64, section: &LinkSection, mem: &mut Vec<u8>) -> (r: Result<(), CoFFRError>)
    requires
        view_in_slab(section.view, old(mem).len() as nat),
    ensures
        final(mem)@.len() == old(mem)@.len(),
        (final(mem)@, r) == arm64_apply(old(mem)@, section.view, base, Seq::empty(), section.reloc@),
        forall|k: int| 0 <= k < old(mem)@.len() && off_sites(section.view, section.reloc@, k)
            ==> #[trigger] final(mem)@[k] == old(mem)@[k],
{
    proof {
        assert forall|k: int| 0 <= k < old(mem)@.len() && off_sites(section.view, section.reloc@, k)
            implies arm64_apply(old(mem)@, section.view, base, Seq::empty(), section.reloc@).0[k] == old(mem)@[k] by {
            law_arm64_frame(old(mem)@, section.view, base, Seq::empty(), section.reloc@, k);
        }
    }
    let view = section.view;
    let ghost m0 = mem@;
    let mut i: usize = 0;
    let mut used: Vec<u64> = Vec::new();
    assert(section.reloc@.skip(0) =~= section.reloc@);
    assert(used@ =~= Seq::<u64>::empty());
    while i < section.reloc.len()
        invariant
            i <= section.reloc.len(),
            m0 == old(mem)@,
            mem@.len() == m0.len(),
            view == section.view,
            view_in_slab(view, mem@.len() as nat),
            used.len() <= view.trampolines,
            forall|k: int| 0 <= k < m0.len() && off_sites(view, section.reloc@, k)
                ==> #[trigger] arm64_apply(m0, view, base, Seq::empty(), section.reloc@).0[k] == m0[k],
            arm64_apply(m0, view, base, Seq::empty(), section.reloc@) == arm64_apply(
                mem@,
                view,
                base,
                used@,
                section.reloc@.skip(i as int),
            ),
        decreases section.reloc.len() - i,
    {
        let ghost rest = section.reloc@.skip(i as int);
        assert(rest.drop_first() =~= section.reloc@.skip(i + 1));
        assert(rest[0] == section.reloc@[i as int]);
        match &section.reloc[i] {
            Err(e) => {
                assert(arm64_apply(mem@, view, base, used@, rest) == (mem@, Err::<(), CoFFRError>(*e)));
                assert(mem@ == arm64_apply(m0, view, base, Seq::empty(), section.reloc@).0);
                return Err(*e);
            },
            Ok(rel) => {
                let ghost before = mem@;
                let ghost ubefore = used@;
                let res = patch(mem, view, base, &mut used, *rel);
                match res {
                    Err(e) => {
                        assert(arm64_apply(before, view, base, ubefore, rest) == (before, Err::<(), CoFFRError>(e)));
                        assert(mem@ == arm64_apply(m0, view, base, Seq::empty(), section.reloc@).0);
                        return Err(e);
                    },
                    Ok(()) => {},
                }
            },
        }
        i = i + 1;
    }
    assert(section.reloc@.skip(i as int) =~= Seq::<Result<ResolvedRelocation, CoFFRError>>::empty());
    Ok(())
}

/// Relocates `.text`, then `.rdata` when there is one; stops at the first error.
pub fn relocate(
    imagebase: u64,
    text: &LinkSection,
    rdata: Option<&LinkSection>,
    mem: &mut Vec<u8>,
) -> (r: Result<(), CoFFRError>)
    requires
        view_in_slab(text.view, old(mem).len() as nat),
        rdata matches Some(d) ==> view_in_slab(d.view, old(mem).len() as nat),
    ensures
        ({
            let (m1, r1) = arm64_apply(old(mem)@, text.view, imagebase, Seq::empty(), text.reloc@);
            match (r1, rdata) {
                (Ok(()), Some(d)) => (final(mem)@, r) == arm64_apply(m1, d.view, imagebase, Seq::empty(), d.reloc@),
                _ => final(mem)@ == m1 && r == r1,
            }
        }),
{
    link(imagebase, text, mem)?;
    match rdata {
        Some(d) => link(imagebase, d, mem),
        None => Ok(()),
    }
}

/// A 26-bit branch whose target `S + A` is out of its reach, and for which
/// no stub is in use yet, goes through the next free stub of the pool: the
/// stub's target slot then holds `S + A`, the branch reaches the stub, and
/// the stub is in use for that target.
pub proof fn law_arm64_far_branch(mem: Seq<u8>, view: SectionView, base: u64, used: Seq<u64>, r: ResolvedRelocation)
    requires
        r.typ == IMAGE_REL_ARM64_BRANCH26,
        view_in_slab(view, mem.len()),
        site_ok(view, r.position_offset, 4),
        used.len() < view.trampolines,
        !fits_bits(true, 26, (branch26_target(mem, site(view, r.position_offset), (r.symbol as i64) as int) - place(view, r.position_offset)) / 4),
        find_slot(used, wrap64(branch26_target(mem, site(view, r.position_offset), (r.symbol as i64) as int))) is None,
        fits_bits(true, 26, ((view.trampoline.rx + used.len() * 16) - place(view, r.position_offset)) / 4),
        view.trampoline.rw + used.len() * 16 + 16 <= site(view, r.position_offset)
            || site(view, r.position_offset) + 4 <= view.trampoline.rw + used.len() * 16 + 8,
    ensures
        ({
            let q = site(view, r.position_offset);
            let t = wrap64(branch26_target(mem, q, (r.symbol as i64) as int));
            let slot = view.trampoline.rw + used.len() * 16 + 8;
            let dt = ((view.trampoline.rx + used.len() * 16) - place(view, r.position_offset)) / 4;
            let inst = read_u32_at(mem, q);
            &&& arm64_step(mem, view, base, used, r) matches Ok((m, u)) && {
                &&& u == used.push(t)
                &&& read_u64_at(m, slot) == t
                &&& read_u32_at(m, q) == compact_spec(26, inst & !(mask_of(26) << 0u32), dt as i64, 0)
            }
        }),
{
    let q = site(view, r.position_offset);
    let t = wrap64(branch26_target(mem, q, (r.symbol as i64) as int));
    let slot = view.trampoline.rw + used.len() * 16 + 8;
    let dt = ((view.trampoline.rx + used.len() * 16) - place(view, r.position_offset)) / 4;
    let inst = read_u32_at(mem, q);
    assert(slot + 8 <= mem.len()) by (nonlinear_arith)
        requires
            slot == view.trampoline.rw + used.len() * 16 + 8,
            view.trampoline.rw + view.trampolines * 16 <= mem.len(),
            used.len() < view.trampolines,
    ;
    let m1 = write_u64_at(mem, slot, t);
    let v = compact_spec(26, inst & !(mask_of(26) << 0u32), dt as i64, 0);
    crate::bytes::lemma_u64_roundtrip(mem, slot, t);
    crate::bytes::lemma_u32_roundtrip(m1, q, v);
    crate::bytes::lemma_u32_write_keeps(m1, q, v, slot, 8);
}

/// Stubs are shared: a 26-bit branch out of reach to a target for which a
/// stub is already in use goes through that stub. Only the branch is
/// written, and no more stubs are in use.
pub proof fn law_arm64_shared_stub(mem: Seq<u8>, view: SectionView, base: u64, used: Seq<u64>, r: ResolvedRelocation, j: nat)
    requires
        r.typ == IMAGE_REL_ARM64_BRANCH26,
        site_ok(view, r.position_offset, 4),
        !fits_bits(true, 26, (branch26_target(mem, site(view, r.position_offset), (r.symbol as i64) as int) - place(view, r.position_offset)) / 4),
        find_slot(used, wrap64(branch26_target(mem, site(view, r.position_offset), (r.symbol as i64) as int))) == Some(j),
        fits_bits(true, 26, ((view.trampoline.rx + j * 16) - place(view, r.position_offset)) / 4),
    ensures
        ({
            let q = site(view, r.position_offset);
            let dt = ((view.trampoline.rx + j * 16) - place(view, r.position_offset)) / 4;
            let inst = read_u32_at(mem, q);
            arm64_step(mem, view, base, used, r)
                == Ok::<(Seq<u8>, Seq<u64>), CoFFRError>((write_u32_at(mem, q, compact_spec(26, inst & !(mask_of(26) << 0u32), dt as i64, 0)), used))
        }),
{
}

/// One relocation writes only inside its site and the stub pool, and never
/// uses more stubs than the pool has.
#[verifier::spinoff_prover]
#[verifier::rlimit(40)]
proof fn lemma_arm64_step_keeps(mem: Seq<u8>, view: SectionView, base: u64, used: Seq<u64>, r: ResolvedRelocation, k: int)
    requires
        view_in_slab(view, mem.len()),
        used.len() <= view.trampolines,
        0 <= k < mem.len(),
        !(site(view, r.position_offset) <= k < site(view, r.position_offset) + 8),
        !(view.trampoline.rw <= k < view.trampoline.rw + view.trampolines * 16),
    ensures
        arm64_step(mem, view, base, used, r) matches Ok((m, u)) ==> {
            &&& m.len() == mem.len()
            &&& m[k] == mem[k]
            &&& u.len() <= view.trampolines
        },
{
    reveal(arm64_patch);
    assert forall|v: nat, n: nat| #[trigger] crate::bytes::le_bytes(v, n).len() == n by {
        crate::bytes::lemma_le_bytes_len(v, n);
    }
    let q = site(view, r.position_offset);
    let s = (r.symbol as i64) as int;
    let p = place(view, r.position_offset);
    if r.typ == IMAGE_REL_ARM64_BRANCH26 && site_ok(view, r.position_offset, 4)
        && !fits_bits(true, 26, (branch26_target(mem, q, s) - p) / 4) {
        let t = wrap64(branch26_target(mem, q, s));
        if find_slot(used, t) is None && used.len() < view.trampolines {
            let slot = view.trampoline.rw + used.len() * 16 + 8;
            assert(slot + 8 <= view.trampoline.rw + view.trampolines * 16) by (nonlinear_arith)
                requires
                    slot == view.trampoline.rw + used.len() * 16 + 8,
                    used.len() < view.trampolines,
            ;
        }
    }
}

/// The AArch64 relocator writes only at the relocations' sites and in the
/// stub pool: applying relocations, from any number of stubs in use up to
/// the pool's size, leaves every byte off the sites (see [`off_sites`]) as it
/// was.
pub proof fn law_arm64_frame(
    mem: Seq<u8>,
    view: SectionView,
    base: u64,
    used: Seq<u64>,
    relocs: Seq<Result<ResolvedRelocation, CoFFRError>>,
    k: int,
)
    requires
        view_in_slab(view, mem.len()),
        used.len() <= view.trampolines,
        0 <= k < mem.len(),
        off_sites(view, relocs, k),
    ensures
        arm64_apply(mem, view, base, used, relocs).0.len() == mem.len(),
        arm64_apply(mem, view, base, used, relocs).0[k] == mem[k],
    decreases relocs.len(),
{
    if relocs.len() > 0 {
        if let Ok(r) = relocs[0] {
            assert(relocs[0] is Ok);
            lemma_arm64_step_keeps(mem, view, base, used, r, k);
            if let Ok((m, u)) = arm64_step(mem, view, base, used, r) {
                let rest = relocs.drop_first();
                assert forall|i: int| 0 <= i < rest.len() && (#[trigger] rest[i]) is Ok implies !(
                    site(view, rest[i]->Ok_0.position_offset) <= k < site(view, rest[i]->Ok_0.position_offset) + 8) by {
                    assert(rest[i] == relocs[i + 1]);
                }
                law_arm64_frame(m, view, base, u, rest, k);
            }
        }
    }
}

/// An ADRP (`PAGEBASE_REL21`) gets the number of 4 KiB pages from the page
/// of its place `P` to the page of its target `S + A`, with `A` the page
/// offset it held (in pages): `floor((S + A) / 4096) - floor(P / 4096)`, when
/// that fits in 21 signed bits; the other bits of the instruction are kept.
/// Otherwise it fails with an overflow, and the slab is unchanged.
pub proof fn law_arm64_adrp_pages(mem: Seq<u8>, view: SectionView, base: u64, used: Seq<u64>, r: ResolvedRelocation)
    requires
        r.typ == IMAGE_REL_ARM64_PAGEBASE_REL21,
        view_in_slab(view, mem.len()),
        site_ok(view, r.position_offset, 4),
    ensures
        ({
            let q = site(view, r.position_offset);
            let inst = read_u32_at(mem, q);
            let target = (r.symbol as i64) as int + adr21_imm(inst) * 4096;
            let pages = target / 4096 - place(view, r.position_offset) / 4096;
            &&& -0x10_0000 <= pages < 0x10_0000 ==> (arm64_step(mem, view, base, used, r) matches Ok((m, u)) && {
                &&& u == used
                &&& m.len() == mem.len()
                &&& adr21_imm(read_u32_at(m, q)) == pages
                &&& read_u32_at(m, q) & !adr21_mask() == inst & !adr21_mask()
            })
            &&& !(-0x10_0000 <= pages < 0x10_0000) ==> arm64_step(mem, view, base, used, r)
                == Err::<(Seq<u8>, Seq<u64>), CoFFRError>(CoFFRError::RelocationOverflow(pages as u64, 21))
        }),
{
    reveal(arm64_patch);
    lemma_two_pow_values();
    let q = site(view, r.position_offset);
    let inst = read_u32_at(mem, q);
    let p = place(view, r.position_offset);
    let target = (r.symbol as i64) as int + adr21_imm(inst) * 4096;
    let pages = target / 4096 - p / 4096;
    let target_page = target - target % 4096;
    let cur_page = p - p % 4096;
    assert((target_page - cur_page) / 4096 == pages) by (nonlinear_arith)
        requires
            target_page == target - target % 4096,
            cur_page == p - p % 4096,
            pages == target / 4096 - p / 4096,
    {
        vstd::arithmetic::div_mod::lemma_fundamental_div_mod(target, 4096);
        vstd::arithmetic::div_mod::lemma_fundamental_div_mod(p, 4096);
        assert(target_page - cur_page == 4096 * pages);
        vstd::arithmetic::div_mod::lemma_div_multiples_vanish(pages, 4096);
    }
    if -0x10_0000 <= pages < 0x10_0000 {
        let v = adr21_insert(inst, pages as i64);
        assert(pages as i64 == pages);
        law_adr21_roundtrip(inst, pages as i64);
        law_adr21_keeps_opcode(inst, pages as i64);
        crate::bytes::lemma_u32_roundtrip(mem, q, v);
    }
}

/// An ADD or load/store page offset of the unscaled kind (`PAGEOFFSET_12A`)
/// gets the offset of its target `S + A` within its 4 KiB page, `A` being
/// the 12-bit immediate it held: the immediate (bits 10 to 21) becomes
/// `(S + A) mod 4096`, unscaled, and the other bits of the instruction are
/// kept. It never fails on a site inside the section.
pub proof fn law_arm64_page_offset_unscaled(mem: Seq<u8>, view: SectionView, base: u64, used: Seq<u64>, r: ResolvedRelocation)
    requires
        r.typ == IMAGE_REL_ARM64_PAGEOFFSET_12A,
        view_in_slab(view, mem.len()),
        site_ok(view, r.position_offset, 4),
    ensures
        ({
            let q = site(view, r.position_offset);
            let inst = read_u32_at(mem, q);
            let offset = ((r.symbol as i64) as int + ((inst >> 10u32) & 0xFFFu32)) % 4096;
            arm64_step(mem, view, base, used, r) matches Ok((m, u)) && {
                &&& u == used
                &&& m.len() == mem.len()
                &&& ((read_u32_at(m, q) >> 10u32) & 0xFFFu32) == offset
                &&& read_u32_at(m, q) & !(0xFFFu32 << 10u32) == inst & !(0xFFFu32 << 10u32)
            }
        }),
{
    reveal(arm64_patch);
    lemma_masks();
    lemma_two_pow_values();
    let q = site(view, r.position_offset);
    let inst = read_u32_at(mem, q);
    let dt = ((r.symbol as i64) as int + field_of(inst, 10, 12)) % 4096;
    assert(dt as i64 == dt);
    let cleared = inst & !(mask_of(12) << 10u32);
    law_field_roundtrip(false, 12, 10, cleared, dt as i64);
    let v = compact_spec(12, cleared, dt as i64, 10);
    crate::bytes::lemma_u32_roundtrip(mem, q, v);
    assert(cleared & !(0xFFFu32 << 10u32) == inst & !(0xFFFu32 << 10u32)) by (bit_vector)
        requires
            cleared == inst & !(0xFFFu32 << 10u32),
    ;
}

/// An ADR (`REL21`) gets the byte distance from its place `P` to its target
/// `S + A`, with `A` the immediate it held, when it fits in 21 signed bits;
/// the other bits of the instruction are kept. Otherwise it fails with an
/// overflow.
pub proof fn law_arm64_adr(mem: Seq<u8>, view: SectionView, base: u64, used: Seq<u64>, r: ResolvedRelocation)
    requires
        r.typ == IMAGE_REL_ARM64_REL21,
        view_in_slab(view, mem.len()),
        site_ok(view, r.position_offset, 4),
    ensures
        ({
            let q = site(view, r.position_offset);
            let inst = read_u32_at(mem, q);
            let d = (r.symbol as i64) as int + adr21_imm(inst) - place(view, r.position_offset);
            &&& -0x10_0000 <= d < 0x10_0000 ==> (arm64_step(mem, view, base, used, r) matches Ok((m, u)) && {
                &&& u == used
                &&& adr21_imm(read_u32_at(m, q)) == d
                &&& read_u32_at(m, q) & !adr21_mask() == inst & !adr21_mask()
            })
            &&& !(-0x10_0000 <= d < 0x10_0000) ==> arm64_step(mem, view, base, used, r)
                == Err::<(Seq<u8>, Seq<u64>), CoFFRError>(CoFFRError::RelocationOverflow(d as u64, 21))
        }),
{
    reveal(arm64_patch);
    lemma_two_pow_values();
    let q = site(view, r.position_offset);
    let inst = read_u32_at(mem, q);
    let d = (r.symbol as i64) as int + adr21_imm(inst) - place(view, r.position_offset);
    if -0x10_0000 <= d < 0x10_0000 {
        assert(d as i64 == d);
        law_adr21_roundtrip(inst, d as i64);
        law_adr21_keeps_opcode(inst, d as i64);
        crate::bytes::lemma_u32_roundtrip(mem, q, adr21_insert(inst, d as i64));
    }
}

/// A conditional branch (`BRANCH19`: 19 bits at bit 5; `BRANCH14`: 14 bits
/// at bit 5) gets the distance in instructions from its place `P` to its
/// target `S + A`, `A` being the distance it held times four: its signed
/// field becomes `(S + A - P) / 4` (rounded down) when that fits; the other
/// bits are kept. Otherwise it fails with an overflow.
pub proof fn law_arm64_short_branch(mem: Seq<u8>, view: SectionView, base: u64, used: Seq<u64>, r: ResolvedRelocation)
    requires
        r.typ == IMAGE_REL_ARM64_BRANCH19 || r.typ == IMAGE_REL_ARM64_BRANCH14,
        view_in_slab(view, mem.len()),
        site_ok(view, r.position_offset, 4),
    ensures
        ({
            let bits: nat = if r.typ == IMAGE_REL_ARM64_BRANCH19 { 19 } else { 14 };
            let q = site(view, r.position_offset);
            let inst = read_u32_at(mem, q);
            let a = 4 * sign_extend(true, bits, field_of(inst, 5, bits));
            let dt = ((r.symbol as i64) as int + a - place(view, r.position_offset)) / 4;
            let half = if r.typ == IMAGE_REL_ARM64_BRANCH19 { 0x4_0000int } else { 0x2000int };
            &&& -half <= dt < half ==> (arm64_step(mem, view, base, used, r) matches Ok((m, u)) && {
                &&& u == used
                &&& sign_extend(true, bits, field_of(read_u32_at(m, q), 5, bits)) == dt
                &&& read_u32_at(m, q) & !(mask_of(bits) << 5u32) == inst & !(mask_of(bits) << 5u32)
            })
            &&& !(-half <= dt < half) ==> arm64_step(mem, view, base, used, r)
                == Err::<(Seq<u8>, Seq<u64>), CoFFRError>(CoFFRError::RelocationOverflow(dt as u64, bits as u64))
        }),
{
    reveal(arm64_patch);
    lemma_two_pow_values();
    lemma_masks();
    let bits: nat = if r.typ == IMAGE_REL_ARM64_BRANCH19 { 19 } else { 14 };
    let q = site(view, r.position_offset);
    let inst = read_u32_at(mem, q);
    let a = 4 * sign_extend(true, bits, field_of(inst, 5, bits));
    let dt = ((r.symbol as i64) as int + a - place(view, r.position_offset)) / 4;
    let half = if r.typ == IMAGE_REL_ARM64_BRANCH19 { 0x4_0000int } else { 0x2000int };
    assert(branch_field(r.typ) == (bits, 5nat));
    if -half <= dt < half {
        assert(dt as i64 == dt);
        let cleared = inst & !(mask_of(bits) << 5u32);
        law_field_roundtrip(true, bits, 5, cleared, dt as i64);
        let v = compact_spec(bits, cleared, dt as i64, 5);
        crate::bytes::lemma_u32_roundtrip(mem, q, v);
        if bits == 19 {
            assert(cleared & !(0x7_FFFFu32 << 5u32) == inst & !(0x7_FFFFu32 << 5u32)) by (bit_vector)
                requires cleared == inst & !(0x7_FFFFu32 << 5u32);
        } else {
            assert(cleared & !(0x3FFFu32 << 5u32) == inst & !(0x3FFFu32 << 5u32)) by (bit_vector)
                requires cleared == inst & !(0x3FFFu32 << 5u32);
        }
    }
}

/// A 26-bit branch whose target `S + A` is in its reach (`A` being the
/// distance it held times four) gets the distance in instructions,
/// `(S + A - P) / 4`, in its signed 26-bit field; the other bits are kept,
/// and no stub is used.
pub proof fn law_arm64_near_branch(mem: Seq<u8>, view: SectionView, base: u64, used: Seq<u64>, r: ResolvedRelocation)
    requires
        r.typ == IMAGE_REL_ARM64_BRANCH26,
        view_in_slab(view, mem.len()),
        site_ok(view, r.position_offset, 4),
        ({
            let inst = read_u32_at(mem, site(view, r.position_offset));
            let a = 4 * sign_extend(true, 26, field_of(inst, 0, 26));
            let dt = ((r.symbol as i64) as int + a - place(view, r.position_offset)) / 4;
            -0x200_0000 <= dt < 0x200_0000
        }),
    ensures
        ({
            let q = site(view, r.position_offset);
            let inst = read_u32_at(mem, q);
            let a = 4 * sign_extend(true, 26, field_of(inst, 0, 26));
            let dt = ((r.symbol as i64) as int + a - place(view, r.position_offset)) / 4;
            arm64_step(mem, view, base, used, r) matches Ok((m, u)) && {
                &&& u == used
                &&& sign_extend(true, 26, field_of(read_u32_at(m, q), 0, 26)) == dt
                &&& read_u32_at(m, q) & 0xFC00_0000u32 == inst & 0xFC00_0000u32
            }
        }),
{
    reveal(arm64_patch);
    lemma_two_pow_values();
    lemma_masks();
    let q = site(view, r.position_offset);
    let inst = read_u32_at(mem, q);
    let a = 4 * sign_extend(true, 26, field_of(inst, 0, 26));
    let dt = ((r.symbol as i64) as int + a - place(view, r.position_offset)) / 4;
    assert(branch26_target(mem, q, (r.symbol as i64) as int) == (r.symbol as i64) as int + a);
    assert(dt as i64 == dt);
    let cleared = inst & !(mask_of(26) << 0u32);
    law_field_roundtrip(true, 26, 0, cleared, dt as i64);
    let v = compact_spec(26, cleared, dt as i64, 0);
    crate::bytes::lemma_u32_roundtrip(mem, q, v);
    assert(v & 0xFC00_0000u32 == inst & 0xFC00_0000u32) by (bit_vector)
        requires
            cleared == inst & !(0x3FF_FFFFu32 << 0u32),
            v & !(0x3FF_FFFFu32 << 0u32) == cleared & !(0x3FF_FFFFu32 << 0u32),
    ;
}

/// The data relocations: `ADDR64` stores `S + A` modulo `2^64`; `ADDR32`
/// stores `S + A` and `ADDR32NB` stores `S + A - B` (with `B` the image
/// base) when that fits in 32 unsigned bits; `REL32` stores `S + A - P` when
/// it fits in 32 signed bits; `SECTION` stores the symbol's section number.
/// In each, `A` is the value that was at the site. A value that does not fit
/// is refused with an overflow.
pub proof fn law_arm64_data(mem: Seq<u8>, view: SectionView, base: u64, used: Seq<u64>, r: ResolvedRelocation)
    requires
        view_in_slab(view, mem.len()),
    ensures
        ({
            let q = site(view, r.position_offset);
            let s = (r.symbol as i64) as int;
            let st = arm64_step(mem, view, base, used, r);
            &&& r.typ == IMAGE_REL_ARM64_ADDR64 && site_ok(view, r.position_offset, 8) ==> (st matches Ok((m, u))
                && u == used && read_u64_at(m, q) as int == (r.symbol as int + read_u64_at(mem, q) as int) % 0x1_0000_0000_0000_0000)
            &&& r.typ == IMAGE_REL_ARM64_SECTION && site_ok(view, r.position_offset, 2) ==> (st matches Ok((m, u))
                && u == used && read_u16_at(m, q) == r.sectidx)
            &&& (r.typ == IMAGE_REL_ARM64_ADDR32 || r.typ == IMAGE_REL_ARM64_ADDR32NB) && site_ok(view, r.position_offset, 4) ==> {
                let v = s + read_u32_at(mem, q) as int - (if r.typ == IMAGE_REL_ARM64_ADDR32NB { (base as i64) as int } else { 0 });
                &&& 0 <= v <= 0xFFFF_FFFF ==> (st matches Ok((m, u)) && u == used && read_u32_at(m, q) as int == v)
                &&& !(0 <= v <= 0xFFFF_FFFF) ==> st == Err::<(Seq<u8>, Seq<u64>), CoFFRError>(CoFFRError::RelocationOverflow(v as u64, 32))
            }
            &&& r.typ == IMAGE_REL_ARM64_REL32 && site_ok(view, r.position_offset, 4) ==> {
                let v = s + (read_u32_at(mem, q) as i32) as int - place(view, r.position_offset);
                &&& -0x8000_0000 <= v <= 0x7FFF_FFFF ==> (st matches Ok((m, u)) && u == used && (read_u32_at(m, q) as i32) as int == v)
                &&& !(-0x8000_0000 <= v <= 0x7FFF_FFFF) ==> st == Err::<(Seq<u8>, Seq<u64>), CoFFRError>(CoFFRError::RelocationOverflow(v as u64, 32))
            }
        }),
{
    reveal(arm64_patch);
    lemma_two_pow_values();
    let q = site(view, r.position_offset);
    let s = (r.symbol as i64) as int;
    if r.typ == IMAGE_REL_ARM64_ADDR64 && site_ok(view, r.position_offset, 8) {
        crate::bytes::lemma_u64_roundtrip(mem, q, wrap64(r.symbol + read_u64_at(mem, q)));
    }
    if r.typ == IMAGE_REL_ARM64_SECTION && site_ok(view, r.position_offset, 2) {
        crate::bytes::lemma_u16_roundtrip(mem, q, r.sectidx);
    }
    if (r.typ == IMAGE_REL_ARM64_ADDR32 || r.typ == IMAGE_REL_ARM64_ADDR32NB) && site_ok(view, r.position_offset, 4) {
        let v = s + read_u32_at(mem, q) as int - (if r.typ == IMAGE_REL_ARM64_ADDR32NB { (base as i64) as int } else { 0 });
        if 0 <= v <= 0xFFFF_FFFF {
            crate::bytes::lemma_u32_roundtrip(mem, q, v as u32);
        }
    }
    if r.typ == IMAGE_REL_ARM64_REL32 && site_ok(view, r.position_offset, 4) {
        let v = s + (read_u32_at(mem, q) as i32) as int - place(view, r.position_offset);
        if -0x8000_0000 <= v <= 0x7FFF_FFFF {
            crate::bytes::lemma_u32_roundtrip(mem, q, v as u32);
            let vi = v as i64;
            assert(vi == v);
            assert(((vi as u32) as i32) as i64 == vi) by (bit_vector)
                requires
                    -0x8000_0000 <= vi < 0x8000_0000,
            ;
            assert((v as u32) == (vi as u32));
        }
    }
}

/// A load or store page offset of the scaled kind (`PAGEOFFSET_12L`) gets the
/// offset of its target `S + A` within its 4 KiB page, in units of the
/// access size `2^sc` (`sc` the instruction's size field, plus 4 for a
/// 128-bit SIMD register; `A` the immediate it held, times `2^sc`): when that
/// offset is a multiple of `2^sc`, the immediate (bits 10 to 21) becomes the
/// offset divided by `2^sc` and the other bits are kept; otherwise it fails
/// with an alignment error that carries the offset.
pub proof fn law_arm64_page_offset_scaled(mem: Seq<u8>, view: SectionView, base: u64, used: Seq<u64>, r: ResolvedRelocation)
    requires
        r.typ == IMAGE_REL_ARM64_PAGEOFFSET_12L,
        view_in_slab(view, mem.len()),
        site_ok(view, r.position_offset, 4),
    ensures
        ({
            let q = site(view, r.position_offset);
            let inst = read_u32_at(mem, q);
            let sc: nat = ((inst >> 30u32) + (if inst & 0x0480_0000u32 == 0x0480_0000u32 { 4u32 } else { 0u32 })) as nat;
            let unit = two_pow(sc) as int;
            let offset = ((r.symbol as i64) as int + ((inst >> 10u32) & 0xFFFu32) * unit) % 4096;
            &&& offset % unit == 0 ==> (arm64_step(mem, view, base, used, r) matches Ok((m, u)) && {
                &&& u == used
                &&& ((read_u32_at(m, q) >> 10u32) & 0xFFFu32) == offset / unit
                &&& read_u32_at(m, q) & !(0xFFFu32 << 10u32) == inst & !(0xFFFu32 << 10u32)
            })
            &&& offset % unit != 0 ==> arm64_step(mem, view, base, used, r)
                == Err::<(Seq<u8>, Seq<u64>), CoFFRError>(CoFFRError::Arm64AlignmentError(offset as u64, 12))
        }),
{
    reveal(arm64_patch);
    lemma_masks();
    lemma_two_pow_values();
    let q = site(view, r.position_offset);
    let inst = read_u32_at(mem, q);
    let sc: nat = ((inst >> 30u32) + (if inst & 0x0480_0000u32 == 0x0480_0000u32 { 4u32 } else { 0u32 })) as nat;
    assert(scale_spec(inst) as nat == sc) by {
        assert((inst >> 30u32) <= 3) by (bit_vector);
    }
    lemma_two_pow_pos(sc);
    let unit = two_pow(sc) as int;
    let offset = ((r.symbol as i64) as int + ((inst >> 10u32) & 0xFFFu32) * unit) % 4096;
    if offset % unit == 0 {
        let dt = offset / unit;
        assert(0 <= dt < 4096) by (nonlinear_arith)
            requires
                0 <= offset < 4096,
                unit >= 1,
                dt == offset / unit,
        ;
        assert(dt as i64 == dt);
        let cleared = inst & !(mask_of(12) << 10u32);
        law_field_roundtrip(false, 12, 10, cleared, dt as i64);
        let v = compact_spec(12, cleared, dt as i64, 10);
        crate::bytes::lemma_u32_roundtrip(mem, q, v);
        assert(cleared & !(0xFFFu32 << 10u32) == inst & !(0xFFFu32 << 10u32)) by (bit_vector)
            requires
                cleared == inst & !(0xFFFu32 << 10u32),
        ;
    }
}

} // verus!

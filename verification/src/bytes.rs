//! Little-endian access to the bytes of a memory slab.
use vstd::prelude::*;

verus! {

/// The value of the `n` bytes of `s` that start at `p`, read little-endian.
pub open spec fn le_value(s: Seq<u8>, p: int, n: nat) -> nat
    decreases n,
{
    if n == 0 {
        0
    } else {
        (s[p] as nat) + 256 * le_value(s, p + 1, (n - 1) as nat)
    }
}

/// The `n` little-endian bytes of `v` (taken modulo `256^n`).
pub open spec fn le_bytes(v: nat, n: nat) -> Seq<u8>
    decreases n,
{
    if n == 0 {
        Seq::empty()
    } else {
        seq![(v % 256) as u8] + le_bytes(v / 256, (n - 1) as nat)
    }
}

/// `256` to the power `n`.
pub open spec fn pow256(n: nat) -> nat
    decreases n,
{
    if n == 0 {
        1
    } else {
        256 * pow256((n - 1) as nat)
    }
}

/// `s` with the bytes from `p` on replaced by `t`.
pub open spec fn splice(s: Seq<u8>, p: int, t: Seq<u8>) -> Seq<u8> {
    s.subrange(0, p) + t + s.subrange(p + t.len(), s.len() as int)
}

pub open spec fn read_u16_at(s: Seq<u8>, p: int) -> u16 {
    le_value(s, p, 2) as u16
}

pub open spec fn read_u32_at(s: Seq<u8>, p: int) -> u32 {
    le_value(s, p, 4) as u32
}

pub open spec fn read_u64_at(s: Seq<u8>, p: int) -> u64 {
    le_value(s, p, 8) as u64
}

pub open spec fn write_u16_at(s: Seq<u8>, p: int, v: u16) -> Seq<u8> {
    splice(s, p, le_bytes(v as nat, 2))
}

pub open spec fn write_u32_at(s: Seq<u8>, p: int, v: u32) -> Seq<u8> {
    splice(s, p, le_bytes(v as nat, 4))
}

pub open spec fn write_u64_at(s: Seq<u8>, p: int, v: u64) -> Seq<u8> {
    splice(s, p, le_bytes(v as nat, 8))
}

pub proof fn lemma_le_bytes_len(v: nat, n: nat)
    ensures
        le_bytes(v, n).len() == n,
    decreases n,
{
    if n > 0 {
        lemma_le_bytes_len(v / 256, (n - 1) as nat);
    }
}

pub proof fn lemma_pow256_pos(n: nat)
    ensures
        pow256(n) > 0,
    decreases n,
{
    if n > 0 {
        lemma_pow256_pos((n - 1) as nat);
    }
}

/// The value read depends only on the bytes read.
pub proof fn lemma_le_value_frame(s: Seq<u8>, t: Seq<u8>, p: int, q: int, n: nat)
    requires
        0 <= p,
        p + n <= s.len(),
        0 <= q,
        q + n <= t.len(),
        s.subrange(p, p + n) == t.subrange(q, q + n),
    ensures
        le_value(s, p, n) == le_value(t, q, n),
    decreases n,
{
    if n > 0 {
        assert(s[p] == s.subrange(p, p + n)[0]);
        assert(t[q] == t.subrange(q, q + n)[0]);
        assert(s.subrange(p + 1, p + n) =~= s.subrange(p, p + n).subrange(1, n as int));
        assert(t.subrange(q + 1, q + n) =~= t.subrange(q, q + n).subrange(1, n as int));
        lemma_le_value_frame(s, t, p + 1, q + 1, (n - 1) as nat);
    }
}

/// The value of `n` little-endian bytes is below `256^n`.
pub proof fn lemma_le_value_bound(s: Seq<u8>, p: int, n: nat)
    ensures
        le_value(s, p, n) < pow256(n),
    decreases n,
{
    if n > 0 {
        lemma_le_value_bound(s, p + 1, (n - 1) as nat);
        let r = le_value(s, p + 1, (n - 1) as nat);
        assert(s[p] < 256);
        assert((s[p] as nat) + 256 * r < 256 * pow256((n - 1) as nat)) by (nonlinear_arith)
            requires
                s[p] < 256,
                r < pow256((n - 1) as nat),
        ;
    }
}

/// Reading back the bytes of `v` gives `v` modulo `256^n`.
pub proof fn lemma_le_roundtrip(v: nat, n: nat)
    ensures
        le_value(le_bytes(v, n), 0, n) == v % pow256(n),
    decreases n,
{
    lemma_pow256_pos(n);
    if n == 0 {
        assert(v % 1 == 0);
    } else {
        let t = le_bytes(v, n);
        let rest = le_bytes(v / 256, (n - 1) as nat);
        lemma_le_bytes_len(v / 256, (n - 1) as nat);
        lemma_le_roundtrip(v / 256, (n - 1) as nat);
        assert(t.subrange(1, n as int) =~= rest.subrange(0, (n - 1) as int));
        lemma_le_value_frame(t, rest, 1, 0, (n - 1) as nat);
        lemma_pow256_pos((n - 1) as nat);
        vstd::arithmetic::div_mod::lemma_mod_breakdown(v as int, 256, pow256((n - 1) as nat) as int);
    }
}

/// Writing `v` at `p` and reading back at `p` gives `v` modulo `256^n`.
pub proof fn lemma_read_after_write(s: Seq<u8>, p: int, v: nat, n: nat)
    requires
        0 <= p,
        p + n <= s.len(),
    ensures
        le_value(splice(s, p, le_bytes(v, n)), p, n) == v % pow256(n),
        splice(s, p, le_bytes(v, n)).len() == s.len(),
{
    let t = le_bytes(v, n);
    lemma_le_bytes_len(v, n);
    let w = splice(s, p, t);
    assert(w.subrange(p, p + n) =~= t.subrange(0, n as int));
    lemma_le_value_frame(w, t, p, 0, n);
    lemma_le_roundtrip(v, n);
}

pub proof fn lemma_pow256_values()
    ensures
        pow256(2) == 0x1_0000,
        pow256(4) == 0x1_0000_0000,
        pow256(7) == 0x100_0000_0000_0000,
        pow256(8) == 0x1_0000_0000_0000_0000,
{
    reveal_with_fuel(pow256, 9);
}

pub proof fn lemma_pow256_mono(a: nat, b: nat)
    requires
        a <= b,
    ensures
        pow256(a) <= pow256(b),
    decreases b,
{
    if a < b {
        lemma_pow256_mono(a, (b - 1) as nat);
    }
}

/// Reads `n <= 8` little-endian bytes at `p`.
pub fn read_le(buf: &Vec<u8>, p: usize, n: usize) -> (r: u64)
    requires
        n <= 8,
        p + n <= buf.len(),
    ensures
        r == le_value(buf@, p as int, n as nat),
{
    let mut acc: u64 = 0;
    let mut i: usize = n;
    proof {
        lemma_pow256_values();
    }
    while i > 0
        invariant
            i <= n,
            n <= 8,
            p + n <= buf.len(),
            acc == le_value(buf@, p + i, (n - i) as nat),
            pow256(7) == 0x100_0000_0000_0000,
        decreases i,
    {
        proof {
            lemma_le_value_bound(buf@, p + i, (n - i) as nat);
            lemma_pow256_mono((n - i) as nat, 7);
        }
        let b = buf[p + i - 1];
        assert(acc as int * 256 + b < 0x1_0000_0000_0000_0000) by (nonlinear_arith)
            requires
                acc < pow256((n - i) as nat),
                pow256((n - i) as nat) <= pow256(7),
                pow256(7) == 0x100_0000_0000_0000,
                b < 256,
        ;
        acc = acc * 256 + b as u64;
        i = i - 1;
    }
    acc
}

/// Writes the `n <= 8` low-order bytes of `v` at `p`, little-endian.
pub fn write_le(buf: &mut Vec<u8>, p: usize, n: usize, v: u64)
    requires
        n <= 8,
        p + n <= old(buf).len(),
    ensures
        final(buf)@ == splice(old(buf)@, p as int, le_bytes(v as nat, n as nat)),
        final(buf)@.len() == old(buf)@.len(),
{
    let ghost s0 = buf@;
    let mut i: usize = 0;
    let mut x: u64 = v;
    proof {
        lemma_le_bytes_len(v as nat, n as nat);
    }
    while i < n
        invariant
            i <= n,
            p + n <= s0.len(),
            p + n <= usize::MAX,
            buf@.len() == s0.len(),
            le_bytes(v as nat, n as nat).len() == n,
            le_bytes(x as nat, (n - i) as nat) == le_bytes(v as nat, n as nat).subrange(i as int, n as int),
            forall|j: int| 0 <= j < buf@.len() && !(p <= j < p + i) ==> buf@[j] == s0[j],
            forall|j: int| p <= j < p + i ==> buf@[j] == le_bytes(v as nat, n as nat)[j - p],
        decreases n - i,
    {
        let ghost tail = le_bytes(x as nat, (n - i) as nat);
        assert(tail[0] == (x % 256) as u8);
        proof {
            lemma_le_bytes_len((x / 256) as nat, (n - i - 1) as nat);
            assert(le_bytes((x / 256) as nat, (n - i - 1) as nat) =~= tail.subrange(1, tail.len() as int));
        }
        buf.set(p + i, (x % 256) as u8);
        x = x / 256;
        i = i + 1;
    }
    assert(buf@ =~= splice(s0, p as int, le_bytes(v as nat, n as nat)));
}

pub fn read_u16(buf: &Vec<u8>, p: usize) -> (r: u16)
    requires
        p + 2 <= buf.len(),
    ensures
        r == read_u16_at(buf@, p as int),
{
    proof {
        lemma_le_value_bound(buf@, p as int, 2);
        lemma_pow256_values();
    }
    read_le(buf, p, 2) as u16
}

pub fn read_u32(buf: &Vec<u8>, p: usize) -> (r: u32)
    requires
        p + 4 <= buf.len(),
    ensures
        r == read_u32_at(buf@, p as int),
{
    proof {
        lemma_le_value_bound(buf@, p as int, 4);
        lemma_pow256_values();
    }
    read_le(buf, p, 4) as u32
}

pub fn read_u64(buf: &Vec<u8>, p: usize) -> (r: u64)
    requires
        p + 8 <= buf.len(),
    ensures
        r == read_u64_at(buf@, p as int),
{
    read_le(buf, p, 8)
}

pub fn write_u16(buf: &mut Vec<u8>, p: usize, v: u16)
    requires
        p + 2 <= old(buf).len(),
    ensures
        final(buf)@ == write_u16_at(old(buf)@, p as int, v),
        final(buf)@.len() == old(buf)@.len(),
{
    write_le(buf, p, 2, v as u64);
}

pub fn write_u32(buf: &mut Vec<u8>, p: usize, v: u32)
    requires
        p + 4 <= old(buf).len(),
    ensures
        final(buf)@ == write_u32_at(old(buf)@, p as int, v),
        final(buf)@.len() == old(buf)@.len(),
{
    write_le(buf, p, 4, v as u64);
}

pub fn write_u64(buf: &mut Vec<u8>, p: usize, v: u64)
    requires
        p + 8 <= old(buf).len(),
    ensures
        final(buf)@ == write_u64_at(old(buf)@, p as int, v),
        final(buf)@.len() == old(buf)@.len(),
{
    write_le(buf, p, 8, v);
}

/// A `u32` written at `p` reads back unchanged, and the length is kept.
pub proof fn lemma_u32_roundtrip(s: Seq<u8>, p: int, v: u32)
    requires
        0 <= p,
        p + 4 <= s.len(),
    ensures
        read_u32_at(write_u32_at(s, p, v), p) == v,
        write_u32_at(s, p, v).len() == s.len(),
{
    lemma_read_after_write(s, p, v as nat, 4);
    lemma_pow256_values();
}

/// A `u16` written at `p` reads back unchanged, and the length is kept.
pub proof fn lemma_u16_roundtrip(s: Seq<u8>, p: int, v: u16)
    requires
        0 <= p,
        p + 2 <= s.len(),
    ensures
        read_u16_at(write_u16_at(s, p, v), p) == v,
        write_u16_at(s, p, v).len() == s.len(),
{
    lemma_read_after_write(s, p, v as nat, 2);
    lemma_pow256_values();
}

/// A `u64` written at `p` reads back unchanged, and the length is kept.
pub proof fn lemma_u64_roundtrip(s: Seq<u8>, p: int, v: u64)
    requires
        0 <= p,
        p + 8 <= s.len(),
    ensures
        read_u64_at(write_u64_at(s, p, v), p) == v,
        write_u64_at(s, p, v).len() == s.len(),
{
    lemma_read_after_write(s, p, v as nat, 8);
    lemma_pow256_values();
}

/// Writing a `u32` at `q` leaves the value of `n` bytes at `p` unchanged when
/// the two places do not overlap.
pub proof fn lemma_u32_write_keeps(s: Seq<u8>, q: int, v: u32, p: int, n: nat)
    requires
        0 <= q,
        q + 4 <= s.len(),
        0 <= p,
        p + n <= s.len(),
        p + n <= q || q + 4 <= p,
    ensures
        le_value(write_u32_at(s, q, v), p, n) == le_value(s, p, n),
{
    lemma_le_bytes_len(v as nat, 4);
    let w = write_u32_at(s, q, v);
    assert(w.subrange(p, p + n) =~= s.subrange(p, p + n));
    lemma_le_value_frame(w, s, p, p, n);
}

} // verus!

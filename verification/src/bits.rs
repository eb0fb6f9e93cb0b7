//! Bit strings: powers of two, big-endian bit fields, two's-complement
//! reinterpretation.
use vstd::prelude::*;

verus! {

/// `2^n`.
pub open spec fn p2(n: nat) -> nat
    decreases n,
{
    if n == 0 {
        1
    } else {
        2 * p2((n - 1) as nat)
    }
}

pub proof fn lemma_p2_pos(n: nat)
    ensures
        p2(n) >= 1,
    decreases n,
{
    if n > 0 {
        lemma_p2_pos((n - 1) as nat);
    }
}

pub proof fn lemma_p2_mono(a: nat, b: nat)
    requires
        a <= b,
    ensures
        p2(a) <= p2(b),
    decreases b,
{
    if a < b {
        lemma_p2_mono(a, (b - 1) as nat);
        lemma_p2_pos((b - 1) as nat);
    }
}

pub proof fn lemma_p2_values()
    ensures
        p2(0) == 1,
        p2(1) == 2,
        p2(2) == 4,
        p2(4) == 16,
        p2(6) == 64,
        p2(7) == 128,
        p2(8) == 256,
        p2(9) == 512,
        p2(10) == 1024,
        p2(12) == 4096,
        p2(16) == 65536,
        p2(26) == 0x400_0000,
        p2(27) == 0x800_0000,
        p2(28) == 0x1000_0000,
        p2(30) == 0x4000_0000,
        p2(31) == 0x8000_0000,
        p2(32) == 0x1_0000_0000,
{
    reveal_with_fuel(p2, 33);
}

/// The bit at position `j` of `bits`; positions past the end read as unset.
pub open spec fn bit_at(bits: Seq<bool>, j: int) -> bool {
    0 <= j < bits.len() && bits[j]
}

/// The unsigned big-endian value of the `len` bits of `bits` that start at
/// `off`.
pub open spec fn field(bits: Seq<bool>, off: int, len: nat) -> nat
    decreases len,
{
    if len == 0 {
        0
    } else {
        field(bits, off, (len - 1) as nat) * 2 + (if bit_at(bits, off + len - 1) {
            1nat
        } else {
            0nat
        })
    }
}

pub proof fn lemma_field_bound(bits: Seq<bool>, off: int, len: nat)
    ensures
        field(bits, off, len) < p2(len),
    decreases len,
{
    if len > 0 {
        lemma_field_bound(bits, off, (len - 1) as nat);
    }
}

/// Two's-complement reading of the `len`-bit unsigned value `u`.
pub open spec fn to_signed(u: nat, len: nat) -> int {
    if len >= 1 && u >= p2((len - 1) as nat) {
        u - p2(len)
    } else {
        u as int
    }
}

/// The signed big-endian value of the `len` bits at `off`.
pub open spec fn signed_field(bits: Seq<bool>, off: int, len: nat) -> int {
    to_signed(field(bits, off, len), len)
}

proof fn lemma_p2_63()
    ensures
        p2(63) == 0x8000_0000_0000_0000,
{
    reveal_with_fuel(p2, 64);
}

/// `2^n` as a machine integer.
pub fn pow2_u64(n: u32) -> (r: u64)
    requires
        n < 64,
    ensures
        r == p2(n as nat),
{
    let mut r: u64 = 1;
    let mut i: u32 = 0;
    while i < n
        invariant
            i <= n < 64,
            r == p2(i as nat),
        decreases n - i,
    {
        proof {
            lemma_p2_mono((i + 1) as nat, 63);
            lemma_p2_63();
            assert(p2((i + 1) as nat) == 2 * p2(i as nat));
        }
        r = r * 2;
        i = i + 1;
    }
    r
}

/// Reads `len` bits starting at `offset` as a big-endian unsigned value;
/// positions past the end of `bits` read as zero.
pub fn read_u32(bits: &[bool], offset: usize, len: usize) -> (r: u32)
    requires
        len <= 32,
        offset + len <= usize::MAX,
    ensures
        r == field(bits@, offset as int, len as nat),
{
    let mut val: u64 = 0;
    let mut i: usize = 0;
    while i < len
        invariant
            i <= len <= 32,
            offset + len <= usize::MAX,
            val == field(bits@, offset as int, i as nat),
        decreases len - i,
    {
        proof {
            lemma_field_bound(bits@, offset as int, i as nat);
            lemma_p2_mono(i as nat, 32);
            lemma_p2_values();
        }
        let b: u64 = if offset + i < bits.len() && bits[offset + i] { 1 } else { 0 };
        val = val * 2 + b;
        i = i + 1;
    }
    proof {
        lemma_field_bound(bits@, offset as int, len as nat);
        lemma_p2_mono(len as nat, 32);
        lemma_p2_values();
    }
    val as u32
}

/// `read_u32` narrowed to `u8` (keeping the low eight bits).
pub fn read_u8(bits: &[bool], offset: usize, len: usize) -> (r: u8)
    requires
        len <= 32,
        offset + len <= usize::MAX,
    ensures
        r == field(bits@, offset as int, len as nat) % 256,
{
    let v = read_u32(bits, offset, len);
    (v % 256) as u8
}

/// `read_u32` narrowed to `u16` (keeping the low sixteen bits).
pub fn read_u16(bits: &[bool], offset: usize, len: usize) -> (r: u16)
    requires
        len <= 32,
        offset + len <= usize::MAX,
    ensures
        r == field(bits@, offset as int, len as nat) % 65536,
{
    let v = read_u32(bits, offset, len);
    (v % 65536) as u16
}

/// Reads `len` bits starting at `offset` as a big-endian two's-complement
/// value.
pub fn read_i32(bits: &[bool], offset: usize, len: usize) -> (r: i32)
    requires
        1 <= len <= 32,
        offset + len <= usize::MAX,
    ensures
        r == signed_field(bits@, offset as int, len as nat),
{
    let u = read_u32(bits, offset, len);
    let half = pow2_u64((len - 1) as u32);
    proof {
        lemma_field_bound(bits@, offset as int, len as nat);
        lemma_p2_mono((len - 1) as nat, 31);
        lemma_p2_values();
        assert(p2(len as nat) == 2 * p2((len - 1) as nat));
    }
    if (u as u64) >= half {
        ((u as i64) - 2 * (half as i64)) as i32
    } else {
        u as i32
    }
}

/// `read_i32` narrowed to `i8` (keeping the low eight bits).
pub fn read_i8(bits: &[bool], offset: usize, len: usize) -> (r: i8)
    requires
        1 <= len <= 32,
        offset + len <= usize::MAX,
    ensures
        r == signed_field(bits@, offset as int, len as nat) as i8,
{
    let v = read_i32(bits, offset, len);
    #[verifier::truncate]
    (v as i8)
}

} // verus!

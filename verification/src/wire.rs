//! Big-endian integers and byte runs, as they stand on the wire.
use vstd::arithmetic::div_mod::{
    lemma_fundamental_div_mod, lemma_hoist_over_denominator, lemma_mod_multiples_vanish,
};
use vstd::prelude::*;

verus! {

/// The low 16 bits of `n`, most significant byte first.
#[verifier::opaque]
pub open spec fn be16(n: int) -> Seq<u8> {
    seq![(n / 0x100 % 0x100) as u8, (n % 0x100) as u8]
}

/// The low 32 bits of `n`, most significant byte first.
#[verifier::opaque]
pub open spec fn be32(n: int) -> Seq<u8> {
    seq![
        (n / 0x100_0000 % 0x100) as u8,
        (n / 0x1_0000 % 0x100) as u8,
        (n / 0x100 % 0x100) as u8,
        (n % 0x100) as u8,
    ]
}

/// The 16-bit big-endian number that starts at `at`.
pub open spec fn be16_at(bytes: Seq<u8>, at: int) -> int {
    bytes[at] * 0x100 + bytes[at + 1]
}

/// The 32-bit big-endian number that starts at `at`.
pub open spec fn be32_at(bytes: Seq<u8>, at: int) -> int {
    bytes[at] * 0x100_0000 + bytes[at + 1] * 0x1_0000 + bytes[at + 2] * 0x100 + bytes[at + 3]
}

/// How many bytes a number takes.
pub broadcast proof fn lemma_be16_len(n: int)
    ensures
        #[trigger] be16(n).len() == 2,
{
    reveal(be16);
}

/// How many bytes a number takes.
pub broadcast proof fn lemma_be32_len(n: int)
    ensures
        #[trigger] be32(n).len() == 4,
{
    reveal(be32);
}

pub broadcast group group_number_lengths {
    lemma_be16_len,
    lemma_be32_len,
}

/// Reading a 16-bit number back gives the low 16 bits of what was written.
pub proof fn law_be16_read_back(n: int, bytes: Seq<u8>, at: int)
    requires
        0 <= n,
        0 <= at,
        at + 2 <= bytes.len(),
        bytes.subrange(at, at + 2) == be16(n),
    ensures
        be16_at(bytes, at) == n % 0x1_0000,
{
    reveal(be16);
    let s = bytes.subrange(at, at + 2);
    assert(s[0] == bytes[at] && s[1] == bytes[at + 1]);
}

/// Reading a 32-bit number back gives the low 32 bits of what was written.
#[verifier::rlimit(30)]
pub proof fn law_be32_read_back(n: int, bytes: Seq<u8>, at: int)
    requires
        0 <= n,
        0 <= at,
        at + 4 <= bytes.len(),
        bytes.subrange(at, at + 4) == be32(n),
    ensures
        be32_at(bytes, at) == n % 0x1_0000_0000,
{
    reveal(be32);
    let s = bytes.subrange(at, at + 4);
    assert(s[0] == bytes[at] && s[1] == bytes[at + 1] && s[2] == bytes[at + 2] && s[3]
        == bytes[at + 3]);
    lemma_four_bytes(n);
}

/// Numbers stand on the wire with the byte of the highest value first.
pub proof fn law_high_byte_comes_first(n: int)
    ensures
        0 <= n < 0x1_0000 ==> be16(n).len() == 2 && 256 * be16(n)[0] + be16(n)[1] == n,
        0 <= n < 0x1_0000_0000 ==> be32(n).len() == 4 && 16_777_216 * be32(n)[0] + 65_536 * be32(
            n,
        )[1] + 256 * be32(n)[2] + be32(n)[3] == n,
{
    reveal(be16);
    reveal(be32);
    if 0 <= n < 0x1_0000_0000 {
        lemma_four_bytes(n);
    }
}

/// A number is made of its low four bytes and the rest.
#[verifier::rlimit(30)]
proof fn lemma_four_bytes(n: int)
    requires
        0 <= n,
    ensures
        n % 0x1_0000_0000 == (n / 0x100_0000 % 0x100) * 0x100_0000 + (n / 0x1_0000 % 0x100)
            * 0x1_0000 + (n / 0x100 % 0x100) * 0x100 + n % 0x100,
{
    let q1 = n / 0x100;
    let q2 = q1 / 0x100;
    let q3 = q2 / 0x100;
    let q4 = q3 / 0x100;
    assert(n / 0x1_0000 == q2);
    assert(n / 0x100_0000 == q3);
    assert(n / 0x1_0000_0000 == q4);
}

/// A byte of the low part of a number is the byte of the number itself.
#[verifier::rlimit(30)]
proof fn lemma_low_byte(n: int, w: int, d: int, k: int)
    requires
        0 <= n,
        d > 0,
        k > 0,
        w > 0,
        k % 0x100 == 0,
        k * d == w,
    ensures
        n % w / d % 0x100 == n / d % 0x100,
{
    let m = n % w;
    let q = n / w;
    let c = k / 0x100;
    lemma_fundamental_div_mod(n, w);
    assert(n == m + (q * k) * d) by (nonlinear_arith)
        requires
            n == w * q + m,
            k * d == w,
    ;
    lemma_hoist_over_denominator(m, q * k, d as nat);
    assert(n / d == 0x100 * (q * c) + m / d) by (nonlinear_arith)
        requires
            n / d == m / d + q * k,
            k == 0x100 * c,
    ;
    lemma_mod_multiples_vanish(q * c, m / d, 0x100);
}

/// Only the low 16 bits of a number are written.
pub proof fn lemma_be16_low(n: int)
    requires
        0 <= n,
    ensures
        be16(n % 0x1_0000) == be16(n),
{
    reveal(be16);
    lemma_low_byte(n, 0x1_0000, 0x100, 0x100);
    lemma_low_byte(n, 0x1_0000, 1, 0x1_0000);
    assert(be16(n % 0x1_0000) =~= be16(n));
}

/// Only the low 32 bits of a number are written.
#[verifier::rlimit(30)]
pub proof fn lemma_be32_low(n: int)
    requires
        0 <= n,
    ensures
        be32(n % 0x1_0000_0000) == be32(n),
{
    reveal(be32);
    lemma_low_byte(n, 0x1_0000_0000, 0x100_0000, 0x100);
    lemma_low_byte(n, 0x1_0000_0000, 0x1_0000, 0x1_0000);
    lemma_low_byte(n, 0x1_0000_0000, 0x100, 0x100_0000);
    lemma_low_byte(n, 0x1_0000_0000, 1, 0x1_0000_0000);
    assert(be32(n % 0x1_0000_0000) =~= be32(n));
}

/// Appends a 16-bit number.
pub fn push_be16(buf: &mut Vec<u8>, n: u16)
    ensures
        final(buf)@ == old(buf)@ + be16(n as int),
{
    reveal(be16);
    buf.push((n / 0x100) as u8);
    buf.push((n % 0x100) as u8);
}

/// Appends a 32-bit number.
pub fn push_be32(buf: &mut Vec<u8>, n: u32)
    ensures
        final(buf)@ == old(buf)@ + be32(n as int),
{
    reveal(be32);
    buf.push((n / 0x100_0000) as u8);
    buf.push((n / 0x1_0000 % 0x100) as u8);
    buf.push((n / 0x100 % 0x100) as u8);
    buf.push((n % 0x100) as u8);
}

/// Appends a run of bytes.
pub fn push_bytes(buf: &mut Vec<u8>, bytes: &[u8])
    ensures
        final(buf)@ == old(buf)@ + bytes@,
{
    buf.extend_from_slice(bytes);
    assert(buf@ =~= old(buf)@ + bytes@);
}

/// Reads the 32-bit number that starts at `at`.
pub fn read_be32(bytes: &[u8], at: usize) -> (n: u32)
    requires
        at + 4 <= bytes@.len(),
    ensures
        n == be32_at(bytes@, at as int),
{
    bytes[at] as u32 * 0x100_0000 + bytes[at + 1] as u32 * 0x1_0000 + bytes[at + 2] as u32 * 0x100
        + bytes[at + 3] as u32
}

/// The low 16 bits of a number.
pub fn low16(n: u32) -> (low: u16)
    ensures
        low == n % 0x1_0000,
{
    (n % 0x1_0000) as u16
}

/// The low 32 bits of a number.
pub fn low32(n: u64) -> (low: u32)
    ensures
        low == n % 0x1_0000_0000,
{
    (n % 0x1_0000_0000) as u32
}

/// The low 32 bits of a length.
pub fn len_low32(len: usize) -> (low: u32)
    ensures
        low == len as int % 0x1_0000_0000,
{
    low32(len as u64)
}

/// The bytes from `from` up to `to`.
pub fn copy_range(bytes: &[u8], from: usize, to: usize) -> (out: Vec<u8>)
    requires
        from <= to <= bytes@.len(),
    ensures
        out@ == bytes@.subrange(from as int, to as int),
{
    let mut out: Vec<u8> = Vec::new();
    push_bytes(&mut out, &bytes[from..to]);
    out
}

} // verus!

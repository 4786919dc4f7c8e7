use vstd::prelude::*;

verus! {

/// 256 raised to `n`: how many distinct values `n` bytes can hold.
pub open spec fn pow256(n: nat) -> int
    decreases n,
{
    if n == 0 {
        1
    } else {
        256 * pow256((n - 1) as nat)
    }
}

pub proof fn lemma_pow256_values()
    ensures
        pow256(0) == 1,
        pow256(1) == 0x100,
        pow256(2) == 0x1_0000,
        pow256(3) == 0x100_0000,
        pow256(4) == 0x1_0000_0000,
        pow256(5) == 0x100_0000_0000,
        pow256(6) == 0x1_0000_0000_0000,
        pow256(7) == 0x100_0000_0000_0000,
        pow256(8) == 0x1_0000_0000_0000_0000,
{
    assert(pow256(0) == 1);
    assert(pow256(1) == 0x100);
    assert(pow256(2) == 0x1_0000);
    assert(pow256(3) == 0x100_0000);
    assert(pow256(4) == 0x1_0000_0000);
    assert(pow256(5) == 0x100_0000_0000);
    assert(pow256(6) == 0x1_0000_0000_0000);
    assert(pow256(7) == 0x100_0000_0000_0000);
    assert(pow256(8) == 0x1_0000_0000_0000_0000);
}

pub proof fn lemma_pow256_pos(n: nat)
    ensures
        pow256(n) >= 1,
    decreases n,
{
    if n > 0 {
        lemma_pow256_pos((n - 1) as nat);
    }
}

pub proof fn lemma_pow256_monotone(a: nat, b: nat)
    requires
        a <= b,
    ensures
        pow256(a) <= pow256(b),
    decreases b,
{
    if a < b {
        lemma_pow256_monotone(a, (b - 1) as nat);
        lemma_pow256_pos((b - 1) as nat);
    }
}

/// The unsigned value of the `n` bytes of `s` that start at `off`, read in
/// big-endian order: the byte at `off` is the most significant.
pub open spec fn be_uint(s: Seq<u8>, off: int, n: nat) -> int
    decreases n,
{
    if n == 0 {
        0
    } else {
        be_uint(s, off, (n - 1) as nat) * 256 + s[off + n - 1]
    }
}

pub proof fn lemma_be_uint_bound(s: Seq<u8>, off: int, n: nat)
    ensures
        0 <= be_uint(s, off, n) < pow256(n),
    decreases n,
{
    if n > 0 {
        lemma_be_uint_bound(s, off, (n - 1) as nat);
    }
}

/// The signed two's-complement reading of the same `n` bytes.
pub open spec fn be_sint(s: Seq<u8>, off: int, n: nat) -> int {
    let u = be_uint(s, off, n);
    if u < pow256(n) / 2 {
        u
    } else {
        u - pow256(n)
    }
}

/// Every decoded signed sample lies in the width's two's-complement range:
/// its magnitude never exceeds one plus the width's largest positive value,
/// which is the divisor of the normalization, so normalized samples lie
/// nominally in the symmetric unit range.
pub proof fn lemma_be_sint_range(s: Seq<u8>, off: int, n: nat)
    requires
        n >= 1,
    ensures
        -(pow256(n) / 2) <= be_sint(s, off, n) < pow256(n) / 2,
{
    lemma_be_uint_bound(s, off, n);
    lemma_pow256_pos((n - 1) as nat);
    let half = 128 * pow256((n - 1) as nat);
    assert(pow256(n) == 2 * half);
    assert(pow256(n) / 2 == half) by {
        vstd::arithmetic::div_mod::lemma_fundamental_div_mod_converse(pow256(n), 2, half, 0);
    }
}

/// Reads the `n` bytes at `off` as one big-endian unsigned integer.
pub fn read_be_uint(bytes: &[u8], off: usize, n: usize) -> (r: u64)
    requires
        n <= 8,
        off + n <= bytes@.len(),
    ensures
        r as int == be_uint(bytes@, off as int, n as nat),
{
    proof {
        lemma_pow256_values();
    }
    let len = bytes.len();
    let mut acc: u64 = 0;
    let mut i: usize = 0;
    while i < n
        invariant
            i <= n,
            n <= 8,
            off + n <= len,
            len == bytes@.len(),
            acc as int == be_uint(bytes@, off as int, i as nat),
        decreases n - i,
    {
        proof {
            lemma_be_uint_bound(bytes@, off as int, (i + 1) as nat);
            lemma_pow256_monotone((i + 1) as nat, 8);
            lemma_pow256_values();
        }
        acc = acc * 256 + (bytes[off + i] as u64);
        i = i + 1;
    }
    acc
}

/// Reads the byte at `off` as a signed sample.
pub fn read_be_i8(bytes: &[u8], off: usize) -> (r: i8)
    requires
        off + 1 <= bytes@.len(),
    ensures
        r as int == be_sint(bytes@, off as int, 1),
{
    proof {
        lemma_pow256_values();
        lemma_be_uint_bound(bytes@, off as int, 1);
    }
    let u = read_be_uint(bytes, off, 1);
    if u < 0x80 {
        u as i8
    } else {
        ((u as i64) - 0x100) as i8
    }
}

/// Reads the two bytes at `off` as one big-endian signed sample.
pub fn read_be_i16(bytes: &[u8], off: usize) -> (r: i16)
    requires
        off + 2 <= bytes@.len(),
    ensures
        r as int == be_sint(bytes@, off as int, 2),
{
    proof {
        lemma_pow256_values();
        lemma_be_uint_bound(bytes@, off as int, 2);
    }
    let u = read_be_uint(bytes, off, 2);
    if u < 0x8000 {
        u as i16
    } else {
        ((u as i64) - 0x1_0000) as i16
    }
}

/// Reads the four bytes at `off` as one big-endian signed sample.
pub fn read_be_i32(bytes: &[u8], off: usize) -> (r: i32)
    requires
        off + 4 <= bytes@.len(),
    ensures
        r as int == be_sint(bytes@, off as int, 4),
{
    proof {
        lemma_pow256_values();
        lemma_be_uint_bound(bytes@, off as int, 4);
    }
    let u = read_be_uint(bytes, off, 4);
    if u < 0x8000_0000 {
        u as i32
    } else {
        ((u as i64) - 0x1_0000_0000) as i32
    }
}

/// Reads the eight bytes at `off` as one big-endian signed sample.
pub fn read_be_i64(bytes: &[u8], off: usize) -> (r: i64)
    requires
        off + 8 <= bytes@.len(),
    ensures
        r as int == be_sint(bytes@, off as int, 8),
{
    proof {
        lemma_pow256_values();
        lemma_be_uint_bound(bytes@, off as int, 8);
    }
    let u = read_be_uint(bytes, off, 8);
    if u < 0x8000_0000_0000_0000 {
        u as i64
    } else {
        ((u as i128) - 0x1_0000_0000_0000_0000_i128) as i64
    }
}

/// Reads the four bytes at `off` as one big-endian unsigned integer; the
/// format stores centroid parent indices and IEEE-754 bit patterns this way.
pub fn read_be_u32(bytes: &[u8], off: usize) -> (r: u32)
    requires
        off + 4 <= bytes@.len(),
    ensures
        r as int == be_uint(bytes@, off as int, 4),
{
    proof {
        lemma_pow256_values();
        lemma_be_uint_bound(bytes@, off as int, 4);
    }
    read_be_uint(bytes, off, 4) as u32
}

} // verus!

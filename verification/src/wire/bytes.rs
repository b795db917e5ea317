//! Little-endian integers as byte sequences.
use vstd::prelude::*;

verus! {

/// 256 to the power `n`.
pub open spec fn pow256(n: nat) -> nat
    decreases n,
{
    if n == 0 {
        1
    } else {
        256 * pow256((n - 1) as nat)
    }
}

/// The `n` low-order bytes of `x`, least significant first.
pub open spec fn le_bytes(x: nat, n: nat) -> Seq<u8>
    decreases n,
{
    if n == 0 {
        Seq::empty()
    } else {
        seq![(x % 256) as u8] + le_bytes(x / 256, (n - 1) as nat)
    }
}

/// The number that a byte sequence holds, least significant byte first.
pub open spec fn le_value(b: Seq<u8>) -> nat
    decreases b.len(),
{
    if b.len() == 0 {
        0
    } else {
        b[0] as nat + 256 * le_value(b.drop_first())
    }
}

pub proof fn lemma_pow256_values()
    ensures
        pow256(0) == 1,
        pow256(1) == 0x100,
        pow256(2) == 0x1_0000,
        pow256(4) == 0x1_0000_0000,
        pow256(8) == 0x1_0000_0000_0000_0000,
        pow256(16) == 0x1_0000_0000_0000_0000_0000_0000_0000_0000,
{
    reveal_with_fuel(pow256, 17);
}

pub proof fn lemma_pow256_monotonic(a: nat, b: nat)
    requires
        a <= b,
    ensures
        0 < pow256(a) <= pow256(b),
    decreases b,
{
    if a == 0 && b == 0 {
    } else if a == b {
        lemma_pow256_monotonic((a - 1) as nat, (b - 1) as nat);
    } else {
        lemma_pow256_monotonic(a, (b - 1) as nat);
    }
}

pub proof fn lemma_le_bytes_len(x: nat, n: nat)
    ensures
        le_bytes(x, n).len() == n,
    decreases n,
{
    if n > 0 {
        lemma_le_bytes_len(x / 256, (n - 1) as nat);
    }
}

pub proof fn lemma_le_value_bound(b: Seq<u8>)
    ensures
        le_value(b) < pow256(b.len()),
    decreases b.len(),
{
    if b.len() > 0 {
        lemma_le_value_bound(b.drop_first());
    }
}

/// Decoding what was encoded gives the number back, when it fits in `n` bytes.
pub proof fn lemma_le_value_of_bytes(x: nat, n: nat)
    requires
        x < pow256(n),
    ensures
        le_value(le_bytes(x, n)) == x,
    decreases n,
{
    if n > 0 {
        let rest = le_bytes(x / 256, (n - 1) as nat);
        let all = le_bytes(x, n);
        assert(all.drop_first() =~= rest);
        lemma_le_value_of_bytes(x / 256, (n - 1) as nat);
    }
}

/// Encoding what was decoded gives the bytes back.
pub proof fn lemma_le_bytes_of_value(b: Seq<u8>)
    ensures
        le_bytes(le_value(b), b.len()) == b,
    decreases b.len(),
{
    if b.len() > 0 {
        let tail = b.drop_first();
        lemma_le_bytes_of_value(tail);
        let x = le_value(b);
        assert(x % 256 == b[0] as nat);
        assert(x / 256 == le_value(tail));
        assert(le_bytes(x, b.len()) =~= b);
    } else {
        assert(le_bytes(le_value(b), b.len()) =~= b);
    }
}

/// Reads the `n` bytes of `buf` from `start` on as one little-endian number.
pub(crate) fn read_le(buf: &[u8], start: usize, n: usize) -> (v: u128)
    requires
        n <= 16,
        start + n <= buf@.len(),
    ensures
        v == le_value(buf@.subrange(start as int, start + n)),
        v < pow256(n as nat),
{
    let len: usize = buf.len();
    let mut v: u128 = 0;
    let mut i: usize = n;
    proof {
        assert(buf@.subrange(start + n, start + n) =~= Seq::<u8>::empty());
    }
    while i > 0
        invariant
            i <= n <= 16,
            start + n <= buf@.len() == len,
            v == le_value(buf@.subrange(start + i, start + n)),
        decreases i,
    {
        let b: u8 = buf[start + (i - 1)];
        proof {
            let whole = buf@.subrange(start + i - 1, start + n);
            let tail = buf@.subrange(start + i, start + n);
            assert(whole.drop_first() =~= tail);
            assert(whole[0] == b);
            lemma_le_value_bound(tail);
            lemma_le_value_bound(whole);
            lemma_pow256_monotonic(whole.len(), 16);
            lemma_pow256_values();
        }
        v = v * 256 + b as u128;
        i = i - 1;
    }
    proof {
        lemma_le_value_bound(buf@.subrange(start as int, start + n));
    }
    v
}

/// Appends the `n` low-order bytes of `x` to `out`, least significant first.
pub(crate) fn write_le(out: &mut Vec<u8>, x: u128, n: usize)
    requires
        n <= 16,
    ensures
        final(out)@ == old(out)@ + le_bytes(x as nat, n as nat),
{
    let mut rest: u128 = x;
    let mut i: usize = 0;
    while i < n
        invariant
            i <= n,
            out@ + le_bytes(rest as nat, (n - i) as nat) == old(out)@ + le_bytes(x as nat, n as nat),
        decreases n - i,
    {
        let ghost before = out@;
        let b: u8 = (rest % 256) as u8;
        out.push(b);
        proof {
            assert(before.push(b) + le_bytes((rest / 256) as nat, (n - i - 1) as nat) =~= before
                + le_bytes(rest as nat, (n - i) as nat));
        }
        rest = rest / 256;
        i = i + 1;
    }
    proof {
        assert(out@ + le_bytes(rest as nat, 0) =~= out@);
    }
}

/// The two's-complement reading of an `n`-byte number.
pub open spec fn signed_of(v: nat, n: nat) -> int {
    if 2 * v < pow256(n) {
        v as int
    } else {
        v - pow256(n)
    }
}

/// The `n`-byte number whose two's-complement reading is `x`.
pub open spec fn unsigned_of(x: int, n: nat) -> nat {
    if x >= 0 {
        x as nat
    } else {
        (x + pow256(n)) as nat
    }
}

/// Whether `x` has an `n`-byte two's-complement form.
pub open spec fn fits_signed(x: int, n: nat) -> bool {
    -(pow256(n) as int) <= 2 * x < pow256(n)
}

/// The two readings are inverse to each other.
pub proof fn lemma_signed_unsigned(x: int, v: nat, n: nat)
    ensures
        fits_signed(x, n) ==> unsigned_of(x, n) < pow256(n) && signed_of(unsigned_of(x, n), n) == x,
        v < pow256(n) ==> fits_signed(signed_of(v, n), n) && unsigned_of(signed_of(v, n), n) == v,
{
}

/// 256 to the power `n`, for the widths that the wire format uses.
pub(crate) fn modulus(n: usize) -> (m: u128)
    requires
        n == 1 || n == 2 || n == 4 || n == 8,
    ensures
        m == pow256(n as nat),
{
    proof {
        lemma_pow256_values();
    }
    if n == 1 {
        0x100
    } else if n == 2 {
        0x1_0000
    } else if n == 4 {
        0x1_0000_0000
    } else {
        0x1_0000_0000_0000_0000
    }
}

/// The two's-complement reading of an `n`-byte number.
pub(crate) fn to_signed(v: u64, n: usize) -> (x: i64)
    requires
        n == 1 || n == 2 || n == 4 || n == 8,
        v < pow256(n as nat),
    ensures
        x == signed_of(v as nat, n as nat),
        fits_signed(x as int, n as nat),
{
    let m: u128 = modulus(n);
    proof {
        lemma_pow256_values();
        lemma_pow256_monotonic(n as nat, 8);
    }
    if 2 * (v as u128) < m {
        v as i64
    } else {
        (v as i128 - m as i128) as i64
    }
}

/// The `n`-byte number whose two's-complement reading is `x`.
pub(crate) fn to_unsigned(x: i64, n: usize) -> (v: u64)
    requires
        n == 1 || n == 2 || n == 4 || n == 8,
        fits_signed(x as int, n as nat),
    ensures
        v == unsigned_of(x as int, n as nat),
        v < pow256(n as nat),
{
    let m: u128 = modulus(n);
    proof {
        lemma_pow256_values();
        lemma_pow256_monotonic(n as nat, 8);
    }
    if x >= 0 {
        x as u64
    } else {
        (x as i128 + m as i128) as u64
    }
}

/// A prefix of a prefix is a prefix, and a sequence is a prefix of itself with more appended.
pub proof fn lemma_prefix(a: Seq<u8>, b: Seq<u8>, c: Seq<u8>)
    ensures
        a.is_prefix_of(b) && b.is_prefix_of(c) ==> a.is_prefix_of(c),
        a.is_prefix_of(a + b),
        a.is_prefix_of(a),
{
    if a.is_prefix_of(b) && b.is_prefix_of(c) {
        assert(a =~= c.subrange(0, a.len() as int));
    }
    assert(a =~= (a + b).subrange(0, a.len() as int));
    assert(a =~= a.subrange(0, a.len() as int));
}

} // verus!

//! Little-endian encoding of 128-bit integers and of 32-byte asset records.
use vstd::prelude::*;

verus! {

/// Number of bytes in the encoding of one `u128`.
pub const U128_BYTES: usize = 16;

/// Number of bytes in the encoding of one asset record (block, then tx).
pub const RECORD_BYTES: usize = 32;

/// 256 to the power `k`.
pub open spec fn pow256(k: nat) -> nat
    decreases k,
{
    if k == 0 {
        1
    } else {
        256 * pow256((k - 1) as nat)
    }
}

/// The `k` low bytes of `n`, least significant first.
pub open spec fn le_bytes(n: nat, k: nat) -> Seq<u8>
    decreases k,
{
    if k == 0 {
        seq![]
    } else {
        seq![(n % 256) as u8] + le_bytes(n / 256, (k - 1) as nat)
    }
}

/// The number whose little-endian bytes are `b`.
pub open spec fn le_value(b: Seq<u8>) -> nat
    decreases b.len(),
{
    if b.len() == 0 {
        0
    } else {
        b[0] as nat + 256 * le_value(b.drop_first())
    }
}

pub proof fn lemma_pow256_positive(k: nat)
    ensures
        pow256(k) >= 1,
    decreases k,
{
    if k > 0 {
        lemma_pow256_positive((k - 1) as nat);
    }
}

pub proof fn lemma_pow256_16()
    ensures
        pow256(16) == 0x1_0000_0000_0000_0000_0000_0000_0000_0000,
{
    reveal_with_fuel(pow256, 17);
}

pub proof fn lemma_le_bytes_len(n: nat, k: nat)
    ensures
        le_bytes(n, k).len() == k,
    decreases k,
{
    if k > 0 {
        lemma_le_bytes_len(n / 256, (k - 1) as nat);
    }
}

/// A value read from `k` bytes is below `256^k`.
pub proof fn lemma_le_value_bound(b: Seq<u8>)
    ensures
        le_value(b) < pow256(b.len()),
    decreases b.len(),
{
    if b.len() > 0 {
        let rest = b.drop_first();
        lemma_le_value_bound(rest);
        let v = le_value(rest);
        let p = pow256(rest.len());
        assert(b[0] as nat + 256 * v < 256 * p) by (nonlinear_arith)
            requires
                b[0] < 256,
                v < p,
        ;
    }
}

/// Reading back the `k` low bytes of `n` gives `n` when `n < 256^k`.
pub proof fn lemma_le_round_trip(n: nat, k: nat)
    requires
        n < pow256(k),
    ensures
        le_value(le_bytes(n, k)) == n,
    decreases k,
{
    if k > 0 {
        let q = n / 256;
        let p = pow256((k - 1) as nat);
        assert(q < p) by (nonlinear_arith)
            requires
                n < 256 * p,
                q == n / 256,
        ;
        lemma_le_round_trip(q, (k - 1) as nat);
        let b = le_bytes(n, k);
        assert(b.drop_first() =~= le_bytes(q, (k - 1) as nat));
        assert(n == n % 256 + 256 * q) by (nonlinear_arith)
            requires
                q == n / 256,
        ;
    }
}

/// The 16 little-endian bytes of `n`.
pub fn u128_le_bytes(n: u128) -> (r: Vec<u8>)
    ensures
        r@ == le_bytes(n as nat, 16),
{
    let mut r: Vec<u8> = Vec::with_capacity(U128_BYTES);
    let mut v: u128 = n;
    let mut i: usize = 0;
    while i < U128_BYTES
        invariant
            i <= 16,
            r@ + le_bytes(v as nat, (16 - i) as nat) == le_bytes(n as nat, 16),
        decreases 16 - i,
    {
        let ghost before = r@;
        let ghost rest = le_bytes((v / 256) as nat, (16 - i - 1) as nat);
        assert(le_bytes(v as nat, (16 - i) as nat) == seq![(v % 256) as u8] + rest);
        r.push((v % 256) as u8);
        assert(before + (seq![(v % 256) as u8] + rest) =~= r@ + rest);
        v = v / 256;
        i = i + 1;
    }
    assert(le_bytes(v as nat, 0) =~= Seq::<u8>::empty());
    assert(r@ =~= r@ + le_bytes(v as nat, 0));
    r
}

/// The number held in the 16 little-endian bytes of `b` from `start`.
pub fn u128_from_le(b: &[u8], start: usize) -> (r: u128)
    requires
        start + 16 <= b.len(),
    ensures
        r as nat == le_value(b@.subrange(start as int, start + 16)),
{
    let mut acc: u128 = 0;
    let mut i: usize = U128_BYTES;
    while i > 0
        invariant
            i <= 16,
            start + 16 <= b.len(),
            acc as nat == le_value(b@.subrange(start + i, start + 16)),
        decreases i,
    {
        let ghost tail = b@.subrange(start + i, start + 16);
        let ghost s = b@.subrange(start + i - 1, start + 16);
        assert(s.drop_first() =~= tail);
        proof {
            lemma_le_value_bound(s);
            lemma_pow256_16();
            assert(pow256(s.len()) <= pow256(16)) by {
                lemma_pow256_mono(s.len(), 16);
            }
        }
        i = i - 1;
        acc = b[start + i] as u128 + 256 * acc;
    }
    assert(b@.subrange(start as int, start + 16) == b@.subrange(start + 0, start + 16));
    acc
}

pub proof fn lemma_pow256_mono(a: nat, b: nat)
    requires
        a <= b,
    ensures
        pow256(a) <= pow256(b),
    decreases b,
{
    if a < b {
        lemma_pow256_mono(a, (b - 1) as nat);
        lemma_pow256_positive((b - 1) as nat);
    }
}

} // verus!

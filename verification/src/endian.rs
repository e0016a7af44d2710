//! Big-endian (network byte order) integers, as the wire format uses them
//! for long frame lengths (8 bytes) and property value lengths (4 bytes).

use vstd::arithmetic::div_mod::{
    lemma_fundamental_div_mod, lemma_fundamental_div_mod_converse,
};
use vstd::prelude::*;

verus! {

/// 256 to the power `n`: one more than the largest value an `n`-byte
/// big-endian field can carry.
pub open spec fn pow256(n: nat) -> int
    decreases n,
{
    if n == 0 {
        1
    } else {
        256 * pow256((n - 1) as nat)
    }
}

/// The value of `s` read as a big-endian integer.
pub open spec fn spec_be_val(s: Seq<u8>) -> int
    decreases s.len(),
{
    if s.len() == 0 {
        0
    } else {
        spec_be_val(s.drop_last()) * 256 + s.last()
    }
}

/// The `n`-byte big-endian encoding of `v`.
pub open spec fn spec_be_bytes(v: int, n: nat) -> Seq<u8>
    decreases n,
{
    if n == 0 {
        Seq::empty()
    } else {
        spec_be_bytes(v / 256, (n - 1) as nat).push((v % 256) as u8)
    }
}

pub proof fn lemma_be_bytes_len(v: int, n: nat)
    ensures
        spec_be_bytes(v, n).len() == n,
    decreases n,
{
    if n > 0 {
        lemma_be_bytes_len(v / 256, (n - 1) as nat);
    }
}

pub proof fn lemma_be_val_bound(s: Seq<u8>)
    ensures
        0 <= spec_be_val(s) < pow256(s.len()),
    decreases s.len(),
{
    if s.len() > 0 {
        let d = s.drop_last();
        lemma_be_val_bound(d);
        let a = spec_be_val(d);
        let p = pow256(d.len());
        assert(0 <= a * 256 + s.last() < 256 * p) by (nonlinear_arith)
            requires
                0 <= a < p,
                0 <= s.last() < 256,
        ;
    }
}

/// Decoding inverts encoding: reading back the `n`-byte big-endian
/// encoding of `v` yields `v`.
pub proof fn lemma_be_val_of_bytes(v: int, n: nat)
    requires
        0 <= v < pow256(n),
    ensures
        spec_be_val(spec_be_bytes(v, n)) == v,
    decreases n,
{
    if n == 0 {
        assert(v == 0);
    } else {
        let q = v / 256;
        let r = v % 256;
        lemma_fundamental_div_mod(v, 256);
        assert(0 <= q < pow256((n - 1) as nat)) by (nonlinear_arith)
            requires
                0 <= v < 256 * pow256((n - 1) as nat),
                v == 256 * q + r,
                0 <= r < 256,
        ;
        lemma_be_val_of_bytes(q, (n - 1) as nat);
        lemma_be_bytes_len(q, (n - 1) as nat);
        let b = spec_be_bytes(v, n);
        assert(b.drop_last() =~= spec_be_bytes(q, (n - 1) as nat));
        assert(spec_be_val(b) == q * 256 + r);
    }
}

/// Encoding inverts decoding: an `n`-byte string is the encoding of the
/// value it denotes.
pub proof fn lemma_be_bytes_of_val(s: Seq<u8>)
    ensures
        spec_be_bytes(spec_be_val(s), s.len()) == s,
    decreases s.len(),
{
    if s.len() == 0 {
        assert(spec_be_bytes(spec_be_val(s), s.len()) =~= s);
    } else {
        let d = s.drop_last();
        let a = spec_be_val(d);
        let b = s.last() as int;
        let v = spec_be_val(s);
        lemma_be_val_bound(d);
        lemma_fundamental_div_mod_converse(v, 256, a, b);
        lemma_be_bytes_of_val(d);
        assert(spec_be_bytes(v, s.len()) == d.push(s.last()));
        assert(d.push(s.last()) =~= s);
    }
}

/// Builds the `n` low-order big-endian bytes of `v`, least significant
/// last, mirroring the structure of `spec_be_bytes`.
fn be_encode_rec(v: u64, n: usize) -> (s: Vec<u8>)
    requires
        n <= 8,
    ensures
        s@ == spec_be_bytes(v as int, n as nat),
        s@.len() == n,
    decreases n,
{
    proof {
        lemma_be_bytes_len(v as int, n as nat);
    }
    if n == 0 {
        let s: Vec<u8> = Vec::new();
        assert(s@ =~= spec_be_bytes(v as int, 0));
        s
    } else {
        let mut s = be_encode_rec(v / 256, n - 1);
        s.push((v % 256) as u8);
        s
    }
}

/// The 8-byte big-endian encoding of `v`, as a long frame's length field
/// carries it.
pub fn be_encode_u64(v: u64) -> (s: Vec<u8>)
    ensures
        s@ == spec_be_bytes(v as int, 8),
        s@.len() == 8,
{
    be_encode_rec(v, 8)
}

/// The 4-byte big-endian encoding of `v`, as a property value's length
/// field carries it.
pub fn be_encode_u32(v: u32) -> (s: Vec<u8>)
    ensures
        s@ == spec_be_bytes(v as int, 4),
        s@.len() == 4,
{
    be_encode_rec(v as u64, 4)
}

/// Reads `s` as a big-endian integer; the first `n` bytes of `s` must fit
/// the result type, which 8 bytes always do.
fn be_decode_rec(s: &[u8], n: usize) -> (v: u64)
    requires
        n <= s@.len(),
        n <= 8,
    ensures
        v as int == spec_be_val(s@.subrange(0, n as int)),
    decreases n,
{
    if n == 0 {
        assert(s@.subrange(0, 0) =~= Seq::<u8>::empty());
        0u64
    } else {
        let prefix = be_decode_rec(s, n - 1);
        proof {
            lemma_be_val_bound(s@.subrange(0, n - 1));
            lemma_pow256_increases((n - 1) as nat, 7);
            lemma_pow256_values();
            assert(prefix < 0x100_0000_0000_0000);
        }
        let b = s[n - 1];
        let v = prefix * 256 + (b as u64);
        proof {
            assert(s@.subrange(0, n as int).drop_last() =~= s@.subrange(0, n - 1));
            assert(s@.subrange(0, n as int).last() == s@[n - 1]);
        }
        v
    }
}

/// The concrete sizes of the length fields the wire format uses.
pub proof fn lemma_pow256_values()
    ensures
        pow256(4) == 0x1_0000_0000,
        pow256(7) == 0x100_0000_0000_0000,
        pow256(8) == 0x1_0000_0000_0000_0000,
{
    reveal_with_fuel(pow256, 9);
}

pub proof fn lemma_pow256_increases(m: nat, n: nat)
    requires
        m <= n,
    ensures
        pow256(m) <= pow256(n),
    decreases n,
{
    if m < n {
        lemma_pow256_increases(m, (n - 1) as nat);
        lemma_pow256_positive((n - 1) as nat);
        assert(pow256((n - 1) as nat) <= 256 * pow256((n - 1) as nat)) by (nonlinear_arith)
            requires
                pow256((n - 1) as nat) >= 1,
        ;
    }
}

pub proof fn lemma_pow256_positive(n: nat)
    ensures
        pow256(n) >= 1,
    decreases n,
{
    if n > 0 {
        lemma_pow256_positive((n - 1) as nat);
    }
}

/// Reads the 8-byte big-endian length field of a long frame.
pub fn be_decode_u64(s: &[u8]) -> (v: u64)
    requires
        s@.len() == 8,
    ensures
        v as int == spec_be_val(s@),
{
    let v = be_decode_rec(s, 8);
    proof {
        assert(s@.subrange(0, 8) =~= s@);
    }
    v
}

/// Reads the 4-byte big-endian length field of a property value.
pub fn be_decode_u32(s: &[u8]) -> (v: u32)
    requires
        s@.len() == 4,
    ensures
        v as int == spec_be_val(s@),
{
    let v = be_decode_rec(s, 4);
    proof {
        assert(s@.subrange(0, 4) =~= s@);
        lemma_be_val_bound(s@);
        lemma_pow256_values();
    }
    v as u32
}

} // verus!

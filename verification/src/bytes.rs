//! Little-endian encodings of integers.

use vstd::prelude::*;
use vstd::arithmetic::div_mod::lemma_fundamental_div_mod;

verus! {

/// The little-endian bytes of the low `n` bytes of `v`.
pub open spec fn le_bytes(v: nat, n: nat) -> Seq<u8>
    decreases n,
{
    if n == 0 {
        Seq::empty()
    } else {
        seq![(v % 256) as u8] + le_bytes(v / 256, (n - 1) as nat)
    }
}

/// The number that little-endian bytes spell.
pub open spec fn le_value(b: Seq<u8>) -> nat
    decreases b.len(),
{
    if b.len() == 0 {
        0
    } else {
        (b[0] + 256 * le_value(b.subrange(1, b.len() as int))) as nat
    }
}

/// `n` zero bytes.
pub open spec fn zeros(n: nat) -> Seq<u8> {
    Seq::new(n, |i: int| 0u8)
}

pub proof fn lemma_le_bytes_len(v: nat, n: nat)
    ensures
        le_bytes(v, n).len() == n,
    decreases n,
{
    if n > 0 {
        lemma_le_bytes_len(v / 256, (n - 1) as nat);
    }
}

/// Reading back the bytes of a value that fits in them gives the value.
pub proof fn lemma_le_round_trip(v: nat, n: nat)
    requires
        v < vstd::arithmetic::power::pow(256, n),
    ensures
        le_value(le_bytes(v, n)) == v,
    decreases n,
{
    reveal(vstd::arithmetic::power::pow);
    lemma_le_bytes_len(v, n);
    if n == 0 {
    } else {
        let b = le_bytes(v, n);
        lemma_fundamental_div_mod(v as int, 256);
        assert(b.subrange(1, b.len() as int) =~= le_bytes(v / 256, (n - 1) as nat));
        assert(v / 256 < vstd::arithmetic::power::pow(256, (n - 1) as nat)) by {
            let p = vstd::arithmetic::power::pow(256, (n - 1) as nat);
            assert(vstd::arithmetic::power::pow(256, n) == 256 * p);
            vstd::arithmetic::div_mod::lemma_div_is_ordered(v as int, 256 * p - 1, 256);
            vstd::arithmetic::div_mod::lemma_fundamental_div_mod_converse(256 * p - 1, 256, p - 1, 255);
        }
        lemma_le_round_trip(v / 256, (n - 1) as nat);
    }
}

/// Appends the little-endian bytes of a `u32`.
pub fn push_u32_le(out: &mut Vec<u8>, v: u32)
    ensures
        final(out)@ == old(out)@ + le_bytes(v as nat, 4),
{
    out.push((v % 256) as u8);
    out.push(((v / 256) % 256) as u8);
    out.push(((v / 65536) % 256) as u8);
    out.push((v / 16777216) as u8);
    proof {
        reveal_with_fuel(le_bytes, 5);
        assert((v / 256) / 256 == v / 65536);
        assert((v / 65536) / 256 == v / 16777216);
        assert(v / 16777216 < 256);
        assert(out@ =~= old(out)@ + le_bytes(v as nat, 4));
    }
}

/// Appends the little-endian bytes of a `u64`.
pub fn push_u64_le(out: &mut Vec<u8>, v: u64)
    ensures
        final(out)@ == old(out)@ + le_bytes(v as nat, 8),
{
    let mut i: usize = 0;
    let mut rest: u64 = v;
    let ghost start = out@;
    while i < 8
        invariant
            i <= 8,
            start + le_bytes(v as nat, 8) == out@ + le_bytes(rest as nat, (8 - i) as nat),
        decreases 8 - i,
    {
        proof {
            assert(le_bytes(rest as nat, (8 - i) as nat) == seq![(rest % 256) as u8] + le_bytes(
                (rest / 256) as nat,
                (8 - i - 1) as nat,
            ));
        }
        out.push((rest % 256) as u8);
        rest = rest / 256;
        i = i + 1;
        proof {
            assert(start + le_bytes(v as nat, 8) =~= out@ + le_bytes(rest as nat, (8 - i) as nat));
        }
    }
    proof {
        assert(le_bytes(rest as nat, 0) =~= Seq::<u8>::empty());
        assert(out@ =~= start + le_bytes(v as nat, 8));
    }
}

/// Appends `n` zero bytes.
pub fn push_zeros(out: &mut Vec<u8>, n: usize)
    ensures
        final(out)@ == old(out)@ + zeros(n as nat),
{
    let mut i: usize = 0;
    let ghost start = out@;
    while i < n
        invariant
            i <= n,
            out@ == start + zeros(i as nat),
        decreases n - i,
    {
        out.push(0);
        i = i + 1;
        assert(out@ =~= start + zeros(i as nat));
    }
}

/// Appends a slice of bytes.
pub fn push_bytes(out: &mut Vec<u8>, b: &[u8])
    ensures
        final(out)@ == old(out)@ + b@,
{
    let mut i: usize = 0;
    let ghost start = out@;
    while i < b.len()
        invariant
            i <= b.len(),
            out@ == start + b@.subrange(0, i as int),
        decreases b.len() - i,
    {
        out.push(b[i]);
        i = i + 1;
        assert(out@ =~= start + b@.subrange(0, i as int));
    }
    assert(b@.subrange(0, b.len() as int) =~= b@);
}

/// The `u32` spelled by four little-endian bytes of `b` at `at`.
pub fn read_u32_le(b: &[u8], at: usize) -> (v: u32)
    requires
        at + 4 <= b.len(),
    ensures
        v == le_value(b@.subrange(at as int, at + 4)),
{
    let v = b[at] as u32 + 256 * (b[at + 1] as u32 + 256 * (b[at + 2] as u32 + 256 * (b[at + 3] as u32)));
    proof {
        let s = b@.subrange(at as int, at + 4);
        reveal_with_fuel(le_value, 5);
        assert(s.subrange(1, 4) =~= b@.subrange(at + 1, at + 4));
        assert(s.subrange(1, 4).subrange(1, 3) =~= b@.subrange(at + 2, at + 4));
        assert(s.subrange(1, 4).subrange(1, 3).subrange(1, 2) =~= b@.subrange(at + 3, at + 4));
        assert(s.subrange(1, 4).subrange(1, 3).subrange(1, 2).subrange(1, 1) =~= Seq::<u8>::empty());
    }
    v
}

/// The `u64` spelled by eight little-endian bytes of `b` at `at`.
pub fn read_u64_le(b: &[u8], at: usize) -> (v: u64)
    requires
        at + 8 <= b.len(),
    ensures
        v == le_value(b@.subrange(at as int, at + 8)),
{
    let mut i: usize = 8;
    let mut v: u64 = 0;
    proof {
        reveal(vstd::arithmetic::power::pow);
        assert(b@.subrange(at + 8, at + 8) =~= Seq::<u8>::empty());
    }
    while i > 0
        invariant
            i <= 8,
            at + 8 <= b.len(),
            v == le_value(b@.subrange(at + i, at + 8)),
            v < vstd::arithmetic::power::pow(256, (8 - i) as nat),
        decreases i,
    {
        proof {
            reveal(vstd::arithmetic::power::pow);
            let s = b@.subrange(at + i - 1, at + 8);
            assert(s.subrange(1, s.len() as int) =~= b@.subrange(at + i, at + 8));
            assert(le_value(s) == b[at + i - 1] + 256 * v);
            assert(vstd::arithmetic::power::pow(256, (8 - i + 1) as nat) == 256 * vstd::arithmetic::power::pow(256, (8 - i) as nat));
            assert(vstd::arithmetic::power::pow(256, 8) == 0x1_0000_0000_0000_0000) by {
                reveal_with_fuel(vstd::arithmetic::power::pow, 9);
            }
            vstd::arithmetic::power::lemma_pow_increases(256, (8 - i + 1) as nat, 8);
        }
        v = b[at + i - 1] as u64 + 256 * v;
        i = i - 1;
    }
    v
}

} // verus!

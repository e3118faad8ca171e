//! Integers as bytes, in network order and in little-endian order.

use vstd::prelude::*;

verus! {

/// The `n` low bytes of `v`, most significant first.
pub open spec fn be_bytes(v: nat, n: nat) -> Seq<u8>
    decreases n,
{
    if n == 0 {
        Seq::empty()
    } else {
        be_bytes(v / 256, (n - 1) as nat).push((v % 256) as u8)
    }
}

/// The `n` low bytes of `v`, least significant first.
pub open spec fn le_bytes(v: nat, n: nat) -> Seq<u8>
    decreases n,
{
    if n == 0 {
        Seq::empty()
    } else {
        seq![(v % 256) as u8] + le_bytes(v / 256, (n - 1) as nat)
    }
}

/// The number that `s` encodes, least significant byte first.
pub open spec fn le_value(s: Seq<u8>) -> nat
    decreases s.len(),
{
    if s.len() == 0 {
        0
    } else {
        s[0] as nat + 256 * le_value(s.drop_first())
    }
}

/// The number that `s` encodes, most significant byte first.
pub open spec fn be_value(s: Seq<u8>) -> nat
    decreases s.len(),
{
    if s.len() == 0 {
        0
    } else {
        256 * be_value(s.drop_last()) + s.last() as nat
    }
}

/// Appends the `n` low bytes of `v`, most significant first.
pub fn push_be(out: &mut Vec<u8>, v: u128, n: usize)
    ensures
        final(out)@ == old(out)@ + be_bytes(v as nat, n as nat),
    decreases n,
{
    if n > 0 {
        push_be(out, v / 256, n - 1);
        out.push((v % 256) as u8);
    }
}

/// Appends the `n` low bytes of `v`, least significant first.
pub fn push_le(out: &mut Vec<u8>, v: u128, n: usize)
    ensures
        final(out)@ == old(out)@ + le_bytes(v as nat, n as nat),
    decreases n,
{
    if n > 0 {
        out.push((v % 256) as u8);
        push_le(out, v / 256, n - 1);
    }
}

/// Appends a run of bytes.
pub fn push_all(out: &mut Vec<u8>, bytes: &[u8])
    ensures
        final(out)@ == old(out)@ + bytes@,
{
    let mut i: usize = 0;
    while i < bytes.len()
        invariant
            i <= bytes@.len(),
            out@ == old(out)@ + bytes@.take(i as int),
        decreases bytes@.len() - i,
    {
        out.push(bytes[i]);
        i += 1;
        assert(bytes@.take(i as int) == bytes@.take(i - 1).push(bytes@[i - 1]));
    }
    assert(bytes@.take(i as int) == bytes@);
}

/// A copy of a run of bytes.
pub fn copy_of(bytes: &[u8]) -> (r: Vec<u8>)
    ensures
        r@ == bytes@,
{
    let mut out: Vec<u8> = Vec::new();
    push_all(&mut out, bytes);
    out
}

pub proof fn lemma_be_len(v: nat, n: nat)
    ensures
        be_bytes(v, n).len() == n,
    decreases n,
{
    if n > 0 {
        lemma_be_len(v / 256, (n - 1) as nat);
    }
}

pub proof fn lemma_le_len(v: nat, n: nat)
    ensures
        le_bytes(v, n).len() == n,
    decreases n,
{
    if n > 0 {
        lemma_le_len(v / 256, (n - 1) as nat);
    }
}

/// A number that fits in `n` bytes is read back from them.
pub proof fn law_le_round_trip(v: nat, n: nat)
    requires
        v < vstd::arithmetic::power::pow(256, n),
    ensures
        le_value(le_bytes(v, n)) == v,
    decreases n,
{
    vstd::arithmetic::power::lemma_pow0(256);
    if n > 0 {
        vstd::arithmetic::power::lemma_pow_adds(256, 1, (n - 1) as nat);
        vstd::arithmetic::power::lemma_pow1(256);
        law_le_round_trip(v / 256, (n - 1) as nat);
        let s = le_bytes(v, n);
        assert(s.drop_first() =~= le_bytes(v / 256, (n - 1) as nat));
    }
}

/// A number that fits in `n` bytes is read back from them, most significant
/// byte first.
pub proof fn law_be_round_trip(v: nat, n: nat)
    requires
        v < vstd::arithmetic::power::pow(256, n),
    ensures
        be_bytes(v, n).len() == n,
        be_value(be_bytes(v, n)) == v,
    decreases n,
{
    vstd::arithmetic::power::lemma_pow0(256);
    lemma_be_len(v, n);
    if n > 0 {
        vstd::arithmetic::power::lemma_pow_adds(256, 1, (n - 1) as nat);
        vstd::arithmetic::power::lemma_pow1(256);
        law_be_round_trip(v / 256, (n - 1) as nat);
        assert(be_bytes(v, n).drop_last() =~= be_bytes(v / 256, (n - 1) as nat));
    }
}

/// How many numbers the sizes of field that occur can hold.
pub proof fn lemma_sizes()
    ensures
        vstd::arithmetic::power::pow(256, 2) == 0x1_0000,
        vstd::arithmetic::power::pow(256, 4) == 0x1_0000_0000,
        vstd::arithmetic::power::pow(256, 8) == 0x1_0000_0000_0000_0000,
        vstd::arithmetic::power::pow(256, 16) == 0x1_0000_0000_0000_0000_0000_0000_0000_0000,
{
    vstd::arithmetic::power::lemma_pow1(256);
    vstd::arithmetic::power::lemma_pow_adds(256, 1, 1);
    assert(vstd::arithmetic::power::pow(256, 2) == 0x1_0000);
    vstd::arithmetic::power::lemma_pow_adds(256, 2, 2);
    assert(0x1_0000int * 0x1_0000int == 0x1_0000_0000int);
    assert(vstd::arithmetic::power::pow(256, 4) == 0x1_0000_0000);
    vstd::arithmetic::power::lemma_pow_adds(256, 4, 4);
    assert(vstd::arithmetic::power::pow(256, 8) == 0x1_0000_0000_0000_0000);
    vstd::arithmetic::power::lemma_pow_adds(256, 8, 8);
}

} // verus!

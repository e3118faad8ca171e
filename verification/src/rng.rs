//! The random numbers behind packet loss, duplication and jitter.

use vstd::prelude::*;

verus! {

/// What a generator falls back on where it would be seeded with zero.
pub const FALLBACK_SEED: u64 = 0xa5a5_a5a5_a5a5_a5a5;

/// The state that a seed stands for. Zero, from which a xorshift generator
/// would never get away, is replaced.
pub open spec fn seeded(seed: u64) -> u64 {
    if seed == 0 {
        FALLBACK_SEED
    } else {
        seed
    }
}

/// One xorshift64 step.
pub open spec fn step(x: u64) -> u64 {
    let a = x ^ (x << 13);
    let b = a ^ (a >> 7);
    b ^ (b << 17)
}

/// The number that a state yields: its two halves folded together.
pub open spec fn output(x: u64) -> u32 {
    (x as u32) ^ ((x >> 32) as u32)
}

pub fn seeded_state(seed: u64) -> (r: u64)
    ensures
        r == seeded(seed),
{
    if seed == 0 {
        FALLBACK_SEED
    } else {
        seed
    }
}

/// Steps a generator and yields its number.
pub fn next(x: u64) -> (r: (u64, u32))
    ensures
        r.0 == step(seeded(x)),
        r.1 == output(r.0),
{
    let s: u64 = seeded_state(x);
    let a: u64 = s ^ (s << 13);
    let b: u64 = a ^ (a >> 7);
    let y: u64 = b ^ (b << 17);
    (y, (y as u32) ^ ((y >> 32) as u32))
}

/// A generator that has left zero never comes back to it.
pub proof fn law_step_stays_nonzero(x: u64)
    requires
        x != 0,
    ensures
        step(x) != 0,
{
    assert(x != 0 ==> ((x ^ (x << 13)) ^ ((x ^ (x << 13)) >> 7)) ^ (((x ^ (x << 13)) ^ ((x ^ (x
        << 13)) >> 7)) << 17) != 0) by (bit_vector);
}

/// No two states step to the same one: runs of the generator that differ never
/// merge.
pub proof fn law_step_is_injective(x: u64, y: u64)
    requires
        step(x) == step(y),
    ensures
        x == y,
{
    let a = x ^ (x << 13);
    let b = a ^ (a >> 7);
    let c = y ^ (y << 13);
    let d = c ^ (c >> 7);
    assert((b ^ (b << 17)) == (d ^ (d << 17)) ==> b == d) by (bit_vector);
    assert((a ^ (a >> 7)) == (c ^ (c >> 7)) ==> a == c) by (bit_vector);
    assert((x ^ (x << 13)) == (y ^ (y << 13)) ==> x == y) by (bit_vector);
}

/// A step can be undone: each of its three foldings, to the left by thirteen
/// bits, to the right by seven and to the left by seventeen, is folded back.
pub proof fn law_step_can_be_undone(x: u64)
    ensures
        ({
            let y = step(x);
            let b = y ^ (y << 17) ^ (y << 34) ^ (y << 51);
            let a = b ^ (b >> 7) ^ (b >> 14) ^ (b >> 21) ^ (b >> 28) ^ (b >> 35) ^ (b >> 42) ^ (b
                >> 49) ^ (b >> 56) ^ (b >> 63);
            a ^ (a << 13) ^ (a << 26) ^ (a << 39) ^ (a << 52) == x
        }),
{
    let a = x ^ (x << 13);
    let b = a ^ (a >> 7);
    let y = b ^ (b << 17);
    assert(({
        let z = b ^ (b << 17);
        z ^ (z << 17) ^ (z << 34) ^ (z << 51)
    }) == b) by (bit_vector);
    assert(({
        let z = a ^ (a >> 7);
        z ^ (z >> 7) ^ (z >> 14) ^ (z >> 21) ^ (z >> 28) ^ (z >> 35) ^ (z >> 42) ^ (z >> 49) ^ (z
            >> 56) ^ (z >> 63)
    }) == a) by (bit_vector);
    assert(({
        let z = x ^ (x << 13);
        z ^ (z << 13) ^ (z << 26) ^ (z << 39) ^ (z << 52)
    }) == x) by (bit_vector);
}

/// Steps and numbers add up: those of two states folded together are those of
/// each, folded together. A state of one half has that half for its number.
pub proof fn law_numbers_are_linear(x: u64, y: u64, half: u32)
    ensures
        step(x ^ y) == step(x) ^ step(y),
        output(x ^ y) == output(x) ^ output(y),
        output(half as u64) == half,
        output((half as u64) << 32) == half,
{
    assert(({
        let z = x ^ y;
        let a = z ^ (z << 13);
        let b = a ^ (a >> 7);
        b ^ (b << 17)
    }) == ({
        let a = x ^ (x << 13);
        let b = a ^ (a >> 7);
        b ^ (b << 17)
    }) ^ ({
        let a = y ^ (y << 13);
        let b = a ^ (a >> 7);
        b ^ (b << 17)
    })) by (bit_vector);
    assert(((x ^ y) as u32) ^ (((x ^ y) >> 32) as u32) == ((x as u32) ^ ((x >> 32) as u32)) ^ ((
    y as u32) ^ ((y >> 32) as u32))) by (bit_vector);
    assert((half as u64) as u32 ^ (((half as u64) >> 32) as u32) == half) by (bit_vector);
    assert((((half as u64) << 32) as u32) ^ ((((half as u64) << 32) >> 32) as u32) == half)
        by (bit_vector);
}

/// A probability, in parts of 2 to the 32nd.
#[derive(Clone, Copy, Debug, PartialEq, Eq, Structural)]
pub struct Probability {
    threshold: u64,
}

impl Probability {
    #[verifier::type_invariant]
    pub open spec fn at_most_one(self) -> bool {
        self.parts() <= 0x1_0000_0000
    }

    /// The probability in parts of 2 to the 32nd.
    pub closed spec fn parts(&self) -> nat {
        self.threshold as nat
    }

    /// The probability of so many parts of 2 to the 32nd.
    pub closed spec fn of(parts: nat) -> Probability {
        Probability { threshold: parts as u64 }
    }

    /// Two equal probabilities are one.
    pub proof fn lemma_ext(a: Probability, b: Probability)
        requires
            a.parts() == b.parts(),
        ensures
            a == b,
    {
    }

    pub proof fn lemma_of(parts: nat)
        requires
            parts <= 0x1_0000_0000,
        ensures
            Probability::of(parts).parts() == parts,
    {
    }

    /// `parts` parts of 2 to the 32nd, or `None` if that is more than one.
    pub fn from_parts(parts: u64) -> (r: Option<Probability>)
        ensures
            match r {
                Some(p) => parts <= 0x1_0000_0000 && p.parts() == parts,
                None => parts > 0x1_0000_0000,
            },
    {
        if parts <= 0x1_0000_0000 {
            Some(Probability { threshold: parts })
        } else {
            None
        }
    }

    /// The probability in parts of 2 to the 32nd.
    pub fn to_parts(&self) -> (r: u64)
        ensures
            r == self.parts(),
    {
        self.threshold
    }

    /// Probability zero.
    pub fn never() -> (r: Probability)
        ensures
            r.parts() == 0,
            r == Probability::of(0),
    {
        Probability { threshold: 0 }
    }

    /// Probability one.
    pub fn always() -> (r: Probability)
        ensures
            r.parts() == 0x1_0000_0000,
    {
        Probability { threshold: 0x1_0000_0000 }
    }

    pub fn is_zero(&self) -> (r: bool)
        ensures
            r == (self.parts() == 0),
    {
        self.threshold == 0
    }

    /// Whether the event happens when `drawn` was drawn.
    pub fn hit(&self, drawn: u32) -> (r: bool)
        ensures
            r == (drawn < self.parts()),
    {
        (drawn as u64) < self.threshold
    }
}

/// A share of `span` that is uniform in `[0, span]` when `drawn` is uniform.
pub open spec fn share(span: nat, drawn: u32) -> nat {
    (span * drawn as nat) / 0xffff_ffff
}

/// A share is never more than the whole, and can be nothing and everything.
pub proof fn law_share_is_within(span: nat, drawn: u32)
    ensures
        share(span, drawn) <= span,
        share(span, 0) == 0,
        share(span, 0xffff_ffff) == span,
{
    assert(span * drawn <= span * 0xffff_ffff) by (nonlinear_arith)
        requires
            0 <= drawn <= 0xffff_ffff,
    ;
    assert((span * 0xffff_ffff) / 0xffff_ffff == span);
    vstd::arithmetic::div_mod::lemma_div_is_ordered(
        (span * drawn) as int,
        (span * 0xffff_ffff) as int,
        0xffff_ffff,
    );
}

} // verus!

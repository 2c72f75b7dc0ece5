//! A deterministic random stream, owned rather than borrowed.
//!
//! A replay re-runs a season's worth of decisions, so the numbers it depends on must not
//! be able to change underneath it. PCG32 is a handful of lines, and every draw is a
//! function of the generator's two words: the contracts below say which.
use vstd::prelude::*;

use vstd::wrapping::u64_specs;

verus! {

/// The LCG multiplier of PCG32.
pub const MULT: u64 = 6_364_136_223_846_793_005;

/// The state after one step: a multiply and an add, both modulo 2^64.
pub open spec fn advance(state: u64, inc: u64) -> u64 {
    u64_specs::wrapping_add(u64_specs::wrapping_mul(state, MULT), inc)
}

/// A 32-bit word rotated right by `r` places (`r < 32`).
pub open spec fn rotate32(x: u32, r: u32) -> u32 {
    if r == 0 {
        x
    } else {
        ((x >> r) | (x << ((32 - r) as u32))) as u32
    }
}

/// What a draw returns from the state it starts in: the xorshifted high bits, rotated by
/// the top five.
pub open spec fn output(old: u64) -> u32 {
    rotate32((((old >> 18u64) ^ old) >> 27u64) as u32, (old >> 59u64) as u32)
}

/// The stream increment a seed selects: always odd.
pub open spec fn stream_of(seed: u64) -> u64 {
    (seed << 1u64) | 1u64
}

/// The two words a generator built from `seed` starts with.
pub open spec fn seeded(seed: u64) -> (u64, u64) {
    let inc = stream_of(seed);
    let first = advance(0, inc);
    (advance(u64_specs::wrapping_add(first, seed), inc), inc)
}

/// The PCG32 generator: a 64-bit state and an odd 64-bit stream increment.
#[derive(Clone, Debug)]
pub struct Pcg32 {
    state: u64,
    inc: u64,
}

impl View for Pcg32 {
    type V = (u64, u64);

    closed spec fn view(&self) -> (u64, u64) {
        (self.state, self.inc)
    }
}

/// A word rotated right by `r` places.
fn rotate_right32(x: u32, r: u32) -> (y: u32)
    requires
        r < 32,
    ensures
        y == rotate32(x, r),
{
    if r == 0 {
        x
    } else {
        (x >> r) | (x << (32 - r))
    }
}

impl Pcg32 {
    /// A generator with a fixed stream, seeded. Two generators built from the same seed
    /// start in the same two words, so they produce identical sequences forever.
    pub fn new(seed: u64) -> (r: Self)
        ensures
            r@ == seeded(seed),
            r@.1 % 2 == 1,
    {
        let inc = (seed << 1) | 1;
        let mut rng = Pcg32 { state: 0, inc };
        rng.next_u32();
        rng.state = rng.state.wrapping_add(seed);
        rng.next_u32();
        proof {
            assert(((seed << 1u64) | 1u64) % 2 == 1) by (bit_vector);
        }
        rng
    }

    /// The next word of the stream: computed from the state this draw starts in, which
    /// then advances by one step.
    pub fn next_u32(&mut self) -> (r: u32)
        ensures
            r == output(old(self)@.0),
            final(self)@ == (advance(old(self)@.0, old(self)@.1), old(self)@.1),
    {
        let old = self.state;
        self.state = old.wrapping_mul(MULT).wrapping_add(self.inc);
        let xorshifted = (((old >> 18) ^ old) >> 27) as u32;
        let rot = (old >> 59) as u32;
        proof {
            assert((old >> 59u64) < 32) by (bit_vector);
        }
        rotate_right32(xorshifted, rot)
    }

    /// A uniform integer in `[0, n)`. Returns 0 when `n` is 0, without drawing, rather than
    /// dividing by zero.
    pub fn below(&mut self, n: u32) -> (r: u32)
        ensures
            n == 0 ==> r == 0 && final(self)@ == old(self)@,
            n > 0 ==> r == output(old(self)@.0) % n && final(self)@ == (
                advance(old(self)@.0, old(self)@.1),
                old(self)@.1,
            ),
            n > 0 ==> r < n,
    {
        if n == 0 {
            0
        } else {
            self.next_u32() % n
        }
    }
}

} // verus!

//! A small deterministic pseudo-random generator.
use vstd::prelude::*;

verus! {

/// The generator's state.
#[derive(Debug, Clone, Copy, PartialEq, Eq, Structural)]
pub struct Rand {
    pub state: u64,
}

/// The state that follows `state`: a linear congruential step modulo 2^64.
pub open spec fn next_state(state: u64) -> u64 {
    ((state * 0xbb2e_fcec_3c39_611d + 0x7590_ef39) % 0x1_0000_0000_0000_0000) as u64
}

/// The output drawn from `state`: the 32 bits that start at the position named by the
/// top three bits.
pub open spec fn output(state: u64) -> u32 {
    (state >> ((29 - (state >> 61)) as u64)) as u32
}

impl Rand {
    /// A generator started from `seed`.
    pub fn new(seed: u64) -> (rand: Rand)
        ensures
            rand.state == seed,
    {
        Rand { state: seed }
    }

    /// Draws the next number.
    pub fn rand_u32(&mut self) -> (value: u32)
        ensures
            final(self).state == next_state(old(self).state),
            value == output(final(self).state),
    {
        let s: u64 = self.state.wrapping_mul(0xbb2e_fcec_3c39_611d).wrapping_add(0x7590_ef39);
        proof {
            let product = self.state * 0xbb2e_fcec_3c39_611d;
            vstd::arithmetic::div_mod::lemma_add_mod_noop(
                product,
                0x7590_ef39,
                0x1_0000_0000_0000_0000,
            );
        }
        self.state = s;
        assert(s >> 61u64 <= 7) by (bit_vector);
        let shift: u64 = 29 - (s >> 61);
        #[verifier::truncate]
        let value: u32 = (s >> shift) as u32;
        value
    }
}

/// The generator is a congruential one: its states go up by the same number, modulo 2^64, where
/// the state before does by one.
pub proof fn law_states_are_congruential(state: u64)
    requires
        state < u64::MAX,
    ensures
        next_state(0) == 0x7590_ef39,
        next_state((state + 1) as u64) == (next_state(state) + 0xbb2e_fcec_3c39_611d)
            % 0x1_0000_0000_0000_0000,
{
    let modulus = 0x1_0000_0000_0000_0000int;
    let step = 0xbb2e_fcec_3c39_611dint;
    let before = state * step + 0x7590_ef39;
    assert((state + 1) * step + 0x7590_ef39 == before + step) by (nonlinear_arith)
        requires
            before == state * step + 0x7590_ef39,
    ;
    vstd::arithmetic::div_mod::lemma_add_mod_noop(before, step, modulus);
    vstd::arithmetic::div_mod::lemma_mod_bound(before, modulus);
    vstd::arithmetic::div_mod::lemma_mod_bound(before + step, modulus);
    vstd::arithmetic::div_mod::lemma_mod_twice(before, modulus);
    vstd::arithmetic::div_mod::lemma_small_mod(step as nat, modulus as nat);
}

/// The number that is drawn is 32 bits of the state, from a place on that its top three bits
/// tell: the higher they are, the lower the place.
pub proof fn law_output_is_a_window_of_the_state(state: u64)
    ensures
        state / 0x2000_0000_0000_0000 == 0 ==> output(state) == state / 0x2000_0000
            % 0x1_0000_0000,
        state / 0x2000_0000_0000_0000 == 1 ==> output(state) == state / 0x1000_0000
            % 0x1_0000_0000,
        state / 0x2000_0000_0000_0000 == 2 ==> output(state) == state / 0x800_0000
            % 0x1_0000_0000,
        state / 0x2000_0000_0000_0000 == 3 ==> output(state) == state / 0x400_0000
            % 0x1_0000_0000,
        state / 0x2000_0000_0000_0000 == 4 ==> output(state) == state / 0x200_0000
            % 0x1_0000_0000,
        state / 0x2000_0000_0000_0000 == 5 ==> output(state) == state / 0x100_0000
            % 0x1_0000_0000,
        state / 0x2000_0000_0000_0000 == 6 ==> output(state) == state / 0x80_0000
            % 0x1_0000_0000,
        state / 0x2000_0000_0000_0000 == 7 ==> output(state) == state / 0x40_0000
            % 0x1_0000_0000,
{
    assert(state >> 61u64 == state / 0x2000_0000_0000_0000) by (bit_vector);
    assert((state >> 29u64) as u32 == state / 0x2000_0000 % 0x1_0000_0000) by (bit_vector);
    assert((state >> 28u64) as u32 == state / 0x1000_0000 % 0x1_0000_0000) by (bit_vector);
    assert((state >> 27u64) as u32 == state / 0x800_0000 % 0x1_0000_0000) by (bit_vector);
    assert((state >> 26u64) as u32 == state / 0x400_0000 % 0x1_0000_0000) by (bit_vector);
    assert((state >> 25u64) as u32 == state / 0x200_0000 % 0x1_0000_0000) by (bit_vector);
    assert((state >> 24u64) as u32 == state / 0x100_0000 % 0x1_0000_0000) by (bit_vector);
    assert((state >> 23u64) as u32 == state / 0x80_0000 % 0x1_0000_0000) by (bit_vector);
    assert((state >> 22u64) as u32 == state / 0x40_0000 % 0x1_0000_0000) by (bit_vector);
}

} // verus!

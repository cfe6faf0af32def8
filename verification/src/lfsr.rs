//! A 16-bit Fibonacci linear-feedback shift register as a source of
//! reproducible bytes.
//!
//! Each draw shifts the register right by one place and feeds the parity of
//! the tap bits 0, 2, 3 and 5 back into bit 15. The byte drawn is the low half
//! of the new register.

use vstd::prelude::*;

verus! {

/// The register that a fresh generator starts from.
pub const START_STATE: u16 = 0xAF23;

/// The bit of `state` whose place value is `unit`, a power of two.
pub open spec fn bit_at(state: u16, unit: nat) -> nat {
    (state as nat / unit) % 2
}

/// The bit fed back by a draw: the parity of the taps at bits 0, 2, 3 and 5.
pub open spec fn feedback(state: u16) -> nat {
    (bit_at(state, 1) + bit_at(state, 4) + bit_at(state, 8) + bit_at(state, 32)) % 2
}

/// The register after one draw: every bit moves one place down and the
/// feedback bit enters at the top.
pub open spec fn step(state: u16) -> u16 {
    (state / 2 + 0x8000 * feedback(state)) as u16
}

/// The byte that a register shows: its low eight bits.
pub open spec fn output(state: u16) -> u8 {
    (state % 256) as u8
}

/// The register after `n` draws.
pub open spec fn advance(state: u16, n: nat) -> u16
    decreases n,
{
    if n == 0 {
        state
    } else {
        step(advance(state, (n - 1) as nat))
    }
}

/// The first `n` bytes drawn from a generator whose register is `state`.
pub open spec fn drawn(state: u16, n: nat) -> Seq<u8> {
    Seq::new(n, |k: int| output(advance(state, (k + 1) as nat)))
}

/// A generator with its register. All of its behaviour is a function of the
/// register, which `@` shows.
#[derive(Clone, Copy, Debug)]
pub struct Lfsr {
    state: u16,
}

impl View for Lfsr {
    type V = u16;

    closed spec fn view(&self) -> u16 {
        self.state
    }
}

impl Lfsr {
    /// A generator at `START_STATE`.
    pub fn new() -> (lfsr: Lfsr)
        ensures
            lfsr@ == START_STATE,
    {
        Lfsr { state: START_STATE }
    }

    /// A generator whose register is `seed`.
    ///
    /// The all-zero register is a fixed point: seeded with 0, the generator
    /// draws zeros forever. Every other seed stays away from it
    /// (`lemma_advance_keeps_nonzero`).
    pub fn with_seed(seed: u16) -> (lfsr: Lfsr)
        ensures
            lfsr@ == seed,
    {
        Lfsr { state: seed }
    }

    /// The register as it stands.
    pub fn state(&self) -> (state: u16)
        ensures
            state == self@,
    {
        self.state
    }
}

/// The register after one draw as the shifts and the exclusive-or of the taps
/// compute it.
spec fn shifted(state: u16) -> u16 {
    let bit = ((state >> 0) ^ (state >> 2) ^ (state >> 3) ^ (state >> 5)) & 1;
    (state >> 1) | (bit << 15)
}

/// The exclusive-or of the taps is their parity, so the shifts compute the
/// step.
proof fn lemma_shift_is_step(state: u16)
    ensures
        shifted(state) == step(state),
{
    assert(shifted(state) == step(state)) by (bit_vector);
}

/// One draw never reaches the all-zero register from another one, and never
/// leaves it.
pub proof fn lemma_step_keeps_nonzero(state: u16)
    ensures
        step(state) == 0 <==> state == 0,
{
    if state == 1 {
        assert(feedback(1) == 1);
    }
}

/// No number of draws reaches the all-zero register from another one.
pub proof fn lemma_advance_keeps_nonzero(state: u16, n: nat)
    ensures
        advance(state, n) == 0 <==> state == 0,
    decreases n,
{
    if n > 0 {
        lemma_advance_keeps_nonzero(state, (n - 1) as nat);
        lemma_step_keeps_nonzero(advance(state, (n - 1) as nat));
    }
}

/// Drawing `m` times and then `n` times is drawing `m + n` times.
pub proof fn lemma_advance_adds(state: u16, m: nat, n: nat)
    ensures
        advance(advance(state, m), n) == advance(state, m + n),
    decreases n,
{
    if n > 0 {
        lemma_advance_adds(state, m, (n - 1) as nat);
    }
}

/// The bytes drawn after `m` draws are the tail of the bytes drawn from the
/// start.
pub proof fn lemma_drawn_skips(state: u16, m: nat, n: nat)
    ensures
        drawn(advance(state, m), n) == drawn(state, m + n).subrange(m as int, (m + n) as int),
{
    assert forall|k: int| 0 <= k < n implies drawn(advance(state, m), n)[k] == drawn(
        state,
        m + n,
    ).subrange(m as int, (m + n) as int)[k] by {
        lemma_advance_adds(state, m, (k + 1) as nat);
    }
    assert(drawn(advance(state, m), n) =~= drawn(state, m + n).subrange(
        m as int,
        (m + n) as int,
    ));
}

/// Two generators with the same register draw the same bytes, however many,
/// and end on the same register.
pub proof fn lemma_equal_seeds_draw_equal_bytes(seed_a: u16, seed_b: u16, n: nat)
    requires
        seed_a == seed_b,
    ensures
        drawn(seed_a, n) == drawn(seed_b, n),
        advance(seed_a, n) == advance(seed_b, n),
{
}

/// Draws the next byte: steps the register once and shows its low half.
pub fn lfsr_fib(lfsr: &mut Lfsr) -> (byte: u8)
    ensures
        final(lfsr)@ == step(old(lfsr)@),
        byte == output(final(lfsr)@),
        final(lfsr)@ == 0 <==> old(lfsr)@ == 0,
{
    let state: u16 = lfsr.state;
    let bit: u16 = ((state >> 0) ^ (state >> 2) ^ (state >> 3) ^ (state >> 5)) & 1;
    proof {
        lemma_shift_is_step(state);
        lemma_step_keeps_nonzero(state);
    }
    let next: u16 = (state >> 1) | (bit << 15);
    lfsr.state = next;
    assert(next & 0xff == next % 256) by (bit_vector);
    (next & 0xff) as u8
}

} // verus!

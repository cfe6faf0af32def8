//! The steps of one benchmark round, and the running totals.
//!
//! A round draws a color and 512 bytes from the generator, packs the bytes
//! into lanes, runs both matchers and compares what they found byte by byte.
//! Reading the clock around the two matchers and printing the totals is left
//! to the caller; everything in between is here.

use crate::lfsr::{
    advance, drawn, lemma_advance_adds, lemma_drawn_skips, lfsr_fib, output, step, Lfsr,
};
use crate::scalar::{lemma_tiled_color_matches, match_fields, my, tile};
use crate::vector::{
    bytes_of, lane_byte_at, lanes_of, lemma_vector_is_scalar_on_bytes, match_bytes, match_lanes,
    vector_color,
};
use vstd::prelude::*;

verus! {

/// The number of rounds of a full benchmark.
pub const BENCHMARK_RUNS: u32 = 100_000;

/// The number of positions to compare for a check of the whole buffer.
pub const FULL_CHECK: usize = 512;

/// The number of positions to compare for a check of the first eight lanes
/// only.
pub const BRIEF_CHECK: usize = 64;

/// The scalar pass over a buffer: each byte matched on its own.
pub open spec fn scalar_masks(color: u8, bytes: Seq<u8>) -> Seq<u8> {
    Seq::new(bytes.len(), |i: int| match_fields(tile(color), bytes[i]) as u8)
}

/// The scalar mask at position `i` is the byte that the lanes hold there.
pub open spec fn agree_at(scalar: Seq<u8>, vector: Seq<u64>, i: int) -> bool {
    scalar[i] == bytes_of(vector)[i]
}

/// The scalar masks and the lanes agree at every position below `n`.
pub open spec fn agree_below(scalar: Seq<u8>, vector: Seq<u64>, n: int) -> bool {
    forall|i: int| 0 <= i < n ==> agree_at(scalar, vector, i)
}

/// For a color of at most 3 the scalar pass computes the scalar mask of every
/// byte.
pub proof fn lemma_scalar_pass_matches(color: u8, bytes: Seq<u8>)
    requires
        color <= 3,
    ensures
        scalar_masks(color, bytes) == match_bytes(color, bytes),
{
    assert forall|i: int| 0 <= i < bytes.len() implies scalar_masks(color, bytes)[i] == match_bytes(
        color,
        bytes,
    )[i] by {
        lemma_tiled_color_matches(color, bytes[i]);
    }
    assert(scalar_masks(color, bytes) =~= match_bytes(color, bytes));
}

/// The two matchers never disagree on a color: whatever the buffer holds, the
/// scalar pass over its bytes and the vector pass over its lanes agree at every
/// position.
pub proof fn lemma_matchers_agree(color: u8, bytes: Seq<u8>)
    requires
        color <= 3,
        bytes.len() % 8 == 0,
    ensures
        agree_below(
            scalar_masks(color, bytes),
            match_lanes(vector_color(color), lanes_of(bytes)),
            bytes.len() as int,
        ),
{
    lemma_scalar_pass_matches(color, bytes);
    lemma_vector_is_scalar_on_bytes(color, bytes);
}

/// A round takes 513 draws in a row: the color comes from the first byte
/// drawn, and the buffer is the 512 bytes after it.
pub proof fn lemma_round_is_one_run_of_draws(state: u16)
    ensures
        output(step(state)) == drawn(state, 513)[0],
        drawn(step(state), 512) == drawn(state, 513).subrange(1, 513),
        advance(step(state), 512) == advance(state, 513),
{
    reveal_with_fuel(advance, 2);
    assert(step(state) == advance(state, 1));
    lemma_drawn_skips(state, 1, 512);
    lemma_advance_adds(state, 1, 512);
}

/// Draws the color of a round: the top two bits of the next byte.
pub fn draw_color(lfsr: &mut Lfsr) -> (color: u8)
    ensures
        final(lfsr)@ == step(old(lfsr)@),
        color == output(final(lfsr)@) / 64,
        color <= 3,
{
    let byte = lfsr_fib(lfsr);
    assert(byte >> 6 == byte / 64 && byte >> 6 <= 3) by (bit_vector);
    byte >> 6
}

/// Draws the buffer of a round: the next 512 bytes, in the order drawn.
pub fn fill_buffer(lfsr: &mut Lfsr) -> (bytes: [u8; 512])
    ensures
        bytes@ == drawn(old(lfsr)@, 512),
        final(lfsr)@ == advance(old(lfsr)@, 512),
{
    let ghost start = lfsr@;
    let mut bytes = [0u8; 512];
    let mut i: usize = 0;
    while i < 512
        invariant
            i <= 512,
            lfsr@ == advance(start, i as nat),
            forall|k: int| 0 <= k < i ==> bytes[k] == output(advance(start, (k + 1) as nat)),
        decreases 512 - i,
    {
        let byte = lfsr_fib(lfsr);
        bytes[i] = byte;
        i += 1;
    }
    assert(bytes@ =~= drawn(start, 512));
    bytes
}

/// Runs the scalar matcher over the buffer, one byte at a time.
pub fn scalar_pass(color: u8, bytes: &[u8; 512]) -> (masks: [u8; 512])
    ensures
        masks@ == scalar_masks(color, bytes@),
        color <= 3 ==> masks@ == match_bytes(color, bytes@),
{
    let mut masks = [0u8; 512];
    let mut i: usize = 0;
    while i < 512
        invariant
            i <= 512,
            forall|k: int| 0 <= k < i ==> masks[k] == match_fields(tile(color), bytes[k]),
        decreases 512 - i,
    {
        masks[i] = my(color, bytes[i]);
        i += 1;
    }
    proof {
        assert(masks@ =~= scalar_masks(color, bytes@));
        if color <= 3 {
            lemma_scalar_pass_matches(color, bytes@);
        }
    }
    masks
}

/// Compares the scalar masks with the bytes of the lanes at the first
/// `checked` positions, 512 at most, and reports the first position at which
/// they differ.
pub fn first_mismatch(scalar: &[u8; 512], vector: &[u64; 64], checked: usize) -> (found: Option<
    usize,
>)
    ensures
        match found {
            Some(i) => i < checked && i < 512 && agree_below(scalar@, vector@, i as int)
                && !agree_at(scalar@, vector@, i as int),
            None => agree_below(
                scalar@,
                vector@,
                if checked < 512 {
                    checked as int
                } else {
                    512
                },
            ),
        },
{
    let mut i: usize = 0;
    while i < checked && i < 512
        invariant
            i <= 512,
            i <= checked,
            agree_below(scalar@, vector@, i as int),
        decreases 512 - i,
    {
        if scalar[i] != lane_byte_at(vector, i) {
            return Some(i);
        }
        i += 1;
    }
    None
}

/// The nanoseconds spent so far in each of the two matchers.
#[derive(Clone, Copy, Debug)]
pub struct Totals {
    pub vector_ns: u128,
    pub scalar_ns: u128,
}

impl Totals {
    /// No time spent yet.
    pub fn new() -> (totals: Totals)
        ensures
            totals.vector_ns == 0,
            totals.scalar_ns == 0,
    {
        Totals { vector_ns: 0, scalar_ns: 0 }
    }

    /// Adds the times of one round. There is no result where a total would
    /// no longer fit its counter.
    pub fn record(self, vector_ns: u128, scalar_ns: u128) -> (next: Option<Totals>)
        ensures
            match next {
                Some(totals) => totals.vector_ns == self.vector_ns + vector_ns && totals.scalar_ns
                    == self.scalar_ns + scalar_ns,
                None => self.vector_ns + vector_ns > u128::MAX || self.scalar_ns + scalar_ns
                    > u128::MAX,
            },
    {
        match (self.vector_ns.checked_add(vector_ns), self.scalar_ns.checked_add(scalar_ns)) {
            (Some(vector_total), Some(scalar_total)) => Some(
                Totals { vector_ns: vector_total, scalar_ns: scalar_total },
            ),
            _ => None,
        }
    }
}

} // verus!

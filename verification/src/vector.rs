//! Matching 512 bytes at once, as 64 lanes of 64 bits.
//!
//! A lane packs eight bytes, byte 0 in its low eight bits. The vector matcher
//! runs the bit formula of the scalar matcher on whole lanes; since no step of
//! the formula carries a bit from one byte into the next, every byte of a lane
//! comes out as the scalar mask of the byte that went in.

use crate::scalar::{
    lemma_tile_is_uniform, lemma_tiled_color_matches, match_fields, match_mask, tile,
};
use vstd::prelude::*;

verus! {

/// The high bit of every 2-bit field of a lane.
pub const HIGHER_BIT_MASK: u64 = 0xaaaa_aaaa_aaaa_aaaa;

/// The low bit of every 2-bit field of a lane.
pub const LOWER_BIT_MASK: u64 = 0x5555_5555_5555_5555;

/// Byte `j` of a lane: the lane divided by 256 to the `j`, modulo 256.
pub open spec fn lane_byte(word: u64, j: nat) -> u8
    recommends
        j < 8,
{
    (if j == 0 {
        word as nat % 256
    } else if j == 1 {
        (word as nat / 0x100) % 256
    } else if j == 2 {
        (word as nat / 0x1_0000) % 256
    } else if j == 3 {
        (word as nat / 0x100_0000) % 256
    } else if j == 4 {
        (word as nat / 0x1_0000_0000) % 256
    } else if j == 5 {
        (word as nat / 0x100_0000_0000) % 256
    } else if j == 6 {
        (word as nat / 0x1_0000_0000_0000) % 256
    } else {
        (word as nat / 0x100_0000_0000_0000) % 256
    }) as u8
}

/// The eight bytes of a lane, byte 0 first.
pub open spec fn lane_bytes(word: u64) -> Seq<u8> {
    Seq::new(8, |j: int| lane_byte(word, j as nat))
}

/// The lane that packs eight bytes, the first one lowest.
pub open spec fn lane_value(bytes: Seq<u8>) -> nat
    recommends
        bytes.len() == 8,
{
    bytes[0] as nat + bytes[1] as nat * 0x100 + bytes[2] as nat * 0x1_0000 + bytes[3] as nat
        * 0x100_0000 + bytes[4] as nat * 0x1_0000_0000 + bytes[5] as nat * 0x100_0000_0000
        + bytes[6] as nat * 0x1_0000_0000_0000 + bytes[7] as nat * 0x100_0000_0000_0000
}

/// The lane whose eight bytes all are `byte`.
pub open spec fn splat(byte: u8) -> u64 {
    (byte * 0x0101_0101_0101_0101) as u64
}

/// The scalar mask of each byte of a sequence.
pub open spec fn match_bytes(color: u8, bytes: Seq<u8>) -> Seq<u8> {
    Seq::new(bytes.len(), |k: int| match_mask(color, bytes[k]) as u8)
}

/// The lane of the scalar masks of the bytes of `word`.
pub open spec fn match_lane(color: u8, word: u64) -> nat {
    lane_value(match_bytes(color, lane_bytes(word)))
}

/// The lane of scalar masks of each lane of a sequence.
pub open spec fn match_lanes(color: u8, lanes: Seq<u64>) -> Seq<u64> {
    Seq::new(lanes.len(), |l: int| match_lane(color, lanes[l]) as u64)
}

/// The lanes that a buffer of bytes packs into, eight bytes to a lane: byte
/// `i` of the buffer is byte `i % 8` of lane `i / 8`.
pub open spec fn lanes_of(bytes: Seq<u8>) -> Seq<u64>
    recommends
        bytes.len() % 8 == 0,
{
    Seq::new(bytes.len() / 8, |l: int| lane_value(bytes.subrange(8 * l, 8 * l + 8)) as u64)
}

/// The bytes that a sequence of lanes holds, in the order of the buffer they
/// were packed from.
pub open spec fn bytes_of(lanes: Seq<u64>) -> Seq<u8> {
    Seq::new(8 * lanes.len(), |i: int| lane_byte(lanes[i / 8], (i % 8) as nat))
}

/// The color that the vector matcher looks for when it is given `color`:
/// anything that is not 1, 2 or 3 selects the empty mask, as 0 does.
pub open spec fn vector_color(color: u8) -> u8 {
    if color <= 3 {
        color
    } else {
        0
    }
}

/// The lane that holds `vector_color(color)` in each of its 32 fields.
pub open spec fn color_word(color: u8) -> u64 {
    if color == 0b11 {
        0xffff_ffff_ffff_ffff
    } else if color == 0b10 {
        0xaaaa_aaaa_aaaa_aaaa
    } else if color == 0b1 {
        0x5555_5555_5555_5555
    } else {
        0
    }
}

/// The bit formula of the matcher on one lane.
spec fn formula(pattern: u64, word: u64) -> u64 {
    let masked = word ^ !pattern;
    masked & HIGHER_BIT_MASK & ((masked & LOWER_BIT_MASK) << 1)
}

/// The formula never moves a bit across a byte boundary: each byte of its
/// result is the mask of the fields in which that byte of the word agrees with
/// that byte of the pattern.
proof fn lemma_formula_acts_bytewise(pattern: u64, word: u64)
    ensures
        forall|j: nat|
            j < 8 ==> #[trigger] lane_byte(formula(pattern, word), j) == match_fields(
                lane_byte(pattern, j),
                lane_byte(word, j),
            ),
{
    assert(lane_byte(formula(pattern, word), 0) == match_fields(
        lane_byte(pattern, 0),
        lane_byte(word, 0),
    )) by (bit_vector);
    assert(lane_byte(formula(pattern, word), 1) == match_fields(
        lane_byte(pattern, 1),
        lane_byte(word, 1),
    )) by (bit_vector);
    assert(lane_byte(formula(pattern, word), 2) == match_fields(
        lane_byte(pattern, 2),
        lane_byte(word, 2),
    )) by (bit_vector);
    assert(lane_byte(formula(pattern, word), 3) == match_fields(
        lane_byte(pattern, 3),
        lane_byte(word, 3),
    )) by (bit_vector);
    assert(lane_byte(formula(pattern, word), 4) == match_fields(
        lane_byte(pattern, 4),
        lane_byte(word, 4),
    )) by (bit_vector);
    assert(lane_byte(formula(pattern, word), 5) == match_fields(
        lane_byte(pattern, 5),
        lane_byte(word, 5),
    )) by (bit_vector);
    assert(lane_byte(formula(pattern, word), 6) == match_fields(
        lane_byte(pattern, 6),
        lane_byte(word, 6),
    )) by (bit_vector);
    assert(lane_byte(formula(pattern, word), 7) == match_fields(
        lane_byte(pattern, 7),
        lane_byte(word, 7),
    )) by (bit_vector);
    assert forall|j: nat| j < 8 implies #[trigger] lane_byte(formula(pattern, word), j)
        == match_fields(lane_byte(pattern, j), lane_byte(word, j)) by {
        assert(j == 0 || j == 1 || j == 2 || j == 3 || j == 4 || j == 5 || j == 6 || j == 7);
    }
}

/// A lane is the lane of its bytes.
pub proof fn lemma_lane_round_trip(word: u64)
    ensures
        lane_value(lane_bytes(word)) == word,
{
    assert(word == lane_byte(word, 0) + lane_byte(word, 1) * 0x100 + lane_byte(word, 2) * 0x1_0000
        + lane_byte(word, 3) * 0x100_0000 + lane_byte(word, 4) * 0x1_0000_0000 + lane_byte(word, 5)
        * 0x100_0000_0000 + lane_byte(word, 6) * 0x1_0000_0000_0000 + lane_byte(word, 7)
        * 0x100_0000_0000_0000) by (bit_vector);
}

/// Eight bytes pack into a lane that fits 64 bits and unpacks into the same
/// eight bytes.
pub proof fn lemma_bytes_round_trip(bytes: Seq<u8>)
    requires
        bytes.len() == 8,
    ensures
        lane_value(bytes) <= u64::MAX,
        lane_bytes(lane_value(bytes) as u64) == bytes,
{
    let (b0, b1, b2, b3) = (bytes[0], bytes[1], bytes[2], bytes[3]);
    let (b4, b5, b6, b7) = (bytes[4], bytes[5], bytes[6], bytes[7]);
    let word = lane_value(bytes) as u64;
    assert(lane_value(bytes) <= u64::MAX);
    assert(lane_byte(word, 0) == b0 && lane_byte(word, 1) == b1 && lane_byte(word, 2) == b2
        && lane_byte(word, 3) == b3 && lane_byte(word, 4) == b4 && lane_byte(word, 5) == b5
        && lane_byte(word, 6) == b6 && lane_byte(word, 7) == b7) by (bit_vector)
        requires
            word == b0 + b1 * 0x100 + b2 * 0x1_0000 + b3 * 0x100_0000 + b4 * 0x1_0000_0000 + b5
                * 0x100_0000_0000 + b6 * 0x1_0000_0000_0000 + b7 * 0x100_0000_0000_0000,
    ;
    assert(lane_bytes(word) =~= bytes);
}

/// Each byte of the lane of scalar masks is the scalar mask of the byte of the
/// word at the same place, and the lane fits 64 bits.
pub proof fn lemma_vector_matches_bytewise(color: u8, word: u64)
    ensures
        match_lane(color, word) <= u64::MAX,
        lane_bytes(match_lane(color, word) as u64) == match_bytes(color, lane_bytes(word)),
        forall|j: nat|
            j < 8 ==> #[trigger] lane_byte(match_lane(color, word) as u64, j) == match_mask(
                color,
                lane_byte(word, j),
            ),
{
    let masks = match_bytes(color, lane_bytes(word));
    lemma_bytes_round_trip(masks);
    assert forall|j: nat| j < 8 implies #[trigger] lane_byte(match_lane(color, word) as u64, j)
        == match_mask(color, lane_byte(word, j)) by {
        assert(lane_bytes(match_lane(color, word) as u64)[j as int] == masks[j as int]);
    }
}

/// The pattern of a color is the color tiled over a byte, repeated over the
/// lane: tiling a color over 64 bits gives one of four fixed words.
pub proof fn lemma_color_word_is_tiled(color: u8)
    requires
        color <= 3,
    ensures
        color_word(color) == splat(tile(color)),
{
    lemma_tile_is_uniform(color);
    if color == 0 {
        assert(splat(0) == 0);
    } else if color == 1 {
        assert(splat(0x55) == 0x5555_5555_5555_5555);
    } else if color == 2 {
        assert(splat(0xaa) == 0xaaaa_aaaa_aaaa_aaaa);
    } else {
        assert(splat(0xff) == 0xffff_ffff_ffff_ffff);
    }
}

/// The formula with the lane of a color for its pattern computes the lane of
/// the scalar masks.
proof fn lemma_formula_is_match_lane(color: u8, word: u64)
    ensures
        formula(color_word(color), word) == match_lane(vector_color(color), word),
{
    let wanted = vector_color(color);
    let pattern = color_word(color);
    let out = formula(pattern, word);
    lemma_formula_acts_bytewise(pattern, word);
    lemma_color_word_is_tiled(wanted);
    lemma_tile_is_uniform(wanted);
    assert forall|j: int| 0 <= j < 8 implies lane_bytes(out)[j] == match_bytes(
        wanted,
        lane_bytes(word),
    )[j] by {
        let at = j as nat;
        assert(lane_byte(pattern, at) == tile(wanted));
        lemma_tiled_color_matches(wanted, lane_byte(word, at));
        assert(lane_byte(out, at) == match_fields(lane_byte(pattern, at), lane_byte(word, at)));
    }
    assert(lane_bytes(out) =~= match_bytes(wanted, lane_bytes(word)));
    lemma_lane_round_trip(out);
}

/// A byte repeated over a lane comes out of the vector matcher as its scalar
/// mask, repeated over the lane.
pub proof fn lemma_splat_matches(color: u8, byte: u8)
    ensures
        match_lane(color, splat(byte)) == splat(match_mask(color, byte) as u8),
{
    let word = splat(byte);
    assert(lane_byte(word, 0) == byte && lane_byte(word, 1) == byte && lane_byte(word, 2) == byte
        && lane_byte(word, 3) == byte && lane_byte(word, 4) == byte && lane_byte(word, 5) == byte
        && lane_byte(word, 6) == byte && lane_byte(word, 7) == byte) by (bit_vector)
        requires
            word == (byte * 0x0101_0101_0101_0101) as u64,
    ;
    let mask = match_mask(color, byte) as u8;
    let masks = match_bytes(color, lane_bytes(word));
    assert forall|j: int| 0 <= j < 8 implies masks[j] == mask by {
        assert(lane_bytes(word)[j] == lane_byte(word, j as nat));
    }
    assert(masks[0] == mask && masks[1] == mask && masks[2] == mask && masks[3] == mask);
    assert(masks[4] == mask && masks[5] == mask && masks[6] == mask && masks[7] == mask);
    assert(lane_value(masks) == mask * 0x0101_0101_0101_0101);
}

/// A scalar mask, repeated over a lane and matched once more against the same
/// color, comes back unchanged exactly for color 2, whose marks look like the
/// color itself, and for the colors 1 and 3 where the mask is empty.
pub proof fn lemma_mask_matched_again(color: u8, byte: u8)
    requires
        color <= 3,
    ensures
        ({
            let mask = match_mask(color, byte) as u8;
            match_lane(color, splat(mask)) == splat(mask) <==> color == 2 || (color != 0 && mask
                == 0)
        }),
{
    let mask = match_mask(color, byte) as u8;
    let again = match_mask(color, mask) as u8;
    lemma_splat_matches(color, mask);
    assert(splat(again) == again * 0x0101_0101_0101_0101);
    assert(splat(mask) == mask * 0x0101_0101_0101_0101);
    assert((match_mask(color, match_mask(color, byte) as u8) == match_mask(color, byte)) == (color
        == 2 || (color != 0 && match_mask(color, byte) == 0))) by (bit_vector)
        requires
            color <= 3,
    ;
}

/// Packing a buffer into lanes loses nothing: the lanes unpack into the
/// buffer.
pub proof fn lemma_pack_round_trip(bytes: Seq<u8>)
    requires
        bytes.len() % 8 == 0,
    ensures
        bytes_of(lanes_of(bytes)) == bytes,
{
    let lanes = lanes_of(bytes);
    assert forall|i: int| 0 <= i < bytes.len() implies bytes_of(lanes)[i] == bytes[i] by {
        let l = i / 8;
        let chunk = bytes.subrange(8 * l, 8 * l + 8);
        lemma_bytes_round_trip(chunk);
        assert(lane_bytes(lanes[l])[i % 8] == chunk[i % 8]);
    }
    assert(bytes_of(lanes) =~= bytes);
}

/// Matching a buffer lane by lane is matching it byte by byte: the lanes of
/// vector masks unpack into the scalar masks of the bytes, for every color.
pub proof fn lemma_vector_is_scalar_on_bytes(color: u8, bytes: Seq<u8>)
    requires
        bytes.len() % 8 == 0,
    ensures
        bytes_of(match_lanes(color, lanes_of(bytes))) == match_bytes(color, bytes),
{
    let lanes = lanes_of(bytes);
    let masks = match_lanes(color, lanes);
    lemma_pack_round_trip(bytes);
    assert forall|i: int| 0 <= i < bytes.len() implies bytes_of(masks)[i] == match_bytes(
        color,
        bytes,
    )[i] by {
        let l = i / 8;
        lemma_vector_matches_bytewise(color, lanes[l]);
        assert(bytes_of(lanes)[i] == lane_byte(lanes[l], (i % 8) as nat));
    }
    assert(bytes_of(masks) =~= match_bytes(color, bytes));
}

/// The vector matcher keeps no state: equal arguments give equal results.
pub proof fn lemma_vector_matcher_is_pure(
    color_a: u8,
    lanes_a: Seq<u64>,
    color_b: u8,
    lanes_b: Seq<u64>,
)
    requires
        color_a == color_b,
        lanes_a == lanes_b,
    ensures
        match_lanes(vector_color(color_a), lanes_a) == match_lanes(vector_color(color_b), lanes_b),
{
}

/// Sixty-four lanes that all hold `x`.
pub fn simd_from_u64(x: u64) -> (lanes: [u64; 64])
    ensures
        forall|l: int| 0 <= l < 64 ==> lanes[l] == x,
{
    [x; 64]
}

/// The lane pattern of a color, before it is spread over the lanes.
fn select_pattern(color: u8) -> (pattern: u64)
    ensures
        pattern == color_word(color),
{
    if color == 0b11 {
        0xffff_ffff_ffff_ffff
    } else if color == 0b10 {
        0xaaaa_aaaa_aaaa_aaaa
    } else if color == 0b1 {
        0x5555_5555_5555_5555
    } else {
        0
    }
}

/// Matches all 512 bytes of `byte` against `color` at once: every byte of
/// every lane of the result is the scalar mask of the byte at the same place.
///
/// A color is a cell value, 0 to 3. Any other value is matched as color 0 is.
pub fn my_simd(color: u8, byte: [u64; 64]) -> (out: [u64; 64])
    ensures
        out@ == match_lanes(vector_color(color), byte@),
        forall|l: int, j: nat|
            0 <= l < 64 && j < 8 ==> #[trigger] lane_byte(out[l], j) == match_mask(
                vector_color(color),
                lane_byte(byte[l], j),
            ),
{
    let color_mask = simd_from_u64(select_pattern(color));
    let mut out = [0u64; 64];
    let mut l: usize = 0;
    while l < 64
        invariant
            l <= 64,
            forall|k: int| 0 <= k < 64 ==> color_mask[k] == color_word(color),
            forall|k: int| 0 <= k < l ==> out[k] == match_lane(vector_color(color), byte[k]),
        decreases 64 - l,
    {
        let masked = byte[l] ^ !color_mask[l];
        proof {
            lemma_formula_is_match_lane(color, byte[l as int]);
        }
        out[l] = masked & HIGHER_BIT_MASK & ((masked & LOWER_BIT_MASK) << 1);
        l += 1;
    }
    proof {
        assert(out@ =~= match_lanes(vector_color(color), byte@));
        assert forall|k: int, j: nat| 0 <= k < 64 && j < 8 implies #[trigger] lane_byte(out[k], j)
            == match_mask(vector_color(color), lane_byte(byte[k], j)) by {
            lemma_vector_matches_bytewise(vector_color(color), byte[k]);
        }
    }
    out
}

/// Packs a buffer into lanes, eight bytes to a lane with the first byte
/// lowest, whatever the byte order of the machine.
pub fn pack_lanes(bytes: &[u8; 512]) -> (lanes: [u64; 64])
    ensures
        lanes@ == lanes_of(bytes@),
        bytes_of(lanes@) == bytes@,
{
    let mut lanes = [0u64; 64];
    let mut l: usize = 0;
    while l < 64
        invariant
            l <= 64,
            forall|k: int| 0 <= k < l ==> lanes[k] == lanes_of(bytes@)[k],
        decreases 64 - l,
    {
        let at = 8 * l;
        let b0 = bytes[at] as u64;
        let b1 = bytes[at + 1] as u64;
        let b2 = bytes[at + 2] as u64;
        let b3 = bytes[at + 3] as u64;
        let b4 = bytes[at + 4] as u64;
        let b5 = bytes[at + 5] as u64;
        let b6 = bytes[at + 6] as u64;
        let b7 = bytes[at + 7] as u64;
        let word = b0 | b1 << 8 | b2 << 16 | b3 << 24 | b4 << 32 | b5 << 40 | b6 << 48 | b7 << 56;
        proof {
            assert(word == b0 + b1 * 0x100 + b2 * 0x1_0000 + b3 * 0x100_0000 + b4 * 0x1_0000_0000
                + b5 * 0x100_0000_0000 + b6 * 0x1_0000_0000_0000 + b7 * 0x100_0000_0000_0000)
                by (bit_vector)
                requires
                    b0 < 256 && b1 < 256 && b2 < 256 && b3 < 256,
                    b4 < 256 && b5 < 256 && b6 < 256 && b7 < 256,
                    word == b0 | b1 << 8 | b2 << 16 | b3 << 24 | b4 << 32 | b5 << 40 | b6 << 48 | b7
                        << 56,
            ;
            let chunk = bytes@.subrange(8 * l as int, 8 * l as int + 8);
            assert(chunk[0] == b0 && chunk[1] == b1 && chunk[2] == b2 && chunk[3] == b3);
            assert(chunk[4] == b4 && chunk[5] == b5 && chunk[6] == b6 && chunk[7] == b7);
        }
        lanes[l] = word;
        l += 1;
    }
    proof {
        assert(lanes@ =~= lanes_of(bytes@));
        lemma_pack_round_trip(bytes@);
    }
    lanes
}

/// Reads byte `i` of the buffer that `lanes` packs: byte `i % 8` of lane
/// `i / 8`.
pub fn lane_byte_at(lanes: &[u64; 64], i: usize) -> (byte: u8)
    requires
        i < 512,
    ensures
        byte == bytes_of(lanes@)[i as int],
{
    let word = lanes[i / 8];
    let shift = 8 * (i % 8);
    let low = (word >> shift) & 0xff;
    proof {
        assert(low == lane_byte(word, (shift / 8) as nat)) by (bit_vector)
            requires
                low == (word >> shift) & 0xff,
                shift == 0 || shift == 8 || shift == 16 || shift == 24 || shift == 32 || shift
                    == 40 || shift == 48 || shift == 56,
        ;
    }
    low as u8
}

} // verus!

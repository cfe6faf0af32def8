//! Matching one byte of four packed 2-bit cells against a color.
//!
//! A byte is read as four fields of two bits each, field 0 being the least
//! significant. A match is reported as a mask: the high bit of a field is set
//! exactly when the field holds the color, and every low bit is clear.

use vstd::prelude::*;

verus! {

/// The value of a one in the low bit of field `i`: 1, 4, 16, 64.
pub open spec fn field_unit(i: nat) -> nat
    recommends
        i < 4,
{
    if i == 0 {
        1
    } else if i == 1 {
        4
    } else if i == 2 {
        16
    } else {
        64
    }
}

/// The cell value, 0 to 3, that `byte` holds in field `i`: the byte divided by
/// `field_unit(i)`, modulo 4.
pub open spec fn field(byte: u8, i: nat) -> nat
    recommends
        i < 4,
{
    if i == 0 {
        byte as nat % 4
    } else if i == 1 {
        (byte as nat / 4) % 4
    } else if i == 2 {
        (byte as nat / 16) % 4
    } else {
        (byte as nat / 64) % 4
    }
}

/// The high bit of field `i` where `hit` holds, nothing otherwise.
pub open spec fn mark(hit: bool, i: nat) -> nat
    recommends
        i < 4,
{
    if hit {
        2 * field_unit(i)
    } else {
        0
    }
}

/// The mask of the fields of `byte` that hold `color`.
///
/// For a color above 3 no field can hold it and the mask is 0.
pub open spec fn match_mask(color: u8, byte: u8) -> nat {
    mark(field(byte, 0) == color, 0) + mark(field(byte, 1) == color, 1) + mark(
        field(byte, 2) == color,
        2,
    ) + mark(field(byte, 3) == color, 3)
}

/// The mask of the fields in which `byte` and `pattern` hold the same cell.
pub open spec fn match_fields(pattern: u8, byte: u8) -> nat {
    mark(field(byte, 0) == field(pattern, 0), 0) + mark(field(byte, 1) == field(pattern, 1), 1)
        + mark(field(byte, 2) == field(pattern, 2), 2) + mark(
        field(byte, 3) == field(pattern, 3),
        3,
    )
}

/// `color` stamped on each of the four field positions of a byte.
///
/// For a color of at most 3 the stamps do not overlap and every field of the
/// result holds the color (`lemma_tile_is_uniform`). A larger color spills into
/// the neighbouring fields, and bits that leave the byte are lost.
pub open spec fn tile(color: u8) -> u8 {
    color << 6 | color << 4 | color << 2 | color
}

/// A cell is what a lone match asks of it: the wanted value in the matching
/// field itself, the bitwise complement of the wanted value in any other.
pub open spec fn lone_cell(want: nat, have: nat, here: bool) -> bool {
    if here {
        have == want
    } else {
        have + want == 3
    }
}

/// Field `i` of `byte` holds `color`, and each other field holds `3 - color`.
pub open spec fn lone_match_at(color: u8, byte: u8, i: nat) -> bool
    recommends
        i < 4,
{
    lone_cell(color as nat, field(byte, 0), i == 0) && lone_cell(
        color as nat,
        field(byte, 1),
        i == 1,
    ) && lone_cell(color as nat, field(byte, 2), i == 2) && lone_cell(
        color as nat,
        field(byte, 3),
        i == 3,
    )
}

/// Exactly one field of `byte` holds `color`, and each of the three others
/// holds the complement `3 - color`.
pub open spec fn lone_match(color: u8, byte: u8) -> bool {
    lone_match_at(color, byte, 0) || lone_match_at(color, byte, 1) || lone_match_at(color, byte, 2)
        || lone_match_at(color, byte, 3)
}

/// `byte` agrees with `pattern` in field `i` and holds the complement of the
/// cell of `pattern` in each other field.
pub open spec fn lone_fields_at(pattern: u8, byte: u8, i: nat) -> bool
    recommends
        i < 4,
{
    lone_cell(field(pattern, 0), field(byte, 0), i == 0) && lone_cell(
        field(pattern, 1),
        field(byte, 1),
        i == 1,
    ) && lone_cell(field(pattern, 2), field(byte, 2), i == 2) && lone_cell(
        field(pattern, 3),
        field(byte, 3),
        i == 3,
    )
}

/// `byte` agrees with `pattern` in exactly one field and is its complement in
/// the three others.
pub open spec fn lone_fields(pattern: u8, byte: u8) -> bool {
    lone_fields_at(pattern, byte, 0) || lone_fields_at(pattern, byte, 1) || lone_fields_at(
        pattern,
        byte,
        2,
    ) || lone_fields_at(pattern, byte, 3)
}

/// The high-bit formula: where both bits of a field of `byte ^ !pattern` are
/// set, the low one is moved up onto the high one.
spec fn marks_up(pattern: u8, byte: u8) -> u8 {
    let masked = byte ^ !pattern;
    masked & 0b10_10_10_10 & ((masked & 0b01_01_01_01) << 1)
}

/// The low-bit formula: the high bit is moved down onto the low one.
spec fn marks_down(pattern: u8, byte: u8) -> u8 {
    let masked = byte ^ !pattern;
    ((masked & 0b10_10_10_10) >> 1) & masked
}

/// The lone-match formula: one field of `byte ^ !pattern` is `0b11` and the
/// rest is clear.
spec fn lone_pair(pattern: u8, byte: u8) -> bool {
    let masked = byte ^ !pattern;
    masked == 0b11 || masked == 0b1100 || masked == 0b110000 || masked == 0b11000000
}

/// A field of `byte ^ !pattern` is `0b11` exactly where the two agree, and
/// clear exactly where one is the complement of the other. So the formulas
/// compute the mask of the agreeing fields, its half, and the lone agreement.
proof fn lemma_formulas_read_fields(pattern: u8, byte: u8)
    ensures
        marks_up(pattern, byte) == match_fields(pattern, byte),
        marks_down(pattern, byte) == match_fields(pattern, byte) / 2,
        lone_pair(pattern, byte) == lone_fields(pattern, byte),
{
    assert(marks_up(pattern, byte) == match_fields(pattern, byte)) by (bit_vector);
    assert(marks_down(pattern, byte) == match_fields(pattern, byte) / 2) by (bit_vector);
    assert(lone_pair(pattern, byte) == lone_fields(pattern, byte)) by (bit_vector);
}

/// A color of at most 3 tiles without overlap: the tiled byte is 85 times the
/// color, and each of its fields holds the color.
pub proof fn lemma_tile_is_uniform(color: u8)
    requires
        color <= 3,
    ensures
        tile(color) == 85 * color,
        forall|i: nat| i < 4 ==> #[trigger] field(tile(color), i) == color,
{
    let tiled = tile(color);
    assert(tiled == 85 * color) by (bit_vector)
        requires
            color <= 3,
            tiled == color << 6 | color << 4 | color << 2 | color,
    ;
    assert forall|i: nat| i < 4 implies #[trigger] field(tiled, i) == color by {
        assert(color == 0 || color == 1 || color == 2 || color == 3);
        assert(i == 0 || i == 1 || i == 2 || i == 3);
    }
}

/// Against a tiled color of at most 3, matching field by field is matching
/// the color, for the mask and for the lone match alike.
pub proof fn lemma_tiled_color_matches(color: u8, byte: u8)
    requires
        color <= 3,
    ensures
        match_fields(tile(color), byte) == match_mask(color, byte),
        lone_fields(tile(color), byte) == lone_match(color, byte),
{
    lemma_tile_is_uniform(color);
    let pattern = tile(color);
    assert(field(pattern, 0) == color && field(pattern, 1) == color && field(pattern, 2) == color
        && field(pattern, 3) == color);
}

/// The mask marks a field in its high bit exactly when the field holds the
/// color, and never sets a low bit: read as a byte, each field of the mask is
/// 2 or 0.
pub proof fn lemma_mask_marks_matching_fields(color: u8, byte: u8)
    ensures
        match_mask(color, byte) <= 0b10_10_10_10,
        forall|i: nat|
            i < 4 ==> #[trigger] field(match_mask(color, byte) as u8, i) == if field(byte, i)
                == color {
                2nat
            } else {
                0nat
            },
{
}

/// The three formulations read the same fields: the low-bit mask is half the
/// high-bit mask, and a lone match is a mask of exactly one mark.
pub proof fn lemma_formulations_agree(color: u8, byte: u8)
    ensures
        2 * (match_mask(color, byte) / 2) == match_mask(color, byte),
        lone_match(color, byte) ==> match_mask(color, byte) == 2 || match_mask(color, byte) == 8
            || match_mask(color, byte) == 32 || match_mask(color, byte) == 128,
{
}

/// The matchers keep no state: equal arguments give equal results.
pub proof fn lemma_scalar_matchers_are_pure(color_a: u8, byte_a: u8, color_b: u8, byte_b: u8)
    requires
        color_a == color_b,
        byte_a == byte_b,
    ensures
        match_mask(color_a, byte_a) == match_mask(color_b, byte_b),
        match_fields(tile(color_a), byte_a) == match_fields(tile(color_b), byte_b),
        lone_match(color_a, byte_a) == lone_match(color_b, byte_b),
        lone_fields(tile(color_a), byte_a) == lone_fields(tile(color_b), byte_b),
{
}

/// Marks the fields of `byte` that hold `color`, in the high bit of each
/// matching field.
///
/// A color is a cell value, 0 to 3. A larger value is tiled as it is and
/// compared field by field with what that leaves in the byte.
pub fn my(color: u8, byte: u8) -> (mask: u8)
    ensures
        mask == match_fields(tile(color), byte),
        color <= 3 ==> mask == match_mask(color, byte),
        color <= 3 ==> forall|i: nat|
            i < 4 ==> #[trigger] field(mask, i) == if field(byte, i) == color {
                2nat
            } else {
                0nat
            },
{
    let color_mask: u8 = color << 6 | color << 4 | color << 2 | color;
    let masked: u8 = byte ^ !color_mask;
    proof {
        lemma_formulas_read_fields(color_mask, byte);
        if color <= 3 {
            lemma_tiled_color_matches(color, byte);
            lemma_mask_marks_matching_fields(color, byte);
        }
    }
    masked & 0b10_10_10_10 & ((masked & 0b01_01_01_01) << 1)
}

/// Marks the fields of `byte` that hold `color`, in the low bit of each
/// matching field: the mask of `my`, one bit lower.
pub fn casey(color: u8, byte: u8) -> (mask: u8)
    ensures
        mask == match_fields(tile(color), byte) / 2,
        color <= 3 ==> mask == match_mask(color, byte) / 2,
{
    let color_mask: u8 = color << 6 | color << 4 | color << 2 | color;
    let masked: u8 = byte ^ !color_mask;
    proof {
        lemma_formulas_read_fields(color_mask, byte);
        if color <= 3 {
            lemma_tiled_color_matches(color, byte);
        }
    }
    (masked & 0b10_10_10_10) >> 1 & masked
}

/// Tells whether `byte` holds `color` in exactly one field and the complement
/// of `color` in the three others.
pub fn modern(color: u8, byte: u8) -> (hit: bool)
    ensures
        hit == lone_fields(tile(color), byte),
        color <= 3 ==> hit == lone_match(color, byte),
{
    let color_mask: u8 = color << 6 | color << 4 | color << 2 | color;
    let masked: u8 = byte ^ !color_mask;
    proof {
        lemma_formulas_read_fields(color_mask, byte);
        if color <= 3 {
            lemma_tiled_color_matches(color, byte);
        }
    }
    masked == 0b11 || masked == 0b1100 || masked == 0b110000 || masked == 0b11000000
}

} // verus!

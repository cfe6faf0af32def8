use color_match::scalar::{casey, modern, my};

fn cell(byte: u8, i: u32) -> u8 {
    (byte >> (2 * i)) & 3
}

#[test]
fn mask_marks_all_four_fields() {
    assert_eq!(my(0b11, 0b11_11_11_11), 0b10_10_10_10);
}

#[test]
fn mask_is_empty_where_no_field_matches() {
    assert_eq!(my(0b00, 0b11_11_11_11), 0b00_00_00_00);
}

#[test]
fn mask_marks_single_fields() {
    assert_eq!(my(1, 0b00_00_00_01), 0b00_00_00_10);
    assert_eq!(my(1, 0b00_00_01_00), 0b00_00_10_00);
    assert_eq!(my(1, 0b00_01_00_00), 0b00_10_00_00);
    assert_eq!(my(1, 0b01_00_00_00), 0b10_00_00_00);
    assert_eq!(my(2, 0b10_01_10_11), 0b10_00_10_00);
    assert_eq!(my(0, 0b00_01_10_00), 0b10_00_00_10);
}

#[test]
fn mask_marks_exactly_the_matching_fields() {
    for color in 0..=3u8 {
        for byte in 0..=255u8 {
            let mask = my(color, byte);
            for i in 0..4 {
                let expected = if cell(byte, i) == color { 2 } else { 0 };
                assert_eq!(cell(mask, i), expected, "color {color} byte {byte} field {i}");
            }
        }
    }
}

#[test]
fn mask_never_sets_a_low_bit() {
    for color in 0..=255u8 {
        for byte in 0..=255u8 {
            assert_eq!(my(color, byte) & 0b01_01_01_01, 0);
        }
    }
}

#[test]
fn mask_of_a_wide_color_compares_with_the_tiled_bits() {
    // 4 tiles to 0b01_01_01_00: fields 1 to 3 are compared with 1, field 0 with 0.
    assert_eq!(my(4, 0b01_01_01_00), 0b10_10_10_10);
    assert_eq!(my(4, 0b01_01_01_01), 0b10_10_10_00);
    assert_eq!(my(4, 0b00_00_00_00), 0b00_00_00_10);
    // 0xff tiles to 0xff and is matched as 3 is.
    for byte in 0..=255u8 {
        assert_eq!(my(0xff, byte), my(3, byte));
    }
}

#[test]
fn casey_marks_the_low_bits() {
    assert_eq!(casey(0b11, 0b11_11_11_11), 0b01_01_01_01);
    assert_eq!(casey(0b00, 0b11_11_11_11), 0);
    assert_eq!(casey(2, 0b10_01_10_11), 0b01_00_01_00);
}

#[test]
fn casey_is_my_one_bit_lower() {
    for color in 0..=255u8 {
        for byte in 0..=255u8 {
            assert_eq!(casey(color, byte), my(color, byte) >> 1);
        }
    }
}

#[test]
fn modern_sees_a_lone_match() {
    // color 2 once, its complement 1 in the three other fields
    assert!(modern(2, 0b01_01_01_10));
    assert!(modern(2, 0b01_01_10_01));
    assert!(modern(2, 0b01_10_01_01));
    assert!(modern(2, 0b10_01_01_01));
    assert!(modern(0, 0b11_11_00_11));
    assert!(modern(3, 0b00_11_00_00));
}

#[test]
fn modern_rejects_everything_else() {
    // no field matches
    assert!(!modern(2, 0b01_01_01_01));
    // two fields match
    assert!(!modern(2, 0b01_01_10_10));
    // all fields match
    assert!(!modern(3, 0b11_11_11_11));
    // one field matches, another is not the complement
    assert!(!modern(2, 0b01_01_00_10));
}

#[test]
fn modern_is_one_match_among_complements() {
    for color in 0..=3u8 {
        for byte in 0..=255u8 {
            let matching = (0..4).filter(|&i| cell(byte, i) == color).count();
            let complements = (0..4).filter(|&i| cell(byte, i) == 3 - color).count();
            assert_eq!(modern(color, byte), matching == 1 && complements == 3);
        }
    }
}

#[test]
fn formulations_agree_on_a_lone_match() {
    for color in 0..=3u8 {
        for byte in 0..=255u8 {
            if modern(color, byte) {
                assert_eq!(my(color, byte).count_ones(), 1);
                assert_eq!(casey(color, byte).count_ones(), 1);
            }
        }
    }
}

#[test]
fn scalar_matchers_give_the_same_answer_twice() {
    for color in 0..=3u8 {
        for byte in 0..=255u8 {
            assert_eq!(my(color, byte), my(color, byte));
            assert_eq!(casey(color, byte), casey(color, byte));
            assert_eq!(modern(color, byte), modern(color, byte));
        }
    }
}

use netwatch::text::{char_is_control, char_is_digit, char_is_whitespace};

#[test]
fn character_classes_agree_with_std() {
    for code in 0..=0x10FFFFu32 {
        if let Some(c) = char::from_u32(code) {
            assert_eq!(char_is_whitespace(c), c.is_whitespace(), "U+{code:04X}");
            assert_eq!(char_is_control(c), c.is_control(), "U+{code:04X}");
            assert_eq!(char_is_digit(c), c.is_ascii_digit(), "U+{code:04X}");
        }
    }
}

use as1115::render::{digit_count, render_ascii, render_digits, render_fixed_point, render_integer};
use as1115::{LETTERS, MINUS_SIGN, NUMBERS};

#[test]
fn integer_cells_are_right_aligned() {
    assert_eq!(render_integer(-42, 10, 4), vec![0, MINUS_SIGN, NUMBERS[4], NUMBERS[2]]);
    assert_eq!(render_integer(9999, 10, 4), vec![NUMBERS[9]; 4]);
    assert_eq!(render_integer(0x1F, 16, 3), vec![0, NUMBERS[1], NUMBERS[15]]);
    assert_eq!(render_integer(-7, 10, 1), vec![NUMBERS[7]]);
}

#[test]
fn digits_most_significant_first() {
    assert_eq!(render_digits(0, 10), vec![NUMBERS[0]]);
    assert_eq!(render_digits(305, 10), vec![NUMBERS[3], NUMBERS[0], NUMBERS[5]]);
    assert_eq!(render_digits(0xC0DE, 16), vec![NUMBERS[12], NUMBERS[0], NUMBERS[13], NUMBERS[14]]);
    assert_eq!(render_digits(u32::MAX, 10).len(), 10);
}

#[test]
fn digit_counts() {
    assert_eq!(digit_count(0, 10), 1);
    assert_eq!(digit_count(9, 10), 1);
    assert_eq!(digit_count(10, 10), 2);
    assert_eq!(digit_count(u32::MAX, 10), 10);
    assert_eq!(digit_count(0xFF, 16), 2);
    assert_eq!(digit_count(u32::MAX, 16), 8);
}

#[test]
fn fixed_point_cells() {
    assert_eq!(render_fixed_point(false, 15, 1), vec![NUMBERS[1] | 0x80, NUMBERS[5]]);
    assert_eq!(
        render_fixed_point(true, 7, 3),
        vec![MINUS_SIGN, NUMBERS[0] | 0x80, NUMBERS[0], NUMBERS[0], NUMBERS[7]]
    );
    assert_eq!(
        render_fixed_point(false, 12345, 2),
        vec![NUMBERS[1], NUMBERS[2], NUMBERS[3] | 0x80, NUMBERS[4], NUMBERS[5]]
    );
}

#[test]
fn ascii_cells() {
    assert_eq!(render_ascii(b"Hi.", 8), vec![LETTERS[7], LETTERS[8] | 0x80]);
    assert_eq!(render_ascii(b"1.2.3", 2), vec![NUMBERS[1] | 0x80, NUMBERS[2] | 0x80]);
    assert_eq!(render_ascii(b"-- ok --", 8), vec![LETTERS[14], LETTERS[10]]);
    assert_eq!(render_ascii(b"abc", 0), Vec::<u8>::new());
}

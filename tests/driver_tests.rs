use as1115::register;
use as1115::{ascii_to_segment, AS1115Error, Bus, AS1115, LETTERS, MINUS_SIGN, NUMBERS};
use embedded_hal::i2c::ErrorKind;

/// One completed transaction: the address, the bytes written and, for a
/// combined write-then-read, the byte read back.
#[derive(Debug, PartialEq)]
enum Seen {
    Write(u8, Vec<u8>),
    Read(u8, Vec<u8>, u8),
}

/// A bus that records what it is asked to do, answers reads from a queue and
/// can be told to fail from a given transaction on.
struct Recorder {
    seen: Vec<Seen>,
    replies: Vec<u8>,
    fail_from: Option<usize>,
}

impl Recorder {
    fn new() -> Self {
        Recorder { seen: Vec::new(), replies: Vec::new(), fail_from: None }
    }

    fn replying(replies: &[u8]) -> Self {
        Recorder { seen: Vec::new(), replies: replies.to_vec(), fail_from: None }
    }

    fn failing_from(n: usize) -> Self {
        Recorder { seen: Vec::new(), replies: Vec::new(), fail_from: Some(n) }
    }

    fn fails_now(&self) -> bool {
        matches!(self.fail_from, Some(n) if self.seen.len() >= n)
    }
}

impl Bus for Recorder {
    type Error = ErrorKind;

    fn write(&mut self, address: u8, bytes: &[u8]) -> Result<(), ErrorKind> {
        if self.fails_now() {
            return Err(ErrorKind::Bus);
        }
        self.seen.push(Seen::Write(address, bytes.to_vec()));
        Ok(())
    }

    fn write_read(&mut self, address: u8, bytes: &[u8], buffer: &mut [u8]) -> Result<(), ErrorKind> {
        if self.fails_now() {
            return Err(ErrorKind::Bus);
        }
        let reply = if self.replies.is_empty() { 0 } else { self.replies.remove(0) };
        buffer[0] = reply;
        self.seen.push(Seen::Read(address, bytes.to_vec(), reply));
        Ok(())
    }
}

fn w(address: u8, register: u8, value: u8) -> Seen {
    Seen::Write(address, vec![register, value])
}

fn digit(address: u8, index: u8, value: u8) -> Seen {
    w(address, register::DIGIT_OFFSET + index, value)
}

fn four(bus: Recorder) -> AS1115<Recorder, 4> {
    AS1115::new(bus)
}

#[test]
fn ascii_glyphs_come_from_the_tables() {
    assert_eq!(ascii_to_segment(b'0'), 0x7E);
    assert_eq!(ascii_to_segment(b'9'), 0x7B);
    assert_eq!(ascii_to_segment(b'a'), 0x77);
    assert_eq!(ascii_to_segment(b'A'), 0x77);
    assert_eq!(ascii_to_segment(b'z'), 0x25);
    assert_eq!(ascii_to_segment(b'Z'), 0x25);
    assert_eq!(ascii_to_segment(b'!'), 0);
    assert_eq!(ascii_to_segment(b'.'), 0);
    assert_eq!(ascii_to_segment(b' '), 0);
}

#[test]
fn init_at_factory_address() {
    let mut display = four(Recorder::new());
    assert!(display.init(3).is_ok());
    assert_eq!(
        display.i2c.seen,
        vec![w(0, 0x0C, 0x01), w(0, 0x09, 0x00), w(0, 0x0B, 3), w(0, 0x0A, 3)]
    );
    assert_eq!(display.digit_intensity(2), Some(3));
}

#[test]
fn init_at_own_address_enables_self_addressing() {
    let mut display: AS1115<Recorder, 3> = AS1115::new_with_addr(Recorder::new(), 0x03);
    assert!(display.init(7).is_ok());
    assert_eq!(
        display.i2c.seen,
        vec![
            w(0, 0x0C, 0x01),
            w(0, 0x2D, 0x01),
            w(3, 0x09, 0x00),
            w(3, 0x0B, 2),
            w(3, 0x0A, 7),
        ]
    );
}

#[test]
fn init_rejects_intensity_before_any_write() {
    let mut display = four(Recorder::new());
    assert!(matches!(display.init(16), Err(AS1115Error::InvalidValue)));
    assert!(display.i2c.seen.is_empty());
}

#[test]
fn init_stops_at_first_bus_failure() {
    let mut display = four(Recorder::failing_from(2));
    assert!(matches!(display.init(5), Err(AS1115Error::I2cError(ErrorKind::Bus))));
    assert_eq!(display.i2c.seen, vec![w(0, 0x0C, 0x01), w(0, 0x09, 0x00)]);
    assert_eq!(display.digit_intensity(0), Some(0));
}

#[test]
fn clear_blanks_every_digit_in_order() {
    let mut display = four(Recorder::new());
    assert!(display.clear().is_ok());
    assert_eq!(
        display.i2c.seen,
        vec![digit(0, 0, 0), digit(0, 1, 0), digit(0, 2, 0), digit(0, 3, 0)]
    );
}

#[test]
fn negative_decimal_layout() {
    let mut display = four(Recorder::new());
    assert!(display.display_value(-42).is_ok());
    assert_eq!(
        display.i2c.seen,
        vec![
            digit(0, 3, NUMBERS[2]),
            digit(0, 2, NUMBERS[4]),
            digit(0, 1, MINUS_SIGN),
            digit(0, 0, 0),
        ]
    );
}

#[test]
fn zero_shows_one_digit() {
    let mut display = four(Recorder::new());
    assert!(display.display_value(0).is_ok());
    assert_eq!(
        display.i2c.seen,
        vec![digit(0, 3, NUMBERS[0]), digit(0, 2, 0), digit(0, 1, 0), digit(0, 0, 0)]
    );
}

#[test]
fn decimal_out_of_range_writes_nothing() {
    let mut display = four(Recorder::new());
    assert!(matches!(display.display_value(10000), Err(AS1115Error::InvalidValue)));
    assert!(matches!(display.display_value(i32::MIN), Err(AS1115Error::InvalidValue)));
    assert!(matches!(display.display_value(i32::MAX), Err(AS1115Error::InvalidValue)));
    assert!(display.i2c.seen.is_empty());
}

#[test]
fn single_digit_bounds() {
    let mut display: AS1115<Recorder, 1> = AS1115::new(Recorder::new());
    assert!(display.display_value(9).is_ok());
    assert!(display.display_value(10).is_err());
    assert!(display.display_value(-9).is_ok());
    assert!(display.display_value(-10).is_err());
    assert!(display.display_hex_value(15).is_ok());
    assert!(display.display_hex_value(16).is_err());
    // no room for a sign: the bare digit is shown
    assert_eq!(display.i2c.seen.last(), Some(&digit(0, 0, NUMBERS[15])));
}

#[test]
fn eight_digit_bounds() {
    let mut display: AS1115<Recorder, 8> = AS1115::new(Recorder::new());
    assert!(display.display_value(99_999_999).is_ok());
    assert!(display.display_value(100_000_000).is_err());
    assert!(display.display_value(-9_999_999).is_ok());
    assert!(display.display_value(-10_000_000).is_err());
    assert!(display.display_hex_value(i32::MAX).is_ok());
    assert!(display.display_hex_value(-0xFFF_FFFF).is_ok());
    assert!(display.display_hex_value(-0x1000_0000).is_err());
}

#[test]
fn hex_layout_uses_letter_glyphs() {
    let mut display = four(Recorder::new());
    assert!(display.display_hex_value(-0xAB).is_ok());
    assert_eq!(
        display.i2c.seen,
        vec![
            digit(0, 3, NUMBERS[11]),
            digit(0, 2, NUMBERS[10]),
            digit(0, 1, MINUS_SIGN),
            digit(0, 0, 0),
        ]
    );
    assert_eq!(NUMBERS[10], LETTERS[0]);
    assert_eq!(NUMBERS[15], LETTERS[5]);
}

#[test]
fn ascii_skips_unmapped_and_folds_points() {
    let mut display = four(Recorder::new());
    assert!(display.display_ascii(b"A.!b").is_ok());
    assert_eq!(display.i2c.seen, vec![digit(0, 0, LETTERS[0] | 0x80), digit(0, 1, LETTERS[1])]);
}

#[test]
fn ascii_truncates_to_the_digits() {
    let mut display = four(Recorder::new());
    assert!(display.display_ascii(b"abcdef").is_ok());
    assert_eq!(
        display.i2c.seen,
        vec![
            digit(0, 0, LETTERS[0]),
            digit(0, 1, LETTERS[1]),
            digit(0, 2, LETTERS[2]),
            digit(0, 3, LETTERS[3]),
        ]
    );
}

#[test]
fn ascii_of_nothing_mapped_writes_nothing() {
    let mut display = four(Recorder::new());
    assert!(display.display_ascii(b"...!?").is_ok());
    assert!(display.display_ascii(b"").is_ok());
    assert!(display.i2c.seen.is_empty());
}

#[test]
fn raw_segments_truncate() {
    let mut display = four(Recorder::new());
    assert!(display.display_segments(&[1, 2, 3, 4, 5, 6]).is_ok());
    assert_eq!(
        display.i2c.seen,
        vec![digit(0, 0, 1), digit(0, 1, 2), digit(0, 2, 3), digit(0, 3, 4)]
    );
}

#[test]
fn fixed_point_layouts() {
    let mut display = four(Recorder::new());
    // 1.5 with one decimal
    assert!(display.display_fixed_point(false, 1, 15, 1).is_ok());
    assert_eq!(display.i2c.seen, vec![digit(0, 3, NUMBERS[5]), digit(0, 2, NUMBERS[1] | 0x80)]);

    // 0.05 with two decimals
    let mut display = four(Recorder::new());
    assert!(display.display_fixed_point(false, 0, 5, 2).is_ok());
    assert_eq!(
        display.i2c.seen,
        vec![digit(0, 3, NUMBERS[5]), digit(0, 2, NUMBERS[0]), digit(0, 1, NUMBERS[0] | 0x80)]
    );

    // -1.5 with one decimal
    let mut display = four(Recorder::new());
    assert!(display.display_fixed_point(true, 1, 15, 1).is_ok());
    assert_eq!(
        display.i2c.seen,
        vec![digit(0, 3, NUMBERS[5]), digit(0, 2, NUMBERS[1] | 0x80), digit(0, 1, MINUS_SIGN)]
    );
}

#[test]
fn fixed_point_rounding_carry() {
    let mut display = four(Recorder::new());
    // 9.9999 to three decimals is 10.000: five slots, one too many
    assert!(matches!(display.display_fixed_point(false, 9, 10000, 3), Err(AS1115Error::InvalidValue)));
    // -9.9999 to two decimals is -10.00: five slots, one too many
    assert!(matches!(display.display_fixed_point(true, 9, 1000, 2), Err(AS1115Error::InvalidValue)));
    assert!(display.i2c.seen.is_empty());
    // 9.9999 to two decimals is 10.00, which fits
    assert!(display.display_fixed_point(false, 9, 1000, 2).is_ok());
    assert_eq!(
        display.i2c.seen,
        vec![
            digit(0, 3, NUMBERS[0]),
            digit(0, 2, NUMBERS[0]),
            digit(0, 1, NUMBERS[0] | 0x80),
            digit(0, 0, NUMBERS[1]),
        ]
    );
}

#[test]
fn fixed_point_precision_bounds() {
    let mut display = four(Recorder::new());
    assert!(display.display_fixed_point(false, 0, 0, 0).is_err());
    assert!(display.display_fixed_point(false, 0, 0, 1).is_ok());
    assert!(display.display_fixed_point(false, 0, 0, 3).is_ok());
    assert!(display.display_fixed_point(false, 0, 0, 4).is_err());
    assert!(display.display_fixed_point(false, 123, 1230, 1).is_ok());
    assert!(display.display_fixed_point(true, 123, 1230, 1).is_err());
}

#[test]
fn digit_intensity_keeps_the_sibling() {
    let mut display = four(Recorder::new());
    assert!(display.set_digit_intensity(0, 5).is_ok());
    assert!(display.set_digit_intensity(1, 9).is_ok());
    assert_eq!(display.digit_intensity(0), Some(5));
    assert_eq!(display.digit_intensity(1), Some(9));
    assert_eq!(display.i2c.seen, vec![w(0, 0x10, 0x05), w(0, 0x10, 0x95)]);
}

#[test]
fn digit_intensity_after_global_intensity() {
    let mut display = four(Recorder::new());
    assert!(display.set_intensity(3).is_ok());
    assert!(display.set_digit_intensity(3, 7).is_ok());
    assert!(display.set_digit_intensity(2, 1).is_ok());
    assert_eq!(display.i2c.seen, vec![w(0, 0x0A, 3), w(0, 0x11, 0x73), w(0, 0x11, 0x71)]);
}

#[test]
fn failed_intensity_write_keeps_the_shadow() {
    let mut display = four(Recorder::failing_from(1));
    assert!(display.set_digit_intensity(0, 4).is_ok());
    assert!(matches!(display.set_digit_intensity(0, 9), Err(AS1115Error::I2cError(_))));
    assert!(matches!(display.set_intensity(2), Err(AS1115Error::I2cError(_))));
    assert_eq!(display.digit_intensity(0), Some(4));
    assert_eq!(display.digit_intensity(1), Some(0));
}

#[test]
fn invalid_locations_carry_the_index() {
    let mut display = four(Recorder::new());
    assert!(matches!(display.set_digit_segment_data(4, 1), Err(AS1115Error::InvalidLocation(4))));
    assert!(matches!(display.set_digit_value(7, 1), Err(AS1115Error::InvalidLocation(7))));
    assert!(matches!(display.set_digit_hex_value(200, 1), Err(AS1115Error::InvalidLocation(200))));
    assert!(matches!(display.set_digit_ascii_char(9, b'a'), Err(AS1115Error::InvalidLocation(9))));
    assert!(matches!(display.set_digit_intensity(4, 1), Err(AS1115Error::InvalidLocation(4))));
    assert!(matches!(display.set_digit_intensity(8, 99), Err(AS1115Error::InvalidLocation(8))));
    assert_eq!(display.digit_intensity(4), None);
    assert!(display.i2c.seen.is_empty());
}

#[test]
fn invalid_values_write_nothing() {
    let mut display = four(Recorder::new());
    assert!(matches!(display.set_digit_value(0, 10), Err(AS1115Error::InvalidValue)));
    assert!(matches!(display.set_digit_hex_value(0, 16), Err(AS1115Error::InvalidValue)));
    assert!(matches!(display.set_digit_ascii_char(0, b'#'), Err(AS1115Error::InvalidValue)));
    assert!(matches!(display.set_intensity(16), Err(AS1115Error::InvalidValue)));
    assert!(matches!(display.set_digit_intensity(0, 16), Err(AS1115Error::InvalidValue)));
    assert!(display.i2c.seen.is_empty());
}

#[test]
fn single_digit_setters() {
    let mut display = four(Recorder::new());
    assert!(display.set_digit_value(0, 9).is_ok());
    assert!(display.set_digit_hex_value(1, 12).is_ok());
    assert!(display.set_digit_ascii_char(2, b'h').is_ok());
    assert!(display.set_digit_segment_data(3, 0xFF).is_ok());
    assert_eq!(
        display.i2c.seen,
        vec![
            digit(0, 0, NUMBERS[9]),
            digit(0, 1, NUMBERS[12]),
            digit(0, 2, LETTERS[7]),
            digit(0, 3, 0xFF),
        ]
    );
}

#[test]
fn keys_at_factory_address() {
    let mut display = four(Recorder::replying(&[0xFF, 0x12]));
    assert_eq!(display.read_keys().ok(), Some(0xFF12));
    assert_eq!(
        display.i2c.seen,
        vec![Seen::Read(0, vec![0x1C], 0xFF), Seen::Read(0, vec![0x1D], 0x12)]
    );
}

#[test]
fn keys_away_from_factory_address_are_masked() {
    let mut display: AS1115<Recorder, 4> =
        AS1115::new_with_addr(Recorder::replying(&[0xFF, 0x12]), 0x02);
    assert_eq!(display.read_keys().ok(), Some(0x3F12));
}

#[test]
fn keys_report_bus_failure() {
    let mut display = four(Recorder::failing_from(1));
    assert!(matches!(display.read_keys(), Err(AS1115Error::I2cError(ErrorKind::Bus))));
    assert_eq!(display.i2c.seen.len(), 1);
}

#[test]
fn display_test_keeps_other_bits() {
    let mut display = four(Recorder::replying(&[0x40, 0x41]));
    assert!(display.set_display_test(true).is_ok());
    assert!(display.set_display_test(false).is_ok());
    assert_eq!(
        display.i2c.seen,
        vec![
            Seen::Read(0, vec![0x0F], 0x40),
            w(0, 0x0F, 0x41),
            Seen::Read(0, vec![0x0F], 0x41),
            w(0, 0x0F, 0x40),
        ]
    );
}

#[test]
fn rset_diagnostics_read_their_bits() {
    let mut display = four(Recorder::replying(&[0x20, 0x20, 0x40, 0x40]));
    assert_eq!(display.rset_test_open().ok(), Some(true));
    assert_eq!(display.rset_test_short().ok(), Some(false));
    assert_eq!(display.rset_test_open().ok(), Some(false));
    assert_eq!(display.rset_test_short().ok(), Some(true));
}

#[test]
fn bus_failure_stops_rendering() {
    let mut display = four(Recorder::failing_from(1));
    assert!(matches!(display.display_value(1234), Err(AS1115Error::I2cError(ErrorKind::Bus))));
    assert_eq!(display.i2c.seen, vec![digit(0, 3, NUMBERS[4])]);
}

#[test]
fn destroy_hands_back_the_bus() {
    let mut display = four(Recorder::new());
    assert!(display.set_digit_value(0, 1).is_ok());
    let bus = display.destroy();
    assert_eq!(bus.seen, vec![digit(0, 0, NUMBERS[1])]);
}

#[test]
fn bus_errors_convert_into_driver_errors() {
    let error: AS1115Error<ErrorKind> = ErrorKind::Overrun.into();
    assert!(matches!(error, AS1115Error::I2cError(ErrorKind::Overrun)));
}

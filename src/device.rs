use vstd::prelude::*;

use vstd::arithmetic::power::*;

use crate::bus::{lemma_stopped_within, register_read, register_write, stopped_in, Bus, Transfer};
use crate::constants::{DEFAULT_ADDRESS, MAX_DIGITS, MAX_INTENSITY};
use crate::font::{ascii_to_segment, glyph, numeral, numeral_segments};
use crate::register::display_test_mode::{DISP_TEST, RSET_OPEN, RSET_SHORT};
use crate::register::{
    DECODE_MODE, DIG01_INTENSITY, DIGIT_OFFSET, DISPLAY_TEST_MODE, GLOBAL_INTENSITY, KEY_A, KEY_B,
    SCAN_LIMIT, SELF_ADDRESSING, SHUTDOWN_MODE,
};
use crate::register::decode_mode::NO_DECODE;
use crate::register::self_addressing::USER_SET_ADDR;
use crate::register::shutdown_mode::{NORMAL_OPERATION, RESET_FEATURE};
use crate::render::{
    ascii_layout, digit_count, fits, fixed_point_fits, fixed_point_layout, integer_layout,
    lemma_ascii_layout_len, lemma_fixed_point_len, lemma_pow_bound, max_signed, max_unsigned,
    render_ascii, render_fixed_point, render_integer,
};

verus! {

/// What can go wrong in a driver operation.
#[derive(Clone, Copy, Debug)]
pub enum AS1115Error<E> {
    /// The bus reported a failed transaction.
    I2cError(E),
    /// A numeric argument is out of range for its target.
    InvalidValue,
    /// A digit index is not below the digit count.
    InvalidLocation(u8),
}

impl<E> From<E> for AS1115Error<E> {
    fn from(error: E) -> (r: Self)
        ensures
            r == AS1115Error::I2cError(error),
    {
        AS1115Error::I2cError(error)
    }
}

impl<E> vstd::std_specs::convert::FromSpecImpl<E> for AS1115Error<E> {
    open spec fn obeys_from_spec() -> bool {
        true
    }

    open spec fn from_spec(error: E) -> Self {
        AS1115Error::I2cError(error)
    }
}

/// Outcome of an operation that puts `plan` on the bus: it succeeds with the
/// whole plan completed, or fails with a bus error part way through.
pub open spec fn carried_out<E>(
    r: Result<(), AS1115Error<E>>,
    before: Seq<Transfer>,
    after: Seq<Transfer>,
    plan: Seq<Transfer>,
) -> bool {
    match r {
        Ok(_) => after == before + plan,
        Err(AS1115Error::I2cError(_)) => stopped_in(before, after, plan),
        Err(_) => false,
    }
}

/// Writing the segment byte `value` into the data register of `digit`.
pub open spec fn digit_write(address: u8, digit: int, value: u8) -> Transfer {
    register_write(address, (DIGIT_OFFSET + digit) as u8, value)
}

/// Writing `cells` into the digits `first`, `first + 1`, ... in that order.
pub open spec fn ascending_writes(address: u8, first: int, cells: Seq<u8>) -> Seq<Transfer> {
    Seq::new(cells.len(), |j: int| digit_write(address, first + j, cells[j]))
}

/// Writing `cells` into the digits `first`, `first + 1`, ..., the last digit
/// first.
pub open spec fn descending_writes(address: u8, first: int, cells: Seq<u8>) -> Seq<Transfer> {
    Seq::new(
        cells.len(),
        |j: int| digit_write(address, first + cells.len() - 1 - j, cells[cells.len() - 1 - j]),
    )
}

/// Writing `cells` right-aligned on a display of `digits` slots, the last
/// digit first.
pub open spec fn right_aligned_writes(address: u8, digits: int, cells: Seq<u8>) -> Seq<Transfer> {
    descending_writes(address, digits - cells.len(), cells)
}

/// Byte of the paired intensity register that holds `digit`, from the
/// intensities `shadow`: the even digit of the pair in the low nibble, the odd
/// one in the high nibble.
pub open spec fn paired_intensity(shadow: Seq<u8>, digit: int) -> u8 {
    let even = digit - digit % 2;
    (16 * shadow[even + 1] + shadow[even]) as u8
}

/// The start-up sequence: wake the chip at the factory address (resetting its
/// feature register), switch it to its own address when that differs, then at
/// that address turn hardware decoding off, scan `digits` digits and set the
/// global intensity.
pub open spec fn init_plan(address: u8, digits: u8, intensity: u8) -> Seq<Transfer> {
    seq![register_write(DEFAULT_ADDRESS, SHUTDOWN_MODE, NORMAL_OPERATION | RESET_FEATURE)] + (
    if address != DEFAULT_ADDRESS {
        seq![register_write(DEFAULT_ADDRESS, SELF_ADDRESSING, USER_SET_ADDR)]
    } else {
        Seq::empty()
    }) + seq![
        register_write(address, DECODE_MODE, NO_DECODE),
        register_write(address, SCAN_LIMIT, (digits - 1) as u8),
        register_write(address, GLOBAL_INTENSITY, intensity),
    ]
}

/// The key bitmask from the two key registers, the first in the high byte and
/// the second in the low byte. Away from the factory address the top two bits
/// of the first register are cleared: those pins then select the address.
pub open spec fn key_state(address: u8, key_a: u8, key_b: u8) -> u16 {
    let high = if address != DEFAULT_ADDRESS {
        key_a & 0x3F
    } else {
        key_a
    };
    (high * 256 + key_b) as u16
}

/// The intensity nibble of `digit` in the paired register byte `byte`.
pub open spec fn nibble(byte: u8, digit: int) -> u8 {
    if digit % 2 == 0 {
        byte % 16
    } else {
        byte / 16
    }
}

/// The digit that shares a paired intensity register with `digit`.
pub open spec fn sibling(digit: int) -> int {
    if digit % 2 == 0 {
        digit + 1
    } else {
        digit - 1
    }
}

/// Setting the intensity of one digit leaves its pair sibling alone: the
/// sibling keeps its intensity in the shadow, and the byte for the shared
/// register holds that intensity in the sibling's nibble and the new one in
/// the digit's own.
pub proof fn lemma_sibling_kept(shadow: Seq<u8>, digit: int, intensity: u8)
    requires
        shadow.len() == MAX_DIGITS,
        forall|i: int| 0 <= i < MAX_DIGITS ==> #[trigger] shadow[i] <= MAX_INTENSITY,
        0 <= digit < MAX_DIGITS,
        intensity <= MAX_INTENSITY,
    ensures
        shadow.update(digit, intensity)[sibling(digit)] == shadow[sibling(digit)],
        nibble(paired_intensity(shadow.update(digit, intensity), digit), digit) == intensity,
        nibble(paired_intensity(shadow.update(digit, intensity), digit), sibling(digit))
            == shadow[sibling(digit)],
{
    let s = sibling(digit);
    assert(shadow[s] <= 15);
}

/// Away from the factory address the top two bits of the first key register
/// never show in the key bitmask; otherwise both registers show whole.
pub proof fn lemma_keys_masked(address: u8, key_a: u8, key_b: u8)
    ensures
        address != DEFAULT_ADDRESS ==> key_state(address, key_a, key_b) / 256 == key_a % 64,
        address != DEFAULT_ADDRESS ==> key_state(address, key_a, key_b) < 0x4000,
        address == DEFAULT_ADDRESS ==> key_state(address, key_a, key_b) / 256 == key_a,
        key_state(address, key_a, key_b) % 256 == key_b,
{
    assert(key_a & 0x3F == key_a % 64) by (bit_vector);
}

/// The display-test register `value` with the display test on or off.
pub open spec fn test_mode(value: u8, enable: bool) -> u8 {
    if enable {
        value | DISP_TEST
    } else {
        value & !DISP_TEST
    }
}

/// Driver of a seven-segment display controller with `NUM_DIGITS` digits,
/// reached over the bus `I2C`.
pub struct AS1115<I2C, const NUM_DIGITS: u8> {
    pub i2c: I2C,
    pub address: u8,
    /// Last intensity written for each digit: the paired intensity registers
    /// cannot be read back, so this is the only record of the sibling nibble.
    intensity: [u8; 8],
}

/// What a driver holds, as its contracts see it.
pub struct DeviceView {
    /// Bus address of the chip.
    pub address: u8,
    /// Intensity last written for each of the eight digit slots.
    pub shadow: Seq<u8>,
}

impl<I2C, const NUM_DIGITS: u8> View for AS1115<I2C, NUM_DIGITS> {
    type V = DeviceView;

    closed spec fn view(&self) -> DeviceView {
        DeviceView { address: self.address, shadow: self.intensity@ }
    }
}

impl<I2C: Bus, const NUM_DIGITS: u8> AS1115<I2C, NUM_DIGITS> {
    /// The bus the driver owns.
    pub closed spec fn bus(&self) -> I2C {
        self.i2c
    }

    /// The digit count is one to eight and every intensity fits in four bits.
    pub open spec fn wf(&self) -> bool {
        &&& 1 <= NUM_DIGITS <= MAX_DIGITS
        &&& self@.shadow.len() == MAX_DIGITS
        &&& forall|i: int| 0 <= i < MAX_DIGITS ==> #[trigger] self@.shadow[i] <= MAX_INTENSITY
    }

    /// `self` has the address and intensities of `other`.
    pub open spec fn same_setup(&self, other: &Self) -> bool {
        &&& self@.address == other@.address
        &&& self@.shadow == other@.shadow
    }

    /// Create a driver for the chip at the factory address.
    pub fn new(i2c: I2C) -> (r: Self)
        requires
            1 <= NUM_DIGITS <= MAX_DIGITS,
        ensures
            r.wf(),
            r.bus() == i2c,
            r@.address == DEFAULT_ADDRESS,
            r@.shadow == Seq::new(8, |i: int| 0u8),
    {
        Self::new_with_addr(i2c, DEFAULT_ADDRESS)
    }

    /// Create a driver for the chip at `address`, which it takes through
    /// self-addressing (its KEYA, SEGF and SEGG pins).
    pub fn new_with_addr(i2c: I2C, address: u8) -> (r: Self)
        requires
            1 <= NUM_DIGITS <= MAX_DIGITS,
        ensures
            r.wf(),
            r.bus() == i2c,
            r@.address == address,
            r@.shadow == Seq::new(8, |i: int| 0u8),
    {
        let r = AS1115 { i2c, address, intensity: [0; 8] };
        assert(r.intensity@ =~= Seq::new(8, |i: int| 0u8));
        r
    }

    /// Release the driver and hand back the bus.
    pub fn destroy(self) -> (r: I2C)
        ensures
            r == self.bus(),
    {
        self.i2c
    }

    fn write_register_to_addr(&mut self, address: u8, register: u8, value: u8) -> (r: Result<
        (),
        AS1115Error<I2C::Error>,
    >)
        ensures
            final(self).same_setup(old(self)),
            carried_out(r, old(self).bus().history(), final(self).bus().history(), seq![register_write(address, register, value)]),
    {
        let bytes: [u8; 2] = [register, value];
        match self.i2c.write(address, &bytes) {
            Ok(()) => {
                assert(bytes@ =~= seq![register, value]);
                assert(self.bus().history() =~= old(self).bus().history() + seq![register_write(address, register, value)]);
                Ok(())
            },
            Err(e) => {
                assert(self.bus().history() =~= old(self).bus().history() + seq![register_write(address, register, value)].take(0));
                Err(AS1115Error::I2cError(e))
            },
        }
    }

    fn write_register(&mut self, register: u8, value: u8) -> (r: Result<(), AS1115Error<I2C::Error>>)
        ensures
            final(self).same_setup(old(self)),
            carried_out(r, old(self).bus().history(), final(self).bus().history(), seq![register_write(old(self)@.address, register, value)]),
    {
        let address = self.address;
        self.write_register_to_addr(address, register, value)
    }

    fn read_register(&mut self, register: u8) -> (r: Result<u8, AS1115Error<I2C::Error>>)
        ensures
            final(self).same_setup(old(self)),
            match r {
                Ok(v) => final(self).bus().history() == old(self).bus().history().push(register_read(old(self)@.address, register, v)),
                Err(e) => e is I2cError && final(self).bus().history() == old(self).bus().history(),
            },
    {
        let mut buffer: [u8; 1] = [0];
        let bytes: [u8; 1] = [register];
        let address = self.address;
        match self.i2c.write_read(address, &bytes, &mut buffer) {
            Ok(()) => {
                let v = buffer[0];
                assert(bytes@ =~= seq![register]);
                assert(buffer@ =~= seq![v]);
                Ok(v)
            },
            Err(e) => Err(AS1115Error::I2cError(e)),
        }
    }

    /// Set `digit` to show the raw segment byte `segment_data`.
    pub fn set_digit_segment_data(&mut self, digit: u8, segment_data: u8) -> (r: Result<
        (),
        AS1115Error<I2C::Error>,
    >)
        requires
            old(self).wf(),
        ensures
            final(self).same_setup(old(self)),
            digit >= NUM_DIGITS ==> (r matches Err(AS1115Error::InvalidLocation(d)) && d == digit)
                && *final(self) == *old(self),
            digit < NUM_DIGITS ==> carried_out(
                r,
                old(self).bus().history(),
                final(self).bus().history(),
                seq![digit_write(old(self)@.address, digit as int, segment_data)],
            ),
    {
        if digit >= NUM_DIGITS {
            return Err(AS1115Error::InvalidLocation(digit));
        }
        self.write_register(DIGIT_OFFSET + digit, segment_data)
    }

    /// Write `cells[0..count]` into the digits from `first` on, left to right.
    fn write_ascending(&mut self, first: u8, cells: &[u8], count: usize) -> (r: Result<
        (),
        AS1115Error<I2C::Error>,
    >)
        requires
            old(self).wf(),
            count <= cells.len(),
            first + count <= NUM_DIGITS,
        ensures
            final(self).same_setup(old(self)),
            carried_out(
                r,
                old(self).bus().history(),
                final(self).bus().history(),
                ascending_writes(old(self)@.address, first as int, cells@.take(count as int)),
            ),
    {
        let ghost plan = ascending_writes(self@.address, first as int, cells@.take(count as int));
        let mut j: usize = 0;
        assert(self.bus().history() =~= old(self).bus().history() + plan.take(0));
        while j < count
            invariant
                old(self).wf(),
                self.same_setup(old(self)),
                count <= cells.len(),
                first + count <= NUM_DIGITS,
                j <= count,
                plan == ascending_writes(old(self)@.address, first as int, cells@.take(count as int)),
                self.bus().history() == old(self).bus().history() + plan.take(j as int),
            decreases count - j,
        {
            match self.set_digit_segment_data(first + j as u8, cells[j]) {
                Ok(()) => {},
                Err(e) => {
                    return Err(e);
                },
            }
            assert(plan.take(j + 1) =~= plan.take(j as int).push(plan[j as int]));
            j = j + 1;
        }
        assert(plan.take(count as int) =~= plan);
        Ok(())
    }

    /// Write `cells[0..count]` into the digits from `first` on, right to left.
    fn write_descending(&mut self, first: u8, cells: &[u8], count: usize) -> (r: Result<
        (),
        AS1115Error<I2C::Error>,
    >)
        requires
            old(self).wf(),
            count <= cells.len(),
            first + count <= NUM_DIGITS,
        ensures
            final(self).same_setup(old(self)),
            carried_out(
                r,
                old(self).bus().history(),
                final(self).bus().history(),
                descending_writes(old(self)@.address, first as int, cells@.take(count as int)),
            ),
    {
        let ghost plan = descending_writes(self@.address, first as int, cells@.take(count as int));
        let mut j: usize = 0;
        assert(self.bus().history() =~= old(self).bus().history() + plan.take(0));
        while j < count
            invariant
                old(self).wf(),
                self.same_setup(old(self)),
                count <= cells.len(),
                first + count <= NUM_DIGITS,
                j <= count,
                plan == descending_writes(old(self)@.address, first as int, cells@.take(count as int)),
                self.bus().history() == old(self).bus().history() + plan.take(j as int),
            decreases count - j,
        {
            let k = count - 1 - j;
            match self.set_digit_segment_data(first + k as u8, cells[k]) {
                Ok(()) => {},
                Err(e) => {
                    return Err(e);
                },
            }
            assert(plan.take(j + 1) =~= plan.take(j as int).push(plan[j as int]));
            j = j + 1;
        }
        assert(plan.take(count as int) =~= plan);
        Ok(())
    }

    /// `base^exp`, for a power that fits in 64 bits.
    fn const_pow(base: u64, exp: u8) -> (r: u64)
        requires
            pow(base as int, exp as nat) <= u64::MAX,
        ensures
            r == pow(base as int, exp as nat),
    {
        let mut result: u64 = 1;
        let mut i: u8 = 0;
        proof {
            lemma_pow0(base as int);
        }
        while i < exp
            invariant
                i <= exp,
                pow(base as int, exp as nat) <= u64::MAX,
                result == pow(base as int, i as nat),
            decreases exp - i,
        {
            proof {
                reveal(pow);
                assert(pow(base as int, (i + 1) as nat) == base * pow(base as int, i as nat));
                if base > 0 {
                    lemma_pow_increases(base as nat, (i + 1) as nat, exp as nat);
                }
                assert(pow(base as int, (i + 1) as nat) <= u64::MAX);
                assert(result * base == base * result) by (nonlinear_arith);
            }
            result = result * base;
            i = i + 1;
        }
        result
    }

    fn max_unsigned_decimal() -> (r: u64)
        requires
            1 <= NUM_DIGITS <= MAX_DIGITS,
        ensures
            r == max_unsigned(10, NUM_DIGITS as nat),
    {
        proof {
            lemma_pow_positive(10, NUM_DIGITS as nat);
            lemma_pow_bound(10, NUM_DIGITS as nat);
        }
        Self::const_pow(10, NUM_DIGITS) - 1
    }

    fn max_signed_decimal() -> (r: u64)
        requires
            1 <= NUM_DIGITS <= MAX_DIGITS,
        ensures
            r == max_signed(10, NUM_DIGITS as nat),
    {
        if NUM_DIGITS == 1 {
            9
        } else {
            proof {
                lemma_pow_positive(10, (NUM_DIGITS - 1) as nat);
                lemma_pow_bound(10, (NUM_DIGITS - 1) as nat);
            }
            Self::const_pow(10, NUM_DIGITS - 1) - 1
        }
    }

    fn max_unsigned_hex() -> (r: u64)
        requires
            1 <= NUM_DIGITS <= MAX_DIGITS,
        ensures
            r == max_unsigned(16, NUM_DIGITS as nat),
    {
        proof {
            lemma_pow_positive(16, NUM_DIGITS as nat);
            lemma_pow_bound(16, NUM_DIGITS as nat);
        }
        Self::const_pow(16, NUM_DIGITS) - 1
    }

    fn max_signed_hex() -> (r: u64)
        requires
            1 <= NUM_DIGITS <= MAX_DIGITS,
        ensures
            r == max_signed(16, NUM_DIGITS as nat),
    {
        if NUM_DIGITS == 1 {
            15
        } else {
            proof {
                lemma_pow_positive(16, (NUM_DIGITS - 1) as nat);
                lemma_pow_bound(16, (NUM_DIGITS - 1) as nat);
            }
            Self::const_pow(16, NUM_DIGITS - 1) - 1
        }
    }

    /// Show `value` in base `base`, right-aligned, blanking the slots to its left.
    fn display_in_base(&mut self, value: i32, base: u8) -> (r: Result<(), AS1115Error<I2C::Error>>)
        requires
            old(self).wf(),
            base == 10 || base == 16,
        ensures
            final(self).same_setup(old(self)),
            !fits(value as int, base as nat, NUM_DIGITS as nat) ==> (r matches Err(AS1115Error::InvalidValue)) && *final(self) == *old(self),
            fits(value as int, base as nat, NUM_DIGITS as nat) ==> carried_out(
                r,
                old(self).bus().history(),
                final(self).bus().history(),
                right_aligned_writes(
                    old(self)@.address,
                    NUM_DIGITS as int,
                    integer_layout(value as int, base as nat, NUM_DIGITS as nat),
                ),
            ),
    {
        let in_range = if value >= 0 {
            let max = if base == 10 {
                Self::max_unsigned_decimal()
            } else {
                Self::max_unsigned_hex()
            };
            value as u64 <= max
        } else {
            let max = if base == 10 {
                Self::max_signed_decimal()
            } else {
                Self::max_signed_hex()
            };
            (-(value as i64)) as u64 <= max
        };
        if !in_range {
            return Err(AS1115Error::InvalidValue);
        }
        let cells = render_integer(value, base, NUM_DIGITS);
        assert(cells@.take(cells.len() as int) =~= cells@);
        self.write_descending(0, cells.as_slice(), cells.len())
    }

    /// Show `value` in decimal, right-aligned, with a minus sign left of its
    /// most significant digit when negative and the slots further left blank.
    /// A single-digit display has no room for a sign and shows a negative
    /// value's bare digit. Fails with `InvalidValue` when it does not fit.
    pub fn display_value(&mut self, value: i32) -> (r: Result<(), AS1115Error<I2C::Error>>)
        requires
            old(self).wf(),
        ensures
            final(self).same_setup(old(self)),
            !fits(value as int, 10, NUM_DIGITS as nat) ==> (r matches Err(AS1115Error::InvalidValue))
                && *final(self) == *old(self),
            fits(value as int, 10, NUM_DIGITS as nat) ==> carried_out(
                r,
                old(self).bus().history(),
                final(self).bus().history(),
                right_aligned_writes(
                    old(self)@.address,
                    NUM_DIGITS as int,
                    integer_layout(value as int, 10, NUM_DIGITS as nat),
                ),
            ),
    {
        self.display_in_base(value, 10)
    }

    /// Show `value` in hexadecimal, laid out as `display_value` does.
    pub fn display_hex_value(&mut self, value: i32) -> (r: Result<(), AS1115Error<I2C::Error>>)
        requires
            old(self).wf(),
        ensures
            final(self).same_setup(old(self)),
            !fits(value as int, 16, NUM_DIGITS as nat) ==> (r matches Err(AS1115Error::InvalidValue))
                && *final(self) == *old(self),
            fits(value as int, 16, NUM_DIGITS as nat) ==> carried_out(
                r,
                old(self).bus().history(),
                final(self).bus().history(),
                right_aligned_writes(
                    old(self)@.address,
                    NUM_DIGITS as int,
                    integer_layout(value as int, 16, NUM_DIGITS as nat),
                ),
            ),
    {
        self.display_in_base(value, 16)
    }

    /// Show a fixed-point value right-aligned: a minus sign when `negative`,
    /// the integer digits with the decimal point on the last, then `precision`
    /// fraction digits. `integer_part` is the integer part of the magnitude
    /// and `rounded` the magnitude times `10^precision`, rounded. Fails with
    /// `InvalidValue` when the precision leaves no integer slot or the value
    /// does not fit, before or after rounding.
    pub fn display_fixed_point(
        &mut self,
        negative: bool,
        integer_part: u32,
        rounded: u32,
        precision: u8,
    ) -> (r: Result<(), AS1115Error<I2C::Error>>)
        requires
            old(self).wf(),
        ensures
            final(self).same_setup(old(self)),
            !fixed_point_fits(
                negative,
                integer_part as nat,
                rounded as nat,
                precision as nat,
                NUM_DIGITS as nat,
            ) ==> (r matches Err(AS1115Error::InvalidValue)) && *final(self) == *old(self),
            fixed_point_fits(
                negative,
                integer_part as nat,
                rounded as nat,
                precision as nat,
                NUM_DIGITS as nat,
            ) ==> carried_out(
                r,
                old(self).bus().history(),
                final(self).bus().history(),
                right_aligned_writes(
                    old(self)@.address,
                    NUM_DIGITS as int,
                    fixed_point_layout(negative, rounded as nat, precision as nat),
                ),
            ),
    {
        if precision < 1 || precision >= NUM_DIGITS {
            return Err(AS1115Error::InvalidValue);
        }
        let sign: u64 = if negative {
            1
        } else {
            0
        };
        if sign + digit_count(integer_part, 10) + precision as u64 > NUM_DIGITS as u64 {
            return Err(AS1115Error::InvalidValue);
        }
        proof {
            lemma_pow_positive(10, precision as nat);
            lemma_pow_bound(10, precision as nat);
        }
        let whole = (rounded as u64 / Self::const_pow(10, precision)) as u32;
        if sign + digit_count(whole, 10) + precision as u64 > NUM_DIGITS as u64 {
            return Err(AS1115Error::InvalidValue);
        }
        let cells = render_fixed_point(negative, rounded, precision);
        proof {
            lemma_fixed_point_len(negative, rounded as nat, precision as nat);
        }
        assert(cells@.take(cells.len() as int) =~= cells@);
        self.write_descending(NUM_DIGITS - cells.len() as u8, cells.as_slice(), cells.len())
    }

    /// Show an ASCII text from the leftmost digit on: characters without a
    /// glyph are skipped, a '.' after a character lights that character's
    /// decimal point, and what does not fit is dropped.
    pub fn display_ascii(&mut self, chars: &[u8]) -> (r: Result<(), AS1115Error<I2C::Error>>)
        requires
            old(self).wf(),
        ensures
            final(self).same_setup(old(self)),
            carried_out(
                r,
                old(self).bus().history(),
                final(self).bus().history(),
                ascending_writes(old(self)@.address, 0, ascii_layout(chars@, NUM_DIGITS as nat)),
            ),
    {
        let cells = render_ascii(chars, NUM_DIGITS);
        proof {
            lemma_ascii_layout_len(chars@, NUM_DIGITS as nat);
        }
        assert(cells@.take(cells.len() as int) =~= cells@);
        self.write_ascending(0, cells.as_slice(), cells.len())
    }

    /// Write raw segment bytes into the digits from the leftmost on; bytes
    /// beyond the last digit are dropped.
    pub fn display_segments(&mut self, segments: &[u8]) -> (r: Result<(), AS1115Error<I2C::Error>>)
        requires
            old(self).wf(),
        ensures
            final(self).same_setup(old(self)),
            carried_out(
                r,
                old(self).bus().history(),
                final(self).bus().history(),
                ascending_writes(
                    old(self)@.address,
                    0,
                    segments@.take(
                        if segments.len() < NUM_DIGITS {
                            segments.len() as int
                        } else {
                            NUM_DIGITS as int
                        },
                    ),
                ),
            ),
    {
        let count = if segments.len() < NUM_DIGITS as usize {
            segments.len()
        } else {
            NUM_DIGITS as usize
        };
        self.write_ascending(0, segments, count)
    }

    /// Blank every digit.
    pub fn clear(&mut self) -> (r: Result<(), AS1115Error<I2C::Error>>)
        requires
            old(self).wf(),
        ensures
            final(self).same_setup(old(self)),
            carried_out(
                r,
                old(self).bus().history(),
                final(self).bus().history(),
                ascending_writes(old(self)@.address, 0, Seq::new(NUM_DIGITS as nat, |i: int| 0u8)),
            ),
    {
        let blank: [u8; 8] = [0; 8];
        assert(blank@.take(NUM_DIGITS as int) =~= Seq::new(NUM_DIGITS as nat, |i: int| 0u8));
        self.write_ascending(0, &blank, NUM_DIGITS as usize)
    }

    /// Set `digit` to show an ASCII character; fails with `InvalidValue` when
    /// the character has no glyph.
    pub fn set_digit_ascii_char(&mut self, digit: u8, char: u8) -> (r: Result<
        (),
        AS1115Error<I2C::Error>,
    >)
        requires
            old(self).wf(),
        ensures
            final(self).same_setup(old(self)),
            digit >= NUM_DIGITS ==> (r matches Err(AS1115Error::InvalidLocation(d)) && d == digit)
                && *final(self) == *old(self),
            digit < NUM_DIGITS && glyph(char) == 0 ==> (r matches Err(AS1115Error::InvalidValue))
                && *final(self) == *old(self),
            digit < NUM_DIGITS && glyph(char) != 0 ==> carried_out(
                r,
                old(self).bus().history(),
                final(self).bus().history(),
                seq![digit_write(old(self)@.address, digit as int, glyph(char))],
            ),
    {
        if digit >= NUM_DIGITS {
            return Err(AS1115Error::InvalidLocation(digit));
        }
        let segments = ascii_to_segment(char);
        if segments == 0 {
            return Err(AS1115Error::InvalidValue);
        }
        self.set_digit_segment_data(digit, segments)
    }

    /// Set `digit` to show a hexadecimal digit (0-15).
    pub fn set_digit_hex_value(&mut self, digit: u8, value: u8) -> (r: Result<
        (),
        AS1115Error<I2C::Error>,
    >)
        requires
            old(self).wf(),
        ensures
            final(self).same_setup(old(self)),
            digit >= NUM_DIGITS ==> (r matches Err(AS1115Error::InvalidLocation(d)) && d == digit)
                && *final(self) == *old(self),
            digit < NUM_DIGITS && value > 15 ==> (r matches Err(AS1115Error::InvalidValue))
                && *final(self) == *old(self),
            digit < NUM_DIGITS && value <= 15 ==> carried_out(
                r,
                old(self).bus().history(),
                final(self).bus().history(),
                seq![digit_write(old(self)@.address, digit as int, numeral(value as nat))],
            ),
    {
        if digit >= NUM_DIGITS {
            return Err(AS1115Error::InvalidLocation(digit));
        }
        if value > 15 {
            return Err(AS1115Error::InvalidValue);
        }
        let segments = numeral_segments(value);
        self.set_digit_segment_data(digit, segments)
    }

    /// Set `digit` to show a decimal digit (0-9).
    pub fn set_digit_value(&mut self, digit: u8, value: u8) -> (r: Result<
        (),
        AS1115Error<I2C::Error>,
    >)
        requires
            old(self).wf(),
        ensures
            final(self).same_setup(old(self)),
            digit >= NUM_DIGITS ==> (r matches Err(AS1115Error::InvalidLocation(d)) && d == digit)
                && *final(self) == *old(self),
            digit < NUM_DIGITS && value > 9 ==> (r matches Err(AS1115Error::InvalidValue))
                && *final(self) == *old(self),
            digit < NUM_DIGITS && value <= 9 ==> carried_out(
                r,
                old(self).bus().history(),
                final(self).bus().history(),
                seq![digit_write(old(self)@.address, digit as int, numeral(value as nat))],
            ),
    {
        if digit >= NUM_DIGITS {
            return Err(AS1115Error::InvalidLocation(digit));
        }
        if value > 9 {
            return Err(AS1115Error::InvalidValue);
        }
        let segments = numeral_segments(value);
        self.set_digit_segment_data(digit, segments)
    }

    /// Intensity last written for `digit`, when it is a digit of the display.
    pub fn digit_intensity(&self, digit: u8) -> (r: Option<u8>)
        requires
            self.wf(),
        ensures
            digit < NUM_DIGITS ==> r == Some(self@.shadow[digit as int]),
            digit >= NUM_DIGITS ==> r is None,
    {
        if digit >= NUM_DIGITS {
            return None;
        }
        Some(self.intensity[digit as usize])
    }

    /// Set the intensity of every digit (0-15) through the global intensity
    /// register.
    pub fn set_intensity(&mut self, intensity: u8) -> (r: Result<(), AS1115Error<I2C::Error>>)
        requires
            old(self).wf(),
        ensures
            final(self).wf(),
            final(self)@.address == old(self)@.address,
            intensity > MAX_INTENSITY ==> (r matches Err(AS1115Error::InvalidValue))
                && *final(self) == *old(self),
            intensity <= MAX_INTENSITY ==> carried_out(
                r,
                old(self).bus().history(),
                final(self).bus().history(),
                seq![register_write(old(self)@.address, GLOBAL_INTENSITY, intensity)],
            ),
            intensity <= MAX_INTENSITY ==> final(self)@.shadow == if r is Ok {
                Seq::new(8, |i: int| intensity)
            } else {
                old(self)@.shadow
            },
    {
        if intensity > MAX_INTENSITY {
            return Err(AS1115Error::InvalidValue);
        }
        match self.write_register(GLOBAL_INTENSITY, intensity) {
            Ok(()) => {},
            Err(e) => {
                return Err(e);
            },
        }
        self.intensity = [intensity; 8];
        assert(self.intensity@ =~= Seq::new(8, |i: int| intensity));
        Ok(())
    }

    /// Set the intensity (0-15) of one digit. Two digits share each paired
    /// intensity register, so the byte written carries the sibling digit's
    /// last intensity from the shadow.
    pub fn set_digit_intensity(&mut self, digit: u8, intensity: u8) -> (r: Result<
        (),
        AS1115Error<I2C::Error>,
    >)
        requires
            old(self).wf(),
        ensures
            final(self).wf(),
            final(self)@.address == old(self)@.address,
            digit >= NUM_DIGITS ==> (r matches Err(AS1115Error::InvalidLocation(d)) && d == digit)
                && *final(self) == *old(self),
            digit < NUM_DIGITS && intensity > MAX_INTENSITY ==> (r matches Err(
                AS1115Error::InvalidValue,
            )) && *final(self) == *old(self),
            digit < NUM_DIGITS && intensity <= MAX_INTENSITY ==> carried_out(
                r,
                old(self).bus().history(),
                final(self).bus().history(),
                seq![
                    register_write(
                        old(self)@.address,
                        (DIG01_INTENSITY + digit / 2) as u8,
                        paired_intensity(old(self)@.shadow.update(digit as int, intensity), digit as int),
                    ),
                ],
            ),
            digit < NUM_DIGITS && intensity <= MAX_INTENSITY ==> final(self)@.shadow == if r is Ok {
                old(self)@.shadow.update(digit as int, intensity)
            } else {
                old(self)@.shadow
            },
    {
        if digit >= NUM_DIGITS {
            return Err(AS1115Error::InvalidLocation(digit));
        }
        if intensity > MAX_INTENSITY {
            return Err(AS1115Error::InvalidValue);
        }
        let register = DIG01_INTENSITY + digit / 2;
        let value = if digit % 2 == 0 {
            let odd = self.intensity[(digit + 1) as usize];
            assert(odd <= 15);
            assert((odd << 4u8) | intensity == 16 * odd + intensity) by (bit_vector)
                requires
                    odd <= 15,
                    intensity <= 15,
            ;
            (odd << 4u8) | intensity
        } else {
            let even = self.intensity[(digit - 1) as usize];
            assert(even <= 15);
            assert((intensity << 4u8) | even == 16 * intensity + even) by (bit_vector)
                requires
                    even <= 15,
                    intensity <= 15,
            ;
            (intensity << 4u8) | even
        };
        match self.write_register(register, value) {
            Ok(()) => {},
            Err(e) => {
                return Err(e);
            },
        }
        self.intensity[digit as usize] = intensity;
        Ok(())
    }

    /// Initialise the chip and set the global intensity (0-15): wake it at
    /// the factory address, move it to its own address when that differs,
    /// turn hardware decoding off, scan every digit and set the intensity.
    /// An intensity out of range fails with `InvalidValue` before anything is
    /// sent; a bus failure stops the sequence where it happened.
    pub fn init(&mut self, intensity: u8) -> (r: Result<(), AS1115Error<I2C::Error>>)
        requires
            old(self).wf(),
        ensures
            final(self).wf(),
            final(self)@.address == old(self)@.address,
            intensity > MAX_INTENSITY ==> (r matches Err(AS1115Error::InvalidValue))
                && *final(self) == *old(self),
            intensity <= MAX_INTENSITY ==> carried_out(
                r,
                old(self).bus().history(),
                final(self).bus().history(),
                init_plan(old(self)@.address, NUM_DIGITS, intensity),
            ),
            intensity <= MAX_INTENSITY ==> final(self)@.shadow == if r is Ok {
                Seq::new(8, |i: int| intensity)
            } else {
                old(self)@.shadow
            },
    {
        if intensity > MAX_INTENSITY {
            return Err(AS1115Error::InvalidValue);
        }
        let ghost before = self.bus().history();
        let ghost address = self@.address;
        let ghost wake = seq![register_write(DEFAULT_ADDRESS, SHUTDOWN_MODE, NORMAL_OPERATION | RESET_FEATURE)];
        let ghost relocate = if address != DEFAULT_ADDRESS {
            seq![register_write(DEFAULT_ADDRESS, SELF_ADDRESSING, USER_SET_ADDR)]
        } else {
            Seq::<Transfer>::empty()
        };
        let ghost decode = seq![register_write(address, DECODE_MODE, NO_DECODE)];
        let ghost scan = seq![register_write(address, SCAN_LIMIT, (NUM_DIGITS - 1) as u8)];
        let ghost level = seq![register_write(address, GLOBAL_INTENSITY, intensity)];
        let ghost plan = init_plan(address, NUM_DIGITS, intensity);
        assert(plan =~= wake + relocate + decode + scan + level);

        match self.write_register_to_addr(
            DEFAULT_ADDRESS,
            SHUTDOWN_MODE,
            NORMAL_OPERATION | RESET_FEATURE,
        ) {
            Ok(()) => {},
            Err(e) => {
                proof {
                    assert(before + Seq::empty() =~= before);
                    lemma_stopped_within(before, self.bus().history(), Seq::empty(), wake, relocate + decode + scan + level);
                    assert(Seq::empty() + wake + (relocate + decode + scan + level) =~= plan);
                }
                return Err(e);
            },
        }
        if self.address != DEFAULT_ADDRESS {
            match self.write_register_to_addr(
                DEFAULT_ADDRESS,
                SELF_ADDRESSING,
                USER_SET_ADDR,
            ) {
                Ok(()) => {},
                Err(e) => {
                    proof {
                        lemma_stopped_within(before, self.bus().history(), wake, relocate, decode + scan + level);
                        assert(wake + relocate + (decode + scan + level) =~= plan);
                    }
                    return Err(e);
                },
            }
        }
        assert(self.bus().history() =~= before + (wake + relocate));
        match self.write_register(DECODE_MODE, NO_DECODE) {
            Ok(()) => {},
            Err(e) => {
                proof {
                    lemma_stopped_within(before, self.bus().history(), wake + relocate, decode, scan + level);
                    assert(wake + relocate + decode + (scan + level) =~= plan);
                }
                return Err(e);
            },
        }
        assert(self.bus().history() =~= before + (wake + relocate + decode));
        match self.write_register(SCAN_LIMIT, NUM_DIGITS - 1) {
            Ok(()) => {},
            Err(e) => {
                proof {
                    lemma_stopped_within(before, self.bus().history(), wake + relocate + decode, scan, level);
                }
                return Err(e);
            },
        }
        assert(self.bus().history() =~= before + (wake + relocate + decode + scan));
        let r = self.set_intensity(intensity);
        proof {
            if r is Ok {
                assert(self.bus().history() =~= before + plan);
            } else {
                lemma_stopped_within(before, self.bus().history(), wake + relocate + decode + scan, level, Seq::empty());
                assert(wake + relocate + decode + scan + level + Seq::<Transfer>::empty() =~= plan);
            }
        }
        r
    }

    /// Read the sixteen keys: the first key register in the high byte, the
    /// second in the low byte. Away from the factory address the top two bits
    /// of the first register are cleared, as those pins then set the address.
    pub fn read_keys(&mut self) -> (r: Result<u16, AS1115Error<I2C::Error>>)
        requires
            old(self).wf(),
        ensures
            final(self).same_setup(old(self)),
            match r {
                Ok(keys) => exists|a: u8, b: u8|
                    final(self).bus().history() == old(self).bus().history() + seq![
                        register_read(old(self)@.address, KEY_A, a),
                        register_read(old(self)@.address, KEY_B, b),
                    ] && keys == key_state(old(self)@.address, a, b),
                Err(e) => e is I2cError && (final(self).bus().history() == old(self).bus().history() || exists|a: u8|
                    final(self).bus().history() == old(self).bus().history().push(register_read(old(self)@.address, KEY_A, a))),
            },
    {
        let key_a = match self.read_register(KEY_A) {
            Ok(v) => v,
            Err(e) => {
                return Err(e);
            },
        };
        let key_b = match self.read_register(KEY_B) {
            Ok(v) => v,
            Err(e) => {
                return Err(e);
            },
        };
        let high = if self.address != DEFAULT_ADDRESS {
            key_a & 0x3F
        } else {
            key_a
        };
        let keys = ((high as u16) << 8u16) | (key_b as u16);
        assert(((high as u16) << 8u16) | (key_b as u16) == high as u16 * 256 + key_b as u16) by (bit_vector);
        assert(keys == key_state(self@.address, key_a, key_b));
        assert(self.bus().history() =~= old(self).bus().history() + seq![
            register_read(old(self)@.address, KEY_A, key_a),
            register_read(old(self)@.address, KEY_B, key_b),
        ]);
        Ok(keys)
    }

    /// Turn the display test (every segment lit) on or off, keeping the other
    /// bits of the display-test register as read.
    pub fn set_display_test(&mut self, enable: bool) -> (r: Result<(), AS1115Error<I2C::Error>>)
        requires
            old(self).wf(),
        ensures
            final(self).same_setup(old(self)),
            match r {
                Ok(()) => exists|v: u8|
                    final(self).bus().history() == old(self).bus().history() + seq![
                        register_read(old(self)@.address, DISPLAY_TEST_MODE, v),
                        register_write(old(self)@.address, DISPLAY_TEST_MODE, test_mode(v, enable)),
                    ],
                Err(e) => e is I2cError && (final(self).bus().history() == old(self).bus().history() || exists|v: u8|
                    final(self).bus().history() == old(self).bus().history().push(
                        register_read(old(self)@.address, DISPLAY_TEST_MODE, v),
                    )),
            },
    {
        let current = match self.read_register(DISPLAY_TEST_MODE) {
            Ok(v) => v,
            Err(e) => {
                return Err(e);
            },
        };
        let next = if enable {
            current | DISP_TEST
        } else {
            current & !DISP_TEST
        };
        let r = self.write_register(DISPLAY_TEST_MODE, next);
        assert(self.bus().history() =~= old(self).bus().history() + seq![
            register_read(old(self)@.address, DISPLAY_TEST_MODE, current),
            register_write(old(self)@.address, DISPLAY_TEST_MODE, test_mode(current, enable)),
        ] || r is Err);
        r
    }

    /// Whether the chip reports its external resistor Rset as open.
    pub fn rset_test_open(&mut self) -> (r: Result<bool, AS1115Error<I2C::Error>>)
        requires
            old(self).wf(),
        ensures
            final(self).same_setup(old(self)),
            match r {
                Ok(open) => exists|v: u8|
                    final(self).bus().history() == old(self).bus().history().push(
                        register_read(old(self)@.address, DISPLAY_TEST_MODE, v),
                    ) && open == (v & RSET_OPEN != 0),
                Err(e) => e is I2cError && final(self).bus().history() == old(self).bus().history(),
            },
    {
        match self.read_register(DISPLAY_TEST_MODE) {
            Ok(v) => Ok(v & RSET_OPEN != 0),
            Err(e) => Err(e),
        }
    }

    /// Whether the chip reports its external resistor Rset as shorted.
    pub fn rset_test_short(&mut self) -> (r: Result<bool, AS1115Error<I2C::Error>>)
        requires
            old(self).wf(),
        ensures
            final(self).same_setup(old(self)),
            match r {
                Ok(short) => exists|v: u8|
                    final(self).bus().history() == old(self).bus().history().push(
                        register_read(old(self)@.address, DISPLAY_TEST_MODE, v),
                    ) && short == (v & RSET_SHORT != 0),
                Err(e) => e is I2cError && final(self).bus().history() == old(self).bus().history(),
            },
    {
        match self.read_register(DISPLAY_TEST_MODE) {
            Ok(v) => Ok(v & RSET_SHORT != 0),
            Err(e) => Err(e),
        }
    }
}

} // verus!

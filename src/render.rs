use vstd::prelude::*;

use vstd::arithmetic::div_mod::*;
use vstd::arithmetic::power::*;

use crate::constants::MINUS_SIGN;
use crate::font::{ascii_to_segment, glyph, numeral, numeral_segments};
use crate::segments::DP;

verus! {

/// Number of digits of `v` in base `base`; zero has one digit.
pub open spec fn width(v: nat, base: nat) -> nat
    decreases v,
    via width_decreases
{
    if base < 2 || v < base {
        1
    } else {
        1 + width(v / base, base)
    }
}

#[via_fn]
proof fn width_decreases(v: nat, base: nat) {
    if !(base < 2 || v < base) {
        lemma_div_decreases(v as int, base as int);
    }
}

/// The lowest `count` digits of `v` in base `base`, as segment bytes, most
/// significant first.
pub open spec fn glyphs(v: nat, base: nat, count: nat) -> Seq<u8>
    decreases count,
{
    if count == 0 {
        Seq::empty()
    } else {
        glyphs(v / base, base, (count - 1) as nat).push(numeral(v % base))
    }
}

/// Every digit of `v` in base `base`, as segment bytes, most significant first.
pub open spec fn all_glyphs(v: nat, base: nat) -> Seq<u8> {
    glyphs(v, base, width(v, base))
}

/// Largest value that is not negative shown on `digits` slots in base `base`.
pub open spec fn max_unsigned(base: nat, digits: nat) -> int {
    pow(base as int, digits) - 1
}

/// Largest magnitude of a negative value shown on `digits` slots in base
/// `base`: one slot goes to the sign, except on a single slot, which has no
/// room for a sign and shows the bare digit.
pub open spec fn max_signed(base: nat, digits: nat) -> int {
    if digits == 1 {
        base - 1
    } else {
        pow(base as int, (digits - 1) as nat) - 1
    }
}

/// `value` can be shown on `digits` slots in base `base`.
pub open spec fn fits(value: int, base: nat, digits: nat) -> bool {
    if value >= 0 {
        value <= max_unsigned(base, digits)
    } else {
        -value <= max_signed(base, digits)
    }
}

/// Absolute value of `value`.
pub open spec fn magnitude(value: int) -> nat {
    if value < 0 {
        (-value) as nat
    } else {
        value as nat
    }
}

/// The segment bytes of `value` on `digits` slots, leftmost slot first: the
/// digits right-aligned, a minus sign just left of the most significant digit
/// for a negative value (when there are two slots or more), blank slots left
/// of that.
pub open spec fn integer_layout(value: int, base: nat, digits: nat) -> Seq<u8> {
    let sign: Seq<u8> = if value < 0 && digits > 1 {
        seq![MINUS_SIGN]
    } else {
        Seq::empty()
    };
    let body = sign + all_glyphs(magnitude(value), base);
    Seq::new((digits - body.len()) as nat, |i: int| 0u8) + body
}

/// A fixed-point value, given by its sign, the integer part of its magnitude
/// and its magnitude scaled by `10^precision` and rounded, fits on `digits`
/// slots: the precision leaves at least one slot for the integer part, and
/// the sign, the integer digits and the fraction digits take no more than
/// `digits` slots, both before and after rounding.
pub open spec fn fixed_point_fits(
    negative: bool,
    integer_part: nat,
    rounded: nat,
    precision: nat,
    digits: nat,
) -> bool {
    let sign: nat = if negative {
        1
    } else {
        0
    };
    &&& 1 <= precision < digits
    &&& sign + width(integer_part, 10) + precision <= digits
    &&& sign + width((rounded as int / pow(10, precision)) as nat, 10) + precision <= digits
}

/// The segment bytes of a rounded fixed-point value, leftmost first: an
/// optional minus sign, the digits of the integer part with the decimal point
/// on the last of them, then the `precision` fraction digits.
pub open spec fn fixed_point_layout(negative: bool, rounded: nat, precision: nat) -> Seq<u8> {
    let whole = all_glyphs((rounded as int / pow(10, precision)) as nat, 10);
    let last = whole.len() - 1;
    let sign: Seq<u8> = if negative {
        seq![MINUS_SIGN]
    } else {
        Seq::empty()
    };
    sign + whole.update(last, whole[last] | DP) + glyphs(rounded, 10, precision)
}

/// The segment bytes of an ASCII text on `room` slots: characters without a
/// glyph are skipped, a '.' (0x2E) right after a character with a glyph turns
/// on that glyph's decimal point, and the text stops when the slots run out.
pub open spec fn ascii_layout(chars: Seq<u8>, room: nat) -> Seq<u8>
    decreases chars.len(),
{
    if chars.len() == 0 || room == 0 {
        Seq::empty()
    } else if glyph(chars[0]) == 0 {
        ascii_layout(chars.drop_first(), room)
    } else if chars.len() > 1 && chars[1] == 0x2E {
        seq![glyph(chars[0]) | DP] + ascii_layout(
            chars.subrange(2, chars.len() as int),
            (room - 1) as nat,
        )
    } else {
        seq![glyph(chars[0])] + ascii_layout(chars.drop_first(), (room - 1) as nat)
    }
}

/// `count` digits take `count` bytes.
pub proof fn lemma_glyphs_len(v: nat, base: nat, count: nat)
    requires
        base >= 2,
    ensures
        glyphs(v, base, count).len() == count,
    decreases count,
{
    if count > 0 {
        lemma_glyphs_len(v / base, base, (count - 1) as nat);
        let g = glyphs(v / base, base, (count - 1) as nat);
        assert(glyphs(v, base, count) == g.push(numeral(v % base)));
        assert(g.push(numeral(v % base)).len() == g.len() + 1);
    }
}

/// All digits of `v` are its last digit after all digits of `v / base`, of
/// which there are none when `v` is a single digit.
pub proof fn lemma_all_glyphs_step(v: nat, base: nat)
    requires
        base >= 2,
    ensures
        all_glyphs(v, base) == (if v / base == 0 {
            Seq::<u8>::empty()
        } else {
            all_glyphs(v / base, base)
        }).push(numeral(v % base)),
{
    if v < base {
        lemma_basic_div(v as int, base as int);
        assert(width(v, base) == 1);
        assert(glyphs(v, base, 1) == glyphs(v / base, base, 0).push(numeral(v % base)));
    } else {
        assert(v / base >= 1) by {
            lemma_div_is_ordered(base as int, v as int, base as int);
            lemma_div_by_self(base as int);
        }
        assert(width(v, base) == 1 + width(v / base, base));
        assert(glyphs(v, base, width(v, base)) == glyphs(v / base, base, width(v / base, base)).push(
            numeral(v % base),
        ));
    }
}

/// A value below `base^n` has at most `n` digits.
pub proof fn lemma_width_bound(v: nat, base: nat, n: nat)
    requires
        base >= 2,
        n >= 1,
        v < pow(base as int, n),
    ensures
        width(v, base) <= n,
    decreases n,
{
    if v >= base {
        reveal(pow);
        assert(pow(base as int, n) == base * pow(base as int, (n - 1) as nat));
        if n == 1 {
            lemma_pow1(base as int);
        } else {
            lemma_multiply_divide_lt(v as int, base as int, pow(base as int, (n - 1) as nat));
            assert(v / base < pow(base as int, (n - 1) as nat));
            lemma_width_bound(v / base, base, (n - 1) as nat);
            assert(width(v, base) == 1 + width(v / base, base));
        }
    }
}

/// Every digit of `v`, most significant first.
pub fn render_digits(v: u32, base: u8) -> (cells: Vec<u8>)
    requires
        base == 10 || base == 16,
    ensures
        cells@ == all_glyphs(v as nat, base as nat),
{
    let b = base as u32;
    let mut cells: Vec<u8> = Vec::new();
    let mut num = v;
    proof {
        lemma_all_glyphs_step(v as nat, base as nat);
    }
    cells.push(numeral_segments((num % b) as u8));
    num = num / b;
    assert(cells@ =~= seq![numeral(v as nat % base as nat)]);
    while num > 0
        invariant
            b == base as u32,
            base == 10 || base == 16,
            all_glyphs(v as nat, base as nat) == (if num == 0 {
                Seq::<u8>::empty()
            } else {
                all_glyphs(num as nat, base as nat)
            }) + cells@,
        decreases num,
    {
        proof {
            lemma_all_glyphs_step(num as nat, base as nat);
        }
        let ghost before = cells@;
        cells.insert(0, numeral_segments((num % b) as u8));
        let ghost rest = if num / b == 0 {
            Seq::<u8>::empty()
        } else {
            all_glyphs((num / b) as nat, base as nat)
        };
        assert(rest.push(numeral(num as nat % base as nat)) + before =~= rest + cells@);
        num = num / b;
    }
    assert(cells@ =~= Seq::<u8>::empty() + cells@);
    cells
}

/// A value that fits on `digits` slots leaves room for its sign and digits.
pub proof fn lemma_integer_room(value: int, base: nat, digits: nat)
    requires
        base >= 2,
        digits >= 1,
        fits(value, base, digits),
    ensures
        (if value < 0 && digits > 1 {
            1nat
        } else {
            0nat
        }) + width(magnitude(value), base) <= digits,
{
    let m = magnitude(value);
    if value >= 0 {
        lemma_width_bound(m, base, digits);
    } else if digits == 1 {
        assert(width(m, base) == 1);
    } else {
        lemma_width_bound(m, base, (digits - 1) as nat);
    }
}

/// The segment bytes of `value` in base `base` on `digits` slots, leftmost
/// first (see `integer_layout`).
pub fn render_integer(value: i32, base: u8, digits: u8) -> (cells: Vec<u8>)
    requires
        base == 10 || base == 16,
        1 <= digits <= 8,
        fits(value as int, base as nat, digits as nat),
    ensures
        cells@ == integer_layout(value as int, base as nat, digits as nat),
        cells.len() == digits,
{
    let magnitude: u32 = if value < 0 {
        (-(value as i64)) as u32
    } else {
        value as u32
    };
    let mut cells = render_digits(magnitude, base);
    proof {
        lemma_integer_room(value as int, base as nat, digits as nat);
        lemma_glyphs_len(magnitude as nat, base as nat, width(magnitude as nat, base as nat));
    }
    if value < 0 && digits > 1 {
        cells.insert(0, MINUS_SIGN);
    }
    let ghost body = cells@;
    assert(body =~= (if value < 0 && digits > 1 {
        seq![MINUS_SIGN]
    } else {
        Seq::<u8>::empty()
    }) + all_glyphs(magnitude as nat, base as nat));
    assert(cells@ =~= Seq::new(0, |i: int| 0u8) + body);
    while cells.len() < digits as usize
        invariant
            body.len() <= cells.len() <= digits,
            cells@ == Seq::new((cells.len() - body.len()) as nat, |i: int| 0u8) + body,
        decreases digits - cells.len(),
    {
        let ghost pad = (cells.len() - body.len()) as nat;
        cells.insert(0, 0);
        assert(cells@ =~= Seq::new(pad + 1, |i: int| 0u8) + body);
    }
    cells
}

/// The segment bytes of a rounded fixed-point value, leftmost first (see
/// `fixed_point_layout`).
pub fn render_fixed_point(negative: bool, rounded: u32, precision: u8) -> (cells: Vec<u8>)
    ensures
        cells@ == fixed_point_layout(negative, rounded as nat, precision as nat),
{
    let mut fraction: Vec<u8> = Vec::new();
    let mut num = rounded;
    let mut k: u8 = 0;
    proof {
        lemma_pow0(10);
        assert(fraction@ + glyphs(rounded as nat, 10, precision as nat) =~= glyphs(
            rounded as nat,
            10,
            precision as nat,
        ));
    }
    while k < precision
        invariant
            k <= precision,
            num as int == rounded as int / pow(10, k as nat),
            glyphs(rounded as nat, 10, precision as nat) == glyphs(
                num as nat,
                10,
                (precision - k) as nat,
            ) + fraction@,
        decreases precision - k,
    {
        proof {
            lemma_pow_positive(10, k as nat);
            lemma_div_denominator(rounded as int, pow(10, k as nat), 10);
            reveal(pow);
            assert(pow(10, (k + 1) as nat) == 10 * pow(10, k as nat));
        }
        let ghost before = fraction@;
        let ghost rest = glyphs((num / 10) as nat, 10, (precision - k - 1) as nat);
        assert(glyphs(num as nat, 10, (precision - k) as nat) == rest.push(numeral(num as nat % 10)));
        fraction.insert(0, numeral_segments((num % 10) as u8));
        assert(rest.push(numeral(num as nat % 10)) + before =~= rest + fraction@);
        num = num / 10;
        k = k + 1;
    }
    let mut cells = render_digits(num, 10);
    proof {
        lemma_glyphs_len(num as nat, 10, width(num as nat, 10));
    }
    let last = cells.len() - 1;
    let marked = cells[last] | DP;
    cells.set(last, marked);
    if negative {
        cells.insert(0, MINUS_SIGN);
    }
    let ghost whole = cells@;
    cells.append(&mut fraction);
    assert(glyphs(num as nat, 10, 0) =~= Seq::<u8>::empty());
    assert(cells@ =~= fixed_point_layout(negative, rounded as nat, precision as nat));
    cells
}

/// The segment bytes of an ASCII text on `digits` slots, leftmost first (see
/// `ascii_layout`).
pub fn render_ascii(chars: &[u8], digits: u8) -> (cells: Vec<u8>)
    ensures
        cells@ == ascii_layout(chars@, digits as nat),
{
    let mut cells: Vec<u8> = Vec::new();
    let mut i: usize = 0;
    assert(chars@.subrange(0, chars@.len() as int) =~= chars@);
    while i < chars.len() && cells.len() < digits as usize
        invariant
            i <= chars.len(),
            cells.len() <= digits,
            ascii_layout(chars@, digits as nat) == cells@ + ascii_layout(
                chars@.subrange(i as int, chars@.len() as int),
                (digits - cells.len()) as nat,
            ),
        decreases chars.len() - i,
    {
        let ghost rest = chars@.subrange(i as int, chars@.len() as int);
        let ghost room = (digits - cells.len()) as nat;
        let ghost before = cells@;
        assert(rest.drop_first() =~= chars@.subrange(i + 1, chars@.len() as int));
        let segment = ascii_to_segment(chars[i]);
        if segment == 0 {
            i = i + 1;
        } else if i + 1 < chars.len() && chars[i + 1] == 0x2E {
            assert(rest.subrange(2, rest.len() as int) =~= chars@.subrange(
                i + 2,
                chars@.len() as int,
            ));
            cells.push(segment | DP);
            assert(before + (seq![segment | DP] + ascii_layout(
                rest.subrange(2, rest.len() as int),
                (room - 1) as nat,
            )) =~= cells@ + ascii_layout(
                rest.subrange(2, rest.len() as int),
                (room - 1) as nat,
            ));
            i = i + 2;
        } else {
            cells.push(segment);
            assert(before + (seq![segment] + ascii_layout(rest.drop_first(), (room - 1) as nat))
                =~= cells@ + ascii_layout(rest.drop_first(), (room - 1) as nat));
            i = i + 1;
        }
    }
    assert(ascii_layout(chars@.subrange(i as int, chars@.len() as int), (digits - cells.len()) as nat) =~= Seq::<u8>::empty());
    assert(cells@ + Seq::<u8>::empty() =~= cells@);
    cells
}

/// Powers of a base up to 16 with an exponent up to 8 stay within 2^32.
pub proof fn lemma_pow_bound(b: int, e: nat)
    requires
        1 <= b <= 16,
        e <= 8,
    ensures
        1 <= pow(b, e) <= pow(16, e) <= 0x1_0000_0000,
    decreases e,
{
    reveal(pow);
    if e > 0 {
        lemma_pow_bound(b, (e - 1) as nat);
        let x = pow(b, (e - 1) as nat);
        let y = pow(16, (e - 1) as nat);
        assert(b * x <= 16 * y && 1 <= b * x) by (nonlinear_arith)
            requires
                1 <= b <= 16,
                1 <= x <= y,
        ;
    }
    lemma_pow_increases(16, e, 8);
    reveal_with_fuel(pow, 9);
}

/// The number of digits of `v` in base `base`.
pub fn digit_count(v: u32, base: u8) -> (n: u64)
    requires
        base == 10 || base == 16,
    ensures
        n == width(v as nat, base as nat),
        n <= v + 1,
{
    let b = base as u32;
    let mut n: u64 = 1;
    let mut num = v;
    while num >= b
        invariant
            b == base as u32,
            base == 10 || base == 16,
            num <= v,
            1 <= n <= v - num + 1,
            n + width(num as nat, base as nat) == width(v as nat, base as nat) + 1,
        decreases num,
    {
        proof {
            lemma_div_decreases(num as int, b as int);
        }
        assert(width(num as nat, base as nat) == 1 + width((num / b) as nat, base as nat));
        num = num / b;
        n = n + 1;
    }
    n
}

/// The text takes no more slots than there are.
pub proof fn lemma_ascii_layout_len(chars: Seq<u8>, room: nat)
    ensures
        ascii_layout(chars, room).len() <= room,
    decreases chars.len(),
{
    if chars.len() > 0 && room > 0 {
        if glyph(chars[0]) == 0 {
            lemma_ascii_layout_len(chars.drop_first(), room);
        } else if chars.len() > 1 && chars[1] == 0x2E {
            lemma_ascii_layout_len(chars.subrange(2, chars.len() as int), (room - 1) as nat);
        } else {
            lemma_ascii_layout_len(chars.drop_first(), (room - 1) as nat);
        }
    }
}

/// A fixed-point value takes a slot for its sign, one per integer digit and
/// one per fraction digit.
pub proof fn lemma_fixed_point_len(negative: bool, rounded: nat, precision: nat)
    ensures
        fixed_point_layout(negative, rounded, precision).len() == (if negative {
            1nat
        } else {
            0nat
        }) + width((rounded as int / pow(10, precision)) as nat, 10) + precision,
{
    lemma_glyphs_len((rounded as int / pow(10, precision)) as nat, 10, width((rounded as int / pow(10, precision)) as nat, 10));
    lemma_glyphs_len(rounded, 10, precision);
}

/// On a display of `digits` slots, in base 10 or 16, every integer from
/// `-(base^(digits-1) - 1)` to `base^digits - 1` fits, `base^digits` does not,
/// and, with two slots or more, neither does `-base^(digits-1)`.
pub proof fn lemma_integer_range(base: nat, digits: nat, value: int)
    requires
        base == 10 || base == 16,
        1 <= digits <= 8,
    ensures
        -(pow(base as int, (digits - 1) as nat) - 1) <= value <= pow(base as int, digits) - 1
            ==> fits(value, base, digits),
        !fits(pow(base as int, digits), base, digits),
        digits >= 2 ==> !fits(-pow(base as int, (digits - 1) as nat), base, digits),
{
    lemma_pow0(base as int);
    lemma_pow_positive(base as int, digits);
    lemma_pow_positive(base as int, (digits - 1) as nat);
}

/// A precision of 0, or of `digits` or more, never fits, whatever the value;
/// zero fits at every precision from 1 to `digits - 1`.
pub proof fn lemma_precision_range(
    negative: bool,
    integer_part: nat,
    rounded: nat,
    precision: nat,
    digits: nat,
)
    ensures
        fixed_point_fits(negative, integer_part, rounded, precision, digits) ==> 1 <= precision
            < digits,
        1 <= precision < digits ==> fixed_point_fits(false, 0, 0, precision, digits),
{
    lemma_pow_positive(10, precision);
    lemma_basic_div(0, pow(10, precision));
}

/// Rounding cannot widen the integer part unnoticed: when the rounded integer
/// part needs more slots than the sign and the fraction leave, the value does
/// not fit, and a value that fits takes no more slots than the display has.
pub proof fn lemma_rounding_carry(
    negative: bool,
    integer_part: nat,
    rounded: nat,
    precision: nat,
    digits: nat,
)
    ensures
        (if negative {
            1nat
        } else {
            0nat
        }) + width((rounded as int / pow(10, precision)) as nat, 10) + precision > digits
            ==> !fixed_point_fits(negative, integer_part, rounded, precision, digits),
        fixed_point_fits(negative, integer_part, rounded, precision, digits) ==> fixed_point_layout(
            negative,
            rounded,
            precision,
        ).len() <= digits,
{
    lemma_fixed_point_len(negative, rounded, precision);
}

/// A character without a glyph takes no slot; a character with a glyph
/// followed by '.' takes one slot, with its decimal point lit.
pub proof fn lemma_ascii_slots(c: u8, rest: Seq<u8>, room: nat)
    ensures
        glyph(c) == 0 ==> ascii_layout(seq![c] + rest, room) == ascii_layout(rest, room),
        glyph(c) != 0 && room > 0 ==> ascii_layout(seq![c, 0x2E] + rest, room) == seq![glyph(c)
            | DP] + ascii_layout(rest, (room - 1) as nat),
{
    assert((seq![c] + rest).drop_first() =~= rest);
    let s = seq![c, 0x2Eu8] + rest;
    assert(s.subrange(2, s.len() as int) =~= rest);
    assert(s[1] == 0x2E);
    if room == 0 {
        assert(ascii_layout(rest, room) == Seq::<u8>::empty());
    }
}

} // verus!

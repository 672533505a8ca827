//! Reading and writing bit fields of 64-bit words, unsigned and two's
//! complement, with the laws that packing obeys.

use vstd::prelude::*;
use vstd::arithmetic::power2::{pow2, lemma2_to64, lemma2_to64_rest, lemma_pow2_strictly_increases};
use vstd::bits::{lemma_u64_shl_is_mul, lemma_u64_pow2_no_overflow};

verus! {

/// `value` shifted left by `shift`, 0 once every bit is shifted out.
pub open spec fn shl_spec(value: u64, shift: u64) -> u64 {
    if shift >= 64 {
        0
    } else {
        value << shift
    }
}

/// `value` shifted right by `shift`, 0 once every bit is shifted out.
pub open spec fn shr_spec(value: u64, shift: u64) -> u64 {
    if shift >= 64 {
        0
    } else {
        value >> shift
    }
}

/// The low `width` bits set.
pub open spec fn low_mask(width: u64) -> u64 {
    if width >= 64 {
        0xFFFF_FFFF_FFFF_FFFFu64
    } else {
        ((1u64 << width) - 1) as u64
    }
}

/// Whether `n` fits in `width` unsigned bits.
pub open spec fn fits_unsigned(n: u64, width: u64) -> bool {
    width >= 64 || (n as nat) < pow2(width as nat)
}

/// The unsigned value of the `width` bits of `word` that begin at bit `lsb`.
pub open spec fn field_u(word: u64, width: u64, lsb: u64) -> u64 {
    (word >> lsb) & low_mask(width)
}

/// `word` with its `width` bits at `lsb` replaced by `value`.
pub open spec fn with_field(word: u64, width: u64, lsb: u64, value: u64) -> u64 {
    (word & !(low_mask(width) << lsb)) | (value << lsb)
}

/// A field of `width` bits at `lsb` lies within a 64-bit word.
pub open spec fn field_ok(width: u64, lsb: u64) -> bool {
    width <= 64 && width + lsb <= 64
}

/// For a width below 64, fitting means lying below `1 << width`.
proof fn lemma_fits_unsigned_bits(n: u64, width: u64)
    requires
        width < 64,
    ensures
        fits_unsigned(n, width) <==> n < (1u64 << width),
        (1u64 << width) as nat == pow2(width as nat),
{
    lemma_u64_pow2_no_overflow(width as nat);
    lemma_u64_shl_is_mul(1, width);
}

/// Shifts `value` left by `shift`; a shift of 64 or more gives 0.
pub fn safe_left_shift(value: u64, shift: u64) -> (r: u64)
    ensures
        r == shl_spec(value, shift),
{
    if shift >= 64 {
        0
    } else {
        value << shift
    }
}

/// Shifts `value` right by `shift`; a shift of 64 or more gives 0.
pub fn safe_right_shift(value: u64, shift: u64) -> (r: u64)
    ensures
        r == shr_spec(value, shift),
{
    if shift >= 64 {
        0
    } else {
        value >> shift
    }
}

/// Whether the unsigned `n` fits in `width` unsigned bits.
pub fn fitsu(n: u64, width: u64) -> (r: bool)
    ensures
        r == fits_unsigned(n, width),
{
    if width >= 64 {
        return true;
    }
    proof {
        lemma_fits_unsigned_bits(n, width);
    }
    n < safe_left_shift(1, width)
}

/// The unsigned value of the `width` bits of `word` that begin at bit `lsb`.
#[verifier::rlimit(50)]
pub fn getu(word: u64, width: u64, lsb: u64) -> (r: u64)
    requires
        field_ok(width, lsb),
    ensures
        r == field_u(word, width, lsb),
{
    let r = safe_right_shift(safe_left_shift(word, 64 - (lsb + width)), 64 - width);
    if width == 0 {
        assert(field_u(word, width, lsb) == 0) by (bit_vector)
            requires
                width == 0,
        ;
    } else {
        assert(shr_spec(shl_spec(word, (64 - (lsb + width)) as u64), (64 - width) as u64)
            == field_u(word, width, lsb)) by (bit_vector)
            requires
                0 < width <= 64 && width + lsb <= 64,
        ;
    }
    r
}

/// `word` with the `width` bits at `lsb` set to `value`, or `None` where
/// `value` does not fit in `width` unsigned bits.
pub fn newu(word: u64, width: u64, lsb: u64, value: u64) -> (r: Option<u64>)
    requires
        field_ok(width, lsb),
    ensures
        fits_unsigned(value, width) ==> r == Some(with_field(word, width, lsb, value)),
        !fits_unsigned(value, width) ==> r is None,
{
    if !fitsu(value, width) {
        return None;
    }
    let left: u64 = safe_left_shift(safe_right_shift(word, lsb + width), lsb + width);
    let middle: u64 = safe_left_shift(value, lsb);
    let right: u64 = safe_right_shift(safe_left_shift(word, 64 - lsb), 64 - lsb);
    proof {
        if width < 64 {
            lemma_fits_unsigned_bits(value, width);
        }
    }
    assert(shl_spec(shr_spec(word, (lsb + width) as u64), (lsb + width) as u64) | shl_spec(value, lsb)
        | shr_spec(shl_spec(word, (64 - lsb) as u64), (64 - lsb) as u64) == with_field(
        word,
        width,
        lsb,
        value,
    )) by (bit_vector)
        requires
            width <= 64 && width + lsb <= 64,
            width == 64 || value < (1u64 << width),
    ;
    Some(left | middle | right)
}

/// `value` shifted left by `shift`, 0 once every bit is shifted out.
pub open spec fn shl_s_spec(value: i64, shift: u64) -> i64 {
    if shift >= 64 {
        0
    } else {
        value << shift
    }
}

/// `value` shifted right by `shift`, copying the sign bit; 0 once the
/// shift reaches 64.
pub open spec fn shr_s_spec(value: i64, shift: u64) -> i64 {
    if shift >= 64 {
        0
    } else {
        value >> shift
    }
}

/// Whether `n` lies in the range of a `width`-bit two's complement field.
pub open spec fn in_signed_range(n: int, width: nat) -> bool {
    if width == 0 {
        n == 0
    } else {
        -pow2((width - 1) as nat) <= n < pow2((width - 1) as nat)
    }
}

/// What `fitss` accepts: the signed range of `width` bits, and beside it
/// -1 in every width and every value in 63 bits or more.
pub open spec fn fits_signed(n: i64, width: u64) -> bool {
    n == -1 || width >= 63 || in_signed_range(n as int, width as nat)
}

/// The low `width` bits of the two's complement of `value`.
pub open spec fn pattern(value: i64, width: u64) -> u64 {
    (#[verifier::truncate] (value as u64)) & low_mask(width)
}

/// The `width`-bit pattern `u` read as two's complement: where its top bit
/// is set, every bit above the field is set too.
pub open spec fn sign_extend(u: u64, width: u64) -> i64 {
    if 0 < width < 64 && (u >> ((width - 1) as u64)) & 1 == 1 {
        (u | !low_mask(width)) as i64
    } else {
        u as i64
    }
}

/// The signed value of the `width` bits of `word` that begin at bit `lsb`.
pub open spec fn field_s(word: u64, width: u64, lsb: u64) -> i64 {
    sign_extend(field_u(word, width, lsb), width)
}

/// Shifts `value` left by `shift`; a shift of 64 or more gives 0.
pub fn safe_left_shift_s(value: i64, shift: u64) -> (r: i64)
    ensures
        r == shl_s_spec(value, shift),
{
    if shift >= 64 {
        0
    } else {
        value << shift
    }
}

/// Shifts `value` right by `shift`, copying the sign bit; a shift of 64 or
/// more gives 0.
pub fn safe_right_shift_s(value: i64, shift: u64) -> (r: i64)
    ensures
        r == shr_s_spec(value, shift),
{
    if shift >= 64 {
        0
    } else {
        value >> shift
    }
}

/// Whether the signed `n` fits in `width` signed bits. Every value is
/// taken to fit in 63 bits or more, and -1 in every width.
pub fn fitss(n: i64, width: u64) -> (r: bool)
    ensures
        r == fits_signed(n, width),
{
    if n == -1 {
        return true;
    }
    if width == 0 {
        return n == 0;
    }
    if width >= 63 {
        return true;
    }
    proof {
        lemma_fits_unsigned_bits(0, (width - 1) as u64);
        lemma_pow2_strictly_increases((width - 1) as nat, 62);
        lemma2_to64_rest();
    }
    let bound = safe_left_shift(1, width - 1) as i64;
    let min_value = -bound;
    let max_value = bound - 1;
    n >= min_value && n <= max_value
}

/// The signed value of the `width` bits of `word` that begin at bit `lsb`.
#[verifier::rlimit(50)]
pub fn gets(word: u64, width: u64, lsb: u64) -> (r: i64)
    requires
        field_ok(width, lsb),
    ensures
        r == field_s(word, width, lsb),
{
    let r = safe_right_shift_s(safe_left_shift_s(word as i64, 64 - (lsb + width)), 64 - width);
    if width == 0 {
        assert(field_s(word, width, lsb) == 0) by (bit_vector)
            requires
                width == 0,
        ;
    } else {
        assert(shr_s_spec(shl_s_spec(word as i64, (64 - (lsb + width)) as u64), (64 - width) as u64)
            == field_s(word, width, lsb)) by (bit_vector)
            requires
                0 < width <= 64 && width + lsb <= 64,
        ;
    }
    r
}

/// `word` with the `width` bits at `lsb` set to the two's complement
/// pattern of `value`, or `None` where `fitss` refuses `value`.
#[verifier::rlimit(50)]
pub fn news(word: u64, width: u64, lsb: u64, value: i64) -> (r: Option<u64>)
    requires
        field_ok(width, lsb),
    ensures
        fits_signed(value, width) ==> r == Some(with_field(word, width, lsb, pattern(value, width))),
        !fits_signed(value, width) ==> r is None,
{
    // A one-bit field holds 0 or -1: clear or set its bit.
    if width == 1 && (value == 0 || value == -1) {
        let mask = 1u64 << lsb;
        proof {
            lemma2_to64();
        }
        assert((if value == 0 {
            word & !(1u64 << lsb)
        } else {
            word | (1u64 << lsb)
        }) == with_field(word, 1, lsb, (#[verifier::truncate] (value as u64)) & low_mask(1)))
            by (bit_vector)
            requires
                lsb < 64,
                value == 0 || value == -1,
        ;
        if value == 0 {
            return Some(word & !mask);
        } else {
            return Some(word | mask);
        }
    }
    if !fitss(value, width) {
        return None;
    }
    let value_u: u64 = #[verifier::truncate] (value as u64);
    let left: u64 = safe_left_shift(safe_right_shift(word, lsb + width), lsb + width);
    let middle: u64 = safe_right_shift(safe_left_shift(value_u, 64 - width), 64 - (lsb + width));
    let right: u64 = safe_right_shift(safe_left_shift(word, 64 - lsb), 64 - lsb);
    assert(shl_spec(shr_spec(word, (lsb + width) as u64), (lsb + width) as u64) | shr_spec(
        shl_spec(value_u, (64 - width) as u64),
        (64 - (lsb + width)) as u64,
    ) | shr_spec(shl_spec(word, (64 - lsb) as u64), (64 - lsb) as u64) == with_field(
        word,
        width,
        lsb,
        value_u & low_mask(width),
    )) by (bit_vector)
        requires
            width <= 64 && width + lsb <= 64,
    ;
    Some(left | middle | right)
}

/// Reading back a field just written gives the value written.
pub proof fn lemma_getu_newu(word: u64, width: u64, lsb: u64, value: u64)
    requires
        field_ok(width, lsb),
        fits_unsigned(value, width),
    ensures
        field_u(with_field(word, width, lsb, value), width, lsb) == value,
{
    if width < 64 {
        lemma_fits_unsigned_bits(value, width);
    }
    assert(field_u(with_field(word, width, lsb, value), width, lsb) == value) by (bit_vector)
        requires
            width <= 64 && width + lsb <= 64,
            width == 64 || value < (1u64 << width),
    ;
}

/// Writing a field leaves every field that does not overlap it unchanged.
pub proof fn lemma_newu_disjoint(
    word: u64,
    width: u64,
    lsb: u64,
    value: u64,
    width2: u64,
    lsb2: u64,
)
    requires
        field_ok(width, lsb),
        field_ok(width2, lsb2),
        fits_unsigned(value, width),
        lsb2 >= width + lsb || lsb >= width2 + lsb2,
    ensures
        field_u(with_field(word, width, lsb, value), width2, lsb2) == field_u(word, width2, lsb2),
{
    if width < 64 {
        lemma_fits_unsigned_bits(value, width);
    }
    assert(field_u(with_field(word, width, lsb, value), width2, lsb2) == field_u(word, width2, lsb2))
        by (bit_vector)
        requires
            width <= 64 && width + lsb <= 64,
            width2 <= 64 && width2 + lsb2 <= 64,
            width == 64 || value < (1u64 << width),
            lsb2 >= width + lsb || lsb >= width2 + lsb2,
    ;
}

/// Writing a field leaves the bits above it and the bits below it unchanged.
pub proof fn lemma_newu_keeps_rest(word: u64, width: u64, lsb: u64, value: u64)
    requires
        field_ok(width, lsb),
        fits_unsigned(value, width),
    ensures
        field_u(with_field(word, width, lsb, value), (64 - (lsb + width)) as u64, (lsb + width) as u64)
            == field_u(word, (64 - (lsb + width)) as u64, (lsb + width) as u64),
        field_u(with_field(word, width, lsb, value), lsb, 0) == field_u(word, lsb, 0),
{
    lemma_newu_disjoint(word, width, lsb, value, (64 - (lsb + width)) as u64, (lsb + width) as u64);
    lemma_newu_disjoint(word, width, lsb, value, lsb, 0);
}

/// Two fields that do not overlap can be written in either order.
pub proof fn lemma_newu_commute(
    word: u64,
    width: u64,
    lsb: u64,
    value: u64,
    width2: u64,
    lsb2: u64,
    value2: u64,
)
    requires
        field_ok(width, lsb),
        field_ok(width2, lsb2),
        fits_unsigned(value, width),
        fits_unsigned(value2, width2),
        lsb2 >= width + lsb || lsb >= width2 + lsb2,
    ensures
        with_field(with_field(word, width, lsb, value), width2, lsb2, value2) == with_field(
            with_field(word, width2, lsb2, value2),
            width,
            lsb,
            value,
        ),
{
    if width < 64 {
        lemma_fits_unsigned_bits(value, width);
    }
    if width2 < 64 {
        lemma_fits_unsigned_bits(value2, width2);
    }
    assert(with_field(with_field(word, width, lsb, value), width2, lsb2, value2) == with_field(
        with_field(word, width2, lsb2, value2),
        width,
        lsb,
        value,
    )) by (bit_vector)
        requires
            width <= 64 && width + lsb <= 64,
            width2 <= 64 && width2 + lsb2 <= 64,
            width == 64 || value < (1u64 << width),
            width2 == 64 || value2 < (1u64 << width2),
            lsb2 >= width + lsb || lsb >= width2 + lsb2,
    ;
}

/// A field written inside a field that is written afterwards leaves no trace.
#[verifier::rlimit(100)]
pub proof fn lemma_newu_overwrite(
    word: u64,
    width: u64,
    lsb: u64,
    value: u64,
    width2: u64,
    lsb2: u64,
    value2: u64,
)
    requires
        field_ok(width, lsb),
        field_ok(width2, lsb2),
        fits_unsigned(value, width),
        fits_unsigned(value2, width2),
        lsb <= lsb2,
        lsb2 + width2 <= lsb + width,
    ensures
        with_field(with_field(word, width2, lsb2, value2), width, lsb, value) == with_field(
            word,
            width,
            lsb,
            value,
        ),
{
    if width < 64 {
        lemma_fits_unsigned_bits(value, width);
    }
    if width2 < 64 {
        lemma_fits_unsigned_bits(value2, width2);
    }
    // The outer write reads the word only outside its own field, where the
    // inner write changed nothing.
    assert(with_field(word, width2, lsb2, value2) & !(low_mask(width) << lsb) == word & !(low_mask(
        width,
    ) << lsb)) by (bit_vector)
        requires
            width <= 64 && width + lsb <= 64,
            width2 <= 64 && width2 + lsb2 <= 64,
            width2 == 64 || value2 < (1u64 << width2),
            lsb <= lsb2 && lsb2 + width2 <= lsb + width,
    ;
}

/// A value that fits in `width` bits, shifted left by two, fits in
/// `width + 2` bits.
pub proof fn lemma_fitsu_shift_left(value: u64, width: u64)
    requires
        width <= 64,
        fits_unsigned(value, width),
    ensures
        fits_unsigned(shl_spec(value, 2), (width + 2) as u64),
{
    if width < 62 {
        lemma_fits_unsigned_bits(value, width);
        lemma_fits_unsigned_bits(shl_spec(value, 2), (width + 2) as u64);
        assert(value << 2u64 < (1u64 << ((width + 2) as u64))) by (bit_vector)
            requires
                width < 62,
                value < (1u64 << width),
        ;
    }
}

/// Shifting right by two keeps a value within `width - 2` bits exactly
/// when it was within `width` bits.
pub proof fn lemma_fitsu_shift_right(value: u64, width: u64)
    requires
        2 <= width,
    ensures
        fits_unsigned(value, width) == fits_unsigned(shr_spec(value, 2), (width - 2) as u64),
{
    if width < 66 {
        lemma_fits_unsigned_bits(shr_spec(value, 2), (width - 2) as u64);
        if width < 64 {
            lemma_fits_unsigned_bits(value, width);
        }
        assert((width == 64 || width == 65 || value < (1u64 << width)) == (value >> 2u64 < (1u64
            << ((width - 2) as u64)))) by (bit_vector)
            requires
                2 <= width < 66,
        ;
    }
}

/// In a width of 1 to 63 bits, the signed range is the one that
/// `1 << (width - 1)` bounds.
proof fn lemma_signed_range_bits(n: i64, width: u64)
    requires
        1 <= width <= 63,
    ensures
        in_signed_range(n as int, width as nat) <==> -((1u64 << ((width - 1) as u64)) as int) <= n
            < (1u64 << ((width - 1) as u64)) as int,
{
    lemma_fits_unsigned_bits(0, (width - 1) as u64);
}

/// A pattern of `width` bits fits in `width` unsigned bits.
proof fn lemma_pattern_fits(value: i64, width: u64)
    requires
        width <= 64,
    ensures
        fits_unsigned(pattern(value, width), width),
{
    if width < 64 {
        lemma_fits_unsigned_bits(pattern(value, width), width);
        let v = #[verifier::truncate] (value as u64);
        assert(v & low_mask(width) < (1u64 << width)) by (bit_vector)
            requires
                width < 64,
        ;
    }
}

/// Reading back a signed field just written gives the value written.
pub proof fn lemma_gets_news(word: u64, width: u64, lsb: u64, value: i64)
    requires
        field_ok(width, lsb),
        in_signed_range(value as int, width as nat),
    ensures
        fits_signed(value, width),
        field_s(with_field(word, width, lsb, pattern(value, width)), width, lsb) == value,
{
    lemma_pattern_fits(value, width);
    lemma_getu_newu(word, width, lsb, pattern(value, width));
    if width == 0 {
        assert(sign_extend(pattern(value, width), width) == value) by (bit_vector)
            requires
                width == 0,
                value == 0,
        ;
    } else if width == 64 {
        assert(sign_extend(pattern(value, width), width) == value) by (bit_vector)
            requires
                width == 64,
        ;
    } else {
        lemma_signed_range_bits(value, width);
        assert(sign_extend(pattern(value, width), width) == value) by (bit_vector)
            requires
                1 <= width <= 63,
                -((1u64 << ((width - 1) as u64)) as int) <= value,
                value < (1u64 << ((width - 1) as u64)) as int,
        ;
    }
}

/// Writing a signed field leaves every field that does not overlap it, and
/// the bits above and below it, unchanged.
pub proof fn lemma_news_disjoint(
    word: u64,
    width: u64,
    lsb: u64,
    value: i64,
    width2: u64,
    lsb2: u64,
)
    requires
        field_ok(width, lsb),
        field_ok(width2, lsb2),
        lsb2 >= width + lsb || lsb >= width2 + lsb2,
    ensures
        field_s(with_field(word, width, lsb, pattern(value, width)), width2, lsb2) == field_s(
            word,
            width2,
            lsb2,
        ),
        field_s(
            with_field(word, width, lsb, pattern(value, width)),
            (64 - (lsb + width)) as u64,
            (lsb + width) as u64,
        ) == field_s(word, (64 - (lsb + width)) as u64, (lsb + width) as u64),
        field_s(with_field(word, width, lsb, pattern(value, width)), lsb, 0) == field_s(
            word,
            lsb,
            0,
        ),
{
    lemma_pattern_fits(value, width);
    lemma_newu_disjoint(word, width, lsb, pattern(value, width), width2, lsb2);
    lemma_newu_keeps_rest(word, width, lsb, pattern(value, width));
}

/// Two signed fields that do not overlap can be written in either order.
pub proof fn lemma_news_commute(
    word: u64,
    width: u64,
    lsb: u64,
    value: i64,
    width2: u64,
    lsb2: u64,
    value2: i64,
)
    requires
        field_ok(width, lsb),
        field_ok(width2, lsb2),
        lsb2 >= width + lsb || lsb >= width2 + lsb2,
    ensures
        with_field(
            with_field(word, width, lsb, pattern(value, width)),
            width2,
            lsb2,
            pattern(value2, width2),
        ) == with_field(
            with_field(word, width2, lsb2, pattern(value2, width2)),
            width,
            lsb,
            pattern(value, width),
        ),
{
    lemma_pattern_fits(value, width);
    lemma_pattern_fits(value2, width2);
    lemma_newu_commute(
        word,
        width,
        lsb,
        pattern(value, width),
        width2,
        lsb2,
        pattern(value2, width2),
    );
}

/// A signed field written inside a field that is written afterwards leaves
/// no trace.
pub proof fn lemma_news_overwrite(
    word: u64,
    width: u64,
    lsb: u64,
    value: i64,
    width2: u64,
    lsb2: u64,
    value2: i64,
)
    requires
        field_ok(width, lsb),
        field_ok(width2, lsb2),
        lsb <= lsb2,
        lsb2 + width2 <= lsb + width,
    ensures
        with_field(
            with_field(word, width2, lsb2, pattern(value2, width2)),
            width,
            lsb,
            pattern(value, width),
        ) == with_field(word, width, lsb, pattern(value, width)),
{
    lemma_pattern_fits(value, width);
    lemma_pattern_fits(value2, width2);
    lemma_newu_overwrite(
        word,
        width,
        lsb,
        pattern(value, width),
        width2,
        lsb2,
        pattern(value2, width2),
    );
}

/// A value in the signed range of `width` bits, shifted left by two, is
/// accepted by `fitss` in `width + 2` bits.
pub proof fn lemma_fitss_shift_left(value: i64, width: u64)
    requires
        width <= 64,
        in_signed_range(value as int, width as nat),
    ensures
        fits_signed(
            #[verifier::truncate] (shl_spec(#[verifier::truncate] (value as u64), 2) as i64),
            (width + 2) as u64,
        ),
{
    let shifted = #[verifier::truncate] (shl_spec(#[verifier::truncate] (value as u64), 2) as i64);
    if width == 0 {
        assert(shifted == 0) by (bit_vector)
            requires
                value == 0,
                shifted == #[verifier::truncate] (shl_spec(
                    #[verifier::truncate] (value as u64),
                    2,
                ) as i64),
        ;
        lemma2_to64();
    } else if width <= 60 {
        lemma_signed_range_bits(value, width);
        lemma_signed_range_bits(shifted, (width + 2) as u64);
        assert(-((1u64 << ((width + 1) as u64)) as int) <= shifted < (1u64 << ((width
            + 1) as u64)) as int) by (bit_vector)
            requires
                1 <= width <= 60,
                -((1u64 << ((width - 1) as u64)) as int) <= value,
                value < (1u64 << ((width - 1) as u64)) as int,
                shifted == #[verifier::truncate] (shl_spec(
                    #[verifier::truncate] (value as u64),
                    2,
                ) as i64),
        ;
    }
}

/// A value in the signed range of `width` bits, shifted right by two, is
/// accepted by `fitss` in `width - 2` bits.
pub proof fn lemma_fitss_shift_right(value: i64, width: u64)
    requires
        2 <= width <= 64,
        in_signed_range(value as int, width as nat),
    ensures
        fits_signed(shr_s_spec(value, 2), (width - 2) as u64),
{
    let shifted = shr_s_spec(value, 2);
    if width == 2 {
        lemma2_to64();
        assert(shifted == 0 || shifted == -1) by (bit_vector)
            requires
                -2 <= value < 2,
                shifted == shr_s_spec(value, 2),
        ;
    } else {
        if width < 64 {
            lemma_signed_range_bits(value, width);
        }
        lemma_signed_range_bits(shifted, (width - 2) as u64);
        assert(-((1u64 << ((width - 3) as u64)) as int) <= shifted < (1u64 << ((width
            - 3) as u64)) as int) by (bit_vector)
            requires
                3 <= width <= 64,
                width == 64 || -((1u64 << ((width - 1) as u64)) as int) <= value,
                width == 64 || value < (1u64 << ((width - 1) as u64)) as int,
                shifted == shr_s_spec(value, 2),
        ;
    }
}

} // verus!

//! Numbers of the language: IEEE-754 doubles, held by their 64-bit patterns.
//!
//! A pattern is a sign (the top bit), an exponent field of 11 bits and a
//! fraction of 52 bits. Everything here is exact: sign, order, whole parts and
//! the conversions between whole numbers and patterns. Arithmetic that rounds
//! is not done here.

use crate::text::{decimal_digits, is_ascii_digit, is_digit, push_char, push_decimal};
use vstd::arithmetic::mul::{lemma_mul_inequality, lemma_mul_strict_inequality};
use vstd::arithmetic::power2::{
    lemma2_to64, lemma2_to64_rest, lemma_pow2_adds, lemma_pow2_pos, lemma_pow2_strictly_increases,
    lemma_pow2_unfold, pow2,
};
use vstd::prelude::*;

pub mod whole;

verus! {

/// The pattern that holds the sign alone: two to the 63.
pub const SIGN: u64 = 0x8000_0000_0000_0000;

/// The weight of the exponent field: two to the 52.
pub const HIDDEN: u64 = 0x0010_0000_0000_0000;

/// The pattern of positive infinity.
pub const INFINITY: u64 = 0x7FF0_0000_0000_0000;

/// The pattern of the number one.
pub const ONE: u64 = 0x3FF0_0000_0000_0000;

/// Whether the sign bit is set.
pub open spec fn negative(bits: u64) -> bool {
    bits >= SIGN
}

/// The pattern without its sign bit.
pub open spec fn magnitude_bits(bits: u64) -> u64 {
    if bits >= SIGN {
        (bits - SIGN) as u64
    } else {
        bits
    }
}

/// The exponent field, 0 to 2047.
pub open spec fn exponent(bits: u64) -> int {
    magnitude_bits(bits) as int / HIDDEN as int
}

/// The fraction field.
pub open spec fn fraction(bits: u64) -> int {
    magnitude_bits(bits) as int % HIDDEN as int
}

/// Whether the pattern is not a number.
pub open spec fn nan(bits: u64) -> bool {
    magnitude_bits(bits) > INFINITY
}

/// Whether the pattern is zero, of either sign.
pub open spec fn zero(bits: u64) -> bool {
    magnitude_bits(bits) == 0
}

/// The pattern with the opposite sign.
pub open spec fn negated(bits: u64) -> u64 {
    if bits >= SIGN {
        (bits - SIGN) as u64
    } else {
        (bits + SIGN) as u64
    }
}

/// An integer that orders the patterns as the numbers are ordered: the
/// magnitude, negative under a sign. Both zeros have key 0.
pub open spec fn order_key(bits: u64) -> int {
    if negative(bits) {
        -(magnitude_bits(bits) as int)
    } else {
        magnitude_bits(bits) as int
    }
}

/// Whether two patterns are equal as numbers: neither is a NaN, and they hold
/// the same value (the two zeros are equal).
pub open spec fn same_number(a: u64, b: u64) -> bool {
    !nan(a) && !nan(b) && order_key(a) == order_key(b)
}

/// Whether `a` is less than `b` as numbers; false where either is a NaN.
pub open spec fn below(a: u64, b: u64) -> bool {
    !nan(a) && !nan(b) && order_key(a) < order_key(b)
}

/// Whether `a` is at most `b` as numbers; false where either is a NaN.
pub open spec fn at_most(a: u64, b: u64) -> bool {
    !nan(a) && !nan(b) && order_key(a) <= order_key(b)
}

/// The integer that the fraction stands for: with the hidden bit, but for the
/// smallest exponent.
pub open spec fn significand(bits: u64) -> nat {
    if exponent(bits) == 0 {
        fraction(bits) as nat
    } else {
        (HIDDEN + fraction(bits)) as nat
    }
}

/// The whole part of the magnitude: the magnitude is the significand times two
/// to the power of the exponent field less 1075.
pub open spec fn whole_part(bits: u64) -> nat {
    let e = exponent(bits);
    if e < 1023 {
        0
    } else if e <= 1075 {
        significand(bits) / pow2((1075 - e) as nat)
    } else {
        significand(bits) * pow2((e - 1075) as nat)
    }
}

/// Whether the pattern is a finite number without a fractional part.
pub open spec fn whole(bits: u64) -> bool {
    let e = exponent(bits);
    if e >= 2047 {
        false
    } else if zero(bits) {
        true
    } else if e < 1023 {
        false
    } else if e <= 1075 {
        significand(bits) % pow2((1075 - e) as nat) == 0
    } else {
        true
    }
}

/// `n`, or `limit` where `n` is larger.
pub open spec fn capped(n: nat, limit: nat) -> nat {
    if n > limit {
        limit
    } else {
        n
    }
}

/// Whether the pattern counts from zero up: it is a number, no NaN, and is
/// zero or above. Only such a number can be the index of an element.
pub open spec fn counting(bits: u64) -> bool {
    !nan(bits) && (zero(bits) || !negative(bits))
}

/// The place that the pattern stands for: its whole part, 0 for a NaN or a
/// negative number, and the largest index where the whole part is larger.
pub open spec fn index_of(bits: u64) -> usize {
    if nan(bits) || negative(bits) {
        0
    } else {
        capped(whole_part(bits), usize::MAX as nat) as usize
    }
}

/// The byte that the pattern stands for: its whole part, 0 for a NaN or a
/// negative number, and 255 where the whole part is larger.
pub open spec fn byte_of(bits: u64) -> u8 {
    if nan(bits) || negative(bits) {
        0
    } else {
        capped(whole_part(bits), 255) as u8
    }
}

/// A whole number in decimal: the whole part, kept within the signed 64-bit
/// range, with a minus sign where it is negative and not zero.
pub open spec fn whole_text(bits: u64) -> Seq<char> {
    let w = whole_part(bits);
    if w == 0 {
        seq!['0']
    } else if negative(bits) {
        seq!['-'] + decimal_digits(capped(w, SIGN as nat))
    } else {
        decimal_digits(capped(w, (SIGN - 1) as nat))
    }
}

/// The number of binary digits of `n`.
pub open spec fn bit_length(n: nat) -> nat
    decreases n,
{
    if n == 0 {
        0
    } else {
        1 + bit_length(n / 2)
    }
}

/// The pattern of the double nearest to the whole number `n` (below two to the
/// 64); of two doubles equally near, the one with the even significand.
pub open spec fn double_of(n: nat) -> u64 {
    if n == 0 {
        0
    } else {
        let len = bit_length(n);
        if len <= 53 {
            ((len + 1022) * HIDDEN + (n * pow2((53 - len) as nat) - HIDDEN)) as u64
        } else {
            let shift = (len - 53) as nat;
            let kept = n / pow2(shift);
            let rest = n % pow2(shift);
            let half = pow2((shift - 1) as nat);
            let up: nat = if rest > half || (rest == half && kept % 2 == 1) {
                1
            } else {
                0
            };
            ((len + 1022) * HIDDEN + (kept + up - HIDDEN)) as u64
        }
    }
}

/// The value of a text of decimal digits.
pub open spec fn digits_value(s: Seq<char>) -> nat
    decreases s.len(),
{
    if s.len() == 0 {
        0
    } else {
        digits_value(s.drop_last()) * 10 + (s.last() as nat - 48) as nat
    }
}

/// Whether every character of `s` is a decimal digit.
pub open spec fn all_digits(s: Seq<char>) -> bool {
    forall|i: int| 0 <= i < s.len() ==> is_digit(#[trigger] s[i])
}

/// The value of a text of digits where it is at most `limit`; `None` where
/// the text holds another character or stands for more.
pub open spec fn bounded_value(s: Seq<char>, limit: u64) -> Option<u64> {
    if all_digits(s) && digits_value(s) <= limit {
        Some(digits_value(s) as u64)
    } else {
        None
    }
}

/// The pattern of the double nearest to the ratio `n / d` of two numbers that
/// are not zero and below two to the 64; of two doubles equally near, the one
/// with the even significand. The ratio is scaled by a power of two so that its
/// whole part has 54 or 55 binary digits; of these, 53 are kept, and what is
/// cut off decides the rounding.
pub open spec fn ratio_double(n: nat, d: nat) -> u64 {
    let bn = bit_length(n);
    let bd = bit_length(d);
    let num = if bn <= bd + 54 {
        n * pow2((54 + bd - bn) as nat)
    } else {
        n
    };
    let den = if bn <= bd + 54 {
        d
    } else {
        d * pow2((bn - bd - 54) as nat)
    };
    let whole = num / den;
    let left = num % den;
    let shift = (bit_length(whole) - 53) as nat;
    let kept = whole / pow2(shift);
    let rest = whole % pow2(shift);
    let half = pow2((shift - 1) as nat);
    let up: nat = if rest > half || (rest == half && (left > 0 || kept % 2 == 1)) {
        1
    } else {
        0
    };
    ((1020 + shift + bn - bd) * HIDDEN + kept + up) as u64
}

/// Ten to the power `k`.
pub open spec fn pow10(k: nat) -> nat
    decreases k,
{
    if k == 0 {
        1
    } else {
        10 * pow10((k - 1) as nat)
    }
}

/// The largest value of the digits of a literal that is read here: below ten to
/// the 18.
pub const MAX_DIGITS_VALUE: u64 = 999_999_999_999_999_999;

/// The place of the dot in a literal, or its length where it has none.
pub open spec fn dot_place(s: Seq<char>, from: int) -> int
    decreases s.len() - from,
{
    if from < 0 || from >= s.len() || s[from] == '.' {
        from
    } else {
        dot_place(s, from + 1)
    }
}

/// The pattern of a number literal: digits, and optionally a dot and more
/// digits. The literal stands for the double nearest to its value. Only a
/// literal whose digits, read as one whole number, stay below ten to the 18 and
/// that has at most 19 digits behind the dot is read here; `None` for a longer
/// one and for any other text.
pub open spec fn decimal_literal(s: Seq<char>) -> Option<u64> {
    let dot = dot_place(s, 0);
    let whole = s.subrange(0, dot);
    let fraction = if dot < s.len() {
        s.subrange(dot + 1, s.len() as int)
    } else {
        Seq::empty()
    };
    if whole.len() > 0 && all_digits(whole) && all_digits(fraction) && (dot == s.len()
        || fraction.len() > 0) && fraction.len() <= 19 && digits_value(whole + fraction)
        <= MAX_DIGITS_VALUE {
        if digits_value(whole + fraction) == 0 {
            Some(0u64)
        } else {
            Some(ratio_double(digits_value(whole + fraction), pow10(fraction.len())))
        }
    } else {
        None
    }
}

/// Whether the sign bit is set.
pub fn is_negative(bits: u64) -> (r: bool)
    ensures
        r == negative(bits),
{
    bits >= SIGN
}

/// The pattern without its sign bit.
pub fn magnitude(bits: u64) -> (r: u64)
    ensures
        r == magnitude_bits(bits),
{
    if bits >= SIGN {
        bits - SIGN
    } else {
        bits
    }
}

/// Whether the pattern is not a number.
pub fn is_nan(bits: u64) -> (r: bool)
    ensures
        r == nan(bits),
{
    magnitude(bits) > INFINITY
}

/// Whether the pattern is zero, of either sign.
pub fn is_zero(bits: u64) -> (r: bool)
    ensures
        r == zero(bits),
{
    magnitude(bits) == 0
}

/// The pattern with the opposite sign.
pub fn negate(bits: u64) -> (r: u64)
    ensures
        r == negated(bits),
{
    if bits >= SIGN {
        bits - SIGN
    } else {
        bits + SIGN
    }
}

/// Whether two patterns are equal as numbers.
pub fn equal(a: u64, b: u64) -> (r: bool)
    ensures
        r == same_number(a, b),
{
    if is_nan(a) || is_nan(b) {
        false
    } else if is_zero(a) && is_zero(b) {
        true
    } else {
        a == b
    }
}

/// Whether `a` is less than `b` as numbers.
pub fn less(a: u64, b: u64) -> (r: bool)
    ensures
        r == below(a, b),
{
    if is_nan(a) || is_nan(b) {
        false
    } else if is_negative(a) {
        if is_negative(b) {
            magnitude(a) > magnitude(b)
        } else {
            !(is_zero(a) && is_zero(b))
        }
    } else {
        if is_negative(b) {
            false
        } else {
            magnitude(a) < magnitude(b)
        }
    }
}

/// Whether `a` is at most `b` as numbers.
pub fn less_equal(a: u64, b: u64) -> (r: bool)
    ensures
        r == at_most(a, b),
{
    less(a, b) || equal(a, b)
}

/// Two to the power `k`.
fn power_of_two(k: u64) -> (p: u64)
    requires
        k < 64,
    ensures
        p == pow2(k as nat),
{
    let mut p: u64 = 1;
    let mut i: u64 = 0;
    proof {
        lemma2_to64();
    }
    while i < k
        invariant
            i <= k < 64,
            p == pow2(i as nat),
        decreases k - i,
    {
        proof {
            lemma_pow2_unfold((i + 1) as nat);
            lemma_pow2_strictly_increases((i + 1) as nat, 64);
            lemma2_to64_rest();
        }
        p = p * 2;
        i = i + 1;
    }
    p
}

/// The exponent field and the significand of a pattern.
fn fields(bits: u64) -> (r: (u64, u64))
    ensures
        r.0 == exponent(bits),
        r.1 == significand(bits),
        r.0 <= 2047,
        r.1 < 2 * HIDDEN,
        r.0 > 0 ==> r.1 >= HIDDEN,
{
    let m = magnitude(bits);
    let e = m / HIDDEN;
    let f = m % HIDDEN;
    if e == 0 {
        (e, f)
    } else {
        (e, HIDDEN + f)
    }
}

/// The whole part of the magnitude, or the largest 64-bit value where the whole
/// part is larger.
pub fn whole_saturating(bits: u64) -> (r: u64)
    ensures
        r == capped(whole_part(bits), u64::MAX as nat),
{
    let (e, m) = fields(bits);
    if e < 1023 {
        0
    } else if e <= 1075 {
        let p = power_of_two(1075 - e);
        proof {
            lemma_pow2_pos((1075 - e) as nat);
        }
        m / p
    } else if e - 1075 >= 12 {
        proof {
            let k = (e - 1075) as nat;
            lemma2_to64();
            if k > 12 {
                lemma_pow2_strictly_increases(12, k);
            }
            lemma_mul_inequality(pow2(12) as int, pow2(k) as int, m as int);
            lemma_mul_inequality(HIDDEN as int, m as int, pow2(12) as int);
            assert(HIDDEN * pow2(12) == 0x1_0000_0000_0000_0000);
            assert(m * pow2(k) == pow2(k) * m) by (nonlinear_arith);
            assert(m * pow2(12) == pow2(12) * m) by (nonlinear_arith);
        }
        u64::MAX
    } else {
        let p = power_of_two(e - 1075);
        proof {
            let k = (e - 1075) as nat;
            lemma2_to64();
            if k < 11 {
                lemma_pow2_strictly_increases(k, 11);
            }
            lemma_mul_strict_inequality(m as int, 2 * HIDDEN as int, p as int);
            lemma_mul_inequality(p as int, 2048, 2 * HIDDEN as int);
            assert(2 * HIDDEN * p == p * (2 * HIDDEN)) by (nonlinear_arith);
            assert(2048 * (2 * HIDDEN) == 0x1_0000_0000_0000_0000);
        }
        m * p
    }
}

/// Whether the pattern is a finite number without a fractional part.
pub fn is_whole(bits: u64) -> (r: bool)
    ensures
        r == whole(bits),
{
    let (e, m) = fields(bits);
    if e >= 2047 {
        false
    } else if is_zero(bits) {
        true
    } else if e < 1023 {
        false
    } else if e <= 1075 {
        let p = power_of_two(1075 - e);
        proof {
            lemma_pow2_pos((1075 - e) as nat);
        }
        m % p == 0
    } else {
        true
    }
}

/// Whether the pattern counts from zero up.
pub fn is_counting(bits: u64) -> (r: bool)
    ensures
        r == counting(bits),
{
    !is_nan(bits) && (is_zero(bits) || !is_negative(bits))
}

/// The place that the pattern stands for.
pub fn to_index(bits: u64) -> (r: usize)
    ensures
        r == index_of(bits),
{
    if is_nan(bits) || is_negative(bits) {
        0
    } else {
        let w = whole_saturating(bits);
        if w > usize::MAX as u64 {
            usize::MAX
        } else {
            w as usize
        }
    }
}

/// The byte that the pattern stands for.
pub fn to_byte(bits: u64) -> (r: u8)
    ensures
        r == byte_of(bits),
{
    if is_nan(bits) || is_negative(bits) {
        0
    } else {
        let w = whole_saturating(bits);
        if w > 255 {
            255
        } else {
            w as u8
        }
    }
}

/// The decimal text of a whole number.
pub fn whole_to_string(bits: u64) -> (r: String)
    ensures
        r@ == whole_text(bits),
{
    let w = whole_saturating(bits);
    let mut out = String::new();
    if w == 0 {
        push_char(&mut out, '0');
        assert(out@ == seq!['0']);
    } else if is_negative(bits) {
        push_char(&mut out, '-');
        assert(out@ == seq!['-']);
        push_decimal(
            &mut out,
            if w > SIGN {
                SIGN
            } else {
                w
            },
        );
    } else {
        push_decimal(
            &mut out,
            if w > SIGN - 1 {
                SIGN - 1
            } else {
                w
            },
        );
        assert(Seq::<char>::empty() + whole_text(bits) == whole_text(bits));
    }
    out
}

/// A number of `len` binary digits lies between two to the `len` less one and
/// two to the `len`.
pub proof fn lemma_bit_length_bounds(n: nat)
    requires
        n > 0,
    ensures
        bit_length(n) >= 1,
        pow2((bit_length(n) - 1) as nat) <= n < pow2(bit_length(n)),
    decreases n,
{
    lemma2_to64();
    if n == 1 {
        assert(bit_length(1) == 1 + bit_length(0));
    } else {
        lemma_bit_length_bounds(n / 2);
        let len = bit_length(n / 2);
        lemma_pow2_unfold(len);
        lemma_pow2_unfold(len + 1);
    }
}

/// The number of binary digits of `n`.
fn count_bits(n: u64) -> (len: u64)
    ensures
        len == bit_length(n as nat),
        len <= 64,
{
    let mut t: u64 = n;
    let mut len: u64 = 0;
    proof {
        if n > 0 {
            lemma_bit_length_bounds(n as nat);
            lemma2_to64_rest();
            if bit_length(n as nat) > 64 {
                lemma_pow2_strictly_increases(64, (bit_length(n as nat) - 1) as nat);
                if bit_length(n as nat) - 1 > 64 {
                } else {
                }
            }
        }
    }
    while t > 0
        invariant
            bit_length(n as nat) == len + bit_length(t as nat),
            bit_length(n as nat) <= 64,
        decreases t,
    {
        t = t / 2;
        len = len + 1;
    }
    len
}

/// The pattern of the double nearest to the whole number `n`.
pub fn from_integer(n: u64) -> (r: u64)
    ensures
        r == double_of(n as nat),
{
    if n == 0 {
        return 0;
    }
    let len = count_bits(n);
    proof {
        lemma_bit_length_bounds(n as nat);
        lemma2_to64();
        lemma2_to64_rest();
    }
    if len <= 53 {
        let p = power_of_two(53 - len);
        proof {
            lemma_pow2_adds((len - 1) as nat, (53 - len) as nat);
            lemma_pow2_adds(len as nat, (53 - len) as nat);
            lemma_mul_inequality(pow2((len - 1) as nat) as int, n as int, p as int);
            lemma_mul_strict_inequality(n as int, pow2(len as nat) as int, p as int);
        }
        (len + 1022) * HIDDEN + (n * p - HIDDEN)
    } else {
        let shift = len - 53;
        let p = power_of_two(shift);
        let half = power_of_two(shift - 1);
        proof {
            lemma_pow2_pos(shift as nat);
            lemma_pow2_adds(53, shift as nat);
            lemma_pow2_adds(52, shift as nat);
            assert(n / p < 2 * HIDDEN) by (nonlinear_arith)
                requires
                    n < pow2(len as nat),
                    pow2(len as nat) == 2 * HIDDEN * p,
                    p > 0,
            ;
            assert(n / p >= HIDDEN) by (nonlinear_arith)
                requires
                    n >= pow2((len - 1) as nat),
                    pow2((len - 1) as nat) == HIDDEN * p,
                    p > 0,
            ;
        }
        let kept = n / p;
        let rest = n % p;
        let up: u64 = if rest > half || (rest == half && kept % 2 == 1) {
            1
        } else {
            0
        };
        (len + 1022) * HIDDEN + (kept + up - HIDDEN)
    }
}

/// The value of a prefix of a text of digits is at most the value of the text.
pub proof fn lemma_digits_value_grows(s: Seq<char>, n: int)
    requires
        0 <= n <= s.len(),
        all_digits(s),
    ensures
        digits_value(s.subrange(0, n)) <= digits_value(s),
    decreases s.len() - n,
{
    if n < s.len() {
        lemma_digits_value_grows(s, n + 1);
        let longer = s.subrange(0, n + 1);
        assert(longer.drop_last() == s.subrange(0, n));
        assert(is_digit(s[n]));
    } else {
        assert(s.subrange(0, n) == s);
    }
}

/// The value of the digits `chars[from..to]`, where it is at most `limit`.
pub fn digits_to_integer(chars: &Vec<char>, from: usize, to: usize, limit: u64) -> (r: Option<u64>)
    requires
        from <= to <= chars.len(),
        limit < 0x1000_0000_0000_0000,
    ensures
        r == bounded_value(chars@.subrange(from as int, to as int), limit),
{
    let ghost s = chars@.subrange(from as int, to as int);
    let mut value: u64 = 0;
    let mut i: usize = from;
    assert(s.subrange(0, 0) =~= Seq::<char>::empty());
    while i < to
        invariant
            from <= i <= to <= chars.len(),
            s == chars@.subrange(from as int, to as int),
            value == digits_value(s.subrange(0, i - from)),
            value <= limit < 0x1000_0000_0000_0000,
            forall|j: int| 0 <= j < i - from ==> is_digit(#[trigger] s[j]),
        decreases to - i,
    {
        let c = chars[i];
        assert(c == s[i - from]);
        if !is_ascii_digit(c) {
            return None;
        }
        let d: u64 = (c as u32 - 48) as u64;
        proof {
            assert(s.subrange(0, i - from + 1).drop_last() == s.subrange(0, i - from));
        }
        value = value * 10 + d;
        if value > limit {
            proof {
                if all_digits(s) {
                    lemma_digits_value_grows(s, i - from + 1);
                }
            }
            return None;
        }
        i = i + 1;
    }
    proof {
        assert(s.subrange(0, i - from) == s);
    }
    Some(value)
}

/// Two to the power `k`.
fn wide_power_of_two(k: u64) -> (p: u128)
    requires
        k < 128,
    ensures
        p == pow2(k as nat),
{
    let mut p: u128 = 1;
    let mut i: u64 = 0;
    proof {
        lemma2_to64();
    }
    while i < k
        invariant
            i <= k < 128,
            p == pow2(i as nat),
        decreases k - i,
    {
        proof {
            lemma_pow2_unfold((i + 1) as nat);
            lemma_pow2_strictly_increases((i + 1) as nat, 128);
            lemma_pow2_adds(64, 64);
            lemma2_to64_rest();
        }
        p = p * 2;
        i = i + 1;
    }
    p
}

/// The number of binary digits of `n`.
fn count_wide_bits(n: u128) -> (len: u64)
    ensures
        len == bit_length(n as nat),
        len <= 128,
{
    let mut t: u128 = n;
    let mut len: u64 = 0;
    proof {
        if n > 0 {
            lemma_bit_length_bounds(n as nat);
            lemma_pow2_adds(64, 64);
            lemma2_to64_rest();
            if bit_length(n as nat) > 128 {
                lemma_pow2_strictly_increases(128, (bit_length(n as nat) - 1) as nat);
            }
        }
    }
    while t > 0
        invariant
            bit_length(n as nat) == len + bit_length(t as nat),
            bit_length(n as nat) <= 128,
        decreases t,
    {
        t = t / 2;
        len = len + 1;
    }
    len
}

/// The scaled ratio of `ratio_double` has 54 or 55 binary digits.
proof fn lemma_scaled_ratio(n: nat, d: nat)
    requires
        0 < n < 0x1_0000_0000_0000_0000,
        0 < d < 0x1_0000_0000_0000_0000,
    ensures
        ({
            let bn = bit_length(n);
            let bd = bit_length(d);
            let num = if bn <= bd + 54 {
                n * pow2((54 + bd - bn) as nat)
            } else {
                n
            };
            let den = if bn <= bd + 54 {
                d
            } else {
                d * pow2((bn - bd - 54) as nat)
            };
            &&& 1 <= bn <= 64
            &&& 1 <= bd <= 64
            &&& 0 < den < 0x200_0000_0000_0000_0000
            &&& num < 0x40_0000_0000_0000_0000_0000_0000_0000
            &&& pow2(53) <= num / den < pow2(55)
            &&& 54 <= bit_length(num / den) <= 55
        }),
{
    let bn = bit_length(n);
    let bd = bit_length(d);
    lemma_bit_length_bounds(n);
    lemma_bit_length_bounds(d);
    lemma2_to64();
    lemma2_to64_rest();
    if bn > 64 {
        lemma_pow2_strictly_increases(64, (bn - 1) as nat);
    }
    if bd > 64 {
        lemma_pow2_strictly_increases(64, (bd - 1) as nat);
    }
    let x = pow2(bd);
    let y = pow2((bd - 1) as nat);
    lemma_pow2_unfold(bd);
    assert(x == 2 * y);
    if bn <= bd + 54 {
        let t = (54 + bd - bn) as nat;
        let p = pow2(t);
        let num = n * p;
        lemma_pow2_adds((bn - 1) as nat, t);
        lemma_pow2_adds(bn, t);
        lemma_pow2_adds(53, bd);
        lemma_pow2_adds(54, bd);
        lemma_pow2_adds(54, 64);
        lemma_pow2_pos(t);
        if bd < 64 {
            lemma_pow2_strictly_increases(54 + bd, 118);
        }
        assert(pow2(53) * x <= num < pow2(54) * x) by (nonlinear_arith)
            requires
                pow2((bn - 1) as nat) <= n < pow2(bn),
                pow2((bn - 1) as nat) * p == pow2(53) * x,
                pow2(bn) * p == pow2(54) * x,
                p > 0,
                num == n * p,
        ;
        assert(pow2(54) * x <= pow2(118)) by {
            lemma_pow2_adds(54, bd);
        }
        assert(pow2(118) == 0x40_0000_0000_0000_0000_0000_0000_0000) by {
            lemma_pow2_adds(64, 54);
        }
        assert(pow2(53) <= num / d < pow2(55)) by (nonlinear_arith)
            requires
                pow2(53) * x <= num < pow2(54) * x,
                y <= d < x,
                x == 2 * y,
                y > 0,
                pow2(55) == 2 * pow2(54),
        ;
    } else {
        let t = (bn - bd - 54) as nat;
        let p = pow2(t);
        let den = d * p;
        lemma_pow2_pos(t);
        lemma_pow2_adds((bd - 1) as nat, t);
        lemma_pow2_adds(bd, t);
        lemma_pow2_adds((bn - 55) as nat, 54);
        lemma_pow2_adds((bn - 55) as nat, 53);
        lemma_pow2_adds((bn - 54) as nat, 54);
        lemma_pow2_unfold((bn - 54) as nat);
        lemma_pow2_pos((bn - 55) as nat);
        if bn < 64 {
            lemma_pow2_strictly_increases((bn - 54) as nat, 10);
        }
        let lo = pow2((bn - 55) as nat);
        assert(lo <= den < 2 * lo) by (nonlinear_arith)
            requires
                y <= d < x,
                x == 2 * y,
                y * p == lo,
                den == d * p,
                p > 0,
        ;
        assert(pow2(10) == 1024);
        assert(2 * lo <= 1024);
        assert(pow2(53) <= n / den < pow2(55)) by (nonlinear_arith)
            requires
                lo * pow2(54) <= n < 2 * lo * pow2(54),
                lo <= den < 2 * lo,
                lo > 0,
                pow2(54) == 2 * pow2(53),
                pow2(55) == 2 * pow2(54),
        ;
    }
    let num = if bn <= bd + 54 {
        n * pow2((54 + bd - bn) as nat)
    } else {
        n
    };
    let den = if bn <= bd + 54 {
        d
    } else {
        d * pow2((bn - bd - 54) as nat)
    };
    let q = num / den;
    lemma_bit_length_bounds(q);
    let bq = bit_length(q);
    if bq < 54 {
        if bq < 53 {
            lemma_pow2_strictly_increases(bq, 53);
        }
    }
    if bq > 55 {
        if bq > 56 {
            lemma_pow2_strictly_increases(55, (bq - 1) as nat);
        }
    }
}

/// The pattern of the double nearest to the ratio `n / d`.
pub fn ratio_to_double(n: u64, d: u64) -> (r: u64)
    requires
        n > 0,
        d > 0,
    ensures
        r == ratio_double(n as nat, d as nat),
{
    let bn = count_bits(n);
    let bd = count_bits(d);
    proof {
        lemma_scaled_ratio(n as nat, d as nat);
        lemma2_to64();
        lemma2_to64_rest();
    }
    let num: u128 = if bn <= bd + 54 {
        (n as u128) * wide_power_of_two(54 + bd - bn)
    } else {
        n as u128
    };
    let den: u128 = if bn <= bd + 54 {
        d as u128
    } else {
        (d as u128) * wide_power_of_two(bn - bd - 54)
    };
    let whole = num / den;
    let left = num % den;
    let bq = count_wide_bits(whole);
    let shift = bq - 53;
    let p = wide_power_of_two(shift);
    let half = wide_power_of_two(shift - 1);
    proof {
        lemma_bit_length_bounds(whole as nat);
        lemma_pow2_adds(53, shift as nat);
        lemma_pow2_pos(shift as nat);
        assert(whole / p < pow2(53)) by (nonlinear_arith)
            requires
                whole < pow2(53) * p,
                p > 0,
        ;
    }
    let kept = whole / p;
    let rest = whole % p;
    let up: u128 = if rest > half || (rest == half && (left > 0 || kept % 2 == 1)) {
        1
    } else {
        0
    };
    let field: u64 = 1020 + shift + bn - bd;
    let bits: u128 = (field as u128) * (HIDDEN as u128) + kept + up;
    bits as u64
}

/// Powers of ten grow, are not zero, and ten to the 19 is below two to the 64.
pub proof fn lemma_pow10(i: nat, j: nat)
    requires
        i <= j,
    ensures
        0 < pow10(i) <= pow10(j),
        j <= 19 ==> pow10(j) <= 10_000_000_000_000_000_000,
    decreases j,
{
    if j == 0 {
    } else if i == j {
        lemma_pow10((i - 1) as nat, (j - 1) as nat);
    } else {
        lemma_pow10(i, (j - 1) as nat);
    }
    if j <= 19 {
        reveal_with_fuel(pow10, 20);
        assert(pow10(19) == 10_000_000_000_000_000_000);
        if j < 19 {
            lemma_pow10_below(j, 19);
        }
    }
}

/// A power of ten is at most every later one.
proof fn lemma_pow10_below(i: nat, j: nat)
    requires
        i <= j,
    ensures
        0 < pow10(i) <= pow10(j),
    decreases j,
{
    if j == 0 {
    } else if i == j {
        lemma_pow10_below((i - 1) as nat, (j - 1) as nat);
    } else {
        lemma_pow10_below(i, (j - 1) as nat);
    }
}

/// Ten to the power `k`.
fn power_of_ten(k: usize) -> (p: u64)
    requires
        k <= 19,
    ensures
        p == pow10(k as nat),
        p > 0,
{
    let mut p: u64 = 1;
    let mut i: usize = 0;
    while i < k
        invariant
            i <= k <= 19,
            p == pow10(i as nat),
            p > 0,
        decreases k - i,
    {
        proof {
            lemma_pow10((i + 1) as nat, (i + 1) as nat);
        }
        p = p * 10;
        i = i + 1;
    }
    p
}

/// The pattern of a number literal.
pub fn literal_value(lexeme: &str) -> (r: Option<u64>)
    ensures
        r == decimal_literal(lexeme@),
{
    let chars = crate::text::chars_of(lexeme);
    let mut dot: usize = 0;
    while dot < chars.len() && chars[dot] != '.'
        invariant
            dot <= chars.len(),
            dot_place(chars@, 0) == dot_place(chars@, dot as int),
        decreases chars.len() - dot,
    {
        dot = dot + 1;
    }
    let ghost whole = chars@.subrange(0, dot as int);
    let ghost fraction = if dot < chars.len() {
        chars@.subrange(dot + 1, chars.len() as int)
    } else {
        Seq::<char>::empty()
    };
    if dot == 0 {
        return None;
    }
    let places: usize = if dot < chars.len() {
        chars.len() - dot - 1
    } else {
        0
    };
    if (dot < chars.len() && places == 0) || places > 19 {
        return None;
    }
    let mut digits: Vec<char> = Vec::new();
    let mut i: usize = 0;
    while i < chars.len()
        invariant
            i <= chars.len(),
            dot <= chars.len(),
            digits@ == (if i <= dot {
                chars@.subrange(0, i as int)
            } else {
                chars@.subrange(0, dot as int) + chars@.subrange(dot + 1, i as int)
            }),
        decreases chars.len() - i,
    {
        if i != dot {
            digits.push(chars[i]);
        }
        proof {
            if i < dot {
                assert(chars@.subrange(0, i + 1) =~= chars@.subrange(0, i as int).push(
                    chars@[i as int],
                ));
            } else if i == dot {
                assert(chars@.subrange(dot + 1, i + 1) =~= Seq::<char>::empty());
                assert(chars@.subrange(0, dot as int) + Seq::<char>::empty()
                    =~= chars@.subrange(0, dot as int));
            } else {
                assert(chars@.subrange(0, dot as int) + chars@.subrange(dot + 1, i + 1) =~= (
                chars@.subrange(0, dot as int) + chars@.subrange(dot + 1, i as int)).push(
                    chars@[i as int],
                ));
            }
        }
        i = i + 1;
    }
    proof {
        assert(digits@ =~= whole + fraction);
        assert(digits@.subrange(0, digits.len() as int) == digits@);
        lemma_all_digits_split(whole, fraction);
    }
    match digits_to_integer(&digits, 0, digits.len(), MAX_DIGITS_VALUE) {
        None => None,
        Some(value) => {
            if value == 0 {
                Some(0)
            } else {
                Some(ratio_to_double(value, power_of_ten(places)))
            }
        },
    }
}

/// The digits of two texts are the digits of the texts joined.
pub proof fn lemma_all_digits_split(a: Seq<char>, b: Seq<char>)
    ensures
        all_digits(a + b) == (all_digits(a) && all_digits(b)),
{
    if all_digits(a + b) {
        assert forall|i: int| 0 <= i < a.len() implies is_digit(#[trigger] a[i]) by {
            assert((a + b)[i] == a[i]);
        }
        assert forall|i: int| 0 <= i < b.len() implies is_digit(#[trigger] b[i]) by {
            assert((a + b)[a.len() + i] == b[i]);
        }
    }
    if all_digits(a) && all_digits(b) {
        assert forall|i: int| 0 <= i < (a + b).len() implies is_digit(#[trigger] (a + b)[i]) by {
            if i < a.len() {
                assert((a + b)[i] == a[i]);
            } else {
                assert((a + b)[i] == b[i - a.len()]);
            }
        }
    }
}

} // verus!

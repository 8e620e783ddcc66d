//! Whole numbers and integers as doubles: below two to the 53 in magnitude they
//! are exact. Their doubles are ordered as the integers are, are whole, and are
//! written as the integers are in decimal.

use super::{
    at_most, below, bit_length, capped, double_of, exponent, fraction, lemma_bit_length_bounds,
    magnitude_bits, nan, negated, negative, order_key, significand, whole, whole_part,
    whole_text, zero, HIDDEN, INFINITY, SIGN,
};
use crate::text::decimal_digits;
use vstd::arithmetic::div_mod::lemma_fundamental_div_mod_converse;
use vstd::arithmetic::mul::{lemma_mul_inequality, lemma_mul_strict_inequality};
use vstd::arithmetic::power2::{
    lemma2_to64, lemma2_to64_rest, lemma_pow2_adds, lemma_pow2_pos, lemma_pow2_strictly_increases,
    pow2,
};
use vstd::prelude::*;

verus! {

/// A larger number has as many binary digits or more.
pub proof fn lemma_bit_length_grows(x: nat, y: nat)
    requires
        x <= y,
    ensures
        bit_length(x) <= bit_length(y),
    decreases y,
{
    if x > 0 {
        lemma_bit_length_grows(x / 2, y / 2);
    }
}

/// The double of a whole number below two to the 53, other than 0: its
/// exponent field is the number of binary digits and 1022, its fraction the
/// digits after the first; it is a number, not negative, and is its own key in
/// the order.
pub proof fn lemma_double_of_whole(n: nat)
    requires
        0 < n < pow2(53),
    ensures
        1 <= bit_length(n) <= 53,
        (bit_length(n) + 1022) * HIDDEN <= double_of(n) < (bit_length(n) + 1023) * HIDDEN,
        double_of(n) == (bit_length(n) + 1022) * HIDDEN + n * pow2((53 - bit_length(n)) as nat)
            - HIDDEN,
        !nan(double_of(n)),
        !negative(double_of(n)),
        order_key(double_of(n)) == double_of(n),
{
    let len = bit_length(n);
    lemma_bit_length_bounds(n);
    lemma2_to64();
    lemma2_to64_rest();
    if len > 53 {
        if len > 54 {
            lemma_pow2_strictly_increases(53, (len - 1) as nat);
        }
        assert(false);
    }
    let rest = (53 - len) as nat;
    let p = pow2(rest);
    lemma_pow2_pos(rest);
    lemma_pow2_adds((len - 1) as nat, rest);
    lemma_pow2_adds(len, rest);
    assert(pow2((len - 1) as nat) * p == HIDDEN);
    assert(pow2(len) * p == 2 * HIDDEN);
    lemma_mul_inequality(pow2((len - 1) as nat) as int, n as int, p as int);
    lemma_mul_strict_inequality(n as int, pow2(len) as int, p as int);
    assert(HIDDEN <= n * p < 2 * HIDDEN);
    let value = (len + 1022) * HIDDEN + n * p - HIDDEN;
    assert((len + 1022) * HIDDEN <= value < (len + 1023) * HIDDEN) by (nonlinear_arith)
        requires
            value == (len + 1022) * HIDDEN + n * p - HIDDEN,
            HIDDEN <= n * p < 2 * HIDDEN,
    ;
    assert((len + 1023) * HIDDEN <= 1076 * HIDDEN) by (nonlinear_arith)
        requires
            len <= 53,
    ;
    assert(value < INFINITY);
}

/// The doubles of two whole numbers below two to the 53 are in the order of
/// the whole numbers.
pub proof fn whole_numbers_keep_their_order(x: nat, y: nat)
    requires
        x < pow2(53),
        y < pow2(53),
    ensures
        at_most(double_of(x), double_of(y)) == (x <= y),
        below(double_of(x), double_of(y)) == (x < y),
        (double_of(x) == double_of(y)) == (x == y),
{
    if x < y {
        lemma_keys_grow(x, y);
    }
    if y < x {
        lemma_keys_grow(y, x);
    }
    if x > 0 {
        lemma_double_of_whole(x);
    }
    if y > 0 {
        lemma_double_of_whole(y);
    }
}

/// A smaller whole number has the smaller key.
proof fn lemma_keys_grow(x: nat, y: nat)
    requires
        x < y < pow2(53),
    ensures
        order_key(double_of(x)) < order_key(double_of(y)),
{
    lemma_double_of_whole(y);
    if x > 0 {
        lemma_double_of_whole(x);
        lemma_bit_length_grows(x, y);
        let a = bit_length(x);
        let b = bit_length(y);
        if a == b {
            let p = pow2((53 - a) as nat);
            lemma_pow2_pos((53 - a) as nat);
            lemma_mul_strict_inequality(x as int, y as int, p as int);
        } else {
            assert((a + 1023) * HIDDEN <= (b + 1022) * HIDDEN) by (nonlinear_arith)
                requires
                    a < b,
            ;
        }
    }
}

/// The number of rounds of a loop that counts from `from` up to `to` in steps
/// of `by`: a round for each of `from`, `from + by`, `from + 2 * by` and so on
/// that is at most `to`.
pub open spec fn rounds(from: int, to: int, by: int) -> nat
    decreases
            (if from <= to {
                to + 1 - from
            } else {
                0
            }),
{
    if from > to || by <= 0 {
        0
    } else {
        1 + rounds(from + by, to, by)
    }
}

/// A loop that counts from `from` up to `to` in steps of `by` makes no round
/// where `from` is above `to`, and else one more than the steps that fit
/// between them.
pub proof fn rounds_are_counted(from: int, to: int, by: int)
    requires
        by > 0,
    ensures
        rounds(from, to, by) == if from > to {
            0
        } else {
            (to - from) / by + 1
        },
    decreases
            (if from <= to {
                to + 1 - from
            } else {
                0
            }),
{
    if from <= to {
        rounds_are_counted(from + by, to, by);
        let d = to - from;
        if from + by > to {
            assert(d / by == 0) by (nonlinear_arith)
                requires
                    0 <= d < by,
            ;
        } else {
            assert(d / by == (d - by) / by + 1) by (nonlinear_arith)
                requires
                    d >= by,
                    by > 0,
            ;
        }
    }
}

/// The double of a whole number below two to the 53 is whole, its whole part is
/// the number, and it is written as the number is in decimal.
pub proof fn whole_numbers_read_back(n: nat)
    requires
        n < pow2(53),
    ensures
        whole(double_of(n)),
        whole_part(double_of(n)) == n,
        whole_text(double_of(n)) == decimal_digits(n),
{
    lemma2_to64();
    lemma2_to64_rest();
    if n > 0 {
        lemma_double_of_whole(n);
        let len = bit_length(n);
        let rest = (53 - len) as nat;
        let p = pow2(rest);
        lemma_pow2_pos(rest);
        lemma_bit_length_bounds(n);
        lemma_pow2_adds((len - 1) as nat, rest);
        lemma_pow2_adds(len, rest);
        lemma_mul_inequality(pow2((len - 1) as nat) as int, n as int, p as int);
        lemma_mul_strict_inequality(n as int, pow2(len) as int, p as int);
        let bits = double_of(n);
        let field = n * p - HIDDEN;
        assert(0 <= field < HIDDEN);
        assert(magnitude_bits(bits) == bits);
        lemma_fundamental_div_mod_converse(
            bits as int,
            HIDDEN as int,
            (len + 1022) as int,
            field as int,
        );
        assert(exponent(bits) == len + 1022);
        assert(fraction(bits) == field);
        assert(significand(bits) == n * p);
        assert(1075 - exponent(bits) == rest);
        lemma_fundamental_div_mod_converse((n * p) as int, p as int, n as int, 0);
        assert(whole_part(bits) == n);
        assert(!zero(bits));
        assert(whole(bits));
        assert(capped(n, (SIGN - 1) as nat) == n);
    } else {
        assert(double_of(0) == 0);
        assert(whole_part(0) == 0);
        assert(decimal_digits(0) =~= seq!['0']);
    }
}

/// The magnitude of an integer.
pub open spec fn magnitude_of(i: int) -> nat {
    if i >= 0 {
        i as nat
    } else {
        (-i) as nat
    }
}

/// The pattern of the double of an integer: that of its magnitude, under a
/// sign where the integer is below zero.
pub open spec fn double_of_int(i: int) -> u64 {
    if i >= 0 {
        double_of(i as nat)
    } else {
        negated(double_of((-i) as nat))
    }
}

/// An integer in decimal, with a minus sign where it is below zero.
pub open spec fn integer_text(i: int) -> Seq<char> {
    if i >= 0 {
        decimal_digits(i as nat)
    } else {
        seq!['-'] + decimal_digits((-i) as nat)
    }
}

/// Whether the double of the integer is exact: its magnitude is below two to
/// the 53.
pub open spec fn exact(i: int) -> bool {
    magnitude_of(i) < pow2(53)
}

/// The key of the double of an exact integer is that of its magnitude, below
/// zero where the integer is; the double is a number.
proof fn lemma_key_of_integer(i: int)
    requires
        exact(i),
    ensures
        !nan(double_of_int(i)),
        order_key(double_of_int(i)) == if i >= 0 {
            order_key(double_of(magnitude_of(i)))
        } else {
            -order_key(double_of(magnitude_of(i)))
        },
        order_key(double_of(magnitude_of(i))) >= 0,
        i != 0 ==> order_key(double_of(magnitude_of(i))) > 0,
        magnitude_bits(double_of_int(i)) == double_of(magnitude_of(i)),
        negative(double_of_int(i)) == (i < 0),
{
    let n = magnitude_of(i);
    if n > 0 {
        lemma_double_of_whole(n);
        lemma2_to64();
        lemma2_to64_rest();
        assert(double_of(n) < SIGN);
    }
}

/// The doubles of exact integers are in the order of the integers.
pub proof fn integers_keep_their_order(x: int, y: int)
    requires
        exact(x),
        exact(y),
    ensures
        at_most(double_of_int(x), double_of_int(y)) == (x <= y),
        below(double_of_int(x), double_of_int(y)) == (x < y),
{
    lemma_key_of_integer(x);
    lemma_key_of_integer(y);
    whole_numbers_keep_their_order(magnitude_of(x), magnitude_of(y));
}

/// The double of an exact integer is whole and is written as the integer is in
/// decimal.
pub proof fn integers_read_back(i: int)
    requires
        exact(i),
    ensures
        whole(double_of_int(i)),
        whole_text(double_of_int(i)) == integer_text(i),
{
    let n = magnitude_of(i);
    whole_numbers_read_back(n);
    lemma_key_of_integer(i);
    if i < 0 {
        lemma_double_of_whole(n);
        lemma2_to64();
        lemma2_to64_rest();
        let bits = double_of_int(i);
        assert(bits == double_of(n) + SIGN);
        assert(magnitude_bits(bits) == double_of(n));
        assert(exponent(bits) == exponent(double_of(n)));
        assert(fraction(bits) == fraction(double_of(n)));
        assert(significand(bits) == significand(double_of(n)));
        assert(whole_part(bits) == n);
        assert(capped(n, SIGN as nat) == n);
    }
}

} // verus!

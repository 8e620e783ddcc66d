//! Text helpers shared by the front end, the compiler and the virtual machine.
//!
//! Strings are modelled by their sequence of characters (`s@`).

use vstd::prelude::*;

verus! {

/// Whether `c` is alphabetic in the sense of Unicode.
pub uninterp spec fn alphabetic(c: char) -> bool;

/// Whether `c` is alphabetic or numeric in the sense of Unicode.
pub uninterp spec fn alphanumeric(c: char) -> bool;

/// The upper-case form of a text, character by character as Unicode defines it.
pub uninterp spec fn uppercase_of(s: Seq<char>) -> Seq<char>;

/// Appends one character to `s`.
///
/// Trusted: `String::push` appends the given character to the end of the string.
#[verifier::external_body]
pub(crate) fn push_char(s: &mut String, c: char)
    ensures
        final(s)@ == old(s)@.push(c),
{
    s.push(c)
}

/// Trusted: `char::is_alphabetic` depends on the character alone; its result is
/// named `alphabetic`.
#[verifier::external_body]
pub(crate) fn is_alphabetic(c: char) -> (r: bool)
    ensures
        r == alphabetic(c),
{
    c.is_alphabetic()
}

/// Trusted: `char::is_alphanumeric` depends on the character alone; its result is
/// named `alphanumeric`.
#[verifier::external_body]
pub(crate) fn is_alphanumeric(c: char) -> (r: bool)
    ensures
        r == alphanumeric(c),
{
    c.is_alphanumeric()
}

/// Trusted: `str::to_uppercase` depends on the text alone; its result is named
/// `uppercase_of`.
#[verifier::external_body]
pub(crate) fn to_uppercase(s: &str) -> (r: String)
    ensures
        r@ == uppercase_of(s@),
{
    s.to_uppercase()
}

/// The characters of `s`, in order.
pub fn chars_of(s: &str) -> (r: Vec<char>)
    ensures
        r@ == s@,
{
    let mut out: Vec<char> = Vec::new();
    for c in it: s.chars()
        invariant
            it.seq() == s@,
            out@ == s@.subrange(0, it.index() as int),
    {
        out.push(c);
    }
    assert(s@.subrange(0, s@.len() as int) == s@);
    out
}

/// The string made of the characters `v[from..to]`.
pub fn slice_text(v: &Vec<char>, from: usize, to: usize) -> (r: String)
    requires
        from <= to <= v.len(),
    ensures
        r@ == v@.subrange(from as int, to as int),
{
    let mut out = String::new();
    let mut i: usize = from;
    while i < to
        invariant
            from <= i <= to <= v.len(),
            out@ == v@.subrange(from as int, i as int),
        decreases to - i,
    {
        push_char(&mut out, v[i]);
        i = i + 1;
    }
    out
}

/// The string made of the characters `v`, in order.
pub fn string_of(v: &Vec<char>) -> (r: String)
    ensures
        r@ == v@,
{
    let r = slice_text(v, 0, v.len());
    assert(v@.subrange(0, v.len() as int) == v@);
    r
}

/// The string that holds the single character `c`.
pub fn char_text(c: char) -> (r: String)
    ensures
        r@ == seq![c],
{
    let mut out = String::new();
    push_char(&mut out, c);
    out
}

/// Whether two pieces of text hold the same characters.
pub fn same_text(a: &str, b: &str) -> (r: bool)
    ensures
        r == (a@ == b@),
{
    let x = a.to_owned();
    let y = b.to_owned();
    x == y
}

/// Whether the characters `word` spell the text `lit`.
pub fn spells(word: &Vec<char>, lit: &str) -> (r: bool)
    ensures
        r == (word@ == lit@),
{
    let n = lit.unicode_len();
    if n != word.len() {
        return false;
    }
    let mut i: usize = 0;
    while i < n
        invariant
            n == lit@.len(),
            n == word.len(),
            i <= n,
            word@.subrange(0, i as int) == lit@.subrange(0, i as int),
        decreases n - i,
    {
        if word[i] != lit.get_char(i) {
            return false;
        }
        assert(word@.subrange(0, i + 1) == word@.subrange(0, i as int).push(word@[i as int]));
        assert(lit@.subrange(0, i + 1) == lit@.subrange(0, i as int).push(lit@[i as int]));
        i = i + 1;
    }
    assert(word@.subrange(0, n as int) == word@);
    assert(lit@.subrange(0, n as int) == lit@);
    true
}

/// The decimal digit `d` (0 to 9) as a character.
pub open spec fn digit_char(d: int) -> char {
    ((48 + d) as u8) as char
}

/// `n` written in base ten, without sign or leading zeros.
pub open spec fn decimal_digits(n: nat) -> Seq<char>
    decreases n,
{
    if n < 10 {
        seq![digit_char(n as int)]
    } else {
        decimal_digits(n / 10).push(digit_char((n % 10) as int))
    }
}

/// Appends `n` in base ten to `out`.
pub fn push_decimal(out: &mut String, n: u64)
    ensures
        final(out)@ == old(out)@ + decimal_digits(n as nat),
    decreases n,
{
    if n >= 10 {
        push_decimal(out, n / 10);
    }
    let d: u8 = (n % 10) as u8;
    push_char(out, (48u8 + d) as char);
    proof {
        if n < 10 {
            assert(old(out)@.push(digit_char(n as int)) == old(out)@ + seq![digit_char(n as int)]);
        } else {
            assert((old(out)@ + decimal_digits((n / 10) as nat)).push(digit_char((n % 10) as int))
                == old(out)@ + decimal_digits((n / 10) as nat).push(
                digit_char((n % 10) as int),
            ));
        }
    }
}

/// `message`, followed by the place it speaks of: ` at line L, column C`.
pub open spec fn located(message: Seq<char>, line: int, column: int) -> Seq<char> {
    message + " at line "@ + decimal_digits(line as nat) + ", column "@ + decimal_digits(
        column as nat,
    )
}

/// `message`, followed by the place it speaks of: ` at line L, column C`.
pub fn located_message(message: &str, line: usize, column: usize) -> (r: String)
    ensures
        r@ == located(message@, line as int, column as int),
{
    let mut out = message.to_owned();
    out.append(" at line ");
    push_decimal(&mut out, line as u64);
    out.append(", column ");
    push_decimal(&mut out, column as u64);
    out
}

/// Whether `c` is one of the ten ASCII digits.
pub open spec fn is_digit(c: char) -> bool {
    '0' <= c && c <= '9'
}

/// Whether `c` is one of the ten ASCII digits.
pub fn is_ascii_digit(c: char) -> (r: bool)
    ensures
        r == is_digit(c),
{
    '0' <= c && c <= '9'
}


/// Whether `c` is white space in the sense of Unicode.
pub uninterp spec fn white_space(c: char) -> bool;

/// Trusted: `char::is_whitespace` depends on the character alone; its result is
/// named `white_space`.
#[verifier::external_body]
pub(crate) fn is_whitespace(c: char) -> (r: bool)
    ensures
        r == white_space(c),
{
    c.is_whitespace()
}

/// The first offset at or after `from` whose character is not white space, or
/// the length of `s`.
pub open spec fn white_prefix(s: Seq<char>, from: int) -> int
    decreases s.len() - from,
{
    if from < 0 || from >= s.len() || !white_space(s[from]) {
        from
    } else {
        white_prefix(s, from + 1)
    }
}

/// The least offset from which on all characters before `to` are white space.
pub open spec fn white_suffix(s: Seq<char>, to: int) -> int
    decreases to,
{
    if to <= 0 || to > s.len() || !white_space(s[to - 1]) {
        to
    } else {
        white_suffix(s, to - 1)
    }
}

/// `s` without the white space at its start.
pub open spec fn trim_start_of(s: Seq<char>) -> Seq<char> {
    s.subrange(white_prefix(s, 0), s.len() as int)
}

/// `s` without the white space at its end.
pub open spec fn trim_end_of(s: Seq<char>) -> Seq<char> {
    s.subrange(0, white_suffix(s, s.len() as int))
}

/// `s` without the white space at its start and at its end.
pub open spec fn trimmed(s: Seq<char>) -> Seq<char> {
    trim_end_of(trim_start_of(s))
}

/// The white space at the start of a text ends inside the text.
pub proof fn lemma_white_prefix_bounds(s: Seq<char>, from: int)
    requires
        0 <= from <= s.len(),
    ensures
        from <= white_prefix(s, from) <= s.len(),
    decreases s.len() - from,
{
    if from < s.len() && white_space(s[from]) {
        lemma_white_prefix_bounds(s, from + 1);
    }
}

/// The white space at the end of a text starts inside the text.
pub proof fn lemma_white_suffix_bounds(s: Seq<char>, to: int)
    requires
        0 <= to <= s.len(),
    ensures
        0 <= white_suffix(s, to) <= to,
    decreases to,
{
    if to > 0 && white_space(s[to - 1]) {
        lemma_white_suffix_bounds(s, to - 1);
    }
}

/// The offset of the first character of `v` that is not white space.
fn skip_white(v: &Vec<char>) -> (r: usize)
    ensures
        r == white_prefix(v@, 0),
        r <= v.len(),
{
    let mut i: usize = 0;
    while i < v.len() && is_whitespace(v[i])
        invariant
            i <= v.len(),
            white_prefix(v@, 0) == white_prefix(v@, i as int),
        decreases v.len() - i,
    {
        i = i + 1;
    }
    i
}

/// The offset after the last of the first `to` characters of `v` that is not
/// white space.
fn skip_white_back(v: &Vec<char>, from: usize) -> (r: usize)
    requires
        from <= v.len(),
    ensures
        r == white_suffix(v@.subrange(from as int, v.len() as int), v.len() - from) + from,
        from <= r <= v.len(),
{
    let ghost s = v@.subrange(from as int, v.len() as int);
    let mut i: usize = v.len();
    while i > from && is_whitespace(v[i - 1])
        invariant
            from <= i <= v.len(),
            s == v@.subrange(from as int, v.len() as int),
            white_suffix(s, v.len() - from) == white_suffix(s, i - from),
        decreases i,
    {
        assert(s[i - 1 - from] == v@[i - 1]);
        i = i - 1;
    }
    proof {
        if i > from {
            assert(s[i - 1 - from] == v@[i - 1]);
        }
    }
    i
}

/// `s` without the white space at its start.
pub fn trim_start(s: &str) -> (r: String)
    ensures
        r@ == trim_start_of(s@),
{
    let chars = chars_of(s);
    let from = skip_white(&chars);
    slice_text(&chars, from, chars.len())
}

/// `s` without the white space at its end.
pub fn trim_end(s: &str) -> (r: String)
    ensures
        r@ == trim_end_of(s@),
{
    let chars = chars_of(s);
    let to = skip_white_back(&chars, 0);
    assert(chars@.subrange(0, chars.len() as int) == chars@);
    slice_text(&chars, 0, to)
}

/// `s` without the white space at its start and at its end.
pub fn trim(s: &str) -> (r: String)
    ensures
        r@ == trimmed(s@),
{
    let chars = chars_of(s);
    let from = skip_white(&chars);
    let to = skip_white_back(&chars, from);
    let r = slice_text(&chars, from, to);
    assert(r@ =~= trimmed(s@));
    r
}

/// `t` written `n` times.
pub open spec fn repeated(t: Seq<char>, n: nat) -> Seq<char>
    decreases n,
{
    if n == 0 {
        Seq::empty()
    } else {
        repeated(t, (n - 1) as nat) + t
    }
}

/// `t` written `n` times.
pub fn repeat(t: &str, n: usize) -> (r: String)
    ensures
        r@ == repeated(t@, n as nat),
{
    let mut out = String::new();
    let mut i: usize = 0;
    while i < n
        invariant
            i <= n,
            out@ == repeated(t@, i as nat),
        decreases n - i,
    {
        out.append(t);
        i = i + 1;
    }
    out
}

/// Appends `n` in base ten to `out`.
pub fn push_wide_decimal(out: &mut String, n: u128)
    ensures
        final(out)@ == old(out)@ + decimal_digits(n as nat),
    decreases n,
{
    if n >= 10 {
        push_wide_decimal(out, n / 10);
    }
    let d: u8 = (n % 10) as u8;
    push_char(out, (48u8 + d) as char);
    proof {
        if n < 10 {
            assert(old(out)@.push(digit_char(n as int)) == old(out)@ + seq![digit_char(n as int)]);
        } else {
            assert((old(out)@ + decimal_digits((n / 10) as nat)).push(digit_char((n % 10) as int))
                == old(out)@ + decimal_digits((n / 10) as nat).push(
                digit_char((n % 10) as int),
            ));
        }
    }
}

/// The end of the digits that begin at `from`: the first offset at or after
/// `from` whose character is no digit, or the length of `s`.
pub open spec fn digits_end(s: Seq<char>, from: int) -> int
    decreases s.len() - from,
{
    if from < 0 || from >= s.len() || !is_digit(s[from]) {
        from
    } else {
        digits_end(s, from + 1)
    }
}

/// The digits that begin at `from` end inside the text.
pub proof fn lemma_digits_end_bounds(s: Seq<char>, from: int)
    requires
        0 <= from <= s.len(),
    ensures
        from <= digits_end(s, from) <= s.len(),
    decreases s.len() - from,
{
    if from < s.len() && is_digit(s[from]) {
        lemma_digits_end_bounds(s, from + 1);
    }
}

/// The offset after a sign at `from`, or `from` where no sign stands there.
pub open spec fn sign_end(s: Seq<char>, from: int) -> int {
    if 0 <= from < s.len() && (s[from] == '+' || s[from] == '-') {
        from + 1
    } else {
        from
    }
}

/// The offset after the fraction that begins at `from`: a dot and the digits
/// after it; `from` where no dot stands there.
pub open spec fn fraction_end(s: Seq<char>, from: int) -> int {
    if 0 <= from < s.len() && s[from] == '.' {
        digits_end(s, from + 1)
    } else {
        from
    }
}

/// The numeric text at the start of `s`: after the white space at the start,
/// an optional sign, digits, and optionally a dot and more digits, as far as
/// they go. It is empty where no digit stands there.
pub open spec fn leading_number(s: Seq<char>) -> Seq<char> {
    let start = white_prefix(s, 0);
    let first = sign_end(s, start);
    let whole = digits_end(s, first);
    let end = fraction_end(s, whole);
    if whole > first || end > whole + 1 {
        s.subrange(start, end)
    } else {
        Seq::empty()
    }
}

/// The offset after the digits of `v` that begin at `from`.
fn skip_digits(v: &Vec<char>, from: usize) -> (r: usize)
    requires
        from <= v.len(),
    ensures
        r == digits_end(v@, from as int),
        from <= r <= v.len(),
{
    let mut i: usize = from;
    while i < v.len() && is_ascii_digit(v[i])
        invariant
            from <= i <= v.len(),
            digits_end(v@, from as int) == digits_end(v@, i as int),
        decreases v.len() - i,
    {
        i = i + 1;
    }
    i
}

/// The numeric text at the start of `s`.
pub fn leading_numeric_text(s: &str) -> (r: String)
    ensures
        r@ == leading_number(s@),
{
    let v = chars_of(s);
    let start = skip_white(&v);
    let first = if start < v.len() && (v[start] == '+' || v[start] == '-') {
        start + 1
    } else {
        start
    };
    let whole = skip_digits(&v, first);
    let end = if whole < v.len() && v[whole] == '.' {
        skip_digits(&v, whole + 1)
    } else {
        whole
    };
    if whole > first || (end > whole && end - whole > 1) {
        slice_text(&v, start, end)
    } else {
        String::new()
    }
}

} // verus!

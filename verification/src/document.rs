//! Places in a text as an editor names them: a line, counted from 0, and a
//! column counted in UTF-16 units; and the change of a text between two places.
//! Offsets are counted in characters.

use crate::text::{chars_of, slice_text};
use vstd::prelude::*;

verus! {

/// The number of UTF-16 units of a character: 2 beyond the basic plane, else 1.
pub open spec fn units_of(c: char) -> nat {
    if c as u32 >= 0x10000 {
        2
    } else {
        1
    }
}

/// The offset at which the line `line`, counted from the line that begins at
/// `from`, begins; `None` where the text has no such line.
pub open spec fn line_start(s: Seq<char>, from: int, line: nat) -> Option<int>
    decreases s.len() - from,
{
    if line == 0 {
        Some(from)
    } else if from < 0 || from >= s.len() {
        None
    } else if s[from] == '\n' {
        line_start(s, from + 1, (line - 1) as nat)
    } else {
        line_start(s, from + 1, line)
    }
}

/// The offset that is `units` UTF-16 units after `at` on the line of `at`: it
/// does not pass the end of the line, and where `units` would end inside a
/// character it is the offset of that character.
pub open spec fn column_offset(s: Seq<char>, at: int, units: nat) -> int
    decreases s.len() - at,
{
    if at < 0 || at >= s.len() || s[at] == '\n' || units_of(s[at]) > units {
        at
    } else {
        column_offset(s, at + 1, (units - units_of(s[at])) as nat)
    }
}

/// The offset of the place at `line` and `column`: the end of the text where
/// it has no such line.
pub open spec fn offset_at(s: Seq<char>, line: nat, column: nat) -> int {
    match line_start(s, 0, line) {
        None => s.len() as int,
        Some(start) => column_offset(s, start, column),
    }
}

/// The start of a line lies inside the text or at its end.
pub proof fn lemma_line_start_bounds(s: Seq<char>, from: int, line: nat)
    requires
        0 <= from <= s.len(),
    ensures
        line_start(s, from, line) matches Some(start) ==> from <= start <= s.len(),
    decreases s.len() - from,
{
    if line > 0 && from < s.len() {
        if s[from] == '\n' {
            lemma_line_start_bounds(s, from + 1, (line - 1) as nat);
        } else {
            lemma_line_start_bounds(s, from + 1, line);
        }
    }
}

/// A column lies on its line, inside the text or at its end.
pub proof fn lemma_column_offset_bounds(s: Seq<char>, at: int, units: nat)
    requires
        0 <= at <= s.len(),
    ensures
        at <= column_offset(s, at, units) <= s.len(),
    decreases s.len() - at,
{
    if at < s.len() && s[at] != '\n' && units_of(s[at]) <= units {
        lemma_column_offset_bounds(s, at + 1, (units - units_of(s[at])) as nat);
    }
}

/// The offset of a place lies inside the text or at its end.
pub proof fn offset_is_in_the_text(s: Seq<char>, line: nat, column: nat)
    ensures
        0 <= offset_at(s, line, column) <= s.len(),
{
    lemma_line_start_bounds(s, 0, line);
    match line_start(s, 0, line) {
        None => {},
        Some(start) => lemma_column_offset_bounds(s, start, column),
    }
}

/// The text `s` with the characters from `start` up to `end` replaced by
/// `with`.
pub open spec fn spliced(s: Seq<char>, start: int, end: int, with: Seq<char>) -> Seq<char> {
    s.subrange(0, start) + with + s.subrange(end, s.len() as int)
}

/// The text after a change: `with` alone where no range is given; else the
/// text with the characters between the two places of the range, in either
/// order, replaced by `with`.
pub open spec fn changed(
    s: Seq<char>,
    range: Option<((nat, nat), (nat, nat))>,
    with: Seq<char>,
) -> Seq<char> {
    match range {
        None => with,
        Some((from, to)) => {
            let a = offset_at(s, from.0, from.1);
            let b = offset_at(s, to.0, to.1);
            if a <= b {
                spliced(s, a, b, with)
            } else {
                spliced(s, b, a, with)
            }
        },
    }
}

/// The number of UTF-16 units of a character.
pub fn utf16_units(c: char) -> (r: usize)
    ensures
        r == units_of(c),
{
    if c as u32 >= 0x10000 {
        2
    } else {
        1
    }
}

/// The offset of the place at `line` and `column` in `v`.
fn offset_in(v: &Vec<char>, line: usize, column: usize) -> (r: usize)
    ensures
        r == offset_at(v@, line as nat, column as nat),
        r <= v.len(),
{
    let mut at: usize = 0;
    let mut lines: usize = line;
    while lines > 0 && at < v.len()
        invariant
            at <= v.len(),
            line_start(v@, 0, line as nat) == line_start(v@, at as int, lines as nat),
        decreases v.len() - at,
    {
        if v[at] == '\n' {
            lines = lines - 1;
        }
        at = at + 1;
    }
    if lines > 0 {
        return v.len();
    }
    let ghost start = at;
    let mut units: usize = column;
    while at < v.len() && v[at] != '\n' && utf16_units(v[at]) <= units
        invariant
            at <= v.len(),
            column_offset(v@, start as int, column as nat) == column_offset(
                v@,
                at as int,
                units as nat,
            ),
        decreases v.len() - at,
    {
        units = units - utf16_units(v[at]);
        at = at + 1;
    }
    at
}

/// The offset, counted in characters, of the place at `line` and `column`,
/// both counted from 0, the column in UTF-16 units.
pub fn position_to_offset_utf16(text: &str, line: u32, column: u32) -> (r: usize)
    ensures
        r == offset_at(text@, line as nat, column as nat),
        r <= text@.len(),
{
    let v = chars_of(text);
    offset_in(&v, line as usize, column as usize)
}

/// The text after a change: see `changed`.
pub fn apply_change(text: &str, range: Option<((u32, u32), (u32, u32))>, with: &str) -> (r: String)
    ensures
        r@ == changed(
            text@,
            match range {
                None => None,
                Some((from, to)) => Some(
                    ((from.0 as nat, from.1 as nat), (to.0 as nat, to.1 as nat)),
                ),
            },
            with@,
        ),
{
    match range {
        None => with.to_owned(),
        Some((from, to)) => {
            let v = chars_of(text);
            let a = offset_in(&v, from.0 as usize, from.1 as usize);
            let b = offset_in(&v, to.0 as usize, to.1 as usize);
            let (start, end) = if a <= b {
                (a, b)
            } else {
                (b, a)
            };
            let mut out = slice_text(&v, 0, start);
            out.append(with);
            let rest = slice_text(&v, end, v.len());
            out.append(rest.as_str());
            out
        },
    }
}

} // verus!

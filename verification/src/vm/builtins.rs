//! The builtin functions, called by their exact names.
//!
//! Before a call the stack holds the name and, above it, the arguments. A
//! builtin takes them all and leaves exactly one result (`Nil` where it only
//! writes to the terminal).

use super::{
    ask, fail, written, Action, Builtin, Cursor, Reply, ReplyView, Request, RequestView,
    RuntimeError, RuntimeErrorView, StepView, VmState, VM,
};
use crate::bytecode::{texts_model, Value, ValueView};
use crate::number::{byte_of, double_of, from_integer, index_of, to_byte, to_index};
use crate::text::{
    char_text, chars_of, decimal_digits, leading_number, leading_numeric_text, push_wide_decimal,
    repeat, repeated, same_text, slice_text, trim, trim_end, trim_end_of, trim_start,
    trim_start_of, trimmed,
};
use vstd::prelude::*;
use vstd::utf8::encode_utf8;

verus! {

/// The builtin of the given name.
pub open spec fn builtin_of(name: Seq<char>) -> Option<Builtin> {
    if name == "SetPos"@ {
        Some(Builtin::SetPos)
    } else if name == "DevPos"@ {
        Some(Builtin::DevPos)
    } else if name == "GotoXY"@ {
        Some(Builtin::GotoXY)
    } else if name == "OutStd"@ {
        Some(Builtin::OutStd)
    } else if name == "ClearScreen"@ {
        Some(Builtin::ClearScreen)
    } else if name == "SavePos"@ {
        Some(Builtin::SavePos)
    } else if name == "RestorePos"@ {
        Some(Builtin::RestorePos)
    } else if name == "Replicate"@ {
        Some(Builtin::Replicate)
    } else if name == "Space"@ {
        Some(Builtin::Space)
    } else if name == "Len"@ {
        Some(Builtin::Len)
    } else if name == "SubStr"@ {
        Some(Builtin::SubStr)
    } else if name == "Trim"@ {
        Some(Builtin::Trim)
    } else if name == "AllTrim"@ {
        Some(Builtin::AllTrim)
    } else if name == "LTrim"@ {
        Some(Builtin::LTrim)
    } else if name == "RTrim"@ {
        Some(Builtin::RTrim)
    } else if name == "Chr"@ {
        Some(Builtin::Chr)
    } else if name == "Asc"@ {
        Some(Builtin::Asc)
    } else if name == "Inkey"@ {
        Some(Builtin::Inkey)
    } else if name == "Val"@ {
        Some(Builtin::Val)
    } else if name == "GetInput"@ {
        Some(Builtin::GetInput)
    } else {
        None
    }
}

/// The builtin of the given name.
pub fn builtin_named(name: &str) -> (r: Option<Builtin>)
    ensures
        r == builtin_of(name@),
{
    if same_text(name, "SetPos") {
        Some(Builtin::SetPos)
    } else if same_text(name, "DevPos") {
        Some(Builtin::DevPos)
    } else if same_text(name, "GotoXY") {
        Some(Builtin::GotoXY)
    } else if same_text(name, "OutStd") {
        Some(Builtin::OutStd)
    } else if same_text(name, "ClearScreen") {
        Some(Builtin::ClearScreen)
    } else if same_text(name, "SavePos") {
        Some(Builtin::SavePos)
    } else if same_text(name, "RestorePos") {
        Some(Builtin::RestorePos)
    } else if same_text(name, "Replicate") {
        Some(Builtin::Replicate)
    } else if same_text(name, "Space") {
        Some(Builtin::Space)
    } else if same_text(name, "Len") {
        Some(Builtin::Len)
    } else if same_text(name, "SubStr") {
        Some(Builtin::SubStr)
    } else if same_text(name, "Trim") {
        Some(Builtin::Trim)
    } else if same_text(name, "AllTrim") {
        Some(Builtin::AllTrim)
    } else if same_text(name, "LTrim") {
        Some(Builtin::LTrim)
    } else if same_text(name, "RTrim") {
        Some(Builtin::RTrim)
    } else if same_text(name, "Chr") {
        Some(Builtin::Chr)
    } else if same_text(name, "Asc") {
        Some(Builtin::Asc)
    } else if same_text(name, "Inkey") {
        Some(Builtin::Inkey)
    } else if same_text(name, "Val") {
        Some(Builtin::Val)
    } else if same_text(name, "GetInput") {
        Some(Builtin::GetInput)
    } else {
        None
    }
}

/// Whether the builtin takes `arity` arguments.
pub open spec fn arity_fits(builtin: Builtin, arity: usize) -> bool {
    match builtin {
        Builtin::SetPos | Builtin::DevPos | Builtin::GotoXY | Builtin::Replicate => arity == 2,
        Builtin::ClearScreen | Builtin::SavePos | Builtin::RestorePos => arity == 0,
        Builtin::SubStr => arity == 3,
        Builtin::Inkey => arity <= 1,
        Builtin::GetInput => 1 <= arity <= 5,
        _ => arity == 1,
    }
}

/// Whether the builtin takes `arity` arguments.
pub fn takes(builtin: Builtin, arity: usize) -> (r: bool)
    ensures
        r == arity_fits(builtin, arity),
{
    match builtin {
        Builtin::SetPos | Builtin::DevPos | Builtin::GotoXY | Builtin::Replicate => arity == 2,
        Builtin::ClearScreen | Builtin::SavePos | Builtin::RestorePos => arity == 0,
        Builtin::SubStr => arity == 3,
        Builtin::Inkey => arity <= 1,
        Builtin::GetInput => 1 <= arity && arity <= 5,
        _ => arity == 1,
    }
}

/// The argument at index `i` of a call with `arity` arguments.
pub open spec fn arg(s: VmState, arity: usize, i: int) -> ValueView {
    s.stack[s.stack.len() - arity + i]
}

/// The number that the argument at index `i` is, if it is one.
pub open spec fn number_arg(s: VmState, arity: usize, i: int) -> Option<u64> {
    match arg(s, arity, i) {
        ValueView::Number(bits) => Some(bits),
        _ => None,
    }
}

/// The text that the argument at index `i` is, or the empty text.
pub open spec fn text_arg(s: VmState, arity: usize, i: int) -> Seq<char> {
    match arg(s, arity, i) {
        ValueView::String(text) => text,
        _ => Seq::empty(),
    }
}

/// The escape sequence that moves the cursor of the terminal to `row`, `col`,
/// both counted from 0.
pub open spec fn cursor_to(row: usize, col: usize) -> Seq<char> {
    "\x1B["@ + decimal_digits((row + 1) as nat) + ";"@ + decimal_digits((col + 1) as nat) + "H"@
}

/// The step of a builtin that gives `result`.
pub open spec fn finish(s: VmState, arity: usize, result: ValueView) -> StepView {
    super::proceed(s.drop((arity + 1) as nat).push(result))
}

/// The step of a builtin that writes `text`, leaves the cursor as given, and
/// gives `Nil`.
pub open spec fn finish_output(s: VmState, arity: usize, text: Seq<char>, cursor: Cursor) -> StepView {
    super::write_out(VmState { cursor, ..s.drop((arity + 1) as nat).push(ValueView::Nil) }, text)
}

/// The text of the number `bits` as the host prints it.
pub open spec fn displayed(s: VmState, bits: u64, reply: ReplyView) -> Result<Seq<char>, StepView> {
    match reply {
        ReplyView::Nothing => Err(ask(s, RequestView::Format(seq![bits]))),
        ReplyView::Texts(texts) => if texts.len() == 1 {
            Ok(texts[0])
        } else {
            Err(fail(s, RuntimeErrorView::UnexpectedReply))
        },
        _ => Err(fail(s, RuntimeErrorView::UnexpectedReply)),
    }
}

/// `SetPos(row, col)`, `DevPos(row, col)`, `GotoXY(col, row)`: the cursor moves.
pub open spec fn position_model(s: VmState, row: int, col: int) -> StepView {
    match (number_arg(s, 2, row), number_arg(s, 2, col)) {
        (Some(r), Some(c)) => finish_output(
            s,
            2,
            cursor_to(index_of(r), index_of(c)),
            Cursor { row: index_of(r), col: index_of(c), ..s.cursor },
        ),
        _ => fail(s, RuntimeErrorView::ExpectedNumber),
    }
}

/// `OutStd(value)`: the value is written without a line break.
pub open spec fn out_std_model(s: VmState, reply: ReplyView) -> StepView {
    let text = match arg(s, 1, 0) {
        ValueView::String(text) => Ok(text),
        ValueView::Number(bits) => displayed(s, bits, reply),
        ValueView::Boolean(b) => Ok(
            if b {
                "TRUE"@
            } else {
                "FALSE"@
            },
        ),
        ValueView::Nil => Ok("NIL"@),
        ValueView::Array(items) => written(s, arg(s, 1, 0), reply),
        _ => Ok("<function>"@),
    };
    match text {
        Err(step) => step,
        Ok(text) => finish_output(s, 1, text, s.cursor),
    }
}

/// `Replicate(text, count)`: the text, `count` times.
pub open spec fn replicate_model(s: VmState, reply: ReplyView) -> StepView {
    match number_arg(s, 2, 1) {
        None => fail(s, RuntimeErrorView::ExpectedNumber),
        Some(count) => {
            let text = match arg(s, 2, 0) {
                ValueView::String(text) => Ok(text),
                ValueView::Number(bits) => displayed(s, bits, reply),
                _ => Err(fail(s, RuntimeErrorView::InvalidArgument(Builtin::Replicate))),
            };
            match text {
                Err(step) => step,
                Ok(text) => finish(
                    s,
                    2,
                    ValueView::String(repeated(text, index_of(count) as nat)),
                ),
            }
        },
    }
}

/// The part of `text` that starts at the 1-based place `start` (0 counts as 1)
/// and holds up to `length` characters.
pub open spec fn sub_text(text: Seq<char>, start: usize, length: usize) -> Seq<char> {
    let from = if start > 0 {
        start - 1
    } else {
        0
    };
    let lo = if from > text.len() {
        text.len() as int
    } else {
        from
    };
    let hi = if lo + length > text.len() {
        text.len() as int
    } else {
        lo + length
    };
    text.subrange(lo, hi)
}

/// `SubStr(text, start, length)`.
pub open spec fn sub_str_model(s: VmState) -> StepView {
    match (number_arg(s, 3, 2), number_arg(s, 3, 1)) {
        (Some(length), Some(start)) => match arg(s, 3, 0) {
            ValueView::String(text) => finish(
                s,
                3,
                ValueView::String(sub_text(text, index_of(start), index_of(length))),
            ),
            _ => fail(s, RuntimeErrorView::InvalidArgument(Builtin::SubStr)),
        },
        _ => fail(s, RuntimeErrorView::ExpectedNumber),
    }
}

/// `Trim`, `AllTrim`, `LTrim`, `RTrim`: the text without white space at its ends
/// (the left end, the right end).
pub open spec fn trim_model(s: VmState, builtin: Builtin) -> StepView {
    match arg(s, 1, 0) {
        ValueView::String(text) => finish(
            s,
            1,
            ValueView::String(
                match builtin {
                    Builtin::LTrim => trim_start_of(text),
                    Builtin::RTrim => trim_end_of(text),
                    _ => trimmed(text),
                },
            ),
        ),
        _ => fail(s, RuntimeErrorView::InvalidArgument(builtin)),
    }
}

/// A line of input without its line break.
pub open spec fn unbroken(line: Seq<char>) -> Seq<char> {
    if line.len() > 0 && line.last() == '\n' {
        let rest = line.drop_last();
        if rest.len() > 0 && rest.last() == '\r' {
            rest.drop_last()
        } else {
            rest
        }
    } else {
        line
    }
}

/// `text` cut or filled with spaces to `width` characters.
pub open spec fn fitted(text: Seq<char>, width: nat) -> Seq<char> {
    if text.len() >= width {
        text.subrange(0, width as int)
    } else {
        text + repeated(seq![' '], (width - text.len()) as nat)
    }
}

/// What `GetInput` writes before it reads: the cursor moves where a place is
/// given; then the prompt and the default follow, and the cursor moves back to
/// the start of the default.
pub open spec fn input_prelude(s: VmState, arity: usize, row: usize, col: usize) -> Seq<char> {
    let place = if arity >= 2 {
        cursor_to(row, col)
    } else {
        Seq::empty()
    };
    let prompt = if arity >= 5 {
        text_arg(s, arity, 4)
    } else {
        Seq::empty()
    };
    let default = text_arg(s, arity, 0);
    let back = if default.len() > 0 {
        "\x1B["@ + decimal_digits(default.len()) + "D"@
    } else {
        Seq::empty()
    };
    place + prompt + default + back
}

/// `GetInput(default, [row], [col], [say], [prompt])`: one line of input, cut or
/// filled to the length of the default; the default where reading fails.
pub open spec fn get_input_model(s: VmState, arity: usize, reply: ReplyView) -> StepView {
    if arity >= 3 && number_arg(s, arity, 2) is None {
        fail(s, RuntimeErrorView::ExpectedNumber)
    } else if arity >= 2 && number_arg(s, arity, 1) is None {
        fail(s, RuntimeErrorView::ExpectedNumber)
    } else {
        let col = if arity >= 3 {
            index_of(number_arg(s, arity, 2)->0)
        } else {
            s.cursor.col
        };
        let row = if arity >= 2 {
            index_of(number_arg(s, arity, 1)->0)
        } else {
            s.cursor.row
        };
        let default = text_arg(s, arity, 0);
        match reply {
            ReplyView::Nothing => ask(s, RequestView::ReadLine(input_prelude(s, arity, row, col))),
            ReplyView::Line(Some(line)) => finish(
                s,
                arity,
                ValueView::String(fitted(unbroken(line), default.len())),
            ),
            ReplyView::Line(None) => finish(s, arity, ValueView::String(default)),
            _ => fail(s, RuntimeErrorView::UnexpectedReply),
        }
    }
}

/// What a call of the builtin `name` with `arity` arguments does. The stack
/// holds more than `arity` values.
pub open spec fn builtin_model(s: VmState, name: Seq<char>, arity: usize, reply: ReplyView) -> StepView {
    match builtin_of(name) {
        None => fail(s, RuntimeErrorView::UnknownFunction(name)),
        Some(builtin) => if !arity_fits(builtin, arity) {
            fail(s, RuntimeErrorView::WrongArity(builtin))
        } else {
            match builtin {
                Builtin::SetPos | Builtin::DevPos => position_model(s, 0, 1),
                Builtin::GotoXY => position_model(s, 1, 0),
                Builtin::OutStd => out_std_model(s, reply),
                Builtin::ClearScreen => finish_output(
                    s,
                    0,
                    "\x1B[2J\x1B[H"@,
                    Cursor { row: 0, col: 0, ..s.cursor },
                ),
                Builtin::SavePos => finish_output(
                    s,
                    0,
                    "\x1B[s"@,
                    Cursor { saved_row: s.cursor.row, saved_col: s.cursor.col, ..s.cursor },
                ),
                Builtin::RestorePos => finish_output(
                    s,
                    0,
                    "\x1B[u"@,
                    Cursor { row: s.cursor.saved_row, col: s.cursor.saved_col, ..s.cursor },
                ),
                Builtin::Replicate => replicate_model(s, reply),
                Builtin::Space => match number_arg(s, 1, 0) {
                    Some(count) => finish(
                        s,
                        1,
                        ValueView::String(repeated(" "@, index_of(count) as nat)),
                    ),
                    None => fail(s, RuntimeErrorView::ExpectedNumber),
                },
                Builtin::Len => match arg(s, 1, 0) {
                    ValueView::String(text) => finish(
                        s,
                        1,
                        ValueView::Number(double_of((encode_utf8(text).len() as usize) as nat)),
                    ),
                    ValueView::Array(items) => finish(
                        s,
                        1,
                        ValueView::Number(double_of(items.len())),
                    ),
                    _ => fail(s, RuntimeErrorView::InvalidArgument(Builtin::Len)),
                },
                Builtin::SubStr => sub_str_model(s),
                Builtin::Trim | Builtin::AllTrim | Builtin::LTrim | Builtin::RTrim => trim_model(
                    s,
                    builtin,
                ),
                Builtin::Chr => match number_arg(s, 1, 0) {
                    Some(code) => finish(s, 1, ValueView::String(seq![byte_of(code) as char])),
                    None => fail(s, RuntimeErrorView::ExpectedNumber),
                },
                Builtin::Asc => match arg(s, 1, 0) {
                    ValueView::String(text) => finish(
                        s,
                        1,
                        ValueView::Number(
                            double_of(
                                if text.len() > 0 {
                                    text[0] as u32 as nat
                                } else {
                                    0
                                },
                            ),
                        ),
                    ),
                    _ => fail(s, RuntimeErrorView::InvalidArgument(Builtin::Asc)),
                },
                Builtin::Inkey => if arity == 1 && number_arg(s, 1, 0) is None {
                    fail(s, RuntimeErrorView::ExpectedNumber)
                } else {
                    match reply {
                        ReplyView::Nothing => ask(s, RequestView::ReadKey),
                        ReplyView::Key(code) => finish(
                            s,
                            arity,
                            ValueView::Number(double_of(code as nat)),
                        ),
                        _ => fail(s, RuntimeErrorView::UnexpectedReply),
                    }
                },
                Builtin::Val => match arg(s, 1, 0) {
                    ValueView::String(text) => if leading_number(text).len() == 0 {
                        finish(s, 1, ValueView::Number(0))
                    } else {
                        match reply {
                            ReplyView::Nothing => ask(
                                s,
                                RequestView::ParseNumber(leading_number(text)),
                            ),
                            ReplyView::Number(bits) => finish(s, 1, ValueView::Number(bits)),
                            _ => fail(s, RuntimeErrorView::UnexpectedReply),
                        }
                    },
                    ValueView::Number(bits) => finish(s, 1, ValueView::Number(bits)),
                    _ => finish(s, 1, ValueView::Number(0)),
                },
                Builtin::GetInput => get_input_model(s, arity, reply),
            }
        },
    }
}

/// The escape sequence that moves the cursor of the terminal to `row`, `col`.
pub fn cursor_sequence(row: usize, col: usize) -> (r: String)
    ensures
        r@ == cursor_to(row, col),
{
    let mut out = "\x1B[".to_owned();
    push_wide_decimal(&mut out, row as u128 + 1);
    out.append(";");
    push_wide_decimal(&mut out, col as u128 + 1);
    out.append("H");
    out
}

/// A line of input without its line break.
pub fn strip_line_break(line: &str) -> (r: String)
    ensures
        r@ == unbroken(line@),
{
    let chars = chars_of(line);
    let mut end = chars.len();
    if end > 0 && chars[end - 1] == '\n' {
        end = end - 1;
        if end > 0 && chars[end - 1] == '\r' {
            end = end - 1;
        }
    }
    let r = slice_text(&chars, 0, end);
    assert(r@ =~= unbroken(line@));
    r
}

/// `text` cut or filled with spaces to `width` characters.
pub fn fit(text: &str, width: usize) -> (r: String)
    ensures
        r@ == fitted(text@, width as nat),
{
    let chars = chars_of(text);
    if chars.len() >= width {
        slice_text(&chars, 0, width)
    } else {
        let mut out = text.to_owned();
        let pad = repeat(" ", width - chars.len());
        proof {
            reveal_strlit(" ");
            assert(" "@ =~= seq![' ']);
        }
        out.append(pad.as_str());
        out
    }
}

/// The part of `text` that starts at the 1-based place `start` and holds up to
/// `length` characters.
pub fn sub_string(text: &str, start: usize, length: usize) -> (r: String)
    ensures
        r@ == sub_text(text@, start, length),
{
    let chars = chars_of(text);
    let from = if start > 0 {
        start - 1
    } else {
        0
    };
    let lo = if from > chars.len() {
        chars.len()
    } else {
        from
    };
    let hi = if length > chars.len() - lo {
        chars.len()
    } else {
        lo + length
    };
    slice_text(&chars, lo, hi)
}

impl VM {
    /// The place in the stack of the argument at index `i`.
    fn arg_value(&self, arity: usize, i: usize) -> (r: &Value)
        requires
            i < arity <= self.state().stack.len(),
        ensures
            r@ == arg(self.state(), arity, i as int),
    {
        &self.stack[self.stack.len() - arity + i]
    }

    /// The number that the argument at index `i` is.
    fn number_argument(&self, arity: usize, i: usize) -> (r: Option<u64>)
        requires
            i < arity <= self.state().stack.len(),
        ensures
            r == number_arg(self.state(), arity, i as int),
    {
        match self.arg_value(arity, i) {
            Value::Number(bits) => Some(*bits),
            _ => None,
        }
    }

    /// The text that the argument at index `i` is, or the empty text.
    fn text_argument(&self, arity: usize, i: usize) -> (r: String)
        requires
            i < arity <= self.state().stack.len(),
        ensures
            r@ == text_arg(self.state(), arity, i as int),
    {
        match self.arg_value(arity, i) {
            Value::String(text) => text.clone(),
            _ => String::new(),
        }
    }

    /// Ends a builtin with `result`.
    fn finish(&mut self, arity: usize, result: Value) -> (r: Result<Action, RuntimeError>)
        requires
            old(self).state().ip < usize::MAX,
            arity < old(self).state().stack.len(),
        ensures
            super::stepped(finish(old(self).state(), arity, result@), final(self).state(), r),
    {
        self.discard(arity + 1);
        self.push(result);
        self.advance();
        Ok(Action::Continue)
    }

    /// Ends a builtin that writes `text` and leaves the cursor as given.
    fn finish_output(&mut self, arity: usize, text: String, cursor: Cursor) -> (r: Result<
        Action,
        RuntimeError,
    >)
        requires
            old(self).state().ip < usize::MAX,
            arity < old(self).state().stack.len(),
        ensures
            super::stepped(
                finish_output(old(self).state(), arity, text@, cursor),
                final(self).state(),
                r,
            ),
    {
        self.discard(arity + 1);
        self.push(Value::Nil);
        self.cursor = cursor;
        self.advance();
        Ok(Action::Output(text))
    }

    /// The text of the number `bits` as the host prints it.
    fn displayed(&self, bits: u64, reply: &Reply) -> (r: Result<
        String,
        Result<Action, RuntimeError>,
    >)
        ensures
            match r {
                Ok(text) => displayed(self.state(), bits, reply@) == Ok::<Seq<char>, StepView>(
                    text@,
                ),
                Err(step) => displayed(self.state(), bits, reply@) is Err && super::stepped(
                    displayed(self.state(), bits, reply@)->Err_0,
                    self.state(),
                    step,
                ),
            },
    {
        match reply {
            Reply::Nothing => {
                let mut numbers: Vec<u64> = Vec::new();
                numbers.push(bits);
                Err(Ok(Action::Need(Request::Format(numbers))))
            },
            Reply::Texts(texts) => {
                if texts.len() == 1 {
                    assert(texts_model(texts@)[0] == texts[0]@);
                    Ok(texts[0].clone())
                } else {
                    Err(Err(RuntimeError::UnexpectedReply))
                }
            },
            _ => Err(Err(RuntimeError::UnexpectedReply)),
        }
    }

    /// `SetPos`, `DevPos`, `GotoXY`.
    fn execute_position(&mut self, row: usize, col: usize) -> (r: Result<Action, RuntimeError>)
        requires
            old(self).state().ip < usize::MAX,
            2 < old(self).state().stack.len(),
            row < 2,
            col < 2,
        ensures
            super::stepped(
                position_model(old(self).state(), row as int, col as int),
                final(self).state(),
                r,
            ),
    {
        match (self.number_argument(2, row), self.number_argument(2, col)) {
            (Some(r), Some(c)) => {
                let row = to_index(r);
                let col = to_index(c);
                let cursor = Cursor {
                    row,
                    col,
                    saved_row: self.cursor.saved_row,
                    saved_col: self.cursor.saved_col,
                };
                self.finish_output(2, cursor_sequence(row, col), cursor)
            },
            _ => Err(RuntimeError::ExpectedNumber),
        }
    }

    /// `OutStd`.
    fn execute_out_std(&mut self, reply: Reply) -> (r: Result<Action, RuntimeError>)
        requires
            old(self).state().ip < usize::MAX,
            1 < old(self).state().stack.len(),
        ensures
            super::stepped(out_std_model(old(self).state(), reply@), final(self).state(), r),
    {
        let value = self.arg_value(1, 0);
        let text = match value {
            Value::String(text) => text.clone(),
            Value::Number(bits) => match self.displayed(*bits, &reply) {
                Ok(text) => text,
                Err(step) => {
                    return step;
                },
            },
            Value::Boolean(b) => if *b {
                "TRUE".to_owned()
            } else {
                "FALSE".to_owned()
            },
            Value::Nil => "NIL".to_owned(),
            Value::Array(items) => match self.written(value, &reply) {
                Ok(text) => text,
                Err(step) => {
                    return step;
                },
            },
            _ => "<function>".to_owned(),
        };
        let cursor = self.cursor;
        self.finish_output(1, text, cursor)
    }

    /// `Replicate`.
    fn execute_replicate(&mut self, reply: Reply) -> (r: Result<Action, RuntimeError>)
        requires
            old(self).state().ip < usize::MAX,
            2 < old(self).state().stack.len(),
        ensures
            super::stepped(replicate_model(old(self).state(), reply@), final(self).state(), r),
    {
        match self.number_argument(2, 1) {
            None => Err(RuntimeError::ExpectedNumber),
            Some(count) => {
                let text = match self.arg_value(2, 0) {
                    Value::String(text) => text.clone(),
                    Value::Number(bits) => match self.displayed(*bits, &reply) {
                        Ok(text) => text,
                        Err(step) => {
                            return step;
                        },
                    },
                    _ => {
                        return Err(RuntimeError::InvalidArgument(Builtin::Replicate));
                    },
                };
                let result = repeat(text.as_str(), to_index(count));
                self.finish(2, Value::String(result))
            },
        }
    }

    /// `GetInput`.
    fn execute_get_input(&mut self, arity: usize, reply: Reply) -> (r: Result<Action, RuntimeError>)
        requires
            old(self).state().ip < usize::MAX,
            1 <= arity <= 5,
            arity < old(self).state().stack.len(),
        ensures
            super::stepped(
                get_input_model(old(self).state(), arity, reply@),
                final(self).state(),
                r,
            ),
    {
        let col = if arity >= 3 {
            match self.number_argument(arity, 2) {
                Some(bits) => to_index(bits),
                None => {
                    return Err(RuntimeError::ExpectedNumber);
                },
            }
        } else {
            self.cursor.col
        };
        let row = if arity >= 2 {
            match self.number_argument(arity, 1) {
                Some(bits) => to_index(bits),
                None => {
                    return Err(RuntimeError::ExpectedNumber);
                },
            }
        } else {
            self.cursor.row
        };
        let default = self.text_argument(arity, 0);
        let width = default.as_str().unicode_len();
        match reply {
            Reply::Nothing => {
                let mut show = if arity >= 2 {
                    cursor_sequence(row, col)
                } else {
                    String::new()
                };
                if arity >= 5 {
                    show.append(self.text_argument(arity, 4).as_str());
                }
                show.append(default.as_str());
                if width > 0 {
                    show.append("\x1B[");
                    push_wide_decimal(&mut show, width as u128);
                    show.append("D");
                }
                assert(show@ =~= input_prelude(self.state(), arity, row, col));
                Ok(Action::Need(Request::ReadLine(show)))
            },
            Reply::Line(line) => match line {
                Some(text) => {
                    let stripped = strip_line_break(text.as_str());
                    let result = fit(stripped.as_str(), width);
                    self.finish(arity, Value::String(result))
                },
                None => self.finish(arity, Value::String(default)),
            },
            _ => Err(RuntimeError::UnexpectedReply),
        }
    }

    /// Calls the builtin `name` with the top `arity` values of the stack.
    pub(crate) fn execute_builtin_function(&mut self, name: &str, arity: usize, reply: Reply) -> (r:
        Result<Action, RuntimeError>)
        requires
            old(self).state().ip < usize::MAX,
            arity < old(self).state().stack.len(),
        ensures
            super::stepped(
                builtin_model(old(self).state(), name@, arity, reply@),
                final(self).state(),
                r,
            ),
    {
        let builtin = match builtin_named(name) {
            None => {
                return Err(RuntimeError::UnknownFunction(name.to_owned()));
            },
            Some(builtin) => builtin,
        };
        if !takes(builtin, arity) {
            return Err(RuntimeError::WrongArity(builtin));
        }
        match builtin {
            Builtin::SetPos | Builtin::DevPos => self.execute_position(0, 1),
            Builtin::GotoXY => self.execute_position(1, 0),
            Builtin::OutStd => self.execute_out_std(reply),
            Builtin::ClearScreen => {
                let cursor = Cursor {
                    row: 0,
                    col: 0,
                    saved_row: self.cursor.saved_row,
                    saved_col: self.cursor.saved_col,
                };
                self.finish_output(0, "\x1B[2J\x1B[H".to_owned(), cursor)
            },
            Builtin::SavePos => {
                let cursor = Cursor {
                    row: self.cursor.row,
                    col: self.cursor.col,
                    saved_row: self.cursor.row,
                    saved_col: self.cursor.col,
                };
                self.finish_output(0, "\x1B[s".to_owned(), cursor)
            },
            Builtin::RestorePos => {
                let cursor = Cursor {
                    row: self.cursor.saved_row,
                    col: self.cursor.saved_col,
                    saved_row: self.cursor.saved_row,
                    saved_col: self.cursor.saved_col,
                };
                self.finish_output(0, "\x1B[u".to_owned(), cursor)
            },
            Builtin::Replicate => self.execute_replicate(reply),
            Builtin::Space => match self.number_argument(1, 0) {
                Some(count) => {
                    let result = repeat(" ", to_index(count));
                    self.finish(1, Value::String(result))
                },
                None => Err(RuntimeError::ExpectedNumber),
            },
            Builtin::Len => {
                let length = match self.arg_value(1, 0) {
                    Value::String(text) => text.as_str().len(),
                    Value::Array(items) => items.len(),
                    _ => {
                        return Err(RuntimeError::InvalidArgument(Builtin::Len));
                    },
                };
                self.finish(1, Value::Number(from_integer(length as u64)))
            },
            Builtin::SubStr => match (self.number_argument(3, 2), self.number_argument(3, 1)) {
                (Some(length), Some(start)) => {
                    let result = match self.arg_value(3, 0) {
                        Value::String(text) => sub_string(
                            text.as_str(),
                            to_index(start),
                            to_index(length),
                        ),
                        _ => {
                            return Err(RuntimeError::InvalidArgument(Builtin::SubStr));
                        },
                    };
                    self.finish(3, Value::String(result))
                },
                _ => Err(RuntimeError::ExpectedNumber),
            },
            Builtin::Trim | Builtin::AllTrim | Builtin::LTrim | Builtin::RTrim => {
                let result = match self.arg_value(1, 0) {
                    Value::String(text) => match builtin {
                        Builtin::LTrim => trim_start(text.as_str()),
                        Builtin::RTrim => trim_end(text.as_str()),
                        _ => trim(text.as_str()),
                    },
                    _ => {
                        return Err(RuntimeError::InvalidArgument(builtin));
                    },
                };
                self.finish(1, Value::String(result))
            },
            Builtin::Chr => match self.number_argument(1, 0) {
                Some(code) => {
                    let result = char_text(to_byte(code) as char);
                    self.finish(1, Value::String(result))
                },
                None => Err(RuntimeError::ExpectedNumber),
            },
            Builtin::Asc => {
                let code: u64 = match self.arg_value(1, 0) {
                    Value::String(text) => {
                        let chars = chars_of(text.as_str());
                        if chars.len() > 0 {
                            (chars[0] as u32) as u64
                        } else {
                            0
                        }
                    },
                    _ => {
                        return Err(RuntimeError::InvalidArgument(Builtin::Asc));
                    },
                };
                self.finish(1, Value::Number(from_integer(code)))
            },
            Builtin::Inkey => {
                if arity == 1 && self.number_argument(1, 0).is_none() {
                    return Err(RuntimeError::ExpectedNumber);
                }
                match reply {
                    Reply::Nothing => Ok(Action::Need(Request::ReadKey)),
                    Reply::Key(code) => self.finish(arity, Value::Number(from_integer(code as u64))),
                    _ => Err(RuntimeError::UnexpectedReply),
                }
            },
            Builtin::Val => {
                let text = match self.arg_value(1, 0) {
                    Value::String(text) => leading_numeric_text(text.as_str()),
                    Value::Number(bits) => {
                        let bits = *bits;
                        return self.finish(1, Value::Number(bits));
                    },
                    _ => {
                        return self.finish(1, Value::Number(0));
                    },
                };
                if text.as_str().unicode_len() == 0 {
                    return self.finish(1, Value::Number(0));
                }
                match reply {
                    Reply::Nothing => Ok(Action::Need(Request::ParseNumber(text))),
                    Reply::Number(bits) => self.finish(1, Value::Number(bits)),
                    _ => Err(RuntimeError::UnexpectedReply),
                }
            },
            Builtin::GetInput => self.execute_get_input(arity, reply),
        }
    }
}

} // verus!

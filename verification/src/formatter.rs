//! The source formatter: indentation by block structure.
//!
//! The formatter works line by line. It keeps comments and blank lines, gives
//! every line the indentation of the blocks that are open around it, and leaves
//! the text of the code as it is. What it produces is defined by `formatted`.

use crate::lexer::{lemma_run_end_bounds, run_end, CharClass};
use crate::text::{
    chars_of, push_char, repeat, repeated, same_text, slice_text, to_uppercase, trim, trim_start,
    trim_start_of, trimmed, uppercase_of,
};
use vstd::prelude::*;

verus! {

/// How to format.
#[derive(Debug, Clone, Copy)]
pub struct FormatOptions {
    /// The number of spaces for one level of indentation.
    pub indent_size: usize,
}

impl Default for FormatOptions {
    fn default() -> (r: FormatOptions)
        ensures
            r.indent_size == 4,
    {
        FormatOptions { indent_size: 4 }
    }
}

/// The kind of an open block.
#[derive(Debug, Clone, Copy, PartialEq, Eq, Structural)]
pub enum BlockKind {
    If,
    While,
    For,
    Loop,
    Case,
    Function,
    Procedure,
    DoWhile,
}

/// An open block.
#[derive(Debug, Clone, Copy, PartialEq, Eq, Structural)]
pub struct Block {
    /// The kind of the block.
    pub kind: BlockKind,
    /// The indentation level of the line that opened it.
    pub base_indent: usize,
    /// In a `CASE`: whether the body of a label is open.
    pub case_in_label_body: bool,
}

/// What the first word of a line says about the block structure.
#[derive(Debug, Clone, Copy, PartialEq, Eq, Structural)]
pub enum Lead {
    EndIf,
    EndDo,
    Next,
    EndLoop,
    EndCase,
    Else,
    ElseIf,
    While,
    Case,
    Otherwise,
    Return,
    If,
    For,
    Loop,
    Do,
    Function,
    Procedure,
    Other,
}

/// The state of the formatter between two lines.
pub struct FormatState {
    /// The indentation level.
    pub level: usize,
    /// The open blocks, innermost last.
    pub stack: Seq<Block>,
}

/// The text with `\r\n` and `\r` turned into `\n`, from offset `i` on.
pub open spec fn normalized_from(s: Seq<char>, i: int) -> Seq<char>
    decreases s.len() - i,
{
    if i < 0 || i >= s.len() {
        Seq::empty()
    } else if s[i] == '\r' {
        if i + 1 < s.len() && s[i + 1] == '\n' {
            seq!['\n'] + normalized_from(s, i + 2)
        } else {
            seq!['\n'] + normalized_from(s, i + 1)
        }
    } else {
        seq![s[i]] + normalized_from(s, i + 1)
    }
}

/// The lines of `s` from offset `i` on: the pieces between line breaks. A text
/// that ends with a line break has an empty last line.
pub open spec fn lines_from(s: Seq<char>, i: int) -> Seq<Seq<char>>
    decreases s.len() - i,
{
    if i < 0 || i > s.len() {
        Seq::empty()
    } else {
        let end = run_end(s, i, CharClass::Until('\n'));
        if end >= s.len() {
            seq![s.subrange(i, s.len() as int)]
        } else {
            proof {
                lemma_run_end_bounds(s, i, CharClass::Until('\n'));
            }
            seq![s.subrange(i, end)] + lines_from(s, end + 1)
        }
    }
}

/// The offset where the comment of a line starts: the first `//` outside of
/// double quotes, from offset `i` on; the length of the line where there is
/// none. A quote after a backslash does not count.
pub open spec fn comment_start(line: Seq<char>, i: int, in_string: bool, prev: char) -> int
    decreases line.len() - i,
{
    if i < 0 || i + 1 >= line.len() {
        line.len() as int
    } else {
        let inside = if line[i] == '"' && prev != '\\' {
            !in_string
        } else {
            in_string
        };
        if !inside && line[i] == '/' && line[i + 1] == '/' {
            i
        } else {
            comment_start(line, i + 1, inside, line[i])
        }
    }
}

/// Whether `c` is an ASCII letter, an ASCII digit or the underscore.
pub open spec fn word_char(c: char) -> bool {
    ('a' <= c && c <= 'z') || ('A' <= c && c <= 'Z') || ('0' <= c && c <= '9') || c == '_'
}

/// The end of the run of word characters that starts at offset `i`.
pub open spec fn word_end(s: Seq<char>, i: int) -> int
    decreases s.len() - i,
{
    if i < 0 || i >= s.len() || !word_char(s[i]) {
        i
    } else {
        word_end(s, i + 1)
    }
}

/// The first word of a line of code, in upper case: `??` or `?` where the line
/// starts with it, else the leading run of word characters; nothing where the
/// line is empty or starts with another character.
pub open spec fn first_word(code: Seq<char>) -> Option<Seq<char>> {
    let s = trim_start_of(code);
    if s.len() == 0 {
        None
    } else if s[0] == '?' {
        if s.len() > 1 && s[1] == '?' {
            Some("??"@)
        } else {
            Some("?"@)
        }
    } else if word_end(s, 0) == 0 {
        None
    } else {
        Some(uppercase_of(s.subrange(0, word_end(s, 0))))
    }
}

/// What the first word of a line says about the block structure.
pub open spec fn lead_of(word: Option<Seq<char>>) -> Lead {
    match word {
        None => Lead::Other,
        Some(w) => if w == "ENDIF"@ {
            Lead::EndIf
        } else if w == "ENDDO"@ {
            Lead::EndDo
        } else if w == "NEXT"@ {
            Lead::Next
        } else if w == "ENDLOOP"@ {
            Lead::EndLoop
        } else if w == "ENDCASE"@ {
            Lead::EndCase
        } else if w == "ELSE"@ {
            Lead::Else
        } else if w == "ELSEIF"@ {
            Lead::ElseIf
        } else if w == "WHILE"@ {
            Lead::While
        } else if w == "CASE"@ {
            Lead::Case
        } else if w == "OTHERWISE"@ {
            Lead::Otherwise
        } else if w == "RETURN"@ {
            Lead::Return
        } else if w == "IF"@ {
            Lead::If
        } else if w == "FOR"@ {
            Lead::For
        } else if w == "LOOP"@ {
            Lead::Loop
        } else if w == "DO"@ {
            Lead::Do
        } else if w == "FUNCTION"@ {
            Lead::Function
        } else if w == "PROCEDURE"@ {
            Lead::Procedure
        } else {
            Lead::Other
        },
    }
}

/// One level less, but not below 0.
pub open spec fn outdent(level: usize) -> usize {
    if level > 0 {
        (level - 1) as usize
    } else {
        0
    }
}

/// One level more, as far as the machine counts.
pub open spec fn indent_more(level: usize) -> usize {
    if level < usize::MAX {
        (level + 1) as usize
    } else {
        level
    }
}

/// Whether the innermost open block has the kind `kind`.
pub open spec fn innermost_is(stack: Seq<Block>, kind: BlockKind) -> bool {
    stack.len() > 0 && stack.last().kind == kind
}

/// The stack without its innermost block, where that has the kind `kind`.
pub open spec fn popped_if(stack: Seq<Block>, kind: BlockKind) -> Seq<Block> {
    if innermost_is(stack, kind) {
        stack.drop_last()
    } else {
        stack
    }
}

/// The state with the body of a `CASE` label closed, where one is open in the
/// innermost block.
pub open spec fn label_closed(st: FormatState) -> FormatState {
    if innermost_is(st.stack, BlockKind::Case) && st.stack.last().case_in_label_body {
        FormatState {
            level: outdent(st.level),
            stack: st.stack.update(
                st.stack.len() - 1,
                Block { case_in_label_body: false, ..st.stack.last() },
            ),
        }
    } else {
        st
    }
}

/// Whether the only open block is a function or procedure.
pub open spec fn in_routine_only(stack: Seq<Block>) -> bool {
    stack.len() == 1 && (stack[0].kind == BlockKind::Function || stack[0].kind
        == BlockKind::Procedure)
}

/// The state before a line is written: a line that closes a block or starts a
/// branch steps out first.
pub open spec fn before_line(st: FormatState, lead: Lead) -> FormatState {
    match lead {
        Lead::EndIf => FormatState {
            level: outdent(st.level),
            stack: popped_if(st.stack, BlockKind::If),
        },
        Lead::EndDo => FormatState {
            level: outdent(st.level),
            stack: popped_if(st.stack, BlockKind::While),
        },
        Lead::Next => FormatState {
            level: outdent(st.level),
            stack: popped_if(st.stack, BlockKind::For),
        },
        Lead::EndLoop => FormatState {
            level: outdent(st.level),
            stack: popped_if(st.stack, BlockKind::Loop),
        },
        Lead::EndCase => {
            let closed = label_closed(st);
            FormatState {
                level: outdent(closed.level),
                stack: popped_if(closed.stack, BlockKind::Case),
            }
        },
        Lead::Else | Lead::ElseIf => FormatState { level: outdent(st.level), ..st },
        Lead::While => if innermost_is(st.stack, BlockKind::DoWhile) {
            FormatState { level: outdent(st.level), stack: st.stack.drop_last() }
        } else {
            st
        },
        Lead::Case | Lead::Otherwise => label_closed(st),
        Lead::Return => if in_routine_only(st.stack) {
            FormatState { level: st.stack[0].base_indent, ..st }
        } else {
            st
        },
        _ => st,
    }
}

/// The state with one more open block of the kind `kind`, one level deeper.
pub open spec fn opened(st: FormatState, kind: BlockKind) -> FormatState {
    FormatState {
        level: indent_more(st.level),
        stack: st.stack.push(Block { kind, base_indent: st.level, case_in_label_body: false }),
    }
}

/// The state with the body of a `CASE` label open in the innermost block, one
/// level deeper.
pub open spec fn label_opened(st: FormatState) -> FormatState {
    FormatState {
        level: indent_more(st.level),
        stack: st.stack.update(
            st.stack.len() - 1,
            Block { case_in_label_body: true, ..st.stack.last() },
        ),
    }
}

/// The state after a line is written: a line that opens a block or a branch
/// steps in.
pub open spec fn after_line(st: FormatState, lead: Lead) -> FormatState {
    match lead {
        Lead::If => opened(st, BlockKind::If),
        Lead::While => if innermost_is(st.stack, BlockKind::DoWhile) || innermost_is(
            st.stack,
            BlockKind::While,
        ) {
            st
        } else {
            opened(st, BlockKind::While)
        },
        Lead::For => opened(st, BlockKind::For),
        Lead::Loop => opened(st, BlockKind::Loop),
        Lead::Do => opened(st, BlockKind::DoWhile),
        Lead::Case => if innermost_is(st.stack, BlockKind::Case) {
            label_opened(st)
        } else {
            opened(st, BlockKind::Case)
        },
        Lead::Otherwise => if innermost_is(st.stack, BlockKind::Case) {
            label_opened(st)
        } else {
            st
        },
        Lead::Else | Lead::ElseIf => FormatState { level: indent_more(st.level), ..st },
        Lead::Function => opened(st, BlockKind::Function),
        Lead::Procedure => opened(st, BlockKind::Procedure),
        Lead::Return => if in_routine_only(st.stack) {
            FormatState { level: 0, stack: st.stack.drop_last() }
        } else {
            st
        },
        _ => st,
    }
}

/// The number of spaces of `level` levels, as far as the machine counts.
pub open spec fn indent_width(level: usize, size: usize) -> usize {
    if level * size > usize::MAX {
        usize::MAX
    } else {
        (level * size) as usize
    }
}

/// The spaces of `level` levels.
pub open spec fn indentation(level: usize, size: usize) -> Seq<char> {
    repeated(" "@, indent_width(level, size) as nat)
}

/// One line, formatted: the state after it and its text, with a line break
/// unless it is the last line. A blank line stays blank; a line that holds a
/// comment alone is indented; in any other line the code is indented and the
/// comment follows it after one space.
pub open spec fn format_line(st: FormatState, line: Seq<char>, size: usize, last: bool) -> (
    FormatState,
    Seq<char>,
) {
    let at = comment_start(line, 0, false, '\0');
    let code = trimmed(line.subrange(0, at));
    let comment = line.subrange(at, line.len() as int);
    let end = if last {
        Seq::empty()
    } else {
        seq!['\n']
    };
    if code.len() == 0 {
        if comment.len() == 0 {
            (st, end)
        } else {
            (st, indentation(st.level, size) + trim_start_of(comment) + end)
        }
    } else {
        let lead = lead_of(first_word(code));
        let before = before_line(st, lead);
        let tail = if comment.len() == 0 {
            Seq::empty()
        } else {
            seq![' '] + trim_start_of(comment)
        };
        (after_line(before, lead), indentation(before.level, size) + code + tail + end)
    }
}

/// The lines from index `i` on, formatted one after the other.
pub open spec fn format_lines(st: FormatState, lines: Seq<Seq<char>>, i: int, size: usize) -> Seq<
    char,
>
    decreases lines.len() - i,
{
    if i < 0 || i >= lines.len() {
        Seq::empty()
    } else {
        let step = format_line(st, lines[i], size, i + 1 == lines.len());
        step.1 + format_lines(step.0, lines, i + 1, size)
    }
}

/// A source text, formatted. Line ends are `\n`; the text ends with a line
/// break where the source did.
pub open spec fn formatted(source: Seq<char>, size: usize) -> Seq<char> {
    let text = normalized_from(source, 0);
    let out = format_lines(
        FormatState { level: 0, stack: Seq::empty() },
        lines_from(text, 0),
        0,
        size,
    );
    if text.len() > 0 && text.last() == '\n' && !(out.len() > 0 && out.last() == '\n') {
        out + seq!['\n']
    } else {
        out
    }
}

/// The text with `\r\n` and `\r` turned into `\n`.
fn normalize(source: &Vec<char>) -> (r: Vec<char>)
    ensures
        r@ == normalized_from(source@, 0),
{
    let mut out: Vec<char> = Vec::new();
    let mut i: usize = 0;
    assert(out@ + normalized_from(source@, 0) =~= normalized_from(source@, 0));
    while i < source.len()
        invariant
            i <= source.len(),
            out@ + normalized_from(source@, i as int) == normalized_from(source@, 0),
        decreases source.len() - i,
    {
        let ghost before = out@;
        if source[i] == '\r' {
            out.push('\n');
            if i + 1 < source.len() && source[i + 1] == '\n' {
                assert(out@ + normalized_from(source@, i + 2) =~= before + normalized_from(
                    source@,
                    i as int,
                ));
                i = i + 2;
            } else {
                assert(out@ + normalized_from(source@, i + 1) =~= before + normalized_from(
                    source@,
                    i as int,
                ));
                i = i + 1;
            }
        } else {
            out.push(source[i]);
            assert(out@ + normalized_from(source@, i + 1) =~= before + normalized_from(
                source@,
                i as int,
            ));
            i = i + 1;
        }
    }
    assert(out@ + Seq::<char>::empty() =~= out@);
    out
}

/// The views of a list of lines.
pub open spec fn lines_model(lines: Seq<Vec<char>>) -> Seq<Seq<char>> {
    Seq::new(lines.len(), |i: int| lines[i]@)
}

/// The lines of `text`.
fn split_lines(text: &Vec<char>) -> (r: Vec<Vec<char>>)
    ensures
        lines_model(r@) == lines_from(text@, 0),
        r.len() > 0,
{
    let mut lines: Vec<Vec<char>> = Vec::new();
    let mut start: usize = 0;
    assert(lines_model(lines@) + lines_from(text@, 0) =~= lines_from(text@, 0));
    loop
        invariant
            start <= text.len(),
            lines_model(lines@) + lines_from(text@, start as int) == lines_from(text@, 0),
        decreases text.len() - start,
    {
        let mut end = start;
        while end < text.len() && text[end] != '\n'
            invariant
                start <= end <= text.len(),
                run_end(text@, start as int, CharClass::Until('\n')) == run_end(
                    text@,
                    end as int,
                    CharClass::Until('\n'),
                ),
            decreases text.len() - end,
        {
            end = end + 1;
        }
        let mut line: Vec<char> = Vec::new();
        let mut k: usize = start;
        while k < end
            invariant
                start <= k <= end <= text.len(),
                line@ == text@.subrange(start as int, k as int),
            decreases end - k,
        {
            line.push(text[k]);
            k = k + 1;
        }
        let ghost before = lines_model(lines@);
        let ghost piece = line@;
        lines.push(line);
        assert(lines_model(lines@) =~= before.push(piece));
        if end >= text.len() {
            assert(lines_model(lines@) =~= before + lines_from(text@, start as int));
            return lines;
        }
        assert(lines_model(lines@) + lines_from(text@, end + 1) =~= before + lines_from(
            text@,
            start as int,
        ));
        start = end + 1;
    }
}

/// Splits a line into its code and its comment: the comment starts at the first
/// `//` outside of double quotes.
pub fn split_line_comment(line: &Vec<char>) -> (r: usize)
    ensures
        r == comment_start(line@, 0, false, '\0'),
        r <= line.len(),
{
    let mut in_string = false;
    let mut prev = '\0';
    let mut i: usize = 0;
    while line.len() > 0 && i < line.len() - 1
        invariant
            i <= line.len(),
            comment_start(line@, 0, false, '\0') == comment_start(
                line@,
                i as int,
                in_string,
                prev,
            ),
        decreases line.len() - i,
    {
        let c = line[i];
        if c == '"' && prev != '\\' {
            in_string = !in_string;
        }
        if !in_string && c == '/' && line[i + 1] == '/' {
            return i;
        }
        prev = c;
        i = i + 1;
    }
    line.len()
}

/// Whether `c` is an ASCII letter, an ASCII digit or the underscore.
fn is_word_char(c: char) -> (r: bool)
    ensures
        r == word_char(c),
{
    ('a' <= c && c <= 'z') || ('A' <= c && c <= 'Z') || ('0' <= c && c <= '9') || c == '_'
}

/// The first word of a line of code, in upper case.
pub fn first_token_upper(code: &str) -> (r: Option<String>)
    ensures
        match r {
            Some(word) => first_word(code@) == Some(word@),
            None => first_word(code@) is None,
        },
{
    let trimmed_start = trim_start(code);
    let s = chars_of(trimmed_start.as_str());
    if s.len() == 0 {
        return None;
    }
    if s[0] == '?' {
        if s.len() > 1 && s[1] == '?' {
            return Some("??".to_owned());
        }
        return Some("?".to_owned());
    }
    let mut end: usize = 0;
    while end < s.len() && is_word_char(s[end])
        invariant
            end <= s.len(),
            word_end(s@, 0) == word_end(s@, end as int),
        decreases s.len() - end,
    {
        end = end + 1;
    }
    if end == 0 {
        return None;
    }
    let word = slice_text(&s, 0, end);
    Some(to_uppercase(word.as_str()))
}

/// What the first word of a line says about the block structure.
fn lead(word: &Option<String>) -> (r: Lead)
    ensures
        r == lead_of(
            match word {
                Some(w) => Some(w@),
                None => None,
            },
        ),
{
    match word {
        None => Lead::Other,
        Some(w) => {
            let w = w.as_str();
            if same_text(w, "ENDIF") {
                Lead::EndIf
            } else if same_text(w, "ENDDO") {
                Lead::EndDo
            } else if same_text(w, "NEXT") {
                Lead::Next
            } else if same_text(w, "ENDLOOP") {
                Lead::EndLoop
            } else if same_text(w, "ENDCASE") {
                Lead::EndCase
            } else if same_text(w, "ELSE") {
                Lead::Else
            } else if same_text(w, "ELSEIF") {
                Lead::ElseIf
            } else if same_text(w, "WHILE") {
                Lead::While
            } else if same_text(w, "CASE") {
                Lead::Case
            } else if same_text(w, "OTHERWISE") {
                Lead::Otherwise
            } else if same_text(w, "RETURN") {
                Lead::Return
            } else if same_text(w, "IF") {
                Lead::If
            } else if same_text(w, "FOR") {
                Lead::For
            } else if same_text(w, "LOOP") {
                Lead::Loop
            } else if same_text(w, "DO") {
                Lead::Do
            } else if same_text(w, "FUNCTION") {
                Lead::Function
            } else if same_text(w, "PROCEDURE") {
                Lead::Procedure
            } else {
                Lead::Other
            }
        },
    }
}

/// The formatter between two lines.
struct Formatter {
    indent_level: usize,
    stack: Vec<Block>,
}

impl Formatter {
    spec fn state(&self) -> FormatState {
        FormatState { level: self.indent_level, stack: self.stack@ }
    }

    fn dedent(&mut self)
        ensures
            final(self).state() == (FormatState {
                level: outdent(old(self).state().level),
                ..old(self).state()
            }),
    {
        if self.indent_level > 0 {
            self.indent_level = self.indent_level - 1;
        }
    }

    fn indent(&mut self)
        ensures
            final(self).state() == (FormatState {
                level: indent_more(old(self).state().level),
                ..old(self).state()
            }),
    {
        if self.indent_level < usize::MAX {
            self.indent_level = self.indent_level + 1;
        }
    }

    fn innermost_is(&self, kind: BlockKind) -> (r: bool)
        ensures
            r == innermost_is(self.state().stack, kind),
    {
        self.stack.len() > 0 && self.stack[self.stack.len() - 1].kind == kind
    }

    /// Closes the innermost block if it has the kind `kind`.
    fn pop_if_kind(&mut self, kind: BlockKind)
        ensures
            final(self).state() == (FormatState {
                stack: popped_if(old(self).state().stack, kind),
                ..old(self).state()
            }),
    {
        if self.innermost_is(kind) {
            self.stack.pop();
        }
    }

    fn set_label_body(&mut self, open: bool)
        requires
            old(self).stack.len() > 0,
        ensures
            final(self).state() == (FormatState {
                stack: old(self).state().stack.update(
                    old(self).state().stack.len() - 1,
                    Block { case_in_label_body: open, ..old(self).state().stack.last() },
                ),
                ..old(self).state()
            }),
    {
        let at = self.stack.len() - 1;
        let top = self.stack[at];
        self.stack.set(
            at,
            Block { kind: top.kind, base_indent: top.base_indent, case_in_label_body: open },
        );
    }

    fn close_label(&mut self)
        ensures
            final(self).state() == label_closed(old(self).state()),
    {
        if self.innermost_is(BlockKind::Case) && self.stack[self.stack.len()
            - 1].case_in_label_body {
            self.dedent();
            self.set_label_body(false);
        }
    }

    fn open_block(&mut self, kind: BlockKind)
        ensures
            final(self).state() == opened(old(self).state(), kind),
    {
        self.stack.push(
            Block { kind, base_indent: self.indent_level, case_in_label_body: false },
        );
        self.indent();
    }

    fn in_routine_only(&self) -> (r: bool)
        ensures
            r == in_routine_only(self.state().stack),
    {
        self.stack.len() == 1 && (self.stack[0].kind == BlockKind::Function || self.stack[0].kind
            == BlockKind::Procedure)
    }

    fn before_line(&mut self, lead: Lead)
        ensures
            final(self).state() == before_line(old(self).state(), lead),
    {
        match lead {
            Lead::EndIf => {
                self.dedent();
                self.pop_if_kind(BlockKind::If);
            },
            Lead::EndDo => {
                self.dedent();
                self.pop_if_kind(BlockKind::While);
            },
            Lead::Next => {
                self.dedent();
                self.pop_if_kind(BlockKind::For);
            },
            Lead::EndLoop => {
                self.dedent();
                self.pop_if_kind(BlockKind::Loop);
            },
            Lead::EndCase => {
                self.close_label();
                self.dedent();
                self.pop_if_kind(BlockKind::Case);
            },
            Lead::Else | Lead::ElseIf => {
                self.dedent();
            },
            Lead::While => {
                if self.innermost_is(BlockKind::DoWhile) {
                    self.dedent();
                    self.stack.pop();
                }
            },
            Lead::Case | Lead::Otherwise => {
                self.close_label();
            },
            Lead::Return => {
                if self.in_routine_only() {
                    self.indent_level = self.stack[0].base_indent;
                }
            },
            _ => {},
        }
    }

    fn after_line(&mut self, lead: Lead)
        ensures
            final(self).state() == after_line(old(self).state(), lead),
    {
        match lead {
            Lead::If => self.open_block(BlockKind::If),
            Lead::While => {
                if !self.innermost_is(BlockKind::DoWhile) && !self.innermost_is(BlockKind::While) {
                    self.open_block(BlockKind::While);
                }
            },
            Lead::For => self.open_block(BlockKind::For),
            Lead::Loop => self.open_block(BlockKind::Loop),
            Lead::Do => self.open_block(BlockKind::DoWhile),
            Lead::Case => {
                if self.innermost_is(BlockKind::Case) {
                    self.set_label_body(true);
                    self.indent();
                } else {
                    self.open_block(BlockKind::Case);
                }
            },
            Lead::Otherwise => {
                if self.innermost_is(BlockKind::Case) {
                    self.set_label_body(true);
                    self.indent();
                }
            },
            Lead::Else | Lead::ElseIf => {
                self.indent();
            },
            Lead::Function => self.open_block(BlockKind::Function),
            Lead::Procedure => self.open_block(BlockKind::Procedure),
            Lead::Return => {
                if self.in_routine_only() {
                    self.stack.pop();
                    self.indent_level = 0;
                }
            },
            _ => {},
        }
    }

    /// The spaces of the current level.
    fn indentation(&self, size: usize) -> (r: String)
        ensures
            r@ == indentation(self.state().level, size),
    {
        let width = if self.indent_level != 0 && size > usize::MAX / self.indent_level {
            proof {
                assert(self.indent_level * size > usize::MAX) by (nonlinear_arith)
                    requires
                        self.indent_level > 0,
                        size > usize::MAX / self.indent_level,
                ;
            }
            usize::MAX
        } else {
            proof {
                assert(self.indent_level * size <= usize::MAX) by (nonlinear_arith)
                    requires
                        self.indent_level == 0 || size <= usize::MAX / self.indent_level,
                ;
            }
            self.indent_level * size
        };
        repeat(" ", width)
    }

    /// Formats one line and appends it to `out`.
    fn format_line(&mut self, line: &Vec<char>, size: usize, last: bool, out: &mut String)
        ensures
            final(self).state() == format_line(old(self).state(), line@, size, last).0,
            final(out)@ == old(out)@ + format_line(old(self).state(), line@, size, last).1,
    {
        let at = split_line_comment(line);
        let code_part = slice_text(line, 0, at);
        let comment_part = slice_text(line, at, line.len());
        let code = trim(code_part.as_str());
        let ghost end = if last {
            Seq::<char>::empty()
        } else {
            seq!['\n']
        };
        if code.as_str().unicode_len() == 0 {
            if comment_part.as_str().unicode_len() != 0 {
                out.append(self.indentation(size).as_str());
                out.append(trim_start(comment_part.as_str()).as_str());
            }
            if !last {
                push_char(out, '\n');
            }
            assert(out@ =~= old(out)@ + format_line(old(self).state(), line@, size, last).1);
            return ;
        }
        let word = first_token_upper(code.as_str());
        let lead = lead(&word);
        self.before_line(lead);
        out.append(self.indentation(size).as_str());
        out.append(code.as_str());
        if comment_part.as_str().unicode_len() != 0 {
            push_char(out, ' ');
            out.append(trim_start(comment_part.as_str()).as_str());
        }
        self.after_line(lead);
        if !last {
            push_char(out, '\n');
        }
        assert(out@ =~= old(out)@ + format_line(old(self).state(), line@, size, last).1);
    }
}

/// Formats a source text: every line gets the indentation of the blocks that
/// are open around it; comments, blank lines and the text of the code stay.
pub fn format_source(source: &str, options: FormatOptions) -> (r: String)
    ensures
        r@ == formatted(source@, options.indent_size),
{
    let text = normalize(&chars_of(source));
    let lines = split_lines(&text);
    let mut formatter = Formatter { indent_level: 0, stack: Vec::new() };
    let mut out = String::new();
    let ghost start = formatter.state();
    let ghost model = lines_model(lines@);
    let mut ends_with_break = false;
    let mut i: usize = 0;
    assert(out@ + format_lines(start, model, 0, options.indent_size) =~= format_lines(
        start,
        model,
        0,
        options.indent_size,
    ));
    while i < lines.len()
        invariant
            i <= lines.len(),
            model == lines_model(lines@),
            out@ + format_lines(formatter.state(), model, i as int, options.indent_size)
                == format_lines(start, model, 0, options.indent_size),
        decreases lines.len() - i,
    {
        let ghost before = out@;
        let ghost state = formatter.state();
        assert(model[i as int] == lines[i as int]@);
        formatter.format_line(&lines[i], options.indent_size, i + 1 == lines.len(), &mut out);
        assert(out@ + format_lines(formatter.state(), model, i + 1, options.indent_size) =~= before
            + format_lines(state, model, i as int, options.indent_size));
        i = i + 1;
    }
    assert(out@ + Seq::<char>::empty() =~= out@);
    let written = chars_of(out.as_str());
    if text.len() > 0 && text[text.len() - 1] == '\n' && !(written.len() > 0 && written[written.len()
        - 1] == '\n') {
        push_char(&mut out, '\n');
        assert(out@ =~= written@ + seq!['\n']);
    }
    out
}


/// Whether the upper-case word `w` is a keyword that is written in upper case.
pub open spec fn format_keyword(w: Seq<char>) -> bool {
    w == "FUNCTION"@ || w == "PROCEDURE"@ || w == "RETURN"@ || w == "LOCAL"@ || w == "STATIC"@ || w
        == "PRIVATE"@ || w == "PUBLIC"@ || w == "IF"@ || w == "ELSE"@ || w == "ELSEIF"@ || w
        == "ENDIF"@ || w == "DO"@ || w == "WHILE"@ || w == "ENDDO"@ || w == "FOR"@ || w == "TO"@
        || w == "STEP"@ || w == "NEXT"@ || w == "LOOP"@ || w == "ENDLOOP"@ || w == "EXIT"@ || w
        == "CASE"@ || w == "OTHERWISE"@ || w == "ENDCASE"@ || w == "TRUE"@ || w == "FALSE"@ || w
        == "NIL"@ || w == "USE"@ || w == "DBSKIP"@ || w == "DBGOTOP"@ || w == "DBGOBOTTOM"@ || w
        == "DBSEEK"@ || w == "REPLACE"@ || w == "AND"@ || w == "OR"@ || w == "NOT"@
}

/// Whether the upper-case word `w` is a keyword that is written in upper case.
pub fn is_format_keyword(w: &str) -> (r: bool)
    ensures
        r == format_keyword(w@),
{
    same_text(w, "FUNCTION") || same_text(w, "PROCEDURE") || same_text(w, "RETURN") || same_text(
        w,
        "LOCAL",
    ) || same_text(w, "STATIC") || same_text(w, "PRIVATE") || same_text(w, "PUBLIC") || same_text(
        w,
        "IF",
    ) || same_text(w, "ELSE") || same_text(w, "ELSEIF") || same_text(w, "ENDIF") || same_text(
        w,
        "DO",
    ) || same_text(w, "WHILE") || same_text(w, "ENDDO") || same_text(w, "FOR") || same_text(
        w,
        "TO",
    ) || same_text(w, "STEP") || same_text(w, "NEXT") || same_text(w, "LOOP") || same_text(
        w,
        "ENDLOOP",
    ) || same_text(w, "EXIT") || same_text(w, "CASE") || same_text(w, "OTHERWISE") || same_text(
        w,
        "ENDCASE",
    ) || same_text(w, "TRUE") || same_text(w, "FALSE") || same_text(w, "NIL") || same_text(
        w,
        "USE",
    ) || same_text(w, "DBSKIP") || same_text(w, "DBGOTOP") || same_text(w, "DBGOBOTTOM")
        || same_text(w, "DBSEEK") || same_text(w, "REPLACE") || same_text(w, "AND") || same_text(
        w,
        "OR",
    ) || same_text(w, "NOT")
}

/// Where the rewriting of a line of code stands.
pub struct KeywordScan {
    /// What is written so far.
    pub out: Seq<char>,
    /// The word that is being read.
    pub word: Seq<char>,
    /// Whether the place is inside double quotes.
    pub in_string: bool,
    /// The character before.
    pub prev: char,
}

/// `out`, followed by `word`: in upper case where that is a keyword.
pub open spec fn flushed(out: Seq<char>, word: Seq<char>) -> Seq<char> {
    if word.len() == 0 {
        out
    } else if format_keyword(uppercase_of(word)) {
        out + uppercase_of(word)
    } else {
        out + word
    }
}

/// The scan after the character `c`. A double quote that does not follow a
/// backslash opens or closes a string; inside a string everything is copied;
/// outside, word characters are collected and every other character ends the
/// word.
pub open spec fn scan_char(st: KeywordScan, c: char) -> KeywordScan {
    if c == '"' && st.prev != '\\' {
        KeywordScan {
            out: flushed(st.out, st.word).push(c),
            word: Seq::empty(),
            in_string: !st.in_string,
            prev: c,
        }
    } else if st.in_string {
        KeywordScan { out: st.out.push(c), prev: c, ..st }
    } else if word_char(c) {
        KeywordScan { word: st.word.push(c), prev: c, ..st }
    } else {
        KeywordScan { out: flushed(st.out, st.word).push(c), word: Seq::empty(), prev: c, ..st }
    }
}

/// The scan after the characters of `code` from offset `i` on.
pub open spec fn scan_from(st: KeywordScan, code: Seq<char>, i: int) -> KeywordScan
    decreases code.len() - i,
{
    if i < 0 || i >= code.len() {
        st
    } else {
        scan_from(scan_char(st, code[i]), code, i + 1)
    }
}

/// A line of code with its keywords in upper case; what stands between double
/// quotes stays, and white space at the end goes.
pub open spec fn with_upper_keywords(code: Seq<char>) -> Seq<char> {
    let end = scan_from(
        KeywordScan { out: Seq::empty(), word: Seq::empty(), in_string: false, prev: '\0' },
        code,
        0,
    );
    crate::text::trim_end_of(flushed(end.out, end.word))
}

/// Appends `word` to `out`: in upper case where it is a keyword.
fn flush_word(out: &mut String, word: &mut String)
    ensures
        final(out)@ == flushed(old(out)@, old(word)@),
        final(word)@ == Seq::<char>::empty(),
{
    if word.as_str().unicode_len() != 0 {
        let upper = to_uppercase(word.as_str());
        if is_format_keyword(upper.as_str()) {
            out.append(upper.as_str());
        } else {
            out.append(word.as_str());
        }
    }
    *word = String::new();
}

/// A line of code with its keywords in upper case.
pub fn uppercase_keywords_outside_strings(code: &str) -> (r: String)
    ensures
        r@ == with_upper_keywords(code@),
{
    let chars = chars_of(code);
    let mut out = String::new();
    let mut word = String::new();
    let mut in_string = false;
    let mut prev = '\0';
    let ghost start = KeywordScan {
        out: Seq::empty(),
        word: Seq::empty(),
        in_string: false,
        prev: '\0',
    };
    let mut i: usize = 0;
    while i < chars.len()
        invariant
            i <= chars.len(),
            chars@ == code@,
            scan_from(start, code@, 0) == scan_from(
                KeywordScan { out: out@, word: word@, in_string, prev },
                code@,
                i as int,
            ),
        decreases chars.len() - i,
    {
        let c = chars[i];
        if c == '"' && prev != '\\' {
            flush_word(&mut out, &mut word);
            in_string = !in_string;
            push_char(&mut out, c);
        } else if in_string {
            push_char(&mut out, c);
        } else if is_word_char(c) {
            push_char(&mut word, c);
        } else {
            flush_word(&mut out, &mut word);
            push_char(&mut out, c);
        }
        prev = c;
        i = i + 1;
    }
    flush_word(&mut out, &mut word);
    crate::text::trim_end(out.as_str())
}

} // verus!

//! The lexer: source text to tokens.
//!
//! What the lexer produces is defined by `tokens_from`, a function of the source
//! text and the offset where scanning starts. Line breaks inside the source are
//! scanned as tokens of their own and then left out of the result.

use crate::text::{
    alphabetic, alphanumeric, char_text, chars_of, is_alphabetic, is_alphanumeric, is_ascii_digit,
    is_digit, located, located_message, slice_text, spells, to_uppercase, uppercase_of,
};
use crate::token::{token_views, Token, TokenType, TokenView};
use vstd::prelude::*;

verus! {

/// A set of characters that a run is made of.
pub enum CharClass {
    /// ASCII digits.
    Digit,
    /// Letters, digits and the underscore.
    Word,
    /// Every character but the given one.
    Until(char),
}

impl CharClass {
    /// Whether `c` belongs to the class.
    pub open spec fn holds(self, c: char) -> bool {
        match self {
            CharClass::Digit => is_digit(c),
            CharClass::Word => alphanumeric(c) || c == '_',
            CharClass::Until(stop) => c != stop,
        }
    }

    fn contains(&self, c: char) -> (r: bool)
        ensures
            r == self.holds(c),
    {
        match self {
            CharClass::Digit => is_ascii_digit(c),
            CharClass::Word => is_alphanumeric(c) || c == '_',
            CharClass::Until(stop) => c != *stop,
        }
    }
}

/// The line and column after the character `c`, for a reader that stood at
/// `line`, `column` before it.
pub open spec fn after_char(line: int, column: int, c: char) -> (int, int) {
    if c == '\n' {
        (line + 1, 1)
    } else {
        (line, column + 1)
    }
}

/// The 1-based line and column of the offset `n` in `src`.
pub open spec fn position_at(src: Seq<char>, n: int) -> (int, int)
    decreases n,
{
    if n <= 0 {
        (1, 1)
    } else {
        let p = position_at(src, n - 1);
        after_char(p.0, p.1, src[n - 1])
    }
}

/// The first offset at or after `start` whose character is outside `class`, or
/// the length of `src` if there is none.
pub open spec fn run_end(src: Seq<char>, start: int, class: CharClass) -> int
    decreases src.len() - start,
{
    if start < 0 || start >= src.len() || !class.holds(src[start]) {
        start
    } else {
        run_end(src, start + 1, class)
    }
}

/// The offset after the first `*/` at or after `pos`, or the length of `src` if
/// the comment is never closed.
pub open spec fn comment_end(src: Seq<char>, pos: int) -> int
    decreases src.len() - pos,
{
    if pos < 0 || pos >= src.len() {
        pos
    } else if src[pos] == '*' && next_is(src, pos, '/') {
        pos + 2
    } else {
        comment_end(src, pos + 1)
    }
}

/// Whether the character after offset `pos` is `c`.
pub open spec fn next_is(src: Seq<char>, pos: int, c: char) -> bool {
    pos + 1 < src.len() && src[pos + 1] == c
}

/// The first offset at or after `pos` that is neither blank (space, tab,
/// carriage return) nor inside a `//` or `/* */` comment.
pub open spec fn skip_blank(src: Seq<char>, pos: int) -> int
    decreases src.len() - pos,
{
    if pos < 0 || pos >= src.len() {
        pos
    } else if src[pos] == ' ' || src[pos] == '\r' || src[pos] == '\t' {
        skip_blank(src, pos + 1)
    } else if src[pos] == '/' && next_is(src, pos, '/') {
        proof {
            lemma_run_end_bounds(src, pos + 2, CharClass::Until('\n'));
        }
        skip_blank(src, run_end(src, pos + 2, CharClass::Until('\n')))
    } else if src[pos] == '/' && next_is(src, pos, '*') {
        proof {
            lemma_comment_end_bounds(src, pos + 2);
        }
        skip_blank(src, comment_end(src, pos + 2))
    } else {
        pos
    }
}

/// The keyword that the upper-case word `word` spells, if any.
pub open spec fn keyword_of(word: Seq<char>) -> Option<TokenType> {
    if word == "FUNCTION"@ {
        Some(TokenType::Function)
    } else if word == "PROCEDURE"@ {
        Some(TokenType::Procedure)
    } else if word == "RETURN"@ {
        Some(TokenType::Return)
    } else if word == "LOCAL"@ {
        Some(TokenType::Local)
    } else if word == "STATIC"@ {
        Some(TokenType::Static)
    } else if word == "PRIVATE"@ {
        Some(TokenType::Private)
    } else if word == "PUBLIC"@ {
        Some(TokenType::Public)
    } else if word == "IF"@ {
        Some(TokenType::If)
    } else if word == "ELSE"@ {
        Some(TokenType::Else)
    } else if word == "ELSEIF"@ {
        Some(TokenType::ElseIf)
    } else if word == "ENDIF"@ {
        Some(TokenType::EndIf)
    } else if word == "DO"@ {
        Some(TokenType::Do)
    } else if word == "WHILE"@ {
        Some(TokenType::While)
    } else if word == "ENDDO"@ {
        Some(TokenType::EndDo)
    } else if word == "FOR"@ {
        Some(TokenType::For)
    } else if word == "TO"@ {
        Some(TokenType::To)
    } else if word == "STEP"@ {
        Some(TokenType::Step)
    } else if word == "NEXT"@ {
        Some(TokenType::Next)
    } else if word == "EXIT"@ {
        Some(TokenType::Exit)
    } else if word == "LOOP"@ {
        Some(TokenType::Loop)
    } else if word == "CASE"@ {
        Some(TokenType::Case)
    } else if word == "ENDCASE"@ {
        Some(TokenType::EndCase)
    } else if word == "OTHERWISE"@ {
        Some(TokenType::Otherwise)
    } else if word == "TRUE"@ {
        Some(TokenType::True)
    } else if word == "FALSE"@ {
        Some(TokenType::False)
    } else if word == "NIL"@ {
        Some(TokenType::Nil)
    } else if word == "USE"@ {
        Some(TokenType::Use)
    } else if word == "SELECT"@ {
        Some(TokenType::Select)
    } else if word == "DBCREATE"@ {
        Some(TokenType::DbCreate)
    } else if word == "DBAPPEND"@ {
        Some(TokenType::DbAppend)
    } else if word == "DBSKIP"@ {
        Some(TokenType::DbSkip)
    } else if word == "DBGOTOP"@ {
        Some(TokenType::DbGoTop)
    } else if word == "DBGOBOTTOM"@ {
        Some(TokenType::DbGoBottom)
    } else if word == "DBSEEK"@ {
        Some(TokenType::DbSeek)
    } else if word == "INDEX"@ {
        Some(TokenType::Index)
    } else if word == "CLOSE"@ {
        Some(TokenType::Close)
    } else if word == "REPLACE"@ {
        Some(TokenType::Replace)
    } else if word == "DELETE"@ {
        Some(TokenType::Delete)
    } else if word == "RECALL"@ {
        Some(TokenType::Recall)
    } else if word == "AND"@ {
        Some(TokenType::And)
    } else if word == "OR"@ {
        Some(TokenType::Or)
    } else if word == "NOT"@ {
        Some(TokenType::Not)
    } else {
        None
    }
}

/// The keyword that the upper-case word `word` spells, if any.
pub fn keyword(word: &Vec<char>) -> (r: Option<TokenType>)
    ensures
        r == keyword_of(word@),
{
    if spells(word, "FUNCTION") {
        Some(TokenType::Function)
    } else if spells(word, "PROCEDURE") {
        Some(TokenType::Procedure)
    } else if spells(word, "RETURN") {
        Some(TokenType::Return)
    } else if spells(word, "LOCAL") {
        Some(TokenType::Local)
    } else if spells(word, "STATIC") {
        Some(TokenType::Static)
    } else if spells(word, "PRIVATE") {
        Some(TokenType::Private)
    } else if spells(word, "PUBLIC") {
        Some(TokenType::Public)
    } else if spells(word, "IF") {
        Some(TokenType::If)
    } else if spells(word, "ELSE") {
        Some(TokenType::Else)
    } else if spells(word, "ELSEIF") {
        Some(TokenType::ElseIf)
    } else if spells(word, "ENDIF") {
        Some(TokenType::EndIf)
    } else if spells(word, "DO") {
        Some(TokenType::Do)
    } else if spells(word, "WHILE") {
        Some(TokenType::While)
    } else if spells(word, "ENDDO") {
        Some(TokenType::EndDo)
    } else if spells(word, "FOR") {
        Some(TokenType::For)
    } else if spells(word, "TO") {
        Some(TokenType::To)
    } else if spells(word, "STEP") {
        Some(TokenType::Step)
    } else if spells(word, "NEXT") {
        Some(TokenType::Next)
    } else if spells(word, "EXIT") {
        Some(TokenType::Exit)
    } else if spells(word, "LOOP") {
        Some(TokenType::Loop)
    } else if spells(word, "CASE") {
        Some(TokenType::Case)
    } else if spells(word, "ENDCASE") {
        Some(TokenType::EndCase)
    } else if spells(word, "OTHERWISE") {
        Some(TokenType::Otherwise)
    } else if spells(word, "TRUE") {
        Some(TokenType::True)
    } else if spells(word, "FALSE") {
        Some(TokenType::False)
    } else if spells(word, "NIL") {
        Some(TokenType::Nil)
    } else if spells(word, "USE") {
        Some(TokenType::Use)
    } else if spells(word, "SELECT") {
        Some(TokenType::Select)
    } else if spells(word, "DBCREATE") {
        Some(TokenType::DbCreate)
    } else if spells(word, "DBAPPEND") {
        Some(TokenType::DbAppend)
    } else if spells(word, "DBSKIP") {
        Some(TokenType::DbSkip)
    } else if spells(word, "DBGOTOP") {
        Some(TokenType::DbGoTop)
    } else if spells(word, "DBGOBOTTOM") {
        Some(TokenType::DbGoBottom)
    } else if spells(word, "DBSEEK") {
        Some(TokenType::DbSeek)
    } else if spells(word, "INDEX") {
        Some(TokenType::Index)
    } else if spells(word, "CLOSE") {
        Some(TokenType::Close)
    } else if spells(word, "REPLACE") {
        Some(TokenType::Replace)
    } else if spells(word, "DELETE") {
        Some(TokenType::Delete)
    } else if spells(word, "RECALL") {
        Some(TokenType::Recall)
    } else if spells(word, "AND") {
        Some(TokenType::And)
    } else if spells(word, "OR") {
        Some(TokenType::Or)
    } else if spells(word, "NOT") {
        Some(TokenType::Not)
    } else {
        None
    }
}

/// The operator or delimiter that starts at offset `pos`, with the number of
/// characters it takes up; `None` where no such token starts there.
pub open spec fn operator_at(src: Seq<char>, pos: int) -> Option<(TokenType, usize)> {
    let c = src[pos];
    if c == '+' {
        if next_is(src, pos, '+') {
            Some((TokenType::Increment, 2usize))
        } else if next_is(src, pos, '=') {
            Some((TokenType::PlusAssign, 2usize))
        } else {
            Some((TokenType::Plus, 1usize))
        }
    } else if c == '-' {
        if next_is(src, pos, '-') {
            Some((TokenType::Decrement, 2usize))
        } else if next_is(src, pos, '=') {
            Some((TokenType::MinusAssign, 2usize))
        } else if next_is(src, pos, '>') {
            Some((TokenType::Arrow, 2usize))
        } else {
            Some((TokenType::Minus, 1usize))
        }
    } else if c == '*' {
        if next_is(src, pos, '=') {
            Some((TokenType::MultiplyAssign, 2usize))
        } else {
            Some((TokenType::Star, 1usize))
        }
    } else if c == '/' {
        if next_is(src, pos, '=') {
            Some((TokenType::DivideAssign, 2usize))
        } else {
            Some((TokenType::Slash, 1usize))
        }
    } else if c == '%' {
        Some((TokenType::Percent, 1usize))
    } else if c == '^' {
        Some((TokenType::Power, 1usize))
    } else if c == '(' {
        Some((TokenType::LeftParen, 1usize))
    } else if c == ')' {
        Some((TokenType::RightParen, 1usize))
    } else if c == '[' {
        Some((TokenType::LeftBracket, 1usize))
    } else if c == ']' {
        Some((TokenType::RightBracket, 1usize))
    } else if c == '{' {
        Some((TokenType::LeftBrace, 1usize))
    } else if c == '}' {
        Some((TokenType::RightBrace, 1usize))
    } else if c == ',' {
        Some((TokenType::Comma, 1usize))
    } else if c == '.' {
        Some((TokenType::Dot, 1usize))
    } else if c == ';' {
        Some((TokenType::Semicolon, 1usize))
    } else if c == ':' {
        if next_is(src, pos, '=') {
            Some((TokenType::Assign, 2usize))
        } else {
            Some((TokenType::Colon, 1usize))
        }
    } else if c == '=' {
        if next_is(src, pos, '=') {
            Some((TokenType::Equal, 2usize))
        } else {
            Some((TokenType::Assign, 1usize))
        }
    } else if c == '!' {
        if next_is(src, pos, '=') {
            Some((TokenType::NotEqual, 2usize))
        } else {
            None
        }
    } else if c == '<' {
        if next_is(src, pos, '=') {
            Some((TokenType::LessEqual, 2usize))
        } else if next_is(src, pos, '>') {
            Some((TokenType::NotEqual, 2usize))
        } else {
            Some((TokenType::Less, 1usize))
        }
    } else if c == '>' {
        if next_is(src, pos, '=') {
            Some((TokenType::GreaterEqual, 2usize))
        } else {
            Some((TokenType::Greater, 1usize))
        }
    } else if c == '?' {
        Some((TokenType::QuestionMark, 1usize))
    } else if c == '\n' {
        Some((TokenType::Newline, 1usize))
    } else {
        None
    }
}

/// The message for a character that starts no token.
pub open spec fn unexpected_character(c: char) -> Seq<char> {
    "Unexpected character '"@ + seq![c] + "'"@
}

/// What scanning one token gives: the token and the offset after it, or the
/// message of the error.
pub enum Scan {
    Token { token: TokenView, next: int },
    Failure { message: Seq<char> },
}

/// The offset after the number that starts at `pos`: a run of digits, then, if a
/// dot and a digit follow, the dot and a second run of digits.
pub open spec fn number_end(src: Seq<char>, pos: int) -> int {
    let whole = run_end(src, pos + 1, CharClass::Digit);
    if whole < src.len() && src[whole] == '.' && whole + 1 < src.len() && is_digit(src[whole + 1]) {
        run_end(src, whole + 1, CharClass::Digit)
    } else {
        whole
    }
}

/// The token that starts at offset `pos` of `src`, where `pos` is inside `src`.
pub open spec fn token_at(src: Seq<char>, pos: int) -> Scan {
    let c = src[pos];
    let line = position_at(src, pos).0;
    let column = position_at(src, pos).1;
    if c == '"' || c == '\'' {
        let end = run_end(src, pos + 1, CharClass::Until(c));
        if end >= src.len() {
            Scan::Failure { message: located("Unterminated string"@, line, column) }
        } else {
            Scan::Token {
                token: TokenView {
                    token_type: TokenType::String,
                    lexeme: src.subrange(pos + 1, end),
                    line: line as usize,
                    column: column as usize,
                },
                next: end + 1,
            }
        }
    } else if operator_at(src, pos) is Some {
        let found = operator_at(src, pos)->0;
        Scan::Token {
            token: TokenView {
                token_type: found.0,
                lexeme: seq![c],
                line: position_at(src, pos + found.1).0 as usize,
                column: column as usize,
            },
            next: pos + found.1,
        }
    } else if is_digit(c) {
        let end = number_end(src, pos);
        Scan::Token {
            token: TokenView {
                token_type: TokenType::Number,
                lexeme: src.subrange(pos, end),
                line: line as usize,
                column: column as usize,
            },
            next: end,
        }
    } else if alphabetic(c) || c == '_' {
        let end = run_end(src, pos + 1, CharClass::Word);
        let word = src.subrange(pos, end);
        Scan::Token {
            token: TokenView {
                token_type: match keyword_of(uppercase_of(word)) {
                    Some(k) => k,
                    None => TokenType::Identifier,
                },
                lexeme: word,
                line: line as usize,
                column: column as usize,
            },
            next: end,
        }
    } else {
        Scan::Failure { message: located(unexpected_character(c), line, column) }
    }
}

/// The end-of-input token at the given place.
pub open spec fn eof_token(line: int, column: int) -> TokenView {
    TokenView {
        token_type: TokenType::Eof,
        lexeme: Seq::empty(),
        line: line as usize,
        column: column as usize,
    }
}

/// `first`, then the tokens of `rest`; line breaks are left out, and an error in
/// `rest` stays an error.
pub open spec fn with_token(first: TokenView, rest: Result<Seq<TokenView>, Seq<char>>) -> Result<
    Seq<TokenView>,
    Seq<char>,
> {
    match rest {
        Err(e) => Err(e),
        Ok(tokens) => if first.token_type == TokenType::Newline {
            Ok(tokens)
        } else {
            Ok(seq![first] + tokens)
        },
    }
}

/// The tokens of `src` from offset `pos` on, ending with the end-of-input token,
/// or the message of the first error.
pub open spec fn tokens_from(src: Seq<char>, pos: int) -> Result<Seq<TokenView>, Seq<char>>
    decreases src.len() - pos,
{
    if pos < 0 {
        Err(Seq::empty())
    } else {
        let start = skip_blank(src, pos);
        if start >= src.len() {
            Ok(seq![eof_token(position_at(src, start).0, position_at(src, start).1)])
        } else {
            proof {
                lemma_skip_blank_bounds(src, pos);
                lemma_token_at_advances(src, start);
            }
            match token_at(src, start) {
                Scan::Failure { message } => Err(message),
                Scan::Token { token, next } => with_token(token, tokens_from(src, next)),
            }
        }
    }
}

/// A run ends between its start and the end of the text.
pub proof fn lemma_run_end_bounds(src: Seq<char>, start: int, class: CharClass)
    requires
        0 <= start <= src.len(),
    ensures
        start <= run_end(src, start, class) <= src.len(),
    decreases src.len() - start,
{
    if start < src.len() && class.holds(src[start]) {
        lemma_run_end_bounds(src, start + 1, class);
    }
}

/// A comment ends between its start and the end of the text.
pub proof fn lemma_comment_end_bounds(src: Seq<char>, pos: int)
    requires
        0 <= pos <= src.len(),
    ensures
        pos <= comment_end(src, pos) <= src.len(),
    decreases src.len() - pos,
{
    if pos < src.len() && !(src[pos] == '*' && next_is(src, pos, '/')) {
        lemma_comment_end_bounds(src, pos + 1);
    }
}

/// Skipping blanks and comments moves forward and stays inside the text.
pub proof fn lemma_skip_blank_bounds(src: Seq<char>, pos: int)
    requires
        0 <= pos,
    ensures
        pos <= skip_blank(src, pos),
        pos <= src.len() ==> skip_blank(src, pos) <= src.len(),
    decreases src.len() - pos,
{
    if pos < src.len() {
        if src[pos] == ' ' || src[pos] == '\r' || src[pos] == '\t' {
            lemma_skip_blank_bounds(src, pos + 1);
        } else if src[pos] == '/' && next_is(src, pos, '/') {
            lemma_run_end_bounds(src, pos + 2, CharClass::Until('\n'));
            lemma_skip_blank_bounds(src, run_end(src, pos + 2, CharClass::Until('\n')));
        } else if src[pos] == '/' && next_is(src, pos, '*') {
            lemma_comment_end_bounds(src, pos + 2);
            lemma_skip_blank_bounds(src, comment_end(src, pos + 2));
        }
    }
}

/// A token takes up at least one character and ends inside the text.
pub proof fn lemma_token_at_advances(src: Seq<char>, pos: int)
    requires
        0 <= pos < src.len(),
    ensures
        token_at(src, pos) matches Scan::Token { next, .. } ==> pos < next <= src.len(),
{
    let c = src[pos];
    lemma_run_end_bounds(src, pos + 1, CharClass::Until(c));
    lemma_run_end_bounds(src, pos + 1, CharClass::Digit);
    lemma_run_end_bounds(src, pos + 1, CharClass::Word);
    let whole = run_end(src, pos + 1, CharClass::Digit);
    if whole + 1 <= src.len() {
        lemma_run_end_bounds(src, whole + 1, CharClass::Digit);
    }
}

/// Line and column of an offset are at least 1 and at most the offset plus 1.
pub proof fn lemma_position_bounds(src: Seq<char>, n: int)
    requires
        0 <= n,
    ensures
        1 <= position_at(src, n).0 <= n + 1,
        1 <= position_at(src, n).1 <= n + 1,
    decreases n,
{
    if n > 0 {
        lemma_position_bounds(src, n - 1);
    }
}

/// The end of the run of `class` that starts at `start`.
fn scan_run(src: &Vec<char>, start: usize, class: &CharClass) -> (end: usize)
    requires
        start <= src.len(),
    ensures
        end == run_end(src@, start as int, *class),
        start <= end <= src.len(),
{
    let mut i: usize = start;
    while i < src.len() && class.contains(src[i])
        invariant
            start <= i <= src.len(),
            run_end(src@, start as int, *class) == run_end(src@, i as int, *class),
        decreases src.len() - i,
    {
        i = i + 1;
    }
    i
}

/// Whether the character after offset `pos` is `c`.
fn followed_by(src: &Vec<char>, pos: usize, c: char) -> (r: bool)
    requires
        pos < src.len(),
    ensures
        r == next_is(src@, pos as int, c),
{
    pos + 1 < src.len() && src[pos + 1] == c
}

/// The offset after the first `*/` at or after `pos`.
fn scan_comment(src: &Vec<char>, pos: usize) -> (end: usize)
    requires
        pos <= src.len(),
    ensures
        end == comment_end(src@, pos as int),
        pos <= end <= src.len(),
{
    let mut i: usize = pos;
    while i < src.len()
        invariant
            pos <= i <= src.len(),
            comment_end(src@, pos as int) == comment_end(src@, i as int),
        decreases src.len() - i,
    {
        if src[i] == '*' && followed_by(src, i, '/') {
            return i + 2;
        }
        i = i + 1;
    }
    i
}

/// The first offset at or after `pos` that is neither blank nor in a comment.
fn scan_blank(src: &Vec<char>, pos: usize) -> (end: usize)
    requires
        pos <= src.len(),
    ensures
        end == skip_blank(src@, pos as int),
        pos <= end <= src.len(),
{
    let mut i: usize = pos;
    while i < src.len()
        invariant
            pos <= i <= src.len(),
            skip_blank(src@, pos as int) == skip_blank(src@, i as int),
        decreases src.len() - i,
    {
        let c = src[i];
        if c == ' ' || c == '\r' || c == '\t' {
            i = i + 1;
        } else if c == '/' && followed_by(src, i, '/') {
            i = scan_run(src, i + 2, &CharClass::Until('\n'));
        } else if c == '/' && followed_by(src, i, '*') {
            i = scan_comment(src, i + 2);
        } else {
            return i;
        }
    }
    i
}

/// The operator or delimiter that starts at offset `pos`.
fn scan_operator(src: &Vec<char>, pos: usize) -> (r: Option<(TokenType, usize)>)
    requires
        pos < src.len(),
    ensures
        r == operator_at(src@, pos as int),
        r matches Some(found) ==> 1 <= found.1 <= 2 && pos + found.1 <= src.len(),
{
    let c = src[pos];
    if c == '+' {
        if followed_by(src, pos, '+') {
            Some((TokenType::Increment, 2usize))
        } else if followed_by(src, pos, '=') {
            Some((TokenType::PlusAssign, 2usize))
        } else {
            Some((TokenType::Plus, 1usize))
        }
    } else if c == '-' {
        if followed_by(src, pos, '-') {
            Some((TokenType::Decrement, 2usize))
        } else if followed_by(src, pos, '=') {
            Some((TokenType::MinusAssign, 2usize))
        } else if followed_by(src, pos, '>') {
            Some((TokenType::Arrow, 2usize))
        } else {
            Some((TokenType::Minus, 1usize))
        }
    } else if c == '*' {
        if followed_by(src, pos, '=') {
            Some((TokenType::MultiplyAssign, 2usize))
        } else {
            Some((TokenType::Star, 1usize))
        }
    } else if c == '/' {
        if followed_by(src, pos, '=') {
            Some((TokenType::DivideAssign, 2usize))
        } else {
            Some((TokenType::Slash, 1usize))
        }
    } else if c == '%' {
        Some((TokenType::Percent, 1usize))
    } else if c == '^' {
        Some((TokenType::Power, 1usize))
    } else if c == '(' {
        Some((TokenType::LeftParen, 1usize))
    } else if c == ')' {
        Some((TokenType::RightParen, 1usize))
    } else if c == '[' {
        Some((TokenType::LeftBracket, 1usize))
    } else if c == ']' {
        Some((TokenType::RightBracket, 1usize))
    } else if c == '{' {
        Some((TokenType::LeftBrace, 1usize))
    } else if c == '}' {
        Some((TokenType::RightBrace, 1usize))
    } else if c == ',' {
        Some((TokenType::Comma, 1usize))
    } else if c == '.' {
        Some((TokenType::Dot, 1usize))
    } else if c == ';' {
        Some((TokenType::Semicolon, 1usize))
    } else if c == ':' {
        if followed_by(src, pos, '=') {
            Some((TokenType::Assign, 2usize))
        } else {
            Some((TokenType::Colon, 1usize))
        }
    } else if c == '=' {
        if followed_by(src, pos, '=') {
            Some((TokenType::Equal, 2usize))
        } else {
            Some((TokenType::Assign, 1usize))
        }
    } else if c == '!' {
        if followed_by(src, pos, '=') {
            Some((TokenType::NotEqual, 2usize))
        } else {
            None
        }
    } else if c == '<' {
        if followed_by(src, pos, '=') {
            Some((TokenType::LessEqual, 2usize))
        } else if followed_by(src, pos, '>') {
            Some((TokenType::NotEqual, 2usize))
        } else {
            Some((TokenType::Less, 1usize))
        }
    } else if c == '>' {
        if followed_by(src, pos, '=') {
            Some((TokenType::GreaterEqual, 2usize))
        } else {
            Some((TokenType::Greater, 1usize))
        }
    } else if c == '?' {
        Some((TokenType::QuestionMark, 1usize))
    } else if c == '\n' {
        Some((TokenType::Newline, 1usize))
    } else {
        None
    }
}

/// The message for a character that starts no token.
fn unexpected_character_message(c: char, line: usize, column: usize) -> (r: String)
    ensures
        r@ == located(unexpected_character(c), line as int, column as int),
{
    let mut head = "Unexpected character '".to_owned();
    crate::text::push_char(&mut head, c);
    head.append("'");
    assert(head@ == unexpected_character(c));
    located_message(head.as_str(), line, column)
}

/// A lexer over one source text.
pub struct Lexer {
    source: Vec<char>,
    current: usize,
    line: usize,
    column: usize,
}

impl Lexer {
    /// The source text.
    pub closed spec fn text(&self) -> Seq<char> {
        self.source@
    }

    /// The offset of the next character to scan.
    pub closed spec fn offset(&self) -> int {
        self.current as int
    }

    /// The line of the next character to scan, counted from 1.
    pub closed spec fn line(&self) -> int {
        self.line as int
    }

    /// The column of the next character to scan, counted from 1.
    pub closed spec fn column(&self) -> int {
        self.column as int
    }

    /// A well-formed lexer stands inside its text, and its line and column are
    /// those of its offset.
    pub proof fn lemma_place(&self)
        requires
            self.well_formed(),
        ensures
            0 <= self.offset() <= self.text().len() < usize::MAX,
            position_at(self.text(), self.offset()) == (self.line(), self.column()),
    {
    }

    /// The offset lies inside the text, and line and column are those of the
    /// offset.
    pub closed spec fn well_formed(&self) -> bool {
        &&& self.current <= self.source.len()
        &&& self.source.len() < usize::MAX
        &&& position_at(self.source@, self.current as int) == (
            self.line as int,
            self.column as int,
        )
    }

    /// A lexer at the start of `source`.
    pub fn new(source: String) -> (r: Lexer)
        requires
            source@.len() < usize::MAX,
        ensures
            r.well_formed(),
            r.text() == source@,
            r.offset() == 0,
            r.line() == 1,
            r.column() == 1,
    {
        Lexer { source: chars_of(source.as_str()), current: 0, line: 1, column: 1 }
    }

    /// Scans the rest of the source: all tokens up to the end, then the
    /// end-of-input token; or the message of the first error.
    pub fn scan_tokens(&mut self) -> (r: Result<Vec<Token>, String>)
        requires
            old(self).well_formed(),
        ensures
            final(self).well_formed(),
            final(self).text() == old(self).text(),
            match r {
                Ok(tokens) => tokens_from(old(self).text(), old(self).offset()) == Ok::<
                    Seq<TokenView>,
                    Seq<char>,
                >(token_views(tokens@)) && final(self).offset() == old(self).text().len(),
                Err(e) => tokens_from(old(self).text(), old(self).offset()) == Err::<
                    Seq<TokenView>,
                    Seq<char>,
                >(e@),
            },
    {
        let mut tokens: Vec<Token> = Vec::new();
        let ghost src = self.source@;
        let ghost begin = self.current as int;
        assert(token_views(tokens@) =~= Seq::<TokenView>::empty());
        assert(with_tokens(Seq::<TokenView>::empty(), tokens_from(src, begin)) == tokens_from(
            src,
            begin,
        )) by {
            lemma_with_no_tokens(tokens_from(src, begin));
        }
        while !self.is_at_end()
            invariant
                self.well_formed(),
                self.source@ == src,
                src == old(self).text(),
                begin == old(self).offset(),
                0 <= begin,
                tokens_from(src, begin) == with_tokens(
                    token_views(tokens@),
                    tokens_from(src, self.current as int),
                ),
            ensures
                self.current >= self.source.len(),
            decreases self.source.len() - self.current,
        {
            let ghost at = self.current as int;
            self.skip_whitespace_and_comments();
            let ghost start = self.current as int;
            proof {
                lemma_skip_blank_bounds(src, at);
                assert(skip_blank(src, start) == start || start < src.len());
            }
            if self.is_at_end() {
                proof {
                    assert(skip_blank(src, start) == start);
                    assert(tokens_from(src, at) == tokens_from(src, start));
                }
                break;
            }
            proof {
                lemma_token_at_advances(src, start);
            }
            let ghost before = token_views(tokens@);
            match self.scan_token() {
                Err(e) => {
                    proof {
                        assert(tokens_from(src, at) == Err::<Seq<TokenView>, Seq<char>>(e@));
                    }
                    return Err(e);
                },
                Ok(token) => {
                    let ghost rest = tokens_from(src, self.current as int);
                    proof {
                        assert(tokens_from(src, at) == with_token(token@, rest));
                    }
                    if token.token_type != TokenType::Newline {
                        tokens.push(token);
                        proof {
                            assert(token_views(tokens@) =~= before + seq![token@]);
                            lemma_with_tokens_step(before, token@, rest);
                        }
                    } else {
                        proof {
                            assert(with_token(token@, rest) == rest);
                        }
                    }
                },
            }
        }
        proof {
            lemma_position_bounds(src, self.current as int);
        }
        let last = Token::new(TokenType::Eof, String::new(), self.line, self.column);
        let ghost before = token_views(tokens@);
        tokens.push(last);
        proof {
            assert(skip_blank(src, src.len() as int) == src.len());
            assert(token_views(tokens@) =~= before + seq![last@]);
            assert(last@ == eof_token(self.line as int, self.column as int));
        }
        Ok(tokens)
    }

    /// Scans the token that starts at the current offset.
    fn scan_token(&mut self) -> (r: Result<Token, String>)
        requires
            old(self).well_formed(),
            old(self).offset() < old(self).text().len(),
        ensures
            final(self).well_formed(),
            final(self).text() == old(self).text(),
            match (r, token_at(old(self).text(), old(self).offset())) {
                (Ok(token), Scan::Token { token: expected, next }) => token@ == expected
                    && final(self).offset() == next,
                (Err(e), Scan::Failure { message }) => e@ == message,
                _ => false,
            },
    {
        let start = self.current;
        let line = self.line;
        let column = self.column;
        let c = self.source[start];
        proof {
            lemma_position_bounds(self.source@, start as int);
            lemma_token_at_advances(self.source@, start as int);
        }
        if c == '"' || c == '\'' {
            return self.scan_string(c);
        }
        match scan_operator(&self.source, start) {
            Some(found) => {
                self.move_to(start + found.1);
                proof {
                    lemma_position_bounds(self.source@, self.current as int);
                }
                return Ok(Token::new(found.0, char_text(c), self.line, column));
            },
            None => {},
        }
        if is_ascii_digit(c) {
            self.scan_number(c)
        } else if is_alphabetic(c) || c == '_' {
            self.scan_identifier(c)
        } else {
            Err(unexpected_character_message(c, line, column))
        }
    }

    /// Scans a string that opens with `quote` at the current offset.
    fn scan_string(&mut self, quote: char) -> (r: Result<Token, String>)
        requires
            old(self).well_formed(),
            old(self).offset() < old(self).text().len(),
            old(self).text()[old(self).offset()] == quote,
            quote == '"' || quote == '\'',
        ensures
            final(self).well_formed(),
            final(self).text() == old(self).text(),
            match (r, token_at(old(self).text(), old(self).offset())) {
                (Ok(token), Scan::Token { token: expected, next }) => token@ == expected
                    && final(self).offset() == next,
                (Err(e), Scan::Failure { message }) => e@ == message,
                _ => false,
            },
    {
        let start = self.current;
        let start_line = self.line;
        let start_column = self.column;
        proof {
            lemma_position_bounds(self.source@, start as int);
        }
        let end = scan_run(&self.source, start + 1, &CharClass::Until(quote));
        if end >= self.source.len() {
            return Err(located_message("Unterminated string", start_line, start_column));
        }
        let value = slice_text(&self.source, start + 1, end);
        self.move_to(end + 1);
        Ok(Token::new(TokenType::String, value, start_line, start_column))
    }

    /// Scans a number whose first digit `first` stands at the current offset.
    fn scan_number(&mut self, first: char) -> (r: Result<Token, String>)
        requires
            old(self).well_formed(),
            old(self).offset() < old(self).text().len(),
            old(self).text()[old(self).offset()] == first,
            is_digit(first),
            operator_at(old(self).text(), old(self).offset()) is None,
        ensures
            final(self).well_formed(),
            final(self).text() == old(self).text(),
            match (r, token_at(old(self).text(), old(self).offset())) {
                (Ok(token), Scan::Token { token: expected, next }) => token@ == expected
                    && final(self).offset() == next,
                (Err(e), Scan::Failure { message }) => e@ == message,
                _ => false,
            },
    {
        let start = self.current;
        let line = self.line;
        let column = self.column;
        proof {
            lemma_position_bounds(self.source@, start as int);
        }
        let mut end = scan_run(&self.source, start + 1, &CharClass::Digit);
        if end < self.source.len() && self.source[end] == '.' && end + 1 < self.source.len()
            && is_ascii_digit(self.source[end + 1]) {
            end = scan_run(&self.source, end + 1, &CharClass::Digit);
        }
        let value = slice_text(&self.source, start, end);
        self.move_to(end);
        Ok(Token::new(TokenType::Number, value, line, column))
    }

    /// Scans an identifier or keyword whose first character `first` stands at the
    /// current offset.
    fn scan_identifier(&mut self, first: char) -> (r: Result<Token, String>)
        requires
            old(self).well_formed(),
            old(self).offset() < old(self).text().len(),
            old(self).text()[old(self).offset()] == first,
            alphabetic(first) || first == '_',
            !is_digit(first),
            first != '"' && first != '\'',
            operator_at(old(self).text(), old(self).offset()) is None,
        ensures
            final(self).well_formed(),
            final(self).text() == old(self).text(),
            match (r, token_at(old(self).text(), old(self).offset())) {
                (Ok(token), Scan::Token { token: expected, next }) => token@ == expected
                    && final(self).offset() == next,
                (Err(e), Scan::Failure { message }) => e@ == message,
                _ => false,
            },
    {
        let start = self.current;
        let line = self.line;
        let column = self.column;
        proof {
            lemma_position_bounds(self.source@, start as int);
        }
        let end = scan_run(&self.source, start + 1, &CharClass::Word);
        let value = slice_text(&self.source, start, end);
        let upper = chars_of(to_uppercase(value.as_str()).as_str());
        let token_type = match keyword(&upper) {
            Some(k) => k,
            None => TokenType::Identifier,
        };
        self.move_to(end);
        Ok(Token::new(token_type, value, line, column))
    }

    /// Moves past blanks and comments.
    fn skip_whitespace_and_comments(&mut self)
        requires
            old(self).well_formed(),
        ensures
            final(self).well_formed(),
            final(self).text() == old(self).text(),
            final(self).offset() == skip_blank(old(self).text(), old(self).offset()),
    {
        let end = scan_blank(&self.source, self.current);
        self.move_to(end);
    }

    /// Moves forward to offset `target`, keeping line and column in step.
    fn move_to(&mut self, target: usize)
        requires
            old(self).well_formed(),
            old(self).offset() <= target <= old(self).text().len(),
        ensures
            final(self).well_formed(),
            final(self).text() == old(self).text(),
            final(self).offset() == target,
    {
        while self.current < target
            invariant
                self.well_formed(),
                self.source@ == old(self).source@,
                self.current <= target <= self.source.len(),
            decreases target - self.current,
        {
            self.advance();
        }
    }

    /// Takes the character at the current offset.
    fn advance(&mut self) -> (c: char)
        requires
            old(self).well_formed(),
            old(self).offset() < old(self).text().len(),
        ensures
            final(self).well_formed(),
            final(self).text() == old(self).text(),
            final(self).offset() == old(self).offset() + 1,
            c == old(self).text()[old(self).offset()],
    {
        let c = self.source[self.current];
        proof {
            lemma_position_bounds(self.source@, self.current as int);
        }
        self.current = self.current + 1;
        if c == '\n' {
            self.line = self.line + 1;
            self.column = 1;
        } else {
            self.column = self.column + 1;
        }
        c
    }

    /// Whether the whole source has been scanned.
    fn is_at_end(&self) -> (r: bool)
        ensures
            r == (self.offset() >= self.text().len()),
    {
        self.current >= self.source.len()
    }
}

/// `prefix`, then the tokens of `rest`; an error in `rest` stays an error.
pub open spec fn with_tokens(
    prefix: Seq<TokenView>,
    rest: Result<Seq<TokenView>, Seq<char>>,
) -> Result<Seq<TokenView>, Seq<char>> {
    match rest {
        Err(e) => Err(e),
        Ok(tokens) => Ok(prefix + tokens),
    }
}

proof fn lemma_with_no_tokens(rest: Result<Seq<TokenView>, Seq<char>>)
    ensures
        with_tokens(Seq::empty(), rest) == rest,
{
    match rest {
        Err(e) => {},
        Ok(tokens) => {
            assert(Seq::<TokenView>::empty() + tokens =~= tokens);
        },
    }
}

proof fn lemma_with_tokens_step(
    prefix: Seq<TokenView>,
    token: TokenView,
    rest: Result<Seq<TokenView>, Seq<char>>,
)
    requires
        token.token_type != TokenType::Newline,
    ensures
        with_tokens(prefix, with_token(token, rest)) == with_tokens(prefix + seq![token], rest),
{
    match rest {
        Err(e) => {},
        Ok(tokens) => {
            assert(prefix + (seq![token] + tokens) =~= (prefix + seq![token]) + tokens);
        },
    }
}

} // verus!

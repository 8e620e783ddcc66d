//! The parser: tokens to the abstract syntax tree, by recursive descent.
//!
//! The token list ends with the end-of-input token; the parser never moves past
//! it. An error is a message, most often followed by ` at line L, column C`.
//! A block that is still open at the end of the input is reported at the
//! keyword that opened it. What the parser makes of the tokens is defined by
//! the grammar in `grammar`.

use crate::ast::{
    exprs_model, optional_expr_model, stmts_model, BinaryOp, Expr, ExprView, Program, Stmt, StmtView,
};
use crate::diagnostics::{at_least_one, Diagnostic, DiagnosticView, Severity, Span};
use crate::lexer::{run_end, CharClass};
use crate::number::{bounded_value, digits_to_integer, literal_value};
use crate::text::{chars_of, located, located_message, same_text, to_uppercase};
use crate::token::{token_views, Token, TokenType, TokenView};
use self::grammar::{
    at_least_one_token, augmented_operator, block, declaration, ended, error_at, expected,
    expression, holds, identifier, inside, joined, kind_at, newlines, number_at, operator_on,
    program, reads, statement, step_over, stops, tighter, Input, Parsed, Precedence, Stop,
};
use vstd::prelude::*;

pub mod expressions;
pub mod grammar;
pub mod loops;
pub mod recovery;
pub mod routines;
pub mod statements;

verus! {

/// The text that `Debug` formatting gives for a token.
pub uninterp spec fn debug_text(token: TokenView) -> Seq<char>;

/// Trusted: the `Debug` form of a token, made by the derived `Debug` impl, depends
/// on the token's kind, text and position alone; it is named `debug_text`.
#[verifier::external_body]
fn token_debug(token: &Token) -> (r: String)
    ensures
        r@ == debug_text(token@),
{
    format!("{:?}", token)
}

/// Where a skip to the next statement stops, from `pos`: after a semicolon or a
/// block terminator, or at a keyword that starts a statement or a branch, or at
/// the end-of-input token. `pos` is below the length of `tokens`.
pub open spec fn sync_point(tokens: Seq<TokenView>, pos: int) -> int
    decreases tokens.len() - pos,
{
    if pos < 0 || pos >= tokens.len() || tokens[pos].token_type == TokenType::Eof {
        pos
    } else if stops_after(tokens[pos].token_type) {
        pos + 1
    } else if stops_at(tokens[pos].token_type) {
        pos
    } else {
        sync_point(tokens, pos + 1)
    }
}

/// Token kinds that end a statement or a block: a skip stops after them.
pub open spec fn stops_after(token_type: TokenType) -> bool {
    token_type == TokenType::Semicolon || token_type == TokenType::EndIf || token_type
        == TokenType::EndDo || token_type == TokenType::Next || token_type == TokenType::Loop
        || token_type == TokenType::EndCase
}

/// Token kinds that start a statement or a branch: a skip stops at them.
pub open spec fn stops_at(token_type: TokenType) -> bool {
    token_type == TokenType::Otherwise || token_type == TokenType::Case || token_type
        == TokenType::Else || token_type == TokenType::ElseIf || token_type
        == TokenType::Function || token_type == TokenType::Procedure || token_type
        == TokenType::If || token_type == TokenType::Do || token_type == TokenType::While
        || token_type == TokenType::For || token_type == TokenType::Return || token_type
        == TokenType::Local || token_type == TokenType::Static || token_type
        == TokenType::Private || token_type == TokenType::Public || token_type == TokenType::Use
        || token_type == TokenType::Select
}

fn is_stop_after(token_type: TokenType) -> (r: bool)
    ensures
        r == stops_after(token_type),
{
    token_type == TokenType::Semicolon || token_type == TokenType::EndIf || token_type
        == TokenType::EndDo || token_type == TokenType::Next || token_type == TokenType::Loop
        || token_type == TokenType::EndCase
}

fn is_stop_at(token_type: TokenType) -> (r: bool)
    ensures
        r == stops_at(token_type),
{
    token_type == TokenType::Otherwise || token_type == TokenType::Case || token_type
        == TokenType::Else || token_type == TokenType::ElseIf || token_type
        == TokenType::Function || token_type == TokenType::Procedure || token_type
        == TokenType::If || token_type == TokenType::Do || token_type == TokenType::While
        || token_type == TokenType::For || token_type == TokenType::Return || token_type
        == TokenType::Local || token_type == TokenType::Static || token_type
        == TokenType::Private || token_type == TokenType::Public || token_type == TokenType::Use
        || token_type == TokenType::Select
}

/// A skip to the next statement does not move back.
pub proof fn lemma_sync_point_bounds(tokens: Seq<TokenView>, pos: int)
    requires
        0 <= pos,
    ensures
        pos <= sync_point(tokens, pos),
    decreases tokens.len() - pos,
{
    if pos < tokens.len() && tokens[pos].token_type != TokenType::Eof && !stops_after(
        tokens[pos].token_type,
    ) && !stops_at(tokens[pos].token_type) {
        lemma_sync_point_bounds(tokens, pos + 1);
    }
}

/// What parsing with recovery makes of the tokens from `pos` on.
pub struct Recovery {
    /// The statements that parsed.
    pub statements: Seq<StmtView>,
    /// One diagnostic for each error.
    pub diagnostics: Seq<DiagnosticView>,
}

/// Where parsing resumes after an error at `at` in a declaration that started
/// at `pos`: at the next statement, and at least one token after `pos`.
pub open spec fn resumption(inp: Input, pos: int, at: int) -> int {
    let synced = sync_point(inp.tokens, at);
    if synced == pos && !ended(inp, synced) {
        synced + 1
    } else {
        synced
    }
}

/// The statements and diagnostics of the tokens from `pos` on: every
/// declaration that parses gives a statement; every error gives a diagnostic of
/// severity `Error` with the message and the span of the error, and parsing
/// resumes at the next statement.
pub open spec fn recovered(inp: Input, pos: int) -> Recovery
    decreases grammar::left(inp, pos),
{
    if !inside(inp, pos) || ended(inp, pos) {
        Recovery { statements: Seq::empty(), diagnostics: Seq::empty() }
    } else {
        let first = declaration(inp, pos);
        match first.result {
            Ok(tree) => {
                let rest = recovered(inp, pos + at_least_one_token(first.used));
                Recovery {
                    statements: seq![tree] + rest.statements,
                    diagnostics: rest.diagnostics,
                }
            },
            Err(message) => {
                proof {
                    lemma_sync_point_bounds(inp.tokens, pos + first.used);
                }
                let rest = recovered(inp, resumption(inp, pos, pos + first.used));
                Recovery {
                    statements: rest.statements,
                    diagnostics: seq![
                        DiagnosticView {
                            severity: Severity::Error,
                            message,
                            span: span_of(message, inp.tokens[pos + first.used]),
                        },
                    ] + rest.diagnostics,
                }
            },
        }
    }
}

/// What parsing with recovery gives: the statements that parsed, and one
/// diagnostic for each error.
pub struct ParseResult {
    pub program: Program,
    pub diagnostics: Vec<Diagnostic>,
}

/// A recursive-descent parser over tokens.
pub struct Parser {
    tokens: Vec<Token>,
    current: usize,
    numbers: Vec<u64>,
}

/// The parser `after` is well formed, reads what `before` read, and stands where
/// `before` stood or further on.
pub open spec fn follows(before: Parser, after: Parser) -> bool {
    &&& after.well_formed()
    &&& after.input() == before.input()
    &&& after.position() >= before.position()
    &&& after.remaining() == before.remaining() - (after.position() - before.position())
    &&& inside(after.input(), after.position())
}

/// The parser `after` follows `before` and stands `used` tokens further on.
pub open spec fn moved(before: Parser, after: Parser, used: nat) -> bool {
    follows(before, after) && after.position() == before.position() + used
}

/// What parsing an expression owes: the tree or the error of the grammar, and
/// the tokens taken.
pub open spec fn gives_expr(
    before: Parser,
    after: Parser,
    r: Result<Expr, String>,
    expected: Parsed<ExprView>,
) -> bool {
    moved(before, after, expected.used) && match r {
        Ok(tree) => expected.result == Ok::<ExprView, Seq<char>>(tree@),
        Err(e) => expected.result == Err::<ExprView, Seq<char>>(e@),
    }
}

/// What parsing an optional expression owes.
pub open spec fn gives_optional(
    before: Parser,
    after: Parser,
    r: Result<Option<Expr>, String>,
    expected: Parsed<Option<ExprView>>,
) -> bool {
    moved(before, after, expected.used) && match r {
        Ok(tree) => expected.result == Ok::<Option<ExprView>, Seq<char>>(
            optional_expr_model(&tree),
        ),
        Err(e) => expected.result == Err::<Option<ExprView>, Seq<char>>(e@),
    }
}

/// What parsing a list of expressions owes.
pub open spec fn gives_exprs(
    before: Parser,
    after: Parser,
    r: Result<Vec<Expr>, String>,
    expected: Parsed<Seq<ExprView>>,
) -> bool {
    moved(before, after, expected.used) && match r {
        Ok(trees) => expected.result == Ok::<Seq<ExprView>, Seq<char>>(exprs_model(&trees)),
        Err(e) => expected.result == Err::<Seq<ExprView>, Seq<char>>(e@),
    }
}

/// What parsing a statement owes.
pub open spec fn gives_stmt(
    before: Parser,
    after: Parser,
    r: Result<Stmt, String>,
    expected: Parsed<StmtView>,
) -> bool {
    moved(before, after, expected.used) && match r {
        Ok(tree) => expected.result == Ok::<StmtView, Seq<char>>(tree@),
        Err(e) => expected.result == Err::<StmtView, Seq<char>>(e@),
    }
}

/// What parsing a list of statements owes.
pub open spec fn gives_stmts(
    before: Parser,
    after: Parser,
    r: Result<Vec<Stmt>, String>,
    expected: Parsed<Seq<StmtView>>,
) -> bool {
    moved(before, after, expected.used) && match r {
        Ok(trees) => expected.result == Ok::<Seq<StmtView>, Seq<char>>(stmts_model(&trees)),
        Err(e) => expected.result == Err::<Seq<StmtView>, Seq<char>>(e@),
    }
}

/// The models of a list of expressions grown by one.
pub(crate) proof fn lemma_exprs_push(before: &Vec<Expr>, after: &Vec<Expr>, item: Expr)
    requires
        after@ == before@.push(item),
    ensures
        exprs_model(after) == exprs_model(before) + seq![item@],
{
    assert(exprs_model(after) =~= exprs_model(before) + seq![item@]);
}

/// The models of a list of statements grown by one.
pub(crate) proof fn lemma_stmts_push(before: &Vec<Stmt>, after: &Vec<Stmt>, item: Stmt)
    requires
        after@ == before@.push(item),
    ensures
        stmts_model(after) == stmts_model(before) + seq![item@],
{
    assert(stmts_model(after) =~= stmts_model(before) + seq![item@]);
}

/// A list that goes on after a first part goes on after one more item.
pub(crate) proof fn lemma_joined_step<T>(prefix: Seq<T>, item: T, rest: Parsed<Seq<T>>, by: nat, more: nat)
    ensures
        joined(prefix, joined(seq![item], rest, more), by) == joined(
            prefix + seq![item],
            rest,
            by + more,
        ),
{
    match rest.result {
        Ok(items) => {
            assert(prefix + (seq![item] + items) =~= (prefix + seq![item]) + items);
        },
        Err(e) => {},
    }
}

/// The operator that a token kind is on the level `level`.
pub(crate) fn operator_for(level: Precedence, kind: TokenType) -> (r: Option<BinaryOp>)
    ensures
        r == operator_on(level, kind),
{
    match level {
        Precedence::Or => if kind == TokenType::Or {
            Some(BinaryOp::Or)
        } else {
            None
        },
        Precedence::And => if kind == TokenType::And {
            Some(BinaryOp::And)
        } else {
            None
        },
        Precedence::Equality => if kind == TokenType::Equal {
            Some(BinaryOp::Equal)
        } else if kind == TokenType::NotEqual {
            Some(BinaryOp::NotEqual)
        } else {
            None
        },
        Precedence::Comparison => if kind == TokenType::Greater {
            Some(BinaryOp::Greater)
        } else if kind == TokenType::GreaterEqual {
            Some(BinaryOp::GreaterEqual)
        } else if kind == TokenType::Less {
            Some(BinaryOp::Less)
        } else if kind == TokenType::LessEqual {
            Some(BinaryOp::LessEqual)
        } else {
            None
        },
        Precedence::Term => if kind == TokenType::Plus {
            Some(BinaryOp::Add)
        } else if kind == TokenType::Minus {
            Some(BinaryOp::Subtract)
        } else {
            None
        },
        Precedence::Factor => if kind == TokenType::Star {
            Some(BinaryOp::Multiply)
        } else if kind == TokenType::Slash {
            Some(BinaryOp::Divide)
        } else if kind == TokenType::Percent {
            Some(BinaryOp::Modulo)
        } else {
            None
        },
        Precedence::Power => if kind == TokenType::Power {
            Some(BinaryOp::Power)
        } else {
            None
        },
    }
}

/// The next tighter level.
pub(crate) fn tighter_level(level: Precedence) -> (r: Precedence)
    ensures
        r == tighter(level),
{
    match level {
        Precedence::Or => Precedence::And,
        Precedence::And => Precedence::Equality,
        Precedence::Equality => Precedence::Comparison,
        Precedence::Comparison => Precedence::Term,
        Precedence::Term => Precedence::Factor,
        _ => Precedence::Power,
    }
}

/// The operator of an assignment that computes.
pub(crate) fn augmented(kind: TokenType) -> (r: Option<BinaryOp>)
    ensures
        r == augmented_operator(kind),
{
    match kind {
        TokenType::PlusAssign => Some(BinaryOp::Add),
        TokenType::MinusAssign => Some(BinaryOp::Subtract),
        TokenType::MultiplyAssign => Some(BinaryOp::Multiply),
        TokenType::DivideAssign => Some(BinaryOp::Divide),
        _ => None,
    }
}

/// Whether a token kind ends a list of statements.
pub(crate) fn stops_here(stop: Stop, kind: TokenType) -> (r: bool)
    ensures
        r == stops(stop, kind),
{
    match stop {
        Stop::Never => false,
        Stop::Then => kind == TokenType::EndIf || kind == TokenType::Else || kind
            == TokenType::ElseIf,
        Stop::EndIf => kind == TokenType::EndIf,
        Stop::EndDo => kind == TokenType::EndDo,
        Stop::While => kind == TokenType::While,
        Stop::Next => kind == TokenType::Next,
        Stop::Label => kind == TokenType::Case || kind == TokenType::Otherwise || kind
            == TokenType::EndCase,
        Stop::EndCase => kind == TokenType::EndCase,
    }
}

impl Parser {
    /// What the parser reads.
    pub closed spec fn input(&self) -> Input {
        Input { tokens: token_views(self.tokens@), numbers: self.numbers@ }
    }

    /// The index of the next token.
    pub closed spec fn position(&self) -> int {
        self.current as int
    }

    /// The number of tokens from the next one on.
    pub closed spec fn remaining(&self) -> int {
        self.tokens.len() - self.current
    }

    /// The token list ends with the end-of-input token, and the next token is in
    /// the list.
    pub closed spec fn well_formed(&self) -> bool {
        &&& self.tokens.len() > 0
        &&& self.tokens@.last().token_type == TokenType::Eof
        &&& self.current < self.tokens.len()
    }

    /// The place of a well-formed parser is the index of a token.
    pub proof fn lemma_inside(&self)
        requires
            self.well_formed(),
        ensures
            inside(self.input(), self.position()),
            follows(*self, *self),
            self.remaining() == self.input().tokens.len() - self.position(),
            self.remaining() > 0,
    {
    }

    /// A parser at the start of `tokens`. It reads each number literal as
    /// `decimal_literal` does; a literal too long for that is a parse error.
    pub fn new(tokens: Vec<Token>) -> (r: Parser)
        ensures
            r.input() == (Input { tokens: token_views(tokens@), numbers: Seq::empty() }),
            r.position() == 0,
            r.well_formed() == (tokens.len() > 0 && tokens@.last().token_type
                == TokenType::Eof),
    {
        Parser { tokens, current: 0, numbers: Vec::new() }
    }

    /// A parser at the start of `tokens` that takes the value of the number
    /// literal at index `i` from `numbers[i]`, the bit pattern of its double.
    pub fn with_numbers(tokens: Vec<Token>, numbers: Vec<u64>) -> (r: Parser)
        ensures
            r.input() == (Input { tokens: token_views(tokens@), numbers: numbers@ }),
            r.position() == 0,
            r.well_formed() == (tokens.len() > 0 && tokens@.last().token_type
                == TokenType::Eof),
    {
        Parser { tokens, current: 0, numbers }
    }

    /// Whether the parser is well formed.
    pub fn ready(&self) -> (r: bool)
        ensures
            r == self.well_formed(),
    {
        self.tokens.len() > 0 && self.tokens[self.tokens.len() - 1].token_type == TokenType::Eof
            && self.current < self.tokens.len()
    }

    /// Parses the input from the next token on; the first error ends the parse.
    pub fn parse(&mut self) -> (r: Result<Program, String>)
        requires
            old(self).well_formed(),
        ensures
            moved(
                *old(self),
                *final(self),
                program(old(self).input(), old(self).position()).used,
            ),
            match r {
                Ok(tree) => program(old(self).input(), old(self).position()).result == Ok::<
                    Seq<StmtView>,
                    Seq<char>,
                >(tree@),
                Err(e) => program(old(self).input(), old(self).position()).result == Err::<
                    Seq<StmtView>,
                    Seq<char>,
                >(e@),
            },
    {
        match self.block(Stop::Never) {
            Ok(statements) => Ok(Program { statements }),
            Err(e) => Err(e),
        }
    }

    /// The index of the next token.
    fn place(&self) -> (r: usize)
        ensures
            r == self.position(),
    {
        self.current
    }

    /// Takes the next token if it has the kind `token_type`.
    fn match_token(&mut self, token_type: TokenType) -> (r: bool)
        requires
            old(self).well_formed(),
        ensures
            moved(
                *old(self),
                *final(self),
                if r {
                    1nat
                } else {
                    0nat
                },
            ),
            r == holds(old(self).input(), old(self).position(), token_type),
    {
        if self.check(token_type) {
            self.advance();
            true
        } else {
            false
        }
    }

    /// Whether the next token has the kind `token_type`; never at the end of the
    /// input.
    fn check(&self, token_type: TokenType) -> (r: bool)
        requires
            self.well_formed(),
        ensures
            r == holds(self.input(), self.position(), token_type),
    {
        if self.is_at_end() {
            false
        } else {
            self.peek().token_type == token_type
        }
    }

    /// Moves to the next token, unless the parser is at the end of the input.
    fn advance(&mut self)
        requires
            old(self).well_formed(),
        ensures
            moved(*old(self), *final(self), step_over(old(self).input(), old(self).position())),
    {
        if !self.is_at_end() {
            self.current = self.current + 1;
        }
    }

    /// Whether the next token is the end-of-input token.
    fn is_at_end(&self) -> (r: bool)
        requires
            self.well_formed(),
        ensures
            r == ended(self.input(), self.position()),
    {
        self.peek().token_type == TokenType::Eof
    }

    /// The next token.
    fn peek(&self) -> (t: &Token)
        requires
            self.well_formed(),
        ensures
            t@ == self.input().tokens[self.position()],
            *t == self.tokens[self.current as int],
    {
        &self.tokens[self.current]
    }

    /// The token before the next one.
    fn previous(&self) -> (t: &Token)
        requires
            self.well_formed(),
            self.position() > 0,
        ensures
            t@ == self.input().tokens[self.position() - 1],
    {
        &self.tokens[self.current - 1]
    }

    /// Takes the next token if it has the kind `token_type`; else the error
    /// `message` at the place of the next token.
    fn consume(&mut self, token_type: TokenType, message: &str) -> (r: Result<(), String>)
        requires
            old(self).well_formed(),
        ensures
            moved(
                *old(self),
                *final(self),
                expected(old(self).input(), old(self).position(), token_type, message@).used,
            ),
            match r {
                Ok(_) => expected(
                    old(self).input(),
                    old(self).position(),
                    token_type,
                    message@,
                ).result is Ok,
                Err(e) => expected(
                    old(self).input(),
                    old(self).position(),
                    token_type,
                    message@,
                ).result == Err::<(), Seq<char>>(e@),
            },
    {
        if self.check(token_type) {
            self.advance();
            Ok(())
        } else {
            Err(self.error_at_current(message))
        }
    }

    /// Takes the next token if it is an identifier, and gives its text; else the
    /// error `message` at the place of the next token.
    fn consume_identifier(&mut self, message: &str) -> (r: Result<String, String>)
        requires
            old(self).well_formed(),
        ensures
            moved(
                *old(self),
                *final(self),
                identifier(old(self).input(), old(self).position(), message@).used,
            ),
            match r {
                Ok(name) => identifier(old(self).input(), old(self).position(), message@).result
                    == Ok::<Seq<char>, Seq<char>>(name@),
                Err(e) => identifier(old(self).input(), old(self).position(), message@).result
                    == Err::<Seq<char>, Seq<char>>(e@),
            },
    {
        if self.check(TokenType::Identifier) {
            let name = self.peek().lexeme.clone();
            self.advance();
            Ok(name)
        } else {
            Err(self.error_at_current(message))
        }
    }

    /// Takes every line-break token that follows.
    fn skip_newlines(&mut self)
        requires
            old(self).well_formed(),
        ensures
            moved(*old(self), *final(self), newlines(old(self).input(), old(self).position())),
    {
        let ghost inp = self.input();
        let ghost start = self.position();
        while self.match_token(TokenType::Newline)
            invariant
                follows(*old(self), *self),
                inp == old(self).input(),
                start == old(self).position(),
                newlines(inp, start) == newlines(inp, self.position()) + (self.position()
                    - start),
            decreases self.remaining(),
        {
        }
    }

    /// `message` with the place of `token`.
    fn error_at(&self, token: &Token, message: &str) -> (r: String)
        ensures
            r@ == located(message@, token.line as int, token.column as int),
    {
        located_message(message, token.line, token.column)
    }

    /// `message` with the place of the next token.
    fn error_at_current(&self, message: &str) -> (r: String)
        requires
            self.well_formed(),
        ensures
            r@ == error_at(self.input(), self.position(), message@),
    {
        self.error_at(self.peek(), message)
    }

    /// Skips to the place where the next statement is likely to start.
    fn synchronize(&mut self)
        requires
            old(self).well_formed(),
        ensures
            follows(*old(self), *final(self)),
            final(self).position() == sync_point(old(self).input().tokens, old(self).position()),
    {
        let ghost tokens = self.input().tokens;
        let ghost start = self.current as int;
        while !self.is_at_end()
            invariant
                follows(*old(self), *self),
                tokens == self.input().tokens,
                tokens == old(self).input().tokens,
                start == old(self).position(),
                sync_point(tokens, start) == sync_point(tokens, self.current as int),
            ensures
                follows(*old(self), *self),
                self.current as int == sync_point(
                    old(self).input().tokens,
                    old(self).position(),
                ),
            decreases self.remaining(),
        {
            let kind = self.peek().token_type;
            assert(tokens[self.current as int].token_type == kind);
            if is_stop_after(kind) {
                self.advance();
                return ;
            } else if is_stop_at(kind) {
                return ;
            } else {
                self.advance();
            }
        }
    }

    /// The value of the number literal that the token before the next one holds.
    fn number_value(&self) -> (r: Option<u64>)
        requires
            self.well_formed(),
            self.position() > 0,
        ensures
            r == number_at(self.input(), self.position() - 1),
    {
        let index = self.current - 1;
        if index < self.numbers.len() {
            Some(self.numbers[index])
        } else {
            literal_value(self.tokens[index].lexeme.as_str())
        }
    }

    /// Whether the next token, in upper case, reads `word`.
    fn at_word(&self, word: &str) -> (r: bool)
        requires
            self.well_formed(),
        ensures
            r == reads(self.input(), self.position(), word@),
    {
        let upper = to_uppercase(self.peek().lexeme.as_str());
        same_text(upper.as_str(), word)
    }

    /// The operator of the level `level` that the next token is, taken.
    fn match_binary_op(&mut self, level: Precedence) -> (r: Option<BinaryOp>)
        requires
            old(self).well_formed(),
        ensures
            moved(
                *old(self),
                *final(self),
                if r is Some {
                    1nat
                } else {
                    0nat
                },
            ),
            r == (if ended(old(self).input(), old(self).position()) {
                None
            } else {
                operator_on(level, kind_at(old(self).input(), old(self).position()))
            }),
    {
        if self.is_at_end() {
            return None;
        }
        let op = operator_for(level, self.peek().token_type);
        if op.is_some() {
            self.advance();
        }
        op
    }
}

/// The result of the statements of a `LOOP` that start with `prefix` and go on
/// with `rest`.
pub open spec fn with_body(
    prefix: Seq<StmtView>,
    rest: Parsed<(Seq<StmtView>, bool)>,
    by: nat,
) -> Parsed<(Seq<StmtView>, bool)> {
    Parsed {
        result: match rest.result {
            Ok(found) => Ok((prefix + found.0, found.1)),
            Err(e) => Err(e),
        },
        used: rest.used + by,
    }
}

/// The first offset at or after `from` where `needle` stands in `hay`.
pub open spec fn find_from(hay: Seq<char>, needle: Seq<char>, from: int) -> Option<int>
    decreases hay.len() - from,
{
    if from < 0 || from + needle.len() > hay.len() {
        None
    } else if hay.subrange(from, from + needle.len()) == needle {
        Some(from)
    } else if from >= hay.len() {
        None
    } else {
        find_from(hay, needle, from + 1)
    }
}

/// The number that follows the first `needle` in `message`: the digits that
/// stand right behind it, where there is at least one and they stay within 32
/// bits.
pub open spec fn number_after(message: Seq<char>, needle: Seq<char>) -> Option<u32> {
    match find_from(message, needle, 0) {
        None => None,
        Some(at) => {
            let start = at + needle.len();
            let end = run_end(message, start, CharClass::Digit);
            if end == start {
                None
            } else {
                match bounded_value(message.subrange(start, end), u32::MAX as u64) {
                    Some(v) => Some(v as u32),
                    None => None,
                }
            }
        },
    }
}

/// The line and column that a message names: the number after `at line `, and
/// the number after `column `, or 1 where that is missing.
pub open spec fn line_col_of(message: Seq<char>) -> Option<(u32, u32)> {
    match number_after(message, "at line "@) {
        None => None,
        Some(line) => match number_after(message, "column "@) {
            None => Some((line, 1u32)),
            Some(column) => Some((line, column)),
        },
    }
}

/// The span of an error: the place that the message names, or else the place of
/// the token; the length of the token where the two agree, else 1.
pub open spec fn span_of(message: Seq<char>, token: TokenView) -> Span {
    match line_col_of(message) {
        Some((line, column)) => Span {
            line: at_least_one(line as usize),
            column: at_least_one(column as usize),
            len: if token.line == line as usize && token.column == column as usize {
                at_least_one(token.lexeme.len() as usize)
            } else {
                1
            },
        },
        None => Span {
            line: at_least_one(token.line),
            column: at_least_one(token.column),
            len: at_least_one(token.lexeme.len() as usize),
        },
    }
}

/// Whether `needle` stands in `hay` at offset `at`.
fn stands_at(hay: &Vec<char>, needle: &Vec<char>, at: usize) -> (r: bool)
    requires
        at + needle.len() <= hay.len(),
    ensures
        r == (hay@.subrange(at as int, at + needle.len()) == needle@),
{
    let mut i: usize = 0;
    while i < needle.len()
        invariant
            i <= needle.len(),
            at + needle.len() <= hay.len(),
            forall|j: int| 0 <= j < i ==> hay@[at + j] == needle@[j],
        decreases needle.len() - i,
    {
        if hay[at + i] != needle[i] {
            assert(hay@.subrange(at as int, at + needle.len())[i as int] != needle@[i as int]);
            return false;
        }
        i = i + 1;
    }
    assert(hay@.subrange(at as int, at + needle.len()) =~= needle@);
    true
}

/// The first offset where `needle` stands in `hay`.
pub fn find(hay: &Vec<char>, needle: &Vec<char>) -> (r: Option<usize>)
    ensures
        match r {
            Some(at) => find_from(hay@, needle@, 0) == Some(at as int) && at + needle.len()
                <= hay.len(),
            None => find_from(hay@, needle@, 0) is None,
        },
{
    if needle.len() > hay.len() {
        return None;
    }
    let last = hay.len() - needle.len();
    let mut i: usize = 0;
    loop
        invariant
            last == hay.len() - needle.len(),
            i <= last,
            find_from(hay@, needle@, 0) == find_from(hay@, needle@, i as int),
        decreases last - i,
    {
        if stands_at(hay, needle, i) {
            return Some(i);
        }
        if i == last {
            assert(find_from(hay@, needle@, i + 1) is None);
            return None;
        }
        i = i + 1;
    }
}

/// The number that follows the first `needle` in `message`.
pub fn extract_number_after(message: &str, needle: &str) -> (r: Option<u32>)
    ensures
        r == number_after(message@, needle@),
{
    let hay = chars_of(message);
    let pattern = chars_of(needle);
    match find(&hay, &pattern) {
        None => None,
        Some(at) => {
            let start = at + pattern.len();
            let mut end = start;
            while end < hay.len() && crate::text::is_ascii_digit(hay[end])
                invariant
                    start <= end <= hay.len(),
                    run_end(hay@, start as int, CharClass::Digit) == run_end(
                        hay@,
                        end as int,
                        CharClass::Digit,
                    ),
                decreases hay.len() - end,
            {
                end = end + 1;
            }
            if end == start {
                None
            } else {
                match digits_to_integer(&hay, start, end, u32::MAX as u64) {
                    Some(v) => Some(v as u32),
                    None => None,
                }
            }
        },
    }
}

/// The line and column that a message names.
pub fn extract_line_col(message: &str) -> (r: Option<(u32, u32)>)
    ensures
        r == line_col_of(message@),
{
    match extract_number_after(message, "at line ") {
        None => None,
        Some(line) => match extract_number_after(message, "column ") {
            None => Some((line, 1u32)),
            Some(column) => Some((line, column)),
        },
    }
}

/// The span of an error with the given message, found at `token`.
pub fn span_from_message_or_token(message: &str, token: &Token) -> (r: Span)
    ensures
        r == span_of(message@, token@),
        r.well_formed(),
{
    let token_len = token.lexeme.as_str().unicode_len();
    match extract_line_col(message) {
        Some((line, column)) => {
            let len = if token.line == line as usize && token.column == column as usize {
                token_len
            } else {
                1
            };
            Span::new(line as usize, column as usize, len)
        },
        None => Span::new(token.line, token.column, token_len),
    }
}

} // verus!

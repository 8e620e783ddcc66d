//! The grammar: what the parser makes of a list of tokens.
//!
//! Every function here says, for one construct of the language, what stands at
//! a place in the token list: the tree or the error, and the number of tokens
//! that the construct (or the failed attempt) took.

use super::debug_text;
use crate::ast::{BinaryOp, ExprView, StmtView, UnaryOp, VarScope};
use crate::number::{decimal_literal, ONE};
use crate::text::{located, uppercase_of};
use crate::token::{TokenType, TokenView};
use vstd::prelude::*;

verus! {

/// What the parser reads: the tokens, and the values of number literals that
/// were handed to it, by the index of their token.
pub struct Input {
    pub tokens: Seq<TokenView>,
    pub numbers: Seq<u64>,
}

/// What stands at a place: the tree or the message of the error, and the
/// number of tokens taken.
pub struct Parsed<T> {
    pub result: Result<T, Seq<char>>,
    pub used: nat,
}

/// The levels of binary operators, loosest first.
#[derive(Debug, Clone, Copy, PartialEq, Eq, Structural)]
pub enum Precedence {
    Or,
    And,
    Equality,
    Comparison,
    Term,
    Factor,
    Power,
}

/// What ends a list of statements, besides the end of the input.
#[derive(Debug, Clone, Copy, PartialEq, Eq, Structural)]
pub enum Stop {
    /// Nothing.
    Never,
    /// `ENDIF`, `ELSE` or `ELSEIF`.
    Then,
    /// `ENDIF`.
    EndIf,
    /// `ENDDO`.
    EndDo,
    /// `WHILE`.
    While,
    /// `NEXT`.
    Next,
    /// `CASE`, `OTHERWISE` or `ENDCASE`.
    Label,
    /// `ENDCASE`.
    EndCase,
}

/// A result that is the given error.
pub open spec fn failed<T>(message: Seq<char>, used: nat) -> Parsed<T> {
    Parsed { result: Err(message), used }
}

/// A result that is the given tree.
pub open spec fn done<T>(tree: T, used: nat) -> Parsed<T> {
    Parsed { result: Ok(tree), used }
}

/// A result with `by` more tokens taken before it.
pub open spec fn shift<T>(p: Parsed<T>, by: nat) -> Parsed<T> {
    Parsed { result: p.result, used: p.used + by }
}

/// The result of a list that starts with `prefix`, goes on with `rest`, and took
/// `by` tokens before `rest`.
pub open spec fn joined<T>(prefix: Seq<T>, rest: Parsed<Seq<T>>, by: nat) -> Parsed<Seq<T>> {
    Parsed {
        result: match rest.result {
            Ok(items) => Ok(prefix + items),
            Err(e) => Err(e),
        },
        used: rest.used + by,
    }
}

/// What a construct makes of the tree of its only part.
pub open spec fn wrapped<A, B>(p: Parsed<A>, make: spec_fn(A) -> B, by: nat) -> Parsed<B> {
    Parsed {
        result: match p.result {
            Ok(tree) => Ok(make(tree)),
            Err(e) => Err(e),
        },
        used: p.used + by,
    }
}

/// Whether `pos` is the index of a token.
pub open spec fn inside(inp: Input, pos: int) -> bool {
    0 <= pos < inp.tokens.len()
}

/// The number of tokens from `pos` on.
pub open spec fn left(inp: Input, pos: int) -> nat {
    if inside(inp, pos) {
        (inp.tokens.len() - pos) as nat
    } else {
        0
    }
}

/// The kind of the token at `pos`.
pub open spec fn kind_at(inp: Input, pos: int) -> TokenType {
    inp.tokens[pos].token_type
}

/// Whether the token at `pos` is the end of the input.
pub open spec fn ended(inp: Input, pos: int) -> bool {
    kind_at(inp, pos) == TokenType::Eof
}

/// Whether the token at `pos` has the kind `kind` and is not the end of the
/// input.
pub open spec fn holds(inp: Input, pos: int, kind: TokenType) -> bool {
    !ended(inp, pos) && kind_at(inp, pos) == kind
}

/// Whether the token at `pos`, in upper case, reads `word`.
pub open spec fn reads(inp: Input, pos: int, word: Seq<char>) -> bool {
    uppercase_of(inp.tokens[pos].lexeme) == word
}

/// `message` with the place of the token at `pos`.
pub open spec fn error_at(inp: Input, pos: int, message: Seq<char>) -> Seq<char> {
    located(message, inp.tokens[pos].line as int, inp.tokens[pos].column as int)
}

/// A token of the kind `kind`, or else the error `message` at its place.
pub open spec fn expected(inp: Input, pos: int, kind: TokenType, message: Seq<char>) -> Parsed<()> {
    if holds(inp, pos, kind) {
        done((), 1)
    } else {
        failed(error_at(inp, pos, message), 0)
    }
}

/// An identifier, or else the error `message` at its place.
pub open spec fn identifier(inp: Input, pos: int, message: Seq<char>) -> Parsed<Seq<char>> {
    if holds(inp, pos, TokenType::Identifier) {
        done(inp.tokens[pos].lexeme, 1)
    } else {
        failed(error_at(inp, pos, message), 0)
    }
}

/// The number of tokens that a step over the token at `pos` takes: none at the
/// end of the input.
pub open spec fn step_over(inp: Input, pos: int) -> nat {
    if ended(inp, pos) {
        0
    } else {
        1
    }
}

/// The number of line-break tokens from `pos` on.
pub open spec fn newlines(inp: Input, pos: int) -> nat
    decreases left(inp, pos),
{
    if inside(inp, pos) && holds(inp, pos, TokenType::Newline) {
        1 + newlines(inp, pos + 1)
    } else {
        0
    }
}

/// The value of the number literal at `pos`: the value that was handed to the
/// parser for this token, or else the value that the literal stands for, where
/// that is read here.
pub open spec fn number_at(inp: Input, pos: int) -> Option<u64> {
    if 0 <= pos < inp.numbers.len() {
        Some(inp.numbers[pos])
    } else {
        decimal_literal(inp.tokens[pos].lexeme)
    }
}

/// The binary operator that a token kind is on the level `level`.
pub open spec fn operator_on(level: Precedence, kind: TokenType) -> Option<BinaryOp> {
    match level {
        Precedence::Or => if kind == TokenType::Or {
            Some(BinaryOp::Or)
        } else {
            None
        },
        Precedence::And => if kind == TokenType::And {
            Some(BinaryOp::And)
        } else {
            None
        },
        Precedence::Equality => if kind == TokenType::Equal {
            Some(BinaryOp::Equal)
        } else if kind == TokenType::NotEqual {
            Some(BinaryOp::NotEqual)
        } else {
            None
        },
        Precedence::Comparison => if kind == TokenType::Greater {
            Some(BinaryOp::Greater)
        } else if kind == TokenType::GreaterEqual {
            Some(BinaryOp::GreaterEqual)
        } else if kind == TokenType::Less {
            Some(BinaryOp::Less)
        } else if kind == TokenType::LessEqual {
            Some(BinaryOp::LessEqual)
        } else {
            None
        },
        Precedence::Term => if kind == TokenType::Plus {
            Some(BinaryOp::Add)
        } else if kind == TokenType::Minus {
            Some(BinaryOp::Subtract)
        } else {
            None
        },
        Precedence::Factor => if kind == TokenType::Star {
            Some(BinaryOp::Multiply)
        } else if kind == TokenType::Slash {
            Some(BinaryOp::Divide)
        } else if kind == TokenType::Percent {
            Some(BinaryOp::Modulo)
        } else {
            None
        },
        Precedence::Power => if kind == TokenType::Power {
            Some(BinaryOp::Power)
        } else {
            None
        },
    }
}

/// The place of a level among the levels: the loosest has the highest number.
pub open spec fn looseness(level: Precedence) -> nat {
    match level {
        Precedence::Or => 7,
        Precedence::And => 6,
        Precedence::Equality => 5,
        Precedence::Comparison => 4,
        Precedence::Term => 3,
        Precedence::Factor => 2,
        Precedence::Power => 1,
    }
}

/// The next tighter level.
pub open spec fn tighter(level: Precedence) -> Precedence {
    match level {
        Precedence::Or => Precedence::And,
        Precedence::And => Precedence::Equality,
        Precedence::Equality => Precedence::Comparison,
        Precedence::Comparison => Precedence::Term,
        Precedence::Term => Precedence::Factor,
        _ => Precedence::Power,
    }
}

/// The operator of an assignment that computes: `+=`, `-=`, `*=`, `/=`.
pub open spec fn augmented_operator(kind: TokenType) -> Option<BinaryOp> {
    match kind {
        TokenType::PlusAssign => Some(BinaryOp::Add),
        TokenType::MinusAssign => Some(BinaryOp::Subtract),
        TokenType::MultiplyAssign => Some(BinaryOp::Multiply),
        TokenType::DivideAssign => Some(BinaryOp::Divide),
        _ => None,
    }
}

/// Whether a token kind ends a list of statements.
pub open spec fn stops(stop: Stop, kind: TokenType) -> bool {
    match stop {
        Stop::Never => false,
        Stop::Then => kind == TokenType::EndIf || kind == TokenType::Else || kind
            == TokenType::ElseIf,
        Stop::EndIf => kind == TokenType::EndIf,
        Stop::EndDo => kind == TokenType::EndDo,
        Stop::While => kind == TokenType::While,
        Stop::Next => kind == TokenType::Next,
        Stop::Label => kind == TokenType::Case || kind == TokenType::Otherwise || kind
            == TokenType::EndCase,
        Stop::EndCase => kind == TokenType::EndCase,
    }
}

/// The number of tokens that a statement took: at least one.
pub open spec fn at_least_one_token(used: nat) -> nat {
    if used == 0 {
        1
    } else {
        used
    }
}

/// The names of parameters, separated by commas.
pub open spec fn param_list(inp: Input, pos: int) -> Parsed<Seq<Seq<char>>>
    decreases left(inp, pos),
{
    if !inside(inp, pos) {
        failed(Seq::empty(), 0)
    } else {
        let name = identifier(inp, pos, "Expected parameter name"@);
        match name.result {
            Err(e) => failed(e, 0),
            Ok(n) => if holds(inp, pos + 1, TokenType::Comma) {
                joined(seq![n], param_list(inp, pos + 2), 2)
            } else {
                done(seq![n], 1)
            },
        }
    }
}

/// A literal, a variable, an expression in parentheses or an array.
pub open spec fn primary(inp: Input, pos: int) -> Parsed<ExprView>
    decreases left(inp, pos), 45nat,
{
    if !inside(inp, pos) {
        failed(Seq::empty(), 0)
    } else if kind_at(inp, pos) == TokenType::True {
        done(ExprView::Boolean(true), 1)
    } else if kind_at(inp, pos) == TokenType::False {
        done(ExprView::Boolean(false), 1)
    } else if kind_at(inp, pos) == TokenType::Nil {
        done(ExprView::Nil, 1)
    } else if kind_at(inp, pos) == TokenType::Number {
        match number_at(inp, pos) {
            Some(bits) => done(ExprView::Number(bits), 1),
            None => failed("Invalid number"@, 1),
        }
    } else if kind_at(inp, pos) == TokenType::String {
        done(ExprView::String(inp.tokens[pos].lexeme), 1)
    } else if kind_at(inp, pos) == TokenType::Identifier {
        done(ExprView::Variable(inp.tokens[pos].lexeme), 1)
    } else if kind_at(inp, pos) == TokenType::LeftParen {
        let inner = expression(inp, pos + 1);
        match inner.result {
            Err(e) => failed(e, inner.used + 1),
            Ok(tree) => {
                let close = expected(
                    inp,
                    pos + 1 + inner.used,
                    TokenType::RightParen,
                    "Expected ')' after expression"@,
                );
                match close.result {
                    Err(e) => failed(e, inner.used + 1),
                    Ok(_) => done(tree, inner.used + 2),
                }
            },
        }
    } else if kind_at(inp, pos) == TokenType::LeftBrace {
        let items = if holds(inp, pos + 1, TokenType::RightBrace) {
            done(Seq::<ExprView>::empty(), 0)
        } else {
            expr_list(inp, pos + 1)
        };
        match items.result {
            Err(e) => failed(e, items.used + 1),
            Ok(elements) => {
                let close = expected(
                    inp,
                    pos + 1 + items.used,
                    TokenType::RightBrace,
                    "Expected '}' after array elements"@,
                );
                match close.result {
                    Err(e) => failed(e, items.used + 1),
                    Ok(_) => done(ExprView::Array(elements), items.used + 2),
                }
            },
        }
    } else {
        failed("Unexpected token: "@ + debug_text(inp.tokens[pos]), 0)
    }
}

/// Expressions, separated by commas.
pub open spec fn expr_list(inp: Input, pos: int) -> Parsed<Seq<ExprView>>
    decreases left(inp, pos), 110nat,
{
    if !inside(inp, pos) {
        failed(Seq::empty(), 0)
    } else {
        let first = expression(inp, pos);
        match first.result {
            Err(e) => failed(e, first.used),
            Ok(tree) => if holds(inp, pos + first.used, TokenType::Comma) {
                joined(seq![tree], expr_list(inp, pos + first.used + 1), first.used + 1)
            } else {
                done(seq![tree], first.used)
            },
        }
    }
}

/// The rest of a call, after the opening parenthesis: the arguments and the
/// closing parenthesis. Only a variable can be called.
pub open spec fn finish_call(inp: Input, pos: int, callee: ExprView) -> Parsed<ExprView>
    decreases left(inp, pos), 120nat,
{
    match callee {
        ExprView::Variable(name) => {
            let args = if holds(inp, pos, TokenType::RightParen) {
                done(Seq::<ExprView>::empty(), 0)
            } else {
                expr_list(inp, pos)
            };
            match args.result {
                Err(e) => failed(e, args.used),
                Ok(items) => {
                    let close = expected(
                        inp,
                        pos + args.used,
                        TokenType::RightParen,
                        "Expected ')' after arguments"@,
                    );
                    match close.result {
                        Err(e) => failed(e, args.used),
                        Ok(_) => done(ExprView::Call { name, args: items }, args.used + 1),
                    }
                },
            }
        },
        _ => failed("Invalid function call"@, 0),
    }
}

/// One call or index behind an expression, where there is one: the expression
/// with it, and whether there was one.
pub open spec fn suffix(inp: Input, pos: int, callee: ExprView) -> Parsed<(ExprView, bool)>
    decreases left(inp, pos), 48nat,
{
    if !inside(inp, pos) {
        done((callee, false), 0)
    } else if kind_at(inp, pos) == TokenType::LeftParen {
        wrapped(finish_call(inp, pos + 1, callee), |tree: ExprView| (tree, true), 1)
    } else if kind_at(inp, pos) == TokenType::LeftBracket {
        let index = expression(inp, pos + 1);
        match index.result {
            Err(e) => failed(e, index.used + 1),
            Ok(tree) => {
                let close = expected(
                    inp,
                    pos + 1 + index.used,
                    TokenType::RightBracket,
                    "Expected ']' after index"@,
                );
                match close.result {
                    Err(e) => failed(e, index.used + 1),
                    Ok(_) => done(
                        (
                            ExprView::Index { object: Box::new(callee), index: Box::new(tree) },
                            true,
                        ),
                        index.used + 2,
                    ),
                }
            },
        }
    } else {
        done((callee, false), 0)
    }
}

/// What follows a primary expression: calls and indexes, applied from left to
/// right.
pub open spec fn call_rest(inp: Input, pos: int, callee: ExprView) -> Parsed<ExprView>
    decreases left(inp, pos), 49nat,
{
    if !inside(inp, pos) {
        done(callee, 0)
    } else {
        let one = suffix(inp, pos, callee);
        match one.result {
            Err(e) => failed(e, one.used),
            Ok(found) => if found.1 && one.used > 0 {
                shift(call_rest(inp, pos + one.used, found.0), one.used)
            } else {
                done(callee, 0)
            },
        }
    }
}

/// A primary expression with the calls and indexes that follow it.
pub open spec fn call(inp: Input, pos: int) -> Parsed<ExprView>
    decreases left(inp, pos), 50nat,
{
    if !inside(inp, pos) {
        failed(Seq::empty(), 0)
    } else {
        let first = primary(inp, pos);
        match first.result {
            Err(e) => first,
            Ok(tree) => shift(call_rest(inp, pos + first.used, tree), first.used),
        }
    }
}

/// An expression under `NOT` or a minus sign, or a call.
pub open spec fn unary(inp: Input, pos: int) -> Parsed<ExprView>
    decreases left(inp, pos), 55nat,
{
    if !inside(inp, pos) {
        failed(Seq::empty(), 0)
    } else if kind_at(inp, pos) == TokenType::Not {
        wrapped(
            unary(inp, pos + 1),
            |tree: ExprView| ExprView::Unary { operator: UnaryOp::Not, operand: Box::new(tree) },
            1,
        )
    } else if kind_at(inp, pos) == TokenType::Minus {
        wrapped(
            unary(inp, pos + 1),
            |tree: ExprView| ExprView::Unary { operator: UnaryOp::Negate, operand: Box::new(tree) },
            1,
        )
    } else {
        call(inp, pos)
    }
}

/// An operand of the level `level`: an expression of the next tighter level.
pub open spec fn operand(inp: Input, pos: int, level: Precedence) -> Parsed<ExprView>
    decreases left(inp, pos), 60 + 3 * looseness(level),
{
    if level == Precedence::Power {
        unary(inp, pos)
    } else {
        binary(inp, pos, tighter(level))
    }
}

/// What follows an operand of the level `level`: operators of this level with
/// their right operands, applied from left to right.
pub open spec fn binary_rest(inp: Input, pos: int, level: Precedence, so_far: ExprView) -> Parsed<
    ExprView,
>
    decreases left(inp, pos), 60 + 3 * looseness(level) + 1,
{
    if !inside(inp, pos) || ended(inp, pos) {
        done(so_far, 0)
    } else {
        match operator_on(level, kind_at(inp, pos)) {
            None => done(so_far, 0),
            Some(operator) => {
                let right = operand(inp, pos + 1, level);
                match right.result {
                    Err(e) => failed(e, right.used + 1),
                    Ok(tree) => shift(
                        binary_rest(
                            inp,
                            pos + 1 + right.used,
                            level,
                            ExprView::Binary {
                                left: Box::new(so_far),
                                operator,
                                right: Box::new(tree),
                            },
                        ),
                        right.used + 1,
                    ),
                }
            },
        }
    }
}

/// An expression of the level `level`: operands of the next tighter level,
/// joined by operators of this level.
pub open spec fn binary(inp: Input, pos: int, level: Precedence) -> Parsed<ExprView>
    decreases left(inp, pos), 60 + 3 * looseness(level) + 2,
{
    if !inside(inp, pos) {
        failed(Seq::empty(), 0)
    } else {
        let first = operand(inp, pos, level);
        match first.result {
            Err(e) => first,
            Ok(tree) => shift(binary_rest(inp, pos + first.used, level, tree), first.used),
        }
    }
}

/// An assignment, or an expression of the loosest level. `x += e` stands for
/// `x := x + e`, and `x++` for `x := x + 1`; an assignment to an index is a call
/// of `__SET_INDEX__` with the array, the index and the value.
pub open spec fn assignment(inp: Input, pos: int) -> Parsed<ExprView>
    decreases left(inp, pos), 95nat,
{
    if !inside(inp, pos) {
        failed(Seq::empty(), 0)
    } else {
        let first = binary(inp, pos, Precedence::Or);
        match first.result {
            Err(e) => first,
            Ok(target) => {
                let at = pos + first.used;
                if holds(inp, at, TokenType::Assign) {
                    match target {
                        ExprView::Variable(name) => wrapped(
                            assignment(inp, at + 1),
                            |value: ExprView| ExprView::Assign { name, value: Box::new(value) },
                            first.used + 1,
                        ),
                        ExprView::Index { object, index } => wrapped(
                            assignment(inp, at + 1),
                            |value: ExprView|
                                ExprView::Call {
                                    name: "__SET_INDEX__"@,
                                    args: seq![*object, *index, value],
                                },
                            first.used + 1,
                        ),
                        _ => failed("Invalid assignment target"@, first.used + 1),
                    }
                } else if !ended(inp, at) && augmented_operator(kind_at(inp, at)) is Some {
                    match target {
                        ExprView::Variable(name) => wrapped(
                            assignment(inp, at + 1),
                            |value: ExprView|
                                ExprView::Assign {
                                    name,
                                    value: Box::new(
                                        ExprView::Binary {
                                            left: Box::new(ExprView::Variable(name)),
                                            operator: augmented_operator(kind_at(inp, at))->0,
                                            right: Box::new(value),
                                        },
                                    ),
                                },
                            first.used + 1,
                        ),
                        _ => failed("Invalid augmented assignment target"@, first.used + 1),
                    }
                } else if holds(inp, at, TokenType::Increment) || holds(
                    inp,
                    at,
                    TokenType::Decrement,
                ) {
                    match target {
                        ExprView::Variable(name) => done(
                            ExprView::Assign {
                                name,
                                value: Box::new(
                                    ExprView::Binary {
                                        left: Box::new(ExprView::Variable(name)),
                                        operator: if kind_at(inp, at) == TokenType::Increment {
                                            BinaryOp::Add
                                        } else {
                                            BinaryOp::Subtract
                                        },
                                        right: Box::new(ExprView::Number(ONE)),
                                    },
                                ),
                            },
                            first.used + 1,
                        ),
                        _ => failed("Invalid increment/decrement target"@, first.used + 1),
                    }
                } else {
                    first
                }
            },
        }
    }
}

/// An expression.
pub open spec fn expression(inp: Input, pos: int) -> Parsed<ExprView>
    decreases left(inp, pos), 100nat,
{
    assignment(inp, pos)
}

/// An expression that may be missing: there is none at the end of the input and
/// before a line break.
pub open spec fn optional_expression(inp: Input, pos: int) -> Parsed<Option<ExprView>>
    decreases left(inp, pos), 125nat,
{
    if inside(inp, pos) && !ended(inp, pos) && kind_at(inp, pos) != TokenType::Newline {
        wrapped(expression(inp, pos), |tree: ExprView| Some(tree), 0)
    } else {
        done(None, 0)
    }
}

/// The declaration of one variable: its name and an optional initial value
/// after `:=`, `=` or `:`.
pub open spec fn var_item(inp: Input, pos: int, scope: VarScope) -> Parsed<StmtView>
    decreases left(inp, pos), 139nat,
{
    if !inside(inp, pos) {
        failed(Seq::empty(), 0)
    } else {
        let name = identifier(inp, pos, "Expected variable name"@);
        match name.result {
            Err(e) => failed(e, 0),
            Ok(n) => if holds(inp, pos + 1, TokenType::Assign) || holds(
                inp,
                pos + 1,
                TokenType::Colon,
            ) {
                wrapped(
                    expression(inp, pos + 2),
                    |tree: ExprView|
                        StmtView::VarDecl { name: n, initializer: Some(tree), scope },
                    2,
                )
            } else {
                done(StmtView::VarDecl { name: n, initializer: None, scope }, 1)
            },
        }
    }
}

/// Declarations of variables of one scope, separated by commas.
pub open spec fn var_list(inp: Input, pos: int, scope: VarScope) -> Parsed<Seq<StmtView>>
    decreases left(inp, pos), 140nat,
{
    if !inside(inp, pos) {
        failed(Seq::empty(), 0)
    } else {
        let item = var_item(inp, pos, scope);
        match item.result {
            Err(e) => failed(e, item.used),
            Ok(first) => if holds(inp, pos + item.used, TokenType::Comma) {
                joined(seq![first], var_list(inp, pos + item.used + 1, scope), item.used + 1)
            } else {
                done(seq![first], item.used)
            },
        }
    }
}

/// The rest of a declaration, after the scope: one declaration, or a block of
/// several.
pub open spec fn var_declaration(inp: Input, pos: int, scope: VarScope) -> Parsed<StmtView>
    decreases left(inp, pos), 141nat,
{
    wrapped(
        var_list(inp, pos, scope),
        |items: Seq<StmtView>|
            if items.len() == 1 {
                items[0]
            } else {
                StmtView::Block(items)
            },
        0,
    )
}

/// Statements up to a token that ends the list, or to the end of the input.
pub open spec fn block(inp: Input, pos: int, stop: Stop) -> Parsed<Seq<StmtView>>
    decreases left(inp, pos), 135nat,
{
    if !inside(inp, pos) || ended(inp, pos) || stops(stop, kind_at(inp, pos)) {
        done(Seq::empty(), 0)
    } else {
        let first = declaration(inp, pos);
        match first.result {
            Err(e) => failed(e, first.used),
            Ok(tree) => joined(
                seq![tree],
                block(inp, pos + at_least_one_token(first.used), stop),
                at_least_one_token(first.used),
            ),
        }
    }
}

/// The statements of a function, up to its `RETURN`, to `ENDFUNC` or `ENDPROC`,
/// or to the next function.
pub open spec fn routine_body(inp: Input, pos: int) -> Parsed<Seq<StmtView>>
    decreases left(inp, pos), 135nat,
{
    if !inside(inp, pos) || ended(inp, pos) || reads(inp, pos, "RETURN"@) || reads(
        inp,
        pos,
        "ENDFUNC"@,
    ) || reads(inp, pos, "ENDPROC"@) || kind_at(inp, pos) == TokenType::Function || kind_at(
        inp,
        pos,
    ) == TokenType::Procedure {
        done(Seq::empty(), 0)
    } else {
        let first = statement(inp, pos);
        match first.result {
            Err(e) => failed(e, first.used),
            Ok(tree) => joined(
                seq![tree],
                routine_body(inp, pos + at_least_one_token(first.used)),
                at_least_one_token(first.used),
            ),
        }
    }
}

/// The closing `RETURN` of a function, where it has one: with its value unless
/// a semicolon or the end of the input follows.
pub open spec fn closing_return(inp: Input, pos: int) -> Parsed<Seq<StmtView>>
    decreases left(inp, pos), 126nat,
{
    if inside(inp, pos) && !ended(inp, pos) && reads(inp, pos, "RETURN"@) {
        if inside(inp, pos + 1) && !ended(inp, pos + 1) && kind_at(inp, pos + 1)
            != TokenType::Semicolon {
            wrapped(
                expression(inp, pos + 1),
                |tree: ExprView| seq![StmtView::Return(Some(tree))],
                1,
            )
        } else {
            done(seq![StmtView::Return(None)], 1)
        }
    } else {
        done(Seq::empty(), 0)
    }
}

/// The head of a function, after `FUNCTION` or `PROCEDURE`: the name and the
/// parameters in parentheses.
pub open spec fn function_head(inp: Input, pos: int) -> Parsed<(Seq<char>, Seq<Seq<char>>)> {
    let name = identifier(inp, pos, "Expected function name"@);
    match name.result {
        Err(e) => failed(e, 0),
        Ok(n) => match expected(
            inp,
            pos + 1,
            TokenType::LeftParen,
            "Expected '(' after function name"@,
        ).result {
            Err(e) => failed(e, 1),
            Ok(_) => {
                let params = if holds(inp, pos + 2, TokenType::RightParen) {
                    done(Seq::<Seq<char>>::empty(), 0)
                } else {
                    param_list(inp, pos + 2)
                };
                match params.result {
                    Err(e) => failed(e, params.used + 2),
                    Ok(names) => match expected(
                        inp,
                        pos + 2 + params.used,
                        TokenType::RightParen,
                        "Expected ')' after parameters"@,
                    ).result {
                        Err(e) => failed(e, params.used + 2),
                        Ok(_) => done((n, names), params.used + 3),
                    },
                }
            },
        },
    }
}

/// The statements of a function with their closing `RETURN`.
pub open spec fn function_body(inp: Input, pos: int) -> Parsed<Seq<StmtView>>
    decreases left(inp, pos), 138nat,
{
    let body = routine_body(inp, pos);
    match body.result {
        Err(e) => failed(e, body.used),
        Ok(stmts) => {
            let last = closing_return(inp, pos + body.used);
            match last.result {
                Err(e) => failed(e, last.used + body.used),
                Ok(end) => done(stmts + end, last.used + body.used),
            }
        },
    }
}

/// The rest of a function, after `FUNCTION` or `PROCEDURE`: the head, the
/// statements and the closing `RETURN`.
pub open spec fn function_declaration(inp: Input, pos: int, is_procedure: bool) -> Parsed<StmtView>
    decreases left(inp, pos), 140nat,
{
    if !inside(inp, pos) {
        failed(Seq::empty(), 0)
    } else {
        let head = function_head(inp, pos);
        match head.result {
            Err(e) => failed(e, head.used),
            Ok(named) => wrapped(
                function_body(inp, pos + head.used),
                |body: Seq<StmtView>|
                    StmtView::Function { name: named.0, params: named.1, body, is_procedure },
                head.used,
            ),
        }
    }
}

/// The message for a block that is still open at the end of the input, with
/// the place of the keyword that opened it, the token before `pos`.
pub open spec fn unterminated(inp: Input, pos: int, message: Seq<char>) -> Seq<char> {
    error_at(inp, pos - 1, message)
}

/// The `ELSE` of an `IF` with its statements, where there is one, and the end
/// of the `IF`: `ENDIF` is taken where it stands there; at the end of the input
/// the `IF`, whose keyword is the token at `keyword`, is reported as open.
pub open spec fn if_tail(inp: Input, pos: int, keyword: int) -> Parsed<Option<Seq<StmtView>>>
    decreases left(inp, pos), 138nat,
{
    let else_part = if inside(inp, pos) && holds(inp, pos, TokenType::Else) {
        wrapped(block(inp, pos + 1, Stop::EndIf), |stmts: Seq<StmtView>| Some(stmts), 1)
    } else {
        done(None, 0)
    };
    match else_part.result {
        Err(e) => failed(e, else_part.used),
        Ok(else_branch) => {
            let end = pos + else_part.used;
            if ended(inp, end) {
                failed(error_at(inp, keyword, "Unterminated IF"@), else_part.used)
            } else {
                done(
                    else_branch,
                    if kind_at(inp, end) == TokenType::EndIf {
                        else_part.used + 1
                    } else {
                        else_part.used
                    },
                )
            }
        },
    }
}

/// The rest of an `IF`, after the keyword: the condition, the statements, an
/// optional `ELSE` with its statements, and `ENDIF`.
pub open spec fn if_statement(inp: Input, pos: int) -> Parsed<StmtView>
    decreases left(inp, pos), 140nat,
{
    let condition = expression(inp, pos);
    match condition.result {
        Err(e) => failed(e, condition.used),
        Ok(test) => {
            let then_part = block(inp, pos + condition.used, Stop::Then);
            match then_part.result {
                Err(e) => failed(e, then_part.used + condition.used),
                Ok(then_branch) => wrapped(
                    if_tail(inp, pos + condition.used + then_part.used, pos - 1),
                    |else_branch: Option<Seq<StmtView>>|
                        StmtView::If { condition: test, then_branch, else_branch },
                    then_part.used + condition.used,
                ),
            }
        },
    }
}

/// The rest of a `WHILE`, after the keyword: the condition, the statements and
/// `ENDDO`.
pub open spec fn while_statement(inp: Input, pos: int) -> Parsed<StmtView>
    decreases left(inp, pos), 140nat,
{
    let condition = expression(inp, pos);
    match condition.result {
        Err(e) => failed(e, condition.used),
        Ok(test) => {
            let body = block(inp, pos + condition.used, Stop::EndDo);
            match body.result {
                Err(e) => failed(e, body.used + condition.used),
                Ok(stmts) => if holds(inp, pos + condition.used + body.used, TokenType::EndDo) {
                    done(
                        StmtView::While { condition: test, body: stmts },
                        body.used + condition.used + 1,
                    )
                } else {
                    failed(
                        unterminated(inp, pos, "Unterminated WHILE"@),
                        body.used + condition.used,
                    )
                },
            }
        },
    }
}

/// The rest of a `DO`, after the keyword: the statements, `WHILE` and the
/// condition.
pub open spec fn do_while_statement(inp: Input, pos: int) -> Parsed<StmtView>
    decreases left(inp, pos), 140nat,
{
    let body = block(inp, pos, Stop::While);
    match body.result {
        Err(e) => failed(e, body.used),
        Ok(stmts) => match expected(
            inp,
            pos + body.used,
            TokenType::While,
            "Expected WHILE after DO block"@,
        ).result {
            Err(e) => failed(e, body.used),
            Ok(_) => wrapped(
                expression(inp, pos + body.used + 1),
                |test: ExprView| StmtView::DoWhile { body: stmts, condition: test },
                body.used + 1,
            ),
        },
    }
}

/// The head of a `FOR`, after the keyword: the variable, the start value, `TO`
/// and the end value.
pub open spec fn for_head(inp: Input, pos: int) -> Parsed<(Seq<char>, ExprView, ExprView)>
    decreases left(inp, pos), 138nat,
{
    if !inside(inp, pos) {
        failed(Seq::empty(), 0)
    } else {
        match identifier(inp, pos, "Expected loop variable"@).result {
            Err(e) => failed(e, 0),
            Ok(variable) => match expected(
                inp,
                pos + 1,
                TokenType::Assign,
                "Expected '=' or ':=' after loop variable"@,
            ).result {
                Err(e) => failed(e, 1),
                Ok(_) => {
                    let start = expression(inp, pos + 2);
                    match start.result {
                        Err(e) => failed(e, start.used + 2),
                        Ok(from) => match expected(
                            inp,
                            pos + 2 + start.used,
                            TokenType::To,
                            "Expected TO in FOR loop"@,
                        ).result {
                            Err(e) => failed(e, start.used + 2),
                            Ok(_) => wrapped(
                                expression(inp, pos + 3 + start.used),
                                |to: ExprView| (variable, from, to),
                                start.used + 3,
                            ),
                        },
                    }
                },
            },
        }
    }
}

/// The rest of a `FOR` after its end value: an optional `STEP` with its value,
/// the statements and `NEXT`; without `NEXT` the `FOR`, whose keyword is the
/// token at `keyword`, is reported as open.
pub open spec fn for_tail(inp: Input, pos: int, keyword: int) -> Parsed<
    (Option<ExprView>, Seq<StmtView>),
>
    decreases left(inp, pos), 138nat,
{
    let step = if inside(inp, pos) && holds(inp, pos, TokenType::Step) {
        wrapped(expression(inp, pos + 1), |tree: ExprView| Some(tree), 1)
    } else {
        done(None, 0)
    };
    match step.result {
        Err(e) => failed(e, step.used),
        Ok(by) => {
            let body = block(inp, pos + step.used, Stop::Next);
            match body.result {
                Err(e) => failed(e, body.used + step.used),
                Ok(stmts) => if holds(inp, pos + step.used + body.used, TokenType::Next) {
                    done((by, stmts), body.used + step.used + 1)
                } else {
                    failed(error_at(inp, keyword, "Unterminated FOR"@), body.used + step.used)
                },
            }
        },
    }
}

/// The rest of a `FOR`, after the keyword: the variable, the start value, `TO`,
/// the end value, an optional `STEP` with its value, the statements and `NEXT`.
pub open spec fn for_statement(inp: Input, pos: int) -> Parsed<StmtView>
    decreases left(inp, pos), 140nat,
{
    let head = for_head(inp, pos);
    match head.result {
        Err(e) => failed(e, head.used),
        Ok(range) => wrapped(
            for_tail(inp, pos + head.used, pos - 1),
            |rest: (Option<ExprView>, Seq<StmtView>)|
                StmtView::For {
                    variable: range.0,
                    start: range.1,
                    end: range.2,
                    step: rest.0,
                    body: rest.1,
                },
            head.used,
        ),
    }
}

/// The statements of a `LOOP`, up to `ENDLOOP`, which is taken; and whether
/// `ENDLOOP` was there.
pub open spec fn loop_body(inp: Input, pos: int) -> Parsed<(Seq<StmtView>, bool)>
    decreases left(inp, pos), 135nat,
{
    if !inside(inp, pos) || ended(inp, pos) {
        done((Seq::empty(), false), 0)
    } else if reads(inp, pos, "ENDLOOP"@) {
        done((Seq::empty(), true), 1)
    } else {
        let first = declaration(inp, pos);
        match first.result {
            Err(e) => failed(e, first.used),
            Ok(tree) => {
                let rest = loop_body(inp, pos + at_least_one_token(first.used));
                Parsed {
                    result: match rest.result {
                        Ok(more) => Ok((seq![tree] + more.0, more.1)),
                        Err(e) => Err(e),
                    },
                    used: rest.used + at_least_one_token(first.used),
                }
            },
        }
    }
}

/// The rest of a `LOOP`, after the keyword.
pub open spec fn loop_statement(inp: Input, pos: int) -> Parsed<StmtView>
    decreases left(inp, pos), 140nat,
{
    let body = loop_body(inp, pos);
    match body.result {
        Err(e) => failed(e, body.used),
        Ok(found) => if found.1 {
            done(StmtView::Loop { body: found.0 }, body.used)
        } else {
            failed(unterminated(inp, pos, "Unterminated LOOP"@), body.used)
        },
    }
}

/// The labels of a `CASE`, each with its value and its statements.
pub open spec fn case_arms(inp: Input, pos: int) -> Parsed<Seq<(ExprView, Seq<StmtView>)>>
    decreases left(inp, pos), 136nat,
{
    if inside(inp, pos) && holds(inp, pos, TokenType::Case) {
        let value = expression(inp, pos + 1);
        match value.result {
            Err(e) => failed(e, value.used + 1),
            Ok(label) => {
                let gap = newlines(inp, pos + 1 + value.used);
                let body = block(inp, pos + 1 + value.used + gap, Stop::Label);
                match body.result {
                    Err(e) => failed(e, body.used + gap + value.used + 1),
                    Ok(stmts) => joined(
                        seq![(label, stmts)],
                        case_arms(inp, pos + 1 + value.used + gap + body.used),
                        body.used + gap + value.used + 1,
                    ),
                }
            },
        }
    } else {
        done(Seq::empty(), 0)
    }
}

/// The head of a `CASE`, after the keyword: the value and the labels.
pub open spec fn case_head(inp: Input, pos: int) -> Parsed<
    (ExprView, Seq<(ExprView, Seq<StmtView>)>),
>
    decreases left(inp, pos), 138nat,
{
    let value = expression(inp, pos);
    match value.result {
        Err(e) => failed(e, value.used),
        Ok(expr) => {
            let gap = newlines(inp, pos + value.used);
            wrapped(
                case_arms(inp, pos + value.used + gap),
                |cases: Seq<(ExprView, Seq<StmtView>)>| (expr, cases),
                value.used + gap,
            )
        },
    }
}

/// The `OTHERWISE` of a `CASE` with its statements, where there is one.
pub open spec fn otherwise_part(inp: Input, pos: int) -> Parsed<Option<Seq<StmtView>>>
    decreases left(inp, pos), 137nat,
{
    if inside(inp, pos) && holds(inp, pos, TokenType::Otherwise) {
        wrapped(
            block(inp, pos + 1 + newlines(inp, pos + 1), Stop::EndCase),
            |stmts: Seq<StmtView>| Some(stmts),
            1 + newlines(inp, pos + 1),
        )
    } else {
        done(None, 0)
    }
}

/// The rest of a `CASE` after its labels: an optional `OTHERWISE` with its
/// statements, and `ENDCASE`; at the end of the input the `CASE`, whose keyword
/// is the token at `keyword`, is reported as open.
pub open spec fn case_tail(inp: Input, pos: int, keyword: int) -> Parsed<Option<Seq<StmtView>>>
    decreases left(inp, pos), 138nat,
{
    let other = otherwise_part(inp, pos);
    match other.result {
        Err(e) => failed(e, other.used),
        Ok(otherwise) => if ended(inp, pos + other.used) {
            failed(error_at(inp, keyword, "Unterminated CASE"@), other.used)
        } else {
            match expected(inp, pos + other.used, TokenType::EndCase, "Expected ENDCASE"@).result {
                Err(e) => failed(e, other.used),
                Ok(_) => done(otherwise, other.used + 1),
            }
        },
    }
}

/// The rest of a `CASE`, after the keyword: the value, the labels, an optional
/// `OTHERWISE` with its statements, and `ENDCASE`.
pub open spec fn case_statement(inp: Input, pos: int) -> Parsed<StmtView>
    decreases left(inp, pos), 140nat,
{
    if !inside(inp, pos) {
        failed(Seq::empty(), 0)
    } else {
        let head = case_head(inp, pos);
        match head.result {
            Err(e) => failed(e, head.used),
            Ok(found) => wrapped(
                case_tail(inp, pos + head.used, pos - 1),
                |otherwise: Option<Seq<StmtView>>|
                    StmtView::Case { expr: found.0, cases: found.1, otherwise },
                head.used,
            ),
        }
    }
}

/// The rest of a `USE`, after the keyword: the file name, as a string or a
/// name, and an optional `ALIAS` with its name.
pub open spec fn db_use_statement(inp: Input, pos: int) -> Parsed<StmtView> {
    let file = if holds(inp, pos, TokenType::String) {
        done(inp.tokens[pos].lexeme, 1)
    } else {
        identifier(inp, pos, "Expected database filename"@)
    };
    match file.result {
        Err(e) => failed(e, file.used),
        Ok(filename) => if reads(inp, pos + 1, "ALIAS"@) {
            let at = pos + 1 + step_over(inp, pos + 1);
            match identifier(inp, at, "Expected alias name"@).result {
                Err(e) => failed(e, 1 + step_over(inp, pos + 1)),
                Ok(alias) => done(
                    StmtView::DbUse { filename, alias: Some(alias) },
                    2 + step_over(inp, pos + 1),
                ),
            }
        } else {
            done(StmtView::DbUse { filename, alias: None }, 1)
        },
    }
}

/// The rest of a `REPLACE`, after the keyword: the field, an optional `WITH`,
/// and the value.
pub open spec fn replace_statement(inp: Input, pos: int) -> Parsed<StmtView>
    decreases left(inp, pos), 140nat,
{
    match identifier(inp, pos, "Expected field name"@).result {
        Err(e) => failed(e, 0),
        Ok(field) => {
            let skip = if reads(inp, pos + 1, "WITH"@) {
                step_over(inp, pos + 1)
            } else {
                0
            };
            wrapped(
                expression(inp, pos + 1 + skip),
                |value: ExprView| StmtView::Replace { field, value },
                1 + skip,
            )
        },
    }
}

/// The rest of a `?`, after the mark: the expressions to print, as a call of
/// `?`.
pub open spec fn print_statement(inp: Input, pos: int) -> Parsed<StmtView>
    decreases left(inp, pos), 140nat,
{
    let args = if inside(inp, pos) && !ended(inp, pos) && kind_at(inp, pos)
        != TokenType::Newline {
        expr_list(inp, pos)
    } else {
        done(Seq::empty(), 0)
    };
    wrapped(
        args,
        |items: Seq<ExprView>| StmtView::Expression(ExprView::Call { name: "?"@, args: items }),
        0,
    )
}

/// A statement that opens no block: a database statement, a `?`, or an
/// expression.
pub open spec fn simple_statement(inp: Input, pos: int) -> Parsed<StmtView>
    decreases left(inp, pos), 128nat,
{
    if !inside(inp, pos) {
        failed(Seq::empty(), 0)
    } else if holds(inp, pos, TokenType::Use) {
        shift(db_use_statement(inp, pos + 1), 1)
    } else if holds(inp, pos, TokenType::DbSkip) {
        wrapped(
            optional_expression(inp, pos + 1),
            |count: Option<ExprView>| StmtView::DbSkip(count),
            1,
        )
    } else if holds(inp, pos, TokenType::DbGoTop) {
        done(StmtView::DbGoTop, 1)
    } else if holds(inp, pos, TokenType::DbGoBottom) {
        done(StmtView::DbGoBottom, 1)
    } else if holds(inp, pos, TokenType::DbSeek) {
        wrapped(expression(inp, pos + 1), |key: ExprView| StmtView::DbSeek { key }, 1)
    } else if holds(inp, pos, TokenType::Replace) {
        shift(replace_statement(inp, pos + 1), 1)
    } else if holds(inp, pos, TokenType::QuestionMark) {
        shift(print_statement(inp, pos + 1), 1)
    } else {
        wrapped(expression(inp, pos), |tree: ExprView| StmtView::Expression(tree), 0)
    }
}

/// A statement.
pub open spec fn statement(inp: Input, pos: int) -> Parsed<StmtView>
    decreases left(inp, pos), 129nat,
{
    if !inside(inp, pos) {
        failed(Seq::empty(), 0)
    } else if holds(inp, pos, TokenType::Local) {
        shift(var_declaration(inp, pos + 1, VarScope::Local), 1)
    } else if holds(inp, pos, TokenType::Return) {
        wrapped(
            optional_expression(inp, pos + 1),
            |value: Option<ExprView>| StmtView::Return(value),
            1,
        )
    } else if holds(inp, pos, TokenType::If) {
        shift(if_statement(inp, pos + 1), 1)
    } else if holds(inp, pos, TokenType::While) {
        shift(while_statement(inp, pos + 1), 1)
    } else if holds(inp, pos, TokenType::Do) {
        shift(do_while_statement(inp, pos + 1), 1)
    } else if holds(inp, pos, TokenType::For) {
        shift(for_statement(inp, pos + 1), 1)
    } else if holds(inp, pos, TokenType::Loop) {
        shift(loop_statement(inp, pos + 1), 1)
    } else if holds(inp, pos, TokenType::Exit) {
        done(StmtView::Exit, 1)
    } else if holds(inp, pos, TokenType::Case) {
        shift(case_statement(inp, pos + 1), 1)
    } else {
        simple_statement(inp, pos)
    }
}

/// A declaration of variables or of a function, or a statement.
pub open spec fn declaration(inp: Input, pos: int) -> Parsed<StmtView>
    decreases left(inp, pos), 130nat,
{
    if !inside(inp, pos) {
        failed(Seq::empty(), 0)
    } else if holds(inp, pos, TokenType::Local) {
        shift(var_declaration(inp, pos + 1, VarScope::Local), 1)
    } else if holds(inp, pos, TokenType::Static) {
        shift(var_declaration(inp, pos + 1, VarScope::Static), 1)
    } else if holds(inp, pos, TokenType::Private) {
        shift(var_declaration(inp, pos + 1, VarScope::Private), 1)
    } else if holds(inp, pos, TokenType::Public) {
        shift(var_declaration(inp, pos + 1, VarScope::Public), 1)
    } else if holds(inp, pos, TokenType::Function) {
        shift(function_declaration(inp, pos + 1, false), 1)
    } else if holds(inp, pos, TokenType::Procedure) {
        shift(function_declaration(inp, pos + 1, true), 1)
    } else {
        statement(inp, pos)
    }
}

/// The whole program from `pos` on: declarations to the end of the input.
pub open spec fn program(inp: Input, pos: int) -> Parsed<Seq<StmtView>> {
    block(inp, pos, Stop::Never)
}

} // verus!

//! The expressions of the grammar, parsed.

use super::grammar::{
    assignment, binary, binary_rest, call, call_rest, done, expr_list, expression, failed,
    finish_call, inside, joined, looseness, operand, primary, shift, suffix, unary, Precedence,
};
use super::{
    augmented, follows, gives_expr, gives_exprs, lemma_exprs_push, lemma_joined_step, moved,
    tighter_level, token_debug, Parser,
};
use crate::ast::{exprs_model, BinaryOp, Expr, ExprView, UnaryOp};
use crate::number::ONE;
use crate::token::TokenType;
use vstd::prelude::*;

verus! {

impl Parser {
    pub(super) fn expression(&mut self) -> (r: Result<Expr, String>)
        requires
            old(self).well_formed(),
        ensures
            gives_expr(
                *old(self),
                *final(self),
                r,
                expression(old(self).input(), old(self).position()),
            ),
            r is Ok ==> final(self).position() > old(self).position(),
        decreases old(self).remaining(), 100nat,
    {
        self.assignment()
    }

    /// Expressions, separated by commas.
    pub(super) fn expression_list(&mut self) -> (r: Result<Vec<Expr>, String>)
        requires
            old(self).well_formed(),
        ensures
            gives_exprs(
                *old(self),
                *final(self),
                r,
                expr_list(old(self).input(), old(self).position()),
            ),
        decreases old(self).remaining(), 110nat,
    {
        let mut items: Vec<Expr> = Vec::new();
        let ghost inp = self.input();
        let ghost start = self.position();
        proof {
            assert(exprs_model(&items) =~= Seq::<ExprView>::empty());
            assert(joined(Seq::<ExprView>::empty(), expr_list(inp, start), 0) == expr_list(
                inp,
                start,
            )) by {
                match expr_list(inp, start).result {
                    Ok(found) => {
                        assert(Seq::<ExprView>::empty() + found =~= found);
                    },
                    Err(e) => {},
                }
            }
        }
        loop
            invariant_except_break
                follows(*old(self), *self),
                inp == old(self).input(),
                start == old(self).position(),
                expr_list(inp, start) == joined(
                    exprs_model(&items),
                    expr_list(inp, self.position()),
                    (self.position() - start) as nat,
                ),
            ensures
                follows(*old(self), *self),
                inp == old(self).input(),
                start == old(self).position(),
                expr_list(inp, start) == done(
                    exprs_model(&items),
                    (self.position() - start) as nat,
                ),
            decreases self.remaining(),
        {
            let ghost at = self.position();
            let ghost prefix = exprs_model(&items);
            let item = self.expression()?;
            let ghost earlier = items;
            items.push(item);
            proof {
                lemma_exprs_push(&earlier, &items, item);
            }
            let ghost after = self.position();
            if !self.match_token(TokenType::Comma) {
                break ;
            }
            proof {
                lemma_joined_step(
                    prefix,
                    item@,
                    expr_list(inp, self.position()),
                    (at - start) as nat,
                    (after + 1 - at) as nat,
                );
            }
        }
        Ok(items)
    }

    pub(super) fn assignment(&mut self) -> (r: Result<Expr, String>)
        requires
            old(self).well_formed(),
        ensures
            gives_expr(
                *old(self),
                *final(self),
                r,
                assignment(old(self).input(), old(self).position()),
            ),
            r is Ok ==> final(self).position() > old(self).position(),
        decreases old(self).remaining(), 95nat,
    {
        proof {
            assert(inside(old(self).input(), old(self).position()));
        }
        let ghost inp = self.input();
        let ghost start = self.position();
        let expr = self.binary(Precedence::Or)?;
        let ghost first = binary(inp, start, Precedence::Or);
        let ghost at = self.position();
        let ghost target = expr@;
        assert(first.result == Ok::<ExprView, Seq<char>>(target) && at == start + first.used);
        if self.match_token(TokenType::Assign) {
            match expr {
                Expr::Variable(name) => {
                    let value = self.assignment()?;
                    let tree = Expr::Assign { name, value: Box::new(value) };
                    assert(assignment(inp, start).result == Ok::<ExprView, Seq<char>>(tree@));
                    Ok(tree)
                },
                Expr::Index { object, index } => {
                    let ghost array = object.model();
                    let ghost place = index.model();
                    assert(target == (ExprView::Index {
                        object: Box::new(array),
                        index: Box::new(place),
                    }));
                    let value = self.assignment()?;
                    let mut args: Vec<Expr> = Vec::new();
                    let ghost parts = seq![array, place, value@];
                    args.push(*object);
                    args.push(*index);
                    args.push(value);
                    assert(exprs_model(&args) =~= parts);
                    let tree = Expr::Call { name: "__SET_INDEX__".to_owned(), args };
                    assert(assignment(inp, start).result == Ok::<ExprView, Seq<char>>(tree@));
                    Ok(tree)
                },
                _ => {
                    assert(assignment(inp, start) == failed::<ExprView>(
                        "Invalid assignment target"@,
                        first.used + 1,
                    ));
                    Err("Invalid assignment target".to_owned())
                },
            }
        } else {
            let operator = if self.is_at_end() {
                None
            } else {
                augmented(self.peek().token_type)
            };
            match operator {
                Some(op) => {
                    self.advance();
                    match expr {
                        Expr::Variable(name) => {
                            let value = self.assignment()?;
                            let variable = Expr::Variable(name.clone());
                            assert(variable@ == ExprView::Variable(name@));
                            let ghost right = value@;
                            let combined = Expr::Binary {
                                left: Box::new(variable),
                                operator: op,
                                right: Box::new(value),
                            };
                            assert(combined@ == (ExprView::Binary {
                                left: Box::new(ExprView::Variable(name@)),
                                operator: op,
                                right: Box::new(right),
                            }));
                            let tree = Expr::Assign { name, value: Box::new(combined) };
                            assert(assignment(inp, start).result == Ok::<ExprView, Seq<char>>(
                                tree@,
                            ));
                            Ok(tree)
                        },
                        _ => {
                            assert(assignment(inp, start) == failed::<ExprView>(
                                "Invalid augmented assignment target"@,
                                first.used + 1,
                            ));
                            Err("Invalid augmented assignment target".to_owned())
                        },
                    }
                },
                None => {
                    let step = if self.match_token(TokenType::Increment) {
                        Some(BinaryOp::Add)
                    } else if self.match_token(TokenType::Decrement) {
                        Some(BinaryOp::Subtract)
                    } else {
                        None
                    };
                    match step {
                        Some(op) => match expr {
                            Expr::Variable(name) => {
                                let variable = Expr::Variable(name.clone());
                                assert(variable@ == ExprView::Variable(name@));
                                let one = Expr::Number(ONE);
                                assert(one@ == ExprView::Number(ONE));
                                let combined = Expr::Binary {
                                    left: Box::new(variable),
                                    operator: op,
                                    right: Box::new(one),
                                };
                                assert(combined@ == (ExprView::Binary {
                                    left: Box::new(ExprView::Variable(name@)),
                                    operator: op,
                                    right: Box::new(ExprView::Number(ONE)),
                                }));
                                let tree = Expr::Assign { name, value: Box::new(combined) };
                                assert(assignment(inp, start).result == Ok::<
                                    ExprView,
                                    Seq<char>,
                                >(tree@));
                                Ok(tree)
                            },
                            _ => {
                                assert(assignment(inp, start) == failed::<ExprView>(
                                    "Invalid increment/decrement target"@,
                                    first.used + 1,
                                ));
                                Err("Invalid increment/decrement target".to_owned())
                            },
                        },
                        None => {
                            assert(assignment(inp, start) == first);
                            Ok(expr)
                        },
                    }
                },
            }
        }
    }

    /// An operand of the level `level`.
    pub(super) fn operand(&mut self, level: Precedence) -> (r: Result<Expr, String>)
        requires
            old(self).well_formed(),
        ensures
            gives_expr(
                *old(self),
                *final(self),
                r,
                operand(old(self).input(), old(self).position(), level),
            ),
            r is Ok ==> final(self).position() > old(self).position(),
        decreases old(self).remaining(), 60 + 3 * looseness(level),
    {
        match level {
            Precedence::Power => self.unary(),
            _ => self.binary(tighter_level(level)),
        }
    }

    /// An expression of the level `level`.
    pub(super) fn binary(&mut self, level: Precedence) -> (r: Result<Expr, String>)
        requires
            old(self).well_formed(),
        ensures
            gives_expr(
                *old(self),
                *final(self),
                r,
                binary(old(self).input(), old(self).position(), level),
            ),
            r is Ok ==> final(self).position() > old(self).position(),
        decreases old(self).remaining(), 60 + 3 * looseness(level) + 2,
    {
        let ghost inp = self.input();
        let ghost start = self.position();
        let mut expr = self.operand(level)?;
        loop
            invariant_except_break
                follows(*old(self), *self),
                inp == old(self).input(),
                start == old(self).position(),
                self.position() > start,
                binary(inp, start, level) == shift(
                    binary_rest(inp, self.position(), level, expr@),
                    (self.position() - start) as nat,
                ),
            ensures
                follows(*old(self), *self),
                inp == old(self).input(),
                start == old(self).position(),
                self.position() > start,
                binary(inp, start, level) == done(expr@, (self.position() - start) as nat),
            decreases self.remaining(),
        {
            let ghost so_far = expr@;
            match self.match_binary_op(level) {
                Some(op) => {
                    let right = self.operand(level)?;
                    expr = Expr::Binary {
                        left: Box::new(expr),
                        operator: op,
                        right: Box::new(right),
                    };
                },
                None => {
                    break ;
                },
            }
        }
        Ok(expr)
    }

    pub(super) fn unary(&mut self) -> (r: Result<Expr, String>)
        requires
            old(self).well_formed(),
        ensures
            gives_expr(
                *old(self),
                *final(self),
                r,
                unary(old(self).input(), old(self).position()),
            ),
            r is Ok ==> final(self).position() > old(self).position(),
        decreases old(self).remaining(), 55nat,
    {
        if self.match_token(TokenType::Not) {
            let operand = self.unary()?;
            return Ok(Expr::Unary { operator: UnaryOp::Not, operand: Box::new(operand) });
        }
        if self.match_token(TokenType::Minus) {
            let operand = self.unary()?;
            return Ok(Expr::Unary { operator: UnaryOp::Negate, operand: Box::new(operand) });
        }
        self.call()
    }

    /// One call or index behind `callee`, where there is one.
    pub(super) fn suffix(&mut self, callee: Expr) -> (r: Result<(Expr, bool), String>)
        requires
            old(self).well_formed(),
        ensures
            moved(
                *old(self),
                *final(self),
                suffix(old(self).input(), old(self).position(), callee@).used,
            ),
            match r {
                Ok(found) => suffix(old(self).input(), old(self).position(), callee@).result
                    == Ok::<(ExprView, bool), Seq<char>>((found.0@, found.1)) && (found.1
                    ==> final(self).position() > old(self).position()),
                Err(e) => suffix(old(self).input(), old(self).position(), callee@).result
                    == Err::<(ExprView, bool), Seq<char>>(e@),
            },
        decreases old(self).remaining(), 48nat,
    {
        proof {
            self.lemma_inside();
        }
        if self.match_token(TokenType::LeftParen) {
            let tree = self.finish_call(callee)?;
            Ok((tree, true))
        } else if self.match_token(TokenType::LeftBracket) {
            let index = self.expression()?;
            self.consume(TokenType::RightBracket, "Expected ']' after index")?;
            Ok((Expr::Index { object: Box::new(callee), index: Box::new(index) }, true))
        } else {
            Ok((callee, false))
        }
    }

    pub(super) fn call(&mut self) -> (r: Result<Expr, String>)
        requires
            old(self).well_formed(),
        ensures
            gives_expr(
                *old(self),
                *final(self),
                r,
                call(old(self).input(), old(self).position()),
            ),
            r is Ok ==> final(self).position() > old(self).position(),
        decreases old(self).remaining(), 50nat,
    {
        let ghost inp = self.input();
        let ghost start = self.position();
        proof {
            self.lemma_inside();
        }
        let mut expr = self.primary()?;
        loop
            invariant_except_break
                follows(*old(self), *self),
                inp == old(self).input(),
                start == old(self).position(),
                self.position() > start,
                call(inp, start) == shift(
                    call_rest(inp, self.position(), expr@),
                    (self.position() - start) as nat,
                ),
            ensures
                follows(*old(self), *self),
                inp == old(self).input(),
                start == old(self).position(),
                self.position() > start,
                call(inp, start) == done(expr@, (self.position() - start) as nat),
            decreases self.remaining(),
        {
            let ghost at = self.position();
            let ghost callee = expr@;
            match self.suffix(expr) {
                Err(e) => {
                    assert(call_rest(inp, at, callee) == failed::<ExprView>(
                        e@,
                        (self.position() - at) as nat,
                    ));
                    return Err(e);
                },
                Ok(found) => {
                    expr = found.0;
                    if !found.1 {
                        assert(call_rest(inp, at, callee) == done(callee, 0));
                        break ;
                    }
                    assert(call_rest(inp, at, callee) == shift(
                        call_rest(inp, self.position(), expr@),
                        (self.position() - at) as nat,
                    ));
                },
            }
        }
        Ok(expr)
    }

    /// The rest of a call, after the opening parenthesis.
    pub(super) fn finish_call(&mut self, callee: Expr) -> (r: Result<Expr, String>)
        requires
            old(self).well_formed(),
        ensures
            gives_expr(
                *old(self),
                *final(self),
                r,
                finish_call(old(self).input(), old(self).position(), callee@),
            ),
        decreases old(self).remaining(), 120nat,
    {
        let name = match callee {
            Expr::Variable(n) => n,
            _ => {
                return Err("Invalid function call".to_owned());
            },
        };
        let args = if self.check(TokenType::RightParen) {
            let none: Vec<Expr> = Vec::new();
            assert(exprs_model(&none) =~= Seq::<ExprView>::empty());
            none
        } else {
            self.expression_list()?
        };
        self.consume(TokenType::RightParen, "Expected ')' after arguments")?;
        Ok(Expr::Call { name, args })
    }

    pub(super) fn primary(&mut self) -> (r: Result<Expr, String>)
        requires
            old(self).well_formed(),
        ensures
            gives_expr(
                *old(self),
                *final(self),
                r,
                primary(old(self).input(), old(self).position()),
            ),
            r is Ok ==> final(self).position() > old(self).position(),
        decreases old(self).remaining(), 45nat,
    {
        proof {
            assert(inside(old(self).input(), old(self).position()));
        }
        if self.match_token(TokenType::True) {
            return Ok(Expr::Boolean(true));
        }
        if self.match_token(TokenType::False) {
            return Ok(Expr::Boolean(false));
        }
        if self.match_token(TokenType::Nil) {
            return Ok(Expr::Nil);
        }
        if self.match_token(TokenType::Number) {
            return match self.number_value() {
                Some(bits) => Ok(Expr::Number(bits)),
                None => Err("Invalid number".to_owned()),
            };
        }
        if self.match_token(TokenType::String) {
            return Ok(Expr::String(self.previous().lexeme.clone()));
        }
        if self.match_token(TokenType::Identifier) {
            return Ok(Expr::Variable(self.previous().lexeme.clone()));
        }
        if self.match_token(TokenType::LeftParen) {
            let expr = self.expression()?;
            self.consume(TokenType::RightParen, "Expected ')' after expression")?;
            return Ok(expr);
        }
        if self.match_token(TokenType::LeftBrace) {
            let elements = if self.check(TokenType::RightBrace) {
                let none: Vec<Expr> = Vec::new();
                assert(exprs_model(&none) =~= Seq::<ExprView>::empty());
                none
            } else {
                self.expression_list()?
            };
            self.consume(TokenType::RightBrace, "Expected '}' after array elements")?;
            return Ok(Expr::Array(elements));
        }
        let mut message = "Unexpected token: ".to_owned();
        message.append(token_debug(self.peek()).as_str());
        Err(message)
    }
}

} // verus!

//! The loops and the `CASE` of the grammar, parsed.

use super::grammar::{
    block, case_arms, case_head, case_statement, case_tail, declaration, done, expression, failed,
    for_head, for_statement, for_tail, joined, loop_body, loop_statement, otherwise_part, Stop,
};
use super::{follows, gives_stmt, lemma_joined_step, lemma_stmts_push, moved, with_body, Parser};
use crate::ast::{
    arms_model, optional_expr_model, optional_stmts_model, stmts_model, Expr, ExprView, Stmt,
    StmtView,
};

use crate::text::located_message;
use crate::token::TokenType;
use vstd::prelude::*;

verus! {

impl Parser {
    /// The head of a `FOR`, after the keyword.
    pub(super) fn for_head(&mut self) -> (r: Result<(String, Expr, Expr), String>)
        requires
            old(self).well_formed(),
        ensures
            moved(*old(self), *final(self), for_head(old(self).input(), old(self).position()).used),
            match r {
                Ok(range) => for_head(old(self).input(), old(self).position()).result == Ok::<
                    (Seq<char>, ExprView, ExprView),
                    Seq<char>,
                >((range.0@, range.1@, range.2@)),
                Err(e) => for_head(old(self).input(), old(self).position()).result == Err::<
                    (Seq<char>, ExprView, ExprView),
                    Seq<char>,
                >(e@),
            },
        decreases old(self).remaining(), 138nat,
    {
        proof {
            self.lemma_inside();
        }
        let variable = self.consume_identifier("Expected loop variable")?;
        self.consume(TokenType::Assign, "Expected '=' or ':=' after loop variable")?;
        let start = self.expression()?;
        self.consume(TokenType::To, "Expected TO in FOR loop")?;
        let end = self.expression()?;
        Ok((variable, start, end))
    }

    /// The rest of a `FOR` after its end value; `line` and `column` are the
    /// place of its keyword.
    pub(super) fn for_tail(&mut self, line: usize, column: usize, Ghost(keyword): Ghost<int>) -> (r:
        Result<(Option<Expr>, Vec<Stmt>), String>)
        requires
            old(self).well_formed(),
            0 <= keyword < old(self).input().tokens.len(),
            old(self).input().tokens[keyword].line == line,
            old(self).input().tokens[keyword].column == column,
        ensures
            moved(
                *old(self),
                *final(self),
                for_tail(old(self).input(), old(self).position(), keyword).used,
            ),
            match r {
                Ok(rest) => for_tail(old(self).input(), old(self).position(), keyword).result
                    == Ok::<(Option<ExprView>, Seq<StmtView>), Seq<char>>(
                    (optional_expr_model(&rest.0), stmts_model(&rest.1)),
                ),
                Err(e) => for_tail(old(self).input(), old(self).position(), keyword).result
                    == Err::<(Option<ExprView>, Seq<StmtView>), Seq<char>>(e@),
            },
        decreases old(self).remaining(), 138nat,
    {
        proof {
            self.lemma_inside();
        }
        let step = if self.match_token(TokenType::Step) {
            Some(self.expression()?)
        } else {
            None
        };
        let body = self.block(Stop::Next)?;
        if !self.match_token(TokenType::Next) {
            return Err(located_message("Unterminated FOR", line, column));
        }
        Ok((step, body))
    }

    /// The rest of a `FOR`, after the keyword.
    pub(super) fn for_statement(&mut self) -> (r: Result<Stmt, String>)
        requires
            old(self).well_formed(),
            old(self).position() > 0,
        ensures
            gives_stmt(
                *old(self),
                *final(self),
                r,
                for_statement(old(self).input(), old(self).position()),
            ),
        decreases old(self).remaining(), 140nat,
    {
        let opening_line = self.previous().line;
        let opening_column = self.previous().column;
        let ghost keyword = self.position() - 1;
        let (variable, start, end) = self.for_head()?;
        let (step, body) = self.for_tail(opening_line, opening_column, Ghost(keyword))?;
        Ok(Stmt::For { variable, start, end, step, body })
    }

    /// The statements of a `LOOP`, up to `ENDLOOP`, and whether `ENDLOOP` was
    /// there.
    pub(super) fn loop_body(&mut self) -> (r: Result<(Vec<Stmt>, bool), String>)
        requires
            old(self).well_formed(),
        ensures
            moved(*old(self), *final(self), loop_body(old(self).input(), old(self).position()).used),
            match r {
                Ok(found) => loop_body(old(self).input(), old(self).position()).result == Ok::<
                    (Seq<StmtView>, bool),
                    Seq<char>,
                >((stmts_model(&found.0), found.1)),
                Err(e) => loop_body(old(self).input(), old(self).position()).result == Err::<
                    (Seq<StmtView>, bool),
                    Seq<char>,
                >(e@),
            },
        decreases old(self).remaining(), 135nat,
    {
        let mut body: Vec<Stmt> = Vec::new();
        let mut closed = false;
        let ghost inp = self.input();
        let ghost start = self.position();
        proof {
            self.lemma_inside();
            assert(stmts_model(&body) =~= Seq::<StmtView>::empty());
            assert(with_body(Seq::<StmtView>::empty(), loop_body(inp, start), 0) == loop_body(
                inp,
                start,
            )) by {
                match loop_body(inp, start).result {
                    Ok(found) => {
                        assert(Seq::<StmtView>::empty() + found.0 =~= found.0);
                    },
                    Err(e) => {},
                }
            }
        }
        loop
            invariant_except_break
                follows(*old(self), *self),
                inp == old(self).input(),
                start == old(self).position(),
                !closed,
                loop_body(inp, start) == with_body(
                    stmts_model(&body),
                    loop_body(inp, self.position()),
                    (self.position() - start) as nat,
                ),
            ensures
                follows(*old(self), *self),
                inp == old(self).input(),
                start == old(self).position(),
                loop_body(inp, start) == done(
                    (stmts_model(&body), closed),
                    (self.position() - start) as nat,
                ),
            decreases self.remaining(),
        {
            let ghost at = self.position();
            let ghost prefix = stmts_model(&body);
            if self.is_at_end() {
                proof {
                    assert(loop_body(inp, at) == done((Seq::<StmtView>::empty(), false), 0));
                    assert(prefix + Seq::<StmtView>::empty() =~= prefix);
                }
                break ;
            }
            if self.at_word("ENDLOOP") {
                self.advance();
                closed = true;
                proof {
                    assert(loop_body(inp, at) == done((Seq::<StmtView>::empty(), true), 1));
                    assert(prefix + Seq::<StmtView>::empty() =~= prefix);
                }
                break ;
            }
            let stmt = match self.declaration() {
                Ok(stmt) => stmt,
                Err(e) => {
                    proof {
                        assert(loop_body(inp, at) == failed::<(Seq<StmtView>, bool)>(
                            e@,
                            (self.position() - at) as nat,
                        ));
                    }
                    return Err(e);
                },
            };
            let ghost earlier = body;
            body.push(stmt);
            proof {
                lemma_stmts_push(&earlier, &body, stmt);
                let rest = loop_body(inp, self.position());
                assert(loop_body(inp, at) == with_body(
                    seq![stmt@],
                    rest,
                    (self.position() - at) as nat,
                ));
                match rest.result {
                    Ok(found) => {
                        assert(prefix + (seq![stmt@] + found.0) =~= (prefix + seq![stmt@])
                            + found.0);
                    },
                    Err(e) => {},
                }
            }
        }
        Ok((body, closed))
    }

    /// The rest of a `LOOP`, after the keyword: statements up to `ENDLOOP`.
    pub(super) fn loop_statement(&mut self) -> (r: Result<Stmt, String>)
        requires
            old(self).well_formed(),
            old(self).position() > 0,
        ensures
            gives_stmt(
                *old(self),
                *final(self),
                r,
                loop_statement(old(self).input(), old(self).position()),
            ),
        decreases old(self).remaining(), 140nat,
    {
        let opening_line = self.previous().line;
        let opening_column = self.previous().column;
        let (body, closed) = self.loop_body()?;
        if !closed {
            return Err(located_message("Unterminated LOOP", opening_line, opening_column));
        }
        Ok(Stmt::Loop { body })
    }

    /// The labels of a `CASE`.
    pub(super) fn case_arms(&mut self) -> (r: Result<Vec<(Expr, Vec<Stmt>)>, String>)
        requires
            old(self).well_formed(),
        ensures
            moved(
                *old(self),
                *final(self),
                case_arms(old(self).input(), old(self).position()).used,
            ),
            match r {
                Ok(arms) => case_arms(old(self).input(), old(self).position()).result == Ok::<
                    Seq<(ExprView, Seq<StmtView>)>,
                    Seq<char>,
                >(arms_model(&arms)),
                Err(e) => case_arms(old(self).input(), old(self).position()).result == Err::<
                    Seq<(ExprView, Seq<StmtView>)>,
                    Seq<char>,
                >(e@),
            },
        decreases old(self).remaining(), 136nat,
    {
        let mut cases: Vec<(Expr, Vec<Stmt>)> = Vec::new();
        let ghost inp = self.input();
        let ghost start = self.position();
        proof {
            assert(arms_model(&cases) =~= Seq::<(ExprView, Seq<StmtView>)>::empty());
            assert(joined(
                Seq::<(ExprView, Seq<StmtView>)>::empty(),
                case_arms(inp, start),
                0,
            ) == case_arms(inp, start)) by {
                match case_arms(inp, start).result {
                    Ok(items) => {
                        assert(Seq::<(ExprView, Seq<StmtView>)>::empty() + items =~= items);
                    },
                    Err(e) => {},
                }
            }
        }
        loop
            invariant_except_break
                follows(*old(self), *self),
                inp == old(self).input(),
                start == old(self).position(),
                case_arms(inp, start) == joined(
                    arms_model(&cases),
                    case_arms(inp, self.position()),
                    (self.position() - start) as nat,
                ),
            ensures
                follows(*old(self), *self),
                inp == old(self).input(),
                start == old(self).position(),
                case_arms(inp, start) == done(
                    arms_model(&cases),
                    (self.position() - start) as nat,
                ),
            decreases self.remaining(),
        {
            let ghost at = self.position();
            let ghost prefix = arms_model(&cases);
            if !self.match_token(TokenType::Case) {
                proof {
                    assert(prefix + Seq::<(ExprView, Seq<StmtView>)>::empty() =~= prefix);
                }
                break ;
            }
            let value = self.expression()?;
            self.skip_newlines();
            let statements = self.block(Stop::Label)?;
            let ghost arm = (value@, stmts_model(&statements));
            let ghost earlier = cases;
            cases.push((value, statements));
            proof {
                assert(arms_model(&cases) =~= prefix + seq![arm]);
                lemma_joined_step(
                    prefix,
                    arm,
                    case_arms(inp, self.position()),
                    (at - start) as nat,
                    (self.position() - at) as nat,
                );
            }
        }
        Ok(cases)
    }

    /// The head of a `CASE`, after the keyword: the value and the labels.
    pub(super) fn case_head(&mut self) -> (r: Result<(Expr, Vec<(Expr, Vec<Stmt>)>), String>)
        requires
            old(self).well_formed(),
        ensures
            moved(*old(self), *final(self), case_head(old(self).input(), old(self).position()).used),
            match r {
                Ok(found) => case_head(old(self).input(), old(self).position()).result == Ok::<
                    (ExprView, Seq<(ExprView, Seq<StmtView>)>),
                    Seq<char>,
                >((found.0@, arms_model(&found.1))),
                Err(e) => case_head(old(self).input(), old(self).position()).result == Err::<
                    (ExprView, Seq<(ExprView, Seq<StmtView>)>),
                    Seq<char>,
                >(e@),
            },
        decreases old(self).remaining(), 138nat,
    {
        let expr = self.expression()?;
        self.skip_newlines();
        let cases = self.case_arms()?;
        Ok((expr, cases))
    }

    /// The `OTHERWISE` of a `CASE` with its statements, where there is one.
    pub(super) fn otherwise_part(&mut self) -> (r: Result<Option<Vec<Stmt>>, String>)
        requires
            old(self).well_formed(),
        ensures
            moved(
                *old(self),
                *final(self),
                otherwise_part(old(self).input(), old(self).position()).used,
            ),
            match r {
                Ok(otherwise) => otherwise_part(old(self).input(), old(self).position()).result
                    == Ok::<Option<Seq<StmtView>>, Seq<char>>(optional_stmts_model(&otherwise)),
                Err(e) => otherwise_part(old(self).input(), old(self).position()).result == Err::<
                    Option<Seq<StmtView>>,
                    Seq<char>,
                >(e@),
            },
        decreases old(self).remaining(), 137nat,
    {
        proof {
            self.lemma_inside();
        }
        if self.match_token(TokenType::Otherwise) {
            self.skip_newlines();
            let stmts = self.block(Stop::EndCase)?;
            Ok(Some(stmts))
        } else {
            Ok(None)
        }
    }

    /// The rest of a `CASE` after its labels; `line` and `column` are the place
    /// of its keyword.
    pub(super) fn case_tail(&mut self, line: usize, column: usize, Ghost(keyword): Ghost<int>) -> (r:
        Result<Option<Vec<Stmt>>, String>)
        requires
            old(self).well_formed(),
            0 <= keyword < old(self).input().tokens.len(),
            old(self).input().tokens[keyword].line == line,
            old(self).input().tokens[keyword].column == column,
        ensures
            moved(
                *old(self),
                *final(self),
                case_tail(old(self).input(), old(self).position(), keyword).used,
            ),
            match r {
                Ok(otherwise) => case_tail(old(self).input(), old(self).position(), keyword).result
                    == Ok::<Option<Seq<StmtView>>, Seq<char>>(
                    optional_stmts_model(&otherwise),
                ),
                Err(e) => case_tail(old(self).input(), old(self).position(), keyword).result
                    == Err::<Option<Seq<StmtView>>, Seq<char>>(e@),
            },
        decreases old(self).remaining(), 138nat,
    {
        let otherwise = self.otherwise_part()?;
        if self.is_at_end() {
            return Err(located_message("Unterminated CASE", line, column));
        }
        self.consume(TokenType::EndCase, "Expected ENDCASE")?;
        Ok(otherwise)
    }

    /// The rest of a `CASE`, after the keyword.
    pub(super) fn case_statement(&mut self) -> (r: Result<Stmt, String>)
        requires
            old(self).well_formed(),
            old(self).position() > 0,
        ensures
            gives_stmt(
                *old(self),
                *final(self),
                r,
                case_statement(old(self).input(), old(self).position()),
            ),
        decreases old(self).remaining(), 140nat,
    {
        proof {
            self.lemma_inside();
        }
        let opening_line = self.previous().line;
        let opening_column = self.previous().column;
        let ghost keyword = self.position() - 1;
        let (expr, cases) = self.case_head()?;
        let otherwise = self.case_tail(opening_line, opening_column, Ghost(keyword))?;
        Ok(Stmt::Case { expr, cases, otherwise })
    }
}

} // verus!

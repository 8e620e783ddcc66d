//! The functions of the grammar, parsed.

use super::grammar::{
    closing_return, done, expression, function_body, function_declaration, function_head, joined,
    param_list, routine_body, statement,
};
use super::{follows, gives_stmt, gives_stmts, lemma_joined_step, lemma_stmts_push, moved, Parser};
use crate::ast::{names_model, stmts_model, Stmt, StmtView};
use crate::token::TokenType;
use vstd::prelude::*;

verus! {

impl Parser {
    /// The names of parameters, separated by commas.
    pub(super) fn parameter_list(&mut self) -> (r: Result<Vec<String>, String>)
        requires
            old(self).well_formed(),
        ensures
            moved(
                *old(self),
                *final(self),
                param_list(old(self).input(), old(self).position()).used,
            ),
            match r {
                Ok(names) => param_list(old(self).input(), old(self).position()).result == Ok::<
                    Seq<Seq<char>>,
                    Seq<char>,
                >(names_model(names@)),
                Err(e) => param_list(old(self).input(), old(self).position()).result == Err::<
                    Seq<Seq<char>>,
                    Seq<char>,
                >(e@),
            },
    {
        let mut params: Vec<String> = Vec::new();
        let ghost inp = self.input();
        let ghost start = self.position();
        proof {
            assert(names_model(params@) =~= Seq::<Seq<char>>::empty());
            assert(joined(Seq::<Seq<char>>::empty(), param_list(inp, start), 0) == param_list(
                inp,
                start,
            )) by {
                match param_list(inp, start).result {
                    Ok(items) => {
                        assert(Seq::<Seq<char>>::empty() + items =~= items);
                    },
                    Err(e) => {},
                }
            }
        }
        loop
            invariant_except_break
                follows(*old(self), *self),
                inp == old(self).input(),
                start == old(self).position(),
                param_list(inp, start) == joined(
                    names_model(params@),
                    param_list(inp, self.position()),
                    (self.position() - start) as nat,
                ),
            ensures
                follows(*old(self), *self),
                inp == old(self).input(),
                start == old(self).position(),
                param_list(inp, start) == done(
                    names_model(params@),
                    (self.position() - start) as nat,
                ),
            decreases self.remaining(),
        {
            let ghost at = self.position();
            let ghost prefix = names_model(params@);
            let param = self.consume_identifier("Expected parameter name")?;
            let ghost text = param@;
            params.push(param);
            assert(names_model(params@) =~= prefix + seq![text]);
            if !self.match_token(TokenType::Comma) {
                break ;
            }
            proof {
                lemma_joined_step(
                    prefix,
                    text,
                    param_list(inp, self.position()),
                    (at - start) as nat,
                    2,
                );
            }
        }
        Ok(params)
    }

    /// The statements of a function.
    pub(super) fn routine_body(&mut self) -> (r: Result<Vec<Stmt>, String>)
        requires
            old(self).well_formed(),
        ensures
            gives_stmts(
                *old(self),
                *final(self),
                r,
                routine_body(old(self).input(), old(self).position()),
            ),
        decreases old(self).remaining(), 135nat,
    {
        let mut body: Vec<Stmt> = Vec::new();
        let ghost inp = self.input();
        let ghost start = self.position();
        proof {
            assert(stmts_model(&body) =~= Seq::<StmtView>::empty());
            assert(joined(Seq::<StmtView>::empty(), routine_body(inp, start), 0) == routine_body(
                inp,
                start,
            )) by {
                match routine_body(inp, start).result {
                    Ok(items) => {
                        assert(Seq::<StmtView>::empty() + items =~= items);
                    },
                    Err(e) => {},
                }
            }
        }
        loop
            invariant_except_break
                follows(*old(self), *self),
                inp == old(self).input(),
                start == old(self).position(),
                routine_body(inp, start) == joined(
                    stmts_model(&body),
                    routine_body(inp, self.position()),
                    (self.position() - start) as nat,
                ),
            ensures
                follows(*old(self), *self),
                inp == old(self).input(),
                start == old(self).position(),
                routine_body(inp, start) == done(
                    stmts_model(&body),
                    (self.position() - start) as nat,
                ),
            decreases self.remaining(),
        {
            let ghost at = self.position();
            let ghost prefix = stmts_model(&body);
            if self.is_at_end() || self.at_word("RETURN") || self.at_word("ENDFUNC")
                || self.at_word("ENDPROC") || self.check(TokenType::Function) || self.check(
                TokenType::Procedure,
            ) {
                proof {
                    assert(prefix + Seq::<StmtView>::empty() =~= prefix);
                }
                break ;
            }
            let stmt = self.statement()?;
            let ghost earlier = body;
            body.push(stmt);
            proof {
                lemma_stmts_push(&earlier, &body, stmt);
                lemma_joined_step(
                    prefix,
                    stmt@,
                    routine_body(inp, self.position()),
                    (at - start) as nat,
                    (self.position() - at) as nat,
                );
            }
        }
        Ok(body)
    }

    /// The closing `RETURN` of a function, where it has one.
    pub(super) fn closing_return(&mut self) -> (r: Result<Vec<Stmt>, String>)
        requires
            old(self).well_formed(),
        ensures
            gives_stmts(
                *old(self),
                *final(self),
                r,
                closing_return(old(self).input(), old(self).position()),
            ),
        decreases old(self).remaining(), 126nat,
    {
        let mut end: Vec<Stmt> = Vec::new();
        if !self.is_at_end() && self.at_word("RETURN") {
            self.advance();
            if !self.check(TokenType::Semicolon) && !self.is_at_end() {
                let expr = self.expression()?;
                end.push(Stmt::Return(Some(expr)));
                assert(stmts_model(&end) =~= seq![StmtView::Return(Some(expr@))]);
            } else {
                end.push(Stmt::Return(None));
                assert(stmts_model(&end) =~= seq![StmtView::Return(None)]);
            }
        } else {
            assert(stmts_model(&end) =~= Seq::<StmtView>::empty());
        }
        Ok(end)
    }

    /// The head of a function: the name and the parameters in parentheses.
    pub(super) fn function_head(&mut self) -> (r: Result<(String, Vec<String>), String>)
        requires
            old(self).well_formed(),
        ensures
            moved(
                *old(self),
                *final(self),
                function_head(old(self).input(), old(self).position()).used,
            ),
            match r {
                Ok(named) => function_head(old(self).input(), old(self).position()).result
                    == Ok::<(Seq<char>, Seq<Seq<char>>), Seq<char>>(
                    (named.0@, names_model(named.1@)),
                ),
                Err(e) => function_head(old(self).input(), old(self).position()).result == Err::<
                    (Seq<char>, Seq<Seq<char>>),
                    Seq<char>,
                >(e@),
            },
            r is Ok ==> final(self).position() > old(self).position(),
    {
        let name = self.consume_identifier("Expected function name")?;
        self.consume(TokenType::LeftParen, "Expected '(' after function name")?;
        let params = if self.check(TokenType::RightParen) {
            let none: Vec<String> = Vec::new();
            assert(names_model(none@) =~= Seq::<Seq<char>>::empty());
            none
        } else {
            self.parameter_list()?
        };
        self.consume(TokenType::RightParen, "Expected ')' after parameters")?;
        Ok((name, params))
    }

    /// The statements of a function with their closing `RETURN`.
    pub(super) fn function_body(&mut self) -> (r: Result<Vec<Stmt>, String>)
        requires
            old(self).well_formed(),
        ensures
            gives_stmts(
                *old(self),
                *final(self),
                r,
                function_body(old(self).input(), old(self).position()),
            ),
        decreases old(self).remaining(), 138nat,
    {
        let mut body = self.routine_body()?;
        let mut end = self.closing_return()?;
        let ghost first = stmts_model(&body);
        let ghost second = stmts_model(&end);
        body.append(&mut end);
        assert(stmts_model(&body) =~= first + second);
        Ok(body)
    }

    /// The rest of a function, after `FUNCTION` or `PROCEDURE`.
    pub(super) fn function_declaration(&mut self, is_procedure: bool) -> (r: Result<Stmt, String>)
        requires
            old(self).well_formed(),
        ensures
            gives_stmt(
                *old(self),
                *final(self),
                r,
                function_declaration(old(self).input(), old(self).position(), is_procedure),
            ),
            r is Ok ==> final(self).position() > old(self).position(),
        decreases old(self).remaining(), 140nat,
    {
        proof {
            self.lemma_inside();
        }
        let (name, params) = self.function_head()?;
        let body = self.function_body()?;
        Ok(Stmt::Function { name, params, body, is_procedure })
    }
}

} // verus!

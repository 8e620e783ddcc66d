//! The statements of the grammar, parsed.

use super::grammar::{
    block, case_statement, db_use_statement, declaration, do_while_statement, done, error_at,
    expression, failed, for_statement, function_declaration, if_statement, if_tail, joined,
    loop_statement, optional_expression, print_statement, replace_statement, simple_statement,
    statement, var_declaration, var_item, var_list, while_statement, Stop,
};
use super::{
    follows, gives_optional, gives_stmt, gives_stmts, lemma_joined_step, lemma_stmts_push, moved,
    stops_here, Parser,
};
use crate::ast::{
    exprs_model, optional_stmts_model, stmts_model, Expr, ExprView, Stmt, StmtView, VarScope,
};

use crate::text::located_message;
use crate::token::TokenType;
use vstd::prelude::*;

verus! {

impl Parser {
    pub(super) fn declaration(&mut self) -> (r: Result<Stmt, String>)
        requires
            old(self).well_formed(),
        ensures
            gives_stmt(
                *old(self),
                *final(self),
                r,
                declaration(old(self).input(), old(self).position()),
            ),
            r is Ok ==> final(self).position() > old(self).position(),
        decreases old(self).remaining(), 130nat,
    {
        proof {
            self.lemma_inside();
        }
        if self.match_token(TokenType::Local) {
            self.var_declaration(VarScope::Local)
        } else if self.match_token(TokenType::Static) {
            self.var_declaration(VarScope::Static)
        } else if self.match_token(TokenType::Private) {
            self.var_declaration(VarScope::Private)
        } else if self.match_token(TokenType::Public) {
            self.var_declaration(VarScope::Public)
        } else if self.match_token(TokenType::Function) {
            self.function_declaration(false)
        } else if self.match_token(TokenType::Procedure) {
            self.function_declaration(true)
        } else {
            self.statement()
        }
    }

    /// The declaration of one variable.
    pub(super) fn var_item(&mut self, scope: VarScope) -> (r: Result<Stmt, String>)
        requires
            old(self).well_formed(),
        ensures
            gives_stmt(
                *old(self),
                *final(self),
                r,
                var_item(old(self).input(), old(self).position(), scope),
            ),
            r is Ok ==> final(self).position() > old(self).position(),
        decreases old(self).remaining(), 139nat,
    {
        proof {
            self.lemma_inside();
        }
        let name = self.consume_identifier("Expected variable name")?;
        let has_initial = if self.match_token(TokenType::Assign) {
            true
        } else {
            self.match_token(TokenType::Colon)
        };
        if has_initial {
            let value = self.expression()?;
            Ok(Stmt::VarDecl { name, initializer: Some(value), scope })
        } else {
            Ok(Stmt::VarDecl { name, initializer: None, scope })
        }
    }

    /// The rest of a declaration of variables, after the scope.
    pub(super) fn var_declaration(&mut self, scope: VarScope) -> (r: Result<Stmt, String>)
        requires
            old(self).well_formed(),
        ensures
            gives_stmt(
                *old(self),
                *final(self),
                r,
                var_declaration(old(self).input(), old(self).position(), scope),
            ),
            r is Ok ==> final(self).position() > old(self).position(),
        decreases old(self).remaining(), 141nat,
    {
        let mut declarations: Vec<Stmt> = Vec::new();
        let ghost inp = self.input();
        let ghost start = self.position();
        proof {
            self.lemma_inside();
            assert(stmts_model(&declarations) =~= Seq::<StmtView>::empty());
            assert(joined(Seq::<StmtView>::empty(), var_list(inp, start, scope), 0) == var_list(
                inp,
                start,
                scope,
            )) by {
                match var_list(inp, start, scope).result {
                    Ok(items) => {
                        assert(Seq::<StmtView>::empty() + items =~= items);
                    },
                    Err(e) => {},
                }
            }
        }
        loop
            invariant_except_break
                follows(*old(self), *self),
                inp == old(self).input(),
                start == old(self).position(),
                var_list(inp, start, scope) == joined(
                    stmts_model(&declarations),
                    var_list(inp, self.position(), scope),
                    (self.position() - start) as nat,
                ),
            ensures
                follows(*old(self), *self),
                inp == old(self).input(),
                start == old(self).position(),
                declarations.len() > 0,
                self.position() > start,
                var_list(inp, start, scope) == done(
                    stmts_model(&declarations),
                    (self.position() - start) as nat,
                ),
            decreases self.remaining(),
        {
            let ghost at = self.position();
            let ghost prefix = stmts_model(&declarations);
            let declared = match self.var_item(scope) {
                Ok(declared) => declared,
                Err(e) => {
                    assert(var_list(inp, at, scope) == failed::<Seq<StmtView>>(
                        e@,
                        (self.position() - at) as nat,
                    ));
                    return Err(e);
                },
            };
            let ghost earlier = declarations;
            declarations.push(declared);
            proof {
                lemma_stmts_push(&earlier, &declarations, declared);
            }
            let ghost after = self.position();
            if !self.match_token(TokenType::Comma) {
                proof {
                    assert(var_list(inp, at, scope) == done(
                        seq![declared@],
                        (after - at) as nat,
                    ));
                }
                break ;
            }
            proof {
                assert(var_list(inp, at, scope) == joined(
                    seq![declared@],
                    var_list(inp, self.position(), scope),
                    (after + 1 - at) as nat,
                ));
                lemma_joined_step(
                    prefix,
                    declared@,
                    var_list(inp, self.position(), scope),
                    (at - start) as nat,
                    (after + 1 - at) as nat,
                );
            }
        }
        if declarations.len() == 1 {
            match declarations.pop() {
                Some(only) => Ok(only),
                None => Ok(Stmt::Block(declarations)),
            }
        } else {
            Ok(Stmt::Block(declarations))
        }
    }

    pub(super) fn statement(&mut self) -> (r: Result<Stmt, String>)
        requires
            old(self).well_formed(),
        ensures
            gives_stmt(
                *old(self),
                *final(self),
                r,
                statement(old(self).input(), old(self).position()),
            ),
            r is Ok ==> final(self).position() > old(self).position(),
        decreases old(self).remaining(), 129nat,
    {
        proof {
            self.lemma_inside();
        }
        if self.match_token(TokenType::Local) {
            self.var_declaration(VarScope::Local)
        } else if self.match_token(TokenType::Return) {
            self.return_statement()
        } else if self.match_token(TokenType::If) {
            self.if_statement()
        } else if self.match_token(TokenType::While) {
            self.while_statement()
        } else if self.match_token(TokenType::Do) {
            self.do_while_statement()
        } else if self.match_token(TokenType::For) {
            self.for_statement()
        } else if self.match_token(TokenType::Loop) {
            self.loop_statement()
        } else if self.match_token(TokenType::Exit) {
            Ok(Stmt::Exit)
        } else if self.match_token(TokenType::Case) {
            self.case_statement()
        } else {
            self.simple_statement()
        }
    }

    /// A statement that opens no block: a database statement, a `?`, or an
    /// expression.
    pub(super) fn simple_statement(&mut self) -> (r: Result<Stmt, String>)
        requires
            old(self).well_formed(),
        ensures
            gives_stmt(
                *old(self),
                *final(self),
                r,
                simple_statement(old(self).input(), old(self).position()),
            ),
            r is Ok ==> final(self).position() > old(self).position(),
        decreases old(self).remaining(), 128nat,
    {
        proof {
            self.lemma_inside();
        }
        if self.match_token(TokenType::Use) {
            self.db_use_statement()
        } else if self.match_token(TokenType::DbSkip) {
            self.db_skip_statement()
        } else if self.match_token(TokenType::DbGoTop) {
            Ok(Stmt::DbGoTop)
        } else if self.match_token(TokenType::DbGoBottom) {
            Ok(Stmt::DbGoBottom)
        } else if self.match_token(TokenType::DbSeek) {
            self.db_seek_statement()
        } else if self.match_token(TokenType::Replace) {
            self.replace_statement()
        } else if self.match_token(TokenType::QuestionMark) {
            self.print_statement()
        } else {
            self.expression_statement()
        }
    }

    /// An expression that may be missing.
    pub(super) fn optional_expression(&mut self) -> (r: Result<Option<Expr>, String>)
        requires
            old(self).well_formed(),
        ensures
            gives_optional(
                *old(self),
                *final(self),
                r,
                optional_expression(old(self).input(), old(self).position()),
            ),
        decreases old(self).remaining(), 125nat,
    {
        if !self.is_at_end() && !self.check(TokenType::Newline) {
            let expr = self.expression()?;
            Ok(Some(expr))
        } else {
            Ok(None)
        }
    }

    /// The rest of a `RETURN`, after the keyword.
    pub(super) fn return_statement(&mut self) -> (r: Result<Stmt, String>)
        requires
            old(self).well_formed(),
        ensures
            moved(
                *old(self),
                *final(self),
                optional_expression(old(self).input(), old(self).position()).used,
            ),
            match r {
                Ok(tree) => optional_expression(old(self).input(), old(self).position()).result
                    matches Ok(value) && tree@ == StmtView::Return(value),
                Err(e) => optional_expression(old(self).input(), old(self).position()).result
                    == Err::<Option<ExprView>, Seq<char>>(e@),
            },
        decreases old(self).remaining(), 140nat,
    {
        let value = self.optional_expression()?;
        Ok(Stmt::Return(value))
    }

    /// Statements up to a token that ends the list.
    pub(super) fn block(&mut self, stop: Stop) -> (r: Result<Vec<Stmt>, String>)
        requires
            old(self).well_formed(),
        ensures
            gives_stmts(
                *old(self),
                *final(self),
                r,
                block(old(self).input(), old(self).position(), stop),
            ),
        decreases old(self).remaining(), 135nat,
    {
        let mut out: Vec<Stmt> = Vec::new();
        let ghost inp = self.input();
        let ghost start = self.position();
        proof {
            assert(stmts_model(&out) =~= Seq::<StmtView>::empty());
            assert(joined(Seq::<StmtView>::empty(), block(inp, start, stop), 0) == block(
                inp,
                start,
                stop,
            )) by {
                match block(inp, start, stop).result {
                    Ok(items) => {
                        assert(Seq::<StmtView>::empty() + items =~= items);
                    },
                    Err(e) => {},
                }
            }
        }
        loop
            invariant_except_break
                follows(*old(self), *self),
                inp == old(self).input(),
                start == old(self).position(),
                block(inp, start, stop) == joined(
                    stmts_model(&out),
                    block(inp, self.position(), stop),
                    (self.position() - start) as nat,
                ),
            ensures
                follows(*old(self), *self),
                inp == old(self).input(),
                start == old(self).position(),
                block(inp, start, stop) == done(
                    stmts_model(&out),
                    (self.position() - start) as nat,
                ),
            decreases self.remaining(),
        {
            let ghost at = self.position();
            let ghost prefix = stmts_model(&out);
            if self.is_at_end() || stops_here(stop, self.peek().token_type) {
                proof {
                    assert(prefix + Seq::<StmtView>::empty() =~= prefix);
                }
                break ;
            }
            let stmt = self.declaration()?;
            let ghost earlier = out;
            out.push(stmt);
            proof {
                lemma_stmts_push(&earlier, &out, stmt);
                lemma_joined_step(
                    prefix,
                    stmt@,
                    block(inp, self.position(), stop),
                    (at - start) as nat,
                    (self.position() - at) as nat,
                );
            }
        }
        Ok(out)
    }

    /// The `ELSE` of an `IF`, where there is one, and the end of the `IF`;
    /// `line` and `column` are the place of its keyword.
    pub(super) fn if_tail(&mut self, line: usize, column: usize, Ghost(keyword): Ghost<int>) -> (r:
        Result<Option<Vec<Stmt>>, String>)
        requires
            old(self).well_formed(),
            0 <= keyword < old(self).input().tokens.len(),
            old(self).input().tokens[keyword].line == line,
            old(self).input().tokens[keyword].column == column,
        ensures
            moved(
                *old(self),
                *final(self),
                if_tail(old(self).input(), old(self).position(), keyword).used,
            ),
            match r {
                Ok(else_branch) => if_tail(old(self).input(), old(self).position(), keyword).result
                    == Ok::<Option<Seq<StmtView>>, Seq<char>>(
                    optional_stmts_model(&else_branch),
                ),
                Err(e) => if_tail(old(self).input(), old(self).position(), keyword).result
                    == Err::<Option<Seq<StmtView>>, Seq<char>>(e@),
            },
        decreases old(self).remaining(), 138nat,
    {
        let ghost inp = self.input();
        let ghost start = self.position();
        proof {
            self.lemma_inside();
        }
        let else_branch = if self.match_token(TokenType::Else) {
            match self.block(Stop::EndIf) {
                Ok(stmts) => Some(stmts),
                Err(e) => {
                    assert(if_tail(inp, start, keyword) == failed::<Option<Seq<StmtView>>>(
                        e@,
                        (self.position() - start) as nat,
                    ));
                    return Err(e);
                },
            }
        } else {
            None
        };
        let ghost used = (self.position() - start) as nat;
        let ghost found = optional_stmts_model(&else_branch);
        if self.is_at_end() {
            assert(if_tail(inp, start, keyword) == failed::<Option<Seq<StmtView>>>(
                error_at(inp, keyword, "Unterminated IF"@),
                used,
            ));
            return Err(located_message("Unterminated IF", line, column));
        }
        if self.match_token(TokenType::EndIf) {
            assert(if_tail(inp, start, keyword) == done(found, used + 1));
        } else {
            assert(if_tail(inp, start, keyword) == done(found, used));
        }
        Ok(else_branch)
    }

    /// The rest of an `IF`, after the keyword.
    pub(super) fn if_statement(&mut self) -> (r: Result<Stmt, String>)
        requires
            old(self).well_formed(),
            old(self).position() > 0,
        ensures
            gives_stmt(
                *old(self),
                *final(self),
                r,
                if_statement(old(self).input(), old(self).position()),
            ),
        decreases old(self).remaining(), 140nat,
    {
        proof {
            self.lemma_inside();
        }
        let opening_line = self.previous().line;
        let opening_column = self.previous().column;
        let ghost keyword = self.position() - 1;
        let condition = self.expression()?;
        let then_branch = self.block(Stop::Then)?;
        let else_branch = self.if_tail(opening_line, opening_column, Ghost(keyword))?;
        Ok(Stmt::If { condition, then_branch, else_branch })
    }

    /// The rest of a `WHILE`, after the keyword.
    pub(super) fn while_statement(&mut self) -> (r: Result<Stmt, String>)
        requires
            old(self).well_formed(),
            old(self).position() > 0,
        ensures
            gives_stmt(
                *old(self),
                *final(self),
                r,
                while_statement(old(self).input(), old(self).position()),
            ),
        decreases old(self).remaining(), 140nat,
    {
        let opening_line = self.previous().line;
        let opening_column = self.previous().column;
        let condition = self.expression()?;
        let body = self.block(Stop::EndDo)?;
        if !self.match_token(TokenType::EndDo) {
            return Err(located_message("Unterminated WHILE", opening_line, opening_column));
        }
        Ok(Stmt::While { condition, body })
    }

    /// The rest of a `DO ... WHILE`, after the `DO`.
    pub(super) fn do_while_statement(&mut self) -> (r: Result<Stmt, String>)
        requires
            old(self).well_formed(),
        ensures
            gives_stmt(
                *old(self),
                *final(self),
                r,
                do_while_statement(old(self).input(), old(self).position()),
            ),
        decreases old(self).remaining(), 140nat,
    {
        let body = self.block(Stop::While)?;
        self.consume(TokenType::While, "Expected WHILE after DO block")?;
        let condition = self.expression()?;
        Ok(Stmt::DoWhile { body, condition })
    }

    /// The rest of a `USE`, after the keyword.
    pub(super) fn db_use_statement(&mut self) -> (r: Result<Stmt, String>)
        requires
            old(self).well_formed(),
        ensures
            gives_stmt(
                *old(self),
                *final(self),
                r,
                db_use_statement(old(self).input(), old(self).position()),
            ),
    {
        let filename = if self.check(TokenType::String) {
            let text = self.peek().lexeme.clone();
            self.advance();
            text
        } else {
            self.consume_identifier("Expected database filename")?
        };
        let alias = if self.at_word("ALIAS") {
            self.advance();
            Some(self.consume_identifier("Expected alias name")?)
        } else {
            None
        };
        Ok(Stmt::DbUse { filename, alias })
    }

    /// The rest of a `DBSKIP`, after the keyword.
    pub(super) fn db_skip_statement(&mut self) -> (r: Result<Stmt, String>)
        requires
            old(self).well_formed(),
        ensures
            moved(
                *old(self),
                *final(self),
                optional_expression(old(self).input(), old(self).position()).used,
            ),
            match r {
                Ok(tree) => optional_expression(old(self).input(), old(self).position()).result
                    matches Ok(value) && tree@ == StmtView::DbSkip(value),
                Err(e) => optional_expression(old(self).input(), old(self).position()).result
                    == Err::<Option<ExprView>, Seq<char>>(e@),
            },
        decreases old(self).remaining(), 140nat,
    {
        let count = self.optional_expression()?;
        Ok(Stmt::DbSkip(count))
    }

    /// The rest of a `DBSEEK`, after the keyword.
    pub(super) fn db_seek_statement(&mut self) -> (r: Result<Stmt, String>)
        requires
            old(self).well_formed(),
        ensures
            moved(
                *old(self),
                *final(self),
                expression(old(self).input(), old(self).position()).used,
            ),
            match r {
                Ok(tree) => expression(old(self).input(), old(self).position()).result
                    matches Ok(key) && tree@ == (StmtView::DbSeek { key }),
                Err(e) => expression(old(self).input(), old(self).position()).result == Err::<
                    ExprView,
                    Seq<char>,
                >(e@),
            },
        decreases old(self).remaining(), 140nat,
    {
        let key = self.expression()?;
        Ok(Stmt::DbSeek { key })
    }

    /// The rest of a `REPLACE`, after the keyword.
    pub(super) fn replace_statement(&mut self) -> (r: Result<Stmt, String>)
        requires
            old(self).well_formed(),
        ensures
            gives_stmt(
                *old(self),
                *final(self),
                r,
                replace_statement(old(self).input(), old(self).position()),
            ),
        decreases old(self).remaining(), 140nat,
    {
        let field = self.consume_identifier("Expected field name")?;
        if self.at_word("WITH") {
            self.advance();
        }
        let value = self.expression()?;
        Ok(Stmt::Replace { field, value })
    }

    /// The rest of a `?`, after the mark.
    pub(super) fn print_statement(&mut self) -> (r: Result<Stmt, String>)
        requires
            old(self).well_formed(),
        ensures
            gives_stmt(
                *old(self),
                *final(self),
                r,
                print_statement(old(self).input(), old(self).position()),
            ),
        decreases old(self).remaining(), 140nat,
    {
        let args = if !self.is_at_end() && !self.check(TokenType::Newline) {
            self.expression_list()?
        } else {
            let none: Vec<Expr> = Vec::new();
            assert(exprs_model(&none) =~= Seq::<ExprView>::empty());
            none
        };
        Ok(Stmt::Expression(Expr::Call { name: "?".to_owned(), args }))
    }

    pub(super) fn expression_statement(&mut self) -> (r: Result<Stmt, String>)
        requires
            old(self).well_formed(),
        ensures
            moved(
                *old(self),
                *final(self),
                expression(old(self).input(), old(self).position()).used,
            ),
            match r {
                Ok(tree) => expression(old(self).input(), old(self).position()).result
                    matches Ok(inner) && tree@ == StmtView::Expression(inner),
                Err(e) => expression(old(self).input(), old(self).position()).result == Err::<
                    ExprView,
                    Seq<char>,
                >(e@),
            },
            r is Ok ==> final(self).position() > old(self).position(),
        decreases old(self).remaining(), 127nat,
    {
        let expr = self.expression()?;
        Ok(Stmt::Expression(expr))
    }
}

} // verus!

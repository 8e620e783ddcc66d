//! Parsing that goes on after an error.

use super::grammar::{declaration, ended};
use super::{
    follows, lemma_stmts_push, lemma_sync_point_bounds, recovered, resumption,
    span_from_message_or_token, span_of, ParseResult, Parser, Recovery,
};
use crate::ast::{stmts_model, Program, Stmt, StmtView};
use crate::diagnostics::{diagnostics_model, Diagnostic, DiagnosticView, Severity};
use vstd::prelude::*;

verus! {

impl Parser {
    /// Reports the error `message` of the declaration that started at `begin`,
    /// and skips to the place where parsing resumes.
    fn recover(&mut self, message: String, begin: usize) -> (r: Diagnostic)
        requires
            old(self).well_formed(),
            begin <= old(self).position(),
        ensures
            follows(*old(self), *final(self)),
            final(self).position() == resumption(
                old(self).input(),
                begin as int,
                old(self).position(),
            ),
            r@ == (DiagnosticView {
                severity: Severity::Error,
                message: message@,
                span: span_of(message@, old(self).input().tokens[old(self).position()]),
            }),
    {
        proof {
            self.lemma_inside();
            lemma_sync_point_bounds(self.input().tokens, self.position());
        }
        let span = span_from_message_or_token(message.as_str(), self.peek());
        let diagnostic = Diagnostic::error(message, span);
        self.synchronize();
        if self.place() == begin && !self.is_at_end() {
            self.advance();
        }
        diagnostic
    }

    /// Parses one declaration; after an error, reports it and skips to the place
    /// where parsing resumes.
    fn attempt(&mut self) -> (r: Result<Stmt, Diagnostic>)
        requires
            old(self).well_formed(),
            !ended(old(self).input(), old(self).position()),
        ensures
            follows(*old(self), *final(self)),
            final(self).position() > old(self).position(),
            match r {
                Ok(stmt) => recovered(old(self).input(), old(self).position()) == (Recovery {
                    statements: seq![stmt@] + recovered(
                        old(self).input(),
                        final(self).position(),
                    ).statements,
                    diagnostics: recovered(old(self).input(), final(self).position()).diagnostics,
                }),
                Err(diagnostic) => recovered(old(self).input(), old(self).position())
                    == (Recovery {
                    statements: recovered(old(self).input(), final(self).position()).statements,
                    diagnostics: seq![diagnostic@] + recovered(
                        old(self).input(),
                        final(self).position(),
                    ).diagnostics,
                }),
            },
    {
        proof {
            self.lemma_inside();
        }
        let begin = self.place();
        match self.declaration() {
            Ok(stmt) => Ok(stmt),
            Err(message) => {
                proof {
                    lemma_sync_point_bounds(self.input().tokens, self.position());
                }
                Err(self.recover(message, begin))
            },
        }
    }

    /// Parses the input from the next token on; after an error, parsing resumes
    /// at the next statement. Every error gives one diagnostic.
    pub fn parse_with_diagnostics(&mut self) -> (r: ParseResult)
        requires
            old(self).well_formed(),
        ensures
            follows(*old(self), *final(self)),
            r.program@ == recovered(old(self).input(), old(self).position()).statements,
            diagnostics_model(r.diagnostics@) == recovered(
                old(self).input(),
                old(self).position(),
            ).diagnostics,
    {
        let mut statements: Vec<Stmt> = Vec::new();
        let mut diagnostics: Vec<Diagnostic> = Vec::new();
        let ghost inp = self.input();
        let ghost start = self.position();
        proof {
            self.lemma_inside();
            assert(stmts_model(&statements) =~= Seq::<StmtView>::empty());
            assert(diagnostics_model(diagnostics@) =~= Seq::<DiagnosticView>::empty());
            assert(Seq::<StmtView>::empty() + recovered(inp, start).statements =~= recovered(
                inp,
                start,
            ).statements);
            assert(Seq::<DiagnosticView>::empty() + recovered(inp, start).diagnostics
                =~= recovered(inp, start).diagnostics);
        }
        while !self.is_at_end()
            invariant
                follows(*old(self), *self),
                inp == old(self).input(),
                start == old(self).position(),
                recovered(inp, start).statements == stmts_model(&statements) + recovered(
                    inp,
                    self.position(),
                ).statements,
                recovered(inp, start).diagnostics == diagnostics_model(diagnostics@) + recovered(
                    inp,
                    self.position(),
                ).diagnostics,
            decreases self.remaining(),
        {
            let ghost done_statements = stmts_model(&statements);
            let ghost done_diagnostics = diagnostics_model(diagnostics@);
            match self.attempt() {
                Ok(stmt) => {
                    let ghost earlier = statements;
                    statements.push(stmt);
                    proof {
                        lemma_stmts_push(&earlier, &statements, stmt);
                        let next = recovered(inp, self.position());
                        assert(done_statements + (seq![stmt@] + next.statements) =~= (
                        done_statements + seq![stmt@]) + next.statements);
                    }
                },
                Err(diagnostic) => {
                    diagnostics.push(diagnostic);
                    proof {
                        let next = recovered(inp, self.position());
                        assert(diagnostics_model(diagnostics@) =~= done_diagnostics + seq![
                            diagnostic@,
                        ]);
                        assert(done_diagnostics + (seq![diagnostic@] + next.diagnostics) =~= (
                        done_diagnostics + seq![diagnostic@]) + next.diagnostics);
                    }
                },
            }
        }
        proof {
            assert(recovered(inp, self.position()).statements =~= Seq::<StmtView>::empty());
            assert(recovered(inp, self.position()).diagnostics =~= Seq::<DiagnosticView>::empty());
            assert(stmts_model(&statements) + Seq::<StmtView>::empty() =~= stmts_model(
                &statements,
            ));
            assert(diagnostics_model(diagnostics@) + Seq::<DiagnosticView>::empty()
                =~= diagnostics_model(diagnostics@));
        }
        ParseResult { program: Program { statements }, diagnostics }
    }
}

} // verus!

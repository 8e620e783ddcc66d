//! Where the `EXIT`s of a loop go: a loop sends the jumps that were registered
//! with it past its own end, and leaves the loops around it as they were.

use super::layout::{
    frame, keeps, lemma_block_keeps, lemma_expr_keeps, lemma_keeps_emit, lemma_keeps_on,
    lemma_keeps_patch, lemma_keeps_same, lemma_on_emit, lemma_opened, lemma_optional_keeps,
};
use super::{
    block_code, closing_a_loop_patches_its_exits_only, expr_code, optional_code, stmt_code,
    CompilerState,
};
use crate::ast::StmtView;
use crate::bytecode::{Instruction, OpCode, ValueView};
use crate::number::ONE;
use vstd::prelude::*;

verus! {

/// Whether a statement is a loop.
pub open spec fn is_loop(stmt: StmtView) -> bool {
    stmt is While || stmt is For || stmt is DoWhile || stmt is Loop
}

/// The body of a loop.
pub open spec fn loop_body(stmt: StmtView) -> Seq<StmtView> {
    match stmt {
        StmtView::While { condition, body } => body,
        StmtView::For { variable, start, end, step, body } => body,
        StmtView::DoWhile { body, condition } => body,
        StmtView::Loop { body } => body,
        _ => Seq::empty(),
    }
}

/// The state in which the body of a loop begins, the loop being compiled from
/// `s`: the code that stands before the body is emitted and the loop is open.
pub open spec fn loop_entry(s: CompilerState, stmt: StmtView) -> CompilerState {
    match stmt {
        StmtView::While { condition, body } => expr_code(s, condition)->Ok_0.emit(
            OpCode::JumpIfFalse,
            Some(0),
        ).open_loop(),
        StmtView::For { variable, start, end, step, body } => {
            let s1 = expr_code(s, start)->Ok_0;
            let slot = s1.locals.len() as usize;
            let s2 = CompilerState { locals: s1.locals.push(variable), ..s1 }.emit(
                OpCode::SetLocal,
                Some(slot),
            ).emit(OpCode::Pop, None);
            expr_code(s2.emit(OpCode::GetLocal, Some(slot)), end)->Ok_0.emit(
                OpCode::LessEqual,
                None,
            ).emit(OpCode::JumpIfFalse, Some(0)).open_loop()
        },
        _ => s.open_loop(),
    }
}

/// The places of the jumps that the body of a loop has registered with the
/// loop: those of the `EXIT`s that stand in the body and in no loop inside it.
pub open spec fn loop_exits(s: CompilerState, stmt: StmtView) -> Seq<usize> {
    block_code(loop_entry(s, stmt), loop_body(stmt), loop_body(stmt).len())->Ok_0.loops.last()
}

/// Whether every place of `sites` holds, in the code of `t`, a jump to the end
/// of that code.
pub open spec fn leave_to_the_end(t: CompilerState, sites: Seq<usize>) -> bool {
    forall|j: int|
        0 <= j < sites.len() ==> (#[trigger] sites[j]) < t.code.len() && t.code[sites[j] as int]
            == (Instruction { opcode: OpCode::Jump, operand: Some(t.here()) })
}

/// Closing the loop that was opened in `o`: where `u` is the state after the
/// body and `c` the state before the loop is closed, with the loops of `u` and
/// the opcodes of `u`, the registered jumps of the loop go to `target` and the
/// loops are those from before the loop was opened.
proof fn lemma_loop_closed(
    before: Seq<Seq<usize>>,
    o: CompilerState,
    u: CompilerState,
    c: CompilerState,
    target: usize,
)
    requires
        o.well_formed(),
        o.loops == before.push(Seq::empty()),
        keeps(o.code.len() as int, o, u),
        keeps(0, u, c),
        c.loops == u.loops,
        c.close_loop(target).code.len() <= usize::MAX,
        target == c.here(),
    ensures
        c.close_loop(target).loops == before,
        c.close_loop(target).code.len() == c.code.len(),
        leave_to_the_end(c.close_loop(target), u.loops.last()),
{
    let t = c.close_loop(target);
    let sites = u.loops.last();
    closing_a_loop_patches_its_exits_only(c, target);
    assert(frame(o.code.len() as int, o, u));
    assert(frame(0, u, c));
    assert forall|j: int| 0 <= j < before.len() implies t.loops[j] == before[j] by {
        assert(u.loops[j] == o.loops[j]);
    }
    assert(t.loops =~= before);
    assert forall|j: int| 0 <= j < sites.len() implies (#[trigger] sites[j]) < t.code.len()
        && t.code[sites[j] as int] == (Instruction {
        opcode: OpCode::Jump,
        operand: Some(t.here()),
    }) by {
        let site = sites[j] as int;
        assert(u.loops[u.loops.len() - 1][j] < u.code.len());
        assert(u.code[site].opcode == OpCode::Jump);
        assert(c.code[site].opcode == u.code[site].opcode);
        assert(c.loops.last()[j] == sites[j]);
    }
}

/// A loop sends the jumps of its own `EXIT`s past its end, and those of no
/// other loop. When a loop has been compiled, every jump that its body
/// registered with it goes to the first instruction after the loop, so that an
/// `EXIT` ends this loop and the run goes on inside the loop around it; and the
/// loops around it have the registered jumps that they had before, so that no
/// `EXIT` of this loop is left to end one of them.
pub proof fn loop_sends_its_exits_past_its_end(s: CompilerState, stmt: StmtView)
    requires
        s.well_formed(),
        is_loop(stmt),
        stmt_code(s, stmt) is Ok,
        stmt_code(s, stmt)->Ok_0.code.len() <= usize::MAX,
    ensures
        stmt_code(s, stmt)->Ok_0.loops == s.loops,
        leave_to_the_end(stmt_code(s, stmt)->Ok_0, loop_exits(s, stmt)),
{
    let t = stmt_code(s, stmt)->Ok_0;
    match stmt {
        StmtView::While { condition, body } => {
            lemma_expr_keeps(0, s, condition);
            let s1 = expr_code(s, condition)->Ok_0;
            lemma_keeps_emit(0, s1, OpCode::JumpIfFalse, Some(0));
            let v = s1.emit(OpCode::JumpIfFalse, Some(0));
            let o = v.open_loop();
            lemma_opened(v);
            lemma_block_keeps(o.code.len() as int, o, body, body.len());
            let u = block_code(o, body, body.len())->Ok_0;
            lemma_keeps_emit(0, u, OpCode::Jump, Some(s.here()));
            let s3 = u.emit(OpCode::Jump, Some(s.here()));
            lemma_keeps_patch(0, s3, s1.here(), s3.here());
            let c = s3.patch(s1.here(), s3.here());
            lemma_keeps_on(0, u, s3, c);
            assert(t == c.close_loop(s3.here()));
            lemma_loop_closed(s.loops, o, u, c, s3.here());
        },
        StmtView::For { variable, start, end, step, body } => {
            lemma_expr_keeps(0, s, start);
            let s1 = expr_code(s, start)->Ok_0;
            let slot = s1.locals.len() as usize;
            let named = CompilerState { locals: s1.locals.push(variable), ..s1 };
            lemma_keeps_same(0, s1, named);
            lemma_keeps_emit(0, named, OpCode::SetLocal, Some(slot));
            lemma_keeps_emit(0, named.emit(OpCode::SetLocal, Some(slot)), OpCode::Pop, None);
            let s2 = named.emit(OpCode::SetLocal, Some(slot)).emit(OpCode::Pop, None);
            lemma_keeps_emit(0, s2, OpCode::GetLocal, Some(slot));
            let s2e = s2.emit(OpCode::GetLocal, Some(slot));
            lemma_expr_keeps(0, s2e, end);
            let s3 = expr_code(s2e, end)->Ok_0;
            lemma_keeps_emit(0, s3, OpCode::LessEqual, None);
            let s4 = s3.emit(OpCode::LessEqual, None);
            lemma_keeps_emit(0, s4, OpCode::JumpIfFalse, Some(0));
            let v = s4.emit(OpCode::JumpIfFalse, Some(0));
            let o = v.open_loop();
            lemma_opened(v);
            lemma_block_keeps(o.code.len() as int, o, body, body.len());
            let u = block_code(o, body, body.len())->Ok_0;
            lemma_keeps_emit(0, u, OpCode::GetLocal, Some(slot));
            let s5e = u.emit(OpCode::GetLocal, Some(slot));
            lemma_optional_keeps(0, s5e, step, ValueView::Number(ONE));
            let s6 = optional_code(s5e, step, ValueView::Number(ONE))->Ok_0;
            lemma_keeps_on(0, u, s5e, s6);
            lemma_on_emit(0, u, s6, OpCode::Add, None);
            let s6a = s6.emit(OpCode::Add, None);
            lemma_on_emit(0, u, s6a, OpCode::SetLocal, Some(slot));
            lemma_on_emit(0, u, s6a.emit(OpCode::SetLocal, Some(slot)), OpCode::Pop, None);
            let s6b = s6a.emit(OpCode::SetLocal, Some(slot)).emit(OpCode::Pop, None);
            lemma_on_emit(0, u, s6b, OpCode::Jump, Some(s2.here()));
            let s7 = s6b.emit(OpCode::Jump, Some(s2.here()));
            lemma_keeps_patch(0, s7, s4.here(), s7.here());
            let c = s7.patch(s4.here(), s7.here());
            lemma_keeps_on(0, u, s7, c);
            let closed = c.close_loop(s7.here());
            assert(t == closed.drop_local());
            assert(t.code == closed.code);
            assert(t.loops == closed.loops);
            lemma_loop_closed(s.loops, o, u, c, s7.here());
        },
        StmtView::DoWhile { body, condition } => {
            let o = s.open_loop();
            lemma_opened(s);
            lemma_block_keeps(o.code.len() as int, o, body, body.len());
            let u = block_code(o, body, body.len())->Ok_0;
            lemma_expr_keeps(0, u, condition);
            let s2 = expr_code(u, condition)->Ok_0;
            lemma_on_emit(0, u, s2, OpCode::JumpIfTrue, Some(s.here()));
            let c = s2.emit(OpCode::JumpIfTrue, Some(s.here()));
            assert(t == c.close_loop(c.here()));
            lemma_loop_closed(s.loops, o, u, c, c.here());
        },
        StmtView::Loop { body } => {
            let o = s.open_loop();
            lemma_opened(s);
            lemma_block_keeps(o.code.len() as int, o, body, body.len());
            let u = block_code(o, body, body.len())->Ok_0;
            lemma_keeps_emit(0, u, OpCode::Jump, Some(s.here()));
            let c = u.emit(OpCode::Jump, Some(s.here()));
            assert(t == c.close_loop(c.here()));
            lemma_loop_closed(s.loops, o, u, c, c.here());
        },
        _ => {},
    }
}

} // verus!

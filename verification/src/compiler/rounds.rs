//! The layout of a compiled `FOR` whose bound and step are number literals:
//! where the test of the bound and the step of the loop variable stand.

use super::layout::{
    frame, keeps, lemma_block_keeps, lemma_expr_keeps, lemma_keeps_emit, lemma_keeps_patch,
    lemma_keeps_push, lemma_keeps_same, lemma_later_statements_keep, lemma_on_emit,
    lemma_on_push, lemma_opened,
};
use super::{
    block_code, closing_a_loop_patches_its_exits_only, compiled, expr_code, last_index,
    lemma_patch_all_shape, optional_code, print_code, prints, prints_line, stmt_code,
    CompilerState,
};
use crate::ast::{ExprView, StmtView};
use crate::bytecode::{ChunkView, Instruction, OpCode, ValueView};
use crate::number::ONE;
use crate::vm::rounds::{prints_variable, steps_variable, tests_bound};
use vstd::prelude::*;

verus! {

/// The number by which the loop variable grows: that of the literal, or 1
/// where no step is given.
pub open spec fn step_of(step: Option<ExprView>) -> u64 {
    match step {
        Some(ExprView::Number(by)) => by,
        _ => ONE,
    }
}

/// Whether the step of a `FOR` is a number literal or is left out.
pub open spec fn plain_step(step: Option<ExprView>) -> bool {
    match step {
        Some(e) => e is Number,
        None => true,
    }
}

/// The state in which the start value of a `FOR` has been compiled.
pub open spec fn start_state(s: CompilerState, start: ExprView) -> CompilerState {
    expr_code(s, start)->Ok_0
}

/// The state in which the body of a `FOR` with a literal bound begins.
pub open spec fn body_state(
    s: CompilerState,
    variable: Seq<char>,
    start: ExprView,
    bound: u64,
) -> CompilerState {
    let s1 = start_state(s, start);
    let slot = s1.locals.len() as usize;
    CompilerState { locals: s1.locals.push(variable), ..s1 }.emit(
        OpCode::SetLocal,
        Some(slot),
    ).emit(OpCode::Pop, None).emit(OpCode::GetLocal, Some(slot)).push_value(
        ValueView::Number(bound),
    ).emit(OpCode::LessEqual, None).emit(OpCode::JumpIfFalse, Some(0)).open_loop()
}

/// A `FOR` whose bound and step are number literals compiles to this: the
/// start value is stored in a new local slot and popped; the test of the bound
/// follows, which compares the slot with the bound and leaves to the first
/// instruction after the loop; the body follows the test; and after the body
/// the step is added to the slot, the sum stored and popped, and the run sent
/// back to the test.
pub proof fn for_tests_its_bound_and_steps(
    s: CompilerState,
    variable: Seq<char>,
    start: ExprView,
    bound: u64,
    step: Option<ExprView>,
    body: Seq<StmtView>,
)
    requires
        s.well_formed(),
        plain_step(step),
        stmt_code(
            s,
            StmtView::For { variable, start, end: ExprView::Number(bound), step, body },
        ) is Ok,
        stmt_code(
            s,
            StmtView::For { variable, start, end: ExprView::Number(bound), step, body },
        )->Ok_0.code.len() <= usize::MAX,
        stmt_code(
            s,
            StmtView::For { variable, start, end: ExprView::Number(bound), step, body },
        )->Ok_0.constants.len() <= usize::MAX,
    ensures
        ({
            let t = stmt_code(
                s,
                StmtView::For { variable, start, end: ExprView::Number(bound), step, body },
            )->Ok_0;
            let s1 = start_state(s, start);
            let slot = s1.locals.len() as usize;
            let o = body_state(s, variable, start, bound);
            let u = block_code(o, body, body.len())->Ok_0;
            let chunk = ChunkView { code: t.code, constants: t.constants };
            let at = s1.code.len() as int;
            &&& at + 6 == o.code.len() <= u.code.len()
            &&& u.code.len() + 6 == t.code.len()
            &&& s1.constants.len() < u.constants.len() < t.constants.len()
            &&& chunk.code[at] == (Instruction { opcode: OpCode::SetLocal, operand: Some(slot) })
            &&& chunk.code[at + 1] == (Instruction { opcode: OpCode::Pop, operand: None })
            &&& tests_bound(chunk, at + 2, slot, s1.constants.len() as usize, t.here())
            &&& chunk.constants[s1.constants.len() as int] == ValueView::Number(bound)
            &&& steps_variable(
                chunk,
                u.code.len() as int,
                slot,
                u.constants.len() as usize,
                (at + 2) as usize,
            )
            &&& chunk.constants[u.constants.len() as int] == ValueView::Number(step_of(step))
        }),
{
    let stmt = StmtView::For { variable, start, end: ExprView::Number(bound), step, body };
    let t = stmt_code(s, stmt)->Ok_0;
    lemma_expr_keeps(0, s, start);
    let s1 = expr_code(s, start)->Ok_0;
    let slot = s1.locals.len() as usize;
    let at = s1.code.len() as int;
    let named = CompilerState { locals: s1.locals.push(variable), ..s1 };
    lemma_keeps_same(0, s1, named);
    lemma_keeps_emit(0, named, OpCode::SetLocal, Some(slot));
    let a = named.emit(OpCode::SetLocal, Some(slot));
    lemma_keeps_emit(0, a, OpCode::Pop, None);
    let s2 = a.emit(OpCode::Pop, None);
    lemma_keeps_emit(0, s2, OpCode::GetLocal, Some(slot));
    let s2e = s2.emit(OpCode::GetLocal, Some(slot));
    lemma_keeps_push(0, s2e, ValueView::Number(bound));
    let s3 = s2e.push_value(ValueView::Number(bound));
    assert(expr_code(s2e, ExprView::Number(bound)) == Ok::<CompilerState, super::CompileError>(s3));
    lemma_keeps_emit(0, s3, OpCode::LessEqual, None);
    let s4 = s3.emit(OpCode::LessEqual, None);
    lemma_keeps_emit(0, s4, OpCode::JumpIfFalse, Some(0));
    let v = s4.emit(OpCode::JumpIfFalse, Some(0));
    let o = v.open_loop();
    lemma_opened(v);
    assert(o == body_state(s, variable, start, bound));
    let base = o.code.len() as int;
    assert(base == at + 6);
    lemma_block_keeps(base, o, body, body.len());
    let u = block_code(o, body, body.len())->Ok_0;
    let by = ValueView::Number(step_of(step));
    lemma_on_emit(base, o, u, OpCode::GetLocal, Some(slot));
    let s5e = u.emit(OpCode::GetLocal, Some(slot));
    lemma_on_push(base, o, s5e, by);
    let s6 = s5e.push_value(by);
    assert(optional_code(s5e, step, ValueView::Number(ONE)) == Ok::<
        CompilerState,
        super::CompileError,
    >(s6));
    lemma_on_emit(base, o, s6, OpCode::Add, None);
    let s6a = s6.emit(OpCode::Add, None);
    lemma_on_emit(base, o, s6a, OpCode::SetLocal, Some(slot));
    let s6b = s6a.emit(OpCode::SetLocal, Some(slot));
    lemma_on_emit(base, o, s6b, OpCode::Pop, None);
    let s6c = s6b.emit(OpCode::Pop, None);
    lemma_on_emit(base, o, s6c, OpCode::Jump, Some(s2.here()));
    let s7 = s6c.emit(OpCode::Jump, Some(s2.here()));
    let low = u.code.len() as int;
    assert(s7.code.len() == low + 6);
    let c = s7.patch(s4.here(), s7.here());
    lemma_keeps_patch(0, s7, s4.here(), s7.here());
    let closed = c.close_loop(s7.here());
    closing_a_loop_patches_its_exits_only(c, s7.here());
    let opened = CompilerState { loops: c.loops.drop_last(), ..c };
    assert forall|j: int| 0 <= j < c.loops.last().len() implies (#[trigger] c.loops.last()[j])
        < opened.code.len() by {
        assert(c.loops[c.loops.len() - 1][j] < c.code.len());
    }
    lemma_patch_all_shape(opened, c.loops.last(), c.loops.last().len(), s7.here());
    assert(t == closed.drop_local());
    assert(t.code == closed.code);
    assert(t.constants == s7.constants);
    assert(t.code.len() == low + 6);
    assert(frame(base, o, s7));
    let sites = c.loops.last();
    assert(sites == u.loops.last());
    assert(frame(base, o, u));
    assert forall|k: int| 0 <= k < base || low <= k < low + 6 implies #[trigger] t.code[k]
        == c.code[k] by {
        if sites.contains(k as usize) {
            let j = choose|j: int| 0 <= j < sites.len() && sites[j] == k as usize;
            assert(base <= sites[j] < u.code.len());
        }
    }
    assert(t.code[at] == c.code[at]);
    assert(t.code[at + 1] == c.code[at + 1]);
    assert(t.code[at + 2] == c.code[at + 2]);
    assert(t.code[at + 3] == c.code[at + 3]);
    assert(t.code[at + 4] == c.code[at + 4]);
    assert(t.code[at + 5] == c.code[at + 5]);
    assert(s7.code[at] == o.code[at]);
    assert(s7.code[at + 1] == o.code[at + 1]);
    assert(s7.code[at + 2] == o.code[at + 2]);
    assert(s7.code[at + 3] == o.code[at + 3]);
    assert(s7.code[at + 4] == o.code[at + 4]);
    assert(s7.code[at + 5] == o.code[at + 5]);
    assert(t.code[low] == c.code[low]);
    assert(t.code[low + 1] == c.code[low + 1]);
    assert(t.code[low + 2] == c.code[low + 2]);
    assert(t.code[low + 3] == c.code[low + 3]);
    assert(t.code[low + 4] == c.code[low + 4]);
    assert(t.code[low + 5] == c.code[low + 5]);
    assert(s7.constants[s1.constants.len() as int] == o.constants[s1.constants.len() as int]);
}

/// The state from which the statement `k` of a program is compiled.
pub open spec fn state_before(program: Seq<StmtView>, k: int) -> CompilerState {
    block_code(CompilerState::initial(), program, k as nat)->Ok_0
}

/// A `FOR` with a literal bound and step that is a statement of the program
/// itself keeps its layout in the compiled chunk: there too the test of the
/// bound and the step of the loop variable stand as
/// `for_tests_its_bound_and_steps` says, and the test leaves to the first
/// instruction after the loop.
pub proof fn compiled_for_tests_its_bound_and_steps(
    program: Seq<StmtView>,
    k: int,
    variable: Seq<char>,
    start: ExprView,
    bound: u64,
    step: Option<ExprView>,
    body: Seq<StmtView>,
)
    requires
        0 <= k < program.len(),
        program[k] == (StmtView::For { variable, start, end: ExprView::Number(bound), step, body }),
        plain_step(step),
        compiled(program) is Ok,
        compiled(program)->Ok_0.0.code.len() <= usize::MAX,
        compiled(program)->Ok_0.0.constants.len() <= usize::MAX,
    ensures
        ({
            let chunk = compiled(program)->Ok_0.0;
            let s = state_before(program, k);
            let s1 = start_state(s, start);
            let slot = s1.locals.len() as usize;
            let o = body_state(s, variable, start, bound);
            let u = block_code(o, body, body.len())->Ok_0;
            let at = s1.code.len() as int;
            &&& at + 6 == o.code.len() <= u.code.len()
            &&& u.code.len() + 6 < chunk.code.len()
            &&& chunk.code[at] == (Instruction { opcode: OpCode::SetLocal, operand: Some(slot) })
            &&& chunk.code[at + 1] == (Instruction { opcode: OpCode::Pop, operand: None })
            &&& tests_bound(
                chunk,
                at + 2,
                slot,
                s1.constants.len() as usize,
                (u.code.len() + 6) as usize,
            )
            &&& chunk.constants[s1.constants.len() as int] == ValueView::Number(bound)
            &&& steps_variable(
                chunk,
                u.code.len() as int,
                slot,
                u.constants.len() as usize,
                (at + 2) as usize,
            )
            &&& chunk.constants[u.constants.len() as int] == ValueView::Number(step_of(step))
        }),
{
    let first = CompilerState::initial();
    let n = program.len();
    let end = block_code(first, program, n)->Ok_0;
    let chunk = compiled(program)->Ok_0.0;
    assert(chunk.code == end.code.push(Instruction { opcode: OpCode::Halt, operand: None }));
    assert(chunk.constants == end.constants);
    lemma_later_statements_keep(first, program, (k + 1) as nat, n);
    lemma_later_statements_keep(first, program, k as nat, (k + 1) as nat);
    let s = state_before(program, k);
    let t = block_code(first, program, (k + 1) as nat)->Ok_0;
    assert(block_code(first, program, (k + 1) as nat) == stmt_code(s, program[k]));
    assert(frame(t.code.len() as int, t, end));
    for_tests_its_bound_and_steps(s, variable, start, bound, step, body);
    let s1 = start_state(s, start);
    let o = body_state(s, variable, start, bound);
    let u = block_code(o, body, body.len())->Ok_0;
    let at = s1.code.len() as int;
    let low = u.code.len() as int;
    assert(chunk.code[at] == end.code[at] && end.code[at] == t.code[at]);
    assert(chunk.code[at + 1] == end.code[at + 1] && end.code[at + 1] == t.code[at + 1]);
    assert(chunk.code[at + 2] == end.code[at + 2] && end.code[at + 2] == t.code[at + 2]);
    assert(chunk.code[at + 3] == end.code[at + 3] && end.code[at + 3] == t.code[at + 3]);
    assert(chunk.code[at + 4] == end.code[at + 4] && end.code[at + 4] == t.code[at + 4]);
    assert(chunk.code[at + 5] == end.code[at + 5] && end.code[at + 5] == t.code[at + 5]);
    assert(chunk.code[low] == end.code[low] && end.code[low] == t.code[low]);
    assert(chunk.code[low + 1] == end.code[low + 1] && end.code[low + 1] == t.code[low + 1]);
    assert(chunk.code[low + 2] == end.code[low + 2] && end.code[low + 2] == t.code[low + 2]);
    assert(chunk.code[low + 3] == end.code[low + 3] && end.code[low + 3] == t.code[low + 3]);
    assert(chunk.code[low + 4] == end.code[low + 4] && end.code[low + 4] == t.code[low + 4]);
    assert(chunk.code[low + 5] == end.code[low + 5] && end.code[low + 5] == t.code[low + 5]);
    assert(end.constants[s1.constants.len() as int] == t.constants[s1.constants.len() as int]);
    assert(end.constants[u.constants.len() as int] == t.constants[u.constants.len() as int]);
}

/// The statement that prints the variable `variable` on a line of its own.
pub open spec fn prints_it(variable: Seq<char>) -> StmtView {
    StmtView::Expression(ExprView::Call { name: "?"@, args: seq![ExprView::Variable(variable)] })
}

/// The program that counts from `from` up to `to` in steps of `by` and prints
/// its variable in every round; the three numbers are given as doubles.
pub open spec fn counting_program(variable: Seq<char>, from: u64, to: u64, by: u64) -> Seq<
    StmtView,
> {
    seq![
        StmtView::For {
            variable,
            start: ExprView::Number(from),
            end: ExprView::Number(to),
            step: Some(ExprView::Number(by)),
            body: seq![prints_it(variable)],
        },
    ]
}

/// The body that prints the loop variable compiles to four instructions: the
/// variable is read from its slot and printed, and a line break is printed.
proof fn lemma_printing_body(s: CompilerState, variable: Seq<char>)
    requires
        s.locals.len() > 0,
        s.locals.last() == variable,
    ensures
        block_code(s, seq![prints_it(variable)], 1) == Ok::<CompilerState, super::CompileError>(
            s.emit(OpCode::GetLocal, Some((s.locals.len() - 1) as usize)).emit(
                OpCode::Print,
                None,
            ).push_value(ValueView::String(seq!['\n'])).emit(OpCode::Print, None),
        ),
{
    reveal_strlit("?");
    reveal_strlit("__SET_INDEX__");
    reveal_strlit("\n");
    let name = "?"@;
    let args = seq![ExprView::Variable(variable)];
    let call = ExprView::Call { name, args };
    assert(name.len() == 1);
    assert("__SET_INDEX__"@.len() == 13);
    assert(name != "__SET_INDEX__"@);
    assert(prints(name));
    assert(prints_line(name));
    let slot = (s.locals.len() - 1) as usize;
    assert(last_index(s.locals, s.locals.len(), variable) == Some(slot));
    let s1 = s.emit(OpCode::GetLocal, Some(slot));
    assert(expr_code(s, args[0]) == Ok::<CompilerState, super::CompileError>(s1));
    assert(print_code(s, args, 0) == Ok::<CompilerState, super::CompileError>(s));
    let s2 = s1.emit(OpCode::Print, None);
    assert(print_code(s, args, 1) == Ok::<CompilerState, super::CompileError>(s2));
    assert("\n"@ =~= seq!['\n']);
    let s3 = s2.push_value(ValueView::String(seq!['\n'])).emit(OpCode::Print, None);
    assert(expr_code(s, call) == Ok::<CompilerState, super::CompileError>(s3));
    assert(stmt_code(s, prints_it(variable)) == Ok::<CompilerState, super::CompileError>(s3));
    let body = seq![prints_it(variable)];
    assert(block_code(s, body, 0) == Ok::<CompilerState, super::CompileError>(s));
    assert(body[0] == prints_it(variable));
}

/// The counting program compiles to eighteen instructions: the start value is
/// stored in the local slot 0 and popped; the test of the bound stands at
/// address 3 and leaves to the `Halt` at address 17; the body that prints the
/// variable stands at address 7; the step stands at address 11 and goes back to
/// the test. The constants are the start value, the bound, the line break and
/// the step.
pub proof fn counting_program_is_laid_out(variable: Seq<char>, from: u64, to: u64, by: u64)
    ensures
        compiled(counting_program(variable, from, to, by)) is Ok,
        ({
            let chunk = compiled(counting_program(variable, from, to, by))->Ok_0.0;
            &&& compiled(counting_program(variable, from, to, by))->Ok_0.1.len() == 0
            &&& chunk.code.len() == 18
            &&& chunk.constants.len() == 4
            &&& chunk.constants[0] == ValueView::Number(from)
            &&& chunk.constants[1] == ValueView::Number(to)
            &&& chunk.constants[3] == ValueView::Number(by)
            &&& chunk.code[0] == (Instruction { opcode: OpCode::Push, operand: Some(0) })
            &&& chunk.code[1] == (Instruction { opcode: OpCode::SetLocal, operand: Some(0) })
            &&& chunk.code[2] == (Instruction { opcode: OpCode::Pop, operand: None })
            &&& tests_bound(chunk, 3, 0, 1, 17)
            &&& prints_variable(chunk, 7, 0, 2)
            &&& steps_variable(chunk, 11, 0, 3, 3)
            &&& chunk.code[17] == (Instruction { opcode: OpCode::Halt, operand: None })
        }),
{
    let program = counting_program(variable, from, to, by);
    let body = seq![prints_it(variable)];
    let step = Some(ExprView::Number(by));
    let stmt = StmtView::For {
        variable,
        start: ExprView::Number(from),
        end: ExprView::Number(to),
        step,
        body,
    };
    let first = CompilerState::initial();
    assert(program[0] == stmt);
    assert(block_code(first, program, 0) == Ok::<CompilerState, super::CompileError>(first));
    assert(block_code(first, program, 1) == stmt_code(first, stmt));
    let s1 = first.push_value(ValueView::Number(from));
    assert(expr_code(first, ExprView::Number(from)) == Ok::<CompilerState, super::CompileError>(
        s1,
    ));
    assert(s1.locals.len() == 0);
    let o = body_state(first, variable, ExprView::Number(from), to);
    assert(o.locals =~= seq![variable]);
    assert(o.code.len() == 7);
    assert(o.constants.len() == 2);
    lemma_printing_body(o, variable);
    let u = block_code(o, body, 1)->Ok_0;
    assert(u.code.len() == 11);
    assert(u.constants.len() == 3);
    assert(u.locals == o.locals);
    assert(u.loops == o.loops);
    let s5e = u.emit(OpCode::GetLocal, Some(0));
    let s6 = s5e.push_value(ValueView::Number(by));
    assert(optional_code(s5e, step, ValueView::Number(ONE)) == Ok::<
        CompilerState,
        super::CompileError,
    >(s6));
    assert(stmt_code(first, stmt) is Ok);
    let t = stmt_code(first, stmt)->Ok_0;
    let s7 = s6.emit(OpCode::Add, None).emit(OpCode::SetLocal, Some(0)).emit(
        OpCode::Pop,
        None,
    ).emit(OpCode::Jump, Some(3));
    assert(s7.loops.last() =~= Seq::<usize>::empty());
    let c = s7.patch(6, 17);
    assert(c.close_loop(17) == CompilerState { loops: c.loops.drop_last(), ..c });
    assert(t.code.len() == 17);
    assert(t.constants.len() == 4);
    assert(first.well_formed());
    for_tests_its_bound_and_steps(first, variable, ExprView::Number(from), to, step, body);
    let chunk = compiled(program)->Ok_0.0;
    assert(chunk.code == t.code.push(Instruction { opcode: OpCode::Halt, operand: None }));
    assert(chunk.constants == t.constants);
    assert(t.code[7] == u.code[7]);
    assert(t.code[8] == u.code[8]);
    assert(t.code[9] == u.code[9]);
    assert(t.code[10] == u.code[10]);
    assert(t.constants[0] == s1.constants[0]);
    assert(t.constants[2] == u.constants[2]);
    assert(t.functions.len() == 0);
}

} // verus!

//! One round of a `FOR`: how the test of the bound and the step of the loop
//! variable run. The loop goes on as long as the variable is at most the
//! bound, and after each round the variable is the sum that the host gives for
//! the variable and the step.

use super::{
    ask, padded, resume, run_model, started, step_model, ActionView, Arithmetic, Phase,
    ReplyView, RequestView, RuntimeErrorView, StepView, VmState,
};
use crate::compiler::compiled;
use crate::compiler::rounds::{counting_program, counting_program_is_laid_out};
use crate::bytecode::{fractions_of, rendered, ChunkView, Instruction, OpCode, ValueView};
use crate::number::whole::{
    double_of_int, exact, integer_text, integers_keep_their_order, integers_read_back,
    magnitude_of, rounds,
};
use crate::number::{at_most, whole, whole_text};
use vstd::prelude::*;

verus! {

/// Whether the code at `at` tests the bound of a `FOR`: the loop variable in
/// the local slot `slot` is compared with the constant `bound`; where it is
/// larger, the run goes on at `exit`.
pub open spec fn tests_bound(chunk: ChunkView, at: int, slot: usize, bound: usize, exit: usize) -> bool {
    &&& 0 <= at
    &&& at + 4 <= chunk.code.len()
    &&& at + 4 <= usize::MAX
    &&& bound < chunk.constants.len()
    &&& chunk.code[at] == (Instruction { opcode: OpCode::GetLocal, operand: Some(slot) })
    &&& chunk.code[at + 1] == (Instruction { opcode: OpCode::Push, operand: Some(bound) })
    &&& chunk.code[at + 2] == (Instruction { opcode: OpCode::LessEqual, operand: None })
    &&& chunk.code[at + 3] == (Instruction { opcode: OpCode::JumpIfFalse, operand: Some(exit) })
}

/// Whether the code at `at` steps the variable of a `FOR`: the constant `step`
/// is added to the loop variable in the local slot `slot`, the sum is stored
/// in the slot and popped, and the run goes back to `back`.
pub open spec fn steps_variable(chunk: ChunkView, at: int, slot: usize, step: usize, back: usize) -> bool {
    &&& 0 <= at
    &&& at + 6 <= chunk.code.len()
    &&& at + 6 <= usize::MAX
    &&& step < chunk.constants.len()
    &&& chunk.code[at] == (Instruction { opcode: OpCode::GetLocal, operand: Some(slot) })
    &&& chunk.code[at + 1] == (Instruction { opcode: OpCode::Push, operand: Some(step) })
    &&& chunk.code[at + 2] == (Instruction { opcode: OpCode::Add, operand: None })
    &&& chunk.code[at + 3] == (Instruction { opcode: OpCode::SetLocal, operand: Some(slot) })
    &&& chunk.code[at + 4] == (Instruction { opcode: OpCode::Pop, operand: None })
    &&& chunk.code[at + 5] == (Instruction { opcode: OpCode::Jump, operand: Some(back) })
}

/// Whether the local slot `slot` of the window in use holds the number `bits`.
pub open spec fn holds_number(s: VmState, slot: usize, bits: u64) -> bool {
    s.base() + slot < s.locals.len() && s.base() + slot < usize::MAX && s.locals[s.base() + slot]
        == ValueView::Number(bits)
}

/// The test of the bound decides whether a round runs: where the loop variable
/// is at most the bound, four steps reach the body; where it is larger, four
/// steps leave the loop. The stack and the variable are as they were.
pub proof fn bound_test_decides_the_round(
    s: VmState,
    chunk: ChunkView,
    slot: usize,
    bound: usize,
    exit: usize,
    value: u64,
    limit: u64,
)
    requires
        s.phase == Phase::Running,
        tests_bound(chunk, s.ip as int, slot, bound, exit),
        holds_number(s, slot, value),
        chunk.constants[bound as int] == ValueView::Number(limit),
    ensures
        run_model(s, chunk, ReplyView::Nothing, 4) == resume(
            VmState {
                ip: if at_most(value, limit) {
                    (s.ip + 4) as usize
                } else {
                    exit
                },
                ..s
            },
        ),
{
    let number = ValueView::Number(value);
    let first = step_model(s, chunk, ReplyView::Nothing);
    let s1 = VmState { stack: s.stack.push(number), ip: (s.ip + 1) as usize, ..s };
    assert(first == resume(s1));
    let second = step_model(s1, chunk, ReplyView::Nothing);
    let s2 = VmState {
        stack: s1.stack.push(ValueView::Number(limit)),
        ip: (s.ip + 2) as usize,
        ..s
    };
    assert(second == resume(s2));
    let third = step_model(s2, chunk, ReplyView::Nothing);
    let s3 = VmState {
        stack: s.stack.push(ValueView::Boolean(at_most(value, limit))),
        ip: (s.ip + 3) as usize,
        ..s
    };
    assert(s2.stack.subrange(0, s2.stack.len() - 2) =~= s.stack);
    assert(third == resume(s3));
    let fourth = step_model(s3, chunk, ReplyView::Nothing);
    assert(s3.stack.subrange(0, s3.stack.len() - 1) =~= s.stack);
    if at_most(value, limit) {
        assert(fourth == resume(VmState { ip: (s.ip + 4) as usize, ..s }));
    } else {
        assert(fourth == resume(VmState { ip: exit, ..s }));
    }
    reveal_with_fuel(run_model, 5);
}

/// The step of a `FOR` asks the host for the sum of the loop variable and the
/// step: after two steps the machine asks, with both numbers on the stack.
pub proof fn step_asks_for_the_sum(
    s: VmState,
    chunk: ChunkView,
    slot: usize,
    step: usize,
    back: usize,
    value: u64,
    by: u64,
)
    requires
        s.phase == Phase::Running,
        steps_variable(chunk, s.ip as int, slot, step, back),
        holds_number(s, slot, value),
        chunk.constants[step as int] == ValueView::Number(by),
    ensures
        run_model(s, chunk, ReplyView::Nothing, 3) == ask(
            VmState {
                stack: s.stack.push(ValueView::Number(value)).push(ValueView::Number(by)),
                ip: (s.ip + 2) as usize,
                ..s
            },
            RequestView::Arithmetic { op: Arithmetic::Add, left: value, right: by },
        ),
{
    let first = step_model(s, chunk, ReplyView::Nothing);
    let s1 = VmState {
        stack: s.stack.push(ValueView::Number(value)),
        ip: (s.ip + 1) as usize,
        ..s
    };
    assert(first == resume(s1));
    let second = step_model(s1, chunk, ReplyView::Nothing);
    let s2 = VmState { stack: s1.stack.push(ValueView::Number(by)), ip: (s.ip + 2) as usize, ..s };
    assert(second == resume(s2));
    let third = step_model(s2, chunk, ReplyView::Nothing);
    assert(third == ask(
        s2,
        RequestView::Arithmetic { op: Arithmetic::Add, left: value, right: by },
    ));
    reveal_with_fuel(run_model, 4);
}

/// With the sum from the host, the step of a `FOR` ends the round: the loop
/// variable takes the sum, the stack is as it was before the step, and the run
/// is back at the test of the bound.
pub proof fn step_takes_the_sum(
    s: VmState,
    chunk: ChunkView,
    slot: usize,
    step: usize,
    back: usize,
    value: u64,
    by: u64,
    sum: u64,
)
    requires
        s.phase == Phase::Running,
        steps_variable(chunk, s.ip as int, slot, step, back),
        holds_number(s, slot, value),
    ensures
        run_model(
            VmState {
                stack: s.stack.push(ValueView::Number(value)).push(ValueView::Number(by)),
                ip: (s.ip + 2) as usize,
                ..s
            },
            chunk,
            ReplyView::Number(sum),
            4,
        ) == resume(
            VmState {
                locals: s.locals.update(s.base() + slot, ValueView::Number(sum)),
                ip: back,
                ..s
            },
        ),
        holds_number(
            VmState {
                locals: s.locals.update(s.base() + slot, ValueView::Number(sum)),
                ip: back,
                ..s
            },
            slot,
            sum,
        ),
{
    let total = ValueView::Number(sum);
    let s2 = VmState {
        stack: s.stack.push(ValueView::Number(value)).push(ValueView::Number(by)),
        ip: (s.ip + 2) as usize,
        ..s
    };
    let first = step_model(s2, chunk, ReplyView::Number(sum));
    let s3 = VmState { stack: s.stack.push(total), ip: (s.ip + 3) as usize, ..s };
    assert(s2.stack.subrange(0, s2.stack.len() - 2) =~= s.stack);
    assert(first == resume(s3));
    let second = step_model(s3, chunk, ReplyView::Nothing);
    let stored = s.locals.update(s.base() + slot, total);
    let s4 = VmState { locals: stored, stack: s3.stack, ip: (s.ip + 4) as usize, ..s };
    assert(second == resume(s4));
    let third = step_model(s4, chunk, ReplyView::Nothing);
    let s5 = VmState { locals: stored, ip: (s.ip + 5) as usize, ..s };
    assert(s4.stack.subrange(0, s4.stack.len() - 1) =~= s.stack);
    assert(third == resume(s5));
    let fourth = step_model(s5, chunk, ReplyView::Nothing);
    assert(fourth == resume(VmState { locals: stored, ip: back, ..s }));
    reveal_with_fuel(run_model, 5);
}

/// Whether the code at `at` is the body that prints the loop variable: the
/// variable in the local slot `slot` is written out, and then the line break
/// that is the constant `line_break`.
pub open spec fn prints_variable(chunk: ChunkView, at: int, slot: usize, line_break: usize) -> bool {
    &&& 0 <= at
    &&& at + 4 <= chunk.code.len()
    &&& at + 4 <= usize::MAX
    &&& line_break < chunk.constants.len()
    &&& chunk.constants[line_break as int] == ValueView::String(seq!['\n'])
    &&& chunk.code[at] == (Instruction { opcode: OpCode::GetLocal, operand: Some(slot) })
    &&& chunk.code[at + 1] == (Instruction { opcode: OpCode::Print, operand: None })
    &&& chunk.code[at + 2] == (Instruction { opcode: OpCode::Push, operand: Some(line_break) })
    &&& chunk.code[at + 3] == (Instruction { opcode: OpCode::Print, operand: None })
}

/// What a run with a host gives: what was written, and the last step.
pub struct Driven {
    pub output: Seq<char>,
    pub step: StepView,
}

/// `text` and then what `rest` wrote.
pub open spec fn after_output(text: Seq<char>, rest: Driven) -> Driven {
    Driven { output: text + rest.output, step: rest.step }
}

/// What the machine does in up to `fuel` steps with a host that writes each
/// output and answers each request for a sum with `sum(left, right)`. Any
/// other request, an error and the end of the run end it.
pub open spec fn driven(
    s: VmState,
    chunk: ChunkView,
    reply: ReplyView,
    sum: spec_fn(u64, u64) -> u64,
    fuel: nat,
) -> Driven
    decreases fuel,
{
    if fuel == 0 {
        Driven { output: Seq::empty(), step: resume(s) }
    } else {
        let first = step_model(s, chunk, reply);
        match first.result {
            Ok(ActionView::Continue) => driven(
                first.state,
                chunk,
                ReplyView::Nothing,
                sum,
                (fuel - 1) as nat,
            ),
            Ok(ActionView::Output(text)) => after_output(
                text,
                driven(first.state, chunk, ReplyView::Nothing, sum, (fuel - 1) as nat),
            ),
            Ok(
                ActionView::Need(RequestView::Arithmetic { op: Arithmetic::Add, left, right }),
            ) => driven(
                first.state,
                chunk,
                ReplyView::Number(sum(left, right)),
                sum,
                (fuel - 1) as nat,
            ),
            _ => Driven { output: Seq::empty(), step: first },
        }
    }
}

/// Steps in which the host has nothing to do are steps of the run with the
/// host.
pub proof fn lemma_driven_follows_run(
    s: VmState,
    chunk: ChunkView,
    reply: ReplyView,
    sum: spec_fn(u64, u64) -> u64,
    k: nat,
    m: nat,
)
    requires
        k >= 1,
        run_model(s, chunk, reply, k).result == Ok::<ActionView, RuntimeErrorView>(
            ActionView::Continue,
        ),
    ensures
        driven(s, chunk, reply, sum, k + m) == driven(
            run_model(s, chunk, reply, k).state,
            chunk,
            ReplyView::Nothing,
            sum,
            m,
        ),
    decreases k,
{
    let first = step_model(s, chunk, reply);
    if k == 1 {
        assert(run_model(first.state, chunk, ReplyView::Nothing, 0) == resume(first.state));
    } else {
        lemma_driven_follows_run(first.state, chunk, ReplyView::Nothing, sum, (k - 1) as nat, m);
    }
}

/// A step that writes `text` and leaves the machine in the state `s`.
pub open spec fn output(s: VmState, text: Seq<char>) -> StepView {
    StepView { state: s, result: Ok(ActionView::Output(text)) }
}

/// Reading a local that holds a whole number and printing it takes two steps:
/// the second writes the number.
pub proof fn lemma_variable_is_written(s: VmState, chunk: ChunkView, slot: usize, value: u64)
    requires
        s.phase == Phase::Running,
        0 <= s.ip,
        s.ip + 2 <= chunk.code.len(),
        s.ip + 2 <= usize::MAX,
        chunk.code[s.ip as int] == (Instruction { opcode: OpCode::GetLocal, operand: Some(slot) }),
        chunk.code[s.ip + 1] == (Instruction { opcode: OpCode::Print, operand: None }),
        holds_number(s, slot, value),
        whole(value),
    ensures
        step_model(s, chunk, ReplyView::Nothing) == resume(
            VmState {
                stack: s.stack.push(ValueView::Number(value)),
                ip: (s.ip + 1) as usize,
                ..s
            },
        ),
        step_model(
            VmState {
                stack: s.stack.push(ValueView::Number(value)),
                ip: (s.ip + 1) as usize,
                ..s
            },
            chunk,
            ReplyView::Nothing,
        ) == output(VmState { ip: (s.ip + 2) as usize, ..s }, whole_text(value)),
{
    let number = ValueView::Number(value);
    let s1 = VmState { stack: s.stack.push(number), ip: (s.ip + 1) as usize, ..s };
    assert(s1.stack.subrange(0, s1.stack.len() - 1) =~= s.stack);
    assert(fractions_of(number).len() == 0);
    assert(rendered(number, Seq::empty(), 0) == whole_text(value));
}

/// Pushing a text and printing it takes two steps: the second writes the text.
pub proof fn lemma_text_is_written(s: VmState, chunk: ChunkView, constant: usize, text: Seq<char>)
    requires
        s.phase == Phase::Running,
        0 <= s.ip,
        s.ip + 2 <= chunk.code.len(),
        s.ip + 2 <= usize::MAX,
        constant < chunk.constants.len(),
        chunk.constants[constant as int] == ValueView::String(text),
        chunk.code[s.ip as int] == (Instruction { opcode: OpCode::Push, operand: Some(constant) }),
        chunk.code[s.ip + 1] == (Instruction { opcode: OpCode::Print, operand: None }),
    ensures
        step_model(s, chunk, ReplyView::Nothing) == resume(
            VmState {
                stack: s.stack.push(ValueView::String(text)),
                ip: (s.ip + 1) as usize,
                ..s
            },
        ),
        step_model(
            VmState {
                stack: s.stack.push(ValueView::String(text)),
                ip: (s.ip + 1) as usize,
                ..s
            },
            chunk,
            ReplyView::Nothing,
        ) == output(VmState { ip: (s.ip + 2) as usize, ..s }, text),
{
    let line = ValueView::String(text);
    let s1 = VmState { stack: s.stack.push(line), ip: (s.ip + 1) as usize, ..s };
    assert(s1.stack.subrange(0, s1.stack.len() - 1) =~= s.stack);
    assert(fractions_of(line).len() == 0);
    assert(rendered(line, Seq::empty(), 0) == text);
}

/// A step in which the host has nothing to do, and then a step that writes:
/// the run with the host goes on after them, with the text written.
pub proof fn lemma_driven_writes(
    s: VmState,
    s1: VmState,
    s2: VmState,
    chunk: ChunkView,
    text: Seq<char>,
    sum: spec_fn(u64, u64) -> u64,
    m: nat,
)
    requires
        step_model(s, chunk, ReplyView::Nothing) == resume(s1),
        step_model(s1, chunk, ReplyView::Nothing) == output(s2, text),
    ensures
        driven(s, chunk, ReplyView::Nothing, sum, 2 + m) == after_output(
            text,
            driven(s2, chunk, ReplyView::Nothing, sum, m),
        ),
{
    let rest = driven(s2, chunk, ReplyView::Nothing, sum, m);
    assert(driven(s1, chunk, ReplyView::Nothing, sum, 1 + m) == after_output(text, rest));
    assert(driven(s, chunk, ReplyView::Nothing, sum, 2 + m) == driven(
        s1,
        chunk,
        ReplyView::Nothing,
        sum,
        1 + m,
    ));
}

/// The body that prints the loop variable writes the variable, where it is a
/// whole number, and a line break, and leaves the machine as it was, four
/// instructions further on.
pub proof fn body_prints_the_variable(
    s: VmState,
    chunk: ChunkView,
    slot: usize,
    line_break: usize,
    value: u64,
    sum: spec_fn(u64, u64) -> u64,
    m: nat,
)
    requires
        s.phase == Phase::Running,
        prints_variable(chunk, s.ip as int, slot, line_break),
        holds_number(s, slot, value),
        whole(value),
    ensures
        driven(s, chunk, ReplyView::Nothing, sum, 4 + m) == after_output(
            whole_text(value) + seq!['\n'],
            driven(
                VmState { ip: (s.ip + 4) as usize, ..s },
                chunk,
                ReplyView::Nothing,
                sum,
                m,
            ),
        ),
{
    let s1 = VmState {
        stack: s.stack.push(ValueView::Number(value)),
        ip: (s.ip + 1) as usize,
        ..s
    };
    let s2 = VmState { ip: (s.ip + 2) as usize, ..s };
    let s3 = VmState {
        stack: s.stack.push(ValueView::String(seq!['\n'])),
        ip: (s.ip + 3) as usize,
        ..s
    };
    let s4 = VmState { ip: (s.ip + 4) as usize, ..s };
    lemma_variable_is_written(s, chunk, slot, value);
    lemma_text_is_written(s2, chunk, line_break, seq!['\n']);
    lemma_driven_writes(s2, s3, s4, chunk, seq!['\n'], sum, m);
    lemma_driven_writes(s, s1, s2, chunk, whole_text(value), sum, 2 + m);
    let rest = driven(s4, chunk, ReplyView::Nothing, sum, m);
    assert(whole_text(value) + (seq!['\n'] + rest.output) =~= (whole_text(value) + seq!['\n'])
        + rest.output);
}

/// With a host that gives the sums, the step of a `FOR` takes seven steps: the
/// loop variable takes the sum of the variable and the step, and the run is
/// back at the test of the bound.
pub proof fn step_runs_with_the_host(
    s: VmState,
    chunk: ChunkView,
    slot: usize,
    step: usize,
    back: usize,
    value: u64,
    by: u64,
    sum: spec_fn(u64, u64) -> u64,
    m: nat,
)
    requires
        s.phase == Phase::Running,
        steps_variable(chunk, s.ip as int, slot, step, back),
        holds_number(s, slot, value),
        chunk.constants[step as int] == ValueView::Number(by),
    ensures
        driven(s, chunk, ReplyView::Nothing, sum, 7 + m) == driven(
            VmState {
                locals: s.locals.update(s.base() + slot, ValueView::Number(sum(value, by))),
                ip: back,
                ..s
            },
            chunk,
            ReplyView::Nothing,
            sum,
            m,
        ),
{
    let first = step_model(s, chunk, ReplyView::Nothing);
    let s1 = VmState {
        stack: s.stack.push(ValueView::Number(value)),
        ip: (s.ip + 1) as usize,
        ..s
    };
    assert(first == resume(s1));
    let second = step_model(s1, chunk, ReplyView::Nothing);
    let s2 = VmState { stack: s1.stack.push(ValueView::Number(by)), ip: (s.ip + 2) as usize, ..s };
    assert(second == resume(s2));
    let third = step_model(s2, chunk, ReplyView::Nothing);
    assert(third == ask(
        s2,
        RequestView::Arithmetic { op: Arithmetic::Add, left: value, right: by },
    ));
    let total = sum(value, by);
    let after = VmState {
        locals: s.locals.update(s.base() + slot, ValueView::Number(total)),
        ip: back,
        ..s
    };
    step_takes_the_sum(s, chunk, slot, step, back, value, by, total);
    lemma_driven_follows_run(s2, chunk, ReplyView::Number(total), sum, 4, m);
    let rest = driven(after, chunk, ReplyView::Nothing, sum, m);
    assert(driven(s2, chunk, ReplyView::Number(total), sum, 4 + m) == rest);
    assert(driven(s2, chunk, ReplyView::Nothing, sum, 5 + m) == rest);
    assert(driven(s1, chunk, ReplyView::Nothing, sum, 6 + m) == rest);
    assert(driven(s, chunk, ReplyView::Nothing, sum, 7 + m) == rest);
}

/// The lines that a loop writes that counts from `from` in steps of `by` and
/// prints its variable in each of `n` rounds.
pub open spec fn lines(from: int, by: int, n: nat) -> Seq<char>
    decreases n,
{
    if n == 0 {
        Seq::empty()
    } else {
        integer_text(from) + seq!['\n'] + lines(from + by, by, (n - 1) as nat)
    }
}

/// Whether the host adds `by` to integers exactly, as long as the integer and
/// the sum are exact as doubles.
pub open spec fn adds_exactly(sum: spec_fn(u64, u64) -> u64, by: int) -> bool {
    forall|x: int|
        exact(x) && exact(x + by) ==> #[trigger] sum(double_of_int(x), double_of_int(by))
            == double_of_int(x + by)
}

/// The state in which a `FOR` that began in `s` is left: the loop variable
/// holds `value`, and the run stands at `exit`.
pub open spec fn left_with(s: VmState, slot: usize, value: int, exit: usize) -> VmState {
    VmState {
        locals: s.locals.update(s.base() + slot, ValueView::Number(double_of_int(value))),
        ip: exit,
        ..s
    }
}

/// One round of a `FOR` over integers that prints its variable: where
/// the variable, which holds `from`, is at most the bound, fifteen steps write
/// `from` on a line of its own and lead back to the test, with the variable
/// holding `from + by`.
proof fn lemma_round_is_run(
    s: VmState,
    chunk: ChunkView,
    slot: usize,
    bound: usize,
    step: usize,
    line_break: usize,
    exit: usize,
    sum: spec_fn(u64, u64) -> u64,
    from: int,
    to: int,
    by: int,
    rest: nat,
)
    requires
        s.phase == Phase::Running,
        tests_bound(chunk, s.ip as int, slot, bound, exit),
        prints_variable(chunk, s.ip + 4, slot, line_break),
        steps_variable(chunk, s.ip + 8, slot, step, s.ip),
        chunk.constants[bound as int] == ValueView::Number(double_of_int(to)),
        chunk.constants[step as int] == ValueView::Number(double_of_int(by)),
        by > 0,
        from <= to,
        exact(from),
        exact(to),
        exact(to + by),
        adds_exactly(sum, by),
        holds_number(s, slot, double_of_int(from)),
    ensures
        driven(s, chunk, ReplyView::Nothing, sum, 15 + rest) == after_output(
            integer_text(from) + seq!['\n'],
            driven(left_with(s, slot, from + by, s.ip), chunk, ReplyView::Nothing, sum, rest),
        ),
{
    integers_keep_their_order(from, to);
    bound_test_decides_the_round(s, chunk, slot, bound, exit, double_of_int(from), double_of_int(to));
    let body = VmState { ip: (s.ip + 4) as usize, ..s };
    lemma_driven_follows_run(s, chunk, ReplyView::Nothing, sum, 4, 11 + rest);
    integers_read_back(from);
    body_prints_the_variable(body, chunk, slot, line_break, double_of_int(from), sum, 7 + rest);
    let stepping = VmState { ip: (s.ip + 8) as usize, ..s };
    assert(VmState { ip: (body.ip + 4) as usize, ..body } == stepping);
    step_runs_with_the_host(
        stepping,
        chunk,
        slot,
        step,
        s.ip,
        double_of_int(from),
        double_of_int(by),
        sum,
        rest,
    );
    assert(sum(double_of_int(from), double_of_int(by)) == double_of_int(from + by));
    let next = left_with(s, slot, from + by, s.ip);
    assert(VmState {
        locals: stepping.locals.update(
            stepping.base() + slot,
            ValueView::Number(sum(double_of_int(from), double_of_int(by))),
        ),
        ip: s.ip,
        ..stepping
    } == next);
    let tail = driven(next, chunk, ReplyView::Nothing, sum, rest);
    assert(driven(stepping, chunk, ReplyView::Nothing, sum, 7 + rest) == tail);
    assert(driven(body, chunk, ReplyView::Nothing, sum, 4 + (7 + rest)) == after_output(
        whole_text(double_of_int(from)) + seq!['\n'],
        tail,
    ));
    assert(driven(s, chunk, ReplyView::Nothing, sum, 4 + (11 + rest)) == driven(
        body,
        chunk,
        ReplyView::Nothing,
        sum,
        11 + rest,
    ));
    assert(15 + rest == 4 + (11 + rest));
}

/// The last test of a `FOR` over integers: where the variable, which
/// holds `from`, is above the bound, four steps leave the loop.
proof fn lemma_loop_is_left(
    s: VmState,
    chunk: ChunkView,
    slot: usize,
    bound: usize,
    exit: usize,
    sum: spec_fn(u64, u64) -> u64,
    from: int,
    to: int,
    m: nat,
)
    requires
        s.phase == Phase::Running,
        tests_bound(chunk, s.ip as int, slot, bound, exit),
        chunk.constants[bound as int] == ValueView::Number(double_of_int(to)),
        to < from,
        exact(from),
        exact(to),
        holds_number(s, slot, double_of_int(from)),
    ensures
        driven(s, chunk, ReplyView::Nothing, sum, 4 + m) == driven(
            left_with(s, slot, from, exit),
            chunk,
            ReplyView::Nothing,
            sum,
            m,
        ),
{
    integers_keep_their_order(from, to);
    bound_test_decides_the_round(s, chunk, slot, bound, exit, double_of_int(from), double_of_int(to));
    lemma_driven_follows_run(s, chunk, ReplyView::Nothing, sum, 4, m);
    assert(s.locals.update(s.base() + slot, ValueView::Number(double_of_int(from))) =~= s.locals);
    assert(left_with(s, slot, from, exit) == VmState { ip: exit, ..s });
}

/// A `FOR` over integers that prints its variable runs
/// `rounds(from, to, by)` times: with a host that adds exactly, the run from the
/// test of the bound, the loop variable holding `from`, writes `from`,
/// `from + by`, `from + 2 * by` and so on, as far as they are at most `to`, each
/// on a line of its own, and nothing where `from` is above `to`; then it leaves
/// the loop with the stack as it was, and goes on from there. Every round takes
/// fifteen steps, the last test four.
pub proof fn for_prints_its_rounds(
    s: VmState,
    chunk: ChunkView,
    slot: usize,
    bound: usize,
    step: usize,
    line_break: usize,
    exit: usize,
    sum: spec_fn(u64, u64) -> u64,
    from: int,
    to: int,
    by: int,
    m: nat,
)
    requires
        s.phase == Phase::Running,
        tests_bound(chunk, s.ip as int, slot, bound, exit),
        prints_variable(chunk, s.ip + 4, slot, line_break),
        steps_variable(chunk, s.ip + 8, slot, step, s.ip),
        chunk.constants[bound as int] == ValueView::Number(double_of_int(to)),
        chunk.constants[step as int] == ValueView::Number(double_of_int(by)),
        by > 0,
        exact(from),
        exact(to),
        exact(to + by),
        adds_exactly(sum, by),
        holds_number(s, slot, double_of_int(from)),
    ensures
        driven(s, chunk, ReplyView::Nothing, sum, 15 * rounds(from, to, by) + 4 + m)
            == after_output(
            lines(from, by, rounds(from, to, by)),
            driven(
                left_with(s, slot, from + rounds(from, to, by) * by, exit),
                chunk,
                ReplyView::Nothing,
                sum,
                m,
            ),
        ),
    decreases
            (if from <= to {
                to + 1 - from
            } else {
                0
            }),
{
    let n = rounds(from, to, by);
    if from > to {
        assert(n == 0);
        lemma_loop_is_left(s, chunk, slot, bound, exit, sum, from, to, m);
        assert(from + 0 * by == from) by (nonlinear_arith);
        let rest = driven(left_with(s, slot, from, exit), chunk, ReplyView::Nothing, sum, m);
        assert(lines(from, by, 0) + rest.output =~= rest.output);
    } else {
        let later = rounds(from + by, to, by);
        assert(n == 1 + later);
        let rest = 15 * later + 4 + m;
        assert(15 * n + 4 + m == 15 + rest);
        lemma_round_is_run(s, chunk, slot, bound, step, line_break, exit, sum, from, to, by, rest);
        let next = left_with(s, slot, from + by, s.ip);
        assert(exact(from + by)) by {
            assert(magnitude_of(from + by) <= magnitude_of(from) || magnitude_of(from + by)
                <= magnitude_of(to + by));
        }
        assert(next.ip == s.ip);
        assert(next.phase == Phase::Running);
        assert(next.base() == s.base());
        assert(holds_number(next, slot, double_of_int(from + by)));
        for_prints_its_rounds(
            next,
            chunk,
            slot,
            bound,
            step,
            line_break,
            exit,
            sum,
            from + by,
            to,
            by,
            m,
        );
        let last = from + by + later * by;
        assert(last == from + n * by) by (nonlinear_arith)
            requires
                last == from + by + later * by,
                n == 1 + later,
        ;
        assert(next.locals.update(next.base() + slot, ValueView::Number(double_of_int(last)))
            =~= s.locals.update(s.base() + slot, ValueView::Number(double_of_int(last))));
        assert(left_with(next, slot, last, exit) == left_with(s, slot, last, exit));
        let end = driven(left_with(s, slot, last, exit), chunk, ReplyView::Nothing, sum, m);
        let tail = driven(next, chunk, ReplyView::Nothing, sum, rest);
        assert(tail == after_output(lines(from + by, by, later), end));
        assert(lines(from, by, n) == integer_text(from) + seq!['\n'] + lines(
            from + by,
            by,
            later,
        ));
        assert((integer_text(from) + seq!['\n']) + (lines(from + by, by, later) + end.output)
            =~= lines(from, by, n) + end.output);
    }
}

/// The first three steps of the counting program store the start value in the
/// local slot 0 and leave the stack empty.
proof fn lemma_start_is_stored(s: VmState, chunk: ChunkView, value: ValueView)
    requires
        s.phase == Phase::Running,
        s.ip == 0,
        s.stack.len() == 0,
        s.locals.len() == 0,
        s.frames.len() == 0,
        chunk.code.len() >= 3,
        chunk.constants.len() >= 1,
        chunk.constants[0] == value,
        chunk.code[0] == (Instruction { opcode: OpCode::Push, operand: Some(0) }),
        chunk.code[1] == (Instruction { opcode: OpCode::SetLocal, operand: Some(0) }),
        chunk.code[2] == (Instruction { opcode: OpCode::Pop, operand: None }),
    ensures
        run_model(s, chunk, ReplyView::Nothing, 3) == resume(
            VmState { locals: seq![value], ip: 3, ..s },
        ),
{
    let first = step_model(s, chunk, ReplyView::Nothing);
    let s1 = VmState { stack: s.stack.push(value), ip: 1, ..s };
    assert(first == resume(s1));
    let second = step_model(s1, chunk, ReplyView::Nothing);
    let s2 = VmState { locals: seq![value], ..VmState { ip: 2, ..s1 } };
    assert(padded(s.locals, 1).update(0, value) =~= seq![value]);
    assert(second == resume(s2));
    let third = step_model(s2, chunk, ReplyView::Nothing);
    assert(s2.stack.subrange(0, s2.stack.len() - 1) =~= s.stack);
    assert(third == resume(VmState { locals: seq![value], ip: 3, ..s }));
    reveal_with_fuel(run_model, 4);
}

/// At a `Halt` the run ends in two steps: nothing more is written.
proof fn lemma_halt_ends(
    s: VmState,
    chunk: ChunkView,
    sum: spec_fn(u64, u64) -> u64,
)
    requires
        s.phase == Phase::Running,
        s.ip < chunk.code.len(),
        chunk.code.len() < usize::MAX,
        chunk.code[s.ip as int] == (Instruction { opcode: OpCode::Halt, operand: None }),
    ensures
        driven(s, chunk, ReplyView::Nothing, sum, 2) == (Driven {
            output: Seq::empty(),
            step: StepView {
                state: VmState { ip: usize::MAX, phase: Phase::Finished, ..s },
                result: Ok(ActionView::Finished),
            },
        }),
{
    let first = step_model(s, chunk, ReplyView::Nothing);
    let s1 = VmState { ip: usize::MAX, ..s };
    assert(first == resume(s1));
    let second = step_model(s1, chunk, ReplyView::Nothing);
    assert(second == StepView {
        state: VmState { phase: Phase::Finished, ..s1 },
        result: Ok(ActionView::Finished),
    });
    assert(driven(s1, chunk, ReplyView::Nothing, sum, 1) == Driven {
        output: Seq::empty(),
        step: second,
    });
}

/// The program `FOR i := from TO to STEP by`, `? i`, `NEXT` over integers
/// runs its body exactly `rounds(from, to, by)` times, which `rounds_are_counted`
/// shows to be 0 where `from` is above `to` and else one more than the steps
/// that fit between them. Compiled and run from a new machine, with a host that
/// adds exactly, it writes `from`, `from + by`, `from + 2 * by` and so on, as
/// far as they are at most `to`, each followed by a line break, and nothing
/// else; then the run is over, without an error, and the stack is empty.
pub proof fn counting_program_prints_its_rounds(
    variable: Seq<char>,
    from: int,
    to: int,
    by: int,
    sum: spec_fn(u64, u64) -> u64,
)
    requires
        by > 0,
        exact(from),
        exact(to),
        exact(to + by),
        adds_exactly(sum, by),
    ensures
        compiled(counting_program(variable, double_of_int(from), double_of_int(to), double_of_int(by))) is Ok,
        ({
            let chunk = compiled(
                counting_program(variable, double_of_int(from), double_of_int(to), double_of_int(by)),
            )->Ok_0.0;
            let n = rounds(from, to, by);
            let end = driven(
                started(VmState::initial(), Seq::empty()),
                chunk,
                ReplyView::Nothing,
                sum,
                15 * n + 9,
            );
            &&& end.output == lines(from, by, n)
            &&& end.step.result == Ok::<ActionView, RuntimeErrorView>(ActionView::Finished)
            &&& end.step.state.phase == Phase::Finished
            &&& end.step.state.stack.len() == 0
        }),
{
    let a = double_of_int(from);
    counting_program_is_laid_out(variable, a, double_of_int(to), double_of_int(by));
    let chunk = compiled(counting_program(variable, a, double_of_int(to), double_of_int(by)))->Ok_0.0;
    let n = rounds(from, to, by);
    let s0 = started(VmState::initial(), Seq::empty());
    assert(crate::bytecode::lookup(Seq::<(Seq<char>, usize)>::empty(), 0, "Main"@) is None);
    assert(crate::bytecode::lookup(Seq::<(Seq<char>, usize)>::empty(), 0, "main"@) is None);
    assert(s0.phase == Phase::Running);
    lemma_start_is_stored(s0, chunk, ValueView::Number(a));
    let s3 = VmState { locals: seq![ValueView::Number(a)], ip: 3, ..s0 };
    lemma_driven_follows_run(s0, chunk, ReplyView::Nothing, sum, 3, 15 * n + 6);
    assert(3 + (15 * n + 6) == 15 * n + 9);
    assert(15 * n + 6 == 15 * n + 4 + 2);
    assert(s3.base() == 0);
    assert(holds_number(s3, 0, a));
    for_prints_its_rounds(s3, chunk, 0, 1, 3, 2, 17, sum, from, to, by, 2);
    let left = left_with(s3, 0, from + n * by, 17);
    lemma_halt_ends(left, chunk, sum);
    let last = driven(left, chunk, ReplyView::Nothing, sum, 2);
    assert(lines(from, by, n) + last.output =~= lines(from, by, n));
}

} // verus!

//! The run of a whole `CASE`: of the bodies of its labels and its `OTHERWISE`
//! exactly one runs, or none, and the value of the `CASE` is popped.

use super::laws::{first_match, tested_case_runs_the_first_match, tests_labels};
use super::rounds::{
    after_output, driven, lemma_driven_follows_run, lemma_driven_writes, lemma_text_is_written,
    Driven,
};
use super::{resume, step_model, Phase, ReplyView, VmState};
use crate::ast::{ExprView, StmtView};
use crate::bytecode::{ChunkView, Instruction, OpCode, ValueView};
use crate::compiler::cases::value_of;
use vstd::prelude::*;

verus! {

/// What a body does when it is run from the state `x`, with `m` steps to spare
/// after its own `fuel`.
pub open spec fn body_run(
    x: VmState,
    chunk: ChunkView,
    sum: spec_fn(u64, u64) -> u64,
    fuel: nat,
    m: nat,
) -> Driven {
    driven(x, chunk, ReplyView::Nothing, sum, fuel + m)
}

/// Whether the code from `at` up to `to` is a body that, run with the host,
/// takes `fuel` steps, writes `text`, and leaves the machine as it found it,
/// at `to`.
pub open spec fn runs_as(
    chunk: ChunkView,
    sum: spec_fn(u64, u64) -> u64,
    at: usize,
    to: usize,
    fuel: nat,
    text: Seq<char>,
) -> bool {
    forall|x: VmState, m: nat|
        x.phase == Phase::Running && x.ip == at ==> #[trigger] body_run(x, chunk, sum, fuel, m)
            == after_output(
            text,
            driven(VmState { ip: to, ..x }, chunk, ReplyView::Nothing, sum, m),
        )
}

/// What is known of the body of one label: the address of the jump at its end,
/// the steps that it takes, and the text that it writes.
pub struct BodyRun {
    pub end: usize,
    pub fuel: nat,
    pub text: Seq<char>,
}

/// Whether the bodies of the labels run as `bodies` says: the body of each
/// label stands right after the test of the label and runs up to the jump at
/// its end, which goes to `end`.
pub open spec fn bodies_run(
    chunk: ChunkView,
    sum: spec_fn(u64, u64) -> u64,
    labels: Seq<(usize, usize)>,
    bodies: Seq<BodyRun>,
    end: usize,
) -> bool {
    &&& bodies.len() == labels.len()
    &&& forall|i: int|
        0 <= i < labels.len() ==> {
            &&& (#[trigger] labels[i]).0 + 5 <= usize::MAX
            &&& runs_as(
                chunk,
                sum,
                (labels[i].0 + 5) as usize,
                bodies[i].end,
                bodies[i].fuel,
                bodies[i].text,
            )
            &&& bodies[i].end < chunk.code.len()
            &&& chunk.code[bodies[i].end as int] == (Instruction {
                opcode: OpCode::Jump,
                operand: Some(end),
            })
        }
}

/// A jump takes one step.
proof fn lemma_jump_step(
    s: VmState,
    chunk: ChunkView,
    target: usize,
    sum: spec_fn(u64, u64) -> u64,
    m: nat,
)
    requires
        s.phase == Phase::Running,
        s.ip < chunk.code.len(),
        chunk.code[s.ip as int] == (Instruction { opcode: OpCode::Jump, operand: Some(target) }),
    ensures
        driven(s, chunk, ReplyView::Nothing, sum, 1 + m) == driven(
            VmState { ip: target, ..s },
            chunk,
            ReplyView::Nothing,
            sum,
            m,
        ),
{
    let first = step_model(s, chunk, ReplyView::Nothing);
    assert(first == resume(VmState { ip: target, ..s }));
}

/// A `CASE` runs exactly one of its bodies, or none. With the value of the
/// `CASE` on top of the stack and the run at the test of the first label, the
/// run with the host writes what the body of the first matching label writes
/// and nothing else; where no label matches, it writes what the `OTHERWISE`
/// writes, which is nothing where there is none. Then the run stands at the
/// end of the statement, and the value is popped: the stack is as it was
/// before the value was computed.
pub proof fn case_runs_one_body(
    s: VmState,
    chunk: ChunkView,
    labels: Seq<(usize, usize)>,
    cases: Seq<(ExprView, Seq<StmtView>)>,
    bodies: Seq<BodyRun>,
    other: usize,
    otherwise: BodyRun,
    end: usize,
    sum: spec_fn(u64, u64) -> u64,
    m: nat,
)
    requires
        s.phase == Phase::Running,
        s.stack.len() > 0,
        tests_labels(chunk, labels, other),
        labels.len() == cases.len(),
        forall|i: int|
            0 <= i < cases.len() ==> chunk.constants[(#[trigger] labels[i]).1 as int] == value_of(
                cases[i].0,
            ),
        s.ip == (if labels.len() > 0 {
            labels[0].0
        } else {
            other
        }),
        bodies_run(chunk, sum, labels, bodies, end),
        other < chunk.code.len(),
        other < usize::MAX,
        chunk.code[other as int] == (Instruction { opcode: OpCode::Pop, operand: None }),
        runs_as(chunk, sum, (other + 1) as usize, otherwise.end, otherwise.fuel, otherwise.text),
        otherwise.end == end,
    ensures
        match first_match(cases, s.stack.last(), 0) {
            Some(k) => k < cases.len() && driven(
                s,
                chunk,
                ReplyView::Nothing,
                sum,
                4 * k + 5 + bodies[k as int].fuel + 1 + m,
            ) == after_output(
                bodies[k as int].text,
                driven(
                    VmState { stack: s.stack.drop_last(), ip: end, ..s },
                    chunk,
                    ReplyView::Nothing,
                    sum,
                    m,
                ),
            ),
            None => driven(
                s,
                chunk,
                ReplyView::Nothing,
                sum,
                4 * cases.len() + 1 + otherwise.fuel + m,
            ) == after_output(
                otherwise.text,
                driven(
                    VmState { stack: s.stack.drop_last(), ip: end, ..s },
                    chunk,
                    ReplyView::Nothing,
                    sum,
                    m,
                ),
            ),
        },
{
    let popped = VmState { stack: s.stack.drop_last(), ..s };
    let out = VmState { ip: end, ..popped };
    let rest = driven(out, chunk, ReplyView::Nothing, sum, m);
    tested_case_runs_the_first_match(s, chunk, labels, cases, other);
    match first_match(cases, s.stack.last(), 0) {
        Some(k) => {
            let body = bodies[k as int];
            let at = (labels[k as int].0 + 5) as usize;
            let begun = VmState { ip: at, ..popped };
            let after = body.fuel + (1 + m);
            assert(4 * k + 5 + body.fuel + 1 + m == (4 * k + 5) + after);
            lemma_driven_follows_run(s, chunk, ReplyView::Nothing, sum, 4 * k + 5, after);
            assert(labels[k as int].0 + 5 <= usize::MAX);
            assert(runs_as(chunk, sum, at, body.end, body.fuel, body.text));
            let ended = VmState { ip: body.end, ..begun };
            assert(body_run(begun, chunk, sum, body.fuel, 1 + m) == after_output(
                body.text,
                driven(ended, chunk, ReplyView::Nothing, sum, 1 + m),
            ));
            lemma_jump_step(ended, chunk, end, sum, m);
            assert(VmState { ip: end, ..ended } == out);
        },
        None => {
            let n = cases.len();
            let there = VmState { ip: other, ..s };
            let after = 1 + otherwise.fuel + m;
            assert(4 * n + 1 + otherwise.fuel + m == 4 * n + after);
            if n > 0 {
                lemma_driven_follows_run(s, chunk, ReplyView::Nothing, sum, 4 * n, after);
            } else {
                assert(there == s);
            }
            assert(driven(s, chunk, ReplyView::Nothing, sum, 4 * n + after) == driven(
                there,
                chunk,
                ReplyView::Nothing,
                sum,
                after,
            ));
            let first = step_model(there, chunk, ReplyView::Nothing);
            let begun = VmState { ip: (other + 1) as usize, ..popped };
            assert(s.stack.subrange(0, s.stack.len() - 1) =~= s.stack.drop_last());
            assert(first == resume(begun));
            assert(driven(there, chunk, ReplyView::Nothing, sum, after) == driven(
                begun,
                chunk,
                ReplyView::Nothing,
                sum,
                otherwise.fuel + m,
            ));
            assert(body_run(begun, chunk, sum, otherwise.fuel, m) == after_output(
                otherwise.text,
                driven(
                    VmState { ip: otherwise.end, ..begun },
                    chunk,
                    ReplyView::Nothing,
                    sum,
                    m,
                ),
            ));
            assert(VmState { ip: otherwise.end, ..begun } == out);
        },
    }
}

/// No code at all runs as a body that takes no step and writes nothing.
pub proof fn nothing_runs_as_a_body(chunk: ChunkView, sum: spec_fn(u64, u64) -> u64, at: usize)
    ensures
        runs_as(chunk, sum, at, at, 0, Seq::empty()),
{
    assert forall|x: VmState, m: nat| x.phase == Phase::Running && x.ip == at implies #[trigger] body_run(
        x,
        chunk,
        sum,
        0,
        m,
    ) == after_output(
        Seq::empty(),
        driven(VmState { ip: at, ..x }, chunk, ReplyView::Nothing, sum, m),
    ) by {
        let rest = driven(x, chunk, ReplyView::Nothing, sum, m);
        assert(VmState { ip: at, ..x } == x);
        assert(Seq::<char>::empty() + rest.output =~= rest.output);
    }
}

/// Whether the code at `at` prints the text that is the constant `marker` on a
/// line of its own; `line_break` is the constant of the line break.
pub open spec fn prints_marker(chunk: ChunkView, at: int, marker: usize, line_break: usize) -> bool {
    &&& 0 <= at
    &&& at + 4 <= chunk.code.len()
    &&& at + 4 <= usize::MAX
    &&& marker < chunk.constants.len()
    &&& chunk.constants[marker as int] is String
    &&& line_break < chunk.constants.len()
    &&& chunk.constants[line_break as int] == ValueView::String(seq!['\n'])
    &&& chunk.code[at] == (Instruction { opcode: OpCode::Push, operand: Some(marker) })
    &&& chunk.code[at + 1] == (Instruction { opcode: OpCode::Print, operand: None })
    &&& chunk.code[at + 2] == (Instruction { opcode: OpCode::Push, operand: Some(line_break) })
    &&& chunk.code[at + 3] == (Instruction { opcode: OpCode::Print, operand: None })
}

/// A body that prints a marker on a line of its own runs as a body: it takes
/// four steps, writes the marker and a line break, and leaves the machine as
/// it found it.
pub proof fn printing_runs_as_a_body(
    chunk: ChunkView,
    sum: spec_fn(u64, u64) -> u64,
    at: usize,
    marker: usize,
    line_break: usize,
)
    requires
        prints_marker(chunk, at as int, marker, line_break),
    ensures
        runs_as(
            chunk,
            sum,
            at,
            (at + 4) as usize,
            4,
            chunk.constants[marker as int]->String_0 + seq!['\n'],
        ),
{
    let text = chunk.constants[marker as int]->String_0;
    assert forall|x: VmState, m: nat| x.phase == Phase::Running && x.ip == at implies #[trigger] body_run(
        x,
        chunk,
        sum,
        4,
        m,
    ) == after_output(
        text + seq!['\n'],
        driven(VmState { ip: (at + 4) as usize, ..x }, chunk, ReplyView::Nothing, sum, m),
    ) by {
        let x1 = VmState {
            stack: x.stack.push(ValueView::String(text)),
            ip: (x.ip + 1) as usize,
            ..x
        };
        let x2 = VmState { ip: (x.ip + 2) as usize, ..x };
        let x3 = VmState {
            stack: x.stack.push(ValueView::String(seq!['\n'])),
            ip: (x.ip + 3) as usize,
            ..x
        };
        let x4 = VmState { ip: (x.ip + 4) as usize, ..x };
        lemma_text_is_written(x, chunk, marker, text);
        lemma_text_is_written(x2, chunk, line_break, seq!['\n']);
        lemma_driven_writes(x2, x3, x4, chunk, seq!['\n'], sum, m);
        lemma_driven_writes(x, x1, x2, chunk, text, sum, 2 + m);
        let rest = driven(x4, chunk, ReplyView::Nothing, sum, m);
        assert(text + (seq!['\n'] + rest.output) =~= (text + seq!['\n']) + rest.output);
    }
}

} // verus!

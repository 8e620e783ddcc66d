//! Laws of the machine: what holds of every state, and what a compiled `CASE`
//! does when it runs.

use super::{
    get_index_model, resume, run_model, set_index_model, step_model, ActionView, Phase,
    ReplyView, RuntimeErrorView, VmState,
};
use crate::ast::{ExprView, StmtView};
use crate::bytecode::{equal_values, ChunkView, Instruction, OpCode, ValueView};
use crate::compiler::cases::{
    compiled_case_tests_its_labels_in_order, label_places, literal_labels, value_end, value_of,
    value_state,
};
use crate::compiler::{arms_code, compiled};
use crate::number::{counting, index_of, whole_part};
use vstd::prelude::*;

verus! {

/// Whether the number `bits` is outside a sequence of `len` elements: it is
/// below zero, or a NaN, or its whole part is `len` or more.
pub open spec fn outside(bits: u64, len: nat) -> bool {
    !counting(bits) || whole_part(bits) >= len
}

/// Reading an array at an index inside it gives the element at that index,
/// counted from 0: the element at the whole part of the number.
pub proof fn reading_inside_gives_the_element(s: VmState, items: Seq<ValueView>, bits: u64)
    requires
        s.stack.len() >= 2,
        s.peek(0) == ValueView::Number(bits),
        s.peek(1) == ValueView::Array(items),
        items.len() <= usize::MAX,
        !outside(bits, items.len()),
    ensures
        get_index_model(s).result == Ok::<ActionView, RuntimeErrorView>(ActionView::Continue),
        get_index_model(s).state.stack == s.stack.subrange(0, s.stack.len() - 2).push(
            items[whole_part(bits) as int],
        ),
{
}

/// Reading an array or a string at an index outside it is an error, whatever
/// the number: one below zero, a NaN, or one at or above the length. Nothing is
/// pushed: the machine stays as it was.
pub proof fn reading_outside_is_an_error(s: VmState, bits: u64)
    requires
        s.stack.len() >= 2,
        s.peek(0) == ValueView::Number(bits),
        match s.peek(1) {
            ValueView::Array(items) => items.len() <= usize::MAX && outside(bits, items.len()),
            ValueView::String(text) => text.len() <= usize::MAX && outside(bits, text.len()),
            _ => false,
        },
    ensures
        get_index_model(s).state == s,
        get_index_model(s).result == Err::<ActionView, RuntimeErrorView>(
            if counting(bits) {
                RuntimeErrorView::IndexOutOfBounds(index_of(bits))
            } else {
                RuntimeErrorView::IndexBelowZero
            },
        ),
{
}

/// Writing an array at an index inside it changes the element at that index,
/// counted from 0, and nothing else: the array keeps its length and its other
/// elements.
pub proof fn writing_inside_changes_one_element(
    s: VmState,
    items: Seq<ValueView>,
    bits: u64,
    value: ValueView,
)
    requires
        s.stack.len() >= 3,
        s.peek(0) == value,
        s.peek(1) == ValueView::Number(bits),
        s.peek(2) == ValueView::Array(items),
        items.len() <= usize::MAX,
        !outside(bits, items.len()),
    ensures
        set_index_model(s).result == Ok::<ActionView, RuntimeErrorView>(ActionView::Continue),
        set_index_model(s).state.stack.last() matches ValueView::Array(changed) && changed.len()
            == items.len() && changed[whole_part(bits) as int] == value && (forall|i: int|
            0 <= i < items.len() && i != whole_part(bits) ==> changed[i] == items[i]),
{
}

/// Writing an array at an index outside it is an error, whatever the number:
/// one below zero, a NaN, or one at or above the length. The array never grows:
/// the machine stays as it was.
pub proof fn writing_outside_is_an_error(s: VmState, items: Seq<ValueView>, bits: u64)
    requires
        s.stack.len() >= 3,
        s.peek(1) == ValueView::Number(bits),
        s.peek(2) == ValueView::Array(items),
        items.len() <= usize::MAX,
        outside(bits, items.len()),
    ensures
        set_index_model(s).state == s,
        set_index_model(s).result == Err::<ActionView, RuntimeErrorView>(
            if counting(bits) {
                RuntimeErrorView::IndexOutOfBounds(index_of(bits))
            } else {
                RuntimeErrorView::IndexBelowZero
            },
        ),
{
}

/// Whether the code at `at` tests one label of a `CASE` against the constant
/// `constant`: the value on top of the stack is duplicated and compared with
/// the constant; where they differ, the run goes on at `next`; else the value
/// is popped.
pub open spec fn tests_label(chunk: ChunkView, at: int, constant: usize, next: usize) -> bool {
    &&& 0 <= at
    &&& at + 5 <= chunk.code.len()
    &&& at + 5 <= usize::MAX
    &&& constant < chunk.constants.len()
    &&& chunk.code[at] == (Instruction { opcode: OpCode::Dup, operand: None })
    &&& chunk.code[at + 1] == (Instruction { opcode: OpCode::Push, operand: Some(constant) })
    &&& chunk.code[at + 2] == (Instruction { opcode: OpCode::Equal, operand: None })
    &&& chunk.code[at + 3] == (Instruction { opcode: OpCode::JumpIfFalse, operand: Some(next) })
    &&& chunk.code[at + 4] == (Instruction { opcode: OpCode::Pop, operand: None })
}

/// The test of a label of a `CASE` against a constant does not use up the
/// value that is tested. Where the value equals the constant, five steps pop
/// the value and reach the body of the label; where it does not, four steps
/// reach the next label with the value still on top of the stack. Nothing else
/// changes.
pub proof fn label_test_keeps_the_value(s: VmState, chunk: ChunkView, constant: usize, next: usize)
    requires
        s.phase == Phase::Running,
        s.stack.len() > 0,
        tests_label(chunk, s.ip as int, constant, next),
    ensures
        equal_values(s.stack.last(), chunk.constants[constant as int]) ==> run_model(
            s,
            chunk,
            ReplyView::Nothing,
            5,
        ) == resume(VmState { stack: s.stack.drop_last(), ip: (s.ip + 5) as usize, ..s }),
        !equal_values(s.stack.last(), chunk.constants[constant as int]) ==> run_model(
            s,
            chunk,
            ReplyView::Nothing,
            4,
        ) == resume(VmState { ip: next, ..s }),
{
    let value = s.stack.last();
    let label = chunk.constants[constant as int];
    let first = step_model(s, chunk, ReplyView::Nothing);
    let s1 = VmState { stack: s.stack.push(value), ip: (s.ip + 1) as usize, ..s };
    assert(first == resume(s1));
    let second = step_model(s1, chunk, ReplyView::Nothing);
    let s2 = VmState { stack: s1.stack.push(label), ip: (s.ip + 2) as usize, ..s };
    assert(second == resume(s2));
    let third = step_model(s2, chunk, ReplyView::Nothing);
    let s3 = VmState {
        stack: s.stack.push(ValueView::Boolean(equal_values(value, label))),
        ip: (s.ip + 3) as usize,
        ..s
    };
    assert(s2.stack.subrange(0, s2.stack.len() - 2) =~= s.stack);
    assert(third == resume(s3));
    let fourth = step_model(s3, chunk, ReplyView::Nothing);
    assert(s3.stack.subrange(0, s3.stack.len() - 1) =~= s.stack);
    reveal_with_fuel(run_model, 6);
    if equal_values(value, label) {
        let s4 = VmState { ip: (s.ip + 4) as usize, ..s };
        assert(fourth == resume(s4));
        let fifth = step_model(s4, chunk, ReplyView::Nothing);
        assert(s.stack.subrange(0, s.stack.len() - 1) =~= s.stack.drop_last());
        assert(fifth == resume(
            VmState { stack: s.stack.drop_last(), ip: (s.ip + 5) as usize, ..s },
        ));
    } else {
        assert(fourth == resume(VmState { ip: next, ..s }));
    }
}

/// Running `a + b` steps is running `a` steps and then, where the host has
/// nothing to do in between, `b` more.
pub proof fn lemma_run_split(s: VmState, chunk: ChunkView, reply: ReplyView, a: nat, b: nat)
    ensures
        run_model(s, chunk, reply, a + b) == ({
            let first = run_model(s, chunk, reply, a);
            if first.result == Ok::<ActionView, RuntimeErrorView>(ActionView::Continue) && a > 0 {
                run_model(first.state, chunk, ReplyView::Nothing, b)
            } else if a == 0 {
                run_model(s, chunk, reply, b)
            } else {
                first
            }
        }),
    decreases a,
{
    if a > 0 {
        let first = step_model(s, chunk, reply);
        if first.result == Ok::<ActionView, RuntimeErrorView>(ActionView::Continue) {
            lemma_run_split(first.state, chunk, ReplyView::Nothing, (a - 1) as nat, b);
            if a == 1 {
                assert(run_model(first.state, chunk, ReplyView::Nothing, 0) == resume(
                    first.state,
                ));
            }
        }
    }
}

/// The labels of a `CASE` with constant values: for each, the address of its
/// test and the index of its constant. Every test jumps to the next test where
/// the value differs, the last one to `otherwise`.
pub open spec fn tests_labels(chunk: ChunkView, labels: Seq<(usize, usize)>, otherwise: usize) -> bool {
    forall|i: int|
        0 <= i < labels.len() ==> tests_label(
            chunk,
            (#[trigger] labels[i]).0 as int,
            labels[i].1,
            if i + 1 < labels.len() {
                labels[i + 1].0
            } else {
                otherwise
            },
        )
}

/// The first label at or after `from` whose constant equals `value`.
pub open spec fn first_equal(
    chunk: ChunkView,
    labels: Seq<(usize, usize)>,
    value: ValueView,
    from: nat,
) -> Option<nat>
    decreases labels.len() - from,
{
    if from >= labels.len() {
        None
    } else if equal_values(value, chunk.constants[labels[from as int].1 as int]) {
        Some(from)
    } else {
        first_equal(chunk, labels, value, from + 1)
    }
}

/// A `CASE` with constant labels runs the body of the first label that equals
/// its value, and of no other: from the test of the label `from`, with the
/// value on top of the stack, the run reaches the body of the first equal
/// label at or after `from`, with the value popped, after the tests of the
/// labels before it, none of which pops the value or runs a body. Where no
/// label is equal, the run reaches `otherwise` with the value on top of the
/// stack.
pub proof fn case_runs_the_first_equal_label(
    s: VmState,
    chunk: ChunkView,
    labels: Seq<(usize, usize)>,
    otherwise: usize,
    from: nat,
)
    requires
        s.phase == Phase::Running,
        s.stack.len() > 0,
        tests_labels(chunk, labels, otherwise),
        from <= labels.len(),
        s.ip == (if from < labels.len() {
            labels[from as int].0
        } else {
            otherwise
        }),
    ensures
        match first_equal(chunk, labels, s.stack.last(), from) {
            Some(k) => from <= k < labels.len() && run_model(
                s,
                chunk,
                ReplyView::Nothing,
                (4 * (k - from) + 5) as nat,
            ) == resume(
                VmState { stack: s.stack.drop_last(), ip: (labels[k as int].0 + 5) as usize, ..s },
            ),
            None => run_model(s, chunk, ReplyView::Nothing, (4 * (labels.len() - from)) as nat)
                == resume(VmState { ip: otherwise, ..s }),
        },
    decreases labels.len() - from,
{
    if from >= labels.len() {
        assert(run_model(s, chunk, ReplyView::Nothing, 0) == resume(s));
    } else {
        let label = labels[from as int];
        let next = if from + 1 < labels.len() {
            labels[from as int + 1].0
        } else {
            otherwise
        };
        let value = s.stack.last();
        assert(tests_label(chunk, label.0 as int, label.1, next));
        label_test_keeps_the_value(s, chunk, label.1, next);
        if !equal_values(value, chunk.constants[label.1 as int]) {
            let moved = VmState { ip: next, ..s };
            assert(run_model(s, chunk, ReplyView::Nothing, 4) == resume(moved));
            case_runs_the_first_equal_label(moved, chunk, labels, otherwise, from + 1);
            assert(first_equal(chunk, labels, value, from) == first_equal(
                chunk,
                labels,
                value,
                from + 1,
            ));
            match first_equal(chunk, labels, value, from + 1) {
                Some(k) => {
                    let rest = (4 * (k - from - 1) + 5) as nat;
                    lemma_run_split(s, chunk, ReplyView::Nothing, 4, rest);
                    assert(4 + rest == 4 * (k - from) + 5);
                    assert(run_model(s, chunk, ReplyView::Nothing, 4 + rest) == run_model(
                        moved,
                        chunk,
                        ReplyView::Nothing,
                        rest,
                    ));
                },
                None => {
                    let rest = (4 * (labels.len() - from - 1)) as nat;
                    lemma_run_split(s, chunk, ReplyView::Nothing, 4, rest);
                    assert(4 + rest == 4 * (labels.len() - from));
                    assert(run_model(s, chunk, ReplyView::Nothing, 4 + rest) == run_model(
                        moved,
                        chunk,
                        ReplyView::Nothing,
                        rest,
                    ));
                },
            }
        } else {
            assert(first_equal(chunk, labels, value, from) == Some(from));
            assert(4 * (from - from) + 5 == 5);
        }
    }
}

/// The first label at or after `from` whose literal equals `value`.
pub open spec fn first_match(
    cases: Seq<(ExprView, Seq<StmtView>)>,
    value: ValueView,
    from: nat,
) -> Option<nat>
    decreases cases.len() - from,
{
    if from >= cases.len() {
        None
    } else if equal_values(value, value_of(cases[from as int].0)) {
        Some(from)
    } else {
        first_match(cases, value, from + 1)
    }
}

/// The first matching label is a label that equals the value, and no label
/// before it does; where there is none, no label equals the value.
pub proof fn first_match_is_the_first(
    cases: Seq<(ExprView, Seq<StmtView>)>,
    value: ValueView,
    from: nat,
)
    ensures
        match first_match(cases, value, from) {
            Some(k) => from <= k < cases.len() && equal_values(value, value_of(cases[k as int].0))
                && forall|j: int| from <= j < k ==> !equal_values(value, value_of(cases[j].0)),
            None => forall|j: int|
                from <= j < cases.len() ==> !equal_values(value, value_of(cases[j].0)),
        },
    decreases cases.len() - from,
{
    if from < cases.len() && !equal_values(value, value_of(cases[from as int].0)) {
        first_match_is_the_first(cases, value, from + 1);
    }
}

/// Where the constant of each label is the literal of the label, the first
/// equal constant is that of the first matching label.
proof fn lemma_first_equal_matches(
    chunk: ChunkView,
    labels: Seq<(usize, usize)>,
    cases: Seq<(ExprView, Seq<StmtView>)>,
    value: ValueView,
    from: nat,
)
    requires
        labels.len() == cases.len(),
        forall|i: int|
            0 <= i < cases.len() ==> chunk.constants[(#[trigger] labels[i]).1 as int] == value_of(
                cases[i].0,
            ),
    ensures
        first_equal(chunk, labels, value, from) == first_match(cases, value, from),
    decreases cases.len() - from,
{
    if from < cases.len() {
        assert(chunk.constants[labels[from as int].1 as int] == value_of(cases[from as int].0));
        lemma_first_equal_matches(chunk, labels, cases, value, from + 1);
    }
}

/// Tests of labels whose constants are the literals of `cases` lead the run to
/// the body of the first matching label or, where none matches, to `otherwise`.
pub proof fn tested_case_runs_the_first_match(
    s: VmState,
    chunk: ChunkView,
    labels: Seq<(usize, usize)>,
    cases: Seq<(ExprView, Seq<StmtView>)>,
    otherwise: usize,
)
    requires
        s.phase == Phase::Running,
        s.stack.len() > 0,
        tests_labels(chunk, labels, otherwise),
        labels.len() == cases.len(),
        forall|i: int|
            0 <= i < cases.len() ==> chunk.constants[(#[trigger] labels[i]).1 as int] == value_of(
                cases[i].0,
            ),
        s.ip == (if labels.len() > 0 {
            labels[0].0
        } else {
            otherwise
        }),
    ensures
        match first_match(cases, s.stack.last(), 0) {
            Some(i) => i < cases.len() && run_model(
                s,
                chunk,
                ReplyView::Nothing,
                (4 * i + 5) as nat,
            ) == resume(
                VmState { stack: s.stack.drop_last(), ip: (labels[i as int].0 + 5) as usize, ..s },
            ),
            None => run_model(s, chunk, ReplyView::Nothing, (4 * cases.len()) as nat) == resume(
                VmState { ip: otherwise, ..s },
            ),
        },
{
    lemma_first_equal_matches(chunk, labels, cases, s.stack.last(), 0);
    case_runs_the_first_equal_label(s, chunk, labels, otherwise, 0);
}

/// A `CASE` with literal labels that is a statement of a compiled program runs
/// the body of the first label that equals its value, and of no other. When
/// the value of the `CASE` has been computed and lies on top of the stack, the
/// run tests the labels in their order without computing the value again;
/// after the tests of the labels that differ it pops the value and stands at
/// the body of the first matching label, right after the test of that label,
/// having run no other body. Where no label matches, it stands after the
/// labels with the value still on the stack; one more step pops the value, and
/// the run stands where the `OTHERWISE` begins or, where there is none, at
/// the end of the statement.
pub proof fn compiled_case_runs_the_first_equal_label(
    program: Seq<StmtView>,
    k: int,
    expr: ExprView,
    cases: Seq<(ExprView, Seq<StmtView>)>,
    otherwise: Option<Seq<StmtView>>,
    s: VmState,
)
    requires
        0 <= k < program.len(),
        program[k] == (StmtView::Case { expr, cases, otherwise }),
        literal_labels(cases),
        compiled(program) is Ok,
        compiled(program)->Ok_0.0.code.len() <= usize::MAX,
        compiled(program)->Ok_0.0.constants.len() <= usize::MAX,
        s.phase == Phase::Running,
        s.stack.len() > 0,
        s.ip == value_end(program, k, expr),
    ensures
        ({
            let chunk = compiled(program)->Ok_0.0;
            let labels = label_places(value_state(program, k, expr), cases);
            match first_match(cases, s.stack.last(), 0) {
                Some(i) => i < cases.len() && run_model(
                    s,
                    chunk,
                    ReplyView::Nothing,
                    (4 * i + 5) as nat,
                ) == resume(
                    VmState {
                        stack: s.stack.drop_last(),
                        ip: (labels[i as int].0 + 5) as usize,
                        ..s
                    },
                ),
                None => {
                    let after = arms_code(
                        value_state(program, k, expr),
                        cases,
                        cases.len(),
                    )->Ok_0.state.here();
                    &&& run_model(s, chunk, ReplyView::Nothing, (4 * cases.len()) as nat)
                        == resume(VmState { ip: after, ..s })
                    &&& run_model(
                        s,
                        chunk,
                        ReplyView::Nothing,
                        (4 * cases.len() + 1) as nat,
                    ) == resume(
                        VmState { stack: s.stack.drop_last(), ip: (after + 1) as usize, ..s },
                    )
                },
            }
        }),
{
    let chunk = compiled(program)->Ok_0.0;
    let s1 = value_state(program, k, expr);
    let arms = arms_code(s1, cases, cases.len())->Ok_0;
    let labels = label_places(s1, cases);
    compiled_case_tests_its_labels_in_order(program, k, expr, cases, otherwise);
    assert(labels.len() == cases.len());
    if cases.len() == 0 {
        assert(arms.state == s1);
    }
    tested_case_runs_the_first_match(s, chunk, labels, cases, arms.state.here());
    if first_match(cases, s.stack.last(), 0) is None {
        let n = (4 * cases.len()) as nat;
        let there = VmState { ip: arms.state.here(), ..s };
        lemma_pop_step(there, chunk);
        lemma_run_split(s, chunk, ReplyView::Nothing, n, 1);
    }
}

/// A `Pop` takes the top of the stack away and goes on at the next address.
proof fn lemma_pop_step(s: VmState, chunk: ChunkView)
    requires
        s.phase == Phase::Running,
        s.stack.len() > 0,
        s.ip < chunk.code.len(),
        s.ip < usize::MAX,
        chunk.code[s.ip as int] == (Instruction { opcode: OpCode::Pop, operand: None }),
    ensures
        run_model(s, chunk, ReplyView::Nothing, 1) == resume(
            VmState { stack: s.stack.drop_last(), ip: (s.ip + 1) as usize, ..s },
        ),
{
    let first = step_model(s, chunk, ReplyView::Nothing);
    assert(s.stack.subrange(0, s.stack.len() - 1) =~= s.stack.drop_last());
    assert(first == resume(VmState { stack: s.stack.drop_last(), ip: (s.ip + 1) as usize, ..s }));
    reveal_with_fuel(run_model, 2);
}

} // verus!

//! The layout of a compiled `CASE` whose labels are literals: where the test of
//! each label stands, and where it sends the run.

use super::layout::{
    arms_keep, frame, keeps, lemma_arms_keeps, lemma_block_keeps, lemma_expr_keeps,
    lemma_keeps_emit, lemma_keeps_on, lemma_keeps_patch, lemma_keeps_same,
    lemma_later_statements_keep, lemma_on_emit, lemma_on_push, lemma_stmt_keeps, placed,
};
use super::{
    arms_code, block_code, compiled, expr_code, lemma_patch_all_shape, stmt_code, ArmsState,
    CompileError, CompilerState,
};
use crate::ast::{ExprView, StmtView};
use crate::bytecode::{ChunkView, Instruction, OpCode, ValueView};
use crate::vm::laws::{tests_label, tests_labels};
use vstd::prelude::*;

verus! {

/// Whether an expression is a literal: a number, a string, a truth value or
/// `NIL`.
pub open spec fn literal(e: ExprView) -> bool {
    e is Number || e is String || e is Boolean || e is Nil
}

/// The value of a literal.
pub open spec fn value_of(e: ExprView) -> ValueView {
    match e {
        ExprView::Number(bits) => ValueView::Number(bits),
        ExprView::String(text) => ValueView::String(text),
        ExprView::Boolean(b) => ValueView::Boolean(b),
        _ => ValueView::Nil,
    }
}

/// Whether every label of `cases` is a literal.
pub open spec fn literal_labels(cases: Seq<(ExprView, Seq<StmtView>)>) -> bool {
    forall|i: int| 0 <= i < cases.len() ==> literal((#[trigger] cases[i]).0)
}

/// The address at which the test of the label `i` begins, the labels being
/// compiled from the state `s`.
pub open spec fn label_at(s: CompilerState, cases: Seq<(ExprView, Seq<StmtView>)>, i: int) -> int {
    arms_code(s, cases, i as nat)->Ok_0.state.code.len() as int
}

/// The index of the constant of the label `i`.
pub open spec fn constant_at(s: CompilerState, cases: Seq<(ExprView, Seq<StmtView>)>, i: int) -> int {
    arms_code(s, cases, i as nat)->Ok_0.state.constants.len() as int
}

/// The test of a label stands at `at` in the code of `t`: the value on the stack
/// is duplicated and compared with the constant `constant`, which is `value`;
/// where they differ the run goes on at `next`; else the value is popped.
pub open spec fn test_stands(
    t: CompilerState,
    at: int,
    constant: int,
    value: ValueView,
    next: usize,
) -> bool {
    &&& 0 <= at
    &&& at + 5 <= t.code.len()
    &&& 0 <= constant < t.constants.len()
    &&& t.constants[constant] == value
    &&& t.code[at] == (Instruction { opcode: OpCode::Dup, operand: None })
    &&& t.code[at + 1] == (Instruction { opcode: OpCode::Push, operand: Some(constant as usize) })
    &&& t.code[at + 2] == (Instruction { opcode: OpCode::Equal, operand: None })
    &&& t.code[at + 3] == (Instruction { opcode: OpCode::JumpIfFalse, operand: Some(next) })
    &&& t.code[at + 4] == (Instruction { opcode: OpCode::Pop, operand: None })
}

/// Where the test of the label `i` of the first `n` sends the run when the
/// values differ: to the test of the next label, or to `last` after the last.
pub open spec fn next_after(
    s: CompilerState,
    cases: Seq<(ExprView, Seq<StmtView>)>,
    n: int,
    i: int,
    last: usize,
) -> usize {
    if i + 1 < n {
        label_at(s, cases, i + 1) as usize
    } else {
        last
    }
}

/// The test of the label `i` of the first `n` stands in the code of `t`.
pub open spec fn label_tested(
    s: CompilerState,
    cases: Seq<(ExprView, Seq<StmtView>)>,
    n: int,
    t: CompilerState,
    i: int,
    last: usize,
) -> bool {
    test_stands(
        t,
        label_at(s, cases, i),
        constant_at(s, cases, i),
        value_of(cases[i].0),
        next_after(s, cases, n, i, last),
    )
}

/// The place `site` is none of the five instructions of the test at `at`.
pub open spec fn apart(site: usize, at: int) -> bool {
    site < at || site >= at + 5
}

/// The jump at `site` in the code of `t` leaves the body of a label.
pub open spec fn leaves(t: CompilerState, site: usize) -> bool {
    site < t.code.len() && t.code[site as int].opcode == OpCode::Jump
}

/// The layout of the first `n` labels, compiled from the state `s`: the test of
/// each stands in the code and sends the run to the next test, the last one to
/// a place still to be named; the tests stand one after the other; and the
/// jumps that leave the bodies are no part of a test.
pub open spec fn arms_laid(
    s: CompilerState,
    cases: Seq<(ExprView, Seq<StmtView>)>,
    n: int,
    a: ArmsState,
) -> bool {
    &&& a.end_jumps.len() == n
    &&& if n == 0 {
        a.pending is None
    } else {
        a.pending == Some((label_at(s, cases, n - 1) + 3) as usize)
    }
    &&& forall|i: int| 0 <= i < n ==> #[trigger] label_tested(s, cases, n, a.state, i, 0)
    &&& forall|i: int|
        0 <= i < n - 1 ==> #[trigger] label_at(s, cases, i) + 5 <= label_at(s, cases, n - 1)
    &&& forall|i: int, j: int|
        0 <= i < n && 0 <= j < n ==> apart(
            #[trigger] a.end_jumps[j],
            #[trigger] label_at(s, cases, i),
        )
    &&& forall|j: int| 0 <= j < n ==> leaves(a.state, #[trigger] a.end_jumps[j])
}

/// The state after the test of a literal label, compiled from `s`.
pub open spec fn after_test(s: CompilerState, label: ExprView) -> CompilerState {
    s.emit(OpCode::Dup, None).push_value(value_of(label)).emit(OpCode::Equal, None).emit(
        OpCode::JumpIfFalse,
        Some(0),
    ).emit(OpCode::Pop, None)
}

/// One literal label with its body, compiled from `s`: the test stands where
/// the code of `s` ended, the jump that leaves the body is the last
/// instruction, and the code and the constants of `s` are kept.
pub proof fn lemma_arm_laid(s: CompilerState, label: ExprView, body: Seq<StmtView>)
    requires
        s.well_formed(),
        literal(label),
        block_code(after_test(s, label), body, body.len()) is Ok,
        block_code(after_test(s, label), body, body.len())->Ok_0.code.len() < usize::MAX,
    ensures
        expr_code(s.emit(OpCode::Dup, None), label) == Ok::<CompilerState, CompileError>(
            s.emit(OpCode::Dup, None).push_value(value_of(label)),
        ),
        ({
            let s4 = block_code(after_test(s, label), body, body.len())->Ok_0;
            let t = s4.emit(OpCode::Jump, Some(0));
            &&& t.well_formed()
            &&& s.code.len() + 5 <= s4.code.len()
            &&& keeps(s.code.len() as int, s, t)
            &&& frame(s.code.len() as int + 5, after_test(s, label), t)
            &&& test_stands(t, s.code.len() as int, s.constants.len() as int, value_of(label), 0)
            &&& t.code[s4.code.len() as int] == (Instruction {
                opcode: OpCode::Jump,
                operand: Some(0),
            })
        }),
{
    let low = s.code.len() as int;
    let base = low + 5;
    let a = s.emit(OpCode::Dup, None);
    lemma_keeps_emit(low, s, OpCode::Dup, None);
    let b = a.push_value(value_of(label));
    lemma_on_push(low, s, a, value_of(label));
    let c = b.emit(OpCode::Equal, None);
    lemma_on_emit(low, s, b, OpCode::Equal, None);
    let d = c.emit(OpCode::JumpIfFalse, Some(0));
    lemma_on_emit(low, s, c, OpCode::JumpIfFalse, Some(0));
    let e = d.emit(OpCode::Pop, None);
    lemma_on_emit(low, s, d, OpCode::Pop, None);
    assert(e == after_test(s, label));
    assert(e.code.len() == base);
    lemma_block_keeps(low, e, body, body.len());
    lemma_block_keeps(base, e, body, body.len());
    let s4 = block_code(e, body, body.len())->Ok_0;
    lemma_keeps_on(low, s, e, s4);
    lemma_on_emit(low, s, s4, OpCode::Jump, Some(0));
    lemma_on_emit(base, e, s4, OpCode::Jump, Some(0));
    let t = s4.emit(OpCode::Jump, Some(0));
    assert(frame(base, e, t));
    assert(t.code[low] == e.code[low]);
    assert(t.code[low + 1] == e.code[low + 1]);
    assert(t.code[low + 2] == e.code[low + 2]);
    assert(t.code[low + 3] == e.code[low + 3]);
    assert(t.code[low + 4] == e.code[low + 4]);
    assert(t.constants[s.constants.len() as int] == e.constants[s.constants.len() as int]);
}

/// The first `n` literal labels of a `CASE`, compiled from `s`, are laid out as
/// `arms_laid` says.
pub proof fn lemma_arms_laid(s: CompilerState, cases: Seq<(ExprView, Seq<StmtView>)>, n: nat)
    requires
        s.well_formed(),
        literal_labels(cases),
        n <= cases.len(),
        arms_code(s, cases, n) is Ok,
        arms_code(s, cases, n)->Ok_0.state.code.len() <= usize::MAX,
        arms_code(s, cases, n)->Ok_0.state.constants.len() <= usize::MAX,
    ensures
        arms_laid(s, cases, n as int, arms_code(s, cases, n)->Ok_0),
        arms_code(s, cases, n)->Ok_0.state.well_formed(),
    decreases n,
{
    if n > 0 {
        let k = n - 1;
        let before = arms_code(s, cases, k as nat)->Ok_0;
        let b = before.state;
        lemma_arms_keeps(0, s, cases, k as nat);
        assert(arms_keep(0, s, before));
        let target = b.here();
        let s1 = match before.pending {
            Some(site) => b.patch(site, target),
            None => b,
        };
        match before.pending {
            Some(site) => {
                lemma_keeps_patch(0, b, site, target);
            },
            None => {},
        }
        assert(s1.well_formed());
        assert(s1.code.len() == b.code.len());
        assert(s1.constants == b.constants);
        let label = cases[k].0;
        let body = cases[k].1;
        assert(literal(label));
        assert(expr_code(s1.emit(OpCode::Dup, None), label) == Ok::<CompilerState, CompileError>(
            s1.emit(OpCode::Dup, None).push_value(value_of(label)),
        ));
        let e = after_test(s1, label);
        let s4 = block_code(e, body, body.len())->Ok_0;
        let a = arms_code(s, cases, n)->Ok_0;
        let t = a.state;
        assert(t == s4.emit(OpCode::Jump, Some(0)));
        assert(a.end_jumps == before.end_jumps.push(s4.here()));
        lemma_arm_laid(s1, label, body);
        assert(frame(s1.code.len() as int, s1, t));
        lemma_arms_laid(s, cases, k as nat);
        assert(arms_laid(s, cases, k, before));
        assert(label_at(s, cases, k) == b.code.len());
        assert(constant_at(s, cases, k) == b.constants.len());
        assert forall|i: int| 0 <= i < n implies #[trigger] label_tested(s, cases, n as int, t, i, 0) by {
            if i < k {
                assert(label_tested(s, cases, k, b, i, 0));
                let at = label_at(s, cases, i);
                assert(at + 5 <= b.code.len());
                let site = label_at(s, cases, k - 1) + 3;
                assert(label_tested(s, cases, k, b, k - 1, 0));
                assert(before.pending == Some(site as usize));
                assert(s1 == b.patch(site as usize, target));
                if i < k - 1 {
                    assert(label_at(s, cases, i) + 5 <= label_at(s, cases, k - 1));
                    assert(s1.code[at] == b.code[at]);
                    assert(s1.code[at + 1] == b.code[at + 1]);
                    assert(s1.code[at + 2] == b.code[at + 2]);
                    assert(s1.code[at + 3] == b.code[at + 3]);
                    assert(s1.code[at + 4] == b.code[at + 4]);
                    assert(next_after(s, cases, n as int, i, 0) == next_after(s, cases, k, i, 0));
                } else {
                    assert(at + 3 == site);
                    assert(s1.code[at] == b.code[at]);
                    assert(s1.code[at + 1] == b.code[at + 1]);
                    assert(s1.code[at + 2] == b.code[at + 2]);
                    assert(s1.code[at + 3] == (Instruction {
                        opcode: OpCode::JumpIfFalse,
                        operand: Some(target),
                    }));
                    assert(s1.code[at + 4] == b.code[at + 4]);
                    assert(next_after(s, cases, n as int, i, 0) == target);
                }
                assert(t.code[at] == s1.code[at]);
                assert(t.code[at + 1] == s1.code[at + 1]);
                assert(t.code[at + 2] == s1.code[at + 2]);
                assert(t.code[at + 3] == s1.code[at + 3]);
                assert(t.code[at + 4] == s1.code[at + 4]);
                assert(t.constants[constant_at(s, cases, i)] == s1.constants[constant_at(
                    s,
                    cases,
                    i,
                )]);
                assert(test_stands(
                    t,
                    at,
                    constant_at(s, cases, i),
                    value_of(cases[i].0),
                    next_after(s, cases, n as int, i, 0),
                ));
            } else {
                assert(test_stands(
                    t,
                    s1.code.len() as int,
                    s1.constants.len() as int,
                    value_of(label),
                    0,
                ));
                assert(next_after(s, cases, n as int, i, 0) == 0);
            }
        }
        assert forall|i: int| 0 <= i < n - 1 implies #[trigger] label_at(s, cases, i) + 5
            <= label_at(s, cases, n - 1) by {
            assert(label_tested(s, cases, k, b, i, 0));
        }
        assert forall|i: int, j: int| 0 <= i < n && 0 <= j < n implies apart(
            #[trigger] a.end_jumps[j],
            #[trigger] label_at(s, cases, i),
        ) by {
            if j < k {
                assert(leaves(b, before.end_jumps[j]));
                if i < k {
                    assert(apart(before.end_jumps[j], label_at(s, cases, i)));
                }
            } else {
                if i < k {
                    assert(label_tested(s, cases, k, b, i, 0));
                }
            }
        }
        assert forall|j: int| 0 <= j < n implies leaves(t, #[trigger] a.end_jumps[j]) by {
            if j < k {
                assert(leaves(b, before.end_jumps[j]));
                let site = before.end_jumps[j] as int;
                assert(t.code[site] == s1.code[site]);
                assert(s1.code[site].opcode == b.code[site].opcode);
            }
        }
    }
}

/// The places of the tests of the labels of a `CASE`, compiled from the state
/// `s`: for each label, the address of its test and the index of its constant.
pub open spec fn label_places(s: CompilerState, cases: Seq<(ExprView, Seq<StmtView>)>) -> Seq<
    (usize, usize),
> {
    Seq::new(
        cases.len(),
        |i: int| (label_at(s, cases, i) as usize, constant_at(s, cases, i) as usize),
    )
}

/// The state after the labels of a `CASE` and before its `OTHERWISE`: the last
/// test is sent here, where the value is popped.
pub open spec fn after_arms(arms: ArmsState) -> CompilerState {
    match arms.pending {
        Some(site) => arms.state.patch(site, arms.state.here()),
        None => arms.state,
    }.emit(OpCode::Pop, None)
}

/// The state after the `OTHERWISE` of a `CASE`, compiled from `s`.
pub open spec fn after_otherwise(s: CompilerState, otherwise: Option<Seq<StmtView>>) -> Result<
    CompilerState,
    CompileError,
> {
    match otherwise {
        Some(stmts) => block_code(s, stmts, stmts.len()),
        None => Ok(s),
    }
}

/// A `CASE` with literal labels computes its value once and then tests the
/// labels in their order. In the code of the statement, the code of the value
/// stands first, and the test of the first label follows it directly. The test
/// of each label compares the value with the constant of the label and, where
/// they differ, sends the run to the test of the next label; the test of the
/// last label sends it to the place where the value is popped and the
/// `OTHERWISE` begins; the value is popped there also where the `CASE` has no
/// label. The body of each label stands right after its test, and the jump at
/// its end goes to the end of the statement.
pub proof fn case_tests_its_labels_in_order(
    s: CompilerState,
    expr: ExprView,
    cases: Seq<(ExprView, Seq<StmtView>)>,
    otherwise: Option<Seq<StmtView>>,
)
    requires
        s.well_formed(),
        literal_labels(cases),
        stmt_code(s, StmtView::Case { expr, cases, otherwise }) is Ok,
        stmt_code(s, StmtView::Case { expr, cases, otherwise })->Ok_0.code.len() <= usize::MAX,
        stmt_code(s, StmtView::Case { expr, cases, otherwise })->Ok_0.constants.len()
            <= usize::MAX,
    ensures
        expr_code(s, expr) is Ok,
        arms_code(expr_code(s, expr)->Ok_0, cases, cases.len()) is Ok,
        ({
            let t = stmt_code(s, StmtView::Case { expr, cases, otherwise })->Ok_0;
            let s1 = expr_code(s, expr)->Ok_0;
            let arms = arms_code(s1, cases, cases.len())->Ok_0;
            let places = label_places(s1, cases);
            let chunk = ChunkView { code: t.code, constants: t.constants };
            &&& keeps(s.code.len() as int, s, t)
            &&& s1.code.len() <= arms.state.code.len() <= t.code.len()
            &&& cases.len() > 0 ==> places[0].0 == s1.code.len()
            &&& tests_labels(chunk, places, arms.state.here())
            &&& forall|i: int|
                0 <= i < cases.len() ==> chunk.constants[(#[trigger] places[i]).1 as int]
                    == value_of(cases[i].0)
            &&& arms.state.code.len() < t.code.len()
            &&& t.code[arms.state.code.len() as int] == (Instruction {
                opcode: OpCode::Pop,
                operand: None,
            })
            &&& arms.end_jumps.len() == cases.len()
            &&& forall|j: int|
                0 <= j < cases.len() ==> (#[trigger] arms.end_jumps[j]) < t.code.len()
                    && t.code[arms.end_jumps[j] as int] == (Instruction {
                    opcode: OpCode::Jump,
                    operand: Some(t.here()),
                })
        }),
{
    let stmt = StmtView::Case { expr, cases, otherwise };
    let t = stmt_code(s, stmt)->Ok_0;
    let n = cases.len() as int;
    lemma_stmt_keeps(s.code.len() as int, s, stmt);
    lemma_expr_keeps(0, s, expr);
    let s1 = expr_code(s, expr)->Ok_0;
    lemma_arms_keeps(0, s1, cases, cases.len());
    let arms = arms_code(s1, cases, cases.len())->Ok_0;
    let a = arms.state;
    assert(arms_keep(0, s1, arms));
    let low = a.code.len() as int;
    let s2 = after_arms(arms);
    match arms.pending {
        Some(site) => {
            lemma_keeps_patch(0, a, site, a.here());
            lemma_keeps_emit(0, a.patch(site, a.here()), OpCode::Pop, None);
        },
        None => {
            lemma_keeps_emit(0, a, OpCode::Pop, None);
        },
    }
    assert(s2.well_formed());
    assert(s2.constants == a.constants);
    assert(low <= s2.code.len());
    let s3 = after_otherwise(s2, otherwise)->Ok_0;
    assert(after_otherwise(s2, otherwise) is Ok);
    match otherwise {
        Some(stmts) => {
            lemma_block_keeps(s2.code.len() as int, s2, stmts, stmts.len());
        },
        None => {
            lemma_keeps_same(s2.code.len() as int, s2, s3);
        },
    }
    assert(keeps(s2.code.len() as int, s2, s3));
    let target = s3.here();
    assert(t == s3.patch_all(arms.end_jumps, arms.end_jumps.len(), target));
    assert forall|j: int| 0 <= j < arms.end_jumps.len() implies (#[trigger] arms.end_jumps[j])
        < s3.code.len() by {
        assert(placed(arms.end_jumps[j], 0, a));
    }
    lemma_patch_all_shape(s3, arms.end_jumps, arms.end_jumps.len(), target);
    assert(t.code.len() == s3.code.len());
    assert(frame(s2.code.len() as int, s2, s3));
    lemma_arms_laid(s1, cases, cases.len());
    assert(arms_laid(s1, cases, n, arms));
    let places = label_places(s1, cases);
    let chunk = ChunkView { code: t.code, constants: t.constants };
    assert forall|i: int| 0 <= i < n implies tests_label(
        chunk,
        (#[trigger] places[i]).0 as int,
        places[i].1,
        if i + 1 < places.len() {
            places[i + 1].0
        } else {
            a.here()
        },
    ) && chunk.constants[places[i].1 as int] == value_of(cases[i].0) by {
        lemma_test_kept(s1, cases, arms, s3, i);
    }
    assert forall|j: int| 0 <= j < n implies (#[trigger] arms.end_jumps[j]) < t.code.len()
        && t.code[arms.end_jumps[j] as int] == (Instruction {
        opcode: OpCode::Jump,
        operand: Some(t.here()),
    }) by {
        let site = arms.end_jumps[j] as int;
        assert(leaves(a, arms.end_jumps[j]));
        assert(s2.code[site].opcode == a.code[site].opcode);
        assert(s3.code[site] == s2.code[site]);
        assert(t.code[site].opcode == s3.code[site].opcode);
        assert(t.code[site].operand == Some(target));
    }
    if n > 0 {
        assert(label_at(s1, cases, 0) == s1.code.len());
    }
    assert(s2.code[low] == (Instruction { opcode: OpCode::Pop, operand: None }));
    assert(s3.code[low] == s2.code[low]);
    assert forall|j: int| 0 <= j < arms.end_jumps.len() implies arms.end_jumps[j] != low by {
        assert(placed(arms.end_jumps[j], 0, a));
    }
    assert(t.code[low] == s3.code[low]);
}

/// The test of the label `i` of a `CASE` stands in the finished code as it stood
/// after the labels, and its jump goes to the next test or, from the last test,
/// to the place after the labels.
pub proof fn lemma_test_kept(
    s1: CompilerState,
    cases: Seq<(ExprView, Seq<StmtView>)>,
    arms: ArmsState,
    s3: CompilerState,
    i: int,
)
    requires
        0 <= i < cases.len(),
        arms_laid(s1, cases, cases.len() as int, arms),
        arms.state.well_formed(),
        s3.code.len() <= usize::MAX,
        s3.constants.len() <= usize::MAX,
        after_arms(arms).code.len() <= s3.code.len(),
        frame(after_arms(arms).code.len() as int, after_arms(arms), s3),
        forall|j: int|
            0 <= j < arms.end_jumps.len() ==> (#[trigger] arms.end_jumps[j]) < s3.code.len(),
    ensures
        ({
            let t = s3.patch_all(arms.end_jumps, arms.end_jumps.len(), s3.here());
            let places = label_places(s1, cases);
            let chunk = ChunkView { code: t.code, constants: t.constants };
            &&& tests_label(
                chunk,
                places[i].0 as int,
                places[i].1,
                if i + 1 < places.len() {
                    places[i + 1].0
                } else {
                    arms.state.here()
                },
            )
            &&& chunk.constants[places[i].1 as int] == value_of(cases[i].0)
        }),
{
    let n = cases.len() as int;
    let a = arms.state;
    let s2 = after_arms(arms);
    let t = s3.patch_all(arms.end_jumps, arms.end_jumps.len(), s3.here());
    lemma_patch_all_shape(s3, arms.end_jumps, arms.end_jumps.len(), s3.here());
    let at = label_at(s1, cases, i);
    let c = constant_at(s1, cases, i);
    assert(label_tested(s1, cases, n, a, i, 0));
    assert(label_tested(s1, cases, n, a, n - 1, 0));
    let site = label_at(s1, cases, n - 1) + 3;
    assert(arms.pending == Some(site as usize));
    let p = a.patch(site as usize, a.here());
    assert(s2 == p.emit(OpCode::Pop, None));
    if i < n - 1 {
        assert(label_at(s1, cases, i) + 5 <= label_at(s1, cases, n - 1));
    }
    assert(s2.code[at] == a.code[at]);
    assert(s2.code[at + 1] == a.code[at + 1]);
    assert(s2.code[at + 2] == a.code[at + 2]);
    assert(s2.code[at + 4] == a.code[at + 4]);
    let next = if i + 1 < n {
        label_at(s1, cases, i + 1) as usize
    } else {
        a.here()
    };
    assert(s2.code[at + 3] == (Instruction { opcode: OpCode::JumpIfFalse, operand: Some(next) }));
    assert(s3.code[at] == s2.code[at]);
    assert(s3.code[at + 1] == s2.code[at + 1]);
    assert(s3.code[at + 2] == s2.code[at + 2]);
    assert(s3.code[at + 3] == s2.code[at + 3]);
    assert(s3.code[at + 4] == s2.code[at + 4]);
    assert(s3.constants[c] == s2.constants[c]);
    assert forall|k: int| at <= k < at + 5 implies t.code[k] == s3.code[k] by {
        assert forall|j: int| 0 <= j < arms.end_jumps.len() implies arms.end_jumps[j] != k by {
            assert(apart(arms.end_jumps[j], label_at(s1, cases, i)));
        }
    }
    assert(t.code[at] == s3.code[at]);
    assert(t.code[at + 1] == s3.code[at + 1]);
    assert(t.code[at + 2] == s3.code[at + 2]);
    assert(t.code[at + 3] == s3.code[at + 3]);
    assert(t.code[at + 4] == s3.code[at + 4]);
    let places = label_places(s1, cases);
    assert(places[i].0 == at);
    assert(places[i].1 == c);
    if i + 1 < n {
        assert(places[i + 1].0 == label_at(s1, cases, i + 1) as usize);
    }
}

/// The state in which the value of the `CASE` that is the statement `k` of a
/// program has been compiled, and its labels have not.
pub open spec fn value_state(program: Seq<StmtView>, k: int, expr: ExprView) -> CompilerState {
    expr_code(block_code(CompilerState::initial(), program, k as nat)->Ok_0, expr)->Ok_0
}

/// The address at which the code of the value of that `CASE` ends.
pub open spec fn value_end(program: Seq<StmtView>, k: int, expr: ExprView) -> int {
    value_state(program, k, expr).code.len() as int
}

/// A `CASE` with literal labels that is a statement of the program itself keeps
/// its layout in the compiled chunk: there too the tests of its labels stand in
/// their order, the first right after the code of the value, each comparing the
/// value with the constant of its label and sending the run, where they differ,
/// to the next test, the last one to the place after the labels.
pub proof fn compiled_case_tests_its_labels_in_order(
    program: Seq<StmtView>,
    k: int,
    expr: ExprView,
    cases: Seq<(ExprView, Seq<StmtView>)>,
    otherwise: Option<Seq<StmtView>>,
)
    requires
        0 <= k < program.len(),
        program[k] == (StmtView::Case { expr, cases, otherwise }),
        literal_labels(cases),
        compiled(program) is Ok,
        compiled(program)->Ok_0.0.code.len() <= usize::MAX,
        compiled(program)->Ok_0.0.constants.len() <= usize::MAX,
    ensures
        block_code(CompilerState::initial(), program, k as nat) is Ok,
        expr_code(block_code(CompilerState::initial(), program, k as nat)->Ok_0, expr) is Ok,
        arms_code(value_state(program, k, expr), cases, cases.len()) is Ok,
        ({
            let chunk = compiled(program)->Ok_0.0;
            let s1 = value_state(program, k, expr);
            let arms = arms_code(s1, cases, cases.len())->Ok_0;
            let places = label_places(s1, cases);
            &&& value_end(program, k, expr) <= usize::MAX
            &&& cases.len() > 0 ==> places[0].0 == value_end(program, k, expr)
            &&& tests_labels(chunk, places, arms.state.here())
            &&& arms.state.code.len() < chunk.code.len()
            &&& chunk.code[arms.state.code.len() as int] == (Instruction {
                opcode: OpCode::Pop,
                operand: None,
            })
            &&& forall|i: int|
                0 <= i < cases.len() ==> chunk.constants[(#[trigger] places[i]).1 as int]
                    == value_of(cases[i].0)
        }),
{
    let start = CompilerState::initial();
    let n = program.len();
    let end = block_code(start, program, n)->Ok_0;
    let chunk = compiled(program)->Ok_0.0;
    assert(chunk.code == end.code.push(Instruction { opcode: OpCode::Halt, operand: None }));
    assert(chunk.constants == end.constants);
    lemma_later_statements_keep(start, program, (k + 1) as nat, n);
    lemma_later_statements_keep(start, program, k as nat, (k + 1) as nat);
    let s0 = block_code(start, program, k as nat)->Ok_0;
    let t = block_code(start, program, (k + 1) as nat)->Ok_0;
    assert(block_code(start, program, (k + 1) as nat) == stmt_code(s0, program[k]));
    assert(frame(t.code.len() as int, t, end));
    case_tests_its_labels_in_order(s0, expr, cases, otherwise);
    let s1 = expr_code(s0, expr)->Ok_0;
    let arms = arms_code(s1, cases, cases.len())->Ok_0;
    let places = label_places(s1, cases);
    let local = ChunkView { code: t.code, constants: t.constants };
    let low = arms.state.code.len() as int;
    assert(chunk.code[low] == end.code[low]);
    assert(end.code[low] == t.code[low]);
    assert forall|i: int| 0 <= i < places.len() implies tests_label(
        chunk,
        (#[trigger] places[i]).0 as int,
        places[i].1,
        if i + 1 < places.len() {
            places[i + 1].0
        } else {
            arms.state.here()
        },
    ) && chunk.constants[places[i].1 as int] == value_of(cases[i].0) by {
        let at = places[i].0 as int;
        assert(tests_label(
            local,
            at,
            places[i].1,
            if i + 1 < places.len() {
                places[i + 1].0
            } else {
                arms.state.here()
            },
        ));
        assert(chunk.code[at] == end.code[at]);
        assert(chunk.code[at + 1] == end.code[at + 1]);
        assert(chunk.code[at + 2] == end.code[at + 2]);
        assert(chunk.code[at + 3] == end.code[at + 3]);
        assert(chunk.code[at + 4] == end.code[at + 4]);
        assert(end.code[at] == t.code[at]);
        assert(end.code[at + 1] == t.code[at + 1]);
        assert(end.code[at + 2] == t.code[at + 2]);
        assert(end.code[at + 3] == t.code[at + 3]);
        assert(end.code[at + 4] == t.code[at + 4]);
        assert(end.constants[places[i].1 as int] == t.constants[places[i].1 as int]);
    }
}

} // verus!

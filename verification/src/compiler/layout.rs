//! The layout of compiled code: what a piece of syntax leaves of the code that
//! was emitted before it.
//!
//! Compiling goes forward. A piece of syntax appends instructions, and patches
//! jumps among the instructions that it appended itself; the jumps of its
//! `EXIT`s it leaves, registered, to the loop around it. So the code below the
//! place where a piece of syntax begins stays as it was.

use super::{
    arms_code, binary_opcode, block_code, expr_code, exprs_code, lemma_patch_all_shape,
    optional_code, print_code, prints, prints_line, stmt_code, unary_opcode, ArmsState,
    CompilerState,
};
use crate::ast::{ExprView, StmtView, VarScope};
use crate::bytecode::{OpCode, ValueView};
use crate::number::ONE;
use vstd::prelude::*;

verus! {

/// The places `b` are the places `a` and then places from `lo` up to `hi`.
pub open spec fn grown(a: Seq<usize>, b: Seq<usize>, lo: int, hi: int) -> bool {
    &&& a.len() <= b.len()
    &&& forall|k: int| 0 <= k < a.len() ==> b[k] == a[k]
    &&& forall|k: int| a.len() <= k < b.len() ==> lo <= #[trigger] b[k] < hi
}

/// The jumps that `t` has registered with its innermost loop, from the one at
/// `from` on, are jumps.
pub open spec fn jumps_from(t: CompilerState, from: int) -> bool {
    forall|k: int|
        from <= k < t.loops.last().len() ==> t.code[(#[trigger] t.loops.last()[k]) as int].opcode
            == OpCode::Jump
}

/// The state `t` has the code of `s` below `base`, and everywhere the opcodes
/// of `s`; it has the constants of `s` under their indexes, and the open loops
/// of `s`, the innermost of which may have more registered jumps, all of them
/// jumps at `base` or above.
pub open spec fn frame(base: int, s: CompilerState, t: CompilerState) -> bool {
    &&& forall|i: int| 0 <= i < base ==> #[trigger] t.code[i] == s.code[i]
    &&& forall|i: int| 0 <= i < s.code.len() ==> (#[trigger] t.code[i]).opcode == s.code[i].opcode
    &&& s.constants.len() <= t.constants.len()
    &&& forall|i: int| 0 <= i < s.constants.len() ==> #[trigger] t.constants[i] == s.constants[i]
    &&& forall|j: int| 0 <= j < s.loops.len() - 1 ==> #[trigger] t.loops[j] == s.loops[j]
    &&& s.loops.len() > 0 ==> grown(s.loops.last(), t.loops.last(), base, t.code.len() as int)
    &&& s.loops.len() > 0 ==> jumps_from(t, s.loops.last().len() as int)
}

/// The state `t` is well formed, with as much code as `s` or more and as many
/// open loops.
pub open spec fn grows(s: CompilerState, t: CompilerState) -> bool {
    &&& t.well_formed()
    &&& s.code.len() <= t.code.len()
    &&& t.loops.len() == s.loops.len()
}

/// The state `t` comes after `s` and, as long as every address fits the
/// machine's word, keeps what `s` holds below `base`.
pub open spec fn keeps(base: int, s: CompilerState, t: CompilerState) -> bool {
    grows(s, t) && (t.code.len() <= usize::MAX ==> frame(base, s, t))
}

/// A state with the code, the constants and the loops of `s` keeps `s`.
pub proof fn lemma_keeps_same(base: int, s: CompilerState, t: CompilerState)
    requires
        s.well_formed(),
        t.code == s.code,
        t.constants == s.constants,
        t.loops == s.loops,
    ensures
        keeps(base, s, t),
{
}

/// Keeping goes on: what keeps a state that keeps `a` keeps `a`.
pub proof fn lemma_keeps_on(base: int, a: CompilerState, b: CompilerState, c: CompilerState)
    requires
        keeps(base, a, b),
        keeps(base, b, c),
    ensures
        keeps(base, a, c),
{
    if c.code.len() <= usize::MAX {
        if a.loops.len() > 0 {
            let x = a.loops.last();
            let y = b.loops.last();
            let z = c.loops.last();
            assert(grown(x, y, base, b.code.len() as int));
            assert(grown(y, z, base, c.code.len() as int));
            assert(grown(x, z, base, c.code.len() as int)) by {
                assert forall|k: int| x.len() <= k < z.len() implies base <= #[trigger] z[k]
                    < c.code.len() by {
                    if k < y.len() {
                        assert(z[k] == y[k]);
                    }
                }
            }
        }
    }
}

/// One more instruction keeps the state.
pub proof fn lemma_keeps_emit(base: int, s: CompilerState, opcode: OpCode, operand: Option<usize>)
    requires
        s.well_formed(),
        base <= s.code.len(),
    ensures
        keeps(base, s, s.emit(opcode, operand)),
        s.emit(opcode, operand).code.len() == s.code.len() + 1,
{
    let t = s.emit(opcode, operand);
    assert forall|i: int, j: int|
        0 <= i < t.loops.len() && 0 <= j < t.loops[i].len() implies (#[trigger] t.loops[i][j])
        < t.code.len() by {
        assert(s.loops[i][j] < s.code.len());
    }
}

/// One more constant, with the instruction that pushes it, keeps the state.
pub proof fn lemma_keeps_push(base: int, s: CompilerState, value: ValueView)
    requires
        s.well_formed(),
        base <= s.code.len(),
    ensures
        keeps(base, s, s.push_value(value)),
        s.push_value(value).code.len() == s.code.len() + 1,
{
    let t = s.push_value(value);
    assert forall|i: int, j: int|
        0 <= i < t.loops.len() && 0 <= j < t.loops[i].len() implies (#[trigger] t.loops[i][j])
        < t.code.len() by {
        assert(s.loops[i][j] < s.code.len());
    }
}

/// Reading a variable keeps the state.
pub proof fn lemma_keeps_load(base: int, s: CompilerState, name: Seq<char>)
    requires
        s.well_formed(),
        base <= s.code.len(),
    ensures
        keeps(base, s, s.load_variable(name)),
{
    let t = s.load_variable(name);
    assert(t.code.len() == s.code.len() + 1);
    assert(t.loops == s.loops);
    assert forall|i: int, j: int|
        0 <= i < t.loops.len() && 0 <= j < t.loops[i].len() implies (#[trigger] t.loops[i][j])
        < t.code.len() by {
        assert(s.loops[i][j] < s.code.len());
    }
}

/// Writing a variable keeps the state.
pub proof fn lemma_keeps_store(base: int, s: CompilerState, name: Seq<char>)
    requires
        s.well_formed(),
        base <= s.code.len(),
    ensures
        keeps(base, s, s.store_variable(name)),
{
    let t = s.store_variable(name);
    assert(t.code.len() == s.code.len() + 1);
    assert(t.loops == s.loops);
    assert forall|i: int, j: int|
        0 <= i < t.loops.len() && 0 <= j < t.loops[i].len() implies (#[trigger] t.loops[i][j])
        < t.code.len() by {
        assert(s.loops[i][j] < s.code.len());
    }
}

/// The place `site` is an instruction of `t` and, as long as every address fits
/// the machine's word, stands at `base` or above.
pub open spec fn placed(site: usize, base: int, t: CompilerState) -> bool {
    site < t.code.len() && (t.code.len() <= usize::MAX ==> base <= site)
}

/// A new operand for an instruction at `base` or above keeps the state.
pub proof fn lemma_keeps_patch(base: int, t: CompilerState, site: usize, target: usize)
    requires
        t.well_formed(),
        placed(site, base, t),
    ensures
        keeps(base, t, t.patch(site, target)),
        t.patch(site, target).code.len() == t.code.len(),
{
}

/// New operands for instructions at `base` or above keep the state.
pub proof fn lemma_keeps_patches(
    base: int,
    t: CompilerState,
    sites: Seq<usize>,
    n: nat,
    target: usize,
)
    requires
        t.well_formed(),
        n <= sites.len(),
        forall|j: int| 0 <= j < sites.len() ==> placed(#[trigger] sites[j], base, t),
    ensures
        keeps(base, t, t.patch_all(sites, n, target)),
        t.patch_all(sites, n, target).code.len() == t.code.len(),
{
    assert forall|j: int| 0 <= j < sites.len() implies (#[trigger] sites[j]) < t.code.len() by {
        assert(placed(sites[j], base, t));
    }
    lemma_patch_all_shape(t, sites, n, target);
    let r = t.patch_all(sites, n, target);
    if r.code.len() <= usize::MAX {
        assert forall|i: int| 0 <= i < base implies #[trigger] r.code[i] == t.code[i] by {
            assert forall|j: int| 0 <= j < n implies sites[j] != i by {
                assert(placed(sites[j], base, t));
            }
        }
    }
}

/// An `EXIT` keeps the state: its jump is registered with the innermost loop.
pub proof fn lemma_keeps_exit(base: int, s: CompilerState)
    requires
        s.well_formed(),
        base <= s.code.len(),
        s.loops.len() > 0,
    ensures
        keeps(base, s, s.register_exit()),
{
    let t = s.register_exit();
    assert(t.code.len() == s.code.len() + 1);
    assert forall|i: int, j: int|
        0 <= i < t.loops.len() && 0 <= j < t.loops[i].len() implies (#[trigger] t.loops[i][j])
        < t.code.len() by {
        if i < s.loops.len() - 1 || j < s.loops[i].len() {
            assert(s.loops[i][j] < s.code.len());
        }
    }
}

/// Closing a loop keeps the state in which the loop was opened: where `t` keeps
/// the state `v` with the loop opened, and `v` keeps `s`, the state `t` with the
/// loop closed keeps `s`.
pub proof fn lemma_keeps_close(
    base: int,
    s: CompilerState,
    v: CompilerState,
    t: CompilerState,
    target: usize,
)
    requires
        0 <= base,
        keeps(base, s, v),
        keeps(base, v.open_loop(), t),
    ensures
        keeps(base, s, t.close_loop(target)),
        t.close_loop(target).code.len() == t.code.len(),
        t.code.len() <= usize::MAX ==> t.close_loop(target).loops == v.loops,
{
    let o = v.open_loop();
    let sites = t.loops.last();
    let opened = CompilerState { loops: t.loops.drop_last(), ..t };
    let r = t.close_loop(target);
    assert(t.loops.len() == v.loops.len() + 1);
    assert forall|j: int| 0 <= j < sites.len() implies (#[trigger] sites[j]) < opened.code.len() by {
        assert(t.loops[t.loops.len() - 1][j] < t.code.len());
    }
    lemma_patch_all_shape(opened, sites, sites.len(), target);
    assert(r.loops == t.loops.drop_last());
    assert forall|i: int, j: int|
        0 <= i < r.loops.len() && 0 <= j < r.loops[i].len() implies (#[trigger] r.loops[i][j])
        < r.code.len() by {
        assert(t.loops[i][j] < t.code.len());
    }
    if r.code.len() <= usize::MAX {
        assert(frame(base, o, t));
        assert(frame(base, s, v));
        assert(grown(o.loops.last(), sites, base, t.code.len() as int));
        assert forall|i: int| 0 <= i < base implies #[trigger] r.code[i] == s.code[i] by {
            assert forall|j: int| 0 <= j < sites.len() implies sites[j] != i by {
                assert(base <= sites[j]);
            }
            assert(r.code[i] == t.code[i]);
            assert(t.code[i] == o.code[i]);
            assert(v.code[i] == s.code[i]);
        }
        assert forall|j: int| 0 <= j < v.loops.len() implies r.loops[j] == v.loops[j] by {
            assert(t.loops[j] == o.loops[j]);
        }
        assert(r.loops =~= v.loops);
    }
}

/// One more instruction after a state that keeps `s` keeps `s`.
pub proof fn lemma_on_emit(
    base: int,
    s: CompilerState,
    t: CompilerState,
    opcode: OpCode,
    operand: Option<usize>,
)
    requires
        0 <= base <= s.code.len(),
        keeps(base, s, t),
    ensures
        keeps(base, s, t.emit(opcode, operand)),
        t.emit(opcode, operand).code.len() == t.code.len() + 1,
{
    lemma_keeps_emit(base, t, opcode, operand);
    lemma_keeps_on(base, s, t, t.emit(opcode, operand));
}

/// One more constant after a state that keeps `s` keeps `s`.
pub proof fn lemma_on_push(base: int, s: CompilerState, t: CompilerState, value: ValueView)
    requires
        0 <= base <= s.code.len(),
        keeps(base, s, t),
    ensures
        keeps(base, s, t.push_value(value)),
        t.push_value(value).code.len() == t.code.len() + 1,
{
    lemma_keeps_push(base, t, value);
    lemma_keeps_on(base, s, t, t.push_value(value));
}

/// The code of an expression keeps the state.
pub proof fn lemma_expr_keeps(base: int, s: CompilerState, e: ExprView)
    requires
        s.well_formed(),
        0 <= base <= s.code.len(),
        expr_code(s, e) is Ok,
    ensures
        keeps(base, s, expr_code(s, e)->Ok_0),
        expr_code(s, e)->Ok_0.loops == s.loops,
    decreases e, 0nat,
{
    match e {
        ExprView::Number(bits) => lemma_keeps_push(base, s, ValueView::Number(bits)),
        ExprView::String(text) => lemma_keeps_push(base, s, ValueView::String(text)),
        ExprView::Boolean(b) => lemma_keeps_push(base, s, ValueView::Boolean(b)),
        ExprView::Nil => lemma_keeps_push(base, s, ValueView::Nil),
        ExprView::Variable(name) => lemma_keeps_load(base, s, name),
        ExprView::Binary { left, operator, right } => {
            lemma_expr_keeps(base, s, *left);
            let s1 = expr_code(s, *left)->Ok_0;
            lemma_expr_keeps(base, s1, *right);
            let s2 = expr_code(s1, *right)->Ok_0;
            lemma_keeps_on(base, s, s1, s2);
            lemma_on_emit(base, s, s2, binary_opcode(operator), None);
        },
        ExprView::Unary { operator, operand } => {
            lemma_expr_keeps(base, s, *operand);
            let s1 = expr_code(s, *operand)->Ok_0;
            lemma_on_emit(base, s, s1, unary_opcode(operator), None);
        },
        ExprView::Call { name, args } => {
            if name == "__SET_INDEX__"@ {
                lemma_exprs_keeps(base, s, args, 3);
                let s1 = exprs_code(s, args, 3)->Ok_0;
                lemma_on_emit(base, s, s1, OpCode::SetIndex, None);
                let s2 = s1.emit(OpCode::SetIndex, None);
                match args[0] {
                    ExprView::Variable(target) => {
                        lemma_keeps_store(base, s2, target);
                        lemma_keeps_on(base, s, s2, s2.store_variable(target));
                    },
                    _ => {},
                }
            } else if prints(name) {
                lemma_print_keeps(base, s, args, args.len());
                let s1 = print_code(s, args, args.len())->Ok_0;
                if prints_line(name) {
                    lemma_on_push(base, s, s1, ValueView::String("\n"@));
                    lemma_on_emit(
                        base,
                        s,
                        s1.push_value(ValueView::String("\n"@)),
                        OpCode::Print,
                        None,
                    );
                }
            } else {
                let s0 = s.push_value(ValueView::String(name));
                lemma_keeps_push(base, s, ValueView::String(name));
                lemma_exprs_keeps(base, s0, args, args.len());
                let s1 = exprs_code(s0, args, args.len())->Ok_0;
                lemma_keeps_on(base, s, s0, s1);
                lemma_on_emit(base, s, s1, OpCode::Call, Some(args.len() as usize));
            }
        },
        ExprView::Index { object, index } => {
            lemma_expr_keeps(base, s, *object);
            let s1 = expr_code(s, *object)->Ok_0;
            lemma_expr_keeps(base, s1, *index);
            let s2 = expr_code(s1, *index)->Ok_0;
            lemma_keeps_on(base, s, s1, s2);
            lemma_on_emit(base, s, s2, OpCode::GetIndex, None);
        },
        ExprView::Assign { name, value } => {
            lemma_expr_keeps(base, s, *value);
            let s1 = expr_code(s, *value)->Ok_0;
            lemma_keeps_store(base, s1, name);
            lemma_keeps_on(base, s, s1, s1.store_variable(name));
        },
        ExprView::Array(items) => {
            lemma_exprs_keeps(base, s, items, items.len());
            let s1 = exprs_code(s, items, items.len())->Ok_0;
            lemma_on_emit(base, s, s1, OpCode::MakeArray, Some(items.len() as usize));
        },
    }
}

/// The code of a list of expressions keeps the state.
pub proof fn lemma_exprs_keeps(base: int, s: CompilerState, items: Seq<ExprView>, n: nat)
    requires
        s.well_formed(),
        0 <= base <= s.code.len(),
        exprs_code(s, items, n) is Ok,
    ensures
        keeps(base, s, exprs_code(s, items, n)->Ok_0),
        exprs_code(s, items, n)->Ok_0.loops == s.loops,
    decreases items, n,
{
    if n == 0 || n > items.len() {
        lemma_keeps_same(base, s, s);
    } else {
        lemma_exprs_keeps(base, s, items, (n - 1) as nat);
        let s1 = exprs_code(s, items, (n - 1) as nat)->Ok_0;
        lemma_expr_keeps(base, s1, items[n - 1]);
        lemma_keeps_on(base, s, s1, expr_code(s1, items[n - 1])->Ok_0);
    }
}

/// The code that prints a list of expressions keeps the state.
pub proof fn lemma_print_keeps(base: int, s: CompilerState, args: Seq<ExprView>, n: nat)
    requires
        s.well_formed(),
        0 <= base <= s.code.len(),
        print_code(s, args, n) is Ok,
    ensures
        keeps(base, s, print_code(s, args, n)->Ok_0),
        print_code(s, args, n)->Ok_0.loops == s.loops,
    decreases args, n,
{
    if n == 0 || n > args.len() {
        lemma_keeps_same(base, s, s);
    } else {
        lemma_print_keeps(base, s, args, (n - 1) as nat);
        let s1 = print_code(s, args, (n - 1) as nat)->Ok_0;
        lemma_expr_keeps(base, s1, args[n - 1]);
        let s2 = expr_code(s1, args[n - 1])->Ok_0;
        lemma_keeps_on(base, s, s1, s2);
        lemma_on_emit(base, s, s2, OpCode::Print, None);
        if n < args.len() {
            let s3 = s2.emit(OpCode::Print, None);
            lemma_on_push(base, s, s3, ValueView::String(" "@));
            lemma_on_emit(base, s, s3.push_value(ValueView::String(" "@)), OpCode::Print, None);
        }
    }
}

/// The code of an expression that may be absent keeps the state.
pub proof fn lemma_optional_keeps(
    base: int,
    s: CompilerState,
    e: Option<ExprView>,
    fallback: ValueView,
)
    requires
        s.well_formed(),
        0 <= base <= s.code.len(),
        optional_code(s, e, fallback) is Ok,
    ensures
        keeps(base, s, optional_code(s, e, fallback)->Ok_0),
        optional_code(s, e, fallback)->Ok_0.loops == s.loops,
    decreases e, 1nat,
{
    match e {
        Some(e) => lemma_expr_keeps(base, s, e),
        None => lemma_keeps_push(base, s, fallback),
    }
}

/// What holds of the labels of a `CASE` under compilation: the state keeps the
/// state `s` before them, and the jumps still to be patched stand at `base` or
/// above.
pub open spec fn arms_keep(base: int, s: CompilerState, arms: ArmsState) -> bool {
    &&& keeps(base, s, arms.state)
    &&& arms.pending matches Some(site) ==> placed(site, base, arms.state)
    &&& forall|j: int|
        0 <= j < arms.end_jumps.len() ==> placed(#[trigger] arms.end_jumps[j], base, arms.state)
}

/// The code of a statement keeps the state.
pub proof fn lemma_stmt_keeps(base: int, s: CompilerState, stmt: StmtView)
    requires
        s.well_formed(),
        0 <= base <= s.code.len(),
        stmt_code(s, stmt) is Ok,
    ensures
        keeps(base, s, stmt_code(s, stmt)->Ok_0),
    decreases stmt, 1nat,
{
    match stmt {
        StmtView::VarDecl { name, initializer, scope } => {
            lemma_optional_keeps(base, s, initializer, ValueView::Nil);
            let s1 = optional_code(s, initializer, ValueView::Nil)->Ok_0;
            if scope == VarScope::Local {
                let found = s1.with_local(name);
                lemma_keeps_same(base, s1, found.0);
                lemma_keeps_on(base, s, s1, found.0);
                lemma_on_emit(base, s, found.0, OpCode::SetLocal, Some(found.1));
                lemma_on_emit(
                    base,
                    s,
                    found.0.emit(OpCode::SetLocal, Some(found.1)),
                    OpCode::Pop,
                    None,
                );
            } else {
                let found = s1.with_global(name);
                lemma_keeps_same(base, s1, found.0);
                lemma_keeps_on(base, s, s1, found.0);
                lemma_on_emit(base, s, found.0, OpCode::SetGlobal, Some(found.1));
                lemma_on_emit(
                    base,
                    s,
                    found.0.emit(OpCode::SetGlobal, Some(found.1)),
                    OpCode::Pop,
                    None,
                );
            }
        },
        StmtView::Expression(e) => {
            lemma_expr_keeps(base, s, e);
            lemma_on_emit(base, s, expr_code(s, e)->Ok_0, OpCode::Pop, None);
        },
        StmtView::Function { name, params, body, is_procedure } => {
            lemma_function_keeps(base, s, stmt);
        },
        StmtView::Return(e) => {
            lemma_optional_keeps(base, s, e, ValueView::Nil);
            lemma_on_emit(
                base,
                s,
                optional_code(s, e, ValueView::Nil)->Ok_0,
                OpCode::Return,
                None,
            );
        },
        StmtView::If { condition, then_branch, else_branch } => {
            lemma_if_keeps(base, s, stmt);
        },
        StmtView::While { condition, body } => {
            lemma_while_keeps(base, s, stmt);
        },
        StmtView::For { variable, start, end, step, body } => {
            lemma_for_keeps(base, s, stmt);
        },
        StmtView::DoWhile { body, condition } => {
            lemma_keeps_same(base, s, s);
            let o = s.open_loop();
            lemma_opened(s);
            lemma_block_keeps(base, o, body, body.len());
            let s1 = block_code(o, body, body.len())->Ok_0;
            lemma_expr_keeps(base, s1, condition);
            let s2 = expr_code(s1, condition)->Ok_0;
            lemma_keeps_on(base, o, s1, s2);
            lemma_on_emit(base, o, s2, OpCode::JumpIfTrue, Some(s.here()));
            let s3 = s2.emit(OpCode::JumpIfTrue, Some(s.here()));
            lemma_keeps_close(base, s, s, s3, s3.here());
        },
        StmtView::Exit => {
            lemma_keeps_exit(base, s);
        },
        StmtView::Loop { body } => {
            lemma_keeps_same(base, s, s);
            let o = s.open_loop();
            lemma_opened(s);
            lemma_block_keeps(base, o, body, body.len());
            let s1 = block_code(o, body, body.len())->Ok_0;
            lemma_on_emit(base, o, s1, OpCode::Jump, Some(s.here()));
            let s2 = s1.emit(OpCode::Jump, Some(s.here()));
            lemma_keeps_close(base, s, s, s2, s2.here());
        },
        StmtView::Case { expr, cases, otherwise } => {
            lemma_case_keeps(base, s, stmt);
        },
        StmtView::DbUse { filename, alias } => {
            lemma_keeps_push(base, s, ValueView::String(filename));
            let s1 = s.push_value(ValueView::String(filename));
            lemma_on_emit(base, s, s1, OpCode::DbUse, None);
            lemma_on_emit(base, s, s1.emit(OpCode::DbUse, None), OpCode::Pop, None);
        },
        StmtView::DbSkip(count) => {
            lemma_optional_keeps(base, s, count, ValueView::Number(ONE));
            let s1 = optional_code(s, count, ValueView::Number(ONE))->Ok_0;
            lemma_on_emit(base, s, s1, OpCode::DbSkip, None);
            lemma_on_emit(base, s, s1.emit(OpCode::DbSkip, None), OpCode::Pop, None);
        },
        StmtView::DbGoTop => lemma_keeps_emit(base, s, OpCode::DbGoTop, None),
        StmtView::DbGoBottom => lemma_keeps_emit(base, s, OpCode::DbGoBottom, None),
        StmtView::DbSeek { key } => {
            lemma_expr_keeps(base, s, key);
            let s1 = expr_code(s, key)->Ok_0;
            lemma_on_emit(base, s, s1, OpCode::DbSeek, None);
            lemma_on_emit(base, s, s1.emit(OpCode::DbSeek, None), OpCode::Pop, None);
        },
        StmtView::Replace { field, value } => {
            let s0 = s.push_value(ValueView::String(field));
            lemma_keeps_push(base, s, ValueView::String(field));
            lemma_expr_keeps(base, s0, value);
            let s1 = expr_code(s0, value)->Ok_0;
            lemma_keeps_on(base, s, s0, s1);
            lemma_on_emit(base, s, s1, OpCode::DbReplace, None);
            let s2 = s1.emit(OpCode::DbReplace, None);
            lemma_on_emit(base, s, s2, OpCode::Pop, None);
            lemma_on_emit(base, s, s2.emit(OpCode::Pop, None), OpCode::Pop, None);
        },
        StmtView::Block(stmts) => lemma_block_keeps(base, s, stmts, stmts.len()),
    }
}

/// A state with one more open loop is well formed.
pub proof fn lemma_opened(s: CompilerState)
    requires
        s.well_formed(),
    ensures
        s.open_loop().well_formed(),
        s.open_loop().code == s.code,
{
    let o = s.open_loop();
    assert forall|i: int, j: int|
        0 <= i < o.loops.len() && 0 <= j < o.loops[i].len() implies (#[trigger] o.loops[i][j])
        < o.code.len() by {
        if i < s.loops.len() {
            assert(s.loops[i][j] < s.code.len());
        }
    }
}

/// The code of a function keeps the state.
pub proof fn lemma_function_keeps(base: int, s: CompilerState, stmt: StmtView)
    requires
        s.well_formed(),
        0 <= base <= s.code.len(),
        stmt is Function,
        stmt_code(s, stmt) is Ok,
    ensures
        keeps(base, s, stmt_code(s, stmt)->Ok_0),
    decreases stmt, 0nat,
{
    match stmt {
        StmtView::Function { name, params, body, is_procedure } => {
            let s1 = s.emit(OpCode::Jump, Some(0));
            lemma_keeps_emit(base, s, OpCode::Jump, Some(0));
            let s2 = CompilerState {
                functions: s1.functions.push((name, s1.here())),
                locals: params,
                ..s1
            };
            lemma_keeps_same(base, s1, s2);
            lemma_keeps_on(base, s, s1, s2);
            lemma_block_keeps(base, s2, body, body.len());
            let s3 = block_code(s2, body, body.len())->Ok_0;
            lemma_keeps_on(base, s, s2, s3);
            lemma_on_push(base, s, s3, ValueView::Nil);
            lemma_on_emit(base, s, s3.push_value(ValueView::Nil), OpCode::Return, None);
            let s4 = s3.push_value(ValueView::Nil).emit(OpCode::Return, None);
            lemma_keeps_patch(base, s4, s.here(), s4.here());
            let s5 = s4.patch(s.here(), s4.here());
            lemma_keeps_on(base, s, s4, s5);
            lemma_keeps_same(base, s5, CompilerState { locals: s.locals, ..s5 });
            lemma_keeps_on(base, s, s5, CompilerState { locals: s.locals, ..s5 });
        },
        _ => {},
    }
}

/// The code of an `IF` keeps the state.
pub proof fn lemma_if_keeps(base: int, s: CompilerState, stmt: StmtView)
    requires
        s.well_formed(),
        0 <= base <= s.code.len(),
        stmt is If,
        stmt_code(s, stmt) is Ok,
    ensures
        keeps(base, s, stmt_code(s, stmt)->Ok_0),
    decreases stmt, 0nat,
{
    match stmt {
        StmtView::If { condition, then_branch, else_branch } => {
            lemma_expr_keeps(base, s, condition);
            let s1 = expr_code(s, condition)->Ok_0;
            let then_jump = s1.here();
            lemma_on_emit(base, s, s1, OpCode::JumpIfFalse, Some(0));
            let s1e = s1.emit(OpCode::JumpIfFalse, Some(0));
            lemma_block_keeps(base, s1e, then_branch, then_branch.len());
            let s2 = block_code(s1e, then_branch, then_branch.len())->Ok_0;
            lemma_keeps_on(base, s, s1e, s2);
            match else_branch {
                None => {
                    lemma_keeps_patch(base, s2, then_jump, s2.here());
                    lemma_keeps_on(base, s, s2, s2.patch(then_jump, s2.here()));
                },
                Some(stmts) => {
                    let else_jump = s2.here();
                    lemma_on_emit(base, s, s2, OpCode::Jump, Some(0));
                    let s3 = s2.emit(OpCode::Jump, Some(0));
                    lemma_keeps_patch(base, s3, then_jump, s3.here());
                    let s3p = s3.patch(then_jump, s3.here());
                    lemma_keeps_on(base, s, s3, s3p);
                    lemma_block_keeps(base, s3p, stmts, stmts.len());
                    let s4 = block_code(s3p, stmts, stmts.len())->Ok_0;
                    lemma_keeps_on(base, s, s3p, s4);
                    lemma_keeps_patch(base, s4, else_jump, s4.here());
                    lemma_keeps_on(base, s, s4, s4.patch(else_jump, s4.here()));
                },
            }
        },
        _ => {},
    }
}

/// The code of a `WHILE` keeps the state.
pub proof fn lemma_while_keeps(base: int, s: CompilerState, stmt: StmtView)
    requires
        s.well_formed(),
        0 <= base <= s.code.len(),
        stmt is While,
        stmt_code(s, stmt) is Ok,
    ensures
        keeps(base, s, stmt_code(s, stmt)->Ok_0),
    decreases stmt, 0nat,
{
    match stmt {
        StmtView::While { condition, body } => {
            lemma_expr_keeps(base, s, condition);
            let s1 = expr_code(s, condition)->Ok_0;
            let exit_jump = s1.here();
            lemma_on_emit(base, s, s1, OpCode::JumpIfFalse, Some(0));
            let v = s1.emit(OpCode::JumpIfFalse, Some(0));
            let o = v.open_loop();
            lemma_opened(v);
            lemma_block_keeps(base, o, body, body.len());
            let s2 = block_code(o, body, body.len())->Ok_0;
            lemma_on_emit(base, o, s2, OpCode::Jump, Some(s.here()));
            let s3 = s2.emit(OpCode::Jump, Some(s.here()));
            lemma_keeps_patch(base, s3, exit_jump, s3.here());
            let s3p = s3.patch(exit_jump, s3.here());
            lemma_keeps_on(base, o, s3, s3p);
            lemma_keeps_close(base, s, v, s3p, s3.here());
        },
        _ => {},
    }
}

/// The code of a `FOR` keeps the state.
pub proof fn lemma_for_keeps(base: int, s: CompilerState, stmt: StmtView)
    requires
        s.well_formed(),
        0 <= base <= s.code.len(),
        stmt is For,
        stmt_code(s, stmt) is Ok,
    ensures
        keeps(base, s, stmt_code(s, stmt)->Ok_0),
    decreases stmt, 0nat,
{
    match stmt {
        StmtView::For { variable, start, end, step, body } => {
            lemma_expr_keeps(base, s, start);
            let s1 = expr_code(s, start)->Ok_0;
            let slot = s1.locals.len() as usize;
            let named = CompilerState { locals: s1.locals.push(variable), ..s1 };
            lemma_keeps_same(base, s1, named);
            lemma_keeps_on(base, s, s1, named);
            lemma_on_emit(base, s, named, OpCode::SetLocal, Some(slot));
            lemma_on_emit(base, s, named.emit(OpCode::SetLocal, Some(slot)), OpCode::Pop, None);
            let s2 = named.emit(OpCode::SetLocal, Some(slot)).emit(OpCode::Pop, None);
            lemma_on_emit(base, s, s2, OpCode::GetLocal, Some(slot));
            let s2e = s2.emit(OpCode::GetLocal, Some(slot));
            lemma_expr_keeps(base, s2e, end);
            let s3 = expr_code(s2e, end)->Ok_0;
            lemma_keeps_on(base, s, s2e, s3);
            lemma_on_emit(base, s, s3, OpCode::LessEqual, None);
            let s4 = s3.emit(OpCode::LessEqual, None);
            let exit_jump = s4.here();
            lemma_on_emit(base, s, s4, OpCode::JumpIfFalse, Some(0));
            let v = s4.emit(OpCode::JumpIfFalse, Some(0));
            let o = v.open_loop();
            lemma_opened(v);
            lemma_block_keeps(base, o, body, body.len());
            let s5 = block_code(o, body, body.len())->Ok_0;
            lemma_on_emit(base, o, s5, OpCode::GetLocal, Some(slot));
            let s5e = s5.emit(OpCode::GetLocal, Some(slot));
            lemma_optional_keeps(base, s5e, step, ValueView::Number(ONE));
            let s6 = optional_code(s5e, step, ValueView::Number(ONE))->Ok_0;
            lemma_keeps_on(base, o, s5e, s6);
            lemma_on_emit(base, o, s6, OpCode::Add, None);
            let s6a = s6.emit(OpCode::Add, None);
            lemma_on_emit(base, o, s6a, OpCode::SetLocal, Some(slot));
            lemma_on_emit(base, o, s6a.emit(OpCode::SetLocal, Some(slot)), OpCode::Pop, None);
            let s6b = s6a.emit(OpCode::SetLocal, Some(slot)).emit(OpCode::Pop, None);
            lemma_on_emit(base, o, s6b, OpCode::Jump, Some(s2.here()));
            let s7 = s6b.emit(OpCode::Jump, Some(s2.here()));
            lemma_keeps_patch(base, s7, exit_jump, s7.here());
            let s7p = s7.patch(exit_jump, s7.here());
            lemma_keeps_on(base, o, s7, s7p);
            lemma_keeps_close(base, s, v, s7p, s7.here());
            let closed = s7p.close_loop(s7.here());
            lemma_keeps_same(base, closed, closed.drop_local());
            lemma_keeps_on(base, s, closed, closed.drop_local());
        },
        _ => {},
    }
}

/// The code of a `CASE` keeps the state.
pub proof fn lemma_case_keeps(base: int, s: CompilerState, stmt: StmtView)
    requires
        s.well_formed(),
        0 <= base <= s.code.len(),
        stmt is Case,
        stmt_code(s, stmt) is Ok,
    ensures
        keeps(base, s, stmt_code(s, stmt)->Ok_0),
    decreases stmt, 0nat,
{
    match stmt {
        StmtView::Case { expr, cases, otherwise } => {
            lemma_expr_keeps(base, s, expr);
            let s1 = expr_code(s, expr)->Ok_0;
            lemma_arms_keeps(base, s1, cases, cases.len());
            let arms = arms_code(s1, cases, cases.len())->Ok_0;
            lemma_keeps_on(base, s, s1, arms.state);
            let p = match arms.pending {
                Some(site) => arms.state.patch(site, arms.state.here()),
                None => arms.state,
            };
            match arms.pending {
                Some(site) => {
                    lemma_keeps_patch(base, arms.state, site, arms.state.here());
                    lemma_keeps_on(base, s, arms.state, p);
                },
                None => {},
            }
            lemma_on_emit(base, s, p, OpCode::Pop, None);
            let s2 = p.emit(OpCode::Pop, None);
            assert(keeps(base, s, s2));
            let s3 = match otherwise {
                Some(stmts) => block_code(s2, stmts, stmts.len())->Ok_0,
                None => s2,
            };
            match otherwise {
                Some(stmts) => {
                    lemma_block_keeps(base, s2, stmts, stmts.len());
                    lemma_keeps_on(base, s, s2, s3);
                },
                None => {},
            }
            assert(keeps(base, s, s3));
            assert forall|j: int| 0 <= j < arms.end_jumps.len() implies placed(
                #[trigger] arms.end_jumps[j],
                base,
                s3,
            ) by {
                assert(placed(arms.end_jumps[j], base, arms.state));
            }
            lemma_keeps_patches(base, s3, arms.end_jumps, arms.end_jumps.len(), s3.here());
            lemma_keeps_on(
                base,
                s,
                s3,
                s3.patch_all(arms.end_jumps, arms.end_jumps.len(), s3.here()),
            );
        },
        _ => {},
    }
}

/// The code of a block keeps the state.
pub proof fn lemma_block_keeps(base: int, s: CompilerState, stmts: Seq<StmtView>, n: nat)
    requires
        s.well_formed(),
        0 <= base <= s.code.len(),
        block_code(s, stmts, n) is Ok,
    ensures
        keeps(base, s, block_code(s, stmts, n)->Ok_0),
    decreases stmts, n,
{
    if n == 0 || n > stmts.len() {
        lemma_keeps_same(base, s, s);
    } else {
        lemma_block_keeps(base, s, stmts, (n - 1) as nat);
        let s1 = block_code(s, stmts, (n - 1) as nat)->Ok_0;
        lemma_stmt_keeps(base, s1, stmts[n - 1]);
        lemma_keeps_on(base, s, s1, stmt_code(s1, stmts[n - 1])->Ok_0);
    }
}

/// The code of the labels of a `CASE` keeps the state.
pub proof fn lemma_arms_keeps(
    base: int,
    s: CompilerState,
    arms: Seq<(ExprView, Seq<StmtView>)>,
    n: nat,
)
    requires
        s.well_formed(),
        0 <= base <= s.code.len(),
        arms_code(s, arms, n) is Ok,
    ensures
        arms_keep(base, s, arms_code(s, arms, n)->Ok_0),
    decreases arms, n,
{
    if n == 0 || n > arms.len() {
        lemma_keeps_same(base, s, s);
    } else {
        lemma_arms_keeps(base, s, arms, (n - 1) as nat);
        let before = arms_code(s, arms, (n - 1) as nat)->Ok_0;
        let s1 = match before.pending {
            Some(site) => before.state.patch(site, before.state.here()),
            None => before.state,
        };
        match before.pending {
            Some(site) => {
                lemma_keeps_patch(base, before.state, site, before.state.here());
                lemma_keeps_on(base, s, before.state, s1);
            },
            None => {},
        }
        assert(keeps(base, s, s1));
        lemma_on_emit(base, s, s1, OpCode::Dup, None);
        let s1e = s1.emit(OpCode::Dup, None);
        lemma_expr_keeps(base, s1e, arms[n - 1].0);
        let s2 = expr_code(s1e, arms[n - 1].0)->Ok_0;
        lemma_keeps_on(base, s, s1e, s2);
        lemma_on_emit(base, s, s2, OpCode::Equal, None);
        let s3 = s2.emit(OpCode::Equal, None);
        lemma_on_emit(base, s, s3, OpCode::JumpIfFalse, Some(0));
        let s3a = s3.emit(OpCode::JumpIfFalse, Some(0));
        lemma_on_emit(base, s, s3a, OpCode::Pop, None);
        let s3b = s3a.emit(OpCode::Pop, None);
        lemma_block_keeps(base, s3b, arms[n - 1].1, arms[n - 1].1.len());
        let s4 = block_code(s3b, arms[n - 1].1, arms[n - 1].1.len())->Ok_0;
        lemma_keeps_on(base, s, s3b, s4);
        lemma_on_emit(base, s, s4, OpCode::Jump, Some(0));
        let after = arms_code(s, arms, n)->Ok_0;
        assert(after.state == s4.emit(OpCode::Jump, Some(0)));
        assert(after.end_jumps == before.end_jumps.push(s4.here()));
        assert(after.pending == Some(s3.here()));
        assert forall|j: int| 0 <= j < after.end_jumps.len() implies placed(
            #[trigger] after.end_jumps[j],
            base,
            after.state,
        ) by {
            if j < before.end_jumps.len() {
                assert(placed(before.end_jumps[j], base, before.state));
            }
        }
    }
}

/// The statements of a block that come later keep the code of those that came
/// before: the state after the first `n` statements keeps, from its end down,
/// the state after the first `m`.
pub proof fn lemma_later_statements_keep(s: CompilerState, stmts: Seq<StmtView>, m: nat, n: nat)
    requires
        s.well_formed(),
        m <= n <= stmts.len(),
        block_code(s, stmts, n) is Ok,
    ensures
        block_code(s, stmts, m) is Ok,
        block_code(s, stmts, m)->Ok_0.well_formed(),
        keeps(
            block_code(s, stmts, m)->Ok_0.code.len() as int,
            block_code(s, stmts, m)->Ok_0,
            block_code(s, stmts, n)->Ok_0,
        ),
    decreases n,
{
    if n == m {
        lemma_block_keeps(0, s, stmts, m);
        let sm = block_code(s, stmts, m)->Ok_0;
        lemma_keeps_same(sm.code.len() as int, sm, sm);
    } else {
        lemma_later_statements_keep(s, stmts, m, (n - 1) as nat);
        let sm = block_code(s, stmts, m)->Ok_0;
        let before = block_code(s, stmts, (n - 1) as nat)->Ok_0;
        lemma_stmt_keeps(sm.code.len() as int, before, stmts[n - 1]);
        lemma_keeps_on(sm.code.len() as int, sm, before, stmt_code(before, stmts[n - 1])->Ok_0);
    }
}

} // verus!

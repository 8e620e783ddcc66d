//! The compiler: a program to one chunk of bytecode and a function table.
//!
//! What the compiler emits is defined by `stmt_code` and `expr_code`: functions
//! from a compilation state and a piece of syntax to the next state. A jump whose
//! target is not yet known is emitted with the operand 0 and patched once the
//! target is known; an `EXIT` registers its jump with the innermost open loop,
//! which patches it when the loop is closed.
//!
//! What follows from these definitions about the compiled code is proved in the
//! modules below: `layout` shows that a piece of syntax leaves the code before
//! it as it was, `exits` that a loop sends its own `EXIT`s past its end and
//! those of no other loop, `cases` where the tests of a `CASE` stand, and
//! `rounds` where the test and the step of a `FOR` stand.

use crate::ast::{
    arms_model, exprs_model, names_model, optional_expr_model, stmts_model, BinaryOp, Expr,
    ExprView, Program, Stmt, StmtView, UnaryOp, VarScope,
};
use crate::bytecode::{
    values_model, Chunk, ChunkView, FunctionTable, Instruction, OpCode, Value, ValueView,
};
use crate::number::ONE;
use crate::text::{same_text, to_uppercase, uppercase_of};
use vstd::prelude::*;

pub mod cases;
pub mod exits;
pub mod layout;
pub mod rounds;

verus! {

/// Why a program does not compile.
#[derive(Debug, Clone, Copy, PartialEq, Eq, Structural)]
pub enum CompileError {
    /// An `EXIT` stands outside every loop.
    ExitOutsideLoop,
    /// An indexed assignment does not have the three parts: array, index, value.
    MalformedIndexAssignment,
}

impl CompileError {
    /// The message of the error.
    pub open spec fn text(self) -> Seq<char> {
        match self {
            CompileError::ExitOutsideLoop => "EXIT statement outside of loop"@,
            CompileError::MalformedIndexAssignment => "Internal error: __SET_INDEX__ requires 3 args"@,
        }
    }

    /// The message of the error.
    pub fn message(&self) -> (r: String)
        ensures
            r@ == self.text(),
    {
        match self {
            CompileError::ExitOutsideLoop => "EXIT statement outside of loop".to_owned(),
            CompileError::MalformedIndexAssignment => "Internal error: __SET_INDEX__ requires 3 args".to_owned(),
        }
    }
}

/// The state of a compilation.
pub struct CompilerState {
    /// The instructions emitted so far.
    pub code: Seq<Instruction>,
    /// The constants entered so far.
    pub constants: Seq<ValueView>,
    /// The names of the local slots, by slot index.
    pub locals: Seq<Seq<char>>,
    /// The names of the global slots, by slot index.
    pub globals: Seq<Seq<char>>,
    /// The function table, in the order of entry.
    pub functions: Seq<(Seq<char>, usize)>,
    /// The open loops, innermost last: for each, the places of the jumps that
    /// its `EXIT`s emitted.
    pub loops: Seq<Seq<usize>>,
}

/// The cases of a `CASE` under compilation.
pub struct ArmsState {
    /// The compilation state.
    pub state: CompilerState,
    /// The places of the jumps that leave the bodies of the labels.
    pub end_jumps: Seq<usize>,
    /// The place of the jump that skips the body of the last label.
    pub pending: Option<usize>,
}

/// The index of the last of the first `n` names that is `name`.
pub open spec fn last_index(names: Seq<Seq<char>>, n: nat, name: Seq<char>) -> Option<usize>
    decreases n,
{
    if n == 0 || n > names.len() {
        None
    } else if names[n - 1] == name {
        Some((n - 1) as usize)
    } else {
        last_index(names, (n - 1) as nat, name)
    }
}

/// The index of the first name at or after `from` that is `name`.
pub open spec fn first_index(names: Seq<Seq<char>>, from: nat, name: Seq<char>) -> Option<usize>
    decreases names.len() - from,
{
    if from >= names.len() {
        None
    } else if names[from as int] == name {
        Some(from as usize)
    } else {
        first_index(names, from + 1, name)
    }
}

/// The opcode of a binary operator.
pub open spec fn binary_opcode(op: BinaryOp) -> OpCode {
    match op {
        BinaryOp::Add => OpCode::Add,
        BinaryOp::Subtract => OpCode::Subtract,
        BinaryOp::Multiply => OpCode::Multiply,
        BinaryOp::Divide => OpCode::Divide,
        BinaryOp::Modulo => OpCode::Modulo,
        BinaryOp::Power => OpCode::Power,
        BinaryOp::Equal => OpCode::Equal,
        BinaryOp::NotEqual => OpCode::NotEqual,
        BinaryOp::Less => OpCode::Less,
        BinaryOp::Greater => OpCode::Greater,
        BinaryOp::LessEqual => OpCode::LessEqual,
        BinaryOp::GreaterEqual => OpCode::GreaterEqual,
        BinaryOp::And => OpCode::And,
        BinaryOp::Or => OpCode::Or,
    }
}

/// The opcode of a unary operator.
pub open spec fn unary_opcode(op: UnaryOp) -> OpCode {
    match op {
        UnaryOp::Negate => OpCode::Negate,
        UnaryOp::Not => OpCode::Not,
    }
}

/// Whether a call of `name` prints: `?`, `??` and `PRINT` in any case.
pub open spec fn prints(name: Seq<char>) -> bool {
    name == "?"@ || name == "??"@ || uppercase_of(name) == "PRINT"@
}

/// Whether a call of `name` ends its output with a line break: `?` and `PRINT`.
pub open spec fn prints_line(name: Seq<char>) -> bool {
    name == "?"@ || uppercase_of(name) == "PRINT"@
}

impl CompilerState {
    /// The state before anything is compiled.
    pub open spec fn initial() -> CompilerState {
        CompilerState {
            code: Seq::empty(),
            constants: Seq::empty(),
            locals: Seq::empty(),
            globals: Seq::empty(),
            functions: Seq::empty(),
            loops: Seq::empty(),
        }
    }

    /// Every registered jump of an open loop is an instruction of the code.
    pub open spec fn well_formed(self) -> bool {
        forall|i: int, j: int|
            0 <= i < self.loops.len() && 0 <= j < self.loops[i].len() ==> (
            #[trigger] self.loops[i][j]) < self.code.len()
    }

    /// The code has not shrunk and the same number of loops is open.
    pub open spec fn extends(self, before: CompilerState) -> bool {
        self.code.len() >= before.code.len() && self.loops.len() == before.loops.len()
    }

    /// The address of the next instruction.
    pub open spec fn here(self) -> usize {
        self.code.len() as usize
    }

    /// The state after one more instruction.
    pub open spec fn emit(self, opcode: OpCode, operand: Option<usize>) -> CompilerState {
        CompilerState { code: self.code.push(Instruction { opcode, operand }), ..self }
    }

    /// The state after a new constant and the instruction that pushes it.
    pub open spec fn push_value(self, value: ValueView) -> CompilerState {
        CompilerState {
            code: self.code.push(
                Instruction { opcode: OpCode::Push, operand: Some(self.constants.len() as usize) },
            ),
            constants: self.constants.push(value),
            ..self
        }
    }

    /// The state after the instruction at `at` has taken the operand `target`.
    pub open spec fn patch(self, at: usize, target: usize) -> CompilerState {
        CompilerState {
            code: self.code.update(
                at as int,
                Instruction { opcode: self.code[at as int].opcode, operand: Some(target) },
            ),
            ..self
        }
    }

    /// The state after the first `n` of `sites` have taken the operand `target`.
    pub open spec fn patch_all(self, sites: Seq<usize>, n: nat, target: usize) -> CompilerState
        decreases n,
    {
        if n == 0 || n > sites.len() {
            self
        } else {
            self.patch_all(sites, (n - 1) as nat, target).patch(sites[n - 1], target)
        }
    }

    /// The state with one more open loop.
    pub open spec fn open_loop(self) -> CompilerState {
        CompilerState { loops: self.loops.push(Seq::empty()), ..self }
    }

    /// The state after the innermost loop is closed: its registered jumps go to
    /// `target`.
    pub open spec fn close_loop(self, target: usize) -> CompilerState {
        if self.loops.len() == 0 {
            self
        } else {
            let sites = self.loops.last();
            CompilerState { loops: self.loops.drop_last(), ..self }.patch_all(
                sites,
                sites.len(),
                target,
            )
        }
    }

    /// The state with the global `name`, and its slot: the slot it has, or a new
    /// one after the others.
    pub open spec fn with_global(self, name: Seq<char>) -> (CompilerState, usize) {
        match first_index(self.globals, 0, name) {
            Some(slot) => (self, slot),
            None => (
                CompilerState { globals: self.globals.push(name), ..self },
                self.globals.len() as usize,
            ),
        }
    }

    /// The state after the instruction that reads the variable `name`: the local
    /// that was named last, or else the global.
    pub open spec fn load_variable(self, name: Seq<char>) -> CompilerState {
        match last_index(self.locals, self.locals.len(), name) {
            Some(slot) => self.emit(OpCode::GetLocal, Some(slot)),
            None => {
                let found = self.with_global(name);
                found.0.emit(OpCode::GetGlobal, Some(found.1))
            },
        }
    }

    /// The state after the instruction that writes the variable `name`: the local
    /// that was named last, or else the global.
    pub open spec fn store_variable(self, name: Seq<char>) -> CompilerState {
        match last_index(self.locals, self.locals.len(), name) {
            Some(slot) => self.emit(OpCode::SetLocal, Some(slot)),
            None => {
                let found = self.with_global(name);
                found.0.emit(OpCode::SetGlobal, Some(found.1))
            },
        }
    }

    /// The state with the local `name`, and its slot: the first slot of this name,
    /// or a new one after the others.
    pub open spec fn with_local(self, name: Seq<char>) -> (CompilerState, usize) {
        match first_index(self.locals, 0, name) {
            Some(slot) => (self, slot),
            None => (
                CompilerState { locals: self.locals.push(name), ..self },
                self.locals.len() as usize,
            ),
        }
    }

    /// The state after an `EXIT`: a jump, registered with the innermost loop.
    pub open spec fn register_exit(self) -> CompilerState {
        CompilerState {
            loops: self.loops.update(
                self.loops.len() - 1,
                self.loops.last().push(self.here()),
            ),
            ..self.emit(OpCode::Jump, Some(0))
        }
    }

    /// The state with its last local slot given up.
    pub open spec fn drop_local(self) -> CompilerState {
        if self.locals.len() == 0 {
            self
        } else {
            CompilerState { locals: self.locals.drop_last(), ..self }
        }
    }
}

/// The state after the code of an expression, which leaves the value of the
/// expression on the stack (a call of `?`, `??` or `PRINT` leaves nothing).
pub open spec fn expr_code(s: CompilerState, e: ExprView) -> Result<CompilerState, CompileError>
    decreases e, 0nat,
{
    match e {
        ExprView::Number(bits) => Ok(s.push_value(ValueView::Number(bits))),
        ExprView::String(text) => Ok(s.push_value(ValueView::String(text))),
        ExprView::Boolean(b) => Ok(s.push_value(ValueView::Boolean(b))),
        ExprView::Nil => Ok(s.push_value(ValueView::Nil)),
        ExprView::Variable(name) => Ok(s.load_variable(name)),
        ExprView::Binary { left, operator, right } => match expr_code(s, *left) {
            Err(e) => Err(e),
            Ok(s1) => match expr_code(s1, *right) {
                Err(e) => Err(e),
                Ok(s2) => Ok(s2.emit(binary_opcode(operator), None)),
            },
        },
        ExprView::Unary { operator, operand } => match expr_code(s, *operand) {
            Err(e) => Err(e),
            Ok(s1) => Ok(s1.emit(unary_opcode(operator), None)),
        },
        ExprView::Call { name, args } => if name == "__SET_INDEX__"@ {
            if args.len() != 3 {
                Err(CompileError::MalformedIndexAssignment)
            } else {
                match exprs_code(s, args, 3) {
                    Err(e) => Err(e),
                    Ok(s1) => match args[0] {
                        ExprView::Variable(target) => Ok(
                            s1.emit(OpCode::SetIndex, None).store_variable(target),
                        ),
                        _ => Ok(s1.emit(OpCode::SetIndex, None)),
                    },
                }
            }
        } else if prints(name) {
            match print_code(s, args, args.len()) {
                Err(e) => Err(e),
                Ok(s1) => if prints_line(name) {
                    Ok(s1.push_value(ValueView::String("\n"@)).emit(OpCode::Print, None))
                } else {
                    Ok(s1)
                },
            }
        } else {
            match exprs_code(s.push_value(ValueView::String(name)), args, args.len()) {
                Err(e) => Err(e),
                Ok(s1) => Ok(s1.emit(OpCode::Call, Some(args.len() as usize))),
            }
        },
        ExprView::Index { object, index } => match expr_code(s, *object) {
            Err(e) => Err(e),
            Ok(s1) => match expr_code(s1, *index) {
                Err(e) => Err(e),
                Ok(s2) => Ok(s2.emit(OpCode::GetIndex, None)),
            },
        },
        ExprView::Assign { name, value } => match expr_code(s, *value) {
            Err(e) => Err(e),
            Ok(s1) => Ok(s1.store_variable(name)),
        },
        ExprView::Array(items) => match exprs_code(s, items, items.len()) {
            Err(e) => Err(e),
            Ok(s1) => Ok(s1.emit(OpCode::MakeArray, Some(items.len() as usize))),
        },
    }
}

/// The state after the code of the first `n` of `items`, in order.
pub open spec fn exprs_code(s: CompilerState, items: Seq<ExprView>, n: nat) -> Result<
    CompilerState,
    CompileError,
>
    decreases items, n,
{
    if n == 0 || n > items.len() {
        Ok(s)
    } else {
        match exprs_code(s, items, (n - 1) as nat) {
            Err(e) => Err(e),
            Ok(s1) => expr_code(s1, items[n - 1]),
        }
    }
}

/// The state after the code that prints the first `n` of `args`: each is
/// evaluated and printed, and a space is printed after each but the last of all.
pub open spec fn print_code(s: CompilerState, args: Seq<ExprView>, n: nat) -> Result<
    CompilerState,
    CompileError,
>
    decreases args, n,
{
    if n == 0 || n > args.len() {
        Ok(s)
    } else {
        match print_code(s, args, (n - 1) as nat) {
            Err(e) => Err(e),
            Ok(s1) => match expr_code(s1, args[n - 1]) {
                Err(e) => Err(e),
                Ok(s2) => if n < args.len() {
                    Ok(
                        s2.emit(OpCode::Print, None).push_value(ValueView::String(" "@)).emit(
                            OpCode::Print,
                            None,
                        ),
                    )
                } else {
                    Ok(s2.emit(OpCode::Print, None))
                },
            },
        }
    }
}

/// The state after the code of an expression that may be absent; `fallback` is
/// pushed in its place.
pub open spec fn optional_code(s: CompilerState, e: Option<ExprView>, fallback: ValueView) -> Result<
    CompilerState,
    CompileError,
>
    decreases e, 1nat,
{
    match e {
        Some(e) => expr_code(s, e),
        None => Ok(s.push_value(fallback)),
    }
}

/// The state after the code of a statement, which leaves the stack as it found
/// it: what an assignment, a call or a database statement leaves there is
/// popped by the statement itself.
pub open spec fn stmt_code(s: CompilerState, stmt: StmtView) -> Result<CompilerState, CompileError>
    decreases stmt, 0nat,
{
    match stmt {
        StmtView::VarDecl { name, initializer, scope } => match optional_code(
            s,
            initializer,
            ValueView::Nil,
        ) {
            Err(e) => Err(e),
            Ok(s1) => if scope == VarScope::Local {
                let found = s1.with_local(name);
                Ok(found.0.emit(OpCode::SetLocal, Some(found.1)).emit(OpCode::Pop, None))
            } else {
                let found = s1.with_global(name);
                Ok(found.0.emit(OpCode::SetGlobal, Some(found.1)).emit(OpCode::Pop, None))
            },
        },
        StmtView::Expression(e) => match expr_code(s, e) {
            Err(e) => Err(e),
            Ok(s1) => if e matches ExprView::Call { name, .. } && prints(name) {
                Ok(s1)
            } else {
                Ok(s1.emit(OpCode::Pop, None))
            },
        },
        StmtView::Function { name, params, body, is_procedure } => {
            let guard = s.here();
            let s1 = s.emit(OpCode::Jump, Some(0));
            let s2 = CompilerState {
                functions: s1.functions.push((name, s1.here())),
                locals: params,
                ..s1
            };
            match block_code(s2, body, body.len()) {
                Err(e) => Err(e),
                Ok(s3) => {
                    let s4 = s3.push_value(ValueView::Nil).emit(OpCode::Return, None);
                    Ok(CompilerState { locals: s.locals, ..s4.patch(guard, s4.here()) })
                },
            }
        },
        StmtView::Return(e) => match optional_code(s, e, ValueView::Nil) {
            Err(e) => Err(e),
            Ok(s1) => Ok(s1.emit(OpCode::Return, None)),
        },
        StmtView::If { condition, then_branch, else_branch } => match expr_code(s, condition) {
            Err(e) => Err(e),
            Ok(s1) => {
                let then_jump = s1.here();
                match block_code(
                    s1.emit(OpCode::JumpIfFalse, Some(0)),
                    then_branch,
                    then_branch.len(),
                ) {
                    Err(e) => Err(e),
                    Ok(s2) => match else_branch {
                        None => Ok(s2.patch(then_jump, s2.here())),
                        Some(stmts) => {
                            let else_jump = s2.here();
                            let s3 = s2.emit(OpCode::Jump, Some(0));
                            match block_code(s3.patch(then_jump, s3.here()), stmts, stmts.len()) {
                                Err(e) => Err(e),
                                Ok(s4) => Ok(s4.patch(else_jump, s4.here())),
                            }
                        },
                    },
                }
            },
        },
        StmtView::While { condition, body } => {
            let loop_start = s.here();
            match expr_code(s, condition) {
                Err(e) => Err(e),
                Ok(s1) => {
                    let exit_jump = s1.here();
                    match block_code(
                        s1.emit(OpCode::JumpIfFalse, Some(0)).open_loop(),
                        body,
                        body.len(),
                    ) {
                        Err(e) => Err(e),
                        Ok(s2) => {
                            let s3 = s2.emit(OpCode::Jump, Some(loop_start));
                            Ok(s3.patch(exit_jump, s3.here()).close_loop(s3.here()))
                        },
                    }
                },
            }
        },
        StmtView::For { variable, start, end, step, body } => match expr_code(s, start) {
            Err(e) => Err(e),
            Ok(s1) => {
                let slot = s1.locals.len() as usize;
                let s2 = CompilerState { locals: s1.locals.push(variable), ..s1 }.emit(
                    OpCode::SetLocal,
                    Some(slot),
                ).emit(OpCode::Pop, None);
                let loop_start = s2.here();
                match expr_code(s2.emit(OpCode::GetLocal, Some(slot)), end) {
                    Err(e) => Err(e),
                    Ok(s3) => {
                        let s4 = s3.emit(OpCode::LessEqual, None);
                        let exit_jump = s4.here();
                        match block_code(
                            s4.emit(OpCode::JumpIfFalse, Some(0)).open_loop(),
                            body,
                            body.len(),
                        ) {
                            Err(e) => Err(e),
                            Ok(s5) => match optional_code(
                                s5.emit(OpCode::GetLocal, Some(slot)),
                                step,
                                ValueView::Number(ONE),
                            ) {
                                Err(e) => Err(e),
                                Ok(s6) => {
                                    let s7 = s6.emit(OpCode::Add, None).emit(
                                        OpCode::SetLocal,
                                        Some(slot),
                                    ).emit(OpCode::Pop, None).emit(
                                        OpCode::Jump,
                                        Some(loop_start),
                                    );
                                    Ok(
                                        s7.patch(exit_jump, s7.here()).close_loop(
                                            s7.here(),
                                        ).drop_local(),
                                    )
                                },
                            },
                        }
                    },
                }
            },
        },
        StmtView::DoWhile { body, condition } => {
            let loop_start = s.here();
            match block_code(s.open_loop(), body, body.len()) {
                Err(e) => Err(e),
                Ok(s1) => match expr_code(s1, condition) {
                    Err(e) => Err(e),
                    Ok(s2) => {
                        let s3 = s2.emit(OpCode::JumpIfTrue, Some(loop_start));
                        Ok(s3.close_loop(s3.here()))
                    },
                },
            }
        },
        StmtView::Exit => if s.loops.len() > 0 {
            Ok(s.register_exit())
        } else {
            Err(CompileError::ExitOutsideLoop)
        },
        StmtView::Loop { body } => {
            let loop_start = s.here();
            match block_code(s.open_loop(), body, body.len()) {
                Err(e) => Err(e),
                Ok(s1) => {
                    let s2 = s1.emit(OpCode::Jump, Some(loop_start));
                    Ok(s2.close_loop(s2.here()))
                },
            }
        },
        StmtView::Case { expr, cases, otherwise } => match expr_code(s, expr) {
            Err(e) => Err(e),
            Ok(s1) => match arms_code(s1, cases, cases.len()) {
                Err(e) => Err(e),
                Ok(arms) => {
                    let s2 = match arms.pending {
                        Some(site) => arms.state.patch(site, arms.state.here()),
                        None => arms.state,
                    }.emit(OpCode::Pop, None);
                    let done = match otherwise {
                        Some(stmts) => block_code(s2, stmts, stmts.len()),
                        None => Ok(s2),
                    };
                    match done {
                        Err(e) => Err(e),
                        Ok(s3) => Ok(
                            s3.patch_all(arms.end_jumps, arms.end_jumps.len(), s3.here()),
                        ),
                    }
                },
            },
        },
        StmtView::DbUse { filename, alias } => Ok(
            s.push_value(ValueView::String(filename)).emit(OpCode::DbUse, None).emit(
                OpCode::Pop,
                None,
            ),
        ),
        StmtView::DbSkip(count) => match optional_code(s, count, ValueView::Number(ONE)) {
            Err(e) => Err(e),
            Ok(s1) => Ok(s1.emit(OpCode::DbSkip, None).emit(OpCode::Pop, None)),
        },
        StmtView::DbGoTop => Ok(s.emit(OpCode::DbGoTop, None)),
        StmtView::DbGoBottom => Ok(s.emit(OpCode::DbGoBottom, None)),
        StmtView::DbSeek { key } => match expr_code(s, key) {
            Err(e) => Err(e),
            Ok(s1) => Ok(s1.emit(OpCode::DbSeek, None).emit(OpCode::Pop, None)),
        },
        StmtView::Replace { field, value } => match expr_code(
            s.push_value(ValueView::String(field)),
            value,
        ) {
            Err(e) => Err(e),
            Ok(s1) => Ok(
                s1.emit(OpCode::DbReplace, None).emit(OpCode::Pop, None).emit(OpCode::Pop, None),
            ),
        },
        StmtView::Block(stmts) => block_code(s, stmts, stmts.len()),
    }
}

/// The state after the code of the first `n` of `stmts`, in order.
pub open spec fn block_code(s: CompilerState, stmts: Seq<StmtView>, n: nat) -> Result<
    CompilerState,
    CompileError,
>
    decreases stmts, n,
{
    if n == 0 || n > stmts.len() {
        Ok(s)
    } else {
        match block_code(s, stmts, (n - 1) as nat) {
            Err(e) => Err(e),
            Ok(s1) => stmt_code(s1, stmts[n - 1]),
        }
    }
}

/// The state after the code of the first `n` labels of a `CASE`, the value to
/// compare being on the stack. For each label: the jump that skipped the label
/// before is patched to here; the value is duplicated and compared with the
/// label; a jump, to be patched, skips the body where they differ; the value is
/// popped; the body follows, and a jump, to be patched, to the end.
pub open spec fn arms_code(s: CompilerState, arms: Seq<(ExprView, Seq<StmtView>)>, n: nat) -> Result<
    ArmsState,
    CompileError,
>
    decreases arms, n,
{
    if n == 0 || n > arms.len() {
        Ok(ArmsState { state: s, end_jumps: Seq::empty(), pending: None })
    } else {
        match arms_code(s, arms, (n - 1) as nat) {
            Err(e) => Err(e),
            Ok(before) => {
                let s1 = match before.pending {
                    Some(site) => before.state.patch(site, before.state.here()),
                    None => before.state,
                };
                match expr_code(s1.emit(OpCode::Dup, None), arms[n - 1].0) {
                    Err(e) => Err(e),
                    Ok(s2) => {
                        let s3 = s2.emit(OpCode::Equal, None);
                        match block_code(
                            s3.emit(OpCode::JumpIfFalse, Some(0)).emit(OpCode::Pop, None),
                            arms[n - 1].1,
                            arms[n - 1].1.len(),
                        ) {
                            Err(e) => Err(e),
                            Ok(s4) => Ok(
                                ArmsState {
                                    state: s4.emit(OpCode::Jump, Some(0)),
                                    end_jumps: before.end_jumps.push(s4.here()),
                                    pending: Some(s3.here()),
                                },
                            ),
                        }
                    },
                }
            },
        }
    }
}

/// What compiling a program gives: the chunk, closed by `Halt`, and the function
/// table; or the first error.
pub open spec fn compiled(program: Seq<StmtView>) -> Result<
    (ChunkView, Seq<(Seq<char>, usize)>),
    CompileError,
> {
    match block_code(CompilerState::initial(), program, program.len()) {
        Err(e) => Err(e),
        Ok(s) => Ok(
            (
                ChunkView {
                    code: s.code.push(Instruction { opcode: OpCode::Halt, operand: None }),
                    constants: s.constants,
                },
                s.functions,
            ),
        ),
    }
}

/// An error among the first `k` expressions is the error of the whole list.
pub proof fn lemma_exprs_error(s: CompilerState, items: Seq<ExprView>, k: nat, n: nat)
    requires
        k <= n <= items.len(),
        exprs_code(s, items, k) is Err,
    ensures
        exprs_code(s, items, n) == exprs_code(s, items, k),
    decreases n,
{
    if n > k {
        lemma_exprs_error(s, items, k, (n - 1) as nat);
    }
}

/// An error among the first `k` printed expressions is the error of the whole
/// list.
pub proof fn lemma_print_error(s: CompilerState, items: Seq<ExprView>, k: nat, n: nat)
    requires
        k <= n <= items.len(),
        print_code(s, items, k) is Err,
    ensures
        print_code(s, items, n) == print_code(s, items, k),
    decreases n,
{
    if n > k {
        lemma_print_error(s, items, k, (n - 1) as nat);
    }
}

/// An error among the first `k` statements is the error of the whole block.
pub proof fn lemma_block_error(s: CompilerState, stmts: Seq<StmtView>, k: nat, n: nat)
    requires
        k <= n <= stmts.len(),
        block_code(s, stmts, k) is Err,
    ensures
        block_code(s, stmts, n) == block_code(s, stmts, k),
    decreases n,
{
    if n > k {
        lemma_block_error(s, stmts, k, (n - 1) as nat);
    }
}

/// An error among the first `k` labels is the error of all the labels.
pub proof fn lemma_arms_error(
    s: CompilerState,
    arms: Seq<(ExprView, Seq<StmtView>)>,
    k: nat,
    n: nat,
)
    requires
        k <= n <= arms.len(),
        arms_code(s, arms, k) is Err,
    ensures
        arms_code(s, arms, n) is Err,
        arms_code(s, arms, n)->Err_0 == arms_code(s, arms, k)->Err_0,
    decreases n,
{
    if n > k {
        lemma_arms_error(s, arms, k, (n - 1) as nat);
    }
}

/// Compiling is a function of the program: two programs with the same
/// statements give the same chunk and the same function table, or the same
/// error.
pub proof fn compilation_is_deterministic(first: Program, second: Program)
    requires
        first@ == second@,
    ensures
        compiled(first@) == compiled(second@),
{
}

/// An `EXIT` that stands in no loop does not compile.
pub proof fn exit_outside_loop_is_rejected(s: CompilerState)
    requires
        s.loops.len() == 0,
    ensures
        stmt_code(s, StmtView::Exit) == Err::<CompilerState, CompileError>(
            CompileError::ExitOutsideLoop,
        ),
{
}

/// A program whose first statement is an `EXIT` does not compile.
pub proof fn leading_exit_is_rejected(program: Seq<StmtView>)
    requires
        program.len() > 0,
        program[0] == StmtView::Exit,
    ensures
        compiled(program) is Err,
        compiled(program)->Err_0 == CompileError::ExitOutsideLoop,
{
    let s = CompilerState::initial();
    assert(block_code(s, program, 0) == Ok::<CompilerState, CompileError>(s));
    assert(block_code(s, program, 1) == stmt_code(s, program[0]));
    lemma_block_error(s, program, 1, program.len());
}

/// An `EXIT` inside loops emits one jump and registers it with the innermost
/// loop alone: the loops around it keep their registered jumps.
pub proof fn exit_registers_with_innermost_loop(s: CompilerState)
    requires
        s.loops.len() > 0,
    ensures
        stmt_code(s, StmtView::Exit) is Ok,
        ({
            let after = stmt_code(s, StmtView::Exit)->Ok_0;
            &&& after.code == s.code.push(Instruction { opcode: OpCode::Jump, operand: Some(0) })
            &&& after.loops.len() == s.loops.len()
            &&& after.loops.last() == s.loops.last().push(s.here())
            &&& forall|i: int| 0 <= i < s.loops.len() - 1 ==> after.loops[i] == s.loops[i]
        }),
{
}

/// Patching jumps changes operands only: the code keeps its length and every
/// instruction keeps its opcode.
pub proof fn lemma_patch_all_shape(s: CompilerState, sites: Seq<usize>, n: nat, target: usize)
    requires
        n <= sites.len(),
        forall|j: int| 0 <= j < sites.len() ==> (#[trigger] sites[j]) < s.code.len(),
    ensures
        s.patch_all(sites, n, target).code.len() == s.code.len(),
        s.patch_all(sites, n, target).loops == s.loops,
        s.patch_all(sites, n, target).constants == s.constants,
        s.patch_all(sites, n, target).locals == s.locals,
        s.patch_all(sites, n, target).globals == s.globals,
        s.patch_all(sites, n, target).functions == s.functions,
        forall|k: int|
            0 <= k < s.code.len() ==> (#[trigger] s.patch_all(sites, n, target).code[k]).opcode
                == s.code[k].opcode,
        forall|j: int|
            0 <= j < n ==> s.patch_all(sites, n, target).code[(#[trigger] sites[j]) as int].operand
                == Some(target),
        forall|k: int|
            0 <= k < s.code.len() && (forall|j: int| 0 <= j < n ==> sites[j] != k) ==> (
            #[trigger] s.patch_all(sites, n, target).code[k]) == s.code[k],
    decreases n,
{
    if n > 0 {
        lemma_patch_all_shape(s, sites, (n - 1) as nat, target);
        let before = s.patch_all(sites, (n - 1) as nat, target);
        let after = before.patch(sites[n - 1], target);
        assert forall|j: int| 0 <= j < n implies after.code[(#[trigger] sites[j]) as int].operand
            == Some(target) by {
            if sites[j] != sites[n - 1] {
                assert(j < n - 1);
            }
        }
    }
}

/// Closing a loop sends every jump that an `EXIT` registered with this loop to
/// the end of the loop, and no other: the instructions that are not registered
/// with it stay as they are, and so do the loops around it.
pub proof fn closing_a_loop_patches_its_exits_only(s: CompilerState, target: usize)
    requires
        s.loops.len() > 0,
        s.well_formed(),
    ensures
        s.close_loop(target).loops == s.loops.drop_last(),
        s.close_loop(target).code.len() == s.code.len(),
        forall|j: int|
            0 <= j < s.loops.last().len() ==> s.close_loop(target).code[(
            #[trigger] s.loops.last()[j]) as int] == (Instruction {
                opcode: s.code[s.loops.last()[j] as int].opcode,
                operand: Some(target),
            }),
        forall|k: int|
            0 <= k < s.code.len() && !s.loops.last().contains(k as usize) ==> (
            #[trigger] s.close_loop(target).code[k]) == s.code[k],
{
    let sites = s.loops.last();
    let opened = CompilerState { loops: s.loops.drop_last(), ..s };
    assert forall|j: int| 0 <= j < sites.len() implies (#[trigger] sites[j]) < opened.code.len() by {
        assert(s.loops[s.loops.len() - 1][j] < s.code.len());
    }
    lemma_patch_all_shape(opened, sites, sites.len(), target);
    assert forall|k: int| 0 <= k < s.code.len() && !sites.contains(k as usize) implies (
    #[trigger] s.close_loop(target).code[k]) == s.code[k] by {
        assert forall|j: int| 0 <= j < sites.len() implies sites[j] != k by {
            if sites[j] == k {
                assert(sites.contains(k as usize));
            }
        }
    }
}


/// The jumps that the `EXIT`s of one open loop have emitted.
#[derive(Debug)]
pub struct LoopContext {
    /// The places of the jumps, to be patched to the end of the loop.
    pub break_jumps: Vec<usize>,
}

/// The registered jumps of a stack of open loops.
pub open spec fn loops_model(stack: Seq<LoopContext>) -> Seq<Seq<usize>> {
    Seq::new(stack.len(), |i: int| stack[i].break_jumps@)
}

/// What a compilation step owes: on success, the state that the model gives,
/// which is well formed and extends the state before; on failure, the error that
/// the model gives.
pub open spec fn emitted(
    before: CompilerState,
    expected: Result<CompilerState, CompileError>,
    after: CompilerState,
    r: Result<(), CompileError>,
) -> bool {
    match r {
        Ok(()) => expected == Ok::<CompilerState, CompileError>(after) && after.well_formed()
            && after.extends(before),
        Err(e) => expected == Err::<CompilerState, CompileError>(e),
    }
}

/// The opcode of a binary operator.
pub fn opcode_of_binary(op: BinaryOp) -> (r: OpCode)
    ensures
        r == binary_opcode(op),
{
    match op {
        BinaryOp::Add => OpCode::Add,
        BinaryOp::Subtract => OpCode::Subtract,
        BinaryOp::Multiply => OpCode::Multiply,
        BinaryOp::Divide => OpCode::Divide,
        BinaryOp::Modulo => OpCode::Modulo,
        BinaryOp::Power => OpCode::Power,
        BinaryOp::Equal => OpCode::Equal,
        BinaryOp::NotEqual => OpCode::NotEqual,
        BinaryOp::Less => OpCode::Less,
        BinaryOp::Greater => OpCode::Greater,
        BinaryOp::LessEqual => OpCode::LessEqual,
        BinaryOp::GreaterEqual => OpCode::GreaterEqual,
        BinaryOp::And => OpCode::And,
        BinaryOp::Or => OpCode::Or,
    }
}

/// The opcode of a unary operator.
pub fn opcode_of_unary(op: UnaryOp) -> (r: OpCode)
    ensures
        r == unary_opcode(op),
{
    match op {
        UnaryOp::Negate => OpCode::Negate,
        UnaryOp::Not => OpCode::Not,
    }
}

/// Whether a call of `name` prints.
pub fn is_print(name: &str) -> (r: bool)
    ensures
        r == prints(name@),
{
    same_text(name, "?") || same_text(name, "??") || same_text(
        to_uppercase(name).as_str(),
        "PRINT",
    )
}

/// Whether a call of `name` ends its output with a line break.
pub fn is_print_line(name: &str) -> (r: bool)
    ensures
        r == prints_line(name@),
{
    same_text(name, "?") || same_text(to_uppercase(name).as_str(), "PRINT")
}

/// The index of the first of `names` that is `name`.
fn find_first(names: &Vec<String>, name: &str) -> (r: Option<usize>)
    ensures
        r == first_index(names_model(names@), 0, name@),
{
    let mut i: usize = 0;
    while i < names.len()
        invariant
            i <= names.len(),
            first_index(names_model(names@), 0, name@) == first_index(
                names_model(names@),
                i as nat,
                name@,
            ),
        decreases names.len() - i,
    {
        if same_text(names[i].as_str(), name) {
            return Some(i);
        }
        i = i + 1;
    }
    None
}

/// The index of the last of `names` that is `name`.
fn find_last(names: &Vec<String>, name: &str) -> (r: Option<usize>)
    ensures
        r == last_index(names_model(names@), names.len() as nat, name@),
{
    let mut i: usize = names.len();
    while i > 0
        invariant
            i <= names.len(),
            last_index(names_model(names@), names.len() as nat, name@) == last_index(
                names_model(names@),
                i as nat,
                name@,
            ),
        decreases i,
    {
        if same_text(names[i - 1].as_str(), name) {
            return Some(i - 1);
        }
        i = i - 1;
    }
    None
}

/// A copy of a list of names.
fn copy_names(names: &Vec<String>) -> (r: Vec<String>)
    ensures
        names_model(r@) == names_model(names@),
{
    let mut out: Vec<String> = Vec::new();
    let mut i: usize = 0;
    while i < names.len()
        invariant
            i <= names.len(),
            out.len() == i,
            forall|j: int| 0 <= j < i ==> out[j]@ == names[j]@,
        decreases names.len() - i,
    {
        out.push(names[i].clone());
        i = i + 1;
    }
    assert(names_model(out@) =~= names_model(names@));
    out
}

/// The compiler. It is used once: `Compiler::new().compile(program)`.
pub struct Compiler {
    chunk: Chunk,
    locals: Vec<String>,
    globals: Vec<String>,
    functions: FunctionTable,
    loop_stack: Vec<LoopContext>,
}

impl Compiler {
    /// The state of the compilation.
    pub closed spec fn state(&self) -> CompilerState {
        CompilerState {
            code: self.chunk.code@,
            constants: values_model(&self.chunk.constants),
            locals: names_model(self.locals@),
            globals: names_model(self.globals@),
            functions: self.functions.entries(),
            loops: loops_model(self.loop_stack@),
        }
    }

    /// A compiler that has compiled nothing yet.
    pub fn new() -> (r: Compiler)
        ensures
            r.state() == CompilerState::initial(),
    {
        let r = Compiler {
            chunk: Chunk::new(),
            locals: Vec::new(),
            globals: Vec::new(),
            functions: FunctionTable::new(),
            loop_stack: Vec::new(),
        };
        assert(r.state().constants =~= Seq::<ValueView>::empty());
        assert(r.state().locals =~= Seq::<Seq<char>>::empty());
        assert(r.state().globals =~= Seq::<Seq<char>>::empty());
        assert(r.state().loops =~= Seq::<Seq<usize>>::empty());
        r
    }

    /// Compiles `program`: the chunk, which ends with `Halt`, and the function
    /// table. The first error ends the compilation, and nothing is returned but
    /// the error.
    pub fn compile(self, program: Program) -> (r: Result<(Chunk, FunctionTable), CompileError>)
        requires
            self.state() == CompilerState::initial(),
        ensures
            match r {
                Ok(out) => compiled(program@) == Ok::<
                    (ChunkView, Seq<(Seq<char>, usize)>),
                    CompileError,
                >((out.0@, out.1.entries())),
                Err(e) => compiled(program@) == Err::<
                    (ChunkView, Seq<(Seq<char>, usize)>),
                    CompileError,
                >(e),
            },
    {
        let mut compiler = self;
        match compiler.compile_block(&program.statements) {
            Err(e) => Err(e),
            Ok(()) => {
                compiler.chunk.write(OpCode::Halt, None);
                Ok((compiler.chunk, compiler.functions))
            },
        }
    }

    /// The address of the next instruction.
    fn here(&self) -> (r: usize)
        ensures
            r == self.state().here(),
            r == self.state().code.len(),
    {
        self.chunk.code.len()
    }

    /// Emits one instruction.
    fn emit(&mut self, opcode: OpCode, operand: Option<usize>)
        ensures
            final(self).state() == old(self).state().emit(opcode, operand),
    {
        self.chunk.write(opcode, operand);
    }

    /// Enters a constant and emits the instruction that pushes it.
    fn push_value(&mut self, value: Value)
        ensures
            final(self).state() == old(self).state().push_value(value@),
    {
        let index = self.chunk.add_constant(value);
        self.chunk.write(OpCode::Push, Some(index));
    }

    /// Gives the instruction at `at` the operand `target`.
    fn patch(&mut self, at: usize, target: usize)
        requires
            at < old(self).state().code.len(),
        ensures
            final(self).state() == old(self).state().patch(at, target),
    {
        let opcode = self.chunk.code[at].opcode;
        self.chunk.code.set(at, Instruction::new(opcode, Some(target)));
    }

    /// Opens a loop.
    fn open_loop(&mut self)
        ensures
            final(self).state() == old(self).state().open_loop(),
    {
        self.loop_stack.push(LoopContext { break_jumps: Vec::new() });
        assert(loops_model(self.loop_stack@) =~= loops_model(old(self).loop_stack@).push(
            Seq::empty(),
        ));
    }

    /// Closes the innermost loop: its registered jumps go to `target`.
    fn close_loop(&mut self, target: usize)
        requires
            old(self).state().well_formed(),
            old(self).state().loops.len() > 0,
        ensures
            final(self).state() == old(self).state().close_loop(target),
            final(self).state().well_formed(),
            final(self).state().code.len() == old(self).state().code.len(),
            final(self).state().loops.len() == old(self).state().loops.len() - 1,
    {
        let ghost before = self.state();
        let ghost sites = before.loops.last();
        match self.loop_stack.pop() {
            None => {},
            Some(context) => {
                assert(context.break_jumps@ == sites);
                assert(loops_model(self.loop_stack@) =~= before.loops.drop_last());
                let ghost opened = self.state();
                let mut i: usize = 0;
                while i < context.break_jumps.len()
                    invariant
                        i <= context.break_jumps.len(),
                        context.break_jumps@ == sites,
                        before.well_formed(),
                        sites == before.loops.last(),
                        before.loops.len() > 0,
                        opened.code.len() == before.code.len(),
                        opened.loops == before.loops.drop_last(),
                        self.state() == opened.patch_all(sites, i as nat, target),
                        self.state().code.len() == before.code.len(),
                        self.state().loops == opened.loops,
                    decreases context.break_jumps.len() - i,
                {
                    assert(before.loops[before.loops.len() - 1][i as int] < before.code.len());
                    self.patch(context.break_jumps[i], target);
                    i = i + 1;
                }
                proof {
                    assert forall|a: int, b: int|
                        0 <= a < self.state().loops.len() && 0 <= b
                            < self.state().loops[a].len() implies (
                    #[trigger] self.state().loops[a][b]) < self.state().code.len() by {
                        assert(self.state().loops[a][b] == before.loops[a][b]);
                    }
                }
            },
        }
    }

    /// Emits the jump of an `EXIT` and registers it with the innermost loop.
    fn register_exit(&mut self)
        requires
            old(self).state().well_formed(),
            old(self).state().loops.len() > 0,
        ensures
            final(self).state() == old(self).state().register_exit(),
            final(self).state().well_formed(),
    {
        let ghost before = self.state();
        let site = self.here();
        self.emit(OpCode::Jump, Some(0));
        match self.loop_stack.pop() {
            None => {},
            Some(context) => {
                let mut context = context;
                context.break_jumps.push(site);
                self.loop_stack.push(context);
                assert(loops_model(self.loop_stack@) =~= before.loops.update(
                    before.loops.len() - 1,
                    before.loops.last().push(site),
                ));
                proof {
                    assert forall|a: int, b: int|
                        0 <= a < self.state().loops.len() && 0 <= b
                            < self.state().loops[a].len() implies (
                    #[trigger] self.state().loops[a][b]) < self.state().code.len() by {
                        if a == before.loops.len() - 1 && b == before.loops.last().len() {
                        } else {
                            assert(self.state().loops[a][b] == before.loops[a][b]);
                        }
                    }
                }
            },
        }
    }

    /// The slot of the local that was named `name` last.
    fn resolve_local(&self, name: &str) -> (r: Option<usize>)
        ensures
            r == last_index(self.state().locals, self.state().locals.len(), name@),
    {
        find_last(&self.locals, name)
    }

    /// The slot of the global `name`; a new slot where it has none.
    fn get_or_create_global(&mut self, name: &str) -> (r: usize)
        ensures
            (final(self).state(), r) == old(self).state().with_global(name@),
    {
        match find_first(&self.globals, name) {
            Some(slot) => slot,
            None => {
                self.globals.push(name.to_owned());
                assert(names_model(self.globals@) =~= names_model(old(self).globals@).push(name@));
                self.globals.len() - 1
            },
        }
    }

    /// The first slot of the local `name`; a new slot where it has none.
    fn declare_local(&mut self, name: &str) -> (r: usize)
        ensures
            (final(self).state(), r) == old(self).state().with_local(name@),
    {
        match find_first(&self.locals, name) {
            Some(slot) => slot,
            None => {
                self.locals.push(name.to_owned());
                assert(names_model(self.locals@) =~= names_model(old(self).locals@).push(name@));
                self.locals.len() - 1
            },
        }
    }

    /// Emits the instruction that reads the variable `name`.
    fn load_variable(&mut self, name: &str)
        ensures
            final(self).state() == old(self).state().load_variable(name@),
    {
        match self.resolve_local(name) {
            Some(slot) => self.emit(OpCode::GetLocal, Some(slot)),
            None => {
                let slot = self.get_or_create_global(name);
                self.emit(OpCode::GetGlobal, Some(slot));
            },
        }
    }

    /// Emits the instruction that writes the variable `name`.
    fn store_variable(&mut self, name: &str)
        ensures
            final(self).state() == old(self).state().store_variable(name@),
    {
        match self.resolve_local(name) {
            Some(slot) => self.emit(OpCode::SetLocal, Some(slot)),
            None => {
                let slot = self.get_or_create_global(name);
                self.emit(OpCode::SetGlobal, Some(slot));
            },
        }
    }

    /// Compiles an expression that may be absent; `fallback` is pushed in its
    /// place.
    fn compile_optional(&mut self, expr: &Option<Expr>, fallback: Value) -> (r: Result<
        (),
        CompileError,
    >)
        requires
            old(self).state().well_formed(),
        ensures
            emitted(
                old(self).state(),
                optional_code(old(self).state(), optional_expr_model(expr), fallback@),
                final(self).state(),
                r,
            ),
        decreases expr, 1nat,
    {
        match expr {
            Some(e) => self.compile_expression(e),
            None => {
                self.push_value(fallback);
                Ok(())
            },
        }
    }

    /// Compiles the expressions `items` in order.
    #[verifier::loop_isolation(false)]
    fn compile_expressions(&mut self, items: &Vec<Expr>) -> (r: Result<(), CompileError>)
        requires
            old(self).state().well_formed(),
        ensures
            emitted(
                old(self).state(),
                exprs_code(old(self).state(), exprs_model(items), items.len() as nat),
                final(self).state(),
                r,
            ),
        decreases items, 1nat,
    {
        let ghost start = self.state();
        let ghost model = exprs_model(items);
        let mut i: usize = 0;
        while i < items.len()
            invariant
                i <= items.len(),
                exprs_code(start, model, i as nat) == Ok::<CompilerState, CompileError>(
                    self.state(),
                ),
                self.state().well_formed(),
                self.state().extends(start),
            decreases items.len() - i,
        {
            assert(model[i as int] == items[i as int]@);
            match self.compile_expression(&items[i]) {
                Err(e) => {
                    proof {
                        lemma_exprs_error(start, model, (i + 1) as nat, items.len() as nat);
                    }
                    return Err(e);
                },
                Ok(()) => {},
            }
            i = i + 1;
        }
        Ok(())
    }

    /// Compiles the arguments of a printing call.
    #[verifier::loop_isolation(false)]
    fn compile_print(&mut self, args: &Vec<Expr>) -> (r: Result<(), CompileError>)
        requires
            old(self).state().well_formed(),
        ensures
            emitted(
                old(self).state(),
                print_code(old(self).state(), exprs_model(args), args.len() as nat),
                final(self).state(),
                r,
            ),
        decreases args, 1nat,
    {
        let ghost start = self.state();
        let ghost model = exprs_model(args);
        let mut i: usize = 0;
        while i < args.len()
            invariant
                i <= args.len(),
                print_code(start, model, i as nat) == Ok::<CompilerState, CompileError>(
                    self.state(),
                ),
                self.state().well_formed(),
                self.state().extends(start),
            decreases args.len() - i,
        {
            assert(model[i as int] == args[i as int]@);
            match self.compile_expression(&args[i]) {
                Err(e) => {
                    proof {
                        lemma_print_error(start, model, (i + 1) as nat, args.len() as nat);
                    }
                    return Err(e);
                },
                Ok(()) => {},
            }
            self.emit(OpCode::Print, None);
            if i + 1 < args.len() {
                self.push_value(Value::String(" ".to_owned()));
                self.emit(OpCode::Print, None);
            }
            i = i + 1;
        }
        Ok(())
    }

    /// Compiles an expression.
    fn compile_expression(&mut self, expr: &Expr) -> (r: Result<(), CompileError>)
        requires
            old(self).state().well_formed(),
        ensures
            emitted(
                old(self).state(),
                expr_code(old(self).state(), expr@),
                final(self).state(),
                r,
            ),
        decreases expr, 3nat,
    {
        match expr {
            Expr::Number(bits) => {
                self.push_value(Value::Number(*bits));
                Ok(())
            },
            Expr::String(text) => {
                self.push_value(Value::String(text.clone()));
                Ok(())
            },
            Expr::Boolean(b) => {
                self.push_value(Value::Boolean(*b));
                Ok(())
            },
            Expr::Nil => {
                self.push_value(Value::Nil);
                Ok(())
            },
            Expr::Variable(name) => {
                self.load_variable(name.as_str());
                Ok(())
            },
            Expr::Binary { left, operator, right } => {
                self.compile_expression(left)?;
                self.compile_expression(right)?;
                self.emit(opcode_of_binary(*operator), None);
                Ok(())
            },
            Expr::Unary { operator, operand } => {
                self.compile_expression(operand)?;
                self.emit(opcode_of_unary(*operator), None);
                Ok(())
            },
            Expr::Call { name, args } => self.compile_call(expr),
            Expr::Assign { name, value } => {
                self.compile_expression(value)?;
                self.store_variable(name.as_str());
                Ok(())
            },
            Expr::Array(items) => {
                self.compile_expressions(items)?;
                self.emit(OpCode::MakeArray, Some(items.len()));
                Ok(())
            },
            Expr::Index { object, index } => {
                self.compile_expression(object)?;
                self.compile_expression(index)?;
                self.emit(OpCode::GetIndex, None);
                Ok(())
            },
        }
    }

    /// Compiles a call: an indexed assignment, a printing call, or a call by
    /// name.
    fn compile_call(&mut self, expr: &Expr) -> (r: Result<(), CompileError>)
        requires
            old(self).state().well_formed(),
            expr is Call,
        ensures
            emitted(
                old(self).state(),
                expr_code(old(self).state(), expr@),
                final(self).state(),
                r,
            ),
        decreases expr, 2nat,
    {
        match expr {
            Expr::Call { name, args } => {
                if same_text(name.as_str(), "__SET_INDEX__") {
                    if args.len() != 3 {
                        return Err(CompileError::MalformedIndexAssignment);
                    }
                    self.compile_expressions(args)?;
                    self.emit(OpCode::SetIndex, None);
                    assert(exprs_model(args)[0] == args[0]@);
                    match &args[0] {
                        Expr::Variable(target) => {
                            self.store_variable(target.as_str());
                        },
                        _ => {},
                    }
                    Ok(())
                } else if is_print(name.as_str()) {
                    self.compile_print(args)?;
                    if is_print_line(name.as_str()) {
                        self.push_value(Value::String("\n".to_owned()));
                        self.emit(OpCode::Print, None);
                    }
                    Ok(())
                } else {
                    self.push_value(Value::String(name.clone()));
                    self.compile_expressions(args)?;
                    self.emit(OpCode::Call, Some(args.len()));
                    Ok(())
                }
            },
            _ => Ok(()),
        }
    }

    /// Compiles the statements `stmts` in order.
    #[verifier::loop_isolation(false)]
    fn compile_block(&mut self, stmts: &Vec<Stmt>) -> (r: Result<(), CompileError>)
        requires
            old(self).state().well_formed(),
        ensures
            emitted(
                old(self).state(),
                block_code(old(self).state(), stmts_model(stmts), stmts.len() as nat),
                final(self).state(),
                r,
            ),
        decreases stmts, 2nat,
    {
        let ghost start = self.state();
        let ghost model = stmts_model(stmts);
        let mut i: usize = 0;
        while i < stmts.len()
            invariant
                i <= stmts.len(),
                block_code(start, model, i as nat) == Ok::<CompilerState, CompileError>(
                    self.state(),
                ),
                self.state().well_formed(),
                self.state().extends(start),
            decreases stmts.len() - i,
        {
            assert(model[i as int] == stmts[i as int]@);
            match self.compile_statement(&stmts[i]) {
                Err(e) => {
                    proof {
                        lemma_block_error(start, model, (i + 1) as nat, stmts.len() as nat);
                    }
                    return Err(e);
                },
                Ok(()) => {},
            }
            i = i + 1;
        }
        Ok(())
    }

    /// Compiles a statement.
    fn compile_statement(&mut self, stmt: &Stmt) -> (r: Result<(), CompileError>)
        requires
            old(self).state().well_formed(),
        ensures
            emitted(
                old(self).state(),
                stmt_code(old(self).state(), stmt@),
                final(self).state(),
                r,
            ),
        decreases stmt, 1nat,
    {
        match stmt {
            Stmt::VarDecl { name, initializer, scope } => {
                self.compile_optional(initializer, Value::Nil)?;
                match scope {
                    VarScope::Local => {
                        let slot = self.declare_local(name.as_str());
                        self.emit(OpCode::SetLocal, Some(slot));
                    },
                    _ => {
                        let slot = self.get_or_create_global(name.as_str());
                        self.emit(OpCode::SetGlobal, Some(slot));
                    },
                }
                self.emit(OpCode::Pop, None);
                Ok(())
            },
            Stmt::Expression(expr) => {
                self.compile_expression(expr)?;
                let printing = match expr {
                    Expr::Call { name, .. } => is_print(name.as_str()),
                    _ => false,
                };
                if !printing {
                    self.emit(OpCode::Pop, None);
                }
                Ok(())
            },
            Stmt::Function { .. } => self.compile_function(stmt),
            Stmt::Return(expr) => {
                self.compile_optional(expr, Value::Nil)?;
                self.emit(OpCode::Return, None);
                Ok(())
            },
            Stmt::If { .. } => self.compile_if(stmt),
            Stmt::While { .. } => self.compile_while(stmt),
            Stmt::For { .. } => self.compile_for(stmt),
            Stmt::DoWhile { body, condition } => {
                let loop_start = self.here();
                self.open_loop();
                self.compile_block(body)?;
                self.compile_expression(condition)?;
                self.emit(OpCode::JumpIfTrue, Some(loop_start));
                let end = self.here();
                self.close_loop(end);
                Ok(())
            },
            Stmt::Exit => {
                if self.loop_stack.len() > 0 {
                    self.register_exit();
                    Ok(())
                } else {
                    Err(CompileError::ExitOutsideLoop)
                }
            },
            Stmt::Loop { body } => {
                let loop_start = self.here();
                self.open_loop();
                self.compile_block(body)?;
                self.emit(OpCode::Jump, Some(loop_start));
                let end = self.here();
                self.close_loop(end);
                Ok(())
            },
            Stmt::Case { .. } => self.compile_case(stmt),
            Stmt::DbUse { filename, alias } => {
                self.push_value(Value::String(filename.clone()));
                self.emit(OpCode::DbUse, None);
                self.emit(OpCode::Pop, None);
                Ok(())
            },
            Stmt::DbSkip(count) => {
                self.compile_optional(count, Value::Number(ONE))?;
                self.emit(OpCode::DbSkip, None);
                self.emit(OpCode::Pop, None);
                Ok(())
            },
            Stmt::DbGoTop => {
                self.emit(OpCode::DbGoTop, None);
                Ok(())
            },
            Stmt::DbGoBottom => {
                self.emit(OpCode::DbGoBottom, None);
                Ok(())
            },
            Stmt::DbSeek { key } => {
                self.compile_expression(key)?;
                self.emit(OpCode::DbSeek, None);
                self.emit(OpCode::Pop, None);
                Ok(())
            },
            Stmt::Replace { field, value } => {
                self.push_value(Value::String(field.clone()));
                self.compile_expression(value)?;
                self.emit(OpCode::DbReplace, None);
                self.emit(OpCode::Pop, None);
                self.emit(OpCode::Pop, None);
                Ok(())
            },
            Stmt::Block(stmts) => self.compile_block(stmts),
        }
    }

    /// Compiles a function: a jump over the body, the body with the parameters
    /// as its locals, and a closing `Nil` and `Return`.
    fn compile_function(&mut self, stmt: &Stmt) -> (r: Result<(), CompileError>)
        requires
            old(self).state().well_formed(),
            stmt is Function,
        ensures
            emitted(
                old(self).state(),
                stmt_code(old(self).state(), stmt@),
                final(self).state(),
                r,
            ),
        decreases stmt, 0nat,
    {
        match stmt {
            Stmt::Function { name, params, body, is_procedure } => {
                let guard = self.here();
                self.emit(OpCode::Jump, Some(0));
                let start = self.here();
                self.functions.insert(name.clone(), start);
                let mut saved = copy_names(params);
                core::mem::swap(&mut self.locals, &mut saved);
                self.compile_block(body)?;
                self.push_value(Value::Nil);
                self.emit(OpCode::Return, None);
                let end = self.here();
                self.patch(guard, end);
                self.locals = saved;
                Ok(())
            },
            _ => Ok(()),
        }
    }

    /// Compiles an `IF` with its optional `ELSE`.
    fn compile_if(&mut self, stmt: &Stmt) -> (r: Result<(), CompileError>)
        requires
            old(self).state().well_formed(),
            stmt is If,
        ensures
            emitted(
                old(self).state(),
                stmt_code(old(self).state(), stmt@),
                final(self).state(),
                r,
            ),
        decreases stmt, 0nat,
    {
        match stmt {
            Stmt::If { condition, then_branch, else_branch } => {
                self.compile_expression(condition)?;
                let then_jump = self.here();
                self.emit(OpCode::JumpIfFalse, Some(0));
                self.compile_block(then_branch)?;
                match else_branch {
                    Some(stmts) => {
                        let else_jump = self.here();
                        self.emit(OpCode::Jump, Some(0));
                        let else_start = self.here();
                        self.patch(then_jump, else_start);
                        self.compile_block(stmts)?;
                        let end = self.here();
                        self.patch(else_jump, end);
                    },
                    None => {
                        let end = self.here();
                        self.patch(then_jump, end);
                    },
                }
                Ok(())
            },
            _ => Ok(()),
        }
    }

    /// Compiles a `WHILE` loop.
    fn compile_while(&mut self, stmt: &Stmt) -> (r: Result<(), CompileError>)
        requires
            old(self).state().well_formed(),
            stmt is While,
        ensures
            emitted(
                old(self).state(),
                stmt_code(old(self).state(), stmt@),
                final(self).state(),
                r,
            ),
        decreases stmt, 0nat,
    {
        match stmt {
            Stmt::While { condition, body } => {
                let loop_start = self.here();
                self.compile_expression(condition)?;
                let exit_jump = self.here();
                self.emit(OpCode::JumpIfFalse, Some(0));
                self.open_loop();
                self.compile_block(body)?;
                self.emit(OpCode::Jump, Some(loop_start));
                let end = self.here();
                self.patch(exit_jump, end);
                self.close_loop(end);
                Ok(())
            },
            _ => Ok(()),
        }
    }

    /// Compiles a `FOR` loop: a new local takes the start value; before each
    /// round the local is compared with the end value, which is evaluated anew;
    /// after each round the step (1 where none is given) is added.
    fn compile_for(&mut self, stmt: &Stmt) -> (r: Result<(), CompileError>)
        requires
            old(self).state().well_formed(),
            stmt is For,
        ensures
            emitted(
                old(self).state(),
                stmt_code(old(self).state(), stmt@),
                final(self).state(),
                r,
            ),
        decreases stmt, 0nat,
    {
        match stmt {
            Stmt::For { variable, start, end, step, body } => {
                self.compile_expression(start)?;
                let slot = self.locals.len();
                let ghost before_push = self.locals@;
                self.locals.push(variable.clone());
                assert(names_model(self.locals@) =~= names_model(before_push).push(variable@));
                self.emit(OpCode::SetLocal, Some(slot));
                self.emit(OpCode::Pop, None);
                let loop_start = self.here();
                self.emit(OpCode::GetLocal, Some(slot));
                self.compile_expression(end)?;
                self.emit(OpCode::LessEqual, None);
                let exit_jump = self.here();
                self.emit(OpCode::JumpIfFalse, Some(0));
                self.open_loop();
                self.compile_block(body)?;
                self.emit(OpCode::GetLocal, Some(slot));
                self.compile_optional(step, Value::Number(ONE))?;
                self.emit(OpCode::Add, None);
                self.emit(OpCode::SetLocal, Some(slot));
                self.emit(OpCode::Pop, None);
                self.emit(OpCode::Jump, Some(loop_start));
                let end_address = self.here();
                self.patch(exit_jump, end_address);
                self.close_loop(end_address);
                let ghost before_drop = self.locals@;
                self.locals.pop();
                assert(names_model(self.locals@) =~= if before_drop.len() == 0 {
                    names_model(before_drop)
                } else {
                    names_model(before_drop).drop_last()
                });
                Ok(())
            },
            _ => Ok(()),
        }
    }

    /// Compiles a `CASE`.
    #[verifier::loop_isolation(false)]
    #[verifier::rlimit(60)]
    fn compile_case(&mut self, stmt: &Stmt) -> (r: Result<(), CompileError>)
        requires
            old(self).state().well_formed(),
            stmt is Case,
        ensures
            emitted(
                old(self).state(),
                stmt_code(old(self).state(), stmt@),
                final(self).state(),
                r,
            ),
        decreases stmt, 0nat,
    {
        match stmt {
            Stmt::Case { expr, cases, otherwise } => {
                self.compile_expression(expr)?;
                let ghost start = self.state();
                let ghost model = arms_model(cases);
                let mut end_jumps: Vec<usize> = Vec::new();
                let mut pending: Option<usize> = None;
                let mut i: usize = 0;
                while i < cases.len()
                    invariant
                        i <= cases.len(),
                        arms_code(start, model, i as nat) == Ok::<ArmsState, CompileError>(
                            ArmsState {
                                state: self.state(),
                                end_jumps: end_jumps@,
                                pending: pending,
                            },
                        ),
                        self.state().well_formed(),
                        self.state().extends(start),
                        forall|j: int|
                            0 <= j < end_jumps.len() ==> (#[trigger] end_jumps[j])
                                < self.state().code.len(),
                        pending matches Some(site) ==> site < self.state().code.len(),
                    decreases cases.len() - i,
                {
                    assert(model[i as int] == (cases[i as int].0@, stmts_model(&cases[i as int].1)));
                    match pending {
                        Some(site) => {
                            let target = self.here();
                            self.patch(site, target);
                        },
                        None => {},
                    }
                    self.emit(OpCode::Dup, None);
                    match self.compile_expression(&cases[i].0) {
                        Err(e) => {
                            proof {
                                lemma_arms_error(start, model, (i + 1) as nat, cases.len() as nat);
                            }
                            return Err(e);
                        },
                        Ok(()) => {},
                    }
                    self.emit(OpCode::Equal, None);
                    let jump_to_next = self.here();
                    self.emit(OpCode::JumpIfFalse, Some(0));
                    self.emit(OpCode::Pop, None);
                    match self.compile_block(&cases[i].1) {
                        Err(e) => {
                            proof {
                                lemma_arms_error(start, model, (i + 1) as nat, cases.len() as nat);
                            }
                            return Err(e);
                        },
                        Ok(()) => {},
                    }
                    let jump_to_end = self.here();
                    self.emit(OpCode::Jump, Some(0));
                    end_jumps.push(jump_to_end);
                    pending = Some(jump_to_next);
                    i = i + 1;
                }
                match pending {
                    Some(site) => {
                        let target = self.here();
                        self.patch(site, target);
                    },
                    None => {},
                }
                self.emit(OpCode::Pop, None);
                match otherwise {
                    Some(stmts) => {
                        self.compile_block(stmts)?;
                    },
                    None => {},
                }
                let end = self.here();
                let ghost closing = self.state();
                let mut k: usize = 0;
                while k < end_jumps.len()
                    invariant
                        k <= end_jumps.len(),
                        self.state() == closing.patch_all(end_jumps@, k as nat, end),
                        self.state().code.len() == closing.code.len(),
                        self.state().loops == closing.loops,
                    decreases end_jumps.len() - k,
                {
                    self.patch(end_jumps[k], end);
                    k = k + 1;
                }
                proof {
                    assert forall|a: int, b: int|
                        0 <= a < self.state().loops.len() && 0 <= b
                            < self.state().loops[a].len() implies (
                    #[trigger] self.state().loops[a][b]) < self.state().code.len() by {
                        assert(self.state().loops[a][b] == closing.loops[a][b]);
                    }
                }
                Ok(())
            },
            _ => Ok(()),
        }
    }
}

} // verus!

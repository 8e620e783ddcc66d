//! The virtual machine: a stack machine that executes one chunk.
//!
//! The machine does not touch the terminal and does no arithmetic that rounds.
//! `step` executes one instruction and says what the host has to do next: go
//! on, write a text, or answer a request (a sum, the text of a number, a key, a
//! line of input) and call `step` again with the reply. A request leaves the
//! machine unchanged, and so does an error. What a step does is defined by
//! `step_model`.
//!
//! What follows from the model is proved in the modules below: `laws` holds the
//! laws of indexing and of the tests of a `CASE`, `cases` the run of a whole
//! `CASE`, and `rounds` the rounds of a `FOR` with a host that adds exactly.

use crate::bytecode::{
    equal_values, fractions_of, rendered, texts_model, truthy, values_model, Chunk, ChunkView,
    FunctionTable, Instruction, OpCode, Value, ValueView,
};
use crate::number::{at_most, below, negated, zero};
use std::collections::HashMap;
use vstd::prelude::*;

pub mod builtins;
pub mod cases;
pub mod errors;
pub mod laws;
pub mod opcodes;
pub mod rounds;

verus! {

/// An operation on two numbers that the host computes.
#[derive(Debug, Clone, Copy, PartialEq, Eq, Structural)]
pub enum Arithmetic {
    Add,
    Subtract,
    Multiply,
    Divide,
    Modulo,
    Power,
}

/// A builtin function.
#[derive(Debug, Clone, Copy, PartialEq, Eq, Structural)]
pub enum Builtin {
    SetPos,
    DevPos,
    GotoXY,
    OutStd,
    ClearScreen,
    SavePos,
    RestorePos,
    Replicate,
    Space,
    Len,
    SubStr,
    Trim,
    AllTrim,
    LTrim,
    RTrim,
    Chr,
    Asc,
    Inkey,
    Val,
    GetInput,
}

/// Why a run stops with an error.
#[derive(Debug)]
pub enum RuntimeError {
    /// An instruction needs more values than the stack holds.
    StackUnderflow,
    /// An instruction lacks its operand.
    MissingOperand(OpCode),
    /// A `Push` names a constant that the chunk does not have.
    UnknownConstant(usize),
    /// A local slot was read that holds nothing.
    UndefinedLocal(usize),
    /// A global slot was read that holds nothing.
    UndefinedGlobal(usize),
    /// A number was expected.
    ExpectedNumber,
    /// `Add` got two values that it cannot add.
    CannotAdd,
    /// A builtin got an argument of a kind that it does not take.
    InvalidArgument(Builtin),
    /// Division by zero.
    DivisionByZero,
    /// An index is outside the array or string.
    IndexOutOfBounds(usize),
    /// An index is below zero or is not a number.
    IndexBelowZero,
    /// A value that is neither array nor string was indexed.
    NotIndexable,
    /// A call names a function that is neither in the table nor builtin.
    UnknownFunction(String),
    /// The value in the place of the function name is not a string.
    NonStringCallTarget,
    /// A builtin was called with the wrong number of arguments.
    WrongArity(Builtin),
    /// An instruction that this machine does not execute.
    Unsupported(OpCode),
    /// The host answered with a reply of the wrong kind.
    UnexpectedReply,
}

/// What a runtime error is.
pub enum RuntimeErrorView {
    StackUnderflow,
    MissingOperand(OpCode),
    UnknownConstant(usize),
    UndefinedLocal(usize),
    UndefinedGlobal(usize),
    ExpectedNumber,
    CannotAdd,
    InvalidArgument(Builtin),
    DivisionByZero,
    IndexOutOfBounds(usize),
    IndexBelowZero,
    NotIndexable,
    UnknownFunction(Seq<char>),
    NonStringCallTarget,
    WrongArity(Builtin),
    Unsupported(OpCode),
    UnexpectedReply,
}

impl View for RuntimeError {
    type V = RuntimeErrorView;

    open spec fn view(&self) -> RuntimeErrorView {
        match self {
            RuntimeError::StackUnderflow => RuntimeErrorView::StackUnderflow,
            RuntimeError::MissingOperand(op) => RuntimeErrorView::MissingOperand(*op),
            RuntimeError::UnknownConstant(i) => RuntimeErrorView::UnknownConstant(*i),
            RuntimeError::UndefinedLocal(i) => RuntimeErrorView::UndefinedLocal(*i),
            RuntimeError::UndefinedGlobal(i) => RuntimeErrorView::UndefinedGlobal(*i),
            RuntimeError::ExpectedNumber => RuntimeErrorView::ExpectedNumber,
            RuntimeError::CannotAdd => RuntimeErrorView::CannotAdd,
            RuntimeError::InvalidArgument(b) => RuntimeErrorView::InvalidArgument(*b),
            RuntimeError::DivisionByZero => RuntimeErrorView::DivisionByZero,
            RuntimeError::IndexOutOfBounds(i) => RuntimeErrorView::IndexOutOfBounds(*i),
            RuntimeError::IndexBelowZero => RuntimeErrorView::IndexBelowZero,
            RuntimeError::NotIndexable => RuntimeErrorView::NotIndexable,
            RuntimeError::UnknownFunction(name) => RuntimeErrorView::UnknownFunction(name@),
            RuntimeError::NonStringCallTarget => RuntimeErrorView::NonStringCallTarget,
            RuntimeError::WrongArity(b) => RuntimeErrorView::WrongArity(*b),
            RuntimeError::Unsupported(op) => RuntimeErrorView::Unsupported(*op),
            RuntimeError::UnexpectedReply => RuntimeErrorView::UnexpectedReply,
        }
    }
}

/// What the host is asked to do before the machine can go on.
#[derive(Debug)]
pub enum Request {
    /// Compute `left op right` on doubles.
    Arithmetic { op: Arithmetic, left: u64, right: u64 },
    /// Give the text of each of these doubles, as the language prints a number.
    Format(Vec<u64>),
    /// Read the text as a double. The text is numeric: an optional sign, digits,
    /// and optionally a dot and more digits, with one digit at least.
    ParseNumber(String),
    /// Read one key; 0 where there is none.
    ReadKey,
    /// Write the text, then read one line of input.
    ReadLine(String),
}

/// What a request is.
pub enum RequestView {
    Arithmetic { op: Arithmetic, left: u64, right: u64 },
    Format(Seq<u64>),
    ParseNumber(Seq<char>),
    ReadKey,
    ReadLine(Seq<char>),
}

impl View for Request {
    type V = RequestView;

    open spec fn view(&self) -> RequestView {
        match self {
            Request::Arithmetic { op, left, right } => RequestView::Arithmetic {
                op: *op,
                left: *left,
                right: *right,
            },
            Request::Format(numbers) => RequestView::Format(numbers@),
            Request::ParseNumber(text) => RequestView::ParseNumber(text@),
            Request::ReadKey => RequestView::ReadKey,
            Request::ReadLine(text) => RequestView::ReadLine(text@),
        }
    }
}

/// What the host answers.
#[derive(Debug)]
pub enum Reply {
    /// Nothing: the first call for an instruction.
    Nothing,
    /// The double that was asked for.
    Number(u64),
    /// The texts that were asked for, in the order of the numbers.
    Texts(Vec<String>),
    /// The key that was read.
    Key(u8),
    /// The line that was read, or nothing where reading failed.
    Line(Option<String>),
}

/// What a reply is.
pub enum ReplyView {
    Nothing,
    Number(u64),
    Texts(Seq<Seq<char>>),
    Key(u8),
    Line(Option<Seq<char>>),
}

impl View for Reply {
    type V = ReplyView;

    open spec fn view(&self) -> ReplyView {
        match self {
            Reply::Nothing => ReplyView::Nothing,
            Reply::Number(bits) => ReplyView::Number(*bits),
            Reply::Texts(texts) => ReplyView::Texts(texts_model(texts@)),
            Reply::Key(code) => ReplyView::Key(*code),
            Reply::Line(line) => ReplyView::Line(
                match line {
                    Some(text) => Some(text@),
                    None => None,
                },
            ),
        }
    }
}

/// What the host does after a step.
#[derive(Debug)]
pub enum Action {
    /// Call `step` again.
    Continue,
    /// Write the text to the terminal, then call `step` again.
    Output(String),
    /// Answer the request, then call `step` again with the reply.
    Need(Request),
    /// The run is over.
    Finished,
}

/// What an action is.
pub enum ActionView {
    Continue,
    Output(Seq<char>),
    Need(RequestView),
    Finished,
}

impl View for Action {
    type V = ActionView;

    open spec fn view(&self) -> ActionView {
        match self {
            Action::Continue => ActionView::Continue,
            Action::Output(text) => ActionView::Output(text@),
            Action::Need(request) => ActionView::Need(request@),
            Action::Finished => ActionView::Finished,
        }
    }
}

/// The frame of a call: where to go on after it, and the window of the locals
/// array that belongs to it.
#[derive(Debug, Clone, Copy, PartialEq, Eq, Structural)]
pub struct CallFrame {
    pub return_ip: usize,
    pub locals_start: usize,
    pub locals_count: usize,
}

/// Where a run stands.
#[derive(Debug, Clone, Copy, PartialEq, Eq, Structural)]
pub enum Phase {
    /// The top-level code runs, up to its `Halt`; then `Main`, at the given
    /// address, is called.
    Preamble { main: usize },
    /// The code runs to its end.
    Running,
    /// The run is over.
    Finished,
}

/// The cursor that the machine keeps in step with the terminal.
#[derive(Debug, Clone, Copy, PartialEq, Eq, Structural)]
pub struct Cursor {
    pub row: usize,
    pub col: usize,
    pub saved_row: usize,
    pub saved_col: usize,
}

/// The state of the machine.
pub struct VmState {
    /// The operand stack, top last.
    pub stack: Seq<ValueView>,
    /// The global slots that hold a value, each with its index.
    pub globals: Map<usize, ValueView>,
    /// The local slots of all active frames.
    pub locals: Seq<ValueView>,
    /// The active frames, innermost last.
    pub frames: Seq<CallFrame>,
    /// The function table.
    pub functions: Seq<(Seq<char>, usize)>,
    /// The address of the next instruction.
    pub ip: usize,
    /// The cursor.
    pub cursor: Cursor,
    /// Where the run stands.
    pub phase: Phase,
}

/// What a step gives: the next state and what the host has to do, or the error.
pub struct StepView {
    pub state: VmState,
    pub result: Result<ActionView, RuntimeErrorView>,
}

/// `locals`, filled up with `Nil` to the length `len` where it is shorter.
pub open spec fn padded(locals: Seq<ValueView>, len: nat) -> Seq<ValueView> {
    if locals.len() >= len {
        locals
    } else {
        locals + Seq::new((len - locals.len()) as nat, |i: int| ValueView::Nil)
    }
}

/// The sentinel address that ends a run: beyond every chunk.
pub open spec fn end_of_run() -> usize {
    usize::MAX
}

impl VmState {
    /// The state of a machine that has run nothing.
    pub open spec fn initial() -> VmState {
        VmState {
            stack: Seq::empty(),
            globals: Map::empty(),
            locals: Seq::empty(),
            frames: Seq::empty(),
            functions: Seq::empty(),
            ip: 0,
            cursor: Cursor { row: 0, col: 0, saved_row: 0, saved_col: 0 },
            phase: Phase::Finished,
        }
    }

    /// The state with `value` pushed.
    pub open spec fn push(self, value: ValueView) -> VmState {
        VmState { stack: self.stack.push(value), ..self }
    }

    /// The state without the top `n` values of the stack.
    pub open spec fn drop(self, n: nat) -> VmState {
        VmState { stack: self.stack.subrange(0, self.stack.len() - n), ..self }
    }

    /// The `k`-th value from the top of the stack (0 is the top).
    pub open spec fn peek(self, k: nat) -> ValueView {
        self.stack[self.stack.len() - 1 - k]
    }

    /// The state at the next instruction.
    pub open spec fn advance(self) -> VmState {
        VmState { ip: (self.ip + 1) as usize, ..self }
    }

    /// The state at the instruction `target`.
    pub open spec fn jump(self, target: usize) -> VmState {
        VmState { ip: target, ..self }
    }

    /// The base of the window of locals that is in use: that of the innermost
    /// frame, or 0 outside every call.
    pub open spec fn base(self) -> usize {
        if self.frames.len() == 0 {
            0
        } else {
            self.frames.last().locals_start
        }
    }

    /// The value of the global slot `slot`, if it holds one.
    pub open spec fn global(self, slot: usize) -> Option<ValueView> {
        if self.globals.contains_key(slot) {
            Some(self.globals[slot])
        } else {
            None
        }
    }

    /// The state after the global slot `slot` has taken `value`.
    pub open spec fn set_global(self, slot: usize, value: ValueView) -> VmState {
        VmState { globals: self.globals.insert(slot, value), ..self }
    }

    /// The address of the function `name`, if the table has it.
    pub open spec fn function(self, name: Seq<char>) -> Option<usize> {
        crate::bytecode::lookup(self.functions, self.functions.len(), name)
    }
}

/// A step that goes on with the next instruction.
pub open spec fn proceed(s: VmState) -> StepView {
    StepView { state: s.advance(), result: Ok(ActionView::Continue) }
}

/// A step that goes on at the address that the state holds.
pub open spec fn resume(s: VmState) -> StepView {
    StepView { state: s, result: Ok(ActionView::Continue) }
}

/// A step that fails.
pub open spec fn fail(s: VmState, e: RuntimeErrorView) -> StepView {
    StepView { state: s, result: Err(e) }
}

/// A step that asks the host; the state stays as it is.
pub open spec fn ask(s: VmState, request: RequestView) -> StepView {
    StepView { state: s, result: Ok(ActionView::Need(request)) }
}

/// A step that writes `text` and goes on with the next instruction.
pub open spec fn write_out(s: VmState, text: Seq<char>) -> StepView {
    StepView { state: s.advance(), result: Ok(ActionView::Output(text)) }
}

/// The two numbers on top of the stack, the second from the top first; or the
/// error of taking them: the top is taken and checked first.
pub open spec fn two_numbers(s: VmState) -> Result<(u64, u64), RuntimeErrorView> {
    if s.stack.len() == 0 {
        Err(RuntimeErrorView::StackUnderflow)
    } else {
        match s.peek(0) {
            ValueView::Number(b) => if s.stack.len() == 1 {
                Err(RuntimeErrorView::StackUnderflow)
            } else {
                match s.peek(1) {
                    ValueView::Number(a) => Ok((a, b)),
                    _ => Err(RuntimeErrorView::ExpectedNumber),
                }
            },
            _ => Err(RuntimeErrorView::ExpectedNumber),
        }
    }
}

/// The arithmetic operation of an opcode.
pub open spec fn arithmetic_of(opcode: OpCode) -> Arithmetic {
    match opcode {
        OpCode::Subtract => Arithmetic::Subtract,
        OpCode::Multiply => Arithmetic::Multiply,
        OpCode::Divide => Arithmetic::Divide,
        OpCode::Modulo => Arithmetic::Modulo,
        OpCode::Power => Arithmetic::Power,
        _ => Arithmetic::Add,
    }
}

/// `Subtract`, `Multiply`, `Divide`, `Modulo`, `Power`: the two numbers on top
/// of the stack give way to the result, which the host computes. Division by
/// zero is an error.
pub open spec fn arithmetic_model(s: VmState, opcode: OpCode, reply: ReplyView) -> StepView {
    match two_numbers(s) {
        Err(e) => fail(s, e),
        Ok((a, b)) => if opcode == OpCode::Divide && zero(b) {
            fail(s, RuntimeErrorView::DivisionByZero)
        } else {
            match reply {
                ReplyView::Nothing => ask(
                    s,
                    RequestView::Arithmetic { op: arithmetic_of(opcode), left: a, right: b },
                ),
                ReplyView::Number(result) => proceed(s.drop(2).push(ValueView::Number(result))),
                _ => fail(s, RuntimeErrorView::UnexpectedReply),
            }
        },
    }
}

/// `Add`: two numbers give their sum, which the host computes; two strings are
/// joined; a string and a number are joined, with the text of the number from
/// the host.
pub open spec fn add_model(s: VmState, reply: ReplyView) -> StepView {
    if s.stack.len() < 2 {
        fail(s, RuntimeErrorView::StackUnderflow)
    } else {
        match (s.peek(1), s.peek(0)) {
            (ValueView::Number(a), ValueView::Number(b)) => match reply {
                ReplyView::Nothing => ask(
                    s,
                    RequestView::Arithmetic { op: Arithmetic::Add, left: a, right: b },
                ),
                ReplyView::Number(result) => proceed(s.drop(2).push(ValueView::Number(result))),
                _ => fail(s, RuntimeErrorView::UnexpectedReply),
            },
            (ValueView::String(a), ValueView::String(b)) => proceed(
                s.drop(2).push(ValueView::String(a + b)),
            ),
            (ValueView::String(a), ValueView::Number(b)) => match reply {
                ReplyView::Nothing => ask(s, RequestView::Format(seq![b])),
                ReplyView::Texts(texts) => if texts.len() == 1 {
                    proceed(s.drop(2).push(ValueView::String(a + texts[0])))
                } else {
                    fail(s, RuntimeErrorView::UnexpectedReply)
                },
                _ => fail(s, RuntimeErrorView::UnexpectedReply),
            },
            (ValueView::Number(a), ValueView::String(b)) => match reply {
                ReplyView::Nothing => ask(s, RequestView::Format(seq![a])),
                ReplyView::Texts(texts) => if texts.len() == 1 {
                    proceed(s.drop(2).push(ValueView::String(texts[0] + b)))
                } else {
                    fail(s, RuntimeErrorView::UnexpectedReply)
                },
                _ => fail(s, RuntimeErrorView::UnexpectedReply),
            },
            _ => fail(s, RuntimeErrorView::CannotAdd),
        }
    }
}

/// What a comparison opcode says of `a` and `b`.
pub open spec fn compares(opcode: OpCode, a: u64, b: u64) -> bool {
    match opcode {
        OpCode::Greater => below(b, a),
        OpCode::GreaterEqual => at_most(b, a),
        OpCode::Less => below(a, b),
        _ => at_most(a, b),
    }
}

/// `Greater`, `GreaterEqual`, `Less`, `LessEqual`: the two numbers on top of the
/// stack give way to the boolean of their comparison.
pub open spec fn comparison_model(s: VmState, opcode: OpCode) -> StepView {
    match two_numbers(s) {
        Err(e) => fail(s, e),
        Ok((a, b)) => proceed(s.drop(2).push(ValueView::Boolean(compares(opcode, a, b)))),
    }
}

/// `Equal`, `NotEqual`, `And`, `Or`: the two values on top of the stack give way
/// to a boolean.
pub open spec fn logic_model(s: VmState, opcode: OpCode) -> StepView {
    if s.stack.len() < 2 {
        fail(s, RuntimeErrorView::StackUnderflow)
    } else {
        let a = s.peek(1);
        let b = s.peek(0);
        proceed(
            s.drop(2).push(
                ValueView::Boolean(
                    match opcode {
                        OpCode::Equal => equal_values(a, b),
                        OpCode::NotEqual => !equal_values(a, b),
                        OpCode::And => truthy(a) && truthy(b),
                        _ => truthy(a) || truthy(b),
                    },
                ),
            ),
        )
    }
}

/// `GetLocal`: the value of a local slot of the window in use is pushed.
pub open spec fn get_local_model(s: VmState, operand: Option<usize>) -> StepView {
    match operand {
        None => fail(s, RuntimeErrorView::MissingOperand(OpCode::GetLocal)),
        Some(slot) => if s.base() + slot < s.locals.len() {
            proceed(s.push(s.locals[s.base() + slot]))
        } else {
            fail(s, RuntimeErrorView::UndefinedLocal(slot))
        },
    }
}

/// `SetLocal`: a local slot of the window in use takes the value on top of the
/// stack, which stays there; the locals grow to hold the slot.
pub open spec fn set_local_model(s: VmState, operand: Option<usize>) -> StepView {
    match operand {
        None => fail(s, RuntimeErrorView::MissingOperand(OpCode::SetLocal)),
        Some(slot) => if s.stack.len() == 0 {
            fail(s, RuntimeErrorView::StackUnderflow)
        } else if s.base() + slot >= usize::MAX {
            fail(s, RuntimeErrorView::UndefinedLocal(slot))
        } else {
            proceed(
                VmState {
                    locals: padded(s.locals, (s.base() + slot + 1) as nat).update(
                        s.base() + slot,
                        s.peek(0),
                    ),
                    ..s
                },
            )
        },
    }
}

/// `GetGlobal`: the value of a global slot is pushed.
pub open spec fn get_global_model(s: VmState, operand: Option<usize>) -> StepView {
    match operand {
        None => fail(s, RuntimeErrorView::MissingOperand(OpCode::GetGlobal)),
        Some(slot) => match s.global(slot) {
            Some(value) => proceed(s.push(value)),
            None => fail(s, RuntimeErrorView::UndefinedGlobal(slot)),
        },
    }
}

/// `SetGlobal`: a global slot takes the value on top of the stack, which stays
/// there.
pub open spec fn set_global_model(s: VmState, operand: Option<usize>) -> StepView {
    match operand {
        None => fail(s, RuntimeErrorView::MissingOperand(OpCode::SetGlobal)),
        Some(slot) => if s.stack.len() == 0 {
            fail(s, RuntimeErrorView::StackUnderflow)
        } else {
            proceed(s.set_global(slot, s.peek(0)))
        },
    }
}

/// `JumpIfFalse`, `JumpIfTrue`: the value on top of the stack is taken; the run
/// goes on at the target where the value is false (or true), else at the next
/// instruction.
pub open spec fn branch_model(s: VmState, opcode: OpCode, operand: Option<usize>) -> StepView {
    match operand {
        None => fail(s, RuntimeErrorView::MissingOperand(opcode)),
        Some(target) => if s.stack.len() == 0 {
            fail(s, RuntimeErrorView::StackUnderflow)
        } else if truthy(s.peek(0)) == (opcode == OpCode::JumpIfTrue) {
            resume(s.drop(1).jump(target))
        } else {
            proceed(s.drop(1))
        },
    }
}

/// A call of a function of the table: the name leaves the stack; the arguments
/// move, in order, to the end of the locals, where the window of the new frame
/// starts; the run goes on at the address of the function.
pub open spec fn enter_model(s: VmState, arity: usize, address: usize) -> StepView {
    let args = s.stack.subrange(s.stack.len() - arity, s.stack.len() as int);
    resume(
        VmState {
            stack: s.stack.subrange(0, s.stack.len() - arity - 1),
            locals: s.locals + args,
            frames: s.frames.push(
                CallFrame {
                    return_ip: (s.ip + 1) as usize,
                    locals_start: s.locals.len() as usize,
                    locals_count: arity,
                },
            ),
            ip: address,
            ..s
        },
    )
}

/// `Call`: below the arguments the stack holds the name of the function. A
/// function of the table is entered; any other name is a builtin.
pub open spec fn call_model(s: VmState, operand: Option<usize>, reply: ReplyView) -> StepView {
    match operand {
        None => fail(s, RuntimeErrorView::MissingOperand(OpCode::Call)),
        Some(arity) => if arity >= s.stack.len() {
            fail(s, RuntimeErrorView::StackUnderflow)
        } else {
            match s.peek(arity as nat) {
                ValueView::String(name) => match s.function(name) {
                    Some(address) => enter_model(s, arity, address),
                    None => builtins::builtin_model(s, name, arity, reply),
                },
                _ => fail(s, RuntimeErrorView::NonStringCallTarget),
            }
        },
    }
}

/// `Return`: inside a call, the value on top of the stack is the result; the
/// locals of the frame are given up and the run goes on behind the call.
/// Outside every call the run ends.
pub open spec fn return_model(s: VmState) -> StepView {
    if s.frames.len() == 0 {
        resume(s.jump(end_of_run()))
    } else if s.stack.len() == 0 {
        fail(s, RuntimeErrorView::StackUnderflow)
    } else {
        let frame = s.frames.last();
        resume(
            VmState {
                locals: if frame.locals_start < s.locals.len() {
                    s.locals.subrange(0, frame.locals_start as int)
                } else {
                    s.locals
                },
                frames: s.frames.drop_last(),
                ip: frame.return_ip,
                ..s
            },
        )
    }
}

/// `MakeArray`: the top `size` values of the stack give way to the array of
/// them, in the order in which they were pushed.
pub open spec fn make_array_model(s: VmState, operand: Option<usize>) -> StepView {
    match operand {
        None => fail(s, RuntimeErrorView::MissingOperand(OpCode::MakeArray)),
        Some(size) => if size > s.stack.len() {
            fail(s, RuntimeErrorView::StackUnderflow)
        } else {
            proceed(
                s.drop(size as nat).push(
                    ValueView::Array(
                        s.stack.subrange(s.stack.len() - size, s.stack.len() as int),
                    ),
                ),
            )
        },
    }
}

/// The index on top of the stack, and the value below it; or the error of
/// taking them. A number below zero and a NaN are no index.
pub open spec fn index_operands(s: VmState, below_top: nat) -> Result<
    (usize, ValueView),
    RuntimeErrorView,
> {
    if s.stack.len() <= below_top {
        Err(RuntimeErrorView::StackUnderflow)
    } else {
        match s.peek(below_top) {
            ValueView::Number(bits) => if s.stack.len() <= below_top + 1 {
                Err(RuntimeErrorView::StackUnderflow)
            } else if !crate::number::counting(bits) {
                Err(RuntimeErrorView::IndexBelowZero)
            } else {
                Ok((crate::number::index_of(bits), s.peek(below_top + 1)))
            },
            _ => Err(RuntimeErrorView::ExpectedNumber),
        }
    }
}

/// `GetIndex`: an array and an index give way to the element at the index,
/// counted from 0; a string and an index give way to the string of the one
/// character at the index. An index outside is an error, and so is an index
/// below zero.
pub open spec fn get_index_model(s: VmState) -> StepView {
    match index_operands(s, 0) {
        Err(e) => fail(s, e),
        Ok((index, target)) => match target {
            ValueView::Array(items) => if index < items.len() {
                proceed(s.drop(2).push(items[index as int]))
            } else {
                fail(s, RuntimeErrorView::IndexOutOfBounds(index))
            },
            ValueView::String(text) => if index < text.len() {
                proceed(s.drop(2).push(ValueView::String(seq![text[index as int]])))
            } else {
                fail(s, RuntimeErrorView::IndexOutOfBounds(index))
            },
            _ => fail(s, RuntimeErrorView::NotIndexable),
        },
    }
}

/// `SetIndex`: an array, an index and a value give way to the array with the
/// value at the index, counted from 0; the array keeps its length. An index
/// outside is an error, and so is an index below zero.
pub open spec fn set_index_model(s: VmState) -> StepView {
    if s.stack.len() == 0 {
        fail(s, RuntimeErrorView::StackUnderflow)
    } else {
        match index_operands(s, 1) {
            Err(e) => fail(s, e),
            Ok((index, target)) => match target {
                ValueView::Array(items) => if index < items.len() {
                    proceed(s.drop(3).push(ValueView::Array(items.update(index as int, s.peek(0)))))
                } else {
                    fail(s, RuntimeErrorView::IndexOutOfBounds(index))
                },
                _ => fail(s, RuntimeErrorView::NotIndexable),
            },
        }
    }
}

/// Writing out the value `v`: where it holds numbers that are not whole, the
/// host is asked for their texts first.
pub open spec fn written(s: VmState, v: ValueView, reply: ReplyView) -> Result<
    Seq<char>,
    StepView,
> {
    if fractions_of(v).len() == 0 {
        Ok(rendered(v, Seq::empty(), 0))
    } else {
        match reply {
            ReplyView::Nothing => Err(ask(s, RequestView::Format(fractions_of(v)))),
            ReplyView::Texts(texts) => if texts.len() == fractions_of(v).len() {
                Ok(rendered(v, texts, 0))
            } else {
                Err(fail(s, RuntimeErrorView::UnexpectedReply))
            },
            _ => Err(fail(s, RuntimeErrorView::UnexpectedReply)),
        }
    }
}

/// `Print`: the value on top of the stack is taken and written out.
pub open spec fn print_model(s: VmState, reply: ReplyView) -> StepView {
    if s.stack.len() == 0 {
        fail(s, RuntimeErrorView::StackUnderflow)
    } else {
        match written(s, s.peek(0), reply) {
            Err(step) => step,
            Ok(text) => write_out(s.drop(1), text),
        }
    }
}

/// What one instruction does.
pub open spec fn execute_model(
    s: VmState,
    instruction: Instruction,
    constants: Seq<ValueView>,
    reply: ReplyView,
) -> StepView {
    match instruction.opcode {
        OpCode::Push => match instruction.operand {
            None => fail(s, RuntimeErrorView::MissingOperand(OpCode::Push)),
            Some(index) => if index < constants.len() {
                proceed(s.push(constants[index as int]))
            } else {
                fail(s, RuntimeErrorView::UnknownConstant(index))
            },
        },
        OpCode::Pop => if s.stack.len() == 0 {
            fail(s, RuntimeErrorView::StackUnderflow)
        } else {
            proceed(s.drop(1))
        },
        OpCode::Dup => if s.stack.len() == 0 {
            fail(s, RuntimeErrorView::StackUnderflow)
        } else {
            proceed(s.push(s.peek(0)))
        },
        OpCode::Add => add_model(s, reply),
        OpCode::Subtract | OpCode::Multiply | OpCode::Divide | OpCode::Modulo | OpCode::Power => arithmetic_model(
            s,
            instruction.opcode,
            reply,
        ),
        OpCode::Negate => if s.stack.len() == 0 {
            fail(s, RuntimeErrorView::StackUnderflow)
        } else {
            match s.peek(0) {
                ValueView::Number(bits) => proceed(s.drop(1).push(ValueView::Number(negated(bits)))),
                _ => fail(s, RuntimeErrorView::ExpectedNumber),
            }
        },
        OpCode::Equal | OpCode::NotEqual | OpCode::And | OpCode::Or => logic_model(
            s,
            instruction.opcode,
        ),
        OpCode::Greater | OpCode::GreaterEqual | OpCode::Less | OpCode::LessEqual => comparison_model(
            s,
            instruction.opcode,
        ),
        OpCode::Not => if s.stack.len() == 0 {
            fail(s, RuntimeErrorView::StackUnderflow)
        } else {
            proceed(s.drop(1).push(ValueView::Boolean(!truthy(s.peek(0)))))
        },
        OpCode::GetLocal => get_local_model(s, instruction.operand),
        OpCode::SetLocal => set_local_model(s, instruction.operand),
        OpCode::GetGlobal => get_global_model(s, instruction.operand),
        OpCode::SetGlobal => set_global_model(s, instruction.operand),
        OpCode::Jump => match instruction.operand {
            None => fail(s, RuntimeErrorView::MissingOperand(OpCode::Jump)),
            Some(target) => resume(s.jump(target)),
        },
        OpCode::JumpIfFalse | OpCode::JumpIfTrue => branch_model(
            s,
            instruction.opcode,
            instruction.operand,
        ),
        OpCode::Call => call_model(s, instruction.operand, reply),
        OpCode::Return => return_model(s),
        OpCode::MakeArray => make_array_model(s, instruction.operand),
        OpCode::GetIndex => get_index_model(s),
        OpCode::SetIndex => set_index_model(s),
        OpCode::Print => print_model(s, reply),
        OpCode::DbUse | OpCode::DbSkip | OpCode::DbGoTop | OpCode::DbGoBottom | OpCode::DbSeek | OpCode::DbReplace => proceed(
            s,
        ),
        OpCode::Import | OpCode::CallModule => fail(
            s,
            RuntimeErrorView::Unsupported(instruction.opcode),
        ),
        OpCode::Halt => resume(s.jump(end_of_run())),
    }
}

/// The address of the function that a run starts with after the top-level code:
/// `Main`, or else `main`.
pub open spec fn main_of(functions: Seq<(Seq<char>, usize)>) -> Option<usize> {
    match crate::bytecode::lookup(functions, functions.len(), "Main"@) {
        Some(address) => Some(address),
        None => crate::bytecode::lookup(functions, functions.len(), "main"@),
    }
}

/// The state at the start of a run with the given function table: the run
/// starts at address 0; what the machine held before stays.
pub open spec fn started(s: VmState, functions: Seq<(Seq<char>, usize)>) -> VmState {
    VmState {
        functions,
        ip: 0,
        phase: match main_of(functions) {
            Some(main) => Phase::Preamble { main },
            None => Phase::Running,
        },
        ..s
    }
}

/// What one step does. With a `Main`, the top-level code runs up to its `Halt`
/// (or its end), then `Main` is called with a frame that returns to the end of
/// the run. Without one, the code runs to its end.
pub open spec fn step_model(s: VmState, chunk: ChunkView, reply: ReplyView) -> StepView {
    match s.phase {
        Phase::Finished => StepView { state: s, result: Ok(ActionView::Finished) },
        Phase::Preamble { main } => if s.ip >= chunk.code.len() || chunk.code[s.ip as int].opcode
            == OpCode::Halt {
            resume(
                VmState {
                    frames: s.frames.push(
                        CallFrame {
                            return_ip: end_of_run(),
                            locals_start: s.locals.len() as usize,
                            locals_count: 0,
                        },
                    ),
                    ip: main,
                    phase: Phase::Running,
                    ..s
                },
            )
        } else {
            execute_model(s, chunk.code[s.ip as int], chunk.constants, reply)
        },
        Phase::Running => if s.ip >= chunk.code.len() {
            StepView {
                state: VmState { phase: Phase::Finished, ..s },
                result: Ok(ActionView::Finished),
            }
        } else {
            execute_model(s, chunk.code[s.ip as int], chunk.constants, reply)
        },
    }
}

/// What up to `budget` steps do: steps are taken as long as the host has
/// nothing to do but to call again. The reply goes to the first step.
pub open spec fn run_model(s: VmState, chunk: ChunkView, reply: ReplyView, budget: nat) -> StepView
    decreases budget,
{
    if budget == 0 {
        resume(s)
    } else {
        let first = step_model(s, chunk, reply);
        if first.result == Ok::<ActionView, RuntimeErrorView>(ActionView::Continue) {
            run_model(first.state, chunk, ReplyView::Nothing, (budget - 1) as nat)
        } else {
            first
        }
    }
}

/// What a step owes: the state that the model gives, and its action or its
/// error. After an error the machine is as the model leaves it: as it was
/// before the step.
pub open spec fn stepped(
    expected: StepView,
    after: VmState,
    r: Result<Action, RuntimeError>,
) -> bool {
    &&& expected.state == after
    &&& match r {
        Ok(action) => expected.result == Ok::<ActionView, RuntimeErrorView>(action@),
        Err(e) => expected.result == Err::<ActionView, RuntimeErrorView>(e@),
    }
}

/// The views of the global slots.
pub open spec fn globals_model(globals: Map<usize, Value>) -> Map<usize, ValueView> {
    Map::new(|slot: usize| globals.contains_key(slot), |slot: usize| globals[slot]@)
}

/// The virtual machine.
pub struct VM {
    stack: Vec<Value>,
    globals: HashMap<usize, Value>,
    locals: Vec<Value>,
    call_frames: Vec<CallFrame>,
    functions: FunctionTable,
    ip: usize,
    cursor: Cursor,
    phase: Phase,
}

impl VM {
    /// The state of the machine.
    pub closed spec fn state(&self) -> VmState {
        VmState {
            stack: values_model(&self.stack),
            globals: globals_model(self.globals@),
            locals: values_model(&self.locals),
            frames: self.call_frames@,
            functions: self.functions.entries(),
            ip: self.ip,
            cursor: self.cursor,
            phase: self.phase,
        }
    }

    /// A machine that has run nothing.
    pub fn new() -> (r: VM)
        ensures
            r.state() == VmState::initial(),
    {
        let r = VM {
            stack: Vec::new(),
            globals: HashMap::new(),
            locals: Vec::new(),
            call_frames: Vec::new(),
            functions: FunctionTable::new(),
            ip: 0,
            cursor: Cursor { row: 0, col: 0, saved_row: 0, saved_col: 0 },
            phase: Phase::Finished,
        };
        assert(r.state().stack =~= Seq::<ValueView>::empty());
        assert(r.state().locals =~= Seq::<ValueView>::empty());
        assert(r.state().globals =~= Map::<usize, ValueView>::empty());
        r
    }

    /// Starts a run with the given function table, at address 0.
    pub fn start(&mut self, functions: FunctionTable)
        ensures
            final(self).state() == started(old(self).state(), functions.entries()),
    {
        let main = match functions.get("Main") {
            Some(address) => Some(address),
            None => functions.get("main"),
        };
        self.functions = functions;
        self.ip = 0;
        self.phase = match main {
            Some(main) => Phase::Preamble { main },
            None => Phase::Running,
        };
    }

    /// Executes one instruction of `chunk`; `reply` answers the request of the
    /// step before, if that was one.
    pub fn step(&mut self, chunk: &Chunk, reply: Reply) -> (r: Result<Action, RuntimeError>)
        ensures
            stepped(step_model(old(self).state(), chunk@, reply@), final(self).state(), r),
    {
        match self.phase {
            Phase::Finished => Ok(Action::Finished),
            Phase::Preamble { main } => {
                if self.ip >= chunk.code.len() || chunk.code[self.ip].opcode == OpCode::Halt {
                    self.call_frames.push(
                        CallFrame {
                            return_ip: usize::MAX,
                            locals_start: self.locals.len(),
                            locals_count: 0,
                        },
                    );
                    self.ip = main;
                    self.phase = Phase::Running;
                    Ok(Action::Continue)
                } else {
                    let instruction = chunk.code[self.ip];
                    self.execute_instruction(chunk, instruction, reply)
                }
            },
            Phase::Running => {
                if self.ip >= chunk.code.len() {
                    self.phase = Phase::Finished;
                    Ok(Action::Finished)
                } else {
                    let instruction = chunk.code[self.ip];
                    self.execute_instruction(chunk, instruction, reply)
                }
            },
        }
    }

    /// Executes instructions of `chunk` until the host has something to do, the
    /// run is over or fails, or `budget` steps are taken. `reply` answers the
    /// request of the call before, if that ended with one.
    pub fn run(&mut self, chunk: &Chunk, reply: Reply, budget: usize) -> (r: Result<
        Action,
        RuntimeError,
    >)
        ensures
            stepped(
                run_model(old(self).state(), chunk@, reply@, budget as nat),
                final(self).state(),
                r,
            ),
    {
        let mut left = budget;
        let mut pending = reply;
        while left > 0
            invariant
                run_model(old(self).state(), chunk@, reply@, budget as nat) == run_model(
                    self.state(),
                    chunk@,
                    pending@,
                    left as nat,
                ),
            decreases left,
        {
            match self.step(chunk, pending) {
                Err(e) => {
                    return Err(e);
                },
                Ok(action) => {
                    match action {
                        Action::Continue => {},
                        _ => {
                            return Ok(action);
                        },
                    }
                },
            }
            pending = Reply::Nothing;
            left = left - 1;
        }
        Ok(Action::Continue)
    }

    /// The number of values on the operand stack.
    pub fn stack_depth(&self) -> (r: usize)
        ensures
            r == self.state().stack.len(),
    {
        self.stack.len()
    }

    /// The address of the next instruction.
    pub fn address(&self) -> (r: usize)
        ensures
            r == self.state().ip,
    {
        self.ip
    }

    /// The number of slots of the locals array.
    pub fn locals_len(&self) -> (r: usize)
        ensures
            r == self.state().locals.len(),
    {
        self.locals.len()
    }

    /// A copy of the value in the slot `slot` of the locals array, counted from
    /// the start of the array; `None` where the array is shorter.
    pub fn local(&self, slot: usize) -> (r: Option<Value>)
        ensures
            match r {
                Some(value) => slot < self.state().locals.len() && value@
                    == self.state().locals[slot as int],
                None => slot >= self.state().locals.len(),
            },
    {
        if slot < self.locals.len() {
            Some(self.locals[slot].duplicate())
        } else {
            None
        }
    }

    /// The number of active call frames.
    pub fn frames(&self) -> (r: usize)
        ensures
            r == self.state().frames.len(),
    {
        self.call_frames.len()
    }

    /// Whether the run is over.
    pub fn is_finished(&self) -> (r: bool)
        ensures
            r == (self.state().phase == Phase::Finished),
    {
        match self.phase {
            Phase::Finished => true,
            _ => false,
        }
    }
}

} // verus!

//! The instructions of the machine, one function for each kind.

use super::{
    add_model, arithmetic_model, arithmetic_of, branch_model, call_model, comparison_model,
    execute_model, get_global_model, get_index_model, get_local_model, globals_model,
    index_operands, logic_model, make_array_model, padded, print_model, return_model,
    set_global_model, set_index_model, set_local_model, stepped, two_numbers, written,
    Action, Arithmetic, CallFrame, Reply, Request, RuntimeError, RuntimeErrorView, StepView,
    VmState, VM,
};
use crate::bytecode::{texts_model, values_model, Chunk, Instruction, OpCode, Value, ValueView};
use crate::number::{is_counting, is_zero, less, less_equal, negate, to_index};
use crate::text::{char_text, chars_of};
use vstd::prelude::*;

verus! {

/// The models of a list grown by one value.
pub proof fn lemma_values_push(before: &Vec<Value>, after: &Vec<Value>, value: Value)
    requires
        after@ == before@.push(value),
    ensures
        values_model(after) == values_model(before).push(value@),
{
    assert(values_model(after) =~= values_model(before).push(value@));
}

/// The models of a part of a list.
pub proof fn lemma_values_subrange(before: &Vec<Value>, after: &Vec<Value>, from: int, to: int)
    requires
        0 <= from <= to <= before.len(),
        after@ == before@.subrange(from, to),
    ensures
        values_model(after) == values_model(before).subrange(from, to),
{
    assert(values_model(after) =~= values_model(before).subrange(from, to));
}

/// The arithmetic operation of an opcode.
fn arithmetic(opcode: OpCode) -> (r: Arithmetic)
    ensures
        r == arithmetic_of(opcode),
{
    match opcode {
        OpCode::Subtract => Arithmetic::Subtract,
        OpCode::Multiply => Arithmetic::Multiply,
        OpCode::Divide => Arithmetic::Divide,
        OpCode::Modulo => Arithmetic::Modulo,
        OpCode::Power => Arithmetic::Power,
        _ => Arithmetic::Add,
    }
}

impl VM {
    /// Pushes a value.
    pub(crate) fn push(&mut self, value: Value)
        ensures
            final(self).state() == old(self).state().push(value@),
    {
        let ghost v = value;
        self.stack.push(value);
        proof {
            lemma_values_push(&old(self).stack, &self.stack, v);
        }
    }

    /// Takes the value on top of the stack.
    pub(crate) fn pop(&mut self) -> (r: Result<Value, RuntimeError>)
        ensures
            match r {
                Ok(value) => old(self).state().stack.len() > 0 && value@ == old(
                    self,
                ).state().peek(0) && final(self).state() == old(self).state().drop(1),
                Err(e) => old(self).state().stack.len() == 0 && e@
                    == RuntimeErrorView::StackUnderflow && final(self).state() == old(
                    self,
                ).state(),
            },
    {
        match self.stack.pop() {
            Some(value) => {
                proof {
                    lemma_values_subrange(
                        &old(self).stack,
                        &self.stack,
                        0,
                        old(self).stack.len() - 1,
                    );
                    assert(old(self).stack@.drop_last() == old(self).stack@.subrange(
                        0,
                        old(self).stack.len() - 1,
                    ));
                }
                Ok(value)
            },
            None => Err(RuntimeError::StackUnderflow),
        }
    }

    /// The `distance`-th value from the top of the stack.
    pub(crate) fn peek(&self, distance: usize) -> (r: Option<&Value>)
        ensures
            match r {
                Some(value) => distance < self.state().stack.len() && value@
                    == self.state().peek(distance as nat),
                None => distance >= self.state().stack.len(),
            },
    {
        if distance >= self.stack.len() {
            None
        } else {
            Some(&self.stack[self.stack.len() - 1 - distance])
        }
    }

    /// Gives up the top `n` values of the stack.
    pub(crate) fn discard(&mut self, n: usize)
        requires
            n <= old(self).state().stack.len(),
        ensures
            final(self).state() == old(self).state().drop(n as nat),
    {
        let keep = self.stack.len() - n;
        self.stack.truncate(keep);
        proof {
            lemma_values_subrange(&old(self).stack, &self.stack, 0, keep as int);
        }
    }

    /// Takes the top `n` values of the stack, in the order in which they were
    /// pushed.
    pub(crate) fn take_top(&mut self, n: usize) -> (r: Vec<Value>)
        requires
            n <= old(self).state().stack.len(),
        ensures
            final(self).state() == old(self).state().drop(n as nat),
            values_model(&r) == old(self).state().stack.subrange(
                old(self).state().stack.len() - n,
                old(self).state().stack.len() as int,
            ),
            r.len() == n,
    {
        let keep = self.stack.len() - n;
        let top = self.stack.split_off(keep);
        proof {
            lemma_values_subrange(&old(self).stack, &self.stack, 0, keep as int);
            lemma_values_subrange(
                &old(self).stack,
                &top,
                keep as int,
                old(self).stack.len() as int,
            );
        }
        top
    }

    /// Moves to the next instruction.
    pub(crate) fn advance(&mut self)
        requires
            old(self).state().ip < usize::MAX,
        ensures
            final(self).state() == old(self).state().advance(),
    {
        self.ip = self.ip + 1;
    }

    /// The two numbers on top of the stack, the second from the top first.
    fn two_numbers(&self) -> (r: Result<(u64, u64), RuntimeError>)
        ensures
            match r {
                Ok(pair) => two_numbers(self.state()) == Ok::<(u64, u64), RuntimeErrorView>(pair)
                    && self.state().stack.len() >= 2,
                Err(e) => two_numbers(self.state()) == Err::<(u64, u64), RuntimeErrorView>(e@),
            },
    {
        match self.peek(0) {
            None => Err(RuntimeError::StackUnderflow),
            Some(top) => match top {
                Value::Number(b) => match self.peek(1) {
                    None => Err(RuntimeError::StackUnderflow),
                    Some(second) => match second {
                        Value::Number(a) => Ok((*a, *b)),
                        _ => Err(RuntimeError::ExpectedNumber),
                    },
                },
                _ => Err(RuntimeError::ExpectedNumber),
            },
        }
    }

    /// Executes one instruction.
    pub(crate) fn execute_instruction(
        &mut self,
        chunk: &Chunk,
        instruction: Instruction,
        reply: Reply,
    ) -> (r: Result<Action, RuntimeError>)
        requires
            old(self).state().ip < usize::MAX,
        ensures
            stepped(
                execute_model(old(self).state(), instruction, chunk@.constants, reply@),
                final(self).state(),
                r,
            ),
    {
        match instruction.opcode {
            OpCode::Push => {
                match instruction.operand {
                    None => Err(RuntimeError::MissingOperand(OpCode::Push)),
                    Some(index) => {
                        if index < chunk.constants.len() {
                            let value = chunk.constants[index].duplicate();
                            self.push(value);
                            self.advance();
                            Ok(Action::Continue)
                        } else {
                            Err(RuntimeError::UnknownConstant(index))
                        }
                    },
                }
            },
            OpCode::Pop => {
                self.pop()?;
                self.advance();
                Ok(Action::Continue)
            },
            OpCode::Dup => {
                let value = match self.peek(0) {
                    None => {
                        return Err(RuntimeError::StackUnderflow);
                    },
                    Some(top) => top.duplicate(),
                };
                self.push(value);
                self.advance();
                Ok(Action::Continue)
            },
            OpCode::Add => self.execute_add(reply),
            OpCode::Subtract | OpCode::Multiply | OpCode::Divide | OpCode::Modulo | OpCode::Power => self.execute_arithmetic(
                instruction.opcode,
                reply,
            ),
            OpCode::Negate => {
                let bits = match self.peek(0) {
                    None => {
                        return Err(RuntimeError::StackUnderflow);
                    },
                    Some(top) => match top {
                        Value::Number(bits) => *bits,
                        _ => {
                            return Err(RuntimeError::ExpectedNumber);
                        },
                    },
                };
                self.discard(1);
                self.push(Value::Number(negate(bits)));
                self.advance();
                Ok(Action::Continue)
            },
            OpCode::Equal | OpCode::NotEqual | OpCode::And | OpCode::Or => self.execute_logic(
                instruction.opcode,
            ),
            OpCode::Greater | OpCode::GreaterEqual | OpCode::Less | OpCode::LessEqual => self.execute_comparison(
                instruction.opcode,
            ),
            OpCode::Not => {
                let value = self.pop()?;
                self.push(Value::Boolean(!value.is_truthy()));
                self.advance();
                Ok(Action::Continue)
            },
            OpCode::GetLocal => self.execute_get_local(instruction),
            OpCode::SetLocal => self.execute_set_local(instruction),
            OpCode::GetGlobal => self.execute_get_global(instruction),
            OpCode::SetGlobal => self.execute_set_global(instruction),
            OpCode::Jump => {
                match instruction.operand {
                    None => Err(RuntimeError::MissingOperand(OpCode::Jump)),
                    Some(target) => {
                        self.ip = target;
                        Ok(Action::Continue)
                    },
                }
            },
            OpCode::JumpIfFalse | OpCode::JumpIfTrue => self.execute_branch(instruction),
            OpCode::Call => self.execute_call(instruction, reply),
            OpCode::Return => self.execute_return(),
            OpCode::MakeArray => self.execute_make_array(instruction),
            OpCode::GetIndex => self.execute_get_index(),
            OpCode::SetIndex => self.execute_set_index(),
            OpCode::Print => self.execute_print(reply),
            OpCode::DbUse | OpCode::DbSkip | OpCode::DbGoTop | OpCode::DbGoBottom | OpCode::DbSeek | OpCode::DbReplace => {
                self.advance();
                Ok(Action::Continue)
            },
            OpCode::Import | OpCode::CallModule => Err(
                RuntimeError::Unsupported(instruction.opcode),
            ),
            OpCode::Halt => {
                self.ip = usize::MAX;
                Ok(Action::Continue)
            },
        }
    }

    /// `Add`.
    fn execute_add(&mut self, reply: Reply) -> (r: Result<Action, RuntimeError>)
        requires
            old(self).state().ip < usize::MAX,
        ensures
            stepped(add_model(old(self).state(), reply@), final(self).state(), r),
    {
        if self.stack.len() < 2 {
            return Err(RuntimeError::StackUnderflow);
        }
        let ghost s = self.state();
        let len = self.stack.len();
        assert(s.peek(1) == self.stack[len - 2]@);
        assert(s.peek(0) == self.stack[len - 1]@);
        match (&self.stack[len - 2], &self.stack[len - 1]) {
            (Value::Number(a), Value::Number(b)) => {
                let left = *a;
                let right = *b;
                match reply {
                    Reply::Nothing => Ok(
                        Action::Need(Request::Arithmetic { op: Arithmetic::Add, left, right }),
                    ),
                    Reply::Number(result) => {
                        self.discard(2);
                        self.push(Value::Number(result));
                        self.advance();
                        Ok(Action::Continue)
                    },
                    _ => Err(RuntimeError::UnexpectedReply),
                }
            },
            (Value::String(a), Value::String(b)) => {
                let mut joined = a.clone();
                joined.append(b.as_str());
                self.discard(2);
                self.push(Value::String(joined));
                self.advance();
                Ok(Action::Continue)
            },
            (Value::String(a), Value::Number(b)) => {
                match reply {
                    Reply::Nothing => {
                        let mut numbers: Vec<u64> = Vec::new();
                        numbers.push(*b);
                        Ok(Action::Need(Request::Format(numbers)))
                    },
                    Reply::Texts(texts) => {
                        if texts.len() == 1 {
                            let mut joined = a.clone();
                            joined.append(texts[0].as_str());
                            assert(texts_model(texts@)[0] == texts[0]@);
                            self.discard(2);
                            self.push(Value::String(joined));
                            self.advance();
                            Ok(Action::Continue)
                        } else {
                            Err(RuntimeError::UnexpectedReply)
                        }
                    },
                    _ => Err(RuntimeError::UnexpectedReply),
                }
            },
            (Value::Number(a), Value::String(b)) => {
                match reply {
                    Reply::Nothing => {
                        let mut numbers: Vec<u64> = Vec::new();
                        numbers.push(*a);
                        Ok(Action::Need(Request::Format(numbers)))
                    },
                    Reply::Texts(texts) => {
                        if texts.len() == 1 {
                            let mut joined = texts[0].clone();
                            joined.append(b.as_str());
                            assert(texts_model(texts@)[0] == texts[0]@);
                            self.discard(2);
                            self.push(Value::String(joined));
                            self.advance();
                            Ok(Action::Continue)
                        } else {
                            Err(RuntimeError::UnexpectedReply)
                        }
                    },
                    _ => Err(RuntimeError::UnexpectedReply),
                }
            },
            _ => Err(RuntimeError::CannotAdd),
        }
    }

    /// `Subtract`, `Multiply`, `Divide`, `Modulo`, `Power`.
    fn execute_arithmetic(&mut self, opcode: OpCode, reply: Reply) -> (r: Result<
        Action,
        RuntimeError,
    >)
        requires
            old(self).state().ip < usize::MAX,
        ensures
            stepped(arithmetic_model(old(self).state(), opcode, reply@), final(self).state(), r),
    {
        let (a, b) = self.two_numbers()?;
        if opcode == OpCode::Divide && is_zero(b) {
            return Err(RuntimeError::DivisionByZero);
        }
        match reply {
            Reply::Nothing => Ok(
                Action::Need(Request::Arithmetic { op: arithmetic(opcode), left: a, right: b }),
            ),
            Reply::Number(result) => {
                self.discard(2);
                self.push(Value::Number(result));
                self.advance();
                Ok(Action::Continue)
            },
            _ => Err(RuntimeError::UnexpectedReply),
        }
    }

    /// `Greater`, `GreaterEqual`, `Less`, `LessEqual`.
    fn execute_comparison(&mut self, opcode: OpCode) -> (r: Result<Action, RuntimeError>)
        requires
            old(self).state().ip < usize::MAX,
        ensures
            stepped(comparison_model(old(self).state(), opcode), final(self).state(), r),
    {
        let (a, b) = self.two_numbers()?;
        let result = match opcode {
            OpCode::Greater => less(b, a),
            OpCode::GreaterEqual => less_equal(b, a),
            OpCode::Less => less(a, b),
            _ => less_equal(a, b),
        };
        self.discard(2);
        self.push(Value::Boolean(result));
        self.advance();
        Ok(Action::Continue)
    }

    /// `Equal`, `NotEqual`, `And`, `Or`.
    fn execute_logic(&mut self, opcode: OpCode) -> (r: Result<Action, RuntimeError>)
        requires
            old(self).state().ip < usize::MAX,
        ensures
            stepped(logic_model(old(self).state(), opcode), final(self).state(), r),
    {
        if self.stack.len() < 2 {
            return Err(RuntimeError::StackUnderflow);
        }
        let len = self.stack.len();
        assert(self.state().peek(1) == self.stack[len - 2]@);
        assert(self.state().peek(0) == self.stack[len - 1]@);
        let a = &self.stack[len - 2];
        let b = &self.stack[len - 1];
        let result = match opcode {
            OpCode::Equal => a.equals(b),
            OpCode::NotEqual => !a.equals(b),
            OpCode::And => a.is_truthy() && b.is_truthy(),
            _ => a.is_truthy() || b.is_truthy(),
        };
        self.discard(2);
        self.push(Value::Boolean(result));
        self.advance();
        Ok(Action::Continue)
    }

    /// The base of the window of locals that is in use.
    fn base(&self) -> (r: usize)
        ensures
            r == self.state().base(),
    {
        if self.call_frames.len() == 0 {
            0
        } else {
            self.call_frames[self.call_frames.len() - 1].locals_start
        }
    }

    /// `GetLocal`.
    fn execute_get_local(&mut self, instruction: Instruction) -> (r: Result<Action, RuntimeError>)
        requires
            old(self).state().ip < usize::MAX,
        ensures
            stepped(
                get_local_model(old(self).state(), instruction.operand),
                final(self).state(),
                r,
            ),
    {
        match instruction.operand {
            None => Err(RuntimeError::MissingOperand(OpCode::GetLocal)),
            Some(slot) => {
                let base = self.base();
                if slot < self.locals.len() && base < self.locals.len() - slot {
                    let value = self.locals[base + slot].duplicate();
                    self.push(value);
                    self.advance();
                    Ok(Action::Continue)
                } else {
                    Err(RuntimeError::UndefinedLocal(slot))
                }
            },
        }
    }

    /// `SetLocal`.
    fn execute_set_local(&mut self, instruction: Instruction) -> (r: Result<Action, RuntimeError>)
        requires
            old(self).state().ip < usize::MAX,
        ensures
            stepped(
                set_local_model(old(self).state(), instruction.operand),
                final(self).state(),
                r,
            ),
    {
        match instruction.operand {
            None => Err(RuntimeError::MissingOperand(OpCode::SetLocal)),
            Some(slot) => {
                let value = match self.peek(0) {
                    None => {
                        return Err(RuntimeError::StackUnderflow);
                    },
                    Some(top) => top.duplicate(),
                };
                let base = self.base();
                if slot >= usize::MAX - base {
                    return Err(RuntimeError::UndefinedLocal(slot));
                }
                let index = base + slot;
                let ghost before = values_model(&self.locals);
                while self.locals.len() <= index
                    invariant
                        self.state() == (VmState {
                            locals: values_model(&self.locals),
                            ..old(self).state()
                        }),
                        values_model(&self.locals) == padded(
                            before,
                            self.locals.len() as nat,
                        ),
                        before.len() <= self.locals.len(),
                        self.locals.len() == before.len() || self.locals.len() <= index + 1,
                        index < usize::MAX,
                    decreases index + 1 - self.locals.len(),
                {
                    let ghost earlier = self.locals;
                    self.locals.push(Value::Nil);
                    proof {
                        lemma_values_push(&earlier, &self.locals, Value::Nil);
                        assert(values_model(&self.locals) =~= padded(
                            before,
                            self.locals.len() as nat,
                        ));
                    }
                }
                let ghost grown = self.locals;
                let ghost v = value@;
                self.locals.set(index, value);
                proof {
                    assert(values_model(&grown) == padded(before, (index + 1) as nat));
                    assert(values_model(&self.locals) =~= values_model(&grown).update(
                        index as int,
                        v,
                    ));
                }
                self.advance();
                Ok(Action::Continue)
            },
        }
    }

    /// `GetGlobal`.
    fn execute_get_global(&mut self, instruction: Instruction) -> (r: Result<Action, RuntimeError>)
        requires
            old(self).state().ip < usize::MAX,
        ensures
            stepped(
                get_global_model(old(self).state(), instruction.operand),
                final(self).state(),
                r,
            ),
    {
        match instruction.operand {
            None => Err(RuntimeError::MissingOperand(OpCode::GetGlobal)),
            Some(slot) => {
                let value = match self.globals.get(&slot) {
                    None => {
                        return Err(RuntimeError::UndefinedGlobal(slot));
                    },
                    Some(held) => held.duplicate(),
                };
                self.push(value);
                self.advance();
                Ok(Action::Continue)
            },
        }
    }

    /// `SetGlobal`.
    fn execute_set_global(&mut self, instruction: Instruction) -> (r: Result<Action, RuntimeError>)
        requires
            old(self).state().ip < usize::MAX,
        ensures
            stepped(
                set_global_model(old(self).state(), instruction.operand),
                final(self).state(),
                r,
            ),
    {
        match instruction.operand {
            None => Err(RuntimeError::MissingOperand(OpCode::SetGlobal)),
            Some(slot) => {
                let value = match self.peek(0) {
                    None => {
                        return Err(RuntimeError::StackUnderflow);
                    },
                    Some(top) => top.duplicate(),
                };
                let ghost v = value@;
                let ghost before = self.state().globals;
                self.globals.insert(slot, value);
                assert(globals_model(self.globals@) =~= before.insert(slot, v));
                self.advance();
                Ok(Action::Continue)
            },
        }
    }

    /// `JumpIfFalse`, `JumpIfTrue`.
    fn execute_branch(&mut self, instruction: Instruction) -> (r: Result<Action, RuntimeError>)
        requires
            old(self).state().ip < usize::MAX,
            instruction.opcode == OpCode::JumpIfFalse || instruction.opcode == OpCode::JumpIfTrue,
        ensures
            stepped(
                branch_model(old(self).state(), instruction.opcode, instruction.operand),
                final(self).state(),
                r,
            ),
    {
        match instruction.operand {
            None => Err(RuntimeError::MissingOperand(instruction.opcode)),
            Some(target) => {
                let condition = self.pop()?;
                let wanted = instruction.opcode == OpCode::JumpIfTrue;
                if condition.is_truthy() == wanted {
                    self.ip = target;
                } else {
                    self.advance();
                }
                Ok(Action::Continue)
            },
        }
    }

    /// `Call`.
    fn execute_call(&mut self, instruction: Instruction, reply: Reply) -> (r: Result<
        Action,
        RuntimeError,
    >)
        requires
            old(self).state().ip < usize::MAX,
        ensures
            stepped(
                call_model(old(self).state(), instruction.operand, reply@),
                final(self).state(),
                r,
            ),
    {
        match instruction.operand {
            None => Err(RuntimeError::MissingOperand(OpCode::Call)),
            Some(arity) => {
                let name = match self.peek(arity) {
                    None => {
                        return Err(RuntimeError::StackUnderflow);
                    },
                    Some(target) => match target {
                        Value::String(name) => name.clone(),
                        _ => {
                            return Err(RuntimeError::NonStringCallTarget);
                        },
                    },
                };
                match self.functions.get(name.as_str()) {
                    Some(address) => {
                        let ghost s = self.state();
                        let frame = CallFrame {
                            return_ip: self.ip + 1,
                            locals_start: self.locals.len(),
                            locals_count: arity,
                        };
                        let mut args = self.take_top(arity);
                        self.discard(1);
                        let ghost locals_before = self.locals;
                        let ghost moved = values_model(&args);
                        self.locals.append(&mut args);
                        proof {
                            assert(values_model(&self.locals) =~= values_model(&locals_before)
                                + moved);
                            assert(self.state().stack =~= s.stack.subrange(
                                0,
                                s.stack.len() - arity - 1,
                            ));
                        }
                        self.call_frames.push(frame);
                        self.ip = address;
                        Ok(Action::Continue)
                    },
                    None => self.execute_builtin_function(name.as_str(), arity, reply),
                }
            },
        }
    }

    /// `Return`.
    fn execute_return(&mut self) -> (r: Result<Action, RuntimeError>)
        ensures
            stepped(return_model(old(self).state()), final(self).state(), r),
    {
        if self.call_frames.len() == 0 {
            self.ip = usize::MAX;
            return Ok(Action::Continue);
        }
        if self.stack.len() == 0 {
            return Err(RuntimeError::StackUnderflow);
        }
        match self.call_frames.pop() {
            None => Ok(Action::Continue),
            Some(frame) => {
                let ghost before = self.locals;
                if frame.locals_start < self.locals.len() {
                    self.locals.truncate(frame.locals_start);
                    proof {
                        lemma_values_subrange(
                            &before,
                            &self.locals,
                            0,
                            frame.locals_start as int,
                        );
                    }
                }
                self.ip = frame.return_ip;
                Ok(Action::Continue)
            },
        }
    }

    /// `MakeArray`.
    fn execute_make_array(&mut self, instruction: Instruction) -> (r: Result<Action, RuntimeError>)
        requires
            old(self).state().ip < usize::MAX,
        ensures
            stepped(
                make_array_model(old(self).state(), instruction.operand),
                final(self).state(),
                r,
            ),
    {
        match instruction.operand {
            None => Err(RuntimeError::MissingOperand(OpCode::MakeArray)),
            Some(size) => {
                if size > self.stack.len() {
                    return Err(RuntimeError::StackUnderflow);
                }
                let elements = self.take_top(size);
                self.push(Value::Array(elements));
                self.advance();
                Ok(Action::Continue)
            },
        }
    }

    /// The index at `below_top` from the top of the stack, and the place in the
    /// stack of the value below it.
    fn index_operands(&self, below_top: usize) -> (r: Result<(usize, usize), RuntimeError>)
        requires
            below_top <= 1,
        ensures
            match r {
                Ok(found) => found.1 < self.stack.len() && index_operands(
                    self.state(),
                    below_top as nat,
                ) == Ok::<(usize, ValueView), RuntimeErrorView>(
                    (found.0, self.stack[found.1 as int]@),
                ) && found.1 == self.stack.len() - 2 - below_top,
                Err(e) => index_operands(self.state(), below_top as nat) == Err::<
                    (usize, ValueView),
                    RuntimeErrorView,
                >(e@),
            },
    {
        match self.peek(below_top) {
            None => Err(RuntimeError::StackUnderflow),
            Some(value) => match value {
                Value::Number(bits) => {
                    if self.stack.len() <= below_top + 1 {
                        Err(RuntimeError::StackUnderflow)
                    } else if !is_counting(*bits) {
                        Err(RuntimeError::IndexBelowZero)
                    } else {
                        let place = self.stack.len() - 2 - below_top;
                        assert(self.state().peek((below_top + 1) as nat)
                            == self.stack[place as int]@);
                        Ok((to_index(*bits), place))
                    }
                },
                _ => Err(RuntimeError::ExpectedNumber),
            },
        }
    }

    /// `GetIndex`.
    fn execute_get_index(&mut self) -> (r: Result<Action, RuntimeError>)
        requires
            old(self).state().ip < usize::MAX,
        ensures
            stepped(get_index_model(old(self).state()), final(self).state(), r),
    {
        let (index, place) = self.index_operands(0)?;
        let found = match &self.stack[place] {
            Value::Array(items) => {
                if index < items.len() {
                    assert(values_model(items)[index as int] == items[index as int]@);
                    items[index].duplicate()
                } else {
                    return Err(RuntimeError::IndexOutOfBounds(index));
                }
            },
            Value::String(text) => {
                let chars = chars_of(text.as_str());
                if index < chars.len() {
                    Value::String(char_text(chars[index]))
                } else {
                    return Err(RuntimeError::IndexOutOfBounds(index));
                }
            },
            _ => {
                return Err(RuntimeError::NotIndexable);
            },
        };
        self.discard(2);
        self.push(found);
        self.advance();
        Ok(Action::Continue)
    }

    /// `SetIndex`.
    fn execute_set_index(&mut self) -> (r: Result<Action, RuntimeError>)
        requires
            old(self).state().ip < usize::MAX,
        ensures
            stepped(set_index_model(old(self).state()), final(self).state(), r),
    {
        if self.stack.len() == 0 {
            return Err(RuntimeError::StackUnderflow);
        }
        let (index, place) = self.index_operands(1)?;
        match &self.stack[place] {
            Value::Array(items) => {
                if index >= items.len() {
                    return Err(RuntimeError::IndexOutOfBounds(index));
                }
            },
            _ => {
                return Err(RuntimeError::NotIndexable);
            },
        }
        let ghost s = self.state();
        let value = self.pop()?;
        self.discard(1);
        let target = self.pop()?;
        match target {
            Value::Array(items) => {
                let mut items = items;
                let ghost before = items;
                let ghost v = value@;
                items.set(index, value);
                assert(values_model(&items) =~= values_model(&before).update(index as int, v));
                self.push(Value::Array(items));
                assert(self.state().stack =~= s.drop(3).push(
                    ValueView::Array(values_model(&before).update(index as int, v)),
                ).stack);
                self.advance();
                Ok(Action::Continue)
            },
            _ => Err(RuntimeError::NotIndexable),
        }
    }

    /// The text of `value` written out; where the host has to give texts first,
    /// the step that asks for them.
    pub(crate) fn written(&self, value: &Value, reply: &Reply) -> (r: Result<
        String,
        Result<Action, RuntimeError>,
    >)
        ensures
            match r {
                Ok(text) => written(self.state(), value@, reply@) == Ok::<Seq<char>, StepView>(
                    text@,
                ),
                Err(step) => written(self.state(), value@, reply@) is Err && stepped(
                    written(self.state(), value@, reply@)->Err_0,
                    self.state(),
                    step,
                ),
            },
    {
        let numbers = value.fractions();
        if numbers.len() == 0 {
            let none: Vec<String> = Vec::new();
            assert(texts_model(none@) =~= Seq::<Seq<char>>::empty());
            Ok(value.to_string(&none))
        } else {
            match reply {
                Reply::Nothing => Err(Ok(Action::Need(Request::Format(numbers)))),
                Reply::Texts(texts) => {
                    if texts.len() == numbers.len() {
                        Ok(value.to_string(texts))
                    } else {
                        Err(Err(RuntimeError::UnexpectedReply))
                    }
                },
                _ => Err(Err(RuntimeError::UnexpectedReply)),
            }
        }
    }

    /// `Print`.
    fn execute_print(&mut self, reply: Reply) -> (r: Result<Action, RuntimeError>)
        requires
            old(self).state().ip < usize::MAX,
        ensures
            stepped(print_model(old(self).state(), reply@), final(self).state(), r),
    {
        let text = match self.peek(0) {
            None => {
                return Err(RuntimeError::StackUnderflow);
            },
            Some(value) => match self.written(value, &reply) {
                Err(step) => {
                    return step;
                },
                Ok(text) => text,
            },
        };
        self.discard(1);
        self.advance();
        Ok(Action::Output(text))
    }
}

} // verus!

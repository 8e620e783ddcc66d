//! The messages of runtime errors.

use super::{Builtin, RuntimeError, RuntimeErrorView};
use crate::bytecode::OpCode;
use crate::text::{decimal_digits, push_decimal};
use vstd::prelude::*;

verus! {

/// What a builtin says when it is called with the wrong number of arguments.
pub open spec fn arity_text(builtin: Builtin) -> Seq<char> {
    match builtin {
        Builtin::SetPos => "SetPos requires 2 arguments (row, col)"@,
        Builtin::DevPos => "DevPos requires 2 arguments (row, col)"@,
        Builtin::GotoXY => "GotoXY requires 2 arguments (col, row)"@,
        Builtin::OutStd => "OutStd requires 1 argument (string)"@,
        Builtin::ClearScreen => "ClearScreen requires 0 arguments"@,
        Builtin::SavePos => "SavePos requires 0 arguments"@,
        Builtin::RestorePos => "RestorePos requires 0 arguments"@,
        Builtin::Replicate => "Replicate requires 2 arguments (string, count)"@,
        Builtin::Space => "Space requires 1 argument (count)"@,
        Builtin::Len => "Len requires 1 argument (string)"@,
        Builtin::SubStr => "SubStr requires 3 arguments (string, start, length)"@,
        Builtin::Trim => "Trim requires 1 argument (string)"@,
        Builtin::AllTrim => "AllTrim requires 1 argument (string)"@,
        Builtin::LTrim => "LTrim requires 1 argument (string)"@,
        Builtin::RTrim => "RTrim requires 1 argument (string)"@,
        Builtin::Chr => "Chr requires 1 argument (ASCII code)"@,
        Builtin::Asc => "Asc requires 1 argument (string)"@,
        Builtin::Inkey => "Inkey requires 0 or 1 argument (optional timeout)"@,
        Builtin::Val => "Val requires 1 argument"@,
        Builtin::GetInput => "GetInput requires 1-5 arguments"@,
    }
}

/// What a builtin says when it is called with the wrong number of arguments.
pub fn arity_message(builtin: Builtin) -> (r: &'static str)
    ensures
        r@ == arity_text(builtin),
{
    match builtin {
        Builtin::SetPos => "SetPos requires 2 arguments (row, col)",
        Builtin::DevPos => "DevPos requires 2 arguments (row, col)",
        Builtin::GotoXY => "GotoXY requires 2 arguments (col, row)",
        Builtin::OutStd => "OutStd requires 1 argument (string)",
        Builtin::ClearScreen => "ClearScreen requires 0 arguments",
        Builtin::SavePos => "SavePos requires 0 arguments",
        Builtin::RestorePos => "RestorePos requires 0 arguments",
        Builtin::Replicate => "Replicate requires 2 arguments (string, count)",
        Builtin::Space => "Space requires 1 argument (count)",
        Builtin::Len => "Len requires 1 argument (string)",
        Builtin::SubStr => "SubStr requires 3 arguments (string, start, length)",
        Builtin::Trim => "Trim requires 1 argument (string)",
        Builtin::AllTrim => "AllTrim requires 1 argument (string)",
        Builtin::LTrim => "LTrim requires 1 argument (string)",
        Builtin::RTrim => "RTrim requires 1 argument (string)",
        Builtin::Chr => "Chr requires 1 argument (ASCII code)",
        Builtin::Asc => "Asc requires 1 argument (string)",
        Builtin::Inkey => "Inkey requires 0 or 1 argument (optional timeout)",
        Builtin::Val => "Val requires 1 argument",
        Builtin::GetInput => "GetInput requires 1-5 arguments",
    }
}

/// What a builtin says when it gets an argument of a kind that it does not take.
pub open spec fn argument_text(builtin: Builtin) -> Seq<char> {
    match builtin {
        Builtin::Replicate => "Replicate requires a string or number"@,
        Builtin::Len => "Len requires a string or array"@,
        Builtin::SubStr => "SubStr requires a string"@,
        Builtin::Trim | Builtin::AllTrim => "Trim requires a string"@,
        Builtin::LTrim => "LTrim requires a string"@,
        Builtin::RTrim => "RTrim requires a string"@,
        Builtin::Asc => "Asc requires a string"@,
        _ => "Invalid argument"@,
    }
}

/// What a builtin says when it gets an argument of a kind that it does not take.
pub fn argument_message(builtin: Builtin) -> (r: &'static str)
    ensures
        r@ == argument_text(builtin),
{
    match builtin {
        Builtin::Replicate => "Replicate requires a string or number",
        Builtin::Len => "Len requires a string or array",
        Builtin::SubStr => "SubStr requires a string",
        Builtin::Trim | Builtin::AllTrim => "Trim requires a string",
        Builtin::LTrim => "LTrim requires a string",
        Builtin::RTrim => "RTrim requires a string",
        Builtin::Asc => "Asc requires a string",
        _ => "Invalid argument",
    }
}

/// What an instruction says when it lacks its operand.
pub open spec fn operand_text(opcode: OpCode) -> Seq<char> {
    match opcode {
        OpCode::Push => "PUSH requires constant index"@,
        OpCode::GetLocal => "GET_LOCAL requires index"@,
        OpCode::SetLocal => "SET_LOCAL requires index"@,
        OpCode::GetGlobal => "GET_GLOBAL requires index"@,
        OpCode::SetGlobal => "SET_GLOBAL requires index"@,
        OpCode::Jump => "JUMP requires target"@,
        OpCode::JumpIfFalse => "JUMP_IF_FALSE requires target"@,
        OpCode::JumpIfTrue => "JUMP_IF_TRUE requires target"@,
        OpCode::Call => "CALL requires arity"@,
        OpCode::MakeArray => "MAKE_ARRAY requires size"@,
        _ => "Instruction requires an operand"@,
    }
}

/// What an instruction says when it lacks its operand.
pub fn operand_message(opcode: OpCode) -> (r: &'static str)
    ensures
        r@ == operand_text(opcode),
{
    match opcode {
        OpCode::Push => "PUSH requires constant index",
        OpCode::GetLocal => "GET_LOCAL requires index",
        OpCode::SetLocal => "SET_LOCAL requires index",
        OpCode::GetGlobal => "GET_GLOBAL requires index",
        OpCode::SetGlobal => "SET_GLOBAL requires index",
        OpCode::Jump => "JUMP requires target",
        OpCode::JumpIfFalse => "JUMP_IF_FALSE requires target",
        OpCode::JumpIfTrue => "JUMP_IF_TRUE requires target",
        OpCode::Call => "CALL requires arity",
        OpCode::MakeArray => "MAKE_ARRAY requires size",
        _ => "Instruction requires an operand",
    }
}

impl RuntimeErrorView {
    /// The message of the error.
    pub open spec fn text(self) -> Seq<char> {
        match self {
            RuntimeErrorView::StackUnderflow => "Stack underflow"@,
            RuntimeErrorView::MissingOperand(opcode) => operand_text(opcode),
            RuntimeErrorView::UnknownConstant(index) => "Constant "@ + decimal_digits(
                index as nat,
            ) + " not found"@,
            RuntimeErrorView::UndefinedLocal(slot) => "Local variable "@ + decimal_digits(
                slot as nat,
            ) + " not found"@,
            RuntimeErrorView::UndefinedGlobal(slot) => "Global variable "@ + decimal_digits(
                slot as nat,
            ) + " not defined"@,
            RuntimeErrorView::ExpectedNumber => "Expected number"@,
            RuntimeErrorView::CannotAdd => "Cannot add these types"@,
            RuntimeErrorView::InvalidArgument(builtin) => argument_text(builtin),
            RuntimeErrorView::DivisionByZero => "Division by zero"@,
            RuntimeErrorView::IndexOutOfBounds(index) => "Index "@ + decimal_digits(index as nat)
                + " out of bounds"@,
            RuntimeErrorView::IndexBelowZero => "Index below zero out of bounds"@,
            RuntimeErrorView::NotIndexable => "Cannot index non-array value"@,
            RuntimeErrorView::UnknownFunction(name) => "Unknown function: "@ + name,
            RuntimeErrorView::NonStringCallTarget => "Function name must be a string"@,
            RuntimeErrorView::WrongArity(builtin) => arity_text(builtin),
            RuntimeErrorView::Unsupported(opcode) => "Unsupported instruction"@,
            RuntimeErrorView::UnexpectedReply => "Unexpected reply from the host"@,
        }
    }
}

/// `head`, the number `n`, and `tail`.
fn numbered(head: &str, n: usize, tail: &str) -> (r: String)
    ensures
        r@ == head@ + decimal_digits(n as nat) + tail@,
{
    let mut out = head.to_owned();
    push_decimal(&mut out, n as u64);
    out.append(tail);
    out
}

impl RuntimeError {
    /// The message of the error.
    pub fn message(&self) -> (r: String)
        ensures
            r@ == self@.text(),
    {
        match self {
            RuntimeError::StackUnderflow => "Stack underflow".to_owned(),
            RuntimeError::MissingOperand(opcode) => operand_message(*opcode).to_owned(),
            RuntimeError::UnknownConstant(index) => numbered("Constant ", *index, " not found"),
            RuntimeError::UndefinedLocal(slot) => numbered("Local variable ", *slot, " not found"),
            RuntimeError::UndefinedGlobal(slot) => numbered(
                "Global variable ",
                *slot,
                " not defined",
            ),
            RuntimeError::ExpectedNumber => "Expected number".to_owned(),
            RuntimeError::CannotAdd => "Cannot add these types".to_owned(),
            RuntimeError::InvalidArgument(builtin) => argument_message(*builtin).to_owned(),
            RuntimeError::DivisionByZero => "Division by zero".to_owned(),
            RuntimeError::IndexOutOfBounds(index) => numbered("Index ", *index, " out of bounds"),
            RuntimeError::IndexBelowZero => "Index below zero out of bounds".to_owned(),
            RuntimeError::NotIndexable => "Cannot index non-array value".to_owned(),
            RuntimeError::UnknownFunction(name) => {
                let mut out = "Unknown function: ".to_owned();
                out.append(name.as_str());
                out
            },
            RuntimeError::NonStringCallTarget => "Function name must be a string".to_owned(),
            RuntimeError::WrongArity(builtin) => arity_message(*builtin).to_owned(),
            RuntimeError::Unsupported(opcode) => "Unsupported instruction".to_owned(),
            RuntimeError::UnexpectedReply => "Unexpected reply from the host".to_owned(),
        }
    }
}

} // verus!
